//! Deterministic offline text hashing for the retrieval memory.
use vstd::prelude::*;
use crate::text::{chars_of, string_of, concat, decimal_digits, decimal_string, owned, trim_end, trim_end_spec};

verus! {

/// FNV-1a 64-bit offset basis.
pub const FNV_OFFSET: u64 = 0xcbf2_9ce4_8422_2325;

/// FNV-1a 64-bit prime.
pub const FNV_PRIME: u64 = 0x0000_0100_0000_01b3;

/// FNV-1a over a byte sequence: xor each byte in, then multiply (mod 2^64).
pub open spec fn fnv1a_spec(bytes: Seq<u8>) -> u64
    decreases bytes.len(),
{
    if bytes.len() == 0 {
        FNV_OFFSET
    } else {
        let h = fnv1a_spec(bytes.drop_last()) ^ (bytes.last() as u64);
        ((h as nat * FNV_PRIME as nat) % 0x1_0000_0000_0000_0000nat) as u64
    }
}

/// FNV-1a hash of the UTF-8 bytes of `s` (stable, dependency-free).
pub fn fnv1a(s: &str) -> (h: u64)
    ensures
        h == fnv1a_spec(vstd::string::StringSliceAdditionalSpecFns::spec_bytes(s)),
{
    let bytes = s.as_bytes();
    let mut h: u64 = FNV_OFFSET;
    let mut i: usize = 0;
    while i < bytes.len()
        invariant
            bytes@ == vstd::string::StringSliceAdditionalSpecFns::spec_bytes(s),
            i <= bytes@.len(),
            h == fnv1a_spec(bytes@.subrange(0, i as int)),
        decreases bytes@.len() - i,
    {
        proof {
            assert(bytes@.subrange(0, i + 1).drop_last() == bytes@.subrange(0, i as int));
        }
        h = h ^ (bytes[i] as u64);
        h = h.wrapping_mul(FNV_PRIME);
        i = i + 1;
    }
    assert(bytes@.subrange(0, bytes@.len() as int) == bytes@);
    h
}

/// Whether `c` is alphanumeric in the sense of `char::is_alphanumeric`
/// (Unicode `Alphabetic` or numeric).
pub uninterp spec fn alphanumeric(c: char) -> bool;

/// `char::is_alphanumeric`. Its result is named, not restated: the Unicode
/// tables it consults are not written out here.
#[verifier::external_body]
fn is_alphanumeric(c: char) -> (b: bool)
    ensures
        b == alphanumeric(c),
{
    c.is_alphanumeric()
}

/// The lowercase mapping of `str::to_lowercase`.
pub uninterp spec fn lowercase(s: Seq<char>) -> Seq<char>;

/// `str::to_lowercase`. Its result is named, not restated: the Unicode case
/// tables (and the context-dependent final sigma) are not written out here.
#[verifier::external_body]
fn to_lowercase(s: &str) -> (r: String)
    ensures
        r@ == lowercase(s@),
{
    s.to_lowercase()
}

/// The tokens of `s`: its maximal runs of alphanumeric characters, in order.
pub open spec fn tokens(s: Seq<char>) -> Seq<Seq<char>>
    decreases s.len(),
{
    if s.len() == 0 {
        Seq::empty()
    } else {
        let prev = tokens(s.drop_last());
        let c = s.last();
        if !alphanumeric(c) {
            prev
        } else if s.len() >= 2 && alphanumeric(s[s.len() - 2]) {
            prev.update(prev.len() - 1, prev.last().push(c))
        } else {
            prev.push(seq![c])
        }
    }
}

/// The hash of each token of `s`: FNV-1a of the UTF-8 bytes of its lowercase form.
pub open spec fn token_hashes(s: Seq<char>) -> Seq<u64> {
    tokens(s).map_values(|t: Seq<char>| fnv1a_spec(vstd::utf8::encode_utf8(lowercase(t))))
}

/// How many of `hs` fall into bucket `b` of `dim` buckets (`h % dim == b`).
pub open spec fn bucket_count(hs: Seq<u64>, dim: nat, b: nat) -> nat
    decreases hs.len(),
{
    if hs.len() == 0 {
        0
    } else {
        bucket_count(hs.drop_last(), dim, b) + if (hs.last() as nat) % dim == b {
            1nat
        } else {
            0nat
        }
    }
}

/// Splits `text` into its tokens (maximal alphanumeric runs).
pub fn tokenize(text: &str) -> (toks: Vec<Vec<char>>)
    ensures
        toks@.len() == tokens(text@).len(),
        forall|j: int| 0 <= j < toks@.len() ==> #[trigger] toks@[j]@ == tokens(text@)[j],
{
    let chars = chars_of(text);
    let ghost s = text@;
    let mut toks: Vec<Vec<char>> = Vec::new();
    let mut prev_alnum = false;
    let mut i: usize = 0;
    while i < chars.len()
        invariant
            chars@ == s,
            i <= s.len(),
            prev_alnum == (i > 0 && alphanumeric(s[i - 1])),
            prev_alnum ==> toks@.len() > 0,
            toks@.len() == tokens(s.subrange(0, i as int)).len(),
            forall|j: int|
                0 <= j < toks@.len() ==> #[trigger] toks@[j]@ == tokens(s.subrange(0, i as int))[j],
        decreases s.len() - i,
    {
        let c = chars[i];
        let a = is_alphanumeric(c);
        let ghost prev = tokens(s.subrange(0, i as int));
        proof {
            let t = s.subrange(0, i + 1);
            assert(t.drop_last() == s.subrange(0, i as int));
            assert(t.last() == c);
            if i > 0 {
                assert(t[t.len() - 2] == s[i - 1]);
            }
        }
        if a {
            if prev_alnum {
                let mut last = toks.pop().unwrap();
                last.push(c);
                toks.push(last);
                proof {
                    let now = tokens(s.subrange(0, i + 1));
                    assert(now == prev.update(prev.len() - 1, prev.last().push(c)));
                    assert forall|j: int| 0 <= j < toks@.len() implies #[trigger] toks@[j]@ == now[j] by {
                        if j < toks@.len() - 1 {
                            assert(toks@[j]@ == prev[j]);
                        }
                    }
                }
            } else {
                let mut t: Vec<char> = Vec::new();
                t.push(c);
                toks.push(t);
                proof {
                    let now = tokens(s.subrange(0, i + 1));
                    assert(now == prev.push(seq![c]));
                    assert(t@ == seq![c]);
                    assert forall|j: int| 0 <= j < toks@.len() implies #[trigger] toks@[j]@ == now[j] by {
                        if j < toks@.len() - 1 {
                            assert(toks@[j]@ == prev[j]);
                        }
                    }
                }
            }
        }
        prev_alnum = a;
        i = i + 1;
    }
    proof {
        assert(s.subrange(0, s.len() as int) == s);
    }
    toks
}

/// Counts, for each of `dim` buckets, the hashes falling into it.
pub fn count_buckets(hashes: &[u64], dim: usize) -> (counts: Vec<usize>)
    requires
        dim > 0 || hashes@.len() == 0,
    ensures
        counts@.len() == dim,
        forall|b: int| 0 <= b < dim ==> #[trigger] counts@[b] == bucket_count(hashes@, dim as nat, b as nat),
{
    let mut counts: Vec<usize> = Vec::new();
    let mut k: usize = 0;
    while k < dim
        invariant
            k <= dim,
            counts@.len() == k,
            forall|b: int| 0 <= b < k ==> #[trigger] counts@[b] == 0,
        decreases dim - k,
    {
        counts.push(0);
        k = k + 1;
    }
    let mut i: usize = 0;
    while i < hashes.len()
        invariant
            dim > 0 || hashes@.len() == 0,
            i <= hashes@.len(),
            counts@.len() == dim,
            forall|b: int| 0 <= b < dim ==> #[trigger] counts@[b] == bucket_count(hashes@.subrange(0, i as int), dim as nat, b as nat),
            forall|b: int| 0 <= b < dim ==> #[trigger] counts@[b] <= i,
        decreases hashes@.len() - i,
    {
        let ghost before = counts@;
        let idx = (hashes[i] % (dim as u64)) as usize;
        let v = counts[idx];
        counts.set(idx, v + 1);
        proof {
            let t = hashes@.subrange(0, i + 1);
            assert(t.drop_last() == hashes@.subrange(0, i as int));
            assert(t.last() == hashes@[i as int]);
            assert forall|b: int| 0 <= b < dim implies #[trigger] counts@[b] == bucket_count(t, dim as nat, b as nat) by {
                assert(bucket_count(t, dim as nat, b as nat) == bucket_count(hashes@.subrange(0, i as int), dim as nat, b as nat) + if (hashes@[i as int] as nat) % (dim as nat) == b as nat { 1nat } else { 0nat });
            }
        }
        i = i + 1;
    }
    proof {
        assert(hashes@.subrange(0, hashes@.len() as int) == hashes@);
    }
    counts
}

/// The numbered lines listing `hits[0..n]`: `  [i] <hit>` each, newline-ended.
pub open spec fn hit_lines(hits: Seq<String>, n: int) -> Seq<char>
    decreases n,
{
    if n <= 0 {
        Seq::empty()
    } else {
        hit_lines(hits, n - 1) + "  ["@ + decimal_digits((n - 1) as nat) + "] "@ + hits[n - 1]@
            + "\n"@
    }
}

/// The retrieval tool's answer for the documents found: a "no relevant
/// records" note when there are none, else a numbered list under a heading,
/// without trailing whitespace.
pub open spec fn retrieval_report_spec(hits: Seq<String>) -> Seq<char> {
    if hits.len() == 0 {
        "未找到相关记录"@
    } else {
        trim_end_spec("相关记录：\n"@ + hit_lines(hits, hits.len() as int))
    }
}

/// Formats the documents a retrieval found (most relevant first).
pub fn retrieval_report(hits: &[String]) -> (s: String)
    ensures
        s@ == retrieval_report_spec(hits@),
{
    if hits.len() == 0 {
        return owned("未找到相关记录");
    }
    let mut out = owned("相关记录：\n");
    let ghost head = out@;
    let mut i: usize = 0;
    while i < hits.len()
        invariant
            i <= hits@.len(),
            head == "相关记录：\n"@,
            out@ == head + hit_lines(hits@, i as int),
        decreases hits@.len() - i,
    {
        let line = concat(owned("  ["), decimal_string(i).as_str());
        let line = concat(line, "] ");
        let line = concat(line, hits[i].as_str());
        let line = concat(line, "\n");
        let ghost before = out@;
        out = concat(out, line.as_str());
        proof {
            assert(out@ =~= head + hit_lines(hits@, i + 1));
        }
        i = i + 1;
    }
    let chars = chars_of(out.as_str());
    string_of(trim_end(chars.as_slice()).as_slice())
}

/// Deterministic bag-of-words embedder: tokens are hashed into `dim` buckets.
pub struct MockEmbedder {
    dim: usize,
}

impl MockEmbedder {
    /// An embedder producing vectors of `dim` components.
    pub fn new(dim: usize) -> (e: Self)
        ensures
            e.spec_dim() == dim,
    {
        MockEmbedder { dim }
    }

    pub closed spec fn spec_dim(&self) -> usize {
        self.dim
    }

    /// Bag-of-words counts of `text`: for each of the `dim` buckets, the
    /// number of tokens whose lowercase form hashes into it.
    pub fn token_counts(&self, text: &str) -> (counts: Vec<usize>)
        requires
            self.spec_dim() > 0 || tokens(text@).len() == 0,
        ensures
            counts@.len() == self.spec_dim(),
            forall|b: int|
                0 <= b < self.spec_dim() ==> #[trigger] counts@[b] == bucket_count(
                    token_hashes(text@),
                    self.spec_dim() as nat,
                    b as nat,
                ),
    {
        let toks = tokenize(text);
        let mut hashes: Vec<u64> = Vec::new();
        let mut i: usize = 0;
        while i < toks.len()
            invariant
                i <= toks@.len(),
                toks@.len() == tokens(text@).len(),
                forall|j: int| 0 <= j < toks@.len() ==> #[trigger] toks@[j]@ == tokens(text@)[j],
                hashes@ == token_hashes(text@).subrange(0, i as int),
            decreases toks@.len() - i,
        {
            let word = string_of(toks[i].as_slice());
            let lower = to_lowercase(word.as_str());
            let h = fnv1a(lower.as_str());
            hashes.push(h);
            proof {
                assert(toks@[i as int]@ == tokens(text@)[i as int]);
                assert(hashes@ == token_hashes(text@).subrange(0, i + 1));
            }
            i = i + 1;
        }
        proof {
            assert(hashes@ == token_hashes(text@));
        }
        count_buckets(hashes.as_slice(), self.dim)
    }

    /// Number of vector components.
    pub fn dim(&self) -> (d: usize)
        ensures
            d == self.spec_dim(),
    {
        self.dim
    }
}


impl Default for MockEmbedder {
    /// A 64-dimensional embedder.
    fn default() -> (e: Self)
        ensures
            e.spec_dim() == 64,
    {
        MockEmbedder::new(64)
    }
}

/// The sum of the counts of buckets `0..k`.
pub open spec fn counted_below(hs: Seq<u64>, dim: nat, k: nat) -> nat
    decreases k,
{
    if k == 0 {
        0
    } else {
        counted_below(hs, dim, (k - 1) as nat) + bucket_count(hs, dim, (k - 1) as nat)
    }
}

proof fn lemma_counted_below_push(hs: Seq<u64>, h: u64, dim: nat, k: nat)
    requires
        dim > 0,
    ensures
        counted_below(hs.push(h), dim, k) == counted_below(hs, dim, k) + if (h as nat) % dim < k {
            1nat
        } else {
            0nat
        },
    decreases k,
{
    assert(hs.push(h).drop_last() == hs);
    if k > 0 {
        lemma_counted_below_push(hs, h, dim, (k - 1) as nat);
    }
}

/// Every hash lands in exactly one bucket: the bucket counts add up to the
/// number of hashes (for the embedder, to the number of tokens).
pub proof fn law_counts_add_up(hs: Seq<u64>, dim: nat)
    requires
        dim > 0,
    ensures
        counted_below(hs, dim, dim) == hs.len(),
    decreases hs.len(),
{
    if hs.len() == 0 {
        assert(hs == Seq::<u64>::empty());
        lemma_counted_below_empty(dim, dim);
    } else {
        let prev = hs.drop_last();
        law_counts_add_up(prev, dim);
        assert(prev.push(hs.last()) == hs);
        lemma_counted_below_push(prev, hs.last(), dim, dim);
        assert((hs.last() as nat) % dim < dim) by (nonlinear_arith)
            requires
                dim > 0,
        ;
    }
}

proof fn lemma_counted_below_empty(dim: nat, k: nat)
    ensures
        counted_below(Seq::<u64>::empty(), dim, k) == 0,
    decreases k,
{
    if k > 0 {
        lemma_counted_below_empty(dim, (k - 1) as nat);
    }
}

/// The pieces of `ts`, joined in order.
pub open spec fn joined(ts: Seq<Seq<char>>) -> Seq<char>
    decreases ts.len(),
{
    if ts.len() == 0 {
        Seq::empty()
    } else {
        joined(ts.drop_last()) + ts.last()
    }
}

/// The number of places where a run of alphanumeric characters begins in `s`.
pub open spec fn run_starts(s: Seq<char>) -> nat
    decreases s.len(),
{
    if s.len() == 0 {
        0
    } else {
        run_starts(s.drop_last()) + if alphanumeric(s.last()) && !(s.len() >= 2 && alphanumeric(
            s[s.len() - 2],
        )) {
            1nat
        } else {
            0nat
        }
    }
}

/// The tokens are the maximal alphanumeric runs: each is a non-empty run of
/// alphanumeric characters, together and in order they are exactly the
/// alphanumeric characters of the text, and there is one per place where a
/// run begins.
pub proof fn law_tokens_are_runs(s: Seq<char>)
    ensures
        forall|j: int| 0 <= j < tokens(s).len() ==> #[trigger] tokens(s)[j].len() > 0,
        forall|j: int, i: int|
            0 <= j < tokens(s).len() && 0 <= i < tokens(s)[j].len() ==> alphanumeric(
                #[trigger] tokens(s)[j][i],
            ),
        joined(tokens(s)) == s.filter(|c: char| alphanumeric(c)),
        tokens(s).len() == run_starts(s),
        s.len() > 0 && alphanumeric(s.last()) ==> tokens(s).len() > 0,
    decreases s.len(),
{
    reveal_with_fuel(Seq::filter, 1);
    if s.len() > 0 {
        let r = s.drop_last();
        let prev = tokens(r);
        law_tokens_are_runs(r);
        let c = s.last();
        let t = tokens(s);
        assert(s.filter(|c: char| alphanumeric(c)) == if alphanumeric(c) {
            r.filter(|c: char| alphanumeric(c)).push(c)
        } else {
            r.filter(|c: char| alphanumeric(c))
        });
        if !alphanumeric(c) {
            assert(t == prev);
        } else if s.len() >= 2 && alphanumeric(s[s.len() - 2]) {
            assert(r.last() == s[s.len() - 2]);
            assert(prev.len() > 0);
            let last = prev.last().push(c);
            assert(t == prev.update(prev.len() - 1, last));
            assert(t.drop_last() =~= prev.drop_last());
            assert(joined(prev) == joined(prev.drop_last()) + prev.last());
            assert(joined(t) == joined(t.drop_last()) + t.last());
            assert(joined(t) =~= joined(prev).push(c));
            assert forall|j: int, i: int|
                0 <= j < t.len() && 0 <= i < t[j].len() implies alphanumeric(#[trigger] t[j][i]) by {
                if j < prev.len() - 1 {
                    assert(t[j] == prev[j]);
                } else if i < prev.last().len() {
                    assert(t[j][i] == prev[j][i]);
                }
            }
            assert forall|j: int| 0 <= j < t.len() implies #[trigger] t[j].len() > 0 by {
                if j < prev.len() - 1 {
                    assert(t[j] == prev[j]);
                }
            }
        } else {
            assert(t == prev.push(seq![c]));
            assert(t.drop_last() =~= prev);
            assert(joined(t) =~= joined(prev).push(c));
            assert forall|j: int, i: int|
                0 <= j < t.len() && 0 <= i < t[j].len() implies alphanumeric(#[trigger] t[j][i]) by {
                if j < prev.len() {
                    assert(t[j] == prev[j]);
                }
            }
            assert forall|j: int| 0 <= j < t.len() implies #[trigger] t[j].len() > 0 by {
                if j < prev.len() {
                    assert(t[j] == prev[j]);
                }
            }
        }
    } else {
        assert(s.filter(|c: char| alphanumeric(c)) =~= Seq::<char>::empty());
    }
}

} // verus!
