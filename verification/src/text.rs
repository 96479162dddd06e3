//! Character-level text helpers shared by the sentence parsers: whitespace
//! trimming, field splitting and decimal parsing, each with its mathematical
//! definition.
use vstd::prelude::*;

verus! {

broadcast use vstd::string::group_string_axioms;

/// The Unicode `White_Space` code points (the set `char::is_whitespace` tests).
pub open spec fn spec_is_whitespace(c: char) -> bool {
    let u = c as u32;
    ||| 0x09 <= u <= 0x0d
    ||| u == 0x20
    ||| u == 0x85
    ||| u == 0xa0
    ||| u == 0x1680
    ||| 0x2000 <= u <= 0x200a
    ||| u == 0x2028
    ||| u == 0x2029
    ||| u == 0x202f
    ||| u == 0x205f
    ||| u == 0x3000
}

/// Whether `c` is a Unicode whitespace character.
pub fn is_whitespace(c: char) -> (b: bool)
    ensures
        b == spec_is_whitespace(c),
{
    let u = c as u32;
    (0x09 <= u && u <= 0x0d) || u == 0x20 || u == 0x85 || u == 0xa0 || u == 0x1680 || (0x2000 <= u
        && u <= 0x200a) || u == 0x2028 || u == 0x2029 || u == 0x202f || u == 0x205f || u == 0x3000
}

/// `s` without its trailing whitespace.
pub open spec fn trim_end_spec(s: Seq<char>) -> Seq<char>
    decreases s.len(),
{
    if s.len() > 0 && spec_is_whitespace(s.last()) {
        trim_end_spec(s.drop_last())
    } else {
        s
    }
}

/// `s` without its leading whitespace.
pub open spec fn trim_start_spec(s: Seq<char>) -> Seq<char>
    decreases s.len(),
{
    if s.len() > 0 && spec_is_whitespace(s[0]) {
        trim_start_spec(s.drop_first())
    } else {
        s
    }
}

/// `s` without leading and trailing whitespace.
pub open spec fn trim_spec(s: Seq<char>) -> Seq<char> {
    trim_end_spec(trim_start_spec(s))
}

/// The fields of `s` separated by `sep` (an empty text has one empty field).
pub open spec fn split_spec(s: Seq<char>, sep: char) -> Seq<Seq<char>>
    decreases s.len(),
{
    if s.len() == 0 {
        seq![Seq::<char>::empty()]
    } else {
        let prev = split_spec(s.drop_last(), sep);
        if s.last() == sep {
            prev.push(Seq::<char>::empty())
        } else {
            prev.update(prev.len() - 1, prev.last().push(s.last()))
        }
    }
}

/// Whether `c` is an ASCII decimal digit.
pub open spec fn is_digit(c: char) -> bool {
    '0' <= c <= '9'
}

/// The value of a string of decimal digits.
pub open spec fn decimal_value(s: Seq<char>) -> nat
    decreases s.len(),
{
    if s.len() == 0 {
        0
    } else {
        decimal_value(s.drop_last()) * 10 + ((s.last() as u32) - ('0' as u32)) as nat
    }
}

/// Whether every character of `d` is an ASCII digit.
pub open spec fn all_digits(d: Seq<char>) -> bool {
    forall|i: int| 0 <= i < d.len() ==> is_digit(#[trigger] d[i])
}

/// `s` without one leading `+` sign, if it has one.
pub open spec fn unsigned_part(s: Seq<char>) -> Seq<char> {
    if s.len() > 0 && s[0] == '+' {
        s.drop_first()
    } else {
        s
    }
}

/// What `u32::from_str` accepts: an optional `+`, then one or more ASCII
/// digits whose value fits in a `u32`.
pub open spec fn parse_u32_spec(s: Seq<char>) -> Option<u32> {
    let digits = unsigned_part(s);
    if digits.len() == 0 {
        None
    } else if !all_digits(digits) {
        None
    } else if decimal_value(digits) > u32::MAX {
        None
    } else {
        Some(decimal_value(digits) as u32)
    }
}

/// The characters of `s`, in order.
pub fn chars_of(s: &str) -> (v: Vec<char>)
    ensures
        v@ == s@,
{
    let n = s.unicode_len();
    let mut v: Vec<char> = Vec::new();
    let mut i: usize = 0;
    while i < n
        invariant
            n == s@.len(),
            i <= n,
            v@ == s@.subrange(0, i as int),
        decreases n - i,
    {
        let c = s.get_char(i);
        v.push(c);
        i = i + 1;
    }
    v
}

/// Appends one character to a string (`String::push`).
#[verifier::external_body]
pub(crate) fn push_char(s: &mut String, c: char)
    ensures
        final(s)@ == old(s)@.push(c),
{
    s.push(c);
}

/// A new string holding exactly the given characters.
pub fn string_of(chars: &[char]) -> (s: String)
    ensures
        s@ == chars@,
{
    let mut s = String::new();
    let mut i: usize = 0;
    while i < chars.len()
        invariant
            i <= chars@.len(),
            s@ == chars@.subrange(0, i as int),
        decreases chars@.len() - i,
    {
        push_char(&mut s, chars[i]);
        i = i + 1;
    }
    s
}

/// A new string holding the text of `lit`.
pub fn owned(lit: &str) -> (s: String)
    ensures
        s@ == lit@,
{
    lit.to_owned()
}

proof fn lemma_trim_end_step(s: Seq<char>, k: int)
    requires
        0 <= k < s.len(),
        forall|j: int| k < j < s.len() ==> spec_is_whitespace(#[trigger] s[j]),
    ensures
        trim_end_spec(s) == trim_end_spec(s.subrange(0, k + 1)),
    decreases s.len() - k,
{
    if k + 1 < s.len() {
        assert(s.drop_last() == s.subrange(0, s.len() - 1));
        lemma_trim_end_step(s.drop_last(), k);
        assert(s.drop_last().subrange(0, k + 1) == s.subrange(0, k + 1));
    } else {
        assert(s.subrange(0, k + 1) == s);
    }
}

/// The range `[lo, hi)` of `s` left after trimming trailing whitespace from `s[..hi]`.
fn trim_end_len(s: &[char], hi: usize) -> (r: usize)
    requires
        hi <= s@.len(),
    ensures
        r <= hi,
        trim_end_spec(s@.subrange(0, hi as int)) == s@.subrange(0, r as int),
{
    let mut r = hi;
    while r > 0 && is_whitespace(s[r - 1])
        invariant
            r <= hi <= s@.len(),
            trim_end_spec(s@.subrange(0, hi as int)) == trim_end_spec(s@.subrange(0, r as int)),
        decreases r,
    {
        proof {
            let t = s@.subrange(0, r as int);
            assert(t.drop_last() == s@.subrange(0, r - 1));
        }
        r = r - 1;
    }
    proof {
        let t = s@.subrange(0, r as int);
        if r > 0 {
            assert(t.last() == s@[r - 1]);
        }
    }
    r
}

/// `chars` without leading and trailing whitespace (`str::trim`).
pub fn trim(chars: &[char]) -> (r: Vec<char>)
    ensures
        r@ == trim_spec(chars@),
{
    let n = chars.len();
    let mut lo: usize = 0;
    assert(chars@.subrange(0, n as int) == chars@);
    while lo < n && is_whitespace(chars[lo])
        invariant
            lo <= n == chars@.len(),
            trim_start_spec(chars@) == trim_start_spec(chars@.subrange(lo as int, n as int)),
        decreases n - lo,
    {
        proof {
            let t = chars@.subrange(lo as int, n as int);
            assert(t.drop_first() == chars@.subrange(lo + 1, n as int));
        }
        lo = lo + 1;
    }
    let ghost front = chars@.subrange(lo as int, n as int);
    assert(trim_start_spec(front) == front) by {
        if front.len() > 0 {
            assert(front[0] == chars@[lo as int]);
        }
    }
    let mut rest: Vec<char> = Vec::new();
    let mut i = lo;
    while i < n
        invariant
            lo <= i <= n == chars@.len(),
            rest@ == chars@.subrange(lo as int, i as int),
        decreases n - i,
    {
        rest.push(chars[i]);
        i = i + 1;
    }
    let m = trim_end_len(rest.as_slice(), rest.len());
    assert(rest@.subrange(0, rest@.len() as int) == rest@);
    let mut out: Vec<char> = Vec::new();
    let mut j: usize = 0;
    while j < m
        invariant
            m <= rest@.len(),
            j <= m,
            out@ == rest@.subrange(0, j as int),
        decreases m - j,
    {
        out.push(rest[j]);
        j = j + 1;
    }
    out
}

/// `chars` without trailing whitespace (`str::trim_end`).
pub fn trim_end(chars: &[char]) -> (r: Vec<char>)
    ensures
        r@ == trim_end_spec(chars@),
{
    let m = trim_end_len(chars, chars.len());
    assert(chars@.subrange(0, chars@.len() as int) == chars@);
    let mut out: Vec<char> = Vec::new();
    let mut j: usize = 0;
    while j < m
        invariant
            m <= chars@.len(),
            j <= m,
            out@ == chars@.subrange(0, j as int),
        decreases m - j,
    {
        out.push(chars[j]);
        j = j + 1;
    }
    out
}

/// The fields of `chars` separated by `sep` (`str::split`).
pub fn split(chars: &[char], sep: char) -> (r: Vec<Vec<char>>)
    ensures
        r@.len() == split_spec(chars@, sep).len(),
        forall|i: int| 0 <= i < r@.len() ==> #[trigger] r@[i]@ == split_spec(chars@, sep)[i],
{
    let mut done: Vec<Vec<char>> = Vec::new();
    let mut cur: Vec<char> = Vec::new();
    let mut i: usize = 0;
    while i < chars.len()
        invariant
            i <= chars@.len(),
            done@.len() + 1 == split_spec(chars@.subrange(0, i as int), sep).len(),
            forall|k: int|
                0 <= k < done@.len() ==> #[trigger] done@[k]@ == split_spec(
                    chars@.subrange(0, i as int),
                    sep,
                )[k],
            cur@ == split_spec(chars@.subrange(0, i as int), sep).last(),
        decreases chars@.len() - i,
    {
        let c = chars[i];
        proof {
            let p = chars@.subrange(0, i + 1);
            assert(p.drop_last() == chars@.subrange(0, i as int));
            assert(p.last() == c);
        }
        if c == sep {
            let mut finished: Vec<char> = Vec::new();
            std::mem::swap(&mut finished, &mut cur);
            done.push(finished);
        } else {
            cur.push(c);
        }
        i = i + 1;
    }
    assert(chars@.subrange(0, chars@.len() as int) == chars@);
    done.push(cur);
    done
}

/// Parses `chars` as `u32::from_str` does; `None` where it returns an error.
pub fn parse_u32(chars: &[char]) -> (r: Option<u32>)
    ensures
        r == parse_u32_spec(chars@),
{
    let ghost digits = if chars@.len() > 0 && chars@[0] == '+' {
        chars@.drop_first()
    } else {
        chars@
    };
    let start: usize = if chars.len() > 0 && chars[0] == '+' {
        1
    } else {
        0
    };
    assert(digits == chars@.subrange(start as int, chars@.len() as int));
    if start == chars.len() {
        return None;
    }
    let mut value: u64 = 0;
    let mut i = start;
    while i < chars.len()
        invariant
            start <= i <= chars@.len(),
            digits == chars@.subrange(start as int, chars@.len() as int),
            digits == (if chars@.len() > 0 && chars@[0] == '+' {
                chars@.drop_first()
            } else {
                chars@
            }),
            forall|k: int| start <= k < i ==> is_digit(#[trigger] chars@[k]),
            value == decimal_value(chars@.subrange(start as int, i as int)),
            value <= u32::MAX,
        decreases chars@.len() - i,
    {
        let c = chars[i];
        if !('0' <= c && c <= '9') {
            proof {
                let w = i - start;
                assert(digits[w] == chars@[i as int]);
                assert(!is_digit(digits[w]));
                assert(!all_digits(digits));
            }
            return None;
        }
        let d = (c as u32 - '0' as u32) as u64;
        proof {
            let p = chars@.subrange(start as int, i + 1);
            assert(p.drop_last() == chars@.subrange(start as int, i as int));
        }
        value = value * 10 + d;
        if value > 0xffff_ffffu64 {
            proof {
                let j = (i - start + 1) as int;
                assert(digits.subrange(0, j) == chars@.subrange(start as int, i + 1));
                if all_digits(digits) {
                    lemma_decimal_prefix_grows(digits, j);
                    assert(decimal_value(digits) > u32::MAX);
                } else {
                    let w = choose|k: int| 0 <= k < digits.len() && !is_digit(#[trigger] digits[k]);
                    assert(!is_digit(digits[w]));
                }
            }
            return None;
        }
        i = i + 1;
    }
    assert(chars@.subrange(start as int, chars@.len() as int) == digits);
    assert forall|k: int| 0 <= k < digits.len() implies is_digit(#[trigger] digits[k]) by {
        assert(digits[k] == chars@[start + k]);
    }
    Some(value as u32)
}

/// A digit string's value is at least the value of any of its prefixes.
proof fn lemma_decimal_prefix_grows(s: Seq<char>, k: int)
    requires
        0 <= k <= s.len(),
        forall|i: int| 0 <= i < s.len() ==> is_digit(#[trigger] s[i]),
    ensures
        decimal_value(s.subrange(0, k)) <= decimal_value(s),
    decreases s.len(),
{
    if k < s.len() {
        let t = s.drop_last();
        assert forall|i: int| 0 <= i < t.len() implies is_digit(#[trigger] t[i]) by {
            assert(t[i] == s[i]);
        }
        lemma_decimal_prefix_grows(t, k);
        assert(t.subrange(0, k) == s.subrange(0, k));
    } else {
        assert(s.subrange(0, k) == s);
    }
}


proof fn lemma_trim_end_len(s: Seq<char>)
    ensures
        trim_end_spec(s).len() <= s.len(),
    decreases s.len(),
{
    if s.len() > 0 && spec_is_whitespace(s.last()) {
        lemma_trim_end_len(s.drop_last());
    }
}

proof fn lemma_trim_start_len(s: Seq<char>)
    ensures
        trim_start_spec(s).len() <= s.len(),
    decreases s.len(),
{
    if s.len() > 0 && spec_is_whitespace(s[0]) {
        lemma_trim_start_len(s.drop_first());
    }
}

/// Trimming never lengthens a text.
pub proof fn lemma_trim_len(s: Seq<char>)
    ensures
        trim_spec(s).len() <= s.len(),
{
    lemma_trim_start_len(s);
    lemma_trim_end_len(trim_start_spec(s));
}

/// No field of a split text is longer than the text.
pub proof fn lemma_split_len(s: Seq<char>, sep: char, k: int)
    ensures
        0 <= k < split_spec(s, sep).len() ==> split_spec(s, sep)[k].len() <= s.len(),
        split_spec(s, sep).len() >= 1,
    decreases s.len(),
{
    if s.len() > 0 {
        lemma_split_len(s.drop_last(), sep, k);
    }
}


/// Whether two texts are equal, character by character.
pub fn same_text(a: &str, b: &str) -> (r: bool)
    ensures
        r == (a@ == b@),
{
    let x = chars_of(a);
    let y = chars_of(b);
    if x.len() != y.len() {
        return false;
    }
    let mut i: usize = 0;
    while i < x.len()
        invariant
            x@ == a@,
            y@ == b@,
            x@.len() == y@.len(),
            i <= x@.len(),
            forall|k: int| 0 <= k < i ==> x@[k] == y@[k],
        decreases x@.len() - i,
    {
        if x[i] != y[i] {
            return false;
        }
        i = i + 1;
    }
    assert(x@ =~= y@);
    true
}

/// The decimal digits of `n` (no sign, no leading zeros; `0` for zero).
pub open spec fn decimal_digits(n: nat) -> Seq<char>
    decreases n,
{
    if n < 10 {
        seq![((n + 48) as u8) as char]
    } else {
        decimal_digits(n / 10).push((((n % 10) + 48) as u8) as char)
    }
}

/// The decimal text of `n` (what `format!("{}", n)` gives).
pub fn decimal_string(n: usize) -> (s: String)
    ensures
        s@ == decimal_digits(n as nat),
    decreases n,
{
    if n < 10 {
        let mut s = String::new();
        push_char(&mut s, ((n as u8) + 48) as char);
        assert(s@ =~= decimal_digits(n as nat));
        s
    } else {
        let mut s = decimal_string(n / 10);
        push_char(&mut s, (((n % 10) as u8) + 48) as char);
        s
    }
}

/// `a` followed by `b` (`String` concatenation).
pub fn concat(a: String, b: &str) -> (s: String)
    ensures
        s@ == a@ + b@,
{
    let mut s = a;
    s.append(b);
    s
}


/// Trailing trimming keeps a prefix that is empty or ends in a non-whitespace character.
proof fn lemma_trim_end_shape(s: Seq<char>)
    ensures
        trim_end_spec(s).len() <= s.len(),
        trim_end_spec(s) == s.subrange(0, trim_end_spec(s).len() as int),
        trim_end_spec(s).len() == 0 || !spec_is_whitespace(trim_end_spec(s).last()),
    decreases s.len(),
{
    if s.len() > 0 && spec_is_whitespace(s.last()) {
        lemma_trim_end_shape(s.drop_last());
        let k = trim_end_spec(s.drop_last()).len() as int;
        assert(s.drop_last().subrange(0, k) == s.subrange(0, k));
    } else {
        assert(s.subrange(0, s.len() as int) == s);
    }
}

/// Leading trimming keeps a suffix that is empty or starts with a non-whitespace character.
proof fn lemma_trim_start_shape(s: Seq<char>)
    ensures
        trim_start_spec(s).len() == 0 || !spec_is_whitespace(trim_start_spec(s)[0]),
    decreases s.len(),
{
    if s.len() > 0 && spec_is_whitespace(s[0]) {
        lemma_trim_start_shape(s.drop_first());
    }
}

/// Trimming is idempotent: a trimmed text has no surrounding whitespace left.
pub proof fn law_trim_idempotent(s: Seq<char>)
    ensures
        trim_spec(trim_spec(s)) == trim_spec(s),
{
    let t = trim_start_spec(s);
    let u = trim_end_spec(t);
    lemma_trim_start_shape(s);
    lemma_trim_end_shape(t);
    if u.len() > 0 {
        assert(u[0] == t[0]);
    }
    assert(trim_start_spec(u) == u);
    assert(trim_end_spec(u) == u);
}

/// Leading trimming removes whitespace only: it keeps a suffix, and what it
/// drops is whitespace.
proof fn lemma_trim_start_suffix(s: Seq<char>)
    ensures
        trim_start_spec(s).len() <= s.len(),
        trim_start_spec(s) == s.subrange(s.len() - trim_start_spec(s).len(), s.len() as int),
        forall|i: int|
            0 <= i < s.len() - trim_start_spec(s).len() ==> spec_is_whitespace(#[trigger] s[i]),
    decreases s.len(),
{
    if s.len() > 0 && spec_is_whitespace(s[0]) {
        let r = s.drop_first();
        lemma_trim_start_suffix(r);
        let k = trim_start_spec(r).len();
        assert(r.subrange(r.len() - k, r.len() as int) =~= s.subrange(s.len() - k, s.len() as int));
        assert forall|i: int| 0 <= i < s.len() - k implies spec_is_whitespace(#[trigger] s[i]) by {
            if i > 0 {
                assert(s[i] == r[i - 1]);
            }
        }
    } else {
        assert(s.subrange(0, s.len() as int) =~= s);
    }
}

/// Trailing trimming removes whitespace only.
proof fn lemma_trim_end_drops_whitespace(s: Seq<char>)
    ensures
        forall|i: int|
            trim_end_spec(s).len() <= i < s.len() ==> spec_is_whitespace(#[trigger] s[i]),
    decreases s.len(),
{
    lemma_trim_end_shape(s);
    if s.len() > 0 && spec_is_whitespace(s.last()) {
        let r = s.drop_last();
        lemma_trim_end_drops_whitespace(r);
        assert forall|i: int| trim_end_spec(s).len() <= i < s.len() implies spec_is_whitespace(
            #[trigger] s[i],
        ) by {
            if i < s.len() - 1 {
                assert(s[i] == r[i]);
            }
        }
    }
}

/// Trimming cuts out one contiguous piece of the text: everything before and
/// after it is whitespace, and the piece is empty or begins and ends with a
/// character that is not whitespace.
pub proof fn law_trim_cuts_whitespace(s: Seq<char>)
    ensures
        exists|a: int, b: int|
            {
                &&& 0 <= a <= b <= s.len()
                &&& #[trigger] s.subrange(a, b) == trim_spec(s)
                &&& forall|i: int| 0 <= i < a ==> spec_is_whitespace(#[trigger] s[i])
                &&& forall|i: int| b <= i < s.len() ==> spec_is_whitespace(#[trigger] s[i])
            },
        trim_spec(s).len() == 0 || (!spec_is_whitespace(trim_spec(s)[0]) && !spec_is_whitespace(
            trim_spec(s).last(),
        )),
{
    let t = trim_start_spec(s);
    let u = trim_end_spec(t);
    lemma_trim_start_suffix(s);
    lemma_trim_start_shape(s);
    lemma_trim_end_shape(t);
    lemma_trim_end_drops_whitespace(t);
    let a = s.len() - t.len();
    let b = a + u.len();
    assert(s.subrange(a, b) =~= u) by {
        assert forall|i: int| 0 <= i < u.len() implies s.subrange(a, b)[i] == u[i] by {
            assert(u[i] == t.subrange(0, u.len() as int)[i]);
            assert(t[i] == s.subrange(a, s.len() as int)[i]);
        }
    }
    assert forall|i: int| b <= i < s.len() implies spec_is_whitespace(#[trigger] s[i]) by {
        assert(s[i] == t[i - a]);
        assert(spec_is_whitespace(t[i - a]));
    }
    if u.len() > 0 {
        assert(u[0] == t[0]);
    }
    assert(s.subrange(a, b) == trim_spec(s));
}

/// The fields separated by `sep`, joined again with `sep`.
pub open spec fn join_spec(fields: Seq<Seq<char>>, sep: char) -> Seq<char>
    decreases fields.len(),
{
    if fields.len() == 0 {
        Seq::empty()
    } else if fields.len() == 1 {
        fields[0]
    } else {
        join_spec(fields.drop_last(), sep).push(sep) + fields.last()
    }
}

/// Splitting loses nothing and finds every separator: no field holds `sep`,
/// and joining the fields with `sep` gives the text back.
pub proof fn law_split_join(s: Seq<char>, sep: char)
    ensures
        join_spec(split_spec(s, sep), sep) == s,
        forall|k: int, i: int|
            0 <= k < split_spec(s, sep).len() && 0 <= i < split_spec(s, sep)[k].len() ==> #[trigger] split_spec(
                s,
                sep,
            )[k][i] != sep,
    decreases s.len(),
{
    lemma_split_len(s, sep, 0);
    if s.len() > 0 {
        let r = s.drop_last();
        let prev = split_spec(r, sep);
        law_split_join(r, sep);
        lemma_split_len(r, sep, 0);
        let c = s.last();
        let f = split_spec(s, sep);
        if c == sep {
            assert(f == prev.push(Seq::<char>::empty()));
            assert(f.drop_last() =~= prev);
            assert(join_spec(f, sep) =~= s);
            assert forall|k: int, i: int| 0 <= k < f.len() && 0 <= i < f[k].len() implies #[trigger] f[k][i]
                != sep by {
                assert(k < prev.len());
                assert(f[k] == prev[k]);
            }
        } else {
            let last = prev.last().push(c);
            assert(f == prev.update(prev.len() - 1, last));
            if prev.len() == 1 {
                assert(join_spec(f, sep) == f[0]);
                assert(f[0] =~= s);
            } else {
                assert(f.drop_last() =~= prev.drop_last());
                let head = join_spec(prev.drop_last(), sep).push(sep);
                assert(join_spec(prev, sep) == head + prev.last());
                assert(f.len() == prev.len());
                assert(f.last() == last);
                assert(join_spec(f, sep) == join_spec(f.drop_last(), sep).push(sep) + f.last());
                assert(join_spec(f, sep) == head + last);
                assert(head + last =~= (head + prev.last()).push(c));
                assert(r.push(c) =~= s);
            }
            assert forall|k: int, i: int| 0 <= k < f.len() && 0 <= i < f[k].len() implies #[trigger] f[k][i]
                != sep by {
                if k < prev.len() - 1 {
                    assert(f[k] == prev[k]);
                } else if i < prev.last().len() {
                    assert(f[k][i] == prev[k][i]);
                }
            }
        }
    } else {
        assert(join_spec(split_spec(s, sep), sep) =~= s);
    }
}

proof fn lemma_decimal_digits_value(n: nat)
    ensures
        decimal_digits(n).len() >= 1,
        all_digits(decimal_digits(n)),
        decimal_value(decimal_digits(n)) == n,
    decreases n,
{
    let d = decimal_digits(n);
    if n < 10 {
        let c = ((n + 48) as u8) as char;
        assert(c as u32 == n + 48);
        assert(d.drop_last() =~= Seq::<char>::empty());
        assert(decimal_value(d.drop_last()) == 0);
        assert('0' as u32 == 48);
        assert(d.last() == c);
        assert(is_digit(d[0]));
    } else {
        lemma_decimal_digits_value(n / 10);
        let c = (((n % 10) + 48) as u8) as char;
        assert(c as u32 == n % 10 + 48);
        assert(d.drop_last() =~= decimal_digits(n / 10));
        assert(d.last() == c);
        assert('0' as u32 == 48);
        assert((n / 10) * 10 + n % 10 == n) by (nonlinear_arith);
        assert forall|i: int| 0 <= i < d.len() implies is_digit(#[trigger] d[i]) by {
            if i < d.len() - 1 {
                assert(d[i] == decimal_digits(n / 10)[i]);
            }
        }
    }
}

/// Reading back a number's decimal text gives the number: parsing inverts
/// `decimal_digits` on every `u32`.
pub proof fn law_parse_decimal_round_trip(n: u32)
    ensures
        parse_u32_spec(decimal_digits(n as nat)) == Some(n),
{
    lemma_decimal_digits_value(n as nat);
    let d = decimal_digits(n as nat);
    assert(is_digit(d[0]));
    assert(unsigned_part(d) == d);
}

} // verus!
