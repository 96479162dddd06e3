//! AIS (Automatic Identification System) sentence decoding: the input layer of
//! multi-vessel encounter awareness.
//!
//! Decodes the 6-bit armoured payload of single-fragment NMEA 0183
//! `!AIVDM` / `!AIVDO` sentences into:
//! - types 1/2/3: class A position reports,
//! - type 18: class B position reports,
//! - type 5: static and voyage data.
//!
//! Every field is kept in the units the message carries (tenths of a knot,
//! tenths of a degree, 1/600000 of a degree); a field that the message marks
//! "not available" is `None`.
use vstd::prelude::*;
use vstd::arithmetic::power2::{pow2, lemma_pow2_unfold, lemma_pow2_strictly_increases, lemma2_to64};
use crate::text::{
    chars_of, owned, push_char, string_of, trim, trim_end, split, parse_u32, trim_spec,
    trim_end_spec, split_spec, parse_u32_spec, lemma_trim_len, lemma_split_len, concat,
    decimal_digits, decimal_string, law_trim_idempotent,
};

verus! {

/// AIS decoding errors.
#[derive(Debug, Clone, PartialEq, Eq)]
pub enum AisError {
    /// Not an AIVDM/AIVDO sentence.
    NotAisSentence,
    /// Multi-fragment messages are not supported.
    MultipartNotSupported { total: u32 },
    /// A missing field or an illegal 6-bit character.
    InvalidPayload(String),
    /// Too few bits for the fields of this message type.
    Truncated { msg_type: u8, have_bits: usize },
}

/// The display text of an AIS error.
pub open spec fn ais_error_text(e: AisError) -> Seq<char> {
    match e {
        AisError::NotAisSentence => "not an AIVDM/AIVDO sentence"@,
        AisError::MultipartNotSupported { total } => "multipart AIS message (fragments="@
            + decimal_digits(total as nat) + ") not supported"@,
        AisError::InvalidPayload(msg) => "invalid AIS payload: "@ + msg@,
        AisError::Truncated { msg_type, have_bits } => "AIS type "@ + decimal_digits(
            msg_type as nat,
        ) + " truncated: have "@ + decimal_digits(have_bits as nat) + " bits"@,
    }
}

impl AisError {
    /// The error's display text.
    pub fn message(&self) -> (s: String)
        ensures
            s@ == ais_error_text(*self),
    {
        match self {
            AisError::NotAisSentence => owned("not an AIVDM/AIVDO sentence"),
            AisError::MultipartNotSupported { total } => {
                let s = concat(owned("multipart AIS message (fragments="), decimal_string(*total as usize).as_str());
                concat(s, ") not supported")
            },
            AisError::InvalidPayload(msg) => concat(owned("invalid AIS payload: "), msg.as_str()),
            AisError::Truncated { msg_type, have_bits } => {
                let s = concat(owned("AIS type "), decimal_string(*msg_type as usize).as_str());
                let s = concat(s, " truncated: have ");
                let s = concat(s, decimal_string(*have_bits).as_str());
                concat(s, " bits")
            },
        }
    }
}

/// Navigation status (class A reports only).
#[derive(Debug, Clone, Copy, PartialEq, Eq, Structural)]
pub enum NavStatus {
    UnderWayUsingEngine,
    AtAnchor,
    NotUnderCommand,
    RestrictedManoeuverability,
    ConstrainedByDraught,
    Moored,
    Aground,
    EngagedInFishing,
    UnderWaySailing,
    /// Not defined, reserved or unknown (code 15).
    Other,
}

/// The navigation status that a 4-bit status code denotes.
pub open spec fn nav_status_of(bits: u32) -> NavStatus {
    if bits == 0 {
        NavStatus::UnderWayUsingEngine
    } else if bits == 1 {
        NavStatus::AtAnchor
    } else if bits == 2 {
        NavStatus::NotUnderCommand
    } else if bits == 3 {
        NavStatus::RestrictedManoeuverability
    } else if bits == 4 {
        NavStatus::ConstrainedByDraught
    } else if bits == 5 {
        NavStatus::Moored
    } else if bits == 6 {
        NavStatus::Aground
    } else if bits == 7 {
        NavStatus::EngagedInFishing
    } else if bits == 8 {
        NavStatus::UnderWaySailing
    } else {
        NavStatus::Other
    }
}

/// The navigation status codes: 0 under way using engine, 1 at anchor, 2 not
/// under command, 3 restricted manoeuvrability, 4 constrained by draught,
/// 5 moored, 6 aground, 7 engaged in fishing, 8 under way sailing; every other
/// code is `Other`.
pub proof fn law_nav_status_codes(v: u32)
    ensures
        nav_status_of(0) == NavStatus::UnderWayUsingEngine,
        nav_status_of(1) == NavStatus::AtAnchor,
        nav_status_of(2) == NavStatus::NotUnderCommand,
        nav_status_of(3) == NavStatus::RestrictedManoeuverability,
        nav_status_of(4) == NavStatus::ConstrainedByDraught,
        nav_status_of(5) == NavStatus::Moored,
        nav_status_of(6) == NavStatus::Aground,
        nav_status_of(7) == NavStatus::EngagedInFishing,
        nav_status_of(8) == NavStatus::UnderWaySailing,
        v > 8 ==> nav_status_of(v) == NavStatus::Other,
{
}

impl NavStatus {
    /// Decodes a navigation status code; codes without a meaning map to `Other`.
    pub fn from_bits(bits: u32) -> (s: Self)
        ensures
            s == nav_status_of(bits),
    {
        match bits {
            0 => NavStatus::UnderWayUsingEngine,
            1 => NavStatus::AtAnchor,
            2 => NavStatus::NotUnderCommand,
            3 => NavStatus::RestrictedManoeuverability,
            4 => NavStatus::ConstrainedByDraught,
            5 => NavStatus::Moored,
            6 => NavStatus::Aground,
            7 => NavStatus::EngagedInFishing,
            8 => NavStatus::UnderWaySailing,
            _ => NavStatus::Other,
        }
    }

    /// The status code of this status (`Other` is 15).
    pub fn to_bits(&self) -> (b: u32)
        ensures
            nav_status_of(b) == *self,
            b <= 15,
    {
        match self {
            NavStatus::UnderWayUsingEngine => 0,
            NavStatus::AtAnchor => 1,
            NavStatus::NotUnderCommand => 2,
            NavStatus::RestrictedManoeuverability => 3,
            NavStatus::ConstrainedByDraught => 4,
            NavStatus::Moored => 5,
            NavStatus::Aground => 6,
            NavStatus::EngagedInFishing => 7,
            NavStatus::UnderWaySailing => 8,
            NavStatus::Other => 15,
        }
    }
}

/// A decoded position report (types 1/2/3 or 18), in message units.
#[derive(Debug, Clone, Copy, PartialEq, Eq, Structural)]
pub struct PositionReport {
    /// Message type (1/2/3/18).
    pub msg_type: u8,
    /// Class B report (type 18).
    pub class_b: bool,
    /// Vessel identifier.
    pub mmsi: u32,
    /// Navigation status (class B always `Other`).
    pub nav_status: NavStatus,
    /// Speed over ground in tenths of a knot (`None`: not available).
    pub sog_tenths: Option<u32>,
    /// Course over ground in tenths of a degree (`None`: not available).
    pub cog_tenths: Option<u32>,
    /// True heading in degrees (`None`: not available).
    pub heading_deg: Option<u32>,
    /// Longitude in 1/600000 degree, east positive (`None`: not available).
    pub longitude_raw: Option<i32>,
    /// Latitude in 1/600000 degree, north positive (`None`: not available).
    pub latitude_raw: Option<i32>,
    /// UTC second of the fix (60 and above: not available).
    pub timestamp_s: u8,
}

/// Static and voyage data (type 5).
#[derive(Debug, Clone, PartialEq, Eq)]
pub struct StaticVoyageData {
    pub mmsi: u32,
    /// IMO number (0: not available).
    pub imo: u32,
    /// Call sign, trailing spaces removed.
    pub callsign: String,
    /// Vessel name, trailing spaces removed.
    pub ship_name: String,
    /// Ship and cargo type.
    pub ship_type: u8,
    /// Dimensions in metres: to stern / to bow / to port / to starboard.
    pub dim_b: u16,
    pub dim_a: u16,
    pub dim_c: u16,
    pub dim_d: u16,
}

/// One decoded AIS message.
#[derive(Debug, Clone, PartialEq, Eq)]
pub enum AisMessage {
    PositionReport(PositionReport),
    StaticVoyage(StaticVoyageData),
    /// A message type that is not decoded further.
    Other { msg_type: u8 },
}

impl AisMessage {
    /// `(longitude, latitude)` in 1/600000 degree, for a position report that has both.
    pub fn position_raw(&self) -> (r: Option<(i32, i32)>)
        ensures
            r == (match self {
                AisMessage::PositionReport(p) => match (p.longitude_raw, p.latitude_raw) {
                    (Some(lon), Some(lat)) => Some((lon, lat)),
                    _ => None,
                },
                _ => None,
            }),
    {
        match self {
            AisMessage::PositionReport(p) => match (p.longitude_raw, p.latitude_raw) {
                (Some(lon), Some(lat)) => Some((lon, lat)),
                _ => None,
            },
            _ => None,
        }
    }

    /// The vessel identifier of the message (0 for an undecoded type).
    pub fn mmsi(&self) -> (m: u32)
        ensures
            m == (match self {
                AisMessage::PositionReport(p) => p.mmsi,
                AisMessage::StaticVoyage(s) => s.mmsi,
                AisMessage::Other { .. } => 0,
            }),
    {
        match self {
            AisMessage::PositionReport(p) => p.mmsi,
            AisMessage::StaticVoyage(s) => s.mmsi,
            AisMessage::Other { .. } => 0,
        }
    }

    /// `(speed, course)` in tenths, for a position report.
    pub fn motion_raw(&self) -> (r: Option<(Option<u32>, Option<u32>)>)
        ensures
            r == (match self {
                AisMessage::PositionReport(p) => Some((p.sog_tenths, p.cog_tenths)),
                _ => None,
            }),
    {
        match self {
            AisMessage::PositionReport(p) => Some((p.sog_tenths, p.cog_tenths)),
            _ => None,
        }
    }
}

// ---------------------------------------------------------------------------
// Bit model
// ---------------------------------------------------------------------------

/// Bit `i` (MSB first) of a byte sequence.
pub open spec fn bit_at(bytes: Seq<u8>, i: int) -> u32 {
    ((bytes[i / 8] >> ((7 - i % 8) as u8)) & 1u8) as u32
}

/// The bits of a byte sequence, MSB first; 0 outside it.
pub open spec fn byte_bits(bytes: Seq<u8>) -> spec_fn(int) -> u32 {
    |i: int|
        if 0 <= i < 8 * bytes.len() {
            bit_at(bytes, i)
        } else {
            0
        }
}

/// The unsigned value of `len` bits read from `start` (MSB first).
pub open spec fn bits_val(b: spec_fn(int) -> u32, start: int, len: nat) -> nat
    decreases len,
{
    if len == 0 {
        0
    } else {
        bits_val(b, start, (len - 1) as nat) * 2 + b(start + len - 1) as nat
    }
}

/// The two's complement value of a `len`-bit unsigned value.
pub open spec fn signed_val(raw: nat, len: nat) -> int {
    if raw >= pow2((len - 1) as nat) {
        raw - pow2(len)
    } else {
        raw as int
    }
}

/// The 6-bit value of an armouring character, if it is one.
pub open spec fn sixbit_of(c: char) -> Option<u8> {
    let u = c as u32;
    if 48 <= u <= 87 {
        Some((u - 48) as u8)
    } else if 96 <= u <= 119 {
        Some((u - 56) as u8)
    } else {
        None
    }
}

/// Whether every character of a payload is an armouring character.
pub open spec fn payload_valid(p: Seq<char>) -> bool {
    forall|i: int| 0 <= i < p.len() ==> #[trigger] sixbit_of(p[i]) is Some
}

/// The bits a valid payload carries (6 per character, MSB first); 0 after them.
pub open spec fn payload_bits(p: Seq<char>) -> spec_fn(int) -> u32 {
    |i: int|
        if 0 <= i < 6 * p.len() {
            ((sixbit_of(p[i / 6])->Some_0 >> ((5 - i % 6) as u8)) & 1u8) as u32
        } else {
            0
        }
}

/// Number of bytes a payload of `n` characters decodes to.
pub open spec fn payload_byte_len(n: nat) -> nat {
    (6 * n + 7) / 8
}

/// The message of the error for an illegal payload character.
pub open spec fn invalid_char_message(c: char) -> Seq<char> {
    if c as u32 >= 128 {
        "non-ascii char: "@.push(c)
    } else {
        "invalid 6-bit char: "@.push(c)
    }
}

/// The character a nonzero 6-bit text value stands for (`@A..Z[\]^_ !"#..?`).
pub open spec fn sixbit_char(v: nat) -> char {
    if v < 32 {
        ((v + 64) as u8) as char
    } else {
        (v as u8) as char
    }
}

/// The characters of a 6-bit text field of `n` characters, up to the first `@`.
pub open spec fn sixbit_field(b: spec_fn(int) -> u32, start: int, n: nat) -> Seq<char>
    decreases n,
{
    if n == 0 {
        Seq::empty()
    } else {
        let prev = sixbit_field(b, start, (n - 1) as nat);
        let v = bits_val(b, start + 6 * (n - 1), 6);
        if prev.len() == n - 1 && v != 0 {
            prev.push(sixbit_char(v))
        } else {
            prev
        }
    }
}

proof fn lemma_shift_in(out: u32, b: u32)
    by (bit_vector)
    requires
        out < 0x8000_0000u32,
        b <= 1,
    ensures
        (out << 1u32) | b == out * 2 + b,
{
}

proof fn lemma_low_bit(x: u8, s: u8)
    by (bit_vector)
    ensures
        (x >> s) & 1u8 <= 1,
{
}

proof fn lemma_bits_val_bound(b: spec_fn(int) -> u32, start: int, len: nat)
    requires
        forall|i: int| #[trigger] b(i) <= 1,
    ensures
        bits_val(b, start, len) < pow2(len),
    decreases len,
{
    if len > 0 {
        lemma_bits_val_bound(b, start, (len - 1) as nat);
        lemma_pow2_unfold(len);
    } else {
        lemma2_to64();
    }
}

proof fn lemma_byte_bits_le1(bytes: Seq<u8>)
    ensures
        forall|i: int| #[trigger] byte_bits(bytes)(i) <= 1,
{
    assert forall|i: int| #[trigger] byte_bits(bytes)(i) <= 1 by {
        if 0 <= i < 8 * bytes.len() {
            lemma_low_bit(bytes[i / 8], (7 - i % 8) as u8);
        }
    }
}

/// Reads `len` bits from bit `start` of `bytes` (MSB first) as an unsigned integer.
pub fn bits(bytes: &[u8], start: u32, len: u32) -> (r: u32)
    requires
        len <= 32,
        start + len <= 8 * bytes@.len(),
        start + len <= u32::MAX,
    ensures
        r == bits_val(byte_bits(bytes@), start as int, len as nat),
{
    let ghost b = byte_bits(bytes@);
    let mut out: u32 = 0;
    let mut i: u32 = 0;
    proof {
        lemma_byte_bits_le1(bytes@);
        lemma2_to64();
    }
    while i < len
        invariant
            i <= len <= 32,
            start + len <= 8 * bytes@.len(),
            start + len <= u32::MAX,
            b == byte_bits(bytes@),
            forall|k: int| #[trigger] b(k) <= 1,
            out == bits_val(b, start as int, i as nat),
            out < pow2(i as nat),
        decreases len - i,
    {
        let bit = start + i;
        let byte = bytes[(bit / 8) as usize];
        let inbyte = (7 - (bit % 8)) as u8;
        let v = (byte >> inbyte) & 1u8;
        proof {
            lemma_low_bit(byte, inbyte);
            assert(v as u32 == b(bit as int));
            if i < 31 {
                lemma_pow2_strictly_increases(i as nat, 31);
            }
            lemma2_to64();
            lemma_shift_in(out, v as u32);
            lemma_pow2_unfold((i + 1) as nat);
        }
        out = (out << 1u32) | (v as u32);
        i = i + 1;
    }
    out
}

/// Reads `len` bits from bit `start` of `bytes` as a two's complement integer.
pub fn bits_signed(bytes: &[u8], start: u32, len: u32) -> (r: i32)
    requires
        1 <= len <= 30,
        start + len <= 8 * bytes@.len(),
        start + len <= u32::MAX,
    ensures
        r == signed_val(bits_val(byte_bits(bytes@), start as int, len as nat), len as nat),
{
    let raw = bits(bytes, start, len);
    proof {
        lemma_byte_bits_le1(bytes@);
        lemma_bits_val_bound(byte_bits(bytes@), start as int, len as nat);
        lemma_pow2_strictly_increases(len as nat, 31);
        lemma_pow2_unfold(len as nat);
        lemma2_to64();
        vstd::bits::lemma_u32_shl_is_mul(1, (len - 1) as u32);
        vstd::bits::lemma_u32_shl_is_mul(1, len);
    }
    let lm1 = len - 1;
    let sign = 1u32 << lm1;
    let full = 1u32 << len;
    proof {
        assert(raw < full);
        assert((raw & sign != 0) == (raw >= sign)) by (bit_vector)
            requires
                sign == 1u32 << lm1,
                lm1 < 30,
                raw < 2 * sign,
        ;
    }
    if raw & sign != 0 {
        (raw as i32) - (full as i32)
    } else {
        raw as i32
    }
}


/// Checks that bits `start .. start + len` lie within `bytes`.
pub fn need(bytes: &[u8], msg_type: u8, start: u32, len: u32) -> (r: Result<(), AisError>)
    requires
        8 * bytes@.len() <= usize::MAX,
    ensures
        r is Ok <==> start + len <= 8 * bytes@.len(),
        r matches Err(e) ==> e == (AisError::Truncated {
            msg_type,
            have_bits: (8 * bytes@.len()) as usize,
        }),
{
    let have = bytes.len() * 8;
    if start as u64 + len as u64 > have as u64 {
        Err(AisError::Truncated { msg_type, have_bits: have })
    } else {
        Ok(())
    }
}

/// The 6-bit value of an armouring character.
fn sixbit_value(c: char) -> (r: Option<u8>)
    ensures
        r == sixbit_of(c),
        r matches Some(v) ==> v < 64,
{
    let u = c as u32;
    if 48 <= u && u <= 87 {
        Some((u - 48) as u8)
    } else if 96 <= u && u <= 119 {
        Some((u - 56) as u8)
    } else {
        None
    }
}

/// The error for an illegal payload character.
fn invalid_char_error(c: char) -> (e: AisError)
    ensures
        e matches AisError::InvalidPayload(m) && m@ == invalid_char_message(c),
{
    let mut m = if (c as u32) >= 128 {
        owned("non-ascii char: ")
    } else {
        owned("invalid 6-bit char: ")
    };
    push_char(&mut m, c);
    AisError::InvalidPayload(m)
}

proof fn lemma_pack_byte(b0: u8, b1: u8, b2: u8, b3: u8, b4: u8, b5: u8, b6: u8, b7: u8)
    by (bit_vector)
    requires
        b0 <= 1, b1 <= 1, b2 <= 1, b3 <= 1, b4 <= 1, b5 <= 1, b6 <= 1, b7 <= 1,
    ensures
        ({
            let x = (b0 << 7u8) | (b1 << 6u8) | (b2 << 5u8) | (b3 << 4u8) | (b4 << 3u8) | (b5
                << 2u8) | (b6 << 1u8) | b7;
            &&& (x >> 7u8) & 1u8 == b0
            &&& (x >> 6u8) & 1u8 == b1
            &&& (x >> 5u8) & 1u8 == b2
            &&& (x >> 4u8) & 1u8 == b3
            &&& (x >> 3u8) & 1u8 == b4
            &&& (x >> 2u8) & 1u8 == b5
            &&& (x >> 1u8) & 1u8 == b6
            &&& (x >> 0u8) & 1u8 == b7
        }),
{
}

/// Index of the first payload character that is not an armouring character.
pub open spec fn first_invalid(p: Seq<char>, k: int) -> bool {
    &&& 0 <= k < p.len()
    &&& sixbit_of(p[k]) is None
    &&& forall|j: int| 0 <= j < k ==> #[trigger] sixbit_of(p[j]) is Some
}

/// Decodes an armoured payload into bytes: 6 bits per character, MSB first,
/// the last byte padded with zero bits.
pub fn decode_6bit(payload: &str) -> (r: Result<Vec<u8>, AisError>)
    ensures
        r is Ok <==> payload_valid(payload@),
        r matches Ok(bytes) ==> {
            &&& bytes@.len() == payload_byte_len(payload@.len())
            &&& byte_bits(bytes@) == payload_bits(payload@)
        },
        r matches Err(e) ==> exists|k: int|
            first_invalid(payload@, k) && (e matches AisError::InvalidPayload(m) && m@
                == invalid_char_message(#[trigger] payload@[k])),
{
    let chars = chars_of(payload);
    let ghost p = payload@;
    let mut bitv: Vec<u8> = Vec::new();
    let mut i: usize = 0;
    while i < chars.len()
        invariant
            chars@ == p,
            p == payload@,
            i <= p.len(),
            bitv@.len() == 6 * i,
            forall|j: int| 0 <= j < i ==> #[trigger] sixbit_of(p[j]) is Some,
            forall|j: int| 0 <= j < 6 * i ==> #[trigger] bitv@[j] as u32 == payload_bits(p)(j),
            forall|j: int| 0 <= j < 6 * i ==> #[trigger] bitv@[j] <= 1,
        decreases p.len() - i,
    {
        let c = chars[i];
        let v = match sixbit_value(c) {
            Some(v) => v,
            None => {
                let e = invalid_char_error(c);
                proof {
                    assert(c == payload@[i as int]);
                    assert(sixbit_of(payload@[i as int]) is None);
                    assert(first_invalid(payload@, i as int));
                    assert(!payload_valid(payload@));
                }
                return Err(e);
            },
        };
        let mut k: u8 = 0;
        while k < 6
            invariant
                chars@ == p,
                i < p.len(),
                sixbit_of(p[i as int]) == Some(v),
                k <= 6,
                bitv@.len() == 6 * i + k,
                forall|j: int| 0 <= j < 6 * i + k ==> #[trigger] bitv@[j] as u32 == payload_bits(p)(j),
                forall|j: int| 0 <= j < 6 * i + k ==> #[trigger] bitv@[j] <= 1,
            decreases 6 - k,
        {
            let bit = (v >> (5 - k)) & 1u8;
            proof {
                lemma_low_bit(v, (5 - k) as u8);
                let j = 6 * i + k;
                assert(j / 6 == i as int && j % 6 == k as int);
            }
            bitv.push(bit);
            k = k + 1;
        }
        i = i + 1;
    }
    assert(payload_valid(p));
    let nbits = bitv.len();
    let ghost total = 8 * payload_byte_len(p.len());
    assert(nbits <= total < nbits + 8);
    assert(total % 8 == 0);
    while bitv.len() % 8 != 0
        invariant
            nbits == 6 * p.len(),
            total == 8 * payload_byte_len(p.len()),
            nbits <= total < nbits + 8,
            total % 8 == 0,
            nbits <= bitv@.len() <= total,
            bitv@.len() % 8 == 0 ==> bitv@.len() == total,
            forall|j: int| 0 <= j < nbits ==> #[trigger] bitv@[j] as u32 == payload_bits(p)(j),
            forall|j: int| nbits <= j < bitv@.len() ==> #[trigger] bitv@[j] == 0,
            forall|j: int| 0 <= j < bitv@.len() ==> #[trigger] bitv@[j] <= 1,
        decreases nbits + 8 - bitv@.len(),
    {
        bitv.push(0);
    }
    assert(bitv@.len() == 8 * payload_byte_len(p.len()));
    let nbytes = bitv.len() / 8;
    let mut out: Vec<u8> = Vec::new();
    let mut q: usize = 0;
    while q < nbytes
        invariant
            nbits == 6 * p.len(),
            bitv@.len() == 8 * nbytes,
            bitv@.len() <= usize::MAX,
            q <= nbytes,
            out@.len() == q,
            forall|j: int| 0 <= j < nbits ==> #[trigger] bitv@[j] as u32 == payload_bits(p)(j),
            forall|j: int| nbits <= j < bitv@.len() ==> #[trigger] bitv@[j] == 0,
            forall|j: int| 0 <= j < bitv@.len() ==> #[trigger] bitv@[j] <= 1,
            forall|j: int| 0 <= j < 8 * q ==> #[trigger] bit_at(out@, j) == bitv@[j] as u32,
        decreases nbytes - q,
    {
        let o = 8 * q;
        let b0 = bitv[o];
        let b1 = bitv[o + 1];
        let b2 = bitv[o + 2];
        let b3 = bitv[o + 3];
        let b4 = bitv[o + 4];
        let b5 = bitv[o + 5];
        let b6 = bitv[o + 6];
        let b7 = bitv[o + 7];
        let x = (b0 << 7u8) | (b1 << 6u8) | (b2 << 5u8) | (b3 << 4u8) | (b4 << 3u8) | (b5 << 2u8)
            | (b6 << 1u8) | b7;
        proof {
            lemma_pack_byte(b0, b1, b2, b3, b4, b5, b6, b7);
        }
        let ghost prev = out@;
        out.push(x);
        proof {
            assert forall|j: int| 0 <= j < 8 * (q + 1) implies #[trigger] bit_at(out@, j)
                == bitv@[j] as u32 by {
                if j >= 8 * q {
                    let r = j - 8 * q;
                    assert(j / 8 == q as int && j % 8 == r);
                    assert(out@[q as int] == x);
                    assert(r == 0 || r == 1 || r == 2 || r == 3 || r == 4 || r == 5 || r == 6
                        || r == 7);
                } else {
                    assert(j / 8 < q);
                    assert(out@[j / 8] == prev[j / 8]);
                    assert(bit_at(prev, j) == bitv@[j] as u32);
                }
            }
        }
        q = q + 1;
    }
    assert(byte_bits(out@) =~= payload_bits(p)) by {
        assert forall|j: int| #[trigger] byte_bits(out@)(j) == payload_bits(p)(j) by {
            if 0 <= j < 8 * out@.len() {
                if j >= nbits {
                    assert(bitv@[j] == 0);
                }
            }
        }
    }
    Ok(out)
}


proof fn lemma_field_len(b: spec_fn(int) -> u32, start: int, n: nat)
    ensures
        sixbit_field(b, start, n).len() <= n,
    decreases n,
{
    if n > 0 {
        lemma_field_len(b, start, (n - 1) as nat);
    }
}

proof fn lemma_field_stops(b: spec_fn(int) -> u32, start: int, m: nat, m2: nat)
    requires
        m <= m2,
        sixbit_field(b, start, m).len() < m,
    ensures
        sixbit_field(b, start, m2) == sixbit_field(b, start, m),
    decreases m2,
{
    if m2 > m {
        lemma_field_stops(b, start, m, (m2 - 1) as nat);
    }
}

/// Reads a 6-bit text field of `nchars` characters from bit `start_bits`: stops
/// at the first `@` (value 0) and drops trailing spaces.
pub fn sixbit_str(bytes: &[u8], start_bits: u32, nchars: u32) -> (r: String)
    requires
        start_bits + 6 * nchars <= 8 * bytes@.len(),
        start_bits + 6 * nchars <= u32::MAX,
    ensures
        r@ == trim_end_spec(sixbit_field(byte_bits(bytes@), start_bits as int, nchars as nat)),
{
    let ghost b = byte_bits(bytes@);
    let mut acc: Vec<char> = Vec::new();
    let mut i: u32 = 0;
    let mut done = false;
    while i < nchars && !done
        invariant
            b == byte_bits(bytes@),
            start_bits + 6 * nchars <= 8 * bytes@.len(),
            start_bits + 6 * nchars <= u32::MAX,
            i <= nchars,
            !done ==> acc@ == sixbit_field(b, start_bits as int, i as nat) && acc@.len() == i,
            done ==> acc@ == sixbit_field(b, start_bits as int, i as nat) && acc@.len() < i,
        decreases nchars - i,
    {
        let v = bits(bytes, start_bits + i * 6, 6);
        proof {
            lemma_byte_bits_le1(bytes@);
            lemma_bits_val_bound(b, start_bits + i * 6, 6);
            lemma2_to64();
            assert(start_bits + 6 * i == start_bits + i * 6);
        }
        if v == 0 || v >= 64 {
            done = true;
        } else {
            let ch = if v < 32 {
                ((v + 64) as u8) as char
            } else {
                (v as u8) as char
            };
            acc.push(ch);
        }
        i = i + 1;
    }
    proof {
        if done {
            lemma_field_stops(b, start_bits as int, i as nat, nchars as nat);
        }
    }
    let trimmed = trim_end(acc.as_slice());
    string_of(trimmed.as_slice())
}


/// `Some(raw)` unless `raw` is the "not available" code.
pub open spec fn unless_na(raw: nat, na: nat) -> Option<u32> {
    if raw == na {
        None
    } else {
        Some(raw as u32)
    }
}

/// `Some(v)` unless `v` is the "not available" code.
pub open spec fn signed_unless_na(v: int, na: int) -> Option<i32> {
    if v == na {
        None
    } else {
        Some(v as i32)
    }
}

/// Bits a position report needs (class A: 142, class B: 138).
pub open spec fn pos_report_bits(class_b: bool) -> nat {
    if class_b {
        138
    } else {
        142
    }
}

/// The position report carried by the bits `b`.
pub open spec fn pos_report_spec(b: spec_fn(int) -> u32, msg_type: u8, class_b: bool) -> PositionReport {
    if class_b {
        PositionReport {
            msg_type,
            class_b: true,
            mmsi: bits_val(b, 8, 30) as u32,
            nav_status: NavStatus::Other,
            sog_tenths: unless_na(bits_val(b, 46, 10), 1023),
            cog_tenths: unless_na(bits_val(b, 112, 12), 3600),
            heading_deg: unless_na(bits_val(b, 124, 9), 511),
            longitude_raw: signed_unless_na(signed_val(bits_val(b, 57, 28), 28), 181 * 600000int),
            latitude_raw: signed_unless_na(signed_val(bits_val(b, 85, 27), 27), 91 * 600000int),
            timestamp_s: bits_val(b, 133, 6) as u8,
        }
    } else {
        PositionReport {
            msg_type,
            class_b: false,
            mmsi: bits_val(b, 8, 30) as u32,
            nav_status: nav_status_of(bits_val(b, 38, 4) as u32),
            sog_tenths: unless_na(bits_val(b, 50, 10), 1023),
            cog_tenths: unless_na(bits_val(b, 116, 12), 3600),
            heading_deg: unless_na(bits_val(b, 128, 9), 511),
            longitude_raw: signed_unless_na(signed_val(bits_val(b, 61, 28), 28), 181 * 600000int),
            latitude_raw: signed_unless_na(signed_val(bits_val(b, 89, 27), 27), 91 * 600000int),
            timestamp_s: bits_val(b, 137, 6) as u8,
        }
    }
}

/// The bits `b` with the `len` bits from `start` replaced by `v`, most
/// significant first: how a sender writes a field of a message.
pub open spec fn with_field(b: spec_fn(int) -> u32, start: int, len: nat, v: nat) -> spec_fn(
    int,
) -> u32 {
    |i: int|
        if start <= i < start + len {
            ((v / pow2((start + len - 1 - i) as nat)) % 2) as u32
        } else {
            b(i)
        }
}

/// The `len`-bit two's complement encoding of `x`.
pub open spec fn twos_complement(x: int, len: nat) -> nat {
    if x < 0 {
        (x + pow2(len)) as nat
    } else {
        x as nat
    }
}

proof fn lemma_field_prefix(b: spec_fn(int) -> u32, start: int, len: nat, v: nat, k: nat)
    requires
        k <= len,
        v < pow2(len),
    ensures
        bits_val(with_field(b, start, len, v), start, k) == v / pow2((len - k) as nat),
    decreases k,
{
    vstd::arithmetic::power2::lemma_pow2_pos(len);
    if k == 0 {
        vstd::arithmetic::div_mod::lemma_basic_div(v as int, pow2(len) as int);
    } else {
        lemma_field_prefix(b, start, len, v, (k - 1) as nat);
        let e = (len - k) as nat;
        vstd::arithmetic::power2::lemma_pow2_pos(e);
        lemma_pow2_unfold(e + 1);
        assert((start + len - 1 - (start + k - 1)) as nat == e);
        let q = v / pow2(e);
        vstd::arithmetic::div_mod::lemma_div_denominator(v as int, pow2(e) as int, 2);
        assert(pow2(e) * 2 == pow2(e + 1));
        assert(((e + 1) as nat) == (len - (k - 1)) as nat);
        vstd::arithmetic::div_mod::lemma_fundamental_div_mod(q as int, 2);
        assert(with_field(b, start, len, v)(start + k - 1) == (q % 2) as u32);
    }
}

/// A field written with `v` (which fits its `len` bits) reads back as `v`.
pub proof fn lemma_field_reads(b: spec_fn(int) -> u32, start: int, len: nat, v: nat)
    requires
        v < pow2(len),
    ensures
        bits_val(with_field(b, start, len, v), start, len) == v,
{
    lemma_field_prefix(b, start, len, v, len);
    assert(((len - len) as nat) == 0nat);
    assert(pow2(0) == 1) by {
        lemma2_to64();
    }
    assert(v / 1 == v);
}

/// A signed field written in two's complement reads back as its value.
proof fn lemma_signed_reads(b: spec_fn(int) -> u32, start: int, len: nat, x: int)
    requires
        len >= 1,
        -pow2((len - 1) as nat) <= x < pow2((len - 1) as nat),
    ensures
        signed_val(bits_val(with_field(b, start, len, twos_complement(x, len)), start, len), len)
            == x,
{
    lemma_pow2_unfold(len);
    lemma_field_reads(b, start, len, twos_complement(x, len));
}

/// A class B report (type 18) reads each field where the message layout puts
/// it: MMSI at bit 8 (30 bits), speed at 46 (10), longitude at 57 (28, signed),
/// latitude at 85 (27, signed), course at 112 (12), true heading at 124 (9),
/// time stamp at 133 (6); the "not available" codes give `None`.
pub proof fn law_class_b_layout(b: spec_fn(int) -> u32, v: nat, x: int)
    ensures
        v < 0x4000_0000 ==> pos_report_spec(with_field(b, 8, 30, v), 18, true).mmsi == v,
        v < 1024 ==> pos_report_spec(with_field(b, 46, 10, v), 18, true).sog_tenths == (if v
            == 1023 {
            None
        } else {
            Some(v as u32)
        }),
        v < 4096 ==> pos_report_spec(with_field(b, 112, 12, v), 18, true).cog_tenths == (if v
            == 3600 {
            None
        } else {
            Some(v as u32)
        }),
        v < 512 ==> pos_report_spec(with_field(b, 124, 9, v), 18, true).heading_deg == (if v
            == 511 {
            None
        } else {
            Some(v as u32)
        }),
        v < 64 ==> pos_report_spec(with_field(b, 133, 6, v), 18, true).timestamp_s == v,
        -0x800_0000 <= x < 0x800_0000 ==> pos_report_spec(
            with_field(b, 57, 28, twos_complement(x, 28)),
            18,
            true,
        ).longitude_raw == (if x == 181 * 600000 {
            None
        } else {
            Some(x as i32)
        }),
        -0x400_0000 <= x < 0x400_0000 ==> pos_report_spec(
            with_field(b, 85, 27, twos_complement(x, 27)),
            18,
            true,
        ).latitude_raw == (if x == 91 * 600000 {
            None
        } else {
            Some(x as i32)
        }),
{
    lemma2_to64();
    if v < 0x4000_0000 {
        lemma_field_reads(b, 8, 30, v);
    }
    if v < 1024 {
        lemma_field_reads(b, 46, 10, v);
    }
    if v < 4096 {
        lemma_field_reads(b, 112, 12, v);
    }
    if v < 512 {
        lemma_field_reads(b, 124, 9, v);
    }
    if v < 64 {
        lemma_field_reads(b, 133, 6, v);
    }
    if -0x800_0000 <= x < 0x800_0000 {
        lemma_signed_reads(b, 57, 28, x);
    }
    if -0x400_0000 <= x < 0x400_0000 {
        lemma_signed_reads(b, 85, 27, x);
    }
}

/// A class A report (types 1/2/3) reads each field where the message layout
/// puts it: MMSI at bit 8 (30 bits), navigation status at 38 (4), speed at 50
/// (10), longitude at 61 (28, signed), latitude at 89 (27, signed), course at
/// 116 (12), true heading at 128 (9), time stamp at 137 (6).
pub proof fn law_class_a_layout(b: spec_fn(int) -> u32, t: u8, v: nat, x: int)
    ensures
        v < 0x4000_0000 ==> pos_report_spec(with_field(b, 8, 30, v), t, false).mmsi == v,
        v < 16 ==> pos_report_spec(with_field(b, 38, 4, v), t, false).nav_status == nav_status_of(
            v as u32,
        ),
        v < 1024 ==> pos_report_spec(with_field(b, 50, 10, v), t, false).sog_tenths == (if v
            == 1023 {
            None
        } else {
            Some(v as u32)
        }),
        v < 4096 ==> pos_report_spec(with_field(b, 116, 12, v), t, false).cog_tenths == (if v
            == 3600 {
            None
        } else {
            Some(v as u32)
        }),
        v < 512 ==> pos_report_spec(with_field(b, 128, 9, v), t, false).heading_deg == (if v
            == 511 {
            None
        } else {
            Some(v as u32)
        }),
        v < 64 ==> pos_report_spec(with_field(b, 137, 6, v), t, false).timestamp_s == v,
        -0x800_0000 <= x < 0x800_0000 ==> pos_report_spec(
            with_field(b, 61, 28, twos_complement(x, 28)),
            t,
            false,
        ).longitude_raw == (if x == 181 * 600000 {
            None
        } else {
            Some(x as i32)
        }),
        -0x400_0000 <= x < 0x400_0000 ==> pos_report_spec(
            with_field(b, 89, 27, twos_complement(x, 27)),
            t,
            false,
        ).latitude_raw == (if x == 91 * 600000 {
            None
        } else {
            Some(x as i32)
        }),
{
    lemma2_to64();
    if v < 0x4000_0000 {
        lemma_field_reads(b, 8, 30, v);
    }
    if v < 16 {
        lemma_field_reads(b, 38, 4, v);
    }
    if v < 1024 {
        lemma_field_reads(b, 50, 10, v);
    }
    if v < 4096 {
        lemma_field_reads(b, 116, 12, v);
    }
    if v < 512 {
        lemma_field_reads(b, 128, 9, v);
    }
    if v < 64 {
        lemma_field_reads(b, 137, 6, v);
    }
    if -0x800_0000 <= x < 0x800_0000 {
        lemma_signed_reads(b, 61, 28, x);
    }
    if -0x400_0000 <= x < 0x400_0000 {
        lemma_signed_reads(b, 89, 27, x);
    }
}

/// Decodes a position report (types 1/2/3 when `class_b` is false, 18 when true).
pub fn decode_pos_report(bytes: &[u8], msg_type: u8, class_b: bool) -> (r: Result<
    PositionReport,
    AisError,
>)
    requires
        8 * bytes@.len() <= usize::MAX,
    ensures
        r is Ok <==> 8 * bytes@.len() >= pos_report_bits(class_b),
        r matches Ok(p) ==> p == pos_report_spec(byte_bits(bytes@), msg_type, class_b),
        r matches Err(e) ==> e == (AisError::Truncated {
            msg_type,
            have_bits: (8 * bytes@.len()) as usize,
        }),
{
    let ghost b = byte_bits(bytes@);
    proof {
        lemma_byte_bits_le1(bytes@);
    }
    need(bytes, msg_type, 8, 30)?;
    let mmsi = bits(bytes, 8, 30);
    if class_b {
        need(bytes, msg_type, 46, 92)?;
        let sog_raw = bits(bytes, 46, 10);
        let lon = bits_signed(bytes, 57, 28);
        let lat = bits_signed(bytes, 85, 27);
        let cog_raw = bits(bytes, 112, 12);
        let heading_raw = bits(bytes, 124, 9);
        let ts = bits(bytes, 133, 6);
        proof {
            lemma_bits_val_bound(b, 133, 6);
            lemma2_to64();
        }
        Ok(PositionReport {
            msg_type,
            class_b: true,
            mmsi,
            nav_status: NavStatus::Other,
            sog_tenths: if sog_raw == 1023 {
                None
            } else {
                Some(sog_raw)
            },
            cog_tenths: if cog_raw == 3600 {
                None
            } else {
                Some(cog_raw)
            },
            heading_deg: if heading_raw == 511 {
                None
            } else {
                Some(heading_raw)
            },
            longitude_raw: if lon == 181 * 600_000 {
                None
            } else {
                Some(lon)
            },
            latitude_raw: if lat == 91 * 600_000 {
                None
            } else {
                Some(lat)
            },
            timestamp_s: ts as u8,
        })
    } else {
        need(bytes, msg_type, 38, 4)?;
        need(bytes, msg_type, 50, 10)?;
        need(bytes, msg_type, 61, 81)?;
        let nav = NavStatus::from_bits(bits(bytes, 38, 4));
        let sog_raw = bits(bytes, 50, 10);
        let lon = bits_signed(bytes, 61, 28);
        let lat = bits_signed(bytes, 89, 27);
        let cog_raw = bits(bytes, 116, 12);
        let heading_raw = bits(bytes, 128, 9);
        let ts = bits(bytes, 137, 6);
        proof {
            lemma_bits_val_bound(b, 137, 6);
            lemma2_to64();
        }
        Ok(PositionReport {
            msg_type,
            class_b: false,
            mmsi,
            nav_status: nav,
            sog_tenths: if sog_raw == 1023 {
                None
            } else {
                Some(sog_raw)
            },
            cog_tenths: if cog_raw == 3600 {
                None
            } else {
                Some(cog_raw)
            },
            heading_deg: if heading_raw == 511 {
                None
            } else {
                Some(heading_raw)
            },
            longitude_raw: if lon == 181 * 600_000 {
                None
            } else {
                Some(lon)
            },
            latitude_raw: if lat == 91 * 600_000 {
                None
            } else {
                Some(lat)
            },
            timestamp_s: ts as u8,
        })
    }
}

/// Whether `d` holds the static and voyage data carried by the bits `b`.
pub open spec fn static_matches(d: StaticVoyageData, b: spec_fn(int) -> u32) -> bool {
    &&& d.mmsi == bits_val(b, 8, 30)
    &&& d.imo == bits_val(b, 40, 30)
    &&& d.callsign@ == trim_end_spec(sixbit_field(b, 70, 7))
    &&& d.ship_name@ == trim_end_spec(sixbit_field(b, 112, 20))
    &&& d.ship_type == bits_val(b, 232, 8)
    &&& d.dim_b == bits_val(b, 240, 9)
    &&& d.dim_a == bits_val(b, 249, 9)
    &&& d.dim_c == bits_val(b, 258, 6)
    &&& d.dim_d == bits_val(b, 265, 6)
}

/// Static and voyage data (type 5) read the numeric fields where the layout
/// puts them: MMSI at bit 8 (30 bits), IMO number at 40 (30), ship type at 232
/// (8), the dimensions at 240 and 249 (9 bits each), 258 and 265 (6 bits each).
pub proof fn law_static_layout(b: spec_fn(int) -> u32, d: StaticVoyageData, v: nat)
    ensures
        v < 0x4000_0000 && static_matches(d, with_field(b, 8, 30, v)) ==> d.mmsi == v,
        v < 0x4000_0000 && static_matches(d, with_field(b, 40, 30, v)) ==> d.imo == v,
        v < 256 && static_matches(d, with_field(b, 232, 8, v)) ==> d.ship_type == v,
        v < 512 && static_matches(d, with_field(b, 240, 9, v)) ==> d.dim_b == v,
        v < 512 && static_matches(d, with_field(b, 249, 9, v)) ==> d.dim_a == v,
        v < 64 && static_matches(d, with_field(b, 258, 6, v)) ==> d.dim_c == v,
        v < 64 && static_matches(d, with_field(b, 265, 6, v)) ==> d.dim_d == v,
{
    lemma2_to64();
    if v < 0x4000_0000 {
        lemma_field_reads(b, 8, 30, v);
        lemma_field_reads(b, 40, 30, v);
    }
    if v < 512 {
        lemma_field_reads(b, 240, 9, v);
        lemma_field_reads(b, 249, 9, v);
    }
    if v < 256 {
        lemma_field_reads(b, 232, 8, v);
    }
    if v < 64 {
        lemma_field_reads(b, 258, 6, v);
        lemma_field_reads(b, 265, 6, v);
    }
}

/// Decodes type 5 static and voyage data (271 bits needed).
pub fn decode_static(bytes: &[u8]) -> (r: Result<StaticVoyageData, AisError>)
    requires
        8 * bytes@.len() <= usize::MAX,
    ensures
        r is Ok <==> 8 * bytes@.len() >= 271,
        r matches Ok(d) ==> static_matches(d, byte_bits(bytes@)),
        r matches Err(e) ==> e == (AisError::Truncated {
            msg_type: 5,
            have_bits: (8 * bytes@.len()) as usize,
        }),
{
    let ghost b = byte_bits(bytes@);
    proof {
        lemma_byte_bits_le1(bytes@);
        lemma2_to64();
        lemma_bits_val_bound(b, 232, 8);
        lemma_bits_val_bound(b, 240, 9);
        lemma_bits_val_bound(b, 249, 9);
        lemma_bits_val_bound(b, 258, 6);
        lemma_bits_val_bound(b, 265, 6);
    }
    need(bytes, 5, 8 + 30, 5)?;
    need(bytes, 5, 40, 231)?;
    let mmsi = bits(bytes, 8, 30);
    let imo = bits(bytes, 40, 30);
    let callsign = sixbit_str(bytes, 70, 7);
    let ship_name = sixbit_str(bytes, 112, 20);
    let ship_type = bits(bytes, 232, 8) as u8;
    let dim_b = bits(bytes, 240, 9) as u16;
    let dim_a = bits(bytes, 249, 9) as u16;
    let dim_c = bits(bytes, 258, 6) as u16;
    let dim_d = bits(bytes, 265, 6) as u16;
    Ok(StaticVoyageData { mmsi, imo, callsign, ship_name, ship_type, dim_b, dim_a, dim_c, dim_d })
}


/// Whether a trimmed sentence starts with `!AIVDM` or `!AIVDO`.
pub open spec fn is_ais_prefix(t: Seq<char>) -> bool {
    &&& t.len() >= 6
    &&& t[0] == '!'
    &&& t[1] == 'A'
    &&& t[2] == 'I'
    &&& t[3] == 'V'
    &&& t[4] == 'D'
    &&& (t[5] == 'M' || t[5] == 'O')
}

/// The comma-separated fields of a trimmed sentence.
pub open spec fn sentence_fields(s: Seq<char>) -> Seq<Seq<char>> {
    split_spec(trim_spec(s), ',')
}

/// Whether a sentence is a single-fragment AIS sentence with a payload field.
pub open spec fn header_ok(s: Seq<char>) -> bool {
    &&& is_ais_prefix(trim_spec(s))
    &&& sentence_fields(s).len() >= 7
    &&& parse_u32_spec(sentence_fields(s)[1]) == Some(1u32)
}

/// Extracts the armoured payload field of a single-fragment sentence.
fn payload_of(sentence: &str) -> (r: Result<String, AisError>)
    ensures
        !is_ais_prefix(trim_spec(sentence@)) ==> r matches Err(AisError::NotAisSentence),
        is_ais_prefix(trim_spec(sentence@)) && sentence_fields(sentence@).len() < 7 ==> (r matches Err(
            AisError::InvalidPayload(m),
        ) && m@ == "missing fields"@),
        is_ais_prefix(trim_spec(sentence@)) && sentence_fields(sentence@).len() >= 7
            && parse_u32_spec(sentence_fields(sentence@)[1]) is None ==> (r matches Err(
            AisError::InvalidPayload(m),
        ) && m@ == "bad fragment count"@),
        is_ais_prefix(trim_spec(sentence@)) && sentence_fields(sentence@).len() >= 7
            && parse_u32_spec(sentence_fields(sentence@)[1]) is Some && parse_u32_spec(
            sentence_fields(sentence@)[1],
        )->Some_0 != 1 ==> r == Err::<String, AisError>(
            AisError::MultipartNotSupported {
                total: parse_u32_spec(sentence_fields(sentence@)[1])->Some_0,
            },
        ),
        header_ok(sentence@) ==> (r matches Ok(p) && p@ == sentence_fields(sentence@)[5]),
{
    let chars = chars_of(sentence);
    let t = trim(chars.as_slice());
    let is_prefix = t.len() >= 6 && t[0] == '!' && t[1] == 'A' && t[2] == 'I' && t[3] == 'V'
        && t[4] == 'D' && (t[5] == 'M' || t[5] == 'O');
    if !is_prefix {
        return Err(AisError::NotAisSentence);
    }
    let fields = split(t.as_slice(), ',');
    if fields.len() < 7 {
        return Err(AisError::InvalidPayload(owned("missing fields")));
    }
    let total = match parse_u32(fields[1].as_slice()) {
        Some(n) => n,
        None => {
            return Err(AisError::InvalidPayload(owned("bad fragment count")));
        },
    };
    if total != 1 {
        return Err(AisError::MultipartNotSupported { total });
    }
    Ok(string_of(fields[5].as_slice()))
}

/// The payload field of a sentence.
pub open spec fn sentence_payload(s: Seq<char>) -> Seq<char> {
    sentence_fields(s)[5]
}

/// Bits available in the bytes a payload of `n` characters decodes to.
pub open spec fn have_bits(n: nat) -> nat {
    8 * payload_byte_len(n)
}

/// Decodes one AIS sentence into a message.
pub fn decode(sentence: &str) -> (r: Result<AisMessage, AisError>)
    requires
        sentence@.len() <= usize::MAX / 8,
    ensures
        !is_ais_prefix(trim_spec(sentence@)) ==> r matches Err(AisError::NotAisSentence),
        is_ais_prefix(trim_spec(sentence@)) && sentence_fields(sentence@).len() < 7 ==> (r matches Err(
            AisError::InvalidPayload(m),
        ) && m@ == "missing fields"@),
        is_ais_prefix(trim_spec(sentence@)) && sentence_fields(sentence@).len() >= 7
            && parse_u32_spec(sentence_fields(sentence@)[1]) is None ==> (r matches Err(
            AisError::InvalidPayload(m),
        ) && m@ == "bad fragment count"@),
        is_ais_prefix(trim_spec(sentence@)) && sentence_fields(sentence@).len() >= 7
            && parse_u32_spec(sentence_fields(sentence@)[1]) is Some && parse_u32_spec(
            sentence_fields(sentence@)[1],
        )->Some_0 != 1 ==> r == Err::<AisMessage, AisError>(
            AisError::MultipartNotSupported {
                total: parse_u32_spec(sentence_fields(sentence@)[1])->Some_0,
            },
        ),
        header_ok(sentence@) && sentence_payload(sentence@).len() == 0 ==> (r matches Err(
            AisError::InvalidPayload(m),
        ) && m@ == "empty payload"@),
        header_ok(sentence@) && sentence_payload(sentence@).len() > 0 && !payload_valid(
            sentence_payload(sentence@),
        ) ==> exists|k: int|
            first_invalid(sentence_payload(sentence@), k) && (r matches Err(
                AisError::InvalidPayload(m),
            ) && m@ == invalid_char_message(#[trigger] sentence_payload(sentence@)[k])),
        header_ok(sentence@) && sentence_payload(sentence@).len() > 0 && payload_valid(
            sentence_payload(sentence@),
        ) ==> decoded_as(
            r,
            payload_bits(sentence_payload(sentence@)),
            have_bits(sentence_payload(sentence@).len()),
        ),
{
    let payload = payload_of(sentence)?;
    if payload.as_str().is_empty() {
        return Err(AisError::InvalidPayload(owned("empty payload")));
    }
    proof {
        lemma_trim_len(sentence@);
        lemma_split_len(trim_spec(sentence@), ',', 5);
    }
    let bytes = decode_6bit(payload.as_str())?;
    let msg_type = bits(bytes.as_slice(), 0, 6) as u8;
    proof {
        lemma_byte_bits_le1(bytes@);
        lemma_bits_val_bound(byte_bits(bytes@), 0, 6);
        lemma2_to64();
    }
    if 1 <= msg_type && msg_type <= 3 {
        Ok(AisMessage::PositionReport(decode_pos_report(bytes.as_slice(), msg_type, false)?))
    } else if msg_type == 18 {
        Ok(AisMessage::PositionReport(decode_pos_report(bytes.as_slice(), msg_type, true)?))
    } else if msg_type == 5 {
        Ok(AisMessage::StaticVoyage(decode_static(bytes.as_slice())?))
    } else {
        Ok(AisMessage::Other { msg_type })
    }
}

/// What decoding a valid payload with bits `b` (`have` of them available) gives.
pub open spec fn decoded_as(r: Result<AisMessage, AisError>, b: spec_fn(int) -> u32, have: nat) -> bool {
    let mt = bits_val(b, 0, 6) as u8;
    if 1 <= mt <= 3 || mt == 18 {
        let class_b = mt == 18;
        if have >= pos_report_bits(class_b) {
            r == Ok::<AisMessage, AisError>(
                AisMessage::PositionReport(pos_report_spec(b, mt, class_b)),
            )
        } else {
            r == Err::<AisMessage, AisError>(
                AisError::Truncated { msg_type: mt, have_bits: have as usize },
            )
        }
    } else if mt == 5 {
        if have >= 271 {
            r matches Ok(AisMessage::StaticVoyage(d)) && static_matches(d, b)
        } else {
            r == Err::<AisMessage, AisError>(
                AisError::Truncated { msg_type: 5, have_bits: have as usize },
            )
        }
    } else {
        r == Ok::<AisMessage, AisError>(AisMessage::Other { msg_type: mt })
    }
}


/// The message type is the first 6 bits: types 1, 2 and 3 give a class A
/// report and 18 a class B report when the payload is long enough (142 and 138
/// bits), 5 gives static data (271 bits), and any other type is passed on
/// undecoded; a payload too short for its type is reported as truncated.
pub proof fn law_type_dispatch(b: spec_fn(int) -> u32, t: nat, have: nat, r: Result<AisMessage, AisError>)
    requires
        t < 64,
        decoded_as(r, with_field(b, 0, 6, t), have),
    ensures
        1 <= t <= 3 && have >= 142 ==> (r matches Ok(AisMessage::PositionReport(p))
            && !p.class_b && p.msg_type == t),
        t == 18 && have >= 138 ==> (r matches Ok(AisMessage::PositionReport(p)) && p.class_b
            && p.msg_type == 18),
        t == 5 && have >= 271 ==> r matches Ok(AisMessage::StaticVoyage(_)),
        ((1 <= t <= 3 && have < 142) || (t == 18 && have < 138) || (t == 5 && have < 271))
            ==> (r matches Err(AisError::Truncated { msg_type, have_bits }) && msg_type == t
            && have_bits == have),
        !(1 <= t <= 3 || t == 5 || t == 18) ==> r == Ok::<AisMessage, AisError>(
            AisMessage::Other { msg_type: t as u8 },
        ),
{
    lemma2_to64();
    lemma_field_reads(b, 0, 6, t);
}

/// Whitespace around a sentence does not matter: the sentence and its trimmed
/// form have the same prefix, fields and payload, so they decode alike.
pub proof fn law_surrounding_whitespace_ignored(s: Seq<char>)
    ensures
        is_ais_prefix(trim_spec(trim_spec(s))) == is_ais_prefix(trim_spec(s)),
        sentence_fields(trim_spec(s)) == sentence_fields(s),
        header_ok(trim_spec(s)) == header_ok(s),
        header_ok(s) ==> sentence_payload(trim_spec(s)) == sentence_payload(s),
{
    law_trim_idempotent(s);
}

} // verus!
