//! Bluetooth UUIDs.

use vstd::pervasive::unreached;
use vstd::prelude::*;
use vstd::string::StrSliceExecFns;
use vstd::string::StringExecFns;

use crate::text::{
    hex_digit_val, hex_val, is_hex_digit, lemma_hex_char_val, lower_hex_char, lower_hex_pair,
    push_lower_hex_pair,
};

verus! {

/// Whether `k` is the position of one of the four `-` separators in the
/// textual form of a UUID.
pub open spec fn is_dash_pos(k: int) -> bool {
    k == 8 || k == 13 || k == 18 || k == 23
}

/// The position of the first hex digit of byte `j` in the textual form.
pub open spec fn uuid_group_pos(j: int) -> int
    recommends
        0 <= j < 16,
{
    if j < 4 {
        2 * j
    } else if j < 6 {
        2 * j + 1
    } else if j < 8 {
        2 * j + 2
    } else if j < 10 {
        2 * j + 3
    } else {
        2 * j + 4
    }
}

/// The outcome of scanning `s` as a textual UUID, from position `k` on, the
/// way [`Uuid::from_str`] reads it: position by position, first fault wins.
pub open spec fn uuid_scan(s: Seq<char>, k: int) -> Result<(), UuidErrorKind>
    decreases 36 - k,
{
    if k < 0 || k >= 36 {
        if s.len() > 36 {
            Err(UuidErrorKind::TrailingData)
        } else {
            Ok(())
        }
    } else if k >= s.len() {
        Err(UuidErrorKind::Eof)
    } else if is_dash_pos(k) {
        if s[k] != '-' {
            Err(UuidErrorKind::InvalidDash)
        } else {
            uuid_scan(s, k + 1)
        }
    } else if !is_hex_digit(s[k]) {
        Err(UuidErrorKind::InvalidDigit)
    } else {
        uuid_scan(s, k + 1)
    }
}

/// Whether `s` is a well-formed textual UUID.
pub open spec fn uuid_parse_ok(s: Seq<char>) -> bool {
    uuid_scan(s, 0) is Ok
}

/// The byte written as the `j`-th two-digit group of `s`.
pub open spec fn uuid_byte(s: Seq<char>, j: int) -> u8
    recommends
        uuid_parse_ok(s),
        0 <= j < 16,
{
    (16 * hex_digit_val(s[uuid_group_pos(j)]) + hex_digit_val(s[uuid_group_pos(j) + 1])) as u8
}

/// The sixteen bytes written in the textual UUID `s`.
pub open spec fn uuid_bytes(s: Seq<char>) -> Seq<u8>
    recommends
        uuid_parse_ok(s),
{
    Seq::new(16, |j: int| uuid_byte(s, j))
}

/// The first `n` bytes of `b` in lower-case hex, with `-` before the groups
/// that start at bytes 4, 6, 8 and 10.
pub open spec fn uuid_chars_upto(b: Seq<u8>, n: int) -> Seq<char>
    decreases n,
{
    if n <= 0 {
        Seq::empty()
    } else {
        uuid_chars_upto(b, n - 1) + (if n - 1 == 4 || n - 1 == 6 || n - 1 == 8 || n - 1 == 10 {
            seq!['-']
        } else {
            Seq::empty()
        }) + lower_hex_pair(b[n - 1])
    }
}

/// The textual form of the UUID bytes `b`: lower-case, hyphenated
/// 8-4-4-4-12.
pub open spec fn uuid_chars(b: Seq<u8>) -> Seq<char>
    recommends
        b.len() == 16,
{
    uuid_chars_upto(b, 16)
}

/// The bytes of the Bluetooth base UUID with the 16-bit alias `short`
/// spliced into bytes 2 and 3.
pub open spec fn uuid_from_u16_bytes(short: u16) -> Seq<u8> {
    seq![
        0u8,
        0u8,
        (short / 256) as u8,
        (short % 256) as u8,
        0u8,
        0u8,
        0x10u8,
        0u8,
        0x80u8,
        0u8,
        0x00u8,
        0x80u8,
        0x5fu8,
        0x9bu8,
        0x34u8,
        0xfbu8,
    ]
}

/// A 128-bit UUID, identifying a Bluetooth service or characteristic.
///
/// # Construction
///
/// This type can be constructed from a string known to be well formed via the
/// [`Uuid::from_static`] function; [`Uuid::from_str`] parses fallibly.
///
/// [`Uuid`]s can also be constructed from a 16-bit "alias" assigned by the
/// Bluetooth SIG via the [`Uuid::from_u16`] function.
#[derive(Debug, Clone, Copy, PartialEq, Eq, Hash)]
pub struct Uuid([u8; 16]);

impl View for Uuid {
    type V = Seq<u8>;

    closed spec fn view(&self) -> Seq<u8> {
        self.0@
    }
}

impl Uuid {
    /// Parses a [`Uuid`] from a string such as
    /// `7c9ac820-0886-4e50-bcca-588b883f8649`.
    pub fn from_str(s: &str) -> (r: Result<Uuid, ParseUuidError>)
        ensures
            uuid_parse_ok(s@) ==> (r matches Ok(u) && u@ == uuid_bytes(s@)),
            uuid_scan(s@, 0) matches Err(kind) ==> r == Err::<Uuid, ParseUuidError>(
                ParseUuidError(kind),
            ),
    {
        let len = s.unicode_len();
        let mut k: usize = 0;
        while k < 36
            invariant
                len == s@.len(),
                k <= 36,
                k <= len,
                uuid_scan(s@, 0) == uuid_scan(s@, k as int),
                forall|p: int| 0 <= p < k && !is_dash_pos(p) ==> is_hex_digit(#[trigger] s@[p]),
            decreases 36 - k,
        {
            if k >= len {
                return Err(ParseUuidError(UuidErrorKind::Eof));
            }
            let c = s.get_char(k);
            if k == 8 || k == 13 || k == 18 || k == 23 {
                if c != '-' {
                    return Err(ParseUuidError(UuidErrorKind::InvalidDash));
                }
            } else {
                if hex_val(c).is_none() {
                    return Err(ParseUuidError(UuidErrorKind::InvalidDigit));
                }
            }
            k += 1;
        }
        if len != 36 {
            return Err(ParseUuidError(UuidErrorKind::TrailingData));
        }
        let mut bytes: [u8; 16] = [0, 0, 0, 0, 0, 0, 0, 0, 0, 0, 0, 0, 0, 0, 0, 0];
        let mut j: usize = 0;
        while j < 16
            invariant
                len == s@.len(),
                len == 36,
                j <= 16,
                forall|p: int| 0 <= p < 36 && !is_dash_pos(p) ==> is_hex_digit(#[trigger] s@[p]),
                forall|t: int| 0 <= t < j ==> bytes@[t] == #[trigger] uuid_byte(s@, t),
            decreases 16 - j,
        {
            let pos: usize = if j < 4 {
                2 * j
            } else if j < 6 {
                2 * j + 1
            } else if j < 8 {
                2 * j + 2
            } else if j < 10 {
                2 * j + 3
            } else {
                2 * j + 4
            };
            proof {
                assert(pos as int == uuid_group_pos(j as int));
                assert(!is_dash_pos(pos as int) && !is_dash_pos(pos as int + 1));
            }
            let hi = match hex_val(s.get_char(pos)) {
                Some(h) => h,
                None => unreached(),
            };
            let lo = match hex_val(s.get_char(pos + 1)) {
                Some(l) => l,
                None => unreached(),
            };
            bytes[j] = 16 * hi + lo;
            j += 1;
        }
        proof {
            assert(bytes@ =~= uuid_bytes(s@));
        }
        Ok(Uuid(bytes))
    }

    /// Creates a [`Uuid`] from a string already known to be well formed.
    ///
    /// The well-formedness obligation takes the place of the run-time panic
    /// a constant-building helper would otherwise raise on malformed input.
    pub fn from_static(s: &'static str) -> (r: Uuid)
        requires
            uuid_parse_ok(s@),
        ensures
            r@ == uuid_bytes(s@),
    {
        match Self::from_str(s) {
            Ok(uuid) => uuid,
            Err(_) => unreached(),
        }
    }

    /// Creates a [`Uuid`] from a 16-bit alias by splicing it into the
    /// Bluetooth base UUID `00000000-0000-1000-8000-00805f9b34fb`.
    pub fn from_u16(short: u16) -> (r: Uuid)
        ensures
            r@ == uuid_from_u16_bytes(short),
    {
        let hi = (short / 256) as u8;
        let lo = (short % 256) as u8;
        let bytes: [u8; 16] = [
            0,
            0,
            hi,
            lo,
            0,
            0,
            0x10,
            0,
            0x80,
            0,
            0x00,
            0x80,
            0x5f,
            0x9b,
            0x34,
            0xfb,
        ];
        proof {
            assert(bytes@ =~= uuid_from_u16_bytes(short));
        }
        Uuid(bytes)
    }

    /// The textual form of this UUID: lower-case, hyphenated 8-4-4-4-12.
    pub fn to_string(&self) -> (r: String)
        ensures
            r@ == uuid_chars(self@),
    {
        let mut out = String::new();
        let mut j: usize = 0;
        while j < 16
            invariant
                j <= 16,
                out@ == uuid_chars_upto(self@, j as int),
            decreases 16 - j,
        {
            if j == 4 || j == 6 || j == 8 || j == 10 {
                proof {
                    reveal_strlit("-");
                }
                out.append("-");
            }
            push_lower_hex_pair(&mut out, self.0[j]);
            proof {
                assert(self.0@[j as int] == self@[j as int]);
            }
            j += 1;
        }
        out
    }
}

/// How many `-` separators stand before the `n`-th byte group in the
/// textual form of a UUID.
spec fn dashes_before(n: int) -> int {
    if n > 10 {
        4
    } else if n > 8 {
        3
    } else if n > 6 {
        2
    } else if n > 4 {
        1
    } else {
        0
    }
}

/// How the textual form of a UUID is laid out: its length, the `-` at each
/// separator position, and the two digits of every byte group.
proof fn lemma_uuid_chars_upto_layout(b: Seq<u8>, n: int)
    requires
        b.len() == 16,
        0 <= n <= 16,
    ensures
        uuid_chars_upto(b, n).len() == 2 * n + dashes_before(n),
        forall|k: int|
            0 <= k < uuid_chars_upto(b, n).len() && is_dash_pos(k) ==> #[trigger] uuid_chars_upto(
                b,
                n,
            )[k] == '-',
        forall|j: int|
            0 <= j < n ==> #[trigger] uuid_group_pos(j) + 2 <= uuid_chars_upto(b, n).len()
                && uuid_chars_upto(b, n)[uuid_group_pos(j)] == lower_hex_char(b[j] / 16)
                && uuid_chars_upto(b, n)[uuid_group_pos(j) + 1] == lower_hex_char(b[j] % 16),
    decreases n,
{
    if n > 0 {
        lemma_uuid_chars_upto_layout(b, n - 1);
        let prior = uuid_chars_upto(b, n - 1);
        let s = uuid_chars_upto(b, n);
        let dash: Seq<char> = if n - 1 == 4 || n - 1 == 6 || n - 1 == 8 || n - 1 == 10 {
            seq!['-']
        } else {
            Seq::empty()
        };
        assert(s == prior + dash + lower_hex_pair(b[n - 1]));
        assert(uuid_group_pos(n - 1) == prior.len() + dash.len());
        assert forall|k: int| 0 <= k < s.len() && is_dash_pos(k) implies #[trigger] s[k]
            == '-' by {
            if k < prior.len() {
                assert(s[k] == prior[k]);
            } else if k < prior.len() + dash.len() {
                assert(s[k] == '-');
            } else {
                let q = uuid_group_pos(n - 1);
                assert(k == q || k == q + 1);
                assert(!is_dash_pos(q) && !is_dash_pos(q + 1));
            }
        }
        assert forall|j: int| 0 <= j < n implies #[trigger] uuid_group_pos(j) + 2 <= s.len()
            && s[uuid_group_pos(j)] == lower_hex_char(b[j] / 16) && s[uuid_group_pos(j) + 1]
            == lower_hex_char(b[j] % 16) by {
            let q = uuid_group_pos(j);
            if j < n - 1 {
                assert(q + 2 <= prior.len());
                assert(s[q] == prior[q]);
                assert(s[q + 1] == prior[q + 1]);
            } else {
                assert(s[q] == lower_hex_pair(b[j])[0]);
                assert(s[q + 1] == lower_hex_pair(b[j])[1]);
            }
        }
    }
}

/// Scanning accepts any 36 characters with `-` at the separator positions
/// and hex digits everywhere else.
proof fn lemma_uuid_scan_ok(s: Seq<char>, k: int)
    requires
        s.len() == 36,
        0 <= k <= 36,
        forall|p: int|
            k <= p < 36 ==> (if is_dash_pos(p) {
                #[trigger] s[p] == '-'
            } else {
                is_hex_digit(s[p])
            }),
    ensures
        uuid_scan(s, k) is Ok,
    decreases 36 - k,
{
    if k < 36 {
        lemma_uuid_scan_ok(s, k + 1);
    }
}

/// Format/parse consistency: the textual form of any sixteen UUID bytes is
/// a well-formed textual UUID, and parsing it gives the bytes back.
pub proof fn lemma_uuid_roundtrip(b: Seq<u8>)
    requires
        b.len() == 16,
    ensures
        uuid_parse_ok(uuid_chars(b)),
        uuid_bytes(uuid_chars(b)) == b,
{
    let s = uuid_chars(b);
    lemma_uuid_chars_upto_layout(b, 16);
    assert(s.len() == 36);
    assert forall|p: int| 0 <= p < 36 && !is_dash_pos(p) implies is_hex_digit(
        #[trigger] s[p],
    ) by {
        let j: int = if p < 8 {
            p / 2
        } else if p < 13 {
            (p - 1) / 2
        } else if p < 18 {
            (p - 2) / 2
        } else if p < 23 {
            (p - 3) / 2
        } else {
            (p - 4) / 2
        };
        assert(0 <= j < 16);
        assert(uuid_group_pos(j) == p || uuid_group_pos(j) + 1 == p);
        lemma_hex_char_val(b[j] / 16);
        lemma_hex_char_val(b[j] % 16);
    }
    lemma_uuid_scan_ok(s, 0);
    assert forall|j: int| 0 <= j < 16 implies #[trigger] uuid_byte(s, j) == b[j] by {
        lemma_hex_char_val(b[j] / 16);
        lemma_hex_char_val(b[j] % 16);
    }
    assert(uuid_bytes(s) =~= b);
}

/// Parses a whole advertised service list. Every string must be a
/// well-formed UUID; the first malformed one fails the read with its own
/// parse error.
pub fn parse_uuids(strings: &Vec<String>) -> (r: Result<Vec<Uuid>, ParseUuidError>)
    ensures
        r is Ok <==> (forall|k: int|
            0 <= k < strings@.len() ==> uuid_parse_ok(#[trigger] strings.deep_view()[k])),
        r matches Ok(us) ==> us@.len() == strings@.len() && (forall|k: int|
            0 <= k < us@.len() ==> #[trigger] us@[k]@ == uuid_bytes(strings.deep_view()[k])),
        r matches Err(e) ==> (exists|k: int|
            0 <= k < strings@.len() && !uuid_parse_ok(#[trigger] strings.deep_view()[k]) && (
            forall|j: int| 0 <= j < k ==> uuid_parse_ok(#[trigger] strings.deep_view()[j]))
                && uuid_scan(strings.deep_view()[k], 0) == Err::<(), UuidErrorKind>(e.0)),
{
    let mut out: Vec<Uuid> = Vec::new();
    let mut i: usize = 0;
    while i < strings.len()
        invariant
            i <= strings.len(),
            out@.len() == i,
            forall|k: int|
                0 <= k < i ==> uuid_parse_ok(#[trigger] strings.deep_view()[k]) && out@[k]@
                    == uuid_bytes(strings.deep_view()[k]),
        decreases strings.len() - i,
    {
        proof {
            assert(strings.deep_view()[i as int] == strings[i as int]@);
        }
        match Uuid::from_str(strings[i].as_str()) {
            Ok(u) => {
                out.push(u);
            },
            Err(e) => {
                proof {
                    assert(!uuid_parse_ok(strings.deep_view()[i as int]));
                }
                return Err(e);
            },
        }
        i += 1;
    }
    Ok(out)
}

/// What [`Uuid::from_str`] found wrong with its input.
#[derive(Debug, Clone, Copy, PartialEq, Eq, Structural)]
pub enum UuidErrorKind {
    /// The input ended before all 36 positions were read.
    Eof,
    /// A digit position held something besides a hex digit.
    InvalidDigit,
    /// A separator position held something besides `-`.
    InvalidDash,
    /// Input continued past the 36 positions of a UUID.
    TrailingData,
}

/// The error type returned by [`Uuid::from_str`].
#[derive(Debug, Clone, Copy, PartialEq, Eq, Structural)]
pub struct ParseUuidError(pub UuidErrorKind);

impl ParseUuidError {
    /// A human-readable description of the failure.
    pub fn message(&self) -> (r: String)
        ensures
            self.0 == UuidErrorKind::Eof ==> r@ == "unexpected end of input"@,
            self.0 == UuidErrorKind::InvalidDigit ==> r@ == "invalid hex digit"@,
            self.0 == UuidErrorKind::InvalidDash ==> r@ == "invalid character (`-` expected)"@,
            self.0 == UuidErrorKind::TrailingData ==> r@ == "invalid trailing data"@,
    {
        match self.0 {
            UuidErrorKind::Eof => String::from_str("unexpected end of input"),
            UuidErrorKind::InvalidDigit => String::from_str("invalid hex digit"),
            UuidErrorKind::InvalidDash => String::from_str("invalid character (`-` expected)"),
            UuidErrorKind::TrailingData => String::from_str("invalid trailing data"),
        }
    }
}

} // verus!
