//! Bluetooth device addresses.
//!
//! Device addresses are a link-layer mechanism that allows devices to identify
//! and exchange data with each other.

use vstd::prelude::*;
use vstd::string::StrSliceExecFns;
use vstd::string::StringExecFns;

use crate::error::{Error, ErrorKind};
use crate::text::{
    hex_digit_val, hex_val, is_hex_digit, lemma_hex_char_val, push_upper_hex_pair, str_eq,
    upper_hex_char, upper_hex_pair,
};

verus! {

/// Describes the meaning of the bytes in an [`Address`].
#[derive(Debug, Clone, Copy, PartialEq, Eq, Structural)]
#[non_exhaustive]
pub enum AddressType {
    /// Address follows the MAC address standard.
    ///
    /// The first 3 Bytes identify the vendor, the last 3 Bytes identify the device.
    Public,
    /// Address is randomly generated.
    Random,
}

impl AddressType {
    /// Which strings name an address type.
    pub open spec fn parse_spec(s: Seq<char>) -> Option<AddressType> {
        if s == "public"@ {
            Some(AddressType::Public)
        } else if s == "random"@ {
            Some(AddressType::Random)
        } else {
            None
        }
    }

    /// Reads an address type from its name on the bus.
    pub fn from_str(s: &str) -> (r: Result<AddressType, Error>)
        ensures
            Self::parse_spec(s@) matches Some(t) ==> r == Ok::<AddressType, Error>(t),
            Self::parse_spec(s@) is None ==> r == Err::<AddressType, Error>(
                Error { kind: ErrorKind::InvalidAddressType },
            ),
    {
        if str_eq(s, "public") {
            Ok(AddressType::Public)
        } else if str_eq(s, "random") {
            Ok(AddressType::Random)
        } else {
            Err(Error { kind: ErrorKind::InvalidAddressType })
        }
    }
}

/// A 6-Byte Bluetooth device address.
///
/// Device addresses can either follow the MAC address standard, or be randomly
/// generated. Which one applies to an [`Address`] is specified by its
/// [`AddressType`], which can be fetched separately.
#[derive(Debug, Clone, Copy, PartialEq, Eq)]
pub struct Address([u8; 6]);

impl View for Address {
    type V = Seq<u8>;

    closed spec fn view(&self) -> Seq<u8> {
        self.0@
    }
}

/// Whether `s` has the shape of a textual device address apart from its
/// digits: 17 characters with `:` separating the six two-digit groups.
pub open spec fn address_structure_ok(s: Seq<char>) -> bool {
    &&& s.len() == 17
    &&& forall|k: int| 0 <= k < 17 && k % 3 == 2 ==> #[trigger] s[k] == ':'
}

/// Whether `s` is a well-formed textual device address.
pub open spec fn address_parse_ok(s: Seq<char>) -> bool {
    &&& address_structure_ok(s)
    &&& forall|k: int| 0 <= k < 17 && k % 3 != 2 ==> is_hex_digit(#[trigger] s[k])
}

/// The byte written as the `i`-th two-digit group of `s`.
pub open spec fn address_byte(s: Seq<char>, i: int) -> u8
    recommends
        address_parse_ok(s),
        0 <= i < 6,
{
    (16 * hex_digit_val(s[3 * i]) + hex_digit_val(s[3 * i + 1])) as u8
}

/// The six bytes written in the textual device address `s`.
pub open spec fn address_bytes(s: Seq<char>) -> Seq<u8>
    recommends
        address_parse_ok(s),
{
    Seq::new(6, |i: int| address_byte(s, i))
}

/// The first `n` byte groups of `b` in upper-case hex, separated by `:`.
pub open spec fn address_chars_upto(b: Seq<u8>, n: int) -> Seq<char>
    decreases n,
{
    if n <= 0 {
        Seq::empty()
    } else if n == 1 {
        upper_hex_pair(b[0])
    } else {
        address_chars_upto(b, n - 1) + seq![':'] + upper_hex_pair(b[n - 1])
    }
}

/// The textual form of the address bytes `b`: six upper-case hex pairs
/// separated by `:`.
pub open spec fn address_chars(b: Seq<u8>) -> Seq<char>
    recommends
        b.len() == 6,
{
    address_chars_upto(b, 6)
}

impl Address {
    /// Wraps six raw address bytes.
    #[inline]
    pub fn from_bytes(bytes: [u8; 6]) -> (r: Self)
        ensures
            r@ == bytes@,
    {
        Address(bytes)
    }

    /// The raw bytes of this address.
    #[inline]
    pub fn as_bytes(&self) -> (r: &[u8; 6])
        ensures
            r@ == self@,
    {
        &self.0
    }

    /// Parses a Bluetooth [`Address`] from a colon-separated hex string.
    ///
    /// Example: `aa:ff:00:33:22:11`
    pub fn from_str(s: &str) -> (r: Result<Address, ParseAddressError>)
        ensures
            address_parse_ok(s@) ==> (r matches Ok(a) && a@ == address_bytes(s@)),
            !address_parse_ok(s@) ==> (r matches Err(e) && e.is_parse_int()
                == address_structure_ok(s@)),
    {
        let len = s.unicode_len();
        if len != 17 {
            return Err(ParseAddressError::other());
        }
        let mut k: usize = 0;
        while k < 5
            invariant
                s@.len() == 17,
                k <= 5,
                forall|j: int| 0 <= j < 3 * k + 2 && j % 3 == 2 ==> #[trigger] s@[j] == ':',
            decreases 5 - k,
        {
            if s.get_char(3 * k + 2) != ':' {
                return Err(ParseAddressError::other());
            }
            k += 1;
        }
        let mut bytes: [u8; 6] = [0, 0, 0, 0, 0, 0];
        let mut i: usize = 0;
        while i < 6
            invariant
                s@.len() == 17,
                i <= 6,
                address_structure_ok(s@),
                forall|j: int| 0 <= j < 3 * i && j % 3 != 2 ==> is_hex_digit(#[trigger] s@[j]),
                forall|j: int| 0 <= j < i ==> bytes@[j] == #[trigger] address_byte(s@, j),
            decreases 6 - i,
        {
            let hi = match hex_val(s.get_char(3 * i)) {
                Some(h) => h,
                None => {
                    return Err(ParseAddressError::parse_int());
                },
            };
            let lo = match hex_val(s.get_char(3 * i + 1)) {
                Some(l) => l,
                None => {
                    return Err(ParseAddressError::parse_int());
                },
            };
            bytes[i] = 16 * hi + lo;
            i += 1;
        }
        proof {
            assert(bytes@ =~= address_bytes(s@));
        }
        Ok(Address(bytes))
    }

    /// The textual form of this address: six upper-case hex pairs separated
    /// by `:`, for example `AA:FF:00:33:22:11`.
    pub fn to_string(&self) -> (r: String)
        ensures
            r@ == address_chars(self@),
    {
        let mut out = String::new();
        let mut i: usize = 0;
        while i < 6
            invariant
                i <= 6,
                out@ == address_chars_upto(self@, i as int),
            decreases 6 - i,
        {
            if i != 0 {
                proof {
                    reveal_strlit(":");
                }
                out.append(":");
            }
            push_upper_hex_pair(&mut out, self.0[i]);
            proof {
                assert(self.0@[i as int] == self@[i as int]);
            }
            i += 1;
        }
        out
    }
}

/// How the textual form of an address is laid out, position by position:
/// its length, its separators, and the digit standing at every other spot.
proof fn lemma_address_chars_upto_layout(b: Seq<u8>, n: int)
    requires
        b.len() == 6,
        0 <= n <= 6,
    ensures
        n == 0 ==> address_chars_upto(b, n).len() == 0,
        n > 0 ==> address_chars_upto(b, n).len() == 3 * n - 1,
        forall|k: int|
            0 <= k < address_chars_upto(b, n).len() ==> #[trigger] address_chars_upto(b, n)[k]
                == (if k % 3 == 2 {
                ':'
            } else if k % 3 == 0 {
                upper_hex_char(b[k / 3] / 16)
            } else {
                upper_hex_char(b[k / 3] % 16)
            }),
    decreases n,
{
    if n == 1 {
        let s = address_chars_upto(b, n);
        assert(s == upper_hex_pair(b[0]));
        assert(s[0] == upper_hex_char(b[0] / 16));
        assert(s[1] == upper_hex_char(b[0] % 16));
    } else if n > 1 {
        lemma_address_chars_upto_layout(b, n - 1);
        let prior = address_chars_upto(b, n - 1);
        let s = address_chars_upto(b, n);
        assert(s == prior + seq![':'] + upper_hex_pair(b[n - 1]));
        assert forall|k: int| 0 <= k < s.len() implies #[trigger] s[k] == (if k % 3 == 2 {
            ':'
        } else if k % 3 == 0 {
            upper_hex_char(b[k / 3] / 16)
        } else {
            upper_hex_char(b[k / 3] % 16)
        }) by {
            if k < prior.len() {
                assert(s[k] == prior[k]);
            } else if k == prior.len() {
                assert(s[k] == ':');
                assert(k == 3 * (n - 1) - 1);
                assert(k % 3 == 2);
            } else if k == prior.len() + 1 {
                assert(s[k] == upper_hex_char(b[n - 1] / 16));
            } else {
                assert(s[k] == upper_hex_char(b[n - 1] % 16));
            }
        }
    }
}

/// Format/parse consistency: the textual form of any six address bytes is a
/// well-formed textual address, and parsing it gives the bytes back.
pub proof fn lemma_address_roundtrip(b: Seq<u8>)
    requires
        b.len() == 6,
    ensures
        address_parse_ok(address_chars(b)),
        address_bytes(address_chars(b)) == b,
{
    let s = address_chars(b);
    lemma_address_chars_upto_layout(b, 6);
    assert forall|k: int| 0 <= k < 17 && k % 3 != 2 implies is_hex_digit(#[trigger] s[k]) by {
        if k % 3 == 0 {
            lemma_hex_char_val(b[k / 3] / 16);
        } else {
            lemma_hex_char_val(b[k / 3] % 16);
        }
    }
    assert forall|i: int| 0 <= i < 6 implies #[trigger] address_byte(s, i) == b[i] by {
        assert(s[3 * i] == upper_hex_char(b[(3 * i) / 3] / 16));
        assert(s[3 * i + 1] == upper_hex_char(b[(3 * i + 1) / 3] % 16));
        assert((3 * i) / 3 == i);
        assert((3 * i + 1) / 3 == i);
        lemma_hex_char_val(b[i] / 16);
        lemma_hex_char_val(b[i] % 16);
    }
    assert(address_bytes(s) =~= b);
}

/// The error type returned by [`Address::from_str`].
#[derive(Debug)]
pub struct ParseAddressError(ParseAddressErrorKind);

#[derive(Debug)]
enum ParseAddressErrorKind {
    ParseInt,
    Other,
}

impl ParseAddressError {
    /// Whether this error blames a malformed hex digit rather than the
    /// overall shape of the input.
    pub closed spec fn is_parse_int(&self) -> bool {
        self.0 is ParseInt
    }

    /// A two-digit group held something besides hex digits.
    pub fn parse_int() -> (r: Self)
        ensures
            r.is_parse_int(),
    {
        ParseAddressError(ParseAddressErrorKind::ParseInt)
    }

    /// The input did not have the six-groups-of-two shape.
    pub fn other() -> (r: Self)
        ensures
            !r.is_parse_int(),
    {
        ParseAddressError(ParseAddressErrorKind::Other)
    }

    /// A human-readable description of the failure.
    pub fn message(&self) -> (r: String)
        ensures
            self.is_parse_int() ==> r@ == "invalid digit found in string"@,
            !self.is_parse_int() ==> r@ == "invalid device address"@,
    {
        match self.0 {
            ParseAddressErrorKind::ParseInt => String::from_str("invalid digit found in string"),
            ParseAddressErrorKind::Other => String::from_str("invalid device address"),
        }
    }
}

} // verus!
