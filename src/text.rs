//! Lenient decoders for fields that arrive as text: numbers given either as
//! numbers or as decimal strings, and byte strings in base64 of either
//! alphabet, with or without padding.
use vstd::prelude::*;

use base64::alphabet;
use base64::engine::{DecodePaddingMode, GeneralPurpose, GeneralPurposeConfig};
use base64::{DecodeError, Engine};

use crate::object::Error;

verus! {

/// Why a base64 text did not decode.
#[derive(Clone, Copy, Debug, PartialEq, Eq)]
pub enum Base64Failure {
    /// A byte outside the alphabet, at the given offset.
    InvalidByte(usize, u8),
    /// A number of symbols that no byte string has.
    InvalidLength(usize),
    /// A last symbol whose unused bits are not zero.
    InvalidLastSymbol(usize, u8),
    /// Padding in the wrong place.
    InvalidPadding,
}

/// What base64's standard alphabet, with padding optional, makes of a text.
pub uninterp spec fn standard_base64(s: Seq<char>) -> Result<Seq<u8>, Base64Failure>;

/// What base64's URL-safe alphabet, with padding optional, makes of a text.
pub uninterp spec fn url_safe_base64(s: Seq<char>) -> Result<Seq<u8>, Base64Failure>;

/// Relies on base64's `Engine::decode` of a `GeneralPurpose` engine with the
/// standard alphabet and `DecodePaddingMode::Indifferent`: its result depends
/// on the text alone.
#[verifier::external_body]
fn decode_standard(s: &str) -> (r: Result<Vec<u8>, Base64Failure>)
    ensures
        match r {
            Ok(b) => standard_base64(s@) == Ok::<Seq<u8>, Base64Failure>(b@),
            Err(e) => standard_base64(s@) == Err::<Seq<u8>, Base64Failure>(e),
        },
{
    let config = GeneralPurposeConfig::new().with_decode_padding_mode(DecodePaddingMode::Indifferent);
    match GeneralPurpose::new(&alphabet::STANDARD, config).decode(s) {
        Ok(b) => Ok(b),
        Err(DecodeError::InvalidByte(i, c)) => Err(Base64Failure::InvalidByte(i, c)),
        Err(DecodeError::InvalidLength(n)) => Err(Base64Failure::InvalidLength(n)),
        Err(DecodeError::InvalidLastSymbol(i, c)) => Err(Base64Failure::InvalidLastSymbol(i, c)),
        Err(DecodeError::InvalidPadding) => Err(Base64Failure::InvalidPadding),
    }
}

/// Relies on base64's `Engine::decode` of a `GeneralPurpose` engine with the
/// URL-safe alphabet and `DecodePaddingMode::Indifferent`: its result depends
/// on the text alone.
#[verifier::external_body]
fn decode_url_safe(s: &str) -> (r: Result<Vec<u8>, Base64Failure>)
    ensures
        match r {
            Ok(b) => url_safe_base64(s@) == Ok::<Seq<u8>, Base64Failure>(b@),
            Err(e) => url_safe_base64(s@) == Err::<Seq<u8>, Base64Failure>(e),
        },
{
    let config = GeneralPurposeConfig::new().with_decode_padding_mode(DecodePaddingMode::Indifferent);
    match GeneralPurpose::new(&alphabet::URL_SAFE, config).decode(s) {
        Ok(b) => Ok(b),
        Err(DecodeError::InvalidByte(i, c)) => Err(Base64Failure::InvalidByte(i, c)),
        Err(DecodeError::InvalidLength(n)) => Err(Base64Failure::InvalidLength(n)),
        Err(DecodeError::InvalidLastSymbol(i, c)) => Err(Base64Failure::InvalidLastSymbol(i, c)),
        Err(DecodeError::InvalidPadding) => Err(Base64Failure::InvalidPadding),
    }
}

/// The standard decoder stopped at a symbol of the URL-safe alphabet only.
pub open spec fn is_url_safe_symbol(e: Base64Failure) -> bool {
    match e {
        Base64Failure::InvalidByte(_, c) => c == 45u8 || c == 95u8,
        _ => false,
    }
}

/// The standard result, unless it failed on `-` or `_`: then the URL-safe one.
pub open spec fn lenient_base64(
    standard: Result<Seq<u8>, Base64Failure>,
    url_safe: Result<Seq<u8>, Base64Failure>,
) -> Result<Seq<u8>, Base64Failure> {
    match standard {
        Ok(b) => Ok(b),
        Err(e) => if is_url_safe_symbol(e) {
            url_safe
        } else {
            Err(e)
        },
    }
}

/// Whether a failure of the standard alphabet calls for a second try with
/// the URL-safe one.
pub fn retry_url_safe(e: &Base64Failure) -> (r: bool)
    ensures
        r == is_url_safe_symbol(*e),
{
    match e {
        Base64Failure::InvalidByte(_, c) => *c == 45u8 || *c == 95u8,
        _ => false,
    }
}

/// The bytes that the two decodings give together, or `InvalidByteString`.
pub fn combine_decodings(
    standard: Result<Vec<u8>, Base64Failure>,
    url_safe: Result<Vec<u8>, Base64Failure>,
) -> (r: Result<Vec<u8>, Error>)
    ensures
        match lenient_base64(
            match standard {
                Ok(b) => Ok(b@),
                Err(e) => Err(e),
            },
            match url_safe {
                Ok(b) => Ok(b@),
                Err(e) => Err(e),
            },
        ) {
            Ok(b) => r matches Ok(v) && v@ == b,
            Err(_) => r == Err::<Vec<u8>, Error>(Error::InvalidByteString),
        },
{
    match standard {
        Ok(b) => Ok(b),
        Err(e) => if retry_url_safe(&e) {
            match url_safe {
                Ok(b) => Ok(b),
                Err(_) => Err(Error::InvalidByteString),
            }
        } else {
            Err(Error::InvalidByteString)
        },
    }
}

/// A byte string read from base64 text.
#[derive(Debug, Clone, PartialEq, Eq, Hash)]
pub struct BytesDeserialize<T>(pub T);

impl BytesDeserialize<Vec<u8>> {
    /// Decodes with the standard alphabet, padding optional; when that stops
    /// at `-` or `_`, decodes with the URL-safe alphabet instead.
    pub fn from_base64(s: &str) -> (r: Result<BytesDeserialize<Vec<u8>>, Error>)
        ensures
            match lenient_base64(standard_base64(s@), url_safe_base64(s@)) {
                Ok(b) => r matches Ok(v) && v.0@ == b,
                Err(_) => r == Err::<BytesDeserialize<Vec<u8>>, Error>(Error::InvalidByteString),
            },
    {
        let standard = decode_standard(s);
        let retry = match &standard {
            Ok(_) => false,
            Err(e) => retry_url_safe(e),
        };
        let url_safe = if retry {
            decode_url_safe(s)
        } else {
            Err(Base64Failure::InvalidPadding)
        };
        match combine_decodings(standard, url_safe) {
            Ok(b) => Ok(BytesDeserialize(b)),
            Err(e) => Err(e),
        }
    }
}

pub open spec fn is_digit(c: char) -> bool {
    '0' <= c <= '9'
}

/// The number that a string of decimal digits spells.
pub open spec fn decimal_value(s: Seq<char>) -> nat
    decreases s.len(),
{
    if s.len() == 0 {
        0
    } else {
        decimal_value(s.drop_last()) * 10 + (s.last() as nat - '0' as nat) as nat
    }
}

/// What a decimal text stands for as a `u64`: an optional `+`, then one or
/// more digits whose value fits.
pub open spec fn u64_of_text(s: Seq<char>) -> Option<u64> {
    let d = if s.len() > 0 && s[0] == '+' {
        s.subrange(1, s.len() as int)
    } else {
        s
    };
    if d.len() > 0 && (forall|i: int| 0 <= i < d.len() ==> is_digit(#[trigger] d[i]))
        && decimal_value(d) <= u64::MAX {
        Some(decimal_value(d) as u64)
    } else {
        None
    }
}

/// Relies on `str::parse::<u64>` (`u64::from_str`), documented to accept an
/// optional `+` followed by decimal digits and nothing else, within range.
#[verifier::external_body]
fn parse_u64_text(s: &str) -> (r: Option<u64>)
    ensures
        r == u64_of_text(s@),
{
    s.parse::<u64>().ok()
}

/// A number field as the text transport delivers it.
pub enum NumberContent {
    /// The number written as a string.
    Str(String),
    /// The number as such.
    Number(u64),
}

/// A number read from either a native number or a decimal string.
#[derive(Debug, Copy, Clone, PartialOrd, PartialEq, Hash, Ord, Eq)]
pub struct NumberDeserialize<T>(pub T);

impl NumberDeserialize<u64> {
    /// A string is parsed as a decimal `u64`; a number is taken as it is.
    pub fn from_content(c: NumberContent) -> (r: Result<NumberDeserialize<u64>, Error>)
        ensures
            match c {
                NumberContent::Str(s) => match u64_of_text(s@) {
                    Some(v) => r == Ok::<NumberDeserialize<u64>, Error>(NumberDeserialize(v)),
                    None => r == Err::<NumberDeserialize<u64>, Error>(Error::InvalidNumberLiteral),
                },
                NumberContent::Number(n) => r == Ok::<NumberDeserialize<u64>, Error>(
                    NumberDeserialize(n),
                ),
            },
    {
        match c {
            NumberContent::Str(s) => Self::from_text(s.as_str()),
            NumberContent::Number(n) => Ok(NumberDeserialize(n)),
        }
    }

    /// The `u64` that a decimal string spells.
    pub fn from_text(s: &str) -> (r: Result<NumberDeserialize<u64>, Error>)
        ensures
            match u64_of_text(s@) {
                Some(v) => r == Ok::<NumberDeserialize<u64>, Error>(NumberDeserialize(v)),
                None => r == Err::<NumberDeserialize<u64>, Error>(Error::InvalidNumberLiteral),
            },
    {
        match parse_u64_text(s) {
            Some(v) => Ok(NumberDeserialize(v)),
            None => Err(Error::InvalidNumberLiteral),
        }
    }
}

} // verus!
