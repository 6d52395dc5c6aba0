//! Odd bytes: a `u8` that is odd by construction, read from and written to
//! base-10 text and a keyed record whose field `n` holds that text.
use vstd::prelude::*;

use crate::decimal::{decimal, format_byte, lemma_parse_decimal, parse_byte, parse_byte_text};

verus! {

/// Why a value could not become an [`OddNum`].
#[derive(Debug, Clone, Copy, PartialEq, Eq, Structural)]
pub enum InvalidOddNumber {
    /// The text is not the base-10 form of an integer in `0..=255`.
    NaN,
    /// The integer is even.
    Even,
}

/// An odd integer in `0..=255`. The field is private: every value comes
/// through [`OddNum::try_from`], which turns even integers away.
#[derive(Debug, Clone, Copy, PartialEq, Eq, Structural)]
pub struct OddNum {
    n: u8,
}

/// The keyed form of an [`OddNum`]: one field `n` holding the decimal text
/// of the integer, not the integer itself.
pub struct OddNumRecord {
    pub n: String,
}

/// The outcome of validating the integer `v`.
pub open spec fn odd_model(v: u8) -> Result<u8, InvalidOddNumber> {
    if v % 2 == 0 {
        Err(InvalidOddNumber::Even)
    } else {
        Ok(v)
    }
}

/// The outcome of reading the text `s`: the numeral is checked first, the
/// parity second.
pub open spec fn parse_model(s: Seq<char>) -> Result<u8, InvalidOddNumber> {
    match parse_byte(s) {
        None => Err(InvalidOddNumber::NaN),
        Some(v) => odd_model(v),
    }
}

/// A result seen through the integer that an `OddNum` holds.
pub open spec fn result_model(r: Result<OddNum, InvalidOddNumber>) -> Result<u8, InvalidOddNumber> {
    match r {
        Ok(o) => Ok(o@),
        Err(e) => Err(e),
    }
}

impl View for OddNum {
    type V = u8;

    closed spec fn view(&self) -> u8 {
        self.n
    }
}

impl OddNum {
    #[verifier::type_invariant]
    spec fn is_odd(self) -> bool {
        self.n % 2 == 1
    }

    /// Accepts `value` when it is odd; an even one gives `Even`.
    pub fn try_from(value: u8) -> (r: Result<OddNum, InvalidOddNumber>)
        ensures
            result_model(r) == odd_model(value),
    {
        if value % 2 == 0 {
            return Err(InvalidOddNumber::Even);
        }
        Ok(OddNum { n: value })
    }

    /// Reads base-10 text: text that spells no integer in `0..=255` gives
    /// `NaN`, whatever its look; an even integer gives `Even`.
    pub fn from_str(s: &str) -> (r: Result<OddNum, InvalidOddNumber>)
        ensures
            result_model(r) == parse_model(s@),
    {
        match parse_byte_text(s) {
            None => Err(InvalidOddNumber::NaN),
            Some(v) => OddNum::try_from(v),
        }
    }

    /// The canonical decimal text of the integer.
    pub fn to_string(&self) -> (r: String)
        ensures
            r@ == decimal(self@ as nat),
    {
        format_byte(self.n)
    }

    /// The integer held, which is odd.
    pub fn value(&self) -> (r: u8)
        ensures
            r == self@,
            r % 2 == 1,
    {
        proof {
            use_type_invariant(self);
        }
        self.n
    }

    /// The keyed form: field `n` holds the canonical decimal text.
    pub fn encode(&self) -> (r: OddNumRecord)
        ensures
            r.n@ == decimal(self@ as nat),
    {
        OddNumRecord { n: self.to_string() }
    }

    /// Reads the keyed form: the text of field `n` goes through
    /// [`OddNum::from_str`], so the outcome is exactly that of reading it.
    pub fn decode(record: &OddNumRecord) -> (r: Result<OddNum, InvalidOddNumber>)
        ensures
            result_model(r) == parse_model(record.n@),
    {
        OddNum::from_str(record.n.as_str())
    }
}

impl std::str::FromStr for OddNum {
    type Err = InvalidOddNumber;

    /// The same reader as the inherent [`OddNum::from_str`].
    fn from_str(s: &str) -> (r: Result<OddNum, InvalidOddNumber>)
        ensures
            result_model(r) == parse_model(s@),
    {
        OddNum::from_str(s)
    }
}

/// Two `OddNum`s that hold the same integer are the same value.
pub proof fn lemma_view_injective(a: OddNum, b: OddNum)
    requires
        a@ == b@,
    ensures
        a == b,
{
}

/// Round trip: every odd byte `v` is accepted, and reading back the text
/// written for it (plain, or in field `n` of the keyed form) gives `v` again.
pub proof fn lemma_round_trip(v: u8)
    requires
        v % 2 == 1,
    ensures
        odd_model(v) == Ok::<u8, InvalidOddNumber>(v),
        parse_model(decimal(v as nat)) == Ok::<u8, InvalidOddNumber>(v),
{
    lemma_parse_decimal(v);
}

/// Every even byte `v` is turned away as `Even`, both as an integer and as
/// its decimal text (plain, or in field `n` of the keyed form).
pub proof fn lemma_even_rejected(v: u8)
    requires
        v % 2 == 0,
    ensures
        odd_model(v) == Err::<u8, InvalidOddNumber>(InvalidOddNumber::Even),
        parse_model(decimal(v as nat)) == Err::<u8, InvalidOddNumber>(InvalidOddNumber::Even),
{
    lemma_parse_decimal(v);
}

/// The numeral is checked before the parity: text that spells no byte gives
/// `NaN`, and `Even` comes only from text that spells an even byte.
pub proof fn lemma_numeral_checked_first(s: Seq<char>)
    ensures
        parse_byte(s) is None ==> parse_model(s) == Err::<u8, InvalidOddNumber>(
            InvalidOddNumber::NaN,
        ),
        parse_model(s) == Err::<u8, InvalidOddNumber>(InvalidOddNumber::Even) ==> (parse_byte(
            s,
        ) is Some && parse_byte(s)->0 % 2 == 0),
{
}

} // verus!
