//! Registers: the storage slots of the machine, told apart by an index.

use crate::decimal::decimal_text;
use crate::decimal::decimal_value;
use crate::decimal::digit_run;
use crate::decimal::is_digit;
use crate::decimal::lemma_decimal_text_scan;
use crate::decimal::lemma_digit_run_bounds;
use crate::decimal::lemma_digit_run_followed;
use crate::decimal::push_decimal;
use crate::decimal::scan_decimal;
use crate::error::DecodeError;
use crate::error::Decoded;
use crate::error::ParseError;
use crate::error::Parsed;
use crate::token::tag;
use crate::wire::decode_word;
use crate::wire::lemma_word_round_trip;
use crate::wire::take_word;
use crate::wire::word_bytes;
use crate::wire::write_word;
use crate::wire::WORD_BYTES;
use vstd::prelude::*;
use vstd::string::*;

verus! {

/// A register of the machine.
#[derive(Clone, Copy, Debug, PartialEq, Eq)]
pub struct Register {
    locator: u64,
}

impl View for Register {
    type V = u64;

    closed spec fn view(&self) -> u64 {
        self.locator
    }
}

/// The text of the register with index `locator`: `r` and the index in decimal.
pub open spec fn register_text(locator: u64) -> Seq<char> {
    seq!['r'] + decimal_text(locator as nat)
}

/// The register that stands at the front of `s`, with what follows it, or why
/// there is none.
pub open spec fn parse_register(s: Seq<char>) -> Parsed<u64> {
    let digits = digit_run(s.skip(1));
    let index = decimal_value(s.skip(1).take(digits as int));
    if s.len() == 0 || s[0] != 'r' || digits == 0 {
        Err(ParseError::ExpectedRegister)
    } else if index > u64::MAX {
        Err(ParseError::RegisterOutOfRange)
    } else {
        Ok((s.skip(1 + digits as int), index as u64))
    }
}

/// The bytes of the register with index `locator`.
pub open spec fn register_bytes(locator: u64) -> Seq<u8> {
    word_bytes(locator)
}

/// The index of the register that stands at the front of `b`, with what follows
/// it, or why there is none.
pub open spec fn decode_register(b: Seq<u8>) -> Decoded<u64> {
    decode_word(b)
}

impl Register {
    /// The register with index `locator`.
    pub fn new(locator: u64) -> (r: Self)
        ensures
            r@ == locator,
    {
        Register { locator }
    }

    /// The index of the register.
    pub fn locator(&self) -> (l: u64)
        ensures
            l == self@,
    {
        self.locator
    }

    /// Reads a register from the front of `input` and hands back what follows it.
    pub fn parse<'a>(input: &'a str) -> (r: Result<(&'a str, Self), ParseError>)
        ensures
            match r {
                Ok((rest, register)) => parse_register(input@) == Parsed::Ok((rest@, register@)),
                Err(e) => parse_register(input@) == Parsed::<u64>::Err(e),
            },
    {
        proof {
            reveal_strlit("r");
        }
        match tag("r", input) {
            None => {
                assert(input@.len() == 0 || input@[0] != 'r') by {
                    if input@.len() > 0 && input@[0] == 'r' {
                        assert(input@.subrange(0, 1) =~= "r"@);
                    }
                }
                Err(ParseError::ExpectedRegister)
            },
            Some(tail) => {
                assert(input@.subrange(0, 1) == "r"@);
                assert(input@[0] == input@.subrange(0, 1)[0]);
                let (digits, index) = scan_decimal(tail);
                if digits == 0 {
                    Err(ParseError::ExpectedRegister)
                } else {
                    match index {
                        None => Err(ParseError::RegisterOutOfRange),
                        Some(locator) => {
                            proof {
                                lemma_digit_run_bounds(tail@);
                            }
                            let rest = tail.substring_char(digits, tail.unicode_len());
                            assert(rest@ =~= input@.skip(1 + digits as int));
                            Ok((rest, Register { locator }))
                        },
                    }
                }
            },
        }
    }

    /// The text of the register.
    pub fn to_string(&self) -> (s: String)
        ensures
            s@ == register_text(self@),
    {
        proof {
            reveal_strlit("r");
        }
        let mut s = String::from_str("r");
        assert(s@ =~= seq!['r']);
        push_decimal(self.locator, &mut s);
        s
    }

    /// Reads a register from the front of `bytes` and hands back what follows it.
    pub fn read_le<'a>(bytes: &'a [u8]) -> (r: Result<(&'a [u8], Self), DecodeError>)
        ensures
            match r {
                Ok((rest, register)) => {
                    &&& decode_register(bytes@) == Decoded::Ok((rest@, register@))
                    &&& bytes@ == register_bytes(register@) + rest@
                },
                Err(e) => decode_register(bytes@) == Decoded::<u64>::Err(e),
            },
    {
        match take_word(bytes) {
            Err(e) => Err(e),
            Ok((rest, locator)) => Ok((rest, Register { locator })),
        }
    }

    /// Appends the bytes of the register to `writer`.
    pub fn write_le(&self, writer: &mut Vec<u8>)
        ensures
            final(writer)@ == old(writer)@ + register_bytes(self@),
    {
        write_word(self.locator, writer);
    }
}

/// Parsing the text of a register, followed by nothing or by something that is
/// no digit, gives the register back and leaves what followed.
pub proof fn lemma_register_text_round_trip(locator: u64, rest: Seq<char>)
    requires
        rest.len() == 0 || !is_digit(rest[0]),
    ensures
        parse_register(register_text(locator) + rest) == Parsed::Ok((rest, locator)),
{
    let digits = decimal_text(locator as nat);
    let s = register_text(locator) + rest;
    lemma_decimal_text_scan(locator as nat, rest);
    assert(s.skip(1) =~= digits + rest);
    assert(s.skip(1 + digits.len() as int) =~= rest);
}

/// Decoding the bytes of a register, whatever follows them, gives the register
/// back and leaves what followed.
pub proof fn lemma_register_bytes_round_trip(locator: u64, rest: Seq<u8>)
    ensures
        register_bytes(locator).len() == WORD_BYTES,
        decode_register(register_bytes(locator) + rest) == Decoded::Ok((rest, locator)),
{
    lemma_word_round_trip(locator, rest);
}

/// A register that was parsed is parsed again, with the same result, when the
/// text goes on: what follows is left over with the rest. Where the register
/// reached the end of the text, what follows must begin with no digit.
pub proof fn lemma_register_parse_followed(
    s: Seq<char>,
    rest: Seq<char>,
    locator: u64,
    more: Seq<char>,
)
    requires
        parse_register(s) == Parsed::Ok((rest, locator)),
        rest.len() > 0 || more.len() == 0 || !is_digit(more[0]),
    ensures
        parse_register(s + more) == Parsed::Ok((rest + more, locator)),
{
    let tail = s.skip(1);
    assert((s + more).skip(1) =~= tail + more);
    lemma_digit_run_bounds(tail);
    lemma_digit_run_followed(tail, more);
    assert(tail.skip(digit_run(tail) as int) =~= s.skip(1 + digit_run(tail) as int));
    assert((tail + more).skip(digit_run(tail) as int) =~= (s + more).skip(
        1 + digit_run(tail) as int,
    ));
}

/// What parsing a register leaves over begins with no digit: the digits of the
/// index were all read.
pub proof fn lemma_register_parse_rest(s: Seq<char>, rest: Seq<char>, locator: u64)
    requires
        parse_register(s) == Parsed::Ok((rest, locator)),
    ensures
        rest.len() == 0 || !is_digit(rest[0]),
{
    let tail = s.skip(1);
    lemma_digit_run_bounds(tail);
    assert(rest =~= tail.skip(digit_run(tail) as int));
}

} // verus!
