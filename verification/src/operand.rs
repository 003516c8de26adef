//! Operands: what an operation reads, a register or a literal.

use crate::decimal::decimal_text;
use crate::decimal::decimal_value;
use crate::decimal::digit_run;
use crate::decimal::is_digit;
use crate::decimal::lemma_decimal_text_digits;
use crate::decimal::lemma_decimal_text_scan;
use crate::decimal::lemma_digit_run_bounds;
use crate::decimal::lemma_digit_run_followed;
use crate::decimal::push_decimal;
use crate::decimal::scan_decimal;
use crate::environment::Environment;
use crate::error::DecodeError;
use crate::error::Decoded;
use crate::error::ParseError;
use crate::error::Parsed;
use crate::register::decode_register;
use crate::register::lemma_register_bytes_round_trip;
use crate::register::lemma_register_parse_followed;
use crate::register::lemma_register_parse_rest;
use crate::register::lemma_register_text_round_trip;
use crate::register::parse_register;
use crate::register::register_bytes;
use crate::register::register_text;
use crate::register::Register;
use crate::wire::decode_word;
use crate::wire::lemma_word_decode_exact;
use crate::wire::lemma_word_decode_followed;
use crate::wire::lemma_word_round_trip;
use crate::wire::take_word;
use crate::wire::word_bytes;
use crate::wire::write_word;
use crate::wire::WORD_BYTES;
use core::marker::PhantomData;
use vstd::prelude::*;
use vstd::slice::slice_subrange;
use vstd::string::*;

verus! {

/// The byte that stands before the bytes of a literal.
pub const LITERAL_VARIANT: u8 = 0;

/// The byte that stands before the bytes of a register.
pub const REGISTER_VARIANT: u8 = 1;

/// A value of the arithmetic domain `E`, written out in an operation.
#[derive(Debug, PartialEq, Eq)]
pub struct Literal<E: Environment> {
    value: u64,
    environment: PhantomData<E>,
}

impl<E: Environment> View for Literal<E> {
    type V = u64;

    closed spec fn view(&self) -> u64 {
        self.value
    }
}

/// An operand of an operation over the arithmetic domain `E`.
#[derive(Debug, PartialEq, Eq)]
pub enum Operand<E: Environment> {
    /// The value that a register holds.
    RegisterRef(Register),
    /// A value written out in the operation.
    Literal(Literal<E>),
}

/// What an operand is, whatever its arithmetic domain: a register, by its index,
/// or a literal, by its value.
pub ghost enum OperandView {
    /// The register with this index.
    RegisterRef(u64),
    /// The literal of this value.
    Literal(u64),
}

impl OperandView {
    /// Whether the operand is one of the domain with `modulus` values.
    pub open spec fn valid(self, modulus: u64) -> bool {
        match self {
            OperandView::RegisterRef(_) => true,
            OperandView::Literal(value) => value < modulus,
        }
    }

    /// The text of the operand: the text of the register, or the value in decimal.
    pub open spec fn text(self) -> Seq<char> {
        match self {
            OperandView::RegisterRef(locator) => register_text(locator),
            OperandView::Literal(value) => decimal_text(value as nat),
        }
    }

    /// The bytes of the operand: the byte that tells which of the two it is, then
    /// the bytes of the register or of the value.
    pub open spec fn bytes(self) -> Seq<u8> {
        match self {
            OperandView::RegisterRef(locator) => seq![REGISTER_VARIANT] + register_bytes(locator),
            OperandView::Literal(value) => seq![LITERAL_VARIANT] + word_bytes(value),
        }
    }
}

/// The literal of the domain with `modulus` values that stands at the front of
/// `s`, with what follows it, or why there is none.
pub open spec fn parse_literal(s: Seq<char>, modulus: u64) -> Parsed<u64> {
    let digits = digit_run(s);
    let value = decimal_value(s.take(digits as int));
    if digits == 0 {
        Err(ParseError::ExpectedOperand)
    } else if value >= modulus {
        Err(ParseError::LiteralOutOfRange)
    } else {
        Ok((s.skip(digits as int), value as u64))
    }
}

/// The operand of the domain with `modulus` values that stands at the front of
/// `s`, with what follows it, or why there is none. A register is tried first.
pub open spec fn parse_operand(s: Seq<char>, modulus: u64) -> Parsed<OperandView> {
    match parse_register(s) {
        Ok((rest, locator)) => Ok((rest, OperandView::RegisterRef(locator))),
        Err(ParseError::ExpectedRegister) => match parse_literal(s, modulus) {
            Ok((rest, value)) => Ok((rest, OperandView::Literal(value))),
            Err(e) => Err(e),
        },
        Err(e) => Err(e),
    }
}

/// The operand of the domain with `modulus` values that stands at the front of
/// `b`, with what follows it, or why there is none.
pub open spec fn decode_operand(b: Seq<u8>, modulus: u64) -> Decoded<OperandView> {
    if b.len() == 0 {
        Err(DecodeError::UnexpectedEof)
    } else if b[0] == LITERAL_VARIANT {
        match decode_word(b.skip(1)) {
            Ok((rest, value)) => if value < modulus {
                Ok((rest, OperandView::Literal(value)))
            } else {
                Err(DecodeError::LiteralOutOfRange)
            },
            Err(e) => Err(e),
        }
    } else if b[0] == REGISTER_VARIANT {
        match decode_register(b.skip(1)) {
            Ok((rest, locator)) => Ok((rest, OperandView::RegisterRef(locator))),
            Err(e) => Err(e),
        }
    } else {
        Err(DecodeError::InvalidVariant)
    }
}

impl<E: Environment> Clone for Literal<E> {
    fn clone(&self) -> (r: Self)
        ensures
            r == *self,
    {
        proof {
            use_type_invariant(self);
        }
        Literal { value: self.value, environment: PhantomData }
    }
}

impl<E: Environment> Copy for Literal<E> {

}

impl<E: Environment> Clone for Operand<E> {
    fn clone(&self) -> (r: Self)
        ensures
            r == *self,
    {
        match self {
            Operand::RegisterRef(register) => Operand::RegisterRef(*register),
            Operand::Literal(literal) => Operand::Literal(*literal),
        }
    }
}

impl<E: Environment> Copy for Operand<E> {

}

impl<E: Environment> Literal<E> {
    /// Whether the value belongs to the domain.
    pub open spec fn valid(&self) -> bool {
        self@ < E::spec_modulus()
    }

    /// Every literal that a program holds belongs to its domain.
    #[verifier::type_invariant]
    closed spec fn in_domain(&self) -> bool {
        self.value < E::spec_modulus()
    }

    /// The literal of `value`, if `value` belongs to the domain.
    pub fn new(value: u64) -> (r: Option<Self>)
        ensures
            r is Some <==> value < E::spec_modulus(),
            r is Some ==> r->0@ == value && r->0.valid(),
    {
        if value < E::modulus() {
            Some(Literal { value, environment: PhantomData })
        } else {
            None
        }
    }

    /// The value of the literal, which belongs to the domain.
    pub fn value(&self) -> (v: u64)
        ensures
            v == self@,
            self.valid(),
    {
        proof {
            use_type_invariant(self);
        }
        self.value
    }
}

impl<E: Environment> View for Operand<E> {
    type V = OperandView;

    open spec fn view(&self) -> OperandView {
        match self {
            Operand::RegisterRef(register) => OperandView::RegisterRef(register@),
            Operand::Literal(literal) => OperandView::Literal(literal@),
        }
    }
}

impl<E: Environment> Operand<E> {
    /// Whether the operand is one of the domain `E`.
    pub open spec fn valid(&self) -> bool {
        self@.valid(E::spec_modulus())
    }

    /// Does nothing, and lets the caller know that the operand is one of the
    /// domain, as every operand that a program holds is.
    pub(crate) fn known_valid(&self)
        ensures
            self.valid(),
    {
        match self {
            Operand::RegisterRef(_) => {},
            Operand::Literal(literal) => {
                proof {
                    use_type_invariant(literal);
                }
            },
        }
    }

    /// Reads an operand from the front of `input` and hands back what follows it.
    pub fn parse<'a>(input: &'a str) -> (r: Result<(&'a str, Self), ParseError>)
        ensures
            match r {
                Ok((rest, operand)) => {
                    &&& parse_operand(input@, E::spec_modulus()) == Parsed::Ok((rest@, operand@))
                    &&& operand.valid()
                },
                Err(e) => parse_operand(input@, E::spec_modulus()) == Parsed::<OperandView>::Err(e),
            },
    {
        match Register::parse(input) {
            Ok((rest, register)) => Ok((rest, Operand::RegisterRef(register))),
            Err(ParseError::ExpectedRegister) => {
                let (digits, number) = scan_decimal(input);
                if digits == 0 {
                    Err(ParseError::ExpectedOperand)
                } else {
                    match number {
                        None => Err(ParseError::LiteralOutOfRange),
                        Some(value) => match Literal::<E>::new(value) {
                            None => Err(ParseError::LiteralOutOfRange),
                            Some(literal) => {
                                proof {
                                    lemma_digit_run_bounds(input@);
                                }
                                let rest = input.substring_char(digits, input.unicode_len());
                                assert(rest@ =~= input@.skip(digits as int));
                                Ok((rest, Operand::Literal(literal)))
                            },
                        },
                    }
                }
            },
            Err(e) => Err(e),
        }
    }

    /// The text of the operand, which is one of the domain.
    pub fn to_string(&self) -> (s: String)
        ensures
            s@ == self@.text(),
            self.valid(),
    {
        match self {
            Operand::RegisterRef(register) => register.to_string(),
            Operand::Literal(literal) => {
                let mut s = String::new();
                push_decimal(literal.value(), &mut s);
                assert(s@ =~= decimal_text(literal@ as nat));
                s
            },
        }
    }

    /// Reads an operand from the front of `bytes` and hands back what follows it.
    pub fn read_le<'a>(bytes: &'a [u8]) -> (r: Result<(&'a [u8], Self), DecodeError>)
        ensures
            match r {
                Ok((rest, operand)) => {
                    &&& decode_operand(bytes@, E::spec_modulus()) == Decoded::Ok((rest@, operand@))
                    &&& operand.valid()
                    &&& bytes@ == operand@.bytes() + rest@
                },
                Err(e) => decode_operand(bytes@, E::spec_modulus()) == Decoded::<
                    OperandView,
                >::Err(e),
            },
    {
        if bytes.len() == 0 {
            return Err(DecodeError::UnexpectedEof);
        }
        proof {
            if decode_operand(bytes@, E::spec_modulus()) is Ok {
                let (rest, operand) = decode_operand(bytes@, E::spec_modulus())->Ok_0;
                lemma_operand_decode_exact(bytes@, E::spec_modulus(), rest, operand);
            }
        }
        let variant = bytes[0];
        let payload = slice_subrange(bytes, 1, bytes.len());
        assert(payload@ =~= bytes@.skip(1));
        if variant == LITERAL_VARIANT {
            match take_word(payload) {
                Err(e) => Err(e),
                Ok((rest, value)) => match Literal::<E>::new(value) {
                    None => Err(DecodeError::LiteralOutOfRange),
                    Some(literal) => Ok((rest, Operand::Literal(literal))),
                },
            }
        } else if variant == REGISTER_VARIANT {
            match Register::read_le(payload) {
                Err(e) => Err(e),
                Ok((rest, register)) => Ok((rest, Operand::RegisterRef(register))),
            }
        } else {
            Err(DecodeError::InvalidVariant)
        }
    }

    /// Appends the bytes of the operand, which is one of the domain, to `writer`.
    pub fn write_le(&self, writer: &mut Vec<u8>)
        ensures
            final(writer)@ == old(writer)@ + self@.bytes(),
            self.valid(),
    {
        match self {
            Operand::RegisterRef(register) => {
                writer.push(REGISTER_VARIANT);
                register.write_le(writer);
            },
            Operand::Literal(literal) => {
                writer.push(LITERAL_VARIANT);
                write_word(literal.value(), writer);
            },
        }
        assert(final(writer)@ =~= old(writer)@ + self@.bytes());
    }
}

/// Parsing the text of an operand, followed by nothing or by something that is
/// no digit, gives the operand back and leaves what followed.
pub proof fn lemma_operand_text_round_trip(operand: OperandView, modulus: u64, rest: Seq<char>)
    requires
        operand.valid(modulus),
        rest.len() == 0 || !is_digit(rest[0]),
    ensures
        parse_operand(operand.text() + rest, modulus) == Parsed::Ok((rest, operand)),
{
    match operand {
        OperandView::RegisterRef(locator) => {
            lemma_register_text_round_trip(locator, rest);
        },
        OperandView::Literal(value) => {
            let s = operand.text() + rest;
            lemma_decimal_text_digits(value as nat);
            lemma_decimal_text_scan(value as nat, rest);
            assert(s[0] == decimal_text(value as nat)[0]);
        },
    }
}

/// The text of an operand begins with `r` or with a digit.
pub proof fn lemma_operand_text_head(operand: OperandView)
    ensures
        operand.text().len() >= 1,
        operand.text()[0] == 'r' || is_digit(operand.text()[0]),
{
    match operand {
        OperandView::RegisterRef(locator) => {},
        OperandView::Literal(value) => {
            lemma_decimal_text_digits(value as nat);
        },
    }
}

/// The number of bytes of every operand.
pub open spec fn operand_len() -> nat {
    (1 + WORD_BYTES) as nat
}

/// Decoding the bytes of an operand, whatever follows them, gives the operand
/// back and leaves what followed.
pub proof fn lemma_operand_bytes_round_trip(operand: OperandView, modulus: u64, rest: Seq<u8>)
    requires
        operand.valid(modulus),
    ensures
        operand.bytes().len() == operand_len(),
        decode_operand(operand.bytes() + rest, modulus) == Decoded::Ok((rest, operand)),
{
    let b = operand.bytes() + rest;
    match operand {
        OperandView::RegisterRef(locator) => {
            lemma_register_bytes_round_trip(locator, rest);
            assert(b.skip(1) =~= register_bytes(locator) + rest);
        },
        OperandView::Literal(value) => {
            lemma_word_round_trip(value, rest);
            assert(b.skip(1) =~= word_bytes(value) + rest);
        },
    }
}

/// Only the bytes of a valid operand decode to it: what was decoded is valid, and
/// its bytes and what was left make up the input.
pub proof fn lemma_operand_decode_exact(
    b: Seq<u8>,
    modulus: u64,
    rest: Seq<u8>,
    operand: OperandView,
)
    requires
        decode_operand(b, modulus) == Decoded::Ok((rest, operand)),
    ensures
        operand.valid(modulus),
        b == operand.bytes() + rest,
{
    lemma_word_decode_exact(b.skip(1), rest, decode_word(b.skip(1))->Ok_0.1);
    assert(b =~= seq![b[0]] + b.skip(1));
    assert(b =~= operand.bytes() + rest);
}

/// A valid operand whose bytes are cut short is not decoded: the bytes end too
/// early.
pub proof fn lemma_operand_truncated(operand: OperandView, modulus: u64, kept: int)
    requires
        operand.valid(modulus),
        0 <= kept < operand_len(),
    ensures
        decode_operand(operand.bytes().take(kept), modulus) == Decoded::<OperandView>::Err(
            DecodeError::UnexpectedEof,
        ),
{
    lemma_operand_bytes_round_trip(operand, modulus, Seq::empty());
    let cut = operand.bytes().take(kept);
    if kept > 0 {
        assert(cut[0] == operand.bytes()[0]);
        assert(cut.skip(1).len() < WORD_BYTES);
    }
}

/// An operand that was parsed is parsed again, with the same result, when the
/// text goes on: what follows is left over with the rest. Where the operand
/// reached the end of the text, what follows must begin with no digit.
pub proof fn lemma_operand_parse_followed(
    s: Seq<char>,
    modulus: u64,
    rest: Seq<char>,
    operand: OperandView,
    more: Seq<char>,
)
    requires
        parse_operand(s, modulus) == Parsed::Ok((rest, operand)),
        rest.len() > 0 || more.len() == 0 || !is_digit(more[0]),
    ensures
        parse_operand(s + more, modulus) == Parsed::Ok((rest + more, operand)),
{
    if parse_register(s) is Ok {
        lemma_register_parse_followed(s, rest, parse_register(s)->Ok_0.1, more);
    } else {
        lemma_digit_run_bounds(s);
        lemma_digit_run_followed(s, more);
        assert((s + more)[0] == s[0]);
    }
}

/// What was decided of an operand stays decided when the bytes go on: an operand
/// that was decoded is decoded again, and what follows is left over with the
/// rest; an error other than the early end comes again.
pub proof fn lemma_operand_decode_followed(b: Seq<u8>, modulus: u64, more: Seq<u8>)
    ensures
        match decode_operand(b, modulus) {
            Ok((rest, operand)) => decode_operand(b + more, modulus) == Decoded::Ok(
                (rest + more, operand),
            ),
            Err(DecodeError::UnexpectedEof) => true,
            Err(e) => decode_operand(b + more, modulus) == Decoded::<OperandView>::Err(e),
        },
{
    if b.len() > 0 {
        assert((b + more)[0] == b[0]);
        assert((b + more).skip(1) =~= b.skip(1) + more);
        if decode_word(b.skip(1)) is Ok {
            let (rest, word) = decode_word(b.skip(1))->Ok_0;
            lemma_word_decode_followed(b.skip(1), rest, word, more);
        }
    }
}

/// What parsing an operand gives is one of the domain, and what it leaves over
/// begins with no digit: the digits of a number were all read.
pub proof fn lemma_operand_parse_rest(
    s: Seq<char>,
    modulus: u64,
    rest: Seq<char>,
    operand: OperandView,
)
    requires
        parse_operand(s, modulus) == Parsed::Ok((rest, operand)),
    ensures
        operand.valid(modulus),
        rest.len() == 0 || !is_digit(rest[0]),
{
    if parse_register(s) is Ok {
        lemma_register_parse_rest(s, rest, parse_register(s)->Ok_0.1);
    } else {
        lemma_digit_run_bounds(s);
    }
}

} // verus!
