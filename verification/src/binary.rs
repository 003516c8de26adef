//! The binary operation: a destination register and two operands.

use crate::decimal::is_digit;
use crate::environment::Environment;
use crate::error::DecodeError;
use crate::error::Decoded;
use crate::error::ParseError;
use crate::error::Parsed;
use crate::operand::decode_operand;
use crate::operand::lemma_operand_bytes_round_trip;
use crate::operand::lemma_operand_decode_exact;
use crate::operand::lemma_operand_decode_followed;
use crate::operand::lemma_operand_parse_followed;
use crate::operand::lemma_operand_parse_rest;
use crate::operand::lemma_operand_text_head;
use crate::operand::lemma_operand_text_round_trip;
use crate::operand::lemma_operand_truncated;
use crate::operand::operand_len;
use crate::operand::parse_operand;
use crate::operand::Operand;
use crate::operand::OperandView;
use crate::register::decode_register;
use crate::register::lemma_register_bytes_round_trip;
use crate::register::lemma_register_parse_followed;
use crate::register::lemma_register_text_round_trip;
use crate::register::parse_register;
use crate::register::register_bytes;
use crate::register::register_text;
use crate::register::Register;
use crate::token::after_separator;
use crate::token::separator;
use crate::wire::lemma_word_decode_exact;
use crate::wire::lemma_word_decode_followed;
use crate::wire::WORD_BYTES;
use vstd::prelude::*;
use vstd::string::*;

verus! {

/// An operation that reads two operands and writes one register, over the
/// arithmetic domain `E`.
#[derive(Debug, PartialEq, Eq)]
pub struct BinaryOperation<E: Environment> {
    destination: Register,
    first: Operand<E>,
    second: Operand<E>,
}

/// What a binary operation is, whatever its arithmetic domain.
pub ghost struct OperationView {
    pub destination: u64,
    pub first: OperandView,
    pub second: OperandView,
}

impl OperationView {
    /// Whether both operands are of the domain with `modulus` values.
    pub open spec fn valid(self, modulus: u64) -> bool {
        self.first.valid(modulus) && self.second.valid(modulus)
    }

    /// The text of the operation: the destination and the two operands, in this
    /// order, with one space between each two.
    pub open spec fn text(self) -> Seq<char> {
        register_text(self.destination) + seq![' '] + self.first.text() + seq![' ']
            + self.second.text()
    }

    /// The bytes of the operation: those of the destination and of the two
    /// operands, in this order, and nothing else.
    pub open spec fn bytes(self) -> Seq<u8> {
        register_bytes(self.destination) + self.first.bytes() + self.second.bytes()
    }
}

/// The number of bytes of every operation.
pub open spec fn operation_len() -> nat {
    WORD_BYTES as nat + operand_len() + operand_len()
}

/// The operation of the domain with `modulus` values that stands at the front of
/// `s`, with what follows it, or the first reason why there is none.
pub open spec fn parse_operation(s: Seq<char>, modulus: u64) -> Parsed<OperationView> {
    match parse_register(s) {
        Err(e) => Err(e),
        Ok((s, destination)) => match after_separator(s) {
            Err(e) => Err(e),
            Ok(s) => match parse_operand(s, modulus) {
                Err(e) => Err(e),
                Ok((s, first)) => match after_separator(s) {
                    Err(e) => Err(e),
                    Ok(s) => match parse_operand(s, modulus) {
                        Err(e) => Err(e),
                        Ok((rest, second)) => Ok(
                            (rest, OperationView { destination, first, second }),
                        ),
                    },
                },
            },
        },
    }
}

/// The operation of the domain with `modulus` values that stands at the front of
/// `b`, with what follows it, or the first reason why there is none.
pub open spec fn decode_operation(b: Seq<u8>, modulus: u64) -> Decoded<OperationView> {
    match decode_register(b) {
        Err(e) => Err(e),
        Ok((b, destination)) => match decode_operand(b, modulus) {
            Err(e) => Err(e),
            Ok((b, first)) => match decode_operand(b, modulus) {
                Err(e) => Err(e),
                Ok((rest, second)) => Ok((rest, OperationView { destination, first, second })),
            },
        },
    }
}

impl<E: Environment> View for BinaryOperation<E> {
    type V = OperationView;

    closed spec fn view(&self) -> OperationView {
        OperationView {
            destination: self.destination@,
            first: self.first@,
            second: self.second@,
        }
    }
}

impl<E: Environment> Clone for BinaryOperation<E> {
    fn clone(&self) -> (r: Self)
        ensures
            r == *self,
    {
        BinaryOperation { destination: self.destination, first: self.first, second: self.second }
    }
}

impl<E: Environment> Copy for BinaryOperation<E> {

}

impl<E: Environment> BinaryOperation<E> {
    /// Whether both operands are of the domain `E`.
    pub open spec fn valid(&self) -> bool {
        self@.valid(E::spec_modulus())
    }

    /// The operation on `first` and `second` that writes `destination`.
    pub fn new(destination: Register, first: Operand<E>, second: Operand<E>) -> (r: Self)
        ensures
            r@ == (OperationView { destination: destination@, first: first@, second: second@ }),
            r.valid(),
    {
        first.known_valid();
        second.known_valid();
        BinaryOperation { destination, first, second }
    }

    /// Returns the destination register.
    pub fn destination(&self) -> (r: &Register)
        ensures
            r@ == self@.destination,
    {
        &self.destination
    }

    /// Returns the first operand.
    pub fn first(&self) -> (r: &Operand<E>)
        ensures
            r@ == self@.first,
            r.valid(),
    {
        self.first.known_valid();
        &self.first
    }

    /// Returns the second operand.
    pub fn second(&self) -> (r: &Operand<E>)
        ensures
            r@ == self@.second,
            r.valid(),
    {
        self.second.known_valid();
        &self.second
    }

    /// Reads an operation from the front of `input` and hands back what follows
    /// it: a register, one space, an operand, one space, an operand.
    pub fn parse<'a>(input: &'a str) -> (r: Result<(&'a str, Self), ParseError>)
        ensures
            match r {
                Ok((rest, operation)) => {
                    &&& parse_operation(input@, E::spec_modulus()) == Parsed::Ok(
                        (rest@, operation@),
                    )
                    &&& operation.valid()
                },
                Err(e) => parse_operation(input@, E::spec_modulus()) == Parsed::<
                    OperationView,
                >::Err(e),
            },
    {
        let (input, destination) = match Register::parse(input) {
            Ok(found) => found,
            Err(e) => return Err(e),
        };
        let input = match separator(input) {
            Ok(rest) => rest,
            Err(e) => return Err(e),
        };
        let (input, first) = match Operand::<E>::parse(input) {
            Ok(found) => found,
            Err(e) => return Err(e),
        };
        let input = match separator(input) {
            Ok(rest) => rest,
            Err(e) => return Err(e),
        };
        let (input, second) = match Operand::<E>::parse(input) {
            Ok(found) => found,
            Err(e) => return Err(e),
        };
        Ok((input, BinaryOperation { destination, first, second }))
    }

    /// The text of the operation, which is valid.
    pub fn to_string(&self) -> (s: String)
        ensures
            s@ == self@.text(),
            self.valid(),
    {
        proof {
            reveal_strlit(" ");
        }
        assert(" "@ =~= seq![' ']);
        let mut s = self.destination.to_string();
        s.append(" ");
        s.append(self.first.to_string().as_str());
        s.append(" ");
        s.append(self.second.to_string().as_str());
        s
    }

    /// Reads an operation from the front of `bytes` and hands back what follows
    /// it: a register, an operand, an operand, with nothing between them.
    pub fn read_le<'a>(bytes: &'a [u8]) -> (r: Result<(&'a [u8], Self), DecodeError>)
        ensures
            match r {
                Ok((rest, operation)) => {
                    &&& decode_operation(bytes@, E::spec_modulus()) == Decoded::Ok(
                        (rest@, operation@),
                    )
                    &&& operation.valid()
                    &&& bytes@ == operation@.bytes() + rest@
                },
                Err(e) => decode_operation(bytes@, E::spec_modulus()) == Decoded::<
                    OperationView,
                >::Err(e),
            },
    {
        proof {
            if decode_operation(bytes@, E::spec_modulus()) is Ok {
                let (rest, operation) = decode_operation(bytes@, E::spec_modulus())->Ok_0;
                lemma_decode_exact::<E>(bytes@, rest, operation);
            }
        }
        let (bytes, destination) = match Register::read_le(bytes) {
            Ok(found) => found,
            Err(e) => return Err(e),
        };
        let (bytes, first) = match Operand::<E>::read_le(bytes) {
            Ok(found) => found,
            Err(e) => return Err(e),
        };
        let (bytes, second) = match Operand::<E>::read_le(bytes) {
            Ok(found) => found,
            Err(e) => return Err(e),
        };
        Ok((bytes, BinaryOperation { destination, first, second }))
    }

    /// Appends the bytes of the operation, which is valid, to `writer`.
    pub fn write_le(&self, writer: &mut Vec<u8>)
        ensures
            final(writer)@ == old(writer)@ + self@.bytes(),
            self.valid(),
    {
        self.destination.write_le(writer);
        self.first.write_le(writer);
        self.second.write_le(writer);
        assert(final(writer)@ =~= old(writer)@ + self@.bytes());
    }
}

/// Parsing the text of a valid operation gives the operation back and leaves
/// nothing.
pub proof fn lemma_text_round_trip<E: Environment>(operation: BinaryOperation<E>)
    requires
        operation.valid(),
    ensures
        parse_operation(operation@.text(), E::spec_modulus()) == Parsed::Ok(
            (Seq::empty(), operation@),
        ),
{
    lemma_text_round_trip_followed(operation, Seq::empty());
    assert(operation@.text() + Seq::<char>::empty() =~= operation@.text());
}

/// Parsing the text of a valid operation, followed by something that does not
/// begin with a digit, gives the operation back and leaves all that followed.
pub proof fn lemma_text_round_trip_followed<E: Environment>(
    operation: BinaryOperation<E>,
    rest: Seq<char>,
)
    requires
        operation.valid(),
        rest.len() == 0 || !is_digit(rest[0]),
    ensures
        parse_operation(operation@.text() + rest, E::spec_modulus()) == Parsed::Ok(
            (rest, operation@),
        ),
{
    lemma_view_text_round_trip(operation@, E::spec_modulus(), rest);
}

/// The round trip through text, stated of what an operation is.
proof fn lemma_view_text_round_trip(operation: OperationView, modulus: u64, rest: Seq<char>)
    requires
        operation.valid(modulus),
        rest.len() == 0 || !is_digit(rest[0]),
    ensures
        parse_operation(operation.text() + rest, modulus) == Parsed::Ok((rest, operation)),
{
    let space = seq![' '];
    let from_second = operation.second.text() + rest;
    let after_first = space + from_second;
    let from_first = operation.first.text() + after_first;
    let after_destination = space + from_first;
    lemma_operand_text_head(operation.first);
    lemma_operand_text_head(operation.second);
    assert(operation.text() + rest =~= register_text(operation.destination)
        + after_destination);
    lemma_register_text_round_trip(operation.destination, after_destination);
    assert(after_destination[1] == operation.first.text()[0]);
    assert(after_destination.skip(1) =~= from_first);
    lemma_operand_text_round_trip(operation.first, modulus, after_first);
    assert(after_first[1] == operation.second.text()[0]);
    assert(after_first.skip(1) =~= from_second);
    lemma_operand_text_round_trip(operation.second, modulus, rest);
}

/// Text that follows an operation is kept, not read and not refused: an operation
/// that was parsed is parsed again, with the same result, when the text goes on,
/// and what follows is left over with the rest. Where the operation reached the
/// end of the text, what follows must begin with no digit, or the last number
/// would go on.
pub proof fn lemma_parse_followed<E: Environment>(
    input: Seq<char>,
    rest: Seq<char>,
    operation: OperationView,
    more: Seq<char>,
)
    requires
        parse_operation(input, E::spec_modulus()) == Parsed::Ok((rest, operation)),
        rest.len() > 0 || more.len() == 0 || !is_digit(more[0]),
    ensures
        parse_operation(input + more, E::spec_modulus()) == Parsed::Ok((rest + more, operation)),
{
    let modulus = E::spec_modulus();
    let after_destination = parse_register(input)->Ok_0.0;
    let from_first = after_separator(after_destination)->Ok_0;
    let after_first = parse_operand(from_first, modulus)->Ok_0.0;
    let from_second = after_separator(after_first)->Ok_0;
    lemma_register_parse_followed(input, after_destination, operation.destination, more);
    assert((after_destination + more).skip(1) =~= from_first + more);
    lemma_operand_parse_followed(from_first, modulus, after_first, operation.first, more);
    assert((after_first + more).skip(1) =~= from_second + more);
    lemma_operand_parse_followed(from_second, modulus, rest, operation.second, more);
}

/// Writing is the left inverse of parsing: an operation that was parsed is valid,
/// and when its text is written anew before what the parsing left over, parsing
/// gives the same operation and leaves the same over.
pub proof fn lemma_reparse<E: Environment>(
    input: Seq<char>,
    rest: Seq<char>,
    operation: OperationView,
)
    requires
        parse_operation(input, E::spec_modulus()) == Parsed::Ok((rest, operation)),
    ensures
        operation.valid(E::spec_modulus()),
        parse_operation(operation.text() + rest, E::spec_modulus()) == Parsed::Ok(
            (rest, operation),
        ),
{
    let modulus = E::spec_modulus();
    let after_destination = parse_register(input)->Ok_0.0;
    let from_first = after_separator(after_destination)->Ok_0;
    let after_first = parse_operand(from_first, modulus)->Ok_0.0;
    let from_second = after_separator(after_first)->Ok_0;
    lemma_operand_parse_rest(from_first, modulus, after_first, operation.first);
    lemma_operand_parse_rest(from_second, modulus, rest, operation.second);
    lemma_view_text_round_trip(operation, modulus, rest);
}

/// Two spaces where one belongs are refused as a separator that is missing,
/// before either operand and though every field is well formed.
pub proof fn lemma_doubled_separator<E: Environment>(operation: BinaryOperation<E>)
    requires
        operation.valid(),
    ensures
        parse_operation(
            register_text(operation@.destination) + seq![' ', ' '] + operation@.first.text()
                + seq![' '] + operation@.second.text(),
            E::spec_modulus(),
        ) == Parsed::<OperationView>::Err(ParseError::MissingSeparator),
        parse_operation(
            register_text(operation@.destination) + seq![' '] + operation@.first.text()
                + seq![' ', ' '] + operation@.second.text(),
            E::spec_modulus(),
        ) == Parsed::<OperationView>::Err(ParseError::MissingSeparator),
{
    let modulus = E::spec_modulus();
    let v = operation@;
    let destination = register_text(v.destination);
    let early = seq![' ', ' '] + v.first.text() + seq![' '] + v.second.text();
    assert(destination + seq![' ', ' '] + v.first.text() + seq![' '] + v.second.text()
        =~= destination + early);
    lemma_register_text_round_trip(v.destination, early);
    let late = seq![' ', ' '] + v.second.text();
    let from_first = v.first.text() + late;
    let after_destination = seq![' '] + from_first;
    lemma_operand_text_head(v.first);
    assert(destination + seq![' '] + v.first.text() + seq![' ', ' '] + v.second.text()
        =~= destination + after_destination);
    lemma_register_text_round_trip(v.destination, after_destination);
    assert(after_destination[1] == v.first.text()[0]);
    assert(after_destination.skip(1) =~= from_first);
    lemma_operand_text_round_trip(v.first, modulus, late);
}

/// Decoding the bytes of a valid operation, whatever follows them, gives the
/// operation back and leaves all that followed: it takes the bytes of the
/// operation and no more.
pub proof fn lemma_binary_round_trip<E: Environment>(
    operation: BinaryOperation<E>,
    rest: Seq<u8>,
)
    requires
        operation.valid(),
    ensures
        operation@.bytes().len() == operation_len(),
        decode_operation(operation@.bytes() + rest, E::spec_modulus()) == Decoded::Ok(
            (rest, operation@),
        ),
        decode_operation(operation@.bytes(), E::spec_modulus()) == Decoded::Ok(
            (Seq::empty(), operation@),
        ),
{
    lemma_view_bytes_round_trip(operation@, E::spec_modulus(), rest);
    lemma_view_bytes_round_trip(operation@, E::spec_modulus(), Seq::empty());
    assert(operation@.bytes() + Seq::<u8>::empty() =~= operation@.bytes());
}

/// The round trip through bytes, stated of what an operation is.
proof fn lemma_view_bytes_round_trip(operation: OperationView, modulus: u64, rest: Seq<u8>)
    requires
        operation.valid(modulus),
    ensures
        operation.bytes().len() == operation_len(),
        decode_operation(operation.bytes() + rest, modulus) == Decoded::Ok((rest, operation)),
{
    let from_second = operation.second.bytes() + rest;
    let from_first = operation.first.bytes() + from_second;
    assert(operation.bytes() + rest =~= register_bytes(operation.destination) + from_first);
    lemma_register_bytes_round_trip(operation.destination, from_first);
    lemma_operand_bytes_round_trip(operation.first, modulus, from_second);
    lemma_operand_bytes_round_trip(operation.second, modulus, rest);
}

/// Only the bytes of a valid operation decode to it: what was decoded is valid,
/// and its bytes and what was left make up the input.
pub proof fn lemma_decode_exact<E: Environment>(
    bytes: Seq<u8>,
    rest: Seq<u8>,
    operation: OperationView,
)
    requires
        decode_operation(bytes, E::spec_modulus()) == Decoded::Ok((rest, operation)),
    ensures
        operation.valid(E::spec_modulus()),
        bytes == operation.bytes() + rest,
{
    let modulus = E::spec_modulus();
    let from_first = decode_register(bytes)->Ok_0.0;
    let from_second = decode_operand(from_first, modulus)->Ok_0.0;
    lemma_word_decode_exact(bytes, from_first, operation.destination);
    lemma_operand_decode_exact(from_first, modulus, from_second, operation.first);
    lemma_operand_decode_exact(from_second, modulus, rest, operation.second);
    assert(bytes =~= operation.bytes() + rest);
}

/// The fields of a decoded operation are what its three ranges of bytes decode
/// to, each taken alone: the first eight bytes as a register, the next nine and
/// the nine after them as operands.
pub proof fn lemma_field_independence<E: Environment>(
    bytes: Seq<u8>,
    rest: Seq<u8>,
    operation: OperationView,
)
    requires
        decode_operation(bytes, E::spec_modulus()) == Decoded::Ok((rest, operation)),
    ensures
        bytes.len() >= operation_len(),
        rest == bytes.skip(operation_len() as int),
        decode_register(bytes.subrange(0, WORD_BYTES as int)) == Decoded::Ok(
            (Seq::empty(), operation.destination),
        ),
        decode_operand(
            bytes.subrange(WORD_BYTES as int, WORD_BYTES + operand_len()),
            E::spec_modulus(),
        ) == Decoded::Ok((Seq::empty(), operation.first)),
        decode_operand(
            bytes.subrange(WORD_BYTES + operand_len(), operation_len() as int),
            E::spec_modulus(),
        ) == Decoded::Ok((Seq::empty(), operation.second)),
{
    let modulus = E::spec_modulus();
    lemma_decode_exact::<E>(bytes, rest, operation);
    let destination = register_bytes(operation.destination);
    let first = operation.first.bytes();
    let second = operation.second.bytes();
    let nothing = Seq::<u8>::empty();
    lemma_register_bytes_round_trip(operation.destination, nothing);
    lemma_operand_bytes_round_trip(operation.first, modulus, nothing);
    lemma_operand_bytes_round_trip(operation.second, modulus, nothing);
    assert(bytes.skip(operation_len() as int) =~= rest);
    assert(bytes.subrange(0, WORD_BYTES as int) =~= destination + nothing);
    assert(bytes.subrange(WORD_BYTES as int, WORD_BYTES + operand_len()) =~= first + nothing);
    assert(bytes.subrange(WORD_BYTES + operand_len(), operation_len() as int) =~= second
        + nothing);
}

/// A valid operation whose bytes are cut short anywhere is not decoded: the
/// bytes end too early. No value is made up for what is missing.
pub proof fn lemma_truncated<E: Environment>(operation: BinaryOperation<E>, kept: int)
    requires
        operation.valid(),
        0 <= kept < operation_len(),
    ensures
        decode_operation(operation@.bytes().take(kept), E::spec_modulus()) == Decoded::<
            OperationView,
        >::Err(DecodeError::UnexpectedEof),
{
    let modulus = E::spec_modulus();
    let v = operation@;
    let cut = v.bytes().take(kept);
    let destination = register_bytes(v.destination);
    let nothing = Seq::<u8>::empty();
    lemma_register_bytes_round_trip(v.destination, nothing);
    lemma_operand_bytes_round_trip(v.first, modulus, nothing);
    lemma_operand_bytes_round_trip(v.second, modulus, nothing);
    if kept >= WORD_BYTES {
        let first_kept = kept - WORD_BYTES;
        if first_kept < operand_len() {
            let from_first = v.first.bytes().take(first_kept);
            assert(cut =~= destination + from_first);
            lemma_register_bytes_round_trip(v.destination, from_first);
            lemma_operand_truncated(v.first, modulus, first_kept);
        } else {
            let second_kept = first_kept - operand_len();
            let from_second = v.second.bytes().take(second_kept);
            assert(cut =~= destination + (v.first.bytes() + from_second));
            lemma_register_bytes_round_trip(v.destination, v.first.bytes() + from_second);
            lemma_operand_bytes_round_trip(v.first, modulus, from_second);
            lemma_operand_truncated(v.second, modulus, second_kept);
        }
    }
}

/// What was decided of an operation stays decided when the bytes go on: an
/// operation that was decoded is decoded again, and what follows is left over
/// with the rest; an error other than the early end comes again.
pub proof fn lemma_decode_followed<E: Environment>(bytes: Seq<u8>, more: Seq<u8>)
    ensures
        match decode_operation(bytes, E::spec_modulus()) {
            Ok((rest, operation)) => decode_operation(bytes + more, E::spec_modulus())
                == Decoded::Ok((rest + more, operation)),
            Err(DecodeError::UnexpectedEof) => true,
            Err(e) => decode_operation(bytes + more, E::spec_modulus()) == Decoded::<
                OperationView,
            >::Err(e),
        },
{
    let modulus = E::spec_modulus();
    if decode_register(bytes) is Ok {
        let (from_first, destination) = decode_register(bytes)->Ok_0;
        lemma_word_decode_followed(bytes, from_first, destination, more);
        lemma_operand_decode_followed(from_first, modulus, more);
        if decode_operand(from_first, modulus) is Ok {
            let from_second = decode_operand(from_first, modulus)->Ok_0.0;
            lemma_operand_decode_followed(from_second, modulus, more);
        }
    }
}

} // verus!
