use bytecode::environment::Goldilocks;
use bytecode::environment::Mersenne31;
use bytecode::operand::LITERAL_VARIANT;
use bytecode::operand::REGISTER_VARIANT;
use bytecode::wire::take_word;
use bytecode::wire::WORD_BYTES;
use bytecode::BinaryOperation;
use bytecode::DecodeError;
use bytecode::Environment;
use bytecode::Literal;
use bytecode::Operand;
use bytecode::Register;

fn lit<E: Environment>(value: u64) -> Operand<E> {
    Operand::Literal(Literal::new(value).unwrap())
}

fn reg<E: Environment>(locator: u64) -> Operand<E> {
    Operand::RegisterRef(Register::new(locator))
}

fn sample() -> BinaryOperation<Goldilocks> {
    BinaryOperation::new(Register::new(0x0102030405060708), reg(3), lit(0x2a))
}

fn sample_bytes() -> Vec<u8> {
    vec![
        8, 7, 6, 5, 4, 3, 2, 1, // destination
        1, 3, 0, 0, 0, 0, 0, 0, 0, // first: a register
        0, 42, 0, 0, 0, 0, 0, 0, 0, // second: a literal
    ]
}

#[test]
fn write_le_concatenates_the_fields() {
    let mut bytes = Vec::new();
    sample().write_le(&mut bytes);
    assert_eq!(bytes, sample_bytes());
    assert_eq!(bytes.len(), 26);
}

#[test]
fn write_le_appends_and_keeps_what_was_there() {
    let mut bytes = vec![0xaa, 0xbb];
    sample().write_le(&mut bytes);
    assert_eq!(&bytes[..2], &[0xaa, 0xbb]);
    assert_eq!(&bytes[2..], sample_bytes().as_slice());
}

#[test]
fn write_le_is_the_three_fields_one_after_another() {
    let operation = sample();
    let mut whole = Vec::new();
    operation.write_le(&mut whole);
    let mut parts = Vec::new();
    operation.destination().write_le(&mut parts);
    operation.first().write_le(&mut parts);
    operation.second().write_le(&mut parts);
    assert_eq!(whole, parts);
}

#[test]
fn read_le_reads_three_fields() {
    let bytes = sample_bytes();
    let (rest, operation) = BinaryOperation::<Goldilocks>::read_le(&bytes).unwrap();
    assert!(rest.is_empty());
    assert_eq!(operation, sample());
    assert_eq!(operation.destination().locator(), 0x0102030405060708);
    assert_eq!(*operation.first(), reg(3));
    assert_eq!(*operation.second(), lit(42));
}

#[test]
fn binary_round_trip() {
    let operations = [
        BinaryOperation::<Goldilocks>::new(Register::new(0), reg(0), reg(0)),
        BinaryOperation::<Goldilocks>::new(Register::new(2), reg(0), lit(42)),
        BinaryOperation::<Goldilocks>::new(Register::new(u64::MAX), lit(0), reg(u64::MAX)),
        BinaryOperation::<Goldilocks>::new(Register::new(7), lit(18446744069414584320), lit(1)),
    ];
    for operation in operations {
        let mut bytes = Vec::new();
        operation.write_le(&mut bytes);
        let (rest, decoded) = BinaryOperation::<Goldilocks>::read_le(&bytes).unwrap();
        assert_eq!(rest.len(), 0);
        assert_eq!(decoded, operation);
    }
}

#[test]
fn read_le_takes_its_own_bytes_and_no_more() {
    let mut bytes = sample_bytes();
    bytes.extend_from_slice(&[9, 9, 9]);
    let (rest, operation) = BinaryOperation::<Goldilocks>::read_le(&bytes).unwrap();
    assert_eq!(rest, &[9, 9, 9]);
    assert_eq!(operation, sample());
}

#[test]
fn read_le_reads_operations_one_after_another() {
    let first = sample();
    let second = BinaryOperation::<Goldilocks>::new(Register::new(1), lit(2), reg(3));
    let mut bytes = Vec::new();
    first.write_le(&mut bytes);
    second.write_le(&mut bytes);
    let (rest, a) = BinaryOperation::<Goldilocks>::read_le(&bytes).unwrap();
    let (rest, b) = BinaryOperation::<Goldilocks>::read_le(rest).unwrap();
    assert!(rest.is_empty());
    assert_eq!(a, first);
    assert_eq!(b, second);
}

#[test]
fn read_le_fails_when_the_second_operand_is_missing() {
    let bytes = sample_bytes();
    assert_eq!(
        BinaryOperation::<Goldilocks>::read_le(&bytes[..17]),
        Err(DecodeError::UnexpectedEof)
    );
}

#[test]
fn read_le_fails_on_every_shorter_input() {
    let bytes = sample_bytes();
    for kept in 0..bytes.len() {
        assert_eq!(
            BinaryOperation::<Goldilocks>::read_le(&bytes[..kept]),
            Err(DecodeError::UnexpectedEof)
        );
    }
}

#[test]
fn read_le_refuses_an_unknown_variant() {
    let mut bytes = sample_bytes();
    bytes[8] = 2;
    assert_eq!(BinaryOperation::<Goldilocks>::read_le(&bytes), Err(DecodeError::InvalidVariant));
    let mut bytes = sample_bytes();
    bytes[17] = 0xff;
    assert_eq!(BinaryOperation::<Goldilocks>::read_le(&bytes), Err(DecodeError::InvalidVariant));
    assert_eq!(
        BinaryOperation::<Goldilocks>::read_le(&sample_bytes()[..9]),
        Err(DecodeError::UnexpectedEof)
    );
    let mut short = sample_bytes();
    short[8] = 7;
    assert_eq!(
        BinaryOperation::<Goldilocks>::read_le(&short[..9]),
        Err(DecodeError::InvalidVariant)
    );
}

#[test]
fn read_le_refuses_a_literal_outside_the_domain() {
    let mut bytes = vec![0u8; 8];
    bytes.push(LITERAL_VARIANT);
    bytes.extend_from_slice(&0x7fff_ffffu64.to_le_bytes());
    bytes.push(LITERAL_VARIANT);
    bytes.extend_from_slice(&0u64.to_le_bytes());
    assert_eq!(BinaryOperation::<Mersenne31>::read_le(&bytes), Err(DecodeError::LiteralOutOfRange));
    let (_, operation) = BinaryOperation::<Goldilocks>::read_le(&bytes).unwrap();
    assert_eq!(*operation.first(), lit(0x7fff_ffff));
    bytes[9] = 0xfe;
    let (_, operation) = BinaryOperation::<Mersenne31>::read_le(&bytes).unwrap();
    assert_eq!(*operation.first(), lit(0x7fff_fffe));
}

#[test]
fn a_register_may_hold_any_index_in_any_domain() {
    let mut bytes = vec![0xffu8; 8];
    bytes.push(REGISTER_VARIANT);
    bytes.extend_from_slice(&[0xff; 8]);
    bytes.push(REGISTER_VARIANT);
    bytes.extend_from_slice(&[0xff; 8]);
    let (_, operation) = BinaryOperation::<Mersenne31>::read_le(&bytes).unwrap();
    assert_eq!(
        operation,
        BinaryOperation::new(Register::new(u64::MAX), reg(u64::MAX), reg(u64::MAX))
    );
}

#[test]
fn fields_decode_alone_to_what_the_operation_holds() {
    let bytes = sample_bytes();
    let (_, operation) = BinaryOperation::<Goldilocks>::read_le(&bytes).unwrap();
    let (rest, destination) = Register::read_le(&bytes[..8]).unwrap();
    assert!(rest.is_empty());
    assert_eq!(destination, *operation.destination());
    let (rest, first) = Operand::<Goldilocks>::read_le(&bytes[8..17]).unwrap();
    assert!(rest.is_empty());
    assert_eq!(first, *operation.first());
    let (rest, second) = Operand::<Goldilocks>::read_le(&bytes[17..26]).unwrap();
    assert!(rest.is_empty());
    assert_eq!(second, *operation.second());
}

#[test]
fn register_bytes() {
    let mut bytes = Vec::new();
    Register::new(0x1122334455667788).write_le(&mut bytes);
    assert_eq!(bytes, vec![0x88, 0x77, 0x66, 0x55, 0x44, 0x33, 0x22, 0x11]);
    assert_eq!(
        Register::read_le(&[1, 2, 3, 4, 5, 6, 7, 8, 9]),
        Ok((&[9u8][..], Register::new(0x0807060504030201)))
    );
    assert_eq!(Register::read_le(&[1, 2, 3, 4, 5, 6, 7]), Err(DecodeError::UnexpectedEof));
    assert_eq!(Register::read_le(&[]), Err(DecodeError::UnexpectedEof));
}

#[test]
fn operand_bytes() {
    let mut bytes = Vec::new();
    lit::<Goldilocks>(258).write_le(&mut bytes);
    assert_eq!(bytes, vec![0, 2, 1, 0, 0, 0, 0, 0, 0]);
    let mut bytes = Vec::new();
    reg::<Goldilocks>(258).write_le(&mut bytes);
    assert_eq!(bytes, vec![1, 2, 1, 0, 0, 0, 0, 0, 0]);
    assert_eq!(Operand::<Goldilocks>::read_le(&[]), Err(DecodeError::UnexpectedEof));
    assert_eq!(Operand::<Goldilocks>::read_le(&[0]), Err(DecodeError::UnexpectedEof));
    assert_eq!(Operand::<Goldilocks>::read_le(&[1, 0, 0]), Err(DecodeError::UnexpectedEof));
    assert_eq!(Operand::<Goldilocks>::read_le(&[2]), Err(DecodeError::InvalidVariant));
    assert_eq!(
        Operand::<Goldilocks>::read_le(&[0, 1, 0, 0, 0, 0xff, 0xff, 0xff, 0xff]),
        Err(DecodeError::LiteralOutOfRange)
    );
    assert_eq!(
        Operand::<Goldilocks>::read_le(&[0, 0, 0, 0, 0, 0xff, 0xff, 0xff, 0xff, 5]),
        Ok((&[5u8][..], lit(0xffff_ffff_0000_0000)))
    );
}

#[test]
fn take_word_reads_eight_bytes_least_significant_first() {
    assert_eq!(WORD_BYTES, 8);
    assert_eq!(
        take_word(&[0x10, 0x20, 0x30, 0x40, 0x50, 0x60, 0x70, 0x80, 0x90, 0xa0]),
        Ok((&[0x90u8, 0xa0][..], 0x8070605040302010))
    );
    assert_eq!(take_word(&[0; 7]), Err(DecodeError::UnexpectedEof));
}

#[test]
fn what_was_decided_stays_decided_when_bytes_follow() {
    let mut bytes = sample_bytes();
    bytes[17] = 9;
    assert_eq!(
        BinaryOperation::<Goldilocks>::read_le(&bytes[..18]),
        Err(DecodeError::InvalidVariant)
    );
    bytes.extend_from_slice(&[1, 2, 3]);
    assert_eq!(BinaryOperation::<Goldilocks>::read_le(&bytes), Err(DecodeError::InvalidVariant));
    let mut bytes = vec![0u8; 8];
    bytes.push(LITERAL_VARIANT);
    bytes.extend_from_slice(&[0xff; 8]);
    assert_eq!(
        BinaryOperation::<Goldilocks>::read_le(&bytes),
        Err(DecodeError::LiteralOutOfRange)
    );
    bytes.extend_from_slice(&[0; 20]);
    assert_eq!(
        BinaryOperation::<Goldilocks>::read_le(&bytes),
        Err(DecodeError::LiteralOutOfRange)
    );
}

#[test]
fn clones_are_equal() {
    let operation = sample();
    let copy = operation;
    assert_eq!(operation.clone(), copy);
    assert_eq!(operation.first().clone(), reg(3));
    assert_eq!(Literal::<Goldilocks>::new(7).unwrap().clone().value(), 7);
}

#[test]
fn the_moduli_of_the_domains() {
    assert_eq!(Goldilocks::modulus(), 18446744069414584321);
    assert_eq!(Mersenne31::modulus(), 2147483647);
}

#[test]
fn text_and_bytes_agree() {
    let (_, parsed) = BinaryOperation::<Goldilocks>::parse("r72623859790382856 r3 42").unwrap();
    let mut bytes = Vec::new();
    parsed.write_le(&mut bytes);
    assert_eq!(bytes, sample_bytes());
    let (_, decoded) = BinaryOperation::<Goldilocks>::read_le(&bytes).unwrap();
    assert_eq!(decoded.to_string(), "r72623859790382856 r3 42");
}
