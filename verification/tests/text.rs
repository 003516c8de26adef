use bytecode::decimal::is_decimal_digit;
use bytecode::decimal::push_decimal;
use bytecode::decimal::scan_decimal;
use bytecode::environment::Goldilocks;
use bytecode::environment::Mersenne31;
use bytecode::token::separator;
use bytecode::BinaryOperation;
use bytecode::Environment;
use bytecode::Literal;
use bytecode::Operand;
use bytecode::ParseError;
use bytecode::Register;

fn literal<E: Environment>(value: u64) -> Operand<E> {
    Operand::Literal(Literal::new(value).unwrap())
}

fn register<E: Environment>(locator: u64) -> Operand<E> {
    Operand::RegisterRef(Register::new(locator))
}

type Operation = BinaryOperation<Goldilocks>;

#[test]
fn parse_reads_three_fields() {
    let (rest, operation) = Operation::parse("r2 r0 42").unwrap();
    assert_eq!(rest, "");
    assert_eq!(*operation.destination(), Register::new(2));
    assert_eq!(*operation.first(), register(0));
    assert_eq!(*operation.second(), literal(42));
}

#[test]
fn parse_keeps_trailing_text() {
    let (rest, with_trailer) = Operation::parse("r2 r0 42 extra").unwrap();
    let (nothing, alone) = Operation::parse("r2 r0 42").unwrap();
    assert_eq!(rest, " extra");
    assert_eq!(nothing, "");
    assert_eq!(with_trailer, alone);
}

#[test]
fn parse_stops_at_the_first_character_of_no_field() {
    let (rest, operation) = Operation::parse("r1 2 r3;\nr4 r5 r6").unwrap();
    assert_eq!(rest, ";\nr4 r5 r6");
    assert_eq!(operation, BinaryOperation::new(Register::new(1), literal(2), register(3)));
}

#[test]
fn parse_refuses_two_spaces() {
    assert_eq!(
        Operation::parse("r0  r1 r2"),
        Err(ParseError::MissingSeparator)
    );
    assert_eq!(
        Operation::parse("r0 r1  r2"),
        Err(ParseError::MissingSeparator)
    );
    assert!(Register::parse("r0").is_ok());
    assert!(Operand::<Goldilocks>::parse("r1").is_ok());
    assert!(Operand::<Goldilocks>::parse("r2").is_ok());
}

#[test]
fn parse_refuses_a_missing_space() {
    assert_eq!(Operation::parse("r0"), Err(ParseError::MissingSeparator));
    assert_eq!(Operation::parse("r0 r1"), Err(ParseError::MissingSeparator));
    assert_eq!(
        Operation::parse("r0\tr1 r2"),
        Err(ParseError::MissingSeparator)
    );
    assert_eq!(
        Operation::parse("r0 r1\tr2"),
        Err(ParseError::MissingSeparator)
    );
    assert_eq!(
        Operation::parse("r0,r1,r2"),
        Err(ParseError::MissingSeparator)
    );
}

#[test]
fn parse_hands_on_the_error_of_the_register() {
    assert_eq!(Operation::parse(""), Err(ParseError::ExpectedRegister));
    assert_eq!(Operation::parse("7 r1 r2"), Err(ParseError::ExpectedRegister));
    assert_eq!(Operation::parse("r r1 r2"), Err(ParseError::ExpectedRegister));
    assert_eq!(Operation::parse(" r0 r1 r2"), Err(ParseError::ExpectedRegister));
    assert_eq!(Operation::parse("R0 r1 r2"), Err(ParseError::ExpectedRegister));
    assert_eq!(
        Operation::parse("r18446744073709551616 r1 r2"),
        Err(ParseError::RegisterOutOfRange)
    );
}

#[test]
fn parse_hands_on_the_error_of_an_operand() {
    assert_eq!(Operation::parse("r0 x r2"), Err(ParseError::ExpectedOperand));
    assert_eq!(Operation::parse("r0 r1 "), Err(ParseError::ExpectedOperand));
    assert_eq!(Operation::parse("r0 r1 rx"), Err(ParseError::ExpectedOperand));
    assert_eq!(Operation::parse("r0 -1 r2"), Err(ParseError::ExpectedOperand));
    assert_eq!(
        Operation::parse("r0 r99999999999999999999 r2"),
        Err(ParseError::RegisterOutOfRange)
    );
    assert_eq!(
        Operation::parse("r0 1 18446744069414584321"),
        Err(ParseError::LiteralOutOfRange)
    );
    assert_eq!(
        Operation::parse("r0 1 99999999999999999999999"),
        Err(ParseError::LiteralOutOfRange)
    );
}

#[test]
fn the_domain_bounds_the_literals() {
    let (_, largest) = BinaryOperation::<Mersenne31>::parse("r0 2147483646 0").unwrap();
    assert_eq!(*largest.first(), literal(2147483646));
    assert_eq!(
        BinaryOperation::<Mersenne31>::parse("r0 2147483647 0"),
        Err(ParseError::LiteralOutOfRange)
    );
    let (_, wide) = Operation::parse("r0 2147483647 18446744069414584320").unwrap();
    assert_eq!(*wide.first(), literal(2147483647));
    assert_eq!(*wide.second(), literal(18446744069414584320));
    assert!(Literal::<Mersenne31>::new(2147483647).is_none());
    assert!(Literal::<Goldilocks>::new(18446744069414584321).is_none());
    assert_eq!(Literal::<Goldilocks>::new(5).unwrap().value(), 5);
}

#[test]
fn to_string_puts_one_space_between_fields() {
    let operation = Operation::new(Register::new(2), register(0), literal(42));
    assert_eq!(operation.to_string(), "r2 r0 42");
    let other = Operation::new(
        Register::new(18446744073709551615),
        literal(0),
        literal(18446744069414584320),
    );
    assert_eq!(other.to_string(), "r18446744073709551615 0 18446744069414584320");
}

#[test]
fn text_round_trip() {
    let operations = [
        Operation::new(Register::new(0), register(0), register(0)),
        Operation::new(Register::new(2), register(0), literal(42)),
        Operation::new(Register::new(10), literal(100), register(1000)),
        Operation::new(
            Register::new(u64::MAX),
            literal(18446744069414584320),
            literal(9),
        ),
    ];
    for operation in operations {
        let text = operation.to_string();
        let (rest, parsed) = Operation::parse(&text).unwrap();
        assert_eq!(rest, "");
        assert_eq!(parsed, operation);
        assert_eq!(parsed.to_string(), text);
    }
}

#[test]
fn leading_zeros_are_read_and_not_written() {
    let (rest, operation) = Operation::parse("r007 0042 r00").unwrap();
    assert_eq!(rest, "");
    assert_eq!(operation.to_string(), "r7 42 r0");
}

#[test]
fn register_text() {
    assert_eq!(Register::new(12).to_string(), "r12");
    assert_eq!(Register::new(12).locator(), 12);
    assert_eq!(Register::parse("r12 r3"), Ok((" r3", Register::new(12))));
    assert_eq!(Register::parse("r12x"), Ok(("x", Register::new(12))));
    assert_eq!(Register::parse("12"), Err(ParseError::ExpectedRegister));
    assert_eq!(Register::parse("r18446744073709551615"), Ok(("", Register::new(u64::MAX))));
    assert_eq!(Register::parse("r18446744073709551616"), Err(ParseError::RegisterOutOfRange));
}

#[test]
fn operand_text() {
    assert_eq!(register::<Goldilocks>(3).to_string(), "r3");
    assert_eq!(literal::<Goldilocks>(30).to_string(), "30");
    assert_eq!(Operand::<Goldilocks>::parse("30 r1"), Ok((" r1", literal(30))));
    assert_eq!(Operand::<Goldilocks>::parse("r30r1"), Ok(("r1", register(30))));
    assert_eq!(Operand::<Goldilocks>::parse(""), Err(ParseError::ExpectedOperand));
    assert_eq!(Operand::<Goldilocks>::parse("é"), Err(ParseError::ExpectedOperand));
}

#[test]
fn separator_is_exactly_one_space() {
    assert_eq!(separator(" r1"), Ok("r1"));
    assert_eq!(separator(" "), Ok(""));
    assert_eq!(separator(" \t"), Ok("\t"));
    assert_eq!(separator("  r1"), Err(ParseError::MissingSeparator));
    assert_eq!(separator(""), Err(ParseError::MissingSeparator));
    assert_eq!(separator("r1"), Err(ParseError::MissingSeparator));
    assert_eq!(separator("\tr1"), Err(ParseError::MissingSeparator));
    assert_eq!(separator("\u{a0}r1"), Err(ParseError::MissingSeparator));
}

#[test]
fn scan_decimal_counts_and_evaluates() {
    assert_eq!(scan_decimal(""), (0, Some(0)));
    assert_eq!(scan_decimal("x1"), (0, Some(0)));
    assert_eq!(scan_decimal("0"), (1, Some(0)));
    assert_eq!(scan_decimal("907 "), (3, Some(907)));
    assert_eq!(scan_decimal("18446744073709551615"), (20, Some(u64::MAX)));
    assert_eq!(scan_decimal("18446744073709551616"), (20, None));
    assert_eq!(scan_decimal("184467440737095516150x"), (21, None));
    assert_eq!(scan_decimal("00000000000000000000001é2"), (23, Some(1)));
    assert_eq!(scan_decimal("٣"), (0, Some(0)));
}

#[test]
fn push_decimal_appends_the_digits() {
    let mut text = String::from("n=");
    push_decimal(0, &mut text);
    assert_eq!(text, "n=0");
    push_decimal(1234567890, &mut text);
    assert_eq!(text, "n=01234567890");
    push_decimal(u64::MAX, &mut text);
    assert_eq!(text, "n=0123456789018446744073709551615");
}

#[test]
fn decimal_digits_are_the_ten_ascii_ones() {
    assert!(is_decimal_digit('0'));
    assert!(is_decimal_digit('9'));
    assert!(!is_decimal_digit('/'));
    assert!(!is_decimal_digit(':'));
    assert!(!is_decimal_digit('a'));
    assert!(!is_decimal_digit('٣'));
}

#[test]
fn writing_anew_before_what_was_left_parses_to_the_same() {
    for input in ["r007 0042 r00;x", "r1 2 3", "r1 r2 r3 r4", "r9 8 7\n", "r0 r0 r0 "] {
        let (rest, operation) = Operation::parse(input).unwrap();
        let anew = operation.to_string() + rest;
        assert_eq!(Operation::parse(&anew), Ok((rest, operation)));
    }
}

#[test]
fn a_digit_that_follows_goes_into_the_last_number() {
    let (rest, operation) = Operation::parse("r2 r0 427").unwrap();
    assert_eq!(rest, "");
    assert_eq!(*operation.second(), literal(427));
    let (rest, operation) = Operation::parse("r2 r0 r427").unwrap();
    assert_eq!(rest, "");
    assert_eq!(*operation.second(), register(427));
}
