//! Text and binary codec of the binary operation of a register machine: one
//! destination register and two operands, each operand a register or a literal
//! of an arithmetic domain.
//!
//! The text of an operation is `<register> <operand> <operand>`, with exactly
//! one space between fields. Its bytes are those of the register and of the two
//! operands, one after another and nothing else. Parsing what was written, and
//! decoding what was encoded, gives the operation back.

pub mod binary;
pub mod decimal;
pub mod environment;
pub mod error;
pub mod operand;
pub mod register;
pub mod token;
pub mod wire;

pub use binary::BinaryOperation;
pub use environment::Environment;
pub use error::DecodeError;
pub use error::ParseError;
pub use operand::Literal;
pub use operand::Operand;
pub use register::Register;
