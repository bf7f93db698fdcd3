//! A configurable-width binary ALU: unsigned addition and two's-complement
//! subtraction over 8 to 64 bits, each with its zero, negative, carry and
//! overflow flags and the signed reading of the result.
pub mod alu;
pub mod grouping;
pub mod parse;

pub use alu::{alu_add, as_signed, to_width, AppError, Calc, CalcOut, CalcOutResult, CalcOutValue, Flags, Operand};
pub use grouping::{pretty_bin, pretty_dec, pretty_dec_signed, pretty_hex, pretty_num_sep};
pub use parse::parse_input;
