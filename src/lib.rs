//! Shortest sequence of arithmetic and digit-editing operations that carries
//! one integer to another within a bounded number of steps.

pub mod label;
pub mod laws;
pub mod operation;
pub mod parse;
pub mod search;

pub use label::node_to_string;
pub use operation::{digits_of, transform, Operation};
pub use parse::{
    char_to_operation, chars_of, parse_arguments, parse_classified, parse_i64, parse_operations,
    parse_usize,
};
pub use search::{calculate, calculate_recursive};
