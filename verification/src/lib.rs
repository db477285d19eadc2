//! A calculator for arithmetic expressions over `+ - * / ( )`, unary minus
//! and decimal literals.
//!
//! A text is cleaned of everything that is not arithmetic ([`sanitizer`]),
//! cut into tokens ([`tokenizer`]) and read by recursive descent
//! ([`grammar`], [`parser`]) into a plan: the instructions of a stack
//! machine, in the order of evaluation, and the error that reading stopped
//! on, if it did. An [`Evaluation`] walks the plan. Values are IEEE 754
//! binary64 numbers held by their bit patterns ([`binary64`]): the
//! evaluation negates and tests for zero by itself, and asks its caller for
//! the value of each literal and for the result of each binary operation.
//!
//! What is proved beyond the contracts of these functions:
//! - [`stack`]: no plan ever finds too few values on the stack;
//! - [`rendering`]: the tokens of a text, written out, are its arithmetic
//!   characters, and tokens written out are cut into themselves;
//! - [`completeness`], [`soundness`]: with [`tree`] for the expressions that
//!   the grammar derives, the plans without an error are exactly the
//!   instructions of those expressions;
//! - [`execution`]: every run of such a plan ends in the value of the
//!   expression;
//! - [`failures`]: which error comes where;
//! - [`laws`]: what follows for texts.

pub mod binary64;
pub mod completeness;
pub mod error;
pub mod evaluation;
pub mod execution;
pub mod failures;
pub mod grammar;
pub mod instruction;
pub mod laws;
pub mod parser;
pub mod places;
pub mod rendering;
pub mod report;
pub mod sanitizer;
pub mod soundness;
pub mod stack;
pub mod string_specs;
pub mod token;
pub mod tokenizer;
pub mod tree;
pub mod writing;

pub use error::CalcError;
pub use evaluation::{evaluate_math_expression, Action, Evaluation};
pub use instruction::{Instr, Operator};
pub use report::CalculatorResult;
pub use sanitizer::sanitize;
pub use token::Token;
pub use tokenizer::tokenize;
