use vstd::prelude::*;

pub mod ctx;
pub mod error;
pub mod parser;
pub mod rational;
pub mod text;

pub use ctx::Ctx;
pub use error::Error;
pub use parser::expr::Expr;
pub use parser::func::Func;
pub use parser::lexer;
pub use parser::parser::{parse, parse_func};
pub use rational::{consts, Consts, Rational};
