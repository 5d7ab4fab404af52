//! Identifier transformation: a name is cut into words, each word is recased
//! by the rule of its position, and the words are joined with a separator, as
//! a compact transform expression says.
use vstd::prelude::*;

pub mod apply;
pub mod ascii;
pub mod expr;
pub mod expr_laws;
pub mod transform_laws;
pub mod types;
pub mod word_laws;
pub mod words;
