//! The operand value table used by the layout pass.

pub use crate::ireval::{ParmValDb, evaluate_string_expr};
