use vstd::prelude::*;

use crate::service::text::{append_lines, fix_indentation, fixed_indentation, join_lines, lines};

pub mod code;
pub mod item;

verus! {

/// Dedents a block of text by the indentation of its first non-blank line
/// (assumed consistent spaces or tabs); blank lines are kept, and every line
/// ends with '\n'.
pub fn fix_code_indentation(code: &str) -> (r: String)
    ensures
        r@ == fixed_indentation(code@, true),
{
    fix_indentation(code, true)
}

/// The lines of `a` then those of `b`, joined with '\n'.
pub fn append_code(a: String, b: String) -> (r: String)
    ensures
        r@ == join_lines(lines(a@) + lines(b@)),
{
    append_lines(a.as_str(), b.as_str())
}

} // verus!
