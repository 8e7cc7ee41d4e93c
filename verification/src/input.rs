//! Secrets read from a pipe.

use crate::text::{trim_newlines, trim_trailing_newlines};
use vstd::prelude::*;

verus! {

/// A secret piped on standard input, without the line endings that end it:
/// trailing carriage returns and line feeds go, everything before them stays.
pub fn trim_piped_secret(value: String) -> (res: String)
    ensures
        res@ == trim_newlines(value@),
{
    trim_trailing_newlines(value.as_str())
}

} // verus!
