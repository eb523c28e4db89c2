//! Terminal styling through the `colored` crate.

use colored::Colorize;
use vstd::prelude::*;

use crate::text::contains_sub;

verus! {

/// `s.dimmed().to_string()` (colored). Whether colours are written depends on
/// the environment and the terminal, so only what holds either way is
/// stated: for a text without a reset sequence, the text itself or the text
/// between the dim code `ESC[2m` and the reset `ESC[0m`. What colored writes
/// for a text that holds a reset sequence is left unsaid.
#[verifier::external_body]
pub fn dimmed(s: &str) -> (r: String)
    ensures
        !contains_sub(s@, "\x1B[0m"@) ==> (r@ == s@ || r@ == "\x1B[2m"@ + s@ + "\x1B[0m"@),
{
    s.dimmed().to_string()
}

} // verus!
