//! Terminal styling of progress and summary lines.
use vstd::prelude::*;

use crate::text::string_of;

verus! {

/// `s` wrapped in ANSI dim (`ESC[2m ... ESC[0m`) when the output is a
/// terminal, unchanged otherwise.
pub fn dim_if(s: &str, tty: bool) -> (r: String)
    ensures
        r@ == (if tty {
            "\x1b[2m"@ + s@ + "\x1b[0m"@
        } else {
            s@
        }),
{
    if tty {
        let mut out = string_of("\x1b[2m");
        out.append(s);
        out.append("\x1b[0m");
        out
    } else {
        string_of(s)
    }
}

} // verus!
