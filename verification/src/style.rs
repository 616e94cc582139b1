//! Terminal styling: wraps text in ANSI escape codes. Kept in one place
//! so color support can be toggled without touching layout math.

use vstd::prelude::*;

verus! {

/// The text wrapped in an ANSI escape sequence: a select-graphic code in
/// front, a reset behind.
pub open spec fn spec_styled(code: Seq<char>, s: Seq<char>) -> Seq<char> {
    "\u{1b}["@ + code + "m"@ + s + "\u{1b}[0m"@
}

/// Wraps the text in the ANSI escape sequence for the given
/// select-graphic code, with a reset behind it.
pub fn styled(code: &str, s: &str) -> (r: String)
    ensures
        r@ == spec_styled(code@, s@),
{
    let mut r = "\u{1b}[".to_owned();
    r.append(code);
    r.append("m");
    r.append(s);
    r.append("\u{1b}[0m");
    r
}

} // verus!
