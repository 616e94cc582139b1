//! Width-aware text padding: the visible width of a line, measured with
//! escape sequences excluded, and padding to an exact visible width.

use vstd::prelude::*;

use crate::strutil::spec_repeat;
use crate::strutil::repeat_str;

verus! {

/// The display width of a text, terminal escape sequences excluded; a
/// pure function of the characters.
pub uninterp spec fn visible_width(s: Seq<char>) -> nat;

/// Every character is printable ASCII.
pub open spec fn printable_ascii(s: Seq<char>) -> bool {
    forall|i: int| 0 <= i < s.len() ==> 0x20 <= (#[trigger] s[i]) as int <= 0x7e
}

/// Relies on `console::measure_text_width`: measures the display width of
/// a string, skipping ANSI escape sequences; depends on the characters
/// alone, and on printable-ASCII text it is the character count.
#[verifier::external_body]
pub fn measure_width(s: &str) -> (r: usize)
    ensures
        r as nat == visible_width(s@),
        printable_ascii(s@) ==> r as nat == s@.len(),
{
    console::measure_text_width(s)
}

/// The text padded with trailing spaces up to the target visible width;
/// text at least that wide stays unchanged.
pub open spec fn spec_pad(s: Seq<char>, width: nat) -> Seq<char> {
    if visible_width(s) >= width {
        s
    } else {
        s + spec_repeat(" "@, (width - visible_width(s)) as nat)
    }
}

/// Pads text to an exact visible width with trailing spaces, measuring
/// only visible characters so embedded color escapes keep alignment;
/// wider text is returned unchanged, never truncated.
pub fn pad_to_width(text: &str, width: usize) -> (r: String)
    ensures
        r@ == spec_pad(text@, width as nat),
{
    let current = measure_width(text);
    if current >= width {
        text.to_owned()
    } else {
        let mut r = text.to_owned();
        let pad = repeat_str(" ", width - current);
        r.append(pad.as_str());
        r
    }
}

} // verus!
