//! The interactive fix-selection rule: what each command the user types
//! means, and how one answer changes the session's state.

use vstd::prelude::*;

use crate::strutil::spec_trim;
use crate::strutil::trim_ascii;

verus! {

/// What the user asked for: apply this change, skip it, apply everything
/// that remains, stop early, or nothing recognizable.
#[derive(Debug, PartialEq, Eq, Structural)]
pub enum InteractiveChoice {
    /// Apply this change.
    Apply,
    /// Skip this change.
    Skip,
    /// Apply this and all remaining changes.
    ApplyAll,
    /// Stop without processing remaining changes.
    Quit,
    /// Unrecognized input; the change is skipped.
    Invalid,
}

/// Two characters are equal up to ASCII case.
pub open spec fn char_eq_nocase(a: char, b: char) -> bool {
    a == b || ('A' as int <= a as int <= 'Z' as int && b as int == a as int + 32) || ('A' as int
        <= b as int <= 'Z' as int && a as int == b as int + 32)
}

/// Two texts are equal up to ASCII case.
pub open spec fn spec_eq_nocase(a: Seq<char>, b: Seq<char>) -> bool {
    a.len() == b.len() && forall|i: int| 0 <= i < a.len() ==> char_eq_nocase(a[i], b[i])
}

/// Tests two texts for equality up to ASCII case.
pub fn eq_nocase(a: &str, b: &str) -> (r: bool)
    ensures
        r == spec_eq_nocase(a@, b@),
{
    let n = a.unicode_len();
    if n != b.unicode_len() {
        return false;
    }
    let mut i: usize = 0;
    while i < n
        invariant
            i <= n,
            n == a@.len(),
            n == b@.len(),
            forall|k: int| 0 <= k < i ==> char_eq_nocase(a@[k], b@[k]),
        decreases n - i,
    {
        let ca = a.get_char(i);
        let cb = b.get_char(i);
        let ua = ca as u32;
        let ub = cb as u32;
        let same = ca == cb || (65 <= ua && ua <= 90 && ub == ua + 32) || (65 <= ub && ub <= 90
            && ua == ub + 32);
        if !same {
            return false;
        }
        i = i + 1;
    }
    true
}

/// The choice an input line stands for, after trimming and ignoring
/// ASCII case: `y`/`yes` applies, `n`/`no` skips, `a`/`all` applies all
/// remaining changes, `q`/`quit` stops, anything else is invalid.
pub open spec fn spec_choice_of(t: Seq<char>) -> InteractiveChoice {
    if spec_eq_nocase(t, "y"@) || spec_eq_nocase(t, "yes"@) {
        InteractiveChoice::Apply
    } else if spec_eq_nocase(t, "n"@) || spec_eq_nocase(t, "no"@) {
        InteractiveChoice::Skip
    } else if spec_eq_nocase(t, "a"@) || spec_eq_nocase(t, "all"@) {
        InteractiveChoice::ApplyAll
    } else if spec_eq_nocase(t, "q"@) || spec_eq_nocase(t, "quit"@) {
        InteractiveChoice::Quit
    } else {
        InteractiveChoice::Invalid
    }
}

/// Reads one interactive answer: the input is trimmed and matched
/// regardless of ASCII case.
pub fn interactive_choice(input: &str) -> (r: InteractiveChoice)
    ensures
        r == spec_choice_of(spec_trim(input@)),
{
    proof {
        reveal_strlit("y");
        reveal_strlit("yes");
        reveal_strlit("n");
        reveal_strlit("no");
        reveal_strlit("a");
        reveal_strlit("all");
        reveal_strlit("q");
        reveal_strlit("quit");
    }
    let t = trim_ascii(input);
    if eq_nocase(t.as_str(), "y") || eq_nocase(t.as_str(), "yes") {
        InteractiveChoice::Apply
    } else if eq_nocase(t.as_str(), "n") || eq_nocase(t.as_str(), "no") {
        InteractiveChoice::Skip
    } else if eq_nocase(t.as_str(), "a") || eq_nocase(t.as_str(), "all") {
        InteractiveChoice::ApplyAll
    } else if eq_nocase(t.as_str(), "q") || eq_nocase(t.as_str(), "quit") {
        InteractiveChoice::Quit
    } else {
        InteractiveChoice::Invalid
    }
}

/// One step of the interactive session: whether the current change is
/// selected, whether every later change is selected without asking, and
/// whether the session stops. Once apply-all is on, every change is
/// taken and the state never leaves apply-all.
pub fn interactive_step(apply_all: bool, choice: InteractiveChoice) -> (r: (bool, bool, bool))
    ensures
        apply_all ==> r == (true, true, false),
        !apply_all ==> r == (match choice {
            InteractiveChoice::Apply => (true, false, false),
            InteractiveChoice::Skip => (false, false, false),
            InteractiveChoice::ApplyAll => (true, true, false),
            InteractiveChoice::Quit => (false, false, true),
            InteractiveChoice::Invalid => (false, false, false),
        }),
{
    if apply_all {
        (true, true, false)
    } else {
        match choice {
            InteractiveChoice::Apply => (true, false, false),
            InteractiveChoice::Skip => (false, false, false),
            InteractiveChoice::ApplyAll => (true, true, false),
            InteractiveChoice::Quit => (false, false, true),
            InteractiveChoice::Invalid => (false, false, false),
        }
    }
}

} // verus!
