//! Detection of legacy `mod.rs` files: classifies paths and suggests the
//! modern layout where a module file is named after its directory. The
//! callers walk the file system and hand plain path texts in.

use vstd::prelude::*;

use crate::strutil::lemma_spec_find;
use crate::strutil::spec_find;
use crate::strutil::find_sub;
use crate::strutil::str_eq;

verus! {

/// Result of `mod.rs` detection: a found file and the suggested fix.
#[derive(Debug, Clone)]
pub struct ModRsIssue {
    /// Path to the `mod.rs` file.
    pub path: String,
    /// Suggested new path after the fix.
    pub suggested: String,
    /// Human-readable message.
    pub message: String,
    /// Line number; always one for file-level issues.
    pub line: usize,
    /// Column number; always one for file-level issues.
    pub column: usize,
}

/// Result of `mod.rs` analysis: all found files.
#[derive(Debug)]
pub struct ModRsResult {
    /// The found issues.
    pub issues: Vec<ModRsIssue>,
}

impl ModRsResult {
    /// Creates a new, empty result.
    pub fn new() -> (r: ModRsResult)
        ensures
            r.issues@.len() == 0,
    {
        ModRsResult { issues: Vec::new() }
    }

    /// Returns the total number of issues found.
    pub fn len(&self) -> (r: usize)
        ensures
            r == self.issues@.len(),
    {
        self.issues.len()
    }

    /// Checks if no issues were found.
    pub fn is_empty(&self) -> (r: bool)
        ensures
            r == (self.issues@.len() == 0),
    {
        self.issues.len() == 0
    }
}

impl Default for ModRsResult {
    /// An empty result.
    fn default() -> (r: ModRsResult)
        ensures
            r.issues@.len() == 0,
    {
        ModRsResult::new()
    }
}

/// The path's file name: everything after the last slash.
pub open spec fn spec_file_name(path: Seq<char>) -> Seq<char>
    decreases path.len(),
{
    match spec_find(path, "/"@, 0) {
        Some(i) => if i + 1 <= path.len() {
            spec_file_name(path.subrange(i as int + 1, path.len() as int))
        } else {
            path
        },
        None => path,
    }
}

/// The path's parent directory: everything before the last slash, or
/// nothing when there is no slash.
pub open spec fn spec_parent(path: Seq<char>) -> Option<Seq<char>>
    decreases path.len(),
{
    match spec_find(path, "/"@, 0) {
        Some(i) => if i + 1 <= path.len() {
            match spec_parent(path.subrange(i as int + 1, path.len() as int)) {
                Some(rest) => Some(path.subrange(0, i as int) + "/"@ + rest),
                None => Some(path.subrange(0, i as int)),
            }
        } else {
            None
        },
        None => None,
    }
}

/// The path's file name, computed by scanning for the last slash.
pub fn file_name_of(path: &str) -> (r: String)
    ensures
        r@ == spec_file_name(path@),
    decreases path@.len(),
{
    proof {
        reveal_strlit("/");
    }
    match find_sub(path, "/") {
        Some(i) => {
            proof {
                lemma_spec_find(path@, "/"@, 0);
            }
            let n = path.unicode_len();
            file_name_of(path.substring_char(i + 1, n))
        },
        None => path.to_owned(),
    }
}

/// The path's parent directory, or nothing for a bare file name.
pub fn parent_of(path: &str) -> (r: Option<String>)
    ensures
        match r {
            Some(p) => spec_parent(path@) == Some(p@),
            None => spec_parent(path@) is None,
        },
    decreases path@.len(),
{
    proof {
        reveal_strlit("/");
    }
    match find_sub(path, "/") {
        Some(i) => {
            proof {
                lemma_spec_find(path@, "/"@, 0);
            }
            let n = path.unicode_len();
            match parent_of(path.substring_char(i + 1, n)) {
                Some(rest) => {
                    let mut r = path.substring_char(0, i).to_owned();
                    r.append("/");
                    r.append(rest.as_str());
                    Some(r)
                },
                None => Some(path.substring_char(0, i).to_owned()),
            }
        },
        None => None,
    }
}

/// Whether a path points to a `mod.rs` file.
pub fn is_mod_rs(path: &str) -> (r: bool)
    ensures
        r == (spec_file_name(path@) == "mod.rs"@),
{
    proof {
        reveal_strlit("mod.rs");
    }
    let name = file_name_of(path);
    str_eq(name.as_str(), "mod.rs")
}

/// What the issue for a `mod.rs` path holds: the path itself, a suggested
/// path naming the module after its directory one level up, and a message
/// spelling the rename out.
pub open spec fn spec_mod_rs_issue(issue: ModRsIssue, path: Seq<char>) -> bool {
    let parent = spec_parent(path)->Some_0;
    let module_name = spec_file_name(parent);
    let suggested = match spec_parent(parent) {
        Some(gp) => gp + "/"@ + module_name + ".rs"@,
        None => module_name + ".rs"@,
    };
    &&& issue.path@ == path
    &&& issue.suggested@ == suggested
    &&& issue.message@ == "Use `"@ + module_name + ".rs` instead of `"@ + module_name
        + "/mod.rs` (modern module style)"@
    &&& issue.line == 1
    &&& issue.column == 1
}

/// A path gets an issue when it has a parent directory whose own name is
/// not empty; a bare file name or a file directly under the root has no
/// directory to rename.
pub open spec fn spec_has_named_parent(path: Seq<char>) -> bool {
    spec_parent(path) is Some && spec_file_name(spec_parent(path)->Some_0).len() > 0
}

/// Creates the issue for a `mod.rs` path: nothing for a path without a
/// named parent directory, else the issue suggesting the module file
/// named after its directory, one level up.
pub fn create_issue(path: &str) -> (r: Option<ModRsIssue>)
    ensures
        r is Some <==> spec_has_named_parent(path@),
        match r {
            Some(issue) => spec_mod_rs_issue(issue, path@),
            None => true,
        },
{
    let parent = match parent_of(path) {
        Some(p) => p,
        None => {
            return None;
        },
    };
    let module_name = file_name_of(parent.as_str());
    if module_name.unicode_len() == 0 {
        return None;
    }
    let suggested = match parent_of(parent.as_str()) {
        Some(gp) => {
            let mut s = gp;
            s.append("/");
            s.append(module_name.as_str());
            s.append(".rs");
            s
        },
        None => {
            let mut s = module_name.clone();
            s.append(".rs");
            s
        },
    };
    let mut message = "Use `".to_owned();
    message.append(module_name.as_str());
    message.append(".rs` instead of `");
    message.append(module_name.as_str());
    message.append("/mod.rs` (modern module style)");
    Some(
        ModRsIssue { path: path.to_owned(), suggested, message, line: 1, column: 1 },
    )
}

/// A path draws an issue when it names a `mod.rs` file under a named
/// parent directory.
pub open spec fn spec_mod_rs_flagged(p: Seq<char>) -> bool {
    spec_file_name(p) == "mod.rs"@ && spec_has_named_parent(p)
}

proof fn lemma_flagged_filter_push(s: Seq<Seq<char>>, x: Seq<char>)
    ensures
        spec_mod_rs_flagged(x) ==> s.push(x).filter(|p: Seq<char>| spec_mod_rs_flagged(p))
            == s.filter(|p: Seq<char>| spec_mod_rs_flagged(p)).push(x),
        !spec_mod_rs_flagged(x) ==> s.push(x).filter(|p: Seq<char>| spec_mod_rs_flagged(p))
            == s.filter(|p: Seq<char>| spec_mod_rs_flagged(p)),
{
    reveal(Seq::filter);
    assert(s.push(x).drop_last() =~= s);
    assert(s.push(x).last() == x);
}

/// Classifies a list of file paths: exactly one issue per path that
/// names a `mod.rs` file under a named parent directory, in input order,
/// each issue carrying the suggested rename for its path.
pub fn collect_mod_rs_issues(paths: &Vec<String>) -> (r: ModRsResult)
    ensures
        r.issues@.len() == paths@.map_values(|p: String| p@).filter(
            |p: Seq<char>| spec_mod_rs_flagged(p),
        ).len(),
        forall|k: int|
            0 <= k < r.issues@.len() ==> spec_mod_rs_issue(
                #[trigger] r.issues@[k],
                paths@.map_values(|p: String| p@).filter(
                    |p: Seq<char>| spec_mod_rs_flagged(p),
                )[k],
            ),
{
    let ghost views = paths@.map_values(|p: String| p@);
    let mut result = ModRsResult::new();
    let n = paths.len();
    let mut i: usize = 0;
    proof {
        reveal(Seq::filter);
        assert(views.subrange(0, 0) =~= Seq::<Seq<char>>::empty());
    }
    while i < n
        invariant
            i <= n,
            n == paths@.len(),
            views == paths@.map_values(|p: String| p@),
            result.issues@.len() == views.subrange(0, i as int).filter(
                |p: Seq<char>| spec_mod_rs_flagged(p),
            ).len(),
            forall|k: int|
                0 <= k < result.issues@.len() ==> spec_mod_rs_issue(
                    #[trigger] result.issues@[k],
                    views.subrange(0, i as int).filter(|p: Seq<char>| spec_mod_rs_flagged(p))[k],
                ),
        decreases n - i,
    {
        proof {
            assert(views.subrange(0, i as int + 1) =~= views.subrange(0, i as int).push(
                views[i as int],
            ));
            lemma_flagged_filter_push(views.subrange(0, i as int), views[i as int]);
        }
        if is_mod_rs(paths[i].as_str()) {
            match create_issue(paths[i].as_str()) {
                Some(issue) => {
                    result.issues.push(issue);
                },
                None => {},
            }
        }
        i = i + 1;
    }
    proof {
        assert(views.subrange(0, n as int) =~= views);
    }
    result
}

} // verus!
