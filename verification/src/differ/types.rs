//! Diff data model: one previewed change, the changes of one file, and the
//! changes of a whole run. Values are built once and never edited in place.

use vstd::prelude::*;

verus! {

/// Represents a single previewed code change: the location and content of a
/// proposed modification, independent of whether it is ever applied.
#[derive(Debug, Clone, PartialEq, Eq)]
pub struct DiffEntry {
    /// Line number of the change, 1-based.
    pub line: usize,
    /// Name of the analyzer that proposed it.
    pub analyzer: String,
    /// The line as it stands.
    pub original: String,
    /// The line as it would read after the fix.
    pub modified: String,
    /// Human-readable description of the issue.
    pub description: String,
    /// Import statement to add at the top of the file, if any.
    pub import: Option<String>,
}

/// Diff results for a single file: the path and the ordered changes.
#[derive(Debug, Clone)]
pub struct FileDiff {
    /// Path of the file the changes belong to.
    pub path: String,
    /// Proposed changes, in analyzer order, then issue order.
    pub entries: Vec<DiffEntry>,
}

impl FileDiff {
    /// Creates a new, empty file diff for a path.
    pub fn new(path: String) -> (r: FileDiff)
        ensures
            r.path@ == path@,
            r.entries@.len() == 0,
    {
        FileDiff { path, entries: Vec::new() }
    }

    /// Appends a change to the file's diff.
    pub fn add_entry(&mut self, entry: DiffEntry)
        ensures
            final(self).path == old(self).path,
            final(self).entries@ == old(self).entries@.push(entry),
    {
        self.entries.push(entry);
    }

    /// Returns the number of changes recorded for this file.
    pub fn total_changes(&self) -> (r: usize)
        ensures
            r == self.entries@.len(),
    {
        self.entries.len()
    }
}

/// The number of entries of each file diff, summed.
pub open spec fn spec_total_changes(files: Seq<FileDiff>) -> int
    decreases files.len(),
{
    if files.len() == 0 {
        0
    } else {
        spec_total_changes(files.drop_last()) + files.last().entries@.len()
    }
}

/// Complete diff results for a run, across all files. A file diff with no
/// entries is never added, so every recorded file carries a change.
#[derive(Debug, Clone)]
pub struct DiffResult {
    /// Per-file diffs, each with at least one entry.
    pub files: Vec<FileDiff>,
}

impl DiffResult {
    /// Every recorded file diff holds at least one entry.
    pub open spec fn wf(&self) -> bool {
        forall|i: int| 0 <= i < self.files@.len() ==> self.files@[i].entries@.len() > 0
    }

    /// Creates a new, empty diff result.
    pub fn new() -> (r: DiffResult)
        ensures
            r.files@.len() == 0,
            r.wf(),
    {
        DiffResult { files: Vec::new() }
    }

    /// Adds a file's diff to the results; a diff with no changes is
    /// dropped and leaves the result untouched, so the file count never
    /// rises on an empty diff.
    pub fn add_file(&mut self, file_diff: FileDiff)
        ensures
            file_diff.entries@.len() > 0 ==> final(self).files@ == old(self).files@.push(file_diff),
            file_diff.entries@.len() == 0 ==> final(self).files@ == old(self).files@,
            old(self).wf() ==> final(self).wf(),
    {
        if file_diff.total_changes() > 0 {
            self.files.push(file_diff);
        }
    }

    /// Returns the total number of changes across all files.
    pub fn total_changes(&self) -> (r: usize)
        requires
            spec_total_changes(self.files@) <= usize::MAX,
        ensures
            r == spec_total_changes(self.files@),
    {
        let mut sum: usize = 0;
        let mut i: usize = 0;
        let n = self.files.len();
        while i < n
            invariant
                i <= n,
                n == self.files@.len(),
                sum == spec_total_changes(self.files@.subrange(0, i as int)),
                spec_total_changes(self.files@) <= usize::MAX,
            decreases n - i,
        {
            proof {
                lemma_total_changes_prefix(self.files@, i as int + 1);
                lemma_total_changes_bound(self.files@, i as int + 1);
                assert(self.files@.subrange(0, i as int + 1).drop_last() =~= self.files@.subrange(
                    0,
                    i as int,
                ));
                assert(self.files@.subrange(0, i as int + 1).last() == self.files@[i as int]);
            }
            sum = sum + self.files[i].entries.len();
            i = i + 1;
        }
        proof {
            assert(self.files@.subrange(0, n as int) =~= self.files@);
        }
        sum
    }

    /// Returns the number of files with changes.
    pub fn total_files(&self) -> (r: usize)
        ensures
            r == self.files@.len(),
    {
        self.files.len()
    }
}

/// A prefix of the files contributes at most the whole sum.
proof fn lemma_total_changes_prefix(files: Seq<FileDiff>, k: int)
    requires
        0 <= k <= files.len(),
    ensures
        spec_total_changes(files.subrange(0, k)) <= spec_total_changes(files),
    decreases files.len() - k,
{
    if k == files.len() {
        assert(files.subrange(0, k) =~= files);
    } else {
        lemma_total_changes_prefix(files, k + 1);
        assert(files.subrange(0, k + 1).drop_last() =~= files.subrange(0, k));
        assert(spec_total_changes(files.subrange(0, k + 1)) == spec_total_changes(
            files.subrange(0, k),
        ) + files[k].entries@.len());
    }
}

/// Every partial sum of entry counts is nonnegative.
proof fn lemma_total_changes_bound(files: Seq<FileDiff>, k: int)
    requires
        0 <= k <= files.len(),
    ensures
        spec_total_changes(files.subrange(0, k)) >= 0,
    decreases k,
{
    if k > 0 {
        lemma_total_changes_bound(files, k - 1);
        assert(files.subrange(0, k).drop_last() =~= files.subrange(0, k - 1));
    }
}

} // verus!
