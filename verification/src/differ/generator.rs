//! Diff generation: runs analyzers over the pristine tree and source text
//! and records each fixable issue as a before/after line preview, without
//! mutating the tree or the file.

use vstd::prelude::*;

use crate::analyzer::Analyzer;
use crate::analyzer::Fix;
use crate::analyzer::Issue;
use crate::differ::types::DiffEntry;
use crate::differ::types::FileDiff;
use crate::error::QualityError;
use crate::strutil::lemma_spec_find;
use crate::strutil::match_at;
use crate::strutil::spec_lines;
use crate::strutil::spec_replace_first;
use crate::strutil::split_lines;
use crate::strutil::replace_first;
use crate::tree::parse_or_error;
use crate::tree::source_parses;

verus! {

/// The file's line at 1-based position `line`; empty when out of range.
pub open spec fn spec_line_at(lines: Seq<Seq<char>>, line: nat) -> Seq<char> {
    if 1 <= line && line <= lines.len() {
        lines[line - 1]
    } else {
        Seq::empty()
    }
}

/// Looks up the 1-based line `line`, handing back an empty string when it
/// is out of range.
pub fn line_at(lines: &Vec<String>, line: usize) -> (r: String)
    ensures
        r@ == spec_line_at(lines@.map_values(|l: String| l@), line as nat),
{
    if 1 <= line && line <= lines.len() {
        lines[line - 1].clone()
    } else {
        String::new()
    }
}

/// An issue takes part in diff generation when it is located and fixable.
pub open spec fn eligible(issue: Issue) -> bool {
    issue.line != 0 && !(issue.fix is Unavailable)
}

/// What the diff entry recorded for `issue` holds: the issue's line and
/// description, the analyzer's name, the file's current line, and the
/// modified line and import dictated by the fix.
pub open spec fn entry_matches(
    e: DiffEntry,
    name: Seq<char>,
    lines: Seq<Seq<char>>,
    issue: Issue,
) -> bool {
    let orig = spec_line_at(lines, issue.line as nat);
    &&& e.line == issue.line
    &&& e.analyzer@ == name
    &&& e.original@ == orig
    &&& e.description@ == issue.message@
    &&& match issue.fix {
        Fix::Unavailable => false,
        Fix::Simple(text) => e.modified@ == text@ && e.import is None,
        Fix::WithImport { import, pattern, replacement } => e.modified@ == spec_replace_first(
            orig,
            pattern@,
            replacement@,
        ) && e.import is Some && e.import->0@ == import@,
    }
}

proof fn lemma_filter_push(s: Seq<Issue>, x: Issue)
    ensures
        eligible(x) ==> s.push(x).filter(|i: Issue| eligible(i)) == s.filter(
            |i: Issue| eligible(i),
        ).push(x),
        !eligible(x) ==> s.push(x).filter(|i: Issue| eligible(i)) == s.filter(
            |i: Issue| eligible(i),
        ),
{
    reveal(Seq::filter);
    assert(s.push(x).drop_last() =~= s);
    assert(s.push(x).last() == x);
}

/// Records one diff entry per located, fixable issue, in issue order: the
/// current line is looked up in the file's lines, a simple fix replaces it
/// wholesale, and an import fix replaces the first occurrence of its
/// pattern, carrying the import separately.
pub fn entries_for_issues(name: &str, issues: &Vec<Issue>, lines: &Vec<String>) -> (r: Vec<
    DiffEntry,
>)
    ensures
        r@.len() == issues@.filter(|i: Issue| eligible(i)).len(),
        forall|k: int|
            0 <= k < r@.len() ==> entry_matches(
                r@[k],
                name@,
                lines@.map_values(|l: String| l@),
                issues@.filter(|i: Issue| eligible(i))[k],
            ),
        forall|k: int| 0 <= k < r@.len() ==> (#[trigger] r@[k]).line != 0,
{
    let ghost line_views = lines@.map_values(|l: String| l@);
    let mut r: Vec<DiffEntry> = Vec::new();
    let mut idx: usize = 0;
    let n = issues.len();
    proof {
        reveal(Seq::filter);
        assert(issues@.subrange(0, 0) =~= Seq::<Issue>::empty());
    }
    while idx < n
        invariant
            idx <= n,
            n == issues@.len(),
            line_views == lines@.map_values(|l: String| l@),
            r@.len() == issues@.subrange(0, idx as int).filter(|i: Issue| eligible(i)).len(),
            forall|k: int|
                0 <= k < r@.len() ==> entry_matches(
                    r@[k],
                    name@,
                    line_views,
                    issues@.subrange(0, idx as int).filter(|i: Issue| eligible(i))[k],
                ),
            forall|k: int| 0 <= k < r@.len() ==> (#[trigger] r@[k]).line != 0,
        decreases n - idx,
    {
        let issue = &issues[idx];
        proof {
            assert(issues@.subrange(0, idx as int + 1).drop_last() =~= issues@.subrange(
                0,
                idx as int,
            ));
            assert(issues@.subrange(0, idx as int + 1) =~= issues@.subrange(0, idx as int).push(
                issues@[idx as int],
            ));
            lemma_filter_push(issues@.subrange(0, idx as int), issues@[idx as int]);
        }
        if issue.line != 0 && issue.fix.is_available() {
            let original = line_at(lines, issue.line);
            let mut maybe_entry: Option<DiffEntry> = None;
            if let Some((import, pattern, replacement)) = issue.fix.as_import() {
                let modified = replace_first(original.as_str(), pattern, replacement);
                maybe_entry = Some(
                    DiffEntry {
                        line: issue.line,
                        analyzer: name.to_owned(),
                        original: original.clone(),
                        modified,
                        description: issue.message.clone(),
                        import: Some(import.to_owned()),
                    },
                );
            } else if let Some(simple) = issue.fix.as_simple() {
                maybe_entry = Some(
                    DiffEntry {
                        line: issue.line,
                        analyzer: name.to_owned(),
                        original: original.clone(),
                        modified: simple.to_owned(),
                        description: issue.message.clone(),
                        import: None,
                    },
                );
            }
            match maybe_entry {
                Some(entry) => {
                    r.push(entry);
                },
                None => {
                    proof {
                        assert(false);
                    }
                },
            }
        }
        idx = idx + 1;
    }
    proof {
        assert(issues@.subrange(0, n as int) =~= issues@);
    }
    r
}

/// A section is exactly the entry list recorded for one analyzer's pass:
/// one entry per located, fixable issue of that pass, in issue order,
/// each entry's fields pinned by `entry_matches` under the pass's name.
pub open spec fn section_matches(
    section: Seq<DiffEntry>,
    name: Seq<char>,
    lines: Seq<Seq<char>>,
    issues: Seq<Issue>,
) -> bool {
    &&& section.len() == issues.filter(|i: Issue| eligible(i)).len()
    &&& forall|k: int|
        0 <= k < section.len() ==> entry_matches(
            #[trigger] section[k],
            name,
            lines,
            issues.filter(|i: Issue| eligible(i))[k],
        )
}

/// The recorded entries decompose into one section per analyzer, in
/// analyzer order: for some reported issue lists and analyzer names —
/// whatever the analyzers answered — section `a` is exactly the entry
/// list those issues fix, and the entries are their concatenation.
pub open spec fn spec_diff_assembled(
    entries: Seq<DiffEntry>,
    count: int,
    lines: Seq<Seq<char>>,
) -> bool {
    exists|sections: Seq<Seq<DiffEntry>>, names: Seq<Seq<char>>, reported: Seq<Seq<Issue>>|
        #![trigger sections.flatten(), names.len(), reported.len()]
        {
            &&& sections.len() == count
            &&& names.len() == count
            &&& reported.len() == count
            &&& entries == sections.flatten()
            &&& forall|a: int|
                0 <= a < count ==> section_matches(
                    #[trigger] sections[a],
                    names[a],
                    lines,
                    reported[a],
                )
        }
}

/// Generates the diff for one file's source text: parses it once, then for
/// each analyzer in order runs `analyze` on the pristine tree and records
/// the entries of its located, fixable issues, appended in analyzer order,
/// then issue order. The tree and the text are only read, so later
/// analyzers and later calls see the original input; a parse failure
/// aborts the whole operation with a parse error, and with no analyzers
/// registered a parsable text always yields an empty diff.
pub fn generate_diff<A: Analyzer>(file_path: &str, content: &str, analyzers: &Vec<A>) -> (r:
    Result<FileDiff, QualityError>)
    ensures
        r is Ok ==> source_parses(content@) && r->Ok_0.path@ == file_path@,
        r is Ok ==> spec_diff_assembled(
            r->Ok_0.entries@,
            analyzers@.len() as int,
            spec_lines(content@),
        ),
        r is Ok ==> forall|k: int|
            0 <= k < r->Ok_0.entries@.len() ==> (#[trigger] r->Ok_0.entries@[k]).line != 0,
        !source_parses(content@) ==> r is Err && r->Err_0 is Parse,
        source_parses(content@) && analyzers@.len() == 0 ==> r is Ok && r->Ok_0.entries@.len()
            == 0,
{
    broadcast use Seq::lemma_flatten_push;

    let ast = match parse_or_error(content) {
        Ok(a) => a,
        Err(e) => {
            return Err(QualityError::Parse(e));
        },
    };
    let lines = split_lines(content);
    let ghost line_views = lines@.map_values(|l: String| l@);
    let mut file_diff = FileDiff::new(file_path.to_owned());
    let ghost mut g_sections: Seq<Seq<DiffEntry>> = Seq::empty();
    let ghost mut g_names: Seq<Seq<char>> = Seq::empty();
    let ghost mut g_reported: Seq<Seq<Issue>> = Seq::empty();
    let mut a: usize = 0;
    let n = analyzers.len();
    proof {
        assert(g_sections.flatten() =~= Seq::<DiffEntry>::empty());
    }
    while a < n
        invariant
            n == analyzers@.len(),
            a <= n,
            file_diff.path@ == file_path@,
            source_parses(content@),
            line_views == spec_lines(content@),
            line_views == lines@.map_values(|l: String| l@),
            g_sections.len() == a,
            g_names.len() == a,
            g_reported.len() == a,
            file_diff.entries@ == g_sections.flatten(),
            forall|x: int|
                0 <= x < a ==> section_matches(
                    #[trigger] g_sections[x],
                    g_names[x],
                    line_views,
                    g_reported[x],
                ),
            forall|k: int|
                0 <= k < file_diff.entries@.len() ==> (#[trigger] file_diff.entries@[k]).line
                    != 0,
        decreases n - a,
    {
        let result = match analyzers[a].analyze(&ast, content) {
            Ok(res) => res,
            Err(e) => {
                return Err(e);
            },
        };
        let ghost reported = result.issues@;
        let name = analyzers[a].name();
        let mut entries = entries_for_issues(name, &result.issues, &lines);
        let ghost section = entries@;
        let ghost flat_before = g_sections.flatten();
        proof {
            assert(section_matches(section, name@, line_views, reported));
            assert(section.skip(0) =~= section);
            assert(section.take(0) =~= Seq::<DiffEntry>::empty());
            assert(file_diff.entries@ =~= flat_before + section.take(0));
        }
        while entries.len() > 0
            invariant
                file_diff.path@ == file_path@,
                flat_before == g_sections.flatten(),
                entries@.len() <= section.len(),
                entries@ == section.skip(section.len() - entries@.len()),
                file_diff.entries@ == flat_before + section.take(
                    section.len() - entries@.len(),
                ),
                forall|j: int| 0 <= j < section.len() ==> (#[trigger] section[j]).line != 0,
                forall|j: int|
                    0 <= j < file_diff.entries@.len() ==> (#[trigger] file_diff.entries@[j]).line
                        != 0,
            decreases entries@.len(),
        {
            let ghost consumed = section.len() - entries@.len();
            let entry = entries.remove(0);
            proof {
                assert(entry == section[consumed as int]);
                assert(entries@ =~= section.skip(consumed as int + 1));
                assert(section.take(consumed as int + 1) =~= section.take(consumed as int).push(
                    section[consumed as int],
                ));
            }
            file_diff.add_entry(entry);
            proof {
                assert(file_diff.entries@ =~= flat_before + section.take(consumed as int + 1));
            }
        }
        proof {
            assert(section.take(section.len() as int) =~= section);
            g_sections.lemma_flatten_push(section);
            g_sections = g_sections.push(section);
            g_names = g_names.push(name@);
            g_reported = g_reported.push(reported);
            assert(g_sections.flatten() =~= flat_before + section);
        }
        a = a + 1;
    }
    proof {
        assert(spec_diff_assembled(file_diff.entries@, analyzers@.len() as int, line_views)) by {
            assert(file_diff.entries@ == g_sections.flatten());
        }
    }
    Ok(file_diff)
}

/// The lines with the 1-based line `line` replaced by `text`; out-of-range
/// positions leave the lines unchanged.
pub open spec fn spec_set_line(lines: Seq<Seq<char>>, line: nat, text: Seq<char>) -> Seq<
    Seq<char>,
> {
    if 1 <= line && line <= lines.len() {
        lines.update(line - 1, text)
    } else {
        lines
    }
}

/// Lines joined back into a text, a newline after each line.
pub open spec fn spec_unlines(lines: Seq<Seq<char>>) -> Seq<char>
    decreases lines.len(),
{
    if lines.len() == 0 {
        Seq::empty()
    } else {
        lines.first() + seq!['\n'] + spec_unlines(lines.drop_first())
    }
}

/// Applies one recorded change to the file's current text: the entry's
/// line is replaced by the recorded modified text, every other line stays,
/// and a newline ends each line.
pub fn apply_entry(content: &str, entry: &DiffEntry) -> (r: String)
    ensures
        r@ == spec_unlines(
            spec_set_line(spec_lines(content@), entry.line as nat, entry.modified@),
        ),
{
    let lines = split_lines(content);
    let mut out = String::new();
    let n = lines.len();
    let ghost updated = spec_set_line(
        lines@.map_values(|l: String| l@),
        entry.line as nat,
        entry.modified@,
    );
    proof {
        assert(updated.len() == n);
    }
    let mut i: usize = 0;
    while i < n
        invariant
            i <= n,
            n == lines@.len(),
            n == updated.len(),
            updated == spec_set_line(
                lines@.map_values(|l: String| l@),
                entry.line as nat,
                entry.modified@,
            ),
            out@ == spec_unlines_prefix(updated, i as nat),
        decreases n - i,
    {
        if entry.line >= 1 && i == entry.line - 1 {
            out.append(entry.modified.as_str());
        } else {
            out.append(lines[i].as_str());
        }
        out.append("\n");
        proof {
            reveal_strlit("\n");
            assert(out@ == spec_unlines_prefix(updated, (i + 1) as nat)) by {
                lemma_unlines_prefix_step(updated, i as nat);
            }
        }
        i = i + 1;
    }
    proof {
        lemma_unlines_prefix_full(updated);
    }
    out
}

/// The text of the first `k` lines, each followed by a newline.
pub open spec fn spec_unlines_prefix(lines: Seq<Seq<char>>, k: nat) -> Seq<char>
    decreases k,
{
    if k == 0 {
        Seq::empty()
    } else {
        spec_unlines_prefix(lines, (k - 1) as nat) + lines[k - 1] + seq!['\n']
    }
}

/// No line of a split text holds a newline character.
pub proof fn lemma_lines_no_newline(s: Seq<char>)
    ensures
        forall|k: int, j: int|
            0 <= k < spec_lines(s).len() && 0 <= j < spec_lines(s)[k].len() ==> spec_lines(
                s,
            )[k][j] != '\n',
    decreases s.len(),
{
    if s.len() == 0 {
    } else {
        let f = crate::strutil::spec_find(s, seq!['\n'], 0);
        lemma_spec_find(s, seq!['\n'], 0);
        if f is Some && f->Some_0 < s.len() {
            let i = f->Some_0 as int;
            let head = crate::strutil::strip_cr(s.subrange(0, i));
            assert forall|j: int| 0 <= j < i implies s[j] != '\n' by {
                assert(!match_at(s, seq!['\n'], j));
                if s[j] == '\n' {
                    assert(s.subrange(j, j + 1) =~= seq!['\n']);
                }
            }
            lemma_lines_no_newline(s.subrange(i + 1, s.len() as int));
            assert(forall|j: int| 0 <= j < head.len() ==> head[j] != '\n');
            assert(spec_lines(s) == seq![head] + spec_lines(s.subrange(i + 1, s.len() as int)));
            assert(forall|k: int, j: int|
                0 <= k < spec_lines(s).len() && 0 <= j < spec_lines(s)[k].len() ==> spec_lines(
                    s,
                )[k][j] != '\n') by {
                let rest = spec_lines(s.subrange(i + 1, s.len() as int));
                assert(forall|k: int| 1 <= k < spec_lines(s).len() ==> spec_lines(s)[k] == rest[k
                    - 1]);
            }
        } else {
            assert forall|j: int| 0 <= j < s.len() implies s[j] != '\n' by {
                assert(!match_at(s, seq!['\n'], j));
                if s[j] == '\n' {
                    assert(s.subrange(j, j + 1) =~= seq!['\n']);
                }
            }
            let head = crate::strutil::strip_cr(s);
            assert(forall|j: int| 0 <= j < head.len() ==> head[j] != '\n');
        }
    }
}

/// Splitting joined lines gives the lines back, provided each line holds
/// no newline and does not end in a carriage return.
pub proof fn lemma_lines_unlines(ls: Seq<Seq<char>>)
    requires
        forall|k: int, j: int| 0 <= k < ls.len() && 0 <= j < ls[k].len() ==> ls[k][j] != '\n',
        forall|k: int| 0 <= k < ls.len() && ls[k].len() > 0 ==> ls[k][ls[k].len() - 1] != '\r',
    ensures
        spec_lines(spec_unlines(ls)) == ls,
    decreases ls.len(),
{
    if ls.len() == 0 {
        assert(spec_unlines(ls).len() == 0);
        assert(spec_lines(spec_unlines(ls)) =~= ls);
    } else {
        let s = spec_unlines(ls);
        let head = ls.first();
        let rest = spec_unlines(ls.drop_first());
        assert(s == head + seq!['\n'] + rest);
        assert(s.len() == head.len() + 1 + rest.len());
        let i = head.len() as nat;
        assert(s[i as int] == '\n');
        assert(forall|j: int| 0 <= j < i ==> s[j] == head[j] && s[j] != '\n');
        crate::differ::generator::lemma_find_char_at_pub(s, '\n', i);
        assert(s.subrange(0, i as int) =~= head);
        assert(crate::strutil::strip_cr(head) == head);
        assert(s.subrange(i as int + 1, s.len() as int) =~= rest);
        lemma_lines_unlines(ls.drop_first());
        assert(spec_lines(s) == seq![head] + ls.drop_first());
        assert(seq![head] + ls.drop_first() =~= ls);
    }
}

/// A character occurring first at position `k` is what `spec_find` answers.
pub proof fn lemma_find_char_at_pub(s: Seq<char>, c: char, k: nat)
    requires
        k < s.len(),
        s[k as int] == c,
        forall|j: int| 0 <= j < k ==> s[j] != c,
    ensures
        crate::strutil::spec_find(s, seq![c], 0) == Some(k),
    decreases k,
{
    lemma_find_char_at_from(s, c, 0, k);
}

proof fn lemma_find_char_at_from(s: Seq<char>, c: char, from: nat, k: nat)
    requires
        from <= k < s.len(),
        s[k as int] == c,
        forall|j: int| from <= j < k ==> s[j] != c,
    ensures
        crate::strutil::spec_find(s, seq![c], from) == Some(k),
    decreases k - from,
{
    if from == k {
        assert(s.subrange(from as int, from as int + 1) =~= seq![c]);
    } else {
        assert(s.subrange(from as int, from as int + 1) != seq![c]) by {
            assert(s.subrange(from as int, from as int + 1)[0] == s[from as int]);
        }
        lemma_find_char_at_from(s, c, from + 1, k);
    }
}

/// Applying a recorded change touches exactly the recorded line: in the
/// applied content, the line at the entry's position reads the recorded
/// modified text, and every other line keeps its old text. Holds whenever
/// the position is in range and no affected line smuggles in a newline or
/// a trailing carriage return.
pub proof fn lemma_apply_entry_roundtrip(content: Seq<char>, line: nat, modified: Seq<char>)
    requires
        1 <= line <= spec_lines(content).len(),
        forall|j: int| 0 <= j < modified.len() ==> modified[j] != '\n',
        modified.len() > 0 ==> modified[modified.len() - 1] != '\r',
        forall|k: int|
            0 <= k < spec_lines(content).len() && spec_lines(content)[k].len() > 0 ==> spec_lines(
                content,
            )[k][spec_lines(content)[k].len() - 1] != '\r',
    ensures
        spec_line_at(
            spec_lines(spec_unlines(spec_set_line(spec_lines(content), line, modified))),
            line,
        ) == modified,
        forall|k: nat|
            1 <= k <= spec_lines(content).len() && k != line ==> spec_line_at(
                spec_lines(spec_unlines(spec_set_line(spec_lines(content), line, modified))),
                k,
            ) == spec_line_at(spec_lines(content), k),
{
    let ls = spec_lines(content);
    let updated = spec_set_line(ls, line, modified);
    lemma_lines_no_newline(content);
    lemma_lines_unlines(updated);
}

proof fn lemma_unlines_prefix_step(lines: Seq<Seq<char>>, k: nat)
    requires
        k < lines.len(),
    ensures
        spec_unlines_prefix(lines, k + 1) == spec_unlines_prefix(lines, k) + lines[k as int]
            + seq!['\n'],
{
}

proof fn lemma_unlines_prefix_full(lines: Seq<Seq<char>>)
    ensures
        spec_unlines_prefix(lines, lines.len()) == spec_unlines(lines),
    decreases lines.len(),
{
    if lines.len() > 0 {
        lemma_unlines_prefix_full(lines.drop_first());
        lemma_unlines_shift(lines, lines.len());
    }
}

proof fn lemma_unlines_shift(lines: Seq<Seq<char>>, k: nat)
    requires
        1 <= k <= lines.len(),
    ensures
        spec_unlines_prefix(lines, k) == lines.first() + seq!['\n'] + spec_unlines_prefix(
            lines.drop_first(),
            (k - 1) as nat,
        ),
    decreases k,
{
    if k == 1 {
        assert(spec_unlines_prefix(lines, 0) == Seq::<char>::empty());
        assert(spec_unlines_prefix(lines.drop_first(), 0) == Seq::<char>::empty());
        assert(spec_unlines_prefix(lines, 1) =~= lines.first() + seq!['\n']);
        assert(spec_unlines_prefix(lines, 1) =~= lines.first() + seq!['\n']
            + spec_unlines_prefix(lines.drop_first(), 0));
    } else {
        lemma_unlines_shift(lines, (k - 1) as nat);
        assert(lines.drop_first()[k - 2] == lines[k - 1]);
        assert(spec_unlines_prefix(lines, k) =~= lines.first() + seq!['\n']
            + spec_unlines_prefix(lines.drop_first(), (k - 1) as nat));
    }
}

} // verus!
