//! Renders a single file's diff into a pre-rendered block: header and
//! separator, grouped imports, the per-analyzer issue sections, a note on
//! removed empty lines, and a footer, with the block's visible width
//! measured as it grows.

use vstd::prelude::*;

use crate::differ::display::formatting::measure_width;
use crate::differ::display::formatting::visible_width;
use crate::differ::display::grid::MIN_FILE_WIDTH;
use crate::differ::display::grouping::group_imports;
use crate::differ::display::grouping::spec_group_imports;
use crate::differ::display::types::RenderedFile;
use crate::differ::types::DiffEntry;
use crate::differ::types::FileDiff;
use crate::strutil::repeat_str;
use crate::strutil::spec_decimal;
use crate::strutil::spec_repeat;
use crate::strutil::str_eq;
use crate::strutil::usize_to_string;
use crate::style::spec_styled;
use crate::style::styled;

verus! {

/// A width, widened by a measured text where it is wider.
pub open spec fn spec_grow(w: int, s: Seq<char>) -> int {
    if visible_width(s) > w {
        visible_width(s) as int
    } else {
        w
    }
}

/// Widens the running maximum by the text's visible width.
pub fn note_width(max_width: &mut usize, s: &str)
    ensures
        *final(max_width) as int == spec_grow(*old(max_width) as int, s@),
{
    let m = measure_width(s);
    if m > *max_width {
        *max_width = m;
    }
}

/// A line, styled with the given code when color is on.
pub open spec fn spec_maybe_styled(code: Seq<char>, s: Seq<char>, color: bool) -> Seq<char> {
    if color {
        spec_styled(code, s)
    } else {
        s
    }
}

/// Styles the line with the given code when color is on.
pub fn maybe_styled(code: &str, s: String, color: bool) -> (r: String)
    ensures
        r@ == spec_maybe_styled(code@, s@, color),
{
    if color {
        styled(code, s.as_str())
    } else {
        s
    }
}

/// The header lines: the file's path and a separator.
pub open spec fn spec_header_lines(path: Seq<char>, color: bool) -> Seq<Seq<char>> {
    seq![
        spec_maybe_styled("1;36"@, "File: "@ + path, color),
        spec_maybe_styled("2"@, spec_repeat("\u{2500}"@, 40), color),
    ]
}

/// The width after the header: widened by the path line and separator.
pub open spec fn spec_header_width(w: int, path: Seq<char>) -> int {
    spec_grow(spec_grow(w, "File: "@ + path), spec_repeat("\u{2500}"@, 40))
}

/// Renders the file header with its path and a separator line.
pub fn render_header(lines: &mut Vec<String>, max_width: &mut usize, path: &str, color: bool)
    ensures
        final(lines)@.map_values(|l: String| l@) == old(lines)@.map_values(|l: String| l@)
            + spec_header_lines(path@, color),
        *final(max_width) as int == spec_header_width(*old(max_width) as int, path@),
{
    let ghost prev = lines@.map_values(|l: String| l@);
    let mut header = "File: ".to_owned();
    header.append(path);
    note_width(max_width, header.as_str());
    let h = maybe_styled("1;36", header, color);
    lines.push(h);
    let separator = repeat_str("\u{2500}", 40);
    note_width(max_width, separator.as_str());
    let s = maybe_styled("2", separator, color);
    lines.push(s);
    proof {
        assert(lines@.map_values(|l: String| l@) =~= prev + spec_header_lines(path@, color));
    }
}

/// The import statements carried by the entries, in entry order.
pub open spec fn spec_imports(entries: Seq<DiffEntry>) -> Seq<Seq<char>> {
    entries.filter(|e: DiffEntry| e.import is Some).map_values(|e: DiffEntry| e.import->0@)
}

proof fn lemma_imports_push(s: Seq<DiffEntry>, x: DiffEntry)
    ensures
        x.import is Some ==> spec_imports(s.push(x)) == spec_imports(s).push(x.import->0@),
        x.import is None ==> spec_imports(s.push(x)) == spec_imports(s),
{
    reveal(Seq::filter);
    assert(s.push(x).drop_last() =~= s);
    assert(s.push(x).last() == x);
    if x.import is Some {
        assert(spec_imports(s.push(x)) =~= spec_imports(s).push(x.import->0@));
    }
}

fn collect_imports(entries: &Vec<DiffEntry>) -> (r: Vec<String>)
    ensures
        r@.map_values(|p: String| p@) == spec_imports(entries@),
{
    let mut r: Vec<String> = Vec::new();
    let n = entries.len();
    let mut i: usize = 0;
    proof {
        reveal(Seq::filter);
        assert(entries@.subrange(0, 0) =~= Seq::<DiffEntry>::empty());
        assert(r@.map_values(|p: String| p@) =~= Seq::<Seq<char>>::empty());
        assert(spec_imports(entries@.subrange(0, 0)) =~= Seq::<Seq<char>>::empty());
    }
    while i < n
        invariant
            i <= n,
            n == entries@.len(),
            r@.map_values(|p: String| p@) == spec_imports(entries@.subrange(0, i as int)),
        decreases n - i,
    {
        proof {
            assert(entries@.subrange(0, i as int + 1) =~= entries@.subrange(0, i as int).push(
                entries@[i as int],
            ));
            lemma_imports_push(entries@.subrange(0, i as int), entries@[i as int]);
        }
        match &entries[i].import {
            Some(imp) => {
                let ghost prev = r@.map_values(|p: String| p@);
                r.push(imp.clone());
                proof {
                    assert(r@.map_values(|p: String| p@) =~= prev.push(
                        entries@[i as int].import->0@,
                    ));
                }
            },
            None => {},
        }
        i = i + 1;
    }
    proof {
        assert(entries@.subrange(0, n as int) =~= entries@);
    }
    r
}

/// Each grouped import as an addition line.
pub open spec fn spec_import_added_lines(grouped: Seq<Seq<char>>, color: bool) -> Seq<Seq<char>> {
    grouped.map_values(|g: Seq<char>| spec_maybe_styled("32"@, "+    "@ + g, color))
}

/// The import section lines: a heading, one addition line per grouped
/// import, and a blank line; nothing when no entry carries an import.
pub open spec fn spec_import_lines(entries: Seq<DiffEntry>, color: bool) -> Seq<Seq<char>> {
    if spec_imports(entries).len() == 0 {
        Seq::empty()
    } else {
        seq![spec_maybe_styled("2"@, "Imports (file top)"@, color)] + spec_import_added_lines(
            spec_group_imports(spec_imports(entries)),
            color,
        ) + seq![Seq::<char>::empty()]
    }
}

/// A width, widened by each of the texts.
pub open spec fn spec_grow_all(w: int, ss: Seq<Seq<char>>) -> int
    decreases ss.len(),
{
    if ss.len() == 0 {
        w
    } else {
        spec_grow_all(spec_grow(w, ss.first()), ss.drop_first())
    }
}

/// The width after the import section.
pub open spec fn spec_import_width(w: int, entries: Seq<DiffEntry>) -> int {
    if spec_imports(entries).len() == 0 {
        w
    } else {
        spec_grow_all(
            spec_grow(w, "Imports (file top)"@),
            spec_group_imports(spec_imports(entries)).map_values(|g: Seq<char>| "+    "@ + g),
        )
    }
}

/// Widening by one more text is widening by the whole list, then it.
pub proof fn lemma_grow_all_push_pub(w: int, ss: Seq<Seq<char>>, x: Seq<char>)
    ensures
        spec_grow_all(w, ss.push(x)) == spec_grow(spec_grow_all(w, ss), x),
    decreases ss.len(),
{
    lemma_grow_all_push(w, ss, x);
}

proof fn lemma_grow_all_push(w: int, ss: Seq<Seq<char>>, x: Seq<char>)
    ensures
        spec_grow_all(w, ss.push(x)) == spec_grow(spec_grow_all(w, ss), x),
    decreases ss.len(),
{
    if ss.len() == 0 {
        assert(ss.push(x).drop_last() =~= ss);
        assert(ss.push(x).drop_first() =~= Seq::<Seq<char>>::empty());
        assert(ss.push(x).first() == x);
        assert(spec_grow_all(w, ss.push(x)) == spec_grow_all(
            spec_grow(w, x),
            Seq::<Seq<char>>::empty(),
        ));
        assert(spec_grow_all(spec_grow(w, x), Seq::<Seq<char>>::empty()) == spec_grow(w, x));
        assert(spec_grow_all(w, ss) == w);
    } else {
        assert(ss.push(x).first() == ss.first());
        assert(ss.push(x).drop_first() =~= ss.drop_first().push(x));
        assert(spec_grow_all(w, ss.push(x)) == spec_grow_all(
            spec_grow(w, ss.first()),
            ss.drop_first().push(x),
        ));
        assert(spec_grow_all(w, ss) == spec_grow_all(spec_grow(w, ss.first()), ss.drop_first()));
        lemma_grow_all_push(spec_grow(w, ss.first()), ss.drop_first(), x);
    }
}

/// Renders the grouped import section, when any entry carries an import.
pub fn render_imports(lines: &mut Vec<String>, max_width: &mut usize, file: &FileDiff, color: bool)
    ensures
        final(lines)@.map_values(|l: String| l@) == old(lines)@.map_values(|l: String| l@)
            + spec_import_lines(file.entries@, color),
        *final(max_width) as int == spec_import_width(*old(max_width) as int, file.entries@),
{
    let ghost prev = lines@.map_values(|l: String| l@);
    let imports = collect_imports(&file.entries);
    if imports.len() == 0 {
        proof {
            assert(prev + spec_import_lines(file.entries@, color) =~= prev);
        }
        return ;
    }
    note_width(max_width, "Imports (file top)");
    let h = maybe_styled("2", "Imports (file top)".to_owned(), color);
    lines.push(h);
    let grouped = group_imports(&imports);
    let ghost grouped_views = spec_group_imports(spec_imports(file.entries@));
    let n = grouped.len();
    let mut i: usize = 0;
    proof {
        assert(grouped_views.subrange(0, 0) =~= Seq::<Seq<char>>::empty());
        assert(lines@.map_values(|l: String| l@) =~= prev + seq![
            spec_maybe_styled("2"@, "Imports (file top)"@, color),
        ] + spec_import_added_lines(grouped_views.subrange(0, 0), color));
        assert(grouped_views.subrange(0, 0).map_values(|g: Seq<char>| "+    "@ + g)
            =~= Seq::<Seq<char>>::empty());
    }
    while i < n
        invariant
            i <= n,
            n == grouped@.len(),
            grouped@.map_values(|p: String| p@) == grouped_views,
            lines@.map_values(|l: String| l@) == prev + seq![
                spec_maybe_styled("2"@, "Imports (file top)"@, color),
            ] + spec_import_added_lines(grouped_views.subrange(0, i as int), color),
            *max_width as int == spec_grow_all(
                spec_grow(*old(max_width) as int, "Imports (file top)"@),
                grouped_views.subrange(0, i as int).map_values(|g: Seq<char>| "+    "@ + g),
            ),
        decreases n - i,
    {
        let ghost lines_prev = lines@.map_values(|l: String| l@);
        let mut import_line = "+    ".to_owned();
        import_line.append(grouped[i].as_str());
        note_width(max_width, import_line.as_str());
        let styled_line = maybe_styled("32", import_line, color);
        lines.push(styled_line);
        proof {
            let gv = grouped_views[i as int];
            assert(grouped_views.subrange(0, i as int + 1) =~= grouped_views.subrange(
                0,
                i as int,
            ).push(gv));
            assert(spec_import_added_lines(grouped_views.subrange(0, i as int + 1), color)
                =~= spec_import_added_lines(grouped_views.subrange(0, i as int), color).push(
                spec_maybe_styled("32"@, "+    "@ + gv, color),
            ));
            assert(lines@.map_values(|l: String| l@) =~= lines_prev.push(
                spec_maybe_styled("32"@, "+    "@ + gv, color),
            ));
            assert(grouped_views.subrange(0, i as int + 1).map_values(
                |g: Seq<char>| "+    "@ + g,
            ) =~= grouped_views.subrange(0, i as int).map_values(|g: Seq<char>| "+    "@ + g).push(
                "+    "@ + gv,
            ));
            lemma_grow_all_push(
                spec_grow(*old(max_width) as int, "Imports (file top)"@),
                grouped_views.subrange(0, i as int).map_values(|g: Seq<char>| "+    "@ + g),
                "+    "@ + gv,
            );
        }
        i = i + 1;
    }
    let ghost lines_prev = lines@.map_values(|l: String| l@);
    lines.push(String::new());
    proof {
        assert(grouped_views.subrange(0, n as int) =~= grouped_views);
        assert(lines@.map_values(|l: String| l@) =~= lines_prev.push(Seq::<char>::empty()));
        assert(lines@.map_values(|l: String| l@) =~= prev + spec_import_lines(
            file.entries@,
            color,
        ));
    }
}

/// How many entries carry the analyzer's name.
pub open spec fn spec_count_analyzer(entries: Seq<DiffEntry>, name: Seq<char>) -> int
    decreases entries.len(),
{
    if entries.len() == 0 {
        0
    } else {
        spec_count_analyzer(entries.drop_last(), name) + if entries.last().analyzer@ == name {
            1 as int
        } else {
            0 as int
        }
    }
}

fn count_analyzer(entries: &Vec<DiffEntry>, name: &str) -> (r: usize)
    ensures
        r == spec_count_analyzer(entries@, name@),
{
    let mut count: usize = 0;
    let n = entries.len();
    let mut i: usize = 0;
    proof {
        assert(entries@.subrange(0, 0) =~= Seq::<DiffEntry>::empty());
    }
    while i < n
        invariant
            i <= n,
            n == entries@.len(),
            count <= i,
            count == spec_count_analyzer(entries@.subrange(0, i as int), name@),
        decreases n - i,
    {
        proof {
            assert(entries@.subrange(0, i as int + 1).drop_last() =~= entries@.subrange(
                0,
                i as int,
            ));
            assert(entries@.subrange(0, i as int + 1).last() == entries@[i as int]);
        }
        if str_eq(entries[i].analyzer.as_str(), name) {
            count = count + 1;
        }
        i = i + 1;
    }
    proof {
        assert(entries@.subrange(0, n as int) =~= entries@);
    }
    count
}

/// The lines of one issue entry: its line number, the removal, the
/// addition, and a blank line.
pub open spec fn spec_entry_lines(e: DiffEntry, color: bool) -> Seq<Seq<char>> {
    seq![
        spec_maybe_styled("36"@, "Line "@ + spec_decimal(e.line as nat), color),
        spec_maybe_styled("31"@, "-    "@ + e.original@, color),
        spec_maybe_styled("32"@, "+    "@ + e.modified@, color),
        Seq::<char>::empty(),
    ]
}

/// The width after one issue entry.
pub open spec fn spec_entry_width(w: int, e: DiffEntry) -> int {
    spec_grow(
        spec_grow(spec_grow(w, "Line "@ + spec_decimal(e.line as nat)), "-    "@ + e.original@),
        "+    "@ + e.modified@,
    )
}

/// Renders a single issue entry with its line changes.
pub fn render_issue_entry(
    lines: &mut Vec<String>,
    max_width: &mut usize,
    entry: &DiffEntry,
    color: bool,
)
    ensures
        final(lines)@.map_values(|l: String| l@) == old(lines)@.map_values(|l: String| l@)
            + spec_entry_lines(*entry, color),
        *final(max_width) as int == spec_entry_width(*old(max_width) as int, *entry),
{
    let ghost prev = lines@.map_values(|l: String| l@);
    let mut line_header = "Line ".to_owned();
    let num = usize_to_string(entry.line);
    line_header.append(num.as_str());
    note_width(max_width, line_header.as_str());
    lines.push(maybe_styled("36", line_header, color));
    let mut old_line = "-    ".to_owned();
    old_line.append(entry.original.as_str());
    note_width(max_width, old_line.as_str());
    lines.push(maybe_styled("31", old_line, color));
    let mut new_line = "+    ".to_owned();
    new_line.append(entry.modified.as_str());
    note_width(max_width, new_line.as_str());
    lines.push(maybe_styled("32", new_line, color));
    lines.push(String::new());
    proof {
        assert(lines@.map_values(|l: String| l@) =~= prev + spec_entry_lines(*entry, color));
    }
}

/// The issue section lines from entry `i` on, with `last` the heading
/// most recently emitted: entries of the empty-line analyzer are skipped,
/// a change of analyzer emits a heading with that analyzer's entry count,
/// and each entry contributes its before/after lines.
pub open spec fn spec_issue_lines(
    all: Seq<DiffEntry>,
    i: int,
    last: Seq<char>,
    color: bool,
) -> Seq<Seq<char>>
    decreases all.len() - i,
{
    if i < 0 || i >= all.len() {
        Seq::empty()
    } else {
        let e = all[i];
        if e.analyzer@ == "empty_lines"@ {
            spec_issue_lines(all, i + 1, last, color)
        } else if e.analyzer@ != last {
            let blank: Seq<Seq<char>> = if last.len() > 0 {
                seq![Seq::<char>::empty()]
            } else {
                Seq::empty()
            };
            let heading = e.analyzer@ + " ("@ + spec_decimal(
                spec_count_analyzer(all, e.analyzer@) as nat,
            ) + " issues)"@;
            blank + seq![
                spec_maybe_styled("1;32"@, heading, color),
                Seq::<char>::empty(),
            ] + spec_entry_lines(e, color) + spec_issue_lines(all, i + 1, e.analyzer@, color)
        } else {
            spec_entry_lines(e, color) + spec_issue_lines(all, i + 1, last, color)
        }
    }
}

/// The width after the issue section from entry `i` on.
pub open spec fn spec_issue_width(w: int, all: Seq<DiffEntry>, i: int, last: Seq<char>) -> int
    decreases all.len() - i,
{
    if i < 0 || i >= all.len() {
        w
    } else {
        let e = all[i];
        if e.analyzer@ == "empty_lines"@ {
            spec_issue_width(w, all, i + 1, last)
        } else if e.analyzer@ != last {
            let heading = e.analyzer@ + " ("@ + spec_decimal(
                spec_count_analyzer(all, e.analyzer@) as nat,
            ) + " issues)"@;
            spec_issue_width(spec_entry_width(spec_grow(w, heading), e), all, i + 1, e.analyzer@)
        } else {
            spec_issue_width(spec_entry_width(w, e), all, i + 1, last)
        }
    }
}

/// Renders all issues grouped by analyzer, skipping the empty-line
/// analyzer's entries, with a heading and entry count when the analyzer
/// changes.
pub fn render_issues(lines: &mut Vec<String>, max_width: &mut usize, file: &FileDiff, color: bool)
    ensures
        final(lines)@.map_values(|l: String| l@) == old(lines)@.map_values(|l: String| l@)
            + spec_issue_lines(file.entries@, 0, ""@, color),
        *final(max_width) as int == spec_issue_width(
            *old(max_width) as int,
            file.entries@,
            0,
            ""@,
        ),
{
    let ghost prev = lines@.map_values(|l: String| l@);
    let ghost w0 = *max_width as int;
    let ghost all = file.entries@;
    let mut last: String = String::new();
    let n = file.entries.len();
    let mut i: usize = 0;
    proof {
        reveal_strlit("");
        assert(last@ =~= ""@);
        assert(spec_issue_lines(all, 0, last@, color) == spec_issue_lines(all, 0, ""@, color));
        assert(spec_issue_width(w0, all, 0, last@) == spec_issue_width(w0, all, 0, ""@));
    }
    while i < n
        invariant
            i <= n,
            n == file.entries@.len(),
            all == file.entries@,
            prev + spec_issue_lines(all, 0, ""@, color) == lines@.map_values(|l: String| l@)
                + spec_issue_lines(all, i as int, last@, color),
            spec_issue_width(w0, all, 0, ""@) == spec_issue_width(
                *max_width as int,
                all,
                i as int,
                last@,
            ),
        decreases n - i,
    {
        let entry = &file.entries[i];
        if str_eq(entry.analyzer.as_str(), "empty_lines") {
            proof {
                reveal_strlit("empty_lines");
            }
            i = i + 1;
            continue ;
        }
        proof {
            reveal_strlit("empty_lines");
        }
        if !str_eq(entry.analyzer.as_str(), last.as_str()) {
            if last.unicode_len() > 0 {
                lines.push(String::new());
            }
            let count = count_analyzer(&file.entries, entry.analyzer.as_str());
            let mut analyzer_line = entry.analyzer.clone();
            analyzer_line.append(" (");
            let num = usize_to_string(count);
            analyzer_line.append(num.as_str());
            analyzer_line.append(" issues)");
            note_width(max_width, analyzer_line.as_str());
            lines.push(maybe_styled("1;32", analyzer_line, color));
            lines.push(String::new());
            last = entry.analyzer.clone();
        }
        render_issue_entry(lines, max_width, &file.entries[i], color);
        i = i + 1;
    }
    proof {
        assert(spec_issue_lines(all, n as int, last@, color) == Seq::<Seq<char>>::empty());
        assert(lines@.map_values(|l: String| l@) + Seq::<Seq<char>>::empty() =~= lines@.map_values(
            |l: String| l@,
        ));
        assert(spec_issue_width(*max_width as int, all, n as int, last@) == *max_width as int);
    }
}

/// The decimal texts of the lines the empty-line analyzer would remove.
pub open spec fn spec_note_numbers(entries: Seq<DiffEntry>) -> Seq<Seq<char>> {
    entries.filter(|e: DiffEntry| e.analyzer@ == "empty_lines"@).map_values(
        |e: DiffEntry| spec_decimal(e.line as nat),
    )
}

/// The wrapped note lines from number `i` on, with `current` the line
/// being filled: a number that would push the line past the width starts
/// a fresh line.
pub open spec fn spec_note_accum(
    nums: Seq<Seq<char>>,
    i: int,
    current: Seq<char>,
    mw: int,
    color: bool,
) -> Seq<Seq<char>>
    decreases nums.len() - i,
{
    if i < 0 || i >= nums.len() {
        if current.len() > 0 {
            seq![spec_maybe_styled("2;3"@, current, color)]
        } else {
            Seq::empty()
        }
    } else {
        let addition: Seq<char> = if i == 0 {
            nums[i]
        } else {
            ", "@ + nums[i]
        };
        if current.len() + addition.len() > mw && i > 0 {
            seq![spec_maybe_styled("2;3"@, current, color)] + spec_note_accum(
                nums,
                i + 1,
                " "@ + nums[i],
                mw,
                color,
            )
        } else {
            spec_note_accum(nums, i + 1, current + addition, mw, color)
        }
    }
}

/// The note prefix naming how many empty lines will be removed.
pub open spec fn spec_note_prefix(k: nat) -> Seq<char> {
    "Note: "@ + spec_decimal(k) + " empty "@ + (if k == 1 {
        "line"@
    } else {
        "lines"@
    }) + " will be removed from lines: "@
}

/// The note lines: nothing without empty-line entries, else the wrapped
/// list of their line numbers and a blank line.
pub open spec fn spec_note_lines(entries: Seq<DiffEntry>, mw: int, color: bool) -> Seq<Seq<char>> {
    let nums = spec_note_numbers(entries);
    if nums.len() == 0 {
        Seq::empty()
    } else {
        spec_note_accum(nums, 0, spec_note_prefix(nums.len()), mw, color) + seq![
            Seq::<char>::empty(),
        ]
    }
}

/// The width after the note: widened by each wrapped note line, the
/// wrap threshold being the width reached before the note. The wrapped
/// lines are the same text whether or not color is on, so the plain
/// form measures them.
pub open spec fn spec_note_width(w: int, entries: Seq<DiffEntry>) -> int {
    let nums = spec_note_numbers(entries);
    if nums.len() == 0 {
        w
    } else {
        spec_grow_all(w, spec_note_accum(nums, 0, spec_note_prefix(nums.len()), w, false))
    }
}

proof fn lemma_note_numbers_push(s: Seq<DiffEntry>, x: DiffEntry)
    ensures
        x.analyzer@ == "empty_lines"@ ==> spec_note_numbers(s.push(x)) == spec_note_numbers(
            s,
        ).push(spec_decimal(x.line as nat)),
        x.analyzer@ != "empty_lines"@ ==> spec_note_numbers(s.push(x)) == spec_note_numbers(s),
{
    reveal(Seq::filter);
    assert(s.push(x).drop_last() =~= s);
    assert(s.push(x).last() == x);
    if x.analyzer@ == "empty_lines"@ {
        assert(spec_note_numbers(s.push(x)) =~= spec_note_numbers(s).push(
            spec_decimal(x.line as nat),
        ));
    }
}

/// Renders the note on removed empty lines, wrapping the line-number
/// list at the width the block has reached, and widening the running
/// maximum by each note line it produces.
pub fn render_empty_lines_note(
    lines: &mut Vec<String>,
    max_width: &mut usize,
    file: &FileDiff,
    color: bool,
)
    ensures
        final(lines)@.map_values(|l: String| l@) == old(lines)@.map_values(|l: String| l@)
            + spec_note_lines(file.entries@, *old(max_width) as int, color),
        *final(max_width) as int == spec_note_width(*old(max_width) as int, file.entries@),
{
    let wrap_at: usize = *max_width;
    let ghost prev = lines@.map_values(|l: String| l@);
    let mut nums: Vec<String> = Vec::new();
    let n = file.entries.len();
    let mut i: usize = 0;
    proof {
        reveal(Seq::filter);
        assert(file.entries@.subrange(0, 0) =~= Seq::<DiffEntry>::empty());
        assert(nums@.map_values(|p: String| p@) =~= Seq::<Seq<char>>::empty());
        assert(spec_note_numbers(file.entries@.subrange(0, 0)) =~= Seq::<Seq<char>>::empty());
    }
    while i < n
        invariant
            i <= n,
            n == file.entries@.len(),
            nums@.map_values(|p: String| p@) == spec_note_numbers(
                file.entries@.subrange(0, i as int),
            ),
        decreases n - i,
    {
        proof {
            assert(file.entries@.subrange(0, i as int + 1) =~= file.entries@.subrange(
                0,
                i as int,
            ).push(file.entries@[i as int]));
            lemma_note_numbers_push(
                file.entries@.subrange(0, i as int),
                file.entries@[i as int],
            );
            reveal_strlit("empty_lines");
        }
        if str_eq(file.entries[i].analyzer.as_str(), "empty_lines") {
            let ghost prev_nums = nums@.map_values(|p: String| p@);
            nums.push(usize_to_string(file.entries[i].line));
            proof {
                assert(nums@.map_values(|p: String| p@) =~= prev_nums.push(
                    spec_decimal(file.entries@[i as int].line as nat),
                ));
            }
        }
        i = i + 1;
    }
    proof {
        assert(file.entries@.subrange(0, n as int) =~= file.entries@);
    }
    if nums.len() == 0 {
        proof {
            assert(prev + spec_note_lines(file.entries@, wrap_at as int, color) =~= prev);
            assert(spec_note_width(wrap_at as int, file.entries@) == wrap_at as int);
        }
        return ;
    }
    let ghost numviews = spec_note_numbers(file.entries@);
    let count = nums.len();
    let mut current = "Note: ".to_owned();
    let cnum = usize_to_string(count);
    current.append(cnum.as_str());
    current.append(" empty ");
    if count == 1 {
        current.append("line");
    } else {
        current.append("lines");
    }
    current.append(" will be removed from lines: ");
    proof {
        assert(current@ == spec_note_prefix(numviews.len()));
    }
    let mut j: usize = 0;
    let ghost w0 = *max_width as int;
    while j < count
        invariant
            j <= count,
            count == nums@.len(),
            numviews == nums@.map_values(|p: String| p@),
            prev + spec_note_accum(numviews, 0, spec_note_prefix(numviews.len()), wrap_at as int, color)
                == lines@.map_values(|l: String| l@) + spec_note_accum(
                numviews,
                j as int,
                current@,
                wrap_at as int,
                color,
            ),
            spec_grow_all(
                w0,
                spec_note_accum(
                    numviews,
                    0,
                    spec_note_prefix(numviews.len()),
                    wrap_at as int,
                    false,
                ),
            ) == spec_grow_all(
                *max_width as int,
                spec_note_accum(numviews, j as int, current@, wrap_at as int, false),
            ),
        decreases count - j,
    {
        let addition = if j == 0 {
            nums[j].clone()
        } else {
            let mut a = ", ".to_owned();
            a.append(nums[j].as_str());
            a
        };
        let over = match current.unicode_len().checked_add(addition.unicode_len()) {
            Some(t) => t > wrap_at,
            None => true,
        };
        if over && j > 0 {
            let ghost cur = current@;
            let ghost mw_before = *max_width as int;
            note_width(max_width, current.as_str());
            lines.push(maybe_styled("2;3", current, color));
            let mut fresh = " ".to_owned();
            fresh.append(nums[j].as_str());
            current = fresh;
            proof {
                let rest = spec_note_accum(
                    numviews,
                    j as int + 1,
                    current@,
                    wrap_at as int,
                    false,
                );
                assert((seq![cur] + rest).drop_first() =~= rest);
                assert((seq![cur] + rest)[0] == cur);
                assert(spec_grow_all(mw_before, seq![cur] + rest) == spec_grow_all(
                    spec_grow(mw_before, cur),
                    rest,
                ));
            }
        } else {
            current.append(addition.as_str());
        }
        j = j + 1;
    }
    proof {
        assert(spec_note_accum(numviews, count as int, current@, wrap_at as int, color) == (
        if current@.len() > 0 {
            seq![spec_maybe_styled("2;3"@, current@, color)]
        } else {
            Seq::<Seq<char>>::empty()
        }));
    }
    let ghost before_tail = lines@.map_values(|l: String| l@);
    let ghost cur_view = current@;
    let ghost tail = spec_note_accum(numviews, count as int, cur_view, wrap_at as int, color);
    let ghost plain_tail = spec_note_accum(numviews, count as int, cur_view, wrap_at as int, false);
    let ghost mw_tail = *max_width as int;
    if current.unicode_len() > 0 {
        note_width(max_width, current.as_str());
        lines.push(maybe_styled("2;3", current, color));
        proof {
            assert(lines@.map_values(|l: String| l@) =~= before_tail.push(
                spec_maybe_styled("2;3"@, cur_view, color),
            ));
            assert(lines@.map_values(|l: String| l@) =~= before_tail + tail);
            assert(plain_tail == seq![cur_view]);
            assert((seq![cur_view] + Seq::<Seq<char>>::empty()) =~= seq![cur_view]);
            assert(seq![cur_view].drop_first() =~= Seq::<Seq<char>>::empty());
            assert(seq![cur_view].first() == cur_view);
            assert(spec_grow_all(
                spec_grow(mw_tail, cur_view),
                Seq::<Seq<char>>::empty(),
            ) == spec_grow(mw_tail, cur_view));
            assert(spec_grow_all(mw_tail, plain_tail) == spec_grow(mw_tail, cur_view));
        }
    } else {
        proof {
            assert(lines@.map_values(|l: String| l@) =~= before_tail + tail);
            assert(plain_tail =~= Seq::<Seq<char>>::empty());
            assert(spec_grow_all(mw_tail, plain_tail) == mw_tail);
        }
    }
    let ghost with_tail = lines@.map_values(|l: String| l@);
    lines.push(String::new());
    proof {
        assert(lines@.map_values(|l: String| l@) =~= with_tail.push(Seq::<char>::empty()));
        assert(with_tail =~= prev + spec_note_accum(
            numviews,
            0,
            spec_note_prefix(numviews.len()),
            wrap_at as int,
            color,
        ));
        assert(lines@.map_values(|l: String| l@) =~= prev + spec_note_lines(
            file.entries@,
            wrap_at as int,
            color,
        ));
        assert(*max_width as int == spec_note_width(wrap_at as int, file.entries@));
    }
}

/// The footer line: a closing separator.
pub open spec fn spec_footer_lines(color: bool) -> Seq<Seq<char>> {
    seq![spec_maybe_styled("2"@, spec_repeat("\u{2550}"@, 40), color)]
}

/// The width after the footer.
pub open spec fn spec_footer_width(w: int) -> int {
    spec_grow(w, spec_repeat("\u{2550}"@, 40))
}

/// Renders the closing separator.
pub fn render_footer(lines: &mut Vec<String>, max_width: &mut usize, color: bool)
    ensures
        final(lines)@.map_values(|l: String| l@) == old(lines)@.map_values(|l: String| l@)
            + spec_footer_lines(color),
        *final(max_width) as int == spec_footer_width(*old(max_width) as int),
{
    let ghost prev = lines@.map_values(|l: String| l@);
    let end_separator = repeat_str("\u{2550}", 40);
    note_width(max_width, end_separator.as_str());
    lines.push(maybe_styled("2", end_separator, color));
    proof {
        assert(lines@.map_values(|l: String| l@) =~= prev + spec_footer_lines(color));
    }
}

/// The width reached after header, imports and issues; the note wraps its
/// list at this width.
pub open spec fn spec_width_before_note(file: FileDiff) -> int {
    spec_issue_width(
        spec_import_width(spec_header_width(0, file.path@), file.entries@),
        file.entries@,
        0,
        ""@,
    )
}

/// All lines of one file's rendered block, in order: header, grouped
/// imports, issue sections, empty-line note, footer.
pub open spec fn spec_block_lines(file: FileDiff, color: bool) -> Seq<Seq<char>> {
    spec_header_lines(file.path@, color) + spec_import_lines(file.entries@, color)
        + spec_issue_lines(file.entries@, 0, ""@, color) + spec_note_lines(
        file.entries@,
        spec_width_before_note(file),
        color,
    ) + spec_footer_lines(color)
}

/// The visible width of one file's rendered block: the widest measured
/// line, the note lines included, floored at the minimum block width.
pub open spec fn spec_block_width(file: FileDiff) -> int {
    let w = spec_footer_width(
        spec_note_width(spec_width_before_note(file), file.entries@),
    );
    if w > MIN_FILE_WIDTH as int {
        w
    } else {
        MIN_FILE_WIDTH as int
    }
}

/// Renders a single file diff into a block of output lines with its
/// measured visible width: the header and separator, the grouped import
/// section, the issues grouped by analyzer, the note on removed empty
/// lines, and a footer; the width is the widest visible line, floored at
/// the minimum block width.
pub fn render_file_block(file: &FileDiff, color: bool) -> (r: RenderedFile)
    ensures
        r.lines@.map_values(|l: String| l@) == spec_block_lines(*file, color),
        r.width as int == spec_block_width(*file),
{
    let cap: usize = match file.entries.len().checked_mul(5) {
        Some(x) => match x.checked_add(20) {
            Some(y) => y,
            None => 20,
        },
        None => 20,
    };
    let mut lines: Vec<String> = Vec::with_capacity(cap);
    let mut max_width: usize = 0;
    proof {
        assert(lines@.map_values(|l: String| l@) =~= Seq::<Seq<char>>::empty());
    }
    render_header(&mut lines, &mut max_width, file.path.as_str(), color);
    render_imports(&mut lines, &mut max_width, file, color);
    render_issues(&mut lines, &mut max_width, file, color);
    render_empty_lines_note(&mut lines, &mut max_width, file, color);
    render_footer(&mut lines, &mut max_width, color);
    let width = if max_width > MIN_FILE_WIDTH {
        max_width
    } else {
        MIN_FILE_WIDTH
    };
    proof {
        assert(lines@.map_values(|l: String| l@) =~= spec_block_lines(*file, color));
    }
    RenderedFile { lines, width }
}

/// The analyzers of the entries, in first-seen order, each with how many
/// entries carry it.
pub open spec fn spec_analyzer_counts(entries: Seq<DiffEntry>) -> Seq<(Seq<char>, int)> {
    crate::strutil::spec_dedup(entries.map_values(|e: DiffEntry| e.analyzer@)).map_values(
        |name: Seq<char>| (name, spec_count_analyzer(entries, name)),
    )
}

/// Counts a file's entries per analyzer, analyzers in first-seen order.
pub fn analyzer_counts(file: &FileDiff) -> (r: Vec<(String, usize)>)
    ensures
        r@.map_values(|p: (String, usize)| (p.0@, p.1 as int)) == spec_analyzer_counts(
            file.entries@,
        ),
{
    let ghost target = spec_analyzer_counts(file.entries@);
    let mut names: Vec<String> = Vec::new();
    let n = file.entries.len();
    let mut i: usize = 0;
    proof {
        assert(names@.map_values(|p: String| p@) =~= file.entries@.subrange(0, 0).map_values(
            |e: DiffEntry| e.analyzer@,
        ));
    }
    while i < n
        invariant
            i <= n,
            n == file.entries@.len(),
            names@.map_values(|p: String| p@) == file.entries@.subrange(0, i as int).map_values(
                |e: DiffEntry| e.analyzer@,
            ),
        decreases n - i,
    {
        let ghost prev = names@.map_values(|p: String| p@);
        names.push(file.entries[i].analyzer.clone());
        proof {
            assert(names@.map_values(|p: String| p@) =~= prev.push(
                file.entries@[i as int].analyzer@,
            ));
            assert(file.entries@.subrange(0, i as int + 1).map_values(
                |e: DiffEntry| e.analyzer@,
            ) =~= file.entries@.subrange(0, i as int).map_values(|e: DiffEntry| e.analyzer@).push(
                file.entries@[i as int].analyzer@,
            ));
        }
        i = i + 1;
    }
    proof {
        assert(file.entries@.subrange(0, n as int) =~= file.entries@);
    }
    let unique = crate::strutil::dedup_strings(&names);
    let ghost uview = crate::strutil::spec_dedup(
        file.entries@.map_values(|e: DiffEntry| e.analyzer@),
    );
    let mut r: Vec<(String, usize)> = Vec::new();
    let m = unique.len();
    let mut j: usize = 0;
    proof {
        assert(uview.len() == m);
        assert(r@.map_values(|p: (String, usize)| (p.0@, p.1 as int)) =~= uview.subrange(
            0,
            0,
        ).map_values(|name: Seq<char>| (name, spec_count_analyzer(file.entries@, name))));
    }
    while j < m
        invariant
            j <= m,
            m == unique@.len(),
            uview == unique@.map_values(|p: String| p@),
            uview.len() == m,
            r@.map_values(|p: (String, usize)| (p.0@, p.1 as int)) == uview.subrange(
                0,
                j as int,
            ).map_values(|name: Seq<char>| (name, spec_count_analyzer(file.entries@, name))),
        decreases m - j,
    {
        let count = count_analyzer(&file.entries, unique[j].as_str());
        let ghost prev = r@.map_values(|p: (String, usize)| (p.0@, p.1 as int));
        r.push((unique[j].clone(), count));
        proof {
            assert(r@.map_values(|p: (String, usize)| (p.0@, p.1 as int)) =~= prev.push(
                (uview[j as int], spec_count_analyzer(file.entries@, uview[j as int])),
            ));
            assert(uview.subrange(0, j as int + 1).map_values(
                |name: Seq<char>| (name, spec_count_analyzer(file.entries@, name)),
            ) =~= uview.subrange(0, j as int).map_values(
                |name: Seq<char>| (name, spec_count_analyzer(file.entries@, name)),
            ).push((uview[j as int], spec_count_analyzer(file.entries@, uview[j as int]))));
        }
        j = j + 1;
    }
    proof {
        assert(uview.subrange(0, m as int) =~= uview);
    }
    r
}

} // verus!
