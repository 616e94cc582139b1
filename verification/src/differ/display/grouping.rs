//! Import grouping: deduplicates recommended `use` statements, groups them
//! by root module in alphabetical order, extracts the longest common
//! `::`-delimited prefix within each group, and formats each group as one
//! compact `use` statement.

use vstd::prelude::*;

use crate::strutil::dedup_strings;
use crate::strutil::ends_with;
use crate::strutil::find_sub;
use crate::strutil::join_with;
use crate::strutil::lemma_spec_find;
use crate::strutil::lex_le;
use crate::strutil::lex_leq;
use crate::strutil::sort_strings;
use crate::strutil::spec_dedup;
use crate::strutil::spec_find;
use crate::strutil::spec_join;
use crate::strutil::spec_split;
use crate::strutil::spec_strip_prefix_all;
use crate::strutil::spec_strip_suffix_all;
use crate::strutil::spec_trim;
use crate::strutil::split_by;
use crate::strutil::starts_with;
use crate::strutil::str_eq;
use crate::strutil::str_le;
use crate::strutil::strip_prefix_all;
use crate::strutil::strip_suffix_all;
use crate::strutil::trim_ascii;

verus! {

/// The imports recommended for one root module, in insertion order.
pub struct ImportGroup {
    /// The root module the group is keyed by.
    pub root: String,
    /// The paths under that root; an empty path stands for a bare import
    /// of the root itself.
    pub paths: Vec<String>,
}

/// A group as its views: the root and the path texts.
pub open spec fn group_view(g: ImportGroup) -> (Seq<char>, Seq<Seq<char>>) {
    (g.root@, g.paths@.map_values(|p: String| p@))
}

/// A group list as its views.
pub open spec fn groups_view(gs: Seq<ImportGroup>) -> Seq<(Seq<char>, Seq<Seq<char>>)> {
    gs.map_values(|g: ImportGroup| group_view(g))
}

/// An import statement without its `use ` prefix, trailing semicolons and
/// surrounding whitespace.
pub open spec fn spec_normalize(s: Seq<char>) -> Seq<char> {
    spec_trim(spec_strip_suffix_all(spec_strip_prefix_all(s, "use "@), ";"@))
}

/// Strips the `use ` prefix, trailing semicolons and whitespace.
pub fn normalize_import(s: &str) -> (r: String)
    ensures
        r@ == spec_normalize(s@),
{
    let a = strip_prefix_all(s, "use ");
    let b = strip_suffix_all(a.as_str(), ";");
    trim_ascii(b.as_str())
}

/// The root module of a normalized import: everything before the first
/// `::`, or the whole text when there is none.
pub open spec fn spec_root(p: Seq<char>) -> Seq<char> {
    match spec_find(p, "::"@, 0) {
        Some(i) => p.subrange(0, i as int),
        None => p,
    }
}

/// The path of a normalized import: everything after the first `::`, or
/// empty when there is none.
pub open spec fn spec_path(p: Seq<char>) -> Seq<char> {
    match spec_find(p, "::"@, 0) {
        Some(i) => p.subrange(i + "::"@.len() as int, p.len() as int),
        None => Seq::empty(),
    }
}

/// Splits a normalized import at its first `::` into root and path.
pub fn split_root(p: &str) -> (r: (String, String))
    ensures
        r.0@ == spec_root(p@),
        r.1@ == spec_path(p@),
{
    proof {
        reveal_strlit("::");
    }
    match find_sub(p, "::") {
        Some(i) => {
            proof {
                lemma_spec_find(p@, "::"@, 0);
            }
            let n = p.unicode_len();
            (p.substring_char(0, i).to_owned(), p.substring_char(i + 2, n).to_owned())
        },
        None => (p.to_owned(), String::new()),
    }
}

/// Where a root belongs among sorted groups: an equal root takes the new
/// path in, a smaller root starts a new group in front, and a larger root
/// walks past the head.
pub open spec fn spec_insert_group(
    gs: Seq<(Seq<char>, Seq<Seq<char>>)>,
    root: Seq<char>,
    path: Seq<char>,
) -> Seq<(Seq<char>, Seq<Seq<char>>)>
    decreases gs.len(),
{
    if gs.len() == 0 {
        seq![(root, seq![path])]
    } else if gs[0].0 == root {
        seq![(root, gs[0].1.push(path))] + gs.drop_first()
    } else if lex_le(root, gs[0].0) {
        seq![(root, seq![path])] + gs
    } else {
        seq![gs[0]] + spec_insert_group(gs.drop_first(), root, path)
    }
}

/// The groups of a list of normalized imports, built one import at a time.
pub open spec fn spec_build_groups(items: Seq<Seq<char>>) -> Seq<(Seq<char>, Seq<Seq<char>>)>
    decreases items.len(),
{
    if items.len() == 0 {
        Seq::empty()
    } else {
        spec_insert_group(
            spec_build_groups(items.drop_last()),
            spec_root(items.last()),
            spec_path(items.last()),
        )
    }
}

fn insert_group(groups: Vec<ImportGroup>, root: String, path: String) -> (r: Vec<ImportGroup>)
    ensures
        groups_view(r@) == spec_insert_group(groups_view(groups@), root@, path@),
    decreases groups@.len(),
{
    let mut groups = groups;
    let ghost entry = groups@;
    if groups.len() == 0 {
        let mut paths: Vec<String> = Vec::new();
        paths.push(path);
        let g = ImportGroup { root, paths };
        let ghost gv = group_view(g);
        groups.push(g);
        proof {
            assert(gv.1 =~= seq![path@]);
            assert(groups_view(groups@) =~= seq![gv]);
        }
        groups
    } else {
        let first = groups.remove(0);
        let ghost old_groups = seq![first].add(groups@);
        proof {
            assert(entry =~= old_groups);
            assert(groups_view(old_groups) =~= seq![group_view(first)] + groups_view(groups@));
            assert(groups_view(entry)[0] == group_view(first));
            assert(groups_view(entry).drop_first() =~= groups_view(groups@));
        }
        if str_eq(first.root.as_str(), root.as_str()) {
            let mut first = first;
            let ghost old_paths = first.paths@.map_values(|p: String| p@);
            first.paths.push(path);
            proof {
                assert(first.paths@.map_values(|p: String| p@) =~= old_paths.push(path@));
            }
            groups.insert(0, first);
            proof {
                assert(groups_view(groups@) =~= seq![
                    (root@, old_paths.push(path@)),
                ] + groups_view(old_groups).drop_first());
            }
            groups
        } else if str_le(root.as_str(), first.root.as_str()) {
            groups.insert(0, first);
            let mut paths: Vec<String> = Vec::new();
            paths.push(path);
            let g = ImportGroup { root, paths };
            let ghost gv = group_view(g);
            groups.insert(0, g);
            proof {
                assert(gv.1 =~= seq![path@]);
                assert(groups_view(groups@) =~= seq![gv] + groups_view(old_groups));
            }
            groups
        } else {
            let ghost tail_view = groups_view(groups@);
            let mut rest = insert_group(groups, root, path);
            let ghost rest_view = groups_view(rest@);
            rest.insert(0, first);
            proof {
                assert(groups_view(old_groups).drop_first() =~= tail_view);
                assert(groups_view(rest@) =~= seq![group_view(first)] + rest_view);
            }
            rest
        }
    }
}

/// Groups normalized imports by root module, roots in alphabetical order,
/// paths in first-seen order within each group.
pub fn build_groups(items: &Vec<String>) -> (r: Vec<ImportGroup>)
    ensures
        groups_view(r@) == spec_build_groups(items@.map_values(|p: String| p@)),
{
    let ghost views = items@.map_values(|p: String| p@);
    let mut r: Vec<ImportGroup> = Vec::new();
    let n = items.len();
    let mut i: usize = 0;
    proof {
        assert(views.subrange(0, 0) =~= Seq::<Seq<char>>::empty());
        assert(groups_view(r@) =~= Seq::<(Seq<char>, Seq<Seq<char>>)>::empty());
    }
    while i < n
        invariant
            i <= n,
            n == items@.len(),
            views == items@.map_values(|p: String| p@),
            groups_view(r@) == spec_build_groups(views.subrange(0, i as int)),
        decreases n - i,
    {
        let (root, path) = split_root(items[i].as_str());
        r = insert_group(r, root, path);
        proof {
            assert(views.subrange(0, i as int + 1).drop_last() =~= views.subrange(0, i as int));
            assert(views.subrange(0, i as int + 1).last() == views[i as int]);
        }
        i = i + 1;
    }
    proof {
        assert(views.subrange(0, n as int) =~= views);
    }
    r
}

/// The components of a path, split at `::`.
pub open spec fn components(p: Seq<char>) -> Seq<Seq<char>> {
    spec_split(p, "::"@)
}

/// All paths agree with the first one on the component at position `i`.
pub open spec fn all_equal_at(parts: Seq<Seq<Seq<char>>>, i: int) -> bool {
    forall|k: int| 0 <= k < parts.len() ==> i < (#[trigger] parts[k]).len() && parts[k][i]
        == parts[0][i]
}

/// The number of leading components shared by all paths, counting up
/// from position `i`.
pub open spec fn spec_common_count(parts: Seq<Seq<Seq<char>>>, i: nat) -> nat
    decreases (if parts.len() > 0 {
        parts[0].len()
    } else {
        0
    }) - i,
{
    if parts.len() == 0 {
        i
    } else if i < parts[0].len() && all_equal_at(parts, i as int) {
        spec_common_count(parts, i + 1)
    } else {
        i
    }
}

/// The longest common `::`-delimited prefix of the paths; empty for fewer
/// than two paths or when the first components already differ.
pub open spec fn spec_common_prefix(paths: Seq<Seq<char>>) -> Seq<char> {
    if paths.len() <= 1 {
        Seq::empty()
    } else {
        let parts = paths.map_values(|p: Seq<char>| components(p));
        let c = spec_common_count(parts, 0);
        if c > 0 {
            spec_join(parts[0].take(c as int), "::"@)
        } else {
            Seq::empty()
        }
    }
}

/// Finds the longest common `::`-delimited prefix shared by all paths,
/// comparing component-wise and stopping at the first mismatch; a list of
/// fewer than two paths has no common prefix.
pub fn find_common_prefix(paths: &Vec<String>) -> (r: String)
    ensures
        r@ == spec_common_prefix(paths@.map_values(|p: String| p@)),
{
    let ghost views = paths@.map_values(|p: String| p@);
    let ghost partviews = views.map_values(|p: Seq<char>| components(p));
    if paths.len() <= 1 {
        return String::new();
    }
    let mut parts: Vec<Vec<String>> = Vec::new();
    let n = paths.len();
    let mut i: usize = 0;
    proof {
        reveal_strlit("::");
    }
    while i < n
        invariant
            i <= n,
            n == paths@.len(),
            views == paths@.map_values(|p: String| p@),
            partviews == views.map_values(|p: Seq<char>| components(p)),
            parts@.len() == i,
            forall|k: int|
                0 <= k < i ==> (#[trigger] parts@[k])@.map_values(|c: String| c@)
                    == partviews[k],
        decreases n - i,
    {
        proof {
            reveal_strlit("::");
        }
        let piece = split_by(paths[i].as_str(), "::");
        parts.push(piece);
        i = i + 1;
    }
    let mut c: usize = 0;
    let first_len = parts[0].len();
    proof {
        assert(parts@[0]@.map_values(|c2: String| c2@) == partviews[0]);
        assert(first_len == partviews[0].len());
    }
    loop
        invariant
            n == paths@.len(),
            n >= 2,
            parts@.len() == n,
            views == paths@.map_values(|p: String| p@),
            partviews == views.map_values(|p: Seq<char>| components(p)),
            forall|k: int|
                0 <= k < n ==> (#[trigger] parts@[k])@.map_values(|c2: String| c2@)
                    == partviews[k],
            first_len == partviews[0].len(),
            c <= first_len,
            spec_common_count(partviews, 0) == spec_common_count(partviews, c as nat),
        ensures
            c <= first_len,
            spec_common_count(partviews, 0) == c,
        decreases first_len - c,
    {
        if c >= first_len {
            proof {
                assert(spec_common_count(partviews, c as nat) == c);
            }
            break ;
        }
        let mut k: usize = 1;
        let mut ok = true;
        while k < n
            invariant
                1 <= k <= n,
                n == paths@.len(),
                parts@.len() == n,
                partviews.len() == n,
                forall|k2: int|
                    0 <= k2 < n ==> (#[trigger] parts@[k2])@.map_values(|c2: String| c2@)
                        == partviews[k2],
                c < first_len,
                first_len == partviews[0].len(),
                ok ==> forall|k2: int|
                    0 <= k2 < k ==> c < (#[trigger] partviews[k2]).len() && partviews[k2][c as int]
                        == partviews[0][c as int],
                !ok ==> !all_equal_at(partviews, c as int),
            decreases n - k,
        {
            let ghost kk = k as int;
            proof {
                assert(parts@[kk]@.map_values(|c2: String| c2@) == partviews[kk]);
                assert(parts@[0]@.map_values(|c2: String| c2@) == partviews[0]);
                assert(partviews.len() == n);
            }
            if parts[k].len() <= c {
                proof {
                    assert(partviews[kk].len() == parts@[kk]@.len());
                    assert(!(c < partviews[kk].len()));
                    assert(!all_equal_at(partviews, c as int)) by {
                        assert(0 <= kk < partviews.len() && !(c < partviews[kk].len()
                            && partviews[kk][c as int] == partviews[0][c as int]));
                    }
                }
                ok = false;
                k = n;
            } else if !str_eq(parts[k][c].as_str(), parts[0][c].as_str()) {
                proof {
                    assert(partviews[kk][c as int] == parts@[kk]@[c as int]@);
                    assert(partviews[0][c as int] == parts@[0]@[c as int]@);
                    assert(partviews[kk][c as int] != partviews[0][c as int]);
                    assert(!all_equal_at(partviews, c as int)) by {
                        assert(0 <= kk < partviews.len() && !(c < partviews[kk].len()
                            && partviews[kk][c as int] == partviews[0][c as int]));
                    }
                }
                ok = false;
                k = n;
            } else {
                proof {
                    assert(partviews[kk][c as int] == partviews[0][c as int]);
                }
                k = k + 1;
            }
        }
        if ok {
            proof {
                assert(all_equal_at(partviews, c as int));
            }
            c = c + 1;
        } else {
            proof {
                assert(spec_common_count(partviews, c as nat) == c);
            }
            break ;
        }
    }
    if c == 0 {
        return String::new();
    }
    let mut head: Vec<String> = Vec::new();
    let mut j: usize = 0;
    while j < c
        invariant
            j <= c,
            c <= first_len,
            parts@.len() == n,
            n >= 1,
            first_len == partviews[0].len(),
            forall|k2: int|
                0 <= k2 < n ==> (#[trigger] parts@[k2])@.map_values(|c2: String| c2@)
                    == partviews[k2],
            head@.map_values(|c2: String| c2@) == partviews[0].subrange(0, j as int),
        decreases c - j,
    {
        let ghost prev = head@.map_values(|c2: String| c2@);
        head.push(parts[0][j].clone());
        proof {
            assert(head@.map_values(|c2: String| c2@) =~= prev.push(partviews[0][j as int]));
            assert(partviews[0].subrange(0, j as int + 1) =~= partviews[0].subrange(
                0,
                j as int,
            ).push(partviews[0][j as int]));
        }
        j = j + 1;
    }
    proof {
        assert(partviews[0].subrange(0, c as int) =~= partviews[0].take(c as int));
    }
    join_with(&head, "::")
}

/// The path with a leading `pre` removed, or unchanged when `pre` is not
/// its prefix.
pub open spec fn spec_strip_lead(p: Seq<char>, pre: Seq<char>) -> Seq<char> {
    if pre.is_prefix_of(p) {
        p.skip(pre.len() as int)
    } else {
        p
    }
}

fn strip_lead(p: &str, pre: &str) -> (r: String)
    ensures
        r@ == spec_strip_lead(p@, pre@),
{
    if starts_with(p, pre) {
        let n = p.unicode_len();
        let m = pre.unicode_len();
        proof {
            assert(p@.subrange(m as int, n as int) =~= p@.skip(m as int));
        }
        p.substring_char(m, n).to_owned()
    } else {
        p.to_owned()
    }
}

/// One formatted `use` statement for a group: a single path is emitted
/// directly, several are sorted, their common prefix is pulled out, and
/// the remainders stand in braces.
pub open spec fn spec_format_group(root: Seq<char>, paths: Seq<Seq<char>>) -> Seq<char> {
    if paths.len() == 1 && paths[0].len() > 0 {
        "use "@ + root + "::"@ + paths[0] + ";"@
    } else if paths.len() == 1 {
        "use "@ + root + ";"@
    } else {
        let sorted = paths.sort_by(lex_leq());
        let cp = spec_common_prefix(sorted);
        if cp.len() > 0 {
            let pw = if (cp + "::"@).is_prefix_of(sorted[0]) {
                cp + "::"@
            } else {
                cp
            };
            let suffixes = sorted.map_values(|p: Seq<char>| spec_strip_lead(p, pw));
            if "::"@.is_suffix_of(pw) {
                "use "@ + root + "::"@ + cp + "::{"@ + spec_join(suffixes, ", "@) + "};"@
            } else {
                "use "@ + root + "::{"@ + spec_join(suffixes, ", "@) + "};"@
            }
        } else {
            "use "@ + root + "::{"@ + spec_join(sorted, ", "@) + "};"@
        }
    }
}

/// Formats one group as a `use` statement.
pub fn format_group(root: &str, paths: &Vec<String>) -> (r: String)
    ensures
        r@ == spec_format_group(root@, paths@.map_values(|p: String| p@)),
{
    let ghost views = paths@.map_values(|p: String| p@);
    if paths.len() == 1 && paths[0].unicode_len() > 0 {
        let mut r = "use ".to_owned();
        r.append(root);
        r.append("::");
        r.append(paths[0].as_str());
        r.append(";");
        r
    } else if paths.len() == 1 {
        let mut r = "use ".to_owned();
        r.append(root);
        r.append(";");
        r
    } else {
        let sorted = sort_strings(paths);
        let ghost sorted_views = views.sort_by(lex_leq());
        let cp = find_common_prefix(&sorted);
        if cp.unicode_len() > 0 {
            proof {
                crate::strutil::lemma_lex_total_ordering();
                views.lemma_sort_by_ensures(lex_leq());
            }
            let mut cp_sep = cp.clone();
            cp_sep.append("::");
            let pw = if sorted.len() > 0 && starts_with(sorted[0].as_str(), cp_sep.as_str()) {
                cp_sep
            } else {
                cp.clone()
            };
            let mut suffixes: Vec<String> = Vec::new();
            let n = sorted.len();
            let mut i: usize = 0;
            while i < n
                invariant
                    i <= n,
                    n == sorted@.len(),
                    sorted_views == sorted@.map_values(|p: String| p@),
                    suffixes@.map_values(|p: String| p@) == sorted_views.subrange(
                        0,
                        i as int,
                    ).map_values(|p: Seq<char>| spec_strip_lead(p, pw@)),
                decreases n - i,
            {
                let ghost prev = suffixes@.map_values(|p: String| p@);
                suffixes.push(strip_lead(sorted[i].as_str(), pw.as_str()));
                proof {
                    assert(suffixes@.map_values(|p: String| p@) =~= prev.push(
                        spec_strip_lead(sorted_views[i as int], pw@),
                    ));
                    assert(sorted_views.subrange(0, i as int + 1).map_values(
                        |p: Seq<char>| spec_strip_lead(p, pw@),
                    ) =~= sorted_views.subrange(0, i as int).map_values(
                        |p: Seq<char>| spec_strip_lead(p, pw@),
                    ).push(spec_strip_lead(sorted_views[i as int], pw@)));
                }
                i = i + 1;
            }
            proof {
                assert(sorted_views.subrange(0, n as int) =~= sorted_views);
            }
            let joined = join_with(&suffixes, ", ");
            let mut r = "use ".to_owned();
            r.append(root);
            if ends_with(pw.as_str(), "::") {
                r.append("::");
                r.append(cp.as_str());
                r.append("::{");
                r.append(joined.as_str());
                r.append("};");
            } else {
                r.append("::{");
                r.append(joined.as_str());
                r.append("};");
            }
            r
        } else {
            proof {
                crate::strutil::lemma_lex_total_ordering();
                views.lemma_sort_by_ensures(lex_leq());
            }
            let joined = join_with(&sorted, ", ");
            let mut r = "use ".to_owned();
            r.append(root);
            r.append("::{");
            r.append(joined.as_str());
            r.append("};");
            r
        }
    }
}

/// The grouped statements of a list of raw import statements: exact
/// duplicates removed, each import normalized, grouped by root module in
/// alphabetical order, and each group formatted as one `use` statement.
pub open spec fn spec_group_imports(imports: Seq<Seq<char>>) -> Seq<Seq<char>> {
    if imports.len() == 0 {
        Seq::empty()
    } else {
        let items = spec_dedup(imports).map_values(|s: Seq<char>| spec_normalize(s));
        let groups = spec_build_groups(items);
        groups.map_values(|g: (Seq<char>, Seq<Seq<char>>)| spec_format_group(g.0, g.1))
    }
}

/// Groups and deduplicates import statements by root module: duplicates
/// are removed, imports are grouped by root in alphabetical order, common
/// path prefixes are extracted, and each group is emitted as one compact
/// `use` statement.
pub fn group_imports(imports: &Vec<String>) -> (r: Vec<String>)
    ensures
        r@.map_values(|p: String| p@) == spec_group_imports(
            imports@.map_values(|p: String| p@),
        ),
{
    let ghost views = imports@.map_values(|p: String| p@);
    if imports.len() == 0 {
        let r: Vec<String> = Vec::new();
        proof {
            assert(r@.map_values(|p: String| p@) =~= Seq::<Seq<char>>::empty());
        }
        return r;
    }
    let unique = dedup_strings(imports);
    let ghost unique_views = spec_dedup(views);
    let mut items: Vec<String> = Vec::new();
    let n = unique.len();
    let mut i: usize = 0;
    while i < n
        invariant
            i <= n,
            n == unique@.len(),
            unique_views == unique@.map_values(|p: String| p@),
            items@.map_values(|p: String| p@) == unique_views.subrange(0, i as int).map_values(
                |s: Seq<char>| spec_normalize(s),
            ),
        decreases n - i,
    {
        let ghost prev = items@.map_values(|p: String| p@);
        items.push(normalize_import(unique[i].as_str()));
        proof {
            assert(items@.map_values(|p: String| p@) =~= prev.push(
                spec_normalize(unique_views[i as int]),
            ));
            assert(unique_views.subrange(0, i as int + 1).map_values(
                |s: Seq<char>| spec_normalize(s),
            ) =~= unique_views.subrange(0, i as int).map_values(
                |s: Seq<char>| spec_normalize(s),
            ).push(spec_normalize(unique_views[i as int])));
        }
        i = i + 1;
    }
    proof {
        assert(unique_views.subrange(0, n as int) =~= unique_views);
    }
    let groups = build_groups(&items);
    let mut r: Vec<String> = Vec::new();
    let m = groups.len();
    let mut g: usize = 0;
    proof {
        assert(r@.map_values(|p: String| p@) =~= Seq::<Seq<char>>::empty());
        assert(groups_view(groups@).subrange(0, 0) =~= Seq::<(Seq<char>, Seq<Seq<char>>)>::empty());
    }
    while g < m
        invariant
            g <= m,
            m == groups@.len(),
            groups_view(groups@) == spec_build_groups(items@.map_values(|p: String| p@)),
            r@.map_values(|p: String| p@) == groups_view(groups@).subrange(0, g as int).map_values(
                |gv: (Seq<char>, Seq<Seq<char>>)| spec_format_group(gv.0, gv.1),
            ),
        decreases m - g,
    {
        let ghost prev = r@.map_values(|p: String| p@);
        let line = format_group(groups[g].root.as_str(), &groups[g].paths);
        r.push(line);
        proof {
            let gv = groups_view(groups@)[g as int];
            assert(gv == group_view(groups@[g as int]));
            assert(r@.map_values(|p: String| p@) =~= prev.push(spec_format_group(gv.0, gv.1)));
            assert(groups_view(groups@).subrange(0, g as int + 1).map_values(
                |gv2: (Seq<char>, Seq<Seq<char>>)| spec_format_group(gv2.0, gv2.1),
            ) =~= groups_view(groups@).subrange(0, g as int).map_values(
                |gv2: (Seq<char>, Seq<Seq<char>>)| spec_format_group(gv2.0, gv2.1),
            ).push(spec_format_group(gv.0, gv.1)));
        }
        g = g + 1;
    }
    proof {
        assert(groups_view(groups@).subrange(0, m as int) =~= groups_view(groups@));
        assert(items@.map_values(|p: String| p@) == spec_dedup(views).map_values(
            |s: Seq<char>| spec_normalize(s),
        ));
    }
    r
}

/// The root-and-path pairs a group list holds, flattened in group order.
pub open spec fn group_pairs(gs: Seq<(Seq<char>, Seq<Seq<char>>)>) -> Seq<(Seq<char>, Seq<char>)>
    decreases gs.len(),
{
    if gs.len() == 0 {
        Seq::empty()
    } else {
        gs[0].1.map_values(|p: Seq<char>| (gs[0].0, p)) + group_pairs(gs.drop_first())
    }
}

proof fn lemma_insert_group_pairs(
    gs: Seq<(Seq<char>, Seq<Seq<char>>)>,
    root: Seq<char>,
    path: Seq<char>,
)
    ensures
        group_pairs(spec_insert_group(gs, root, path)).to_multiset() == group_pairs(
            gs,
        ).to_multiset().insert((root, path)),
    decreases gs.len(),
{
    broadcast use vstd::seq_lib::group_to_multiset_ensures;
    broadcast use vstd::multiset::group_multiset_axioms;

    if gs.len() == 0 {
        let inserted = spec_insert_group(gs, root, path);
        assert(inserted == seq![(root, seq![path])]);
        assert(inserted[0].1.map_values(|p: Seq<char>| (inserted[0].0, p)) =~= seq![
            (root, path),
        ]);
        assert(inserted.drop_first() =~= Seq::<(Seq<char>, Seq<Seq<char>>)>::empty());
        assert(group_pairs(Seq::<(Seq<char>, Seq<Seq<char>>)>::empty()) =~= Seq::<
            (Seq<char>, Seq<char>),
        >::empty());
        assert(group_pairs(inserted) =~= seq![(root, path)]);
        assert(group_pairs(gs) =~= Seq::<(Seq<char>, Seq<char>)>::empty());
        assert(seq![(root, path)] =~= Seq::<(Seq<char>, Seq<char>)>::empty().push((root, path)));
        assert(group_pairs(inserted).to_multiset() =~= group_pairs(gs).to_multiset().insert(
            (root, path),
        ));
    } else if gs[0].0 == root {
        let inserted = spec_insert_group(gs, root, path);
        assert(inserted == seq![(root, gs[0].1.push(path))] + gs.drop_first());
        assert(inserted[0] == (root, gs[0].1.push(path)));
        assert(inserted.drop_first() =~= gs.drop_first());
        let head_pairs = gs[0].1.map_values(|p: Seq<char>| (gs[0].0, p));
        let new_head_pairs = inserted[0].1.map_values(|p: Seq<char>| (inserted[0].0, p));
        assert(new_head_pairs =~= head_pairs.push((root, path)));
        assert(group_pairs(inserted) == new_head_pairs + group_pairs(gs.drop_first()));
        assert(group_pairs(gs) == head_pairs + group_pairs(gs.drop_first()));
        vstd::seq_lib::lemma_multiset_commutative(new_head_pairs, group_pairs(gs.drop_first()));
        vstd::seq_lib::lemma_multiset_commutative(head_pairs, group_pairs(gs.drop_first()));
        assert(new_head_pairs.to_multiset() =~= head_pairs.to_multiset().insert((root, path)));
        assert(group_pairs(inserted).to_multiset() =~= group_pairs(gs).to_multiset().insert(
            (root, path),
        ));
    } else if lex_le(root, gs[0].0) {
        let inserted = spec_insert_group(gs, root, path);
        assert(inserted == seq![(root, seq![path])] + gs);
        assert(inserted[0] == (root, seq![path]));
        assert(inserted.drop_first() =~= gs);
        assert(inserted[0].1.map_values(|p: Seq<char>| (inserted[0].0, p)) =~= seq![
            (root, path),
        ]);
        assert(group_pairs(inserted) == seq![(root, path)] + group_pairs(gs));
        vstd::seq_lib::lemma_multiset_commutative(seq![(root, path)], group_pairs(gs));
        assert(seq![(root, path)] =~= Seq::<(Seq<char>, Seq<char>)>::empty().push((root, path)));
        assert(group_pairs(inserted).to_multiset() =~= group_pairs(gs).to_multiset().insert(
            (root, path),
        ));
    } else {
        lemma_insert_group_pairs(gs.drop_first(), root, path);
        let inserted = spec_insert_group(gs, root, path);
        assert(inserted == seq![gs[0]] + spec_insert_group(gs.drop_first(), root, path));
        assert(inserted[0] == gs[0]);
        assert(inserted.drop_first() =~= spec_insert_group(gs.drop_first(), root, path));
        let head_pairs = gs[0].1.map_values(|p: Seq<char>| (gs[0].0, p));
        assert(group_pairs(inserted) == head_pairs + group_pairs(
            spec_insert_group(gs.drop_first(), root, path),
        ));
        assert(group_pairs(gs) == head_pairs + group_pairs(gs.drop_first()));
        vstd::seq_lib::lemma_multiset_commutative(
            head_pairs,
            group_pairs(spec_insert_group(gs.drop_first(), root, path)),
        );
        vstd::seq_lib::lemma_multiset_commutative(head_pairs, group_pairs(gs.drop_first()));
        assert(group_pairs(inserted).to_multiset() =~= group_pairs(gs).to_multiset().insert(
            (root, path),
        ));
    }
}

/// Grouping neither drops nor invents imports: the root-and-path pairs
/// the built groups hold are, as a multiset, exactly the normalized
/// imports split into root and path — every import reaches its group
/// once, and no group holds anything else.
pub proof fn lemma_build_groups_exact(items: Seq<Seq<char>>)
    ensures
        group_pairs(spec_build_groups(items)).to_multiset() == items.map_values(
            |it: Seq<char>| (spec_root(it), spec_path(it)),
        ).to_multiset(),
    decreases items.len(),
{
    broadcast use vstd::seq_lib::group_to_multiset_ensures;

    if items.len() == 0 {
        assert(group_pairs(spec_build_groups(items)) =~= Seq::<(Seq<char>, Seq<char>)>::empty());
        assert(items.map_values(|it: Seq<char>| (spec_root(it), spec_path(it))) =~= Seq::<
            (Seq<char>, Seq<char>),
        >::empty());
    } else {
        lemma_build_groups_exact(items.drop_last());
        lemma_insert_group_pairs(
            spec_build_groups(items.drop_last()),
            spec_root(items.last()),
            spec_path(items.last()),
        );
        let mapped = items.map_values(|it: Seq<char>| (spec_root(it), spec_path(it)));
        let mapped_prev = items.drop_last().map_values(
            |it: Seq<char>| (spec_root(it), spec_path(it)),
        );
        assert(mapped =~= mapped_prev.push((spec_root(items.last()), spec_path(items.last()))));
        assert(mapped_prev.push(
            (spec_root(items.last()), spec_path(items.last())),
        ).to_multiset() =~= mapped_prev.to_multiset().insert(
            (spec_root(items.last()), spec_path(items.last())),
        ));
    }
}

/// The separator-attached prefix a group's statement strips from each
/// sorted path.
pub open spec fn spec_prefix_with_sep(paths: Seq<Seq<char>>) -> Seq<char> {
    let cp = spec_common_prefix(paths);
    if (cp + "::"@).is_prefix_of(paths[0]) {
        cp + "::"@
    } else {
        cp
    }
}

proof fn lemma_common_count_props(parts: Seq<Seq<Seq<char>>>, i: nat)
    requires
        parts.len() > 0,
        i <= parts[0].len(),
    ensures
        i <= spec_common_count(parts, i) <= parts[0].len(),
        forall|j: int|
            i <= j < spec_common_count(parts, i) ==> #[trigger] all_equal_at(parts, j),
    decreases parts[0].len() - i,
{
    if i < parts[0].len() && all_equal_at(parts, i as int) {
        lemma_common_count_props(parts, i + 1);
    }
}

/// Every path of a group carries the common prefix as a text prefix, and
/// putting the stripped prefix back in front of the emitted remainder
/// restores the path: splitting a grouped statement back into one import
/// per item yields exactly the group's paths.
pub proof fn lemma_group_statement_reassembles(paths: Seq<Seq<char>>)
    requires
        paths.len() >= 2,
        spec_common_prefix(paths).len() > 0,
        crate::strutil::lex_sorted(paths),
    ensures
        forall|k: int|
            0 <= k < paths.len() ==> (#[trigger] spec_prefix_with_sep(paths)).is_prefix_of(
                paths[k],
            ) && spec_prefix_with_sep(paths) + spec_strip_lead(
                paths[k],
                spec_prefix_with_sep(paths),
            ) == paths[k],
{
    proof_reveal_sep();
    let parts = paths.map_values(|p: Seq<char>| components(p));
    let c = spec_common_count(parts, 0) as int;
    let cp = spec_common_prefix(paths);
    lemma_common_count_props(parts, 0);
    assert(c > 0) by {
        if c == 0 {
            assert(cp.len() == 0);
        }
    }
    assert(cp == spec_join(parts[0].take(c), "::"@));
    assert forall|k: int| 0 <= k < paths.len() implies cp.is_prefix_of(paths[k]) && (paths[k]
        == cp || (cp + "::"@).is_prefix_of(paths[k])) by {
        lemma_path_decomposes(paths, parts, k, c);
    }
    let pw = spec_prefix_with_sep(paths);
    if (cp + "::"@).is_prefix_of(paths[0]) {
        assert forall|k: int| 0 <= k < paths.len() implies (#[trigger] spec_prefix_with_sep(
            paths,
        )).is_prefix_of(paths[k]) by {
            if paths[k] == cp {
                crate::strutil::lemma_prefix_lex_le(cp, paths[0]);
                assert(lex_le(paths[0], paths[k]));
                crate::strutil::lemma_lex_total(cp, paths[0]);
                assert(paths[0] == cp);
                assert((cp + "::"@).len() <= cp.len());
                assert(false);
            }
        }
    } else {
        assert forall|k: int| 0 <= k < paths.len() implies (#[trigger] spec_prefix_with_sep(
            paths,
        )).is_prefix_of(paths[k]) by {}
    }
    assert forall|k: int| 0 <= k < paths.len() implies spec_prefix_with_sep(paths)
        + spec_strip_lead(paths[k], spec_prefix_with_sep(paths)) == paths[k] by {
        assert(pw.is_prefix_of(paths[k]));
        crate::strutil::lemma_prefix_skip(pw, paths[k]);
    }
}

/// Import grouping round trip, in one statement over the pipeline that
/// `spec_group_imports` fixes: deduplication keeps exactly the set of
/// input imports; the groups built from the normalized deduplicated
/// imports hold, as a multiset of root-and-path pairs, exactly those
/// imports split at their first separator; and in every group of two or
/// more sorted paths sharing a prefix, putting the stripped prefix back
/// in front of each emitted item restores the group's paths — so no
/// import is dropped and none invented.
pub proof fn lemma_group_imports_round_trip(imports: Seq<Seq<char>>)
    ensures
        forall|s: Seq<char>|
            crate::strutil::seq_contains_str(spec_dedup(imports), s) <==> #[trigger]
            crate::strutil::seq_contains_str(imports, s),
        group_pairs(
            spec_build_groups(
                spec_dedup(imports).map_values(|s: Seq<char>| spec_normalize(s)),
            ),
        ).to_multiset() == spec_dedup(imports).map_values(
            |s: Seq<char>| spec_normalize(s),
        ).map_values(|it: Seq<char>| (spec_root(it), spec_path(it))).to_multiset(),
        forall|paths: Seq<Seq<char>>|
            #![trigger spec_prefix_with_sep(paths)]
            paths.len() >= 2 && crate::strutil::lex_sorted(paths) && spec_common_prefix(
                paths,
            ).len() > 0 ==> forall|k: int|
                0 <= k < paths.len() ==> (#[trigger] spec_prefix_with_sep(paths)).is_prefix_of(
                    paths[k],
                ) && spec_prefix_with_sep(paths) + spec_strip_lead(
                    paths[k],
                    spec_prefix_with_sep(paths),
                ) == paths[k],
{
    assert forall|s: Seq<char>|
        crate::strutil::seq_contains_str(spec_dedup(imports), s) <==> #[trigger]
        crate::strutil::seq_contains_str(imports, s) by {
        crate::strutil::lemma_dedup_membership(imports, s);
    }
    lemma_build_groups_exact(spec_dedup(imports).map_values(|s: Seq<char>| spec_normalize(s)));
    assert forall|paths: Seq<Seq<char>>|
        #![trigger spec_prefix_with_sep(paths)]
        paths.len() >= 2 && crate::strutil::lex_sorted(paths) && spec_common_prefix(
            paths,
        ).len() > 0 implies forall|k: int|
            0 <= k < paths.len() ==> (#[trigger] spec_prefix_with_sep(paths)).is_prefix_of(
                paths[k],
            ) && spec_prefix_with_sep(paths) + spec_strip_lead(
                paths[k],
                spec_prefix_with_sep(paths),
            ) == paths[k] by {
        lemma_group_statement_reassembles(paths);
    }
}

/// A path decomposes at the common component count: the common prefix is
/// its text prefix, and the path either ends there or continues after a
/// separator.
/// Makes the separator's characters available to proofs.
proof fn proof_reveal_sep()
    ensures
        "::"@.len() == 2,
{
    reveal_strlit("::");
}

proof fn lemma_path_decomposes(paths: Seq<Seq<char>>, parts: Seq<Seq<Seq<char>>>, k: int, c: int)
    requires
        0 <= k < paths.len(),
        paths.len() >= 2,
        0 < c,
        parts == paths.map_values(|p: Seq<char>| components(p)),
        c == spec_common_count(parts, 0),
        c <= parts[0].len(),
        forall|j: int| 0 <= j < c ==> #[trigger] all_equal_at(parts, j),
    ensures
        spec_common_prefix(paths).is_prefix_of(paths[k]),
        paths[k] == spec_common_prefix(paths) || (spec_common_prefix(paths)
            + "::"@).is_prefix_of(paths[k]),
{
    proof_reveal_sep();
    let cp = spec_common_prefix(paths);
    assert(cp == spec_join(parts[0].take(c), "::"@));
    assert(c <= parts[k].len()) by {
        assert(all_equal_at(parts, c - 1));
    }
    assert(parts[k].take(c) =~= parts[0].take(c)) by {
        assert forall|i: int| 0 <= i < c implies #[trigger] parts[k][i] == parts[0][i] by {
            assert(all_equal_at(parts, i));
        }
    }
    assert(parts[k] == components(paths[k]));
    crate::strutil::lemma_split_join(paths[k], "::"@);
    assert(spec_join(parts[k], "::"@) == paths[k]);
    if c == parts[k].len() {
        assert(parts[k].take(c) =~= parts[k]);
        assert(paths[k] == spec_join(parts[k].take(c), "::"@));
        assert(paths[k] == cp);
        assert(cp.is_prefix_of(paths[k])) by {
            assert(cp =~= paths[k].subrange(0, cp.len() as int));
        }
    } else {
        crate::strutil::lemma_join_take(parts[k], "::"@, c);
        assert(paths[k] == spec_join(parts[k].take(c), "::"@) + "::"@ + spec_join(
            parts[k].skip(c),
            "::"@,
        ));
        assert(paths[k] == cp + "::"@ + spec_join(parts[k].skip(c), "::"@));
        assert((cp + "::"@).is_prefix_of(paths[k])) by {
            assert((cp + "::"@) =~= paths[k].subrange(0, (cp + "::"@).len() as int));
        }
        assert(cp.is_prefix_of(paths[k])) by {
            assert(cp =~= paths[k].subrange(0, cp.len() as int));
        }
    }
}

} // verus!
