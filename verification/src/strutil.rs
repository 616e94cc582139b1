//! Verified string utilities shared by the analyzers, the diff generator
//! and the rendering layer: substring search, first-occurrence replacement,
//! line splitting, lexicographic order, trimming and decimal formatting.

use vstd::prelude::*;

verus! {

broadcast use vstd::seq_lib::group_seq_lib_default;

/// A sequence of `n` copies of the sequence `s`.
pub open spec fn spec_repeat(s: Seq<char>, n: nat) -> Seq<char>
    decreases n,
{
    if n == 0 {
        Seq::empty()
    } else {
        spec_repeat(s, (n - 1) as nat) + s
    }
}

/// Returns `s` repeated `n` times.
pub fn repeat_str(s: &str, n: usize) -> (r: String)
    ensures
        r@ == spec_repeat(s@, n as nat),
{
    let mut r = String::new();
    let mut i: usize = 0;
    while i < n
        invariant
            i <= n,
            r@ == spec_repeat(s@, i as nat),
        decreases n - i,
    {
        r.append(s);
        i = i + 1;
    }
    r
}

/// Repetition splits over a sum of counts.
pub proof fn lemma_repeat_add(s: Seq<char>, a: nat, b: nat)
    ensures
        spec_repeat(s, a + b) == spec_repeat(s, a) + spec_repeat(s, b),
    decreases b,
{
    if b == 0 {
        assert(spec_repeat(s, a) + spec_repeat(s, 0) =~= spec_repeat(s, a));
    } else {
        lemma_repeat_add(s, a, (b - 1) as nat);
        assert(spec_repeat(s, a + b) == spec_repeat(s, (a + b - 1) as nat) + s);
        assert(spec_repeat(s, a) + (spec_repeat(s, (b - 1) as nat) + s) =~= (spec_repeat(s, a)
            + spec_repeat(s, (b - 1) as nat)) + s);
    }
}

/// True when `pat` occurs in `s` starting at position `i`.
pub open spec fn match_at(s: Seq<char>, pat: Seq<char>, i: int) -> bool {
    0 <= i && i + pat.len() <= s.len() && s.subrange(i, i + pat.len() as int) == pat
}

/// Position of the first occurrence of `pat` in `s` at or after `from`.
pub open spec fn spec_find(s: Seq<char>, pat: Seq<char>, from: nat) -> Option<nat>
    decreases s.len() - from,
{
    if from + pat.len() > s.len() {
        None
    } else if pat.len() == 0 {
        Some(from)
    } else if s.subrange(from as int, from + pat.len() as int) == pat {
        Some(from)
    } else {
        spec_find(s, pat, from + 1)
    }
}

/// What a `Some` answer of `spec_find` means: a match at that position and
/// none earlier; a `None` answer means no match at or after `from`.
pub proof fn lemma_spec_find(s: Seq<char>, pat: Seq<char>, from: nat)
    ensures
        match spec_find(s, pat, from) {
            Some(i) => from <= i && match_at(s, pat, i as int) && forall|j: int|
                from <= j < i ==> !match_at(s, pat, j),
            None => forall|j: int| from <= j ==> !match_at(s, pat, j),
        },
    decreases s.len() - from,
{
    if from + pat.len() > s.len() {
        assert(forall|j: int| from <= j ==> !match_at(s, pat, j));
    } else if pat.len() == 0 {
        assert(s.subrange(from as int, from as int) =~= pat);
    } else if s.subrange(from as int, from + pat.len() as int) == pat {
    } else {
        lemma_spec_find(s, pat, from + 1);
        assert(!match_at(s, pat, from as int));
    }
}

/// Finds the first occurrence of `pat` in `s`, as a character index.
pub fn find_sub(s: &str, pat: &str) -> (r: Option<usize>)
    ensures
        match r {
            Some(i) => spec_find(s@, pat@, 0) == Some(i as nat),
            None => spec_find(s@, pat@, 0) is None,
        },
{
    let n = s.unicode_len();
    let m = pat.unicode_len();
    if m > n {
        return None;
    }
    let mut i: usize = 0;
    while i <= n - m
        invariant
            m <= n,
            n == s@.len(),
            m == pat@.len(),
            i <= n - m + 1,
            spec_find(s@, pat@, 0) == spec_find(s@, pat@, i as nat),
        decreases n + 1 - i,
    {
        let mut j: usize = 0;
        let mut matched = true;
        while j < m
            invariant
                m <= n,
                n == s@.len(),
                m == pat@.len(),
                i + m <= n,
                j <= m,
                matched ==> forall|k: int| 0 <= k < j ==> s@[i + k] == pat@[k],
                !matched ==> exists|k: int| 0 <= k < m && s@[i + k] != pat@[k],
            decreases m - j,
        {
            if s.get_char(i + j) != pat.get_char(j) {
                matched = false;
                j = m;
            } else {
                j = j + 1;
            }
        }
        if matched {
            proof {
                assert(s@.subrange(i as int, i + m as int) =~= pat@);
            }
            return Some(i);
        }
        proof {
            assert(s@.subrange(i as int, i + m as int) != pat@) by {
                let k = choose|k: int| 0 <= k < m && s@[i + k] != pat@[k];
                assert(s@.subrange(i as int, i + m as int)[k] == s@[i + k]);
            }
        }
        i = i + 1;
    }
    None
}

/// `s` with the first occurrence of `pat` replaced by `rep`; `s` unchanged
/// when `pat` does not occur.
pub open spec fn spec_replace_first(s: Seq<char>, pat: Seq<char>, rep: Seq<char>) -> Seq<char> {
    match spec_find(s, pat, 0) {
        None => s,
        Some(i) => s.subrange(0, i as int) + rep + s.subrange(
            i + pat.len() as int,
            s.len() as int,
        ),
    }
}

/// Replaces the first occurrence of `pat` in `s` by `rep`.
pub fn replace_first(s: &str, pat: &str, rep: &str) -> (r: String)
    ensures
        r@ == spec_replace_first(s@, pat@, rep@),
{
    match find_sub(s, pat) {
        None => s.to_owned(),
        Some(i) => {
            proof {
                lemma_spec_find(s@, pat@, 0);
            }
            let n = s.unicode_len();
            let m = pat.unicode_len();
            let mut r = s.substring_char(0, i).to_owned();
            r.append(rep);
            r.append(s.substring_char(i + m, n));
            r
        },
    }
}

/// True when `pat` occurs somewhere in `s`.
pub open spec fn spec_contains(s: Seq<char>, pat: Seq<char>) -> bool {
    spec_find(s, pat, 0) is Some
}

/// Tests whether `pat` occurs in `s`.
pub fn contains_sub(s: &str, pat: &str) -> (r: bool)
    ensures
        r == spec_contains(s@, pat@),
{
    find_sub(s, pat).is_some()
}

/// Tests whether `pre` is a prefix of `s`.
pub fn starts_with(s: &str, pre: &str) -> (r: bool)
    ensures
        r == pre@.is_prefix_of(s@),
{
    let n = s.unicode_len();
    let m = pre.unicode_len();
    if m > n {
        return false;
    }
    let mut j: usize = 0;
    while j < m
        invariant
            m <= n,
            n == s@.len(),
            m == pre@.len(),
            j <= m,
            forall|k: int| 0 <= k < j ==> s@[k] == pre@[k],
        decreases m - j,
    {
        if s.get_char(j) != pre.get_char(j) {
            proof {
                assert(s@.subrange(0, m as int)[j as int] == s@[j as int]);
            }
            return false;
        }
        j = j + 1;
    }
    proof {
        assert(pre@ =~= s@.subrange(0, m as int));
    }
    true
}

/// Tests whether `suf` is a suffix of `s`.
pub fn ends_with(s: &str, suf: &str) -> (r: bool)
    ensures
        r == suf@.is_suffix_of(s@),
{
    let n = s.unicode_len();
    let m = suf.unicode_len();
    if m > n {
        return false;
    }
    let off = n - m;
    let mut j: usize = 0;
    while j < m
        invariant
            m <= n,
            off == n - m,
            n == s@.len(),
            m == suf@.len(),
            j <= m,
            forall|k: int| 0 <= k < j ==> s@[off + k] == suf@[k],
        decreases m - j,
    {
        if s.get_char(off + j) != suf.get_char(j) {
            proof {
                assert(s@.subrange(off as int, n as int)[j as int] == s@[off + j]);
            }
            return false;
        }
        j = j + 1;
    }
    proof {
        assert(suf@ =~= s@.subrange(off as int, n as int));
    }
    true
}

/// Tests whether two string slices hold the same characters.
pub fn str_eq(a: &str, b: &str) -> (r: bool)
    ensures
        r == (a@ == b@),
{
    let n = a.unicode_len();
    if n != b.unicode_len() {
        return false;
    }
    let mut j: usize = 0;
    while j < n
        invariant
            n == a@.len(),
            n == b@.len(),
            j <= n,
            forall|k: int| 0 <= k < j ==> a@[k] == b@[k],
        decreases n - j,
    {
        if a.get_char(j) != b.get_char(j) {
            return false;
        }
        j = j + 1;
    }
    proof {
        assert(a@ =~= b@);
    }
    true
}

/// The character for a single decimal digit.
pub open spec fn digit_char(d: nat) -> char {
    if d == 0 {
        '0'
    } else if d == 1 {
        '1'
    } else if d == 2 {
        '2'
    } else if d == 3 {
        '3'
    } else if d == 4 {
        '4'
    } else if d == 5 {
        '5'
    } else if d == 6 {
        '6'
    } else if d == 7 {
        '7'
    } else if d == 8 {
        '8'
    } else {
        '9'
    }
}

/// Decimal representation of a natural number, most significant digit first.
pub open spec fn spec_decimal(n: nat) -> Seq<char>
    decreases n,
{
    if n < 10 {
        seq![digit_char(n)]
    } else {
        spec_decimal(n / 10) + seq![digit_char(n % 10)]
    }
}

fn digit_str(d: usize) -> (r: &'static str)
    requires
        d < 10,
    ensures
        r@ == seq![digit_char(d as nat)],
{
    proof {
        reveal_strlit("0");
        reveal_strlit("1");
        reveal_strlit("2");
        reveal_strlit("3");
        reveal_strlit("4");
        reveal_strlit("5");
        reveal_strlit("6");
        reveal_strlit("7");
        reveal_strlit("8");
        reveal_strlit("9");
    }
    if d == 0 {
        "0"
    } else if d == 1 {
        "1"
    } else if d == 2 {
        "2"
    } else if d == 3 {
        "3"
    } else if d == 4 {
        "4"
    } else if d == 5 {
        "5"
    } else if d == 6 {
        "6"
    } else if d == 7 {
        "7"
    } else if d == 8 {
        "8"
    } else {
        "9"
    }
}

/// A line with a trailing carriage return removed.
pub open spec fn strip_cr(l: Seq<char>) -> Seq<char> {
    if l.len() > 0 && l[l.len() - 1] == '\r' {
        l.drop_last()
    } else {
        l
    }
}

/// The lines of a text: split at each newline, a trailing carriage return
/// removed from each line, and no final empty line after a trailing newline.
pub open spec fn spec_lines(s: Seq<char>) -> Seq<Seq<char>>
    decreases s.len(),
{
    if s.len() == 0 {
        Seq::empty()
    } else {
        let f = spec_find(s, seq!['\n'], 0);
        if f is Some && f->Some_0 < s.len() {
            seq![strip_cr(s.subrange(0, f->Some_0 as int))] + spec_lines(
                s.subrange(f->Some_0 as int + 1, s.len() as int),
            )
        } else {
            seq![strip_cr(s)]
        }
    }
}

proof fn lemma_find_char_at(s: Seq<char>, c: char, from: nat, k: nat)
    requires
        from <= k < s.len(),
        s[k as int] == c,
        forall|j: int| from <= j < k ==> s[j] != c,
    ensures
        spec_find(s, seq![c], from) == Some(k),
    decreases k - from,
{
    if from == k {
        assert(s.subrange(from as int, from as int + 1) =~= seq![c]);
    } else {
        assert(s.subrange(from as int, from as int + 1) != seq![c]) by {
            assert(s.subrange(from as int, from as int + 1)[0] == s[from as int]);
        }
        lemma_find_char_at(s, c, from + 1, k);
    }
}

proof fn lemma_find_char_none(s: Seq<char>, c: char, from: nat)
    requires
        forall|j: int| from <= j < s.len() ==> s[j] != c,
    ensures
        spec_find(s, seq![c], from) is None,
    decreases s.len() - from,
{
    if from + 1 > s.len() {
    } else {
        assert(s.subrange(from as int, from as int + 1) != seq![c]) by {
            assert(s.subrange(from as int, from as int + 1)[0] == s[from as int]);
        }
        lemma_find_char_none(s, c, from + 1);
    }
}

/// Splits a text into its lines, as `str::lines` does: at each newline,
/// with a trailing carriage return removed from each line.
pub fn split_lines(s: &str) -> (r: Vec<String>)
    ensures
        r@.map_values(|l: String| l@) == spec_lines(s@),
{
    let n = s.unicode_len();
    let mut r: Vec<String> = Vec::new();
    let mut start: usize = 0;
    let mut i: usize = 0;
    proof {
        assert(s@.subrange(0, n as int) =~= s@);
        assert(r@.map_values(|l: String| l@) =~= Seq::<Seq<char>>::empty());
    }
    while i < n
        invariant
            start <= i <= n,
            n == s@.len(),
            forall|j: int| start <= j < i ==> s@[j] != '\n',
            spec_lines(s@) == r@.map_values(|l: String| l@) + spec_lines(
                s@.subrange(start as int, n as int),
            ),
        decreases n - i,
    {
        if s.get_char(i) == '\n' {
            let line = cut_line(s, start, i);
            let ghost prev = r@.map_values(|l: String| l@);
            r.push(line);
            proof {
                let tail = s@.subrange(start as int, n as int);
                lemma_find_char_at(tail, '\n', 0, (i - start) as nat);
                assert(tail.subrange(0, i - start) =~= s@.subrange(start as int, i as int));
                assert(tail.subrange(i - start + 1, tail.len() as int) =~= s@.subrange(
                    i + 1,
                    n as int,
                ));
                assert(r@.map_values(|l: String| l@) =~= prev + seq![
                    strip_cr(s@.subrange(start as int, i as int)),
                ]);
                assert(spec_lines(tail) == seq![strip_cr(s@.subrange(start as int, i as int))]
                    + spec_lines(s@.subrange(i + 1, n as int)));
            }
            start = i + 1;
        }
        i = i + 1;
    }
    if start < n {
        let line = cut_line(s, start, n);
        let ghost prev = r@.map_values(|l: String| l@);
        r.push(line);
        proof {
            let tail = s@.subrange(start as int, n as int);
            lemma_find_char_none(tail, '\n', 0);
            assert(r@.map_values(|l: String| l@) =~= prev + seq![strip_cr(tail)]);
        }
    } else {
        proof {
            assert(s@.subrange(start as int, n as int).len() == 0);
        }
    }
    r
}

/// Copies the line `s[from..to]`, dropping a trailing carriage return.
fn cut_line(s: &str, from: usize, to: usize) -> (r: String)
    requires
        from <= to <= s@.len(),
    ensures
        r@ == strip_cr(s@.subrange(from as int, to as int)),
{
    let piece = s.substring_char(from, to);
    if to > from && s.get_char(to - 1) == '\r' {
        proof {
            assert(s@.subrange(from as int, to as int).drop_last() =~= s@.subrange(
                from as int,
                to - 1,
            ));
        }
        s.substring_char(from, to - 1).to_owned()
    } else {
        piece.to_owned()
    }
}

/// Lexicographic order on character sequences, by unicode scalar value.
pub open spec fn lex_le(a: Seq<char>, b: Seq<char>) -> bool
    decreases a.len(),
{
    if a.len() == 0 {
        true
    } else if b.len() == 0 {
        false
    } else if (a[0] as int) < (b[0] as int) {
        true
    } else if (b[0] as int) < (a[0] as int) {
        false
    } else {
        lex_le(a.drop_first(), b.drop_first())
    }
}

/// Lexicographic order is total.
pub proof fn lemma_lex_total(a: Seq<char>, b: Seq<char>)
    ensures
        lex_le(a, b) || lex_le(b, a),
        lex_le(a, b) && lex_le(b, a) ==> a == b,
    decreases a.len(),
{
    if a.len() == 0 || b.len() == 0 {
        if a.len() == 0 && b.len() == 0 {
            assert(a =~= b);
        }
    } else if a[0] == b[0] {
        lemma_lex_total(a.drop_first(), b.drop_first());
        if lex_le(a, b) && lex_le(b, a) {
            assert(a.drop_first() == b.drop_first());
            assert(a =~= seq![a[0]] + a.drop_first());
            assert(b =~= seq![b[0]] + b.drop_first());
        }
    }
}

/// Lexicographic order is transitive.
pub proof fn lemma_lex_trans(a: Seq<char>, b: Seq<char>, c: Seq<char>)
    requires
        lex_le(a, b),
        lex_le(b, c),
    ensures
        lex_le(a, c),
    decreases a.len(),
{
    if a.len() == 0 || b.len() == 0 || c.len() == 0 {
    } else if (a[0] as int) == (b[0] as int) && (b[0] as int) == (c[0] as int) {
        lemma_lex_trans(a.drop_first(), b.drop_first(), c.drop_first());
    } else {
        assert((a[0] as int) <= (b[0] as int));
        assert((b[0] as int) <= (c[0] as int));
    }
}

/// Compares two strings in lexicographic order.
pub fn str_le(a: &str, b: &str) -> (r: bool)
    ensures
        r == lex_le(a@, b@),
{
    let al = a.unicode_len();
    let bl = b.unicode_len();
    let mut i: usize = 0;
    proof {
        assert(a@.subrange(0, al as int) =~= a@);
        assert(b@.subrange(0, bl as int) =~= b@);
    }
    loop
        invariant
            al == a@.len(),
            bl == b@.len(),
            i <= al,
            i <= bl,
            lex_le(a@, b@) == lex_le(
                a@.subrange(i as int, al as int),
                b@.subrange(i as int, bl as int),
            ),
        decreases al - i,
    {
        if i >= al {
            proof {
                assert(a@.subrange(i as int, al as int).len() == 0);
            }
            return true;
        }
        if i >= bl {
            proof {
                assert(b@.subrange(i as int, bl as int).len() == 0);
                assert(a@.subrange(i as int, al as int).len() > 0);
            }
            return false;
        }
        let ca = a.get_char(i);
        let cb = b.get_char(i);
        proof {
            let sa = a@.subrange(i as int, al as int);
            let sb = b@.subrange(i as int, bl as int);
            assert(sa[0] == a@[i as int]);
            assert(sb[0] == b@[i as int]);
            assert(sa.drop_first() =~= a@.subrange(i + 1, al as int));
            assert(sb.drop_first() =~= b@.subrange(i + 1, bl as int));
        }
        if (ca as u32) < (cb as u32) {
            return true;
        }
        if (cb as u32) < (ca as u32) {
            return false;
        }
        proof {
            assert((ca as int) == (cb as int));
        }
        i = i + 1;
    }
}

/// Pieces of `s` split at each occurrence of `sep`; a text without the
/// separator is one piece, and separators at the edges yield empty pieces.
pub open spec fn spec_split(s: Seq<char>, sep: Seq<char>) -> Seq<Seq<char>>
    decreases s.len(),
{
    if sep.len() == 0 {
        seq![s]
    } else {
        let f = spec_find(s, sep, 0);
        if f is Some && f->Some_0 + sep.len() <= s.len() {
            seq![s.subrange(0, f->Some_0 as int)] + spec_split(
                s.subrange(f->Some_0 + sep.len() as int, s.len() as int),
                sep,
            )
        } else {
            seq![s]
        }
    }
}

/// Splits `s` at each occurrence of `sep`.
pub fn split_by(s: &str, sep: &str) -> (r: Vec<String>)
    requires
        sep@.len() > 0,
    ensures
        r@.map_values(|p: String| p@) == spec_split(s@, sep@),
    decreases s@.len(),
{
    match find_sub(s, sep) {
        None => {
            let mut v: Vec<String> = Vec::new();
            v.push(s.to_owned());
            proof {
                assert(v@.map_values(|p: String| p@) =~= seq![s@]);
            }
            v
        },
        Some(i) => {
            proof {
                lemma_spec_find(s@, sep@, 0);
            }
            let n = s.unicode_len();
            let m = sep.unicode_len();
            let mut rest = split_by(s.substring_char(i + m, n), sep);
            let mut v: Vec<String> = Vec::new();
            v.push(s.substring_char(0, i).to_owned());
            let ghost rest_view = rest@.map_values(|p: String| p@);
            v.append(&mut rest);
            proof {
                assert(v@.map_values(|p: String| p@) =~= seq![s@.subrange(0, i as int)]
                    + rest_view);
            }
            v
        },
    }
}

/// Splitting always yields at least one piece.
pub proof fn lemma_split_nonempty(s: Seq<char>, sep: Seq<char>)
    ensures
        spec_split(s, sep).len() >= 1,
    decreases s.len(),
{
    if sep.len() > 0 {
        let f = spec_find(s, sep, 0);
        if f is Some && f->Some_0 + sep.len() <= s.len() {
        }
    }
}

/// Joining the pieces of a split gives the original text back.
pub proof fn lemma_split_join(s: Seq<char>, sep: Seq<char>)
    requires
        sep.len() > 0,
    ensures
        spec_join(spec_split(s, sep), sep) == s,
    decreases s.len(),
{
    let f = spec_find(s, sep, 0);
    if f is Some && f->Some_0 + sep.len() <= s.len() {
        let i = f->Some_0 as int;
        let head = s.subrange(0, i);
        let rest = s.subrange(i + sep.len() as int, s.len() as int);
        lemma_spec_find(s, sep, 0);
        lemma_split_join(rest, sep);
        lemma_split_nonempty(rest, sep);
        assert(spec_split(s, sep) == seq![head] + spec_split(rest, sep));
        let tail_list = spec_split(rest, sep);
        assert((seq![head] + tail_list)[0] == head);
        assert((seq![head] + tail_list).drop_first() =~= tail_list);
        assert(spec_join(seq![head] + tail_list, sep) == head + sep + spec_join(tail_list, sep));
        assert(head + sep + rest =~= s) by {
            assert(s.subrange(i, i + sep.len() as int) == sep);
        }
    } else if f is Some {
        lemma_spec_find(s, sep, 0);
        assert(f->Some_0 + sep.len() <= s.len());
    } else {
        assert(spec_split(s, sep) == seq![s]);
        assert(spec_join(seq![s], sep) == seq![s][0]);
    }
}

/// A join splits at any component boundary.
pub proof fn lemma_join_take(cs: Seq<Seq<char>>, sep: Seq<char>, m: int)
    requires
        1 <= m < cs.len(),
    ensures
        spec_join(cs, sep) == spec_join(cs.take(m), sep) + sep + spec_join(cs.skip(m), sep),
    decreases m,
{
    if m == 1 {
        assert(cs.take(1) =~= seq![cs[0]]);
        assert(spec_join(seq![cs[0]], sep) == cs[0]);
        assert(cs.skip(1) =~= cs.drop_first());
        assert(cs.len() >= 2);
        assert(spec_join(cs, sep) == cs[0] + sep + spec_join(cs.drop_first(), sep));
    } else {
        lemma_join_take(cs.drop_first(), sep, m - 1);
        assert(cs.drop_first().take(m - 1) =~= cs.take(m).drop_first());
        assert(cs.drop_first().skip(m - 1) =~= cs.skip(m));
        assert(cs.len() >= 2);
        assert(spec_join(cs, sep) == cs[0] + sep + spec_join(cs.drop_first(), sep));
        assert(cs.take(m).len() >= 2);
        assert(cs.take(m)[0] == cs[0]);
        assert(spec_join(cs.take(m), sep) == cs[0] + sep + spec_join(
            cs.take(m).drop_first(),
            sep,
        ));
        assert(cs[0] + sep + (spec_join(cs.take(m).drop_first(), sep) + sep + spec_join(
            cs.skip(m),
            sep,
        )) =~= (cs[0] + sep + spec_join(cs.take(m).drop_first(), sep)) + sep + spec_join(
            cs.skip(m),
            sep,
        ));
    }
}

/// A prefix comes no later in lexicographic order than its extensions.
pub proof fn lemma_prefix_lex_le(a: Seq<char>, b: Seq<char>)
    requires
        a.is_prefix_of(b),
    ensures
        lex_le(a, b),
    decreases a.len(),
{
    if a.len() > 0 {
        assert(a[0] == b[0]);
        assert(a.drop_first().is_prefix_of(b.drop_first())) by {
            assert(a.drop_first() =~= b.drop_first().subrange(0, a.len() - 1));
        }
        lemma_prefix_lex_le(a.drop_first(), b.drop_first());
    }
}

/// Putting a prefix back in front of the stripped remainder restores the
/// text.
pub proof fn lemma_prefix_skip(pre: Seq<char>, p: Seq<char>)
    requires
        pre.is_prefix_of(p),
    ensures
        pre + p.skip(pre.len() as int) == p,
{
    assert(pre + p.skip(pre.len() as int) =~= p);
}

/// Pieces joined with `sep` between each two.
pub open spec fn spec_join(parts: Seq<Seq<char>>, sep: Seq<char>) -> Seq<char>
    decreases parts.len(),
{
    if parts.len() == 0 {
        Seq::empty()
    } else if parts.len() == 1 {
        parts[0]
    } else {
        parts[0] + sep + spec_join(parts.drop_first(), sep)
    }
}

/// Appending one more piece extends the join by a separator and the piece.
pub proof fn lemma_join_push(parts: Seq<Seq<char>>, sep: Seq<char>, x: Seq<char>)
    ensures
        parts.len() == 0 ==> spec_join(parts.push(x), sep) == x,
        parts.len() > 0 ==> spec_join(parts.push(x), sep) == spec_join(parts, sep) + sep + x,
    decreases parts.len(),
{
    if parts.len() == 0 {
        assert(spec_join(parts.push(x), sep) == parts.push(x)[0]);
        assert(parts.push(x)[0] == x);
    } else if parts.len() == 1 {
        assert(parts.push(x).drop_first() =~= seq![x]);
        assert(spec_join(seq![x], sep) == seq![x][0]);
        assert(parts.push(x)[0] == parts[0]);
        assert(spec_join(parts, sep) == parts[0]);
        assert(spec_join(parts.push(x), sep) == parts[0] + sep + x);
    } else {
        lemma_join_push(parts.drop_first(), sep, x);
        assert(parts.push(x).drop_first() =~= parts.drop_first().push(x));
        assert(spec_join(parts.push(x), sep) == parts[0] + sep + spec_join(
            parts.drop_first().push(x),
            sep,
        ));
        assert(parts[0] + sep + (spec_join(parts.drop_first(), sep) + sep + x) =~= (parts[0] + sep
            + spec_join(parts.drop_first(), sep)) + sep + x);
    }
}

/// Joins the pieces with `sep` between each two.
pub fn join_with(parts: &Vec<String>, sep: &str) -> (r: String)
    ensures
        r@ == spec_join(parts@.map_values(|p: String| p@), sep@),
{
    let ghost views = parts@.map_values(|p: String| p@);
    let mut r = String::new();
    let n = parts.len();
    let mut i: usize = 0;
    while i < n
        invariant
            i <= n,
            n == parts@.len(),
            views == parts@.map_values(|p: String| p@),
            r@ == spec_join(views.subrange(0, i as int), sep@),
        decreases n - i,
    {
        if i > 0 {
            r.append(sep);
        }
        r.append(parts[i].as_str());
        proof {
            assert(views.subrange(0, i as int + 1) =~= views.subrange(0, i as int).push(
                views[i as int],
            ));
            lemma_join_push(views.subrange(0, i as int), sep@, views[i as int]);
        }
        i = i + 1;
    }
    proof {
        assert(views.subrange(0, n as int) =~= views);
    }
    r
}

/// `s` with every copy of `pre` removed from the front, one after another.
pub open spec fn spec_strip_prefix_all(s: Seq<char>, pre: Seq<char>) -> Seq<char>
    decreases s.len(),
{
    if pre.len() > 0 && pre.is_prefix_of(s) {
        spec_strip_prefix_all(s.skip(pre.len() as int), pre)
    } else {
        s
    }
}

/// Removes every leading copy of `pre` from `s`.
pub fn strip_prefix_all(s: &str, pre: &str) -> (r: String)
    ensures
        r@ == spec_strip_prefix_all(s@, pre@),
    decreases s@.len(),
{
    let m = pre.unicode_len();
    if m > 0 && starts_with(s, pre) {
        let n = s.unicode_len();
        let r = strip_prefix_all(s.substring_char(m, n), pre);
        proof {
            assert(s@.subrange(m as int, n as int) =~= s@.skip(m as int));
        }
        r
    } else {
        s.to_owned()
    }
}

/// `s` with every copy of `suf` removed from the end, one after another.
pub open spec fn spec_strip_suffix_all(s: Seq<char>, suf: Seq<char>) -> Seq<char>
    decreases s.len(),
{
    if suf.len() > 0 && suf.is_suffix_of(s) {
        spec_strip_suffix_all(s.take(s.len() - suf.len()), suf)
    } else {
        s
    }
}

/// Removes every trailing copy of `suf` from `s`.
pub fn strip_suffix_all(s: &str, suf: &str) -> (r: String)
    ensures
        r@ == spec_strip_suffix_all(s@, suf@),
    decreases s@.len(),
{
    let m = suf.unicode_len();
    if m > 0 && ends_with(s, suf) {
        let n = s.unicode_len();
        let r = strip_suffix_all(s.substring_char(0, n - m), suf);
        proof {
            assert(s@.subrange(0, n - m) =~= s@.take(s@.len() - m));
        }
        r
    } else {
        s.to_owned()
    }
}

/// True when one of the sequences equals `s`.
pub open spec fn seq_contains_str(vs: Seq<Seq<char>>, s: Seq<char>) -> bool {
    exists|i: int| 0 <= i < vs.len() && vs[i] == s
}

/// Tests whether one of the strings equals `s`.
pub fn contains_string(v: &Vec<String>, s: &str) -> (r: bool)
    ensures
        r == seq_contains_str(v@.map_values(|p: String| p@), s@),
{
    let ghost views = v@.map_values(|p: String| p@);
    let n = v.len();
    let mut i: usize = 0;
    while i < n
        invariant
            i <= n,
            n == v@.len(),
            views == v@.map_values(|p: String| p@),
            forall|k: int| 0 <= k < i ==> views[k] != s@,
        decreases n - i,
    {
        if str_eq(v[i].as_str(), s) {
            proof {
                assert(views[i as int] == s@);
            }
            return true;
        }
        i = i + 1;
    }
    proof {
        assert(views.len() == n);
    }
    false
}

/// The sequence with later repetitions removed: each string keeps its
/// first occurrence only.
pub open spec fn spec_dedup(vs: Seq<Seq<char>>) -> Seq<Seq<char>>
    decreases vs.len(),
{
    if vs.len() == 0 {
        Seq::empty()
    } else if seq_contains_str(vs.drop_last(), vs.last()) {
        spec_dedup(vs.drop_last())
    } else {
        spec_dedup(vs.drop_last()).push(vs.last())
    }
}

/// Deduplication keeps membership: a string occurs in the deduplicated
/// sequence exactly when it occurs in the original.
pub proof fn lemma_dedup_membership(vs: Seq<Seq<char>>, s: Seq<char>)
    ensures
        seq_contains_str(spec_dedup(vs), s) <==> seq_contains_str(vs, s),
    decreases vs.len(),
{
    if vs.len() == 0 {
    } else {
        lemma_dedup_membership(vs.drop_last(), s);
        let d = spec_dedup(vs.drop_last());
        // membership in the tail lifts to the whole
        if seq_contains_str(vs.drop_last(), s) {
            let i = choose|i: int| 0 <= i < vs.drop_last().len() && vs.drop_last()[i] == s;
            assert(vs[i] == s);
            assert(seq_contains_str(vs, s));
        }
        // membership in d lifts into d.push(last)
        if seq_contains_str(d, s) {
            let i = choose|i: int| 0 <= i < d.len() && d[i] == s;
            assert(d.push(vs.last())[i] == s);
            assert(seq_contains_str(d.push(vs.last()), s));
        }
        if s == vs.last() {
            assert(vs[vs.len() - 1] == s);
            assert(seq_contains_str(vs, s));
            if seq_contains_str(vs.drop_last(), vs.last()) {
                assert(seq_contains_str(d, s));
            } else {
                assert(d.push(vs.last())[d.len() as int] == s);
                assert(seq_contains_str(spec_dedup(vs), s));
            }
        } else {
            if seq_contains_str(vs, s) {
                let i = choose|i: int| 0 <= i < vs.len() && vs[i] == s;
                assert(i < vs.len() - 1);
                assert(vs.drop_last()[i] == s);
                assert(seq_contains_str(vs.drop_last(), s));
            }
            if !seq_contains_str(vs.drop_last(), vs.last()) {
                if seq_contains_str(d.push(vs.last()), s) {
                    let i = choose|i: int|
                        0 <= i < d.push(vs.last()).len() && d.push(vs.last())[i] == s;
                    assert(i < d.len());
                    assert(d[i] == s);
                    assert(seq_contains_str(d, s));
                }
            }
        }
    }
}

/// Removes later repetitions, keeping first occurrences in order.
pub fn dedup_strings(v: &Vec<String>) -> (r: Vec<String>)
    ensures
        r@.map_values(|p: String| p@) == spec_dedup(v@.map_values(|p: String| p@)),
{
    let ghost views = v@.map_values(|p: String| p@);
    let mut r: Vec<String> = Vec::new();
    let n = v.len();
    let mut i: usize = 0;
    proof {
        assert(views.subrange(0, 0) =~= Seq::<Seq<char>>::empty());
        assert(r@.map_values(|p: String| p@) =~= Seq::<Seq<char>>::empty());
    }
    while i < n
        invariant
            i <= n,
            n == v@.len(),
            views == v@.map_values(|p: String| p@),
            r@.map_values(|p: String| p@) == spec_dedup(views.subrange(0, i as int)),
        decreases n - i,
    {
        proof {
            assert(views.subrange(0, i as int + 1).drop_last() =~= views.subrange(0, i as int));
            assert(views.subrange(0, i as int + 1).last() == views[i as int]);
            lemma_dedup_membership(views.subrange(0, i as int), views[i as int]);
        }
        if !contains_string(&r, v[i].as_str()) {
            let ghost prev = r@.map_values(|p: String| p@);
            r.push(v[i].clone());
            proof {
                assert(r@.map_values(|p: String| p@) =~= prev.push(views[i as int]));
            }
        }
        i = i + 1;
    }
    proof {
        assert(views.subrange(0, n as int) =~= views);
    }
    r
}

/// The lexicographic order, as a relation value.
pub open spec fn lex_leq() -> spec_fn(Seq<char>, Seq<char>) -> bool {
    |a: Seq<char>, b: Seq<char>| lex_le(a, b)
}

/// The strings stand in lexicographic order.
pub open spec fn lex_sorted(s: Seq<Seq<char>>) -> bool {
    forall|a: int, b: int| 0 <= a < b < s.len() ==> #[trigger] lex_le(s[a], s[b])
}

/// Lexicographic order is a total ordering.
pub proof fn lemma_lex_total_ordering()
    ensures
        vstd::relations::total_ordering(lex_leq()),
{
    let leq = lex_leq();
    assert forall|a: Seq<char>| #[trigger] leq(a, a) by {
        lemma_lex_total(a, a);
    }
    assert forall|a: Seq<char>, b: Seq<char>| #[trigger] leq(a, b) && #[trigger] leq(b, a)
        implies a == b by {
        lemma_lex_total(a, b);
    }
    assert forall|a: Seq<char>, b: Seq<char>, c: Seq<char>|
        #[trigger] leq(a, b) && #[trigger] leq(b, c) implies leq(a, c) by {
        lemma_lex_trans(a, b, c);
    }
    assert forall|a: Seq<char>, b: Seq<char>| #![trigger leq(a, b)] true implies leq(a, b) || leq(
        b,
        a,
    ) by {
        lemma_lex_total(a, b);
    }
}

proof fn lemma_seq_insert_to_multiset(s: Seq<Seq<char>>, k: int, x: Seq<char>)
    requires
        0 <= k <= s.len(),
    ensures
        s.insert(k, x).to_multiset() == s.to_multiset().insert(x),
{
    broadcast use vstd::seq_lib::group_to_multiset_ensures;
    broadcast use vstd::multiset::group_multiset_axioms;

    let left = s.take(k);
    let right = s.skip(k);
    assert(s.insert(k, x) =~= left + (seq![x] + right));
    vstd::seq_lib::lemma_multiset_commutative(left, seq![x] + right);
    vstd::seq_lib::lemma_multiset_commutative(seq![x], right);
    assert(left + right =~= s);
    vstd::seq_lib::lemma_multiset_commutative(left, right);
    assert(seq![x] =~= Seq::<Seq<char>>::empty().push(x));
    assert(Seq::<Seq<char>>::empty().to_multiset() =~= vstd::multiset::Multiset::<Seq<char>>::empty());
    assert(seq![x].to_multiset() =~= vstd::multiset::Multiset::<Seq<char>>::empty().insert(x));
    assert(s.insert(k, x).to_multiset() =~= s.to_multiset().insert(x));
}

/// Sorts strings in lexicographic order.
pub fn sort_strings(v: &Vec<String>) -> (r: Vec<String>)
    ensures
        r@.map_values(|p: String| p@) == v@.map_values(|p: String| p@).sort_by(lex_leq()),
{
    broadcast use vstd::seq_lib::group_to_multiset_ensures;

    let ghost views = v@.map_values(|p: String| p@);
    let ghost leq = lex_leq();
    let mut r: Vec<String> = Vec::new();
    let n = v.len();
    let mut i: usize = 0;
    proof {
        assert(views.subrange(0, 0) =~= Seq::<Seq<char>>::empty());
        assert(r@.map_values(|p: String| p@) =~= Seq::<Seq<char>>::empty());
        assert(Seq::<Seq<char>>::empty().to_multiset() =~= vstd::multiset::Multiset::<Seq<char>>::empty());
    }
    while i < n
        invariant
            i <= n,
            n == v@.len(),
            views == v@.map_values(|p: String| p@),
            lex_sorted(r@.map_values(|p: String| p@)),
            r@.map_values(|p: String| p@).to_multiset() == views.subrange(
                0,
                i as int,
            ).to_multiset(),
        decreases n - i,
    {
        let x = v[i].clone();
        let ghost old_view = r@.map_values(|p: String| p@);
        let mut k: usize = 0;
        let len = r.len();
        while k < len && str_le(r[k].as_str(), x.as_str())
            invariant
                k <= len,
                len == r@.len(),
                old_view == r@.map_values(|p: String| p@),
                x@ == views[i as int],
                forall|j: int| 0 <= j < k ==> lex_le(old_view[j], x@),
            decreases len - k,
        {
            k = k + 1;
        }
        proof {
            if k < len {
                lemma_lex_total(old_view[k as int], x@);
            }
        }
        r.insert(k, x);
        proof {
            let new_view = r@.map_values(|p: String| p@);
            assert(new_view =~= old_view.insert(k as int, views[i as int]));
            assert(lex_sorted(new_view)) by {
                assert forall|p: int, q: int| 0 <= p < q < new_view.len() implies #[trigger]
                    lex_le(new_view[p], new_view[q]) by {
                    let xk = views[i as int];
                    if p == k {
                        // q sits after the insertion point
                        assert(new_view[q] == old_view[q - 1]);
                        assert(q - 1 >= k);
                        assert(lex_le(xk, old_view[k as int]));
                        if q - 1 > k {
                            assert(lex_le(old_view[k as int], old_view[q - 1]));
                            lemma_lex_trans(xk, old_view[k as int], old_view[q - 1]);
                        }
                    } else if q == k {
                        // p sits before the insertion point
                        assert(new_view[p] == old_view[p]);
                        assert(lex_le(old_view[p], xk));
                    } else {
                        let op: int = if p < k { p } else { p - 1 };
                        let oq: int = if q < k { q } else { q - 1 };
                        assert(new_view[p] == old_view[op]);
                        assert(new_view[q] == old_view[oq]);
                        assert(op < oq);
                        assert(lex_le(old_view[op], old_view[oq]));
                    }
                }
            }
            lemma_seq_insert_to_multiset(old_view, k as int, views[i as int]);
            assert(views.subrange(0, i as int + 1) =~= views.subrange(0, i as int).push(
                views[i as int],
            ));
            views.subrange(0, i as int).to_multiset_ensures();
            assert(views.subrange(0, i as int).push(views[i as int]).to_multiset()
                =~= views.subrange(0, i as int).to_multiset().insert(views[i as int]));
            assert(views.subrange(0, i as int + 1).to_multiset() =~= views.subrange(
                0,
                i as int,
            ).to_multiset().insert(views[i as int]));
        }
        i = i + 1;
    }
    proof {
        assert(views.subrange(0, n as int) =~= views);
        lemma_lex_total_ordering();
        views.lemma_sort_by_ensures(lex_leq());
        let rv = r@.map_values(|p: String| p@);
        assert(vstd::relations::sorted_by(rv, lex_leq())) by {
            assert forall|a: int, b: int| 0 <= a < b < rv.len() implies #[trigger] (lex_leq())(
                rv[a],
                rv[b],
            ) by {
                assert(lex_le(rv[a], rv[b]));
            }
        }
        vstd::seq_lib::lemma_sorted_unique(rv, views.sort_by(lex_leq()), lex_leq());
    }
    r
}

/// An ASCII whitespace character.
pub open spec fn is_ws(c: char) -> bool {
    c == ' ' || c == '\t' || c == '\r' || c == '\n'
}

/// The sequence without leading whitespace.
pub open spec fn spec_trim_start(s: Seq<char>) -> Seq<char>
    decreases s.len(),
{
    if s.len() > 0 && is_ws(s[0]) {
        spec_trim_start(s.drop_first())
    } else {
        s
    }
}

/// The sequence without trailing whitespace.
pub open spec fn spec_trim_end(s: Seq<char>) -> Seq<char>
    decreases s.len(),
{
    if s.len() > 0 && is_ws(s[s.len() - 1]) {
        spec_trim_end(s.drop_last())
    } else {
        s
    }
}

/// The sequence without leading and trailing ASCII whitespace.
pub open spec fn spec_trim(s: Seq<char>) -> Seq<char> {
    spec_trim_end(spec_trim_start(s))
}

proof fn lemma_trim_start_range(s: Seq<char>, a: nat)
    requires
        a <= s.len(),
        forall|j: int| 0 <= j < a ==> is_ws(s[j]),
        a < s.len() ==> !is_ws(s[a as int]),
    ensures
        spec_trim_start(s) == s.subrange(a as int, s.len() as int),
    decreases a,
{
    if a == 0 {
        assert(s.subrange(0, s.len() as int) =~= s);
    } else {
        assert(is_ws(s[0]));
        lemma_trim_start_range(s.drop_first(), (a - 1) as nat);
        assert(s.drop_first().subrange(a - 1, s.drop_first().len() as int) =~= s.subrange(
            a as int,
            s.len() as int,
        ));
    }
}

proof fn lemma_trim_end_range(s: Seq<char>, b: nat)
    requires
        b <= s.len(),
        forall|j: int| b <= j < s.len() ==> is_ws(s[j]),
        b > 0 ==> !is_ws(s[b - 1]),
    ensures
        spec_trim_end(s) == s.subrange(0, b as int),
    decreases s.len() - b,
{
    if b == s.len() {
        assert(s.subrange(0, b as int) =~= s);
    } else {
        assert(is_ws(s[s.len() - 1]));
        lemma_trim_end_range(s.drop_last(), b);
        assert(s.drop_last().subrange(0, b as int) =~= s.subrange(0, b as int));
    }
}

fn is_ws_char(c: char) -> (r: bool)
    ensures
        r == is_ws(c),
{
    c == ' ' || c == '\t' || c == '\r' || c == '\n'
}

/// Removes leading and trailing ASCII whitespace.
pub fn trim_ascii(s: &str) -> (r: String)
    ensures
        r@ == spec_trim(s@),
{
    let n = s.unicode_len();
    let mut a: usize = 0;
    while a < n && is_ws_char(s.get_char(a))
        invariant
            a <= n,
            n == s@.len(),
            forall|j: int| 0 <= j < a ==> is_ws(s@[j]),
        decreases n - a,
    {
        a = a + 1;
    }
    let mut b: usize = n;
    while b > a && is_ws_char(s.get_char(b - 1))
        invariant
            a <= b <= n,
            n == s@.len(),
            forall|j: int| b <= j < n ==> is_ws(s@[j]),
        decreases b,
    {
        b = b - 1;
    }
    proof {
        lemma_trim_start_range(s@, a as nat);
        let t = s@.subrange(a as int, n as int);
        if b > a {
            lemma_trim_end_range(t, (b - a) as nat);
        } else {
            assert(forall|j: int| 0 <= j < t.len() ==> is_ws(t[j]));
            lemma_trim_end_range(t, 0);
        }
        assert(t.subrange(0, b - a) =~= s@.subrange(a as int, b as int));
    }
    s.substring_char(a, b).to_owned()
}

/// True when the string holds only whitespace.
pub open spec fn spec_is_blank(s: Seq<char>) -> bool {
    forall|j: int| 0 <= j < s.len() ==> is_ws(s[j])
}

/// Tests whether a line holds only ASCII whitespace.
pub fn is_blank(s: &str) -> (r: bool)
    ensures
        r == spec_is_blank(s@),
{
    let n = s.unicode_len();
    let mut i: usize = 0;
    while i < n
        invariant
            i <= n,
            n == s@.len(),
            forall|j: int| 0 <= j < i ==> is_ws(s@[j]),
        decreases n - i,
    {
        if !is_ws_char(s.get_char(i)) {
            return false;
        }
        i = i + 1;
    }
    true
}

/// Formats `n` in decimal.
pub fn usize_to_string(n: usize) -> (r: String)
    ensures
        r@ == spec_decimal(n as nat),
{
    let mut digits: Vec<usize> = Vec::new();
    let mut m: usize = n;
    while m >= 10
        invariant
            forall|k: int| 0 <= k < digits@.len() ==> digits@[k] < 10,
            spec_decimal(n as nat) == spec_decimal(m as nat) + Seq::new(
                digits@.len(),
                |i: int| digit_char(digits@[digits@.len() - 1 - i] as nat),
            ),
        decreases m,
    {
        let d: usize = m % 10;
        let ghost old_digits = digits@;
        digits.push(d);
        m = m / 10;
        proof {
            assert(spec_decimal(n as nat) == spec_decimal(m as nat) + Seq::new(
                digits@.len(),
                |i: int| digit_char(digits@[digits@.len() - 1 - i] as nat),
            )) by {
                assert(digits@ == old_digits.push(d as usize));
                assert(Seq::new(
                    digits@.len(),
                    |i: int| digit_char(digits@[digits@.len() - 1 - i] as nat),
                ) =~= seq![digit_char(d as nat)] + Seq::new(
                    old_digits.len(),
                    |i: int| digit_char(old_digits[old_digits.len() - 1 - i] as nat),
                ));
            }
        }
    }
    let ghost old_digits = digits@;
    digits.push(m);
    proof {
        assert(spec_decimal(n as nat) =~= Seq::new(
            digits@.len(),
            |i: int| digit_char(digits@[digits@.len() - 1 - i] as nat),
        )) by {
            assert(spec_decimal(m as nat) == seq![digit_char(m as nat)]);
            assert(Seq::new(
                digits@.len(),
                |i: int| digit_char(digits@[digits@.len() - 1 - i] as nat),
            ) =~= seq![digit_char(m as nat)] + Seq::new(
                old_digits.len(),
                |i: int| digit_char(old_digits[old_digits.len() - 1 - i] as nat),
            ));
        }
    }
    let mut r = String::new();
    let count: usize = digits.len();
    let mut j: usize = 0;
    while j < count
        invariant
            count == digits@.len(),
            forall|k: int| 0 <= k < digits@.len() ==> digits@[k] < 10,
            j <= count,
            spec_decimal(n as nat) == Seq::new(
                digits@.len(),
                |i: int| digit_char(digits@[digits@.len() - 1 - i] as nat),
            ),
            r@ =~= Seq::new(j as nat, |i: int| digit_char(digits@[digits@.len() - 1 - i] as nat)),
        decreases count - j,
    {
        r.append(digit_str(digits[count - 1 - j]));
        j = j + 1;
        proof {
            assert(r@ =~= Seq::new(
                j as nat,
                |i: int| digit_char(digits@[digits@.len() - 1 - i] as nat),
            ));
        }
    }
    proof {
        assert(r@ =~= spec_decimal(n as nat));
    }
    r
}

} // verus!
