use vstd::prelude::*;
use crate::text::{chars_of, string_from_chars};

verus! {

/// `c` is white space in the sense of Unicode's `White_Space` property,
/// which is what `str::trim` removes.
pub open spec fn is_space(c: char) -> bool {
    ||| ('\u{9}' <= c && c <= '\u{d}')
    ||| c == ' '
    ||| c == '\u{85}'
    ||| c == '\u{a0}'
    ||| c == '\u{1680}'
    ||| ('\u{2000}' <= c && c <= '\u{200a}')
    ||| c == '\u{2028}'
    ||| c == '\u{2029}'
    ||| c == '\u{202f}'
    ||| c == '\u{205f}'
    ||| c == '\u{3000}'
}

/// `s` with every `"\r\n"` and then every remaining `'\r'` turned into `'\n'`.
pub open spec fn normalize_line_endings(s: Seq<char>) -> Seq<char>
    decreases s.len(),
{
    if s.len() == 0 {
        s
    } else if s[0] == '\r' && s.len() >= 2 && s[1] == '\n' {
        seq!['\n'] + normalize_line_endings(s.skip(2))
    } else if s[0] == '\r' {
        seq!['\n'] + normalize_line_endings(s.skip(1))
    } else {
        seq![s[0]] + normalize_line_endings(s.skip(1))
    }
}

/// The pieces of `s` between `'\n'` separators; `s` with `k` separators has
/// `k + 1` pieces.
pub open spec fn split_lines(s: Seq<char>) -> Seq<Seq<char>>
    decreases s.len(),
{
    if s.len() == 0 {
        seq![Seq::<char>::empty()]
    } else {
        let prev = split_lines(s.drop_last());
        if s.last() == '\n' {
            prev.push(Seq::<char>::empty())
        } else {
            prev.drop_last().push(prev.last().push(s.last()))
        }
    }
}

/// The part of `line` before its first `'#'` (all of it when there is none).
pub open spec fn strip_comment(line: Seq<char>) -> Seq<char>
    decreases line.len(),
{
    if line.len() == 0 {
        line
    } else if line[0] == '#' {
        Seq::<char>::empty()
    } else {
        seq![line[0]] + strip_comment(line.skip(1))
    }
}

/// `s` without its leading white space.
pub open spec fn trim_start(s: Seq<char>) -> Seq<char>
    decreases s.len(),
{
    if s.len() > 0 && is_space(s[0]) {
        trim_start(s.skip(1))
    } else {
        s
    }
}

/// `s` without its trailing white space.
pub open spec fn trim_end(s: Seq<char>) -> Seq<char>
    decreases s.len(),
{
    if s.len() > 0 && is_space(s.last()) {
        trim_end(s.drop_last())
    } else {
        s
    }
}

/// `s` without surrounding white space.
pub open spec fn trim(s: Seq<char>) -> Seq<char> {
    trim_end(trim_start(s))
}

/// What one line of the allow-list contributes: the text before its first
/// `'#'`, trimmed; empty when the line holds no entry.
pub open spec fn line_entry(line: Seq<char>) -> Seq<char> {
    trim(strip_comment(line))
}

/// The non-empty entries of `lines`, in order.
pub open spec fn entries_of(lines: Seq<Seq<char>>) -> Seq<Seq<char>>
    decreases lines.len(),
{
    if lines.len() == 0 {
        Seq::<Seq<char>>::empty()
    } else {
        let prev = entries_of(lines.drop_last());
        let e = line_entry(lines.last());
        if e.len() == 0 {
            prev
        } else {
            prev.push(e)
        }
    }
}

/// The entries that an allow-list text holds, in the order of their lines.
pub open spec fn parse_allow_list_spec(text: Seq<char>) -> Seq<Seq<char>> {
    entries_of(split_lines(normalize_line_endings(text)))
}

/// The views of a vector of strings.
pub open spec fn string_views(v: Seq<String>) -> Seq<Seq<char>> {
    v.map_values(|s: String| s@)
}

/// Whether `c` is white space (Unicode `White_Space`).
pub fn is_space_char(c: char) -> (r: bool)
    ensures
        r == is_space(c),
{
    ('\u{9}' <= c && c <= '\u{d}') || c == ' ' || c == '\u{85}' || c == '\u{a0}'
        || c == '\u{1680}' || ('\u{2000}' <= c && c <= '\u{200a}') || c == '\u{2028}'
        || c == '\u{2029}' || c == '\u{202f}' || c == '\u{205f}' || c == '\u{3000}'
}

/// Turns `"\r\n"` and lone `'\r'` into `'\n'`.
pub fn normalize_line_endings_of(s: &Vec<char>) -> (r: Vec<char>)
    ensures
        r@ == normalize_line_endings(s@),
{
    let mut out: Vec<char> = Vec::new();
    let mut i: usize = 0;
    assert(s@.subrange(0, s@.len() as int) =~= s@);
    assert(out@ + normalize_line_endings(s@) =~= normalize_line_endings(s@));
    while i < s.len()
        invariant
            i <= s.len(),
            normalize_line_endings(s@) == out@ + normalize_line_endings(s@.subrange(i as int, s@.len() as int)),
        decreases s.len() - i,
    {
        let ghost rest = s@.subrange(i as int, s@.len() as int);
        if s[i] == '\r' && i + 1 < s.len() && s[i + 1] == '\n' {
            assert(rest.skip(2) =~= s@.subrange(i + 2, s@.len() as int));
            out.push('\n');
            i = i + 2;
        } else if s[i] == '\r' {
            assert(rest.skip(1) =~= s@.subrange(i + 1, s@.len() as int));
            out.push('\n');
            i = i + 1;
        } else {
            assert(rest.skip(1) =~= s@.subrange(i + 1, s@.len() as int));
            out.push(s[i]);
            i = i + 1;
        }
        assert(normalize_line_endings(s@) == out@ + normalize_line_endings(s@.subrange(i as int, s@.len() as int)));
    }
    assert(s@.subrange(i as int, s@.len() as int) =~= Seq::<char>::empty());
    assert(out@ + Seq::<char>::empty() =~= out@);
    out
}

proof fn lemma_split_lines_nonempty(s: Seq<char>)
    ensures
        split_lines(s).len() >= 1,
    decreases s.len(),
{
    if s.len() > 0 {
        lemma_split_lines_nonempty(s.drop_last());
    }
}

/// The views of a vector of character vectors.
pub open spec fn char_views(v: Seq<Vec<char>>) -> Seq<Seq<char>> {
    v.map_values(|l: Vec<char>| l@)
}

/// Splits `s` at each `'\n'`.
pub fn split_lines_of(s: &Vec<char>) -> (r: Vec<Vec<char>>)
    ensures
        char_views(r@) == split_lines(s@),
{
    let mut done: Vec<Vec<char>> = Vec::new();
    let mut cur: Vec<char> = Vec::new();
    let mut i: usize = 0;
    while i < s.len()
        invariant
            i <= s.len(),
            split_lines(s@.subrange(0, i as int)) == char_views(done@).push(cur@),
        decreases s.len() - i,
    {
        let ghost prefix = s@.subrange(0, i as int + 1);
        let ghost prev = char_views(done@).push(cur@);
        let ghost old_done = done@;
        let ghost old_cur = cur@;
        assert(prefix.drop_last() =~= s@.subrange(0, i as int));
        assert(prefix.last() == s@[i as int]);
        if s[i] == '\n' {
            let line = cur;
            done.push(line);
            cur = Vec::new();
            assert(char_views(done@) =~= char_views(old_done).push(old_cur));
        } else {
            cur.push(s[i]);
            assert(prev.drop_last() =~= char_views(done@));
            assert(prev.last() == old_cur);
        }
        i = i + 1;
        assert(split_lines(s@.subrange(0, i as int)) =~= char_views(done@).push(cur@));
    }
    assert(s@.subrange(0, i as int) =~= s@);
    done.push(cur);
    assert(char_views(done@) =~= split_lines(s@));
    done
}

proof fn lemma_strip_comment_at(line: Seq<char>, j: int)
    requires
        0 <= j <= line.len(),
        forall|k: int| 0 <= k < j ==> line[k] != '#',
        j == line.len() || line[j] == '#',
    ensures
        strip_comment(line) == line.subrange(0, j),
    decreases j,
{
    if j == 0 {
        if line.len() > 0 {
            assert(line[0] == '#');
        }
        assert(line.subrange(0, 0) =~= Seq::<char>::empty());
    } else {
        lemma_strip_comment_at(line.skip(1), j - 1);
        assert(seq![line[0]] + line.skip(1).subrange(0, j - 1) =~= line.subrange(0, j));
    }
}

/// Copies `v[from..to]` into a new vector.
fn copy_range(v: &Vec<char>, from: usize, to: usize) -> (r: Vec<char>)
    requires
        from <= to <= v.len(),
    ensures
        r@ == v@.subrange(from as int, to as int),
{
    let mut out: Vec<char> = Vec::new();
    let mut i: usize = from;
    while i < to
        invariant
            from <= i <= to <= v.len(),
            out@ == v@.subrange(from as int, i as int),
        decreases to - i,
    {
        out.push(v[i]);
        i = i + 1;
        assert(out@ =~= v@.subrange(from as int, i as int));
    }
    out
}

/// The entry that one line of an allow-list holds: the text before its first
/// `'#'`, without surrounding white space. Empty when the line holds none.
pub fn line_entry_of(line: &Vec<char>) -> (r: Vec<char>)
    ensures
        r@ == line_entry(line@),
{
    let mut j: usize = 0;
    while j < line.len() && line[j] != '#'
        invariant
            j <= line.len(),
            forall|k: int| 0 <= k < j ==> line@[k] != '#',
        decreases line.len() - j,
    {
        j = j + 1;
    }
    proof {
        lemma_strip_comment_at(line@, j as int);
    }
    let ghost body = line@.subrange(0, j as int);
    let mut lo: usize = 0;
    while lo < j && is_space_char(line[lo])
        invariant
            lo <= j <= line.len(),
            body == line@.subrange(0, j as int),
            trim_start(body) == trim_start(line@.subrange(lo as int, j as int)),
        decreases j - lo,
    {
        let ghost rest = line@.subrange(lo as int, j as int);
        assert(rest.skip(1) =~= line@.subrange(lo + 1, j as int));
        lo = lo + 1;
    }
    proof {
        assert(body =~= line@.subrange(0, j as int));
    }
    let mut hi: usize = j;
    while hi > lo && is_space_char(line[hi - 1])
        invariant
            lo <= hi <= j <= line.len(),
            trim_start(body) == line@.subrange(lo as int, j as int),
            trim_end(trim_start(body)) == trim_end(line@.subrange(lo as int, hi as int)),
        decreases hi - lo,
    {
        let ghost rest = line@.subrange(lo as int, hi as int);
        assert(rest.drop_last() =~= line@.subrange(lo as int, hi - 1));
        hi = hi - 1;
    }
    copy_range(line, lo, hi)
}

/// Parses an allow-list text: line endings are normalized, each line keeps
/// the text before its first `'#'` with surrounding white space removed, and
/// each non-empty result is one entry, in the order of the lines.
pub fn parse_allow_list(text: &str) -> (r: Vec<String>)
    ensures
        string_views(r@) == parse_allow_list_spec(text@),
{
    let chars = chars_of(text);
    let normalized = normalize_line_endings_of(&chars);
    let lines = split_lines_of(&normalized);
    let ghost all = char_views(lines@);
    let mut out: Vec<String> = Vec::new();
    let mut i: usize = 0;
    while i < lines.len()
        invariant
            i <= lines.len(),
            all == char_views(lines@),
            all == split_lines(normalize_line_endings(text@)),
            string_views(out@) == entries_of(all.subrange(0, i as int)),
        decreases lines.len() - i,
    {
        let entry = line_entry_of(&lines[i]);
        let ghost part = all.subrange(0, i as int + 1);
        assert(part.drop_last() =~= all.subrange(0, i as int));
        assert(part.last() == lines@[i as int]@);
        if entry.len() > 0 {
            let ghost before = out@;
            let s = string_from_chars(&entry);
            out.push(s);
            assert(string_views(out@) =~= string_views(before).push(entry@));
        }
        i = i + 1;
    }
    assert(all.subrange(0, i as int) =~= all);
    out
}

/// The allow-list text that lists `entries`, one per line, each line ended
/// by `'\n'`.
pub open spec fn render_allow_list(entries: Seq<Seq<char>>) -> Seq<char>
    decreases entries.len(),
{
    if entries.len() == 0 {
        Seq::<char>::empty()
    } else {
        render_allow_list(entries.drop_last()) + entries.last() + seq!['\n']
    }
}

/// `e` is an entry as parsing yields it: non-empty, on one line, free of
/// `'#'`, and without surrounding white space.
pub open spec fn is_clean_entry(e: Seq<char>) -> bool {
    &&& e.len() > 0
    &&& forall|k: int| 0 <= k < e.len() ==> #[trigger] e[k] != '\n' && e[k] != '\r' && e[k] != '#'
    &&& !is_space(e[0])
    &&& !is_space(e.last())
}

/// `s` holds neither `'\n'` nor `'\r'`.
pub open spec fn is_single_line(s: Seq<char>) -> bool {
    forall|k: int| 0 <= k < s.len() ==> #[trigger] s[k] != '\n' && s[k] != '\r'
}

proof fn lemma_normalize_has_no_cr(s: Seq<char>)
    ensures
        forall|k: int| 0 <= k < normalize_line_endings(s).len() ==> #[trigger] normalize_line_endings(s)[k] != '\r',
    decreases s.len(),
{
    if s.len() > 0 {
        let rest = if s[0] == '\r' && s.len() >= 2 && s[1] == '\n' {
            s.skip(2)
        } else {
            s.skip(1)
        };
        lemma_normalize_has_no_cr(rest);
        let n = normalize_line_endings(s);
        assert(n == seq![n[0]] + normalize_line_endings(rest));
        assert forall|k: int| 0 <= k < n.len() implies #[trigger] n[k] != '\r' by {
            if k > 0 {
                assert(n[k] == normalize_line_endings(rest)[k - 1]);
            }
        }
    }
}

proof fn lemma_normalize_without_cr(s: Seq<char>)
    requires
        forall|k: int| 0 <= k < s.len() ==> #[trigger] s[k] != '\r',
    ensures
        normalize_line_endings(s) == s,
    decreases s.len(),
{
    if s.len() > 0 {
        assert(s[0] != '\r');
        assert forall|k: int| 0 <= k < s.skip(1).len() implies #[trigger] s.skip(1)[k] != '\r' by {
            assert(s.skip(1)[k] == s[k + 1]);
        }
        lemma_normalize_without_cr(s.skip(1));
        assert(seq![s[0]] + s.skip(1) =~= s);
    }
}

proof fn lemma_split_lines_single(s: Seq<char>)
    requires
        forall|k: int| 0 <= k < s.len() ==> #[trigger] s[k] != '\r',
    ensures
        split_lines(s).len() >= 1,
        forall|i: int| 0 <= i < split_lines(s).len() ==> is_single_line(#[trigger] split_lines(s)[i]),
    decreases s.len(),
{
    lemma_split_lines_nonempty(s);
    if s.len() > 0 {
        let prev = s.drop_last();
        lemma_split_lines_single(prev);
        let lines = split_lines(prev);
        if s.last() != '\n' {
            let grown = lines.last().push(s.last());
            assert(is_single_line(lines[lines.len() - 1]));
            assert(is_single_line(grown)) by {
                assert forall|k: int| 0 <= k < grown.len() implies #[trigger] grown[k] != '\n' && grown[k] != '\r' by {
                    if k < grown.len() - 1 {
                        assert(grown[k] == lines[lines.len() - 1][k]);
                    }
                }
            }
            assert forall|i: int| 0 <= i < split_lines(s).len() implies is_single_line(#[trigger] split_lines(s)[i]) by {
                if i < lines.len() - 1 {
                    assert(split_lines(s)[i] == lines[i]);
                }
            }
        } else {
            assert forall|i: int| 0 <= i < split_lines(s).len() implies is_single_line(#[trigger] split_lines(s)[i]) by {
                if i < lines.len() {
                    assert(split_lines(s)[i] == lines[i]);
                }
            }
        }
    }
}

proof fn lemma_strip_comment_prefix(line: Seq<char>)
    ensures
        strip_comment(line).len() <= line.len(),
        forall|k: int| 0 <= k < strip_comment(line).len() ==> #[trigger] strip_comment(line)[k] == line[k]
            && line[k] != '#',
    decreases line.len(),
{
    if line.len() > 0 && line[0] != '#' {
        lemma_strip_comment_prefix(line.skip(1));
        assert forall|k: int| 0 <= k < strip_comment(line).len() implies #[trigger] strip_comment(line)[k] == line[k]
            && line[k] != '#' by {
            if k > 0 {
                assert(strip_comment(line)[k] == strip_comment(line.skip(1))[k - 1]);
            }
        }
    }
}

proof fn lemma_trim_start_suffix(s: Seq<char>) -> (a: int)
    ensures
        0 <= a <= s.len(),
        trim_start(s) == s.subrange(a, s.len() as int),
        a < s.len() ==> !is_space(s[a]),
    decreases s.len(),
{
    if s.len() > 0 && is_space(s[0]) {
        let b = lemma_trim_start_suffix(s.skip(1));
        assert(s.skip(1).subrange(b, s.skip(1).len() as int) =~= s.subrange(b + 1, s.len() as int));
        b + 1
    } else {
        assert(s.subrange(0, s.len() as int) =~= s);
        0
    }
}

proof fn lemma_trim_end_prefix(s: Seq<char>) -> (b: int)
    ensures
        0 <= b <= s.len(),
        trim_end(s) == s.subrange(0, b),
        b > 0 ==> !is_space(s[b - 1]),
    decreases s.len(),
{
    if s.len() > 0 && is_space(s.last()) {
        let b = lemma_trim_end_prefix(s.drop_last());
        assert(s.drop_last().subrange(0, b) =~= s.subrange(0, b));
        b
    } else {
        assert(s.subrange(0, s.len() as int) =~= s);
        s.len() as int
    }
}

proof fn lemma_line_entry_clean(line: Seq<char>)
    requires
        is_single_line(line),
    ensures
        line_entry(line).len() > 0 ==> is_clean_entry(line_entry(line)),
{
    lemma_strip_comment_prefix(line);
    let body = strip_comment(line);
    let a = lemma_trim_start_suffix(body);
    let t = trim_start(body);
    let b = lemma_trim_end_prefix(t);
    let e = line_entry(line);
    if e.len() > 0 {
        assert forall|k: int| 0 <= k < e.len() implies #[trigger] e[k] != '\n' && e[k] != '\r' && e[k] != '#' by {
            assert(e[k] == t[k]);
            assert(t[k] == body[a + k]);
            assert(body[a + k] == line[a + k]);
        }
        assert(e[0] == t[0]);
        assert(t[0] == body[a]);
        assert(e.last() == t[b - 1]);
    }
}

proof fn lemma_entries_clean(lines: Seq<Seq<char>>)
    requires
        forall|i: int| 0 <= i < lines.len() ==> is_single_line(#[trigger] lines[i]),
    ensures
        forall|i: int| 0 <= i < entries_of(lines).len() ==> is_clean_entry(#[trigger] entries_of(lines)[i]),
    decreases lines.len(),
{
    if lines.len() > 0 {
        let prev = lines.drop_last();
        assert forall|i: int| 0 <= i < prev.len() implies is_single_line(#[trigger] prev[i]) by {
            assert(prev[i] == lines[i]);
        }
        lemma_entries_clean(prev);
        assert(is_single_line(lines[lines.len() - 1]));
        lemma_line_entry_clean(lines.last());
        let es = entries_of(lines);
        let before = entries_of(prev);
        assert forall|i: int| 0 <= i < es.len() implies is_clean_entry(#[trigger] es[i]) by {
            if i < before.len() {
                assert(es[i] == before[i]);
            }
        }
    }
}

/// Every entry that parsing yields is clean.
pub proof fn lemma_parsed_entries_clean(text: Seq<char>)
    ensures
        forall|i: int| 0 <= i < parse_allow_list_spec(text).len()
            ==> is_clean_entry(#[trigger] parse_allow_list_spec(text)[i]),
{
    let n = normalize_line_endings(text);
    lemma_normalize_has_no_cr(text);
    lemma_split_lines_single(n);
    lemma_entries_clean(split_lines(n));
}

proof fn lemma_split_lines_append_line(s: Seq<char>, t: Seq<char>)
    requires
        forall|k: int| 0 <= k < t.len() ==> #[trigger] t[k] != '\n',
    ensures
        split_lines(s + t) == split_lines(s).drop_last().push(split_lines(s).last() + t),
    decreases t.len(),
{
    lemma_split_lines_nonempty(s);
    if t.len() == 0 {
        assert(s + t =~= s);
        assert(split_lines(s).last() + t =~= split_lines(s).last());
        assert(split_lines(s).drop_last().push(split_lines(s).last()) =~= split_lines(s));
    } else {
        let u = t.drop_last();
        assert forall|k: int| 0 <= k < u.len() implies #[trigger] u[k] != '\n' by {
            assert(u[k] == t[k]);
        }
        lemma_split_lines_append_line(s, u);
        assert((s + t).drop_last() =~= s + u);
        assert((s + t).last() == t.last());
        assert(split_lines(s).last() + u + seq![t.last()] =~= split_lines(s).last() + t);
        let lines = split_lines(s + u);
        assert(t[t.len() - 1] != '\n');
        assert(split_lines(s + t) == lines.drop_last().push(lines.last().push(t.last())));
        assert(lines.drop_last() =~= split_lines(s).drop_last());
        assert(lines.last() == split_lines(s).last() + u);
        assert(lines.last().push(t.last()) =~= split_lines(s).last() + t);
    }
}

proof fn lemma_render_no_cr(entries: Seq<Seq<char>>)
    requires
        forall|i: int| 0 <= i < entries.len() ==> is_clean_entry(#[trigger] entries[i]),
    ensures
        forall|k: int| 0 <= k < render_allow_list(entries).len() ==> #[trigger] render_allow_list(entries)[k] != '\r',
    decreases entries.len(),
{
    if entries.len() > 0 {
        let prev = entries.drop_last();
        assert forall|i: int| 0 <= i < prev.len() implies is_clean_entry(#[trigger] prev[i]) by {
            assert(prev[i] == entries[i]);
        }
        lemma_render_no_cr(prev);
        let e = entries.last();
        assert(is_clean_entry(entries[entries.len() - 1]));
        let r = render_allow_list(prev);
        assert forall|k: int| 0 <= k < render_allow_list(entries).len() implies #[trigger] render_allow_list(entries)[k] != '\r' by {
            if k < r.len() {
                assert(render_allow_list(entries)[k] == r[k]);
            } else if k < r.len() + e.len() {
                assert(render_allow_list(entries)[k] == e[k - r.len()]);
            }
        }
    }
}

proof fn lemma_split_render(entries: Seq<Seq<char>>)
    requires
        forall|i: int| 0 <= i < entries.len() ==> is_clean_entry(#[trigger] entries[i]),
    ensures
        split_lines(render_allow_list(entries)) == entries.push(Seq::<char>::empty()),
    decreases entries.len(),
{
    if entries.len() == 0 {
        assert(split_lines(Seq::<char>::empty()) =~= entries.push(Seq::<char>::empty()));
    } else {
        let prev = entries.drop_last();
        assert forall|i: int| 0 <= i < prev.len() implies is_clean_entry(#[trigger] prev[i]) by {
            assert(prev[i] == entries[i]);
        }
        lemma_split_render(prev);
        let e = entries.last();
        assert(is_clean_entry(entries[entries.len() - 1]));
        let r = render_allow_list(prev);
        lemma_split_lines_append_line(r, e);
        assert(Seq::<char>::empty() + e =~= e);
        assert(split_lines(r + e) =~= prev.push(e));
        let full = r + e + seq!['\n'];
        assert(full.drop_last() =~= r + e);
        assert(prev.push(e) =~= entries);
    }
}

proof fn lemma_clean_entry_survives(e: Seq<char>)
    requires
        is_clean_entry(e),
    ensures
        line_entry(e) == e,
{
    lemma_strip_comment_at(e, e.len() as int);
    assert(e.subrange(0, e.len() as int) =~= e);
}

proof fn lemma_entries_of_clean(entries: Seq<Seq<char>>)
    requires
        forall|i: int| 0 <= i < entries.len() ==> is_clean_entry(#[trigger] entries[i]),
    ensures
        entries_of(entries) == entries,
    decreases entries.len(),
{
    if entries.len() > 0 {
        let prev = entries.drop_last();
        assert forall|i: int| 0 <= i < prev.len() implies is_clean_entry(#[trigger] prev[i]) by {
            assert(prev[i] == entries[i]);
        }
        lemma_entries_of_clean(prev);
        assert(is_clean_entry(entries[entries.len() - 1]));
        lemma_clean_entry_survives(entries.last());
        assert(prev.push(entries.last()) =~= entries);
    }
}

/// Writing clean entries one per line and parsing the text gives them back,
/// in order.
pub proof fn lemma_parse_render(entries: Seq<Seq<char>>)
    requires
        forall|i: int| 0 <= i < entries.len() ==> is_clean_entry(#[trigger] entries[i]),
    ensures
        parse_allow_list_spec(render_allow_list(entries)) == entries,
{
    lemma_render_no_cr(entries);
    lemma_normalize_without_cr(render_allow_list(entries));
    lemma_split_render(entries);
    let lines = entries.push(Seq::<char>::empty());
    assert(lines.drop_last() =~= entries);
    assert(strip_comment(Seq::<char>::empty()) == Seq::<char>::empty());
    lemma_entries_of_clean(entries);
}

/// Parsing is idempotent: the entries of a text, written back one per line,
/// parse to the same entries in the same order.
pub proof fn lemma_parse_idempotent(text: Seq<char>)
    ensures
        parse_allow_list_spec(render_allow_list(parse_allow_list_spec(text))) == parse_allow_list_spec(text),
{
    lemma_parsed_entries_clean(text);
    lemma_parse_render(parse_allow_list_spec(text));
}

} // verus!
