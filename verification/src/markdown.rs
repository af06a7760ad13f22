//! Markdown helpers of the editor: task toggling, find-in-note, heading
//! anchors, and the preview model built from the parsed Markdown tree.
use vstd::prelude::*;
use crate::text::{
    byte_offset, byte_offsets, chars_of, find, find_char_from, find_char_in, find_from, find_in,
    is_boundary, is_white_space, lemma_byte_offset_bound, lemma_byte_offset_strict, push_all,
    push_char, rfind_char_before, rfind_char_in, skip_white_space, skip_ws, starts_with,
    string_of, utf8_len, char_is_whitespace, has_prefix, trim_end_index,
};

verus! {

/// The three task markers with the state each one records.
pub open spec fn task_marker(i: int) -> (Seq<char>, bool) {
    if i == 0 {
        (seq!['[', ' ', ']', ' '], false)
    } else if i == 1 {
        (seq!['[', 'x', ']', ' '], true)
    } else {
        (seq!['[', 'X', ']', ' '], true)
    }
}

/// The three bullet characters of an unordered list item.
pub open spec fn bullet(i: int) -> char {
    if i == 0 { '-' } else if i == 1 { '*' } else { '+' }
}

/// The first marker, from index `m` on, that `t` starts with.
pub open spec fn marker_after(t: Seq<char>, m: int) -> Option<(bool, Seq<char>)>
    decreases 3 - m,
{
    if m < 0 || m >= 3 {
        None
    } else if starts_with(t, task_marker(m).0) {
        Some((task_marker(m).1, t.skip(4)))
    } else {
        marker_after(t, m + 1)
    }
}

/// The first bullet `p` (from index `p` on) and marker for which `t` starts
/// with "bullet space marker".
pub open spec fn bullet_task_from(t: Seq<char>, p: int) -> Option<(bool, Seq<char>)>
    decreases 3 - p,
{
    if p < 0 || p >= 3 {
        None
    } else if t.len() >= 2 && t[0] == bullet(p) && t[1] == ' ' && marker_after(t.skip(2), 0) is Some {
        marker_after(t.skip(2), 0)
    } else {
        bullet_task_from(t, p + 1)
    }
}

/// All characters of `s` are ASCII digits.
pub open spec fn all_ascii_digits(s: Seq<char>) -> bool {
    forall|i: int| 0 <= i < s.len() ==> '0' <= #[trigger] s[i] && s[i] <= '9'
}

/// A Markdown task line: after leading white space, a bullet (`-`, `*`, `+`)
/// or an ordinal (`12.`), a space, and a marker `[ ] `, `[x] ` or `[X] `.
/// Gives whether the task is checked and the text after the marker.
pub open spec fn parsed_task_line(line: Seq<char>) -> Option<(bool, Seq<char>)> {
    let t = line.skip(skip_white_space(line, 0));
    match bullet_task_from(t, 0) {
        Some(r) => Some(r),
        None => match find(t, seq!['.', ' ']) {
            Some(dot) if dot > 0 && all_ascii_digits(t.take(dot)) => marker_after(t.skip(dot + 2), 0),
            _ => None,
        },
    }
}

/// The index where the line holding character `k` starts.
pub open spec fn line_start(s: Seq<char>, k: int) -> int {
    match rfind_char_before(s, '\n', k) {
        Some(j) => j + 1,
        None => 0,
    }
}

/// The index where the line holding character `k` ends (its newline, or the end).
pub open spec fn line_end(s: Seq<char>, k: int) -> int {
    match find_char_from(s, '\n', k) {
        Some(j) => j,
        None => s.len() as int,
    }
}

/// The fence that a line opens or closes: after leading white space, three
/// backticks or three tildes.
pub open spec fn fence_opener(line: Seq<char>) -> Option<char> {
    let t = line.skip(skip_white_space(line, 0));
    if t.len() >= 3 && t[0] == '`' && t[1] == '`' && t[2] == '`' {
        Some('`')
    } else if t.len() >= 3 && t[0] == '~' && t[1] == '~' && t[2] == '~' {
        Some('~')
    } else {
        None
    }
}

/// The fence open after `line`, given the fence `open` before it: a line of
/// the open fence's kind closes it, and outside a fence a fence line opens one.
pub open spec fn fence_step(open: Option<char>, line: Seq<char>) -> Option<char> {
    match open {
        None => fence_opener(line),
        Some(c) => if fence_opener(line) == Some(c) {
            None
        } else {
            Some(c)
        },
    }
}

/// The fenced code block open at the line that starts at index `e`, after
/// the lines before it: `None` outside fenced code.
pub open spec fn open_fence_at(s: Seq<char>, e: int) -> Option<char>
    decreases e,
{
    if e <= 0 || e > s.len() {
        None
    } else {
        let prev = line_start(s, e - 1);
        if 0 <= prev < e {
            fence_step(open_fence_at(s, prev), s.subrange(prev, e - 1))
        } else {
            None
        }
    }
}

/// Where the task marker of the item on the line of character `k` is, as the
/// index of the character between its brackets, and whether it is checked:
/// the marker right after the item's bullet or ordinal. `None` when that line
/// is not a task line or lies inside fenced code.
pub open spec fn marker_at_char(s: Seq<char>, k: int) -> Option<(int, bool)> {
    let ls = line_start(s, k);
    let line = s.subrange(ls, line_end(s, k));
    if open_fence_at(s, ls) is Some {
        None
    } else {
        match parsed_task_line(line) {
            Some((checked, text)) => Some((ls + line.len() - text.len() - 3, checked)),
            None => None,
        }
    }
}

/// The source with the task marker on the line of character `k` flipped
/// between `[ ]` and `[x]` (`[X]` becomes `[ ]`).
pub open spec fn toggled_at_char(s: Seq<char>, k: int) -> Option<Seq<char>> {
    match marker_at_char(s, k) {
        Some((i, checked)) => Some(s.update(i, if checked { ' ' } else { 'x' })),
        None => None,
    }
}

/// The character index that begins at byte `b` of `s`.
pub open spec fn char_index_at(s: Seq<char>, b: int) -> int {
    choose|k: int| 0 <= k <= s.len() && byte_offset(s, k) == b
}

/// Where the marker of the task item that starts at byte `task_offset` is,
/// and whether it is checked (see `marker_at_char`).
pub open spec fn task_marker_position(s: Seq<char>, task_offset: int) -> Option<(int, bool)> {
    if task_offset >= utf8_len(s) {
        None
    } else {
        marker_at_char(s, char_index_at(s, task_offset))
    }
}

/// The result of toggling the task whose item starts at byte `task_offset`.
pub open spec fn toggled_task(s: Seq<char>, task_offset: int) -> Option<Seq<char>> {
    match task_marker_position(s, task_offset) {
        Some((i, checked)) => Some(s.update(i, if checked { ' ' } else { 'x' })),
        None => None,
    }
}

/// The view of an optional string.
pub open spec fn opt_chars(o: Option<String>) -> Option<Seq<char>> {
    match o {
        Some(s) => Some(s@),
        None => None,
    }
}

fn marker_chars(m: usize) -> (r: Vec<char>)
    requires
        m < 3,
    ensures
        r@ == task_marker(m as int).0,
{
    let c = if m == 0 { ' ' } else if m == 1 { 'x' } else { 'X' };
    let r = vec!['[', c, ']', ' '];
    proof {
        assert(r@ =~= task_marker(m as int).0);
    }
    r
}

fn marker_after_exec(t: &[char], from: usize) -> (r: Option<(bool, usize)>)
    requires
        from <= t@.len(),
    ensures
        match r {
            Some((checked, start)) => marker_after(t@.skip(from as int), 0) == Some(
                (checked, t@.skip(start as int)),
            ) && from + 4 == start && start <= t@.len(),
            None => marker_after(t@.skip(from as int), 0) is None,
        },
{
    let ghost rest = t@.skip(from as int);
    let n = t.len();
    let mut m: usize = 0;
    while m < 3
        invariant
            n == t@.len(),
            m <= 3,
            from <= t@.len(),
            rest == t@.skip(from as int),
            marker_after(rest, 0) == marker_after(rest, m as int),
        decreases 3 - m,
    {
        let marker = marker_chars(m);
        proof {
            assert(marker@.len() == 4);
        }
        if matches_from(t, marker.as_slice(), from) {
            proof {
                assert(rest.skip(4) =~= t@.skip(from + 4));
            }
            proof {
                assert(t@.skip(from as int).len() == t@.len() - from);
                assert(from + 4 <= t@.len());
            }
            return Some((m != 0, from + 4));
        }
        m = m + 1;
    }
    None
}

/// Whether `t` from index `from` starts with `p`.
fn matches_from(t: &[char], p: &[char], from: usize) -> (r: bool)
    requires
        from <= t@.len(),
    ensures
        r == starts_with(t@.skip(from as int), p@),
{
    let r = crate::text::matches_at(t, p, from);
    proof {
        if p@.len() <= t@.len() - from {
            assert(t@.skip(from as int).take(p@.len() as int) =~= t@.subrange(
                from as int,
                from + p@.len(),
            ));
        }
    }
    r
}

/// Parses a task line after its leading white space, which starts at index `lead`.
/// Gives whether the task is checked and where the task text starts.
fn parse_task_from(line: &[char], lead: usize) -> (r: Option<(bool, usize)>)
    requires
        lead <= line@.len(),
    ensures
        match r {
            Some((checked, start)) => lead + 6 <= start <= line@.len() && ({
                let t = line@.skip(lead as int);
                match bullet_task_from(t, 0) {
                    Some(x) => x == (checked, line@.skip(start as int)),
                    None => match find(t, seq!['.', ' ']) {
                        Some(dot) => dot > 0 && all_ascii_digits(t.take(dot)) && marker_after(
                            t.skip(dot + 2),
                            0,
                        ) == Some((checked, line@.skip(start as int))),
                        None => false,
                    },
                }
            }),
            None => ({
                let t = line@.skip(lead as int);
                &&& bullet_task_from(t, 0) is None
                &&& match find(t, seq!['.', ' ']) {
                    Some(dot) => !(dot > 0 && all_ascii_digits(t.take(dot))) || marker_after(
                        t.skip(dot + 2),
                        0,
                    ) is None,
                    None => true,
                }
            }),
        },
{
    let ghost t = line@.skip(lead as int);
    let mut p: usize = 0;
    while p < 3
        invariant
            p <= 3,
            lead <= line@.len(),
            t == line@.skip(lead as int),
            bullet_task_from(t, 0) == bullet_task_from(t, p as int),
        decreases 3 - p,
    {
        let b = if p == 0 { '-' } else if p == 1 { '*' } else { '+' };
        if line.len() >= 2 && lead <= line.len() - 2 && line[lead] == b && line[lead + 1] == ' ' {
            let m = marker_after_exec(line, lead + 2);
            proof {
                assert(t.skip(2) =~= line@.skip(lead + 2));
            }
            if let Some((checked, start)) = m {
                proof {
                    assert(t.len() >= 2 && t[0] == bullet(p as int) && t[1] == ' ');
                }
                return Some((checked, start));
            }
        }
        proof {
            if !(line@.len() >= 2 && lead <= line@.len() - 2) {
                assert(!(t.len() >= 2));
            } else {
                assert(t[0] == line@[lead as int] && t[1] == line@[lead + 1]);
            }
        }
        p = p + 1;
    }
    let n = line.len();
    let dot_pattern = vec!['.', ' '];
    let dot = find_in(line, dot_pattern.as_slice(), lead);
    proof {
        lemma_find_shift(line@, dot_pattern@, lead as int);
        crate::text::lemma_find_from_occurs(line@, dot_pattern@, lead as int);
        assert(dot_pattern@ =~= seq!['.', ' ']);
    }
    match dot {
        Some(d) => {
            proof {
                assert(find_from(line@, dot_pattern@, lead as int) == Some(d as int));
                assert(crate::text::occurs_at(line@, dot_pattern@, d as int));
                assert(d + 2 <= n);
                assert(t.take(d - lead) =~= line@.subrange(lead as int, d as int));
            }
            if d > lead && digits_between(line, lead, d) {
                let m = marker_after_exec(line, d + 2);
                proof {
                    assert(t.skip(d - lead + 2) =~= line@.skip(d + 2));
                }
                m
            } else {
                None
            }
        },
        None => None,
    }
}

/// Searching a suffix agrees with searching the whole sequence from the
/// suffix's start, shifted.
pub proof fn lemma_find_shift(s: Seq<char>, p: Seq<char>, from: int)
    requires
        0 <= from <= s.len(),
    ensures
        match find_from(s, p, from) {
            Some(i) => find(s.skip(from), p) == Some(i - from),
            None => find(s.skip(from), p) is None,
        },
{
    lemma_find_shift_at(s, p, from, 0);
}

proof fn lemma_find_shift_at(s: Seq<char>, p: Seq<char>, from: int, j: int)
    requires
        0 <= from <= s.len(),
        0 <= j,
    ensures
        match find_from(s, p, from + j) {
            Some(i) => find_from(s.skip(from), p, j) == Some(i - from),
            None => find_from(s.skip(from), p, j) is None,
        },
    decreases s.len() + 1 - (from + j),
{
    let t = s.skip(from);
    if from + j + p.len() > s.len() {
    } else {
        assert(t.subrange(j, j + p.len()) =~= s.subrange(from + j, from + j + p.len()));
        if !crate::text::occurs_at(s, p, from + j) {
            lemma_find_shift_at(s, p, from, j + 1);
        }
    }
}

/// Whether every character in `[from, to)` is an ASCII digit.
fn digits_between(s: &[char], from: usize, to: usize) -> (r: bool)
    requires
        from <= to <= s@.len(),
    ensures
        r == all_ascii_digits(s@.subrange(from as int, to as int)),
{
    let mut i = from;
    while i < to
        invariant
            from <= i <= to <= s@.len(),
            forall|k: int| from <= k < i ==> '0' <= #[trigger] s@[k] && s@[k] <= '9',
        decreases to - i,
    {
        if !('0' <= s[i] && s[i] <= '9') {
            proof {
                assert(s@.subrange(from as int, to as int)[i - from] == s@[i as int]);
            }
            return false;
        }
        i = i + 1;
    }
    proof {
        assert forall|k: int| 0 <= k < s@.subrange(from as int, to as int).len() implies '0'
            <= #[trigger] s@.subrange(from as int, to as int)[k] && s@.subrange(
            from as int,
            to as int,
        )[k] <= '9' by {
            assert(s@.subrange(from as int, to as int)[k] == s@[from + k]);
        }
    }
    true
}

/// Recognises a Markdown task line: after leading white space, a bullet
/// (`-`, `*`, `+`) or an ordinal (`12.`), a space, and a marker `[ ] `,
/// `[x] ` or `[X] `. Gives whether the task is checked and its text.
pub fn parse_task_line(line: &str) -> (r: Option<(bool, String)>)
    ensures
        match r {
            Some((checked, text)) => parsed_task_line(line@) == Some((checked, text@)),
            None => parsed_task_line(line@) is None,
        },
{
    let v = chars_of(line);
    let lead = skip_ws(v.as_slice(), 0);
    proof {
        crate::text::lemma_skip_white_space_bounds(v@, 0);
    }
    match parse_task_from(v.as_slice(), lead) {
        Some((checked, start)) => {
            let text = crate::text::string_of_range(v.as_slice(), start, v.len());
            proof { assert(v@.subrange(start as int, v@.len() as int) =~= v@.skip(start as int)); }
            Some((checked, text))
        },
        None => None,
    }
}

} // verus!

verus! {

/// Toggles the task marker of the task item that starts at byte
/// `task_offset`: the marker right after the item's bullet or ordinal, where
/// `[ ]` becomes `[x]`, and `[x]` or `[X]` becomes `[ ]`. Gives `None` when the
/// offset lies past the end, its line is not a task line, or the line lies
/// inside a fenced code block, so examples holding task syntax stay code.
pub fn toggle_task_at_offset(source: &str, task_offset: usize) -> (r: Option<String>)
    requires
        utf8_len(source@) <= usize::MAX,
        task_offset >= utf8_len(source@) || is_boundary(source@, task_offset as int),
    ensures
        opt_chars(r) == toggled_task(source@, task_offset as int),
{
    let v = chars_of(source);
    let offs = byte_offsets(v.as_slice());
    let total = offs[v.len()];
    proof {
        assert(v@.take(v@.len() as int) =~= v@);
    }
    if task_offset >= total {
        return None;
    }
    let mut k: usize = 0;
    while k < v.len() && offs[k] < task_offset
        invariant
            k <= v@.len(),
            offs@.len() == v@.len() + 1,
            forall|j: int| 0 <= j <= v@.len() ==> offs@[j] == byte_offset(v@, j),
            forall|j: int| 0 <= j < k ==> byte_offset(v@, j) < task_offset,
        decreases v@.len() - k,
    {
        k = k + 1;
    }
    proof {
        let k0 = choose|j: int| 0 <= j <= v@.len() && byte_offset(v@, j) == task_offset;
        if k0 < k {
        } else if k0 > k {
            lemma_byte_offset_strict(v@, k as int, k0);
            if k == v@.len() {
            }
        }
        assert(k0 == k);
        let k1 = char_index_at(v@, task_offset as int);
        if k1 != k0 {
            if k1 < k0 {
                lemma_byte_offset_strict(v@, k1, k0);
            } else {
                lemma_byte_offset_strict(v@, k0, k1);
            }
        }
        assert(k < v@.len());
    }
    toggle_line_at(v.as_slice(), k)
}

/// Toggles the task marker on the line holding character `k`.
#[verifier::rlimit(40)]
fn toggle_line_at(v: &[char], k: usize) -> (r: Option<String>)
    requires
        k < v@.len(),
    ensures
        opt_chars(r) == toggled_at_char(v@, k as int),
{
    proof {
        crate::text::lemma_rfind_char_before(v@, '\n', k as int);
    }
    let ls = match rfind_char_in(v, '\n', k) {
        Some(j) => j + 1,
        None => 0,
    };
    let le = match find_char_in(v, '\n', k) {
        Some(j) => j,
        None => v.len(),
    };
    proof {
        crate::text::lemma_rfind_char_before(v@, '\n', k as int);
        crate::text::lemma_find_char_from(v@, '\n', k as int);
        assert(ls == line_start(v@, k as int));
        assert(le == line_end(v@, k as int));
    }
    let open = open_fence_before(v, ls);
    if open.is_some() {
        return None;
    }
    let line = crate::text::copy_range(v, ls, le);
    let lead = skip_ws(line.as_slice(), 0);
    proof {
        crate::text::lemma_skip_white_space_bounds(line@, 0);
    }
    let (checked, start) = match parse_task_from(line.as_slice(), lead) {
        Some(x) => x,
        None => return None,
    };
    let pos = ls + start - 3;
    let flipped = if checked { ' ' } else { 'x' };
    let mut out = string_of_range_prefix(v, pos);
    push_char(&mut out, flipped);
    let tail = crate::text::string_of_range(v, pos + 1, v.len());
    crate::text::push_str(&mut out, tail.as_str());
    proof {
        assert(v@.subrange(pos + 1, v@.len() as int) =~= v@.skip(pos + 1));
        assert(out@ =~= v@.update(pos as int, flipped));
    }
    Some(out)
}

/// Whether `line` opens or closes a fence, and of which kind.
fn fence_opener_exec(line: &[char]) -> (r: Option<char>)
    ensures
        r == fence_opener(line@),
{
    let lead = skip_ws(line, 0);
    proof {
        crate::text::lemma_skip_white_space_bounds(line@, 0);
    }
    if line.len() >= 3 && lead <= line.len() - 3 {
        let c = line[lead];
        if (c == '`' || c == '~') && line[lead + 1] == c && line[lead + 2] == c {
            return Some(c);
        }
    }
    None
}

/// The line starting at `b`, with no newline in `[b, j)`, is the line of `j`.
proof fn lemma_line_start_of(s: Seq<char>, b: int, j: int)
    requires
        0 <= b <= j < s.len(),
        b == 0 || s[b - 1] == '\n',
        forall|i: int| b <= i < j ==> s[i] != '\n',
    ensures
        line_start(s, j) == b,
{
    crate::text::lemma_rfind_char_before(s, '\n', j);
    match rfind_char_before(s, '\n', j) {
        Some(x) => {
            if x < b - 1 {
                assert(s[b - 1] == '\n');
            }
        },
        None => {
            if b > 0 {
                assert(s[b - 1] == '\n');
            }
        },
    }
}

/// The fenced code block open at the line that starts at `ls`.
fn open_fence_before(v: &[char], ls: usize) -> (r: Option<char>)
    requires
        ls <= v@.len(),
        ls == 0 || v@[ls - 1] == '\n',
    ensures
        r == open_fence_at(v@, ls as int),
{
    let mut open: Option<char> = None;
    let mut b: usize = 0;
    let mut j: usize = 0;
    while j < ls
        invariant
            b <= j <= ls <= v@.len(),
            ls == 0 || v@[ls - 1] == '\n',
            b == 0 || v@[b - 1] == '\n',
            forall|i: int| b <= i < j ==> v@[i] != '\n',
            open == open_fence_at(v@, b as int),
        decreases ls - j,
    {
        if v[j] == '\n' {
            let line = crate::text::copy_range(v, b, j);
            proof {
                lemma_line_start_of(v@, b as int, j as int);
            }
            let opener = fence_opener_exec(line.as_slice());
            open = match open {
                None => opener,
                Some(c) => match opener {
                    Some(d) => if d == c {
                        None
                    } else {
                        Some(c)
                    },
                    None => Some(c),
                },
            };
            b = j + 1;
        }
        j = j + 1;
    }
    proof {
        if b < ls {
            assert(v@[ls - 1] != '\n');
        }
    }
    open
}

fn string_of_range_prefix(v: &[char], to: usize) -> (s: String)
    requires
        to <= v@.len(),
    ensures
        s@ == v@.take(to as int),
{
    let s = crate::text::string_of_range(v, 0, to);
    proof {
        assert(v@.subrange(0, to as int) =~= v@.take(to as int));
    }
    s
}

} // verus!

verus! {

/// Builds a heading anchor one character at a time: letters, digits and `_`
/// are kept in lower case; a run of white space or `-` after some kept text
/// becomes one `-`. The flag records that the text ends in such a `-`.
pub open spec fn slug_fold(s: Seq<char>) -> (Seq<char>, bool)
    decreases s.len(),
{
    if s.len() == 0 {
        (Seq::empty(), false)
    } else {
        let (out, dash) = slug_fold(s.drop_last());
        let ch = s.last();
        if crate::text::is_alphanumeric(ch) || ch == '_' {
            (out + crate::text::char_lowercase(ch), false)
        } else if (is_white_space(ch) || ch == '-') && out.len() > 0 && !dash {
            (out.push('-'), true)
        } else {
            (out, dash)
        }
    }
}

/// The heading anchor of `s`, with no `-` at either end.
pub open spec fn slugified(s: Seq<char>) -> Seq<char> {
    crate::text::trim_char(slug_fold(s).0, '-')
}

/// The GitHub-style anchor of a heading text.
pub fn slugify(value: &str) -> (r: String)
    ensures
        r@ == slugified(value@),
{
    let v = chars_of(value);
    slugify_chars(v.as_slice())
}

fn slugify_chars(v: &[char]) -> (r: String)
    ensures
        r@ == slugified(v@),
{
    let mut out: Vec<char> = Vec::new();
    let mut previous_dash = false;
    let mut i: usize = 0;
    while i < v.len()
        invariant
            i <= v@.len(),
            (out@, previous_dash) == slug_fold(v@.take(i as int)),
        decreases v@.len() - i,
    {
        let ch = v[i];
        proof {
            assert(v@.take(i + 1).drop_last() =~= v@.take(i as int));
        }
        if crate::text::char_is_alphanumeric(ch) || ch == '_' {
            let lower = crate::text::char_to_lowercase(ch);
            let mut j: usize = 0;
            let ghost base = out@;
            while j < lower.len()
                invariant
                    j <= lower@.len(),
                    out@ == base + lower@.take(j as int),
                decreases lower@.len() - j,
            {
                out.push(lower[j]);
                proof {
                    assert(lower@.take(j + 1) =~= lower@.take(j as int).push(lower@[j as int]));
                }
                j = j + 1;
            }
            proof {
                assert(lower@.take(lower@.len() as int) =~= lower@);
            }
            previous_dash = false;
        } else if (char_is_whitespace(ch) || ch == '-') && out.len() > 0 && !previous_dash {
            out.push('-');
            previous_dash = true;
        }
        i = i + 1;
    }
    proof {
        assert(v@.take(v@.len() as int) =~= v@);
    }
    let end = crate::text::trim_end_pair_in(out.as_slice(), '-', '-', out.len());
    proof {
        crate::text::lemma_trim_end_pair_bounds(out@, '-', '-', out@.len() as int);
    }
    let prefix = crate::text::copy_range(out.as_slice(), 0, end);
    let start = crate::text::skip_char_in(prefix.as_slice(), '-', 0);
    proof {
        assert(prefix@ =~= out@.take(end as int));
        crate::text::lemma_skip_char_bounds(prefix@, '-', 0);
    }
    crate::text::string_of_range(out.as_slice(), start, end)
}

/// The starting indices of the non-overlapping occurrences of `q` in `s` at or
/// after `from`, scanning left to right.
pub open spec fn match_starts(s: Seq<char>, q: Seq<char>, from: int) -> Seq<int>
    decreases s.len() + 1 - from,
{
    if from < 0 || q.len() == 0 {
        Seq::empty()
    } else {
        match find_from(s, q, from) {
            Some(p) => {
                proof {
                    crate::text::lemma_find_from_occurs(s, q, from);
                }
                seq![p] + match_starts(s, q, p + q.len())
            },
            None => Seq::empty(),
        }
    }
}

/// The byte ranges `(start, end)` of the non-overlapping occurrences of `q` in
/// `s`, in order; none for an empty query.
pub open spec fn match_ranges(s: Seq<char>, q: Seq<char>) -> Seq<(usize, usize)> {
    match_starts(s, q, 0).map_values(|p: int| range_at(s, q, p))
}

/// The byte range of the occurrence of `q` at character `p` of `s`.
pub open spec fn range_at(s: Seq<char>, q: Seq<char>, p: int) -> (usize, usize) {
    (byte_offset(s, p) as usize, byte_offset(s, p + q.len()) as usize)
}

/// The byte ranges of the non-overlapping occurrences of `query` in `source`,
/// left to right; none for an empty query.
pub fn find_matches(source: &str, query: &str) -> (r: Vec<(usize, usize)>)
    requires
        utf8_len(source@) <= usize::MAX,
    ensures
        r@ == match_ranges(source@, query@),
{
    let v = chars_of(source);
    let q = chars_of(query);
    let mut out: Vec<(usize, usize)> = Vec::new();
    if q.len() == 0 {
        proof {
            assert(out@ =~= match_ranges(source@, query@));
        }
        return out;
    }
    let offs = byte_offsets(v.as_slice());
    let ghost f = |p: int| range_at(source@, query@, p);
    let mut from: usize = 0;
    while from <= v.len()
        invariant
            q@.len() > 0,
            v@ == source@,
            q@ == query@,
            f == (|p: int| range_at(source@, query@, p)),
            offs@.len() == v@.len() + 1,
            forall|j: int| 0 <= j <= v@.len() ==> offs@[j] == byte_offset(v@, j),
            out@ + match_starts(v@, q@, from as int).map_values(f) == match_starts(
                v@,
                q@,
                0,
            ).map_values(f),
        decreases v@.len() + 1 - from,
    {
        proof {
            crate::text::lemma_find_from_occurs(v@, q@, from as int);
        }
        match find_in(v.as_slice(), q.as_slice(), from) {
            Some(p) => {
                let end = p + q.len();
                let ghost rest = match_starts(v@, q@, end as int);
                proof {
                    assert(match_starts(v@, q@, from as int) == seq![p as int] + rest);
                    assert((seq![p as int] + rest).map_values(f) =~= seq![f(p as int)]
                        + rest.map_values(f));
                }
                proof {
                    assert(end <= v@.len());
                }
                let pair = (offs[p], offs[end]);
                proof {
                    assert(offs@[p as int] == byte_offset(v@, p as int));
                    assert(offs@[end as int] == byte_offset(v@, end as int));
                    assert(byte_offset(v@, p as int) <= usize::MAX);
                    assert(byte_offset(v@, end as int) <= usize::MAX);
                    assert(v@ == source@ && q@ == query@);
                    assert(pair == f(p as int));
                }
                out.push(pair);
                proof {
                    assert(out@ + rest.map_values(f) =~= out@.drop_last() + (seq![f(p as int)]
                        + rest.map_values(f)));
                }
                from = end;
            },
            None => {
                proof {
                    assert(out@ + match_starts(v@, q@, from as int).map_values(f) =~= out@);
                    assert(match_starts(v@, q@, 0) == match_starts(source@, query@, 0));
                    assert(match_starts(v@, q@, 0).map_values(f) =~= match_ranges(source@, query@));
                }
                return out;
            },
        }
    }
    proof {
        assert(match_starts(v@, q@, from as int).map_values(f) =~= Seq::<(usize, usize)>::empty());
        assert(out@ + match_starts(v@, q@, from as int).map_values(f) =~= out@);
        assert(match_starts(v@, q@, 0) == match_starts(source@, query@, 0));
                    assert(match_starts(v@, q@, 0).map_values(f) =~= match_ranges(source@, query@));
    }
    out
}

} // verus!

verus! {

/// The index just past the line starting at `i` (past its newline, if any).
pub open spec fn next_line(s: Seq<char>, i: int) -> int {
    match find_char_from(s, '\n', i) {
        Some(j) => j + 1,
        None => s.len() as int,
    }
}

/// The character range of the heading text on the line `s[i..next]` when the
/// line is an ATX heading (one to six `#`) whose anchor is `req`.
pub open spec fn heading_on_line(s: Seq<char>, req: Seq<char>, i: int, next: int) -> Option<(int, int)> {
    let line = s.subrange(i, next);
    let wn = crate::text::trim_end_pair_index(line, '\r', '\n', line.len() as int);
    let body = line.take(wn);
    let lead = skip_white_space(body, 0);
    let hashes_end = crate::text::skip_char(body, '#', lead);
    if 1 <= hashes_end - lead <= 6 {
        let hs = skip_white_space(body, hashes_end);
        if slugified(body.subrange(hs, wn)) == req {
            Some((i + hs, i + wn))
        } else {
            None
        }
    } else {
        None
    }
}

/// The first heading at or after the line starting at `i` whose anchor is `req`.
pub open spec fn heading_from(s: Seq<char>, req: Seq<char>, i: int) -> Option<(int, int)>
    decreases s.len() - i,
{
    if i < 0 || i >= s.len() {
        None
    } else {
        proof {
            crate::text::lemma_find_char_from(s, '\n', i);
        }
        match heading_on_line(s, req, i, next_line(s, i)) {
            Some(r) => Some(r),
            None => heading_from(s, req, next_line(s, i)),
        }
    }
}

/// The byte range of the text of the first heading whose anchor matches
/// `anchor` (leading `#`s ignored).
pub open spec fn heading_range(s: Seq<char>, anchor: Seq<char>) -> Option<(usize, usize)> {
    let req = slugified(anchor.skip(crate::text::skip_char(anchor, '#', 0)));
    match heading_from(s, req, 0) {
        Some((a, b)) => Some((byte_offset(s, a) as usize, byte_offset(s, b) as usize)),
        None => None,
    }
}

fn heading_on_line_exec(v: &[char], req: &str, i: usize, next: usize) -> (r: Option<(usize, usize)>)
    requires
        i <= next <= v@.len(),
    ensures
        match r {
            Some((a, b)) => heading_on_line(v@, req@, i as int, next as int) == Some(
                (a as int, b as int),
            ) && a <= b <= v@.len(),
            None => heading_on_line(v@, req@, i as int, next as int) is None,
        },
{
    let line = crate::text::copy_range(v, i, next);
    let wn = crate::text::trim_end_pair_in(line.as_slice(), '\r', '\n', line.len());
    proof {
        crate::text::lemma_trim_end_pair_bounds(line@, '\r', '\n', line@.len() as int);
    }
    let body = crate::text::copy_range(line.as_slice(), 0, wn);
    proof {
        assert(body@ =~= line@.take(wn as int));
    }
    let lead = skip_ws(body.as_slice(), 0);
    proof {
        crate::text::lemma_skip_white_space_bounds(body@, 0);
    }
    let hashes_end = crate::text::skip_char_in(body.as_slice(), '#', lead);
    proof {
        crate::text::lemma_skip_char_bounds(body@, '#', lead as int);
    }
    let count = hashes_end - lead;
    if 1 <= count && count <= 6 {
        let hs = skip_ws(body.as_slice(), hashes_end);
        proof {
            crate::text::lemma_skip_white_space_bounds(body@, hashes_end as int);
        }
        let text = crate::text::copy_range(body.as_slice(), hs, wn);
        let slug = slugify_chars(text.as_slice());
        if crate::text::str_eq(slug.as_str(), req) {
            return Some((i + hs, i + wn));
        }
    }
    None
}

/// The byte range of the text of the first ATX heading (one to six `#`) whose
/// anchor matches `requested_anchor` (leading `#`s ignored).
pub fn find_heading_range(source: &str, requested_anchor: &str) -> (r: Option<(usize, usize)>)
    requires
        utf8_len(source@) <= usize::MAX,
    ensures
        r == heading_range(source@, requested_anchor@),
{
    let anchor = chars_of(requested_anchor);
    let skip = crate::text::skip_char_in(anchor.as_slice(), '#', 0);
    proof {
        crate::text::lemma_skip_char_bounds(anchor@, '#', 0);
    }
    let trimmed_anchor = crate::text::copy_range(anchor.as_slice(), skip, anchor.len());
    proof {
        assert(trimmed_anchor@ =~= anchor@.skip(skip as int));
    }
    let requested = slugify_chars(trimmed_anchor.as_slice());
    let v = chars_of(source);
    let offs = byte_offsets(v.as_slice());
    let mut i: usize = 0;
    while i < v.len()
        invariant
            v@ == source@,
            requested@ == slugified(
                requested_anchor@.skip(crate::text::skip_char(requested_anchor@, '#', 0)),
            ),
            i <= v@.len(),
            offs@.len() == v@.len() + 1,
            forall|j: int| 0 <= j <= v@.len() ==> offs@[j] == byte_offset(v@, j),
            heading_from(v@, requested@, i as int) == heading_from(v@, requested@, 0),
        decreases v@.len() - i,
    {
        proof {
            crate::text::lemma_find_char_from(v@, '\n', i as int);
        }
        let next = match find_char_in(v.as_slice(), '\n', i) {
            Some(j) => j + 1,
            None => v.len(),
        };
        match heading_on_line_exec(v.as_slice(), requested.as_str(), i, next) {
            Some((a, b)) => {
                proof {
                    assert(next == next_line(v@, i as int));
                    assert(heading_from(v@, requested@, i as int) == Some((a as int, b as int)));
                    assert(offs@[a as int] == byte_offset(v@, a as int));
                    assert(offs@[b as int] == byte_offset(v@, b as int));
                    assert(byte_offset(v@, a as int) <= usize::MAX);
                    assert(byte_offset(v@, b as int) <= usize::MAX);
                }
                return Some((offs[a], offs[b]));
            },
            None => {
                proof {
                    assert(next == next_line(v@, i as int));
                }
            },
        }
        i = next;
    }
    None
}

} // verus!

verus! {

/// A task marker flipped between `[ ]` and `[x]` reads as the other marker,
/// with the same text after it.
proof fn lemma_marker_flip(u: Seq<char>, c: bool, rest: Seq<char>, f: char)
    requires
        marker_after(u, 0) == Some((c, rest)),
        f == ' ' || f == 'x',
    ensures
        u.len() >= 4,
        rest == u.skip(4),
        !c ==> u[1] == ' ',
        c ==> (u[1] == 'x' || u[1] == 'X'),
        marker_after(u.update(1, f), 0) == Some((f == 'x', u.skip(4))),
{
    reveal_with_fuel(marker_after, 4);
    let v = u.update(1, f);
    assert(u.len() >= 4);
    let h = u.take(4);
    assert(h[0] == u[0] && h[1] == u[1] && h[2] == u[2] && h[3] == u[3]);
    assert(u[0] == '[' && u[2] == ']' && u[3] == ' ');
    assert(v.skip(4) =~= u.skip(4));
    if f == ' ' {
        assert(v.take(4) =~= task_marker(0).0);
    } else {
        assert(v[1] == 'x');
        assert(v.take(4)[1] != task_marker(0).0[1]);
        assert(v.take(4) =~= task_marker(1).0);
    }
}

/// Skipping leading white space looks at nothing past where it stops.
proof fn lemma_skip_white_space_agree(a: Seq<char>, b: Seq<char>, i: int)
    requires
        0 <= i <= a.len(),
        a.len() == b.len(),
        forall|j: int| i <= j <= skip_white_space(a, i) && j < a.len() ==> a[j] == b[j],
    ensures
        skip_white_space(b, i) == skip_white_space(a, i),
    decreases a.len() - i,
{
    crate::text::lemma_skip_white_space_bounds(a, i);
    if i < a.len() {
        assert(a[i] == b[i]);
        if is_white_space(a[i]) {
            crate::text::lemma_skip_white_space_bounds(a, i + 1);
            lemma_skip_white_space_agree(a, b, i + 1);
        }
    }
}

/// The first occurrence of a pattern is found in any sequence that agrees up
/// to the end of that occurrence.
proof fn lemma_find_from_agree(a: Seq<char>, b: Seq<char>, p: Seq<char>, i: int, r: int)
    requires
        0 <= i <= r,
        find_from(a, p, i) == Some(r),
        a.len() == b.len(),
        forall|j: int| 0 <= j < r + p.len() && j < a.len() ==> a[j] == b[j],
    ensures
        find_from(b, p, i) == Some(r),
    decreases r - i,
{
    crate::text::lemma_find_from_occurs(a, p, i);
    assert(i + p.len() <= a.len());
    assert(a.subrange(i, i + p.len()) =~= b.subrange(i, i + p.len()));
    if i < r {
        lemma_find_from_agree(a, b, p, i + 1, r);
    }
}

/// Flipping the marker of a task line between `[ ]` and `[x]` gives the task
/// line of the other state, with the same text.
proof fn lemma_task_line_flip(line: Seq<char>, c: bool, text: Seq<char>, f: char)
    requires
        parsed_task_line(line) == Some((c, text)),
        f == ' ' || f == 'x',
    ensures
        ({
            let p = line.len() - text.len() - 3;
            &&& skip_white_space(line, 0) + 3 <= p < line.len()
            &&& !c ==> line[p] == ' '
            &&& c ==> (line[p] == 'x' || line[p] == 'X')
            &&& parsed_task_line(line.update(p, f)) == Some((f == 'x', text))
        }),
{
    reveal_with_fuel(bullet_task_from, 4);
    crate::text::lemma_skip_white_space_bounds(line, 0);
    let lead = skip_white_space(line, 0);
    let t = line.skip(lead);
    match bullet_task_from(t, 0) {
        Some(x) => {
            assert(x == (c, text));
            assert(t.len() >= 2);
            lemma_marker_flip(t.skip(2), c, text, f);
            let p = lead + 3;
            assert(text.len() == line.len() - lead - 6);
            let line2 = line.update(p, f);
            lemma_skip_white_space_agree(line, line2, 0);
            let t2 = line2.skip(lead);
            assert(t2[0] == t[0] && t2[1] == t[1]);
            assert(t2.skip(2) =~= t.skip(2).update(1, f));
            assert(t.skip(2).skip(4) =~= t.skip(6));
            assert(t2.skip(6) =~= t.skip(6));
            assert(t.skip(2)[1] == line[p]);
        },
        None => {
            let dot = find(t, seq!['.', ' ']).unwrap();
            assert(dot > 0 && all_ascii_digits(t.take(dot)));
            crate::text::lemma_find_from_occurs(t, seq!['.', ' '], 0);
            assert(dot + 2 <= t.len());
            lemma_marker_flip(t.skip(dot + 2), c, text, f);
            let p = lead + dot + 3;
            assert(text.len() == line.len() - lead - dot - 6);
            let line2 = line.update(p, f);
            lemma_skip_white_space_agree(line, line2, 0);
            let t2 = line2.skip(lead);
            assert(t2 =~= t.update(dot + 3, f));
            assert(t.take(dot)[0] == t[0]);
            assert('0' <= t[0] && t[0] <= '9');
            assert(t2[0] == t[0]);
            assert(bullet_task_from(t2, 0) is None);
            lemma_find_from_agree(t, t2, seq!['.', ' '], 0, dot);
            assert(t2.take(dot) =~= t.take(dot));
            assert(t2.skip(dot + 2) =~= t.skip(dot + 2).update(1, f));
            assert(t.skip(dot + 2).skip(4) =~= t2.skip(dot + 2).skip(4));
            assert(t.skip(dot + 2)[1] == line[p]);
        },
    }
}


/// Sequences whose characters have the same UTF-8 widths have the same
/// UTF-8 length.
proof fn lemma_utf8_len_agree(a: Seq<char>, b: Seq<char>)
    requires
        a.len() == b.len(),
        forall|j: int| 0 <= j < a.len() ==> crate::text::char_width(#[trigger] a[j])
            == crate::text::char_width(b[j]),
    ensures
        utf8_len(a) == utf8_len(b),
    decreases a.len(),
{
    if a.len() > 0 {
        lemma_utf8_len_agree(a.drop_last(), b.drop_last());
    }
}

/// The last newline before `end` is where it was when no newline before
/// `end` moved.
proof fn lemma_rfind_agree(a: Seq<char>, b: Seq<char>, c: char, end: int)
    requires
        a.len() == b.len(),
        forall|j: int| 0 <= j < end && j < a.len() ==> (a[j] == c) == (b[j] == c),
    ensures
        rfind_char_before(a, c, end) == rfind_char_before(b, c, end),
    decreases end,
{
    if end > 0 && end <= a.len() {
        lemma_rfind_agree(a, b, c, end - 1);
    }
}

/// The first newline from `i` on is where it was when no newline moved.
proof fn lemma_find_char_agree(a: Seq<char>, b: Seq<char>, c: char, i: int)
    requires
        a.len() == b.len(),
        forall|j: int| 0 <= j < a.len() ==> (a[j] == c) == (b[j] == c),
    ensures
        find_char_from(a, c, i) == find_char_from(b, c, i),
    decreases a.len() - i,
{
    if 0 <= i < a.len() {
        lemma_find_char_agree(a, b, c, i + 1);
    }
}

/// The fence open at a line depends only on the text before it.
proof fn lemma_open_fence_agree(a: Seq<char>, b: Seq<char>, e: int)
    requires
        a.len() == b.len(),
        e <= a.len(),
        forall|j: int| 0 <= j < e ==> a[j] == b[j],
    ensures
        open_fence_at(a, e) == open_fence_at(b, e),
    decreases e,
{
    if e > 0 {
        lemma_rfind_agree(a, b, '\n', e - 1);
        let prev = line_start(a, e - 1);
        if 0 <= prev < e {
            lemma_open_fence_agree(a, b, prev);
            assert(a.subrange(prev, e - 1) =~= b.subrange(prev, e - 1));
        }
    }
}

/// Toggling the same task twice gives the source back where its marker is
/// `[ ]` or `[x]` (an upper-case `[X]` comes back as `[x]`): a toggle changes
/// only the character between the item's brackets, and the item's marker
/// stays where it was.
pub proof fn law_toggling_twice_restores(s: Seq<char>, task_offset: int)
    requires
        is_boundary(s, task_offset),
        task_marker_position(s, task_offset) matches Some((i, _)) && s[i] != 'X',
    ensures
        match task_marker_position(s, task_offset) {
            Some((i, checked)) => {
                let t = s.update(i, if checked { ' ' } else { 'x' });
                &&& s[i] == (if checked { 'x' } else { ' ' })
                &&& toggled_task(s, task_offset) == Some(t)
                &&& task_marker_position(t, task_offset) == Some((i, !checked))
                &&& toggled_task(t, task_offset) == Some(s)
            },
            None => false,
        },
{
    let o = task_offset;
    let k = char_index_at(s, o);
    let (i, checked) = task_marker_position(s, o).unwrap();
    assert(0 <= k <= s.len() && byte_offset(s, k) == o);
    if k == s.len() {
        assert(s.take(k) =~= s);
    }
    let ls = line_start(s, k);
    let le = line_end(s, k);
    crate::text::lemma_rfind_char_before(s, '\n', k);
    crate::text::lemma_find_char_from(s, '\n', k);
    let line = s.subrange(ls, le);
    let (c, text) = parsed_task_line(line).unwrap();
    let f = if checked { ' ' } else { 'x' };
    lemma_task_line_flip(line, c, text, f);
    crate::text::lemma_skip_white_space_bounds(line, 0);
    let p = line.len() - text.len() - 3;
    assert(i == ls + p);
    assert(k < s.len());
    assert(0 <= ls <= k <= le <= s.len());
    assert(0 <= p < line.len());
    assert(line[p] == s[ls + p]);
    assert(s[i] == line[p]);
    let t = s.update(i, f);
    assert forall|j: int| 0 <= j < s.len() implies crate::text::char_width(#[trigger] s[j])
        == crate::text::char_width(t[j]) by {
        if j == i {
            assert(crate::text::char_width(' ') == 1);
            assert(crate::text::char_width('x') == 1);
        }
    }
    assert forall|j: int| 0 <= j <= s.len() implies #[trigger] byte_offset(s, j) == byte_offset(t, j) by {
        lemma_utf8_len_agree(s.take(j), t.take(j));
    }
    let k2 = char_index_at(t, o);
    assert(byte_offset(t, k) == o);
    assert(0 <= k2 <= t.len() && byte_offset(t, k2) == o);
    if k2 < k {
        lemma_byte_offset_strict(s, k2, k);
    } else if k < k2 {
        lemma_byte_offset_strict(s, k, k2);
    }
    assert(k2 == k);
    lemma_utf8_len_agree(s, t);
    lemma_rfind_agree(s, t, '\n', k);
    lemma_find_char_agree(s, t, '\n', k);
    assert(line_start(t, k) == ls && line_end(t, k) == le);
    assert(t.subrange(ls, le) =~= line.update(p, f));
    lemma_open_fence_agree(s, t, ls);
    assert(marker_at_char(t, k) == Some((i, !checked)));
    let f2 = if !checked { ' ' } else { 'x' };
    assert(s[i] == f2);
    assert(t.update(i, f2) =~= s);
}

/// A line `c [m] text` with a bullet `c` and no newline in `text` toggles at
/// offset 0 to the same line with the other marker.
proof fn lemma_bullet_line_toggles(c: char, m: char, text: Seq<char>)
    requires
        c == '-' || c == '*' || c == '+',
        m == ' ' || m == 'x',
        forall|i: int| 0 <= i < text.len() ==> text[i] != '\n',
    ensures
        toggled_task(seq![c, ' ', '[', m, ']', ' '] + text, 0) == Some(
            seq![c, ' ', '[', if m == ' ' { 'x' } else { ' ' }, ']', ' '] + text,
        ),
{
    reveal_with_fuel(bullet_task_from, 4);
    reveal_with_fuel(marker_after, 4);
    let s = seq![c, ' ', '[', m, ']', ' '] + text;
    let f = if m == ' ' { 'x' } else { ' ' };
    assert(s.take(0) =~= Seq::<char>::empty());
    assert(byte_offset(s, 0) == 0);
    assert(s.drop_last().len() >= 0);
    assert(utf8_len(s) > 0);
    let k = char_index_at(s, 0);
    assert(is_boundary(s, 0));
    if k > 0 {
        lemma_byte_offset_strict(s, 0, k);
    }
    assert(k == 0);
    crate::text::lemma_find_char_from(s, '\n', 0);
    assert forall|i: int| 0 <= i < s.len() implies s[i] != '\n' by {
        if i >= 6 {
            assert(s[i] == text[i - 6]);
        }
    }
    assert(line_end(s, 0) == s.len());
    assert(line_start(s, 0) == 0);
    let line = s.subrange(0, s.len() as int);
    assert(line =~= s);
    assert(skip_white_space(s, 0) == 0);
    assert(s.skip(0) =~= s);
    assert(s.skip(2).take(4) =~= seq!['[', m, ']', ' ']);
    assert(s.skip(2).skip(4) =~= text);
    if m == ' ' {
        assert(s.skip(2).take(4) =~= task_marker(0).0);
    } else {
        assert(s.skip(2).take(4) =~= task_marker(1).0);
    }
    assert(parsed_task_line(line) == Some((m == 'x', text)));
    assert(s.update(3, f) =~= seq![c, ' ', '[', f, ']', ' '] + text);
}

/// A task item written with any of the three bullets `-`, `*` and `+`
/// toggles at its start: `[ ]` becomes `[x]` and `[x]` becomes `[ ]`, and
/// nothing else of the line changes.
pub proof fn law_every_bullet_toggles(text: Seq<char>)
    requires
        forall|i: int| 0 <= i < text.len() ==> text[i] != '\n',
    ensures
        toggled_task(seq!['-', ' ', '[', ' ', ']', ' '] + text, 0) == Some(seq!['-', ' ', '[', 'x', ']', ' '] + text),
        toggled_task(seq!['*', ' ', '[', ' ', ']', ' '] + text, 0) == Some(seq!['*', ' ', '[', 'x', ']', ' '] + text),
        toggled_task(seq!['+', ' ', '[', ' ', ']', ' '] + text, 0) == Some(seq!['+', ' ', '[', 'x', ']', ' '] + text),
        toggled_task(seq!['-', ' ', '[', 'x', ']', ' '] + text, 0) == Some(seq!['-', ' ', '[', ' ', ']', ' '] + text),
        toggled_task(seq!['*', ' ', '[', 'x', ']', ' '] + text, 0) == Some(seq!['*', ' ', '[', ' ', ']', ' '] + text),
        toggled_task(seq!['+', ' ', '[', 'x', ']', ' '] + text, 0) == Some(seq!['+', ' ', '[', ' ', ']', ' '] + text),
{
    lemma_bullet_line_toggles('-', ' ', text);
    lemma_bullet_line_toggles('*', ' ', text);
    lemma_bullet_line_toggles('+', ' ', text);
    lemma_bullet_line_toggles('-', 'x', text);
    lemma_bullet_line_toggles('*', 'x', text);
    lemma_bullet_line_toggles('+', 'x', text);
}
} // verus!
