//! The workspace model: opaque entry ids, entry kinds, and the rules that
//! every backend applies to ids, names, backups and assets.
use vstd::prelude::*;
use crate::text::{
    ascii_lower, ascii_lowercase, chars_of, ends_with, has_suffix, owned, push_all, push_char,
    push_str, string_of, trim, trim_bounds,
};

verus! {

/// An opaque, `/`-separated id of an entry relative to the workspace root.
pub type EntryId = String;

/// Whether an entry is a note (file) or a folder.
#[derive(Clone, Copy, PartialEq, Eq, Debug, Structural)]
pub enum EntryKind {
    File,
    Directory,
}

/// One row of the notes tree.
#[derive(Clone, Debug)]
pub struct WorkspaceEntry {
    pub id: EntryId,
    pub name: String,
    pub kind: EntryKind,
    pub depth: usize,
}

/// Where a Markdown link leads: a note and an optional heading anchor.
#[derive(Clone, Debug)]
pub struct LinkTarget {
    pub id: EntryId,
    pub anchor: Option<String>,
}

/// Why a workspace rule rejected a request.
#[derive(Clone, Copy, PartialEq, Eq, Debug, Structural)]
pub enum WorkspaceError {
    /// The id is absolute or climbs out of the workspace with `..`.
    EscapesWorkspace,
    /// The name is empty, `.`, `..`, or holds a path separator.
    InvalidName,
    /// The id names no entry (it has no last component).
    NoName,
    /// No workspace is open.
    NoWorkspace,
    /// The workspace path is empty.
    EmptyPath,
}

/// The splitting of `s` at `/`: the finished segments and the segment being read.
pub open spec fn split_fold(s: Seq<char>) -> (Seq<Seq<char>>, Seq<char>)
    decreases s.len(),
{
    if s.len() == 0 {
        (Seq::empty(), Seq::empty())
    } else {
        let (done, cur) = split_fold(s.drop_last());
        if s.last() == '/' {
            (done.push(cur), Seq::empty())
        } else {
            (done, cur.push(s.last()))
        }
    }
}

/// The `/`-separated segments of `s`, empty ones included.
pub open spec fn segments(s: Seq<char>) -> Seq<Seq<char>> {
    split_fold(s).0.push(split_fold(s).1)
}

/// The path `..`.
pub open spec fn dot_dot() -> Seq<char> {
    seq!['.', '.']
}

/// An id escapes the workspace when it is absolute or has a `..` segment.
pub open spec fn id_escapes(s: Seq<char>) -> bool {
    (s.len() > 0 && s[0] == '/') || segments(s).contains(dot_dot())
}

/// A segment that names an entry: neither empty nor `.`.
pub open spec fn is_named_segment(seg: Seq<char>) -> bool {
    seg.len() > 0 && seg != seq!['.']
}

/// The segments of `segs` that name entries, in order.
pub open spec fn named(segs: Seq<Seq<char>>) -> Seq<Seq<char>>
    decreases segs.len(),
{
    if segs.len() == 0 {
        segs
    } else if is_named_segment(segs.last()) {
        named(segs.drop_last()).push(segs.last())
    } else {
        named(segs.drop_last())
    }
}

/// `parts` joined with `/`.
pub open spec fn join_slash(parts: Seq<Seq<char>>) -> Seq<char>
    decreases parts.len(),
{
    if parts.len() == 0 {
        Seq::empty()
    } else if parts.len() == 1 {
        parts[0]
    } else {
        join_slash(parts.drop_last()).push('/') + parts.last()
    }
}

/// The folder under which the snapshots of a note are kept.
pub open spec fn backup_root() -> Seq<char> {
    seq!['.', 'm', 'a', 'r', 'k', 'e', 'r', 'u', 'p', '/', 'b', 'a', 'c', 'k', 'u', 'p', 's']
}

/// The backup folder of note `id`: its path mirrored under `.markerup/backups`.
pub open spec fn backup_directory(id: Seq<char>) -> Result<Seq<char>, WorkspaceError> {
    if id_escapes(id) {
        Err(WorkspaceError::EscapesWorkspace)
    } else if named(segments(id)).len() == 0 {
        Err(WorkspaceError::NoName)
    } else {
        Ok(backup_root().push('/') + join_slash(named(segments(id))))
    }
}

/// A name is valid when, trimmed, it is a single non-empty path component.
pub open spec fn valid_name(name: Seq<char>) -> bool {
    let t = trim(name);
    t.len() > 0 && t != seq!['.'] && t != dot_dot() && !t.contains('/') && !t.contains('\\')
}

/// The view of a result carrying a string.
pub open spec fn result_chars(r: Result<String, WorkspaceError>) -> Result<Seq<char>, WorkspaceError> {
    match r {
        Ok(s) => Ok(s@),
        Err(e) => Err(e),
    }
}

/// The segments of `v`, computed in one pass.
fn split_segments(v: &[char]) -> (r: Vec<Vec<char>>)
    ensures
        r@.len() == segments(v@).len(),
        forall|i: int| 0 <= i < r@.len() ==> #[trigger] r@[i]@ == segments(v@)[i],
{
    let mut done: Vec<Vec<char>> = Vec::new();
    let mut cur: Vec<char> = Vec::new();
    let mut i: usize = 0;
    while i < v.len()
        invariant
            i <= v@.len(),
            done@.len() == split_fold(v@.take(i as int)).0.len(),
            forall|k: int| 0 <= k < done@.len() ==> #[trigger] done@[k]@ == split_fold(
                v@.take(i as int),
            ).0[k],
            cur@ == split_fold(v@.take(i as int)).1,
        decreases v@.len() - i,
    {
        proof {
            assert(v@.take(i + 1).drop_last() =~= v@.take(i as int));
        }
        if v[i] == '/' {
            let finished = cur;
            done.push(finished);
            cur = Vec::new();
            proof {
                assert(cur@ =~= Seq::<char>::empty());
            }
        } else {
            cur.push(v[i]);
        }
        i = i + 1;
    }
    proof {
        assert(v@.take(v@.len() as int) =~= v@);
    }
    done.push(cur);
    done
}

fn is_dot_dot(seg: &Vec<char>) -> (r: bool)
    ensures
        r == (seg@ == dot_dot()),
{
    let r = seg.len() == 2 && seg[0] == '.' && seg[1] == '.';
    proof {
        if seg@.len() == 2 && seg@[0] == '.' && seg@[1] == '.' {
            assert(seg@ =~= dot_dot());
        }
    }
    r
}

fn is_named(seg: &Vec<char>) -> (r: bool)
    ensures
        r == is_named_segment(seg@),
{
    let r = seg.len() > 0 && !(seg.len() == 1 && seg[0] == '.');
    proof {
        if seg@.len() == 1 && seg@[0] == '.' {
            assert(seg@ =~= seq!['.']);
        }
    }
    r
}

fn escapes(v: &[char], segs: &Vec<Vec<char>>) -> (r: bool)
    requires
        segs@.len() == segments(v@).len(),
        forall|i: int| 0 <= i < segs@.len() ==> #[trigger] segs@[i]@ == segments(v@)[i],
    ensures
        r == id_escapes(v@),
{
    if v.len() > 0 && v[0] == '/' {
        return true;
    }
    let mut i: usize = 0;
    while i < segs.len()
        invariant
            i <= segs@.len(),
            segs@.len() == segments(v@).len(),
            forall|k: int| 0 <= k < segs@.len() ==> #[trigger] segs@[k]@ == segments(v@)[k],
            forall|k: int| 0 <= k < i ==> segments(v@)[k] != dot_dot(),
        decreases segs@.len() - i,
    {
        if is_dot_dot(&segs[i]) {
            proof {
                assert(segments(v@)[i as int] == dot_dot());
            }
            return true;
        }
        i = i + 1;
    }
    false
}

/// Checks that `id` stays inside the workspace: it is relative and has no
/// `..` segment. Gives the id back when it does.
pub fn validate_id(id: &str) -> (r: Result<EntryId, WorkspaceError>)
    ensures
        result_chars(r) == if id_escapes(id@) {
            Err(WorkspaceError::EscapesWorkspace)
        } else {
            Ok(id@)
        },
{
    let v = chars_of(id);
    let segs = split_segments(v.as_slice());
    if escapes(v.as_slice(), &segs) {
        Err(WorkspaceError::EscapesWorkspace)
    } else {
        Ok(owned(id))
    }
}

/// Checks that a new entry name is a single path component; gives it trimmed.
pub fn validate_name(name: &str) -> (r: Result<String, WorkspaceError>)
    ensures
        result_chars(r) == if valid_name(name@) {
            Ok(trim(name@))
        } else {
            Err(WorkspaceError::InvalidName)
        },
{
    let v = chars_of(name);
    let (start, end) = trim_bounds(v.as_slice());
    let t = crate::text::copy_range(v.as_slice(), start, end);
    let n = t.len();
    let dot = n == 1 && t[0] == '.';
    let dotdot = n == 2 && t[0] == '.' && t[1] == '.';
    proof {
        if n == 1 && t@[0] == '.' {
            assert(t@ =~= seq!['.']);
        }
        if n == 2 && t@[0] == '.' && t@[1] == '.' {
            assert(t@ =~= dot_dot());
        }
    }
    if n == 0 || dot || dotdot || has_char(t.as_slice(), '/') || has_char(t.as_slice(), '\\') {
        return Err(WorkspaceError::InvalidName);
    }
    Ok(string_of(t.as_slice()))
}

/// Whether `c` occurs in `v`.
pub fn has_char(v: &[char], c: char) -> (r: bool)
    ensures
        r == v@.contains(c),
{
    let mut i: usize = 0;
    while i < v.len()
        invariant
            i <= v@.len(),
            forall|k: int| 0 <= k < i ==> v@[k] != c,
        decreases v@.len() - i,
    {
        if v[i] == c {
            return true;
        }
        i = i + 1;
    }
    false
}

/// The segments of `v` that name entries, in order.
pub fn named_segments(v: &[char]) -> (r: Vec<Vec<char>>)
    ensures
        r@.len() == named(segments(v@)).len(),
        forall|k: int| 0 <= k < r@.len() ==> #[trigger] r@[k]@ == named(segments(v@))[k],
{
    let segs = split_segments(v);
    let ghost all = segments(v@);
    let mut kept: Vec<Vec<char>> = Vec::new();
    let mut i: usize = 0;
    while i < segs.len()
        invariant
            i <= segs@.len(),
            all == segments(v@),
            segs@.len() == all.len(),
            forall|k: int| 0 <= k < segs@.len() ==> #[trigger] segs@[k]@ == all[k],
            kept@.len() == named(all.take(i as int)).len(),
            forall|k: int| 0 <= k < kept@.len() ==> #[trigger] kept@[k]@ == named(
                all.take(i as int),
            )[k],
        decreases segs@.len() - i,
    {
        proof {
            assert(all.take(i + 1).drop_last() =~= all.take(i as int));
        }
        if is_named(&segs[i]) {
            kept.push(segs[i].clone());
        }
        i = i + 1;
    }
    proof {
        assert(all.take(all.len() as int) =~= all);
    }
    kept
}

/// The backup folder of a note: its path mirrored under `.markerup/backups`.
pub fn backup_directory_id(id: &str) -> (r: Result<String, WorkspaceError>)
    ensures
        result_chars(r) == backup_directory(id@),
{
    let v = chars_of(id);
    let segs = split_segments(v.as_slice());
    if escapes(v.as_slice(), &segs) {
        return Err(WorkspaceError::EscapesWorkspace);
    }
    let kept = named_segments(v.as_slice());
    if kept.len() == 0 {
        return Err(WorkspaceError::NoName);
    }
    let mut out = string_of(vec!['.', 'm', 'a', 'r', 'k', 'e', 'r', 'u', 'p', '/', 'b', 'a', 'c', 'k', 'u', 'p', 's', '/'].as_slice());
    proof {
        assert(out@ =~= backup_root().push('/'));
    }
    let ghost parts = named(segments(v@));
    let ghost prefix = out@;
    let mut j: usize = 0;
    while j < kept.len()
        invariant
            j <= kept@.len(),
            kept@.len() == parts.len(),
            parts.len() > 0,
            forall|k: int| 0 <= k < kept@.len() ==> #[trigger] kept@[k]@ == parts[k],
            j == 0 ==> out@ == prefix,
            j > 0 ==> out@ == prefix + join_slash(parts.take(j as int)),
        decreases kept@.len() - j,
    {
        if j > 0 {
            push_char(&mut out, '/');
        }
        push_all(&mut out, kept[j].as_slice());
        proof {
            let t = parts.take(j + 1);
            assert(t.drop_last() =~= parts.take(j as int));
            if j > 0 {
                assert(out@ =~= prefix + (join_slash(parts.take(j as int)).push('/') + parts[j as int]));
            } else {
                assert(t.len() == 1);
                assert(out@ =~= prefix + join_slash(t));
            }
        }
        j = j + 1;
    }
    proof {
        assert(parts.take(parts.len() as int) =~= parts);
    }
    Ok(out)
}

/// The file name of a backup snapshot taken under `suffix`.
pub fn backup_snapshot_name(suffix: &str) -> (r: String)
    ensures
        r@ == suffix@ + seq!['.', 'm', 'd'],
{
    let mut r = owned(suffix);
    push_char(&mut r, '.');
    push_char(&mut r, 'm');
    push_char(&mut r, 'd');
    proof {
        assert(r@ =~= suffix@ + seq!['.', 'm', 'd']);
    }
    r
}

/// The image extensions the preview can show.
pub open spec fn supported_asset_extension(ext: Seq<char>) -> bool {
    let e = ascii_lower(ext);
    e == seq!['p', 'n', 'g'] || e == seq!['j', 'p', 'g'] || e == seq!['j', 'p', 'e', 'g']
        || e == seq!['g', 'i', 'f'] || e == seq!['w', 'e', 'b', 'p'] || e == seq!['s', 'v', 'g']
}

/// The extension of a file name: the text after its last `.`, when that `.`
/// is not the name's first character.
pub open spec fn extension(name: Seq<char>) -> Option<Seq<char>> {
    match crate::text::rfind_char_before(name, '.', name.len() as int) {
        Some(i) if i > 0 => Some(name.skip(i + 1)),
        _ => None,
    }
}

/// The file name of `path`: its last component that names an entry, unless
/// that component is `..`.
pub open spec fn file_name(path: Seq<char>) -> Option<Seq<char>> {
    let n = named(segments(path));
    if n.len() == 0 || n.last() == dot_dot() {
        None
    } else {
        Some(n.last())
    }
}

/// Whether `path` names an image the preview can show (by its extension, in
/// any case).
pub open spec fn is_supported_asset_path(path: Seq<char>) -> bool {
    match file_name(path) {
        Some(name) => match extension(name) {
            Some(ext) => supported_asset_extension(ext),
            None => false,
        },
        None => false,
    }
}

/// The extension of the file that `path` names.
pub open spec fn path_extension(path: Seq<char>) -> Option<Seq<char>> {
    match file_name(path) {
        Some(name) => extension(name),
        None => None,
    }
}

/// The extension of the file that `path` names, as `Path::extension` reads it.
pub fn extension_of(path: &str) -> (r: Option<Vec<char>>)
    ensures
        match r {
            Some(e) => path_extension(path@) == Some(e@),
            None => path_extension(path@) is None,
        },
{
    let v = chars_of(path);
    let kept = named_segments(v.as_slice());
    if kept.len() == 0 {
        return None;
    }
    let last = kept.len() - 1;
    if is_dot_dot(&kept[last]) {
        return None;
    }
    let name = kept[last].clone();
    proof {
        assert(name@ == named(segments(v@)).last());
        crate::text::lemma_rfind_char_before(name@, '.', name@.len() as int);
    }
    let dot = match crate::text::rfind_char_in(name.as_slice(), '.', name.len()) {
        Some(i) => i,
        None => return None,
    };
    if dot == 0 {
        return None;
    }
    let ext = crate::text::copy_range(name.as_slice(), dot + 1, name.len());
    proof {
        assert(ext@ =~= name@.skip(dot + 1));
    }
    Some(ext)
}

/// Whether `path` names an image the preview can show.
pub fn is_supported_asset(path: &str) -> (r: bool)
    ensures
        r == is_supported_asset_path(path@),
{
    let ext = match extension_of(path) {
        Some(e) => e,
        None => return false,
    };
    let e = ascii_lowercase(ext.as_slice());
    let png = vec!['p', 'n', 'g'];
    let jpg = vec!['j', 'p', 'g'];
    let jpeg = vec!['j', 'p', 'e', 'g'];
    let gif = vec!['g', 'i', 'f'];
    let webp = vec!['w', 'e', 'b', 'p'];
    let svg = vec!['s', 'v', 'g'];
    proof {
        assert(png@ =~= seq!['p', 'n', 'g']);
        assert(jpg@ =~= seq!['j', 'p', 'g']);
        assert(jpeg@ =~= seq!['j', 'p', 'e', 'g']);
        assert(gif@ =~= seq!['g', 'i', 'f']);
        assert(webp@ =~= seq!['w', 'e', 'b', 'p']);
        assert(svg@ =~= seq!['s', 'v', 'g']);
    }
    eq_lit(&e, &png) || eq_lit(&e, &jpg) || eq_lit(&e, &jpeg) || eq_lit(&e, &gif)
        || eq_lit(&e, &webp) || eq_lit(&e, &svg)
}

pub(crate) fn eq_lit(a: &Vec<char>, b: &Vec<char>) -> (r: bool)
    ensures
        r == (a@ == b@),
{
    crate::text::seq_eq(a.as_slice(), b.as_slice())
}

/// The file name of a new note named `name`: the name checked and trimmed,
/// with `.md` added unless it already ends with `.md` in any ASCII case.
pub open spec fn note_file(name: Seq<char>) -> Result<Seq<char>, WorkspaceError> {
    if !valid_name(name) {
        Err(WorkspaceError::InvalidName)
    } else {
        let t = trim(name);
        Ok(
            if crate::smb::is_markdown_name(t) {
                t
            } else {
                t + seq!['.', 'm', 'd']
            },
        )
    }
}

/// The file name of a new note named `name`.
pub fn note_file_name(name: &str) -> (r: Result<String, WorkspaceError>)
    ensures
        result_chars(r) == note_file(name@),
{
    let mut t = match validate_name(name) {
        Ok(t) => t,
        Err(e) => return Err(e),
    };
    let v = chars_of(t.as_str());
    if !crate::smb::has_markdown_extension(v.as_slice()) {
        push_char(&mut t, '.');
        push_char(&mut t, 'm');
        push_char(&mut t, 'd');
        proof {
            assert(t@ =~= trim(name@) + seq!['.', 'm', 'd']);
        }
    }
    Ok(t)
}

/// Whether the entry `id` is a Markdown note: a file whose extension is
/// `md` in any ASCII case.
pub open spec fn is_markdown_note(id: Seq<char>, is_file: bool) -> bool {
    is_file && match path_extension(id) {
        Some(e) => ascii_lower(e) == seq!['m', 'd'],
        None => false,
    }
}

/// The name an entry gets when renamed to `new_name`: the name checked and
/// trimmed; a Markdown note keeps its `.md` extension.
pub open spec fn renamed_file(id: Seq<char>, is_file: bool, new_name: Seq<char>) -> Result<Seq<char>, WorkspaceError> {
    if !valid_name(new_name) {
        Err(WorkspaceError::InvalidName)
    } else {
        let t = trim(new_name);
        Ok(
            if is_markdown_note(id, is_file) && !crate::smb::is_markdown_name(t) {
                t + seq!['.', 'm', 'd']
            } else {
                t
            },
        )
    }
}

/// The name the entry `id` (a file when `is_file`) gets when renamed to
/// `new_name`.
pub fn renamed_file_name(id: &str, is_file: bool, new_name: &str) -> (r: Result<String, WorkspaceError>)
    ensures
        result_chars(r) == renamed_file(id@, is_file, new_name@),
{
    let mut t = match validate_name(new_name) {
        Ok(t) => t,
        Err(e) => return Err(e),
    };
    let markdown = is_file && match extension_of(id) {
        Some(e) => {
            let lower = ascii_lowercase(e.as_slice());
            let md = vec!['m', 'd'];
            proof {
                assert(md@ =~= seq!['m', 'd']);
            }
            crate::text::seq_eq(lower.as_slice(), md.as_slice())
        },
        None => false,
    };
    let v = chars_of(t.as_str());
    if markdown && !crate::smb::has_markdown_extension(v.as_slice()) {
        push_char(&mut t, '.');
        push_char(&mut t, 'm');
        push_char(&mut t, 'd');
        proof {
            assert(t@ =~= trim(new_name@) + seq!['.', 'm', 'd']);
        }
    }
    Ok(t)
}

/// `Path::file_stem` of a file name: the name before its last `.`, unless
/// that `.` begins the name or the name is `..`.
pub open spec fn file_stem(name: Seq<char>) -> Seq<char> {
    if name == dot_dot() {
        name
    } else {
        match crate::text::rfind_char_before(name, '.', name.len() as int) {
            Some(i) if i > 0 => name.take(i),
            _ => name,
        }
    }
}

/// The first line of a new note in the file `name`: `# ` and the file's stem.
pub fn note_heading(name: &str) -> (r: String)
    ensures
        r@ == seq!['#', ' '] + file_stem(name@) + seq!['\n'],
{
    let v = chars_of(name);
    let is_up = v.len() == 2 && v[0] == '.' && v[1] == '.';
    proof {
        if is_up {
            assert(v@ =~= dot_dot());
        }
        if v@ == dot_dot() {
            assert(v@.len() == 2 && v@[0] == '.' && v@[1] == '.');
        }
        crate::text::lemma_rfind_char_before(v@, '.', v@.len() as int);
    }
    let end = if is_up {
        v.len()
    } else {
        match crate::text::rfind_char_in(v.as_slice(), '.', v.len()) {
            Some(i) => if i > 0 {
                i
            } else {
                v.len()
            },
            None => v.len(),
        }
    };
    let mut r = string_of(vec!['#', ' '].as_slice());
    push_all(&mut r, crate::text::copy_range(v.as_slice(), 0, end).as_slice());
    push_char(&mut r, '\n');
    proof {
        assert(r@ =~= seq!['#', ' '] + file_stem(name@) + seq!['\n']);
    }
    r
}

/// The id of the entry `name` in the folder `parent` (the root when empty).
pub fn child_id(parent: &str, name: &str) -> (r: EntryId)
    ensures
        r@ == if parent@.len() == 0 {
            name@
        } else {
            parent@ + seq!['/'] + name@
        },
{
    let p = chars_of(parent);
    if p.len() == 0 {
        return owned(name);
    }
    let mut r = owned(parent);
    push_char(&mut r, '/');
    push_str(&mut r, name);
    proof {
        assert(r@ =~= parent@ + seq!['/'] + name@);
    }
    r
}

/// Whether the entry `id` (a file when `is_file`) is a Markdown note.
pub fn is_markdown_path(id: &str, is_file: bool) -> (r: bool)
    ensures
        r == is_markdown_note(id@, is_file),
{
    if !is_file {
        return false;
    }
    match extension_of(id) {
        Some(e) => {
            let lower = ascii_lowercase(e.as_slice());
            let md = vec!['m', 'd'];
            proof {
                assert(md@ =~= seq!['m', 'd']);
            }
            crate::text::seq_eq(lower.as_slice(), md.as_slice())
        },
        None => false,
    }
}

} // verus!
