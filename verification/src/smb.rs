//! The rules of a workspace on an SMB share: its connection settings, the
//! folder path inside the share, the entry ids below it, and how a relative
//! link from one note leads to another entry, and how a read or a listing of
//! the share retries once after reconnecting.
use vstd::prelude::*;
use crate::text::{
    chars_of, contains, find_char_from, find_char_in, find_in, lemma_find_char_from,
    lemma_find_from_occurs, push_all, push_char, skip_char, skip_char_in, starts_with, string_of,
    trim, trim_bounds, trim_char, trim_end_pair_in, trim_end_pair_index,
};
use crate::workspace::{dot_dot, has_char, join_slash, named, segments, split_fold, EntryId, LinkTarget};

verus! {

/// Connection information for a workspace on an SMB share. The password is
/// only ever held in memory.
#[derive(Clone)]
pub struct SmbConnectionConfig {
    pub server: String,
    pub share: String,
    pub username: String,
    pub password: String,
    pub remote_path: String,
}

/// Why a connection setting, folder path or entry id was refused.
#[derive(Clone, Copy, PartialEq, Eq, Debug, Structural)]
pub enum SmbPathError {
    /// The server or the share is blank.
    MissingServerOrShare,
    /// The folder path is absolute or holds a NUL character.
    NotRelativeToShare,
    /// The folder path has a `..` component.
    EscapesShare,
    /// The folder path has a `.` component.
    DotComponent,
    /// The entry id is absolute, holds `\` or NUL, or has a `.` or `..` component.
    EscapesWorkspace,
}

/// `s` with every `\` written as `/`.
pub open spec fn forward_slashes(s: Seq<char>) -> Seq<char> {
    s.map_values(|c: char| if c == '\\' { '/' } else { c })
}

/// The first refusal among the first `k` components of a folder path.
pub open spec fn component_error(segs: Seq<Seq<char>>, k: int) -> Option<SmbPathError>
    decreases k,
{
    if k <= 0 || k > segs.len() {
        None
    } else {
        match component_error(segs, k - 1) {
            Some(e) => Some(e),
            None => if segs[k - 1] == dot_dot() {
                Some(SmbPathError::EscapesShare)
            } else if segs[k - 1] == seq!['.'] {
                Some(SmbPathError::DotComponent)
            } else {
                None
            },
        }
    }
}

/// Why the folder path `path` is refused, if it is: it must be relative,
/// hold no NUL, and (reading `\` as `/`) have no `..` or `.` component; the
/// first bad component decides.
pub open spec fn remote_path_error(path: Seq<char>) -> Option<SmbPathError> {
    if (path.len() > 0 && path[0] == '/') || path.contains('\0') {
        Some(SmbPathError::NotRelativeToShare)
    } else {
        let segs = segments(forward_slashes(path));
        component_error(segs, segs.len() as int)
    }
}

/// The folder path as stored: trimmed, without leading or trailing `/`,
/// with `\` written as `/`.
pub open spec fn normalized_remote_path(path: Seq<char>) -> Result<Seq<char>, SmbPathError> {
    let raw = trim(path);
    if raw.len() > 0 && raw[0] == '/' {
        Err(SmbPathError::NotRelativeToShare)
    } else {
        let p = forward_slashes(trim_char(raw, '/'));
        match remote_path_error(p) {
            Some(e) => Err(e),
            None => Ok(p),
        }
    }
}

/// Whether the entry id `id` stays inside the workspace: it is empty, or it
/// is relative, holds no `\` or NUL, has no `..` component and does not
/// begin with a `.` component (the Unix reading of `Path::components`).
pub open spec fn remote_id_ok(id: Seq<char>) -> bool {
    id.len() == 0 || {
        &&& id[0] != '/'
        &&& !id.contains('\\')
        &&& !id.contains('\0')
        &&& !segments(id).contains(dot_dot())
        &&& segments(id)[0] != seq!['.']
    }
}

/// The settings can be used to connect: server and share are not blank and
/// the folder path is acceptable.
pub open spec fn config_error(server: Seq<char>, share: Seq<char>, remote_path: Seq<char>) -> Option<SmbPathError> {
    if trim(server).len() == 0 || trim(share).len() == 0 {
        Some(SmbPathError::MissingServerOrShare)
    } else {
        remote_path_error(remote_path)
    }
}

/// The address to connect to: the server as given when it names a port,
/// else the server on port 445.
pub open spec fn server_address(server: Seq<char>) -> Seq<char> {
    if server.contains(':') {
        server
    } else {
        server + seq![':', '4', '4', '5']
    }
}

/// The path on the share of the entry `id` below the folder `remote_path`.
pub open spec fn share_path(remote_path: Seq<char>, id: Seq<char>) -> Result<Seq<char>, SmbPathError> {
    if !remote_id_ok(id) {
        Err(SmbPathError::EscapesWorkspace)
    } else {
        match normalized_remote_path(remote_path) {
            Err(e) => Err(e),
            Ok(root) => if id.len() == 0 {
                Ok(root)
            } else if root.len() == 0 {
                Ok(forward_slashes(id))
            } else {
                Ok(root.push('/') + forward_slashes(id))
            },
        }
    }
}

/// The view of a result that carries no value.
pub open spec fn unit_error(r: Result<(), SmbPathError>) -> Option<SmbPathError> {
    match r {
        Ok(()) => None,
        Err(e) => Some(e),
    }
}

/// The view of a result that carries a string.
pub open spec fn text_result(r: Result<String, SmbPathError>) -> Result<Seq<char>, SmbPathError> {
    match r {
        Ok(s) => Ok(s@),
        Err(e) => Err(e),
    }
}

/// Writes every `\` as `/`.
fn to_forward_slashes(v: &[char]) -> (r: Vec<char>)
    ensures
        r@ == forward_slashes(v@),
{
    let mut r: Vec<char> = Vec::new();
    let mut i: usize = 0;
    while i < v.len()
        invariant
            i <= v@.len(),
            r@ == forward_slashes(v@.take(i as int)),
        decreases v@.len() - i,
    {
        r.push(if v[i] == '\\' { '/' } else { v[i] });
        proof {
            assert(forward_slashes(v@.take(i + 1)) =~= forward_slashes(v@.take(i as int)).push(
                if v@[i as int] == '\\' {
                    '/'
                } else {
                    v@[i as int]
                },
            ));
        }
        i = i + 1;
    }
    proof {
        assert(v@.take(v@.len() as int) =~= v@);
    }
    r
}

proof fn lemma_component_error_sticks(segs: Seq<Seq<char>>, k: int, n: int)
    requires
        0 < k <= n <= segs.len(),
        component_error(segs, k) is Some,
    ensures
        component_error(segs, n) == component_error(segs, k),
    decreases n - k,
{
    if n > k {
        lemma_component_error_sticks(segs, k, n - 1);
    }
}

/// The `/`-separated segments of `v`, each checked: the first `..` or `.`.
fn first_bad_component(v: &[char]) -> (r: Option<SmbPathError>)
    ensures
        r == component_error(segments(v@), segments(v@).len() as int),
{
    let ghost segs = segments(v@);
    let parts = split_chars(v);
    let mut j: usize = 0;
    while j < parts.len()
        invariant
            parts@.len() == segs.len(),
            segs == segments(v@),
            forall|m: int| 0 <= m < parts@.len() ==> #[trigger] parts@[m]@ == segs[m],
            j <= parts@.len(),
            component_error(segs, j as int) is None,
        decreases parts@.len() - j,
    {
        let p = &parts[j];
        if p.len() == 2 && p[0] == '.' && p[1] == '.' {
            proof {
                assert(p@ =~= dot_dot());
                lemma_component_error_sticks(segs, j + 1, segs.len() as int);
            }
            return Some(SmbPathError::EscapesShare);
        }
        if p.len() == 1 && p[0] == '.' {
            proof {
                assert(p@ =~= seq!['.']);
                assert(segs[j as int] != dot_dot());
                lemma_component_error_sticks(segs, j + 1, segs.len() as int);
            }
            return Some(SmbPathError::DotComponent);
        }
        proof {
            if p@ == dot_dot() {
                assert(p@.len() == 2 && p@[0] == '.' && p@[1] == '.');
            }
            if p@ == seq!['.'] {
                assert(p@.len() == 1 && p@[0] == '.');
            }
        }
        j = j + 1;
    }
    None
}

/// The segments of `v`, split at `/`.
fn split_chars(v: &[char]) -> (r: Vec<Vec<char>>)
    ensures
        r@.len() == segments(v@).len(),
        forall|i: int| 0 <= i < r@.len() ==> #[trigger] r@[i]@ == segments(v@)[i],
{
    let mut done: Vec<Vec<char>> = Vec::new();
    let mut cur: Vec<char> = Vec::new();
    let mut i: usize = 0;
    while i < v.len()
        invariant
            i <= v@.len(),
            done@.len() == split_fold(v@.take(i as int)).0.len(),
            forall|k: int| 0 <= k < done@.len() ==> #[trigger] done@[k]@ == split_fold(
                v@.take(i as int),
            ).0[k],
            cur@ == split_fold(v@.take(i as int)).1,
        decreases v@.len() - i,
    {
        proof {
            assert(v@.take(i + 1).drop_last() =~= v@.take(i as int));
        }
        if v[i] == '/' {
            let finished = cur;
            done.push(finished);
            cur = Vec::new();
            proof {
                assert(cur@ =~= Seq::<char>::empty());
            }
        } else {
            cur.push(v[i]);
        }
        i = i + 1;
    }
    proof {
        assert(v@.take(v@.len() as int) =~= v@);
    }
    done.push(cur);
    done
}

fn remote_path_check(v: &[char]) -> (r: Option<SmbPathError>)
    ensures
        r == remote_path_error(v@),
{
    if (v.len() > 0 && v[0] == '/') || has_char(v, '\0') {
        return Some(SmbPathError::NotRelativeToShare);
    }
    let forward = to_forward_slashes(v);
    first_bad_component(forward.as_slice())
}

/// Checks a folder path inside the share: it must be relative, hold no NUL,
/// and have no `..` or `.` component.
pub fn validate_remote_path(path: &str) -> (r: Result<(), SmbPathError>)
    ensures
        unit_error(r) == remote_path_error(path@),
{
    let v = chars_of(path);
    match remote_path_check(v.as_slice()) {
        Some(e) => Err(e),
        None => Ok(()),
    }
}

/// `s` without its leading and trailing `c`s.
pub fn trim_char_in(s: &[char], c: char) -> (r: Vec<char>)
    ensures
        r@ == trim_char(s@, c),
{
    let end = trim_end_pair_in(s, c, c, s.len());
    proof {
        crate::text::lemma_trim_end_pair_bounds(s@, c, c, s@.len() as int);
    }
    let head = crate::text::copy_range(s, 0, end);
    proof {
        assert(head@ =~= s@.take(end as int));
    }
    let start = skip_char_in(head.as_slice(), c, 0);
    proof {
        crate::text::lemma_skip_char_bounds(head@, c, 0);
    }
    let r = crate::text::copy_range(s, start, end);
    r
}

/// The folder path as stored: trimmed, without leading or trailing `/`, and
/// with `\` written as `/`; refused when absolute or not acceptable.
pub fn normalize_remote_path(path: &str) -> (r: Result<String, SmbPathError>)
    ensures
        text_result(r) == normalized_remote_path(path@),
{
    let v = chars_of(path);
    let (start, end) = trim_bounds(v.as_slice());
    let raw = crate::text::copy_range(v.as_slice(), start, end);
    if raw.len() > 0 && raw[0] == '/' {
        return Err(SmbPathError::NotRelativeToShare);
    }
    let trimmed = trim_char_in(raw.as_slice(), '/');
    let p = to_forward_slashes(trimmed.as_slice());
    match remote_path_check(p.as_slice()) {
        Some(e) => Err(e),
        None => Ok(string_of(p.as_slice())),
    }
}

/// Checks that an entry id stays inside the workspace.
pub fn validate_remote_id(id: &str) -> (r: Result<(), SmbPathError>)
    ensures
        r is Ok <==> remote_id_ok(id@),
        r is Err ==> r == Err::<(), SmbPathError>(SmbPathError::EscapesWorkspace),
{
    let v = chars_of(id);
    if v.len() == 0 {
        return Ok(());
    }
    if v[0] == '/' || has_char(v.as_slice(), '\\') || has_char(v.as_slice(), '\0') {
        return Err(SmbPathError::EscapesWorkspace);
    }
    let parts = split_chars(v.as_slice());
    let ghost segs = segments(v@);
    proof {
        assert(segs.len() > 0);
    }
    let first = &parts[0];
    if first.len() == 1 && first[0] == '.' {
        proof {
            assert(first@ =~= seq!['.']);
        }
        return Err(SmbPathError::EscapesWorkspace);
    }
    proof {
        if segs[0] == seq!['.'] {
            assert(first@.len() == 1 && first@[0] == '.');
        }
    }
    let mut j: usize = 0;
    while j < parts.len()
        invariant
            parts@.len() == segs.len(),
            segs == segments(v@),
            v@ == id@,
            forall|m: int| 0 <= m < parts@.len() ==> #[trigger] parts@[m]@ == segs[m],
            j <= parts@.len(),
            forall|m: int| 0 <= m < j ==> segs[m] != dot_dot(),
        decreases parts@.len() - j,
    {
        let p = &parts[j];
        if p.len() == 2 && p[0] == '.' && p[1] == '.' {
            proof {
                assert(p@ =~= dot_dot());
                assert(segs[j as int] == dot_dot());
                assert(segs.contains(dot_dot()));
                assert(v@ == id@);
                assert(!remote_id_ok(id@));
            }
            return Err(SmbPathError::EscapesWorkspace);
        }
        proof {
            if p@ == dot_dot() {
                assert(p@.len() == 2 && p@[0] == '.' && p@[1] == '.');
            }
        }
        j = j + 1;
    }
    Ok(())
}

impl SmbConnectionConfig {
    /// Checks the settings without connecting: the server and the share must
    /// not be blank, and the folder path must be acceptable.
    pub fn validate(&self) -> (r: Result<(), SmbPathError>)
        ensures
            unit_error(r) == config_error(self.server@, self.share@, self.remote_path@),
    {
        let server = chars_of(self.server.as_str());
        let share = chars_of(self.share.as_str());
        let (a, b) = trim_bounds(server.as_slice());
        let (c, d) = trim_bounds(share.as_slice());
        if a == b || c == d {
            return Err(SmbPathError::MissingServerOrShare);
        }
        validate_remote_path(self.remote_path.as_str())
    }

    /// The address to connect to: the server as given when it names a port,
    /// else the server on port 445.
    pub fn address(&self) -> (r: String)
        ensures
            r@ == server_address(self.server@),
    {
        let server = chars_of(self.server.as_str());
        let mut r = string_of(server.as_slice());
        if !has_char(server.as_slice(), ':') {
            push_char(&mut r, ':');
            push_char(&mut r, '4');
            push_char(&mut r, '4');
            push_char(&mut r, '5');
            proof {
                assert(r@ =~= server_address(self.server@));
            }
        }
        r
    }

    /// The path on the share of the entry `id` of this workspace.
    pub fn remote_path_of(&self, id: &str) -> (r: Result<String, SmbPathError>)
        ensures
            text_result(r) == share_path(self.remote_path@, id@),
    {
        if validate_remote_id(id).is_err() {
            return Err(SmbPathError::EscapesWorkspace);
        }
        let root = match normalize_remote_path(self.remote_path.as_str()) {
            Ok(root) => root,
            Err(e) => return Err(e),
        };
        let v = chars_of(id);
        if v.len() == 0 {
            return Ok(root);
        }
        let forward = to_forward_slashes(v.as_slice());
        let root_chars = chars_of(root.as_str());
        if root_chars.len() == 0 {
            return Ok(string_of(forward.as_slice()));
        }
        let mut r = root;
        push_char(&mut r, '/');
        push_all(&mut r, forward.as_slice());
        Ok(r)
    }
}

/// A link split at its first `#`: the part before and the fragment after.
pub open spec fn split_fragment(link: Seq<char>) -> (Seq<char>, Seq<char>) {
    match find_char_from(link, '#', 0) {
        Some(i) => (link.take(i), link.skip(i + 1)),
        None => (link, Seq::empty()),
    }
}

/// The path a link names: the part before any `#` or `?`, trimmed.
pub open spec fn link_path(link: Seq<char>) -> Seq<char> {
    let before = split_fragment(link).0;
    trim(
        match find_char_from(before, '?', 0) {
            Some(i) => before.take(i),
            None => before,
        },
    )
}

/// Whether a link leaves the workspace on its face: it is empty, absolute,
/// has a scheme (`://`) or is a `mailto:` link.
pub open spec fn leaves_workspace(path: Seq<char>) -> bool {
    path.len() == 0 || path[0] == '/' || contains(path, seq![':', '/', '/']) || starts_with(
        path,
        seq!['m', 'a', 'i', 'l', 't', 'o', ':'],
    )
}

/// The folders of the first `k` segments of a relative path, walked from
/// `start`: empty and `.` segments stay, `..` goes up (and fails above the
/// root), any other segment goes down.
pub open spec fn walk(start: Seq<Seq<char>>, segs: Seq<Seq<char>>, k: int) -> Option<Seq<Seq<char>>>
    decreases k,
{
    if k <= 0 || k > segs.len() {
        Some(start)
    } else {
        match walk(start, segs, k - 1) {
            None => None,
            Some(stack) => {
                let seg = segs[k - 1];
                if seg.len() == 0 || seg == seq!['.'] {
                    Some(stack)
                } else if seg == dot_dot() {
                    if stack.len() == 0 {
                        None
                    } else {
                        Some(stack.drop_last())
                    }
                } else {
                    Some(stack.push(seg))
                }
            },
        }
    }
}

/// The folders that hold the entry `id`.
pub open spec fn parent_folders(id: Seq<char>) -> Seq<Seq<char>> {
    let n = named(segments(id));
    if n.len() == 0 {
        n
    } else {
        n.drop_last()
    }
}

/// Where a relative link from the note `current` leads: the id of the
/// entry and the fragment of the link.
pub open spec fn resolved_link(current: Seq<char>, link: Seq<char>) -> Option<(Seq<char>, Seq<char>)> {
    let path = link_path(link);
    if leaves_workspace(path) || !remote_id_ok(current) {
        None
    } else {
        let segs = segments(path);
        match walk(parent_folders(current), segs, segs.len() as int) {
            Some(folders) => Some((join_slash(folders), split_fragment(link).1)),
            None => None,
        }
    }
}

proof fn lemma_walk_none_sticks(start: Seq<Seq<char>>, segs: Seq<Seq<char>>, k: int, n: int)
    requires
        0 <= k <= n <= segs.len(),
        walk(start, segs, k) is None,
    ensures
        walk(start, segs, n) is None,
    decreases n - k,
{
    if n > k {
        lemma_walk_none_sticks(start, segs, k, n - 1);
    }
}

/// Joins segments with `/`.
pub fn join_with_slash(parts: &Vec<Vec<char>>) -> (r: String)
    ensures
        r@ == join_slash(parts@.map_values(|p: Vec<char>| p@)),
{
    let ghost views = parts@.map_values(|p: Vec<char>| p@);
    let mut out = String::new();
    let mut j: usize = 0;
    while j < parts.len()
        invariant
            views == parts@.map_values(|p: Vec<char>| p@),
            j <= parts@.len(),
            out@ == join_slash(views.take(j as int)),
        decreases parts@.len() - j,
    {
        let ghost before = out@;
        if j > 0 {
            push_char(&mut out, '/');
        }
        push_all(&mut out, parts[j].as_slice());
        proof {
            let t = views.take(j + 1);
            assert(t.drop_last() =~= views.take(j as int));
            if j == 0 {
                assert(views.take(0) =~= Seq::<Seq<char>>::empty());
                assert(out@ =~= join_slash(t));
            } else {
                assert(out@ =~= join_slash(t));
            }
        }
        j = j + 1;
    }
    proof {
        assert(views.take(parts@.len() as int) =~= views);
    }
    out
}

/// The link's target below the note `current_file`: the id of the entry it
/// names and the link's fragment, or `None` when the link leaves the
/// workspace (or the note's id is not acceptable).
pub fn resolve_relative_link(current_file: &str, link: &str) -> (r: Option<(String, String)>)
    ensures
        match r {
            Some((id, fragment)) => resolved_link(current_file@, link@) == Some((id@, fragment@)),
            None => resolved_link(current_file@, link@) is None,
        },
{
    let l = chars_of(link);
    proof {
        lemma_find_char_from(l@, '#', 0);
    }
    let n = l.len();
    let (before, fragment) = match find_char_in(l.as_slice(), '#', 0) {
        Some(i) => (
            crate::text::copy_range(l.as_slice(), 0, i),
            crate::text::copy_range(l.as_slice(), i + 1, l.len()),
        ),
        None => (crate::text::copy_range(l.as_slice(), 0, l.len()), Vec::new()),
    };
    proof {
        assert(before@ =~= split_fragment(l@).0);
        assert(fragment@ =~= split_fragment(l@).1);
        lemma_find_char_from(before@, '?', 0);
    }
    let query_end = match find_char_in(before.as_slice(), '?', 0) {
        Some(i) => i,
        None => before.len(),
    };
    let head = crate::text::copy_range(before.as_slice(), 0, query_end);
    proof {
        assert(head@ =~= match find_char_from(before@, '?', 0) {
            Some(i) => before@.take(i),
            None => before@,
        });
    }
    let (a, b) = trim_bounds(head.as_slice());
    let path = crate::text::copy_range(head.as_slice(), a, b);
    proof {
        assert(path@ =~= link_path(l@));
    }
    let scheme = vec![':', '/', '/'];
    let mailto = vec!['m', 'a', 'i', 'l', 't', 'o', ':'];
    proof {
        assert(scheme@ =~= seq![':', '/', '/']);
        assert(mailto@ =~= seq!['m', 'a', 'i', 'l', 't', 'o', ':']);
    }
    let has_scheme = match find_in(path.as_slice(), scheme.as_slice(), 0) {
        Some(_) => true,
        None => false,
    };
    if path.len() == 0 || path[0] == '/' || has_scheme || crate::text::has_prefix(
        path.as_slice(),
        mailto.as_slice(),
    ) {
        return None;
    }
    if validate_remote_id(current_file).is_err() {
        return None;
    }
    let current = chars_of(current_file);
    let mut stack = crate::workspace::named_segments(current.as_slice());
    if stack.len() > 0 {
        stack.pop();
    }
    let ghost start = stack@.map_values(|p: Vec<char>| p@);
    proof {
        assert(start =~= parent_folders(current_file@));
    }
    let segs = split_chars(path.as_slice());
    let ghost ss = segments(path@);
    let mut i: usize = 0;
    while i < segs.len()
        invariant
            segs@.len() == ss.len(),
            ss == segments(path@),
            forall|m: int| 0 <= m < segs@.len() ==> #[trigger] segs@[m]@ == ss[m],
            i <= segs@.len(),
            walk(start, ss, i as int) == Some(stack@.map_values(|p: Vec<char>| p@)),
            start == parent_folders(current_file@),
            path@ == link_path(link@),
            !leaves_workspace(path@),
            remote_id_ok(current_file@),
        decreases segs@.len() - i,
    {
        let seg = &segs[i];
        let ghost stack_before = stack@.map_values(|p: Vec<char>| p@);
        let skip = seg.len() == 0 || (seg.len() == 1 && seg[0] == '.');
        let up = seg.len() == 2 && seg[0] == '.' && seg[1] == '.';
        proof {
            if seg@.len() == 1 && seg@[0] == '.' {
                assert(seg@ =~= seq!['.']);
            }
            if seg@ == seq!['.'] {
                assert(seg@.len() == 1);
            }
            if up {
                assert(seg@ =~= dot_dot());
            }
            if seg@ == dot_dot() {
                assert(seg@.len() == 2 && seg@[0] == '.' && seg@[1] == '.');
            }
        }
        if skip {
        } else if up {
            if stack.len() == 0 {
                proof {
                    assert(walk(start, ss, i + 1) is None);
                    lemma_walk_none_sticks(start, ss, i + 1, ss.len() as int);
                }
                return None;
            }
            stack.pop();
            proof {
                assert(stack@.map_values(|p: Vec<char>| p@) =~= stack_before.drop_last());
            }
        } else {
            stack.push(seg.clone());
            proof {
                assert(stack@.map_values(|p: Vec<char>| p@) =~= stack_before.push(seg@));
            }
        }
        i = i + 1;
    }
    let id = join_with_slash(&stack);
    Some((id, string_of(fragment.as_slice())))
}

/// `s` ends with `.md` in any ASCII case.
pub open spec fn is_markdown_name(s: Seq<char>) -> bool {
    crate::text::ends_with(crate::text::ascii_lower(s), seq!['.', 'm', 'd'])
}

/// Whether a name ends with `.md` in any ASCII case.
pub fn has_markdown_extension(name: &[char]) -> (r: bool)
    ensures
        r == is_markdown_name(name@),
{
    let lower = crate::text::ascii_lowercase(name);
    let md = vec!['.', 'm', 'd'];
    proof {
        assert(md@ =~= seq!['.', 'm', 'd']);
    }
    crate::text::has_suffix(lower.as_slice(), md.as_slice())
}

/// The note a Markdown link from `current` leads to, with its anchor.
pub open spec fn markdown_link_target(current: Seq<char>, link: Seq<char>) -> Option<(Seq<char>, Option<Seq<char>>)> {
    match resolved_link(current, link) {
        Some((id, fragment)) => if is_markdown_name(id) {
            Some((id, if fragment.len() == 0 { None } else { Some(fragment) }))
        } else {
            None
        },
        None => None,
    }
}

/// The note a Markdown link from the note `current_file` leads to: a `.md`
/// entry, and the link's fragment as its anchor when it has one.
pub fn resolve_markdown_link(current_file: &str, link: &str) -> (r: Option<LinkTarget>)
    ensures
        match r {
            Some(t) => markdown_link_target(current_file@, link@) == Some(
                (
                    t.id@,
                    match t.anchor {
                        Some(a) => Some(a@),
                        None => None,
                    },
                ),
            ),
            None => markdown_link_target(current_file@, link@) is None,
        },
{
    let (id, fragment) = match resolve_relative_link(current_file, link) {
        Some(found) => found,
        None => return None,
    };
    let id_chars = chars_of(id.as_str());
    if !has_markdown_extension(id_chars.as_slice()) {
        return None;
    }
    let fragment_chars = chars_of(fragment.as_str());
    let anchor = if fragment_chars.len() == 0 {
        None
    } else {
        Some(fragment)
    };
    Some(LinkTarget { id, anchor })
}

/// The entry an image link from the note `current_file` leads to.
pub fn resolve_asset_link(current_file: &str, link: &str) -> (r: Option<EntryId>)
    ensures
        match r {
            Some(id) => resolved_link(current_file@, link@) matches Some((i, _)) && i == id@,
            None => resolved_link(current_file@, link@) is None,
        },
{
    match resolve_relative_link(current_file, link) {
        Some((id, _)) => Some(id),
        None => None,
    }
}

impl SmbConnectionConfig {
    /// The name shown for the workspace: `SMB <server> / <share>`.
    pub fn display_name(&self) -> (r: String)
        ensures
            r@ == seq!['S', 'M', 'B', ' '] + self.server@ + seq![' ', '/', ' '] + self.share@,
    {
        let mut r = string_of(vec!['S', 'M', 'B', ' '].as_slice());
        crate::text::push_str(&mut r, self.server.as_str());
        push_char(&mut r, ' ');
        push_char(&mut r, '/');
        push_char(&mut r, ' ');
        crate::text::push_str(&mut r, self.share.as_str());
        proof {
            assert(r@ =~= seq!['S', 'M', 'B', ' '] + self.server@ + seq![' ', '/', ' '] + self.share@);
        }
        r
    }

    /// The identity of the workspace: `smb:<server>:<share>:<folder>`.
    pub fn identity(&self) -> (r: String)
        ensures
            r@ == seq!['s', 'm', 'b', ':'] + self.server@ + seq![':'] + self.share@ + seq![':']
                + self.remote_path@,
    {
        let mut r = string_of(vec!['s', 'm', 'b', ':'].as_slice());
        crate::text::push_str(&mut r, self.server.as_str());
        push_char(&mut r, ':');
        crate::text::push_str(&mut r, self.share.as_str());
        push_char(&mut r, ':');
        crate::text::push_str(&mut r, self.remote_path.as_str());
        proof {
            assert(r@ =~= seq!['s', 'm', 'b', ':'] + self.server@ + seq![':'] + self.share@
                + seq![':'] + self.remote_path@);
        }
        r
    }
}

/// A folder or file name that stays where it is: not empty, not `.` or
/// `..`, and without `/`.
pub open spec fn plain_segment(seg: Seq<char>) -> bool {
    seg.len() > 0 && seg != seq!['.'] && seg != dot_dot() && !seg.contains('/')
}

/// An id that names an entry inside the workspace: the root (empty), or a
/// relative path whose every component is a plain name.
pub open spec fn inside_workspace(id: Seq<char>) -> bool {
    id.len() == 0 || (id[0] != '/' && forall|i: int|
        0 <= i < segments(id).len() ==> plain_segment(#[trigger] segments(id)[i]))
}

proof fn lemma_split_fold_append(y: Seq<char>, b: Seq<char>)
    requires
        !b.contains('/'),
    ensures
        split_fold(y + b) == (split_fold(y).0, split_fold(y).1 + b),
    decreases b.len(),
{
    if b.len() == 0 {
        assert(y + b =~= y);
        assert(split_fold(y).1 + b =~= split_fold(y).1);
    } else {
        let b0 = b.drop_last();
        assert(!b0.contains('/')) by {
            if b0.contains('/') {
                let k = choose|k: int| 0 <= k < b0.len() && b0[k] == '/';
                assert(b[k] == '/');
            }
        }
        lemma_split_fold_append(y, b0);
        assert((y + b).drop_last() =~= y + b0);
        assert((y + b).last() == b.last());
        assert(b.last() != '/') by {
            assert(b[b.len() - 1] == b.last());
        }
        assert(split_fold(y).1 + b0.push(b.last()) =~= split_fold(y).1 + b);
        assert(b0.push(b.last()) =~= b);
    }
}

proof fn lemma_segments_of_joined(parts: Seq<Seq<char>>)
    requires
        parts.len() > 0,
        forall|i: int| 0 <= i < parts.len() ==> !(#[trigger] parts[i]).contains('/'),
    ensures
        segments(join_slash(parts)) == parts,
    decreases parts.len(),
{
    if parts.len() == 1 {
        lemma_split_fold_append(Seq::empty(), parts[0]);
        assert(Seq::<char>::empty() + parts[0] =~= parts[0]);
        assert(split_fold(Seq::<char>::empty()) == (Seq::<Seq<char>>::empty(), Seq::<char>::empty()));
        assert(Seq::<char>::empty() + parts[0] =~= parts[0]);
        assert(segments(parts[0]) =~= parts);
    } else {
        let init = parts.drop_last();
        lemma_segments_of_joined(init);
        let j = join_slash(init);
        lemma_split_fold_append(j.push('/'), parts.last());
        assert(join_slash(parts) == j.push('/') + parts.last());
        assert(j.push('/').drop_last() =~= j);
        assert(split_fold(j.push('/')) == (split_fold(j).0.push(split_fold(j).1), Seq::<char>::empty()));
        assert(Seq::<char>::empty() + parts.last() =~= parts.last());
        assert(segments(join_slash(parts)) =~= init.push(parts.last()));
        assert(init.push(parts.last()) =~= parts);
    }
}

proof fn lemma_split_fold_plain(s: Seq<char>)
    ensures
        forall|i: int| 0 <= i < split_fold(s).0.len() ==> !(#[trigger] split_fold(s).0[i]).contains('/'),
        !split_fold(s).1.contains('/'),
    decreases s.len(),
{
    if s.len() > 0 {
        lemma_split_fold_plain(s.drop_last());
        let (done, cur) = split_fold(s.drop_last());
        if s.last() != '/' {
            assert forall|k: int| 0 <= k < cur.push(s.last()).len() implies cur.push(s.last())[k] != '/' by {
                if k < cur.len() {
                    assert(cur.push(s.last())[k] == cur[k]);
                    if cur[k] == '/' {
                        assert(cur.contains('/'));
                    }
                }
            }
        }
    }
}

proof fn lemma_segments_have_no_slash(s: Seq<char>)
    ensures
        forall|i: int| 0 <= i < segments(s).len() ==> !(#[trigger] segments(s)[i]).contains('/'),
{
    lemma_split_fold_plain(s);
    assert forall|i: int| 0 <= i < segments(s).len() implies !(#[trigger] segments(s)[i]).contains('/') by {
        if i < split_fold(s).0.len() {
            assert(segments(s)[i] == split_fold(s).0[i]);
        } else {
            assert(segments(s)[i] == split_fold(s).1);
        }
    }
}

proof fn lemma_named_elements(segs: Seq<Seq<char>>)
    ensures
        forall|i: int| 0 <= i < named(segs).len() ==> (#[trigger] named(segs)[i]).len() > 0
            && named(segs)[i] != seq!['.'] && segs.contains(named(segs)[i]),
    decreases segs.len(),
{
    if segs.len() > 0 {
        lemma_named_elements(segs.drop_last());
        let n = named(segs.drop_last());
        assert forall|i: int| 0 <= i < named(segs).len() implies (#[trigger] named(segs)[i]).len()
            > 0 && named(segs)[i] != seq!['.'] && segs.contains(named(segs)[i]) by {
            if i < n.len() {
                assert(named(segs)[i] == n[i]);
                let k = choose|k: int| 0 <= k < segs.drop_last().len() && segs.drop_last()[k] == n[i];
                assert(segs[k] == n[i]);
            } else {
                assert(named(segs)[i] == segs.last());
                assert(segs[segs.len() - 1] == segs.last());
            }
        }
    }
}

proof fn lemma_walk_plain(start: Seq<Seq<char>>, segs: Seq<Seq<char>>, k: int)
    requires
        forall|i: int| 0 <= i < start.len() ==> plain_segment(#[trigger] start[i]),
        forall|i: int| 0 <= i < segs.len() ==> !(#[trigger] segs[i]).contains('/'),
    ensures
        walk(start, segs, k) matches Some(stack) ==> forall|i: int|
            0 <= i < stack.len() ==> plain_segment(#[trigger] stack[i]),
    decreases k,
{
    if k > 0 && k <= segs.len() {
        lemma_walk_plain(start, segs, k - 1);
        match walk(start, segs, k - 1) {
            Some(stack) => {
                let seg = segs[k - 1];
                if !(seg.len() == 0 || seg == seq!['.']) && seg != dot_dot() {
                    assert forall|i: int| 0 <= i < stack.push(seg).len() implies plain_segment(
                        #[trigger] stack.push(seg)[i],
                    ) by {
                        if i < stack.len() {
                            assert(stack.push(seg)[i] == stack[i]);
                        }
                    }
                } else if seg == dot_dot() && stack.len() > 0 {
                    assert forall|i: int| 0 <= i < stack.drop_last().len() implies plain_segment(
                        #[trigger] stack.drop_last()[i],
                    ) by {
                        assert(stack.drop_last()[i] == stack[i]);
                    }
                }
            },
            None => {},
        }
    }
}

/// A relative link never leads outside the workspace: where it leads is the
/// root or a relative path of plain names, whatever the link says.
pub proof fn law_links_stay_inside_workspace(current: Seq<char>, link: Seq<char>)
    ensures
        resolved_link(current, link) matches Some((id, _)) ==> inside_workspace(id),
{
    let path = link_path(link);
    if !leaves_workspace(path) && remote_id_ok(current) {
        let segs = segments(path);
        let start = parent_folders(current);
        lemma_segments_have_no_slash(path);
        lemma_segments_have_no_slash(current);
        lemma_named_elements(segments(current));
        let n = named(segments(current));
        assert forall|i: int| 0 <= i < start.len() implies plain_segment(#[trigger] start[i]) by {
            assert(start[i] == n[i]);
            assert(segments(current).contains(n[i]));
            let k = choose|k: int| 0 <= k < segments(current).len() && segments(current)[k] == n[i];
            if current.len() > 0 {
                assert(n[i] != dot_dot());
            } else {
                assert(split_fold(current) == (Seq::<Seq<char>>::empty(), Seq::<char>::empty()));
                assert(segments(current)[k].len() == 0);
            }
        }
        lemma_walk_plain(start, segs, segs.len() as int);
        match walk(start, segs, segs.len() as int) {
            Some(stack) => {
                if stack.len() > 0 {
                    lemma_segments_of_joined(stack);
                    let id = join_slash(stack);
                    assert(plain_segment(stack[0]));
                    lemma_join_starts_with_first(stack);
                }
            },
            None => {},
        }
    }
}

proof fn lemma_join_starts_with_first(parts: Seq<Seq<char>>)
    requires
        parts.len() > 0,
        parts[0].len() > 0,
    ensures
        join_slash(parts).len() > 0,
        join_slash(parts)[0] == parts[0][0],
    decreases parts.len(),
{
    if parts.len() > 1 {
        lemma_join_starts_with_first(parts.drop_last());
        assert(parts.drop_last()[0] == parts[0]);
    }
}


/// Where a read or a directory enumeration on the share stands: its first
/// attempt, reconnecting after the first attempt failed with the given
/// message, or its one retry after reconnecting.
pub enum RetryState {
    FirstAttempt,
    Reconnecting(String),
    Retrying,
}

/// What came of the step just taken: the attempt, or the reconnect.
pub enum RetryEvent {
    Succeeded,
    Failed(String),
}

/// What to do next: hand the result over, reconnect, try once more, or fail
/// with the given message.
pub enum RetryAction {
    Deliver,
    Reconnect,
    Retry,
    Fail(String),
}

/// The next state and action of a read or an enumeration named `operation`
/// (`list`, `read`): a success is handed over; a first failure leads to one
/// reconnect and one retry; a failed reconnect or retry fails with a message
/// that keeps both errors. A failure is never handed over as a result, so an
/// unavailable share never reads as an empty one.
pub fn retry_step(operation: &str, state: RetryState, event: RetryEvent) -> (r: (Option<RetryState>, RetryAction))
    ensures
        match (state, event) {
            (RetryState::FirstAttempt, RetryEvent::Succeeded) => r.0 is None && r.1 is Deliver,
            (RetryState::FirstAttempt, RetryEvent::Failed(first)) => {
                &&& r.0 matches Some(RetryState::Reconnecting(f)) && f@ == first@
                &&& r.1 is Reconnect
            },
            (RetryState::Reconnecting(_), RetryEvent::Succeeded) => {
                &&& r.0 matches Some(RetryState::Retrying)
                &&& r.1 is Retry
            },
            (RetryState::Reconnecting(first), RetryEvent::Failed(reconnect)) => {
                &&& r.0 is None
                &&& r.1 matches RetryAction::Fail(m) && m@ == "SMB "@ + operation@ + " failed: "@
                    + first@ + "; reconnect failed: "@ + reconnect@
            },
            (RetryState::Retrying, RetryEvent::Succeeded) => r.0 is None && r.1 is Deliver,
            (RetryState::Retrying, RetryEvent::Failed(retry)) => {
                &&& r.0 is None
                &&& r.1 matches RetryAction::Fail(m) && m@ == "SMB "@ + operation@
                    + " failed after reconnect: "@ + retry@
            },
        },
        event is Failed ==> !(r.1 is Deliver),
        !(state is FirstAttempt) ==> !(r.1 is Reconnect),
{
    match state {
        RetryState::FirstAttempt => match event {
            RetryEvent::Succeeded => (None, RetryAction::Deliver),
            RetryEvent::Failed(first) => (Some(RetryState::Reconnecting(first)), RetryAction::Reconnect),
        },
        RetryState::Reconnecting(first) => match event {
            RetryEvent::Succeeded => (Some(RetryState::Retrying), RetryAction::Retry),
            RetryEvent::Failed(reconnect) => {
                let mut m = crate::text::owned("SMB ");
                crate::text::push_str(&mut m, operation);
                crate::text::push_str(&mut m, " failed: ");
                crate::text::push_str(&mut m, first.as_str());
                crate::text::push_str(&mut m, "; reconnect failed: ");
                crate::text::push_str(&mut m, reconnect.as_str());
                (None, RetryAction::Fail(m))
            },
        },
        RetryState::Retrying => match event {
            RetryEvent::Succeeded => (None, RetryAction::Deliver),
            RetryEvent::Failed(retry) => {
                let mut m = crate::text::owned("SMB ");
                crate::text::push_str(&mut m, operation);
                crate::text::push_str(&mut m, " failed after reconnect: ");
                crate::text::push_str(&mut m, retry.as_str());
                (None, RetryAction::Fail(m))
            },
        },
    }
}
} // verus!
