//! A workspace in a folder that the iOS document picker granted: the folder
//! and the security-scoped bookmark that reopens it.
use vstd::prelude::*;
use crate::backend_state::{EntryModel, entries_model};
use crate::links::percent_decoded_text;
use crate::listing::stable_order;
use crate::text::{lowercase, text_lines};
use crate::workspace::{EntryKind, WorkspaceEntry, WorkspaceError, file_name, named, segments};

verus! {

/// A folder chosen in the document picker, with its bookmark.
#[derive(Clone, Debug, PartialEq, Eq)]
pub struct WorkspaceSelection {
    pub path: String,
    pub bookmark: Vec<u8>,
}

/// A workspace rooted in a picked folder.
pub struct IosWorkspace {
    root: String,
    bookmark: Vec<u8>,
}

impl IosWorkspace {
    /// The folder of the workspace.
    pub closed spec fn root_view(&self) -> Seq<char> {
        self.root@
    }

    /// The bookmark that reopens the folder.
    pub closed spec fn bookmark_view(&self) -> Seq<u8> {
        self.bookmark@
    }

    /// Opens the workspace of a picked folder; the folder's path must not be
    /// empty.
    pub fn open(selection: WorkspaceSelection) -> (r: Result<IosWorkspace, WorkspaceError>)
        ensures
            match r {
                Ok(w) => selection.path@.len() > 0 && w.root_view() == selection.path@
                    && w.bookmark_view() == selection.bookmark@,
                Err(e) => selection.path@.len() == 0 && e == WorkspaceError::EmptyPath,
            },
    {
        if selection.path.as_str().as_bytes().len() == 0 {
            proof {
                if selection.path@.len() > 0 {
                    vstd::utf8::encode_utf8_first_scalar(selection.path@);
                }
            }
            return Err(WorkspaceError::EmptyPath);
        }
        proof {
            if selection.path@.len() == 0 {
                assert(vstd::utf8::encode_utf8(selection.path@) =~= Seq::<u8>::empty());
            }
        }
        Ok(IosWorkspace { root: selection.path, bookmark: selection.bookmark })
    }

    /// The picked folder and its bookmark.
    pub fn selection(&self) -> (r: WorkspaceSelection)
        ensures
            r.path@ == self.root_view(),
            r.bookmark@ == self.bookmark_view(),
    {
        WorkspaceSelection {
            path: crate::text::owned(self.root.as_str()),
            bookmark: crate::text::copy_bytes(self.bookmark.as_slice()),
        }
    }

    /// The name shown for the workspace: its folder.
    pub fn display_name(&self) -> (r: String)
        ensures
            r@ == self.root_view(),
    {
        crate::text::owned(self.root.as_str())
    }

    /// The identity of the workspace: `ios:` and its folder.
    pub fn identity(&self) -> (r: String)
        ensures
            r@ == "ios:"@ + self.root_view(),
    {
        let mut r = crate::text::owned("ios:");
        crate::text::push_str(&mut r, self.root.as_str());
        r
    }
}


/// The number of components `std::path::Path` reads in a `/`-separated
/// path: its named segments, plus the root of an absolute path or the `.`
/// that starts a relative one.
pub open spec fn component_count(path: Seq<char>) -> nat {
    let lead = if path.len() > 0 && path[0] == '/' {
        1nat
    } else if path == seq!['.'] || (path.len() >= 2 && path[0] == '.' && path[1] == '/') {
        1nat
    } else {
        0nat
    };
    named(segments(path)).len() + lead
}

/// The row that a line of the coordinated listing gives: `D:` a folder and
/// `F:` a note (or, for assets, only `A:` an image), each followed by the
/// percent-encoded id. Lines without a `:`, of another tag, or whose id has
/// no file name give none; an id that is not UTF-8 once decoded makes the
/// listing invalid (`Err`).
pub open spec fn listing_row(line: Seq<char>, assets: bool) -> Result<Option<EntryModel>, ()> {
    match crate::text::find_char_from(line, ':', 0) {
        None => Ok(None),
        Some(c) => {
            let tag = line.take(c);
            if assets && tag != seq!['A'] {
                Ok(None)
            } else {
                match percent_decoded_text(line.skip(c + 1)) {
                    None => Err(()),
                    Some(id) => match file_name(id) {
                        None => Ok(None),
                        Some(name) => {
                            let n = component_count(id);
                            let depth = if n == 0 { 0usize } else { (n - 1) as usize };
                            if assets {
                                Ok(Some((id, name, EntryKind::File, depth)))
                            } else if tag == seq!['D'] {
                                Ok(Some((id, name, EntryKind::Directory, depth)))
                            } else if tag == seq!['F'] {
                                Ok(Some((id, name, EntryKind::File, depth)))
                            } else {
                                Ok(None)
                            }
                        },
                    },
                }
            }
        },
    }
}

/// The rows of the first lines of a listing, in listed order.
pub open spec fn listing_rows(lines: Seq<Seq<char>>, assets: bool) -> Result<Seq<EntryModel>, ()>
    decreases lines.len(),
{
    if lines.len() == 0 {
        Ok(Seq::empty())
    } else {
        match listing_rows(lines.drop_last(), assets) {
            Err(e) => Err(e),
            Ok(rows) => match listing_row(lines.last(), assets) {
                Err(e) => Err(e),
                Ok(Some(r)) => Ok(rows.push(r)),
                Ok(None) => Ok(rows),
            },
        }
    }
}

/// Rows ordered by a stable sort of their lower-cased ids.
pub open spec fn sorted_by_id(rows: Seq<EntryModel>) -> Seq<EntryModel> {
    stable_order(rows.map_values(|r: EntryModel| lowercase(r.0)), rows.len()).map_values(|i: int| rows[i])
}

/// The tree (or the assets) that the coordinated listing `text` describes,
/// sorted by lower-cased id; `None` when an id is not UTF-8.
pub open spec fn parsed_listing(text: Seq<char>, assets: bool) -> Option<Seq<EntryModel>> {
    match listing_rows(text_lines(text), assets) {
        Ok(rows) => Some(sorted_by_id(rows)),
        Err(_) => None,
    }
}

/// The depth of an entry with the id `id`: its component count less one.
fn depth_of(id: &[char]) -> (r: usize)
    ensures
        r == (if component_count(id@) == 0 { 0usize } else { (component_count(id@) - 1) as usize }),
{
    let named_parts = crate::workspace::named_segments(id);
    let lead: usize = if id.len() > 0 && id[0] == '/' {
        1
    } else if (id.len() == 1 && id[0] == '.') || (id.len() >= 2 && id[0] == '.' && id[1] == '/') {
        1
    } else {
        0
    };
    proof {
        if id.len() == 1 && id[0] == '.' {
            assert(id@ =~= seq!['.']);
        }
        if id@ == seq!['.'] {
            assert(id.len() == 1 && id@[0] == '.');
        }
    }
    if lead == 1 {
        named_parts.len()
    } else if named_parts.len() == 0 {
        0
    } else {
        named_parts.len() - 1
    }
}

/// The file name and the last named segment of an id, as `Path::file_name` reads it.
fn file_name_in(id: &[char]) -> (r: Option<String>)
    ensures
        crate::navigation::opt_string_view(r) == file_name(id@),
{
    let parts = crate::workspace::named_segments(id);
    if parts.len() == 0 {
        return None;
    }
    let last = &parts[parts.len() - 1];
    let is_dot_dot = last.len() == 2 && last[0] == '.' && last[1] == '.';
    proof {
        let n = named(segments(id@));
        assert(n.last() == last@);
        if last@ == crate::workspace::dot_dot() {
            assert(last.len() == 2 && last@[0] == '.' && last@[1] == '.');
        }
        if is_dot_dot {
            assert(last@ =~= crate::workspace::dot_dot());
        }
    }
    if is_dot_dot {
        return None;
    }
    Some(crate::text::string_of(last.as_slice()))
}

fn listing_row_of(line: &[char], assets: bool) -> (r: Result<Option<WorkspaceEntry>, ()>)
    ensures
        match (r, listing_row(line@, assets)) {
            (Ok(Some(e)), Ok(Some(m))) => crate::backend_state::entry_model(e) == m,
            (Ok(None), Ok(None)) => true,
            (Err(_), Err(_)) => true,
            _ => false,
        },
{
    let c = match crate::text::find_char_in(line, ':', 0) {
        None => return Ok(None),
        Some(c) => c,
    };
    proof {
        crate::text::lemma_find_char_from(line@, ':', 0);
        assert(crate::text::find_char_from(line@, ':', 0) == Some(c as int));
        assert(c < line@.len());
    }
    let tag_a = c == 1 && line[0] == 'A';
    let tag_d = c == 1 && line[0] == 'D';
    let tag_f = c == 1 && line[0] == 'F';
    proof {
        let tag = line@.take(c as int);
        if c == 1 {
            assert(tag =~= seq![line@[0]]);
        }
        if tag == seq!['A'] || tag == seq!['D'] || tag == seq!['F'] {
            assert(tag.len() == 1);
            assert(tag[0] == line@[0]);
        }
    }
    if assets && !tag_a {
        return Ok(None);
    }
    let len = line.len();
    let encoded = crate::text::string_of_range(line, c + 1, len);
    proof {
        assert(line@.subrange(c + 1, line@.len() as int) =~= line@.skip(c + 1));
    }
    let id = match crate::links::percent_decode_utf8(encoded.as_str()) {
        None => return Err(()),
        Some(id) => id,
    };
    let idv = crate::text::chars_of(id.as_str());
    let name = match file_name_in(idv.as_slice()) {
        None => return Ok(None),
        Some(n) => n,
    };
    let depth = depth_of(idv.as_slice());
    if assets {
        Ok(Some(WorkspaceEntry { id, name, kind: EntryKind::File, depth }))
    } else if tag_d {
        Ok(Some(WorkspaceEntry { id, name, kind: EntryKind::Directory, depth }))
    } else if tag_f {
        Ok(Some(WorkspaceEntry { id, name, kind: EntryKind::File, depth }))
    } else {
        Ok(None)
    }
}


/// Reads the coordinated listing `text` of a workspace folder; see
/// [`parsed_listing`]. With `assets`, the image assets instead of the tree.
pub fn parse_coordinated_listing(text: &str, assets: bool) -> (r: Option<Vec<WorkspaceEntry>>)
    ensures
        match r {
            Some(v) => parsed_listing(text@, assets) == Some(entries_model(v@)),
            None => parsed_listing(text@, assets) is None,
        },
{
    let chars = crate::text::chars_of(text);
    let lines = crate::text::split_lines(chars.as_slice());
    let ghost ls = crate::text::char_vec_views(lines@);
    let mut rows: Vec<WorkspaceEntry> = Vec::new();
    let mut i: usize = 0;
    proof {
        assert(ls.take(0) =~= Seq::<Seq<char>>::empty());
        assert(entries_model(rows@) =~= Seq::<EntryModel>::empty());
        assert(ls == text_lines(text@));
    }
    while i < lines.len()
        invariant
            i <= lines.len(),
            ls == text_lines(text@),
            ls == crate::text::char_vec_views(lines@),
            ls.len() == lines@.len(),
            listing_rows(ls.take(i as int), assets) == Ok::<Seq<EntryModel>, ()>(entries_model(rows@)),
        decreases lines.len() - i,
    {
        proof {
            assert(ls.take(i + 1).drop_last() =~= ls.take(i as int));
            assert(ls.take(i + 1).last() == lines@[i as int]@);
        }
        match listing_row_of(lines[i].as_slice(), assets) {
            Err(_) => {
                proof {
                    assert(listing_row(ls[i as int], assets) is Err);
                    assert(listing_rows(ls.take(i + 1), assets) is Err);
                    lemma_rows_error_persists(ls, i as int + 1, assets);
                    assert(ls.take(ls.len() as int) =~= ls);
                }
                return None;
            },
            Ok(Some(e)) => {
                let ghost prev = rows@;
                rows.push(e);
                proof {
                    assert(entries_model(rows@) =~= entries_model(prev).push(crate::backend_state::entry_model(e)));
                }
            },
            Ok(None) => {},
        }
        i += 1;
    }
    proof {
        assert(ls.take(ls.len() as int) =~= ls);
        assert(ls == text_lines(text@));
    }
    let mut keys: Vec<Vec<char>> = Vec::new();
    let mut k: usize = 0;
    while k < rows.len()
        invariant
            k <= rows.len(),
            keys@.map_values(|x: Vec<char>| x@) == entries_model(rows@).take(k as int).map_values(|r: EntryModel| lowercase(r.0)),
        decreases rows.len() - k,
    {
        let lower = crate::text::to_lowercase(rows[k].id.as_str());
        let ghost prev = keys@;
        keys.push(crate::text::chars_of(lower.as_str()));
        proof {
            assert(keys@.map_values(|x: Vec<char>| x@) =~= prev.map_values(|x: Vec<char>| x@).push(lowercase(rows@[k as int].id@)));
            assert(entries_model(rows@).take(k + 1).map_values(|r: EntryModel| lowercase(r.0))
                =~= entries_model(rows@).take(k as int).map_values(|r: EntryModel| lowercase(r.0)).push(lowercase(rows@[k as int].id@)));
        }
        k += 1;
    }
    let ghost rm = entries_model(rows@);
    proof {
        assert(rm.take(rm.len() as int) =~= rm);
    }
    let order = crate::listing::sorted_order(&keys);
    let ghost ks = keys@.map_values(|x: Vec<char>| x@);
    proof {
        crate::listing::lemma_stable_order_in_range(ks, keys@.len());
    }
    let ghost ord = order@.map_values(|x: usize| x as int);
    let mut out: Vec<WorkspaceEntry> = Vec::new();
    let mut j: usize = 0;
    while j < order.len()
        invariant
            j <= order.len(),
            ord == order@.map_values(|x: usize| x as int),
            ord == stable_order(ks, ks.len()),
            ks.len() == rows@.len(),
            forall|q: int| 0 <= q < ord.len() ==> 0 <= #[trigger] ord[q] < rows@.len(),
            entries_model(out@) == ord.take(j as int).map_values(|x: int| rm[x]),
            rm == entries_model(rows@),
        decreases order.len() - j,
    {
        let index = order[j];
        proof {
            assert(ord[j as int] == index as int);
        }
        let e = crate::backend_state::copy_entry(&rows[index]);
        let ghost prev = out@;
        out.push(e);
        proof {
            assert(entries_model(out@) =~= entries_model(prev).push(rm[index as int]));
            assert(ord.take(j + 1).map_values(|x: int| rm[x]) =~= ord.take(j as int).map_values(|x: int| rm[x]).push(rm[index as int]));
        }
        j += 1;
    }
    proof {
        assert(ord.take(ord.len() as int) =~= ord);
        assert(ks == rm.map_values(|r: EntryModel| lowercase(r.0)));
    }
    Some(out)
}

proof fn lemma_rows_error_persists(ls: Seq<Seq<char>>, n: int, assets: bool)
    requires
        0 < n <= ls.len(),
        listing_rows(ls.take(n), assets) is Err,
    ensures
        listing_rows(ls, assets) is Err,
    decreases ls.len() - n,
{
    if n < ls.len() {
        assert(ls.take(n + 1).drop_last() =~= ls.take(n));
        lemma_rows_error_persists(ls, n + 1, assets);
    } else {
        assert(ls.take(n) =~= ls);
    }
}


/// The names of the files (`F:` lines) of a coordinated listing of a backup
/// folder, percent-decoded; names that are not UTF-8 once decoded are left out.
pub open spec fn listed_file_names(lines: Seq<Seq<char>>) -> Seq<Seq<char>>
    decreases lines.len(),
{
    if lines.len() == 0 {
        Seq::empty()
    } else {
        let rest = listed_file_names(lines.drop_last());
        let line = lines.last();
        if crate::text::starts_with(line, seq!['F', ':']) {
            match percent_decoded_text(line.skip(2)) {
                Some(name) => rest.push(name),
                None => rest,
            }
        } else {
            rest
        }
    }
}

/// The file names a coordinated listing of a backup folder holds; see
/// [`listed_file_names`].
pub fn backup_names_in_listing(text: &str) -> (r: Vec<String>)
    ensures
        crate::navigation::id_views(r@) == listed_file_names(text_lines(text@)),
{
    let chars = crate::text::chars_of(text);
    let lines = crate::text::split_lines(chars.as_slice());
    let ghost ls = crate::text::char_vec_views(lines@);
    let prefix = vec!['F', ':'];
    proof {
        assert(prefix@ =~= seq!['F', ':']);
    }
    let mut names: Vec<String> = Vec::new();
    let mut i: usize = 0;
    while i < lines.len()
        invariant
            i <= lines.len(),
            prefix@ == seq!['F', ':'],
            ls == crate::text::char_vec_views(lines@),
            ls.len() == lines@.len(),
            crate::navigation::id_views(names@) == listed_file_names(ls.take(i as int)),
        decreases lines.len() - i,
    {
        proof {
            assert(ls.take(i + 1).drop_last() =~= ls.take(i as int));
            assert(ls.take(i + 1).last() == lines@[i as int]@);
        }
        let line = &lines[i];
        if crate::text::has_prefix(line.as_slice(), prefix.as_slice()) {
            let len = line.len();
            let encoded = crate::text::string_of_range(line.as_slice(), 2, len);
            proof {
                assert(line@.subrange(2, line@.len() as int) =~= line@.skip(2));
            }
            if let Some(name) = crate::links::percent_decode_utf8(encoded.as_str()) {
                let ghost prev = names@;
                names.push(name);
                proof {
                    assert(crate::navigation::id_views(names@) =~= crate::navigation::id_views(prev).push(name@));
                }
            }
        }
        i += 1;
    }
    proof {
        assert(ls.take(ls.len() as int) =~= ls);
    }
    names
}

} // verus!
