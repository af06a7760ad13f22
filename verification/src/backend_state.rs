//! The canonical workspace state behind the editor: which workspace is open
//! and how it is saved as a favorite, its scanned tree, the open note and its
//! save baseline, the navigation history, and the startup restore. Every
//! decision about that state is made here; the caller performs the
//! filesystem, network and session I/O that the decisions ask for.
use vstd::prelude::*;
use crate::backend::favorite_label;
use crate::navigation::{
    History, NavigationState, ids_outside, is_at_or_under, opt_string_view, rebased_id,
    rebased_ids, stepped_back, stepped_forward, visited,
};
use crate::persistence::{SavedFavorite, SavedSmbConfig, SavedWorkspace, SessionState, WorkspaceModel};
use crate::smb::SmbConnectionConfig;
use crate::text::{copy_bytes, owned, str_eq};
use crate::workspace::{EntryId, EntryKind, WorkspaceEntry};

verus! {

/// A scanned entry as the specifications see it: id, name, kind, depth.
pub type EntryModel = (Seq<char>, Seq<char>, EntryKind, usize);

pub open spec fn entry_model(e: WorkspaceEntry) -> EntryModel {
    (e.id@, e.name@, e.kind, e.depth)
}

pub open spec fn entries_model(s: Seq<WorkspaceEntry>) -> Seq<EntryModel> {
    s.map_values(|e: WorkspaceEntry| entry_model(e))
}

/// A copy of a scanned entry.
pub fn copy_entry(e: &WorkspaceEntry) -> (r: WorkspaceEntry)
    ensures
        entry_model(r) == entry_model(*e),
{
    WorkspaceEntry { id: owned(e.id.as_str()), name: owned(e.name.as_str()), kind: e.kind, depth: e.depth }
}

/// A copy of a scanned tree.
pub fn copy_entries(v: &Vec<WorkspaceEntry>) -> (r: Vec<WorkspaceEntry>)
    ensures
        entries_model(r@) == entries_model(v@),
{
    let mut r: Vec<WorkspaceEntry> = Vec::new();
    let mut i: usize = 0;
    while i < v.len()
        invariant
            i <= v.len(),
            entries_model(r@) == entries_model(v@.take(i as int)),
        decreases v.len() - i,
    {
        let e = copy_entry(&v[i]);
        let ghost prev = r@;
        r.push(e);
        i += 1;
        proof {
            assert(r@ == prev.push(e));
            assert(v@.take(i as int) =~= v@.take(i - 1).push(v@[i - 1]));
            assert(entries_model(r@) =~= entries_model(prev).push(entry_model(e)));
            assert(entries_model(v@.take(i as int)) =~= entries_model(v@.take(i - 1)).push(entry_model(v@[i - 1])));
        }
    }
    proof {
        assert(v@.take(v@.len() as int) =~= v@);
    }
    r
}

/// The optional bookmark as bytes.
pub open spec fn bookmark_model(b: Option<Vec<u8>>) -> Option<Seq<u8>> {
    match b {
        Some(v) => Some(v@),
        None => None,
    }
}

/// A copy of an optional bookmark.
pub fn copy_bookmark(b: &Option<Vec<u8>>) -> (r: Option<Vec<u8>>)
    ensures
        bookmark_model(r) == bookmark_model(*b),
{
    match b {
        Some(v) => Some(copy_bytes(v.as_slice())),
        None => None,
    }
}

/// Whether two byte strings are equal.
pub fn bytes_eq(a: &[u8], b: &[u8]) -> (r: bool)
    ensures
        r == (a@ == b@),
{
    if a.len() != b.len() {
        return false;
    }
    let mut i: usize = 0;
    while i < a.len()
        invariant
            i <= a.len(),
            a.len() == b.len(),
            a@.take(i as int) == b@.take(i as int),
        decreases a.len() - i,
    {
        if a[i] != b[i] {
            proof {
                assert(a@[i as int] != b@[i as int]);
            }
            return false;
        }
        i += 1;
        proof {
            assert(a@.take(i as int) =~= b@.take(i as int)) by {
                assert(a@.take(i as int) =~= a@.take(i - 1).push(a@[i - 1]));
                assert(b@.take(i as int) =~= b@.take(i - 1).push(b@[i - 1]));
            }
        }
    }
    proof {
        assert(a@ =~= a@.take(a@.len() as int));
        assert(b@ =~= b@.take(b@.len() as int));
    }
    true
}

/// A copy of an SMB favorite's location.
pub fn copy_smb(c: &SavedSmbConfig) -> (r: SavedSmbConfig)
    ensures
        r.server@ == c.server@,
        r.share@ == c.share@,
        r.username@ == c.username@,
        r.remote_path@ == c.remote_path@,
{
    SavedSmbConfig {
        server: owned(c.server.as_str()),
        share: owned(c.share.as_str()),
        username: owned(c.username.as_str()),
        remote_path: owned(c.remote_path.as_str()),
    }
}

/// A copy of a favorite.
pub fn copy_favorite(f: &SavedFavorite) -> (r: SavedFavorite)
    ensures
        r.workspace.model() == f.workspace.model(),
{
    match &f.workspace {
        SavedWorkspace::Local { path, bookmark } => SavedFavorite {
            workspace: SavedWorkspace::Local { path: owned(path.as_str()), bookmark: copy_bookmark(bookmark) },
        },
        SavedWorkspace::Smb(c) => SavedFavorite { workspace: SavedWorkspace::Smb(copy_smb(c)) },
    }
}

/// Whether two favorites name the same workspace (the same folder and
/// bookmark, or the same server, share, user and folder).
pub fn same_favorite(a: &SavedFavorite, b: &SavedFavorite) -> (r: bool)
    ensures
        r == (a.workspace.model() == b.workspace.model()),
{
    match (&a.workspace, &b.workspace) {
        (SavedWorkspace::Local { path: pa, bookmark: ba }, SavedWorkspace::Local { path: pb, bookmark: bb }) => {
            if !str_eq(pa.as_str(), pb.as_str()) {
                return false;
            }
            match (ba, bb) {
                (Some(x), Some(y)) => bytes_eq(x.as_slice(), y.as_slice()),
                (None, None) => true,
                _ => false,
            }
        },
        (SavedWorkspace::Smb(x), SavedWorkspace::Smb(y)) => {
            str_eq(x.server.as_str(), y.server.as_str()) && str_eq(x.share.as_str(), y.share.as_str())
                && str_eq(x.username.as_str(), y.username.as_str())
                && str_eq(x.remote_path.as_str(), y.remote_path.as_str())
        },
        _ => false,
    }
}

/// Where an open workspace lives: a local folder, or an SMB share.
#[derive(Clone, Debug)]
pub enum WorkspaceOrigin {
    Local { path: String },
    Smb(SavedSmbConfig),
}

/// The workspace that is open, as the state needs to know it: the text it
/// is shown by, and where it lives.
#[derive(Clone, Debug)]
pub struct InstalledWorkspace {
    pub display: String,
    pub origin: WorkspaceOrigin,
}

/// An open workspace as the specifications see it.
pub struct InstalledModel {
    pub display: Seq<char>,
    pub is_smb: bool,
    pub local_path: Seq<char>,
    pub smb: (Seq<char>, Seq<char>, Seq<char>, Seq<char>),
}

impl InstalledWorkspace {
    pub open spec fn model(self) -> InstalledModel {
        match self.origin {
            WorkspaceOrigin::Local { path } => InstalledModel {
                display: self.display@,
                is_smb: false,
                local_path: path@,
                smb: (Seq::empty(), Seq::empty(), Seq::empty(), Seq::empty()),
            },
            WorkspaceOrigin::Smb(c) => InstalledModel {
                display: self.display@,
                is_smb: true,
                local_path: Seq::empty(),
                smb: (c.server@, c.share@, c.username@, c.remote_path@),
            },
        }
    }
}

/// The favorite that an open workspace is saved as: an SMB share by its
/// location (never its password), a folder by its path and bookmark.
pub open spec fn favorite_model(w: InstalledModel, bookmark: Option<Seq<u8>>) -> WorkspaceModel {
    if w.is_smb {
        WorkspaceModel::Smb(w.smb.0, w.smb.1, w.smb.2, w.smb.3)
    } else {
        WorkspaceModel::Local(w.local_path, bookmark)
    }
}

/// The favorite an open workspace is saved as.
pub fn workspace_favorite(w: &InstalledWorkspace, bookmark: &Option<Vec<u8>>) -> (r: SavedFavorite)
    ensures
        r.workspace.model() == favorite_model(w.model(), bookmark_model(*bookmark)),
{
    match &w.origin {
        WorkspaceOrigin::Local { path } => SavedFavorite {
            workspace: SavedWorkspace::Local { path: owned(path.as_str()), bookmark: copy_bookmark(bookmark) },
        },
        WorkspaceOrigin::Smb(c) => SavedFavorite { workspace: SavedWorkspace::Smb(copy_smb(c)) },
    }
}

/// The label a favorite is listed under, over its model.
pub open spec fn favorite_label_of(w: WorkspaceModel) -> Seq<char> {
    match w {
        WorkspaceModel::Local(path, _) => path,
        WorkspaceModel::Smb(server, share, _, remote) => {
            let folder = crate::text::trim_char(remote, '/');
            let base = seq!['s', 'm', 'b', ':', '/', '/'] + server + seq!['/'] + share;
            if folder.len() == 0 {
                base
            } else {
                base + seq!['/'] + folder
            }
        },
    }
}

/// The first position of `x` in `s`, if it occurs.
pub open spec fn first_index(s: Seq<WorkspaceModel>, x: WorkspaceModel) -> Option<usize> {
    if exists|i: int| 0 <= i < s.len() && s[i] == x {
        Some((choose|i: int| 0 <= i < s.len() && s[i] == x && forall|j: int| 0 <= j < i ==> s[j] != x) as usize)
    } else {
        None
    }
}

pub open spec fn favorites_model(s: Seq<SavedFavorite>) -> Seq<WorkspaceModel> {
    s.map_values(|f: SavedFavorite| f.workspace.model())
}

/// The position of `x` among `favorites`, if it is one of them.
pub fn favorite_position(favorites: &Vec<SavedFavorite>, x: &SavedFavorite) -> (r: Option<usize>)
    ensures
        r == first_index(favorites_model(favorites@), x.workspace.model()),
{
    let ghost s = favorites_model(favorites@);
    let ghost m = x.workspace.model();
    let mut i: usize = 0;
    while i < favorites.len()
        invariant
            i <= favorites.len(),
            s == favorites_model(favorites@),
            m == x.workspace.model(),
            forall|j: int| 0 <= j < i ==> s[j] != m,
        decreases favorites.len() - i,
    {
        if same_favorite(&favorites[i], x) {
            proof {
                assert(s[i as int] == m);
                let c = choose|k: int| 0 <= k < s.len() && s[k] == m && forall|j: int| 0 <= j < k ==> s[j] != m;
                assert(0 <= c < s.len() && s[c] == m && forall|j: int| 0 <= j < c ==> s[j] != m);
                if c < i {
                    assert(s[c] != m);
                }
                if c > i {
                    assert(s[i as int] != m);
                }
                assert(c == i);
            }
            return Some(i);
        }
        i += 1;
    }
    None
}

/// A favorite as it is listed: its position, label, and whether it is an SMB share.
#[derive(Clone, Debug)]
pub struct FavoritePayload {
    pub index: usize,
    pub label: String,
    pub workspace_is_smb: bool,
}

/// What the editor is shown of the workspace state.
#[derive(Clone, Debug)]
pub struct WorkspaceSnapshot {
    pub workspace_open: bool,
    pub workspace_path: String,
    pub workspace_is_smb: bool,
    pub workspace_favorited: bool,
    pub favorites: Vec<FavoritePayload>,
    pub entries: Vec<WorkspaceEntry>,
    pub current_file: Option<EntryId>,
    pub can_go_back: bool,
    pub can_go_forward: bool,
    pub external_conflict: bool,
    pub workspace_restoring: bool,
}

/// A note that was opened, with the state it left behind.
#[derive(Clone, Debug)]
pub struct NotePayload {
    pub id: EntryId,
    pub contents: String,
    pub snapshot: WorkspaceSnapshot,
}

/// What the user typed to connect to an SMB share.
#[derive(Clone, Debug)]
pub struct SmbConnectRequest {
    pub server: String,
    pub share: String,
    pub username: String,
    pub password: String,
    pub remote_path: String,
}

impl SmbConnectRequest {
    /// The connection that the request asks for, field for field.
    pub fn into_config(self) -> (r: SmbConnectionConfig)
        ensures
            r.server == self.server,
            r.share == self.share,
            r.username == self.username,
            r.password == self.password,
            r.remote_path == self.remote_path,
    {
        SmbConnectionConfig {
            server: self.server,
            share: self.share,
            username: self.username,
            password: self.password,
            remote_path: self.remote_path,
        }
    }
}

/// The favorite to reopen at launch, with the note it showed and the
/// state's revision when the restore began.
pub struct PendingRestore {
    favorite: SavedFavorite,
    current_file: Option<EntryId>,
    revision: u64,
}

impl PendingRestore {
    pub closed spec fn favorite_model(&self) -> WorkspaceModel {
        self.favorite.workspace.model()
    }

    pub closed spec fn note_model(&self) -> Option<Seq<char>> {
        opt_string_view(self.current_file)
    }

    pub closed spec fn revision_model(&self) -> u64 {
        self.revision
    }

    /// The favorite to reopen.
    pub fn favorite(&self) -> (r: &SavedFavorite)
        ensures
            r.workspace.model() == self.favorite_model(),
    {
        &self.favorite
    }

    /// The note the favorite showed when the session was saved.
    pub fn current_file(&self) -> (r: Option<&str>)
        ensures
            crate::navigation::opt_view(r) == self.note_model(),
    {
        match &self.current_file {
            Some(f) => Some(f.as_str()),
            None => None,
        }
    }
}

/// A listed favorite as the specifications see it: position, label, SMB or not.
pub type FavoriteRow = (usize, Seq<char>, bool);

/// A snapshot as the specifications see it.
pub struct SnapshotModel {
    pub open: bool,
    pub path: Seq<char>,
    pub is_smb: bool,
    pub favorited: bool,
    pub favorites: Seq<FavoriteRow>,
    pub entries: Seq<EntryModel>,
    pub current_file: Option<Seq<char>>,
    pub can_go_back: bool,
    pub can_go_forward: bool,
    pub conflict: bool,
    pub restoring: bool,
}

impl WorkspaceSnapshot {
    pub open spec fn model(self) -> SnapshotModel {
        SnapshotModel {
            open: self.workspace_open,
            path: self.workspace_path@,
            is_smb: self.workspace_is_smb,
            favorited: self.workspace_favorited,
            favorites: self.favorites@.map_values(|p: FavoritePayload| (p.index, p.label@, p.workspace_is_smb)),
            entries: entries_model(self.entries@),
            current_file: opt_string_view(self.current_file),
            can_go_back: self.can_go_back,
            can_go_forward: self.can_go_forward,
            conflict: self.external_conflict,
            restoring: self.workspace_restoring,
        }
    }
}

/// The workspace state as the specifications see it.
pub struct BackendModel {
    pub workspace: Option<InstalledModel>,
    pub revision: u64,
    pub entries: Seq<EntryModel>,
    pub bookmark: Option<Seq<u8>>,
    pub favorites: Seq<WorkspaceModel>,
    pub active_favorite: Option<usize>,
    pub current_file: Option<Seq<char>>,
    pub disk_text: Seq<char>,
    pub external_conflict: bool,
    pub history: History,
    pub restoring: bool,
    pub restored_revision: Option<u64>,
}

impl BackendModel {
    /// The active favorite, when there is one, is one of the favorites.
    pub open spec fn wf(self) -> bool {
        match self.active_favorite {
            Some(i) => i < self.favorites.len(),
            None => true,
        }
    }
}

/// The favorites as they are listed.
pub open spec fn favorite_rows(favorites: Seq<WorkspaceModel>) -> Seq<FavoriteRow> {
    Seq::new(favorites.len(), |i: int| (i as usize, favorite_label_of(favorites[i]), favorites[i] is Smb))
}

/// What the editor is shown of a state.
pub open spec fn snapshot_of(m: BackendModel) -> SnapshotModel {
    SnapshotModel {
        open: m.workspace is Some,
        path: match m.workspace {
            Some(w) => w.display,
            None => Seq::empty(),
        },
        is_smb: match m.workspace {
            Some(w) => w.is_smb,
            None => false,
        },
        favorited: m.active_favorite is Some,
        favorites: favorite_rows(m.favorites),
        entries: m.entries,
        current_file: m.current_file,
        can_go_back: m.history.back.len() > 0,
        can_go_forward: m.history.forward.len() > 0,
        conflict: m.external_conflict,
        restoring: m.restoring,
    }
}

/// Why the workspace state refused a request.
#[derive(Clone, Copy, PartialEq, Eq, Debug, Structural)]
pub enum BackendError {
    /// No workspace is open.
    NoWorkspace,
    /// No note is open.
    NoNote,
    /// The note changed on disk under unsaved edits.
    ExternalConflict,
    /// The open note changed while a save was in progress.
    SaveSuperseded,
    /// A save was interrupted and the note on disk is not what was written.
    SaveOutcomeUnknown,
    /// The note on disk is not what was just written.
    ChangedWhileSaving,
    /// A favorite needs an open workspace.
    FavoriteNeedsWorkspace,
    /// SMB passwords are not stored on this platform, so a share is no favorite.
    SmbCredentialsSessionOnly,
    /// The favorite's position is out of range.
    NoSuchFavorite,
    /// An SMB favorite cannot be reopened without stored credentials.
    SmbFavoriteUnavailable,
}

/// The revision after one more change (it wraps around).
pub open spec fn next_revision(r: u64) -> u64 {
    if r == u64::MAX {
        0
    } else {
        (r + 1) as u64
    }
}

/// The state after `w` (with `bookmark`) is installed as the open workspace:
/// nothing is open in it yet, the history is empty, and it is the active
/// favorite exactly when it is one of the favorites.
pub open spec fn installed(m: BackendModel, w: InstalledModel, bookmark: Option<Seq<u8>>) -> BackendModel {
    BackendModel {
        workspace: Some(w),
        revision: next_revision(m.revision),
        entries: Seq::empty(),
        bookmark,
        active_favorite: first_index(m.favorites, favorite_model(w, bookmark)),
        current_file: None,
        disk_text: Seq::empty(),
        external_conflict: false,
        history: History { back: Seq::empty(), forward: Seq::empty() },
        ..m
    }
}

/// The state with its scanned tree replaced.
pub open spec fn with_entries(m: BackendModel, entries: Seq<EntryModel>) -> BackendModel {
    BackendModel { entries, ..m }
}

/// The state after the note `id` was read as `contents` and opened; the
/// note that was open goes onto the history when `record` asks for it and
/// another note is opened.
pub open spec fn opened(m: BackendModel, id: Seq<char>, contents: Seq<char>, record: bool) -> BackendModel {
    BackendModel {
        history: if record && m.current_file != Some(id) {
            visited(m.history, m.current_file)
        } else {
            m.history
        },
        current_file: Some(id),
        disk_text: contents,
        external_conflict: false,
        ..m
    }
}

/// What a save starts from: the open note and its baseline; refused under an
/// unforced conflict, without a workspace, or without an open note.
pub open spec fn save_request_of(m: BackendModel, force: bool) -> Result<(Seq<char>, Seq<char>), BackendError> {
    if m.external_conflict && !force {
        Err(BackendError::ExternalConflict)
    } else if m.workspace is None {
        Err(BackendError::NoWorkspace)
    } else {
        match m.current_file {
            None => Err(BackendError::NoNote),
            Some(f) => Ok((f, m.disk_text)),
        }
    }
}

/// The state after a save of `file` from `baseline` found a conflict: it is
/// marked only while that note, with that baseline, is still open.
pub open spec fn conflict_marked(m: BackendModel, file: Seq<char>, baseline: Seq<char>) -> BackendModel {
    if m.current_file == Some(file) && m.disk_text == baseline {
        BackendModel { external_conflict: true, ..m }
    } else {
        m
    }
}

/// The state after `contents` was written for a save of `file` from
/// `baseline`: refused when another note or baseline is open by now.
pub open spec fn save_completed(m: BackendModel, file: Seq<char>, baseline: Seq<char>, contents: Seq<char>) -> Result<BackendModel, BackendError> {
    if m.current_file != Some(file) || m.disk_text != baseline {
        Err(BackendError::SaveSuperseded)
    } else {
        Ok(BackendModel { disk_text: contents, external_conflict: false, ..m })
    }
}

/// A save that is about to write: the first read of the note must still be
/// the baseline unless the save is forced.
pub open spec fn write_allowed(m: BackendModel, file: Seq<char>, baseline: Seq<char>, force: bool, disk: Seq<char>) -> (BackendModel, Result<(), BackendError>) {
    if !force && disk != baseline {
        (conflict_marked(m, file, baseline), Err(BackendError::ExternalConflict))
    } else {
        (m, Ok(()))
    }
}

/// A save that wrote: the note read back must be what was written, or the
/// conflict is marked and the save fails (its outcome unknown when the write
/// was interrupted).
pub open spec fn write_finished(m: BackendModel, file: Seq<char>, baseline: Seq<char>, contents: Seq<char>, read_back: Seq<char>, interrupted: bool) -> (BackendModel, Result<SnapshotModel, BackendError>) {
    if read_back == contents {
        match save_completed(m, file, baseline, contents) {
            Ok(m2) => (m2, Ok(snapshot_of(m2))),
            Err(e) => (m, Err(e)),
        }
    } else {
        (conflict_marked(m, file, baseline), Err(if interrupted {
            BackendError::SaveOutcomeUnknown
        } else {
            BackendError::ChangedWhileSaving
        }))
    }
}

/// The note and baseline a save works on.
pub struct SaveRequest {
    pub file: EntryId,
    pub baseline: String,
}

/// The workspace to install when a favorite was reopened: the workspace, its
/// bookmark, and its scanned tree.
pub struct ReopenedWorkspace {
    pub workspace: InstalledWorkspace,
    pub bookmark: Option<Vec<u8>>,
    pub entries: Vec<WorkspaceEntry>,
}


/// What a refresh works from: the revision, the open note and its baseline
/// when the refresh began.
pub struct RefreshPlan {
    pub revision: u64,
    pub current_file: Option<EntryId>,
    pub baseline: String,
}

/// The state after a refresh that began at `revision` with `current` open
/// from `baseline` read `disk` for that note and scanned `entries`. A refresh
/// that the workspace, the open note or its baseline has moved past since it
/// began is dropped; otherwise the tree is replaced and a different disk text
/// marks a conflict (the baseline stays until the editor loads the note),
/// while the same text clears the conflict unless the editor has unsaved
/// changes.
pub open spec fn refreshed(m: BackendModel, revision: u64, current: Option<Seq<char>>, baseline: Seq<char>, disk: Option<Seq<char>>, entries: Seq<EntryModel>, unsaved: bool) -> (BackendModel, bool) {
    if m.revision != revision || m.current_file != current || m.disk_text != baseline {
        (m, false)
    } else {
        let conflict = match disk {
            Some(d) => reconciled(m, d, unsaved).external_conflict,
            None => m.external_conflict,
        };
        (BackendModel { external_conflict: conflict, entries, ..m }, true)
    }
}

/// The state after the open note was read from disk as `disk`: a different
/// text marks a conflict (the baseline stays until the editor loads the
/// note); the same text clears the conflict unless the editor has unsaved
/// changes.
pub open spec fn reconciled(m: BackendModel, disk: Seq<char>, unsaved: bool) -> BackendModel {
    BackendModel {
        external_conflict: if disk != m.disk_text {
            true
        } else if !unsaved {
            false
        } else {
            m.external_conflict
        },
        ..m
    }
}

/// The state after the entry `id` was renamed to `new_id`: the history
/// follows it, the open note follows it if it is that entry, and the
/// workspace counts as changed.
pub open spec fn renamed(m: BackendModel, id: Seq<char>, new_id: Seq<char>) -> BackendModel {
    BackendModel {
        history: History { back: rebased_ids(m.history.back, id, new_id), forward: rebased_ids(m.history.forward, id, new_id) },
        current_file: if m.current_file == Some(id) { Some(new_id) } else { m.current_file },
        revision: next_revision(m.revision),
        ..m
    }
}

/// The state after the entry `id` was moved to `new_id`: the history and
/// the open note follow it, also when the note lies beneath a moved folder.
pub open spec fn moved(m: BackendModel, id: Seq<char>, new_id: Seq<char>) -> BackendModel {
    BackendModel {
        history: History { back: rebased_ids(m.history.back, id, new_id), forward: rebased_ids(m.history.forward, id, new_id) },
        current_file: match m.current_file {
            Some(f) => Some(rebased_id(f, id, new_id)),
            None => None,
        },
        revision: next_revision(m.revision),
        ..m
    }
}

/// The state after the entry `id` was deleted: the history forgets it and
/// everything beneath it, and so does the open note, with its baseline.
pub open spec fn deleted(m: BackendModel, id: Seq<char>) -> BackendModel {
    let gone = match m.current_file {
        Some(f) => is_at_or_under(f, id),
        None => false,
    };
    BackendModel {
        history: History { back: ids_outside(m.history.back, id), forward: ids_outside(m.history.forward, id) },
        current_file: if gone { None } else { m.current_file },
        disk_text: if gone { Seq::empty() } else { m.disk_text },
        revision: next_revision(m.revision),
        ..m
    }
}

/// The state and target of a step back or forward through the history.
pub open spec fn stepped(m: BackendModel, forward: bool) -> (BackendModel, Option<Seq<char>>) {
    let (h, target) = if forward {
        stepped_forward(m.history, m.current_file)
    } else {
        stepped_back(m.history, m.current_file)
    };
    (BackendModel { history: h, ..m }, target)
}

/// The state after the open workspace is made a favorite or stops being
/// one. A workspace that already is a favorite becomes the active one; an
/// SMB share is refused, since its password would have to be stored; any
/// other workspace is added last. Unfavoriting removes the active favorite.
pub open spec fn favorite_set(m: BackendModel, favorited: bool) -> Result<BackendModel, BackendError> {
    match m.workspace {
        None => Err(BackendError::FavoriteNeedsWorkspace),
        Some(w) => {
            let current = favorite_model(w, m.bookmark);
            if favorited {
                match first_index(m.favorites, current) {
                    Some(i) => Ok(BackendModel { active_favorite: Some(i), ..m }),
                    None => if w.is_smb {
                        Err(BackendError::SmbCredentialsSessionOnly)
                    } else {
                        Ok(BackendModel {
                            favorites: m.favorites.push(current),
                            active_favorite: Some(m.favorites.len() as usize),
                            ..m
                        })
                    },
                }
            } else {
                match m.active_favorite {
                    Some(i) => Ok(BackendModel { favorites: m.favorites.remove(i as int), active_favorite: None, ..m }),
                    None => Ok(m),
                }
            }
        },
    }
}

/// The state after the saved session is loaded at launch, and the favorite
/// to reopen: the one the session had open, if it is one of its favorites.
pub open spec fn session_loaded(m: BackendModel, favorites: Seq<WorkspaceModel>, active: Option<usize>, current: Option<Seq<char>>) -> (BackendModel, Option<(WorkspaceModel, Option<Seq<char>>, u64)>) {
    match active {
        Some(i) if i < favorites.len() => (
            BackendModel { favorites, restoring: true, ..m },
            Some((favorites[i as int], current, m.revision)),
        ),
        _ => (BackendModel { favorites, ..m }, None),
    }
}

/// The state after a launch-time restore finished. It installs what was
/// reopened only when no other workspace was installed since the restore
/// began, then opens the note the session showed if it could be read, and
/// records the revision it installed.
pub open spec fn restore_finished(m: BackendModel, revision: u64, current: Option<Seq<char>>, reopened: Option<(InstalledModel, Option<Seq<u8>>, Seq<EntryModel>)>, note: Option<Seq<char>>) -> BackendModel {
    let m1 = BackendModel { restoring: false, ..m };
    match reopened {
        Some((w, b, e)) if m.revision == revision => {
            let m2 = with_entries(installed(m1, w, b), e);
            let m3 = match (current, note) {
                (Some(id), Some(text)) => opened(m2, id, text, false),
                _ => m2,
            };
            BackendModel { restored_revision: Some(m3.revision), ..m3 }
        },
        _ => m1,
    }
}

/// The ids of the notes (not folders) of a scanned tree, in order.
pub open spec fn note_ids(s: Seq<EntryModel>) -> Seq<Seq<char>>
    decreases s.len(),
{
    if s.len() == 0 {
        Seq::empty()
    } else {
        let rest = note_ids(s.drop_last());
        if s.last().2 == EntryKind::File {
            rest.push(s.last().0)
        } else {
            rest
        }
    }
}

/// What the session file should hold: nothing (it is cleared) without
/// favorites; otherwise the favorites, the active one, and the open note
/// when a favorite is active.
pub open spec fn persisted(m: BackendModel) -> Option<(Seq<WorkspaceModel>, Option<usize>, Option<Seq<char>>)> {
    if m.favorites.len() == 0 {
        None
    } else {
        Some((m.favorites, m.active_favorite, if m.active_favorite is Some { m.current_file } else { None }))
    }
}

/// The folder that reopening a favorite opens: a local favorite's path;
/// an SMB favorite cannot be reopened without stored credentials.
pub open spec fn reopen_path_of(w: WorkspaceModel) -> Option<Seq<char>> {
    match w {
        WorkspaceModel::Local(path, _) => Some(path),
        WorkspaceModel::Smb(..) => None,
    }
}

/// The folder that reopening a favorite opens, if it can be reopened here.
pub fn reopen_path(favorite: &SavedFavorite) -> (r: Option<String>)
    ensures
        opt_string_view(r) == reopen_path_of(favorite.workspace.model()),
{
    match &favorite.workspace {
        SavedWorkspace::Local { path, .. } => Some(owned(path.as_str())),
        SavedWorkspace::Smb(_) => None,
    }
}

/// The canonical workspace state.
pub struct BackendState {
    workspace: Option<InstalledWorkspace>,
    workspace_revision: u64,
    entries: Vec<WorkspaceEntry>,
    bookmark: Option<Vec<u8>>,
    favorites: Vec<SavedFavorite>,
    active_favorite: Option<usize>,
    current_file: Option<EntryId>,
    disk_text: String,
    external_conflict: bool,
    navigation: NavigationState,
    restoring: bool,
    restored_revision: Option<u64>,
}

impl View for BackendState {
    type V = BackendModel;

    closed spec fn view(&self) -> BackendModel {
        BackendModel {
            workspace: match self.workspace {
                Some(w) => Some(w.model()),
                None => None,
            },
            revision: self.workspace_revision,
            entries: entries_model(self.entries@),
            bookmark: bookmark_model(self.bookmark),
            favorites: favorites_model(self.favorites@),
            active_favorite: self.active_favorite,
            current_file: opt_string_view(self.current_file),
            disk_text: self.disk_text@,
            external_conflict: self.external_conflict,
            history: self.navigation@,
            restoring: self.restoring,
            restored_revision: self.restored_revision,
        }
    }
}

impl BackendState {
    /// No workspace, no favorites, nothing open.
    pub fn new() -> (s: Self)
        ensures
            s@.workspace is None,
            s@.revision == 0,
            s@.entries == Seq::<EntryModel>::empty(),
            s@.bookmark is None,
            s@.favorites == Seq::<WorkspaceModel>::empty(),
            s@.active_favorite is None,
            s@.current_file is None,
            s@.disk_text == Seq::<char>::empty(),
            !s@.external_conflict,
            s@.history.back == Seq::<Seq<char>>::empty(),
            s@.history.forward == Seq::<Seq<char>>::empty(),
            !s@.restoring,
            s@.restored_revision is None,
            s@.wf(),
    {
        let s = BackendState {
            workspace: None,
            workspace_revision: 0,
            entries: Vec::new(),
            bookmark: None,
            favorites: Vec::new(),
            active_favorite: None,
            current_file: None,
            disk_text: String::new(),
            external_conflict: false,
            navigation: NavigationState::new(),
            restoring: false,
            restored_revision: None,
        };
        proof {
            assert(s@.entries =~= Seq::<EntryModel>::empty());
            assert(s@.favorites =~= Seq::<WorkspaceModel>::empty());
            assert(s@.disk_text =~= Seq::<char>::empty());
        }
        s
    }

    /// What the editor is shown of the state.
    pub fn snapshot(&self) -> (r: WorkspaceSnapshot)
        ensures
            r.model() == snapshot_of(self@),
    {
        let mut favorites: Vec<FavoritePayload> = Vec::new();
        let mut i: usize = 0;
        while i < self.favorites.len()
            invariant
                i <= self.favorites.len(),
                favorites@.map_values(|p: FavoritePayload| (p.index, p.label@, p.workspace_is_smb))
                    == favorite_rows(favorites_model(self.favorites@)).take(i as int),
            decreases self.favorites.len() - i,
        {
            let f = &self.favorites[i];
            let is_smb = match &f.workspace {
                SavedWorkspace::Smb(_) => true,
                SavedWorkspace::Local { .. } => false,
            };
            let label = favorite_label(f);
            let ghost prev = favorites@;
            favorites.push(FavoritePayload { index: i, label, workspace_is_smb: is_smb });
            i += 1;
            proof {
                let rows = favorite_rows(favorites_model(self.favorites@));
                assert(rows[i - 1] == (((i - 1) as usize), favorite_label_of(f.workspace.model()), f.workspace.model() is Smb));
                assert(rows.take(i as int) =~= rows.take(i - 1).push(rows[i - 1]));
                assert(favorites@.map_values(|p: FavoritePayload| (p.index, p.label@, p.workspace_is_smb))
                    =~= prev.map_values(|p: FavoritePayload| (p.index, p.label@, p.workspace_is_smb)).push(rows[i - 1]));
            }
        }
        let (open, path, is_smb) = match &self.workspace {
            Some(w) => (true, owned(w.display.as_str()), match &w.origin {
                WorkspaceOrigin::Smb(_) => true,
                WorkspaceOrigin::Local { .. } => false,
            }),
            None => (false, String::new(), false),
        };
        let current_file = match &self.current_file {
            Some(f) => Some(owned(f.as_str())),
            None => None,
        };
        let r = WorkspaceSnapshot {
            workspace_open: open,
            workspace_path: path,
            workspace_is_smb: is_smb,
            workspace_favorited: self.active_favorite.is_some(),
            favorites,
            entries: copy_entries(&self.entries),
            current_file,
            can_go_back: self.navigation.can_go_back(),
            can_go_forward: self.navigation.can_go_forward(),
            external_conflict: self.external_conflict,
            workspace_restoring: self.restoring,
        };
        proof {
            let rows = favorite_rows(favorites_model(self.favorites@));
            assert(rows.take(rows.len() as int) =~= rows);
            assert(r.model().path =~= snapshot_of(self@).path);
        }
        r
    }

    /// Installs a freshly opened and scanned workspace; see [`installed`].
    pub fn install_scanned(&mut self, workspace: InstalledWorkspace, bookmark: Option<Vec<u8>>, entries: Vec<WorkspaceEntry>) -> (r: WorkspaceSnapshot)
        requires
            old(self)@.wf(),
        ensures
            final(self)@ == with_entries(installed(old(self)@, workspace.model(), bookmark_model(bookmark)), entries_model(entries@)),
            final(self)@.wf(),
            r.model() == snapshot_of(final(self)@),
    {
        self.install_workspace(workspace, bookmark);
        self.entries = entries;
        self.snapshot()
    }

    fn install_workspace(&mut self, workspace: InstalledWorkspace, bookmark: Option<Vec<u8>>)
        requires
            old(self)@.wf(),
        ensures
            final(self)@ == installed(old(self)@, workspace.model(), bookmark_model(bookmark)),
            final(self)@.wf(),
    {
        let favorite = workspace_favorite(&workspace, &bookmark);
        let active = favorite_position(&self.favorites, &favorite);
        let _n = self.favorites.len();
        proof {
            assert(favorites_model(self.favorites@).len() == self.favorites@.len());
            lemma_first_index(favorites_model(self.favorites@), favorite.workspace.model());
        }
        self.active_favorite = active;
        self.workspace = Some(workspace);
        self.mark_workspace_changed();
        self.entries = Vec::new();
        self.bookmark = bookmark;
        self.current_file = None;
        self.disk_text = String::new();
        self.external_conflict = false;
        self.navigation = NavigationState::new();
        proof {
            assert(self@.entries =~= Seq::<EntryModel>::empty());
            assert(self@.disk_text =~= Seq::<char>::empty());
            assert(self@.history == History { back: Seq::empty(), forward: Seq::empty() });
            assert(self@ == installed(old(self)@, workspace.model(), bookmark_model(bookmark)));
        }
    }

    /// Records that the workspace changed, so that work started before the
    /// change is not published after it.
    pub fn mark_workspace_changed(&mut self)
        ensures
            final(self)@ == (BackendModel { revision: next_revision(old(self)@.revision), ..old(self)@ }),
    {
        if self.workspace_revision == u64::MAX {
            self.workspace_revision = 0;
        } else {
            self.workspace_revision = self.workspace_revision + 1;
        }
    }

    /// Opens the note `id`, read as `contents`; see [`opened`].
    pub fn open_note(&mut self, id: EntryId, contents: String, record_navigation: bool) -> (r: NotePayload)
        requires
            old(self)@.wf(),
        ensures
            final(self)@ == opened(old(self)@, id@, contents@, record_navigation),
            final(self)@.wf(),
            r.id@ == id@,
            r.contents@ == contents@,
            r.snapshot.model() == snapshot_of(final(self)@),
    {
        let same = match &self.current_file {
            Some(f) => str_eq(f.as_str(), id.as_str()),
            None => false,
        };
        if record_navigation && !same {
            let previous = match &self.current_file {
                Some(f) => Some(owned(f.as_str())),
                None => None,
            };
            match &previous {
                Some(p) => self.navigation.visit(Some(p.as_str())),
                None => self.navigation.visit(None),
            }
        }
        self.current_file = Some(owned(id.as_str()));
        self.disk_text = owned(contents.as_str());
        self.external_conflict = false;
        let snapshot = self.snapshot();
        proof {
            assert(self@ == opened(old(self)@, id@, contents@, record_navigation));
        }
        NotePayload { id, contents, snapshot }
    }

    /// The open note.
    pub fn current_note(&self) -> (r: Result<EntryId, BackendError>)
        ensures
            match r {
                Ok(f) => self@.current_file == Some(f@),
                Err(e) => self@.current_file is None && e == BackendError::NoNote,
            },
    {
        match &self.current_file {
            Some(f) => Ok(owned(f.as_str())),
            None => Err(BackendError::NoNote),
        }
    }

    /// Starts a save of the open note; see [`save_request_of`].
    pub fn begin_save(&self, force: bool) -> (r: Result<SaveRequest, BackendError>)
        ensures
            match (r, save_request_of(self@, force)) {
                (Ok(q), Ok((f, b))) => q.file@ == f && q.baseline@ == b,
                (Err(e), Err(e2)) => e == e2,
                _ => false,
            },
    {
        if self.external_conflict && !force {
            return Err(BackendError::ExternalConflict);
        }
        if self.workspace.is_none() {
            return Err(BackendError::NoWorkspace);
        }
        match &self.current_file {
            None => Err(BackendError::NoNote),
            Some(f) => Ok(SaveRequest { file: owned(f.as_str()), baseline: owned(self.disk_text.as_str()) }),
        }
    }

    /// Marks the conflict found by a save, if its note is still open as it was.
    pub fn mark_conflict_if_current(&mut self, request: &SaveRequest)
        ensures
            final(self)@ == conflict_marked(old(self)@, request.file@, request.baseline@),
    {
        let same_file = match &self.current_file {
            Some(f) => str_eq(f.as_str(), request.file.as_str()),
            None => false,
        };
        if same_file && str_eq(self.disk_text.as_str(), request.baseline.as_str()) {
            self.external_conflict = true;
        }
    }

    /// Takes in the save of `contents`; see [`save_completed`].
    pub fn complete_save(&mut self, request: &SaveRequest, contents: &str) -> (r: Result<WorkspaceSnapshot, BackendError>)
        ensures
            match save_completed(old(self)@, request.file@, request.baseline@, contents@) {
                Ok(m) => final(self)@ == m && r is Ok && r->Ok_0.model() == snapshot_of(m),
                Err(e) => final(self)@ == old(self)@ && r == Err::<WorkspaceSnapshot, BackendError>(e),
            },
    {
        let same_file = match &self.current_file {
            Some(f) => str_eq(f.as_str(), request.file.as_str()),
            None => false,
        };
        if !same_file || !str_eq(self.disk_text.as_str(), request.baseline.as_str()) {
            return Err(BackendError::SaveSuperseded);
        }
        self.disk_text = owned(contents);
        self.external_conflict = false;
        Ok(self.snapshot())
    }

    /// Checks the note read just before a save writes; see [`write_allowed`].
    pub fn check_before_write(&mut self, request: &SaveRequest, force: bool, disk: &str) -> (r: Result<(), BackendError>)
        ensures
            (final(self)@, r) == write_allowed(old(self)@, request.file@, request.baseline@, force, disk@),
    {
        if !force && !str_eq(disk, request.baseline.as_str()) {
            self.mark_conflict_if_current(request);
            return Err(BackendError::ExternalConflict);
        }
        Ok(())
    }

    /// Checks the note read back after a save wrote; see [`write_finished`].
    pub fn finish_write(&mut self, request: &SaveRequest, contents: &str, read_back: &str, interrupted: bool) -> (r: Result<WorkspaceSnapshot, BackendError>)
        ensures
            ({
                let (m, out) = write_finished(old(self)@, request.file@, request.baseline@, contents@, read_back@, interrupted);
                &&& final(self)@ == m
                &&& match (r, out) {
                    (Ok(s), Ok(sm)) => s.model() == sm,
                    (Err(e), Err(e2)) => e == e2,
                    _ => false,
                }
            }),
    {
        if str_eq(read_back, contents) {
            return self.complete_save(request, contents);
        }
        self.mark_conflict_if_current(request);
        if interrupted {
            Err(BackendError::SaveOutcomeUnknown)
        } else {
            Err(BackendError::ChangedWhileSaving)
        }
    }

    /// What a refresh starts from.
    pub fn refresh_plan(&self) -> (r: RefreshPlan)
        ensures
            r.revision == self@.revision,
            opt_string_view(r.current_file) == self@.current_file,
            r.baseline@ == self@.disk_text,
    {
        RefreshPlan {
            revision: self.workspace_revision,
            current_file: match &self.current_file {
                Some(f) => Some(owned(f.as_str())),
                None => None,
            },
            baseline: owned(self.disk_text.as_str()),
        }
    }

    /// Takes in a refresh; see [`refreshed`]. Returns the snapshot and
    /// whether the refresh was taken in.
    pub fn apply_refresh(&mut self, plan: &RefreshPlan, disk: Option<&str>, entries: Vec<WorkspaceEntry>, editor_has_unsaved_changes: bool) -> (r: (WorkspaceSnapshot, bool))
        requires
            old(self)@.wf(),
        ensures
            (final(self)@, r.1) == refreshed(old(self)@, plan.revision, opt_string_view(plan.current_file), plan.baseline@, crate::navigation::opt_view(disk), entries_model(entries@), editor_has_unsaved_changes),
            final(self)@.wf(),
            r.0.model() == snapshot_of(final(self)@),
    {
        let same_file = match (&self.current_file, &plan.current_file) {
            (Some(a), Some(b)) => str_eq(a.as_str(), b.as_str()),
            (None, None) => true,
            _ => false,
        };
        if self.workspace_revision != plan.revision || !same_file || !str_eq(self.disk_text.as_str(), plan.baseline.as_str()) {
            return (self.snapshot(), false);
        }
        if let Some(d) = disk {
            self.reconcile_disk_change(d, editor_has_unsaved_changes);
        }
        self.entries = entries;
        (self.snapshot(), true)
    }

    /// Takes in the open note as read from disk; see [`reconciled`].
    pub fn reconcile_disk_change(&mut self, disk: &str, editor_has_unsaved_changes: bool)
        ensures
            final(self)@ == reconciled(old(self)@, disk@, editor_has_unsaved_changes),
    {
        if !str_eq(disk, self.disk_text.as_str()) {
            self.external_conflict = true;
        } else if !editor_has_unsaved_changes {
            self.external_conflict = false;
        }
    }

    /// The text of the open note as last read from or written to disk.
    pub fn disk_text(&self) -> (r: String)
        ensures
            r@ == self@.disk_text,
    {
        owned(self.disk_text.as_str())
    }

    /// Publishes a scan begun at `revision`, unless the workspace changed
    /// since; returns whether it was published.
    pub fn publish_entries(&mut self, revision: u64, entries: Vec<WorkspaceEntry>) -> (r: bool)
        ensures
            r == (old(self)@.revision == revision),
            final(self)@ == if r { with_entries(old(self)@, entries_model(entries@)) } else { old(self)@ },
    {
        if self.workspace_revision != revision {
            return false;
        }
        self.entries = entries;
        true
    }

    /// The revision a scan starts from.
    pub fn revision(&self) -> (r: u64)
        ensures
            r == self@.revision,
    {
        self.workspace_revision
    }

    /// Takes in that the entry `id` was renamed to `new_id`; see [`renamed`].
    pub fn entry_renamed(&mut self, id: &str, new_id: &str)
        requires
            old(self)@.wf(),
        ensures
            final(self)@ == renamed(old(self)@, id@, new_id@),
            final(self)@.wf(),
    {
        self.navigation.rebase(id, new_id);
        let same = match &self.current_file {
            Some(f) => str_eq(f.as_str(), id),
            None => false,
        };
        if same {
            self.current_file = Some(owned(new_id));
        }
        self.mark_workspace_changed();
        proof {
            assert(self@.history == History { back: rebased_ids(old(self)@.history.back, id@, new_id@), forward: rebased_ids(old(self)@.history.forward, id@, new_id@) });
        }
    }

    /// Takes in that the entry `id` was moved to `new_id`; see [`moved`].
    pub fn entry_moved(&mut self, id: &str, new_id: &str)
        requires
            old(self)@.wf(),
        ensures
            final(self)@ == moved(old(self)@, id@, new_id@),
            final(self)@.wf(),
    {
        self.navigation.rebase(id, new_id);
        let current = match &self.current_file {
            Some(f) => Some(crate::navigation::rebase_id(f.as_str(), id, new_id)),
            None => None,
        };
        self.current_file = current;
        self.mark_workspace_changed();
        proof {
            assert(self@.history == History { back: rebased_ids(old(self)@.history.back, id@, new_id@), forward: rebased_ids(old(self)@.history.forward, id@, new_id@) });
        }
    }

    /// Takes in that the entry `id` was deleted; see [`deleted`].
    pub fn entry_deleted(&mut self, id: &str)
        requires
            old(self)@.wf(),
        ensures
            final(self)@ == deleted(old(self)@, id@),
            final(self)@.wf(),
    {
        self.navigation.remove(id);
        let gone = match &self.current_file {
            Some(f) => crate::navigation::id_is_at_or_under(f.as_str(), id),
            None => false,
        };
        if gone {
            self.current_file = None;
            self.disk_text = String::new();
        }
        self.mark_workspace_changed();
        proof {
            assert(self@.history == History { back: ids_outside(old(self)@.history.back, id@), forward: ids_outside(old(self)@.history.forward, id@) });
            assert(self@.disk_text =~= deleted(old(self)@, id@).disk_text);
        }
    }

    /// Steps back or forward through the history and returns the note to
    /// open; see [`stepped`].
    pub fn step_history(&mut self, forward: bool) -> (r: Option<EntryId>)
        requires
            old(self)@.wf(),
        ensures
            (final(self)@, opt_string_view(r)) == stepped(old(self)@, forward),
            final(self)@.wf(),
    {
        let current = match &self.current_file {
            Some(f) => Some(owned(f.as_str())),
            None => None,
        };
        let current_ref: Option<&str> = match &current {
            Some(f) => Some(f.as_str()),
            None => None,
        };
        if forward {
            self.navigation.go_forward(current_ref)
        } else {
            self.navigation.go_back(current_ref)
        }
    }

    /// Makes the open workspace a favorite or stops it being one; see
    /// [`favorite_set`].
    pub fn set_workspace_favorite(&mut self, favorited: bool) -> (r: Result<WorkspaceSnapshot, BackendError>)
        requires
            old(self)@.wf(),
        ensures
            final(self)@.wf(),
            match favorite_set(old(self)@, favorited) {
                Ok(m) => final(self)@ == m && r is Ok && r->Ok_0.model() == snapshot_of(m),
                Err(e) => final(self)@ == old(self)@ && r == Err::<WorkspaceSnapshot, BackendError>(e),
            },
    {
        let current = match &self.workspace {
            None => return Err(BackendError::FavoriteNeedsWorkspace),
            Some(w) => workspace_favorite(w, &self.bookmark),
        };
        let is_smb = match &self.workspace {
            Some(w) => match &w.origin {
                WorkspaceOrigin::Smb(_) => true,
                WorkspaceOrigin::Local { .. } => false,
            },
            None => false,
        };
        let _n = self.favorites.len();
        proof {
            assert(favorites_model(self.favorites@).len() == self.favorites@.len());
            lemma_first_index(favorites_model(self.favorites@), current.workspace.model());
        }
        if favorited {
            match favorite_position(&self.favorites, &current) {
                Some(i) => {
                    self.active_favorite = Some(i);
                    return Ok(self.snapshot());
                },
                None => {
                    if is_smb {
                        return Err(BackendError::SmbCredentialsSessionOnly);
                    }
                    let ghost prev = self.favorites@;
                    self.favorites.push(current);
                    self.active_favorite = Some(self.favorites.len() - 1);
                    proof {
                        assert(favorites_model(self.favorites@) =~= favorites_model(prev).push(current.workspace.model()));
                    }
                },
            }
        } else if let Some(i) = self.active_favorite {
            let ghost prev = self.favorites@;
            let _removed = self.favorites.remove(i);
            self.active_favorite = None;
            proof {
                assert(favorites_model(self.favorites@) =~= favorites_model(prev).remove(i as int));
            }
        }
        Ok(self.snapshot())
    }

    /// The favorite at `index`.
    pub fn favorite(&self, index: usize) -> (r: Result<SavedFavorite, BackendError>)
        ensures
            match r {
                Ok(f) => index < self@.favorites.len() && f.workspace.model() == self@.favorites[index as int],
                Err(e) => index >= self@.favorites.len() && e == BackendError::NoSuchFavorite,
            },
    {
        if index < self.favorites.len() {
            Ok(copy_favorite(&self.favorites[index]))
        } else {
            Err(BackendError::NoSuchFavorite)
        }
    }

    /// The folder to open for the favorite at `index`; see [`reopen_path_of`].
    pub fn favorite_folder(&self, index: usize) -> (r: Result<String, BackendError>)
        ensures
            match r {
                Ok(p) => index < self@.favorites.len() && reopen_path_of(self@.favorites[index as int]) == Some(p@),
                Err(e) => if index >= self@.favorites.len() {
                    e == BackendError::NoSuchFavorite
                } else {
                    reopen_path_of(self@.favorites[index as int]) is None && e == BackendError::SmbFavoriteUnavailable
                },
            },
    {
        if index >= self.favorites.len() {
            return Err(BackendError::NoSuchFavorite);
        }
        match reopen_path(&self.favorites[index]) {
            Some(p) => Ok(p),
            None => Err(BackendError::SmbFavoriteUnavailable),
        }
    }

    /// Loads the saved session at launch; see [`session_loaded`]. It runs
    /// before any workspace is installed, so no favorite is active yet.
    pub fn load_saved_session(&mut self, session: SessionState) -> (r: Option<PendingRestore>)
        requires
            old(self)@.wf(),
            old(self)@.active_favorite is None,
        ensures
            final(self)@.wf(),
            ({
                let (m, p) = session_loaded(old(self)@, session.model().0, session.model().1, session.model().2);
                &&& final(self)@ == m
                &&& match (r, p) {
                    (Some(q), Some((f, c, v))) => q.favorite_model() == f && q.note_model() == c && q.revision_model() == v,
                    (None, None) => true,
                    _ => false,
                }
            }),
    {
        let SessionState { favorites, active_favorite, current_file } = session;
        self.favorites = favorites;
        let index = match active_favorite {
            Some(i) => i,
            None => return None,
        };
        if index >= self.favorites.len() {
            return None;
        }
        let favorite = copy_favorite(&self.favorites[index]);
        self.restoring = true;
        Some(PendingRestore { favorite, current_file, revision: self.workspace_revision })
    }

    /// Whether a restore would still be installed: no other workspace was
    /// installed since it began.
    pub fn restore_applies(&self, pending: &PendingRestore) -> (r: bool)
        ensures
            r == (self@.revision == pending.revision_model()),
    {
        self.workspace_revision == pending.revision
    }

    /// Finishes the launch-time restore; see [`restore_finished`].
    /// `note` is the text of the note the session showed, read from the
    /// reopened workspace, when it could be read.
    pub fn finish_restore(&mut self, pending: PendingRestore, reopened: Option<ReopenedWorkspace>, note: Option<String>)
        requires
            old(self)@.wf(),
        ensures
            final(self)@.wf(),
            final(self)@ == restore_finished(
                old(self)@,
                pending.revision_model(),
                pending.note_model(),
                match reopened {
                    Some(r) => Some((r.workspace.model(), bookmark_model(r.bookmark), entries_model(r.entries@))),
                    None => None,
                },
                opt_string_view(note),
            ),
    {
        self.restoring = false;
        let PendingRestore { favorite: _, current_file, revision } = pending;
        if let Some(r) = reopened {
            if self.workspace_revision == revision {
                let ReopenedWorkspace { workspace, bookmark, entries } = r;
                self.install_workspace(workspace, bookmark);
                self.entries = entries;
                match (current_file, note) {
                    (Some(id), Some(text)) => {
                        let _ = self.open_note(id, text, false);
                    },
                    _ => {},
                }
                self.restored_revision = Some(self.workspace_revision);
            }
        }
    }

    /// Whether the launch-time restore is still running.
    pub fn is_restoring(&self) -> (r: bool)
        ensures
            r == self@.restoring,
    {
        self.restoring
    }

    /// The workspace the launch-time restore installed, while it is still
    /// the one installed.
    pub fn restored_workspace(&self) -> (r: Option<WorkspaceSnapshot>)
        ensures
            match r {
                Some(s) => self@.restored_revision == Some(self@.revision) && s.model() == snapshot_of(self@),
                None => self@.restored_revision != Some(self@.revision),
            },
    {
        match self.restored_revision {
            Some(v) if v == self.workspace_revision => Some(self.snapshot()),
            _ => None,
        }
    }

    /// The notes a search reads, in tree order.
    pub fn search_notes(&self) -> (r: Result<Vec<EntryId>, BackendError>)
        ensures
            match r {
                Ok(v) => self@.workspace is Some && crate::navigation::id_views(v@) == note_ids(self@.entries),
                Err(e) => self@.workspace is None && e == BackendError::NoWorkspace,
            },
    {
        if self.workspace.is_none() {
            return Err(BackendError::NoWorkspace);
        }
        let mut r: Vec<EntryId> = Vec::new();
        let mut i: usize = 0;
        while i < self.entries.len()
            invariant
                i <= self.entries.len(),
                crate::navigation::id_views(r@) == note_ids(entries_model(self.entries@.take(i as int))),
            decreases self.entries.len() - i,
        {
            let e = &self.entries[i];
            proof {
                assert(entries_model(self.entries@.take(i + 1)).drop_last() =~= entries_model(self.entries@.take(i as int)));
                assert(entries_model(self.entries@.take(i + 1)).last() == entry_model(self.entries@[i as int]));
            }
            if e.kind == EntryKind::File {
                let ghost prev = r@;
                r.push(owned(e.id.as_str()));
                proof {
                    assert(crate::navigation::id_views(r@) =~= crate::navigation::id_views(prev).push(e.id@));
                }
            }
            i += 1;
        }
        proof {
            assert(self.entries@.take(self.entries@.len() as int) =~= self.entries@);
        }
        Ok(r)
    }

    /// The note an asset link is resolved against: the open note of the open
    /// workspace.
    pub fn asset_base(&self) -> (r: Result<EntryId, BackendError>)
        ensures
            match r {
                Ok(f) => self@.workspace is Some && self@.current_file == Some(f@),
                Err(e) => if self@.workspace is None {
                    e == BackendError::NoWorkspace
                } else {
                    self@.current_file is None && e == BackendError::NoNote
                },
            },
    {
        if self.workspace.is_none() {
            return Err(BackendError::NoWorkspace);
        }
        self.current_note()
    }

    /// What the session file should hold; see [`persisted`].
    pub fn session_to_persist(&self) -> (r: Option<SessionState>)
        ensures
            match (r, persisted(self@)) {
                (Some(s), Some(p)) => s.model() == p,
                (None, None) => true,
                _ => false,
            },
    {
        if self.favorites.len() == 0 {
            return None;
        }
        let mut favorites: Vec<SavedFavorite> = Vec::new();
        let mut i: usize = 0;
        while i < self.favorites.len()
            invariant
                i <= self.favorites.len(),
                favorites_model(favorites@) == favorites_model(self.favorites@).take(i as int),
            decreases self.favorites.len() - i,
        {
            let f = copy_favorite(&self.favorites[i]);
            let ghost prev = favorites@;
            favorites.push(f);
            i += 1;
            proof {
                assert(favorites_model(favorites@) =~= favorites_model(prev).push(f.workspace.model()));
                assert(favorites_model(self.favorites@).take(i as int) =~= favorites_model(self.favorites@).take(i - 1).push(favorites_model(self.favorites@)[i - 1]));
            }
        }
        proof {
            assert(favorites_model(self.favorites@).take(self.favorites@.len() as int) =~= favorites_model(self.favorites@));
        }
        let current_file = match (&self.active_favorite, &self.current_file) {
            (Some(_), Some(f)) => Some(owned(f.as_str())),
            _ => None,
        };
        Some(SessionState { favorites, active_favorite: self.active_favorite, current_file })
    }
}

/// `first_index` gives the first position of `x`, and `None` only when `x`
/// does not occur.
pub proof fn lemma_first_index(s: Seq<WorkspaceModel>, x: WorkspaceModel)
    requires
        s.len() <= usize::MAX,
    ensures
        match first_index(s, x) {
            Some(i) => i < s.len() && s[i as int] == x && forall|j: int| 0 <= j < i ==> s[j] != x,
            None => forall|j: int| 0 <= j < s.len() ==> s[j] != x,
        },
{
    if exists|i: int| 0 <= i < s.len() && s[i] == x {
        let k = choose|i: int| 0 <= i < s.len() && s[i] == x;
        lemma_first_occurrence(s, x, k);
        let c = choose|i: int| 0 <= i < s.len() && s[i] == x && forall|j: int| 0 <= j < i ==> s[j] != x;
        assert(first_index(s, x) == Some(c as usize));
        assert(c as usize as int == c);
    }
}

proof fn lemma_first_occurrence(s: Seq<WorkspaceModel>, x: WorkspaceModel, k: int)
    requires
        0 <= k < s.len(),
        s[k] == x,
    ensures
        exists|i: int| 0 <= i < s.len() && s[i] == x && forall|j: int| 0 <= j < i ==> s[j] != x,
    decreases k,
{
    if exists|j: int| 0 <= j < k && s[j] == x {
        let j = choose|j: int| 0 <= j < k && s[j] == x;
        lemma_first_occurrence(s, x, j);
    } else {
        assert(forall|j: int| 0 <= j < k ==> s[j] != x);
    }
}

/// A launch-time restore never replaces a workspace that was installed
/// while it ran: only the restoring flag changes.
pub proof fn law_restore_never_replaces_a_newer_workspace(
    m: BackendModel,
    revision: u64,
    current: Option<Seq<char>>,
    reopened: Option<(InstalledModel, Option<Seq<u8>>, Seq<EntryModel>)>,
    note: Option<Seq<char>>,
)
    requires
        m.revision != revision,
    ensures
        restore_finished(m, revision, current, reopened, note) == (BackendModel { restoring: false, ..m }),
{
}

/// A refresh that the workspace, the open note or its baseline has moved
/// past since it began changes nothing and is reported as dropped.
pub proof fn law_stale_refresh_is_dropped(
    m: BackendModel,
    revision: u64,
    current: Option<Seq<char>>,
    baseline: Seq<char>,
    disk: Option<Seq<char>>,
    entries: Seq<EntryModel>,
    unsaved: bool,
)
    requires
        m.revision != revision || m.current_file != current || m.disk_text != baseline,
    ensures
        refreshed(m, revision, current, baseline, disk, entries, unsaved) == (m, false),
{
}

/// A refresh never advances the save baseline or changes the open note: a
/// changed note on disk is reported as a conflict until the editor loads it.
pub proof fn law_refresh_keeps_the_save_baseline(
    m: BackendModel,
    revision: u64,
    current: Option<Seq<char>>,
    baseline: Seq<char>,
    disk: Option<Seq<char>>,
    entries: Seq<EntryModel>,
    unsaved: bool,
)
    ensures
        ({
            let (m2, applied) = refreshed(m, revision, current, baseline, disk, entries, unsaved);
            &&& m2.disk_text == m.disk_text
            &&& m2.current_file == m.current_file
            &&& (applied && disk is Some && disk->Some_0 != m.disk_text ==> m2.external_conflict)
        }),
{
}

/// While the open note is in conflict with the disk, only a forced save starts.
pub proof fn law_conflict_blocks_unforced_saves(m: BackendModel)
    requires
        m.external_conflict,
    ensures
        save_request_of(m, false) == Err::<(Seq<char>, Seq<char>), BackendError>(BackendError::ExternalConflict),
{
}

/// After a save whose written text read back unchanged, that text is the
/// new baseline: the next save starts from it, with no conflict.
pub proof fn law_saved_text_becomes_the_baseline(
    m: BackendModel,
    force: bool,
    contents: Seq<char>,
    interrupted: bool,
)
    requires
        save_request_of(m, force) is Ok,
    ensures
        ({
            let (file, baseline) = save_request_of(m, force)->Ok_0;
            let (m2, out) = write_finished(m, file, baseline, contents, contents, interrupted);
            &&& out is Ok
            &&& m2.disk_text == contents
            &&& !m2.external_conflict
            &&& save_request_of(m2, false) == Ok::<(Seq<char>, Seq<char>), BackendError>((file, contents))
        }),
{
}

/// Making a local workspace a favorite and then unfavoriting it leaves the
/// favorites as they were, with none active.
pub proof fn law_favorite_then_unfavorite_restores(m: BackendModel)
    requires
        m.wf(),
        m.workspace is Some,
        !m.workspace->Some_0.is_smb,
        first_index(m.favorites, favorite_model(m.workspace->Some_0, m.bookmark)) is None,
        m.favorites.len() < usize::MAX,
    ensures
        ({
            let m1 = favorite_set(m, true)->Ok_0;
            &&& favorite_set(m, true) is Ok
            &&& favorite_set(m1, false) == Ok::<BackendModel, BackendError>(BackendModel { active_favorite: None, ..m })
        }),
{
    let current = favorite_model(m.workspace->Some_0, m.bookmark);
    let m1 = favorite_set(m, true)->Ok_0;
    assert(m1.favorites.remove(m.favorites.len() as int) =~= m.favorites);
}

/// Making the open workspace a favorite a second time changes nothing more.
pub proof fn law_favoriting_is_idempotent(m: BackendModel)
    requires
        m.wf(),
        favorite_set(m, true) is Ok,
        m.favorites.len() < usize::MAX,
    ensures
        favorite_set(favorite_set(m, true)->Ok_0, true) == favorite_set(m, true),
{
    let w = m.workspace->Some_0;
    let current = favorite_model(w, m.bookmark);
    lemma_first_index(m.favorites, current);
    let m1 = favorite_set(m, true)->Ok_0;
    lemma_first_index(m1.favorites, current);
    match first_index(m.favorites, current) {
        Some(i) => {},
        None => {
            let k = m.favorites.len() as int;
            assert(m1.favorites[k] == current);
            match first_index(m1.favorites, current) {
                Some(j) => {
                    if (j as int) < k {
                        assert(m1.favorites[j as int] == m.favorites[j as int]);
                    }
                },
                None => {
                    assert(m1.favorites[k] == current);
                },
            }
        },
    }
}

/// Deleting an entry closes the open note if it lies at or beneath it, and
/// the history keeps nothing at or beneath it.
pub proof fn law_delete_forgets_the_subtree(m: BackendModel, id: Seq<char>)
    ensures
        ({
            let m2 = deleted(m, id);
            &&& (m.current_file is Some && is_at_or_under(m.current_file->Some_0, id) ==> m2.current_file is None)
            &&& forall|i: int| 0 <= i < m2.history.back.len() ==> !is_at_or_under(#[trigger] m2.history.back[i], id)
            &&& forall|i: int| 0 <= i < m2.history.forward.len() ==> !is_at_or_under(#[trigger] m2.history.forward[i], id)
        }),
{
    crate::navigation::law_remove_forgets_exactly_the_subtree(m.history.back, id);
    crate::navigation::law_remove_forgets_exactly_the_subtree(m.history.forward, id);
}

/// Moving an entry and moving it back returns the open note beneath it to
/// where it was.
pub proof fn law_move_and_move_back_restores_the_open_note(m: BackendModel, id: Seq<char>, new_id: Seq<char>)
    requires
        m.current_file is Some,
        is_at_or_under(m.current_file->Some_0, id),
    ensures
        moved(moved(m, id, new_id), new_id, id).current_file == m.current_file,
{
    crate::navigation::law_rebase_round_trip(m.current_file->Some_0, id, new_id);
}

/// A workspace that is not a favorite is never persisted: after it is
/// installed and any note opened in it, the session holds no active
/// favorite and no note.
pub proof fn law_non_favorite_workspaces_are_not_persisted(m: BackendModel, w: InstalledModel, bookmark: Option<Seq<u8>>, entries: Seq<EntryModel>, id: Seq<char>, contents: Seq<char>, record: bool)
    requires
        first_index(m.favorites, favorite_model(w, bookmark)) is None,
    ensures
        ({
            let m2 = opened(with_entries(installed(m, w, bookmark), entries), id, contents, record);
            match persisted(m2) {
                Some((favorites, active, note)) => favorites == m.favorites && active is None && note is None,
                None => m.favorites.len() == 0,
            }
        }),
{
}

} // verus!
