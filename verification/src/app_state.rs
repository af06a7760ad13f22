//! The state of the native editor window, apart from the widgets: the notes
//! tree and which folders are expanded, the open note with its save baseline
//! and dirty flag, the back and forward stacks, find-in-note, the delete
//! confirmation, and the debounced preview, search and scan requests. Times
//! are milliseconds of a monotonic clock that the caller reads.
use vstd::prelude::*;
use crate::backend::{fnv1a, hash_text};
use crate::backend_state::{EntryModel, copy_entries, entries_model, entry_model};
use crate::navigation::{id_views, is_at_or_under, opt_string_view, opt_view, parent_of, rebased_id};
use crate::preview_controller::{PendingPreview, PreviewRequest, next_generation, opt_request, sat_add};
use crate::text::{owned, str_eq, trim};
use crate::workspace::{EntryId, EntryKind, WorkspaceEntry};

verus! {

/// The debounce delay of a search, in milliseconds.
pub const SEARCH_DEBOUNCE_MS: u64 = 250;

/// How long a first delete request stays armed, in milliseconds.
pub const DELETE_CONFIRM_MS: u64 = 5000;

/// A search waiting for its debounce delay to pass.
pub struct PendingSearch {
    pub generation: u64,
    pub due: u64,
    pub query: String,
}

/// A scan of the workspace waiting for its delay to pass; `full_tree` asks
/// for the whole tree, otherwise only the open note is checked.
#[derive(Clone, Copy)]
pub struct PendingScan {
    pub generation: u64,
    pub due: u64,
    pub full_tree: bool,
}

/// A waiting search as the specifications see it: generation, due time, query.
pub type SearchRequest = (u64, u64, Seq<char>);

pub open spec fn opt_search(p: Option<PendingSearch>) -> Option<SearchRequest> {
    match p {
        Some(p) => Some((p.generation, p.due, p.query@)),
        None => None,
    }
}

/// The set of ids a list holds.
pub open spec fn id_set(v: Seq<String>) -> Set<Seq<char>> {
    Set::new(|x: Seq<char>| id_views(v).contains(x))
}

/// The window state as the specifications see it.
pub struct AppModel {
    pub workspace_open: bool,
    pub pinned: bool,
    pub entries: Seq<EntryModel>,
    pub tree_ids: Seq<Seq<char>>,
    pub expanded: Set<Seq<char>>,
    pub expansion_initialized: bool,
    pub selected: Option<Seq<char>>,
    pub current_file: Option<Seq<char>>,
    pub disk_text: Seq<char>,
    pub saved_hash: u64,
    pub dirty: bool,
    pub external_conflict: bool,
    pub back: Seq<Seq<char>>,
    pub forward: Seq<Seq<char>>,
    pub search_results: Seq<Seq<char>>,
    pub find_query: Seq<char>,
    pub find_matches: Seq<(usize, usize)>,
    pub find_index: usize,
    pub delete_armed: Option<(Seq<char>, u64)>,
    pub preview_generation: u64,
    pub search_generation: u64,
    pub scan_generation: u64,
    pub pending_preview: Option<PreviewRequest>,
    pub pending_search: Option<SearchRequest>,
    pub pending_scan: Option<(u64, u64, bool)>,
}

impl AppModel {
    /// The find position points at a match whenever there are matches.
    pub open spec fn wf(self) -> bool {
        self.find_matches.len() == 0 || self.find_index < self.find_matches.len()
    }
}

/// The hash of a text, as the editor fingerprints it.
pub open spec fn text_hash(t: Seq<char>) -> u64 {
    fnv1a(vstd::utf8::encode_utf8(t))
}

/// A fresh window state for a workspace (open or not), pinned or not.
pub open spec fn fresh(workspace_open: bool, pinned: bool) -> AppModel {
    AppModel {
        workspace_open,
        pinned,
        entries: Seq::empty(),
        tree_ids: Seq::empty(),
        expanded: Set::empty(),
        expansion_initialized: false,
        selected: None,
        current_file: None,
        disk_text: Seq::empty(),
        saved_hash: text_hash(Seq::empty()),
        dirty: false,
        external_conflict: false,
        back: Seq::empty(),
        forward: Seq::empty(),
        search_results: Seq::empty(),
        find_query: Seq::empty(),
        find_matches: Seq::empty(),
        find_index: 0,
        delete_armed: None,
        preview_generation: 0,
        search_generation: 0,
        scan_generation: 0,
        pending_preview: None,
        pending_search: None,
        pending_scan: None,
    }
}

/// The ids of the folders of a scanned tree.
pub open spec fn folder_ids(entries: Seq<EntryModel>) -> Set<Seq<char>> {
    Set::new(|x: Seq<char>| exists|i: int| 0 <= i < entries.len() && entries[i].2 == EntryKind::Directory && entries[i].0 == x)
}

/// The state after a scanned tree is taken in: the first tree expands every
/// folder; later trees keep the expansion as it is.
pub open spec fn entries_applied(m: AppModel, entries: Seq<EntryModel>) -> AppModel {
    if m.expansion_initialized {
        AppModel { entries, ..m }
    } else {
        AppModel { entries, expanded: m.expanded.union(folder_ids(entries)), expansion_initialized: true, ..m }
    }
}

/// The state after a preview of `source` is scheduled at `now` after `delay`.
pub open spec fn preview_scheduled(m: AppModel, source: Seq<char>, now: u64, delay: u64) -> AppModel {
    let g = next_generation(m.preview_generation);
    AppModel {
        preview_generation: g,
        pending_preview: Some(PreviewRequest { generation: g, due: sat_add(now, delay), source }),
        ..m
    }
}

/// The state after a search for `query` is requested at `now`: a blank
/// query drops the waiting search and clears the results.
pub open spec fn search_scheduled(m: AppModel, query: Seq<char>, now: u64) -> AppModel {
    let g = next_generation(m.search_generation);
    if trim(query).len() == 0 {
        AppModel { search_generation: g, pending_search: None, search_results: Seq::empty(), ..m }
    } else {
        AppModel { search_generation: g, pending_search: Some((g, sat_add(now, SEARCH_DEBOUNCE_MS), query)), ..m }
    }
}

/// The state after a scan is requested at `now` after `delay`: nothing
/// without a workspace; a waiting scan is merged, keeping the earlier due
/// time and the whole tree if either asked for it.
pub open spec fn scan_scheduled(m: AppModel, now: u64, delay: u64, full_tree: bool) -> AppModel {
    if !m.workspace_open {
        m
    } else {
        let g = next_generation(m.scan_generation);
        let due = sat_add(now, delay);
        AppModel {
            scan_generation: g,
            pending_scan: Some(match m.pending_scan {
                Some((_, d, f)) => (g, if d <= due { d } else { due }, f || full_tree),
                None => (g, due, full_tree),
            }),
            ..m
        }
    }
}

/// The first entry of the tree with the id `id`.
pub open spec fn entry_index(entries: Seq<EntryModel>, id: Seq<char>) -> Option<int> {
    if exists|i: int| 0 <= i < entries.len() && entries[i].0 == id {
        Some(choose|i: int| 0 <= i < entries.len() && entries[i].0 == id && forall|j: int| 0 <= j < i ==> entries[j].0 != id)
    } else {
        None
    }
}

/// Whether the tree lists `id` as a folder.
pub open spec fn is_listed_folder(entries: Seq<EntryModel>, id: Seq<char>) -> bool {
    match entry_index(entries, id) {
        Some(i) => entries[i].2 == EntryKind::Directory,
        None => false,
    }
}

/// Where a new note or folder goes: the selected folder, the folder of the
/// selected note, or else the folder of the open note (the root without one).
pub open spec fn parent_for_new(m: AppModel) -> Seq<char> {
    match m.selected {
        Some(s) => if is_listed_folder(m.entries, s) { s } else { parent_of(s) },
        None => match m.current_file {
            Some(c) => parent_of(c),
            None => Seq::empty(),
        },
    }
}


/// A row of the notes tree: its label and the id it shows.
pub type TreeRow = (Seq<char>, Seq<char>);

/// Four spaces per level of depth.
pub open spec fn indent(depth: nat) -> Seq<char>
    decreases depth,
{
    if depth == 0 {
        Seq::empty()
    } else {
        indent((depth - 1) as nat) + seq![' ', ' ', ' ', ' ']
    }
}

/// The label of a tree row: a bullet for the selected entry, the indent, an
/// open or closed triangle for a folder, and the name.
pub open spec fn row_label(e: EntryModel, expanded: Set<Seq<char>>, selected: Option<Seq<char>>) -> Seq<char> {
    let marker = if selected == Some(e.0) { seq!['•', ' '] } else { seq![' ', ' '] };
    let kind = if e.2 == EntryKind::Directory {
        if expanded.contains(e.0) { seq!['▼', ' '] } else { seq!['▶', ' '] }
    } else {
        seq![' ', ' ']
    };
    marker + indent(e.3 as nat) + kind + e.1
}

/// The folders that enclose an entry at `depth`, of those enclosing the
/// entry before it.
pub open spec fn enclosing_folders(ancestors: Seq<Seq<char>>, depth: usize) -> Seq<Seq<char>> {
    if (depth as int) < ancestors.len() { ancestors.take(depth as int) } else { ancestors }
}

/// Whether every folder of `folders` is expanded.
pub open spec fn all_expanded(folders: Seq<Seq<char>>, expanded: Set<Seq<char>>) -> bool {
    forall|k: int| 0 <= k < folders.len() ==> expanded.contains(folders[k])
}

/// The rows shown for a tree listed depth first, and the folders that
/// enclose the next entry. An entry is shown when every folder that encloses
/// it is expanded.
pub open spec fn tree_fold(entries: Seq<EntryModel>, expanded: Set<Seq<char>>, selected: Option<Seq<char>>) -> (Seq<TreeRow>, Seq<Seq<char>>)
    decreases entries.len(),
{
    if entries.len() == 0 {
        (Seq::empty(), Seq::empty())
    } else {
        let (rows, ancestors) = tree_fold(entries.drop_last(), expanded, selected);
        let e = entries.last();
        let enclosing = enclosing_folders(ancestors, e.3);
        let visible = all_expanded(enclosing, expanded);
        (
            if visible { rows.push((row_label(e, expanded, selected), e.0)) } else { rows },
            if e.2 == EntryKind::Directory { enclosing.push(e.0) } else { enclosing },
        )
    }
}

/// The rows of the notes tree.
pub open spec fn tree_rows(m: AppModel) -> Seq<TreeRow> {
    tree_fold(m.entries, m.expanded, m.selected).0
}

/// Whether the note `id` may be opened: not while another note has unsaved edits.
pub open spec fn may_open(m: AppModel, id: Seq<char>) -> bool {
    !(m.dirty && m.current_file != Some(id))
}

/// The state after the note `id` was read as `contents` and opened at `now`:
/// with `history`, the note left goes onto the back stack and the forward
/// stack is cleared; find starts over and a preview is due at once.
pub open spec fn note_opened(m: AppModel, id: Seq<char>, contents: Seq<char>, history: bool, now: u64) -> AppModel {
    let (back, forward) = match m.current_file {
        Some(c) if history && c != id => (m.back.push(c), Seq::empty()),
        _ => (m.back, m.forward),
    };
    preview_scheduled(AppModel {
        back,
        forward,
        current_file: Some(id),
        selected: Some(id),
        disk_text: contents,
        saved_hash: text_hash(contents),
        dirty: false,
        external_conflict: false,
        find_query: Seq::empty(),
        find_matches: Seq::empty(),
        find_index: 0,
        ..m
    }, contents, now, 0)
}

/// Why a save, rename, delete or step through the history cannot go ahead.
#[derive(Clone, Copy, PartialEq, Eq, Debug, Structural)]
pub enum Blocked {
    /// No note is open.
    NoNote,
    /// The note changed on disk; only an overwrite may save.
    Conflict,
    /// Nothing is selected in the tree.
    NothingSelected,
    /// The open note, which the request would affect, has unsaved edits.
    UnsavedChanges,
}

/// What a save writes to: the open note, unless it is in conflict with the
/// disk and the save is not an overwrite.
pub open spec fn save_target_of(m: AppModel, force: bool) -> Result<Seq<char>, Blocked> {
    match m.current_file {
        None => Err(Blocked::NoNote),
        Some(c) => if m.external_conflict && !force { Err(Blocked::Conflict) } else { Ok(c) },
    }
}

/// The state after `contents` was written to the open note.
pub open spec fn note_saved(m: AppModel, contents: Seq<char>) -> AppModel {
    AppModel { disk_text: contents, saved_hash: text_hash(contents), dirty: false, external_conflict: false, ..m }
}

/// The state after the open note was read again as `contents` at `now`.
pub open spec fn note_reloaded(m: AppModel, contents: Seq<char>, now: u64) -> AppModel {
    preview_scheduled(note_saved(m, contents), contents, now, 0)
}

/// The state after the open note was closed.
pub open spec fn note_cleared(m: AppModel) -> AppModel {
    AppModel {
        current_file: None,
        disk_text: Seq::empty(),
        saved_hash: text_hash(Seq::empty()),
        dirty: false,
        external_conflict: false,
        preview_generation: next_generation(m.preview_generation),
        pending_preview: None,
        ..m
    }
}

/// The state and the match to select after "find next" for `query` in
/// `source`: a new query starts at the first match, the same query moves to
/// the next one, wrapping around. The match comes with its 1-based position
/// and the number of matches.
pub open spec fn found_next(m: AppModel, source: Seq<char>, query: Seq<char>) -> (AppModel, Option<(usize, usize, usize, usize)>) {
    let m2 = if m.find_query != query {
        AppModel { find_query: query, find_matches: crate::markdown::match_ranges(source, query), find_index: 0, ..m }
    } else if m.find_matches.len() > 0 {
        AppModel { find_index: ((m.find_index + 1) % (m.find_matches.len() as int)) as usize, ..m }
    } else {
        m
    };
    if m2.find_matches.len() == 0 {
        (m2, None)
    } else {
        let r = m2.find_matches[m2.find_index as int];
        (m2, Some((r.0, r.1, (m2.find_index + 1) as usize, m2.find_matches.len() as usize)))
    }
}

/// The state and target of a step back or forward: refused with unsaved
/// edits; otherwise the target leaves its stack and the open note goes onto
/// the other one.
pub open spec fn history_stepped(m: AppModel, forward: bool) -> (AppModel, Result<Option<Seq<char>>, Blocked>) {
    if m.dirty {
        (m, Err(Blocked::UnsavedChanges))
    } else {
        let from = if forward { m.forward } else { m.back };
        let to = if forward { m.back } else { m.forward };
        if from.len() == 0 {
            (m, Ok(None))
        } else {
            let to2 = match m.current_file {
                Some(c) => to.push(c),
                None => to,
            };
            let from2 = from.drop_last();
            (
                if forward { AppModel { forward: from2, back: to2, ..m } } else { AppModel { back: from2, forward: to2, ..m } },
                Ok(Some(from.last())),
            )
        }
    }
}

/// The entry a rename or delete applies to: the selected one, unless the
/// open note lies at or beneath it with unsaved edits.
pub open spec fn mutation_target_of(m: AppModel) -> Result<Seq<char>, Blocked> {
    match m.selected {
        None => Err(Blocked::NothingSelected),
        Some(s) => if m.dirty && match m.current_file {
            Some(c) => is_at_or_under(c, s),
            None => false,
        } {
            Err(Blocked::UnsavedChanges)
        } else {
            Ok(s)
        },
    }
}

/// Every id of a set after `old` became `new`.
pub open spec fn rebased_set(s: Set<Seq<char>>, old: Seq<char>, new: Seq<char>) -> Set<Seq<char>> {
    Set::new(|y: Seq<char>| exists|x: Seq<char>| s.contains(x) && rebased_id(x, old, new) == y)
}

pub open spec fn rebased_opt(o: Option<Seq<char>>, old: Seq<char>, new: Seq<char>) -> Option<Seq<char>> {
    match o {
        Some(x) => Some(rebased_id(x, old, new)),
        None => None,
    }
}

/// The state after the entry `old` was renamed to `new`: the selection, the
/// open note, both history stacks and the expanded folders follow it.
pub open spec fn entry_renamed_in(m: AppModel, old: Seq<char>, new: Seq<char>) -> AppModel {
    AppModel {
        selected: rebased_opt(m.selected, old, new),
        current_file: rebased_opt(m.current_file, old, new),
        back: crate::navigation::rebased_ids(m.back, old, new),
        forward: crate::navigation::rebased_ids(m.forward, old, new),
        expanded: rebased_set(m.expanded, old, new),
        ..m
    }
}

/// The state after the entry `id` was deleted: the confirmation is spent,
/// the open note is closed if it lay at or beneath `id`, nothing is selected,
/// and the history forgets `id` and everything beneath it.
pub open spec fn entry_deleted_in(m: AppModel, id: Seq<char>) -> AppModel {
    let gone = match m.current_file {
        Some(c) => is_at_or_under(c, id),
        None => false,
    };
    let m1 = if gone { note_cleared(m) } else { m };
    AppModel {
        delete_armed: None,
        selected: None,
        back: crate::navigation::ids_outside(m.back, id),
        forward: crate::navigation::ids_outside(m.forward, id),
        ..m1
    }
}

/// What a delete request does: it needs a second request within the
/// confirmation window.
#[derive(Clone, Debug)]
pub enum DeleteStep {
    /// The request is refused.
    Blocked(Blocked),
    /// The first request for this entry: it is now armed.
    Armed(EntryId),
    /// The second request in time: the entry should be deleted.
    Confirmed(EntryId),
}

/// A delete step as the specifications see it.
pub enum DeleteDecision {
    Blocked(Blocked),
    Armed(Seq<char>),
    Confirmed(Seq<char>),
}

impl DeleteStep {
    pub open spec fn model(self) -> DeleteDecision {
        match self {
            DeleteStep::Blocked(b) => DeleteDecision::Blocked(b),
            DeleteStep::Armed(id) => DeleteDecision::Armed(id@),
            DeleteStep::Confirmed(id) => DeleteDecision::Confirmed(id@),
        }
    }
}

/// Whether a delete of `id` was requested less than the confirmation window
/// before `now`.
pub open spec fn armed_for(m: AppModel, id: Seq<char>, now: u64) -> bool {
    match m.delete_armed {
        Some((armed, at)) => armed == id && (if now >= at { now - at } else { 0 }) < DELETE_CONFIRM_MS,
        None => false,
    }
}

/// The state and step after a delete request at `now`: refused as
/// [`mutation_target_of`] says; confirmed when the same entry was armed in
/// the window; otherwise the entry is armed at `now`.
pub open spec fn delete_requested(m: AppModel, now: u64) -> (AppModel, DeleteDecision) {
    match mutation_target_of(m) {
        Err(b) => (m, DeleteDecision::Blocked(b)),
        Ok(id) => if armed_for(m, id, now) {
            (m, DeleteDecision::Confirmed(id))
        } else {
            (AppModel { delete_armed: Some((id, now)), ..m }, DeleteDecision::Armed(id))
        },
    }
}

/// What selecting a row of the tree does.
#[derive(Clone, Debug)]
pub enum TreeSelection {
    /// The row is no entry of the tree.
    Nothing,
    /// A folder was selected and expanded or collapsed; the tree changed.
    Folder,
    /// A note was chosen; it should be opened.
    Open(EntryId),
}


/// Whether the tree lists a note (not a folder) with the id `id`.
pub open spec fn lists_note(entries: Seq<EntryModel>, id: Seq<char>) -> bool {
    exists|i: int| 0 <= i < entries.len() && entries[i].2 == EntryKind::File && entries[i].0 == id
}

/// What a finished scan brings: the full tree when one was asked for (or
/// why it failed), and the open note as read from disk when it was checked.
pub struct ScanResult {
    pub generation: u64,
    pub entries: Option<Result<Vec<WorkspaceEntry>, String>>,
    pub current_file: Option<EntryId>,
    pub current_text: Option<Result<String, String>>,
    pub elapsed_ms: u64,
}

/// What a finished search brings.
pub struct SearchResult {
    pub generation: u64,
    pub results: Result<Vec<EntryId>, String>,
    pub cancelled: bool,
    pub elapsed_ms: u64,
}

/// What a finished preview brings: the blocks, the rendering of each
/// Mermaid block (in block order, `None` for other blocks), and the images.
pub struct PreviewResult {
    pub generation: u64,
    pub source_hash: u64,
    pub blocks: Vec<crate::preview::PreviewBlock>,
    pub mermaid_svgs: Vec<Option<Result<String, String>>>,
    pub images: Vec<crate::preview::ImageReference>,
    pub elapsed_ms: u64,
}

/// A finished piece of background work.
pub enum WorkerResult {
    Preview(PreviewResult),
    Search(SearchResult),
    Scan(ScanResult),
}

/// What a scan did to the open note.
#[derive(Clone, Debug)]
pub enum NoteCheck {
    /// Nothing to report.
    Unchanged,
    /// The note is gone from the tree while it has unsaved edits: a conflict.
    ConflictRemoved,
    /// The note is gone from the tree and was closed.
    Removed,
    /// The note changed on disk while it has unsaved edits: a conflict.
    ConflictChanged,
    /// The note changed on disk and was loaded again.
    Reloaded,
    /// The note could not be read.
    ReadFailed(String),
}

/// What taking in a scan did.
#[derive(Clone, Debug)]
pub enum ScanOutcome {
    /// The scan is older than the latest request and was dropped.
    Stale,
    /// The tree could not be scanned.
    RefreshFailed(String),
    /// The scan was taken in: the number of notes of a new tree, and what
    /// happened to the open note.
    Applied(Option<usize>, NoteCheck),
}

/// A note check as the specifications see it.
pub enum NoteReport {
    Unchanged,
    ConflictRemoved,
    Removed,
    ConflictChanged,
    Reloaded,
    ReadFailed(Seq<char>),
}

/// A scan outcome as the specifications see it.
pub enum ScanReport {
    Stale,
    RefreshFailed(Seq<char>),
    Applied(Option<usize>, NoteReport),
}

impl ScanOutcome {
    pub open spec fn model(self) -> ScanReport {
        match self {
            ScanOutcome::Stale => ScanReport::Stale,
            ScanOutcome::RefreshFailed(e) => ScanReport::RefreshFailed(e@),
            ScanOutcome::Applied(n, c) => ScanReport::Applied(n, match c {
                NoteCheck::Unchanged => NoteReport::Unchanged,
                NoteCheck::ConflictRemoved => NoteReport::ConflictRemoved,
                NoteCheck::Removed => NoteReport::Removed,
                NoteCheck::ConflictChanged => NoteReport::ConflictChanged,
                NoteCheck::Reloaded => NoteReport::Reloaded,
                NoteCheck::ReadFailed(e) => NoteReport::ReadFailed(e@),
            }),
        }
    }
}

pub open spec fn opt_text_result(r: Option<Result<String, String>>) -> Option<Result<Seq<char>, Seq<char>>> {
    match r {
        Some(Ok(t)) => Some(Ok(t@)),
        Some(Err(e)) => Some(Err(e@)),
        None => None,
    }
}

pub open spec fn opt_entries_result(r: Option<Result<Vec<WorkspaceEntry>, String>>) -> Option<Result<Seq<EntryModel>, Seq<char>>> {
    match r {
        Some(Ok(v)) => Some(Ok(entries_model(v@))),
        Some(Err(e)) => Some(Err(e@)),
        None => None,
    }
}

/// What a scan, taken in at `now`, does to the open note of `m`: a note gone
/// from a full tree is closed, or kept as a conflict when it has unsaved
/// edits; a note whose disk text changed is loaded again, or kept as a
/// conflict when it has unsaved edits.
pub open spec fn note_checked(m: AppModel, full_tree: bool, checked: Option<Seq<char>>, text: Option<Result<Seq<char>, Seq<char>>>, now: u64) -> (AppModel, NoteReport) {
    match m.current_file {
        None => (m, NoteReport::Unchanged),
        Some(c) => if full_tree && !lists_note(m.entries, c) {
            if m.dirty {
                (AppModel { external_conflict: true, ..m }, NoteReport::ConflictRemoved)
            } else {
                (note_cleared(m), NoteReport::Removed)
            }
        } else if checked == Some(c) {
            match text {
                Some(Ok(d)) => if d != m.disk_text {
                    if m.dirty {
                        (AppModel { external_conflict: true, ..m }, NoteReport::ConflictChanged)
                    } else {
                        (preview_scheduled(AppModel { disk_text: d, saved_hash: text_hash(d), ..m }, d, now, 0), NoteReport::Reloaded)
                    }
                } else {
                    (m, NoteReport::Unchanged)
                },
                Some(Err(e)) => (m, NoteReport::ReadFailed(e)),
                None => (m, NoteReport::Unchanged),
            }
        } else {
            (m, NoteReport::Unchanged)
        },
    }
}

/// The state after a scan is taken in at `now`: a scan older than the latest
/// request is dropped; a failed tree scan changes nothing; a new tree is
/// taken in (see [`entries_applied`]) and then the open note is checked.
pub open spec fn scan_applied(m: AppModel, generation: u64, entries: Option<Result<Seq<EntryModel>, Seq<char>>>, checked: Option<Seq<char>>, text: Option<Result<Seq<char>, Seq<char>>>, now: u64) -> (AppModel, ScanReport) {
    if generation != m.scan_generation {
        (m, ScanReport::Stale)
    } else {
        match entries {
            Some(Err(e)) => (m, ScanReport::RefreshFailed(e)),
            Some(Ok(es)) => {
                let (m2, note) = note_checked(entries_applied(m, es), true, checked, text, now);
                (m2, ScanReport::Applied(Some(crate::backend_state::note_ids(es).len() as usize), note))
            },
            None => {
                let (m2, note) = note_checked(m, false, checked, text, now);
                (m2, ScanReport::Applied(None, note))
            },
        }
    }
}

/// What taking in a search did.
#[derive(Clone, Debug)]
pub enum SearchOutcome {
    /// The search is older than the latest request, or was cancelled.
    Dropped,
    /// The results were taken in.
    Results(Vec<EntryId>),
    /// The search failed.
    Failed(String),
}

/// One block of the preview as the window lays it out: a kind code, the
/// heading level, whether a task is checked, the plain text, and whether
/// the block shows styled text.
#[derive(Clone, Debug)]
pub struct PreviewRow {
    pub kind_code: i32,
    pub heading_level: i32,
    pub task_checked: bool,
    pub plain_text: String,
    pub styled: bool,
}

/// The kind code, heading level and checked flag of a block kind.
pub open spec fn kind_codes(k: crate::preview::PreviewBlockKind) -> (i32, i32, bool) {
    match k {
        crate::preview::PreviewBlockKind::Body => (0, 0, false),
        crate::preview::PreviewBlockKind::Heading(level) => (1, level as i32, false),
        crate::preview::PreviewBlockKind::Task(checked) => (2, 0, checked),
        crate::preview::PreviewBlockKind::Mermaid => (3, 0, false),
        crate::preview::PreviewBlockKind::Code => (4, 0, false),
        crate::preview::PreviewBlockKind::List(ordered) => (if ordered { 10 } else { 5 }, 0, false),
        crate::preview::PreviewBlockKind::Quote => (6, 0, false),
        crate::preview::PreviewBlockKind::Rule => (7, 0, false),
        crate::preview::PreviewBlockKind::Image => (8, 0, false),
        crate::preview::PreviewBlockKind::Table => (9, 0, false),
    }
}

/// How a preview block is laid out: a Mermaid block has no plain text, and
/// Mermaid, image and rule blocks show no styled text.
pub fn preview_row(block: &crate::preview::PreviewBlock) -> (r: PreviewRow)
    ensures
        (r.kind_code, r.heading_level, r.task_checked) == kind_codes(block.kind),
        r.plain_text@ == if block.kind == crate::preview::PreviewBlockKind::Mermaid { Seq::<char>::empty() } else { block.markdown@ },
        r.styled == !(block.kind == crate::preview::PreviewBlockKind::Mermaid || block.kind == crate::preview::PreviewBlockKind::Image
            || block.kind == crate::preview::PreviewBlockKind::Rule),
{
    let (kind_code, heading_level, task_checked): (i32, i32, bool) = match block.kind {
        crate::preview::PreviewBlockKind::Body => (0, 0, false),
        crate::preview::PreviewBlockKind::Heading(level) => (1, level as i32, false),
        crate::preview::PreviewBlockKind::Task(checked) => (2, 0, checked),
        crate::preview::PreviewBlockKind::Mermaid => (3, 0, false),
        crate::preview::PreviewBlockKind::Code => (4, 0, false),
        crate::preview::PreviewBlockKind::List(ordered) => (if ordered { 10 } else { 5 }, 0, false),
        crate::preview::PreviewBlockKind::Quote => (6, 0, false),
        crate::preview::PreviewBlockKind::Rule => (7, 0, false),
        crate::preview::PreviewBlockKind::Image => (8, 0, false),
        crate::preview::PreviewBlockKind::Table => (9, 0, false),
    };
    let is_mermaid = block.kind == crate::preview::PreviewBlockKind::Mermaid;
    let plain_text = if is_mermaid { String::new() } else { owned(block.markdown.as_str()) };
    let styled = !(is_mermaid || block.kind == crate::preview::PreviewBlockKind::Image
        || block.kind == crate::preview::PreviewBlockKind::Rule);
    PreviewRow { kind_code, heading_level, task_checked, plain_text, styled }
}

/// The window state.
pub struct AppState {
    workspace_open: bool,
    pinned: bool,
    entries: Vec<WorkspaceEntry>,
    tree_ids: Vec<EntryId>,
    expanded: Vec<EntryId>,
    expansion_initialized: bool,
    selected: Option<EntryId>,
    current_file: Option<EntryId>,
    disk_text: String,
    saved_hash: u64,
    dirty: bool,
    external_conflict: bool,
    back: Vec<EntryId>,
    forward: Vec<EntryId>,
    search_results: Vec<EntryId>,
    find_query: String,
    find_matches: Vec<(usize, usize)>,
    find_index: usize,
    delete_armed: Option<(EntryId, u64)>,
    preview_generation: u64,
    search_generation: u64,
    scan_generation: u64,
    pending_preview: Option<PendingPreview>,
    pending_search: Option<PendingSearch>,
    pending_scan: Option<PendingScan>,
}

impl View for AppState {
    type V = AppModel;

    closed spec fn view(&self) -> AppModel {
        AppModel {
            workspace_open: self.workspace_open,
            pinned: self.pinned,
            entries: entries_model(self.entries@),
            tree_ids: id_views(self.tree_ids@),
            expanded: id_set(self.expanded@),
            expansion_initialized: self.expansion_initialized,
            selected: opt_string_view(self.selected),
            current_file: opt_string_view(self.current_file),
            disk_text: self.disk_text@,
            saved_hash: self.saved_hash,
            dirty: self.dirty,
            external_conflict: self.external_conflict,
            back: id_views(self.back@),
            forward: id_views(self.forward@),
            search_results: id_views(self.search_results@),
            find_query: self.find_query@,
            find_matches: self.find_matches@,
            find_index: self.find_index,
            delete_armed: match self.delete_armed {
                Some((id, t)) => Some((id@, t)),
                None => None,
            },
            preview_generation: self.preview_generation,
            search_generation: self.search_generation,
            scan_generation: self.scan_generation,
            pending_preview: opt_request(self.pending_preview),
            pending_search: opt_search(self.pending_search),
            pending_scan: match self.pending_scan {
                Some(p) => Some((p.generation, p.due, p.full_tree)),
                None => None,
            },
        }
    }
}

/// Whether the list holds `id`.
pub fn holds_id(v: &Vec<EntryId>, id: &str) -> (r: bool)
    ensures
        r == id_views(v@).contains(id@),
{
    let mut i: usize = 0;
    while i < v.len()
        invariant
            i <= v.len(),
            forall|j: int| 0 <= j < i ==> id_views(v@)[j] != id@,
        decreases v.len() - i,
    {
        if str_eq(v[i].as_str(), id) {
            proof {
                assert(id_views(v@)[i as int] == id@);
            }
            return true;
        }
        i += 1;
    }
    false
}

/// Adds `id` to the set a list holds.
fn insert_id(v: &mut Vec<EntryId>, id: &str)
    ensures
        id_set(final(v)@) == id_set(old(v)@).insert(id@),
{
    if !holds_id(v, id) {
        let ghost prev = v@;
        v.push(owned(id));
        proof {
            assert(id_views(v@) =~= id_views(prev).push(id@));
            assert forall|x: Seq<char>| id_views(v@).contains(x) <==> (id_views(prev).contains(x) || x == id@) by {
                if id_views(prev).contains(x) {
                    let j = choose|j: int| 0 <= j < id_views(prev).len() && id_views(prev)[j] == x;
                    assert(id_views(v@)[j] == x);
                }
                if x == id@ {
                    assert(id_views(v@)[prev.len() as int] == x);
                }
                if id_views(v@).contains(x) {
                    let j = choose|j: int| 0 <= j < id_views(v@).len() && id_views(v@)[j] == x;
                    if j < prev.len() {
                        assert(id_views(prev)[j] == x);
                    }
                }
            }
        }
    }
    proof {
        assert(id_set(v@) =~= id_set(old(v)@).insert(id@));
    }
}

/// Removes `id` from the set a list holds; returns whether it was there.
fn remove_id(v: &mut Vec<EntryId>, id: &str) -> (r: bool)
    ensures
        r == id_set(old(v)@).contains(id@),
        id_set(final(v)@) == id_set(old(v)@).remove(id@),
{
    let mut kept: Vec<EntryId> = Vec::new();
    let mut found = false;
    let mut i: usize = 0;
    while i < v.len()
        invariant
            i <= v.len(),
            found == id_views(v@.take(i as int)).contains(id@),
            forall|x: Seq<char>| #[trigger] id_views(kept@).contains(x) <==> (id_views(v@.take(i as int)).contains(x) && x != id@),
        decreases v.len() - i,
    {
        let ghost prev = kept@;
        let ghost s0 = id_views(v@.take(i as int));
        let ghost s1 = id_views(v@.take(i + 1));
        let ghost vi = v@[i as int]@;
        proof {
            assert(s1 =~= s0.push(vi));
            assert forall|x: Seq<char>| s1.contains(x) <==> (s0.contains(x) || x == vi) by {
                if s0.contains(x) {
                    let j = choose|j: int| 0 <= j < s0.len() && s0[j] == x;
                    assert(s1[j] == x);
                }
                if x == vi {
                    assert(s1[i as int] == x);
                }
                if s1.contains(x) {
                    let j = choose|j: int| 0 <= j < s1.len() && s1[j] == x;
                    if j < i {
                        assert(s0[j] == x);
                    }
                }
            }
        }
        let same = str_eq(v[i].as_str(), id);
        if same {
            found = true;
        } else {
            kept.push(owned(v[i].as_str()));
            proof {
                let k = id_views(kept@);
                let p = id_views(prev);
                assert(k =~= p.push(vi));
                assert forall|x: Seq<char>| k.contains(x) <==> (p.contains(x) || x == vi) by {
                    if p.contains(x) {
                        let j = choose|j: int| 0 <= j < p.len() && p[j] == x;
                        assert(k[j] == x);
                    }
                    if x == vi {
                        assert(k[prev.len() as int] == x);
                    }
                    if k.contains(x) {
                        let j = choose|j: int| 0 <= j < k.len() && k[j] == x;
                        if j < prev.len() {
                            assert(p[j] == x);
                        }
                    }
                }
            }
        }
        proof {
            assert forall|x: Seq<char>| id_views(kept@).contains(x) <==> (s1.contains(x) && x != id@) by {
                if same {
                    assert(vi == id@);
                } else {
                    assert(vi != id@);
                }
            }
            assert(found == s1.contains(id@));
        }
        i += 1;
    }
    proof {
        assert(v@.take(v@.len() as int) =~= v@);
        assert(id_set(kept@) =~= id_set(v@).remove(id@));
    }
    *v = kept;
    found
}

impl AppState {
    /// A fresh state for a workspace (open or not), pinned or not.
    pub fn new(workspace_open: bool, pinned: bool) -> (s: Self)
        ensures
            s@ == fresh(workspace_open, pinned),
            s@.wf(),
    {
        let s = AppState {
            workspace_open,
            pinned,
            entries: Vec::new(),
            tree_ids: Vec::new(),
            expanded: Vec::new(),
            expansion_initialized: false,
            selected: None,
            current_file: None,
            disk_text: String::new(),
            saved_hash: hash_text(""),
            dirty: false,
            external_conflict: false,
            back: Vec::new(),
            forward: Vec::new(),
            search_results: Vec::new(),
            find_query: String::new(),
            find_matches: Vec::new(),
            find_index: 0,
            delete_armed: None,
            preview_generation: 0,
            search_generation: 0,
            scan_generation: 0,
            pending_preview: None,
            pending_search: None,
            pending_scan: None,
        };
        proof {
            reveal_strlit("");
            assert(s@.entries =~= Seq::<EntryModel>::empty());
            assert(s@.tree_ids =~= Seq::<Seq<char>>::empty());
            assert(s@.expanded =~= Set::<Seq<char>>::empty());
            assert(s@.disk_text =~= Seq::<char>::empty());
            assert(s@.back =~= Seq::<Seq<char>>::empty());
            assert(s@.forward =~= Seq::<Seq<char>>::empty());
            assert(s@.search_results =~= Seq::<Seq<char>>::empty());
            assert(s@.find_query =~= Seq::<char>::empty());
            assert(s@.find_matches =~= Seq::<(usize, usize)>::empty());
            assert(""@ =~= Seq::<char>::empty());
        }
        s
    }

    /// Starts over for another workspace.
    pub fn replace_workspace(&mut self, workspace_open: bool, pinned: bool)
        ensures
            final(self)@ == fresh(workspace_open, pinned),
            final(self)@.wf(),
    {
        *self = Self::new(workspace_open, pinned);
    }

    /// Takes in a scanned tree; see [`entries_applied`].
    pub fn apply_entries(&mut self, entries: Vec<WorkspaceEntry>)
        ensures
            final(self)@ == entries_applied(old(self)@, entries_model(entries@)),
    {
        if !self.expansion_initialized {
            let mut i: usize = 0;
            while i < entries.len()
                invariant
                    i <= entries.len(),
                    id_set(self.expanded@) == id_set(old(self).expanded@).union(folder_ids(entries_model(entries@.take(i as int)))),
                    self.entries == old(self).entries,
                    self.expansion_initialized == old(self).expansion_initialized,
                    !self.expansion_initialized,
                    self@ == (AppModel { expanded: id_set(self.expanded@), ..old(self)@ }),
                decreases entries.len() - i,
            {
                let ghost before = id_set(self.expanded@);
                if entries[i].kind == EntryKind::Directory {
                    insert_id(&mut self.expanded, entries[i].id.as_str());
                }
                proof {
                    let em = entries_model(entries@.take(i + 1));
                    let ep = entries_model(entries@.take(i as int));
                    assert(em =~= ep.push(entry_model(entries@[i as int])));
                    assert forall|x: Seq<char>| folder_ids(em).contains(x) <==> (folder_ids(ep).contains(x) || (entries@[i as int].kind == EntryKind::Directory && x == entries@[i as int].id@)) by {
                        if folder_ids(ep).contains(x) {
                            let j = choose|j: int| 0 <= j < ep.len() && ep[j].2 == EntryKind::Directory && ep[j].0 == x;
                            assert(em[j] == ep[j]);
                        }
                        if entries@[i as int].kind == EntryKind::Directory && x == entries@[i as int].id@ {
                            assert(em[i as int] == entry_model(entries@[i as int]));
                        }
                        if folder_ids(em).contains(x) {
                            let j = choose|j: int| 0 <= j < em.len() && em[j].2 == EntryKind::Directory && em[j].0 == x;
                            if j < i {
                                assert(ep[j] == em[j]);
                            }
                        }
                    }
                    assert(id_set(self.expanded@) =~= id_set(old(self).expanded@).union(folder_ids(em)));
                }
                i += 1;
            }
            proof {
                assert(entries@.take(entries@.len() as int) =~= entries@);
            }
            self.expansion_initialized = true;
        }
        self.entries = entries;
    }

    /// Schedules a preview of `source`; see [`preview_scheduled`]. Returns
    /// its generation.
    pub fn schedule_preview(&mut self, source: String, now: u64, delay: u64) -> (r: u64)
        ensures
            final(self)@ == preview_scheduled(old(self)@, source@, now, delay),
            r == final(self)@.preview_generation,
    {
        self.preview_generation = self.preview_generation.wrapping_add(1);
        self.pending_preview = Some(PendingPreview {
            generation: self.preview_generation,
            due: now.saturating_add(delay),
            source,
        });
        self.preview_generation
    }

    /// Requests a search for `query`; see [`search_scheduled`]. Returns its
    /// generation.
    pub fn schedule_search(&mut self, query: String, now: u64) -> (r: u64)
        ensures
            final(self)@ == search_scheduled(old(self)@, query@, now),
            r == final(self)@.search_generation,
    {
        self.search_generation = self.search_generation.wrapping_add(1);
        let v = crate::text::chars_of(query.as_str());
        let (start, end) = crate::text::trim_bounds(v.as_slice());
        if start >= end {
            self.pending_search = None;
            self.search_results = Vec::new();
            proof {
                assert(self@.search_results =~= Seq::<Seq<char>>::empty());
            }
            return self.search_generation;
        }
        self.pending_search = Some(PendingSearch {
            generation: self.search_generation,
            due: now.saturating_add(SEARCH_DEBOUNCE_MS),
            query,
        });
        self.search_generation
    }

    /// Requests a scan of the whole tree; see [`scan_scheduled`].
    pub fn schedule_scan(&mut self, now: u64, delay: u64)
        ensures
            final(self)@ == scan_scheduled(old(self)@, now, delay, true),
    {
        self.schedule_scan_mode(now, delay, true)
    }

    /// Requests a check of the open note only; see [`scan_scheduled`].
    pub fn schedule_current_file_check(&mut self, now: u64, delay: u64)
        ensures
            final(self)@ == scan_scheduled(old(self)@, now, delay, false),
    {
        self.schedule_scan_mode(now, delay, false)
    }

    fn schedule_scan_mode(&mut self, now: u64, delay: u64, full_tree: bool)
        ensures
            final(self)@ == scan_scheduled(old(self)@, now, delay, full_tree),
    {
        if !self.workspace_open {
            return;
        }
        self.scan_generation = self.scan_generation.wrapping_add(1);
        let due = now.saturating_add(delay);
        let merged = match &self.pending_scan {
            Some(p) => PendingScan {
                generation: self.scan_generation,
                due: if p.due <= due { p.due } else { due },
                full_tree: p.full_tree || full_tree,
            },
            None => PendingScan { generation: self.scan_generation, due, full_tree },
        };
        self.pending_scan = Some(merged);
    }

    /// The position in the tree of the entry `id`; see [`entry_index`].
    pub fn entry_position(&self, id: &str) -> (r: Option<usize>)
        ensures
            match r {
                Some(i) => entry_index(self@.entries, id@) == Some(i as int),
                None => entry_index(self@.entries, id@) is None,
            },
    {
        let ghost es = self@.entries;
        let mut i: usize = 0;
        while i < self.entries.len()
            invariant
                i <= self.entries.len(),
                es == entries_model(self.entries@),
                forall|j: int| 0 <= j < i ==> es[j].0 != id@,
            decreases self.entries.len() - i,
        {
            if str_eq(self.entries[i].id.as_str(), id) {
                proof {
                    assert(es[i as int].0 == id@);
                    let c = choose|k: int| 0 <= k < es.len() && es[k].0 == id@ && forall|j: int| 0 <= j < k ==> es[j].0 != id@;
                    if c < i {
                        assert(es[c].0 != id@);
                    }
                    if c > i {
                        assert(es[i as int].0 != id@);
                    }
                }
                return Some(i);
            }
            i += 1;
        }
        None
    }

    /// Where a new note or folder goes; see [`parent_for_new`].
    pub fn selected_parent(&self) -> (r: EntryId)
        ensures
            r@ == parent_for_new(self@),
    {
        if let Some(selected) = &self.selected {
            let is_folder = match self.entry_position(selected.as_str()) {
                Some(i) => {
                    proof {
                        lemma_entry_index(self@.entries, selected@);
                    }
                    self.entries[i].kind == EntryKind::Directory
                },
                None => false,
            };
            if is_folder {
                return owned(selected.as_str());
            }
            return crate::navigation::parent_id(selected.as_str());
        }
        match &self.current_file {
            Some(c) => crate::navigation::parent_id(c.as_str()),
            None => String::new(),
        }
    }

    /// Whether the open note is `id` or lies beneath it.
    pub fn current_is_under(&self, id: &str) -> (r: bool)
        ensures
            r == match self@.current_file {
                Some(c) => is_at_or_under(c, id@),
                None => false,
            },
    {
        match &self.current_file {
            Some(c) => crate::navigation::id_is_at_or_under(c.as_str(), id),
            None => false,
        }
    }

    /// Whether a delete of `id` was requested less than the confirmation
    /// window before `now`.
    pub fn delete_is_armed(&self, id: &str, now: u64) -> (r: bool)
        ensures
            r == armed_for(self@, id@, now),
    {
        match &self.delete_armed {
            Some((armed, at)) => str_eq(armed.as_str(), id) && now.saturating_sub(*at) < DELETE_CONFIRM_MS,
            None => false,
        }
    }

    /// Computes the rows of the notes tree, remembers their ids, and returns
    /// their labels; see [`tree_rows`].
    pub fn render_tree(&mut self) -> (labels: Vec<String>)
        ensures
            final(self)@ == (AppModel { tree_ids: tree_rows(old(self)@).map_values(|r: TreeRow| r.1), ..old(self)@ }),
            labels@.map_values(|l: String| l@) == tree_rows(old(self)@).map_values(|r: TreeRow| r.0),
    {
        let ghost m = self@;
        let mut labels: Vec<String> = Vec::new();
        let mut ids: Vec<EntryId> = Vec::new();
        let mut ancestors: Vec<EntryId> = Vec::new();
        let mut i: usize = 0;
        while i < self.entries.len()
            invariant
                i <= self.entries.len(),
                m == self@,
                ({
                    let (rows, anc) = tree_fold(m.entries.take(i as int), m.expanded, m.selected);
                    &&& labels@.map_values(|l: String| l@) == rows.map_values(|r: TreeRow| r.0)
                    &&& id_views(ids@) == rows.map_values(|r: TreeRow| r.1)
                    &&& id_views(ancestors@) == anc
                }),
            decreases self.entries.len() - i,
        {
            let e = &self.entries[i];
            let ghost em = entry_model(*e);
            let ghost prefix = m.entries.take(i as int);
            proof {
                assert(m.entries.take(i + 1).drop_last() =~= prefix);
                assert(m.entries.take(i + 1).last() == em);
            }
            let ghost (rows0, anc0) = tree_fold(prefix, m.expanded, m.selected);
            ancestors.truncate(e.depth);
            let ghost enclosing = enclosing_folders(anc0, em.3);
            proof {
                assert(id_views(ancestors@) =~= enclosing);
            }
            let mut visible = true;
            let mut k: usize = 0;
            while k < ancestors.len()
                invariant
                    k <= ancestors.len(),
                    m == self@,
                    id_views(ancestors@) == enclosing,
                    visible == (forall|j: int| 0 <= j < k ==> m.expanded.contains(enclosing[j])),
                decreases ancestors.len() - k,
            {
                if !holds_id(&self.expanded, ancestors[k].as_str()) {
                    visible = false;
                }
                proof {
                    assert(enclosing[k as int] == ancestors@[k as int]@);
                    if visible {
                        assert forall|j: int| 0 <= j < k + 1 implies m.expanded.contains(enclosing[j]) by {
                            if j == k {
                                assert(id_set(self.expanded@).contains(ancestors@[k as int]@));
                            }
                        }
                    } else {
                        if id_set(self.expanded@).contains(enclosing[k as int]) {
                        }
                    }
                }
                k += 1;
            }
            if visible {
                let label = self.row_label(e);
                let ghost pl = labels@;
                let ghost pi = ids@;
                labels.push(label);
                ids.push(owned(e.id.as_str()));
                proof {
                    let row = (row_label(em, m.expanded, m.selected), em.0);
                    assert(labels@.map_values(|l: String| l@) =~= pl.map_values(|l: String| l@).push(row.0));
                    assert(rows0.push(row).map_values(|r: TreeRow| r.0) =~= rows0.map_values(|r: TreeRow| r.0).push(row.0));
                    assert(id_views(ids@) =~= id_views(pi).push(row.1));
                    assert(rows0.push(row).map_values(|r: TreeRow| r.1) =~= rows0.map_values(|r: TreeRow| r.1).push(row.1));
                }
            }
            if e.kind == EntryKind::Directory {
                let ghost pa = ancestors@;
                ancestors.push(owned(e.id.as_str()));
                proof {
                    assert(id_views(ancestors@) =~= id_views(pa).push(em.0));
                }
            }
            proof {
                let t = m.entries.take(i + 1);
                assert(t.len() > 0);
                assert(t.drop_last() =~= prefix);
                assert(t.last() == em);
                let row = (row_label(em, m.expanded, m.selected), em.0);
                assert(visible == all_expanded(enclosing, m.expanded));
                assert(tree_fold(t.drop_last(), m.expanded, m.selected) == (rows0, anc0));
                assert(tree_fold(t, m.expanded, m.selected) == (
                    if visible { rows0.push(row) } else { rows0 },
                    if em.2 == EntryKind::Directory { enclosing.push(em.0) } else { enclosing },
                ));
            }
            i += 1;
        }
        proof {
            assert(m.entries.take(m.entries.len() as int) =~= m.entries);
            assert(self.entries@.len() == m.entries.len());
        }
        self.tree_ids = ids;
        labels
    }

    fn row_label(&self, e: &WorkspaceEntry) -> (r: String)
        ensures
            r@ == row_label(entry_model(*e), self@.expanded, self@.selected),
    {
        let selected = match &self.selected {
            Some(s) => str_eq(s.as_str(), e.id.as_str()),
            None => false,
        };
        let mut r = String::new();
        if selected {
            crate::text::push_char(&mut r, '•');
        } else {
            crate::text::push_char(&mut r, ' ');
        }
        crate::text::push_char(&mut r, ' ');
        let ghost start = r@;
        let mut d: usize = 0;
        while d < e.depth
            invariant
                d <= e.depth,
                r@ == start + indent(d as nat),
            decreases e.depth - d,
        {
            crate::text::push_char(&mut r, ' ');
            crate::text::push_char(&mut r, ' ');
            crate::text::push_char(&mut r, ' ');
            crate::text::push_char(&mut r, ' ');
            d += 1;
            proof {
                assert(r@ =~= start + indent(d as nat));
            }
        }
        if e.kind == EntryKind::Directory {
            if holds_id(&self.expanded, e.id.as_str()) {
                crate::text::push_char(&mut r, '▼');
            } else {
                crate::text::push_char(&mut r, '▶');
            }
        } else {
            crate::text::push_char(&mut r, ' ');
        }
        crate::text::push_char(&mut r, ' ');
        crate::text::push_str(&mut r, e.name.as_str());
        proof {
            reveal_strlit("");
            assert(r@ =~= row_label(entry_model(*e), self@.expanded, self@.selected));
        }
        r
    }

    /// Whether the note `id` may be opened; see [`may_open`].
    pub fn may_open(&self, id: &str) -> (r: bool)
        ensures
            r == may_open(self@, id@),
    {
        let same = match &self.current_file {
            Some(c) => str_eq(c.as_str(), id),
            None => false,
        };
        !(self.dirty && !same)
    }

    /// Takes in the note `id`, read as `contents` at `now`; see
    /// [`note_opened`]. Returns the generation of the preview it schedules.
    pub fn open_note(&mut self, id: &str, contents: String, history: bool, now: u64) -> (r: u64)
        requires
            old(self)@.wf(),
        ensures
            final(self)@ == note_opened(old(self)@, id@, contents@, history, now),
            final(self)@.wf(),
            r == final(self)@.preview_generation,
    {
        if history {
            let left = match &self.current_file {
                Some(c) => if str_eq(c.as_str(), id) { None } else { Some(owned(c.as_str())) },
                None => None,
            };
            if let Some(c) = left {
                let ghost pb = self.back@;
                self.back.push(c);
                self.forward = Vec::new();
                proof {
                    assert(id_views(self.back@) =~= id_views(pb).push(c@));
                    assert(id_views(self.forward@) =~= Seq::<Seq<char>>::empty());
                }
            }
        }
        self.current_file = Some(owned(id));
        self.selected = Some(owned(id));
        self.disk_text = owned(contents.as_str());
        self.saved_hash = hash_text(contents.as_str());
        self.dirty = false;
        self.external_conflict = false;
        self.find_query = String::new();
        self.find_matches = Vec::new();
        self.find_index = 0;
        proof {
            assert(self@.find_query =~= Seq::<char>::empty());
            assert(self@.find_matches =~= Seq::<(usize, usize)>::empty());
        }
        self.schedule_preview(contents, now, 0)
    }

    /// The note a save writes to; see [`save_target_of`].
    pub fn save_target(&self, force: bool) -> (r: Result<EntryId, Blocked>)
        ensures
            match (r, save_target_of(self@, force)) {
                (Ok(f), Ok(g)) => f@ == g,
                (Err(e), Err(e2)) => e == e2,
                _ => false,
            },
    {
        match &self.current_file {
            None => Err(Blocked::NoNote),
            Some(c) => if self.external_conflict && !force {
                Err(Blocked::Conflict)
            } else {
                Ok(owned(c.as_str()))
            },
        }
    }

    /// Takes in that `contents` was written to the open note.
    pub fn note_saved(&mut self, contents: &str)
        ensures
            final(self)@ == note_saved(old(self)@, contents@),
    {
        self.disk_text = owned(contents);
        self.saved_hash = hash_text(contents);
        self.dirty = false;
        self.external_conflict = false;
    }

    /// Takes in that the open note was read again as `contents` at `now`.
    /// Returns the generation of the preview it schedules.
    pub fn note_reloaded(&mut self, contents: String, now: u64) -> (r: u64)
        ensures
            final(self)@ == note_reloaded(old(self)@, contents@, now),
            r == final(self)@.preview_generation,
    {
        self.note_saved(contents.as_str());
        self.schedule_preview(contents, now, 0)
    }

    /// Closes the open note; see [`note_cleared`].
    pub fn clear_current(&mut self)
        ensures
            final(self)@ == note_cleared(old(self)@),
    {
        self.current_file = None;
        self.disk_text = String::new();
        self.saved_hash = hash_text("");
        self.dirty = false;
        self.external_conflict = false;
        self.preview_generation = self.preview_generation.wrapping_add(1);
        self.pending_preview = None;
        proof {
            reveal_strlit("");
            assert(""@ =~= Seq::<char>::empty());
            assert(self@.disk_text =~= Seq::<char>::empty());
        }
    }

    /// Takes in an edit of the editor text: the note is dirty when the text
    /// differs from its baseline. `None` when no note is open.
    pub fn editor_changed(&mut self, contents: &str) -> (r: Option<bool>)
        ensures
            match old(self)@.current_file {
                None => r is None && final(self)@ == old(self)@,
                Some(_) => r == Some(contents@ != old(self)@.disk_text)
                    && final(self)@ == (AppModel { dirty: contents@ != old(self)@.disk_text, ..old(self)@ }),
            },
    {
        if self.current_file.is_none() {
            return None;
        }
        self.dirty = !str_eq(contents, self.disk_text.as_str());
        Some(self.dirty)
    }

    /// "Find next" for `query` in `source`; see [`found_next`].
    pub fn find_next(&mut self, source: &str, query: String) -> (r: Option<(usize, usize, usize, usize)>)
        requires
            old(self)@.wf(),
            crate::text::utf8_len(source@) <= usize::MAX,
        ensures
            (final(self)@, r) == found_next(old(self)@, source@, query@),
            final(self)@.wf(),
    {
        if !str_eq(self.find_query.as_str(), query.as_str()) {
            self.find_matches = crate::markdown::find_matches(source, query.as_str());
            self.find_query = query;
            self.find_index = 0;
        } else if self.find_matches.len() > 0 {
            self.find_index = (self.find_index + 1) % self.find_matches.len();
        }
        if self.find_matches.len() == 0 {
            return None;
        }
        let (start, end) = self.find_matches[self.find_index];
        Some((start, end, self.find_index + 1, self.find_matches.len()))
    }

    /// Steps back or forward through the history; see [`history_stepped`].
    pub fn step_history(&mut self, forward: bool) -> (r: Result<Option<EntryId>, Blocked>)
        ensures
            ({
                let (m, out) = history_stepped(old(self)@, forward);
                &&& final(self)@ == m
                &&& match (r, out) {
                    (Ok(Some(t)), Ok(Some(u))) => t@ == u,
                    (Ok(None), Ok(None)) => true,
                    (Err(e), Err(e2)) => e == e2,
                    _ => false,
                }
            }),
    {
        if self.dirty {
            return Err(Blocked::UnsavedChanges);
        }
        let ghost pb = self.back@;
        let ghost pf = self.forward@;
        let target = if forward { self.forward.pop() } else { self.back.pop() };
        match target {
            None => Ok(None),
            Some(t) => {
                if let Some(c) = &self.current_file {
                    let c2 = owned(c.as_str());
                    if forward {
                        self.back.push(c2);
                    } else {
                        self.forward.push(c2);
                    }
                }
                proof {
                    if forward {
                        assert(id_views(self.forward@) =~= id_views(pf).drop_last());
                        if self.current_file is Some {
                            assert(id_views(self.back@) =~= id_views(pb).push(self.current_file->Some_0@));
                        } else {
                            assert(id_views(self.back@) =~= id_views(pb));
                        }
                    } else {
                        assert(id_views(self.back@) =~= id_views(pb).drop_last());
                        if self.current_file is Some {
                            assert(id_views(self.forward@) =~= id_views(pf).push(self.current_file->Some_0@));
                        } else {
                            assert(id_views(self.forward@) =~= id_views(pf));
                        }
                    }
                }
                Ok(Some(t))
            },
        }
    }

    /// Selects the row `index` of the tree; see [`TreeSelection`]. A folder
    /// is selected and expanded or collapsed.
    pub fn tree_selected(&mut self, index: usize) -> (r: TreeSelection)
        ensures
            match r {
                TreeSelection::Nothing => final(self)@ == old(self)@ && (index >= old(self)@.tree_ids.len()
                    || entry_index(old(self)@.entries, old(self)@.tree_ids[index as int]) is None),
                TreeSelection::Folder => index < old(self)@.tree_ids.len() && ({
                    let id = old(self)@.tree_ids[index as int];
                    &&& is_listed_folder(old(self)@.entries, id)
                    &&& final(self)@ == (AppModel {
                        selected: Some(id),
                        expanded: if old(self)@.expanded.contains(id) { old(self)@.expanded.remove(id) } else { old(self)@.expanded.insert(id) },
                        ..old(self)@
                    })
                }),
                TreeSelection::Open(f) => index < old(self)@.tree_ids.len() && f@ == old(self)@.tree_ids[index as int]
                    && entry_index(old(self)@.entries, f@) is Some && !is_listed_folder(old(self)@.entries, f@)
                    && final(self)@ == old(self)@,
            },
    {
        if index >= self.tree_ids.len() {
            return TreeSelection::Nothing;
        }
        let id = owned(self.tree_ids[index].as_str());
        let position = self.entry_position(id.as_str());
        proof {
            lemma_entry_index(self@.entries, id@);
            assert(self@.tree_ids[index as int] == id@);
        }
        match position {
            None => {
                proof {
                    assert(entry_index(old(self)@.entries, id@) is None);
                    assert(entry_index(old(self)@.entries, old(self)@.tree_ids[index as int]) is None);
                    assert(self@ == old(self)@);
                }
                TreeSelection::Nothing
            },
            Some(i) => {
                if self.entries[i].kind == EntryKind::Directory {
                    self.selected = Some(owned(id.as_str()));
                    let ghost before = id_set(self.expanded@);
                    if !remove_id(&mut self.expanded, id.as_str()) {
                        proof {
                            assert(before.remove(id@) =~= before);
                        }
                        insert_id(&mut self.expanded, id.as_str());
                    }
                    proof {
                        assert(is_listed_folder(old(self)@.entries, id@));
                        assert(self@ == (AppModel {
                            selected: Some(id@),
                            expanded: if before.contains(id@) { before.remove(id@) } else { before.insert(id@) },
                            ..old(self)@
                        }));
                    }
                    TreeSelection::Folder
                } else {
                    TreeSelection::Open(id)
                }
            },
        }
    }

    /// The entry a rename or delete applies to; see [`mutation_target_of`].
    pub fn mutation_target(&self) -> (r: Result<EntryId, Blocked>)
        ensures
            match (r, mutation_target_of(self@)) {
                (Ok(f), Ok(g)) => f@ == g,
                (Err(e), Err(e2)) => e == e2,
                _ => false,
            },
    {
        match &self.selected {
            None => Err(Blocked::NothingSelected),
            Some(s) => if self.dirty && self.current_is_under(s.as_str()) {
                Err(Blocked::UnsavedChanges)
            } else {
                Ok(owned(s.as_str()))
            },
        }
    }

    /// Takes in that `from` was renamed to `to`; see [`entry_renamed_in`].
    pub fn entry_renamed(&mut self, from: &str, to: &str)
        requires
            old(self)@.wf(),
        ensures
            final(self)@ == entry_renamed_in(old(self)@, from@, to@),
            final(self)@.wf(),
    {
        self.selected = match &self.selected {
            Some(s) => Some(crate::navigation::rebase_id(s.as_str(), from, to)),
            None => None,
        };
        self.current_file = match &self.current_file {
            Some(c) => Some(crate::navigation::rebase_id(c.as_str(), from, to)),
            None => None,
        };
        self.back = rebase_ids(&self.back, from, to);
        self.forward = rebase_ids(&self.forward, from, to);
        let expanded = rebase_ids(&self.expanded, from, to);
        proof {
            let before = id_set(self.expanded@);
            let after = id_set(expanded@);
            assert forall|y: Seq<char>| after.contains(y) <==> rebased_set(before, from@, to@).contains(y) by {
                let a = id_views(expanded@);
                let b = id_views(self.expanded@);
                if a.contains(y) {
                    let j = choose|j: int| 0 <= j < a.len() && a[j] == y;
                    assert(b.contains(b[j]));
                    assert(before.contains(b[j]) && rebased_id(b[j], from@, to@) == y);
                }
                if rebased_set(before, from@, to@).contains(y) {
                    let x = choose|x: Seq<char>| before.contains(x) && rebased_id(x, from@, to@) == y;
                    let j = choose|j: int| 0 <= j < b.len() && b[j] == x;
                    assert(a[j] == y);
                }
            }
            assert(after =~= rebased_set(before, from@, to@));
        }
        self.expanded = expanded;
    }

    /// A delete request for the selected entry at `now`; see [`delete_requested`].
    pub fn request_delete(&mut self, now: u64) -> (r: DeleteStep)
        ensures
            (final(self)@, r.model()) == delete_requested(old(self)@, now),
    {
        let id = match self.mutation_target() {
            Ok(id) => id,
            Err(b) => return DeleteStep::Blocked(b),
        };
        if !self.delete_is_armed(id.as_str(), now) {
            self.delete_armed = Some((owned(id.as_str()), now));
            return DeleteStep::Armed(id);
        }
        DeleteStep::Confirmed(id)
    }

    /// Takes in that `id` was deleted; see [`entry_deleted_in`].
    pub fn entry_deleted(&mut self, id: &str)
        requires
            old(self)@.wf(),
        ensures
            final(self)@ == entry_deleted_in(old(self)@, id@),
            final(self)@.wf(),
    {
        if self.current_is_under(id) {
            self.clear_current();
        }
        self.delete_armed = None;
        self.selected = None;
        self.back = ids_outside_of(&self.back, id);
        self.forward = ids_outside_of(&self.forward, id);
    }

    /// Takes in that a note was created in `parent`: that folder is expanded.
    pub fn note_created(&mut self, parent: &str)
        ensures
            final(self)@ == (AppModel {
                expanded: if parent@.len() == 0 { old(self)@.expanded } else { old(self)@.expanded.insert(parent@) },
                ..old(self)@
            }),
    {
        if !parent.is_empty() {
            insert_id(&mut self.expanded, parent);
        }
        proof {
            if parent@.len() == 0 {
                assert(self@.expanded =~= old(self)@.expanded);
            }
        }
    }

    /// Takes in that the folder `id` was created in `parent`: both are
    /// expanded and the new folder is selected.
    pub fn folder_created(&mut self, id: &str, parent: &str)
        ensures
            final(self)@ == (AppModel {
                expanded: if parent@.len() == 0 { old(self)@.expanded.insert(id@) } else { old(self)@.expanded.insert(id@).insert(parent@) },
                selected: Some(id@),
                ..old(self)@
            }),
    {
        insert_id(&mut self.expanded, id);
        self.note_created(parent);
        self.selected = Some(owned(id));
    }

    /// Requests a refresh of the whole tree at `now`; `false` without a workspace.
    pub fn refresh_workspace(&mut self, now: u64) -> (r: bool)
        ensures
            r == old(self)@.workspace_open,
            final(self)@ == scan_scheduled(old(self)@, now, 0, true),
    {
        if !self.workspace_open {
            return false;
        }
        self.schedule_scan(now, 0);
        true
    }

    /// Takes in a finished scan at `now`; see [`scan_applied`].
    pub fn apply_scan_result(&mut self, result: ScanResult, now: u64) -> (r: ScanOutcome)
        ensures
            (final(self)@, r.model()) == scan_applied(old(self)@, result.generation, opt_entries_result(result.entries),
                opt_string_view(result.current_file), opt_text_result(result.current_text), now),
    {
        if result.generation != self.scan_generation {
            return ScanOutcome::Stale;
        }
        let ScanResult { generation: _, entries, current_file, current_text, elapsed_ms: _ } = result;
        let full_tree = entries.is_some();
        let count = match entries {
            Some(Err(e)) => return ScanOutcome::RefreshFailed(e),
            Some(Ok(es)) => {
                let n = count_notes(&es);
                self.apply_entries(es);
                Some(n)
            },
            None => None,
        };
        let note = self.check_note(full_tree, current_file, current_text, now);
        ScanOutcome::Applied(count, note)
    }

    fn check_note(&mut self, full_tree: bool, checked: Option<EntryId>, text: Option<Result<String, String>>, now: u64) -> (r: NoteCheck)
        ensures
            ({
                let (m, n) = note_checked(old(self)@, full_tree, opt_string_view(checked), opt_text_result(text), now);
                &&& final(self)@ == m
                &&& (ScanOutcome::Applied(None, r)).model() == ScanReport::Applied(None, n)
            }),
    {
        let current = match &self.current_file {
            None => return NoteCheck::Unchanged,
            Some(c) => owned(c.as_str()),
        };
        if full_tree && !self.lists_note(current.as_str()) {
            if self.dirty {
                self.external_conflict = true;
                return NoteCheck::ConflictRemoved;
            }
            self.clear_current();
            return NoteCheck::Removed;
        }
        let same = match &checked {
            Some(f) => str_eq(f.as_str(), current.as_str()),
            None => false,
        };
        if !same {
            return NoteCheck::Unchanged;
        }
        match text {
            Some(Ok(disk)) => {
                if str_eq(disk.as_str(), self.disk_text.as_str()) {
                    NoteCheck::Unchanged
                } else if self.dirty {
                    self.external_conflict = true;
                    NoteCheck::ConflictChanged
                } else {
                    self.disk_text = owned(disk.as_str());
                    self.saved_hash = hash_text(disk.as_str());
                    self.schedule_preview(disk, now, 0);
                    NoteCheck::Reloaded
                }
            },
            Some(Err(e)) => NoteCheck::ReadFailed(e),
            None => NoteCheck::Unchanged,
        }
    }

    fn lists_note(&self, id: &str) -> (r: bool)
        ensures
            r == lists_note(self@.entries, id@),
    {
        let mut i: usize = 0;
        while i < self.entries.len()
            invariant
                i <= self.entries.len(),
                forall|j: int| 0 <= j < i ==> !(self@.entries[j].2 == EntryKind::File && self@.entries[j].0 == id@),
            decreases self.entries.len() - i,
        {
            if self.entries[i].kind == EntryKind::File && str_eq(self.entries[i].id.as_str(), id) {
                proof {
                    assert(self@.entries[i as int].2 == EntryKind::File && self@.entries[i as int].0 == id@);
                }
                return true;
            }
            i += 1;
        }
        false
    }

    /// Takes in a finished search: it is dropped when a newer search was
    /// requested or it was cancelled; results replace the shown ones.
    pub fn apply_search_result(&mut self, result: SearchResult) -> (r: SearchOutcome)
        ensures
            match r {
                SearchOutcome::Dropped => final(self)@ == old(self)@
                    && (result.generation != old(self)@.search_generation || result.cancelled),
                SearchOutcome::Results(v) => result.generation == old(self)@.search_generation && !result.cancelled
                    && result.results is Ok && id_views(v@) == id_views(result.results->Ok_0@)
                    && final(self)@ == (AppModel { search_results: id_views(v@), ..old(self)@ }),
                SearchOutcome::Failed(e) => result.generation == old(self)@.search_generation && !result.cancelled
                    && result.results == Err::<Vec<EntryId>, String>(e) && final(self)@ == old(self)@,
            },
    {
        if result.generation != self.search_generation || result.cancelled {
            return SearchOutcome::Dropped;
        }
        let SearchResult { generation: _, results, cancelled: _, elapsed_ms: _ } = result;
        match results {
            Ok(ids) => {
                self.search_results = copy_ids(&ids);
                SearchOutcome::Results(ids)
            },
            Err(e) => SearchOutcome::Failed(e),
        }
    }

    /// Whether a finished preview is the latest one requested.
    pub fn preview_is_current(&self, generation: u64) -> (r: bool)
        ensures
            r == (generation == self@.preview_generation),
    {
        generation == self.preview_generation
    }

    /// Takes in a shown preview of text with the hash `source_hash`: the
    /// note is dirty when that hash differs from the saved one.
    pub fn preview_applied(&mut self, source_hash: u64)
        ensures
            final(self)@ == (AppModel { dirty: source_hash != old(self)@.saved_hash, ..old(self)@ }),
    {
        self.dirty = source_hash != self.saved_hash;
    }

    /// The preview request that is due at `now`, taken off the queue.
    pub fn take_due_preview(&mut self, now: u64) -> (r: Option<PendingPreview>)
        ensures
            match old(self)@.pending_preview {
                Some(p) if p.due <= now => r is Some && r->Some_0@ == p && final(self)@ == (AppModel { pending_preview: None, ..old(self)@ }),
                _ => r is None && final(self)@ == old(self)@,
            },
    {
        let due = match &self.pending_preview {
            Some(p) => p.due <= now,
            None => false,
        };
        if due { self.pending_preview.take() } else { None }
    }

    /// The search request that is due at `now`, taken off the queue.
    pub fn take_due_search(&mut self, now: u64) -> (r: Option<PendingSearch>)
        ensures
            match old(self)@.pending_search {
                Some(p) if p.1 <= now => r is Some && opt_search(r) == Some(p) && final(self)@ == (AppModel { pending_search: None, ..old(self)@ }),
                _ => r is None && final(self)@ == old(self)@,
            },
    {
        let due = match &self.pending_search {
            Some(p) => p.due <= now,
            None => false,
        };
        if due { self.pending_search.take() } else { None }
    }

    /// The scan request that is due at `now`, taken off the queue.
    pub fn take_due_scan(&mut self, now: u64) -> (r: Option<PendingScan>)
        ensures
            match old(self)@.pending_scan {
                Some(p) if p.1 <= now => r is Some && (r->Some_0.generation, r->Some_0.due, r->Some_0.full_tree) == p
                    && final(self)@ == (AppModel { pending_scan: None, ..old(self)@ }),
                _ => r is None && final(self)@ == old(self)@,
            },
    {
        let due = match &self.pending_scan {
            Some(p) => p.due <= now,
            None => false,
        };
        if due { self.pending_scan.take() } else { None }
    }

    /// The open note.
    pub fn current_file(&self) -> (r: Option<EntryId>)
        ensures
            opt_string_view(r) == self@.current_file,
    {
        match &self.current_file {
            Some(c) => Some(owned(c.as_str())),
            None => None,
        }
    }

    /// The text of the open note as last read from or written to disk.
    pub fn disk_text(&self) -> (r: String)
        ensures
            r@ == self@.disk_text,
    {
        owned(self.disk_text.as_str())
    }

    /// Whether the open note has unsaved edits.
    pub fn is_dirty(&self) -> (r: bool)
        ensures
            r == self@.dirty,
    {
        self.dirty
    }

    /// Whether the open note is in conflict with the disk.
    pub fn has_conflict(&self) -> (r: bool)
        ensures
            r == self@.external_conflict,
    {
        self.external_conflict
    }

    /// The id of the tree row `index`.
    pub fn tree_id(&self, index: usize) -> (r: Option<EntryId>)
        ensures
            match r {
                Some(id) => index < self@.tree_ids.len() && id@ == self@.tree_ids[index as int],
                None => index >= self@.tree_ids.len(),
            },
    {
        if index < self.tree_ids.len() { Some(owned(self.tree_ids[index].as_str())) } else { None }
    }

    /// The search result `index`.
    pub fn search_result(&self, index: usize) -> (r: Option<EntryId>)
        ensures
            match r {
                Some(id) => index < self@.search_results.len() && id@ == self@.search_results[index as int],
                None => index >= self@.search_results.len(),
            },
    {
        if index < self.search_results.len() { Some(owned(self.search_results[index].as_str())) } else { None }
    }
}

/// `entry_index` finds the first entry with the id, and `None` only when no
/// entry has it.
pub proof fn lemma_entry_index(entries: Seq<EntryModel>, id: Seq<char>)
    ensures
        match entry_index(entries, id) {
            Some(i) => 0 <= i < entries.len() && entries[i].0 == id && forall|j: int| 0 <= j < i ==> entries[j].0 != id,
            None => forall|j: int| 0 <= j < entries.len() ==> entries[j].0 != id,
        },
{
    if exists|i: int| 0 <= i < entries.len() && entries[i].0 == id {
        let k = choose|i: int| 0 <= i < entries.len() && entries[i].0 == id;
        lemma_first_entry(entries, id, k);
    }
}

proof fn lemma_first_entry(entries: Seq<EntryModel>, id: Seq<char>, k: int)
    requires
        0 <= k < entries.len(),
        entries[k].0 == id,
    ensures
        exists|i: int| 0 <= i < entries.len() && entries[i].0 == id && forall|j: int| 0 <= j < i ==> entries[j].0 != id,
    decreases k,
{
    if exists|j: int| 0 <= j < k && entries[j].0 == id {
        let j = choose|j: int| 0 <= j < k && entries[j].0 == id;
        lemma_first_entry(entries, id, j);
    }
}

/// Every id of a list after `old` became `new`.
fn rebase_ids(v: &Vec<EntryId>, old: &str, new: &str) -> (r: Vec<EntryId>)
    ensures
        id_views(r@) == crate::navigation::rebased_ids(id_views(v@), old@, new@),
{
    let mut r: Vec<EntryId> = Vec::new();
    let mut i: usize = 0;
    while i < v.len()
        invariant
            i <= v.len(),
            id_views(r@) == crate::navigation::rebased_ids(id_views(v@.take(i as int)), old@, new@),
        decreases v.len() - i,
    {
        let x = crate::navigation::rebase_id(v[i].as_str(), old, new);
        let ghost prev = r@;
        r.push(x);
        proof {
            assert(id_views(r@) =~= id_views(prev).push(x@));
            assert(id_views(v@.take(i + 1)) =~= id_views(v@.take(i as int)).push(v@[i as int]@));
            assert(crate::navigation::rebased_ids(id_views(v@.take(i + 1)), old@, new@) =~= crate::navigation::rebased_ids(id_views(v@.take(i as int)), old@, new@).push(rebased_id(v@[i as int]@, old@, new@)));
        }
        i += 1;
    }
    proof {
        assert(v@.take(v@.len() as int) =~= v@);
    }
    r
}

/// The ids of a list that are neither `root` nor beneath it.
fn ids_outside_of(v: &Vec<EntryId>, root: &str) -> (r: Vec<EntryId>)
    ensures
        id_views(r@) == crate::navigation::ids_outside(id_views(v@), root@),
{
    let mut r: Vec<EntryId> = Vec::new();
    let mut i: usize = 0;
    while i < v.len()
        invariant
            i <= v.len(),
            id_views(r@) == crate::navigation::ids_outside(id_views(v@.take(i as int)), root@),
        decreases v.len() - i,
    {
        let under = crate::navigation::id_is_at_or_under(v[i].as_str(), root);
        proof {
            assert(id_views(v@.take(i + 1)).drop_last() =~= id_views(v@.take(i as int)));
            assert(id_views(v@.take(i + 1)).last() == v@[i as int]@);
        }
        if !under {
            let ghost prev = r@;
            r.push(owned(v[i].as_str()));
            proof {
                assert(id_views(r@) =~= id_views(prev).push(v@[i as int]@));
            }
        }
        i += 1;
    }
    proof {
        assert(v@.take(v@.len() as int) =~= v@);
    }
    r
}

/// A copy of a list of ids.
fn copy_ids(v: &Vec<EntryId>) -> (r: Vec<EntryId>)
    ensures
        id_views(r@) == id_views(v@),
{
    let mut r: Vec<EntryId> = Vec::new();
    let mut i: usize = 0;
    while i < v.len()
        invariant
            i <= v.len(),
            id_views(r@) == id_views(v@.take(i as int)),
        decreases v.len() - i,
    {
        let ghost prev = r@;
        r.push(owned(v[i].as_str()));
        proof {
            assert(id_views(r@) =~= id_views(prev).push(v@[i as int]@));
            assert(id_views(v@.take(i + 1)) =~= id_views(v@.take(i as int)).push(v@[i as int]@));
        }
        i += 1;
    }
    proof {
        assert(v@.take(v@.len() as int) =~= v@);
    }
    r
}

/// The number of notes (not folders) of a scanned tree.
fn count_notes(v: &Vec<WorkspaceEntry>) -> (r: usize)
    ensures
        r == crate::backend_state::note_ids(entries_model(v@)).len(),
{
    let mut n: usize = 0;
    let mut i: usize = 0;
    while i < v.len()
        invariant
            i <= v.len(),
            n == crate::backend_state::note_ids(entries_model(v@.take(i as int))).len(),
            n <= i,
        decreases v.len() - i,
    {
        proof {
            assert(entries_model(v@.take(i + 1)).drop_last() =~= entries_model(v@.take(i as int)));
            assert(entries_model(v@.take(i + 1)).last() == entry_model(v@[i as int]));
        }
        if v[i].kind == EntryKind::File {
            n += 1;
        }
        i += 1;
    }
    proof {
        assert(v@.take(v@.len() as int) =~= v@);
    }
    n
}

/// Every folder that encloses the entry after a listed prefix is a folder
/// of that prefix.
proof fn lemma_enclosing_are_folders(entries: Seq<EntryModel>, expanded: Set<Seq<char>>, selected: Option<Seq<char>>)
    ensures
        forall|k: int| 0 <= k < tree_fold(entries, expanded, selected).1.len()
            ==> folder_ids(entries).contains(#[trigger] tree_fold(entries, expanded, selected).1[k]),
    decreases entries.len(),
{
    if entries.len() > 0 {
        let prefix = entries.drop_last();
        lemma_enclosing_are_folders(prefix, expanded, selected);
        let anc = tree_fold(prefix, expanded, selected).1;
        let e = entries.last();
        let enclosing = enclosing_folders(anc, e.3);
        let next = tree_fold(entries, expanded, selected).1;
        assert forall|k: int| 0 <= k < next.len() implies folder_ids(entries).contains(#[trigger] next[k]) by {
            if k < enclosing.len() {
                assert(next[k] == enclosing[k]);
                assert(enclosing[k] == anc[k]);
                assert(folder_ids(prefix).contains(anc[k]));
                let j = choose|j: int| 0 <= j < prefix.len() && prefix[j].2 == EntryKind::Directory && prefix[j].0 == anc[k];
                assert(entries[j] == prefix[j]);
            } else {
                assert(next[k] == e.0 && e.2 == EntryKind::Directory);
                assert(entries[entries.len() - 1] == e);
            }
        }
    }
}

/// With every folder of the tree expanded, every entry is shown, in order.
pub proof fn law_expanded_tree_shows_every_entry(entries: Seq<EntryModel>, expanded: Set<Seq<char>>, selected: Option<Seq<char>>)
    requires
        folder_ids(entries).subset_of(expanded),
    ensures
        tree_fold(entries, expanded, selected).0.map_values(|r: TreeRow| r.1) == entries.map_values(|e: EntryModel| e.0),
    decreases entries.len(),
{
    if entries.len() > 0 {
        let prefix = entries.drop_last();
        assert forall|x: Seq<char>| folder_ids(prefix).contains(x) implies expanded.contains(x) by {
            let j = choose|j: int| 0 <= j < prefix.len() && prefix[j].2 == EntryKind::Directory && prefix[j].0 == x;
            assert(entries[j] == prefix[j]);
            assert(folder_ids(entries).contains(x));
        }
        law_expanded_tree_shows_every_entry(prefix, expanded, selected);
        lemma_enclosing_are_folders(prefix, expanded, selected);
        let (rows, anc) = tree_fold(prefix, expanded, selected);
        let e = entries.last();
        let enclosing = enclosing_folders(anc, e.3);
        assert forall|k: int| 0 <= k < enclosing.len() implies expanded.contains(enclosing[k]) by {
            assert(enclosing[k] == anc[k]);
            assert(folder_ids(prefix).contains(anc[k]));
        }
        assert(all_expanded(enclosing, expanded));
        let row = (row_label(e, expanded, selected), e.0);
        assert(rows.push(row).map_values(|r: TreeRow| r.1) =~= rows.map_values(|r: TreeRow| r.1).push(e.0));
        assert(entries.map_values(|x: EntryModel| x.0) =~= prefix.map_values(|x: EntryModel| x.0).push(e.0));
    }
}

/// The first tree taken in shows every one of its entries: all its folders
/// start expanded.
pub proof fn law_first_tree_is_fully_expanded(m: AppModel, entries: Seq<EntryModel>)
    requires
        !m.expansion_initialized,
    ensures
        tree_rows(entries_applied(m, entries)).map_values(|r: TreeRow| r.1) == entries.map_values(|e: EntryModel| e.0),
{
    let m2 = entries_applied(m, entries);
    assert(folder_ids(entries).subset_of(m2.expanded));
    law_expanded_tree_shows_every_entry(entries, m2.expanded, m2.selected);
}

/// Two scan requests before either runs make one scan: due at the earlier
/// time, of the whole tree if either asked for it.
pub proof fn law_scan_requests_merge(m: AppModel, now1: u64, delay1: u64, full1: bool, now2: u64, delay2: u64, full2: bool)
    requires
        m.workspace_open,
        m.pending_scan is None,
    ensures
        ({
            let m2 = scan_scheduled(scan_scheduled(m, now1, delay1, full1), now2, delay2, full2);
            let d1 = sat_add(now1, delay1);
            let d2 = sat_add(now2, delay2);
            m2.pending_scan == Some((m2.scan_generation, if d1 <= d2 { d1 } else { d2 }, full1 || full2))
        }),
{
}

/// A scan older than the latest request changes nothing.
pub proof fn law_stale_scan_changes_nothing(m: AppModel, generation: u64, entries: Option<Result<Seq<EntryModel>, Seq<char>>>, checked: Option<Seq<char>>, text: Option<Result<Seq<char>, Seq<char>>>, now: u64)
    requires
        generation != m.scan_generation,
    ensures
        scan_applied(m, generation, entries, checked, text, now) == (m, ScanReport::Stale),
{
}

/// A scan never replaces or closes a note with unsaved edits: the note, its
/// baseline and its dirty flag stay, and a change on disk is reported as a
/// conflict.
pub proof fn law_scan_never_discards_unsaved_edits(m: AppModel, generation: u64, entries: Option<Result<Seq<EntryModel>, Seq<char>>>, checked: Option<Seq<char>>, text: Option<Result<Seq<char>, Seq<char>>>, now: u64)
    requires
        m.dirty,
        m.current_file is Some,
    ensures
        ({
            let (m2, report) = scan_applied(m, generation, entries, checked, text, now);
            &&& m2.current_file == m.current_file
            &&& m2.disk_text == m.disk_text
            &&& m2.dirty
            &&& !(report matches ScanReport::Applied(_, NoteReport::Removed))
            &&& !(report matches ScanReport::Applied(_, NoteReport::Reloaded))
        }),
{
}

/// Opening another note with history and then stepping back returns to the
/// note that was open.
pub proof fn law_open_then_back_returns(m: AppModel, id: Seq<char>, contents: Seq<char>, now: u64)
    requires
        m.current_file is Some,
        m.current_file != Some(id),
    ensures
        history_stepped(note_opened(m, id, contents, true, now), false).1
            == Ok::<Option<Seq<char>>, Blocked>(m.current_file),
{
}


/// A delete takes two requests: the first request for an entry only arms
/// it, and a second request within the confirmation window confirms it.
pub proof fn law_delete_needs_two_requests(m: AppModel, t1: u64, t2: u64)
    requires
        m.delete_armed is None,
        t1 <= t2,
        t2 - t1 < DELETE_CONFIRM_MS,
    ensures
        ({
            let (m1, first) = delete_requested(m, t1);
            &&& !(first is Confirmed)
            &&& (first matches DeleteDecision::Armed(id) ==> delete_requested(m1, t2).1 == DeleteDecision::Confirmed(id))
        }),
{
}

} // verus!

verus! {

/// The preview of `source` for request `generation`, as the preview worker
/// builds it: the blocks and images of `preview_document`, the hash of the
/// source it was made from, and for each Mermaid block (and only those) its
/// rendering in the preview's dark theme under the diagram id
/// `markerup-<generation>-<block index>`. The elapsed time is left at zero
/// for the caller that timed the work.
pub fn preview_job(generation: u64, source: &str) -> (r: PreviewResult)
    ensures
        r.generation == generation,
        r.source_hash == fnv1a(vstd::utf8::encode_utf8(source@)),
        r.elapsed_ms == 0,
        match crate::preview::markdown_tree(source@) {
            Some(tree) => {
                &&& crate::preview::block_models(r.blocks@) == crate::preview::document_blocks(tree)
                &&& crate::preview::image_models(r.images@) == crate::preview::images_in(
                    tree,
                    crate::preview::definitions_in(tree),
                )
            },
            None => r.blocks@.len() == 0 && r.images@.len() == 0,
        },
        r.mermaid_svgs@.len() == r.blocks@.len(),
        forall|i: int|
            0 <= i < r.blocks@.len() ==> match #[trigger] r.mermaid_svgs@[i] {
                Some(outcome) => {
                    &&& r.blocks@[i].kind is Mermaid
                    &&& crate::mermaid::outcome_view(outcome) == crate::mermaid::render_outcome(
                        crate::mermaid::mermaid_rendering(
                            crate::mermaid::normalized_mermaid(r.blocks@[i].markdown@, true),
                            crate::mermaid::dark_theme_json(),
                            crate::mermaid::preview_diagram_id(generation, i as nat),
                        ),
                        "no Mermaid diagram found"@,
                    )
                },
                None => !(r.blocks@[i].kind is Mermaid),
            },
{
    let document = crate::preview::preview_document(source);
    let blocks = document.blocks;
    let images = document.images;
    let mut mermaid_svgs: Vec<Option<Result<String, String>>> = Vec::new();
    let mut i: usize = 0;
    while i < blocks.len()
        invariant
            i <= blocks@.len(),
            mermaid_svgs@.len() == i,
            forall|j: int|
                0 <= j < i ==> match #[trigger] mermaid_svgs@[j] {
                    Some(outcome) => {
                        &&& blocks@[j].kind is Mermaid
                        &&& crate::mermaid::outcome_view(outcome) == crate::mermaid::render_outcome(
                            crate::mermaid::mermaid_rendering(
                                crate::mermaid::normalized_mermaid(blocks@[j].markdown@, true),
                                crate::mermaid::dark_theme_json(),
                                crate::mermaid::preview_diagram_id(generation, j as nat),
                            ),
                            "no Mermaid diagram found"@,
                        )
                    },
                    None => !(blocks@[j].kind is Mermaid),
                },
        decreases blocks@.len() - i,
    {
        let rendering = match blocks[i].kind {
            crate::preview::PreviewBlockKind::Mermaid => {
                let id = crate::mermaid::preview_mermaid_id(generation, i);
                Some(crate::mermaid::render_preview_mermaid(blocks[i].markdown.as_str(), id.as_str()))
            },
            _ => None,
        };
        mermaid_svgs.push(rendering);
        i = i + 1;
    }
    PreviewResult {
        generation,
        source_hash: hash_text(source),
        blocks,
        mermaid_svgs,
        images,
        elapsed_ms: 0,
    }
}


/// The message under a preview block about its Mermaid rendering: nothing
/// for other blocks or a drawn diagram, the renderer's error, or a note that
/// the rendering is missing.
pub open spec fn mermaid_message_text(is_mermaid: bool, rendering: Option<Result<Seq<char>, Seq<char>>>) -> Seq<char> {
    if !is_mermaid {
        Seq::empty()
    } else {
        match rendering {
            Some(Ok(_)) => Seq::empty(),
            Some(Err(error)) => "Mermaid error: "@ + error,
            None => "Mermaid render result was missing"@,
        }
    }
}

/// The rendering of block `i` among `svgs`, its texts taken by their views;
/// `None` past the end.
pub open spec fn rendering_at(svgs: Seq<Option<Result<String, String>>>, i: int) -> Option<Result<Seq<char>, Seq<char>>> {
    if 0 <= i < svgs.len() {
        match svgs[i] {
            Some(outcome) => Some(crate::mermaid::outcome_view(outcome)),
            None => None,
        }
    } else {
        None
    }
}

/// The messages under the blocks of a preview about their Mermaid renderings,
/// block by block.
pub fn mermaid_messages(
    blocks: &Vec<crate::preview::PreviewBlock>,
    svgs: &Vec<Option<Result<String, String>>>,
) -> (r: Vec<String>)
    ensures
        r@.len() == blocks@.len(),
        forall|i: int|
            0 <= i < blocks@.len() ==> (#[trigger] r@[i])@ == mermaid_message_text(
                blocks@[i].kind is Mermaid,
                rendering_at(svgs@, i),
            ),
{
    let mut r: Vec<String> = Vec::new();
    let mut i: usize = 0;
    while i < blocks.len()
        invariant
            i <= blocks@.len(),
            r@.len() == i,
            forall|j: int|
                0 <= j < i ==> (#[trigger] r@[j])@ == mermaid_message_text(
                    blocks@[j].kind is Mermaid,
                    rendering_at(svgs@, j),
                ),
        decreases blocks@.len() - i,
    {
        let is_mermaid = match blocks[i].kind {
            crate::preview::PreviewBlockKind::Mermaid => true,
            _ => false,
        };
        let message = if !is_mermaid {
            String::new()
        } else if i < svgs.len() {
            match &svgs[i] {
                Some(Ok(_)) => String::new(),
                Some(Err(error)) => {
                    let mut m = owned("Mermaid error: ");
                    crate::text::push_str(&mut m, error.as_str());
                    m
                },
                None => owned("Mermaid render result was missing"),
            }
        } else {
            owned("Mermaid render result was missing")
        };
        proof {
            assert(message@ =~= mermaid_message_text(is_mermaid, rendering_at(svgs@, i as int)));
        }
        r.push(message);
        i = i + 1;
    }
    r
}

/// An image that the preview lists: the asset it shows, its label, and the
/// image block that shows it, when there is one.
pub struct PreviewImage {
    pub asset_id: EntryId,
    pub label: String,
    pub block_index: Option<usize>,
}

/// A listed image as the specifications see it.
pub type PreviewImageModel = (Seq<char>, Seq<char>, Option<usize>);

impl PreviewImage {
    pub open spec fn model(self) -> PreviewImageModel {
        (self.asset_id@, self.label@, self.block_index)
    }
}

/// The index of the first of `blocks[..n]` whose image leads to `destination`.
pub open spec fn first_image_block(blocks: Seq<crate::preview::PreviewBlock>, destination: Seq<char>, n: int) -> Option<usize>
    decreases n,
{
    if n <= 0 {
        None
    } else {
        match first_image_block(blocks, destination, n - 1) {
            Some(i) => Some(i),
            None => match blocks[n - 1].image {
                Some(image) => if image.destination@ == destination {
                    Some((n - 1) as usize)
                } else {
                    None
                },
                None => None,
            },
        }
    }
}

/// `id` is the asset of one of `listed`.
pub open spec fn lists_asset(listed: Seq<PreviewImageModel>, id: Seq<char>) -> bool {
    exists|j: int| 0 <= j < listed.len() && (#[trigger] listed[j]).0 == id
}

/// The images that the preview lists from the first `n` image references, in
/// order: each reference whose destination resolved to an asset
/// (`resolved[k]`), once per asset, labelled with its alternative text, or
/// with the asset's id where that text is empty.
pub open spec fn listed_images(
    images: Seq<crate::preview::ImageReference>,
    resolved: Seq<Option<EntryId>>,
    blocks: Seq<crate::preview::PreviewBlock>,
    n: int,
) -> Seq<PreviewImageModel>
    decreases n,
{
    if n <= 0 {
        Seq::empty()
    } else {
        let before = listed_images(images, resolved, blocks, n - 1);
        if n - 1 < resolved.len() && n - 1 < images.len() {
            match resolved[n - 1] {
                Some(id) => if lists_asset(before, id@) {
                    before
                } else {
                    let label = if images[n - 1].alt@.len() == 0 { id@ } else { images[n - 1].alt@ };
                    before.push((id@, label, first_image_block(blocks, images[n - 1].destination@, blocks.len() as int)))
                },
                None => before,
            }
        } else {
            before
        }
    }
}

fn first_image_block_exec(blocks: &Vec<crate::preview::PreviewBlock>, destination: &str) -> (r: Option<usize>)
    ensures
        r == first_image_block(blocks@, destination@, blocks@.len() as int),
{
    let mut i: usize = 0;
    while i < blocks.len()
        invariant
            i <= blocks@.len(),
            first_image_block(blocks@, destination@, i as int) is None,
        decreases blocks@.len() - i,
    {
        let found = match &blocks[i].image {
            Some(image) => crate::text::str_eq(image.destination.as_str(), destination),
            None => false,
        };
        if found {
            proof {
                lemma_first_image_block_from(blocks@, destination@, i as int + 1, blocks@.len() as int);
            }
            return Some(i);
        }
        i = i + 1;
    }
    None
}

proof fn lemma_first_image_block_from(blocks: Seq<crate::preview::PreviewBlock>, destination: Seq<char>, m: int, n: int)
    requires
        0 < m <= n,
        first_image_block(blocks, destination, m) is Some,
    ensures
        first_image_block(blocks, destination, n) == first_image_block(blocks, destination, m),
    decreases n - m,
{
    if m < n {
        lemma_first_image_block_from(blocks, destination, m, n - 1);
    }
}

/// The images that the preview lists, in order of their references; see
/// `listed_images`. `resolved[k]` is the asset that reference `k` leads to
/// from the open note, when it leads to one.
pub fn preview_images(
    images: &Vec<crate::preview::ImageReference>,
    resolved: &Vec<Option<EntryId>>,
    blocks: &Vec<crate::preview::PreviewBlock>,
) -> (r: Vec<PreviewImage>)
    ensures
        r@.map_values(|p: PreviewImage| p.model()) == listed_images(
            images@,
            resolved@,
            blocks@,
            images@.len() as int,
        ),
{
    let mut r: Vec<PreviewImage> = Vec::new();
    let mut k: usize = 0;
    while k < images.len()
        invariant
            k <= images@.len(),
            r@.map_values(|p: PreviewImage| p.model()) == listed_images(images@, resolved@, blocks@, k as int),
        decreases images@.len() - k,
    {
        let ghost before = r@.map_values(|p: PreviewImage| p.model());
        if k < resolved.len() {
            match &resolved[k] {
                Some(id) => {
                    let mut seen = false;
                    let mut j: usize = 0;
                    while j < r.len()
                        invariant
                            j <= r@.len(),
                            before == r@.map_values(|p: PreviewImage| p.model()),
                            seen == (exists|x: int| 0 <= x < j && (#[trigger] before[x]).0 == id@),
                        decreases r@.len() - j,
                    {
                        if crate::text::str_eq(r[j].asset_id.as_str(), id.as_str()) {
                            seen = true;
                        }
                        proof {
                            assert(before[j as int] == r@[j as int].model());
                        }
                        j = j + 1;
                    }
                    if !seen {
                        let label = if images[k].alt.as_str().is_empty() {
                            owned(id.as_str())
                        } else {
                            owned(images[k].alt.as_str())
                        };
                        let block_index = first_image_block_exec(blocks, images[k].destination.as_str());
                        r.push(PreviewImage { asset_id: owned(id.as_str()), label, block_index });
                        proof {
                            assert(r@.map_values(|p: PreviewImage| p.model()) =~= before.push(
                                r@[r@.len() - 1].model(),
                            ));
                        }
                    }
                },
                None => {},
            }
        }
        k = k + 1;
    }
    r
}
} // verus!
