use markerup::app_state::{
    mermaid_messages, preview_images, preview_row, AppState, Blocked, DeleteStep, NoteCheck, ScanOutcome, ScanResult,
    SearchOutcome, SearchResult, TreeSelection, DELETE_CONFIRM_MS,
};
use markerup::backend::hash_text;
use markerup::preview::{ImageReference, PreviewBlock, PreviewBlockKind};
use markerup::workspace::{EntryKind, WorkspaceEntry};

fn entry(id: &str, kind: EntryKind, depth: usize) -> WorkspaceEntry {
    WorkspaceEntry {
        id: id.to_string(),
        name: id.rsplit('/').next().unwrap().to_string(),
        kind,
        depth,
    }
}

fn tree() -> Vec<WorkspaceEntry> {
    vec![
        entry("a", EntryKind::Directory, 0),
        entry("a/b", EntryKind::Directory, 1),
        entry("a/b/deep.md", EntryKind::File, 2),
        entry("a/note.md", EntryKind::File, 1),
        entry("top.md", EntryKind::File, 0),
    ]
}

fn scan(generation: u64, entries: Option<Vec<WorkspaceEntry>>, file: Option<&str>, text: Option<&str>) -> ScanResult {
    ScanResult {
        generation,
        entries: entries.map(Ok),
        current_file: file.map(str::to_string),
        current_text: text.map(|t| Ok(t.to_string())),
        elapsed_ms: 0,
    }
}

#[test]
fn first_tree_shows_every_entry_expanded() {
    let mut state = AppState::new(true, false);
    state.apply_entries(tree());
    let labels = state.render_tree();
    assert_eq!(
        labels,
        vec![
            "  ▼ a",
            "      ▼ b",
            "            deep.md",
            "        note.md",
            "    top.md",
        ]
    );
    assert_eq!(state.tree_id(2).as_deref(), Some("a/b/deep.md"));
}

#[test]
fn collapsing_a_folder_hides_what_it_holds() {
    let mut state = AppState::new(true, false);
    state.apply_entries(tree());
    state.render_tree();
    assert!(matches!(state.tree_selected(1), TreeSelection::Folder));
    let labels = state.render_tree();
    assert_eq!(labels, vec!["  ▼ a", "•     ▶ b", "        note.md", "    top.md"]);
    // Expanding it again shows its note.
    assert!(matches!(state.tree_selected(1), TreeSelection::Folder));
    assert_eq!(state.render_tree().len(), 5);
    match state.tree_selected(4) {
        TreeSelection::Open(id) => assert_eq!(id, "top.md"),
        _ => panic!("a note row opens the note"),
    }
    assert!(matches!(state.tree_selected(9), TreeSelection::Nothing));
}

#[test]
fn later_trees_keep_the_expansion() {
    let mut state = AppState::new(true, false);
    state.apply_entries(tree());
    state.render_tree();
    state.tree_selected(0);
    state.apply_entries(tree());
    assert_eq!(state.render_tree(), vec!["• ▶ a", "    top.md"]);
}

#[test]
fn scan_requests_merge_into_one() {
    let mut state = AppState::new(true, false);
    state.schedule_current_file_check(1000, 500);
    state.schedule_scan(1100, 100);
    assert!(state.take_due_scan(1199).is_none());
    let pending = state.take_due_scan(1200).unwrap();
    assert!(pending.full_tree);
    assert_eq!(pending.due, 1200);
    let mut closed = AppState::new(false, false);
    closed.schedule_scan(0, 0);
    assert!(closed.take_due_scan(10).is_none());
}

#[test]
fn blank_searches_clear_the_results() {
    let mut state = AppState::new(true, false);
    let generation = state.schedule_search("milk".to_string(), 0);
    assert!(state.take_due_search(249).is_none());
    assert_eq!(state.take_due_search(250).unwrap().query, "milk");
    let outcome = state.apply_search_result(SearchResult {
        generation,
        results: Ok(vec!["a.md".to_string()]),
        cancelled: false,
        elapsed_ms: 0,
    });
    assert!(matches!(outcome, SearchOutcome::Results(ref v) if v == &vec!["a.md".to_string()]));
    assert_eq!(state.search_result(0).as_deref(), Some("a.md"));
    let stale = state.apply_search_result(SearchResult {
        generation: generation + 7,
        results: Ok(Vec::new()),
        cancelled: false,
        elapsed_ms: 0,
    });
    assert!(matches!(stale, SearchOutcome::Dropped));
    state.schedule_search("   ".to_string(), 10);
    assert!(state.search_result(0).is_none());
    assert!(state.take_due_search(10_000).is_none());
}

#[test]
fn opening_notes_records_history_and_dirty_notes_block_leaving() {
    let mut state = AppState::new(true, false);
    state.open_note("a.md", "alpha".to_string(), true, 0);
    state.open_note("b.md", "beta".to_string(), true, 0);
    assert_eq!(state.editor_changed("beta!"), Some(true));
    assert!(!state.may_open("a.md"));
    assert!(state.may_open("b.md"));
    assert_eq!(state.step_history(false).unwrap_err(), Blocked::UnsavedChanges);
    assert_eq!(state.editor_changed("beta"), Some(false));
    assert_eq!(state.step_history(false).unwrap().as_deref(), Some("a.md"));
    assert_eq!(state.step_history(true).unwrap().as_deref(), Some("b.md"));
    assert!(state.step_history(true).unwrap().is_none());
}

#[test]
fn saves_need_a_note_and_no_unforced_conflict() {
    let mut state = AppState::new(true, false);
    assert_eq!(state.save_target(false).unwrap_err(), Blocked::NoNote);
    state.open_note("a.md", "alpha".to_string(), true, 0);
    state.apply_entries(vec![entry("a.md", EntryKind::File, 0)]);
    state.editor_changed("alpha 2");
    let outcome = state.apply_scan_result(scan(0, None, Some("a.md"), Some("changed")), 5);
    assert!(matches!(outcome, ScanOutcome::Applied(None, NoteCheck::ConflictChanged)));
    assert!(state.has_conflict());
    assert_eq!(state.save_target(false).unwrap_err(), Blocked::Conflict);
    assert_eq!(state.save_target(true).unwrap(), "a.md");
    state.note_saved("alpha 2");
    assert!(!state.is_dirty());
    assert!(!state.has_conflict());
    assert_eq!(state.disk_text(), "alpha 2");
}

#[test]
fn scans_reload_clean_notes_and_close_removed_ones() {
    let mut state = AppState::new(true, false);
    state.open_note("a.md", "alpha".to_string(), true, 0);
    state.schedule_scan(0, 0);
    let generation = state.take_due_scan(0).unwrap().generation;
    let outcome = state.apply_scan_result(
        scan(generation, Some(vec![entry("a.md", EntryKind::File, 0)]), Some("a.md"), Some("alpha 2")),
        7,
    );
    assert!(matches!(outcome, ScanOutcome::Applied(Some(1), NoteCheck::Reloaded)));
    assert_eq!(state.disk_text(), "alpha 2");
    assert_eq!(state.take_due_preview(7).unwrap().source, "alpha 2");
    let outcome = state.apply_scan_result(scan(generation, Some(Vec::new()), None, None), 8);
    assert!(matches!(outcome, ScanOutcome::Applied(Some(0), NoteCheck::Removed)));
    assert!(state.current_file().is_none());
    let stale = state.apply_scan_result(scan(generation + 1, None, None, None), 9);
    assert!(matches!(stale, ScanOutcome::Stale));
    let failed = state.apply_scan_result(
        ScanResult { generation, entries: Some(Err("offline".to_string())), current_file: None, current_text: None, elapsed_ms: 0 },
        9,
    );
    assert!(matches!(failed, ScanOutcome::RefreshFailed(ref e) if e == "offline"));
}

#[test]
fn a_removed_note_with_edits_becomes_a_conflict() {
    let mut state = AppState::new(true, false);
    state.open_note("a.md", "alpha".to_string(), true, 0);
    state.editor_changed("alpha!");
    let outcome = state.apply_scan_result(scan(0, Some(Vec::new()), None, None), 1);
    assert!(matches!(outcome, ScanOutcome::Applied(Some(0), NoteCheck::ConflictRemoved)));
    assert_eq!(state.current_file().as_deref(), Some("a.md"));
    assert!(state.is_dirty());
    assert!(state.has_conflict());
}

#[test]
fn find_next_cycles_through_matches() {
    let mut state = AppState::new(true, false);
    let source = "milk and MILK and milk";
    assert_eq!(state.find_next(source, "milk".to_string()), Some((0, 4, 1, 2)));
    assert_eq!(state.find_next(source, "milk".to_string()), Some((18, 22, 2, 2)));
    assert_eq!(state.find_next(source, "milk".to_string()), Some((0, 4, 1, 2)));
    assert_eq!(state.find_next(source, "MILK".to_string()), Some((9, 13, 1, 1)));
    assert_eq!(state.find_next(source, "bread".to_string()), None);
}

#[test]
fn deletes_need_a_second_request_in_time() {
    let mut state = AppState::new(true, false);
    assert!(matches!(state.request_delete(0), DeleteStep::Blocked(Blocked::NothingSelected)));
    state.apply_entries(tree());
    state.render_tree();
    state.tree_selected(0);
    assert!(matches!(state.request_delete(1_000), DeleteStep::Armed(ref id) if id == "a"));
    assert!(matches!(state.request_delete(1_000 + DELETE_CONFIRM_MS), DeleteStep::Armed(_)));
    assert!(matches!(state.request_delete(1_000 + DELETE_CONFIRM_MS + 10), DeleteStep::Confirmed(ref id) if id == "a"));
}

#[test]
fn deleting_a_folder_closes_the_note_beneath_it() {
    let mut state = AppState::new(true, false);
    state.open_note("a/note.md", "n".to_string(), true, 0);
    state.open_note("top.md", "t".to_string(), true, 0);
    state.open_note("a/b/deep.md", "d".to_string(), true, 0);
    assert!(state.current_is_under("a"));
    state.entry_deleted("a");
    assert!(state.current_file().is_none());
    assert_eq!(state.step_history(false).unwrap().as_deref(), Some("top.md"));
}

#[test]
fn renames_follow_the_selection_and_the_history() {
    let mut state = AppState::new(true, false);
    state.open_note("a/note.md", "n".to_string(), true, 0);
    state.open_note("a/b/deep.md", "d".to_string(), true, 0);
    state.entry_renamed("a", "z");
    assert_eq!(state.current_file().as_deref(), Some("z/b/deep.md"));
    assert_eq!(state.mutation_target().unwrap(), "z/b/deep.md");
    assert_eq!(state.step_history(false).unwrap().as_deref(), Some("z/note.md"));
}

#[test]
fn new_entries_go_beside_the_selection() {
    let mut state = AppState::new(true, false);
    assert_eq!(state.selected_parent(), "");
    state.apply_entries(tree());
    state.render_tree();
    state.tree_selected(1);
    assert_eq!(state.selected_parent(), "a/b");
    state.open_note("a/note.md", "n".to_string(), true, 0);
    assert_eq!(state.selected_parent(), "a");
    state.folder_created("a/new", "a");
    // The new folder is not in the tree until the next scan.
    assert_eq!(state.selected_parent(), "a");
    state.apply_entries(vec![entry("a", EntryKind::Directory, 0), entry("a/new", EntryKind::Directory, 1)]);
    assert_eq!(state.selected_parent(), "a/new");
}

#[test]
fn previews_mark_the_note_dirty_by_hash() {
    let mut state = AppState::new(true, false);
    let generation = state.open_note("a.md", "alpha".to_string(), true, 0);
    assert!(state.preview_is_current(generation));
    state.preview_applied(hash_text("alpha!"));
    assert!(state.is_dirty());
    state.preview_applied(hash_text("alpha"));
    assert!(!state.is_dirty());
    state.clear_current();
    assert!(!state.preview_is_current(generation));
}

#[test]
fn preview_rows_carry_kind_codes() {
    let block = |kind: PreviewBlockKind| PreviewBlock { kind, markdown: "x".to_string(), image: None, task_offset: None };
    let heading = preview_row(&block(PreviewBlockKind::Heading(2)));
    assert_eq!((heading.kind_code, heading.heading_level, heading.task_checked), (1, 2, false));
    assert!(heading.styled);
    let task = preview_row(&block(PreviewBlockKind::Task(true)));
    assert_eq!((task.kind_code, task.task_checked), (2, true));
    let ordered = preview_row(&block(PreviewBlockKind::List(true)));
    assert_eq!(ordered.kind_code, 10);
    let mermaid = preview_row(&block(PreviewBlockKind::Mermaid));
    assert_eq!(mermaid.kind_code, 3);
    assert_eq!(mermaid.plain_text, "");
    assert!(!mermaid.styled);
    assert!(!preview_row(&block(PreviewBlockKind::Rule)).styled);
    assert_eq!(preview_row(&block(PreviewBlockKind::Table)).kind_code, 9);
}


fn block(kind: PreviewBlockKind, image: Option<(&str, &str)>) -> PreviewBlock {
    PreviewBlock {
        kind,
        markdown: String::new(),
        image: image.map(|(alt, destination)| ImageReference {
            alt: alt.to_string(),
            destination: destination.to_string(),
        }),
        task_offset: None,
    }
}

#[test]
fn mermaid_blocks_report_errors_and_missing_renderings() {
    let blocks = vec![
        block(PreviewBlockKind::Body, None),
        block(PreviewBlockKind::Mermaid, None),
        block(PreviewBlockKind::Mermaid, None),
        block(PreviewBlockKind::Mermaid, None),
        block(PreviewBlockKind::Mermaid, None),
    ];
    let svgs = vec![
        None,
        Some(Ok("<svg/>".to_string())),
        Some(Err("Parse error".to_string())),
        None,
    ];
    assert_eq!(
        mermaid_messages(&blocks, &svgs),
        vec![
            String::new(),
            String::new(),
            "Mermaid error: Parse error".to_string(),
            "Mermaid render result was missing".to_string(),
            "Mermaid render result was missing".to_string(),
        ]
    );
}

#[test]
fn preview_images_are_listed_once_with_labels() {
    let image = |alt: &str, destination: &str| ImageReference {
        alt: alt.to_string(),
        destination: destination.to_string(),
    };
    let images = vec![
        image("Logo", "logo.png"),
        image("", "assets/chart.png"),
        image("Again", "./logo.png"),
        image("Gone", "missing.png"),
    ];
    let resolved = vec![
        Some("logo.png".to_string()),
        Some("assets/chart.png".to_string()),
        Some("logo.png".to_string()),
        None,
    ];
    let blocks = vec![
        block(PreviewBlockKind::Body, None),
        block(PreviewBlockKind::Image, Some(("", "assets/chart.png"))),
    ];
    let listed = preview_images(&images, &resolved, &blocks);
    let listed: Vec<(String, String, Option<usize>)> = listed
        .into_iter()
        .map(|item| (item.asset_id, item.label, item.block_index))
        .collect();
    assert_eq!(
        listed,
        vec![
            ("logo.png".to_string(), "Logo".to_string(), None),
            ("assets/chart.png".to_string(), "assets/chart.png".to_string(), Some(1)),
        ]
    );
}
