use markerup::backend_state::{
    BackendError, BackendState, InstalledWorkspace, ReopenedWorkspace, SmbConnectRequest,
    WorkspaceOrigin,
};
use markerup::persistence::{SavedFavorite, SavedSmbConfig, SavedWorkspace, SessionState};
use markerup::workspace::{EntryKind, WorkspaceEntry};

fn local(path: &str) -> InstalledWorkspace {
    InstalledWorkspace {
        display: path.to_string(),
        origin: WorkspaceOrigin::Local { path: path.to_string() },
    }
}

fn entry(id: &str, kind: EntryKind, depth: usize) -> WorkspaceEntry {
    WorkspaceEntry {
        id: id.to_string(),
        name: id.rsplit('/').next().unwrap().to_string(),
        kind,
        depth,
    }
}

fn tree() -> Vec<WorkspaceEntry> {
    vec![
        entry("Groceries.md", EntryKind::File, 0),
        entry("nested", EntryKind::Directory, 0),
        entry("nested/Ideas.md", EntryKind::File, 1),
        entry("nested/Other.md", EntryKind::File, 1),
    ]
}

#[test]
fn restore_never_replaces_a_workspace_chosen_while_it_ran() {
    let mut state = BackendState::new();
    let pending = state
        .load_saved_session(SessionState {
            favorites: vec![SavedFavorite {
                workspace: SavedWorkspace::Local { path: "/notes".to_string(), bookmark: None },
            }],
            active_favorite: Some(0),
            current_file: Some("Groceries.md".to_string()),
        })
        .unwrap();
    assert!(state.is_restoring());
    // The user picks another workspace before the favorite reopens.
    state.mark_workspace_changed();
    assert!(!state.restore_applies(&pending));
    state.finish_restore(
        pending,
        Some(ReopenedWorkspace { workspace: local("/notes"), bookmark: None, entries: tree() }),
        Some("# Groceries\nmilk".to_string()),
    );
    assert!(state.restored_workspace().is_none());
    assert!(!state.is_restoring());
    let snapshot = state.snapshot();
    assert!(!snapshot.workspace_open);
    assert!(snapshot.current_file.is_none());
}

#[test]
fn waiting_for_restore_returns_immediately_when_none_is_pending() {
    let state = BackendState::new();
    assert!(!state.is_restoring());
    assert!(state.restored_workspace().is_none());
}

#[test]
fn restore_installs_the_favorite_and_its_note() {
    let mut state = BackendState::new();
    let pending = state
        .load_saved_session(SessionState {
            favorites: vec![SavedFavorite {
                workspace: SavedWorkspace::Local { path: "/notes".to_string(), bookmark: None },
            }],
            active_favorite: Some(0),
            current_file: Some("Groceries.md".to_string()),
        })
        .unwrap();
    assert_eq!(pending.current_file(), Some("Groceries.md"));
    assert!(state.restore_applies(&pending));
    state.finish_restore(
        pending,
        Some(ReopenedWorkspace { workspace: local("/notes"), bookmark: None, entries: tree() }),
        Some("# Groceries\nmilk".to_string()),
    );
    let snapshot = state.restored_workspace().unwrap();
    assert_eq!(snapshot.workspace_path, "/notes");
    assert!(snapshot.workspace_favorited);
    assert_eq!(snapshot.current_file.as_deref(), Some("Groceries.md"));
    assert_eq!(snapshot.entries.len(), 4);
    assert_eq!(state.disk_text(), "# Groceries\nmilk");
}

#[test]
fn a_session_without_an_open_favorite_restores_nothing() {
    let mut state = BackendState::new();
    let pending = state.load_saved_session(SessionState {
        favorites: vec![SavedFavorite {
            workspace: SavedWorkspace::Local { path: "/notes".to_string(), bookmark: None },
        }],
        active_favorite: None,
        current_file: None,
    });
    assert!(pending.is_none());
    assert!(!state.is_restoring());
    assert_eq!(state.snapshot().favorites.len(), 1);
    assert_eq!(state.snapshot().favorites[0].label, "/notes");
}

#[test]
fn favoriting_and_unfavoriting_restores_the_favorites() {
    let mut state = BackendState::new();
    assert_eq!(state.set_workspace_favorite(true).unwrap_err(), BackendError::FavoriteNeedsWorkspace);
    state.install_scanned(local("/notes"), None, tree());
    let snapshot = state.set_workspace_favorite(true).unwrap();
    assert!(snapshot.workspace_favorited);
    assert_eq!(snapshot.favorites.len(), 1);
    assert_eq!(snapshot.favorites[0].index, 0);
    assert!(!snapshot.favorites[0].workspace_is_smb);
    // Favoriting again changes nothing.
    let again = state.set_workspace_favorite(true).unwrap();
    assert_eq!(again.favorites.len(), 1);
    let session = state.session_to_persist().unwrap();
    assert_eq!(session.active_favorite, Some(0));
    let snapshot = state.set_workspace_favorite(false).unwrap();
    assert!(!snapshot.workspace_favorited);
    assert!(snapshot.favorites.is_empty());
    assert!(state.session_to_persist().is_none());
}

#[test]
fn smb_shares_are_not_favorited_without_stored_credentials() {
    let mut state = BackendState::new();
    let workspace = InstalledWorkspace {
        display: "SMB nas / docs".to_string(),
        origin: WorkspaceOrigin::Smb(SavedSmbConfig {
            server: "nas".to_string(),
            share: "docs".to_string(),
            username: "me".to_string(),
            remote_path: String::new(),
        }),
    };
    let snapshot = state.install_scanned(workspace, None, Vec::new());
    assert!(snapshot.workspace_is_smb);
    assert_eq!(
        state.set_workspace_favorite(true).unwrap_err(),
        BackendError::SmbCredentialsSessionOnly
    );
    assert!(state.snapshot().favorites.is_empty());
}

#[test]
fn installing_a_saved_favorite_makes_it_active() {
    let mut state = BackendState::new();
    state.load_saved_session(SessionState {
        favorites: vec![
            SavedFavorite { workspace: SavedWorkspace::Local { path: "/a".to_string(), bookmark: None } },
            SavedFavorite { workspace: SavedWorkspace::Local { path: "/b".to_string(), bookmark: None } },
        ],
        active_favorite: None,
        current_file: None,
    });
    let snapshot = state.install_scanned(local("/b"), None, Vec::new());
    assert!(snapshot.workspace_favorited);
    assert_eq!(state.session_to_persist().unwrap().active_favorite, Some(1));
    assert_eq!(state.favorite_folder(0).unwrap(), "/a");
    assert_eq!(state.favorite_folder(5).unwrap_err(), BackendError::NoSuchFavorite);
    assert!(state.favorite(1).is_ok());
}

#[test]
fn smb_favorites_cannot_be_reopened_here() {
    let mut state = BackendState::new();
    state.load_saved_session(SessionState {
        favorites: vec![SavedFavorite {
            workspace: SavedWorkspace::Smb(SavedSmbConfig {
                server: "nas".to_string(),
                share: "docs".to_string(),
                username: "me".to_string(),
                remote_path: "notes".to_string(),
            }),
        }],
        active_favorite: None,
        current_file: None,
    });
    assert_eq!(state.favorite_folder(0).unwrap_err(), BackendError::SmbFavoriteUnavailable);
    assert_eq!(state.snapshot().favorites[0].label, "smb://nas/docs/notes");
    assert!(state.snapshot().favorites[0].workspace_is_smb);
}

#[test]
fn a_conflict_blocks_unforced_saves() {
    let mut state = BackendState::new();
    assert_eq!(state.begin_save(false).err(), Some(BackendError::NoWorkspace));
    state.install_scanned(local("/notes"), None, tree());
    assert_eq!(state.begin_save(false).err(), Some(BackendError::NoNote));
    state.open_note("Groceries.md".to_string(), "milk".to_string(), true);
    let request = state.begin_save(false).unwrap();
    assert_eq!(request.file, "Groceries.md");
    assert_eq!(request.baseline, "milk");
    assert_eq!(
        state.check_before_write(&request, false, "eggs").unwrap_err(),
        BackendError::ExternalConflict
    );
    assert!(state.snapshot().external_conflict);
    assert_eq!(state.begin_save(false).err(), Some(BackendError::ExternalConflict));
    let forced = state.begin_save(true).unwrap();
    assert!(state.check_before_write(&forced, true, "eggs").is_ok());
}

#[test]
fn saved_text_becomes_the_baseline() {
    let mut state = BackendState::new();
    state.install_scanned(local("/notes"), None, tree());
    state.open_note("Groceries.md".to_string(), "milk".to_string(), true);
    let request = state.begin_save(false).unwrap();
    assert!(state.check_before_write(&request, false, "milk").is_ok());
    let snapshot = state.finish_write(&request, "milk and eggs", "milk and eggs", false).unwrap();
    assert!(!snapshot.external_conflict);
    assert_eq!(state.disk_text(), "milk and eggs");
    assert_eq!(state.begin_save(false).unwrap().baseline, "milk and eggs");
}

#[test]
fn a_write_that_reads_back_differently_is_a_conflict() {
    let mut state = BackendState::new();
    state.install_scanned(local("/notes"), None, tree());
    state.open_note("Groceries.md".to_string(), "milk".to_string(), true);
    let request = state.begin_save(false).unwrap();
    assert_eq!(
        state.finish_write(&request, "milk and eggs", "something else", false).unwrap_err(),
        BackendError::ChangedWhileSaving
    );
    assert!(state.snapshot().external_conflict);
    assert_eq!(
        state.finish_write(&request, "milk and eggs", "something else", true).unwrap_err(),
        BackendError::SaveOutcomeUnknown
    );
    assert_eq!(state.disk_text(), "milk");
}

#[test]
fn a_save_superseded_by_another_note_is_refused() {
    let mut state = BackendState::new();
    state.install_scanned(local("/notes"), None, tree());
    state.open_note("Groceries.md".to_string(), "milk".to_string(), true);
    let request = state.begin_save(false).unwrap();
    state.open_note("nested/Ideas.md".to_string(), "ideas".to_string(), true);
    assert_eq!(
        state.complete_save(&request, "milk and eggs").unwrap_err(),
        BackendError::SaveSuperseded
    );
    assert_eq!(state.disk_text(), "ideas");
}

#[test]
fn stale_refreshes_are_dropped() {
    let mut state = BackendState::new();
    state.install_scanned(local("/notes"), None, tree());
    let plan = state.refresh_plan();
    state.mark_workspace_changed();
    let (snapshot, applied) = state.apply_refresh(&plan, None, Vec::new(), false);
    assert!(!applied);
    assert_eq!(snapshot.entries.len(), 4);
    let plan = state.refresh_plan();
    let (snapshot, applied) = state.apply_refresh(&plan, None, Vec::new(), false);
    assert!(applied);
    assert!(snapshot.entries.is_empty());
}

#[test]
fn a_refresh_reports_a_changed_note_without_loading_it() {
    let mut state = BackendState::new();
    state.install_scanned(local("/notes"), None, tree());
    state.open_note("Groceries.md".to_string(), "milk".to_string(), true);
    let plan = state.refresh_plan();
    let (snapshot, applied) = state.apply_refresh(&plan, Some("eggs"), tree(), false);
    assert!(applied);
    assert!(snapshot.external_conflict);
    assert_eq!(state.disk_text(), "milk");
}

#[test]
fn scans_are_published_only_for_the_revision_they_began_at() {
    let mut state = BackendState::new();
    let revision = state.revision();
    state.mark_workspace_changed();
    assert!(!state.publish_entries(revision, tree()));
    assert!(state.snapshot().entries.is_empty());
    assert!(state.publish_entries(state.revision(), tree()));
    assert_eq!(state.snapshot().entries.len(), 4);
}

#[test]
fn renames_moves_and_deletes_follow_the_open_note() {
    let mut state = BackendState::new();
    state.install_scanned(local("/notes"), None, tree());
    state.open_note("nested/Ideas.md".to_string(), "ideas".to_string(), true);
    state.entry_moved("nested", "archive/nested");
    assert_eq!(state.snapshot().current_file.as_deref(), Some("archive/nested/Ideas.md"));
    state.entry_renamed("archive/nested/Ideas.md", "archive/nested/Plans.md");
    assert_eq!(state.snapshot().current_file.as_deref(), Some("archive/nested/Plans.md"));
    // A renamed folder leaves the open note's id as it was.
    state.entry_renamed("archive", "old");
    assert_eq!(state.snapshot().current_file.as_deref(), Some("archive/nested/Plans.md"));
    state.entry_deleted("archive");
    assert!(state.snapshot().current_file.is_none());
    assert_eq!(state.disk_text(), "");
}

#[test]
fn history_steps_back_to_the_previous_note() {
    let mut state = BackendState::new();
    state.install_scanned(local("/notes"), None, tree());
    state.open_note("Groceries.md".to_string(), "milk".to_string(), true);
    state.open_note("nested/Ideas.md".to_string(), "ideas".to_string(), true);
    assert!(state.snapshot().can_go_back);
    assert_eq!(state.step_history(false).as_deref(), Some("Groceries.md"));
    assert!(state.snapshot().can_go_forward);
    assert_eq!(state.step_history(true).as_deref(), Some("nested/Ideas.md"));
}

#[test]
fn search_reads_the_notes_of_the_scanned_tree() {
    let mut state = BackendState::new();
    assert_eq!(state.search_notes().unwrap_err(), BackendError::NoWorkspace);
    state.install_scanned(local("/notes"), None, tree());
    assert_eq!(
        state.search_notes().unwrap(),
        vec!["Groceries.md", "nested/Ideas.md", "nested/Other.md"]
    );
    assert_eq!(state.asset_base().unwrap_err(), BackendError::NoNote);
}

#[test]
fn connect_requests_become_connections_field_for_field() {
    let config = SmbConnectRequest {
        server: "nas".to_string(),
        share: "docs".to_string(),
        username: "me".to_string(),
        password: "pw".to_string(),
        remote_path: "notes".to_string(),
    }
    .into_config();
    assert_eq!(config.server, "nas");
    assert_eq!(config.share, "docs");
    assert_eq!(config.username, "me");
    assert_eq!(config.password, "pw");
    assert_eq!(config.remote_path, "notes");
}

#[test]
fn moving_a_folder_and_back_restores_the_open_note() {
    let mut state = BackendState::new();
    state.install_scanned(local("/notes"), None, tree());
    state.open_note("nested/Ideas.md".to_string(), "ideas".to_string(), true);
    state.entry_moved("nested", "archive/nested");
    state.entry_moved("archive/nested", "nested");
    assert_eq!(state.snapshot().current_file.as_deref(), Some("nested/Ideas.md"));
}

#[test]
fn a_workspace_that_is_no_favorite_is_not_persisted() {
    let mut state = BackendState::new();
    state.load_saved_session(SessionState {
        favorites: vec![SavedFavorite {
            workspace: SavedWorkspace::Local { path: "/a".to_string(), bookmark: None },
        }],
        active_favorite: None,
        current_file: None,
    });
    state.install_scanned(local("/elsewhere"), None, tree());
    state.open_note("Groceries.md".to_string(), "milk".to_string(), true);
    let session = state.session_to_persist().unwrap();
    assert_eq!(session.favorites.len(), 1);
    assert_eq!(session.active_favorite, None);
    assert_eq!(session.current_file, None);
}
