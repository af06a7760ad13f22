use markerup::smb::{
    normalize_remote_path, resolve_asset_link, resolve_markdown_link, resolve_relative_link,
    retry_step, validate_remote_id, validate_remote_path, RetryAction, RetryEvent, RetryState,
    SmbConnectionConfig, SmbPathError,
};
use markerup::workspace::{
    child_id, is_supported_asset, note_file_name, note_heading, renamed_file_name, validate_id,
    validate_name, WorkspaceError,
};

#[test]
fn validates_smb_connection_paths() {
    assert_eq!(normalize_remote_path(" Documents/Notes/ ").unwrap(), "Documents/Notes");
    assert!(normalize_remote_path("../outside").is_err());
    assert!(normalize_remote_path("/absolute").is_err());
    assert!(validate_remote_id("nested/../outside").is_err());
    assert!(validate_remote_id(r"nested\..\outside").is_err());
    assert!(validate_remote_id("./nested/Note.md").is_err());
    assert!(validate_remote_id("nested/Note.md").is_ok());
}

#[test]
fn validates_required_connection_fields_without_connecting() {
    let config = SmbConnectionConfig {
        server: "server.example".into(),
        share: "Documents".into(),
        username: "user".into(),
        password: "secret".into(),
        remote_path: "Notes".into(),
    };
    assert!(config.validate().is_ok());
    assert!(SmbConnectionConfig { server: String::new(), ..config }.validate().is_err());
}

#[test]
fn smb_folder_paths_report_their_first_fault() {
    assert_eq!(validate_remote_path("a/./../b"), Err(SmbPathError::DotComponent));
    assert_eq!(validate_remote_path(r"a\..\b"), Err(SmbPathError::EscapesShare));
    assert_eq!(validate_remote_path("a\0b"), Err(SmbPathError::NotRelativeToShare));
    assert_eq!(validate_remote_path("a//b/"), Ok(()));
    assert_eq!(normalize_remote_path(r"\Docs\Notes\"), Err(SmbPathError::NotRelativeToShare));
    assert_eq!(normalize_remote_path(r"Docs\Notes\").unwrap(), "Docs/Notes/");
}

#[test]
fn smb_connection_details() {
    let config = SmbConnectionConfig {
        server: "nas".into(),
        share: "docs".into(),
        username: "me".into(),
        password: "secret".into(),
        remote_path: "Notes/".into(),
    };
    assert_eq!(config.address(), "nas:445");
    assert_eq!(
        SmbConnectionConfig { server: "nas:1445".into(), ..config.clone() }.address(),
        "nas:1445"
    );
    assert_eq!(config.display_name(), "SMB nas / docs");
    assert_eq!(config.identity(), "smb:nas:docs:Notes/");
    assert_eq!(config.remote_path_of("").unwrap(), "Notes");
    assert_eq!(config.remote_path_of("a/b.md").unwrap(), "Notes/a/b.md");
    assert_eq!(config.remote_path_of("../b.md"), Err(SmbPathError::EscapesWorkspace));
}

#[test]
fn smb_links_resolve_relative_to_the_note() {
    assert_eq!(
        resolve_relative_link("nested/Other.md", "../With Space.md#target"),
        Some(("With Space.md".to_string(), "target".to_string()))
    );
    assert_eq!(resolve_relative_link("Root.md", "../outside.md"), None);
    assert_eq!(resolve_relative_link("a/b.md", "https://example.com"), None);
    assert_eq!(resolve_relative_link("a/b.md", "mailto:me@example.com"), None);
    assert_eq!(resolve_relative_link("a/b.md", "/abs.md"), None);
    let target = resolve_markdown_link("a/b.md", "./c/d.MD?x=1").unwrap();
    assert_eq!(target.id, "a/c/d.MD");
    assert_eq!(target.anchor, None);
    assert!(resolve_markdown_link("a/b.md", "img.png").is_none());
    assert_eq!(resolve_asset_link("a/b.md", "img.png#x").as_deref(), Some("a/img.png"));
}

#[test]
fn note_names_follow_the_markdown_rule() {
    assert_eq!(note_file_name(" Note ").unwrap(), "Note.md");
    assert_eq!(note_file_name("Note.MD").unwrap(), "Note.MD");
    assert_eq!(note_file_name("a/b"), Err(WorkspaceError::InvalidName));
    assert_eq!(validate_name(".."), Err(WorkspaceError::InvalidName));
    assert_eq!(renamed_file_name("x/Old.md", true, "New").unwrap(), "New.md");
    assert_eq!(renamed_file_name("x/Old.md", true, "New.Md").unwrap(), "New.Md");
    assert_eq!(renamed_file_name("x/Old.md", false, "New").unwrap(), "New");
    assert_eq!(note_heading("Renamed.md"), "# Renamed\n");
    assert_eq!(note_heading(".md"), "# .md\n");
    assert_eq!(child_id("", "a.md"), "a.md");
    assert_eq!(child_id("New", "a.md"), "New/a.md");
}

#[test]
fn ids_and_assets_are_checked() {
    assert!(validate_id("../x").is_err());
    assert!(validate_id("a/b").is_ok());
    assert!(is_supported_asset("nested/photo.JPG"));
    assert!(is_supported_asset("diagram.SVG"));
    assert!(!is_supported_asset("readme.txt"));
    assert!(!is_supported_asset(".png"));
}

#[test]
fn reads_and_listings_retry_once_after_reconnecting() {
    let (next, action) = retry_step("list", RetryState::FirstAttempt, RetryEvent::Succeeded);
    assert!(next.is_none() && matches!(action, RetryAction::Deliver));

    let (next, action) =
        retry_step("list", RetryState::FirstAttempt, RetryEvent::Failed("gone".to_string()));
    assert!(matches!(action, RetryAction::Reconnect));
    let state = next.unwrap();
    assert!(matches!(&state, RetryState::Reconnecting(first) if first == "gone"));

    let (next, action) = retry_step("list", state, RetryEvent::Succeeded);
    assert!(matches!(action, RetryAction::Retry));
    let (next, action) = retry_step("list", next.unwrap(), RetryEvent::Failed("still gone".to_string()));
    assert!(next.is_none());
    assert!(matches!(action, RetryAction::Fail(m) if m == "SMB list failed after reconnect: still gone"));

    let (next, action) = retry_step(
        "read",
        RetryState::Reconnecting("timeout".to_string()),
        RetryEvent::Failed("refused".to_string()),
    );
    assert!(next.is_none());
    assert!(matches!(
        action,
        RetryAction::Fail(m) if m == "SMB read failed: timeout; reconnect failed: refused"
    ));
    let (next, action) = retry_step("read", RetryState::Retrying, RetryEvent::Succeeded);
    assert!(next.is_none() && matches!(action, RetryAction::Deliver));
}
