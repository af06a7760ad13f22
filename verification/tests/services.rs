use markerup::assets::{AssetCache, AssetCacheKey, MAX_CACHED_ASSETS, MAX_CACHED_ASSET_BYTES};
use markerup::backend::{
    asset_data_url, favorite_label, hash_text, mime_type, note_matches, privacy_policy_url,
    search_query, smb_keychain_account,
};
use markerup::backend_state::BackendState;
use markerup::mermaid::{
    is_hex_color, mermaid_render_outcome, mermaid_theme_json, normalize_mermaid_for_render,
    normalize_mermaid_source, preview_mermaid_id, render_mermaid_svg, render_preview_mermaid,
};
use markerup::app_state::preview_job;
use markerup::preview::PreviewBlockKind;
use markerup::persistence::{
    clamp_active_favorite, decode_hex, decode_text, load_legacy_session, session_from_stored,
    SavedFavorite, SavedSmbConfig, SavedWorkspace, LEGACY_SESSION_HEADER, PREVIOUS_SESSION_HEADER,
};

#[test]
fn asset_cache_reuses_entries_and_evicts_oldest_entries() {
    let mut cache = AssetCache::default();
    let first = AssetCacheKey {
        workspace: "workspace".to_string(),
        id: "first.png".to_string(),
    };
    cache.insert(first.clone(), "data:image/png;base64,first".to_string());
    assert_eq!(cache.get(&first).as_deref(), Some("data:image/png;base64,first"));

    for index in 0..MAX_CACHED_ASSETS {
        cache.insert(
            AssetCacheKey {
                workspace: "workspace".to_string(),
                id: format!("asset-{index}.png"),
            },
            format!("data:image/png;base64,{index}"),
        );
    }

    assert!(cache.len() <= MAX_CACHED_ASSETS);
    assert!(cache.get(&first).is_none());
    cache.clear();
    assert_eq!(cache.len(), 0);
    assert_eq!(cache.used_bytes(), 0);
}

#[test]
fn asset_cache_replaces_entries_and_refuses_oversized_ones() {
    let mut cache = AssetCache::new();
    let key = AssetCacheKey { workspace: "w".into(), id: "a.png".into() };
    cache.insert(key.clone(), "one".into());
    cache.insert(key.clone(), "three".into());
    assert_eq!(cache.len(), 1);
    assert_eq!(cache.used_bytes(), 5);
    assert_eq!(cache.get(&key).as_deref(), Some("three"));
    let big = "x".repeat(MAX_CACHED_ASSET_BYTES + 1);
    cache.insert(AssetCacheKey { workspace: "w".into(), id: "big.png".into() }, big);
    assert_eq!(cache.len(), 1);
}

#[test]
fn asset_cache_keeps_recently_used_entries() {
    let mut cache = AssetCache::new();
    let keep = AssetCacheKey { workspace: "w".into(), id: "keep.png".into() };
    cache.insert(keep.clone(), "keep".into());
    for index in 0..MAX_CACHED_ASSETS - 1 {
        cache.insert(AssetCacheKey { workspace: "w".into(), id: format!("{index}") }, "x".into());
    }
    assert!(cache.get(&keep).is_some());
    cache.insert(AssetCacheKey { workspace: "w".into(), id: "new".into() }, "y".into());
    assert_eq!(cache.len(), MAX_CACHED_ASSETS);
    assert!(cache.get(&keep).is_some());
    assert!(cache.get(&AssetCacheKey { workspace: "w".into(), id: "0".into() }).is_none());
}

#[test]
fn mermaid_source_normalizes_leading_tabs() {
    let source = "---\nconfig:\n\tlayout: elk\n---\nflowchart TD\n\tCell#([Cell#])\nstyle Cell# fill:#fff";
    assert_eq!(
        normalize_mermaid_source(source),
        "---\nconfig:\n  layout: elk\n---\nflowchart TD\n  CellNumber([CellNumber])\nstyle CellNumber fill:#fff"
    );
}

#[test]
fn mermaid_colours_need_a_clean_end_only_in_the_strict_form() {
    assert_eq!(normalize_mermaid_source("a #abcX\r\nb #abcd;\n"), "a NumberabcX\nb #abcd;");
    assert_eq!(normalize_mermaid_for_render("a #abcX"), "a #abcX");
    assert!(is_hex_color(&['#', 'f', 'f', 'f'], 0));
    assert!(!is_hex_color(&['#', 'f', 'f'], 0));
    assert!(mermaid_theme_json(true).contains("#72b7ff"));
    assert!(mermaid_theme_json(false).contains("#2563eb"));
}

#[test]
fn merman_renders_a_flowchart_to_svg() {
    let svg = render_preview_mermaid("flowchart TD\n    A[Start] --> B[Done]", "markerup-test-flowchart")
        .expect("Mermaid flowchart should render");
    assert!(svg.starts_with("<svg"));
    assert!(svg.contains("Start"));
    assert!(svg.contains("Done"));
}

#[test]
fn mermaid_without_a_diagram_is_an_error() {
    assert!(render_mermaid_svg("").is_err());
    assert!(render_mermaid_svg("flowchart TD\n    A --> B").unwrap().starts_with("<svg"));
}

#[test]
fn dark_mermaid_theme_provides_readable_colors() {
    let svg = render_preview_mermaid("flowchart TD\n  A[Start] --> B[Done]", "markerup-dark-theme")
        .expect("valid Mermaid should produce SVG");
    assert!(svg.contains("#f2f2f7") || svg.contains("#f8fafc"));
    assert!(svg.contains("#72b7ff") || svg.contains("#93c5fd"));
}

#[test]
fn renderer_replies_become_render_outcomes() {
    assert_eq!(mermaid_render_outcome(Ok(Some("<svg/>".to_string())), "none"), Ok("<svg/>".to_string()));
    assert_eq!(
        mermaid_render_outcome(Ok(None), "No Mermaid diagram found"),
        Err("No Mermaid diagram found".to_string())
    );
    assert_eq!(
        mermaid_render_outcome(Err("bad syntax".to_string()), "none"),
        Err("bad syntax".to_string())
    );
}

#[test]
fn preview_jobs_render_only_mermaid_blocks() {
    let source = "# Title\n\n```mermaid\nflowchart TD\n  A --> B\n```\n\ntext";
    let result = preview_job(7, source);
    assert_eq!(result.generation, 7);
    assert_eq!(result.source_hash, hash_text(source));
    assert_eq!(result.elapsed_ms, 0);
    assert_eq!(result.mermaid_svgs.len(), result.blocks.len());
    for (block, rendering) in result.blocks.iter().zip(result.mermaid_svgs.iter()) {
        if block.kind == PreviewBlockKind::Mermaid {
            assert!(rendering.as_ref().unwrap().as_ref().unwrap().starts_with("<svg"));
        } else {
            assert!(rendering.is_none());
        }
    }
    assert!(result.blocks.iter().any(|block| block.kind == PreviewBlockKind::Mermaid));
    assert_eq!(preview_mermaid_id(7, 2), "markerup-7-2");
    assert_eq!(preview_mermaid_id(0, 10), "markerup-0-10");
}

#[test]
fn legacy_pinned_workspace_becomes_an_active_favorite() {
    let restored = load_legacy_session(LEGACY_SESSION_HEADER, "/notes\nInbox.md\n\n")
        .expect("legacy session should remain readable");
    assert_eq!(restored.active_favorite, Some(0));
    assert_eq!(restored.current_file.as_deref(), Some("Inbox.md"));
    assert_eq!(
        restored.favorites,
        vec![SavedFavorite {
            workspace: SavedWorkspace::Local { path: "/notes".to_string(), bookmark: None },
        }]
    );
}

#[test]
fn previous_sessions_restore_smb_favorites_and_bookmarks() {
    let hex = |text: &str| text.bytes().map(|b| format!("{b:02x}")).collect::<String>();
    let payload = format!(
        "/notes\n  \n0a0B\n{}\n{}\n{}\n{}\n",
        hex("nas"),
        hex("docs"),
        hex("me"),
        hex("Notes")
    );
    let restored = load_legacy_session(PREVIOUS_SESSION_HEADER, &payload).unwrap();
    assert_eq!(restored.current_file, None);
    assert_eq!(
        restored.favorites[0].workspace,
        SavedWorkspace::Smb(SavedSmbConfig {
            server: "nas".into(),
            share: "docs".into(),
            username: "me".into(),
            remote_path: "Notes".into(),
        })
    );
    let local = load_legacy_session(PREVIOUS_SESSION_HEADER, "/notes\nA.md\n0a0B\n\n\n\n\n").unwrap();
    assert_eq!(
        local.favorites[0].workspace,
        SavedWorkspace::Local { path: "/notes".into(), bookmark: Some(vec![10, 11]) }
    );
    assert!(load_legacy_session(PREVIOUS_SESSION_HEADER, "/notes\nA.md\n").is_none());
    assert!(load_legacy_session("markerup-session-v9", "/notes").is_none());
    assert!(load_legacy_session(LEGACY_SESSION_HEADER, "").is_none());
}

#[test]
fn hex_fields_decode_bytes_and_text() {
    assert_eq!(decode_hex("ff00"), Some(vec![255, 0]));
    assert_eq!(decode_hex("+f"), Some(vec![15]));
    assert_eq!(decode_hex("f"), None);
    assert_eq!(decode_hex(""), None);
    assert_eq!(decode_hex("zz"), None);
    assert_eq!(decode_text("").as_deref(), Some(""));
    assert_eq!(decode_text("c3a9").as_deref(), Some("é"));
    assert_eq!(decode_text("ff"), None);
}

#[test]
fn stored_sessions_keep_only_a_listed_active_favorite() {
    assert_eq!(clamp_active_favorite(Some(2), 2), None);
    assert_eq!(clamp_active_favorite(Some(1), 2), Some(1));
    let session = session_from_stored(Vec::new(), Some(0), Some("a.md".into()));
    assert_eq!(session.active_favorite, None);
    assert_eq!(session.current_file.as_deref(), Some("a.md"));
}

#[test]
fn external_refresh_never_advances_the_save_baseline_without_loading_the_editor() {
    let mut state = BackendState::new();
    state.open_note("note.md".to_string(), "# Original".to_string(), false);
    state.reconcile_disk_change("# External update", false);
    assert_eq!(state.disk_text(), "# Original");
    assert!(state.snapshot().external_conflict);
    state.reconcile_disk_change("# Original", false);
    assert!(!state.snapshot().external_conflict);
    state.reconcile_disk_change("# External update", false);
    state.reconcile_disk_change("# Original", true);
    assert!(state.snapshot().external_conflict);
}

#[test]
fn favorites_are_labelled_by_path_or_share() {
    let local = SavedFavorite {
        workspace: SavedWorkspace::Local { path: "/home/me/notes".into(), bookmark: None },
    };
    assert_eq!(favorite_label(&local), "/home/me/notes");
    let config = SavedSmbConfig {
        server: "nas".into(),
        share: "docs".into(),
        username: "me".into(),
        remote_path: "/Notes/".into(),
    };
    let smb = SavedFavorite { workspace: SavedWorkspace::Smb(config.clone()) };
    assert_eq!(favorite_label(&smb), "smb://nas/docs/Notes");
    let root = SavedFavorite {
        workspace: SavedWorkspace::Smb(SavedSmbConfig { remote_path: "//".into(), ..config.clone() }),
    };
    assert_eq!(favorite_label(&root), "smb://nas/docs");
    assert_eq!(smb_keychain_account(&config), "nas\ndocs\nme\n/Notes/");
}

#[test]
fn search_matches_names_and_contents_within_the_scanned_tree() {
    let query = search_query(" Milk ").unwrap();
    assert_eq!(query, "milk");
    assert!(note_matches("Groceries.md", Some("Buy MILK"), &query));
    assert!(note_matches("nested/Milk.md", None, &query));
    assert!(!note_matches("Other.md", Some("bread"), &query));
    assert_eq!(search_query("  "), None);
}

#[test]
fn images_become_data_urls() {
    assert_eq!(mime_type("a/b.JPEG"), "image/jpeg");
    assert_eq!(mime_type("b.svg"), "image/svg+xml");
    assert_eq!(mime_type("b"), "application/octet-stream");
    assert_eq!(asset_data_url("x.png", b"hi"), "data:image/png;base64,aGk=");
}

#[test]
fn editor_text_hashes_with_fnv1a() {
    assert_eq!(hash_text(""), 0xcbf29ce484222325);
    assert_eq!(hash_text("a"), 0xaf63dc4c8601ec8c);
    assert_ne!(hash_text("a"), hash_text("b"));
}

#[test]
fn the_privacy_policy_is_published_online() {
    assert_eq!(privacy_policy_url(), "https://hunglo2020.github.io/Markerup/privacy-policy/");
}

#[test]
fn asset_data_urls_encode_whole_and_padded_groups() {
    assert_eq!(asset_data_url("x.png", b"hi!\x01"), "data:image/png;base64,aGkhAQ==");
    assert_eq!(asset_data_url("x.png", b""), "data:image/png;base64,");
    assert_eq!(asset_data_url("x.png", &[0xff, 0xfe, 0x3e, 0x3f]), "data:image/png;base64,//4+Pw==");
}
