use markerup::markdown::{find_heading_range, find_matches, parse_task_line, slugify, toggle_task_at_offset};
use markerup::preview::{preview_document, preview_of_tree, MdNode, PreviewBlockKind};

#[test]
fn parses_commonmark_and_gfm_blocks() {
    let document = preview_document(
        "# Heading\n\ntext **bold** and [link](https://example.com).\n\n- one\n- two\n\n> quote\n\n```rust\nlet x = 1;\n```\n\n| A | B |\n| - | - |\n| 1 | 2 |\n\n![alt](image.png)\n\n---",
    );
    assert!(matches!(document.blocks[0].kind, PreviewBlockKind::Heading(1)));
    assert!(matches!(document.blocks[1].kind, PreviewBlockKind::Body));
    assert!(matches!(document.blocks[2].kind, PreviewBlockKind::List(false)));
    assert!(matches!(document.blocks[3].kind, PreviewBlockKind::Quote));
    assert!(matches!(document.blocks[4].kind, PreviewBlockKind::Code));
    assert!(matches!(document.blocks[5].kind, PreviewBlockKind::Table));
    assert!(matches!(document.blocks[6].kind, PreviewBlockKind::Image));
    assert!(matches!(document.blocks[7].kind, PreviewBlockKind::Rule));
}

#[test]
fn parses_tasks_and_mermaid_without_line_scanning() {
    let source = "- [ ] todo\n- [x] done\n\n```mermaid\nflowchart TD\n A --> B\n```";
    let blocks = preview_document(source).blocks;
    assert_eq!(blocks[0].kind, PreviewBlockKind::Task(false));
    assert_eq!(blocks[1].kind, PreviewBlockKind::Task(true));
    assert_eq!(blocks[0].task_offset, Some(0));
    assert_eq!(blocks[1].task_offset, source.find("- [x] done"));
    assert_eq!(blocks[2].kind, PreviewBlockKind::Mermaid);
    assert!(blocks[2].markdown.contains("flowchart"));
}

#[test]
fn renders_nested_tasks_as_individual_checkboxes() {
    let source = "- [x] Parent\n  - [ ] Child one\n  - [x] Child two\n- [ ] Sibling";
    let blocks = preview_document(source).blocks;
    assert_eq!(
        blocks
            .iter()
            .map(|block| (block.kind.clone(), block.markdown.clone()))
            .collect::<Vec<_>>(),
        vec![
            (PreviewBlockKind::Task(true), "Parent".to_string()),
            (PreviewBlockKind::Task(false), "Child one".to_string()),
            (PreviewBlockKind::Task(true), "Child two".to_string()),
            (PreviewBlockKind::Task(false), "Sibling".to_string()),
        ]
    );
    assert_eq!(blocks[1].task_offset, source.find("- [ ] Child one"));
    assert_eq!(blocks[2].task_offset, source.find("- [x] Child two"));
}

#[test]
fn collects_images_in_document_order() {
    let refs = preview_document("![one](one.png)\n\n![two](two.png)").images;
    assert_eq!(
        refs.iter().map(|r| r.alt.as_str()).collect::<Vec<_>>(),
        vec!["one", "two"]
    );
}

#[test]
fn preserves_existing_navigation_helpers() {
    assert_eq!(find_matches("one two one", "one"), vec![(0, 3), (8, 11)]);
    assert_eq!(find_heading_range("# Hello World\n", "#hello-world"), Some((2, 13)));
}

#[test]
fn toggles_tasks_without_modifying_fenced_examples() {
    let source = "- [ ] first\n\n```markdown\n- [ ] example\n```\n\n- [x] second\n";
    assert_eq!(
        toggle_task_at_offset(source, 0).as_deref(),
        Some("- [x] first\n\n```markdown\n- [ ] example\n```\n\n- [x] second\n")
    );
    assert_eq!(
        toggle_task_at_offset(source, source.rfind("- [x]").unwrap()).as_deref(),
        Some("- [ ] first\n\n```markdown\n- [ ] example\n```\n\n- [ ] second\n")
    );
}

#[test]
fn preview_command_sends_reference_link_definitions() {
    let source = "[Home][home]\n\n[home]: ../index.md";
    let document = preview_document(source);
    assert_eq!(document.link_definitions, vec!["[home]: ../index.md".to_string()]);
    assert!(!document.blocks.is_empty());
}

#[test]
fn reference_images_resolve_through_definitions() {
    let document = preview_document("![logo][l]\n\n[l]: logo.svg\n\n![missing][none]");
    assert_eq!(document.images.len(), 1);
    assert_eq!(document.images[0].alt, "logo");
    assert_eq!(document.images[0].destination, "logo.svg");
}

#[test]
fn inline_markdown_keeps_styles_and_escapes_angle_brackets() {
    let document = preview_document("a *b* **c** ~~d~~ `e` [f](g) <span>");
    assert_eq!(document.blocks.len(), 1);
    assert_eq!(document.blocks[0].markdown, "a *b* **c** ~~d~~ `e` [f](g) &lt;span&gt;");
}

#[test]
fn ordered_lists_number_from_their_start() {
    let document = preview_document("3. three\n4. four");
    assert_eq!(document.blocks[0].kind, PreviewBlockKind::List(true));
    assert_eq!(document.blocks[0].markdown, "3. three\n4. four");
}

#[test]
fn tables_join_cells_and_rows() {
    let document = preview_document("| A | B |\n| - | - |\n| 1 | 2 |");
    assert_eq!(document.blocks[0].markdown, "A | B\n1 | 2");
}

#[test]
fn front_matter_is_shown_as_code() {
    let document = preview_document("---\ntitle: x\n---\n\n# T");
    assert_eq!(document.blocks[0].kind, PreviewBlockKind::Code);
    assert_eq!(document.blocks[0].markdown, "title: x");
    assert_eq!(document.blocks[1].kind, PreviewBlockKind::Heading(1));
}

#[test]
fn a_tree_that_is_no_root_gives_its_own_blocks() {
    let tree = MdNode::ThematicBreak;
    let document = preview_of_tree("", &tree);
    assert_eq!(document.blocks.len(), 1);
    assert_eq!(document.blocks[0].kind, PreviewBlockKind::Rule);
    assert!(document.images.is_empty());
}

#[test]
fn task_lines_parse_bullets_and_ordinals() {
    assert_eq!(parse_task_line("  - [x] done"), Some((true, "done".to_string())));
    assert_eq!(parse_task_line("12. [ ] later"), Some((false, "later".to_string())));
    assert_eq!(parse_task_line("- plain"), None);
}

#[test]
fn toggling_twice_restores_the_source() {
    let source = "- [ ] one\n";
    let once = toggle_task_at_offset(source, 0).unwrap();
    assert_eq!(once, "- [x] one\n");
    assert_eq!(toggle_task_at_offset(&once, 0).unwrap(), source);
    assert_eq!(toggle_task_at_offset(source, 99), None);
}

#[test]
fn task_lines_inside_fenced_code_are_never_toggled() {
    let source = "- [ ] first\n\n```markdown\n- [ ] example\n```\n";
    assert_eq!(toggle_task_at_offset(source, 25), None);
    let tilde = "~~~\n- [x] kept\n~~~\n- [x] done\n";
    assert_eq!(toggle_task_at_offset(tilde, 4), None);
    assert_eq!(
        toggle_task_at_offset(tilde, tilde.rfind("- [x]").unwrap()).as_deref(),
        Some("~~~\n- [x] kept\n~~~\n- [ ] done\n")
    );
    let unclosed = "```\n- [ ] code\n";
    assert_eq!(toggle_task_at_offset(unclosed, 4), None);
}

#[test]
fn the_items_own_marker_is_toggled() {
    assert_eq!(
        toggle_task_at_offset("- [x] buy [ ] tape", 0).as_deref(),
        Some("- [ ] buy [ ] tape")
    );
    assert_eq!(
        toggle_task_at_offset("  12. [ ] call [x] back", 0).as_deref(),
        Some("  12. [x] call [x] back")
    );
    assert_eq!(toggle_task_at_offset("* [X] upper", 0).as_deref(), Some("* [ ] upper"));
    assert_eq!(toggle_task_at_offset("plain [ ] text", 0), None);
}

#[test]
fn toggling_an_item_twice_restores_a_line_with_more_markers() {
    let source = "- [x] a [ ] b";
    let once = toggle_task_at_offset(source, 0).unwrap();
    assert_eq!(once, "- [ ] a [ ] b");
    assert_eq!(toggle_task_at_offset(&once, 0).unwrap(), source);
}

#[test]
fn slugs_fold_case_and_dashes() {
    assert_eq!(slugify("  Hello,  World -- Again "), "hello-world-again");
    assert_eq!(find_matches("abc", ""), Vec::<(usize, usize)>::new());
    assert_eq!(find_heading_range("text\n## Other\n", "missing"), None);
}

#[test]
fn white_space_is_what_std_reports() {
    for c in (0u32..=0x10ffff).filter_map(char::from_u32) {
        let skipped = markerup::text::skip_ws(&[c], 0);
        assert_eq!(skipped == 1, c.is_whitespace(), "{:?}", c);
    }
}
