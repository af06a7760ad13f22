use markerup::ios::{backup_names_in_listing, parse_coordinated_listing};
use markerup::listing::{listed_children, sorted_order, ChildRole, DirectoryChild, ListingKind};
use markerup::search_index::{Lookup, SearchIndex};
use markerup::workspace::{EntryKind, WorkspaceEntry};

fn child(name: &str, is_directory: bool) -> DirectoryChild {
    DirectoryChild { name: name.to_string(), is_directory, is_file: !is_directory }
}

#[test]
fn sorting_is_stable_and_by_code_point() {
    let keys: Vec<Vec<char>> = ["b", "a", "B", "a", ""].iter().map(|k| k.chars().collect()).collect();
    assert_eq!(sorted_order(&keys), vec![4, 2, 1, 3, 0]);
}

#[test]
fn listings_sort_by_lowercase_name_and_hide_dot_entries() {
    let children = vec![
        child("zeta.md", false),
        child(".hidden", true),
        child("Alpha", true),
        child("notes.txt", false),
        child("beta.MD", false),
        child(".git", false),
    ];
    let listed = listed_children(&children, ListingKind::Notes);
    assert_eq!(listed, vec![(2, ChildRole::Folder), (4, ChildRole::Item), (0, ChildRole::Item)]);
}

#[test]
fn asset_listings_keep_images_only() {
    let children = vec![child("b.PNG", false), child("a.md", false), child("img", true), child("c.svg", false)];
    let listed = listed_children(&children, ListingKind::Assets);
    assert_eq!(listed, vec![(0, ChildRole::Item), (3, ChildRole::Item), (2, ChildRole::Folder)]);
}

#[test]
fn coordinated_listings_become_sorted_rows() {
    let text = "F:b%20note.md\nD:Archive\nF:Archive/old.md\nA:pic.png\nno colon\r\nF:..";
    let entries = parse_coordinated_listing(text, false).unwrap();
    let rows: Vec<(String, String, EntryKind, usize)> = entries
        .into_iter()
        .map(|e: WorkspaceEntry| (e.id, e.name, e.kind, e.depth))
        .collect();
    assert_eq!(
        rows,
        vec![
            ("Archive".to_string(), "Archive".to_string(), EntryKind::Directory, 0),
            ("Archive/old.md".to_string(), "old.md".to_string(), EntryKind::File, 1),
            ("b note.md".to_string(), "b note.md".to_string(), EntryKind::File, 0),
        ]
    );
    let assets = parse_coordinated_listing(text, true).unwrap();
    assert_eq!(assets.len(), 1);
    assert_eq!(assets[0].id, "pic.png");
    assert!(parse_coordinated_listing("F:%FF", false).is_none());
    assert!(parse_coordinated_listing("A:%FF", false).is_none());
    assert!(parse_coordinated_listing("A:%FF", true).is_none());
    assert!(parse_coordinated_listing("F:%FF", true).unwrap().is_empty());
}

#[test]
fn backup_listings_give_their_file_names() {
    let names = backup_names_in_listing("F:2024-1.md\nD:sub\nF:bad%FF\nF:a%2Eb.md");
    assert_eq!(names, vec!["2024-1.md", "a.b.md"]);
}

#[test]
fn the_search_index_asks_for_each_note_once() {
    let entries = vec![
        WorkspaceEntry { id: "Groceries.md".to_string(), name: "Groceries.md".to_string(), kind: EntryKind::File, depth: 0 },
        WorkspaceEntry { id: "nested".to_string(), name: "nested".to_string(), kind: EntryKind::Directory, depth: 0 },
        WorkspaceEntry { id: "nested/Ideas.md".to_string(), name: "Ideas.md".to_string(), kind: EntryKind::File, depth: 1 },
    ];
    let mut index = SearchIndex::build("/notes".to_string(), &entries);
    assert_eq!(index.len(), 2);
    assert!(index.serves("/notes", " milk "));
    assert!(!index.serves("/notes", "   "));
    assert!(!index.serves("/other", "milk"));
    assert_eq!(index.lookup(0, "groceries"), Lookup::PathMatch);
    assert_eq!(index.lookup(1, "milk"), Lookup::NeedsContent);
    assert!(index.take_content(1, Some("Buy MILK in bulk".to_string()), "milk"));
    assert_eq!(index.lookup(1, "milk"), Lookup::Cached(true));
    assert_eq!(index.lookup(1, "bread"), Lookup::Cached(false));
    assert_eq!(index.note_id(1), "nested/Ideas.md");
    assert!(!index.take_content(0, None, "milk"));
    assert_eq!(index.lookup(0, "milk"), Lookup::Cached(false));
}
