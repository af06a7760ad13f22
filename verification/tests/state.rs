use markerup::navigation::NavigationState;
use markerup::preview_controller::PreviewController;
use markerup::save_coordinator::SaveCoordinator;

#[test]
fn tracks_back_and_forward_navigation() {
    let mut navigation = NavigationState::default();
    navigation.visit(Some("one.md"));
    navigation.visit(Some("two.md"));

    assert_eq!(navigation.go_back(Some("three.md")), Some("two.md".into()));
    assert_eq!(navigation.go_back(Some("two.md")), Some("one.md".into()));
    assert_eq!(navigation.go_forward(Some("one.md")), Some("two.md".into()));
    assert!(navigation.can_go_forward());
}

#[test]
fn rebases_and_removes_nested_paths() {
    let mut navigation = NavigationState::default();
    navigation.visit(Some("folder/note.md"));
    navigation.visit(Some("folder/other.md"));
    navigation.rebase("folder", "renamed");

    assert_eq!(
        navigation.go_back(Some("renamed/current.md")),
        Some("renamed/other.md".into())
    );
    navigation.remove("renamed");
    assert!(!navigation.can_go_back());
}

#[test]
fn coalesces_preview_requests_and_rejects_old_generations() {
    let mut controller = PreviewController::default();
    controller.schedule("old".into(), 0, 0);
    let old_generation = controller.generation();
    controller.schedule("new".into(), 0, 0);
    let pending = controller.take_due(0).unwrap();

    assert_eq!(pending.source, "new");
    assert!(pending.generation > old_generation);
    assert!(!controller.is_pending());
}

#[test]
fn invalidation_cancels_pending_preview() {
    let mut controller = PreviewController::default();
    controller.schedule("source".into(), 0, 0);
    controller.invalidate();

    assert!(controller.take_due(0).is_none());
}

#[test]
fn preview_waits_until_it_is_due() {
    let mut controller = PreviewController::default();
    controller.schedule("source".into(), 250, 1_000);
    assert!(controller.take_due(1_249).is_none());
    assert_eq!(controller.take_due(1_250).unwrap().source, "source");
}

#[test]
fn coalesces_debounced_saves() {
    let mut coordinator = SaveCoordinator::default();
    coordinator.schedule(Some("note.md".into()), true, "old".into(), "disk".into(), 0, 0);
    coordinator.schedule(Some("note.md".into()), true, "new".into(), "disk".into(), 0, 0);
    let pending = coordinator.take_due(0).unwrap();

    assert_eq!(pending.contents, "new");
    assert!(!coordinator.is_pending());
}

#[test]
fn immediate_save_invalidates_pending_work() {
    let mut coordinator = SaveCoordinator::default();
    coordinator.schedule(Some("note.md".into()), true, "contents".into(), "disk".into(), 1_000, 0);
    let generation = coordinator.begin_immediate();

    assert!(!coordinator.is_pending());
    assert_eq!(generation, coordinator.generation());
}

#[test]
fn does_not_dispatch_a_second_save_until_the_first_finishes() {
    let mut coordinator = SaveCoordinator::default();
    coordinator.schedule(Some("note.md".into()), true, "first".into(), "disk".into(), 0, 0);
    let first = coordinator.take_due(0).unwrap();
    coordinator.schedule(Some("note.md".into()), true, "second".into(), "disk".into(), 0, 0);

    assert!(coordinator.take_due(0).is_none());
    coordinator.complete_in_flight(first.generation);
    assert_eq!(coordinator.take_due(0).unwrap().contents, "second");
}

#[test]
fn recognizes_recent_local_save_contents() {
    let mut coordinator = SaveCoordinator::default();
    coordinator.record_local_save("note.md".into(), 1, "written by markerup".into());

    assert!(coordinator.matches_recent_local_save("note.md", "written by markerup"));
    assert!(!coordinator.matches_recent_local_save("note.md", "external edit"));
}

#[test]
fn saves_need_an_open_note_in_an_open_workspace() {
    let mut coordinator = SaveCoordinator::default();
    coordinator.schedule(None, true, "text".into(), "disk".into(), 0, 0);
    coordinator.schedule(Some("note.md".into()), false, "text".into(), "disk".into(), 0, 0);
    assert!(!coordinator.is_pending());
    assert_eq!(coordinator.generation(), 0);
}
