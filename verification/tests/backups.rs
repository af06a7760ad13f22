use markerup::backups::{
    backup_timestamp, is_backup_snapshot_name, month_serial_from_days, retained_backup_names,
    timestamp_day,
};
use markerup::workspace::{backup_directory_id, backup_snapshot_name, WorkspaceError};
use std::collections::HashSet;

fn snapshot_name(day: u128, second_of_day: u128, process_id: u32) -> String {
    let timestamp = (day * 86_400 + second_of_day) * 1_000_000_000;
    backup_snapshot_name(&format!("{timestamp:020}-{process_id}"))
}

#[test]
fn backup_directory_mirrors_note_path_under_markerup() {
    assert_eq!(
        backup_directory_id("games/minecraft.md").unwrap(),
        ".markerup/backups/games/minecraft.md"
    );
    assert_eq!(backup_directory_id("Notes.md").unwrap(), ".markerup/backups/Notes.md");
    assert!(backup_directory_id("../outside.md").is_err());
}

#[test]
fn backup_directory_needs_a_named_note() {
    assert_eq!(backup_directory_id(""), Err(WorkspaceError::NoName));
    assert_eq!(backup_directory_id("/etc/passwd"), Err(WorkspaceError::EscapesWorkspace));
    assert_eq!(backup_directory_id("a/./b.md").unwrap(), ".markerup/backups/a/b.md");
}

#[test]
fn backup_retention_keeps_recent_daily_and_monthly_snapshots() {
    // 1970-06-11 in UTC; the daily window covers June 7-11 and the
    // monthly window covers February-June.
    let today = 161_u128;
    let now = (today * 86_400 + 86_399) * 1_000_000_000;
    let mut names = Vec::new();
    for second in 43_200..43_205 {
        names.push(snapshot_name(today, second, second as u32));
    }
    for day in [157_u128, 158, 159, 160] {
        names.push(snapshot_name(day, 43_200, day as u32));
    }
    for (day, process_id) in [(150_u128, 50), (119, 40), (89, 30), (58, 20)] {
        names.push(snapshot_name(day, 43_200, process_id));
        names.push(snapshot_name(day - 1, 43_200, process_id - 1));
    }
    let outside_window = snapshot_name(30, 43_200, 1);
    names.push(outside_window.clone());
    names.push("README.md".to_string());

    let retained: HashSet<String> = retained_backup_names(&names, now).into_iter().collect();
    let expected: HashSet<_> = names
        .iter()
        .filter(|name| {
            is_backup_snapshot_name(name)
                && *name != &outside_window
                && ![(149_u128, 49), (118, 39), (88, 29), (57, 19)]
                    .iter()
                    .any(|(day, process_id)| *name == &snapshot_name(*day, 43_200, *process_id))
        })
        .cloned()
        .collect();
    assert_eq!(retained, expected);
    assert!(retained.len() <= 15);
    assert!(!retained.contains(&"README.md".to_string()));
}

#[test]
fn repeated_names_are_kept_once_and_crowd_the_recent_window() {
    let newest = snapshot_name(10, 5, 1);
    let older = snapshot_name(10, 1, 1);
    let names = vec![newest.clone(); 5].into_iter().chain([older.clone()]).collect::<Vec<_>>();
    let kept = retained_backup_names(&names, (10 * 86_400 + 10) * 1_000_000_000);
    assert_eq!(kept, vec![newest]);
}

#[test]
fn snapshot_names_record_their_time() {
    assert_eq!(backup_timestamp("00000000000000000042-7.md"), Some(42));
    assert_eq!(backup_timestamp("+5-1.md"), Some(5));
    assert_eq!(backup_timestamp("5.md"), None);
    assert_eq!(backup_timestamp("-1.md"), None);
    assert_eq!(backup_timestamp("x5-1.md"), None);
    assert_eq!(backup_timestamp("340282366920938463463374607431768211456-1.md"), None);
    assert_eq!(
        backup_timestamp("340282366920938463463374607431768211455-1.md"),
        Some(u128::MAX)
    );
    assert!(!is_backup_snapshot_name("12-3.txt"));
}

#[test]
fn days_and_months_follow_the_civil_calendar() {
    assert_eq!(timestamp_day(86_400_000_000_000 * 3 + 5), 3);
    // 1970-01 is month 1970 * 12 + 0.
    assert_eq!(month_serial_from_days(0), 1970 * 12);
    // 2000-03-01 is day 11_017.
    assert_eq!(month_serial_from_days(11_017), 2000 * 12 + 2);
    assert_eq!(month_serial_from_days(11_016), 2000 * 12 + 1);
    // 1969-12-31.
    assert_eq!(month_serial_from_days(-1), 1969 * 12 + 11);
}
