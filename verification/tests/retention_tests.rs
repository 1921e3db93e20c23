use litepad::retention::{cleanup_old_backups, get_backup_list, BackupDirectory, DirectoryEntry};
use litepad::timestamp::{backup_filename, Timestamp};

fn names(list: &[&str]) -> Vec<String> {
    list.iter().map(|s| s.to_string()).collect()
}

#[test]
fn the_newest_archives_stay() {
    let plan = cleanup_old_backups(
        names(&[
            "litepad_backup_20240101_000000.zip",
            "litepad_backup_20240301_000000.zip",
            "notes.txt",
            "litepad_backup_20240201_000000.zip",
            "litepad_backup_20231231_235959.zip",
        ]),
        2,
    );
    assert_eq!(
        plan.keep,
        names(&["litepad_backup_20240301_000000.zip", "litepad_backup_20240201_000000.zip"])
    );
    assert_eq!(
        plan.prune,
        names(&["litepad_backup_20240101_000000.zip", "litepad_backup_20231231_235959.zip"])
    );
}

#[test]
fn fewer_archives_than_the_limit_all_stay() {
    let plan = cleanup_old_backups(
        names(&["litepad_backup_20240101_000000.zip", "litepad_backup_20240301_000000.zip"]),
        5,
    );
    assert_eq!(
        plan.keep,
        names(&["litepad_backup_20240301_000000.zip", "litepad_backup_20240101_000000.zip"])
    );
    assert!(plan.prune.is_empty());
}

#[test]
fn a_limit_of_zero_keeps_nothing() {
    let plan = cleanup_old_backups(names(&["litepad_backup_20240101_000000.zip"]), 0);
    assert!(plan.keep.is_empty());
    assert_eq!(plan.prune, names(&["litepad_backup_20240101_000000.zip"]));
}

#[test]
fn other_files_are_left_alone() {
    let plan = cleanup_old_backups(
        names(&["data.json", "litepad_backup_x.zip.part", "backup.zip", "images"]),
        0,
    );
    assert!(plan.keep.is_empty());
    assert!(plan.prune.is_empty());
}

#[test]
fn an_empty_directory_has_an_empty_plan() {
    let plan = cleanup_old_backups(Vec::new(), 3);
    assert!(plan.keep.is_empty());
    assert!(plan.prune.is_empty());
}

#[test]
fn after_many_backups_exactly_the_limit_remains() {
    let limit: u32 = 3;
    let mut directory: Vec<String> = Vec::new();
    for minute in 0..10u32 {
        let made = Timestamp::new(2024, 5, 17, 10, minute, 30).unwrap();
        directory.push(backup_filename(&made));
        let plan = cleanup_old_backups(directory.clone(), limit);
        directory = plan.keep;
    }
    assert_eq!(
        directory,
        names(&[
            "litepad_backup_20240517_100930.zip",
            "litepad_backup_20240517_100830.zip",
            "litepad_backup_20240517_100730.zip",
        ])
    );
}

fn holds(files: Vec<DirectoryEntry>) -> BackupDirectory {
    BackupDirectory::Holds { files }
}

fn entry(name: &str, created_at: Option<i64>, size: u64) -> DirectoryEntry {
    DirectoryEntry { name: name.to_string(), created_at, size }
}

#[test]
fn listing_is_newest_first_by_creation_time() {
    let list = get_backup_list(holds(vec![
        entry("litepad_backup_20240101_000000.zip", Some(100), 10),
        entry("readme.md", Some(999), 1),
        entry("litepad_backup_20240301_000000.zip", Some(300), 30),
        entry("litepad_backup_20240201_000000.zip", Some(200), 20),
    ]));
    assert_eq!(list.len(), 3);
    assert_eq!(list[0].filename, "litepad_backup_20240301_000000.zip");
    assert_eq!(list[0].created_at, 300);
    assert_eq!(list[0].size, 30);
    assert_eq!(list[1].filename, "litepad_backup_20240201_000000.zip");
    assert_eq!(list[1].created_at, 200);
    assert_eq!(list[1].size, 20);
    assert_eq!(list[2].filename, "litepad_backup_20240101_000000.zip");
    assert_eq!(list[2].created_at, 100);
    assert_eq!(list[2].size, 10);
}

#[test]
fn unknown_creation_time_counts_as_zero_and_names_break_ties() {
    let list = get_backup_list(holds(vec![
        entry("litepad_backup_20240101_000000.zip", None, 1),
        entry("litepad_backup_20240301_000000.zip", None, 3),
        entry("litepad_backup_20240201_000000.zip", None, 2),
        entry("litepad_backup_20230101_000000.zip", Some(5), 4),
    ]));
    assert_eq!(list.len(), 4);
    assert_eq!(list[0].filename, "litepad_backup_20230101_000000.zip");
    assert_eq!(list[0].created_at, 5);
    assert_eq!(list[1].filename, "litepad_backup_20240301_000000.zip");
    assert_eq!(list[1].created_at, 0);
    assert_eq!(list[2].filename, "litepad_backup_20240201_000000.zip");
    assert_eq!(list[3].filename, "litepad_backup_20240101_000000.zip");
    assert_eq!(list[3].size, 1);
}

#[test]
fn listing_of_a_directory_without_archives_is_empty() {
    assert!(get_backup_list(holds(vec![entry("a.txt", Some(1), 1)])).is_empty());
    assert!(get_backup_list(holds(Vec::new())).is_empty());
}

#[test]
fn without_a_directory_the_listing_is_empty() {
    assert!(get_backup_list(BackupDirectory::NotConfigured).is_empty());
    assert!(get_backup_list(BackupDirectory::Missing).is_empty());
}
