use litepad::backup::{
    backup_entries, create_backup_archive, restore_backup, restore_from_entries, ImageFile,
};
use litepad::archive::ArchiveEntry;
use litepad::error::Error;
use litepad::paths::PathStyle;

fn image(path: &str, data: &[u8]) -> ImageFile {
    ImageFile { relative_path: path.to_string(), data: data.to_vec() }
}

#[test]
fn snapshot_comes_first_and_images_follow_under_their_prefix() {
    let entries = backup_entries("{}", vec![image("a.png", &[1]), image("sub\\b.jpg", &[2, 3])]);
    assert_eq!(entries.len(), 3);
    assert_eq!(entries[0].name, "data.json");
    assert_eq!(entries[0].data, b"{}".to_vec());
    assert_eq!(entries[1].name, "images/a.png");
    assert_eq!(entries[1].data, vec![1]);
    assert_eq!(entries[2].name, "images/sub/b.jpg");
    assert_eq!(entries[2].data, vec![2, 3]);
}

#[test]
fn restore_returns_what_backup_took() {
    let snapshot = "{\"docs\":[\"caf\u{e9}\",\"\u{6587}\u{5b57}\"]}";
    let bytes = create_backup_archive(
        snapshot,
        vec![image("0a.png", &[1, 2, 3]), image("nested/0b.gif", &[]), image("0c", &[9; 1000])],
        PathStyle::Plain,
    )
    .unwrap();
    let restored = restore_backup(bytes, PathStyle::Plain).unwrap();
    assert_eq!(restored.snapshot, snapshot);
    assert_eq!(restored.images.len(), 3);
    assert_eq!(restored.images[0].relative_path, "0a.png");
    assert_eq!(restored.images[0].data, vec![1, 2, 3]);
    assert_eq!(restored.images[1].relative_path, "nested/0b.gif");
    assert_eq!(restored.images[1].data, Vec::<u8>::new());
    assert_eq!(restored.images[2].relative_path, "0c");
    assert_eq!(restored.images[2].data, vec![9; 1000]);
}

#[test]
fn restore_of_no_archive_fails() {
    assert!(matches!(
        restore_backup(b"this is not a zip archive".to_vec(), PathStyle::Plain),
        Err(Error::ArchiveFormat)
    ));
}

#[test]
fn restore_of_a_damaged_archive_fails() {
    let mut bytes =
        create_backup_archive(&"x".repeat(300), vec![image("a.png", &[1])], PathStyle::Plain)
            .unwrap();
    bytes[45] ^= 0xff;
    assert!(matches!(restore_backup(bytes, PathStyle::Plain), Err(Error::Io)));
}

#[test]
fn restore_without_snapshot_fails() {
    let entries = vec![ArchiveEntry { name: "images/a.png".to_string(), data: vec![1] }];
    assert!(matches!(restore_from_entries(entries, PathStyle::Plain), Err(Error::ArchiveFormat)));
}

#[test]
fn restore_of_snapshot_that_is_no_text_fails() {
    let entries = vec![ArchiveEntry { name: "data.json".to_string(), data: vec![0xff, 0xfe] }];
    assert!(matches!(restore_from_entries(entries, PathStyle::Plain), Err(Error::ArchiveFormat)));
}

#[test]
fn restore_skips_directories_and_foreign_entries() {
    let entries = vec![
        ArchiveEntry { name: "images/".to_string(), data: vec![] },
        ArchiveEntry { name: "readme.txt".to_string(), data: vec![7] },
        ArchiveEntry { name: "data.json".to_string(), data: b"first".to_vec() },
        ArchiveEntry { name: "images/sub/".to_string(), data: vec![] },
        ArchiveEntry { name: "images/sub/x.png".to_string(), data: vec![1, 2] },
        ArchiveEntry { name: "data.json".to_string(), data: b"second".to_vec() },
    ];
    let restored = restore_from_entries(entries, PathStyle::Plain).unwrap();
    assert_eq!(restored.snapshot, "first");
    assert_eq!(restored.images.len(), 1);
    assert_eq!(restored.images[0].relative_path, "sub/x.png");
    assert_eq!(restored.images[0].data, vec![1, 2]);
}

#[test]
fn two_images_with_one_entry_name_cannot_be_packed() {
    let result = create_backup_archive(
        "{}",
        vec![image("a\\b.png", &[1]), image("a/b.png", &[2])],
        PathStyle::Plain,
    );
    assert!(result.is_err());
}

fn snapshot_entry(data: &[u8]) -> Vec<ArchiveEntry> {
    vec![ArchiveEntry { name: "data.json".to_string(), data: data.to_vec() }]
}

#[test]
fn only_well_formed_text_is_a_snapshot() {
    let ill_formed: [&[u8]; 8] = [
        &[0x80],
        &[0xc0, 0x80],
        &[0xc3],
        &[0xe0, 0x80, 0x80],
        &[0xed, 0xa0, 0x80],
        &[0xf4, 0x90, 0x80, 0x80],
        &[0xf8, 0x88, 0x80, 0x80, 0x80],
        &[b'a', 0xe2, 0x82],
    ];
    for bytes in ill_formed.iter() {
        assert!(
            matches!(restore_from_entries(snapshot_entry(bytes), PathStyle::Plain), Err(Error::ArchiveFormat)),
            "bytes {:?}",
            bytes
        );
    }
    let well_formed = ["", "a", "\u{7f}", "\u{80}", "\u{7ff}", "\u{800}", "\u{d7ff}", "\u{e000}",
        "\u{ffff}", "\u{10000}", "\u{10ffff}", "\u{0}x"];
    for text in well_formed.iter() {
        let restored = restore_from_entries(snapshot_entry(text.as_bytes()), PathStyle::Plain).unwrap();
        assert_eq!(restored.snapshot, *text);
        assert!(restored.images.is_empty());
    }
}

fn restoring(name: &str, style: PathStyle) -> Result<litepad::backup::RestoredBackup, Error> {
    restore_from_entries(
        vec![
            ArchiveEntry { name: "data.json".to_string(), data: b"{}".to_vec() },
            ArchiveEntry { name: name.to_string(), data: vec![1] },
        ],
        style,
    )
}

#[test]
fn an_image_outside_the_root_is_refused() {
    let outside = [
        "images/../x",
        "images/..",
        "images/a/../../x",
        "images/a/..",
        "images/..\\x",
        "images/a\\..\\x",
        "images//etc/passwd",
        "images/\\server\\share",
    ];
    for name in outside.iter() {
        for style in [PathStyle::Plain, PathStyle::DriveLetters] {
            assert!(matches!(restoring(name, style), Err(Error::ArchiveFormat)), "entry {:?}", name);
        }
    }
}

#[test]
fn a_drive_is_refused_only_where_letters_name_drives() {
    for name in ["images/C:\\Windows\\x", "images/c:x", "images/a:b"] {
        assert!(matches!(restoring(name, PathStyle::DriveLetters), Err(Error::ArchiveFormat)));
        let restored = restoring(name, PathStyle::Plain).unwrap();
        assert_eq!(restored.images.len(), 1);
        assert_eq!(format!("images/{}", restored.images[0].relative_path), name);
    }
}

#[test]
fn an_image_below_the_root_is_restored() {
    let below = [
        ("images/a.png", "a.png"),
        ("images/sub/a.png", "sub/a.png"),
        ("images/..a/b..", "..a/b.."),
        ("images/a..b", "a..b"),
        ("images/.../x", ".../x"),
        ("images/./x", "./x"),
        ("images/1:x", "1:x"),
        ("images/ab:x", "ab:x"),
    ];
    for (name, path) in below.iter() {
        for style in [PathStyle::Plain, PathStyle::DriveLetters] {
            let restored = restoring(name, style).unwrap();
            assert_eq!(restored.images.len(), 1, "entry {:?}", name);
            assert_eq!(restored.images[0].relative_path, *path);
        }
    }
}

#[test]
fn a_file_with_a_colon_in_its_name_is_backed_up_and_restored() {
    let bytes =
        create_backup_archive("text", vec![image("a:b", &[1, 2])], PathStyle::Plain).unwrap();
    let restored = restore_backup(bytes, PathStyle::Plain).unwrap();
    assert_eq!(restored.snapshot, "text");
    assert_eq!(restored.images.len(), 1);
    assert_eq!(restored.images[0].relative_path, "a:b");
    assert_eq!(restored.images[0].data, vec![1, 2]);
}

#[test]
fn a_backup_takes_no_file_that_a_restore_would_refuse() {
    let refused = ["", "dir/", "dir\\", "/abs", "\\abs", "../x", "a/../x", "a\\..", ".."];
    for path in refused.iter() {
        for style in [PathStyle::Plain, PathStyle::DriveLetters] {
            let result = create_backup_archive("{}", vec![image(path, &[1])], style);
            assert!(matches!(result, Err(Error::ArchiveFormat)), "path {:?}", path);
        }
    }
    let drive = create_backup_archive("{}", vec![image("C:x", &[1])], PathStyle::DriveLetters);
    assert!(matches!(drive, Err(Error::ArchiveFormat)));
}

#[test]
fn a_made_backup_restores() {
    let snapshots = ["", "{}", "\u{56fe}\u{7247} \u{1f600}", "line\nline\r\n\t\u{0}"];
    for snapshot in snapshots.iter() {
        let images = vec![
            image("0123.png", &[0, 1, 2]),
            image("sub\\4567.jpg", &[]),
            image("deep/er/89ab", &[5; 3000]),
        ];
        let bytes = create_backup_archive(snapshot, images, PathStyle::Plain).unwrap();
        let restored = restore_backup(bytes, PathStyle::Plain).unwrap();
        assert_eq!(restored.snapshot, *snapshot);
        assert_eq!(restored.images.len(), 3);
        assert_eq!(restored.images[0].relative_path, "0123.png");
        assert_eq!(restored.images[1].relative_path, "sub/4567.jpg");
        assert_eq!(restored.images[2].relative_path, "deep/er/89ab");
        assert_eq!(restored.images[2].data, vec![5; 3000]);
    }
}
