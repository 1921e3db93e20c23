use litepad::migrate::{check_old_images_exist, migrate_old_image};

#[test]
fn migration_describes_the_image() {
    let migrated = migrate_old_image("C:/Users/me/photo.JPG", &[1, 2, 3]);
    assert_eq!(migrated.hash, "039058c6f2c0cb492c533b0a4d14ef77cc0f78abccced5287d84a1a2011cfb81");
    assert_eq!(migrated.ext, ".JPG");
    assert_eq!(migrated.size, 3);
    assert_eq!(
        migrated.new_url,
        "litepad://images/039058c6f2c0cb492c533b0a4d14ef77cc0f78abccced5287d84a1a2011cfb81.JPG"
    );
    assert_eq!(
        migrated.filename(),
        "039058c6f2c0cb492c533b0a4d14ef77cc0f78abccced5287d84a1a2011cfb81.JPG"
    );
}

#[test]
fn a_path_without_extension_is_stored_as_png() {
    assert_eq!(migrate_old_image("C:\\pics\\noext", &[]).ext, ".png");
    assert_eq!(migrate_old_image("C:\\pics.d\\noext", &[]).ext, ".png");
    assert_eq!(migrate_old_image("C:\\pics\\.hidden", &[]).ext, ".png");
    assert_eq!(migrate_old_image("C:\\pics\\archive.tar.gz", &[]).ext, ".gz");
    assert_eq!(migrate_old_image("C:\\pics\\dot.", &[]).ext, ".");
}

#[test]
fn same_content_from_two_files_is_one_blob() {
    let first = migrate_old_image("C:/a/one.png", &[7, 7, 7]);
    let second = migrate_old_image("D:\\\\b\\\\two.png", &[7, 7, 7]);
    assert_eq!(first.hash, second.hash);
    assert_eq!(first.ext, second.ext);
    assert_eq!(first.size, second.size);
    assert_eq!(first.new_url, second.new_url);
    assert_eq!(first.filename(), second.filename());
}

#[test]
fn existence_answers_keep_order_and_length() {
    let paths = vec!["a".to_string(), "missing".to_string(), "b".to_string()];
    let found = check_old_images_exist(&paths, |p: &str| p == "a" || p == "b");
    assert_eq!(found, vec![true, false, true]);
}

#[test]
fn existence_is_asked_of_each_path_as_given() {
    let paths = vec![
        "C:/x//y.png".to_string(),
        "C:\\x\\y.png".to_string(),
        "a/b".to_string(),
        "a\\b".to_string(),
        "\\\\server\\share\\z.png".to_string(),
    ];
    let found = check_old_images_exist(&paths, |p: &str| {
        p == "C:/x//y.png" || p == "a/b" || p == "\\\\server\\share\\z.png"
    });
    assert_eq!(found, vec![true, false, true, false, true]);
    assert_eq!(check_old_images_exist(&Vec::new(), |_: &str| true), Vec::<bool>::new());
}

#[test]
fn the_extension_is_that_of_the_path_as_given() {
    assert_eq!(migrate_old_image("C:/pics/a.gif", &[]).ext, ".gif");
    assert_eq!(migrate_old_image("C:\\pics\\a.gif", &[]).ext, ".gif");
    assert_eq!(migrate_old_image("/home/me/pics.d/raw", &[]).ext, ".png");
    assert_eq!(migrate_old_image("\\\\server\\share\\z.webp", &[]).ext, ".webp");
}
