use std::collections::HashMap;

use litepad::blob::{save_downloaded_image, save_image, write_needed, SaveImageResult};
use litepad::migrate::migrate_old_image;

/// A store in memory: what each file name holds, and how often a file was
/// written.
struct Store {
    files: HashMap<String, Vec<u8>>,
    writes: usize,
}

impl Store {
    fn new() -> Store {
        Store { files: HashMap::new(), writes: 0 }
    }

    fn save(&mut self, content: &[u8], ext: &str) -> SaveImageResult {
        let saved = save_image(content, ext);
        self.write_if_needed(saved.filename(), content);
        saved
    }

    fn write_if_needed(&mut self, name: String, content: &[u8]) {
        if write_needed(self.files.contains_key(&name)) {
            self.files.insert(name, content.to_vec());
            self.writes += 1;
        }
    }

    fn download(&mut self, hash: &str, ext: &str, content: &[u8]) -> bool {
        match save_downloaded_image(hash, ext, content) {
            Ok(name) => {
                self.write_if_needed(name, content);
                true
            }
            Err(_) => false,
        }
    }

    fn migrate(&mut self, old_path: &str, content: &[u8]) -> String {
        let migrated = migrate_old_image(old_path, content);
        let name = migrated.filename();
        self.write_if_needed(name.clone(), content);
        name
    }
}

#[test]
fn saving_the_same_content_twice_keeps_one_file() {
    let mut store = Store::new();
    let first = store.save(b"picture", ".png");
    let second = store.save(b"picture", ".png");
    assert_eq!(store.files.len(), 1);
    assert_eq!(store.writes, 1);
    assert_eq!(first.hash, second.hash);
    assert_eq!(first.url, second.url);
    assert_eq!(first.size, second.size);
    assert_eq!(first.ext, second.ext);
    assert_eq!(store.files[&first.filename()], b"picture".to_vec());
}

#[test]
fn the_same_content_under_another_extension_has_the_same_digest() {
    let mut store = Store::new();
    let png = store.save(b"picture", ".png");
    let jpg = store.save(b"picture", ".JPG");
    assert_eq!(png.hash, jpg.hash);
    assert_ne!(png.filename(), jpg.filename());
    assert_eq!(store.files.len(), 2);
}

#[test]
fn other_content_has_another_digest() {
    let mut store = Store::new();
    let a = store.save(b"picture", ".png");
    let b = store.save(b"picturf", ".png");
    assert_ne!(a.hash, b.hash);
    assert_eq!(a.hash.len(), 64);
    assert!(a.hash.chars().all(|c| c.is_ascii_digit() || ('a'..='f').contains(&c)));
    assert_eq!(store.files.len(), 2);
}

#[test]
fn a_mislabelled_download_writes_nothing() {
    let mut store = Store::new();
    let claimed = "deadbeefdeadbeefdeadbeefdeadbeefdeadbeefdeadbeefdeadbeefdeadbeef";
    assert!(!store.download(claimed, ".png", b"picture"));
    assert!(store.files.is_empty());
    assert_eq!(store.writes, 0);
}

#[test]
fn a_verified_download_is_stored_with_its_bytes() {
    let mut store = Store::new();
    let hash = save_image(b"picture", ".png").hash;
    assert!(store.download(&hash, ".png", b"picture"));
    assert_eq!(store.files[&format!("{}.png", hash)], b"picture".to_vec());
    assert!(store.download(&hash, ".png", b"picture"));
    assert_eq!(store.writes, 1);
    assert_eq!(store.files.len(), 1);
}

#[test]
fn two_old_files_with_one_content_become_one_blob() {
    let mut store = Store::new();
    let first = store.migrate("C:/old/a.png", b"same bytes");
    let second = store.migrate("D:\\elsewhere\\b.png", b"same bytes");
    assert_eq!(first, second);
    assert_eq!(store.files.len(), 1);
    assert_eq!(store.writes, 1);
    let third = store.migrate("D:\\elsewhere\\c.jpg", b"same bytes");
    assert_ne!(first, third);
    assert_eq!(store.files.len(), 2);
}
