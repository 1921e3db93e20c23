use litepad::blob::{get_image_path, save_downloaded_image, save_image, write_needed};
use litepad::digest::digest_of;
use litepad::error::Error;

#[test]
fn digest_of_three_bytes_is_the_known_sha256() {
    assert_eq!(
        digest_of(&[0x01, 0x02, 0x03]),
        "039058c6f2c0cb492c533b0a4d14ef77cc0f78abccced5287d84a1a2011cfb81"
    );
}

#[test]
fn digest_of_nothing_is_the_known_sha256() {
    assert_eq!(
        digest_of(&[]),
        "e3b0c44298fc1c149afbf4c8996fb92427ae41e4649b934ca495991b7852b855"
    );
}

#[test]
fn save_describes_the_image() {
    let saved = save_image(&[0x01, 0x02, 0x03], ".png");
    assert_eq!(saved.hash, "039058c6f2c0cb492c533b0a4d14ef77cc0f78abccced5287d84a1a2011cfb81");
    assert_eq!(
        saved.url,
        "litepad://images/039058c6f2c0cb492c533b0a4d14ef77cc0f78abccced5287d84a1a2011cfb81.png"
    );
    assert_eq!(saved.size, 3);
    assert_eq!(saved.ext, ".png");
    assert_eq!(
        saved.filename(),
        "039058c6f2c0cb492c533b0a4d14ef77cc0f78abccced5287d84a1a2011cfb81.png"
    );
}

#[test]
fn second_save_writes_nothing() {
    assert!(write_needed(false));
    assert!(!write_needed(true));
}

#[test]
fn download_with_wrong_digest_is_refused() {
    let claimed = "deadbeefdeadbeefdeadbeefdeadbeefdeadbeefdeadbeefdeadbeefdeadbeef";
    match save_downloaded_image(claimed, ".png", &[1, 2, 3]) {
        Err(Error::HashMismatch { expected, actual }) => {
            assert_eq!(expected, claimed);
            assert_eq!(actual, "039058c6f2c0cb492c533b0a4d14ef77cc0f78abccced5287d84a1a2011cfb81");
        }
        other => panic!("unexpected: {:?}", other),
    }
}

#[test]
fn download_with_right_digest_names_the_file() {
    let hash = "039058c6f2c0cb492c533b0a4d14ef77cc0f78abccced5287d84a1a2011cfb81";
    let name = save_downloaded_image(hash, ".png", &[1, 2, 3]).unwrap();
    assert_eq!(name, "039058c6f2c0cb492c533b0a4d14ef77cc0f78abccced5287d84a1a2011cfb81.png");
}

#[test]
fn missing_image_is_not_found() {
    assert_eq!(get_image_path("abc", ".png", true).unwrap(), "abc.png");
    match get_image_path("abc", ".png", false) {
        Err(Error::NotFound { name }) => assert_eq!(name, "abc.png"),
        other => panic!("unexpected: {:?}", other),
    }
}
