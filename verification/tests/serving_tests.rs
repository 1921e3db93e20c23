use litepad::blob::{
    blob_filename, blob_url, content_type, image_response, requested_image, ImageLookup,
};
use litepad::version::{check_for_updates, Release};

#[test]
fn media_types_follow_the_extension() {
    assert_eq!(content_type("a.png"), "image/png");
    assert_eq!(content_type("a.jpg"), "image/jpeg");
    assert_eq!(content_type("a.jpeg"), "image/jpeg");
    assert_eq!(content_type("a.gif"), "image/gif");
    assert_eq!(content_type("a.webp"), "image/webp");
    assert_eq!(content_type("a.svg"), "image/svg+xml");
    assert_eq!(content_type("a.bmp"), "image/bmp");
    assert_eq!(content_type("a.tiff"), "application/octet-stream");
    assert_eq!(content_type("a.PNG"), "application/octet-stream");
    assert_eq!(content_type("a."), "application/octet-stream");
    assert_eq!(content_type("noextension"), "image/png");
    assert_eq!(content_type(".png"), "image/png");
}

#[test]
fn requests_name_what_follows_the_images_prefix() {
    assert_eq!(requested_image("/images/abc.png"), Some("abc.png".to_string()));
    assert_eq!(requested_image("/images/"), Some("".to_string()));
    assert_eq!(requested_image("/images/sub/abc.png"), Some("sub/abc.png".to_string()));
    assert_eq!(requested_image("/images"), None);
    assert_eq!(requested_image("/other/abc.png"), None);
    assert_eq!(requested_image("images/abc.png"), None);
    assert_eq!(requested_image(""), None);
}

#[test]
fn answers_are_404_500_or_200() {
    let missing = image_response(ImageLookup::Missing);
    assert_eq!(missing.status, 404);
    assert!(missing.body.is_empty());
    assert_eq!(missing.content_type, None);
    assert_eq!(missing.cache_control, None);

    let unreadable = image_response(ImageLookup::Unreadable);
    assert_eq!(unreadable.status, 500);
    assert!(unreadable.body.is_empty());
    assert_eq!(unreadable.content_type, None);

    let found = image_response(ImageLookup::Found {
        file_name: "abc.webp".to_string(),
        content: vec![1, 2, 3],
    });
    assert_eq!(found.status, 200);
    assert_eq!(found.body, vec![1, 2, 3]);
    assert_eq!(found.content_type, Some("image/webp"));
    assert_eq!(found.cache_control, Some("max-age=31536000, immutable"));
}

#[test]
fn names_and_references_are_digest_and_extension() {
    assert_eq!(blob_filename("abc", ".png"), "abc.png");
    assert_eq!(blob_filename("abc", ""), "abc");
    assert_eq!(blob_url("abc", ".png"), "litepad://images/abc.png");
}

fn release(tag: &str) -> Release {
    Release {
        tag_name: tag.to_string(),
        html_url: "https://example.invalid/release".to_string(),
        body: Some("notes".to_string()),
        published_at: "2024-05-17T10:00:00Z".to_string(),
    }
}

#[test]
fn a_newer_release_is_an_update() {
    let info = check_for_updates("1.4.2", release("v1.5.0"));
    assert!(info.has_update);
    assert_eq!(info.current_version, "1.4.2");
    assert_eq!(info.latest_version, Some("v1.5.0".to_string()));
    assert_eq!(info.release_url, Some("https://example.invalid/release".to_string()));
    assert_eq!(info.release_notes, Some("notes".to_string()));
    assert_eq!(info.published_at, Some("2024-05-17T10:00:00Z".to_string()));
}

#[test]
fn the_same_release_is_no_update() {
    let mut same = release("v1.4.2");
    same.body = None;
    let info = check_for_updates("1.4.2", same);
    assert!(!info.has_update);
    assert_eq!(info.release_notes, None);
    assert!(!check_for_updates("2.0.0", release("v1.9.9")).has_update);
}
