//! The image store: images kept under the digest of their content, and
//! served back by that name.

use vstd::prelude::*;
use vstd::string::*;
use crate::digest::{content_digest, digest_of, is_lower_hex};
use crate::error::Error;
use crate::paths::{extension, extension_of};
use crate::text::{joined, skip_chars, starts_with, str_equal};

verus! {

/// What a save hands back: the digest, the reference URL, the size in
/// bytes, and the extension as it was given.
#[derive(Debug)]
pub struct SaveImageResult {
    pub hash: String,
    pub url: String,
    pub size: usize,
    pub ext: String,
}

/// The name of the file that holds content with this digest: the digest,
/// then the extension with its dot.
pub open spec fn blob_name(hash: Seq<char>, ext: Seq<char>) -> Seq<char> {
    hash + ext
}

/// The reference that stands for an image in a document.
pub open spec fn blob_reference(hash: Seq<char>, ext: Seq<char>) -> Seq<char> {
    "litepad://images/"@ + hash + ext
}

/// The name of the file that holds content with this digest.
pub fn blob_filename(hash: &str, ext: &str) -> (name: String)
    ensures
        name@ == blob_name(hash@, ext@),
{
    joined(hash, ext)
}

/// The reference that stands for an image in a document.
pub fn blob_url(hash: &str, ext: &str) -> (url: String)
    ensures
        url@ == blob_reference(hash@, ext@),
{
    let mut url = String::from_str("litepad://images/");
    url.append(hash);
    url.append(ext);
    url
}

impl SaveImageResult {
    /// The name of the file in the store.
    pub fn filename(&self) -> (name: String)
        ensures
            name@ == blob_name(self.hash@, self.ext@),
    {
        blob_filename(self.hash.as_str(), self.ext.as_str())
    }
}

/// Describes the image that a save of `buffer` stores: the digest is
/// computed from the content, whatever the caller calls it.
pub fn save_image(buffer: &[u8], ext: &str) -> (saved: SaveImageResult)
    ensures
        saved.hash@ == content_digest(buffer@),
        saved.hash@.len() == 64,
        forall|i: int| 0 <= i < 64 ==> is_lower_hex(#[trigger] saved.hash@[i]),
        saved.url@ == blob_reference(content_digest(buffer@), ext@),
        saved.size == buffer@.len(),
        saved.ext@ == ext@,
{
    let hash = digest_of(buffer);
    let url = blob_url(hash.as_str(), ext);
    SaveImageResult { hash, url, size: buffer.len(), ext: String::from_str(ext) }
}

/// Whether a save has to write: only where the store has no file of that
/// name yet.
pub fn write_needed(present: bool) -> (write: bool)
    ensures
        write == !present,
{
    !present
}

/// Checks content that came from elsewhere against the digest it claims.
/// Where the digest of `buffer` is `hash`, the file to store it in is
/// named; where it is not, nothing is to be written.
pub fn save_downloaded_image(hash: &str, ext: &str, buffer: &[u8]) -> (r: Result<String, Error>)
    ensures
        match r {
            Ok(name) => content_digest(buffer@) == hash@ && name@ == blob_name(hash@, ext@),
            Err(e) => content_digest(buffer@) != hash@ && (e matches Error::HashMismatch {
                expected,
                actual,
            } && expected@ == hash@ && actual@ == content_digest(buffer@)),
        },
{
    let computed = digest_of(buffer);
    if str_equal(computed.as_str(), hash) {
        Ok(blob_filename(hash, ext))
    } else {
        Err(Error::HashMismatch { expected: String::from_str(hash), actual: computed })
    }
}

/// The file of an image, where the store has it.
pub fn get_image_path(hash: &str, ext: &str, present: bool) -> (r: Result<String, Error>)
    ensures
        match r {
            Ok(name) => present && name@ == blob_name(hash@, ext@),
            Err(e) => !present && (e matches Error::NotFound { name } && name@ == blob_name(
                hash@,
                ext@,
            )),
        },
{
    let name = blob_filename(hash, ext);
    if present {
        Ok(name)
    } else {
        Err(Error::NotFound { name })
    }
}

/// The files of a store: what each name holds.
pub type Store = Map<Seq<char>, Seq<u8>>;

/// The store after a save of `content`: a file that is there stays as it
/// is, a file that is not is written.
pub open spec fn store_after_save(store: Store, content: Seq<u8>, ext: Seq<char>) -> Store {
    let name = blob_name(content_digest(content), ext);
    if store.dom().contains(name) {
        store
    } else {
        store.insert(name, content)
    }
}

/// The store after a download that claims `hash`: saved where the content
/// has that digest, untouched where it has not.
pub open spec fn store_after_download(
    store: Store,
    hash: Seq<char>,
    ext: Seq<char>,
    content: Seq<u8>,
) -> Store {
    if content_digest(content) == hash {
        store_after_save(store, content, ext)
    } else {
        store
    }
}

/// Saving is idempotent: after a save the store holds a file under the
/// content's name, and saving the same content again, with the same
/// extension, changes nothing.
pub proof fn lemma_save_is_idempotent(store: Store, content: Seq<u8>, ext: Seq<char>)
    ensures
        store_after_save(store, content, ext).dom().contains(
            blob_name(content_digest(content), ext),
        ),
        store_after_save(store_after_save(store, content, ext), content, ext) == store_after_save(
            store,
            content,
            ext,
        ),
{
}

/// A save touches no file but the one it names.
pub proof fn lemma_save_leaves_others(
    store: Store,
    content: Seq<u8>,
    ext: Seq<char>,
    other: Seq<char>,
)
    requires
        other != blob_name(content_digest(content), ext),
    ensures
        store_after_save(store, content, ext).dom().contains(other) == store.dom().contains(other),
        store.dom().contains(other) ==> store_after_save(store, content, ext)[other]
            == store[other],
{
}

/// A download whose content has another digest than it claims leaves the
/// store as it was.
pub proof fn lemma_mismatch_writes_nothing(
    store: Store,
    hash: Seq<char>,
    ext: Seq<char>,
    content: Seq<u8>,
)
    requires
        content_digest(content) != hash,
    ensures
        store_after_download(store, hash, ext, content) == store,
{
}

/// After a download whose content has the digest it claims, the file
/// exists and holds exactly that content, provided the store did not
/// already hold other content under that name.
pub proof fn lemma_verified_download_is_stored(
    store: Store,
    hash: Seq<char>,
    ext: Seq<char>,
    content: Seq<u8>,
)
    requires
        content_digest(content) == hash,
        store.dom().contains(blob_name(hash, ext)) ==> store[blob_name(hash, ext)] == content,
    ensures
        store_after_download(store, hash, ext, content).dom().contains(blob_name(hash, ext)),
        store_after_download(store, hash, ext, content)[blob_name(hash, ext)] == content,
{
}

/// The media type for a file extension, without its dot.
pub open spec fn media_type(ext: Seq<char>) -> Seq<char> {
    if ext == "png"@ {
        "image/png"@
    } else if ext == "jpg"@ || ext == "jpeg"@ {
        "image/jpeg"@
    } else if ext == "gif"@ {
        "image/gif"@
    } else if ext == "webp"@ {
        "image/webp"@
    } else if ext == "svg"@ {
        "image/svg+xml"@
    } else if ext == "bmp"@ {
        "image/bmp"@
    } else {
        "application/octet-stream"@
    }
}

/// The media type under which a file is served: that of its extension,
/// and that of `png` where it has none.
pub open spec fn content_type_of(file_name: Seq<char>) -> Seq<char> {
    match extension(file_name) {
        Some(ext) => media_type(ext),
        None => media_type("png"@),
    }
}

fn media_type_for(ext: &str) -> (r: &'static str)
    ensures
        r@ == media_type(ext@),
{
    if str_equal(ext, "png") {
        "image/png"
    } else if str_equal(ext, "jpg") || str_equal(ext, "jpeg") {
        "image/jpeg"
    } else if str_equal(ext, "gif") {
        "image/gif"
    } else if str_equal(ext, "webp") {
        "image/webp"
    } else if str_equal(ext, "svg") {
        "image/svg+xml"
    } else if str_equal(ext, "bmp") {
        "image/bmp"
    } else {
        "application/octet-stream"
    }
}

/// The media type under which a file is served.
pub fn content_type(file_name: &str) -> (r: &'static str)
    ensures
        r@ == content_type_of(file_name@),
{
    match extension_of(file_name) {
        Some(ext) => media_type_for(ext.as_str()),
        None => media_type_for("png"),
    }
}

/// The file that a request asks for: what follows `/images/` in its path.
pub open spec fn requested_file(uri_path: Seq<char>) -> Option<Seq<char>> {
    if "/images/"@.is_prefix_of(uri_path) {
        Some(uri_path.skip("/images/"@.len() as int))
    } else {
        None
    }
}

/// The file that a request asks for, if its path begins with `/images/`.
pub fn requested_image(uri_path: &str) -> (r: Option<String>)
    ensures
        match r {
            Some(name) => requested_file(uri_path@) == Some(name@),
            None => requested_file(uri_path@) is None,
        },
{
    if starts_with(uri_path, "/images/") {
        proof {
            reveal_strlit("/images/");
        }
        Some(skip_chars(uri_path, 8))
    } else {
        None
    }
}

/// What the store found for a requested image.
pub enum ImageLookup {
    /// The request names no image, or the store has no such file.
    Missing,
    /// The file is there and could not be read.
    Unreadable,
    /// The file and what it holds.
    Found { file_name: String, content: Vec<u8> },
}

/// The answer to a request for an image.
pub struct ImageResponse {
    pub status: u16,
    pub content_type: Option<&'static str>,
    pub cache_control: Option<&'static str>,
    pub body: Vec<u8>,
}

/// The answer to a request for an image: 404 and nothing where the image
/// is missing, 500 and nothing where it could not be read; else 200, the
/// content, its media type, and leave to cache it for a year, since a name
/// never comes to hold other content.
pub fn image_response(lookup: ImageLookup) -> (response: ImageResponse)
    ensures
        match lookup {
            ImageLookup::Missing => response.status == 404 && response.body@.len() == 0
                && response.content_type is None && response.cache_control is None,
            ImageLookup::Unreadable => response.status == 500 && response.body@.len() == 0
                && response.content_type is None && response.cache_control is None,
            ImageLookup::Found { file_name, content } => response.status == 200 && response.body@
                == content@ && (response.content_type matches Some(t) && t@ == content_type_of(
                file_name@,
            )) && (response.cache_control matches Some(c) && c@
                == "max-age=31536000, immutable"@),
        },
{
    match lookup {
        ImageLookup::Missing => ImageResponse {
            status: 404,
            content_type: None,
            cache_control: None,
            body: Vec::new(),
        },
        ImageLookup::Unreadable => ImageResponse {
            status: 500,
            content_type: None,
            cache_control: None,
            body: Vec::new(),
        },
        ImageLookup::Found { file_name, content } => {
            let media = content_type(file_name.as_str());
            ImageResponse {
                status: 200,
                content_type: Some(media),
                cache_control: Some("max-age=31536000, immutable"),
                body: content,
            }
        },
    }
}

} // verus!
