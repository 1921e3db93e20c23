//! Bringing images that were kept by their path into the image store.

use vstd::prelude::*;
use vstd::string::*;
use crate::blob::{blob_name, blob_reference, blob_url, store_after_save, Store};
use crate::digest::{content_digest, digest_of, is_lower_hex};
use crate::paths::{extension, extension_of};
use crate::text::joined;

verus! {

/// What a migration hands back: the digest, the extension with its dot,
/// the size in bytes, and the reference that replaces the old path.
#[derive(Debug)]
pub struct MigrateImageResult {
    pub hash: String,
    pub ext: String,
    pub size: usize,
    pub new_url: String,
}

/// The extension under which an old image is stored: that of its path,
/// with the dot, or `.png` where the path has none.
pub open spec fn legacy_extension(path: Seq<char>) -> Seq<char> {
    match extension(path) {
        Some(ext) => "."@ + ext,
        None => ".png"@,
    }
}

/// Describes the image that migrating the file at `old_path` stores: the
/// digest of its content, and the extension of its path. The old file is
/// left where it is.
pub fn migrate_old_image(old_path: &str, content: &[u8]) -> (migrated: MigrateImageResult)
    ensures
        migrated.hash@ == content_digest(content@),
        migrated.hash@.len() == 64,
        forall|i: int| 0 <= i < 64 ==> is_lower_hex(#[trigger] migrated.hash@[i]),
        migrated.ext@ == legacy_extension(old_path@),
        migrated.size == content@.len(),
        migrated.new_url@ == blob_reference(content_digest(content@), legacy_extension(old_path@)),
{
    let hash = digest_of(content);
    let ext = match extension_of(old_path) {
        Some(e) => joined(".", e.as_str()),
        None => String::from_str(".png"),
    };
    let new_url = blob_url(hash.as_str(), ext.as_str());
    MigrateImageResult { hash, ext, size: content.len(), new_url }
}

impl MigrateImageResult {
    /// The name of the file in the store.
    pub fn filename(&self) -> (name: String)
        ensures
            name@ == blob_name(self.hash@, self.ext@),
    {
        joined(self.hash.as_str(), self.ext.as_str())
    }
}

/// The store after the file at `old_path`, which holds `content`, was
/// migrated.
pub open spec fn store_after_migration(store: Store, old_path: Seq<char>, content: Seq<u8>) -> Store {
    store_after_save(store, content, legacy_extension(old_path))
}

/// Two old files with the same content and the same extension become one
/// file of the store: the second migration changes nothing, and both are
/// told the same digest and the same reference.
pub proof fn lemma_migration_deduplicates(
    store: Store,
    first_path: Seq<char>,
    second_path: Seq<char>,
    content: Seq<u8>,
)
    requires
        legacy_extension(first_path) == legacy_extension(second_path),
    ensures
        store_after_migration(
            store_after_migration(store, first_path, content),
            second_path,
            content,
        ) == store_after_migration(store, first_path, content),
        blob_reference(content_digest(content), legacy_extension(first_path)) == blob_reference(
            content_digest(content),
            legacy_extension(second_path),
        ),
{
}

/// Whether `answer` is what `probe` says of the file at `path`.
pub open spec fn answered<F: Fn(&str) -> bool>(probe: F, path: Seq<char>, answer: bool) -> bool {
    exists|p: &str| p@ == path && call_ensures(probe, (p,), answer)
}

/// Asks of each old path, as it is given, whether the file is there. The
/// answers come in the order of the paths, one for each.
pub fn check_old_images_exist<F: Fn(&str) -> bool>(paths: &Vec<String>, probe: F) -> (found: Vec<
    bool,
>)
    requires
        forall|p: &str| call_requires(probe, (p,)),
    ensures
        found.len() == paths.len(),
        forall|i: int| 0 <= i < paths.len() ==> answered(probe, paths[i]@, #[trigger] found[i]),
{
    let mut found: Vec<bool> = Vec::new();
    let mut i: usize = 0;
    while i < paths.len()
        invariant
            i <= paths.len(),
            found.len() == i,
            forall|p: &str| call_requires(probe, (p,)),
            forall|j: int| 0 <= j < i ==> answered(probe, paths[j]@, #[trigger] found[j]),
        decreases paths.len() - i,
    {
        let asked: &str = paths[i].as_str();
        let answer = probe(asked);
        assert(answered(probe, paths[i as int]@, answer)) by {
            assert(asked@ == paths[i as int]@ && call_ensures(probe, (asked,), answer));
        }
        found.push(answer);
        i += 1;
    }
    found
}

} // verus!
