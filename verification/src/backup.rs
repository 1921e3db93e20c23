//! Backups: what goes into an archive and what comes out of one.

use vstd::prelude::*;
use vstd::string::*;
use vstd::utf8::*;
use crate::archive::{
    archives, entries_view, has_repeated_name, packed_archive, read_archive, read_listing,
    write_archive, ArchiveEntry, ArchiveError,
};
use crate::error::Error;
use crate::listing::lemma_filter_push;
use crate::paths::{
    has_parent_component, is_absolute, is_parent_at, is_separator, stays_below, stays_below_root,
    PathStyle,
};
use crate::settings::BackupSettings;
use crate::text::{ends_with, joined, skip_chars, starts_with, str_equal};
use crate::timestamp::{backup_filename, backup_name, Timestamp};

verus! {

/// One file of the image store: its path below the store's root and what
/// it holds.
pub struct ImageFile {
    pub relative_path: String,
    pub data: Vec<u8>,
}

impl View for ImageFile {
    type V = (Seq<char>, Seq<u8>);

    open spec fn view(&self) -> (Seq<char>, Seq<u8>) {
        (self.relative_path@, self.data@)
    }
}

/// A list of image files as paths and contents.
pub open spec fn images_view(images: Seq<ImageFile>) -> Seq<(Seq<char>, Seq<u8>)> {
    Seq::new(images.len(), |i: int| images[i]@)
}

/// What a restore hands back: the snapshot text, and the image files to
/// write below the store's root; a file that is there already is replaced.
pub struct RestoredBackup {
    pub snapshot: String,
    pub images: Vec<ImageFile>,
}

/// The archive entry that holds the snapshot.
pub open spec fn snapshot_name() -> Seq<char> {
    "data.json"@
}

/// What the name of every image entry begins with.
pub open spec fn images_prefix() -> Seq<char> {
    "images/"@
}

/// The path with every backslash turned into a forward slash.
pub open spec fn forward_slashes(path: Seq<char>) -> Seq<char> {
    Seq::new(path.len(), |i: int| if path[i] == '\\' { '/' } else { path[i] })
}

/// The archive entry for the image at `path`.
pub open spec fn image_entry_name(path: Seq<char>) -> Seq<char> {
    images_prefix() + forward_slashes(path)
}

/// The image entries of an archive, for images given in this order.
pub open spec fn image_entries(images: Seq<(Seq<char>, Seq<u8>)>) -> Seq<(Seq<char>, Seq<u8>)> {
    Seq::new(images.len(), |i: int| (image_entry_name(images[i].0), images[i].1))
}

/// The entries of the archive for a snapshot and a set of images: the
/// snapshot's UTF-8 bytes as `data.json` first, then each image under
/// `images/`.
pub open spec fn backup_listing(snapshot: Seq<char>, images: Seq<(Seq<char>, Seq<u8>)>) -> Seq<
    (Seq<char>, Seq<u8>),
> {
    seq![(snapshot_name(), encode_utf8(snapshot))] + image_entries(images)
}

/// Whether an entry is an image to restore: its name begins with `images/`
/// and does not end with a slash.
pub open spec fn is_image_entry(name: Seq<char>) -> bool {
    images_prefix().is_prefix_of(name) && !"/"@.is_suffix_of(name)
}

/// The image files that a restore writes, in the order of their entries.
pub open spec fn restored_images(entries: Seq<(Seq<char>, Seq<u8>)>) -> Seq<(Seq<char>, Seq<u8>)> {
    entries.filter(|e: (Seq<char>, Seq<u8>)| is_image_entry(e.0)).map_values(
        |e: (Seq<char>, Seq<u8>)| (e.0.skip(images_prefix().len() as int), e.1),
    )
}

/// Whether `i` is the first entry with this name.
pub open spec fn is_first_named(entries: Seq<(Seq<char>, Seq<u8>)>, name: Seq<char>, i: int) -> bool {
    &&& 0 <= i < entries.len()
    &&& entries[i].0 == name
    &&& forall|j: int| 0 <= j < i ==> entries[j].0 != name
}

/// The first entry with this name, if there is one.
pub open spec fn first_named(entries: Seq<(Seq<char>, Seq<u8>)>, name: Seq<char>) -> Option<int> {
    if exists|i: int| is_first_named(entries, name, i) {
        Some(choose|i: int| is_first_named(entries, name, i))
    } else {
        None
    }
}

/// Whether every image would be written below the store's root.
pub open spec fn all_below_root(images: Seq<(Seq<char>, Seq<u8>)>, style: PathStyle) -> bool {
    forall|i: int| 0 <= i < images.len() ==> stays_below((#[trigger] images[i]).0, style)
}

/// What a restore yields from an archive's entries: the text of the first
/// `data.json` and the images, where there is a `data.json`, it is UTF-8,
/// and every image would be written below the store's root.
pub open spec fn restore_of(entries: Seq<(Seq<char>, Seq<u8>)>, style: PathStyle) -> Option<
    (Seq<char>, Seq<(Seq<char>, Seq<u8>)>),
> {
    match first_named(entries, snapshot_name()) {
        Some(i) => if valid_utf8(entries[i].1) && all_below_root(restored_images(entries), style) {
            Some((decode_utf8(entries[i].1), restored_images(entries)))
        } else {
            None
        },
        None => None,
    }
}

/// Whether a path can be that of a file below the store's root: it is not
/// empty, does not end with a separator, is not absolute and has no
/// component `..`.
pub open spec fn is_file_path(path: Seq<char>, style: PathStyle) -> bool {
    path.len() > 0 && !is_separator(path.last()) && stays_below(path, style)
}

/// Whether the path of every image can be that of a file below the
/// store's root.
pub open spec fn all_file_paths(images: Seq<(Seq<char>, Seq<u8>)>, style: PathStyle) -> bool {
    forall|i: int| 0 <= i < images.len() ==> is_file_path((#[trigger] images[i]).0, style)
}

/// The library's error for a failure of the archive layer.
pub open spec fn error_of(e: ArchiveError) -> Error {
    match e {
        ArchiveError::Io => Error::Io,
        ArchiveError::Format => Error::ArchiveFormat,
    }
}

fn backup_error(e: ArchiveError) -> (r: Error)
    ensures
        r == error_of(e),
{
    match e {
        ArchiveError::Io => Error::Io,
        ArchiveError::Format => Error::ArchiveFormat,
    }
}

/// The directory that backups go to.
pub fn configured_directory(settings: &BackupSettings) -> (r: Result<String, Error>)
    ensures
        match r {
            Ok(dir) => settings.backup_directory matches Some(d) && dir@ == d@,
            Err(e) => e == Error::Config && settings.backup_directory is None,
        },
{
    match &settings.backup_directory {
        Some(dir) => Ok(dir.clone()),
        None => Err(Error::Config),
    }
}

/// The path with every backslash turned into a forward slash.
pub fn with_forward_slashes(path: &str) -> (r: String)
    ensures
        r@ == forward_slashes(path@),
{
    let n = path.unicode_len();
    let mut out = String::new();
    let mut i: usize = 0;
    while i < n
        invariant
            i <= n,
            n == path@.len(),
            out@ == forward_slashes(path@).take(i as int),
        decreases n - i,
    {
        let c = path.get_char(i);
        if c == '\\' {
            proof {
                reveal_strlit("/");
            }
            out.append("/");
            assert("/"@ =~= seq!['/']);
        } else {
            out.append(path.substring_char(i, i + 1));
            assert(path@.subrange(i as int, i + 1) =~= seq![c]);
        }
        assert(out@ =~= forward_slashes(path@).take(i + 1));
        i += 1;
    }
    assert(forward_slashes(path@).take(n as int) =~= forward_slashes(path@));
    out
}

/// The entries of the archive for a snapshot and the files of the image
/// store: `data.json` with the snapshot's bytes as they are, then one entry
/// under `images/` for each file, in the order given.
pub fn backup_entries(snapshot: &str, images: Vec<ImageFile>) -> (entries: Vec<ArchiveEntry>)
    ensures
        entries_view(entries@) == backup_listing(snapshot@, images_view(images@)),
{
    let mut entries: Vec<ArchiveEntry> = Vec::new();
    entries.push(ArchiveEntry { name: String::from_str("data.json"), data: snapshot.as_bytes_vec() });
    let ghost all = images@;
    let ghost target = backup_listing(snapshot@, images_view(all));
    assert(entries_view(entries@) =~= target.take(1));
    for image in iter: images
        invariant
            iter.seq() == all,
            target == backup_listing(snapshot@, images_view(all)),
            entries.len() == iter.index() + 1,
            entries_view(entries@) == target.take(iter.index() + 1),
    {
        let ghost listed = entries@;
        let ghost k = iter.index() as int;
        let name = joined("images/", with_forward_slashes(image.relative_path.as_str()).as_str());
        entries.push(ArchiveEntry { name, data: image.data });
        proof {
            assert(target[k + 1] == image_entries(images_view(all))[k]);
            assert forall|j: int| 0 <= j < k + 2 implies entries_view(entries@)[j] == target.take(
                k + 2,
            )[j] by {
                if j < k + 1 {
                    assert(entries_view(listed)[j] == target.take(k + 1)[j]);
                }
            }
            assert(entries_view(entries@) =~= target.take(k + 2));
        }
    }
    assert(target.take(all.len() as int + 1) =~= target);
    entries
}

/// Whether a path can be that of a file below the store's root.
pub fn is_file_path_of(path: &str, style: PathStyle) -> (r: bool)
    ensures
        r == is_file_path(path@, style),
{
    let n = path.unicode_len();
    if n == 0 {
        return false;
    }
    let last = path.get_char(n - 1);
    if last == '/' || last == '\\' {
        return false;
    }
    stays_below_root(path, style)
}

/// Whether the path of every image can be that of a file below the
/// store's root.
pub fn are_file_paths(images: &Vec<ImageFile>, style: PathStyle) -> (r: bool)
    ensures
        r == all_file_paths(images_view(images@), style),
{
    let mut i: usize = 0;
    while i < images.len()
        invariant
            i <= images.len(),
            forall|j: int|
                0 <= j < i ==> is_file_path((#[trigger] images_view(images@)[j]).0, style),
        decreases images.len() - i,
    {
        if !is_file_path_of(images[i].relative_path.as_str(), style) {
            assert(!is_file_path(images_view(images@)[i as int].0, style));
            return false;
        }
        i += 1;
    }
    true
}

/// The archive for a snapshot and the files of the image store, as bytes.
/// It is made exactly where every file has a path that a restore accepts
/// and the zip crate can pack the entries into an archive that reads back
/// as those entries. That a path must not be empty, end with a separator,
/// be absolute or hold a `..` is this library's rule: it keeps a restore
/// below the store's root, and no file found below a root has such a path.
pub fn create_backup_archive(snapshot: &str, images: Vec<ImageFile>, style: PathStyle) -> (r:
    Result<Vec<u8>, Error>)
    ensures
        r is Ok <==> all_file_paths(images_view(images@), style) && archives(
            backup_listing(snapshot@, images_view(images@)),
        ),
        has_repeated_name(backup_listing(snapshot@, images_view(images@))) ==> r is Err,
        match r {
            Ok(bytes) => bytes@ == packed_archive(backup_listing(snapshot@, images_view(images@)))
                && read_listing(bytes@) == Some(backup_listing(snapshot@, images_view(images@))),
            Err(e) => e == Error::Io || e == Error::ArchiveFormat,
        },
{
    if !are_file_paths(&images, style) {
        return Err(Error::ArchiveFormat);
    }
    let entries = backup_entries(snapshot, images);
    match write_archive(&entries) {
        Ok(bytes) => Ok(bytes),
        Err(e) => Err(backup_error(e)),
    }
}

/// A backup that is ready to be written: where it goes, under which name,
/// and the bytes of the archive.
pub struct Backup {
    pub directory: String,
    pub filename: String,
    pub archive: Vec<u8>,
}

/// Makes the backup of a snapshot and the files of the image store, at
/// the time `made`: into the configured directory, under the name for that
/// time, as one archive. It is made exactly where a directory is
/// configured and `create_backup_archive` makes the archive.
pub fn perform_backup(
    settings: &BackupSettings,
    made: &Timestamp,
    snapshot: &str,
    images: Vec<ImageFile>,
    style: PathStyle,
) -> (r: Result<Backup, Error>)
    requires
        made.wf(),
    ensures
        r is Ok <==> settings.backup_directory is Some && all_file_paths(
            images_view(images@),
            style,
        ) && archives(backup_listing(snapshot@, images_view(images@))),
        has_repeated_name(backup_listing(snapshot@, images_view(images@))) ==> r is Err,
        match r {
            Ok(backup) => {
                &&& settings.backup_directory matches Some(dir) && backup.directory@ == dir@
                &&& backup.filename@ == backup_name(*made)
                &&& backup.archive@ == packed_archive(
                    backup_listing(snapshot@, images_view(images@)),
                )
                &&& read_listing(backup.archive@) == Some(
                    backup_listing(snapshot@, images_view(images@)),
                )
            },
            Err(e) => if settings.backup_directory is None {
                e == Error::Config
            } else {
                e == Error::Io || e == Error::ArchiveFormat
            },
        },
{
    let directory = match configured_directory(settings) {
        Ok(directory) => directory,
        Err(e) => {
            return Err(e);
        },
    };
    let filename = backup_filename(made);
    match create_backup_archive(snapshot, images, style) {
        Ok(archive) => Ok(Backup { directory, filename, archive }),
        Err(e) => Err(e),
    }
}

/// Whether an entry is an image to restore.
pub fn is_image_entry_name(name: &str) -> (r: bool)
    ensures
        r == is_image_entry(name@),
{
    starts_with(name, "images/") && !ends_with(name, "/")
}

/// UTF-8 bytes as text: `String::from_utf8` of the standard library, which
/// succeeds on well-formed UTF-8 and on nothing else. The text, where there
/// is one, encodes to the bytes given.
#[verifier::external_body]
fn text_from_utf8(bytes: Vec<u8>) -> (r: Option<String>)
    ensures
        match r {
            Some(text) => encode_utf8(text@) == bytes@,
            None => !valid_utf8(bytes@),
        },
{
    String::from_utf8(bytes).ok()
}

/// Whether every image would be written below the store's root.
pub fn all_stay_below_root(images: &Vec<ImageFile>, style: PathStyle) -> (r: bool)
    ensures
        r == all_below_root(images_view(images@), style),
{
    let mut i: usize = 0;
    while i < images.len()
        invariant
            i <= images.len(),
            forall|j: int|
                0 <= j < i ==> stays_below((#[trigger] images_view(images@)[j]).0, style),
        decreases images.len() - i,
    {
        if !stays_below_root(images[i].relative_path.as_str(), style) {
            assert(!stays_below(images_view(images@)[i as int].0, style));
            return false;
        }
        i += 1;
    }
    true
}

/// Restores from the entries of an archive: the snapshot is the text of
/// the first entry named `data.json`; every entry whose name begins with
/// `images/` and does not end with a slash becomes an image file, named by
/// what follows `images/`. Fails where there is no `data.json` and where it
/// is not UTF-8. It also fails where an image would be written outside the
/// store's root, under an absolute path or one with a `..` component: that
/// is this library's rule, and no archive that `create_backup_archive`
/// made holds such an image.
pub fn restore_from_entries(entries: Vec<ArchiveEntry>, style: PathStyle) -> (r: Result<
    RestoredBackup,
    Error,
>)
    ensures
        match r {
            Ok(restored) => restore_of(entries_view(entries@), style) == Some(
                (restored.snapshot@, images_view(restored.images@)),
            ),
            Err(e) => e == Error::ArchiveFormat && restore_of(entries_view(entries@), style)
                is None,
        },
{
    let ghost ev = entries_view(entries@);
    let ghost all = entries@;
    let ghost keep = |e: (Seq<char>, Seq<u8>)| is_image_entry(e.0);
    let ghost strip = |e: (Seq<char>, Seq<u8>)| (e.0.skip(images_prefix().len() as int), e.1);
    let mut snapshot_bytes: Option<Vec<u8>> = None;
    let ghost mut found: int = -1;
    let mut images: Vec<ImageFile> = Vec::new();
    assert(ev.take(0) =~= Seq::<(Seq<char>, Seq<u8>)>::empty());
    proof {
        reveal(Seq::filter);
    }
    assert(ev.take(0).filter(keep) =~= Seq::<(Seq<char>, Seq<u8>)>::empty());
    for entry in iter: entries
        invariant
            iter.seq() == all,
            ev == entries_view(all),
            keep == |e: (Seq<char>, Seq<u8>)| is_image_entry(e.0),
            strip == |e: (Seq<char>, Seq<u8>)| (e.0.skip(images_prefix().len() as int), e.1),
            images_view(images@) == ev.take(iter.index() as int).filter(keep).map_values(strip),
            match snapshot_bytes {
                Some(bytes) => is_first_named(ev, snapshot_name(), found) && found < iter.index()
                    && bytes@ == ev[found].1,
                None => forall|j: int| 0 <= j < iter.index() ==> ev[j].0 != snapshot_name(),
            },
    {
        let ghost k = iter.index() as int;
        let ghost shown = images@;
        proof {
            assert(ev[k] == entry@);
            assert(ev.take(k + 1) =~= ev.take(k).push(ev[k]));
            lemma_filter_push(ev.take(k), ev[k], keep);
        }
        if is_image_entry_name(entry.name.as_str()) {
            proof {
                reveal_strlit("images/");
                reveal_strlit("data.json");
                assert(images_prefix()[0] == 'i' && snapshot_name()[0] == 'd');
                assert(entry.name@ != snapshot_name());
            }
            let relative_path = skip_chars(entry.name.as_str(), 7);
            images.push(ImageFile { relative_path, data: entry.data });
            proof {
                let kept = ev.take(k).filter(keep);
                assert(images_view(shown).len() == shown.len());
                assert(kept.map_values(strip).len() == kept.len());
                assert(shown.len() == kept.len());
                assert(images@.len() == shown.len() + 1);
                assert(relative_path@ == strip(ev[k]).0);
                assert(images_view(images@) =~= kept.push(ev[k]).map_values(strip)) by {
                    assert forall|j: int| 0 <= j < images@.len() implies images_view(images@)[j]
                        == kept.push(ev[k]).map_values(strip)[j] by {
                        if j < shown.len() {
                            assert(images_view(shown)[j] == kept.map_values(strip)[j]);
                        }
                    }
                }
            }
        } else if snapshot_bytes.is_none() && str_equal(entry.name.as_str(), "data.json") {
            snapshot_bytes = Some(entry.data);
            proof {
                found = k;
            }
        }
    }
    assert(ev.take(all.len() as int) =~= ev);
    if !all_stay_below_root(&images, style) {
        return Err(Error::ArchiveFormat);
    }
    match snapshot_bytes {
        Some(bytes) => {
            proof {
                assert(first_named(ev, snapshot_name()) == Some(found));
            }
            match text_from_utf8(bytes) {
                Some(snapshot) => {
                    proof {
                        encode_utf8_valid_utf8(snapshot@);
                        encode_utf8_decode_utf8(snapshot@);
                    }
                    Ok(RestoredBackup { snapshot, images })
                },
                None => Err(Error::ArchiveFormat),
            }
        },
        None => {
            assert(first_named(ev, snapshot_name()) is None);
            Err(Error::ArchiveFormat)
        },
    }
}

/// Restores from the bytes of an archive: what reading the archive yields
/// is restored as `restore_from_entries` says. It fails where the archive
/// cannot be read, and where what it yields has no snapshot.
pub fn restore_backup(archive: Vec<u8>, style: PathStyle) -> (r: Result<RestoredBackup, Error>)
    ensures
        match r {
            Ok(restored) => read_listing(archive@) matches Some(entries) && restore_of(
                entries,
                style,
            ) == Some((restored.snapshot@, images_view(restored.images@))),
            Err(e) => match read_listing(archive@) {
                Some(entries) => restore_of(entries, style) is None && e == Error::ArchiveFormat,
                None => e == Error::Io || e == Error::ArchiveFormat,
            },
        },
{
    match read_archive(archive) {
        Ok(entries) => restore_from_entries(entries, style),
        Err(e) => Err(backup_error(e)),
    }
}

/// Turning backslashes into forward slashes does not move a path out of
/// the directory it is joined to, nor into it.
pub proof fn lemma_forward_slashes_stay_below(path: Seq<char>, style: PathStyle)
    ensures
        stays_below(forward_slashes(path), style) == stays_below(path, style),
{
    let turned = forward_slashes(path);
    assert(turned.len() == path.len());
    assert(is_absolute(turned, style) == is_absolute(path, style));
    assert forall|at: int| is_parent_at(turned, at) == is_parent_at(path, at) by {
        if 0 <= at && at + 2 <= path.len() {
            assert(turned[at] == '.' <==> path[at] == '.');
            assert(turned[at + 1] == '.' <==> path[at + 1] == '.');
            if at > 0 {
                assert(is_separator(turned[at - 1]) == is_separator(path[at - 1]));
            }
            if at + 2 < path.len() {
                assert(is_separator(turned[at + 2]) == is_separator(path[at + 2]));
            }
        }
    }
    if has_parent_component(turned) {
        let at = choose|at: int| is_parent_at(turned, at);
        assert(is_parent_at(path, at));
    }
    if has_parent_component(path) {
        let at = choose|at: int| is_parent_at(path, at);
        assert(is_parent_at(turned, at));
    }
}

/// The images of a backup as a restore names them: with forward slashes.
pub open spec fn with_portable_paths(images: Seq<(Seq<char>, Seq<u8>)>) -> Seq<(Seq<char>, Seq<u8>)> {
    Seq::new(images.len(), |i: int| (forward_slashes(images[i].0), images[i].1))
}

proof fn lemma_image_entry_is_restored(path: Seq<char>, style: PathStyle)
    requires
        is_file_path(path, style),
    ensures
        is_image_entry(image_entry_name(path)),
        image_entry_name(path).skip(images_prefix().len() as int) == forward_slashes(path),
        image_entry_name(path) != snapshot_name(),
{
    reveal_strlit("images/");
    reveal_strlit("data.json");
    reveal_strlit("/");
    let name = image_entry_name(path);
    let tail = forward_slashes(path);
    assert(name.subrange(0, images_prefix().len() as int) =~= images_prefix());
    assert(name.skip(images_prefix().len() as int) =~= tail);
    assert(name.last() == tail.last());
    assert(tail.last() != '/');
    if "/"@.is_suffix_of(name) {
        assert(name.subrange(name.len() - 1, name.len() as int)[0] == '/');
    }
    assert(name[0] == 'i' && snapshot_name()[0] == 'd');
}

proof fn lemma_all_image_entries_kept(
    images: Seq<(Seq<char>, Seq<u8>)>,
    style: PathStyle,
    n: int,
)
    requires
        0 <= n <= images.len(),
        all_file_paths(images, style),
    ensures
        image_entries(images).take(n).filter(|e: (Seq<char>, Seq<u8>)| is_image_entry(e.0))
            == image_entries(images).take(n),
    decreases n,
{
    let keep = |e: (Seq<char>, Seq<u8>)| is_image_entry(e.0);
    let all = image_entries(images);
    if n == 0 {
        reveal(Seq::filter);
        assert(all.take(0).filter(keep) =~= all.take(0));
    } else {
        lemma_all_image_entries_kept(images, style, n - 1);
        assert(all.take(n) =~= all.take(n - 1).push(all[n - 1]));
        lemma_filter_push(all.take(n - 1), all[n - 1], keep);
        assert(is_file_path(images[n - 1].0, style));
        lemma_image_entry_is_restored(images[n - 1].0, style);
    }
}

/// A restore undoes a backup: from the entries of the archive for a
/// snapshot and a set of image files with paths that a backup accepts, it
/// yields the same snapshot text and the same files, content for content,
/// in the same order, each under its path with forward slashes.
pub proof fn lemma_restore_inverts_backup(
    snapshot: Seq<char>,
    images: Seq<(Seq<char>, Seq<u8>)>,
    style: PathStyle,
)
    requires
        all_file_paths(images, style),
    ensures
        restore_of(backup_listing(snapshot, images), style) == Some(
            (snapshot, with_portable_paths(images)),
        ),
{
    let keep = |e: (Seq<char>, Seq<u8>)| is_image_entry(e.0);
    let strip = |e: (Seq<char>, Seq<u8>)| (e.0.skip(images_prefix().len() as int), e.1);
    let head = seq![(snapshot_name(), encode_utf8(snapshot))];
    let tail = image_entries(images);
    let listing = backup_listing(snapshot, images);
    assert(is_first_named(listing, snapshot_name(), 0));
    assert(first_named(listing, snapshot_name()) == Some(0int)) by {
        let chosen = choose|i: int| is_first_named(listing, snapshot_name(), i);
        assert(chosen == 0);
    }
    encode_utf8_valid_utf8(snapshot);
    encode_utf8_decode_utf8(snapshot);
    assert(!is_image_entry(snapshot_name())) by {
        reveal_strlit("images/");
        reveal_strlit("data.json");
        if images_prefix().is_prefix_of(snapshot_name()) {
            assert(snapshot_name().subrange(0, images_prefix().len() as int)[0] == 'i');
        }
    }
    assert(head.filter(keep) =~= Seq::<(Seq<char>, Seq<u8>)>::empty()) by {
        reveal(Seq::filter);
        assert(head.drop_last() =~= Seq::<(Seq<char>, Seq<u8>)>::empty());
        assert(head.drop_last().filter(keep) =~= Seq::<(Seq<char>, Seq<u8>)>::empty());
    }
    Seq::filter_distributes_over_add(head, tail, keep);
    lemma_all_image_entries_kept(images, style, images.len() as int);
    assert(tail.take(images.len() as int) =~= tail);
    assert(listing.filter(keep) =~= tail);
    assert(tail.map_values(strip) =~= with_portable_paths(images)) by {
        assert forall|i: int| 0 <= i < images.len() implies tail.map_values(strip)[i]
            == with_portable_paths(images)[i] by {
            assert(is_file_path(images[i].0, style));
            lemma_image_entry_is_restored(images[i].0, style);
        }
    }
    assert(restored_images(listing) == with_portable_paths(images));
    assert(all_below_root(with_portable_paths(images), style)) by {
        assert forall|i: int| 0 <= i < images.len() implies stays_below(
            (#[trigger] with_portable_paths(images)[i]).0,
            style,
        ) by {
            assert(is_file_path(images[i].0, style));
            lemma_forward_slashes_stay_below(images[i].0, style);
        }
    }
}

/// A backup that was made can be restored. Where `create_backup_archive`
/// returns an archive for a snapshot and image files, the paths of the
/// files are such as a backup accepts and the archive reads back as the
/// backup's entries; `restore_backup` then succeeds on it, with the same
/// snapshot text and the same files, each under its path with forward
/// slashes.
pub proof fn lemma_made_backup_restores(
    archive: Seq<u8>,
    snapshot: Seq<char>,
    images: Seq<(Seq<char>, Seq<u8>)>,
    style: PathStyle,
)
    requires
        read_listing(archive) == Some(backup_listing(snapshot, images)),
        all_file_paths(images, style),
    ensures
        read_listing(archive) matches Some(entries) && restore_of(entries, style) == Some(
            (snapshot, with_portable_paths(images)),
        ),
{
    lemma_restore_inverts_backup(snapshot, images, style);
}

} // verus!
