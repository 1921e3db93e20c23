//! Archives as byte strings: packing a list of named entries into a zip
//! archive and listing the entries of one, both in memory.

use vstd::prelude::*;
use std::io::Write;

verus! {

/// One file of an archive: its name and what it holds.
pub struct ArchiveEntry {
    pub name: String,
    pub data: Vec<u8>,
}

impl View for ArchiveEntry {
    type V = (Seq<char>, Seq<u8>);

    open spec fn view(&self) -> (Seq<char>, Seq<u8>) {
        (self.name@, self.data@)
    }
}

/// A list of entries as names and contents.
pub open spec fn entries_view(entries: Seq<ArchiveEntry>) -> Seq<(Seq<char>, Seq<u8>)> {
    Seq::new(entries.len(), |i: int| entries[i]@)
}

/// Why an archive could not be packed or listed.
#[derive(Clone, Copy, Debug, PartialEq, Eq, Structural)]
pub enum ArchiveError {
    /// Reading or writing the bytes failed.
    Io,
    /// The bytes are no archive, or one that cannot be handled.
    Format,
}

/// The kinds of failure that the zip crate reports.
#[derive(Clone, Copy, Debug, PartialEq, Eq, Structural)]
pub enum ZipFailure {
    Io,
    InvalidArchive,
    UnsupportedArchive,
    FileNotFound,
    InvalidPassword,
    Other,
}

/// The library's error for each failure of the zip crate.
pub open spec fn archive_error_of(failure: ZipFailure) -> ArchiveError {
    match failure {
        ZipFailure::Io => ArchiveError::Io,
        _ => ArchiveError::Format,
    }
}

/// The library's error for a failure of the zip crate.
pub fn archive_error(failure: ZipFailure) -> (e: ArchiveError)
    ensures
        e == archive_error_of(failure),
{
    match failure {
        ZipFailure::Io => ArchiveError::Io,
        _ => ArchiveError::Format,
    }
}

/// `zip::result::ZipError`, opaque: it is carried from a failed call to
/// `zip_failure`, which tells its variants apart.
#[verifier::external_type_specification]
#[verifier::external_body]
pub struct ExZipError(zip::result::ZipError);

/// `std::io::Cursor`, opaque: the buffer in memory that an archive is read
/// from.
#[verifier::external_type_specification]
#[verifier::external_body]
#[verifier::reject_recursive_types(T)]
pub struct ExCursor<T>(std::io::Cursor<T>);

/// `zip::ZipArchive`, opaque: an archive that was opened. What it holds is
/// named by `archive_entries`.
#[verifier::external_type_specification]
#[verifier::external_body]
#[verifier::reject_recursive_types(R)]
pub struct ExZipArchive<R>(zip::ZipArchive<R>);

/// A `zip::ZipWriter` that writes into memory, opaque. The writer's type is
/// bounded by `std::io::Write` and `std::io::Seek`, which a declaration of
/// the type itself would have to name and cannot, so it is held in a struct
/// of the library. What it holds is named by `written_entries`.
#[verifier::external_body]
pub struct ArchiveWriter {
    inner: zip::ZipWriter<std::io::Cursor<Vec<u8>>>,
}

/// The entries written to a writer so far, in the order in which they were
/// started.
pub uninterp spec fn written_entries(w: ArchiveWriter) -> Seq<(Seq<char>, Seq<u8>)>;

/// Whether no call on the writer has failed. A writer is made by
/// `new_writer` alone and written to by the wrappers below alone, so while
/// it is intact, the entries it holds tell all that was done with it.
pub uninterp spec fn writer_intact(w: ArchiveWriter) -> bool;

/// Whether `zip::ZipWriter::start_file` accepts an entry of this name on an
/// intact writer that holds these entries.
pub uninterp spec fn entry_starts(held: Seq<(Seq<char>, Seq<u8>)>, name: Seq<char>) -> bool;

/// Whether `write_all` accepts this content for the entry started last, on
/// an intact writer that holds these entries.
pub uninterp spec fn content_fits(held: Seq<(Seq<char>, Seq<u8>)>, content: Seq<u8>) -> bool;

/// Whether `zip::ZipWriter::finish` succeeds on an intact writer that
/// holds these entries.
pub uninterp spec fn archive_closes(held: Seq<(Seq<char>, Seq<u8>)>) -> bool;

/// The bytes that `zip::ZipWriter::finish` hands back for an intact writer
/// that holds these entries.
pub uninterp spec fn packed_archive(held: Seq<(Seq<char>, Seq<u8>)>) -> Seq<u8>;

/// What reading finds of the entries of an opened archive, by index: of
/// each entry its name, as `ZipFile::name` decodes it, and its content, as
/// reading the entry to its end returns it; each is `None` where reading
/// it fails. The entries stand in the order of the central directory; where
/// that repeats a name, the zip crate keeps one entry for it, at the place
/// of the first and with the content of the last.
pub uninterp spec fn archive_entries(a: zip::ZipArchive<std::io::Cursor<Vec<u8>>>) -> Seq<
    (Option<Seq<char>>, Option<Seq<u8>>),
>;

/// What `zip::ZipArchive::new` makes of these bytes: `None` where it fails,
/// else the entries of the archive it opens, as `archive_entries` describes
/// them.
pub uninterp spec fn archive_listing(bytes: Seq<u8>) -> Option<
    Seq<(Option<Seq<char>>, Option<Seq<u8>>)>,
>;

/// Whether the name and the content of every entry can be read.
pub open spec fn all_readable(found: Seq<(Option<Seq<char>>, Option<Seq<u8>>)>) -> bool {
    forall|i: int| 0 <= i < found.len() ==> (#[trigger] found[i]).0 is Some && found[i].1 is Some
}

/// The names and contents of entries that can all be read.
pub open spec fn readable_entries(found: Seq<(Option<Seq<char>>, Option<Seq<u8>>)>) -> Seq<
    (Seq<char>, Seq<u8>),
> {
    Seq::new(found.len(), |i: int| (found[i].0->0, found[i].1->0))
}

/// The entries that reading these bytes as an archive yields: there are
/// none to be had where the bytes do not open as an archive, or where the
/// name or the content of one of the entries cannot be read.
pub open spec fn read_listing(bytes: Seq<u8>) -> Option<Seq<(Seq<char>, Seq<u8>)>> {
    match archive_listing(bytes) {
        Some(found) => if all_readable(found) {
            Some(readable_entries(found))
        } else {
            None
        },
        None => None,
    }
}

/// Whether one of the entries has this name.
pub open spec fn holds_name(entries: Seq<(Seq<char>, Seq<u8>)>, name: Seq<char>) -> bool {
    exists|i: int| 0 <= i < entries.len() && (#[trigger] entries[i]).0 == name
}

/// Whether two of the entries have the same name.
pub open spec fn has_repeated_name(entries: Seq<(Seq<char>, Seq<u8>)>) -> bool {
    exists|i: int, j: int|
        #![trigger entries[i], entries[j]]
        0 <= i < j < entries.len() && entries[i].0 == entries[j].0
}

/// Whether the first `n` of the entries can be packed, one after the
/// other: each is accepted when it is started, and its content when it is
/// written.
pub open spec fn packs_first(entries: Seq<(Seq<char>, Seq<u8>)>, n: int) -> bool
    decreases n,
{
    if n <= 0 {
        true
    } else {
        &&& packs_first(entries, n - 1)
        &&& entry_starts(entries.take(n - 1), entries[n - 1].0)
        &&& content_fits(
            entries.take(n - 1).push((entries[n - 1].0, Seq::<u8>::empty())),
            entries[n - 1].1,
        )
    }
}

/// Whether the entries can be packed into one archive: all of them can be
/// written, and the archive can then be closed.
pub open spec fn packs(entries: Seq<(Seq<char>, Seq<u8>)>) -> bool {
    packs_first(entries, entries.len() as int) && archive_closes(entries)
}

/// Whether the entries can be packed into an archive that holds them: they
/// can be packed, and what the zip crate then reads from the bytes are the
/// same entries again.
pub open spec fn archives(entries: Seq<(Seq<char>, Seq<u8>)>) -> bool {
    packs(entries) && read_listing(packed_archive(entries)) == Some(entries)
}

/// What cannot be packed up to some entry cannot be packed at all.
pub proof fn lemma_packs_first_of_more(entries: Seq<(Seq<char>, Seq<u8>)>, n: int, m: int)
    requires
        0 <= n <= m,
        packs_first(entries, m),
    ensures
        packs_first(entries, n),
    decreases m - n,
{
    if n < m {
        lemma_packs_first_of_more(entries, n, m - 1);
    }
}

/// Names which variant of `zip::result::ZipError` an error is. Nothing is
/// claimed of the result.
#[verifier::external_body]
fn zip_failure(e: &zip::result::ZipError) -> ZipFailure {
    match e {
        zip::result::ZipError::Io(_) => ZipFailure::Io,
        zip::result::ZipError::InvalidArchive(_) => ZipFailure::InvalidArchive,
        zip::result::ZipError::UnsupportedArchive(_) => ZipFailure::UnsupportedArchive,
        zip::result::ZipError::FileNotFound => ZipFailure::FileNotFound,
        zip::result::ZipError::InvalidPassword => ZipFailure::InvalidPassword,
        _ => ZipFailure::Other,
    }
}

/// `zip::ZipWriter::new` on an empty buffer in memory: a writer that holds
/// no entry yet, and on which nothing has failed.
#[verifier::external_body]
fn new_writer() -> (w: ArchiveWriter)
    ensures
        written_entries(w) == Seq::<(Seq<char>, Seq<u8>)>::empty(),
        writer_intact(w),
{
    ArchiveWriter { inner: zip::ZipWriter::new(std::io::Cursor::new(Vec::new())) }
}

/// `zip::ZipWriter::start_file` for an entry that is stored deflated. The
/// options are fixed: deflate, the Unix system code and the format's
/// earliest date on every machine, otherwise the defaults. Whether an
/// intact writer accepts the entry is named by `entry_starts`; a name that
/// the writer already holds is refused. Where the entry is accepted, the
/// writer holds one more entry, with this name and nothing in it yet.
#[verifier::external_body]
fn start_entry(w: &mut ArchiveWriter, name: &str) -> (r: Result<(), zip::result::ZipError>)
    requires
        writer_intact(*old(w)),
    ensures
        r is Ok <==> entry_starts(written_entries(*old(w)), name@),
        holds_name(written_entries(*old(w)), name@) ==> r is Err,
        r is Ok ==> writer_intact(*final(w)) && written_entries(*final(w)) == written_entries(
            *old(w),
        ).push((name@, Seq::<u8>::empty())),
{
    let options = zip::write::SimpleFileOptions::default()
        .compression_method(zip::CompressionMethod::Deflated)
        .system(zip::System::Unix)
        .last_modified_time(zip::DateTime::default());
    w.inner.start_file(name, options)
}

/// `write_all` of `std::io::Write` on a `zip::ZipWriter` that holds an
/// entry. Whether an intact writer accepts the content is named by
/// `content_fits`. Where it does, all of `data` stands at the end of the
/// entry started last.
#[verifier::external_body]
fn write_entry_data(w: &mut ArchiveWriter, data: &[u8]) -> (r: Result<(), zip::result::ZipError>)
    requires
        writer_intact(*old(w)),
        written_entries(*old(w)).len() > 0,
    ensures
        r is Ok <==> content_fits(written_entries(*old(w)), data@),
        r is Ok ==> writer_intact(*final(w)) && written_entries(*final(w)) == written_entries(
            *old(w),
        ).drop_last().push(
            (
                written_entries(*old(w)).last().0,
                written_entries(*old(w)).last().1 + data@,
            ),
        ),
{
    w.inner.write_all(data).map_err(zip::result::ZipError::Io)
}

/// `zip::ZipWriter::finish` on an intact writer: closes the last entry,
/// writes the central directory and hands back the buffer. Whether it
/// succeeds is named by `archive_closes`, and the bytes by
/// `packed_archive`. Nothing is claimed of what the bytes hold.
#[verifier::external_body]
fn finish_writer(w: ArchiveWriter) -> (r: Result<Vec<u8>, zip::result::ZipError>)
    requires
        writer_intact(w),
    ensures
        r is Ok <==> archive_closes(written_entries(w)),
        r matches Ok(bytes) ==> bytes@ == packed_archive(written_entries(w)),
{
    w.inner.finish().map(|cursor| cursor.into_inner())
}

/// `zip::ZipArchive::new` on bytes in memory. Whether it opens an archive,
/// and what that archive holds, is a matter of the bytes alone, and is
/// named by `archive_listing`.
#[verifier::external_body]
fn open_archive(bytes: Vec<u8>) -> (r: Result<
    zip::ZipArchive<std::io::Cursor<Vec<u8>>>,
    zip::result::ZipError,
>)
    ensures
        match r {
            Ok(a) => archive_listing(bytes@) == Some(archive_entries(a)),
            Err(_) => archive_listing(bytes@) is None,
        },
{
    zip::ZipArchive::new(std::io::Cursor::new(bytes))
}

/// `zip::ZipArchive::len`: the number of entries.
#[verifier::external_body]
fn entry_count(a: &zip::ZipArchive<std::io::Cursor<Vec<u8>>>) -> (n: usize)
    ensures
        n == archive_entries(*a).len(),
{
    a.len()
}

/// `zip::ZipArchive::by_index` and `ZipFile::name`: the name of the entry
/// at `index`. It fails where there is no such entry or its name cannot be
/// read. The archive holds afterwards what it held before.
#[verifier::external_body]
fn entry_name(a: &mut zip::ZipArchive<std::io::Cursor<Vec<u8>>>, index: usize) -> (r: Result<
    String,
    zip::result::ZipError,
>)
    ensures
        archive_entries(*final(a)) == archive_entries(*old(a)),
        match r {
            Ok(name) => index < archive_entries(*old(a)).len() && archive_entries(
                *old(a),
            )[index as int].0 == Some(name@),
            Err(_) => index < archive_entries(*old(a)).len() ==> archive_entries(
                *old(a),
            )[index as int].0 is None,
        },
{
    let file = a.by_index(index)?;
    let name = file.name()?;
    Ok(name.into_owned())
}

/// `zip::ZipArchive::by_index` and `read_to_end` of `std::io::Read`: what
/// the entry at `index` holds. It fails where there is no such entry or
/// its content cannot be read. The archive holds afterwards what it held
/// before.
#[verifier::external_body]
fn entry_data(a: &mut zip::ZipArchive<std::io::Cursor<Vec<u8>>>, index: usize) -> (r: Result<
    Vec<u8>,
    zip::result::ZipError,
>)
    ensures
        archive_entries(*final(a)) == archive_entries(*old(a)),
        match r {
            Ok(data) => index < archive_entries(*old(a)).len() && archive_entries(
                *old(a),
            )[index as int].1 == Some(data@),
            Err(_) => index < archive_entries(*old(a)).len() ==> archive_entries(
                *old(a),
            )[index as int].1 is None,
        },
{
    let mut file = a.by_index(index)?;
    let mut data = Vec::new();
    std::io::Read::read_to_end(&mut file, &mut data)?;
    Ok(data)
}

/// Whether two byte strings are the same.
pub fn same_bytes(a: &[u8], b: &[u8]) -> (r: bool)
    ensures
        r == (a@ == b@),
{
    if a.len() != b.len() {
        return false;
    }
    let mut i: usize = 0;
    while i < a.len()
        invariant
            i <= a.len(),
            a@.len() == b@.len(),
            forall|j: int| 0 <= j < i ==> a@[j] == b@[j],
        decreases a.len() - i,
    {
        if a[i] != b[i] {
            return false;
        }
        i += 1;
    }
    assert(a@ =~= b@);
    true
}

/// Whether two lists hold the same entries: as many, with the same names
/// and contents in the same order.
pub fn same_entries(a: &Vec<ArchiveEntry>, b: &Vec<ArchiveEntry>) -> (r: bool)
    ensures
        r == (entries_view(a@) == entries_view(b@)),
{
    if a.len() != b.len() {
        assert(entries_view(a@).len() != entries_view(b@).len());
        return false;
    }
    let mut i: usize = 0;
    while i < a.len()
        invariant
            i <= a.len(),
            a@.len() == b@.len(),
            forall|j: int| 0 <= j < i ==> a@[j]@ == b@[j]@,
        decreases a.len() - i,
    {
        let same = a[i].name == b[i].name && same_bytes(a[i].data.as_slice(), b[i].data.as_slice());
        if !same {
            assert(entries_view(a@)[i as int] != entries_view(b@)[i as int]);
            return false;
        }
        i += 1;
    }
    assert(entries_view(a@) =~= entries_view(b@));
    true
}

/// Packs the entries, in their order, into one zip archive, each stored
/// deflated, and reads the archive back. It succeeds exactly where the zip
/// crate accepts every entry and its content, can close the archive, and
/// then reads from the bytes the entries given; entries of which two have
/// the same name are refused. So an archive that is handed back can be
/// read, and yields the entries it was made from.
pub fn write_archive(entries: &Vec<ArchiveEntry>) -> (r: Result<Vec<u8>, ArchiveError>)
    ensures
        r is Ok <==> archives(entries_view(entries@)),
        r matches Ok(bytes) ==> bytes@ == packed_archive(entries_view(entries@)) && read_listing(
            bytes@,
        ) == Some(entries_view(entries@)),
        has_repeated_name(entries_view(entries@)) ==> r is Err,
{
    let ghost given = entries_view(entries@);
    let mut writer = new_writer();
    let mut i: usize = 0;
    assert(given.take(0) =~= Seq::<(Seq<char>, Seq<u8>)>::empty());
    while i < entries.len()
        invariant
            i <= entries.len(),
            given == entries_view(entries@),
            writer_intact(writer),
            written_entries(writer) == given.take(i as int),
            packs_first(given, i as int),
            forall|a: int, b: int|
                #![trigger given[a], given[b]]
                0 <= a < b < i ==> given[a].0 != given[b].0,
        decreases entries.len() - i,
    {
        let entry = &entries[i];
        let ghost before = written_entries(writer);
        assert(given[i as int] == (entry.name@, entry.data@));
        match start_entry(&mut writer, entry.name.as_str()) {
            Ok(()) => {},
            Err(e) => {
                proof {
                    if packs(given) {
                        lemma_packs_first_of_more(given, i + 1, given.len() as int);
                    }
                }
                return Err(archive_error(zip_failure(&e)));
            },
        }
        proof {
            assert forall|a: int| 0 <= a < i implies given[a].0 != (#[trigger] given[i as int]).0 by {
                if given[a].0 == given[i as int].0 {
                    assert(before[a] == given[a]);
                    assert(holds_name(before, entry.name@));
                }
            }
        }
        match write_entry_data(&mut writer, entry.data.as_slice()) {
            Ok(()) => {},
            Err(e) => {
                proof {
                    if packs(given) {
                        lemma_packs_first_of_more(given, i + 1, given.len() as int);
                    }
                }
                return Err(archive_error(zip_failure(&e)));
            },
        }
        proof {
            let started = before.push((entry.name@, Seq::<u8>::empty()));
            assert(started.drop_last() =~= before);
            assert(Seq::<u8>::empty() + entry.data@ =~= entry.data@);
            assert(written_entries(writer) =~= given.take(i + 1));
        }
        i += 1;
    }
    assert(given.take(i as int) =~= given);
    let bytes = match finish_writer(writer) {
        Ok(bytes) => bytes,
        Err(e) => {
            return Err(archive_error(zip_failure(&e)));
        },
    };
    match read_archive(bytes.clone()) {
        Ok(listed) => {
            if same_entries(&listed, entries) {
                Ok(bytes)
            } else {
                Err(ArchiveError::Format)
            }
        },
        Err(e) => Err(e),
    }
}

/// Lists the entries of a zip archive as the zip crate finds them, each
/// with all that it holds. It succeeds exactly where the bytes open as an
/// archive and the name and the content of every entry can be read. The
/// entries come in the order of the central directory; for a name that the
/// directory repeats there is one entry, at the place of the first, with
/// the content of the last.
pub fn read_archive(bytes: Vec<u8>) -> (r: Result<Vec<ArchiveEntry>, ArchiveError>)
    ensures
        match r {
            Ok(entries) => read_listing(bytes@) == Some(entries_view(entries@)),
            Err(_) => read_listing(bytes@) is None,
        },
{
    let mut archive = match open_archive(bytes) {
        Ok(a) => a,
        Err(e) => {
            return Err(archive_error(zip_failure(&e)));
        },
    };
    let ghost found = archive_entries(archive);
    let count = entry_count(&archive);
    let mut entries: Vec<ArchiveEntry> = Vec::new();
    let mut i: usize = 0;
    while i < count
        invariant
            i <= count,
            count == found.len(),
            archive_listing(bytes@) == Some(found),
            archive_entries(archive) == found,
            entries.len() == i,
            forall|j: int| 0 <= j < i ==> (#[trigger] found[j]).0 is Some && found[j].1 is Some,
            entries_view(entries@) == readable_entries(found).take(i as int),
        decreases count - i,
    {
        let name = match entry_name(&mut archive, i) {
            Ok(name) => name,
            Err(e) => {
                assert(found[i as int].0 is None);
                return Err(archive_error(zip_failure(&e)));
            },
        };
        let data = match entry_data(&mut archive, i) {
            Ok(data) => data,
            Err(e) => {
                assert(found[i as int].1 is None);
                return Err(archive_error(zip_failure(&e)));
            },
        };
        let ghost listed = entries@;
        entries.push(ArchiveEntry { name, data });
        proof {
            let readable = readable_entries(found);
            assert(readable[i as int] == (name@, data@));
            assert forall|j: int| 0 <= j < i + 1 implies entries_view(entries@)[j]
                == readable.take(i + 1)[j] by {
                if j < i {
                    assert(entries_view(listed)[j] == readable.take(i as int)[j]);
                }
            }
            assert(entries_view(entries@) =~= readable.take(i + 1));
        }
        i += 1;
    }
    assert(readable_entries(found).take(i as int) =~= readable_entries(found));
    Ok(entries)
}

} // verus!
