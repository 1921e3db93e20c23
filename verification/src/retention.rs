//! Retention and listing: which archives a directory keeps, and the order
//! in which they are shown.

use vstd::prelude::*;
use vstd::seq_lib::*;
use vstd::string::*;
use crate::listing::{keys, lemma_filter_push, sort_ranked, Ranked};
use crate::text::{lemma_text_le_total, lemma_text_le_transitive, str_le, text_le};
use crate::timestamp::{
    backup_name, is_backup_filename, is_backup_name, lemma_backup_names_order_by_time, Timestamp,
};

verus! {

/// The names of a list of files.
pub open spec fn names_view(names: Seq<String>) -> Seq<Seq<char>> {
    Seq::new(names.len(), |i: int| names[i]@)
}

/// The archives among the names of a directory.
pub open spec fn backup_names(names: Seq<Seq<char>>) -> Seq<Seq<char>> {
    names.filter(|n: Seq<char>| is_backup_name(n))
}

/// How many of a number of archives stay under a limit.
pub open spec fn kept_count(archives: nat, max_backups: nat) -> nat {
    if archives <= max_backups {
        archives
    } else {
        max_backups
    }
}

/// How many archives a directory holds after so many more backups, each
/// under a name of its own and each followed by a cleanup.
pub open spec fn archives_after(archives: nat, backups: nat, max_backups: nat) -> nat
    decreases backups,
{
    if backups == 0 {
        archives
    } else {
        kept_count(archives_after(archives, (backups - 1) as nat, max_backups) + 1, max_backups)
    }
}

/// Retention settles: however many archives a directory held, after at
/// least one backup it holds no more than the limit, and after as many
/// backups as the limit it holds exactly that many.
pub proof fn lemma_retention_settles(archives: nat, backups: nat, max_backups: nat)
    requires
        backups >= 1,
    ensures
        archives_after(archives, backups, max_backups) <= max_backups,
        archives_after(archives, backups, max_backups) >= kept_count(backups, max_backups),
        backups >= max_backups ==> archives_after(archives, backups, max_backups) == max_backups,
    decreases backups,
{
    if backups > 1 {
        lemma_retention_settles(archives, (backups - 1) as nat, max_backups);
    }
}

/// Which archives a directory keeps and which it loses.
pub struct RetentionPlan {
    /// The archives that stay, newest first.
    pub keep: Vec<String>,
    /// The archives to delete, newest first.
    pub prune: Vec<String>,
}

impl RetentionPlan {
    /// All archives of the plan: those kept, then those pruned.
    pub open spec fn listed(&self) -> Seq<Seq<char>> {
        names_view(self.keep@) + names_view(self.prune@)
    }
}

/// Decides which archives of a directory stay. Of the names that follow the
/// archive naming convention, taken last name first, the first
/// `max_backups` stay and the others are pruned; every other name is left
/// alone.
pub fn cleanup_old_backups(names: Vec<String>, max_backups: u32) -> (plan: RetentionPlan)
    ensures
        plan.listed().to_multiset() == backup_names(names_view(names@)).to_multiset(),
        plan.listed().len() == backup_names(names_view(names@)).len(),
        forall|i: int, j: int|
            0 <= i < j < plan.listed().len() ==> text_le(plan.listed()[j], plan.listed()[i]),
        plan.keep@.len() == kept_count(plan.listed().len(), max_backups as nat),
{
    let ghost all = names@;
    let ghost pred = |n: Seq<char>| is_backup_name(n);
    let mut matching: Vec<String> = Vec::new();
    proof {
        reveal(Seq::filter);
    }
    assert(names_view(all).take(0).filter(pred) =~= names_view(matching@));
    for name in iter: names
        invariant
            iter.seq() == all,
            pred == |n: Seq<char>| is_backup_name(n),
            names_view(matching@) == names_view(all).take(iter.index() as int).filter(pred),
    {
        let ghost k = iter.index() as int;
        let ghost shown = matching@;
        proof {
            assert(names_view(all).take(k + 1) =~= names_view(all).take(k).push(name@));
            lemma_filter_push(names_view(all).take(k), name@, pred);
        }
        if is_backup_filename(name.as_str()) {
            matching.push(name);
            assert(names_view(matching@) =~= names_view(shown).push(name@));
        }
    }
    assert(names_view(all).take(all.len() as int) =~= names_view(all));
    let ghost unsorted = matching@;
    let mut keep = sort_ranked(matching);
    assert(keys::<String>(keep@) =~= names_view(keep@));
    assert(keys::<String>(unsorted) =~= names_view(unsorted));
    let ghost sorted = names_view(keep@);
    let limit: usize = max_backups as usize;
    let at: usize = if keep.len() <= limit {
        keep.len()
    } else {
        limit
    };
    let prune = keep.split_off(at);
    let plan = RetentionPlan { keep, prune };
    assert(plan.listed() =~= sorted);
    proof {
        sorted.to_multiset_ensures();
        names_view(unsorted).to_multiset_ensures();
    }
    assert forall|i: int, j: int| 0 <= i < j < sorted.len() implies text_le(
        sorted[j],
        sorted[i],
    ) by {
        assert(<String as Ranked>::key_before(sorted[i], sorted[j]));
    }
    plan
}

/// The archives that a plan keeps are the newest: an archive that stays was
/// made no earlier than any archive that goes, for archives made in years
/// from 0 to 9999.
pub proof fn lemma_kept_archives_are_newest(
    listed: Seq<Seq<char>>,
    kept: int,
    staying: int,
    going: int,
    made_staying: Timestamp,
    made_going: Timestamp,
)
    requires
        forall|i: int, j: int| 0 <= i < j < listed.len() ==> text_le(listed[j], listed[i]),
        0 <= staying < kept <= going < listed.len(),
        listed[staying] == backup_name(made_staying),
        listed[going] == backup_name(made_going),
        made_staying.wf(),
        made_going.wf(),
        0 <= made_staying.year <= 9999,
        0 <= made_going.year <= 9999,
    ensures
        made_going.ordinal() <= made_staying.ordinal(),
{
    lemma_backup_names_order_by_time(made_going, made_staying);
}

/// One archive of a listing.
#[derive(Debug)]
pub struct BackupInfo {
    pub filename: String,
    /// When the file was created, in seconds since 1970; 0 where the
    /// platform cannot tell.
    pub created_at: i64,
    pub size: u64,
}

impl View for BackupInfo {
    type V = (Seq<char>, i64, u64);

    open spec fn view(&self) -> (Seq<char>, i64, u64) {
        (self.filename@, self.created_at, self.size)
    }
}

/// What a directory tells of one of its files.
pub struct DirectoryEntry {
    pub name: String,
    /// When the file was created, in seconds since 1970, where the
    /// platform can tell.
    pub created_at: Option<i64>,
    pub size: u64,
}

impl View for DirectoryEntry {
    type V = (Seq<char>, Option<i64>, u64);

    open spec fn view(&self) -> (Seq<char>, Option<i64>, u64) {
        (self.name@, self.created_at, self.size)
    }
}

/// The files of a directory as plain values.
pub open spec fn directory_view(files: Seq<DirectoryEntry>) -> Seq<(Seq<char>, Option<i64>, u64)> {
    Seq::new(files.len(), |i: int| files[i]@)
}

/// A listing as plain values.
pub open spec fn infos_view(list: Seq<BackupInfo>) -> Seq<(Seq<char>, i64, u64)> {
    Seq::new(list.len(), |i: int| list[i]@)
}

/// The listing entry for a file: a creation time that is not known counts
/// as 0.
pub open spec fn info_of(file: (Seq<char>, Option<i64>, u64)) -> (Seq<char>, i64, u64) {
    (
        file.0,
        match file.1 {
            Some(t) => t,
            None => 0i64,
        },
        file.2,
    )
}

/// The order of a listing: the later creation time first; of two archives
/// created in the same second, the one whose name is last.
pub open spec fn listed_before(a: (Seq<char>, i64, u64), b: (Seq<char>, i64, u64)) -> bool {
    a.1 > b.1 || (a.1 == b.1 && text_le(b.0, a.0))
}

/// The listing entries for the archives among the files of a directory,
/// in the directory's order.
pub open spec fn backup_infos(files: Seq<(Seq<char>, Option<i64>, u64)>) -> Seq<
    (Seq<char>, i64, u64),
> {
    files.filter(|f: (Seq<char>, Option<i64>, u64)| is_backup_name(f.0)).map_values(
        |f: (Seq<char>, Option<i64>, u64)| info_of(f),
    )
}

impl Ranked for BackupInfo {
    type Key = (Seq<char>, i64, u64);

    open spec fn key(&self) -> (Seq<char>, i64, u64) {
        self@
    }

    open spec fn key_before(a: (Seq<char>, i64, u64), b: (Seq<char>, i64, u64)) -> bool {
        listed_before(a, b)
    }

    proof fn lemma_before_total(a: (Seq<char>, i64, u64), b: (Seq<char>, i64, u64)) {
        lemma_text_le_total(a.0, b.0);
    }

    proof fn lemma_before_transitive(
        a: (Seq<char>, i64, u64),
        b: (Seq<char>, i64, u64),
        c: (Seq<char>, i64, u64),
    ) {
        if a.1 == b.1 && b.1 == c.1 {
            lemma_text_le_transitive(c.0, b.0, a.0);
        }
    }

    fn stands_before(&self, other: &BackupInfo) -> (r: bool) {
        self.created_at > other.created_at || (self.created_at == other.created_at && str_le(
            other.filename.as_str(),
            self.filename.as_str(),
        ))
    }
}

/// What is found where the backups go.
pub enum BackupDirectory {
    /// No directory is configured.
    NotConfigured,
    /// The configured directory does not exist.
    Missing,
    /// The directory and its files.
    Holds { files: Vec<DirectoryEntry> },
}

/// The files of the backup directory; none where there is no directory.
pub open spec fn files_of(directory: BackupDirectory) -> Seq<(Seq<char>, Option<i64>, u64)> {
    match directory {
        BackupDirectory::Holds { files } => directory_view(files@),
        _ => Seq::empty(),
    }
}

/// Lists the archives of the backup directory: the files whose names
/// follow the archive naming convention, the latest creation time first.
/// Where no directory is configured, or the directory does not exist, the
/// list is empty.
pub fn get_backup_list(directory: BackupDirectory) -> (list: Vec<BackupInfo>)
    ensures
        infos_view(list@).to_multiset() == backup_infos(files_of(directory)).to_multiset(),
        list@.len() == backup_infos(files_of(directory)).len(),
        forall|i: int, j: int|
            0 <= i < j < list@.len() ==> listed_before(list@[i]@, list@[j]@),
        !(directory is Holds) ==> list@.len() == 0,
{
    let files = match directory {
        BackupDirectory::Holds { files } => files,
        _ => {
            proof {
                reveal(Seq::filter);
            }
            Vec::new()
        },
    };
    assert(directory_view(files@) =~= files_of(directory));
    let ghost all = files@;
    let ghost dv = directory_view(all);
    let ghost pred = |f: (Seq<char>, Option<i64>, u64)| is_backup_name(f.0);
    let ghost info = |f: (Seq<char>, Option<i64>, u64)| info_of(f);
    let mut found: Vec<BackupInfo> = Vec::new();
    proof {
        reveal(Seq::filter);
    }
    assert(dv.take(0).filter(pred).map_values(info) =~= infos_view(found@));
    for file in iter: files
        invariant
            iter.seq() == all,
            dv == directory_view(all),
            pred == |f: (Seq<char>, Option<i64>, u64)| is_backup_name(f.0),
            info == |f: (Seq<char>, Option<i64>, u64)| info_of(f),
            infos_view(found@) == dv.take(iter.index() as int).filter(pred).map_values(info),
    {
        let ghost k = iter.index() as int;
        let ghost shown = found@;
        proof {
            assert(dv[k] == file@);
            assert(dv.take(k + 1) =~= dv.take(k).push(dv[k]));
            lemma_filter_push(dv.take(k), dv[k], pred);
        }
        if is_backup_filename(file.name.as_str()) {
            let created_at: i64 = match file.created_at {
                Some(t) => t,
                None => 0,
            };
            found.push(BackupInfo { filename: file.name, created_at, size: file.size });
            proof {
                let kept = dv.take(k).filter(pred);
                assert(infos_view(shown).len() == shown.len());
                assert(kept.map_values(info).len() == kept.len());
                assert(infos_view(found@) =~= kept.push(dv[k]).map_values(info)) by {
                    assert forall|j: int| 0 <= j < found@.len() implies infos_view(found@)[j]
                        == kept.push(dv[k]).map_values(info)[j] by {
                        if j < shown.len() {
                            assert(infos_view(shown)[j] == kept.map_values(info)[j]);
                        }
                    }
                }
            }
        }
    }
    assert(dv.take(all.len() as int) =~= dv);
    let ghost unsorted = found@;
    let list = sort_ranked(found);
    assert(keys::<BackupInfo>(list@) =~= infos_view(list@));
    assert(keys::<BackupInfo>(unsorted) =~= infos_view(unsorted));
    proof {
        infos_view(list@).to_multiset_ensures();
        infos_view(unsorted).to_multiset_ensures();
    }
    assert forall|i: int, j: int| 0 <= i < j < list@.len() implies listed_before(
        list@[i]@,
        list@[j]@,
    ) by {
        let k = keys::<BackupInfo>(list@);
        assert(k[i] == list@[i]@ && k[j] == list@[j]@);
        assert(<BackupInfo as Ranked>::key_before(k[i], k[j]));
    }
    list
}

} // verus!
