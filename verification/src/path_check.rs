//! Judging a place for backups: whether it is there, whether it can be
//! written to, and whether it lies inside the installation.

use vstd::prelude::*;
use vstd::string::*;
use crate::text::joined;

verus! {

/// What a check of a candidate backup directory found.
#[derive(Debug)]
pub struct PathValidationResult {
    pub is_valid: bool,
    pub exists: bool,
    pub is_writable: bool,
    pub error_code: Option<String>,
}

/// Where writing is tried out.
#[derive(Clone, Copy, Debug, PartialEq, Eq, Structural)]
pub enum ProbeTarget {
    /// In the directory itself.
    Path,
    /// In the directory above it.
    Parent,
}

/// The name of a probe file: a fixed beginning and a tag of the caller's,
/// which makes the name one of its own.
pub open spec fn probe_name(tag: Seq<char>) -> Seq<char> {
    ".litepad_write_test_"@ + tag
}

/// The name of the file that a probe creates and removes again. The tag
/// is to differ from probe to probe, so that no probe meets a file that is
/// there already.
pub fn probe_file_name(tag: &str) -> (name: String)
    ensures
        name@ == probe_name(tag@),
{
    joined(".litepad_write_test_", tag)
}

/// Where writing is to be tried out: in the directory, if it exists; in
/// the one above it, if that exists; else nowhere.
pub open spec fn probe_place(exists: bool, parent_exists: Option<bool>) -> Option<ProbeTarget> {
    if exists {
        Some(ProbeTarget::Path)
    } else if parent_exists == Some(true) {
        Some(ProbeTarget::Parent)
    } else {
        None
    }
}

/// Where writing is to be tried out. `parent_exists` is `None` for a path
/// that has nothing above it.
pub fn probe_target(exists: bool, parent_exists: Option<bool>) -> (target: Option<ProbeTarget>)
    ensures
        target == probe_place(exists, parent_exists),
{
    if exists {
        Some(ProbeTarget::Path)
    } else {
        match parent_exists {
            Some(true) => Some(ProbeTarget::Parent),
            _ => None,
        }
    }
}

/// The error code of a verdict, if it has one.
pub open spec fn error_code_of(exists: bool, is_writable: bool) -> Option<Seq<char>> {
    if is_writable {
        None
    } else if exists {
        Some("NO_WRITE_PERMISSION"@)
    } else {
        Some("PATH_NOT_ACCESSIBLE"@)
    }
}

/// The error code of a result, as text.
pub open spec fn code_text(code: Option<String>) -> Option<Seq<char>> {
    match code {
        Some(c) => Some(c@),
        None => None,
    }
}

/// The verdict on a place of which it is known whether it exists and
/// whether writing worked, there or in the directory above: it is valid
/// exactly where writing worked; a place that exists and cannot be written
/// to lacks permission, one that does not exist and cannot be created is
/// not accessible.
pub fn path_validation(exists: bool, is_writable: bool) -> (result: PathValidationResult)
    ensures
        result.is_valid == is_writable,
        result.exists == exists,
        result.is_writable == is_writable,
        code_text(result.error_code) == error_code_of(exists, is_writable),
{
    let error_code = if is_writable {
        None
    } else if exists {
        Some(String::from_str("NO_WRITE_PERMISSION"))
    } else {
        Some(String::from_str("PATH_NOT_ACCESSIBLE"))
    };
    PathValidationResult { is_valid: is_writable, exists, is_writable, error_code }
}

/// Whether a place counts as writable, given what a probe would answer
/// there: `answer` is what `probe` says at the place where writing is
/// tried out, and nowhere means no.
pub open spec fn probe_answer<F: Fn(ProbeTarget) -> bool>(
    probe: F,
    exists: bool,
    parent_exists: Option<bool>,
    answer: bool,
) -> bool {
    match probe_place(exists, parent_exists) {
        Some(target) => call_ensures(probe, (target,), answer),
        None => !answer,
    }
}

/// Checks a candidate backup directory. Writing is tried out with `probe`,
/// at most once: in the directory if it exists, else in the directory
/// above if that exists; where neither exists the place is not writable.
pub fn validate_backup_path<F: Fn(ProbeTarget) -> bool>(
    exists: bool,
    parent_exists: Option<bool>,
    probe: F,
) -> (result: PathValidationResult)
    requires
        forall|target: ProbeTarget| call_requires(probe, (target,)),
    ensures
        probe_answer(probe, exists, parent_exists, result.is_writable),
        result.is_valid == result.is_writable,
        result.exists == exists,
        code_text(result.error_code) == error_code_of(exists, result.is_writable),
{
    let is_writable = match probe_target(exists, parent_exists) {
        Some(target) => probe(target),
        None => false,
    };
    path_validation(exists, is_writable)
}

/// A path as its components' names.
pub open spec fn components_view(path: Seq<String>) -> Seq<Seq<char>> {
    Seq::new(path.len(), |i: int| path[i]@)
}

/// Whether a path, given by its components, is a directory, given by its
/// own, or lies inside it.
pub fn is_inside_install_dir(path: &Vec<String>, dir: &Vec<String>) -> (inside: bool)
    ensures
        inside == components_view(dir@).is_prefix_of(components_view(path@)),
{
    if dir.len() > path.len() {
        return false;
    }
    let mut i: usize = 0;
    while i < dir.len()
        invariant
            i <= dir.len() <= path.len(),
            forall|j: int| 0 <= j < i ==> path[j]@ == dir[j]@,
        decreases dir.len() - i,
    {
        if path[i] != dir[i] {
            assert(components_view(path@)[i as int] != components_view(dir@)[i as int]);
            assert(components_view(path@).subrange(0, dir.len() as int)[i as int]
                != components_view(dir@)[i as int]);
            return false;
        }
        i += 1;
    }
    assert(components_view(path@).subrange(0, dir.len() as int) =~= components_view(dir@));
    true
}

/// What became of the user's choice of a backup directory.
pub enum DirectoryChoice {
    /// The user chose nothing.
    Cancelled,
    /// The directory is taken.
    Accepted { path: String },
    /// The directory is the installation directory or lies inside it, where
    /// a reinstall would delete the backups with the application.
    InsideInstallation,
}

/// A directory that the user picked: its path, and the path in components.
pub struct PickedDirectory {
    pub path: String,
    pub components: Vec<String>,
}

/// Judges the user's choice of a backup directory: a directory is taken
/// unless the installation directory is known and the choice is that
/// directory or lies inside it.
pub fn select_backup_directory(
    picked: Option<PickedDirectory>,
    install_dir: Option<&Vec<String>>,
) -> (choice: DirectoryChoice)
    ensures
        match picked {
            None => choice is Cancelled,
            Some(dir) => {
                let inside = install_dir matches Some(home) && components_view(home@).is_prefix_of(
                    components_view(dir.components@),
                );
                if inside {
                    choice is InsideInstallation
                } else {
                    choice matches DirectoryChoice::Accepted { path } && path@ == dir.path@
                }
            },
        },
{
    match picked {
        None => DirectoryChoice::Cancelled,
        Some(dir) => {
            let inside = match install_dir {
                Some(home) => is_inside_install_dir(&dir.components, home),
                None => false,
            };
            if inside {
                DirectoryChoice::InsideInstallation
            } else {
                DirectoryChoice::Accepted { path: dir.path }
            }
        },
    }
}

} // verus!
