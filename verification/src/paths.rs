//! File names and their extensions, read off a path as text. A path's
//! components are separated by `/` or `\`.

use vstd::prelude::*;
use vstd::string::*;
use crate::text::chars_of;

verus! {

pub open spec fn is_separator(c: char) -> bool {
    c == '/' || c == '\\'
}

/// Where the file name begins in the first `upto` characters: behind the
/// last separator among them, or at 0.
pub open spec fn file_name_start(path: Seq<char>, upto: int) -> int
    decreases upto,
{
    if upto <= 0 {
        0
    } else if is_separator(path[upto - 1]) {
        upto
    } else {
        file_name_start(path, upto - 1)
    }
}

/// The last component of a path: what follows the last separator.
pub open spec fn file_name(path: Seq<char>) -> Seq<char> {
    path.skip(file_name_start(path, path.len() as int))
}

/// The position of the last `.` among the first `upto` characters, or -1.
pub open spec fn last_dot(name: Seq<char>, upto: int) -> int
    decreases upto,
{
    if upto <= 0 {
        -1
    } else if name[upto - 1] == '.' {
        upto - 1
    } else {
        last_dot(name, upto - 1)
    }
}

/// The extension of a path: what follows the last `.` of its file name.
/// There is none where the file name has no `.`, where its only `.` is its
/// first character, and for the name `..`.
pub open spec fn extension(path: Seq<char>) -> Option<Seq<char>> {
    let name = file_name(path);
    let dot = last_dot(name, name.len() as int);
    if dot <= 0 || name == ".."@ {
        None
    } else {
        Some(name.skip(dot + 1))
    }
}

proof fn lemma_file_name_start_bounds(path: Seq<char>, upto: int)
    requires
        0 <= upto <= path.len(),
    ensures
        0 <= file_name_start(path, upto) <= upto,
    decreases upto,
{
    if upto > 0 && !is_separator(path[upto - 1]) {
        lemma_file_name_start_bounds(path, upto - 1);
    }
}

proof fn lemma_last_dot_bounds(name: Seq<char>, upto: int)
    requires
        0 <= upto <= name.len(),
    ensures
        -1 <= last_dot(name, upto) < upto || (upto == 0 && last_dot(name, upto) == -1),
    decreases upto,
{
    if upto > 0 && name[upto - 1] != '.' {
        lemma_last_dot_bounds(name, upto - 1);
    }
}

/// The last dot of a suffix of a text lies where the last dot of the text
/// lies, if that is inside the suffix.
proof fn lemma_last_dot_of_suffix(path: Seq<char>, start: int, upto: int)
    requires
        0 <= start <= upto <= path.len(),
    ensures
        last_dot(path.skip(start), upto - start) == if last_dot(path, upto) >= start {
            last_dot(path, upto) - start
        } else {
            -1
        },
    decreases upto - start,
{
    lemma_last_dot_bounds(path, upto);
    if upto > start {
        assert(path.skip(start)[upto - start - 1] == path[upto - 1]);
        if path[upto - 1] != '.' {
            lemma_last_dot_of_suffix(path, start, upto - 1);
        }
    }
}

/// The extension of a path, if it has one.
pub fn extension_of(path: &str) -> (r: Option<String>)
    ensures
        match r {
            Some(ext) => extension(path@) == Some(ext@),
            None => extension(path@) is None,
        },
{
    let chars = chars_of(path);
    let n = chars.len();
    let mut start: usize = n;
    while start > 0 && !(chars[start - 1] == '/' || chars[start - 1] == '\\')
        invariant
            start <= n,
            n == chars@.len(),
            file_name_start(chars@, n as int) == file_name_start(chars@, start as int),
        decreases start,
    {
        start -= 1;
    }
    let mut dot: usize = n;
    while dot > start && chars[dot - 1] != '.'
        invariant
            start <= dot <= n,
            n == chars@.len(),
            last_dot(chars@, n as int) == last_dot(chars@, dot as int) || (last_dot(chars@, n as int)
                < start && last_dot(chars@, dot as int) < start),
            forall|j: int| dot <= j < n ==> chars@[j] != '.',
        decreases dot,
    {
        dot -= 1;
    }
    proof {
        lemma_last_dot_of_suffix(chars@, start as int, n as int);
        lemma_last_dot_bounds(chars@, dot as int);
        lemma_last_dot_bounds(chars@, n as int);
        reveal_strlit("..");
    }
    let ghost name = file_name(path@);
    assert(name == chars@.skip(start as int));
    if dot - start <= 1 {
        // no dot in the file name, or only in front of it
        return None;
    }
    let at: usize = dot - 1;
    assert(last_dot(chars@, n as int) == at);
    assert(last_dot(name, name.len() as int) == at - start);
    if n - start == 2 && chars[start] == '.' && chars[start + 1] == '.' {
        assert(name =~= ".."@);
        return None;
    }
    assert(name != ".."@) by {
        if name.len() == 2 {
            assert(name[0] == chars@[start as int]);
            assert(name[1] == chars@[start + 1]);
        }
    }
    let ext = String::from_str(path.substring_char(dot, n));
    assert(ext@ =~= name.skip(at - start + 1));
    Some(ext)
}

/// Whether the component `..` begins at `at`.
pub open spec fn is_parent_at(path: Seq<char>, at: int) -> bool {
    &&& 0 <= at
    &&& at + 2 <= path.len()
    &&& (at == 0 || is_separator(path[at - 1]))
    &&& path[at] == '.'
    &&& path[at + 1] == '.'
    &&& (at + 2 == path.len() || is_separator(path[at + 2]))
}

/// Whether one of the path's components is `..`.
pub open spec fn has_parent_component(path: Seq<char>) -> bool {
    exists|at: int| is_parent_at(path, at)
}

pub open spec fn is_ascii_letter(c: char) -> bool {
    ('a' <= c <= 'z') || ('A' <= c <= 'Z')
}

/// How the machine reads a path.
#[derive(Clone, Copy, Debug, PartialEq, Eq, Structural)]
pub enum PathStyle {
    /// A colon is a character like any other.
    Plain,
    /// A letter and a colon at the beginning name a drive.
    DriveLetters,
}

/// Whether the path begins with a letter and a colon.
pub open spec fn has_drive(path: Seq<char>) -> bool {
    path.len() > 1 && is_ascii_letter(path[0]) && path[1] == ':'
}

/// Whether the path is absolute: it begins with a separator, or, where
/// drives are named by letters, with a drive.
pub open spec fn is_absolute(path: Seq<char>, style: PathStyle) -> bool {
    ||| path.len() > 0 && is_separator(path[0])
    ||| style == PathStyle::DriveLetters && has_drive(path)
}

/// Whether a path, joined to a directory, names a place below that
/// directory: it is not absolute and none of its components is `..`.
pub open spec fn stays_below(path: Seq<char>, style: PathStyle) -> bool {
    !is_absolute(path, style) && !has_parent_component(path)
}

/// Whether a path, joined to a directory, names a place below that
/// directory.
pub fn stays_below_root(path: &str, style: PathStyle) -> (r: bool)
    ensures
        r == stays_below(path@, style),
{
    let chars = chars_of(path);
    let n = chars.len();
    if n > 0 && (chars[0] == '/' || chars[0] == '\\') {
        return false;
    }
    if style == PathStyle::DriveLetters && n > 1 && chars[1] == ':' && (('a' <= chars[0]
        && chars[0] <= 'z') || ('A' <= chars[0] && chars[0] <= 'Z')) {
        return false;
    }
    let mut at: usize = 0;
    while at < n
        invariant
            at <= n,
            n == chars@.len(),
            chars@ == path@,
            !is_absolute(path@, style),
            forall|k: int| 0 <= k < at ==> !is_parent_at(path@, k),
        decreases n - at,
    {
        let begins = at == 0 || chars[at - 1] == '/' || chars[at - 1] == '\\';
        if begins && n - at >= 2 && chars[at] == '.' && chars[at + 1] == '.' {
            let ends = n - at == 2 || chars[at + 2] == '/' || chars[at + 2] == '\\';
            if ends {
                assert(is_parent_at(path@, at as int));
                return false;
            }
        }
        at += 1;
    }
    true
}

} // verus!
