//! Version numbers: reading them from text and telling which is newer.

use vstd::prelude::*;
use vstd::string::*;
use crate::text::chars_of;

verus! {

pub open spec fn is_digit(c: char) -> bool {
    '0' <= c <= '9'
}

pub open spec fn digit_value(c: char) -> nat {
    if is_digit(c) {
        (c as u32 - '0' as u32) as nat
    } else {
        0
    }
}

/// The number that a run of decimal digits stands for.
pub open spec fn decimal_value(digits: Seq<char>) -> nat
    decreases digits.len(),
{
    if digits.len() == 0 {
        0
    } else {
        decimal_value(digits.drop_last()) * 10 + digit_value(digits.last())
    }
}

pub open spec fn all_digits(s: Seq<char>) -> bool {
    forall|i: int| 0 <= i < s.len() ==> is_digit(#[trigger] s[i])
}

/// A piece of text as an unsigned 32-bit number: an optional `+`, then at
/// least one decimal digit and nothing else, with a value that fits.
pub open spec fn parse_u32(s: Seq<char>) -> Option<u32> {
    let digits = if s.len() > 0 && s[0] == '+' {
        s.skip(1)
    } else {
        s
    };
    if digits.len() > 0 && all_digits(digits) && decimal_value(digits) <= u32::MAX {
        Some(decimal_value(digits) as u32)
    } else {
        None
    }
}

/// Where the run of `v` that begins at `from` ends.
pub open spec fn leading_v_end(s: Seq<char>, from: int) -> int
    decreases s.len() - from,
{
    if 0 <= from < s.len() && s[from] == 'v' {
        leading_v_end(s, from + 1)
    } else {
        from
    }
}

/// Where the piece that begins at `from` ends: at the next `.`, or at the
/// end of the text.
pub open spec fn piece_end(s: Seq<char>, from: int) -> int
    decreases s.len() - from,
{
    if 0 <= from < s.len() && s[from] != '.' {
        piece_end(s, from + 1)
    } else {
        from
    }
}

/// The numbers among the pieces, separated by `.`, of the text from `from`
/// on. A piece that is no number is passed over.
pub open spec fn numbers_from(s: Seq<char>, from: int) -> Seq<u32>
    decreases s.len() - from + 1,
{
    if 0 <= from <= s.len() {
        let end = piece_end(s, from);
        if from <= end <= s.len() {
            let rest = numbers_from(s, end + 1);
            match parse_u32(s.subrange(from, end)) {
                Some(n) => seq![n] + rest,
                None => rest,
            }
        } else {
            Seq::empty()
        }
    } else {
        Seq::empty()
    }
}

/// The numbers of a version: every leading `v` is dropped, the rest is cut
/// at each `.`, and the pieces that are numbers are kept.
pub open spec fn version_numbers(version: Seq<char>) -> Seq<u32> {
    numbers_from(version, leading_v_end(version, 0))
}

/// The number at a position of a version, 0 where it has none.
pub open spec fn number_at(numbers: Seq<u32>, i: int) -> u32 {
    if 0 <= i < numbers.len() {
        numbers[i]
    } else {
        0
    }
}

/// Whether `latest` is a newer version than `current`: its first three
/// numbers, taken in turn, are greater at the first place where they
/// differ.
pub open spec fn is_newer(current: Seq<char>, latest: Seq<char>) -> bool {
    let c = version_numbers(current);
    let l = version_numbers(latest);
    if number_at(l, 0) != number_at(c, 0) {
        number_at(l, 0) > number_at(c, 0)
    } else if number_at(l, 1) != number_at(c, 1) {
        number_at(l, 1) > number_at(c, 1)
    } else {
        number_at(l, 2) > number_at(c, 2)
    }
}

proof fn lemma_piece_end_bounds(s: Seq<char>, from: int)
    requires
        0 <= from <= s.len(),
    ensures
        from <= piece_end(s, from) <= s.len(),
    decreases s.len() - from,
{
    if from < s.len() && s[from] != '.' {
        lemma_piece_end_bounds(s, from + 1);
    }
}

/// More digits never make a smaller number.
proof fn lemma_decimal_value_grows(s: Seq<char>, a: int, i: int, j: int)
    requires
        0 <= a <= i <= j <= s.len(),
    ensures
        decimal_value(s.subrange(a, i)) <= decimal_value(s.subrange(a, j)),
    decreases j - i,
{
    if i < j {
        lemma_decimal_value_grows(s, a, i, j - 1);
        assert(s.subrange(a, j).drop_last() =~= s.subrange(a, j - 1));
    }
}

fn parse_piece(chars: &Vec<char>, start: usize, end: usize) -> (r: Option<u32>)
    requires
        start <= end <= chars@.len(),
    ensures
        r == parse_u32(chars@.subrange(start as int, end as int)),
{
    let ghost piece = chars@.subrange(start as int, end as int);
    let first: usize = if start < end && chars[start] == '+' {
        start + 1
    } else {
        start
    };
    let ghost digits = chars@.subrange(first as int, end as int);
    assert(digits =~= if piece.len() > 0 && piece[0] == '+' {
        piece.skip(1)
    } else {
        piece
    });
    if first == end {
        return None;
    }
    let mut value: u64 = 0;
    let mut i: usize = first;
    while i < end
        invariant
            first <= i <= end <= chars@.len(),
            first < end,
            start <= end,
            piece == chars@.subrange(start as int, end as int),
            digits == chars@.subrange(first as int, end as int),
            digits == (if piece.len() > 0 && piece[0] == '+' {
                piece.skip(1)
            } else {
                piece
            }),
            all_digits(chars@.subrange(first as int, i as int)),
            value == decimal_value(chars@.subrange(first as int, i as int)),
            value <= u32::MAX,
        decreases end - i,
    {
        let c = chars[i];
        let ghost upto = chars@.subrange(first as int, i + 1);
        assert(upto.drop_last() =~= chars@.subrange(first as int, i as int));
        assert(upto.last() == c);
        if !('0' <= c && c <= '9') {
            assert(digits[i - first] == c);
            return None;
        }
        let d: u64 = (c as u32 - '0' as u32) as u64;
        let next: u64 = value * 10 + d;
        if next > u32::MAX as u64 {
            proof {
                lemma_decimal_value_grows(chars@, first as int, i + 1, end as int);
            }
            return None;
        }
        value = next;
        assert forall|j: int| 0 <= j < upto.len() implies is_digit(#[trigger] upto[j]) by {
            if j < upto.len() - 1 {
                assert(upto[j] == chars@.subrange(first as int, i as int)[j]);
            }
        }
        i += 1;
    }
    assert(chars@.subrange(first as int, i as int) =~= digits);
    Some(value as u32)
}

fn numbers_of(version: &str) -> (numbers: Vec<u32>)
    ensures
        numbers@ == version_numbers(version@),
{
    let chars = chars_of(version);
    let n = chars.len();
    let mut start: usize = 0;
    while start < n && chars[start] == 'v'
        invariant
            start <= n,
            n == chars@.len(),
            leading_v_end(chars@, 0) == leading_v_end(chars@, start as int),
        decreases n - start,
    {
        start += 1;
    }
    let mut numbers: Vec<u32> = Vec::new();
    let ghost whole = version_numbers(version@);
    let mut done = false;
    while !done
        invariant
            start <= n,
            n == chars@.len(),
            chars@ == version@,
            whole == version_numbers(version@),
            !done ==> whole == numbers@ + numbers_from(chars@, start as int),
            done ==> whole == numbers@,
        decreases n - start + (if done { 0int } else { 1int }),
    {
        let mut end: usize = start;
        while end < n && chars[end] != '.'
            invariant
                start <= end <= n,
                n == chars@.len(),
                piece_end(chars@, start as int) == piece_end(chars@, end as int),
            decreases n - end,
        {
            end += 1;
        }
        proof {
            lemma_piece_end_bounds(chars@, start as int);
        }
        let ghost before = numbers@;
        match parse_piece(&chars, start, end) {
            Some(v) => {
                numbers.push(v);
                assert(numbers@ =~= before + seq![v]);
            },
            None => {},
        }
        if end < n {
            assert(whole =~= numbers@ + numbers_from(chars@, end + 1));
            start = end + 1;
        } else {
            assert(numbers_from(chars@, end + 1) =~= Seq::<u32>::empty());
            assert(whole =~= numbers@);
            done = true;
        }
    }
    numbers
}

fn number_or_zero(numbers: &Vec<u32>, i: usize) -> (r: u32)
    ensures
        r == number_at(numbers@, i as int),
{
    if i < numbers.len() {
        numbers[i]
    } else {
        0
    }
}

/// Whether `latest` is a newer version than `current`. A leading `v` does
/// not count; pieces that are no numbers are passed over; only the first
/// three numbers are looked at, and a missing one counts as 0.
pub fn compare_versions(current: &str, latest: &str) -> (newer: bool)
    ensures
        newer == is_newer(current@, latest@),
{
    let c = numbers_of(current);
    let l = numbers_of(latest);
    let mut i: usize = 0;
    while i < 3
        invariant
            i <= 3,
            forall|j: int| 0 <= j < i ==> number_at(l@, j) == number_at(c@, j),
            c@ == version_numbers(current@),
            l@ == version_numbers(latest@),
        decreases 3 - i,
    {
        let from_current = number_or_zero(&c, i);
        let from_latest = number_or_zero(&l, i);
        if from_latest > from_current {
            return true;
        } else if from_latest < from_current {
            return false;
        }
        i += 1;
    }
    false
}

/// A published release, as the release service describes it.
pub struct Release {
    pub tag_name: String,
    pub html_url: String,
    pub body: Option<String>,
    pub published_at: String,
}

/// What a check for updates found.
#[derive(Debug)]
pub struct UpdateInfo {
    pub has_update: bool,
    pub current_version: String,
    pub latest_version: Option<String>,
    pub release_url: Option<String>,
    pub release_notes: Option<String>,
    pub published_at: Option<String>,
}

/// The text of an optional string.
pub open spec fn text_of(s: Option<String>) -> Option<Seq<char>> {
    match s {
        Some(t) => Some(t@),
        None => None,
    }
}

/// What to tell of the latest release to an installation that runs
/// `current_version`: there is an update where the release's tag is a newer
/// version.
pub fn check_for_updates(current_version: &str, release: Release) -> (info: UpdateInfo)
    ensures
        info.has_update == is_newer(current_version@, release.tag_name@),
        info.current_version@ == current_version@,
        text_of(info.latest_version) == Some(release.tag_name@),
        text_of(info.release_url) == Some(release.html_url@),
        text_of(info.release_notes) == text_of(release.body),
        text_of(info.published_at) == Some(release.published_at@),
{
    let has_update = compare_versions(current_version, release.tag_name.as_str());
    UpdateInfo {
        has_update,
        current_version: String::from_str(current_version),
        latest_version: Some(release.tag_name),
        release_url: Some(release.html_url),
        release_notes: release.body,
        published_at: Some(release.published_at),
    }
}

} // verus!
