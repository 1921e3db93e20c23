//! Calendar time as plain fields, and the archive file name made from it.

use vstd::prelude::*;
use vstd::string::*;
use vstd::utf8::*;
use crate::text::{
    ends_with, lemma_encode_concat, lemma_lex_le_common_prefix, lemma_lex_le_reflexive, lex_le,
    starts_with, text_le,
};

verus! {

/// A local date and time of day, to the second.
#[derive(Clone, Copy, Debug, PartialEq, Eq, Structural)]
pub struct Timestamp {
    pub year: i32,
    pub month: u32,
    pub day: u32,
    pub hour: u32,
    pub minute: u32,
    pub second: u32,
}

impl Timestamp {
    /// Every field lies in its calendar range.
    pub open spec fn wf(&self) -> bool {
        &&& 1 <= self.month <= 12
        &&& 1 <= self.day <= 31
        &&& self.hour <= 23
        &&& self.minute <= 59
        &&& self.second <= 59
    }

    /// The fields as one number that grows with time: the month, day,
    /// hour, minute and second as two decimal digits each, below the year.
    pub open spec fn ordinal(&self) -> int {
        self.year * 10_000_000_000 + self.month * 100_000_000 + self.day * 1_000_000 + self.hour
            * 10_000 + self.minute * 100 + self.second
    }

    /// The timestamp with these fields, if each lies in its range.
    pub fn new(year: i32, month: u32, day: u32, hour: u32, minute: u32, second: u32) -> (r: Option<
        Timestamp,
    >)
        ensures
            r == (if (Timestamp { year, month, day, hour, minute, second }).wf() {
                Some(Timestamp { year, month, day, hour, minute, second })
            } else {
                None
            }),
    {
        if 1 <= month && month <= 12 && 1 <= day && day <= 31 && hour <= 23 && minute <= 59
            && second <= 59 {
            Some(Timestamp { year, month, day, hour, minute, second })
        } else {
            None
        }
    }
}

/// The character of a decimal digit.
pub open spec fn digit_char(d: int) -> char {
    if d == 0 {
        '0'
    } else if d == 1 {
        '1'
    } else if d == 2 {
        '2'
    } else if d == 3 {
        '3'
    } else if d == 4 {
        '4'
    } else if d == 5 {
        '5'
    } else if d == 6 {
        '6'
    } else if d == 7 {
        '7'
    } else if d == 8 {
        '8'
    } else {
        '9'
    }
}

/// A number below 100 as two digits.
pub open spec fn two_digits(n: int) -> Seq<char> {
    seq![digit_char(n / 10), digit_char(n % 10)]
}

/// A number below 10000 as four digits.
pub open spec fn four_digits(n: int) -> Seq<char> {
    two_digits(n / 100) + two_digits(n % 100)
}

/// A natural number in decimal, without leading zeros.
pub open spec fn decimal(n: nat) -> Seq<char>
    decreases n,
{
    if n < 10 {
        seq![digit_char(n as int)]
    } else {
        decimal(n / 10).push(digit_char((n % 10) as int))
    }
}

/// The year as it stands in a file name: four digits from 0 to 9999;
/// outside that range a sign and at least four digits.
pub open spec fn year_text(year: int) -> Seq<char> {
    if 0 <= year <= 9999 {
        four_digits(year)
    } else if year < 0 {
        if -year <= 9999 {
            seq!['-'] + four_digits(-year)
        } else {
            seq!['-'] + decimal((-year) as nat)
        }
    } else {
        seq!['+'] + decimal(year as nat)
    }
}

/// Date and time as `YYYYMMDD_HHMMSS`.
pub open spec fn timestamp_text(t: Timestamp) -> Seq<char> {
    year_text(t.year as int) + two_digits(t.month as int) + two_digits(t.day as int) + seq!['_']
        + two_digits(t.hour as int) + two_digits(t.minute as int) + two_digits(t.second as int)
}

/// What every archive name begins with.
pub open spec fn backup_prefix() -> Seq<char> {
    "litepad_backup_"@
}

/// What every archive name ends with.
pub open spec fn backup_suffix() -> Seq<char> {
    ".zip"@
}

/// The name of the archive made at `t`.
pub open spec fn backup_name(t: Timestamp) -> Seq<char> {
    backup_prefix() + timestamp_text(t) + backup_suffix()
}

/// Whether a file name follows the archive naming convention.
pub open spec fn is_backup_name(name: Seq<char>) -> bool {
    backup_prefix().is_prefix_of(name) && backup_suffix().is_suffix_of(name)
}

fn digit_str(d: u32) -> (r: &'static str)
    requires
        d <= 9,
    ensures
        r@ == seq![digit_char(d as int)],
{
    proof {
        reveal_strlit("0");
        reveal_strlit("1");
        reveal_strlit("2");
        reveal_strlit("3");
        reveal_strlit("4");
        reveal_strlit("5");
        reveal_strlit("6");
        reveal_strlit("7");
        reveal_strlit("8");
        reveal_strlit("9");
    }
    let r = if d == 0 {
        "0"
    } else if d == 1 {
        "1"
    } else if d == 2 {
        "2"
    } else if d == 3 {
        "3"
    } else if d == 4 {
        "4"
    } else if d == 5 {
        "5"
    } else if d == 6 {
        "6"
    } else if d == 7 {
        "7"
    } else if d == 8 {
        "8"
    } else {
        "9"
    };
    assert(r@ =~= seq![digit_char(d as int)]);
    r
}

fn push_two_digits(out: &mut String, n: u32)
    requires
        n <= 99,
    ensures
        final(out)@ == old(out)@ + two_digits(n as int),
{
    out.append(digit_str(n / 10));
    out.append(digit_str(n % 10));
    assert(out@ =~= old(out)@ + two_digits(n as int));
}

fn push_decimal(out: &mut String, n: u32)
    ensures
        final(out)@ == old(out)@ + decimal(n as nat),
    decreases n,
{
    if n < 10 {
        out.append(digit_str(n));
        assert(out@ =~= old(out)@ + decimal(n as nat));
    } else {
        push_decimal(out, n / 10);
        out.append(digit_str(n % 10));
        assert(out@ =~= old(out)@ + decimal(n as nat));
    }
}

fn push_year(out: &mut String, year: i32)
    ensures
        final(out)@ == old(out)@ + year_text(year as int),
{
    if 0 <= year && year <= 9999 {
        let y: u32 = year as u32;
        push_two_digits(out, y / 100);
        push_two_digits(out, y % 100);
        assert(out@ =~= old(out)@ + year_text(year as int));
    } else {
        let wide: i64 = year as i64;
        let magnitude: u32 = (if wide < 0 { -wide } else { wide }) as u32;
        if year < 0 {
            proof {
                reveal_strlit("-");
            }
            out.append("-");
            assert(out@ =~= old(out)@ + seq!['-']);
        } else {
            proof {
                reveal_strlit("+");
            }
            out.append("+");
            assert(out@ =~= old(out)@ + seq!['+']);
        }
        if magnitude <= 9999 {
            push_two_digits(out, magnitude / 100);
            push_two_digits(out, magnitude % 100);
        } else {
            push_decimal(out, magnitude);
        }
        assert(out@ =~= old(out)@ + year_text(year as int));
    }
}

/// The name of the archive made at `t`: `litepad_backup_`, the date and
/// time as `YYYYMMDD_HHMMSS`, and `.zip`.
pub fn backup_filename(t: &Timestamp) -> (name: String)
    requires
        t.wf(),
    ensures
        name@ == backup_name(*t),
{
    let mut out = String::from_str("litepad_backup_");
    let ghost start = out@;
    push_year(&mut out, t.year);
    push_two_digits(&mut out, t.month);
    push_two_digits(&mut out, t.day);
    proof {
        reveal_strlit("_");
    }
    out.append("_");
    push_two_digits(&mut out, t.hour);
    push_two_digits(&mut out, t.minute);
    push_two_digits(&mut out, t.second);
    assert(out@ =~= start + timestamp_text(*t));
    out.append(".zip");
    assert(out@ =~= backup_name(*t));
    out
}

/// Whether a file name follows the archive naming convention.
pub fn is_backup_filename(name: &str) -> (r: bool)
    ensures
        r == is_backup_name(name@),
{
    starts_with(name, "litepad_backup_") && ends_with(name, ".zip")
}

/// The name of an archive follows the archive naming convention.
pub proof fn lemma_backup_name_follows_convention(t: Timestamp)
    ensures
        is_backup_name(backup_name(t)),
{
    let name = backup_name(t);
    let p = backup_prefix();
    let z = backup_suffix();
    assert(name.subrange(0, p.len() as int) =~= p);
    assert(name.subrange(name.len() - z.len(), name.len() as int) =~= z);
}

/// The name of an archive made in a year from 0 to 9999 has 34
/// characters.
pub proof fn lemma_backup_name_length(t: Timestamp)
    requires
        0 <= t.year <= 9999,
    ensures
        backup_name(t).len() == 34,
{
    reveal_strlit("litepad_backup_");
    reveal_strlit(".zip");
}

/// The byte of a decimal digit.
spec fn digit_byte(d: int) -> u8 {
    (48 + d) as u8
}

/// Two digits as bytes.
spec fn pair_bytes(n: int) -> Seq<u8> {
    seq![digit_byte(n / 10), digit_byte(n % 10)]
}

/// The bytes of the date and time in a name, for a year of four digits,
/// and then `rest`.
spec fn stamp_then(t: Timestamp, rest: Seq<u8>) -> Seq<u8> {
    pair_bytes(t.year as int / 100) + (pair_bytes(t.year as int % 100) + (pair_bytes(
        t.month as int,
    ) + (pair_bytes(t.day as int) + (seq![95u8] + (pair_bytes(t.hour as int) + (pair_bytes(
        t.minute as int,
    ) + (pair_bytes(t.second as int) + rest)))))))
}

/// Whether `a` is no later than `b`, field by field.
spec fn stamp_le(a: Timestamp, b: Timestamp) -> bool {
    if a.year as int / 100 != b.year as int / 100 {
        a.year as int / 100 < b.year as int / 100
    } else if a.year as int % 100 != b.year as int % 100 {
        a.year as int % 100 < b.year as int % 100
    } else if a.month != b.month {
        a.month < b.month
    } else if a.day != b.day {
        a.day < b.day
    } else if a.hour != b.hour {
        a.hour < b.hour
    } else if a.minute != b.minute {
        a.minute < b.minute
    } else {
        a.second <= b.second
    }
}

proof fn lemma_pair_text(n: int)
    requires
        0 <= n < 100,
    ensures
        encode_utf8(two_digits(n)) == pair_bytes(n),
{
    let text = two_digits(n);
    assert(is_ascii_chars(text));
    is_ascii_chars_encode_utf8(text);
    let bytes = encode_utf8(text);
    assert(bytes[0] == text[0] as u8);
    assert(bytes[1] == text[1] as u8);
    assert(bytes =~= pair_bytes(n));
}

proof fn lemma_underscore_text()
    ensures
        encode_utf8(seq!['_']) == seq![95u8],
{
    let text = seq!['_'];
    assert(is_ascii_chars(text));
    is_ascii_chars_encode_utf8(text);
    assert(encode_utf8(text)[0] == text[0] as u8);
    assert(encode_utf8(text) =~= seq![95u8]);
}

/// Eight pieces and a rest, joined from the left, are the same joined
/// from the right.
proof fn lemma_join_from_the_right(
    e1: Seq<u8>,
    e2: Seq<u8>,
    e3: Seq<u8>,
    e4: Seq<u8>,
    e5: Seq<u8>,
    e6: Seq<u8>,
    e7: Seq<u8>,
    e8: Seq<u8>,
    rest: Seq<u8>,
)
    ensures
        (((((((e1 + e2) + e3) + e4) + e5) + e6) + e7) + e8) + rest == e1 + (e2 + (e3 + (e4 + (e5
            + (e6 + (e7 + (e8 + rest))))))),
{
    assert((((((((e1 + e2) + e3) + e4) + e5) + e6) + e7) + e8) + rest =~= e1 + (e2 + (e3 + (e4 + (
    e5 + (e6 + (e7 + (e8 + rest))))))));
}

/// The UTF-8 bytes of eight texts joined are their bytes joined.
proof fn lemma_encode_joined(
    c1: Seq<char>,
    c2: Seq<char>,
    c3: Seq<char>,
    c4: Seq<char>,
    c5: Seq<char>,
    c6: Seq<char>,
    c7: Seq<char>,
    c8: Seq<char>,
)
    ensures
        encode_utf8(((((((c1 + c2) + c3) + c4) + c5) + c6) + c7) + c8) == ((((((encode_utf8(c1)
            + encode_utf8(c2)) + encode_utf8(c3)) + encode_utf8(c4)) + encode_utf8(c5))
            + encode_utf8(c6)) + encode_utf8(c7)) + encode_utf8(c8),
{
    let s1 = c1 + c2;
    let s2 = s1 + c3;
    let s3 = s2 + c4;
    let s4 = s3 + c5;
    let s5 = s4 + c6;
    let s6 = s5 + c7;
    lemma_encode_concat(c1, c2);
    lemma_encode_concat(s1, c3);
    lemma_encode_concat(s2, c4);
    lemma_encode_concat(s3, c5);
    lemma_encode_concat(s4, c6);
    lemma_encode_concat(s5, c7);
    lemma_encode_concat(s6, c8);
}

proof fn lemma_stamp_encoding(t: Timestamp, rest: Seq<u8>)
    requires
        t.wf(),
        0 <= t.year <= 9999,
    ensures
        encode_utf8(timestamp_text(t)) + rest == stamp_then(t, rest),
{
    let y1 = two_digits(t.year as int / 100);
    let y2 = two_digits(t.year as int % 100);
    let mo = two_digits(t.month as int);
    let d = two_digits(t.day as int);
    let u = seq!['_'];
    let h = two_digits(t.hour as int);
    let mi = two_digits(t.minute as int);
    let sec = two_digits(t.second as int);
    assert(timestamp_text(t) == (((((((y1 + y2) + mo) + d) + u) + h) + mi) + sec));
    lemma_encode_joined(y1, y2, mo, d, u, h, mi, sec);
    lemma_pair_text(t.year as int / 100);
    lemma_pair_text(t.year as int % 100);
    lemma_pair_text(t.month as int);
    lemma_pair_text(t.day as int);
    lemma_underscore_text();
    lemma_pair_text(t.hour as int);
    lemma_pair_text(t.minute as int);
    lemma_pair_text(t.second as int);
    lemma_join_from_the_right(
        pair_bytes(t.year as int / 100),
        pair_bytes(t.year as int % 100),
        pair_bytes(t.month as int),
        pair_bytes(t.day as int),
        seq![95u8],
        pair_bytes(t.hour as int),
        pair_bytes(t.minute as int),
        pair_bytes(t.second as int),
        rest,
    );
}

/// Behind the same byte, two byte strings stand in the order of what
/// follows it.
proof fn lemma_same_head(c: u8, r1: Seq<u8>, r2: Seq<u8>)
    ensures
        lex_le(seq![c] + r1, seq![c] + r2) == lex_le(r1, r2),
{
    let x = seq![c] + r1;
    let y = seq![c] + r2;
    assert(x.skip(1) =~= r1);
    assert(y.skip(1) =~= r2);
}

/// Two numbers below 100, written as two digits each, stand in the order
/// of the numbers; behind the same number, what follows decides.
proof fn lemma_pair_order(m: int, n: int, r1: Seq<u8>, r2: Seq<u8>)
    requires
        0 <= m < 100,
        0 <= n < 100,
    ensures
        lex_le(pair_bytes(m) + r1, pair_bytes(n) + r2) == (if m == n {
            lex_le(r1, r2)
        } else {
            m < n
        }),
{
    let x = pair_bytes(m) + r1;
    let y = pair_bytes(n) + r2;
    assert(x[0] == digit_byte(m / 10) && y[0] == digit_byte(n / 10));
    assert(x.skip(1)[0] == digit_byte(m % 10) && y.skip(1)[0] == digit_byte(n % 10));
    assert(x.skip(1).skip(1) =~= r1);
    assert(y.skip(1).skip(1) =~= r2);
    assert(x.skip(1).len() > 0 && y.skip(1).len() > 0);
    if m / 10 != n / 10 {
        assert(lex_le(x, y) == (m / 10 < n / 10));
    } else {
        assert(lex_le(x, y) == lex_le(x.skip(1), y.skip(1)));
        if m % 10 != n % 10 {
            assert(lex_le(x.skip(1), y.skip(1)) == (m % 10 < n % 10));
        } else {
            assert(lex_le(x.skip(1), y.skip(1)) == lex_le(r1, r2));
        }
    }
}

proof fn lemma_stamp_order(a: Timestamp, b: Timestamp, rest: Seq<u8>)
    requires
        a.wf(),
        b.wf(),
        0 <= a.year <= 9999,
        0 <= b.year <= 9999,
    ensures
        lex_le(stamp_then(a, rest), stamp_then(b, rest)) == stamp_le(a, b),
{
    lemma_lex_le_reflexive(rest);
    let a7 = pair_bytes(a.second as int) + rest;
    let b7 = pair_bytes(b.second as int) + rest;
    lemma_pair_order(a.second as int, b.second as int, rest, rest);
    let a6 = pair_bytes(a.minute as int) + a7;
    let b6 = pair_bytes(b.minute as int) + b7;
    lemma_pair_order(a.minute as int, b.minute as int, a7, b7);
    let a5 = pair_bytes(a.hour as int) + a6;
    let b5 = pair_bytes(b.hour as int) + b6;
    lemma_pair_order(a.hour as int, b.hour as int, a6, b6);
    let a4 = seq![95u8] + a5;
    let b4 = seq![95u8] + b5;
    lemma_same_head(95u8, a5, b5);
    let a3 = pair_bytes(a.day as int) + a4;
    let b3 = pair_bytes(b.day as int) + b4;
    lemma_pair_order(a.day as int, b.day as int, a4, b4);
    let a2 = pair_bytes(a.month as int) + a3;
    let b2 = pair_bytes(b.month as int) + b3;
    lemma_pair_order(a.month as int, b.month as int, a3, b3);
    let a1 = pair_bytes(a.year as int % 100) + a2;
    let b1 = pair_bytes(b.year as int % 100) + b2;
    lemma_pair_order(a.year as int % 100, b.year as int % 100, a2, b2);
    lemma_pair_order(a.year as int / 100, b.year as int / 100, a1, b1);
}

proof fn lemma_stamp_le_is_time_order(a: Timestamp, b: Timestamp)
    requires
        a.wf(),
        b.wf(),
        0 <= a.year <= 9999,
        0 <= b.year <= 9999,
    ensures
        stamp_le(a, b) <==> a.ordinal() <= b.ordinal(),
{
    let ya = a.year as int;
    let yb = b.year as int;
    assert(ya == 100 * (ya / 100) + ya % 100);
    assert(yb == 100 * (yb / 100) + yb % 100);
    let ra = a.month * 100_000_000 + a.day * 1_000_000 + a.hour * 10_000 + a.minute * 100
        + a.second;
    let rb = b.month * 100_000_000 + b.day * 1_000_000 + b.hour * 10_000 + b.minute * 100
        + b.second;
    assert(0 <= ra < 10_000_000_000);
    assert(0 <= rb < 10_000_000_000);
    assert(a.ordinal() == ya * 10_000_000_000 + ra);
    assert(b.ordinal() == yb * 10_000_000_000 + rb);
    if ya / 100 != yb / 100 {
        assert((ya / 100 < yb / 100) <==> ya < yb);
    }
}

/// File names order as time does: of two archives made in years from 0
/// to 9999, the one made later has the name that comes later, and only
/// archives made in the same second have the same place.
pub proof fn lemma_backup_names_order_by_time(a: Timestamp, b: Timestamp)
    requires
        a.wf(),
        b.wf(),
        0 <= a.year <= 9999,
        0 <= b.year <= 9999,
    ensures
        text_le(backup_name(a), backup_name(b)) <==> a.ordinal() <= b.ordinal(),
{
    let p = encode_utf8(backup_prefix());
    let z = encode_utf8(backup_suffix());
    lemma_encode_concat(backup_prefix() + timestamp_text(a), backup_suffix());
    lemma_encode_concat(backup_prefix(), timestamp_text(a));
    lemma_encode_concat(backup_prefix() + timestamp_text(b), backup_suffix());
    lemma_encode_concat(backup_prefix(), timestamp_text(b));
    let na = encode_utf8(backup_name(a));
    let nb = encode_utf8(backup_name(b));
    let ta = encode_utf8(timestamp_text(a));
    let tb = encode_utf8(timestamp_text(b));
    assert(na == p + ta + z);
    assert(nb == p + tb + z);
    lemma_lex_le_common_prefix(na, nb, p.len() as int);
    assert(na.skip(p.len() as int) =~= ta + z);
    assert(nb.skip(p.len() as int) =~= tb + z);
    lemma_stamp_encoding(a, z);
    lemma_stamp_encoding(b, z);
    lemma_stamp_order(a, b, z);
    lemma_stamp_le_is_time_order(a, b);
}

} // verus!
