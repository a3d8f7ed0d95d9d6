//! Dates of memories: reading the export's date strings and turning them into
//! sortable file-name prefixes (`YYYY-MM-DD_HH-MM-SS`).

use chrono::{Datelike, TimeZone, Timelike};
use vstd::prelude::*;

use crate::paths::{path_extension, path_extension_exec};
use crate::text::{eq_ignore_ascii_case, eq_ignore_ascii_case_exec, chars_of, concat, sub_vec, replace, replace_exec, string_of, strip_suffix, strip_suffix_exec, trim, trim_exec};

verus! {

/// A UTC instant as chrono reports it: the Unix timestamp and the calendar fields.
/// `nanosecond` runs past 999_999_999 only during a leap second.
#[derive(Clone, Copy, Debug, PartialEq, Eq, Structural)]
pub struct DateParts {
    pub timestamp: i64,
    pub year: i32,
    pub month: u32,
    pub day: u32,
    pub hour: u32,
    pub minute: u32,
    pub second: u32,
    pub nanosecond: u32,
}

/// The field ranges chrono documents for its calendar and clock accessors.
pub open spec fn parts_in_range(p: DateParts) -> bool {
    &&& 1 <= p.month <= 12
    &&& 1 <= p.day <= 31
    &&& p.hour <= 23
    &&& p.minute <= 59
    &&& p.second <= 59
    &&& p.nanosecond < 2_000_000_000
    &&& timestamp_in_range(p.timestamp)
}

/// chrono's dates span the years -262143 to 262142, so their timestamps stay below 2^43
/// seconds either side of the epoch.
pub open spec fn timestamp_in_range(t: i64) -> bool {
    -0x800_0000_0000 < t < 0x800_0000_0000
}

// ---------------------------------------------------------------------------
// The calendar behind a timestamp
// ---------------------------------------------------------------------------

/// A leap year of the proleptic Gregorian calendar.
pub open spec fn is_leap_year(y: int) -> bool {
    y % 4 == 0 && (y % 100 != 0 || y % 400 == 0)
}

pub open spec fn year_days(y: int) -> int {
    if is_leap_year(y) { 366 } else { 365 }
}

/// Days in month `m` (1 to 12) of year `y`.
pub open spec fn month_days(y: int, m: int) -> int {
    if m == 2 {
        if is_leap_year(y) { 29 } else { 28 }
    } else if m == 4 || m == 6 || m == 9 || m == 11 {
        30
    } else {
        31
    }
}

/// Days of year `y` before month `m` (1 to 12).
pub open spec fn days_before_month(y: int, m: int) -> int {
    let l = if is_leap_year(y) { 1int } else { 0int };
    if m <= 1 { 0 }
    else if m == 2 { 31 }
    else if m == 3 { 59 + l }
    else if m == 4 { 90 + l }
    else if m == 5 { 120 + l }
    else if m == 6 { 151 + l }
    else if m == 7 { 181 + l }
    else if m == 8 { 212 + l }
    else if m == 9 { 243 + l }
    else if m == 10 { 273 + l }
    else if m == 11 { 304 + l }
    else { 334 + l }
}

/// Days from 1 January 1970 to 1 January of year `y` (negative before 1970).
pub open spec fn days_before_year(y: int) -> int
    decreases (if y >= 1970 { y - 1970 } else { 1970 - y }),
{
    if y == 1970 {
        0
    } else if y > 1970 {
        days_before_year(y - 1) + year_days(y - 1)
    } else {
        days_before_year(y + 1) - year_days(y)
    }
}

/// The Unix time of the calendar fields: non-leap seconds since 1970-01-01 00:00:00 UTC.
pub open spec fn unix_seconds(p: DateParts) -> int {
    (days_before_year(p.year as int) + days_before_month(p.year as int, p.month as int) + p.day - 1) * 86400
        + p.hour * 3600 + p.minute * 60 + p.second
}

/// The fields name a day of the calendar and the timestamp is their Unix time.
pub open spec fn parts_consistent(p: DateParts) -> bool {
    &&& p.day <= month_days(p.year as int, p.month as int)
    &&& p.timestamp == unix_seconds(p)
}

// ---------------------------------------------------------------------------
// Trusted items: chrono's parsers
// ---------------------------------------------------------------------------

/// What `chrono::DateTime::parse_from_rfc3339` gives for a string, converted to UTC.
pub uninterp spec fn rfc3339_instant(s: Seq<char>) -> Option<DateParts>;

/// What `chrono::NaiveDateTime::parse_from_str` gives for a string and a format,
/// read as a UTC wall-clock time.
pub uninterp spec fn naive_utc_instant(s: Seq<char>, fmt: Seq<char>) -> Option<DateParts>;

/// What `chrono::NaiveDate::parse_from_str` gives for a string and a format: the Unix
/// timestamp of that day's midnight, UTC.
pub uninterp spec fn naive_date_midnight(s: Seq<char>, fmt: Seq<char>) -> Option<i64>;

/// Calls `chrono::NaiveDate::parse_from_str` and takes the timestamp of midnight UTC on the
/// parsed day. Trusted: the result is `naive_date_midnight` of the arguments and lies in
/// chrono's date range.
#[verifier::external_body]
pub(crate) fn parse_naive_date_midnight(s: &str, fmt: &str) -> (r: Option<i64>)
    ensures
        r == naive_date_midnight(s@, fmt@),
        r matches Some(t) ==> timestamp_in_range(t),
{
    chrono::NaiveDate::parse_from_str(s, fmt).ok().and_then(|d| d.and_hms_opt(0, 0, 0)).map(|t| t.and_utc().timestamp())
}

/// Calls `chrono::DateTime::parse_from_rfc3339` and converts the result to UTC.
/// Trusted: the result is `rfc3339_instant` of the argument, and its fields lie in the
/// ranges chrono documents for `month`, `day`, `hour`, `minute`, `second` and `nanosecond`
/// and for its dates; they name a day of the (proleptic Gregorian) calendar, and the
/// timestamp is their Unix time, as `DateTime::timestamp` computes it from the date's day
/// number and the seconds since midnight (a leap second counts as second 59).
#[verifier::external_body]
fn parse_rfc3339(s: &str) -> (r: Option<DateParts>)
    ensures
        r == rfc3339_instant(s@),
        r matches Some(p) ==> parts_in_range(p) && parts_consistent(p),
{
    chrono::DateTime::parse_from_rfc3339(s).ok().map(|dt| {
        let u = dt.with_timezone(&chrono::Utc);
        DateParts { timestamp: u.timestamp(), year: u.year(), month: u.month(), day: u.day(),
            hour: u.hour(), minute: u.minute(), second: u.second(), nanosecond: u.nanosecond() }
    })
}

/// Calls `chrono::NaiveDateTime::parse_from_str` and reads the result as UTC.
/// Trusted: the result is `naive_utc_instant` of the arguments, with fields in chrono's
/// documented ranges, naming a day of the calendar, and the timestamp their Unix time
/// (as for `parse_rfc3339`).
#[verifier::external_body]
pub(crate) fn parse_naive(s: &str, fmt: &str) -> (r: Option<DateParts>)
    ensures
        r == naive_utc_instant(s@, fmt@),
        r matches Some(p) ==> parts_in_range(p) && parts_consistent(p),
{
    chrono::NaiveDateTime::parse_from_str(s, fmt).ok().map(|n| {
        let u = chrono::Utc.from_utc_datetime(&n);
        DateParts { timestamp: u.timestamp(), year: u.year(), month: u.month(), day: u.day(),
            hour: u.hour(), minute: u.minute(), second: u.second(), nanosecond: u.nanosecond() }
    })
}

// ---------------------------------------------------------------------------
// Parsing export dates
// ---------------------------------------------------------------------------

pub open spec fn utc_suffix() -> Seq<char> {
    " UTC"@
}

pub open spec fn naive_format() -> Seq<char> {
    "%Y-%m-%d %H:%M:%S"@
}

pub open spec fn month_name_format() -> Seq<char> {
    "%b %d, %Y, %H:%M"@
}

/// The instant that a date string of the export denotes: tried in turn as RFC 3339, as
/// `YYYY-MM-DD HH:MM:SS` with an optional ` UTC` suffix, and as `Mon DD, YYYY, HH:MM`;
/// the last two carry no offset and are read as UTC wall-clock times.
pub open spec fn flexible_instant(s: Seq<char>) -> Option<DateParts> {
    let t = trim(s);
    if t.len() == 0 {
        None
    } else if rfc3339_instant(t) is Some {
        rfc3339_instant(t)
    } else {
        let u = match strip_suffix(t, utc_suffix()) {
            Some(x) => x,
            None => t,
        };
        if naive_utc_instant(u, naive_format()) is Some {
            naive_utc_instant(u, naive_format())
        } else {
            naive_utc_instant(t, month_name_format())
        }
    }
}

/// Parses a date string of the export. `None` when no known format fits.
pub fn parse_date_flexible(date_str: &str) -> (r: Option<DateParts>)
    ensures
        r == flexible_instant(date_str@),
        r matches Some(p) ==> parts_in_range(p) && parts_consistent(p),
{
    let chars = chars_of(date_str);
    let t = trim_exec(&chars);
    if t.len() == 0 {
        return None;
    }
    let ts = string_of(&t);
    let first = parse_rfc3339(ts.as_str());
    if first.is_some() {
        return first;
    }
    let suffix = chars_of(" UTC");
    let u = match strip_suffix_exec(&t, &suffix) {
        Some(x) => x,
        None => sub_vec(&t, 0, t.len()),
    };
    assert(u@ == (match strip_suffix(t@, utc_suffix()) {
        Some(x) => x,
        None => t@,
    })) by {
        assert(t@.subrange(0, t@.len() as int) =~= t@);
    }
    let us = string_of(&u);
    let second = parse_naive(us.as_str(), "%Y-%m-%d %H:%M:%S");
    if second.is_some() {
        return second;
    }
    parse_naive(ts.as_str(), "%b %d, %Y, %H:%M")
}

/// Unix timestamp of a date string, used to cluster the segments of one video.
pub fn timestamp_seconds(date_str: &str) -> (r: Option<i64>)
    ensures
        r == (match flexible_instant(date_str@) {
            Some(p) => Some(p.timestamp),
            None => None,
        }),
{
    match parse_date_flexible(date_str) {
        Some(p) => Some(p.timestamp),
        None => None,
    }
}

// ---------------------------------------------------------------------------
// Formatting `%Y-%m-%d_%H-%M-%S`
// ---------------------------------------------------------------------------

/// The ASCII digit for `d` in `0..10`.
pub open spec fn digit(d: int) -> char {
    (48 + d) as char
}

/// Decimal notation of a natural number, without leading zeros.
pub open spec fn decimal(n: nat) -> Seq<char>
    decreases n,
{
    if n < 10 {
        seq![digit(n as int)]
    } else {
        decimal(n / 10).push(digit((n % 10) as int))
    }
}

/// `s` padded on the left with `'0'` to at least `w` characters.
pub open spec fn zero_pad(s: Seq<char>, w: nat) -> Seq<char> {
    if s.len() < w {
        Seq::new((w - s.len()) as nat, |i: int| '0') + s
    } else {
        s
    }
}

/// chrono's `%Y`: four digits, zero-padded, for years `0..=9999`; otherwise an explicit sign
/// followed by at least four digits.
pub open spec fn year_text(y: int) -> Seq<char> {
    if 0 <= y <= 9999 {
        zero_pad(decimal(y as nat), 4)
    } else if y < 0 {
        seq!['-'] + zero_pad(decimal((-y) as nat), 4)
    } else {
        seq!['+'] + zero_pad(decimal(y as nat), 4)
    }
}

/// chrono's two-digit fields (`%m`, `%d`, `%H`, `%M`, `%S`) for values below 100.
pub open spec fn two_digits(v: int) -> Seq<char> {
    seq![digit(v / 10), digit(v % 10)]
}

/// The second as `%S` shows it: 60 during a leap second.
pub open spec fn shown_second(p: DateParts) -> int {
    p.second + p.nanosecond / 1_000_000_000
}

/// `%Y-%m-%d_%H-%M-%S` of an instant.
pub open spec fn clean_prefix_text(p: DateParts) -> Seq<char> {
    year_text(p.year as int) + seq!['-'] + two_digits(p.month as int) + seq!['-'] + two_digits(
        p.day as int,
    ) + seq!['_'] + two_digits(p.hour as int) + seq!['-'] + two_digits(p.minute as int) + seq![
        '-',
    ] + two_digits(shown_second(p))
}

/// The file-name prefix for a date string: the formatted instant when the string parses,
/// else the string with ` UTC` removed, `:` turned into `-` and spaces into `_`.
pub open spec fn clean_date_prefix(s: Seq<char>) -> Seq<char> {
    match flexible_instant(s) {
        Some(p) => clean_prefix_text(p),
        None => replace(replace(replace(s, utc_suffix(), Seq::empty()), seq![':'], seq!['-']), seq![' '], seq!['_']),
    }
}

/// `<date prefix>_<id>.<ext>`.
pub open spec fn clean_filename(date: Seq<char>, id: Seq<char>, ext: Seq<char>) -> Seq<char> {
    clean_date_prefix(date) + seq!['_'] + id + seq!['.'] + ext
}

fn digit_exec(d: u64) -> (r: char)
    requires
        d < 10,
    ensures
        r == digit(d as int),
{
    let b: u8 = (48 + d) as u8;
    b as char
}

/// Decimal notation of `n`.
pub fn decimal_exec(n: u64) -> (r: Vec<char>)
    ensures
        r@ == decimal(n as nat),
    decreases n,
{
    if n < 10 {
        let mut v: Vec<char> = Vec::new();
        v.push(digit_exec(n));
        v
    } else {
        let mut v = decimal_exec(n / 10);
        v.push(digit_exec(n % 10));
        v
    }
}

fn zero_pad_exec(s: Vec<char>, w: usize) -> (r: Vec<char>)
    ensures
        r@ == zero_pad(s@, w as nat),
{
    if s.len() < w {
        let mut r: Vec<char> = Vec::new();
        let k = w - s.len();
        let mut i: usize = 0;
        while i < k
            invariant
                i <= k,
                r@ == Seq::new(i as nat, |j: int| '0'),
            decreases k - i,
        {
            r.push('0');
            assert(r@ =~= Seq::new((i + 1) as nat, |j: int| '0'));
            i = i + 1;
        }
        concat(&r, &s)
    } else {
        s
    }
}

fn year_text_exec(y: i32) -> (r: Vec<char>)
    ensures
        r@ == year_text(y as int),
{
    if 0 <= y && y <= 9999 {
        zero_pad_exec(decimal_exec(y as u64), 4)
    } else if y < 0 {
        let mag: u64 = (-(y as i64)) as u64;
        let digits = zero_pad_exec(decimal_exec(mag), 4);
        let mut r: Vec<char> = Vec::new();
        r.push('-');
        concat(&r, &digits)
    } else {
        let digits = zero_pad_exec(decimal_exec(y as u64), 4);
        let mut r: Vec<char> = Vec::new();
        r.push('+');
        concat(&r, &digits)
    }
}

fn push_two_digits(out: &mut Vec<char>, v: u32)
    requires
        v < 100,
    ensures
        final(out)@ == old(out)@ + two_digits(v as int),
{
    out.push(digit_exec((v / 10) as u64));
    out.push(digit_exec((v % 10) as u64));
}

/// `%Y-%m-%d_%H-%M-%S` of an instant whose fields lie in chrono's ranges.
pub fn format_clean_prefix(p: &DateParts) -> (r: String)
    requires
        parts_in_range(*p),
    ensures
        r@ == clean_prefix_text(*p),
{
    let mut out = year_text_exec(p.year);
    out.push('-');
    push_two_digits(&mut out, p.month);
    out.push('-');
    push_two_digits(&mut out, p.day);
    out.push('_');
    push_two_digits(&mut out, p.hour);
    out.push('-');
    push_two_digits(&mut out, p.minute);
    out.push('-');
    let sec: u32 = p.second + p.nanosecond / 1_000_000_000;
    push_two_digits(&mut out, sec);
    let r = string_of(&out);
    assert(r@ =~= clean_prefix_text(*p));
    r
}

/// Normalizes a date string to `YYYY-MM-DD_HH-MM-SS` for file names; falls back to plain
/// text replacement when the string does not parse.
pub fn get_clean_date_prefix(date_str: &str) -> (r: String)
    ensures
        r@ == clean_date_prefix(date_str@),
{
    match parse_date_flexible(date_str) {
        Some(p) => format_clean_prefix(&p),
        None => {
            let s = chars_of(date_str);
            let utc = chars_of(" UTC");
            proof {
                reveal_strlit(" UTC");
            }
            let empty: Vec<char> = Vec::new();
            let a = replace_exec(&s, &utc, &empty);
            let colon = vec![':'];
            let dash = vec!['-'];
            let b = replace_exec(&a, &colon, &dash);
            let space = vec![' '];
            let under = vec!['_'];
            let c = replace_exec(&b, &space, &under);
            assert(empty@ =~= Seq::<char>::empty());
            assert(colon@ =~= seq![':']);
            assert(dash@ =~= seq!['-']);
            assert(space@ =~= seq![' ']);
            assert(under@ =~= seq!['_']);
            string_of(&c)
        },
    }
}

/// The output file name `<date prefix>_<id>.<ext>`.
pub fn generate_clean_filename(date_str: &str, id: &str, ext: &str) -> (r: String)
    ensures
        r@ == clean_filename(date_str@, id@, ext@),
{
    let prefix = get_clean_date_prefix(date_str);
    let mut out = chars_of(prefix.as_str());
    out.push('_');
    let idc = chars_of(id);
    let mut out = concat(&out, &idc);
    out.push('.');
    let extc = chars_of(ext);
    let out = concat(&out, &extc);
    let r = string_of(&out);
    assert(r@ =~= clean_filename(date_str@, id@, ext@));
    r
}

// ---------------------------------------------------------------------------
// Location metadata
// ---------------------------------------------------------------------------

/// Whether a path names a PNG file (extension `png`, any case).
pub fn is_png_ext(path: &str) -> (r: bool)
    ensures
        r == (path_extension(path@) matches Some(e) && eq_ignore_ascii_case(e, "png"@)),
{
    match path_extension_exec(&chars_of(path)) {
        Some(e) => eq_ignore_ascii_case_exec(&e, &chars_of("png")),
        None => false,
    }
}

/// The extension of the temporary file that ffmpeg writes a located copy to: `tmp.png`
/// for a PNG, else `tmp.mp4` (also for a path without extension).
pub fn location_temp_extension(path: &str) -> (r: &'static str)
    ensures
        r@ == (if path_extension(path@) matches Some(e) && eq_ignore_ascii_case(e, "png"@) {
            "tmp.png"@
        } else {
            "tmp.mp4"@
        }),
{
    if is_png_ext(path) {
        "tmp.png"
    } else {
        "tmp.mp4"
    }
}

// ---------------------------------------------------------------------------
// Laws of the file-name prefix
// ---------------------------------------------------------------------------

proof fn lemma_decimal_digits(n: nat)
    ensures
        decimal(n).len() >= 1,
        n < 10000 ==> decimal(n).len() <= 4,
        n < 1000 ==> decimal(n).len() <= 3,
        n < 100 ==> decimal(n).len() <= 2,
        n < 10 ==> decimal(n).len() == 1,
        forall|i: int| 0 <= i < decimal(n).len() ==> crate::text::is_ascii_digit(#[trigger] decimal(n)[i]),
    decreases n,
{
    if n >= 10 {
        lemma_decimal_digits(n / 10);
        let d = decimal(n / 10);
        assert forall|i: int| 0 <= i < decimal(n).len() implies crate::text::is_ascii_digit(#[trigger] decimal(n)[i]) by {
            if i < d.len() {
                assert(decimal(n)[i] == d[i]);
            }
        }
    }
}

proof fn lemma_two_digits(v: int)
    requires
        0 <= v < 100,
    ensures
        two_digits(v).len() == 2,
        crate::text::is_ascii_digit(two_digits(v)[0]),
        crate::text::is_ascii_digit(two_digits(v)[1]),
{
}

/// For a date in years 0 to 9999 the prefix is `YYYY-MM-DD_HH-MM-SS`: nineteen characters,
/// separators in fixed places and digits everywhere else, so that names sort by date.
pub proof fn lemma_clean_prefix_shape(p: DateParts)
    requires
        parts_in_range(p),
        0 <= p.year <= 9999,
    ensures
        clean_prefix_text(p).len() == 19,
        clean_prefix_text(p)[4] == '-' && clean_prefix_text(p)[7] == '-' && clean_prefix_text(p)[10] == '_',
        clean_prefix_text(p)[13] == '-' && clean_prefix_text(p)[16] == '-',
        forall|i: int|
            0 <= i < 19 && i != 4 && i != 7 && i != 10 && i != 13 && i != 16 ==> crate::text::is_ascii_digit(
                #[trigger] clean_prefix_text(p)[i],
            ),
{
    lemma_decimal_digits(p.year as nat);
    let y = year_text(p.year as int);
    let d = decimal(p.year as nat);
    assert(y.len() == 4);
    assert forall|i: int| 0 <= i < 4 implies crate::text::is_ascii_digit(#[trigger] y[i]) by {
        if i < 4 - d.len() {
            assert(y[i] == '0');
        } else {
            assert(y[i] == d[i - (4 - d.len())]);
        }
    }
    assert(shown_second(p) <= 60);
    lemma_two_digits(p.month as int);
    lemma_two_digits(p.day as int);
    lemma_two_digits(p.hour as int);
    lemma_two_digits(p.minute as int);
    lemma_two_digits(shown_second(p));
    let t = clean_prefix_text(p);
    assert forall|i: int|
        0 <= i < 19 && i != 4 && i != 7 && i != 10 && i != 13 && i != 16 implies crate::text::is_ascii_digit(#[trigger] t[i]) by {
        if i < 4 {
            assert(t[i] == y[i]);
        } else if i < 7 {
            assert(t[i] == two_digits(p.month as int)[i - 5]);
        } else if i < 10 {
            assert(t[i] == two_digits(p.day as int)[i - 8]);
        } else if i < 13 {
            assert(t[i] == two_digits(p.hour as int)[i - 11]);
        } else if i < 16 {
            assert(t[i] == two_digits(p.minute as int)[i - 14]);
        } else {
            assert(t[i] == two_digits(shown_second(p))[i - 17]);
        }
    }
}

// ---------------------------------------------------------------------------
// Prefixes sort as the instants do
// ---------------------------------------------------------------------------

/// The order of strings (that of Rust's `str`): the first differing character decides,
/// and a proper prefix comes first.
pub open spec fn text_before(a: Seq<char>, b: Seq<char>) -> bool {
    ||| exists|k: int| 0 <= k < a.len() && k < b.len() && #[trigger] a.take(k) == b.take(k) && (a[k] as int) < (b[k] as int)
    ||| a.len() < b.len() && b.take(a.len() as int) == a
}

/// The calendar fields of `p` come before those of `q`, compared in the order year,
/// month, day, hour, minute, second.
pub open spec fn fields_before(p: DateParts, q: DateParts) -> bool {
    ||| p.year < q.year
    ||| p.year == q.year && p.month < q.month
    ||| p.year == q.year && p.month == q.month && p.day < q.day
    ||| p.year == q.year && p.month == q.month && p.day == q.day && p.hour < q.hour
    ||| p.year == q.year && p.month == q.month && p.day == q.day && p.hour == q.hour && p.minute < q.minute
    ||| p.year == q.year && p.month == q.month && p.day == q.day && p.hour == q.hour && p.minute == q.minute
        && p.second < q.second
}

pub open spec fn same_fields(p: DateParts, q: DateParts) -> bool {
    p.year == q.year && p.month == q.month && p.day == q.day && p.hour == q.hour && p.minute == q.minute
        && p.second == q.second
}

proof fn lemma_days_before_year_step(y: int)
    ensures
        days_before_year(y + 1) == days_before_year(y) + year_days(y),
{
    if y + 1 > 1970 {
        assert(days_before_year(y + 1) == days_before_year(y) + year_days(y));
    } else {
        assert(days_before_year(y) == days_before_year(y + 1) - year_days(y));
    }
}

proof fn lemma_days_before_year_mono(y1: int, y2: int)
    requires
        y1 < y2,
    ensures
        days_before_year(y1) + year_days(y1) <= days_before_year(y2),
    decreases y2 - y1,
{
    lemma_days_before_year_step(y2 - 1);
    if y2 - 1 > y1 {
        lemma_days_before_year_mono(y1, y2 - 1);
    }
}

proof fn lemma_month_order(y: int, m1: int, d1: int, m2: int, d2: int)
    requires
        1 <= m1 < m2 <= 12,
        1 <= d1 <= month_days(y, m1),
        1 <= d2,
    ensures
        days_before_month(y, m1) + d1 < days_before_month(y, m2) + d2,
{
}

proof fn lemma_day_in_year(y: int, m: int, d: int)
    requires
        1 <= m <= 12,
        1 <= d <= month_days(y, m),
    ensures
        0 <= days_before_month(y, m) + d - 1 < year_days(y),
{
}

/// Valid fields in order have Unix times in the same order.
proof fn lemma_unix_seconds_order(p: DateParts, q: DateParts)
    requires
        parts_in_range(p),
        parts_in_range(q),
        p.day <= month_days(p.year as int, p.month as int),
        q.day <= month_days(q.year as int, q.month as int),
        fields_before(p, q),
    ensures
        unix_seconds(p) < unix_seconds(q),
{
    let dp = days_before_year(p.year as int) + days_before_month(p.year as int, p.month as int) + p.day - 1;
    let dq = days_before_year(q.year as int) + days_before_month(q.year as int, q.month as int) + q.day - 1;
    lemma_day_in_year(p.year as int, p.month as int, p.day as int);
    lemma_day_in_year(q.year as int, q.month as int, q.day as int);
    if p.year < q.year {
        lemma_days_before_year_mono(p.year as int, q.year as int);
        assert(dp < dq);
    } else if p.year == q.year && p.month < q.month {
        lemma_month_order(p.year as int, p.month as int, p.day as int, q.month as int, q.day as int);
        assert(dp < dq);
    }
    assert(unix_seconds(p) == dp * 86400 + p.hour * 3600 + p.minute * 60 + p.second);
    assert(unix_seconds(q) == dq * 86400 + q.hour * 3600 + q.minute * 60 + q.second);
}

/// The fields read as one number, two decimal places each below the year.
spec fn fields_number(p: DateParts) -> int {
    ((((p.year * 100 + p.month) * 100 + p.day) * 100 + p.hour) * 100 + p.minute) * 100 + p.second
}

proof fn lemma_fields_number_order(p: DateParts, q: DateParts)
    requires
        parts_in_range(p),
        parts_in_range(q),
    ensures
        fields_before(p, q) <==> fields_number(p) < fields_number(q),
        same_fields(p, q) <==> fields_number(p) == fields_number(q),
{
    let a = (((p.year * 100 + p.month) * 100 + p.day) * 100 + p.hour) * 100 + p.minute;
    let b = (((q.year * 100 + q.month) * 100 + q.day) * 100 + q.hour) * 100 + q.minute;
    let a1 = ((p.year * 100 + p.month) * 100 + p.day) * 100 + p.hour;
    let b1 = ((q.year * 100 + q.month) * 100 + q.day) * 100 + q.hour;
    let a2 = (p.year * 100 + p.month) * 100 + p.day;
    let b2 = (q.year * 100 + q.month) * 100 + q.day;
    let a3 = p.year * 100 + p.month;
    let b3 = q.year * 100 + q.month;
    assert(a3 < b3 <==> (p.year < q.year || (p.year == q.year && p.month < q.month)));
    assert(a3 == b3 <==> (p.year == q.year && p.month == q.month));
    assert(a2 < b2 <==> (a3 < b3 || (a3 == b3 && p.day < q.day)));
    assert(a2 == b2 <==> (a3 == b3 && p.day == q.day));
    assert(a1 < b1 <==> (a2 < b2 || (a2 == b2 && p.hour < q.hour)));
    assert(a1 == b1 <==> (a2 == b2 && p.hour == q.hour));
    assert(a < b <==> (a1 < b1 || (a1 == b1 && p.minute < q.minute)));
    assert(a == b <==> (a1 == b1 && p.minute == q.minute));
}

/// The number a string of digits and separators shows, separators skipped.
spec fn digits_value(s: Seq<char>) -> int
    decreases s.len(),
{
    if s.len() == 0 {
        0
    } else if crate::text::is_ascii_digit(s.last()) {
        10 * digits_value(s.drop_last()) + (s.last() as int - 48)
    } else {
        digits_value(s.drop_last())
    }
}

/// Two strings of one length with digits in the same places and the same separators elsewhere.
spec fn same_shape(a: Seq<char>, b: Seq<char>) -> bool {
    &&& a.len() == b.len()
    &&& forall|i: int|
        0 <= i < a.len() ==> (crate::text::is_ascii_digit(#[trigger] a[i]) && crate::text::is_ascii_digit(b[i])) || (
        !crate::text::is_ascii_digit(a[i]) && a[i] == b[i])
}

proof fn lemma_digit_value_push(s: Seq<char>, c: char)
    ensures
        digits_value(s.push(c)) == if crate::text::is_ascii_digit(c) {
            10 * digits_value(s) + (c as int - 48)
        } else {
            digits_value(s)
        },
{
    assert(s.push(c).drop_last() =~= s);
}

/// Strings of one shape compare as the numbers they show.
proof fn lemma_same_shape_order(a: Seq<char>, b: Seq<char>)
    requires
        same_shape(a, b),
    ensures
        text_before(a, b) <==> digits_value(a) < digits_value(b),
        a == b <==> digits_value(a) == digits_value(b),
    decreases a.len(),
{
    if a.len() == 0 {
        assert(a =~= b);
        if text_before(a, b) {
            let k = choose|k: int| 0 <= k < a.len() && k < b.len() && #[trigger] a.take(k) == b.take(k) && (a[k] as int) < (b[k] as int);
        }
    } else {
        let n = a.len() - 1;
        let a1 = a.drop_last();
        let b1 = b.drop_last();
        assert(same_shape(a1, b1)) by {
            assert forall|i: int| 0 <= i < a1.len() implies (crate::text::is_ascii_digit(#[trigger] a1[i]) && crate::text::is_ascii_digit(b1[i])) || (
                !crate::text::is_ascii_digit(a1[i]) && a1[i] == b1[i]) by {
                assert(a1[i] == a[i] && b1[i] == b[i]);
            }
        }
        lemma_same_shape_order(a1, b1);
        assert(a =~= a1.push(a[n]));
        assert(b =~= b1.push(b[n]));
        assert(a.take(n) =~= a1);
        assert(b.take(n) =~= b1);
        // The first difference decides.
        if text_before(a, b) {
            let k = choose|k: int| 0 <= k < a.len() && k < b.len() && #[trigger] a.take(k) == b.take(k) && (a[k] as int) < (b[k] as int);
            if k < n {
                assert(a1.take(k) =~= a.take(k));
                assert(b1.take(k) =~= b.take(k));
                assert(a1[k] == a[k] && b1[k] == b[k]);
                assert(text_before(a1, b1));
            }
        }
        if text_before(a1, b1) {
            let k = choose|k: int| 0 <= k < a1.len() && k < b1.len() && #[trigger] a1.take(k) == b1.take(k) && (a1[k] as int) < (b1[k] as int);
            assert(a.take(k) =~= a1.take(k));
            assert(b.take(k) =~= b1.take(k));
            assert(a1[k] == a[k] && b1[k] == b[k]);
            assert(text_before(a, b));
        }
        if a1 == b1 && (a[n] as int) < (b[n] as int) {
            assert(a.take(n) == b.take(n));
            assert(text_before(a, b));
        }
        assert(text_before(a, b) <==> (text_before(a1, b1) || (a1 == b1 && (a[n] as int) < (b[n] as int))));
        lemma_digit_value_push(a1, a[n]);
        lemma_digit_value_push(b1, b[n]);
        assert(a == b <==> (a1 == b1 && a[n] == b[n]));
    }
}

/// Decimal digits of a year from 0 to 9999, four of them.
proof fn lemma_year_digits(y: int)
    requires
        0 <= y <= 9999,
    ensures
        year_text(y) =~= seq![digit(y / 10 / 10 / 10), digit(y / 10 / 10 % 10), digit(y / 10 % 10), digit(y % 10)],
{
    reveal_with_fuel(decimal, 4);
    assert(digit(0) == '0');
    let d = decimal(y as nat);
    if y < 10 {
        assert(d =~= seq![digit(y)]);
    } else if y < 100 {
        assert(d =~= seq![digit(y / 10), digit(y % 10)]);
    } else if y < 1000 {
        assert(d =~= seq![digit(y / 10 / 10), digit(y / 10 % 10), digit(y % 10)]);
    } else {
        assert(d =~= seq![digit(y / 10 / 10 / 10), digit(y / 10 / 10 % 10), digit(y / 10 % 10), digit(y % 10)]);
    }
}

proof fn lemma_digit_char(v: int)
    requires
        0 <= v < 10,
    ensures
        crate::text::is_ascii_digit(digit(v)),
        digit(v) as int - 48 == v,
{
}

/// The prefix shows the fields as one number.
proof fn lemma_prefix_value(p: DateParts)
    requires
        parts_in_range(p),
        0 <= p.year <= 9999,
        p.nanosecond < 1_000_000_000,
    ensures
        digits_value(clean_prefix_text(p)) == fields_number(p),
{
    let y = p.year as int;
    let m = p.month as int;
    let d = p.day as int;
    let h = p.hour as int;
    let mi = p.minute as int;
    let sec = p.second as int;
    assert(shown_second(p) == sec);
    lemma_year_digits(y);
    lemma_digit_char(y / 10 / 10 / 10);
    lemma_digit_char(y / 10 / 10 % 10);
    lemma_digit_char(y / 10 % 10);
    lemma_digit_char(y % 10);
    lemma_digit_char(m / 10);
    lemma_digit_char(m % 10);
    lemma_digit_char(d / 10);
    lemma_digit_char(d % 10);
    lemma_digit_char(h / 10);
    lemma_digit_char(h % 10);
    lemma_digit_char(mi / 10);
    lemma_digit_char(mi % 10);
    lemma_digit_char(sec / 10);
    lemma_digit_char(sec % 10);
    assert(!crate::text::is_ascii_digit('-') && !crate::text::is_ascii_digit('_'));
    let t0 = Seq::<char>::empty();
    lemma_digit_value_push(t0, digit(y / 10 / 10 / 10));
    let t1 = t0.push(digit(y / 10 / 10 / 10));
    lemma_digit_value_push(t1, digit(y / 10 / 10 % 10));
    let t2 = t1.push(digit(y / 10 / 10 % 10));
    lemma_digit_value_push(t2, digit(y / 10 % 10));
    let t3 = t2.push(digit(y / 10 % 10));
    lemma_digit_value_push(t3, digit(y % 10));
    let t4 = t3.push(digit(y % 10));
    lemma_digit_value_push(t4, '-');
    let t5 = t4.push('-');
    lemma_digit_value_push(t5, digit(m / 10));
    let t6 = t5.push(digit(m / 10));
    lemma_digit_value_push(t6, digit(m % 10));
    let t7 = t6.push(digit(m % 10));
    lemma_digit_value_push(t7, '-');
    let t8 = t7.push('-');
    lemma_digit_value_push(t8, digit(d / 10));
    let t9 = t8.push(digit(d / 10));
    lemma_digit_value_push(t9, digit(d % 10));
    let t10 = t9.push(digit(d % 10));
    lemma_digit_value_push(t10, '_');
    let t11 = t10.push('_');
    lemma_digit_value_push(t11, digit(h / 10));
    let t12 = t11.push(digit(h / 10));
    lemma_digit_value_push(t12, digit(h % 10));
    let t13 = t12.push(digit(h % 10));
    lemma_digit_value_push(t13, '-');
    let t14 = t13.push('-');
    lemma_digit_value_push(t14, digit(mi / 10));
    let t15 = t14.push(digit(mi / 10));
    lemma_digit_value_push(t15, digit(mi % 10));
    let t16 = t15.push(digit(mi % 10));
    lemma_digit_value_push(t16, '-');
    let t17 = t16.push('-');
    lemma_digit_value_push(t17, digit(sec / 10));
    let t18 = t17.push(digit(sec / 10));
    lemma_digit_value_push(t18, digit(sec % 10));
    let t19 = t18.push(digit(sec % 10));
    assert(clean_prefix_text(p) =~= t19);
    assert(digits_value(t4) == y);
    assert(digits_value(t7) == y * 100 + m);
    assert(digits_value(t10) == (y * 100 + m) * 100 + d);
    assert(digits_value(t13) == ((y * 100 + m) * 100 + d) * 100 + h);
    assert(digits_value(t16) == (((y * 100 + m) * 100 + d) * 100 + h) * 100 + mi);
}

/// File-name prefixes sort as the instants do: for two instants in the years 0 to 9999,
/// neither of them inside a leap second, the earlier instant has the prefix that sorts
/// first, and two prefixes are equal exactly when the instants are.
pub proof fn lemma_clean_prefix_sorts(p: DateParts, q: DateParts)
    requires
        parts_in_range(p),
        parts_in_range(q),
        parts_consistent(p),
        parts_consistent(q),
        0 <= p.year <= 9999,
        0 <= q.year <= 9999,
        p.nanosecond < 1_000_000_000,
        q.nanosecond < 1_000_000_000,
    ensures
        p.timestamp < q.timestamp <==> text_before(clean_prefix_text(p), clean_prefix_text(q)),
        p.timestamp == q.timestamp <==> clean_prefix_text(p) == clean_prefix_text(q),
{
    lemma_clean_prefix_shape(p);
    lemma_clean_prefix_shape(q);
    let tp = clean_prefix_text(p);
    let tq = clean_prefix_text(q);
    assert(same_shape(tp, tq)) by {
        assert forall|i: int| 0 <= i < tp.len() implies (crate::text::is_ascii_digit(#[trigger] tp[i]) && crate::text::is_ascii_digit(tq[i])) || (
            !crate::text::is_ascii_digit(tp[i]) && tp[i] == tq[i]) by {
            if i == 4 || i == 7 || i == 10 || i == 13 || i == 16 {
                assert(!crate::text::is_ascii_digit('-') && !crate::text::is_ascii_digit('_'));
            }
        }
    }
    lemma_same_shape_order(tp, tq);
    lemma_prefix_value(p);
    lemma_prefix_value(q);
    lemma_fields_number_order(p, q);
    lemma_fields_number_order(q, p);
    if fields_before(p, q) {
        lemma_unix_seconds_order(p, q);
    }
    if fields_before(q, p) {
        lemma_unix_seconds_order(q, p);
    }
}

/// A date string that `parse_date_flexible` reads as an instant in the years 0 to 9999,
/// outside a leap second (its result carries the ranges and calendar facts that the
/// parser ensures).
pub open spec fn sortable_date(s: Seq<char>) -> bool {
    flexible_instant(s) matches Some(p) && parts_in_range(p) && parts_consistent(p) && 0 <= p.year <= 9999
        && p.nanosecond < 1_000_000_000
}

/// The file names are sortable: for two date strings read as instants in the years 0 to
/// 9999 (neither inside a leap second), the prefix of the earlier instant sorts first, and
/// two prefixes are equal exactly when the instants are.
pub proof fn lemma_clean_date_prefix_sorts(s1: Seq<char>, s2: Seq<char>)
    requires
        sortable_date(s1),
        sortable_date(s2),
    ensures
        flexible_instant(s1)->0.timestamp < flexible_instant(s2)->0.timestamp <==> text_before(
            clean_date_prefix(s1),
            clean_date_prefix(s2),
        ),
        flexible_instant(s1)->0.timestamp == flexible_instant(s2)->0.timestamp <==> clean_date_prefix(s1)
            == clean_date_prefix(s2),
{
    lemma_clean_prefix_sorts(flexible_instant(s1)->0, flexible_instant(s2)->0);
}

} // verus!
