//! A plain-value model of UTC calendar dates and timestamps.
//!
//! Session cookies carry a calendar date as their plaintext and the expiry
//! check compares day numbers, so the crate keeps its own Gregorian
//! arithmetic here, verified down to the day-count formula.
use crate::text::digit_char;
use crate::text::digit_val;
use crate::text::spec_is_digit;
use crate::text::spec_trim;
use crate::text::str_chars;
use crate::text::string_from_chars;
use crate::text::trim_chars;
use chrono::Datelike;
use chrono::Timelike;
use vstd::prelude::*;

verus! {

/// A Gregorian calendar date.
#[derive(Clone, Copy, Debug, PartialEq, Eq, Structural)]
pub struct Date {
    pub year: i32,
    pub month: u32,
    pub day: u32,
}

/// A date with a time of day, both in UTC.
#[derive(Clone, Copy, Debug, PartialEq, Eq, Structural)]
pub struct DateTime {
    pub date: Date,
    pub hour: u32,
    pub minute: u32,
    pub second: u32,
}

pub open spec fn is_leap_year(y: int) -> bool {
    (y % 4 == 0 && y % 100 != 0) || y % 400 == 0
}

pub open spec fn days_in_month(y: int, m: int) -> int {
    if m == 2 {
        if is_leap_year(y) {
            29
        } else {
            28
        }
    } else if m == 4 || m == 6 || m == 9 || m == 11 {
        30
    } else {
        31
    }
}

/// The dates this crate works with: years 0 through 9999, so that the
/// four-digit text form below is total.
pub open spec fn valid_date(d: Date) -> bool {
    &&& 0 <= d.year <= 9999
    &&& 1 <= d.month <= 12
    &&& 1 <= d.day <= days_in_month(d.year as int, d.month as int)
}

pub open spec fn valid_datetime(dt: DateTime) -> bool {
    &&& valid_date(dt.date)
    &&& dt.hour < 24
    &&& dt.minute < 60
    &&& dt.second < 60
}

/// Days since 1970-01-01, following the standard civil-calendar formula:
/// March is treated as the first month of a shifted year, so leap days fall
/// at the end, and whole 400-year eras contribute 146097 days each.
pub open spec fn day_number(d: Date) -> int {
    let y: int = if d.month <= 2 {
        d.year - 1
    } else {
        d.year as int
    };
    let era: int = (y + 400) / 400 - 1;
    let yoe: int = y - era * 400;
    let moy: int = if d.month > 2 {
        d.month - 3
    } else {
        d.month + 9
    };
    let doy: int = (153 * moy + 2) / 5 + d.day - 1;
    let doe: int = yoe * 365 + yoe / 4 - yoe / 100 + doy;
    era * 146097 + doe - 719468
}

/// Seconds since 1970-01-01 00:00:00 UTC.
pub open spec fn epoch_seconds(dt: DateTime) -> int {
    day_number(dt.date) * 86400 + dt.hour * 3600 + dt.minute * 60 + dt.second
}

impl Date {
    pub fn valid(&self) -> (r: bool)
        ensures
            r == valid_date(*self),
    {
        0 <= self.year && self.year <= 9999 && 1 <= self.month && self.month <= 12 && 1 <= self.day
            && self.day <= days_in_month_exec(self.year, self.month)
    }

    /// The day count used by the session-expiry comparison.
    pub fn day_number(&self) -> (r: i64)
        requires
            valid_date(*self),
        ensures
            r == day_number(*self),
            -1000000 <= r <= 5000000,
    {
        let y: i64 = if self.month <= 2 {
            self.year as i64 - 1
        } else {
            self.year as i64
        };
        let era: i64 = (y + 400) / 400 - 1;
        let yoe: i64 = y - era * 400;
        let moy: i64 = if self.month > 2 {
            self.month as i64 - 3
        } else {
            self.month as i64 + 9
        };
        let doy: i64 = (153 * moy + 2) / 5 + self.day as i64 - 1;
        let doe: i64 = yoe * 365 + yoe / 4 - yoe / 100 + doy;
        era * 146097 + doe - 719468
    }
}

/// The text form of a date: `YYYY-MM-DD`, all fields zero-padded.
///
/// This is the plaintext that the session cipher encrypts.
pub open spec fn spec_format_date(d: Date) -> Seq<char> {
    seq![
        digit_char(d.year as int / 1000 % 10),
        digit_char(d.year as int / 100 % 10),
        digit_char(d.year as int / 10 % 10),
        digit_char(d.year as int % 10),
        '-',
        digit_char(d.month as int / 10 % 10),
        digit_char(d.month as int % 10),
        '-',
        digit_char(d.day as int / 10 % 10),
        digit_char(d.day as int % 10),
    ]
}

/// The inverse of [`spec_format_date`]: accepts exactly the ten-character
/// zero-padded form of a valid date.
pub open spec fn spec_parse_date(s: Seq<char>) -> Option<Date> {
    if s.len() == 10 && spec_is_digit(s[0]) && spec_is_digit(s[1]) && spec_is_digit(s[2])
        && spec_is_digit(s[3]) && s[4] == '-' && spec_is_digit(s[5]) && spec_is_digit(s[6])
        && s[7] == '-' && spec_is_digit(s[8]) && spec_is_digit(s[9]) {
        let d = Date {
            year: (digit_val(s[0]) * 1000 + digit_val(s[1]) * 100 + digit_val(s[2]) * 10
                + digit_val(s[3])) as i32,
            month: (digit_val(s[5]) * 10 + digit_val(s[6])) as u32,
            day: (digit_val(s[8]) * 10 + digit_val(s[9])) as u32,
        };
        if valid_date(d) {
            Some(d)
        } else {
            None
        }
    } else {
        None
    }
}

/// Push the decimal digit for `d` (below ten).
fn push_digit(out: &mut Vec<char>, d: u32)
    requires
        d < 10,
    ensures
        final(out)@ == old(out)@.push(digit_char(d as int)),
{
    let c: u8 = 48 + (d as u8);
    out.push(c as char);
}

/// Format a date as `YYYY-MM-DD`, the session plaintext form.
pub fn format_date(d: &Date) -> (r: Vec<char>)
    requires
        valid_date(*d),
    ensures
        r@ == spec_format_date(*d),
{
    let mut out: Vec<char> = Vec::new();
    let y: u32 = d.year as u32;
    push_digit(&mut out, y / 1000 % 10);
    push_digit(&mut out, y / 100 % 10);
    push_digit(&mut out, y / 10 % 10);
    push_digit(&mut out, y % 10);
    out.push('-');
    push_digit(&mut out, d.month / 10 % 10);
    push_digit(&mut out, d.month % 10);
    out.push('-');
    push_digit(&mut out, d.day / 10 % 10);
    push_digit(&mut out, d.day % 10);
    proof {
        assert(out@ =~= spec_format_date(*d));
    }
    out
}

/// Read the value of a digit character.
fn read_digit(c: char) -> (r: u32)
    requires
        spec_is_digit(c),
    ensures
        r == digit_val(c),
        r < 10,
{
    (c as u32) - 48
}

fn is_digit(c: char) -> (r: bool)
    ensures
        r == spec_is_digit(c),
{
    '0' <= c && c <= '9'
}

/// Parse the `YYYY-MM-DD` form; `None` on anything else.
pub fn parse_date(s: &Vec<char>) -> (r: Option<Date>)
    ensures
        r == spec_parse_date(s@),
{
    if s.len() != 10 {
        return None;
    }
    if !(is_digit(s[0]) && is_digit(s[1]) && is_digit(s[2]) && is_digit(s[3]) && s[4] == '-'
        && is_digit(s[5]) && is_digit(s[6]) && s[7] == '-' && is_digit(s[8]) && is_digit(s[9])) {
        return None;
    }
    let d = Date {
        year: (read_digit(s[0]) * 1000 + read_digit(s[1]) * 100 + read_digit(s[2]) * 10
            + read_digit(s[3])) as i32,
        month: read_digit(s[5]) * 10 + read_digit(s[6]),
        day: read_digit(s[8]) * 10 + read_digit(s[9]),
    };
    if d.valid() {
        Some(d)
    } else {
        None
    }
}

/// Every character of a formatted date is plain ASCII.
pub proof fn lemma_format_date_ascii(d: Date)
    ensures
        vstd::utf8::is_ascii_chars(spec_format_date(d)),
{
    let s = spec_format_date(d);
    assert forall|i: int| 0 <= i < s.len() implies '\0' <= #[trigger] s[i] <= '\u{7f}' by {
        lemma_digit_char_ascii(d.year as int / 1000 % 10);
        lemma_digit_char_ascii(d.year as int / 100 % 10);
        lemma_digit_char_ascii(d.year as int / 10 % 10);
        lemma_digit_char_ascii(d.year as int % 10);
        lemma_digit_char_ascii(d.month as int / 10 % 10);
        lemma_digit_char_ascii(d.month as int % 10);
        lemma_digit_char_ascii(d.day as int / 10 % 10);
        lemma_digit_char_ascii(d.day as int % 10);
        assert('\0' as int == 0 && '-' as int == 45 && '\u{7f}' as int == 127);
    }
}

proof fn lemma_digit_char_ascii(x: int)
    requires
        0 <= x < 10,
    ensures
        '\0' <= digit_char(x) <= '\u{7f}',
{
    assert('\0' as int == 0 && '\u{7f}' as int == 127);
    assert(digit_char(x) as int == 48 + x) by {
        assert(((48 + x) as u8) as char as int == 48 + x);
    }
}

/// Each byte read as a character, as when a date is parsed from decrypted
/// plaintext bytes.
pub open spec fn bytes_as_chars(b: Seq<u8>) -> Seq<char> {
    b.map_values(|x: u8| x as char)
}

/// Date parsing from plaintext bytes.
pub open spec fn spec_parse_date_bytes(b: Seq<u8>) -> Option<Date> {
    spec_parse_date(bytes_as_chars(b))
}

/// Parse a date from the bytes of its `YYYY-MM-DD` form.
pub fn parse_date_bytes(v: &Vec<u8>) -> (r: Option<Date>)
    ensures
        r == spec_parse_date_bytes(v@),
{
    let mut chars: Vec<char> = Vec::new();
    let mut i: usize = 0;
    while i < v.len()
        invariant
            i <= v@.len(),
            chars@ == bytes_as_chars(v@.take(i as int)),
        decreases v@.len() - i,
    {
        chars.push(v[i] as char);
        proof {
            assert(bytes_as_chars(v@.take(i + 1)) =~= bytes_as_chars(v@.take(i as int)).push(
                v@[i as int] as char,
            ));
        }
        i += 1;
    }
    proof {
        assert(v@.take(v@.len() as int) =~= v@);
    }
    parse_date(&chars)
}

/// The UTF-8 bytes of a formatted date parse back to the same date.
pub proof fn lemma_date_bytes_roundtrip(d: Date)
    requires
        valid_date(d),
    ensures
        spec_parse_date_bytes(vstd::utf8::encode_utf8(spec_format_date(d))) == Some(d),
{
    let s = spec_format_date(d);
    lemma_format_date_ascii(d);
    vstd::utf8::is_ascii_chars_encode_utf8(s);
    let b = vstd::utf8::encode_utf8(s);
    assert(bytes_as_chars(b) =~= s) by {
        assert forall|i: int| 0 <= i < s.len() implies bytes_as_chars(b)[i] == s[i] by {
            assert(b[i] == (s[i] as u8));
            assert(((s[i] as u8) as char) == s[i]) by {
                let c = s[i];
                assert(0 <= (c as int) && (c as int) < 128);
                assert((((c as u8) as char) as int) == (c as int));
            }
        }
    }
    lemma_date_roundtrip(d);
}

/// Formatting then parsing gives back the same date: the plaintext the
/// cipher encrypts always parses again on the way out.
#[verifier::rlimit(50)]
pub proof fn lemma_date_roundtrip(d: Date)
    requires
        valid_date(d),
    ensures
        spec_parse_date(spec_format_date(d)) == Some(d),
{
    let s = spec_format_date(d);
    assert(s.len() == 10);
    assert forall|x: int| 0 <= x < 10 implies spec_is_digit(digit_char(x)) && digit_val(
        digit_char(x),
    ) == x by {
        assert(((48 + x) as u8) as char as int == 48 + x);
    }
    let y = d.year as int;
    assert(y / 1000 % 10 * 1000 + y / 100 % 10 * 100 + y / 10 % 10 * 10 + y % 10 == y) by (
    nonlinear_arith)
        requires
            0 <= y <= 9999,
    ;
    let m = d.month as int;
    assert(m / 10 % 10 * 10 + m % 10 == m) by (nonlinear_arith)
        requires
            0 <= m <= 12,
    ;
    let dd = d.day as int;
    assert(dd / 10 % 10 * 10 + dd % 10 == dd) by (nonlinear_arith)
        requires
            0 <= dd <= 31,
    ;
    assert(digit_val(s[0]) * 1000 + digit_val(s[1]) * 100 + digit_val(s[2]) * 10 + digit_val(s[3])
        == d.year);
    assert(digit_val(s[5]) * 10 + digit_val(s[6]) == d.month);
    assert(digit_val(s[8]) * 10 + digit_val(s[9]) == d.day);
}

impl DateTime {
    /// Seconds since 1970-01-01 00:00:00 UTC.
    pub fn to_epoch_seconds(&self) -> (r: i64)
        requires
            valid_datetime(*self),
        ensures
            r == epoch_seconds(*self),
            -500000000000 <= r <= 500000000000,
    {
        self.date.day_number() * 86400 + (self.hour as i64) * 3600 + (self.minute as i64) * 60
            + self.second as i64
    }
}

pub fn days_in_month_exec(y: i32, m: u32) -> (r: u32)
    ensures
        r == days_in_month(y as int, m as int),
{
    if m == 2 {
        if (y % 4 == 0 && y % 100 != 0) || y % 400 == 0 {
            29
        } else {
            28
        }
    } else if m == 4 || m == 6 || m == 9 || m == 11 {
        30
    } else {
        31
    }
}

/// A two-digit zero-padded number, as used in the time-of-day fields.
pub open spec fn pad2(n: int) -> Seq<char> {
    seq![digit_char(n / 10 % 10), digit_char(n % 10)]
}

/// The text form of a timestamp as stored in the database:
/// `YYYY-MM-DD HH:MM:SS`.
pub open spec fn spec_format_datetime(dt: DateTime) -> Seq<char> {
    spec_format_date(dt.date) + seq![' '] + pad2(dt.hour as int) + seq![':'] + pad2(
        dt.minute as int,
    ) + seq![':'] + pad2(dt.second as int)
}

/// The inverse of [`spec_format_datetime`]: accepts exactly the
/// nineteen-character zero-padded form of a valid timestamp.
pub open spec fn spec_parse_datetime(s: Seq<char>) -> Option<DateTime> {
    if s.len() == 19 && s[10] == ' ' && spec_is_digit(s[11]) && spec_is_digit(s[12]) && s[13]
        == ':' && spec_is_digit(s[14]) && spec_is_digit(s[15]) && s[16] == ':' && spec_is_digit(
        s[17],
    ) && spec_is_digit(s[18]) {
        match spec_parse_date(s.subrange(0, 10)) {
            Some(d) => {
                let dt = DateTime {
                    date: d,
                    hour: (digit_val(s[11]) * 10 + digit_val(s[12])) as u32,
                    minute: (digit_val(s[14]) * 10 + digit_val(s[15])) as u32,
                    second: (digit_val(s[17]) * 10 + digit_val(s[18])) as u32,
                };
                if dt.hour < 24 && dt.minute < 60 && dt.second < 60 {
                    Some(dt)
                } else {
                    None
                }
            },
            None => None,
        }
    } else {
        None
    }
}

fn push_pad2(out: &mut Vec<char>, n: u32)
    requires
        n < 100,
    ensures
        final(out)@ == old(out)@ + pad2(n as int),
{
    push_digit(out, n / 10 % 10);
    push_digit(out, n % 10);
    proof {
        assert(final(out)@ =~= old(out)@ + pad2(n as int));
    }
}

/// Format a timestamp as `YYYY-MM-DD HH:MM:SS`.
pub fn format_datetime(dt: &DateTime) -> (r: Vec<char>)
    requires
        valid_datetime(*dt),
    ensures
        r@ == spec_format_datetime(*dt),
{
    let mut out = format_date(&dt.date);
    out.push(' ');
    push_pad2(&mut out, dt.hour);
    out.push(':');
    push_pad2(&mut out, dt.minute);
    out.push(':');
    push_pad2(&mut out, dt.second);
    proof {
        assert(out@ =~= spec_format_datetime(*dt));
    }
    out
}

/// Parse the `YYYY-MM-DD HH:MM:SS` form; `None` on anything else.
pub fn parse_datetime(s: &Vec<char>) -> (r: Option<DateTime>)
    ensures
        r == spec_parse_datetime(s@),
{
    if s.len() != 19 {
        return None;
    }
    if !(s[10] == ' ' && is_digit(s[11]) && is_digit(s[12]) && s[13] == ':' && is_digit(s[14])
        && is_digit(s[15]) && s[16] == ':' && is_digit(s[17]) && is_digit(s[18])) {
        return None;
    }
    let mut date_part: Vec<char> = Vec::new();
    let mut i: usize = 0;
    while i < 10
        invariant
            i <= 10,
            s@.len() == 19,
            date_part@ == s@.subrange(0, i as int),
        decreases 10 - i,
    {
        date_part.push(s[i]);
        proof {
            assert(s@.subrange(0, i + 1) == s@.subrange(0, i as int).push(s@[i as int]));
        }
        i += 1;
    }
    let d = match parse_date(&date_part) {
        Some(d) => d,
        None => {
            return None;
        },
    };
    let dt = DateTime {
        date: d,
        hour: read_digit(s[11]) * 10 + read_digit(s[12]),
        minute: read_digit(s[14]) * 10 + read_digit(s[15]),
        second: read_digit(s[17]) * 10 + read_digit(s[18]),
    };
    if dt.hour < 24 && dt.minute < 60 && dt.second < 60 {
        Some(dt)
    } else {
        None
    }
}

/// Formatting a timestamp then parsing it gives back the same value.
pub proof fn lemma_datetime_roundtrip(dt: DateTime)
    requires
        valid_datetime(dt),
    ensures
        spec_parse_datetime(spec_format_datetime(dt)) == Some(dt),
{
    let s = spec_format_datetime(dt);
    assert(s.len() == 19);
    assert(s.subrange(0, 10) =~= spec_format_date(dt.date));
    lemma_date_roundtrip(dt.date);
    assert forall|x: int| 0 <= x < 10 implies spec_is_digit(digit_char(x)) && digit_val(
        digit_char(x),
    ) == x by {
        assert(((48 + x) as u8) as char as int == 48 + x);
    }
    let h = dt.hour as int;
    assert(h / 10 % 10 * 10 + h % 10 == h) by (nonlinear_arith)
        requires
            0 <= h < 100,
    ;
    let mi = dt.minute as int;
    assert(mi / 10 % 10 * 10 + mi % 10 == mi) by (nonlinear_arith)
        requires
            0 <= mi < 100,
    ;
    let sec = dt.second as int;
    assert(sec / 10 % 10 * 10 + sec % 10 == sec) by (nonlinear_arith)
        requires
            0 <= sec < 100,
    ;
}

/// Reading and writing timestamps in the form the SQLite layer stores.
pub trait SqliteDateTime: Sized {
    /// The values that have a stored text form.
    spec fn sqlite_wf(&self) -> bool;

    /// The stored text form of this value.
    spec fn sqlite_text(&self) -> Seq<char>;

    /// Which stored strings decode, and to what.
    spec fn sqlite_parse(s: Seq<char>) -> Option<Self>;

    fn from_sqlite(text: &str) -> (r: Self)
        requires
            Self::sqlite_parse(spec_trim(text@)) is Some,
        ensures
            Some(r) == Self::sqlite_parse(spec_trim(text@)),
    ;

    fn to_sqlite(&self) -> (r: String)
        requires
            self.sqlite_wf(),
        ensures
            r@ == self.sqlite_text(),
    ;
}

impl SqliteDateTime for DateTime {
    open spec fn sqlite_wf(&self) -> bool {
        valid_datetime(*self)
    }

    open spec fn sqlite_text(&self) -> Seq<char> {
        spec_format_datetime(*self)
    }

    open spec fn sqlite_parse(s: Seq<char>) -> Option<DateTime> {
        spec_parse_datetime(s)
    }

    fn from_sqlite(text: &str) -> (r: DateTime) {
        let chars = str_chars(text);
        let trimmed = trim_chars(&chars);
        parse_datetime(&trimmed).unwrap()
    }

    fn to_sqlite(&self) -> (r: String) {
        let out = format_datetime(self);
        string_from_chars(&out)
    }
}

/// Relies on chrono's `Utc::now` and its calendar accessors: the result is
/// the current UTC date and time, a real proleptic-Gregorian calendar date
/// (month 1..=12, day within the month) with in-range time-of-day fields.
#[verifier::external_body]
fn now_utc_fields() -> (r: (i64, u32, u32, u32, u32, u32))
    ensures
        1 <= r.1 <= 12,
        1 <= r.2 <= days_in_month(r.0 as int, r.1 as int),
        r.3 < 24,
        r.4 < 60,
        r.5 < 60,
{
    let now = chrono::Utc::now();
    let date = now.date_naive();
    (date.year() as i64, date.month(), date.day(), now.hour(), now.minute(), now.second())
}

/// The current UTC timestamp, or `None` in the far-fetched case that the
/// system clock is outside the years 0 through 9999.
pub fn now_utc() -> (r: Option<DateTime>)
    ensures
        r matches Some(dt) ==> valid_datetime(dt),
{
    let f = now_utc_fields();
    if f.0 < 0 || f.0 > 9999 {
        return None;
    }
    Some(
        DateTime {
            date: Date { year: f.0 as i32, month: f.1, day: f.2 },
            hour: f.3,
            minute: f.4,
            second: f.5,
        },
    )
}

/// The current UTC calendar date, or `None` if the clock is out of range.
pub fn today() -> (r: Option<Date>)
    ensures
        r matches Some(d) ==> valid_date(d),
{
    match now_utc() {
        Some(dt) => Some(dt.date),
        None => None,
    }
}

} // verus!
