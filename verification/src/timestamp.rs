//! The timestamp path convention: a synchronization client encodes "set the
//! modification time" requests as a synthetic root-level path segment that
//! holds a `YYYYMMDDHHMMSS` timestamp followed by exactly one space.  The
//! detector is conservative: any deviation from that shape means the path is
//! an ordinary one.

use vstd::prelude::*;
use crate::paths::{comps, has_leading_cur_dir, is_rooted, leading_cur_dir, parse_components, render, render_path, NormState};


verus! {

/// A calendar timestamp with second precision.
#[derive(Clone, Copy, Debug, PartialEq, Eq, Structural)]
pub struct Timestamp {
    pub year: u16,
    pub month: u8,
    pub day: u8,
    pub hour: u8,
    pub minute: u8,
    pub second: u8,
}

pub open spec fn is_leap_year(y: int) -> bool {
    (y % 4 == 0 && y % 100 != 0) || y % 400 == 0
}

pub open spec fn days_in_month(y: int, m: int) -> int {
    if m == 2 {
        if is_leap_year(y) {
            29
        } else {
            28
        }
    } else if m == 4 || m == 6 || m == 9 || m == 11 {
        30
    } else {
        31
    }
}

/// The fields form a real calendar date and time.
pub open spec fn timestamp_valid(t: Timestamp) -> bool {
    &&& t.year <= 9999
    &&& 1 <= t.month <= 12
    &&& 1 <= t.day <= days_in_month(t.year as int, t.month as int)
    &&& t.hour <= 23
    &&& t.minute <= 59
    &&& t.second <= 59
}

pub open spec fn is_digit(c: char) -> bool {
    '0' <= c && c <= '9'
}

pub open spec fn digit_val(c: char) -> int {
    c as int - '0' as int
}

/// Value of the `len` digits of `s` that start at `i`.
pub open spec fn digits_val(s: Seq<char>, i: int, len: int) -> int
    decreases len,
{
    if len <= 0 {
        0
    } else {
        digits_val(s, i, len - 1) * 10 + digit_val(s[i + len - 1])
    }
}

pub open spec fn all_digits(s: Seq<char>) -> bool {
    forall|i: int| 0 <= i < s.len() ==> is_digit(s[i])
}

/// Parse exactly fourteen digits as `YYYYMMDDHHMMSS`, provided the fields
/// form a valid calendar time.
pub open spec fn parse_timestamp_spec(s: Seq<char>) -> Option<Timestamp> {
    if s.len() == 14 && all_digits(s) {
        let t = Timestamp {
            year: digits_val(s, 0, 4) as u16,
            month: digits_val(s, 4, 2) as u8,
            day: digits_val(s, 6, 2) as u8,
            hour: digits_val(s, 8, 2) as u8,
            minute: digits_val(s, 10, 2) as u8,
            second: digits_val(s, 12, 2) as u8,
        };
        if timestamp_valid(t) {
            Some(t)
        } else {
            None
        }
    } else {
        None
    }
}

/// The digit value of one character, when it is a digit.
fn digit_of(c: char) -> (r: Option<u8>)
    ensures
        r is Some <==> is_digit(c),
        r matches Some(d) ==> d == digit_val(c) && d < 10,
{
    let u = c as u32;
    if u >= 48 && u <= 57 {
        Some((u - 48) as u8)
    } else {
        None
    }
}

/// Read the `len` digits of `s` that start at `i` as a number.
fn read_digits(s: &str, i: usize, len: usize) -> (r: Option<u16>)
    requires
        i + len <= s@.len(),
        i <= 100,
        len <= 4,
    ensures
        r is Some <==> forall|k: int| i <= k < i + len ==> is_digit(s@[k]),
        r matches Some(v) ==> v == digits_val(s@, i as int, len as int),
{
    let mut val: u16 = 0;
    let mut k: usize = 0;
    while k < len
        invariant
            k <= len,
            i + len <= s@.len(),
            i <= 100,
            len <= 4,
            forall|m: int| i <= m < i + k ==> is_digit(s@[m]),
            val == digits_val(s@, i as int, k as int),
        decreases len - k,
    {
        proof {
            lemma_digits_val_bound(s@, i as int, k as int);
        }
        match digit_of(s.get_char(i + k)) {
            None => {
                assert(!is_digit(s@[i + k]));
                return None;
            },
            Some(d) => {
                assert(val < 1000);
                val = val * 10 + (d as u16);
            },
        }
        k = k + 1;
    }
    Some(val)
}

proof fn lemma_digits_val_bound(s: Seq<char>, i: int, len: int)
    requires
        0 <= len,
        forall|k: int| i <= k < i + len ==> is_digit(s[k]),
    ensures
        0 <= digits_val(s, i, len),
        len <= 1 ==> digits_val(s, i, len) < 10,
        len == 2 ==> digits_val(s, i, len) < 100,
        len == 3 ==> digits_val(s, i, len) < 1000,
        len == 4 ==> digits_val(s, i, len) < 10000,
    decreases len,
{
    if len > 0 {
        lemma_digits_val_bound(s, i, len - 1);
        assert(is_digit(s[i + len - 1]));
        assert(0 <= digit_val(s[i + len - 1]) < 10);
    }
}

/// Parse a `YYYYMMDDHHMMSS` string into a calendar timestamp, rejecting any
/// string of another shape and any combination that is not a real calendar
/// time.
pub fn parse_timestamp(s: &str) -> (r: Option<Timestamp>)
    ensures
        r == parse_timestamp_spec(s@),
{
    let n = s.unicode_len();
    if n != 14 {
        return None;
    }
    let year = match read_digits(s, 0, 4) {
        None => {
            return None;
        },
        Some(v) => v,
    };
    let month = match read_digits(s, 4, 2) {
        None => {
            return None;
        },
        Some(v) => v as u8,
    };
    let day = match read_digits(s, 6, 2) {
        None => {
            return None;
        },
        Some(v) => v as u8,
    };
    let hour = match read_digits(s, 8, 2) {
        None => {
            return None;
        },
        Some(v) => v as u8,
    };
    let minute = match read_digits(s, 10, 2) {
        None => {
            return None;
        },
        Some(v) => v as u8,
    };
    let second = match read_digits(s, 12, 2) {
        None => {
            return None;
        },
        Some(v) => v as u8,
    };
    proof {
        lemma_digits_val_bound(s@, 0, 4);
        lemma_digits_val_bound(s@, 4, 2);
        lemma_digits_val_bound(s@, 6, 2);
        lemma_digits_val_bound(s@, 8, 2);
        lemma_digits_val_bound(s@, 10, 2);
        lemma_digits_val_bound(s@, 12, 2);
        assert(all_digits(s@));
    }
    let t = Timestamp { year, month, day, hour, minute, second };
    if month < 1 || month > 12 {
        return None;
    }
    let leap = (year % 4 == 0 && year % 100 != 0) || year % 400 == 0;
    let dim: u8 = if month == 2 {
        if leap {
            29
        } else {
            28
        }
    } else if month == 4 || month == 6 || month == 9 || month == 11 {
        30
    } else {
        31
    };
    if day < 1 || day > dim {
        return None;
    }
    if hour > 23 || minute > 59 || second > 59 {
        return None;
    }
    Some(t)
}


pub open spec fn digit_char(d: int) -> char {
    if d == 0 {
        '0'
    } else if d == 1 {
        '1'
    } else if d == 2 {
        '2'
    } else if d == 3 {
        '3'
    } else if d == 4 {
        '4'
    } else if d == 5 {
        '5'
    } else if d == 6 {
        '6'
    } else if d == 7 {
        '7'
    } else if d == 8 {
        '8'
    } else {
        '9'
    }
}

pub open spec fn two_digit_chars(v: int) -> Seq<char> {
    seq![digit_char(v / 10 % 10), digit_char(v % 10)]
}

/// The display form of a timestamp: `YYYY-MM-DD HH:MM:SS`.
pub open spec fn display_spec(t: Timestamp) -> Seq<char> {
    seq![
        digit_char(t.year as int / 1000 % 10),
        digit_char(t.year as int / 100 % 10),
        digit_char(t.year as int / 10 % 10),
        digit_char(t.year as int % 10),
        '-',
    ] + two_digit_chars(t.month as int) + seq!['-'] + two_digit_chars(t.day as int) + seq![' ']
        + two_digit_chars(t.hour as int) + seq![':'] + two_digit_chars(t.minute as int)
        + seq![':'] + two_digit_chars(t.second as int)
}

/// Append one decimal digit to a string.
fn push_digit(out: &mut String, d: u16) -> (r: ())
    requires
        d < 10,
    ensures
        final(out)@ == old(out)@.push(digit_char(d as int)),
{
    proof {
        reveal_strlit("0");
        reveal_strlit("1");
        reveal_strlit("2");
        reveal_strlit("3");
        reveal_strlit("4");
        reveal_strlit("5");
        reveal_strlit("6");
        reveal_strlit("7");
        reveal_strlit("8");
        reveal_strlit("9");
    }
    let ghost before = out@;
    if d == 0 {
        out.append("0");
    } else if d == 1 {
        out.append("1");
    } else if d == 2 {
        out.append("2");
    } else if d == 3 {
        out.append("3");
    } else if d == 4 {
        out.append("4");
    } else if d == 5 {
        out.append("5");
    } else if d == 6 {
        out.append("6");
    } else if d == 7 {
        out.append("7");
    } else if d == 8 {
        out.append("8");
    } else {
        out.append("9");
    }
    proof {
        assert(out@ =~= before.push(digit_char(d as int)));
    }
}

impl Timestamp {
    /// Render the timestamp as `YYYY-MM-DD HH:MM:SS`.
    #[verifier::rlimit(30)]
    pub fn to_display_string(&self) -> (r: String)
        ensures
            r@ == display_spec(*self),
    {
        proof {
            reveal_strlit("-");
            reveal_strlit(" ");
            reveal_strlit(":");
        }
        let mut out = String::new();
        let y = self.year;
        push_digit(&mut out, y / 1000 % 10);
        push_digit(&mut out, y / 100 % 10);
        push_digit(&mut out, y / 10 % 10);
        push_digit(&mut out, y % 10);
        out.append("-");
        push_digit(&mut out, self.month as u16 / 10 % 10);
        push_digit(&mut out, self.month as u16 % 10);
        out.append("-");
        push_digit(&mut out, self.day as u16 / 10 % 10);
        push_digit(&mut out, self.day as u16 % 10);
        out.append(" ");
        push_digit(&mut out, self.hour as u16 / 10 % 10);
        push_digit(&mut out, self.hour as u16 % 10);
        out.append(":");
        push_digit(&mut out, self.minute as u16 / 10 % 10);
        push_digit(&mut out, self.minute as u16 % 10);
        out.append(":");
        push_digit(&mut out, self.second as u16 / 10 % 10);
        push_digit(&mut out, self.second as u16 % 10);
        proof {
            assert(out@ =~= display_spec(*self));
        }
        out
    }
}


/// What the detector sees in a path: when the path has a root (or keeps a
/// leading `.`) plus at least one further component — or, unrooted, at least
/// two components — and the component right after the first one ends in
/// exactly one space whose remainder parses as a `YYYYMMDDHHMMSS` timestamp,
/// the result is that timestamp and the path with that component removed.
pub open spec fn rclone_detect_spec(s: Seq<char>) -> Option<(Timestamp, Seq<char>)> {
    let rooted = is_rooted(s);
    let cur = has_leading_cur_dir(s);
    let segs = comps(s);
    let n_pre: int = if rooted || cur {
        1
    } else {
        0
    };
    if segs.len() + n_pre < 2 {
        None
    } else {
        let idx: int = if n_pre > 0 {
            0
        } else {
            1
        };
        let g = segs[idx];
        if g.len() == 0 || g[g.len() - 1] != ' ' {
            None
        } else {
            match parse_timestamp_spec(g.drop_last()) {
                None => None,
                Some(t) => Some(
                    (
                        t,
                        render_path(
                            rooted,
                            NormState { cur, out: segs.remove(idx) },
                            false,
                        ),
                    ),
                ),
            }
        }
    }
}

/// Removing an element of a vector removes it from the element-wise view.
proof fn lemma_deep_view_remove(v: Seq<String>, i: int)
    requires
        0 <= i < v.len(),
    ensures
        v.remove(i).map_values(|x: String| x@) == v.map_values(|x: String| x@).remove(i),
{
    v.remove_ensures(i);
    v.map_values(|x: String| x@).remove_ensures(i);
    assert(v.remove(i).map_values(|x: String| x@) =~= v.map_values(|x: String| x@).remove(i));
}

/// Inspect a path for the timestamp convention: the component after the
/// root must end in exactly one space and otherwise be a `YYYYMMDDHHMMSS`
/// timestamp.  On a match, the timestamp and the path without that
/// component are returned; on any deviation, nothing is.
pub fn path_contains_rclone_modification_date(path: &str) -> (r: Option<(Timestamp, String)>)
    ensures
        match r {
            Some(p) => rclone_detect_spec(path@) == Some((p.0, p.1@)),
            None => rclone_detect_spec(path@) is None,
        },
{
    let cur = leading_cur_dir(path);
    let (rooted, mut segs) = parse_components(path);
    let n_pre: usize = if rooted || cur {
        1
    } else {
        0
    };
    if segs.len() < 2 - n_pre {
        return None;
    }
    let idx: usize = if n_pre > 0 {
        0
    } else {
        1
    };
    let g = &segs[idx];
    let glen = g.as_str().unicode_len();
    if glen == 0 || g.as_str().get_char(glen - 1) != ' ' {
        return None;
    }
    let stamp = g.as_str().substring_char(0, glen - 1);
    proof {
        assert(stamp@ =~= segs.deep_view()[idx as int].drop_last());
    }
    match parse_timestamp(stamp) {
        None => None,
        Some(t) => {
            let ghost old_sv = segs@;
            let ghost old_dv = segs.deep_view();
            let _removed = segs.remove(idx);
            proof {
                lemma_deep_view_remove(old_sv, idx as int);
                assert(segs.deep_view() == old_dv.remove(idx as int));
            }
            let remaining = render(rooted, cur, &segs, false);
            proof {
                assert(remaining@ == render_path(
                    rooted,
                    NormState { cur, out: comps(path@).remove(idx as int) },
                    false,
                ));
                assert(rclone_detect_spec(path@) == Some((t, remaining@)));
            }
            Some((t, remaining))
        },
    }
}


pub open spec fn days_in_year(y: int) -> int {
    if is_leap_year(y) {
        366
    } else {
        365
    }
}

/// Days in all years before `y`, counted from year zero.
pub open spec fn days_before_year(y: int) -> int
    decreases y,
{
    if y <= 0 {
        0
    } else {
        days_before_year(y - 1) + days_in_year(y - 1)
    }
}

/// Days in the months of year `y` before month `m`.
pub open spec fn days_before_month(y: int, m: int) -> int
    decreases m,
{
    if m <= 1 {
        0
    } else {
        days_before_month(y, m - 1) + days_in_month(y, m - 1)
    }
}

/// The day index of a date, counted from the first day of year zero.
pub open spec fn day_number(y: int, m: int, d: int) -> int {
    days_before_year(y) + days_before_month(y, m) + d - 1
}

/// Seconds between a timestamp and the epoch (1970-01-01 00:00:00), negative
/// for earlier timestamps.
pub open spec fn epoch_seconds_spec(t: Timestamp) -> int {
    (day_number(t.year as int, t.month as int, t.day as int) - day_number(1970, 1, 1)) * 86400
        + (t.hour as int) * 3600 + (t.minute as int) * 60 + (t.second as int)
}

proof fn lemma_days_before_year_bound(y: int)
    requires
        0 <= y,
    ensures
        365 * y <= days_before_year(y) <= 366 * y,
    decreases y,
{
    if y > 0 {
        lemma_days_before_year_bound(y - 1);
    }
}

proof fn lemma_days_before_month_bound(y: int, m: int)
    requires
        1 <= m,
    ensures
        0 <= days_before_month(y, m) <= 31 * (m - 1),
    decreases m,
{
    if m > 1 {
        lemma_days_before_month_bound(y, m - 1);
    }
}

fn leap_year(y: u16) -> (r: bool)
    ensures
        r == is_leap_year(y as int),
{
    (y % 4 == 0 && y % 100 != 0) || y % 400 == 0
}

/// Days in all years before `y`, counted from year zero.
fn days_before_year_exec(y: u16) -> (r: u32)
    requires
        y <= 10000,
    ensures
        r == days_before_year(y as int),
{
    let mut acc: u32 = 0;
    let mut k: u16 = 0;
    while k < y
        invariant
            k <= y <= 10000,
            acc == days_before_year(k as int),
        decreases y - k,
    {
        proof {
            lemma_days_before_year_bound(k as int);
        }
        if leap_year(k) {
            acc = acc + 366;
        } else {
            acc = acc + 365;
        }
        k = k + 1;
    }
    acc
}

fn days_in_month_exec(y: u16, m: u8) -> (r: u8)
    ensures
        r == days_in_month(y as int, m as int),
{
    if m == 2 {
        if leap_year(y) {
            29
        } else {
            28
        }
    } else if m == 4 || m == 6 || m == 9 || m == 11 {
        30
    } else {
        31
    }
}

/// Days in the months of year `y` before month `m`.
fn days_before_month_exec(y: u16, m: u8) -> (r: u16)
    requires
        1 <= m <= 12,
    ensures
        r == days_before_month(y as int, m as int),
{
    let mut acc: u16 = 0;
    let mut k: u8 = 1;
    while k < m
        invariant
            1 <= k <= m <= 12,
            acc == days_before_month(y as int, k as int),
        decreases m - k,
    {
        proof {
            lemma_days_before_month_bound(y as int, k as int);
        }
        acc = acc + days_in_month_exec(y, k) as u16;
        k = k + 1;
    }
    acc
}

impl Timestamp {
    /// Whether the fields form a real calendar date and time.
    pub fn is_valid(&self) -> (r: bool)
        ensures
            r == timestamp_valid(*self),
    {
        self.year <= 9999 && 1 <= self.month && self.month <= 12 && 1 <= self.day && self.day
            <= days_in_month_exec(self.year, self.month) && self.hour <= 23 && self.minute <= 59
            && self.second <= 59
    }

    /// The timestamp as seconds since the epoch (1970-01-01 00:00:00),
    /// negative for earlier timestamps.
    pub fn epoch_seconds(&self) -> (r: i64)
        requires
            timestamp_valid(*self),
        ensures
            r == epoch_seconds_spec(*self),
    {
        proof {
            lemma_days_before_year_bound(self.year as int);
            lemma_days_before_year_bound(1970);
            lemma_days_before_month_bound(self.year as int, self.month as int);
        }
        let days: i64 = days_before_year_exec(self.year) as i64
            + days_before_month_exec(self.year, self.month) as i64 + self.day as i64 - 1;
        let epoch_day: i64 = days_before_year_exec(1970) as i64;
        (days - epoch_day) * 86400 + self.hour as i64 * 3600 + self.minute as i64 * 60
            + self.second as i64
    }
}

} // verus!
