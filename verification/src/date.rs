//! Calendar dates as plain year/month/day numbers, and the best-effort parse
//! of a notice's `createTime` string (`"YYYY.MM.DD"`).  A string that does not
//! split into exactly three in-range digit runs, or names an invalid calendar
//! day, falls back to the sentinel minimum date, so such a notice is treated
//! as older than any real cutoff.

use vstd::prelude::*;

verus! {

/// Smallest proleptic-Gregorian year a date value may carry.
pub const MIN_CAL_YEAR: i32 = -262143;

/// Largest proleptic-Gregorian year a date value may carry.
pub const MAX_CAL_YEAR: i32 = 262142;

/// A calendar date, compared chronologically (year, then month, then day).
#[derive(Clone, Copy, PartialEq, Eq, Structural, Debug)]
pub struct NoticeDate {
    pub year: i32,
    pub month: u32,
    pub day: u32,
}

pub open spec fn is_leap_year(y: int) -> bool {
    y % 4 == 0 && (y % 100 != 0 || y % 400 == 0)
}

pub open spec fn days_in_month(y: int, m: int) -> int {
    if m == 2 {
        if is_leap_year(y) {
            29
        } else {
            28
        }
    } else if m == 4 || m == 6 || m == 9 || m == 11 {
        30
    } else {
        31
    }
}

pub open spec fn date_parts_valid(y: int, m: int, d: int) -> bool {
    &&& MIN_CAL_YEAR as int <= y <= MAX_CAL_YEAR as int
    &&& 1 <= m <= 12
    &&& 1 <= d <= days_in_month(y, m)
}

impl NoticeDate {
    pub open spec fn valid(self) -> bool {
        date_parts_valid(self.year as int, self.month as int, self.day as int)
    }
}

/// Strict chronological order.
pub open spec fn date_lt(a: NoticeDate, b: NoticeDate) -> bool {
    ||| a.year < b.year
    ||| (a.year == b.year && a.month < b.month)
    ||| (a.year == b.year && a.month == b.month && a.day < b.day)
}

pub open spec fn date_le(a: NoticeDate, b: NoticeDate) -> bool {
    date_lt(a, b) || a == b
}

/// `a` is strictly after `b`.
pub open spec fn date_after(a: NoticeDate, b: NoticeDate) -> bool {
    date_lt(b, a)
}

/// The fallback minimum date substituted when parsing fails.
pub open spec fn sentinel_date() -> NoticeDate {
    NoticeDate { year: 1900, month: 1, day: 1 }
}

impl NoticeDate {
    /// The sentinel minimum date, 1900-01-01.
    pub fn sentinel() -> (r: NoticeDate)
        ensures
            r == sentinel_date(),
    {
        NoticeDate { year: 1900, month: 1, day: 1 }
    }

    /// Whether `self` is strictly after `other`.
    pub fn is_after(&self, other: &NoticeDate) -> (r: bool)
        ensures
            r == date_after(*self, *other),
    {
        if self.year != other.year {
            self.year > other.year
        } else if self.month != other.month {
            self.month > other.month
        } else {
            self.day > other.day
        }
    }
}

pub open spec fn is_digit_char(c: char) -> bool {
    0x30 <= c as u32 && c as u32 <= 0x39
}

pub open spec fn digit_val(c: char) -> int {
    c as u32 - 0x30
}

pub open spec fn is_digit_seq(s: Seq<char>) -> bool {
    forall|i: int| 0 <= i < s.len() ==> is_digit_char(#[trigger] s[i])
}

/// The number written by a run of decimal digits.
pub open spec fn digits_val(s: Seq<char>) -> int
    decreases s.len(),
{
    if s.len() == 0 {
        0
    } else {
        digits_val(s.drop_last()) * 10 + digit_val(s.last())
    }
}

proof fn lemma_digits_val_nonneg(s: Seq<char>)
    requires
        is_digit_seq(s),
    ensures
        digits_val(s) >= 0,
    decreases s.len(),
{
    if s.len() > 0 {
        assert(is_digit_seq(s.drop_last()));
        lemma_digits_val_nonneg(s.drop_last());
    }
}

/// A longer digit run never writes a smaller number than its prefix.
proof fn lemma_digits_val_prefix(s: Seq<char>, k: int)
    requires
        is_digit_seq(s),
        0 <= k <= s.len(),
    ensures
        digits_val(s) >= digits_val(s.take(k)),
    decreases s.len() - k,
{
    if k == s.len() {
        assert(s.take(k) =~= s);
    } else {
        assert(s.take(k + 1).drop_last() =~= s.take(k));
        assert(s.take(k + 1).last() == s[k]);
        assert(is_digit_seq(s.take(k + 1)));
        lemma_digits_val_nonneg(s.take(k));
        lemma_digits_val_prefix(s, k + 1);
    }
}

/// A nonempty digit run whose value stays within `max`.
pub open spec fn seg_num_ok(s: Seq<char>, max: int) -> bool {
    s.len() > 0 && is_digit_seq(s) && digits_val(s) <= max
}

/// First `'.'` at or after `from`.
pub open spec fn find_dot(s: Seq<char>, from: int) -> Option<int>
    decreases s.len() - from,
{
    if from < 0 || from >= s.len() {
        None
    } else if s[from] == '.' {
        Some(from)
    } else {
        find_dot(s, from + 1)
    }
}

/// What the `createTime` parse yields: the named date when the string is
/// exactly three in-range digit runs separated by `'.'` naming a valid
/// calendar day, else the sentinel.
pub open spec fn parse_date_spec(s: Seq<char>) -> NoticeDate {
    match find_dot(s, 0) {
        Option::None => sentinel_date(),
        Option::Some(i) => match find_dot(s, i + 1) {
            Option::None => sentinel_date(),
            Option::Some(j) => {
                if find_dot(s, j + 1) is Some {
                    sentinel_date()
                } else {
                    let ys = s.subrange(0, i);
                    let ms = s.subrange(i + 1, j);
                    let ds = s.subrange(j + 1, s.len() as int);
                    if seg_num_ok(ys, i32::MAX as int) && seg_num_ok(ms, u32::MAX as int)
                        && seg_num_ok(ds, u32::MAX as int) {
                        date_or_sentinel(digits_val(ys), digits_val(ms), digits_val(ds))
                    } else {
                        sentinel_date()
                    }
                }
            },
        },
    }
}

pub open spec fn date_or_sentinel(y: int, m: int, d: int) -> NoticeDate {
    if date_parts_valid(y, m, d) {
        NoticeDate { year: y as i32, month: m as u32, day: d as u32 }
    } else {
        sentinel_date()
    }
}

fn find_dot_from(s: &str, from: usize, n: usize) -> (r: Option<usize>)
    requires
        from <= n,
        n == s@.len(),
    ensures
        match r {
            Option::Some(i) => from <= i < n && find_dot(s@, from as int) == Option::Some(
                i as int,
            ),
            Option::None => find_dot(s@, from as int) is None,
        },
{
    let mut i: usize = from;
    while i < n
        invariant
            from <= i <= n,
            n == s@.len(),
            find_dot(s@, from as int) == find_dot(s@, i as int),
        decreases n - i,
    {
        if s.get_char(i) == '.' {
            return Some(i);
        }
        i = i + 1;
    }
    None
}

/// Reads the decimal digit run `s[lo..hi]`; `None` unless it is nonempty,
/// all digits, and within `max`.
fn parse_num_max(s: &str, lo: usize, hi: usize, max: u32) -> (r: Option<u32>)
    requires
        lo <= hi <= s@.len(),
    ensures
        ({
            let seg = s@.subrange(lo as int, hi as int);
            match r {
                Option::Some(v) => seg_num_ok(seg, max as int) && digits_val(seg) == v,
                Option::None => !seg_num_ok(seg, max as int),
            }
        }),
{
    let ghost seg = s@.subrange(lo as int, hi as int);
    if lo == hi {
        return None;
    }
    let mut acc: u64 = 0;
    let mut i: usize = lo;
    while i < hi
        invariant
            lo <= i <= hi <= s@.len(),
            seg == s@.subrange(lo as int, hi as int),
            is_digit_seq(seg.take(i - lo)),
            acc == digits_val(seg.take(i - lo)),
            acc <= max,
        decreases hi - i,
    {
        let c = s.get_char(i);
        if !('0' <= c && c <= '9') {
            assert(seg[i - lo] == c);
            assert(!is_digit_char(seg[i - lo]));
            return None;
        }
        let d: u64 = (c as u32 - 0x30) as u64;
        let next: u64 = acc * 10 + d;
        proof {
            assert(seg.take(i - lo + 1).drop_last() =~= seg.take(i - lo));
            assert(seg.take(i - lo + 1).last() == seg[i - lo]);
            assert(seg[i - lo] == c);
        }
        if next > max as u64 {
            proof {
                if is_digit_seq(seg) {
                    lemma_digits_val_prefix(seg, i - lo + 1);
                }
            }
            return None;
        }
        acc = next;
        i = i + 1;
    }
    proof {
        assert(seg.take(hi - lo) =~= seg);
    }
    Some(acc as u32)
}

fn leap_year_exec(y: i32) -> (r: bool)
    requires
        y >= 0,
    ensures
        r == is_leap_year(y as int),
{
    y % 4 == 0 && (y % 100 != 0 || y % 400 == 0)
}

fn parts_valid_exec(y: i32, m: u32, d: u32) -> (r: bool)
    requires
        y >= 0,
    ensures
        r == date_parts_valid(y as int, m as int, d as int),
{
    if y > MAX_CAL_YEAR || m < 1 || m > 12 || d < 1 {
        return false;
    }
    let dim: u32 = if m == 2 {
        if leap_year_exec(y) {
            29
        } else {
            28
        }
    } else if m == 4 || m == 6 || m == 9 || m == 11 {
        30
    } else {
        31
    };
    d <= dim
}

/// Best-effort parse of a `createTime` string; the sentinel on any failure.
/// Whatever the input, the result is a valid calendar date.
pub fn parse_notice_date(s: &str) -> (r: NoticeDate)
    ensures
        r == parse_date_spec(s@),
        r.valid(),
{
    let n: usize = s.unicode_len();
    let i: usize = match find_dot_from(s, 0, n) {
        Some(i) => i,
        None => {
            return NoticeDate::sentinel();
        },
    };
    let j: usize = match find_dot_from(s, i + 1, n) {
        Some(j) => j,
        None => {
            return NoticeDate::sentinel();
        },
    };
    if find_dot_from(s, j + 1, n).is_some() {
        return NoticeDate::sentinel();
    }
    let y = match parse_num_max(s, 0, i, i32::MAX as u32) {
        Some(v) => v as i32,
        None => {
            return NoticeDate::sentinel();
        },
    };
    let m = match parse_num_max(s, i + 1, j, u32::MAX) {
        Some(v) => v,
        None => {
            return NoticeDate::sentinel();
        },
    };
    let d = match parse_num_max(s, j + 1, n, u32::MAX) {
        Some(v) => v,
        None => {
            return NoticeDate::sentinel();
        },
    };
    proof {
        lemma_digits_val_nonneg(s@.subrange(0, i as int));
    }
    if parts_valid_exec(y, m, d) {
        NoticeDate { year: y, month: m, day: d }
    } else {
        NoticeDate::sentinel()
    }
}

} // verus!
