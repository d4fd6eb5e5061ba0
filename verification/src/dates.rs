//! Publication dates: parsing `YYYY-MM-DD` and `YYYY-MM-DDTHH:MM:SSZ`
//! strings into seconds since the epoch. Years 1970 through 9999 are
//! supported; the proleptic Gregorian leap rules apply.

use vstd::prelude::*;
use crate::text::{all_digits, dec_val, parse_u32_dec};
use crate::post::slice_chars;

verus! {

/// Whether a year is a leap year.
pub open spec fn is_leap_year(y: int) -> bool {
    y % 4 == 0 && (y % 100 != 0 || y % 400 == 0)
}

/// The number of days of month `m` of year `y` (months count from 1).
pub open spec fn days_in_month(y: int, m: int) -> int {
    if m == 2 {
        if is_leap_year(y) {
            29
        } else {
            28
        }
    } else if m == 4 || m == 6 || m == 9 || m == 11 {
        30
    } else {
        31
    }
}

/// Days from the epoch to the start of year `y`.
pub open spec fn days_before_year(y: int) -> int
    decreases y when y >= 1970
{
    if y <= 1970 {
        0
    } else {
        days_before_year(y - 1) + if is_leap_year(y - 1) {
            366int
        } else {
            365int
        }
    }
}

/// Days from the start of year `y` to the start of month `m`.
pub open spec fn days_before_month(y: int, m: int) -> int
    decreases m when m >= 1
{
    if m <= 1 {
        0
    } else {
        days_before_month(y, m - 1) + days_in_month(y, m - 1)
    }
}

/// The day number of a calendar date, counting the epoch as day zero.
pub open spec fn epoch_day(y: int, m: int, d: int) -> int {
    days_before_year(y) + days_before_month(y, m) + (d - 1)
}

/// The epoch seconds of a calendar date and time of day.
pub open spec fn epoch_secs(y: int, m: int, d: int, h: int, mi: int, s: int) -> int {
    epoch_day(y, m, d) * 86400 + h * 3600 + mi * 60 + s
}

/// Whether the fields form a valid supported date and time.
pub open spec fn valid_date_time(y: int, m: int, d: int, h: int, mi: int, s: int) -> bool {
    &&& 1970 <= y <= 9999
    &&& 1 <= m <= 12
    &&& 1 <= d <= days_in_month(y, m)
    &&& 0 <= h <= 23
    &&& 0 <= mi <= 59
    &&& 0 <= s <= 59
}

/// What a date string denotes: `YYYY-MM-DD` means midnight of that day,
/// `YYYY-MM-DDTHH:MM:SSZ` the given universal time; anything else,
/// including out-of-range fields, denotes nothing.
pub open spec fn spec_parse_date(s: Seq<char>) -> Option<i64> {
    if s.len() != 10 && s.len() != 20 {
        None
    } else if !(s[4] == '-' && s[7] == '-') {
        None
    } else if s.len() == 20 && !(s[10] == 'T' && s[13] == ':' && s[16] == ':' && s[19] == 'Z') {
        None
    } else {
        let ys = s.subrange(0, 4);
        let ms = s.subrange(5, 7);
        let ds = s.subrange(8, 10);
        if !(all_digits(ys) && all_digits(ms) && all_digits(ds)) {
            None
        } else if s.len() == 20 && !(all_digits(s.subrange(11, 13)) && all_digits(
            s.subrange(14, 16),
        ) && all_digits(s.subrange(17, 19))) {
            None
        } else {
            let y = dec_val(ys);
            let m = dec_val(ms);
            let d = dec_val(ds);
            let h = if s.len() == 20 {
                dec_val(s.subrange(11, 13))
            } else {
                0
            };
            let mi = if s.len() == 20 {
                dec_val(s.subrange(14, 16))
            } else {
                0
            };
            let sec = if s.len() == 20 {
                dec_val(s.subrange(17, 19))
            } else {
                0
            };
            if valid_date_time(y, m, d, h, mi, sec) {
                Some(epoch_secs(y, m, d, h, mi, sec) as i64)
            } else {
                None
            }
        }
    }
}

/// Decide leapness of a year.
pub fn is_leap_year_exec(y: u32) -> (r: bool)
    ensures
        r == is_leap_year(y as int),
{
    y % 4 == 0 && (y % 100 != 0 || y % 400 == 0)
}

/// The number of days of a month.
pub fn days_in_month_exec(y: u32, m: u32) -> (r: u32)
    ensures
        r == days_in_month(y as int, m as int),
        28 <= r <= 31,
{
    if m == 2 {
        if is_leap_year_exec(y) {
            29
        } else {
            28
        }
    } else if m == 4 || m == 6 || m == 9 || m == 11 {
        30
    } else {
        31
    }
}

/// Days from the epoch to the start of year `y`.
fn days_before_year_exec(y: u32) -> (r: u64)
    requires
        1970 <= y <= 9999,
    ensures
        r == days_before_year(y as int),
        r <= 366 * (y - 1970),
{
    let mut acc: u64 = 0;
    let mut yy: u32 = 1970;
    while yy < y
        invariant
            1970 <= yy <= y <= 9999,
            acc == days_before_year(yy as int),
            acc <= 366 * (yy - 1970),
        decreases y - yy,
    {
        if is_leap_year_exec(yy) {
            acc = acc + 366;
        } else {
            acc = acc + 365;
        }
        yy = yy + 1;
    }
    acc
}

/// Days from the start of year `y` to the start of month `m`.
fn days_before_month_exec(y: u32, m: u32) -> (r: u32)
    requires
        1 <= m <= 12,
    ensures
        r == days_before_month(y as int, m as int),
        r <= 366,
{
    let mut acc: u32 = 0;
    let mut mm: u32 = 1;
    while mm < m
        invariant
            1 <= mm <= m <= 12,
            acc == days_before_month(y as int, mm as int),
            acc <= 31 * (mm - 1),
        decreases m - mm,
    {
        acc = acc + days_in_month_exec(y, mm);
        mm = mm + 1;
    }
    acc
}

/// Parse a date string into seconds since the epoch.
pub fn parse_date_chars(v: &Vec<char>) -> (r: Option<i64>)
    ensures
        r == spec_parse_date(v@),
{
    let n = v.len();
    if n != 10 && n != 20 {
        return None;
    }
    if !(v[4] == '-' && v[7] == '-') {
        return None;
    }
    if n == 20 && !(v[10] == 'T' && v[13] == ':' && v[16] == ':' && v[19] == 'Z') {
        return None;
    }
    let ys = slice_chars(v, 0, 4);
    let ms = slice_chars(v, 5, 7);
    let ds = slice_chars(v, 8, 10);
    let y = match parse_u32_dec(&ys) {
        Some(x) => x,
        None => {
            proof {
                lemma_small_dec_bound(v@.subrange(0, 4));
            }
            return None;
        },
    };
    let m = match parse_u32_dec(&ms) {
        Some(x) => x,
        None => {
            proof {
                lemma_small_dec_bound(v@.subrange(5, 7));
            }
            return None;
        },
    };
    let d = match parse_u32_dec(&ds) {
        Some(x) => x,
        None => {
            proof {
                lemma_small_dec_bound(v@.subrange(8, 10));
            }
            return None;
        },
    };
    let (h, mi, sec) = if n == 20 {
        let hs = slice_chars(v, 11, 13);
        let mis = slice_chars(v, 14, 16);
        let ss = slice_chars(v, 17, 19);
        let h = match parse_u32_dec(&hs) {
            Some(x) => x,
            None => {
                proof {
                    lemma_small_dec_bound(v@.subrange(11, 13));
                }
                return None;
            },
        };
        let mi = match parse_u32_dec(&mis) {
            Some(x) => x,
            None => {
                proof {
                    lemma_small_dec_bound(v@.subrange(14, 16));
                }
                return None;
            },
        };
        let sec = match parse_u32_dec(&ss) {
            Some(x) => x,
            None => {
                proof {
                    lemma_small_dec_bound(v@.subrange(17, 19));
                }
                return None;
            },
        };
        (h, mi, sec)
    } else {
        (0, 0, 0)
    };
    if !(1970 <= y && y <= 9999) {
        return None;
    }
    if !(1 <= m && m <= 12) {
        return None;
    }
    let dim = days_in_month_exec(y, m);
    if !(1 <= d && d <= dim) {
        return None;
    }
    if !(h <= 23 && mi <= 59 && sec <= 59) {
        return None;
    }
    let days: u64 = days_before_year_exec(y) + days_before_month_exec(y, m) as u64 + (d - 1) as u64;
    let secs: u64 = days * 86400 + h as u64 * 3600 + mi as u64 * 60 + sec as u64;
    proof {
        assert(days <= 366 * (9999 - 1970) + 366 + 30);
        assert(secs == epoch_secs(y as int, m as int, d as int, h as int, mi as int, sec as int));
        assert(secs <= 3000000 * 86400 + 23 * 3600 + 59 * 60 + 59);
    }
    Some(secs as i64)
}

/// Ten to the `n`.
spec fn pow10(n: nat) -> int
    decreases n,
{
    if n == 0 {
        1
    } else {
        10 * pow10((n - 1) as nat)
    }
}

/// The value of a digit run lies below ten to its length.
proof fn lemma_dec_val_range(s: Seq<char>)
    ensures
        all_digits(s) ==> 0 <= dec_val(s) < pow10(s.len()),
    decreases s.len(),
{
    if s.len() > 0 {
        lemma_dec_val_range(s.drop_last());
        if all_digits(s) {
            assert(all_digits(s.drop_last())) by {
                assert(forall|i: int|
                    0 <= i < s.len() - 1 ==> s.drop_last()[i] == s[i]);
            }
            let x = dec_val(s.drop_last());
            let p = pow10((s.len() - 1) as nat);
            assert(0 <= crate::text::digit_val(s.last()).unwrap_or(0) < 10);
            assert(x * 10 <= (p - 1) * 10) by (nonlinear_arith)
                requires
                    x <= p - 1,
            ;
        }
    }
}

/// A digit run of at most four characters fits in a `u32`.
proof fn lemma_small_dec_bound(s: Seq<char>)
    requires
        s.len() <= 4,
    ensures
        all_digits(s) ==> 0 <= dec_val(s) <= 9999,
{
    lemma_dec_val_range(s);
    assert(pow10(0) == 1);
    assert(pow10(1) == 10);
    assert(pow10(2) == 100);
    assert(pow10(3) == 1000);
    assert(pow10(4) == 10000);
    if all_digits(s) {
        assert(pow10(s.len()) <= 10000) by {
            if s.len() == 0 {
            } else if s.len() == 1 {
            } else if s.len() == 2 {
            } else if s.len() == 3 {
            } else {
                assert(s.len() == 4);
            }
        }
    }
}

} // verus!
