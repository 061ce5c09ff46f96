//! A plain calendar date: what the statement-range logic reads and writes.
//! The clock itself lives outside the library; dates enter as values.

use vstd::prelude::*;

use crate::error::Error;
use crate::text::all_digits;
use crate::text::char_views;
use crate::text::chars_of;
use crate::text::dec_digits;
use crate::text::dec_u32_padded;
use crate::text::dec_val;
use crate::text::is_digit;
use crate::text::split_chars;
use crate::text::split_on;
use crate::text::string_of;
use crate::text::zero_pad;

verus! {

/// A Gregorian leap year.
pub open spec fn is_leap_year(y: int) -> bool {
    y % 4 == 0 && (y % 100 != 0 || y % 400 == 0)
}

/// How many days the month `m` of year `y` has.
pub open spec fn days_in_month(y: int, m: int) -> int {
    if m == 2 {
        if is_leap_year(y) {
            29
        } else {
            28
        }
    } else if m == 4 || m == 6 || m == 9 || m == 11 {
        30
    } else {
        31
    }
}

/// A valid calendar date with a four-digit year.
pub open spec fn date_wf(y: int, m: int, d: int) -> bool {
    1 <= y <= 9999 && 1 <= m <= 12 && 1 <= d <= days_in_month(y, m)
}

/// One calendar date.
#[derive(Clone, Copy, Debug, PartialEq, Eq, Structural)]
pub struct Date {
    pub year: u32,
    pub month: u32,
    pub day: u32,
}

/// The calendar day before `(y, m, d)`; the earliest representable date is
/// its own predecessor.
pub open spec fn prev_day_of(y: int, m: int, d: int) -> (int, int, int) {
    if y == 1 && m == 1 && d == 1 {
        (y, m, d)
    } else if d > 1 {
        (y, m, d - 1)
    } else if m > 1 {
        (y, m - 1, days_in_month(y, m - 1))
    } else {
        (y - 1, 12, 31)
    }
}

/// The date `n` days before `(y, m, d)`.
pub open spec fn back_days(y: int, m: int, d: int, n: nat) -> (int, int, int)
    decreases n,
{
    if n == 0 {
        (y, m, d)
    } else {
        let p = back_days(y, m, d, (n - 1) as nat);
        prev_day_of(p.0, p.1, p.2)
    }
}

/// A day/month/year text in `dd/mm/yyyy` form (day and month may have one
/// digit), read as a valid calendar date.
pub open spec fn parse_date_text(s: Seq<char>) -> Option<(int, int, int)> {
    let parts = split_on(s, '/');
    if parts.len() != 3 {
        None
    } else if 1 <= parts[0].len() <= 2 && all_digits(parts[0]) && 1 <= parts[1].len() <= 2
        && all_digits(parts[1]) && parts[2].len() == 4 && all_digits(parts[2]) {
        let d = dec_val(parts[0]);
        let m = dec_val(parts[1]);
        let y = dec_val(parts[2]);
        if date_wf(y, m, d) {
            Some((y, m, d))
        } else {
            None
        }
    } else {
        None
    }
}

/// Reads a run of at most four digits as a number; used only on parts whose
/// length and digits were already checked.
fn small_dec(v: &Vec<char>) -> (r: u32)
    requires
        all_digits(v@),
        v@.len() <= 4,
    ensures
        r == dec_val(v@),
        r <= 9999,
{
    let mut val: u32 = 0;
    let mut k: usize = 0;
    while k < v.len()
        invariant
            k <= v@.len() <= 4,
            all_digits(v@),
            val == dec_val(v@.take(k as int)),
            val <= (if k == 0 {
                0int
            } else if k == 1 {
                9int
            } else if k == 2 {
                99int
            } else if k == 3 {
                999int
            } else {
                9999int
            }),
        decreases v.len() - k,
    {
        let c = v[k];
        proof {
            assert(is_digit(v@[k as int]));
            assert(v@.take(k + 1 as int).drop_last() =~= v@.take(k as int));
            assert(v@.take(k + 1 as int).last() == v@[k as int]);
        }
        val = val * 10 + ((c as u32) - 48);
        k = k + 1;
    }
    proof {
        assert(v@.take(v@.len() as int) =~= v@);
    }
    val
}

fn all_digits_exec(v: &Vec<char>) -> (r: bool)
    ensures
        r == all_digits(v@),
{
    let mut i: usize = 0;
    while i < v.len()
        invariant
            i <= v@.len(),
            forall|m: int| 0 <= m < i ==> is_digit(#[trigger] v@[m]),
        decreases v.len() - i,
    {
        let c = v[i];
        if !('0' <= c && c <= '9') {
            return false;
        }
        i = i + 1;
    }
    true
}

impl Date {
    /// A valid calendar date is accepted; anything else is refused.
    pub fn new(year: u32, month: u32, day: u32) -> (r: Option<Date>)
        ensures
            match r {
                Some(d) => {
                    &&& date_wf(year as int, month as int, day as int)
                    &&& d.year == year && d.month == month && d.day == day
                },
                None => !date_wf(year as int, month as int, day as int),
            },
    {
        if 1 <= year && year <= 9999 && 1 <= month && month <= 12 && 1 <= day && day
            <= days_in_month_exec(year, month) {
            Some(Date { year, month, day })
        } else {
            None
        }
    }

    /// The date is a valid calendar date.
    pub open spec fn wf(&self) -> bool {
        date_wf(self.year as int, self.month as int, self.day as int)
    }

    /// The calendar day before this one; the earliest representable date is
    /// its own predecessor.
    pub fn prev_day(&self) -> (r: Date)
        requires
            self.wf(),
        ensures
            r.wf(),
            (r.year as int, r.month as int, r.day as int) == prev_day_of(
                self.year as int,
                self.month as int,
                self.day as int,
            ),
    {
        if self.year == 1 && self.month == 1 && self.day == 1 {
            *self
        } else if self.day > 1 {
            Date { year: self.year, month: self.month, day: self.day - 1 }
        } else if self.month > 1 {
            Date {
                year: self.year,
                month: self.month - 1,
                day: days_in_month_exec(self.year, self.month - 1),
            }
        } else {
            Date { year: self.year - 1, month: 12, day: 31 }
        }
    }

    /// The date `n` days before this one.
    pub fn minus_days(&self, n: u32) -> (r: Date)
        requires
            self.wf(),
        ensures
            r.wf(),
            (r.year as int, r.month as int, r.day as int) == back_days(
                self.year as int,
                self.month as int,
                self.day as int,
                n as nat,
            ),
    {
        let mut cur = *self;
        let mut i: u32 = 0;
        while i < n
            invariant
                i <= n,
                cur.wf(),
                (cur.year as int, cur.month as int, cur.day as int) == back_days(
                    self.year as int,
                    self.month as int,
                    self.day as int,
                    i as nat,
                ),
            decreases n - i,
        {
            cur = cur.prev_day();
            i = i + 1;
        }
        cur
    }

    /// The day as two zero-padded digits.
    pub fn day_text(&self) -> (r: String)
        ensures
            r@ == zero_pad(dec_digits(self.day as int), 2),
    {
        string_of(&dec_u32_padded(self.day, 2))
    }

    /// The month as two zero-padded digits.
    pub fn month_text(&self) -> (r: String)
        ensures
            r@ == zero_pad(dec_digits(self.month as int), 2),
    {
        string_of(&dec_u32_padded(self.month, 2))
    }

    /// The year as four zero-padded digits.
    pub fn year_text(&self) -> (r: String)
        ensures
            r@ == zero_pad(dec_digits(self.year as int), 4),
    {
        string_of(&dec_u32_padded(self.year, 4))
    }

    /// Reads a `dd/mm/yyyy` text as a valid calendar date; anything else is
    /// an invalid-date failure.
    pub fn parse(s: &str) -> (r: Result<Date, Error>)
        ensures
            match r {
                Ok(d) => parse_date_text(s@) == Some(
                    (d.year as int, d.month as int, d.day as int),
                ) && d.wf(),
                Err(e) => parse_date_text(s@) is None && e == Error::InvalidDate,
            },
    {
        let v = chars_of(s);
        let parts = split_chars(&v, '/');
        let ghost pv = char_views(parts@);
        if parts.len() != 3 {
            return Err(Error::InvalidDate);
        }
        proof {
            assert(pv[0] == parts@[0]@);
            assert(pv[1] == parts@[1]@);
            assert(pv[2] == parts@[2]@);
        }
        let dpart = &parts[0];
        let mpart = &parts[1];
        let ypart = &parts[2];
        if !(1 <= dpart.len() && dpart.len() <= 2 && all_digits_exec(dpart) && 1 <= mpart.len()
            && mpart.len() <= 2 && all_digits_exec(mpart) && ypart.len() == 4 && all_digits_exec(
            ypart,
        )) {
            return Err(Error::InvalidDate);
        }
        let d = small_dec(dpart);
        let m = small_dec(mpart);
        let y = small_dec(ypart);
        if 1 <= y && 1 <= m && m <= 12 && 1 <= d && d <= days_in_month_exec(y, m) {
            Ok(Date { year: y, month: m, day: d })
        } else {
            Err(Error::InvalidDate)
        }
    }
}

/// Executable [`days_in_month`].
pub fn days_in_month_exec(y: u32, m: u32) -> (r: u32)
    ensures
        r == days_in_month(y as int, m as int),
{
    if m == 2 {
        if (y % 4 == 0) && (y % 100 != 0 || y % 400 == 0) {
            29
        } else {
            28
        }
    } else if m == 4 || m == 6 || m == 9 || m == 11 {
        30
    } else {
        31
    }
}

} // verus!
