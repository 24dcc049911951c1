//! Calendar dates: an unvalidated day/month/year triple with a canonical
//! `DD-MM-YYYY` text form, an anchored parser for that form, and a total
//! order by year, then month, then day.
//!
//! Construction never validates: any triple is a `Date`. Only the conversion
//! to a calendar instant checks that the triple names a real day on the
//! proleptic Gregorian calendar.

use vstd::prelude::*;

use crate::calendar::{
    calendar_date_at_midnight, calendar_date_from_ymd, calendar_instant_day,
    calendar_instant_month, calendar_instant_year, days_in_month, instant_day_of,
    instant_month_of, instant_year_of, MAX_CALENDAR_YEAR,
};
use crate::text::{
    all_digits, dec_digits, dec_digits_pad2, digits_val, is_digit_char, lemma_dec_digits_pad2_len,
    lemma_dec_digits_wf, lemma_digits_val_dec_digits, push_u64_decimal, push_u64_decimal_pad2,
};

verus! {

/// Errors produced from the `Date` type.
#[derive(Debug, Clone, Copy, PartialEq, Eq, Structural)]
pub enum DateError {
    /// The triple does not name a real calendar date.
    ValueOutOfBounds,
    /// The text does not have the shape `DD-MM-YYYY`.
    InvalidFormat,
    /// A field of the text is not a valid integer.
    InvalidValue,
}

/// A date as a raw day/month/year triple.
///
/// The triple is not validated on construction: `day` and `month` may lie
/// outside any calendar. Validation happens in [`Date::to_calendar_instant`].
#[derive(Debug, Clone, Copy, PartialEq, Eq, Structural, Ord, Hash)]
pub struct Date {
    /// Year; the text form writes it unpadded. Declared first so that the
    /// derived `Ord` orders by year, then month, then day.
    pub year: u64,
    /// Month of the year, starting from 1 when the date is a real one.
    pub month: u8,
    /// Day of the month, starting from 1 when the date is a real one.
    pub day: u8,
}

/// The canonical text of a date: day and month zero-padded to two digits,
/// year unpadded, separated by hyphens.
pub open spec fn date_text(d: Date) -> Seq<char> {
    dec_digits_pad2(d.day as nat) + seq!['-'] + dec_digits_pad2(d.month as nat) + seq!['-']
        + dec_digits(d.year as nat)
}

/// The shape of the canonical grammar: a two-character day field and a
/// two-character month field, each followed by a hyphen, then a year field
/// of at least one character.
pub open spec fn date_shape(s: Seq<char>) -> bool {
    s.len() >= 7 && s[2] == '-' && s[5] == '-'
}

/// What parsing yields on any input: `InvalidFormat` when the shape is
/// wrong, `InvalidValue` when a field is not a number or the year overflows,
/// and otherwise the date read from the three fields.
pub open spec fn parse_spec(s: Seq<char>) -> Result<Date, DateError> {
    if !date_shape(s) {
        Err(DateError::InvalidFormat)
    } else {
        let day = s.subrange(0, 2);
        let month = s.subrange(3, 5);
        let year = s.subrange(6, s.len() as int);
        if !(all_digits(day) && all_digits(month) && all_digits(year)) {
            Err(DateError::InvalidValue)
        } else if digits_val(year) > u64::MAX {
            Err(DateError::InvalidValue)
        } else {
            Ok(
                Date {
                    day: digits_val(day) as u8,
                    month: digits_val(month) as u8,
                    year: digits_val(year) as u64,
                },
            )
        }
    }
}

/// Strict lexicographic order on dates: year first, then month, then day.
pub open spec fn date_lt(a: Date, b: Date) -> bool {
    ||| a.year < b.year
    ||| (a.year == b.year && a.month < b.month)
    ||| (a.year == b.year && a.month == b.month && a.day < b.day)
}

impl Date {
    /// Create a new `Date` from a day, month, and year; no validation is
    /// performed at this point.
    pub fn new(day: u8, month: u8, year: u64) -> (r: Date)
        ensures
            r == (Date { day, month, year }),
    {
        Date { day, month, year }
    }

    /// Get the day from this date.
    pub fn day(&self) -> (r: u8)
        ensures
            r == self.day,
    {
        self.day
    }

    /// Get the month from this date.
    pub fn month(&self) -> (r: u8)
        ensures
            r == self.month,
    {
        self.month
    }

    /// Get the year from this date.
    pub fn year(&self) -> (r: u64)
        ensures
            r == self.year,
    {
        self.year
    }

    /// Render this date in the canonical text form; this never fails, even
    /// for triples that name no real calendar date.
    pub fn to_text(&self) -> (r: String)
        ensures
            r@ == date_text(*self),
    {
        let mut r = String::new();
        push_u64_decimal_pad2(&mut r, self.day as u64);
        r.append("-");
        push_u64_decimal_pad2(&mut r, self.month as u64);
        r.append("-");
        push_u64_decimal(&mut r, self.year);
        proof {
            reveal_strlit("-");
            assert(r@ =~= date_text(*self));
        }
        r
    }

    /// Parse the canonical text form, anchored: the whole string must be
    /// two day digits, a hyphen, two month digits, a hyphen, and one or
    /// more year digits.
    #[verifier::loop_isolation(false)]
    pub fn parse(s: &str) -> (r: Result<Date, DateError>)
        ensures
            r == parse_spec(s@),
    {
        let n = s.unicode_len();
        if n < 7 {
            return Err(DateError::InvalidFormat);
        }
        if s.get_char(2) != '-' || s.get_char(5) != '-' {
            return Err(DateError::InvalidFormat);
        }
        let ghost day_field = s@.subrange(0, 2);
        let ghost month_field = s@.subrange(3, 5);
        let ghost year_field = s@.subrange(6, s@.len() as int);

        let day = match parse_two_digits(s, 0) {
            Some(d) => d,
            None => {
                return Err(DateError::InvalidValue);
            },
        };
        let month = match parse_two_digits(s, 3) {
            Some(m) => m,
            None => {
                return Err(DateError::InvalidValue);
            },
        };

        let mut year: u64 = 0;
        let mut i: usize = 6;
        while i < n
            invariant
                6 <= i <= n,
                n == s@.len(),
                date_shape(s@),
                all_digits(s@.subrange(6, i as int)),
                year == digits_val(s@.subrange(6, i as int)),
            decreases n - i,
        {
            let c = s.get_char(i);
            let d = match char_digit(c) {
                Some(d) => d,
                None => {
                    proof {
                        assert(s@.subrange(6, s@.len() as int)[i - 6] == c);
                        assert(!all_digits(year_field));
                    }
                    return Err(DateError::InvalidValue);
                },
            };
            let wide: u128 = year as u128 * 10 + d as u128;
            proof {
                let pre = s@.subrange(6, i as int);
                let ext = s@.subrange(6, i + 1 as int);
                assert(ext.drop_last() =~= pre);
                assert(ext.last() == c);
                assert(all_digits(ext)) by {
                    assert(forall|k: int|
                        0 <= k < pre.len() ==> ext[k] == #[trigger] pre[k]);
                }
                assert(digits_val(ext) == (digits_val(pre) * 10 + (c as int - 48)) as nat);
                assert(digits_val(ext) == wide as nat);
            }
            if wide > u64::MAX as u128 {
                proof {
                    if all_digits(year_field) {
                        lemma_digits_val_mono(s@, 6, i + 1 as int, s@.len() as int);
                        assert(digits_val(year_field) > u64::MAX);
                    }
                }
                return Err(DateError::InvalidValue);
            }
            year = wide as u64;
            i = i + 1;
        }
        proof {
            assert(s@.subrange(6, i as int) =~= year_field);
            assert(day_field =~= seq![s@[0], s@[1]]);
            assert(month_field =~= seq![s@[3], s@[4]]);
        }
        Ok(Date { day, month, year })
    }
}

/// Does the triple name a real day of the proleptic Gregorian calendar that
/// a calendar instant can carry?
pub open spec fn valid_calendar_date(d: Date) -> bool {
    &&& 1 <= d.month <= 12
    &&& 1 <= d.day <= days_in_month(d.year as int, d.month as int)
    &&& d.year <= MAX_CALENDAR_YEAR
}

impl Date {
    /// Realize this date as a calendar instant (the midnight of that day).
    /// This is the only validating operation: it fails exactly when the
    /// triple does not name a real calendar date. The instant it returns
    /// carries this date's own day, month and year.
    pub fn to_calendar_instant(&self) -> (r: Result<chrono::NaiveDateTime, DateError>)
        ensures
            r.is_ok() <==> valid_calendar_date(*self),
            !valid_calendar_date(*self) ==> r == Err::<chrono::NaiveDateTime, DateError>(
                DateError::ValueOutOfBounds,
            ),
            r matches Ok(t) ==> {
                &&& instant_day_of(t) as int == self.day as int
                &&& instant_month_of(t) as int == self.month as int
                &&& instant_year_of(t) as int == self.year as int
            },
    {
        if self.year > MAX_CALENDAR_YEAR {
            return Err(DateError::ValueOutOfBounds);
        }
        match calendar_date_from_ymd(self.year as i32, self.month as u32, self.day as u32) {
            Some(d) => Ok(calendar_date_at_midnight(d)),
            None => Err(DateError::ValueOutOfBounds),
        }
    }

    /// Read a calendar instant back as a date; this always succeeds, and
    /// the result carries the instant's own day, month and year, so a
    /// stored date is reconstructed on read. The year field is unsigned: an
    /// instant before year zero comes back with its year truncated, as the
    /// store never writes one.
    pub fn from_calendar_instant(t: &chrono::NaiveDateTime) -> (r: Date)
        ensures
            r.day as int == instant_day_of(*t) as int,
            r.month as int == instant_month_of(*t) as int,
            instant_year_of(*t) >= 0 ==> r.year as int == instant_year_of(*t) as int,
            1 <= r.day <= 31,
            1 <= r.month <= 12,
    {
        let day = calendar_instant_day(t) as u8;
        let month = calendar_instant_month(t) as u8;
        let year = calendar_instant_year(t);
        Date { day, month, year: #[verifier::truncate] (year as u64) }
    }
}

impl PartialOrd for Date {
    /// Compare two dates by year, then month, then day.
    fn partial_cmp(&self, other: &Date) -> (r: Option<core::cmp::Ordering>) {
        if self.year != other.year {
            if self.year < other.year {
                Some(core::cmp::Ordering::Less)
            } else {
                Some(core::cmp::Ordering::Greater)
            }
        } else if self.month != other.month {
            if self.month < other.month {
                Some(core::cmp::Ordering::Less)
            } else {
                Some(core::cmp::Ordering::Greater)
            }
        } else if self.day != other.day {
            if self.day < other.day {
                Some(core::cmp::Ordering::Less)
            } else {
                Some(core::cmp::Ordering::Greater)
            }
        } else {
            Some(core::cmp::Ordering::Equal)
        }
    }
}

impl vstd::std_specs::cmp::PartialOrdSpecImpl for Date {
    open spec fn obeys_partial_cmp_spec() -> bool {
        true
    }

    open spec fn partial_cmp_spec(&self, other: &Date) -> Option<core::cmp::Ordering> {
        if date_lt(*self, *other) {
            Some(core::cmp::Ordering::Less)
        } else if date_lt(*other, *self) {
            Some(core::cmp::Ordering::Greater)
        } else {
            Some(core::cmp::Ordering::Equal)
        }
    }
}

/// Rendering a date and parsing the text back yields the date again, for
/// every triple whose day and month lie in the calendar ranges (in fact for
/// any day and month of at most two digits).
pub proof fn lemma_text_round_trip(day: u8, month: u8, year: u64)
    requires
        1 <= day <= 31,
        1 <= month <= 12,
    ensures
        parse_spec(date_text(Date { day, month, year })) == Ok::<Date, DateError>(
            Date { day, month, year },
        ),
{
    let d = Date { day, month, year };
    let s = date_text(d);
    lemma_dec_digits_pad2_len(day as nat);
    lemma_dec_digits_pad2_len(month as nat);
    lemma_dec_digits_wf(year as nat);
    lemma_digits_val_dec_digits(year as nat);
    assert(s.subrange(0, 2) =~= dec_digits_pad2(day as nat));
    assert(s[2] == '-');
    assert(s.subrange(3, 5) =~= dec_digits_pad2(month as nat));
    assert(s[5] == '-');
    assert(s.subrange(6, s.len() as int) =~= dec_digits(year as nat));
    assert(date_shape(s));
}

/// The order on dates is a strict total order that matches structural
/// equality: any two dates relate in exactly one of the three ways, and the
/// order is transitive.
pub proof fn lemma_date_order_total(a: Date, b: Date, c: Date)
    ensures
        date_lt(a, b) || date_lt(b, a) || a == b,
        date_lt(a, b) ==> !(date_lt(b, a) || a == b),
        a == b ==> !(date_lt(a, b) || date_lt(b, a)),
        date_lt(a, b) && date_lt(b, c) ==> date_lt(a, c),
{
}

/// The digit value of a character, when it is one of `'0'` through `'9'`.
fn char_digit(c: char) -> (r: Option<u8>)
    ensures
        match r {
            Some(d) => is_digit_char(c) && d < 10 && d as int == c as int - 48,
            None => !is_digit_char(c),
        },
{
    let v = c as u32;
    if 48 <= v && v <= 57 {
        Some((v - 48) as u8)
    } else {
        None
    }
}

/// Reads the two-digit field of `s` that starts at `at`; `None` when either
/// character is not a digit.
fn parse_two_digits(s: &str, at: usize) -> (r: Option<u8>)
    requires
        at + 2 <= s@.len(),
        s@.len() <= usize::MAX,
    ensures
        match r {
            Some(v) => {
                &&& all_digits(s@.subrange(at as int, at + 2))
                &&& v < 100
                &&& v as nat == digits_val(s@.subrange(at as int, at + 2))
            },
            None => !all_digits(s@.subrange(at as int, at + 2)),
        },
{
    let ghost field = s@.subrange(at as int, at + 2);
    let c0 = s.get_char(at);
    let c1 = s.get_char(at + 1);
    proof {
        assert(field[0] == c0);
        assert(field[1] == c1);
    }
    let d0 = match char_digit(c0) {
        Some(d) => d,
        None => {
            return None;
        },
    };
    let d1 = match char_digit(c1) {
        Some(d) => d,
        None => {
            return None;
        },
    };
    proof {
        assert(field =~= seq![c0, c1]);
        lemma_digits_val_pair(c0, c1);
        assert(forall|k: int| 0 <= k < 2 ==> (#[trigger] field[k] == c0 || field[k] == c1));
    }
    Some(d0 * 10 + d1)
}

/// The base-ten value of a two-digit string.
proof fn lemma_digits_val_pair(c0: char, c1: char)
    requires
        is_digit_char(c0),
        is_digit_char(c1),
    ensures
        digits_val(seq![c0, c1]) == (c0 as int - 48) * 10 + (c1 as int - 48),
{
    let s = seq![c0, c1];
    assert(s.drop_last() =~= seq![c0]);
    assert(seq![c0].drop_last() =~= Seq::<char>::empty());
    assert(digits_val(Seq::<char>::empty()) == 0);
    assert(digits_val(seq![c0]) == (digits_val(seq![c0].drop_last()) * 10 + (seq![c0].last() as int
        - 48)) as nat);
    assert(digits_val(s) == (digits_val(s.drop_last()) * 10 + (s.last() as int - 48)) as nat);
}

/// Reading more digits of a number can only increase its value.
proof fn lemma_digits_val_mono(s: Seq<char>, a: int, i: int, j: int)
    requires
        0 <= a <= i <= j <= s.len(),
        all_digits(s.subrange(a, j)),
    ensures
        digits_val(s.subrange(a, i)) <= digits_val(s.subrange(a, j)),
    decreases j - i,
{
    if i < j {
        let shorter = s.subrange(a, j - 1);
        let longer = s.subrange(a, j);
        assert(longer.drop_last() =~= shorter);
        assert(all_digits(shorter)) by {
            assert(forall|k: int|
                0 <= k < shorter.len() ==> shorter[k] == #[trigger] longer[k]);
        }
        assert(is_digit_char(longer.last())) by {
            assert(longer.last() == longer[j - a - 1]);
        }
        assert(digits_val(longer) == (digits_val(shorter) * 10 + (longer.last() as int
            - 48)) as nat);
        assert(digits_val(shorter) <= digits_val(longer));
        lemma_digits_val_mono(s, a, i, j - 1);
    } else {
        assert(s.subrange(a, i) =~= s.subrange(a, j));
    }
}

} // verus!
