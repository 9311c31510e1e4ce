//! Dates, times of day, and the two 32-bit words in which Visual FoxPro stores
//! a date and a time: the Julian day number and the milliseconds since midnight.

use crate::endian::{i32_to_le_bytes, lemma_i32_le_roundtrip, read_i32_le};
use crate::error::{Error, IntErrorKind, ParseIntError};
use crate::reader::ByteReader;
use crate::text::{
    ascii_chars, is_ascii_bytes, is_digit, lemma_ascii_decode, lemma_decimal_len_bound,
    lemma_parse_zero_padded, parse_u32, push_zero_padded, spec_parse_u32, string_from_utf8,
    zero_padded,
};
use vstd::bytes::*;
use vstd::prelude::*;
use vstd::slice::slice_subrange;
use vstd::string::StringSliceAdditionalSpecFns;
use vstd::utf8::*;

verus! {

broadcast use group_utf8_lib;

/// Division truncated toward zero, as `/` computes on signed integers.
pub open spec fn tdiv(a: int, b: int) -> int {
    if a >= 0 {
        a / b
    } else {
        -((-a) / b)
    }
}

/// The remainder that goes with [`tdiv`], as `%` computes on signed integers.
pub open spec fn trem(a: int, b: int) -> int {
    a - b * tdiv(a, b)
}

/// Whether `v` fits in an `i32`.
pub open spec fn in_i32(v: int) -> bool {
    i32::MIN <= v <= i32::MAX
}

/// The fields of a [`Date`].
pub struct DateView {
    pub year: u32,
    pub month: u32,
    pub day: u32,
}

/// A calendar date, as a dBase `Date` field holds it.
#[derive(Debug, Copy, Clone, PartialEq, Eq, Structural)]
pub struct Date {
    pub(crate) year: u32,
    pub(crate) month: u32,
    pub(crate) day: u32,
}

impl View for Date {
    type V = DateView;

    closed spec fn view(&self) -> DateView {
        DateView { year: self.year, month: self.month, day: self.day }
    }
}

/// The Julian day number of a date in the proleptic Gregorian calendar, computed
/// with March as the first month of the year.
pub open spec fn to_jdn(d: DateView) -> int {
    let m: int = if d.month > 2 { d.month - 3 } else { d.month + 9 };
    let y: int = if d.month > 2 { d.year as int } else { d.year - 1 };
    let century = y / 100;
    let decade = y - 100 * century;
    (146097 * century) / 4 + (1461 * decade) / 4 + (153 * m + 2) / 5 + d.day + 1721119
}

/// Whether [`to_jdn`] can be computed in `u32` arithmetic without overflow.
pub open spec fn to_jdn_in_range(d: DateView) -> bool {
    let m: int = if d.month > 2 { d.month - 3 } else { d.month + 9 };
    let y: int = if d.month > 2 { d.year as int } else { d.year - 1 };
    &&& y >= 0
    &&& 146097 * (y / 100) <= u32::MAX
    &&& 153 * m + 2 <= u32::MAX
    &&& to_jdn(d) <= u32::MAX
}

/// The value `f` of the conversion from a Julian day number: the day number
/// shifted by the days that the Gregorian calendar leaves out.
pub open spec fn jdn_f(j: int) -> int {
    j + 1401 + tdiv(tdiv(4 * j + 274277, 146097) * 3, 4) - 38
}

/// The value `e` of the conversion from a Julian day number.
pub open spec fn jdn_e(j: int) -> int {
    4 * jdn_f(j) + 3
}

/// The value `h` of the conversion from a Julian day number.
pub open spec fn jdn_h(j: int) -> int {
    5 * tdiv(trem(jdn_e(j), 1461), 4) + 2
}

/// The day of the month of the Julian day number `j`.
pub open spec fn jdn_day(j: int) -> int {
    tdiv(trem(jdn_h(j), 153), 5) + 1
}

/// The month of the Julian day number `j`.
pub open spec fn jdn_month(j: int) -> int {
    trem(tdiv(jdn_h(j), 153) + 2, 12) + 1
}

/// The year of the Julian day number `j`.
pub open spec fn jdn_year(j: int) -> int {
    tdiv(jdn_e(j), 1461) - 4716 + tdiv(14 - jdn_month(j), 12)
}

/// The date of the Julian day number `j` in the proleptic Gregorian calendar
/// (Richards' algorithm), each part cast to `u32`.
pub open spec fn date_from_jdn(j: int) -> DateView {
    DateView {
        year: jdn_year(j) as u32,
        month: jdn_month(j) as u32,
        day: jdn_day(j) as u32,
    }
}

/// Whether every intermediate value of the conversion from the Julian day number
/// `j` fits in an `i32`.
pub open spec fn from_jdn_in_range(j: int) -> bool {
    &&& in_i32(j + 1401)
    &&& in_i32(4 * j)
    &&& in_i32(4 * j + 274277)
    &&& in_i32(j + 1401 + tdiv(tdiv(4 * j + 274277, 146097) * 3, 4))
    &&& in_i32(jdn_f(j))
    &&& in_i32(4 * jdn_f(j))
    &&& in_i32(jdn_e(j))
    &&& in_i32(tdiv(jdn_e(j), 1461) - 4716)
    &&& in_i32(jdn_year(j))
}

/// The bytes `YYYYMMDD` with which a date is written: each part in decimal,
/// zero-padded to four, two and two digits.
pub open spec fn date_text(d: DateView) -> Seq<u8> {
    zero_padded(d.year as nat, 4) + zero_padded(d.month as nat, 2) + zero_padded(d.day as nat, 2)
}

/// The date that `u32::from_str` makes of the three parts `YYYY`, `MM`, `DD` of
/// `b`, or the error of the first part that fails.
pub open spec fn parse_date_text(b: Seq<u8>) -> Result<DateView, IntErrorKind> {
    match spec_parse_u32(b.subrange(0, 4)) {
        Err(k) => Err(k),
        Ok(y) => match spec_parse_u32(b.subrange(4, 6)) {
            Err(k) => Err(k),
            Ok(m) => match spec_parse_u32(b.subrange(6, 8)) {
                Err(k) => Err(k),
                Ok(d) => Ok(DateView { year: y, month: m, day: d }),
            },
        },
    }
}

/// Whether the slices `[0..4]`, `[4..6]` and `[6..8]` of the text whose UTF-8
/// bytes are `b` fall on character boundaries, as far as the parse reaches them.
pub open spec fn date_text_in_bounds(b: Seq<u8>) -> bool {
    &&& is_char_boundary(b, 4)
    &&& spec_parse_u32(b.subrange(0, 4)) is Ok ==> {
        &&& is_char_boundary(b, 6)
        &&& spec_parse_u32(b.subrange(4, 6)) is Ok ==> is_char_boundary(b, 8)
    }
}

impl Date {
    /// The date `year-month-day`, refused with `InvalidDate` when the month is past
    /// 12 or the day past 31.
    pub fn new(day: u32, month: u32, year: u32) -> (r: Result<Self, Error>)
        ensures
            match r {
                Ok(d) => month <= 12 && day <= 31 && d@ == (DateView { year, month, day }),
                Err(e) => !(month <= 12 && day <= 31) && e == Error::InvalidDate,
            },
    {
        if month > 12 || day > 31 {
            Err(Error::InvalidDate)
        } else {
            Ok(Self { year, month, day })
        }
    }

    pub fn year(&self) -> (r: u32)
        ensures
            r == self@.year,
    {
        self.year
    }

    pub fn month(&self) -> (r: u32)
        ensures
            r == self@.month,
    {
        self.month
    }

    pub fn day(&self) -> (r: u32)
        ensures
            r == self@.day,
    {
        self.day
    }

    /// Two dates with the same fields are the same date.
    pub proof fn lemma_view_injective(a: Date, b: Date)
        ensures
            a@ == b@ ==> a == b,
    {
    }

    /// The date with the given year, month and day.
    pub(crate) fn from_view_parts(year: u32, month: u32, day: u32) -> (r: Date)
        ensures
            r@ == (DateView { year, month, day }),
    {
        Date { year, month, day }
    }

    /// The Gregorian date of the Julian day number `jdn`.
    // https://en.wikipedia.org/wiki/Julian_day
    // at "Julian or Gregorian calendar from Julian day number"
    pub fn julian_day_number_to_gregorian_date(jdn: i32) -> (r: Date)
        requires
            from_jdn_in_range(jdn as int),
        ensures
            r@ == date_from_jdn(jdn as int),
    {
        let y: i32 = 4716;
        let j: i32 = 1401;
        let m: i32 = 2;
        let n: i32 = 12;
        let r: i32 = 4;
        let p: i32 = 1461;
        let v: i32 = 3;
        let u: i32 = 5;
        let s: i32 = 153;
        let w: i32 = 2;
        let b: i32 = 274277;
        let c: i32 = -38;

        let f = jdn + j + ((4 * jdn + b) / 146097 * 3) / 4 + c;
        let e = r * f + v;
        let g = (e % p) / r;
        let h = u * g + w;

        let day = (h % s) / u + 1;
        let month = ((h / s + m) % (n)) + 1;
        let year = (e / p) - y + (n + m - month) / n;

        Date { year: year as u32, month: month as u32, day: day as u32 }
    }

    /// The Julian day number of the date, computed in `u32` and cast to `i32`.
    pub fn to_julian_day_number(&self) -> (r: i32)
        requires
            to_jdn_in_range(self@),
        ensures
            r == to_jdn(self@) as i32,
    {
        let (month, year) = if self.month > 2 {
            (self.month - 3, self.year)
        } else {
            (self.month + 9, self.year - 1)
        };

        let century = year / 100;
        let decade = year - 100 * century;

        ((146097 * century) / 4 + (1461 * decade) / 4 + (153 * month + 2) / 5 + self.day
            + 1721119) as i32
    }
}


impl Date {
    /// Reads a date written `YYYYMMDD`: the parts `[0..4]`, `[4..6]` and `[6..8]` of
    /// the text are parsed as `u32` in turn, and the first that fails gives the error.
    pub fn from_str(s: &str) -> (r: Result<Self, ParseIntError>)
        requires
            date_text_in_bounds(s.spec_bytes()),
        ensures
            match parse_date_text(s.spec_bytes()) {
                Ok(v) => r matches Ok(d) && d@ == v,
                Err(k) => r == Err::<Date, ParseIntError>(ParseIntError { kind: k }),
            },
    {
        let b = s.as_bytes();
        proof {
            lemma_char_boundary_in_range(b@, 4);
        }
        let year = parse_u32(slice_subrange(b, 0, 4))?;
        proof {
            lemma_char_boundary_in_range(b@, 6);
        }
        let month = parse_u32(slice_subrange(b, 4, 6))?;
        proof {
            lemma_char_boundary_in_range(b@, 8);
        }
        let day = parse_u32(slice_subrange(b, 6, 8))?;
        Ok(Self { year, month, day })
    }

    /// Appends the date written `YYYYMMDD` to `dst`.
    pub fn push_text(&self, dst: &mut Vec<u8>)
        ensures
            final(dst)@ == old(dst)@ + date_text(self@),
    {
        let ghost start = dst@;
        push_zero_padded(self.year, 4, dst);
        push_zero_padded(self.month, 2, dst);
        push_zero_padded(self.day, 2, dst);
        assert(dst@ =~= start + date_text(self@));
    }

    /// The date written `YYYYMMDD`.
    pub fn to_string(&self) -> (r: String)
        ensures
            r@ == ascii_chars(date_text(self@)),
    {
        let mut bytes: Vec<u8> = Vec::new();
        self.push_text(&mut bytes);
        assert(bytes@ =~= date_text(self@));
        proof {
            lemma_date_text_digits(self@);
            lemma_ascii_decode(bytes@);
        }
        match string_from_utf8(bytes) {
            Some(s) => s,
            None => {
                proof {
                    assert(false);
                }
                String::new()
            },
        }
    }
}

impl Date {
    /// Whether [`Date::from_str`] can slice `s` without panicking: its slices
    /// `[0..4]`, `[4..6]` and `[6..8]` fall on character boundaries as far as the
    /// parse reaches them.
    pub fn text_in_bounds(s: &str) -> (r: bool)
        ensures
            r == date_text_in_bounds(s.spec_bytes()),
    {
        let b = s.as_bytes();
        if !s.is_char_boundary(4) {
            return false;
        }
        proof {
            lemma_char_boundary_in_range(b@, 4);
        }
        if parse_u32(slice_subrange(b, 0, 4)).is_err() {
            return true;
        }
        if !s.is_char_boundary(6) {
            return false;
        }
        proof {
            lemma_char_boundary_in_range(b@, 6);
        }
        if parse_u32(slice_subrange(b, 4, 6)).is_err() {
            return true;
        }
        s.is_char_boundary(8)
    }

    /// Whether the conversion from the Julian day number `jdn` stays within `i32`.
    pub fn julian_day_number_in_range(jdn: i32) -> (r: bool)
        ensures
            r == from_jdn_in_range(jdn as int),
    {
        let j = jdn as i64;
        let min = i32::MIN as i64;
        let max = i32::MAX as i64;
        let a1 = j + 1401;
        let a2 = 4 * j;
        let a3 = a2 + 274277;
        let a4 = a1 + (a3 / 146097 * 3) / 4;
        let f = a4 - 38;
        let b1 = 4 * f;
        let e = b1 + 3;
        if !(min <= a1 && a1 <= max && min <= a2 && a2 <= max && min <= a3 && a3 <= max && min
            <= a4 && a4 <= max && min <= f && f <= max && min <= b1 && b1 <= max && min <= e && e
            <= max) {
            return false;
        }
        assert(f == jdn_f(jdn as int));
        assert(e == jdn_e(jdn as int));
        let c2 = e / 1461 - 4716;
        let g = (e % 1461) / 4;
        let h = 5 * g + 2;
        let month = ((h / 153 + 2) % 12) + 1;
        let year = c2 + (14 - month) / 12;
        assert(month == jdn_month(jdn as int));
        assert(year == jdn_year(jdn as int));
        min <= c2 && c2 <= max && min <= year && year <= max
    }
}

impl DateTime {
    /// Whether the date and time can be written: the Julian day number and the time
    /// word are computed in `u32` without overflow.
    pub fn in_range(&self) -> (r: bool)
        ensures
            r == datetime_in_range(self@),
    {
        let d = self.date;
        if d.month <= 2 && d.year == 0 {
            return false;
        }
        let (month, year): (u64, u64) = if d.month > 2 {
            ((d.month - 3) as u64, d.year as u64)
        } else {
            ((d.month + 9) as u64, (d.year - 1) as u64)
        };
        let century = year / 100;
        let decade = year - 100 * century;
        let max = u32::MAX as u64;
        if 146097 * century > max || 153 * month + 2 > max {
            return false;
        }
        let jdn = (146097 * century) / 4 + (1461 * decade) / 4 + (153 * month + 2) / 5 + d.day as u64
            + 1721119;
        let t = self.time;
        let word = t.hours as u64 * 3_600_000 + t.minutes as u64 * 60_000 + t.seconds as u64 * 1000;
        jdn <= max && word <= max
    }
}

/// A position that is a character boundary lies within the bytes.
pub proof fn lemma_char_boundary_in_range(b: Seq<u8>, i: int)
    requires
        valid_utf8(b),
        is_char_boundary(b, i),
    ensures
        0 <= i <= b.len(),
{
}

/// Every byte of a date's text is an ASCII digit.
pub proof fn lemma_date_text_digits(d: DateView)
    ensures
        forall|i: int| 0 <= i < date_text(d).len() ==> #[trigger] is_digit(date_text(d)[i]),
        is_ascii_bytes(date_text(d)),
{
    lemma_parse_zero_padded(d.year as nat, 4);
    lemma_parse_zero_padded(d.month as nat, 2);
    lemma_parse_zero_padded(d.day as nat, 2);
    let a = zero_padded(d.year as nat, 4);
    let b = zero_padded(d.month as nat, 2);
    let c = zero_padded(d.day as nat, 2);
    let t = date_text(d);
    assert forall|i: int| 0 <= i < t.len() implies #[trigger] is_digit(t[i]) by {
        if i < a.len() {
            assert(t[i] == a[i]);
        } else if i < a.len() + b.len() {
            assert(t[i] == b[i - a.len()]);
        } else {
            assert(t[i] == c[i - a.len() - b.len()]);
        }
    }
    assert forall|i: int| 0 <= i < t.len() implies #[trigger] t[i] < 0x80 by {
        assert(is_digit(t[i]));
    }
}

/// A date whose year has at most four digits and whose month and day have at
/// most two is written in eight digits, which read back as the same date.
pub proof fn lemma_date_text_roundtrip(d: DateView)
    requires
        d.year <= 9999,
        d.month <= 99,
        d.day <= 99,
    ensures
        date_text(d).len() == 8,
        parse_date_text(date_text(d)) == Ok::<DateView, IntErrorKind>(d),
{
    lemma_decimal_len_bound(d.year as nat);
    lemma_decimal_len_bound(d.month as nat);
    lemma_decimal_len_bound(d.day as nat);
    lemma_parse_zero_padded(d.year as nat, 4);
    lemma_parse_zero_padded(d.month as nat, 2);
    lemma_parse_zero_padded(d.day as nat, 2);
    let a = zero_padded(d.year as nat, 4);
    let b = zero_padded(d.month as nat, 2);
    let c = zero_padded(d.day as nat, 2);
    let t = date_text(d);
    assert(t.subrange(0, 4) =~= a);
    assert(t.subrange(4, 6) =~= b);
    assert(t.subrange(6, 8) =~= c);
}

/// Every position of ASCII text is a character boundary.
pub proof fn lemma_ascii_char_boundaries(b: Seq<u8>, i: int)
    requires
        is_ascii_bytes(b),
        0 <= i <= b.len(),
    ensures
        valid_utf8(b),
        is_char_boundary(b, i),
{
    lemma_ascii_decode(b);
    if i == b.len() {
        is_char_boundary_start_end_of_seq(b);
    } else {
        is_char_boundary_iff_not_is_continuation_byte(b, i);
        assert(b[i] < 0x80);
    }
}


/// Milliseconds in an hour.
pub const HOURS_FACTOR: i32 = 3_600_000;

/// Milliseconds in a minute.
pub const MINUTES_FACTOR: i32 = 60_000;

/// Milliseconds in a second.
pub const SECONDS_FACTOR: i32 = 1_000;

/// The fields of a [`Time`].
pub struct TimeView {
    pub hours: u32,
    pub minutes: u32,
    pub seconds: u32,
}

/// A time of day in whole seconds.
#[derive(Debug, Copy, Clone, PartialEq, Eq, Structural)]
pub struct Time {
    hours: u32,
    minutes: u32,
    seconds: u32,
}

impl View for Time {
    type V = TimeView;

    closed spec fn view(&self) -> TimeView {
        TimeView { hours: self.hours, minutes: self.minutes, seconds: self.seconds }
    }
}

/// The time of day that the word `w` of milliseconds stands for: whole hours,
/// then whole minutes of what is left, then whole seconds of what is left, each
/// quotient truncated and cast to `u32`.
pub open spec fn time_from_word(w: int) -> TimeView {
    let hours = tdiv(w, 3_600_000);
    let w1 = w - hours * 3_600_000;
    let minutes = tdiv(w1, 60_000);
    let w2 = w1 - minutes * 60_000;
    TimeView { hours: hours as u32, minutes: minutes as u32, seconds: tdiv(w2, 1000) as u32 }
}

/// The milliseconds since midnight of a time of day.
pub open spec fn time_word(t: TimeView) -> int {
    t.hours * 3_600_000 + t.minutes * 60_000 + t.seconds * 1000
}

/// Whether [`time_word`] can be computed in `u32` arithmetic without overflow.
pub open spec fn time_word_in_range(t: TimeView) -> bool {
    time_word(t) <= u32::MAX
}

impl Time {
    /// The time `hours:minutes:seconds`; panics unless hours are at most 24 and
    /// minutes and seconds at most 60.
    pub fn new(hours: u32, minutes: u32, seconds: u32) -> (r: Self)
        requires
            hours <= 24,
            minutes <= 60,
            seconds <= 60,
        ensures
            r@ == (TimeView { hours, minutes, seconds }),
    {
        Self { hours, minutes, seconds }
    }

    /// Two times with the same fields are the same time.
    pub proof fn lemma_view_injective(a: Time, b: Time)
        ensures
            a@ == b@ ==> a == b,
    {
    }

    /// The time of day that a word of milliseconds stands for. The computation
    /// overflows, and so panics, for words at or below -60000.
    pub fn from_word(time_word: i32) -> (r: Self)
        requires
            time_word > -60_000,
        ensures
            r@ == time_from_word(time_word as int),
    {
        let ghost w = time_word as int;
        proof {
            lemma_time_word_steps(w);
        }
        let mut time_word = time_word;
        let hours: u32 = (time_word / HOURS_FACTOR) as u32;
        time_word -= (hours * HOURS_FACTOR as u32) as i32;
        let minutes: u32 = (time_word / MINUTES_FACTOR) as u32;
        time_word -= (minutes * MINUTES_FACTOR as u32) as i32;
        let seconds: u32 = (time_word / SECONDS_FACTOR) as u32;
        Self { hours, minutes, seconds }
    }

    /// The milliseconds since midnight, computed in `u32` and cast to `i32`.
    pub fn to_time_word(&self) -> (r: i32)
        requires
            time_word_in_range(self@),
        ensures
            r == time_word(self@) as i32,
    {
        let mut time_word = self.hours * HOURS_FACTOR as u32;
        time_word += self.minutes * MINUTES_FACTOR as u32;
        time_word += self.seconds * SECONDS_FACTOR as u32;
        time_word as i32
    }
}

/// The steps of [`time_from_word`] stay in range: the hours and the minutes are
/// non-negative and what is left after each fits the next unit.
proof fn lemma_time_word_steps(w: int)
    requires
        -60_000 < w <= i32::MAX,
    ensures
        ({
            let hours = tdiv(w, 3_600_000);
            let w1 = w - hours * 3_600_000;
            let minutes = tdiv(w1, 60_000);
            let w2 = w1 - minutes * 60_000;
            &&& 0 <= hours <= 596
            &&& 0 <= hours * 3_600_000 <= i32::MAX
            &&& -60_000 < w1 < 3_600_000
            &&& w >= 0 ==> 0 <= w1
            &&& 0 <= minutes < 60
            &&& 0 <= minutes * 60_000 < 3_600_000
            &&& -60_000 < w2 < 60_000
            &&& w >= 0 ==> 0 <= w2
        }),
{
    if w >= 0 {
        assert(0 <= w / 3_600_000 <= 596);
        assert(w - (w / 3_600_000) * 3_600_000 >= 0 && w - (w / 3_600_000) * 3_600_000 < 3_600_000);
        let w1 = w - (w / 3_600_000) * 3_600_000;
        assert(w1 - (w1 / 60_000) * 60_000 >= 0 && w1 - (w1 / 60_000) * 60_000 < 60_000);
    } else {
        assert(tdiv(w, 3_600_000) == 0);
        assert(tdiv(w, 60_000) == 0);
    }
}

/// The fields of a [`DateTime`].
pub struct DateTimeView {
    pub date: DateView,
    pub time: TimeView,
}

/// A date with a time of day, as a Visual FoxPro `DateTime` field holds it.
#[derive(Debug, Copy, Clone, PartialEq, Eq, Structural)]
pub struct DateTime {
    date: Date,
    time: Time,
}

impl View for DateTime {
    type V = DateTimeView;

    closed spec fn view(&self) -> DateTimeView {
        DateTimeView { date: self.date@, time: self.time@ }
    }
}

/// The Julian day number and the time word stored in the eight bytes `b`, both
/// little-endian `i32`s.
pub open spec fn datetime_words(b: Seq<u8>) -> (i32, i32) {
    (
        spec_u32_from_le_bytes(b.subrange(0, 4)) as i32,
        spec_u32_from_le_bytes(b.subrange(4, 8)) as i32,
    )
}

/// Whether the eight bytes `b` hold words that convert without overflow.
pub open spec fn datetime_bytes_in_range(b: Seq<u8>) -> bool {
    from_jdn_in_range(datetime_words(b).0 as int) && datetime_words(b).1 > -60_000
}

/// The date and time stored in the eight bytes `b`.
pub open spec fn datetime_from_bytes(b: Seq<u8>) -> DateTimeView {
    DateTimeView {
        date: date_from_jdn(datetime_words(b).0 as int),
        time: time_from_word(datetime_words(b).1 as int),
    }
}

/// Whether a date and time can be written without overflow.
pub open spec fn datetime_in_range(v: DateTimeView) -> bool {
    to_jdn_in_range(v.date) && time_word_in_range(v.time)
}

/// The eight bytes with which a date and time are written: the Julian day number,
/// then the time word, both little-endian `i32`s.
pub open spec fn datetime_bytes(v: DateTimeView) -> Seq<u8> {
    spec_u32_to_le_bytes((to_jdn(v.date) as i32) as u32) + spec_u32_to_le_bytes(
        (time_word(v.time) as i32) as u32,
    )
}

impl DateTime {
    pub fn new(date: Date, time: Time) -> (r: Self)
        ensures
            r@ == (DateTimeView { date: date@, time: time@ }),
    {
        Self { date, time }
    }

    /// Two date-times with the same fields are the same.
    pub proof fn lemma_view_injective(a: DateTime, b: DateTime)
        ensures
            a@ == b@ ==> a == b,
    {
    }

    /// Reads a date and time: the Julian day number, then the time word, each a
    /// little-endian `i32`.
    pub fn read_from(src: &mut ByteReader) -> (r: Result<Self, Error>)
        requires
            old(src).can_read(8) ==> datetime_bytes_in_range(old(src).peek(8)),
        ensures
            final(src).bytes() == old(src).bytes(),
            final(src).pos() == old(src).pos_after(8),
            match r {
                Ok(dt) => old(src).can_read(8) && dt@ == datetime_from_bytes(old(src).peek(8)),
                Err(e) => !old(src).can_read(8) && e == Error::IoError(
                    crate::error::IoErrorKind::UnexpectedEof,
                ),
            },
    {
        let ghost src0 = *src;
        let first = src.read_exact(4)?;
        let julian_day_number = read_i32_le(first.as_slice());
        let second = src.read_exact(4)?;
        let time_word = read_i32_le(second.as_slice());
        proof {
            assert(src0.can_read(8));
            let b = src0.peek(8);
            assert(first@ =~= b.subrange(0, 4));
            assert(second@ =~= b.subrange(4, 8));
            assert(first@.subrange(0, 4) =~= first@);
            assert(second@.subrange(0, 4) =~= second@);
        }
        let time = Time::from_word(time_word);
        let date = Date::julian_day_number_to_gregorian_date(julian_day_number);
        Ok(Self { date, time })
    }

    /// Appends the Julian day number, then the time word, each a little-endian `i32`.
    pub fn write_to(&self, dest: &mut Vec<u8>)
        requires
            datetime_in_range(self@),
        ensures
            final(dest)@ == old(dest)@ + datetime_bytes(self@),
    {
        let ghost start = dest@;
        let jdn = self.date.to_julian_day_number();
        let mut a = i32_to_le_bytes(jdn);
        dest.append(&mut a);
        let tw = self.time.to_time_word();
        let mut b = i32_to_le_bytes(tw);
        dest.append(&mut b);
        assert(dest@ =~= start + datetime_bytes(self@));
    }
}


/// Whether `year` is a leap year of the Gregorian calendar.
pub open spec fn is_leap_year(year: int) -> bool {
    year % 4 == 0 && (year % 100 != 0 || year % 400 == 0)
}

/// The number of days of `month` in `year`.
pub open spec fn days_in_month(year: int, month: int) -> int {
    if month == 2 {
        if is_leap_year(year) {
            29
        } else {
            28
        }
    } else if month == 4 || month == 6 || month == 9 || month == 11 {
        30
    } else {
        31
    }
}

/// Whether a date is a day of the Gregorian calendar.
pub open spec fn is_valid_date(d: DateView) -> bool {
    1 <= d.month <= 12 && 1 <= d.day <= days_in_month(d.year as int, d.month as int)
}

/// The day of the year, counted from 0 on the first of March, of the day `day`
/// of the month `m` counted from 0 for March.
spec fn march_day(m: int, day: int) -> int {
    (153 * m + 2) / 5 + day - 1
}

/// Within the year that starts in March, the day of the year determines the
/// month and the day of the month: each month takes its full length.
proof fn lemma_march_day(m: int, day: int, leap: bool)
    requires
        0 <= m <= 11,
        1 <= day,
        m == 0 || m == 2 || m == 4 || m == 5 || m == 7 || m == 9 || m == 10 ==> day <= 31,
        m == 1 || m == 3 || m == 6 || m == 8 ==> day <= 30,
        m == 11 ==> day <= (if leap { 29int } else { 28int }),
    ensures
        0 <= march_day(m, day) <= 365,
        march_day(m, day) == 365 ==> m == 11 && day == 29,
        (5 * march_day(m, day) + 2) / 153 == m,
        ((5 * march_day(m, day) + 2) % 153) / 5 == day - 1,
{
}

/// Reading back the Julian day number of a date gives the date: the conversion
/// from a Julian day number undoes [`to_jdn`] for every Gregorian date from the
/// year 1 to the year 1000000.
pub proof fn lemma_jdn_roundtrip(d: DateView)
    requires
        is_valid_date(d),
        1 <= d.year <= 1_000_000,
    ensures
        to_jdn_in_range(d),
        0 < to_jdn(d) <= i32::MAX,
        from_jdn_in_range(to_jdn(d)),
        date_from_jdn(to_jdn(d)) == d,
{
    let m: int = if d.month > 2 { d.month - 3 } else { d.month + 9 };
    let y: int = if d.month > 2 { d.year as int } else { d.year - 1 };
    let c = y / 100;
    let a = y % 100;
    assert(y == 100 * c + a);
    let k = c / 4;
    let r0 = c % 4;
    assert(c == 4 * k + r0);
    let g = march_day(m, d.day as int);
    let leap = is_leap_year(y + 1);
    assert(m == 11 ==> d.month == 2 && d.year == y + 1);
    lemma_march_day(m, d.day as int, leap);

    // The century part: 146097 * c / 4 == 146097 * k + 36524 * r0.
    assert(146097 * c == 4 * (146097 * k + 36524 * r0) + r0);
    assert((146097 * c) / 4 == 146097 * k + 36524 * r0);
    // The year part: 1461 * a / 4 is at most 36159.
    let ya = (1461 * a) / 4;
    assert(0 <= ya <= 36159);
    let big_r = ya + g;
    let t = 146097 * k + 36524 * r0 + big_r;
    assert(to_jdn(d) == t + 1721120);
    let j = t + 1721120;

    // The Gregorian correction.
    assert(4 * j + 274277 == 146097 * (49 + c) + (4 * big_r + 4 - r0));
    assert(big_r == 36524 ==> a == 99 && g == 365);
    assert(big_r == 36524 ==> r0 == 3) by {
        if big_r == 36524 {
            assert(y + 1 == 100 * (c + 1));
            assert(leap);
        }
    };
    let q = tdiv(4 * j + 274277, 146097);
    if big_r == 36524 {
        assert(q == 50 + c);
    } else {
        assert(q == 49 + c);
    }
    assert(tdiv(q * 3, 4) == 3 * k + r0 + 36);
    let f = jdn_f(j);
    assert(f == t + 1722519 + 3 * k + r0);

    // The Julian decoding.
    let yy = y + 4716;
    let p = yy / 4;
    let s = yy % 4;
    assert(yy == 4 * p + s);
    assert(g == 365 ==> s == 3) by {
        if g == 365 {
            assert(m == 11 && d.day == 29);
            assert(leap);
        }
    };
    assert(f == 1461 * p + 365 * s + g) by {
        assert(1461 * yy == 146100 * c + 1461 * a + 6890076);
    };
    let e = jdn_e(j);
    assert(e == 1461 * yy + (4 * g + 3 - s));
    assert(tdiv(e, 1461) == yy);
    assert(trem(e, 1461) == 4 * g + 3 - s);
    assert(tdiv(trem(e, 1461), 4) == g);
    assert(jdn_h(j) == 5 * g + 2);
    assert(jdn_day(j) == d.day);
    assert(jdn_month(j) == d.month);
    assert(jdn_year(j) == d.year);
}


/// The month and day that the conversion from a Julian day number finds for the
/// day `g` of a year that starts in March: a month from 0 (March) to 11
/// (February) and a day within that month, whose day of the year is `g`.
proof fn lemma_march_day_inverse(g: int)
    requires
        0 <= g <= 365,
    ensures
        ({
            let h = 5 * g + 2;
            let m = h / 153;
            let day = (h % 153) / 5 + 1;
            &&& 0 <= m <= 11
            &&& 1 <= day
            &&& m == 0 || m == 2 || m == 4 || m == 5 || m == 7 || m == 9 || m == 10 ==> day <= 31
            &&& m == 1 || m == 3 || m == 6 || m == 8 ==> day <= 30
            &&& m == 11 ==> day <= 28 || (g == 365 && day == 29)
            &&& march_day(m, day) == g
        }),
{
    let h = 5 * g + 2;
    let m = h / 153;
    let r = h % 153;
    assert(h == 153 * m + r);
    assert(0 <= m <= 11);
    if m == 0 {
    } else if m == 1 {
    } else if m == 2 {
    } else if m == 3 {
    } else if m == 4 {
    } else if m == 5 {
    } else if m == 6 {
    } else if m == 7 {
    } else if m == 8 {
    } else if m == 9 {
    } else if m == 10 {
    } else {
    }
}

/// Writing the date of a Julian day number gives back that day number: the
/// conversion to a Julian day number undoes [`date_from_jdn`] for every day from
/// 1 March of the year 0 (day 1721120) to day 365000000, and the date found is a
/// Gregorian date.
pub proof fn lemma_date_jdn_roundtrip(j: int)
    requires
        1721120 <= j <= 365_000_000,
    ensures
        from_jdn_in_range(j),
        is_valid_date(date_from_jdn(j)),
        to_jdn_in_range(date_from_jdn(j)),
        to_jdn(date_from_jdn(j)) == j,
{
    let t = j - 1721120;
    let u = 4 * t + 4;
    let c = u / 146097;
    let rho = u % 146097;
    assert(u == 146097 * c + rho);
    let k = c / 4;
    let r0 = c % 4;
    assert(c == 4 * k + r0);
    assert(0 <= c <= 9994);
    assert(4 * j + 274277 == 146097 * 49 + u);
    let q = tdiv(4 * j + 274277, 146097);
    assert(q == 49 + c);
    assert(tdiv(q * 3, 4) == 3 * k + r0 + 36);
    let f = jdn_f(j);
    assert(f == t + 1722519 + 3 * k + r0);
    let e = jdn_e(j);
    assert(e == 4 * f + 3);
    let yy = e / 1461;
    let eps = e % 1461;
    assert(e == 1461 * yy + eps);
    let g = eps / 4;
    let p = yy / 4;
    let s = yy % 4;
    assert(yy == 4 * p + s);
    assert(eps % 4 == (3 - s) % 4) by {
        assert(4 * f + 3 == 5844 * p + 1461 * s + eps);
    };
    assert(eps == 4 * g + 3 - s);
    assert(f == 1461 * p + 365 * s + g);
    assert(0 <= g <= 365);
    assert(g == 365 ==> s == 3);
    assert(from_jdn_in_range(j));
    assert(tdiv(e, 1461) == yy);
    assert(trem(e, 1461) == eps);
    assert(tdiv(trem(e, 1461), 4) == g);
    let h = 5 * g + 2;
    assert(jdn_h(j) == h);
    lemma_march_day_inverse(g);
    let mm = h / 153;
    let day = (h % 153) / 5 + 1;
    assert(jdn_day(j) == day);
    assert(jdn_month(j) == (mm + 2) % 12 + 1);
    let y = yy - 4716;
    assert(y >= 0);
    assert(y <= 1_000_000);
    let c2 = y / 100;
    let a2 = y % 100;
    assert(y == 100 * c2 + a2);
    let big_r = t - 146097 * k - 36524 * r0;
    assert(-1 <= big_r <= 36523) by {
        assert(4 * t + 4 == 146097 * (4 * k + r0) + rho);
    };
    assert(big_r == -1 ==> r0 == 0 && rho == 0) by {
        assert(4 * t + 4 == 146097 * (4 * k + r0) + rho);
    };
    let x = (1461 * a2) / 4 + g;
    assert(0 <= (1461 * a2) / 4 <= 36159);
    assert(1461 * yy == 146100 * c2 + 1461 * a2 + 6890076);
    assert(36525 * c2 + x == 36525 * c + big_r);
    if big_r >= 0 {
        assert(c2 == c);
    } else {
        assert(c2 == c - 1);
        assert(x == 36524);
    }
    let d = date_from_jdn(j);
    assert(d.day == day);
    assert(d.month == (mm + 2) % 12 + 1);
    assert(mm <= 9 ==> d.month == mm + 3);
    assert(mm >= 10 ==> d.month == mm - 9);
    assert(d.year == (if mm >= 10 { y + 1 } else { y }));
    assert(g == 365 ==> is_leap_year(y + 1)) by {
        if g == 365 {
            assert(s == 3);
            assert((y + 1) % 4 == 0);
            if (y + 1) % 100 == 0 {
                assert(a2 == 99);
                assert(big_r == -1);
                assert(c % 4 == 0);
            }
        }
    };
    assert(is_valid_date(d));
    assert((146097 * c2) / 4 + (1461 * a2) / 4 + (153 * mm + 2) / 5 + day + 1721119 == j) by {
        assert(march_day(mm, day) == g);
        assert(146097 * c2 == 4 * (36524 * c2 + c2 / 4) + c2 % 4);
    };
    assert(to_jdn(d) == j);
}

/// A time of day whose minutes and seconds are below 60 is given back by the
/// conversion from its word of milliseconds.
pub proof fn lemma_time_word_roundtrip(t: TimeView)
    requires
        t.minutes < 60,
        t.seconds < 60,
        time_word(t) <= i32::MAX,
    ensures
        time_word_in_range(t),
        time_word(t) as i32 == time_word(t),
        time_from_word(time_word(t)) == t,
{
    let w = time_word(t);
    assert(tdiv(w, 3_600_000) == t.hours);
    let w1 = w - t.hours * 3_600_000;
    assert(w1 == t.minutes * 60_000 + t.seconds * 1000);
    assert(tdiv(w1, 60_000) == t.minutes);
    let w2 = w1 - t.minutes * 60_000;
    assert(tdiv(w2, 1000) == t.seconds);
}

/// Converting a non-negative word of milliseconds to a time of day and back
/// drops the milliseconds below a whole second.
pub proof fn lemma_word_time_roundtrip(w: int)
    requires
        0 <= w <= i32::MAX,
    ensures
        time_word_in_range(time_from_word(w)),
        time_word(time_from_word(w)) == w - w % 1000,
{
    let hours = w / 3_600_000;
    let w1 = w - hours * 3_600_000;
    assert(0 <= w1 < 3_600_000);
    let minutes = w1 / 60_000;
    let w2 = w1 - minutes * 60_000;
    assert(0 <= w2 < 60_000);
    let seconds = w2 / 1000;
    assert(0 <= hours <= 596);
    assert(0 <= minutes < 60);
    assert(0 <= seconds < 60);
    assert(w2 - seconds * 1000 == w % 1000) by {
        assert(w == 3_600_000 * hours + 60_000 * minutes + 1000 * seconds + (w2 - seconds * 1000));
        assert(0 <= w2 - seconds * 1000 < 1000);
    };
}

/// A date and time that can be written, with a Gregorian date from the year 1 to
/// the year 1000000 and whole minutes and seconds, is read back from the bytes it
/// is written as.
pub proof fn lemma_datetime_bytes_roundtrip(v: DateTimeView)
    requires
        is_valid_date(v.date),
        1 <= v.date.year <= 1_000_000,
        v.time.minutes < 60,
        v.time.seconds < 60,
        time_word(v.time) <= i32::MAX,
    ensures
        datetime_in_range(v),
        datetime_bytes(v).len() == 8,
        datetime_bytes_in_range(datetime_bytes(v)),
        datetime_from_bytes(datetime_bytes(v)) == v,
{
    lemma_jdn_roundtrip(v.date);
    lemma_time_word_roundtrip(v.time);
    let j = to_jdn(v.date) as i32;
    let w = time_word(v.time) as i32;
    lemma_i32_le_roundtrip(j);
    lemma_i32_le_roundtrip(w);
    let b = datetime_bytes(v);
    let b1 = spec_u32_to_le_bytes(j as u32);
    let b2 = spec_u32_to_le_bytes(w as u32);
    assert(b.subrange(0, 4) =~= b1);
    assert(b.subrange(4, 8) =~= b2);
}


/// The text that [`Date::to_string`] makes of a date whose year has at most four
/// digits and whose month and day have at most two is read back by
/// [`Date::from_str`] as the same date, with its slices on character boundaries.
pub proof fn lemma_date_string_roundtrip(d: DateView)
    requires
        d.year <= 9999,
        d.month <= 99,
        d.day <= 99,
    ensures
        encode_utf8(ascii_chars(date_text(d))) == date_text(d),
        date_text_in_bounds(encode_utf8(ascii_chars(date_text(d)))),
        parse_date_text(encode_utf8(ascii_chars(date_text(d)))) == Ok::<DateView, IntErrorKind>(d),
{
    let b = date_text(d);
    lemma_date_text_roundtrip(d);
    lemma_date_text_digits(d);
    lemma_ascii_decode(b);
    lemma_ascii_char_boundaries(b, 4);
    lemma_ascii_char_boundaries(b, 6);
    lemma_ascii_char_boundaries(b, 8);
}


/// The stored bytes of a date and time are written back as they were, when the
/// day number lies from 1 March of the year 0 to day 365000000 and the time word
/// is a non-negative number of whole seconds.
pub proof fn lemma_datetime_bytes_rewritten(b: Seq<u8>)
    requires
        b.len() == 8,
        1721120 <= datetime_words(b).0 <= 365_000_000,
        0 <= datetime_words(b).1,
        datetime_words(b).1 % 1000 == 0,
    ensures
        datetime_bytes_in_range(b),
        datetime_in_range(datetime_from_bytes(b)),
        datetime_bytes(datetime_from_bytes(b)) == b,
{
    let (j, w) = datetime_words(b);
    lemma_date_jdn_roundtrip(j as int);
    lemma_word_time_roundtrip(w as int);
    let v = datetime_from_bytes(b);
    assert(to_jdn(v.date) == j);
    assert(time_word(v.time) == w);
    lemma_auto_spec_u32_to_from_le_bytes();
    let u1 = spec_u32_from_le_bytes(b.subrange(0, 4));
    let u2 = spec_u32_from_le_bytes(b.subrange(4, 8));
    assert((#[verifier::truncate] (u1 as i32)) as u32 == u1) by (bit_vector);
    assert((#[verifier::truncate] (u2 as i32)) as u32 == u2) by (bit_vector);
    assert(spec_u32_to_le_bytes(u1) == b.subrange(0, 4));
    assert(spec_u32_to_le_bytes(u2) == b.subrange(4, 8));
    assert(datetime_bytes(v) =~= b);
}


/// A date is written `YYYYMMDD`: for a year of at most four digits and a month
/// and day of at most two, the eight bytes are decimal digits, and bytes 0..4 read
/// as the year, 4..6 as the month, 6..8 as the day.
pub proof fn lemma_date_text_fields(d: DateView)
    requires
        d.year <= 9999,
        d.month <= 99,
        d.day <= 99,
    ensures
        date_text(d).len() == 8,
        forall|i: int| 0 <= i < 8 ==> #[trigger] is_digit(date_text(d)[i]),
        spec_parse_u32(date_text(d).subrange(0, 4)) == Ok::<u32, IntErrorKind>(d.year),
        spec_parse_u32(date_text(d).subrange(4, 6)) == Ok::<u32, IntErrorKind>(d.month),
        spec_parse_u32(date_text(d).subrange(6, 8)) == Ok::<u32, IntErrorKind>(d.day),
{
    lemma_date_text_roundtrip(d);
    lemma_date_text_digits(d);
}

/// A non-negative word of milliseconds is read as whole hours, minutes below 60
/// and seconds below 60, and what they leave is below a second.
pub proof fn lemma_time_from_word_units(w: int)
    requires
        0 <= w <= i32::MAX,
    ensures
        ({
            let t = time_from_word(w);
            &&& t.minutes < 60
            &&& t.seconds < 60
            &&& 0 <= w - (t.hours * 3_600_000 + t.minutes * 60_000 + t.seconds * 1000) < 1000
        }),
{
    lemma_word_time_roundtrip(w);
    let hours = w / 3_600_000;
    let w1 = w - hours * 3_600_000;
    assert(0 <= w1 < 3_600_000);
    let w2 = w1 - (w1 / 60_000) * 60_000;
    assert(0 <= w2 < 60_000);
}

/// The day after `d` in the Gregorian calendar.
pub open spec fn next_day(d: DateView) -> DateView {
    if d.day < days_in_month(d.year as int, d.month as int) {
        DateView { year: d.year, month: d.month, day: (d.day + 1) as u32 }
    } else if d.month < 12 {
        DateView { year: d.year, month: (d.month + 1) as u32, day: 1 }
    } else {
        DateView { year: (d.year + 1) as u32, month: 1, day: 1 }
    }
}

/// The change of [`to_jdn`]'s year part from the March-based year `y` to `y + 1`:
/// 366 days when the year `y + 1` is a leap year, else 365.
proof fn lemma_year_part_step(y: int)
    requires
        0 <= y,
    ensures
        ({
            let c0 = y / 100;
            let c1 = (y + 1) / 100;
            (146097 * c1) / 4 + (1461 * (y + 1 - 100 * c1)) / 4 - ((146097 * c0) / 4 + (1461 * (y
                - 100 * c0)) / 4) == if is_leap_year(y + 1) {
                366int
            } else {
                365int
            }
        }),
{
    let c = y / 100;
    let a = y % 100;
    assert(y == 100 * c + a);
    let k = c / 4;
    let r = c % 4;
    assert(c == 4 * k + r);
    assert((146097 * c) / 4 == 146097 * k + (146097 * r) / 4);
    let q = a / 4;
    let s = a % 4;
    assert(a == 4 * q + s);
    assert((1461 * a) / 4 == 1461 * q + (1461 * s) / 4);
    if a < 99 {
        assert((y + 1) / 100 == c);
        assert((y + 1) % 4 == (a + 1) % 4);
        assert((y + 1) % 100 == a + 1);
        if s == 3 {
            assert((1461 * (a + 1)) / 4 == 1461 * (q + 1));
        } else {
            assert((1461 * (a + 1)) / 4 == 1461 * q + (1461 * (s + 1)) / 4);
        }
    } else {
        assert((y + 1) / 100 == c + 1);
        assert(y + 1 == 100 * (c + 1));
        assert((y + 1) % 100 == 0);
        assert((y + 1) % 400 == 0 <==> (c + 1) % 4 == 0);
        assert((y + 1) % 4 == 0);
        if r == 3 {
            assert((146097 * (c + 1)) / 4 == 146097 * (k + 1));
        } else {
            assert((146097 * (c + 1)) / 4 == 146097 * k + (146097 * (r + 1)) / 4);
        }
    }
}

/// Consecutive days have consecutive Julian day numbers: the day after a Gregorian
/// date has the next number.
pub proof fn lemma_next_day_jdn(d: DateView)
    requires
        is_valid_date(d),
        1 <= d.year < 1_000_000,
    ensures
        is_valid_date(next_day(d)),
        to_jdn(next_day(d)) == to_jdn(d) + 1,
{
    let n = next_day(d);
    if d.day < days_in_month(d.year as int, d.month as int) {
    } else if d.month == 2 {
        lemma_year_part_step(d.year - 1);
    } else if d.month < 12 {
        if d.month == 1 {
        } else if d.month == 3 {
        } else if d.month == 4 {
        } else if d.month == 5 {
        } else if d.month == 6 {
        } else if d.month == 7 {
        } else if d.month == 8 {
        } else if d.month == 9 {
        } else if d.month == 10 {
        } else {
        }
    } else {
    }
}
} // verus!
