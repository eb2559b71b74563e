//! The start time of the agent: a local calendar date and time of day with
//! its offset from UTC, and its RFC 3339 text.

use crate::text::{
    all_ascii, decimal, holds_at, is_digit, lemma_decimal_all_ascii, lemma_decimal_digits,
    lemma_decimal_len, lemma_holds_at_split, lemma_number_at_bound, lemma_number_at_decimal,
    lemma_number_at_within, number_at, pow10, push_decimal, read_number,
};
use vstd::prelude::*;

verus! {

/// `-`, between the fields of a date.
pub const DASH: u8 = 0x2d;

/// `:`, between the fields of a time of day and of an offset.
pub const COLON: u8 = 0x3a;

/// `T`, between the date and the time of day.
pub const CAPITAL_T: u8 = 0x54;

/// `.`, before the fraction of a second.
pub const DOT: u8 = 0x2e;

/// `Z`, the offset of UTC.
pub const CAPITAL_Z: u8 = 0x5a;

/// `+`, before an offset ahead of UTC.
pub const PLUS: u8 = 0x2b;

/// `-`, before an offset behind UTC.
pub const MINUS: u8 = 0x2d;

/// A date and time of day as calendar fields, with the offset of local time
/// from UTC in minutes.
pub struct Moment {
    pub year: int,
    pub month: int,
    pub day: int,
    pub hour: int,
    pub minute: int,
    pub second: int,
    pub nanosecond: int,
    pub offset_minutes: int,
}

/// Whether a year of the Gregorian calendar has a 29th of February.
pub open spec fn is_leap_year(year: int) -> bool {
    year % 4 == 0 && (year % 100 != 0 || year % 400 == 0)
}

/// The number of days of a month of a year of the Gregorian calendar.
pub open spec fn days_in_month(year: int, month: int) -> int {
    if month == 2 {
        if is_leap_year(year) {
            29
        } else {
            28
        }
    } else if month == 4 || month == 6 || month == 9 || month == 11 {
        30
    } else {
        31
    }
}

impl Moment {
    /// A day of the Gregorian calendar in the years 0 to 9999, a time of
    /// day (second 60 is a leap second), and an offset of less than a day.
    pub open spec fn valid(self) -> bool {
        &&& 0 <= self.year <= 9999
        &&& 1 <= self.month <= 12
        &&& 1 <= self.day <= days_in_month(self.year, self.month)
        &&& 0 <= self.hour <= 23
        &&& 0 <= self.minute <= 59
        &&& 0 <= self.second <= 60
        &&& 0 <= self.nanosecond <= 999_999_999
        &&& -1440 < self.offset_minutes < 1440
    }
}

/// The moment that a clock reading stands for. A clock gives its offset
/// from UTC in seconds, and counts a leap second as a thousand million
/// nanoseconds and more within the second before it.
pub open spec fn clock_moment(
    year: int,
    month: int,
    day: int,
    hour: int,
    minute: int,
    second: int,
    nanosecond: int,
    offset_seconds: int,
) -> Moment {
    let leap = nanosecond >= 1_000_000_000;
    Moment {
        year,
        month,
        day,
        hour,
        minute,
        second: if leap {
            second + 1
        } else {
            second
        },
        nanosecond: if leap {
            nanosecond - 1_000_000_000
        } else {
            nanosecond
        },
        offset_minutes: offset_seconds / 60,
    }
}

/// `YYYY-MM-DD`.
pub open spec fn date_text(m: Moment) -> Seq<u8> {
    decimal(m.year, 4) + seq![DASH] + decimal(m.month, 2) + seq![DASH] + decimal(m.day, 2)
}

/// `hh:mm:ss`.
pub open spec fn time_text(m: Moment) -> Seq<u8> {
    decimal(m.hour, 2) + seq![COLON] + decimal(m.minute, 2) + seq![COLON] + decimal(m.second, 2)
}

/// The fraction of a second: nothing for a whole second, else a dot and the
/// shortest of three, six or nine digits that loses nothing.
pub open spec fn fraction_text(nanosecond: int) -> Seq<u8> {
    if nanosecond == 0 {
        Seq::empty()
    } else if nanosecond % 1_000_000 == 0 {
        seq![DOT] + decimal(nanosecond / 1_000_000, 3)
    } else if nanosecond % 1_000 == 0 {
        seq![DOT] + decimal(nanosecond / 1_000, 6)
    } else {
        seq![DOT] + decimal(nanosecond, 9)
    }
}

/// `Z` for UTC, else the sign and `hh:mm`.
pub open spec fn offset_text(offset_minutes: int) -> Seq<u8> {
    if offset_minutes == 0 {
        seq![CAPITAL_Z]
    } else if offset_minutes > 0 {
        seq![PLUS] + decimal(offset_minutes / 60, 2) + seq![COLON] + decimal(
            offset_minutes % 60,
            2,
        )
    } else {
        seq![MINUS] + decimal((-offset_minutes) / 60, 2) + seq![COLON] + decimal(
            (-offset_minutes) % 60,
            2,
        )
    }
}

/// The RFC 3339 text of a moment, such as `2024-01-01T00:00:00.250+01:00`.
pub open spec fn moment_text(m: Moment) -> Seq<u8> {
    date_text(m) + seq![CAPITAL_T] + time_text(m) + fraction_text(m.nanosecond) + offset_text(
        m.offset_minutes,
    )
}

/// The nanoseconds and the position behind them that the fraction at `pos`
/// gives: three, six or nine digits behind a dot, or nothing.
pub open spec fn fraction_at(bytes: Seq<u8>, pos: int) -> Option<(int, int)> {
    if 0 <= pos < bytes.len() && bytes[pos] == DOT {
        if pos + 4 < bytes.len() && is_digit(bytes[pos + 4]) {
            if pos + 7 < bytes.len() && is_digit(bytes[pos + 7]) {
                match number_at(bytes, pos + 1, 9) {
                    Some(n) => Some((n, pos + 10)),
                    None => None,
                }
            } else {
                match number_at(bytes, pos + 1, 6) {
                    Some(n) => Some((n * 1_000, pos + 7)),
                    None => None,
                }
            }
        } else {
            match number_at(bytes, pos + 1, 3) {
                Some(n) => Some((n * 1_000_000, pos + 4)),
                None => None,
            }
        }
    } else {
        Some((0, pos))
    }
}

/// The offset in minutes and the position behind it that the bytes at `pos`
/// give.
pub open spec fn offset_at(bytes: Seq<u8>, pos: int) -> Option<(int, int)> {
    if 0 <= pos < bytes.len() && bytes[pos] == CAPITAL_Z {
        Some((0, pos + 1))
    } else if 0 <= pos && pos + 3 < bytes.len() && (bytes[pos] == PLUS || bytes[pos] == MINUS)
        && bytes[pos + 3] == COLON {
        match (number_at(bytes, pos + 1, 2), number_at(bytes, pos + 4, 2)) {
            (Some(hours), Some(minutes)) => {
                let distance = hours * 60 + minutes;
                Some((if bytes[pos] == PLUS { distance } else { -distance }, pos + 6))
            },
            _ => None,
        }
    } else {
        None
    }
}

/// The calendar fields and the position behind them that the bytes at `pos`
/// give when read as RFC 3339 text. The fields need not make a valid moment.
pub open spec fn moment_at(bytes: Seq<u8>, pos: int) -> Option<(Moment, int)> {
    if 0 <= pos && pos + 19 <= bytes.len() && bytes[pos + 4] == DASH && bytes[pos + 7] == DASH
        && bytes[pos + 10] == CAPITAL_T && bytes[pos + 13] == COLON && bytes[pos + 16] == COLON {
        match (
            number_at(bytes, pos, 4),
            number_at(bytes, pos + 5, 2),
            number_at(bytes, pos + 8, 2),
            number_at(bytes, pos + 11, 2),
            number_at(bytes, pos + 14, 2),
            number_at(bytes, pos + 17, 2),
            fraction_at(bytes, pos + 19),
        ) {
            (
                Some(year),
                Some(month),
                Some(day),
                Some(hour),
                Some(minute),
                Some(second),
                Some((nanosecond, behind_fraction)),
            ) => match offset_at(bytes, behind_fraction) {
                Some((offset_minutes, behind)) => Some(
                    (
                        Moment {
                            year,
                            month,
                            day,
                            hour,
                            minute,
                            second,
                            nanosecond,
                            offset_minutes,
                        },
                        behind,
                    ),
                ),
                None => None,
            },
            _ => None,
        }
    } else {
        None
    }
}

/// The text of a moment is of ASCII.
pub proof fn lemma_moment_text_all_ascii(m: Moment)
    ensures
        all_ascii(moment_text(m)),
{
    lemma_decimal_all_ascii(m.year, 4);
    lemma_decimal_all_ascii(m.month, 2);
    lemma_decimal_all_ascii(m.day, 2);
    lemma_decimal_all_ascii(m.hour, 2);
    lemma_decimal_all_ascii(m.minute, 2);
    lemma_decimal_all_ascii(m.second, 2);
    assert(all_ascii(date_text(m)));
    assert(all_ascii(time_text(m)));
    assert(all_ascii(fraction_text(m.nanosecond))) by {
        lemma_decimal_all_ascii(m.nanosecond / 1_000_000, 3);
        lemma_decimal_all_ascii(m.nanosecond / 1_000, 6);
        lemma_decimal_all_ascii(m.nanosecond, 9);
    }
    assert(all_ascii(offset_text(m.offset_minutes))) by {
        lemma_decimal_all_ascii(m.offset_minutes / 60, 2);
        lemma_decimal_all_ascii(m.offset_minutes % 60, 2);
        lemma_decimal_all_ascii((-m.offset_minutes) / 60, 2);
        lemma_decimal_all_ascii((-m.offset_minutes) % 60, 2);
    }
}

/// The fraction that `fraction_text` wrote is read back, where the byte
/// behind it begins an offset.
pub proof fn lemma_fraction_at_text(bytes: Seq<u8>, pos: int, nanosecond: int)
    requires
        0 <= nanosecond <= 999_999_999,
        holds_at(bytes, pos, fraction_text(nanosecond)),
        pos + fraction_text(nanosecond).len() < bytes.len(),
        !is_digit(bytes[pos + fraction_text(nanosecond).len()]),
        bytes[pos + fraction_text(nanosecond).len()] != DOT,
    ensures
        fraction_at(bytes, pos) == Some((nanosecond, pos + fraction_text(nanosecond).len())),
{
    reveal_with_fuel(pow10, 10);
    if nanosecond != 0 {
        let width: nat = if nanosecond % 1_000_000 == 0 {
            3
        } else if nanosecond % 1_000 == 0 {
            6
        } else {
            9
        };
        let number: int = if width == 3 {
            nanosecond / 1_000_000
        } else if width == 6 {
            nanosecond / 1_000
        } else {
            nanosecond
        };
        let digits = decimal(number, width);
        lemma_decimal_len(number, width);
        lemma_decimal_digits(number, width);
        lemma_holds_at_split(bytes, pos, seq![DOT], digits);
        assert(bytes[pos] == bytes.subrange(pos, pos + 1)[0]);
        assert forall|i: int| 0 <= i < width implies bytes[pos + 1 + i] == #[trigger] digits[i] by {
            assert(bytes[pos + 1 + i] == bytes.subrange(pos + 1, pos + 1 + width)[i]);
        }
        if width >= 6 {
            assert(is_digit(digits[3]));
        }
        if width == 9 {
            assert(is_digit(digits[6]));
        }
        lemma_number_at_decimal(bytes, pos + 1, number, width);
    }
}

/// The offset that `offset_text` wrote is read back.
pub proof fn lemma_offset_at_text(bytes: Seq<u8>, pos: int, offset_minutes: int)
    requires
        -1440 < offset_minutes < 1440,
        holds_at(bytes, pos, offset_text(offset_minutes)),
    ensures
        offset_at(bytes, pos) == Some(
            (offset_minutes, pos + offset_text(offset_minutes).len()),
        ),
{
    reveal_with_fuel(pow10, 3);
    let text = offset_text(offset_minutes);
    if offset_minutes == 0 {
        assert(bytes[pos] == bytes.subrange(pos, pos + 1)[0]);
    } else {
        let distance = if offset_minutes > 0 {
            offset_minutes
        } else {
            -offset_minutes
        };
        let sign = if offset_minutes > 0 {
            PLUS
        } else {
            MINUS
        };
        let hours = decimal(distance / 60, 2);
        let minutes = decimal(distance % 60, 2);
        lemma_decimal_len(distance / 60, 2);
        lemma_decimal_len(distance % 60, 2);
        assert(text == seq![sign] + hours + seq![COLON] + minutes);
        lemma_holds_at_split(bytes, pos, seq![sign] + hours + seq![COLON], minutes);
        lemma_holds_at_split(bytes, pos, seq![sign] + hours, seq![COLON]);
        lemma_holds_at_split(bytes, pos, seq![sign], hours);
        assert(bytes[pos] == bytes.subrange(pos, pos + 1)[0]);
        assert(bytes[pos + 3] == bytes.subrange(pos + 3, pos + 4)[0]);
        lemma_number_at_decimal(bytes, pos + 1, distance / 60, 2);
        lemma_number_at_decimal(bytes, pos + 4, distance % 60, 2);
    }
}

/// The first byte of an offset is no digit and no dot.
pub proof fn lemma_offset_text_begins(offset_minutes: int)
    ensures
        offset_text(offset_minutes).len() >= 1,
        !is_digit(offset_text(offset_minutes)[0]),
        offset_text(offset_minutes)[0] != DOT,
{
}

/// Reading back the text of a valid moment gives the moment, and the
/// position behind the text.
pub proof fn lemma_moment_at_text(bytes: Seq<u8>, pos: int, m: Moment)
    requires
        m.valid(),
        holds_at(bytes, pos, moment_text(m)),
    ensures
        moment_at(bytes, pos) == Some((m, pos + moment_text(m).len())),
{
    reveal_with_fuel(pow10, 5);
    let year = decimal(m.year, 4);
    let month = decimal(m.month, 2);
    let day = decimal(m.day, 2);
    let hour = decimal(m.hour, 2);
    let minute = decimal(m.minute, 2);
    let second = decimal(m.second, 2);
    let fraction = fraction_text(m.nanosecond);
    let offset = offset_text(m.offset_minutes);
    lemma_decimal_len(m.year, 4);
    lemma_decimal_len(m.month, 2);
    lemma_decimal_len(m.day, 2);
    lemma_decimal_len(m.hour, 2);
    lemma_decimal_len(m.minute, 2);
    lemma_decimal_len(m.second, 2);
    let date = date_text(m);
    let time = time_text(m);
    lemma_holds_at_split(bytes, pos, date + seq![CAPITAL_T] + time + fraction, offset);
    lemma_holds_at_split(bytes, pos, date + seq![CAPITAL_T] + time, fraction);
    lemma_holds_at_split(bytes, pos, date + seq![CAPITAL_T], time);
    lemma_holds_at_split(bytes, pos, date, seq![CAPITAL_T]);
    lemma_holds_at_split(bytes, pos, year + seq![DASH] + month + seq![DASH], day);
    lemma_holds_at_split(bytes, pos, year + seq![DASH] + month, seq![DASH]);
    lemma_holds_at_split(bytes, pos, year + seq![DASH], month);
    lemma_holds_at_split(bytes, pos, year, seq![DASH]);
    lemma_holds_at_split(bytes, pos + 11, hour + seq![COLON] + minute + seq![COLON], second);
    lemma_holds_at_split(bytes, pos + 11, hour + seq![COLON] + minute, seq![COLON]);
    lemma_holds_at_split(bytes, pos + 11, hour + seq![COLON], minute);
    lemma_holds_at_split(bytes, pos + 11, hour, seq![COLON]);
    assert(bytes[pos + 4] == bytes.subrange(pos + 4, pos + 5)[0]);
    assert(bytes[pos + 7] == bytes.subrange(pos + 7, pos + 8)[0]);
    assert(bytes[pos + 10] == bytes.subrange(pos + 10, pos + 11)[0]);
    assert(bytes[pos + 13] == bytes.subrange(pos + 13, pos + 14)[0]);
    assert(bytes[pos + 16] == bytes.subrange(pos + 16, pos + 17)[0]);
    lemma_number_at_decimal(bytes, pos, m.year, 4);
    lemma_number_at_decimal(bytes, pos + 5, m.month, 2);
    lemma_number_at_decimal(bytes, pos + 8, m.day, 2);
    lemma_number_at_decimal(bytes, pos + 11, m.hour, 2);
    lemma_number_at_decimal(bytes, pos + 14, m.minute, 2);
    lemma_number_at_decimal(bytes, pos + 17, m.second, 2);
    let behind_fraction = pos + 19 + fraction.len();
    lemma_offset_text_begins(m.offset_minutes);
    assert(bytes[behind_fraction] == bytes.subrange(
        behind_fraction,
        behind_fraction + offset.len(),
    )[0]);
    lemma_fraction_at_text(bytes, pos + 19, m.nanosecond);
    lemma_offset_at_text(bytes, behind_fraction, m.offset_minutes);
}

/// A valid moment, held in machine integers.
#[derive(Clone, Copy, Debug, PartialEq, Eq)]
pub struct Timestamp {
    year: u32,
    month: u32,
    day: u32,
    hour: u32,
    minute: u32,
    second: u32,
    nanosecond: u32,
    offset_minutes: i32,
}

impl View for Timestamp {
    type V = Moment;

    closed spec fn view(&self) -> Moment {
        Moment {
            year: self.year as int,
            month: self.month as int,
            day: self.day as int,
            hour: self.hour as int,
            minute: self.minute as int,
            second: self.second as int,
            nanosecond: self.nanosecond as int,
            offset_minutes: self.offset_minutes as int,
        }
    }
}

/// The number of days of a month of a year of the Gregorian calendar.
pub fn month_length(year: u32, month: u32) -> (days: u32)
    ensures
        days == days_in_month(year as int, month as int),
{
    if month == 2 {
        if year % 4 == 0 && (year % 100 != 0 || year % 400 == 0) {
            29
        } else {
            28
        }
    } else if month == 4 || month == 6 || month == 9 || month == 11 {
        30
    } else {
        31
    }
}

/// Reads the fraction of a second that begins at `pos`, if one does.
fn read_fraction(bytes: &[u8], pos: usize) -> (read: Option<(u32, usize)>)
    requires
        pos <= bytes@.len(),
    ensures
        match read {
            Some((nanosecond, behind)) => fraction_at(bytes@, pos as int) == Some(
                (nanosecond as int, behind as int),
            ) && behind <= bytes@.len(),
            None => fraction_at(bytes@, pos as int) is None,
        },
{
    let room = bytes.len() - pos;
    if room == 0 || bytes[pos] != DOT {
        return Some((0, pos));
    }
    let (width, scale): (u8, u32) = if room > 4 && bytes[pos + 4] >= 0x30 && bytes[pos + 4]
        <= 0x39 {
        if room > 7 && bytes[pos + 7] >= 0x30 && bytes[pos + 7] <= 0x39 {
            (9, 1)
        } else {
            (6, 1_000)
        }
    } else {
        (3, 1_000_000)
    };
    match read_number(bytes, pos + 1, width) {
        Some(number) => {
            proof {
                reveal_with_fuel(pow10, 10);
                lemma_number_at_bound(bytes@, pos + 1, width as nat);
                lemma_number_at_within(bytes@, pos + 1, width as nat);
            }
            Some((number * scale, pos + 1 + width as usize))
        },
        None => None,
    }
}

/// Reads the offset from UTC that begins at `pos`.
fn read_offset(bytes: &[u8], pos: usize) -> (read: Option<(i32, usize)>)
    requires
        pos <= bytes@.len(),
    ensures
        match read {
            Some((offset_minutes, behind)) => offset_at(bytes@, pos as int) == Some(
                (offset_minutes as int, behind as int),
            ) && behind <= bytes@.len(),
            None => offset_at(bytes@, pos as int) is None,
        },
{
    let room = bytes.len() - pos;
    if room == 0 {
        return None;
    }
    let sign = bytes[pos];
    if sign == CAPITAL_Z {
        return Some((0, pos + 1));
    }
    if (sign != PLUS && sign != MINUS) || room <= 3 || bytes[pos + 3] != COLON {
        return None;
    }
    match (read_number(bytes, pos + 1, 2), read_number(bytes, pos + 4, 2)) {
        (Some(hours), Some(minutes)) => {
            proof {
                reveal_with_fuel(pow10, 3);
                lemma_number_at_bound(bytes@, pos + 1, 2);
                lemma_number_at_bound(bytes@, pos + 4, 2);
                lemma_number_at_within(bytes@, pos + 4, 2);
            }
            let distance: i32 = (hours * 60 + minutes) as i32;
            Some((if sign == PLUS { distance } else { -distance }, pos + 6))
        },
        _ => None,
    }
}

impl Timestamp {
    /// Every timestamp is a valid moment.
    #[verifier::type_invariant]
    pub open spec fn well_formed(self) -> bool {
        self@.valid()
    }

    /// The timestamp of the given calendar fields, where they make a valid
    /// moment.
    pub fn new(
        year: i32,
        month: u32,
        day: u32,
        hour: u32,
        minute: u32,
        second: u32,
        nanosecond: u32,
        offset_minutes: i32,
    ) -> (made: Option<Timestamp>)
        ensures
            made is Some <==> (Moment {
                year: year as int,
                month: month as int,
                day: day as int,
                hour: hour as int,
                minute: minute as int,
                second: second as int,
                nanosecond: nanosecond as int,
                offset_minutes: offset_minutes as int,
            }).valid(),
            made matches Some(t) ==> t@ == (Moment {
                year: year as int,
                month: month as int,
                day: day as int,
                hour: hour as int,
                minute: minute as int,
                second: second as int,
                nanosecond: nanosecond as int,
                offset_minutes: offset_minutes as int,
            }),
    {
        if year < 0 || year > 9999 || month < 1 || month > 12 || day < 1 {
            return None;
        }
        let year: u32 = year as u32;
        if day > month_length(year, month) || hour > 23 || minute > 59 || second > 60 {
            return None;
        }
        if nanosecond > 999_999_999 || offset_minutes <= -1440 || offset_minutes >= 1440 {
            return None;
        }
        Some(Timestamp { year, month, day, hour, minute, second, nanosecond, offset_minutes })
    }

    /// The timestamp of a clock reading, where its offset is of whole
    /// minutes and it stands for a valid moment.
    pub fn from_clock(
        year: i32,
        month: u32,
        day: u32,
        hour: u32,
        minute: u32,
        second: u32,
        nanosecond: u32,
        offset_seconds: i32,
    ) -> (made: Option<Timestamp>)
        ensures
            made is Some <==> offset_seconds % 60 == 0 && clock_moment(
                year as int,
                month as int,
                day as int,
                hour as int,
                minute as int,
                second as int,
                nanosecond as int,
                offset_seconds as int,
            ).valid(),
            made matches Some(t) ==> t@ == clock_moment(
                year as int,
                month as int,
                day as int,
                hour as int,
                minute as int,
                second as int,
                nanosecond as int,
                offset_seconds as int,
            ),
    {
        if offset_seconds <= -86_400 || offset_seconds >= 86_400 {
            return None;
        }
        let ahead = offset_seconds >= 0;
        let distance: i32 = if ahead {
            offset_seconds
        } else {
            -offset_seconds
        };
        if distance % 60 != 0 {
            return None;
        }
        let offset_minutes: i32 = if ahead {
            distance / 60
        } else {
            -(distance / 60)
        };
        if nanosecond >= 1_000_000_000 {
            if second > 59 {
                return None;
            }
            Timestamp::new(
                year,
                month,
                day,
                hour,
                minute,
                second + 1,
                nanosecond - 1_000_000_000,
                offset_minutes,
            )
        } else {
            Timestamp::new(year, month, day, hour, minute, second, nanosecond, offset_minutes)
        }
    }

    /// The year, from 0 to 9999.
    pub fn year(&self) -> (year: i32)
        ensures
            year == self@.year,
    {
        proof {
            use_type_invariant(self);
        }
        self.year as i32
    }

    /// The month of the year, from 1 to 12.
    pub fn month(&self) -> (month: u32)
        ensures
            month == self@.month,
    {
        self.month
    }

    /// The day of the month, from 1.
    pub fn day(&self) -> (day: u32)
        ensures
            day == self@.day,
    {
        self.day
    }

    /// The hour of the day, from 0 to 23.
    pub fn hour(&self) -> (hour: u32)
        ensures
            hour == self@.hour,
    {
        self.hour
    }

    /// The minute of the hour, from 0 to 59.
    pub fn minute(&self) -> (minute: u32)
        ensures
            minute == self@.minute,
    {
        self.minute
    }

    /// The second of the minute, from 0 to 60.
    pub fn second(&self) -> (second: u32)
        ensures
            second == self@.second,
    {
        self.second
    }

    /// The nanoseconds since the second began.
    pub fn nanosecond(&self) -> (nanosecond: u32)
        ensures
            nanosecond == self@.nanosecond,
    {
        self.nanosecond
    }

    /// The minutes by which local time is ahead of UTC.
    pub fn offset_minutes(&self) -> (offset_minutes: i32)
        ensures
            offset_minutes == self@.offset_minutes,
    {
        self.offset_minutes
    }

    /// Reads the RFC 3339 text that begins at `pos`, and gives the timestamp
    /// with the position behind the text where the fields read make a valid
    /// moment.
    pub(crate) fn read_at(bytes: &[u8], pos: usize) -> (read: Option<(Timestamp, usize)>)
        ensures
            match read {
                Some((t, behind)) => moment_at(bytes@, pos as int) == Some((t@, behind as int))
                    && behind <= bytes@.len(),
                None => match moment_at(bytes@, pos as int) {
                    Some((m, _)) => !m.valid(),
                    None => true,
                },
            },
    {
        if pos > bytes.len() || bytes.len() - pos < 19 {
            return None;
        }
        if bytes[pos + 4] != DASH || bytes[pos + 7] != DASH || bytes[pos + 10] != CAPITAL_T
            || bytes[pos + 13] != COLON || bytes[pos + 16] != COLON {
            return None;
        }
        let year = read_number(bytes, pos, 4);
        let month = read_number(bytes, pos + 5, 2);
        let day = read_number(bytes, pos + 8, 2);
        let hour = read_number(bytes, pos + 11, 2);
        let minute = read_number(bytes, pos + 14, 2);
        let second = read_number(bytes, pos + 17, 2);
        let fraction = read_fraction(bytes, pos + 19);
        match (year, month, day, hour, minute, second, fraction) {
            (
                Some(year),
                Some(month),
                Some(day),
                Some(hour),
                Some(minute),
                Some(second),
                Some((nanosecond, behind_fraction)),
            ) => match read_offset(bytes, behind_fraction) {
                Some((offset_minutes, behind)) => {
                    proof {
                        reveal_with_fuel(pow10, 5);
                        lemma_number_at_bound(bytes@, pos as int, 4);
                    }
                    match Timestamp::new(
                        year as i32,
                        month,
                        day,
                        hour,
                        minute,
                        second,
                        nanosecond,
                        offset_minutes,
                    ) {
                        Some(t) => Some((t, behind)),
                        None => None,
                    }
                },
                None => None,
            },
            _ => None,
        }
    }

    /// Appends the RFC 3339 text of the timestamp.
    pub fn write_text(&self, out: &mut Vec<u8>)
        ensures
            final(out)@ == old(out)@ + moment_text(self@),
    {
        proof {
            use_type_invariant(self);
        }
        write_date(out, self.year, self.month, self.day);
        out.push(CAPITAL_T);
        write_time(out, self.hour, self.minute, self.second);
        write_fraction(out, self.nanosecond);
        write_offset(out, self.offset_minutes);
        assert(out@ =~= old(out)@ + moment_text(self@));
    }
}

/// Appends `YYYY-MM-DD`.
fn write_date(out: &mut Vec<u8>, year: u32, month: u32, day: u32)
    ensures
        final(out)@ == old(out)@ + (decimal(year as int, 4) + seq![DASH] + decimal(
            month as int,
            2,
        ) + seq![DASH] + decimal(day as int, 2)),
{
    push_decimal(out, year, 4);
    out.push(DASH);
    push_decimal(out, month, 2);
    out.push(DASH);
    push_decimal(out, day, 2);
    assert(out@ =~= old(out)@ + (decimal(year as int, 4) + seq![DASH] + decimal(month as int, 2)
        + seq![DASH] + decimal(day as int, 2)));
}

/// Appends `hh:mm:ss`.
fn write_time(out: &mut Vec<u8>, hour: u32, minute: u32, second: u32)
    ensures
        final(out)@ == old(out)@ + (decimal(hour as int, 2) + seq![COLON] + decimal(
            minute as int,
            2,
        ) + seq![COLON] + decimal(second as int, 2)),
{
    push_decimal(out, hour, 2);
    out.push(COLON);
    push_decimal(out, minute, 2);
    out.push(COLON);
    push_decimal(out, second, 2);
    assert(out@ =~= old(out)@ + (decimal(hour as int, 2) + seq![COLON] + decimal(
        minute as int,
        2,
    ) + seq![COLON] + decimal(second as int, 2)));
}

/// Appends the fraction of a second, if there is one.
fn write_fraction(out: &mut Vec<u8>, nanosecond: u32)
    ensures
        final(out)@ == old(out)@ + fraction_text(nanosecond as int),
{
    if nanosecond == 0 {
    } else if nanosecond % 1_000_000 == 0 {
        out.push(DOT);
        push_decimal(out, nanosecond / 1_000_000, 3);
    } else if nanosecond % 1_000 == 0 {
        out.push(DOT);
        push_decimal(out, nanosecond / 1_000, 6);
    } else {
        out.push(DOT);
        push_decimal(out, nanosecond, 9);
    }
    assert(out@ =~= old(out)@ + fraction_text(nanosecond as int));
}

/// Appends the offset from UTC.
fn write_offset(out: &mut Vec<u8>, offset_minutes: i32)
    requires
        -1440 < offset_minutes < 1440,
    ensures
        final(out)@ == old(out)@ + offset_text(offset_minutes as int),
{
    if offset_minutes == 0 {
        out.push(CAPITAL_Z);
    } else {
        let distance: u32 = if offset_minutes > 0 {
            out.push(PLUS);
            offset_minutes as u32
        } else {
            out.push(MINUS);
            (-offset_minutes) as u32
        };
        push_decimal(out, distance / 60, 2);
        out.push(COLON);
        push_decimal(out, distance % 60, 2);
    }
    assert(out@ =~= old(out)@ + offset_text(offset_minutes as int));
}

} // verus!
