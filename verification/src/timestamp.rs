//! The time of an event, to the minute, and its written form
//! `YYYY-MM-DD Www HH:MM`. The `time` crate writes and reads that form; a
//! `Timestamp` is a reading that it writes to a text which it reads back as
//! the same reading.

use crate::text::{chars_of, find_char, lemma_first_index_absent, string_of, trim, trimmed};
use vstd::prelude::*;

verus! {

/// The format description that the written form of a timestamp follows.
pub const TIMESTAMP_FORMAT: &'static str =
    "[year]-[month repr:numerical]-[day] [weekday repr:short] [hour repr:24]:[minute]";

/// What `time` writes for the date and time of day given by the numbers,
/// under the format description `description`; `None` where the description
/// is not one, where the numbers are no date and time of day, or where the
/// value cannot be written under it.
pub uninterp spec fn formatted_date_time(
    description: Seq<char>,
    year: i32,
    month: u8,
    day: u8,
    hour: u8,
    minute: u8,
    second: u8,
) -> Option<Seq<char>>;

/// Year, month, day, hour, minute and second of what `time` reads from
/// `text` under the format description `description`; `None` where the
/// description is not one or the text does not follow it.
pub uninterp spec fn parsed_date_time(description: Seq<char>, text: Seq<char>) -> Option<
    (i32, u8, u8, u8, u8, u8),
>;

/// Writes a date and time of day with `time::PrimitiveDateTime::format`,
/// under the description that `time::format_description::parse_borrowed`
/// makes of `description`. The contract only names the outcome: it is a
/// function of the arguments, and `None` stands for every refusal of `time`
/// (of the description, of the numbers as a date and time, of the writing).
#[verifier::external_body]
fn format_date_time(
    description: &str,
    year: i32,
    month: u8,
    day: u8,
    hour: u8,
    minute: u8,
    second: u8,
) -> (text: Option<String>)
    ensures
        match text {
            Some(t) => formatted_date_time(description@, year, month, day, hour, minute, second)
                == Some(t@),
            None => formatted_date_time(description@, year, month, day, hour, minute, second)
                is None,
        },
{
    let items = time::format_description::parse_borrowed::<1>(description).ok()?;
    let month = time::Month::try_from(month).ok()?;
    let date = time::Date::from_calendar_date(year, month, day).ok()?;
    let clock = time::Time::from_hms(hour, minute, second).ok()?;
    time::PrimitiveDateTime::new(date, clock).format(&items).ok()
}

/// Reads a date and time of day with `time::PrimitiveDateTime::parse`, under
/// the description that `time::format_description::parse_borrowed` makes of
/// `description`, and hands out its fields down to the second. The contract
/// only names the outcome: it is a function of the arguments, and `None`
/// stands for every refusal of `time`.
#[verifier::external_body]
fn parse_date_time(description: &str, text: &str) -> (fields: Option<(i32, u8, u8, u8, u8, u8)>)
    ensures
        fields == parsed_date_time(description@, text@),
{
    let items = time::format_description::parse_borrowed::<1>(description).ok()?;
    let t = time::PrimitiveDateTime::parse(text, &items).ok()?;
    Some((t.year(), u8::from(t.month()), t.day(), t.hour(), t.minute(), t.second()))
}

/// A calendar date and a time of day, to the minute.
#[derive(Debug, Clone, Copy, PartialEq, Eq)]
pub struct Reading {
    pub year: i32,
    pub month: u8,
    pub day: u8,
    pub hour: u8,
    pub minute: u8,
}

/// The written form of a reading, where it has one.
pub open spec fn stamp_text(r: Reading) -> Option<Seq<char>> {
    formatted_date_time(TIMESTAMP_FORMAT@, r.year, r.month, r.day, r.hour, r.minute, 0)
}

/// The reading in the fields of a date and time: the written form of a
/// timestamp has no seconds, so none are kept.
pub open spec fn reading_in(fields: Option<(i32, u8, u8, u8, u8, u8)>) -> Option<Reading> {
    match fields {
        Some((year, month, day, hour, minute, _)) => Some(
            Reading { year, month, day, hour, minute },
        ),
        None => None,
    }
}

/// The reading that a text holds, white space around it set aside.
pub open spec fn read_stamp(text: Seq<char>) -> Option<Reading> {
    reading_in(parsed_date_time(TIMESTAMP_FORMAT@, trim(text)))
}

/// A text fits between `<` and `>` on one line when it holds no newline
/// and no `>`.
pub open spec fn fits(t: Seq<char>) -> bool {
    !t.contains('\n') && !t.contains('>')
}

/// A reading keeps when it has a written form, that form fits between the
/// brackets of an event line, and reads back as the same reading.
pub open spec fn keeps(r: Reading) -> bool {
    match stamp_text(r) {
        Some(t) => fits(t) && read_stamp(t) == Some(r),
        None => false,
    }
}

/// The timestamp that a text stands for: the reading it holds, if that
/// reading keeps.
pub open spec fn stamp_of_text(text: Seq<char>) -> Option<Reading> {
    match read_stamp(text) {
        Some(r) => if keeps(r) {
            Some(r)
        } else {
            None
        },
        None => None,
    }
}

/// Tells whether a text can stand between the brackets of an event line.
pub fn fits_brackets(text: &[char]) -> (b: bool)
    ensures
        b == fits(text@),
{
    proof {
        lemma_first_index_absent(text@, '\n');
        lemma_first_index_absent(text@, '>');
    }
    find_char(text, '\n') == text.len() && find_char(text, '>') == text.len()
}

/// The reading in the fields of a date and time, seconds let go.
pub fn reading_of(fields: Option<(i32, u8, u8, u8, u8, u8)>) -> (r: Option<Reading>)
    ensures
        r == reading_in(fields),
{
    match fields {
        Some((year, month, day, hour, minute, _)) => Some(
            Reading { year, month, day, hour, minute },
        ),
        None => None,
    }
}

/// The reading held by a slice of characters.
fn read_chars(text: &[char]) -> (r: Option<Reading>)
    ensures
        r == read_stamp(text@),
{
    let inner = string_of(trimmed(text));
    reading_of(parse_date_time(TIMESTAMP_FORMAT, inner.as_str()))
}

/// A time in UTC, to the minute.
#[derive(Clone, Copy, Debug, PartialEq, Eq)]
pub struct Timestamp {
    year: i32,
    month: u8,
    day: u8,
    hour: u8,
    minute: u8,
}

impl View for Timestamp {
    type V = Reading;

    closed spec fn view(&self) -> Reading {
        Reading {
            year: self.year,
            month: self.month,
            day: self.day,
            hour: self.hour,
            minute: self.minute,
        }
    }
}

impl Timestamp {
    #[verifier::type_invariant]
    spec fn keeps_its_reading(self) -> bool {
        keeps(self@)
    }

    /// The timestamp of a date and a time of day, if there is one.
    pub fn new(year: i32, month: u8, day: u8, hour: u8, minute: u8) -> (r: Option<Timestamp>)
        ensures
            r is Some <==> keeps(Reading { year, month, day, hour, minute }),
            r is Some ==> r->0@ == (Reading { year, month, day, hour, minute }),
    {
        let text = match format_date_time(TIMESTAMP_FORMAT, year, month, day, hour, minute, 0) {
            Some(text) => text,
            None => {
                return None;
            },
        };
        let chars = chars_of(text.as_str());
        if !fits_brackets(chars.as_slice()) {
            return None;
        }
        match read_chars(chars.as_slice()) {
            Some(back) => {
                if back.year == year && back.month == month && back.day == day && back.hour == hour
                    && back.minute == minute {
                    Some(Timestamp { year, month, day, hour, minute })
                } else {
                    None
                }
            },
            None => None,
        }
    }

    /// The timestamp that `text` stands for, if it stands for one.
    pub fn parse(text: &str) -> (r: Option<Timestamp>)
        ensures
            r is Some <==> stamp_of_text(text@) is Some,
            r is Some ==> Some(r->0@) == stamp_of_text(text@),
    {
        let chars = chars_of(text);
        Timestamp::from_chars(chars.as_slice())
    }

    /// The timestamp that the characters stand for, if they stand for one.
    pub fn from_chars(text: &[char]) -> (r: Option<Timestamp>)
        ensures
            r is Some <==> stamp_of_text(text@) is Some,
            r is Some ==> Some(r->0@) == stamp_of_text(text@),
    {
        match read_chars(text) {
            Some(reading) => Timestamp::new(
                reading.year,
                reading.month,
                reading.day,
                reading.hour,
                reading.minute,
            ),
            None => None,
        }
    }

    /// The written form, `YYYY-MM-DD Www HH:MM`.
    pub fn to_string(&self) -> (s: String)
        ensures
            stamp_text(self@) == Some(s@),
            keeps(self@),
    {
        proof {
            use_type_invariant(self);
        }
        match format_date_time(
            TIMESTAMP_FORMAT,
            self.year,
            self.month,
            self.day,
            self.hour,
            self.minute,
            0,
        ) {
            Some(text) => text,
            None => vstd::pervasive::unreached(),
        }
    }

    /// The year.
    pub fn year(&self) -> (year: i32)
        ensures
            year == self@.year,
            keeps(self@),
    {
        proof {
            use_type_invariant(self);
        }
        self.year
    }

    /// The month, from 1.
    pub fn month(&self) -> (month: u8)
        ensures
            month == self@.month,
    {
        self.month
    }

    /// The day of the month, from 1.
    pub fn day(&self) -> (day: u8)
        ensures
            day == self@.day,
    {
        self.day
    }

    /// The hour, from 0 to 23.
    pub fn hour(&self) -> (hour: u8)
        ensures
            hour == self@.hour,
    {
        self.hour
    }

    /// The minute.
    pub fn minute(&self) -> (minute: u8)
        ensures
            minute == self@.minute,
    {
        self.minute
    }
}

} // verus!
