//! The modification time as the table shows it: month, day, hour and minute
//! of a calendar time, two digits each, and no year.

use vstd::prelude::*;

use crate::platform::time_text;
use crate::text::text_of;

verus! {

/// The template of the modification time, as the time formatter reads it.
pub const TIME_FORMAT: &'static str = "%m %d %H:%M";

/// A calendar time, broken down into its fields.
#[derive(Clone, Copy, Debug)]
pub struct Calendar {
    /// Seconds after the minute.
    pub second: i32,
    /// Minutes after the hour.
    pub minute: i32,
    /// Hours after midnight.
    pub hour: i32,
    /// The day of the month, from 1.
    pub day: i32,
    /// Months since January, from 0.
    pub month: i32,
    /// Years since 1900.
    pub year: i32,
    /// Days since Sunday.
    pub weekday: i32,
    /// Days since the first of January.
    pub yearday: i32,
    /// Positive where daylight saving time is in effect, zero where it is
    /// not, negative where that is not known.
    pub dst: i32,
    /// The time zone, in seconds east of UTC.
    pub offset: i32,
    /// Nanoseconds after the second.
    pub nanos: i32,
}

/// Whether month, day, hour, minute and day of the week are such as a
/// calendar has.
pub open spec fn on_calendar(time: Calendar) -> bool {
    &&& 0 <= time.month <= 11
    &&& 1 <= time.day <= 31
    &&& 0 <= time.hour <= 23
    &&& 0 <= time.minute <= 59
    &&& 0 <= time.weekday <= 6
}

/// The decimal digit for a number below ten.
pub open spec fn digit(n: int) -> char {
    ((48 + n) as u8) as char
}

/// A number below a hundred in two decimal digits.
pub open spec fn two_digits(n: int) -> Seq<char> {
    seq![digit(n / 10), digit(n % 10)]
}

/// The modification time as text: the number of the month, the day of the
/// month, and hour and minute with a colon between them.
pub open spec fn timestamp(time: Calendar) -> Seq<char> {
    two_digits(time.month + 1) + " "@ + two_digits(time.day as int) + " "@ + two_digits(
        time.hour as int,
    ) + ":"@ + two_digits(time.minute as int)
}

/// Writes out the modification time of a calendar time. There is none for
/// fields that no calendar has.
pub fn modified_time(time: &Calendar) -> (text: Option<String>)
    ensures
        text_of(text) == if on_calendar(*time) {
            Some(timestamp(*time))
        } else {
            None
        },
{
    if 0 <= time.month && time.month <= 11 && 1 <= time.day && time.day <= 31 && 0 <= time.hour
        && time.hour <= 23 && 0 <= time.minute && time.minute <= 59 && 0 <= time.weekday
        && time.weekday <= 6 {
        time_text(time, TIME_FORMAT)
    } else {
        None
    }
}

/// Whether `text` is the modification time of some calendar time.
pub open spec fn is_timestamp(text: Seq<char>) -> bool {
    exists|time: Calendar| on_calendar(time) && text == #[trigger] timestamp(time)
}

/// Whether `c` is a decimal digit.
pub open spec fn is_digit(c: char) -> bool {
    '0' <= c <= '9'
}

/// A modification time is eleven characters long: two digits each for month,
/// day, hour and minute, with a space after month and day and a colon
/// between hour and minute.
pub proof fn lemma_timestamp_shape(text: Seq<char>)
    requires
        is_timestamp(text),
    ensures
        text.len() == 11,
        text[2] == ' ',
        text[5] == ' ',
        text[8] == ':',
        forall|i: int| 0 <= i < 11 && i != 2 && i != 5 && i != 8 ==> is_digit(#[trigger] text[i]),
{
    reveal_strlit(" ");
    reveal_strlit(":");
    let time = choose|time: Calendar| on_calendar(time) && text == #[trigger] timestamp(time);
    let month = two_digits(time.month + 1);
    let day = two_digits(time.day as int);
    let hour = two_digits(time.hour as int);
    let minute = two_digits(time.minute as int);
    assert(text =~= seq![
        month[0],
        month[1],
        ' ',
        day[0],
        day[1],
        ' ',
        hour[0],
        hour[1],
        ':',
        minute[0],
        minute[1],
    ]);
}

} // verus!
