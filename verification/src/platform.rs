//! The calls that leave this library: the terminal, the account database, and
//! the formatters of sizes and times. Nothing here is proved; each contract
//! says what the rest of the library takes on trust.

use vstd::prelude::*;

use crate::calendar::{on_calendar, timestamp, Calendar, TIME_FORMAT};
use crate::text::text_of;

verus! {

/// The largest length that is handed to the size formatter: what a signed
/// 64-bit file offset can hold.
pub const MAX_FILE_LEN: u64 = 9_223_372_036_854_775_807;

/// The first instant that is handed to the calendar, in seconds since the
/// Unix epoch. The calendar counts the years since 1900 in 32 bits, so the
/// year -2147481748 is the first that it can hold; this is the first second
/// of the year after it, which leaves a year in hand for the time zone.
pub const MIN_INSTANT_SECS: i64 = -67_768_040_578_204_800;

/// The last instant that is handed to the calendar, in seconds since the
/// Unix epoch. The year 2147485547 is the last that the calendar can hold;
/// this is the last second of the year before it, which leaves a year in hand
/// for the time zone.
pub const MAX_INSTANT_SECS: i64 = 67_768_036_160_140_799;

/// The number of nanoseconds in a second.
pub const NANOS_PER_SEC: u32 = 1_000_000_000;

/// The text that `size::Size::to_string` gives for a length of `len` bytes, in
/// base 10 and with the unit abbreviated: a number, a space and the unit.
pub uninterp spec fn abbreviated_size(len: u64) -> Seq<char>;

/// `term_size::dimensions`: the number of columns of the terminal that the
/// process writes to, or `None` where no stream is a terminal. The answer
/// depends on the terminal, so nothing is claimed of it.
#[verifier::external_body]
pub(crate) fn terminal_width() -> (width: Option<usize>) {
    match term_size::dimensions() {
        Some((columns, _)) => Some(columns),
        None => None,
    }
}

/// `users::get_user_by_uid`: the name of the account with the given user id,
/// or `None` where the account database has none, or a name that is not text.
/// The answer depends on the machine, so nothing is claimed of it.
#[verifier::external_body]
pub(crate) fn user_name(uid: u32) -> (name: Option<String>) {
    match users::get_user_by_uid(uid) {
        Some(user) => user.name().to_str().map(|text| text.to_string()),
        None => None,
    }
}

/// `users::get_group_by_gid`: the name of the group with the given group id,
/// or `None` where the account database has none, or a name that is not text.
/// The answer depends on the machine, so nothing is claimed of it.
#[verifier::external_body]
pub(crate) fn group_name(gid: u32) -> (name: Option<String>) {
    match users::get_group_by_gid(gid) {
        Some(group) => group.name().to_str().map(|text| text.to_string()),
        None => None,
    }
}

/// `size::Size::to_string` on a number of bytes, in base 10 with the unit
/// abbreviated. The text depends on the length alone and is known here only
/// by its name, [`abbreviated_size`]. Lengths above [`MAX_FILE_LEN`] are left
/// out: on the largest of them the formatter's conversions fail.
#[verifier::external_body]
pub(crate) fn size_text(len: u64) -> (text: String)
    requires
        len <= MAX_FILE_LEN,
    ensures
        text@ == abbreviated_size(len),
{
    size::Size::Bytes(len).to_string(size::Base::Base10, size::Style::Abbreviated)
}

/// `time::at`: the calendar time of an instant in the machine's time zone,
/// field by field. Which time it is depends on that zone; claimed are only
/// the ranges that the crate documents for month, day of the month, hour,
/// minute and day of the week. Instants before [`MIN_INSTANT_SECS`] or after
/// [`MAX_INSTANT_SECS`] are left out: there the year no longer fits its field
/// and the conversion fails. So are nanoseconds that make up a second or
/// more, which the crate refuses.
#[verifier::external_body]
pub(crate) fn local_time(secs: i64, nanos: i32) -> (calendar: Calendar)
    requires
        MIN_INSTANT_SECS <= secs <= MAX_INSTANT_SECS,
        0 <= nanos < NANOS_PER_SEC,
    ensures
        on_calendar(calendar),
{
    let tm = time::at(time::Timespec::new(secs, nanos));
    Calendar {
        second: tm.tm_sec, minute: tm.tm_min, hour: tm.tm_hour,
        day: tm.tm_mday, month: tm.tm_mon, year: tm.tm_year,
        weekday: tm.tm_wday, yearday: tm.tm_yday, dst: tm.tm_isdst,
        offset: tm.tm_utcoff, nanos: tm.tm_nsec,
    }
}

/// `time::strftime` with the template of the modification time: the month as
/// a number, the day of the month, the hour and the minute, each written with
/// two digits. The formatter takes every calendar time whose month and day of
/// the week are in range, and this template.
#[verifier::external_body]
pub(crate) fn time_text(calendar: &Calendar, format: &str) -> (text: Option<String>)
    requires
        on_calendar(*calendar),
        format@ == TIME_FORMAT@,
    ensures
        text_of(text) == Some(timestamp(*calendar)),
{
    let tm = time::Tm {
        tm_sec: calendar.second, tm_min: calendar.minute, tm_hour: calendar.hour,
        tm_mday: calendar.day, tm_mon: calendar.month, tm_year: calendar.year,
        tm_wday: calendar.weekday, tm_yday: calendar.yearday, tm_isdst: calendar.dst,
        tm_utcoff: calendar.offset, tm_nsec: calendar.nanos,
    };
    time::strftime(format, &tm).ok()
}

} // verus!
