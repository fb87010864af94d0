//! Dates on the command line: what a person writes, and the milliseconds since
//! the Unix epoch that it stands for.
//!
//! Days are counted from the first of January 1970. What a date and time of day
//! means in the time zone of the machine is asked of the system; everything else
//! follows from the text and from the current time.
use vstd::prelude::*;

use crate::archive::{signed_time, with_sign, FIRST_MILLISECOND, LAST_MILLISECOND};
use crate::number::{
    decimal, decimal_text, digit_char, i64_error, i64_failure, is_digit, parse_i64, parse_u64,
    signed, u64_error, u64_failure, unsigned,
};
use crate::paths::with_suffix;
use crate::text::{
    chars_of, debug_text, has_prefix, has_suffix, lowercase, lowercased, quoted, same_text,
    strip_prefix, strip_suffix, text_between, texts, trim, trimmed, word_texts, words,
};

verus! {

/// The first day that a date can stand for.
pub const FIRST_DAY: i32 = -96_465_292;

/// The last day that a date can stand for.
pub const LAST_DAY: i32 = 95_026_236;

/// The current time: the milliseconds since the Unix epoch, and the day in the
/// time zone of the machine.
#[derive(Debug, Clone, Copy, PartialEq, Eq, Structural)]
pub struct Now {
    pub millis: i64,
    pub local_day: i32,
}

impl Now {
    pub open spec fn valid(self) -> bool {
        &&& FIRST_MILLISECOND <= self.millis <= LAST_MILLISECOND
        &&& FIRST_DAY <= self.local_day <= LAST_DAY
    }
}

/// What a date on the command line stands for: an instant, or a whole day in
/// the time zone of the machine.
#[derive(Debug, Clone, Copy, PartialEq, Eq, Structural)]
pub enum ParsedDate {
    Instant(u64),
    LocalDate(i32),
}

/// A date and a time of day without a time zone. A leap second is the last of its
/// minute, with a nanosecond of more than a second.
#[derive(Debug, Clone, Copy, PartialEq, Eq, Structural)]
pub struct LocalTime {
    pub day: i32,
    pub second: u32,
    pub nano: u32,
}

impl LocalTime {
    pub open spec fn valid(self) -> bool {
        &&& FIRST_DAY <= self.day <= LAST_DAY
        &&& self.second < 86_400
        &&& self.nano < 2_000_000_000
        &&& self.nano >= 1_000_000_000 ==> self.second % 60 == 59
    }
}

/// The instants that a date and a time of day stand for in a time zone.
#[derive(Debug, Clone, Copy, PartialEq, Eq, Structural)]
pub enum Resolution {
    /// One, in milliseconds since the Unix epoch.
    Single(i64),
    Ambiguous,
    Missing,
}

/// A range of time: from `since` up to, but not with, `until`.
#[derive(Debug, Clone, Copy, PartialEq, Eq, Structural)]
pub struct TimeRange {
    pub since: Option<u64>,
    pub until: Option<u64>,
}

/// Why a date is refused.
#[derive(Debug, PartialEq, Eq)]
pub enum DateError {
    BeforeEpoch,
    Ambiguous(LocalTime),
    Missing(LocalTime),
    InvalidRelative(String),
    NoAmount(String),
    UnknownUnit(String),
    YesterdayOutOfRange,
    InvalidUnixMillis(String),
    InvalidUnix(String),
    UnixTooLarge,
    Invalid(String),
    OutOfRange,
    Reversed,
}

pub enum DateErrorView {
    BeforeEpoch,
    Ambiguous(LocalTime),
    Missing(LocalTime),
    InvalidRelative(Seq<char>),
    NoAmount(Seq<char>),
    UnknownUnit(Seq<char>),
    YesterdayOutOfRange,
    InvalidUnixMillis(Seq<char>),
    InvalidUnix(Seq<char>),
    UnixTooLarge,
    Invalid(Seq<char>),
    OutOfRange,
    Reversed,
}

impl View for DateError {
    type V = DateErrorView;

    open spec fn view(&self) -> DateErrorView {
        match self {
            DateError::BeforeEpoch => DateErrorView::BeforeEpoch,
            DateError::Ambiguous(time) => DateErrorView::Ambiguous(*time),
            DateError::Missing(time) => DateErrorView::Missing(*time),
            DateError::InvalidRelative(text) => DateErrorView::InvalidRelative(text@),
            DateError::NoAmount(cause) => DateErrorView::NoAmount(cause@),
            DateError::UnknownUnit(unit) => DateErrorView::UnknownUnit(unit@),
            DateError::YesterdayOutOfRange => DateErrorView::YesterdayOutOfRange,
            DateError::InvalidUnixMillis(cause) => DateErrorView::InvalidUnixMillis(cause@),
            DateError::InvalidUnix(cause) => DateErrorView::InvalidUnix(cause@),
            DateError::UnixTooLarge => DateErrorView::UnixTooLarge,
            DateError::Invalid(text) => DateErrorView::Invalid(text@),
            DateError::OutOfRange => DateErrorView::OutOfRange,
            DateError::Reversed => DateErrorView::Reversed,
        }
    }
}

// ---------------------------------------------------------------------------
// Outside calls
// ---------------------------------------------------------------------------

/// The milliseconds since the Unix epoch that a text stands for in the format of
/// RFC 3339.
pub uninterp spec fn rfc3339_millis(text: Seq<char>) -> Option<i64>;

/// `chrono::DateTime::parse_from_rfc3339`, as milliseconds since the Unix epoch.
/// The result is a function of the text alone, and is named `rfc3339_millis`.
/// The format is not spelled out.
#[verifier::external_body]
fn parse_rfc3339(text: &str) -> (millis: Option<i64>)
    ensures
        millis == rfc3339_millis(text@),
{
    chrono::DateTime::parse_from_rfc3339(text).ok().map(|time| time.timestamp_millis())
}

/// The day, the second of the day and the nanosecond that a text stands for in
/// a format of `strftime`.
pub uninterp spec fn date_time_fields(text: Seq<char>, format: Seq<char>) -> Option<(i32, u32, u32)>;

/// `chrono::NaiveDateTime::parse_from_str`, as the day since the Unix epoch, the
/// second of that day and the nanosecond of that second. The result is a
/// function of the two texts alone, and is named `date_time_fields`; the formats
/// are not spelled out. A result is a date and time that chrono can hold: the
/// second 60 of a minute comes as its second 59, a whole second late.
#[verifier::external_body]
fn parse_date_time(text: &str, format: &str) -> (time: Option<LocalTime>)
    ensures
        match time {
            Some(time) => time.valid() && date_time_fields(text@, format@) == Some(
                (time.day, time.second, time.nano),
            ),
            None => date_time_fields(text@, format@) is None,
        },
{
    let time = chrono::NaiveDateTime::parse_from_str(text, format).ok()?;
    Some(LocalTime {
        day: time.date().to_epoch_days(),
        second: chrono::Timelike::num_seconds_from_midnight(&time),
        nano: chrono::Timelike::nanosecond(&time),
    })
}

/// The day that a text stands for in a format of `strftime`.
pub uninterp spec fn date_day(text: Seq<char>, format: Seq<char>) -> Option<i32>;

/// `chrono::NaiveDate::parse_from_str`, as the day since the Unix epoch. The
/// result is a function of the two texts alone, and is named `date_day`; the
/// formats are not spelled out. A result is a date that chrono can hold.
#[verifier::external_body]
fn parse_day(text: &str, format: &str) -> (day: Option<i32>)
    ensures
        day == date_day(text@, format@),
        day is Some ==> FIRST_DAY <= day->0 <= LAST_DAY,
{
    chrono::NaiveDate::parse_from_str(text, format).ok().map(|date| date.to_epoch_days())
}

/// The text of a date and a time of day.
pub uninterp spec fn date_time_text(day: i32, second: u32, nano: u32) -> Seq<char>;

/// The `Display` form of a `chrono::NaiveDateTime`. The result is a function of
/// the fields alone, and is named `date_time_text`; the form is not spelled out.
#[verifier::external_body]
fn show_date_time(time: LocalTime) -> (text: String)
    requires
        time.valid(),
    ensures
        text@ == date_time_text(time.day, time.second, time.nano),
{
    let date = chrono::NaiveDate::from_epoch_days(time.day).unwrap_or_default();
    let clock = chrono::NaiveTime::from_num_seconds_from_midnight_opt(time.second, time.nano);
    date.and_time(clock.unwrap_or_default()).to_string()
}

/// Whether a time zone can be that many seconds ahead of UTC.
pub open spec fn is_offset(seconds: int) -> bool {
    -86_400 < seconds < 86_400
}

/// The milliseconds since the Unix epoch of a date and a time of day, in a time
/// zone that is some seconds ahead of UTC.
pub open spec fn local_millis(time: LocalTime, offset: int) -> int {
    (time.day * 86_400 + time.second - offset) * 1_000 + time.nano as int / 1_000_000
}

/// Whether a date and a time of day can mean that in some time zone.
pub open spec fn resolves(time: LocalTime, resolution: Resolution) -> bool {
    resolution matches Resolution::Single(value) ==> exists|offset: int|
        is_offset(offset) && value == #[trigger] local_millis(time, offset)
}

/// `chrono::Local.from_local_datetime`: what a date and time of day means in the
/// time zone of the machine. A single instant is that date and time of day, less
/// the offset of the zone. Which offset it is, and whether there is one, depends
/// on the machine, and is left open.
#[verifier::external_body]
fn resolve(time: LocalTime) -> (resolution: Resolution)
    requires
        time.valid(),
    ensures
        resolves(time, resolution),
{
    let date = chrono::NaiveDate::from_epoch_days(time.day).unwrap_or_default();
    let clock = chrono::NaiveTime::from_num_seconds_from_midnight_opt(time.second, time.nano);
    let local = date.and_time(clock.unwrap_or_default());
    match chrono::TimeZone::from_local_datetime(&chrono::Local, &local) {
        chrono::MappedLocalTime::Single(instant) => Resolution::Single(instant.timestamp_millis()),
        chrono::MappedLocalTime::Ambiguous(_, _) => Resolution::Ambiguous,
        chrono::MappedLocalTime::None => Resolution::Missing,
    }
}

/// `chrono::Local.timestamp_millis_opt`: the seconds by which the time zone of
/// the machine is ahead of UTC at some time. There is an offset exactly where
/// chrono can hold the time. Which one it is depends on the machine, and is left
/// open.
#[verifier::external_body]
fn local_offset(millis: i64) -> (offset: Option<i32>)
    ensures
        offset is Some <==> FIRST_MILLISECOND <= millis <= LAST_MILLISECOND,
        offset is Some ==> is_offset(offset->0 as int),
{
    let time = chrono::TimeZone::timestamp_millis_opt(&chrono::Local, millis).single()?;
    Some(time.offset().local_minus_utc())
}

/// A time in the format of RFC 3339, to the second, in a time zone that is some
/// seconds ahead of UTC.
pub uninterp spec fn rfc3339_text(millis: i64, offset: i32) -> Seq<char>;

/// `chrono::DateTime::to_rfc3339_opts`, to the second and with a numeric offset.
/// The result is a function of the time and the offset alone, and is named
/// `rfc3339_text`; the calendar is not spelled out. chrono panics where it cannot
/// hold the local date, so that is asked for.
#[verifier::external_body]
fn show_rfc3339(millis: i64, offset: i32) -> (text: String)
    requires
        FIRST_MILLISECOND <= millis <= LAST_MILLISECOND,
        is_offset(offset as int),
        FIRST_MILLISECOND <= millis + offset * 1_000 <= LAST_MILLISECOND,
    ensures
        text@ == rfc3339_text(millis, offset),
{
    let utc = chrono::Offset::fix(&chrono::Utc);
    let zone = chrono::FixedOffset::east_opt(offset).unwrap_or(utc);
    let time = chrono::DateTime::from_timestamp_millis(millis).unwrap_or_default();
    time.with_timezone(&zone).to_rfc3339_opts(chrono::SecondsFormat::Secs, false)
}

/// The format of a time with its day and month.
pub const SHORT_TIME: &'static str = "%d %b %H:%M";

/// The format of a time of day.
pub const TIME_OF_DAY: &'static str = "%H:%M";

/// A number below a hundred with two digits.
pub open spec fn two_digits(n: int) -> Seq<char> {
    seq![digit_char(n / 10), digit_char(n % 10)]
}

/// The hour and the minute of a time, in a time zone that is some seconds ahead
/// of UTC.
pub open spec fn hour_and_minute(millis: int, offset: int) -> Seq<char> {
    let second = (millis / 1_000 + offset) % 86_400;
    two_digits(second / 3_600) + seq![':'] + two_digits(second % 3_600 / 60)
}

/// A time in a format of `strftime`, in a time zone that is some seconds ahead
/// of UTC.
pub uninterp spec fn time_text(millis: i64, offset: i32, format: Seq<char>) -> Seq<char>;

/// `chrono::DateTime::format`. The result is a function of the time, the offset
/// and the format alone, and is named `time_text`; the calendar is not spelled
/// out. The time of day is the hour and the minute, of two digits each.
#[verifier::external_body]
fn show_time(millis: i64, offset: i32, format: &str) -> (text: String)
    requires
        FIRST_MILLISECOND <= millis <= LAST_MILLISECOND,
        is_offset(offset as int),
        format@ == SHORT_TIME@ || format@ == TIME_OF_DAY@,
    ensures
        text@ == time_text(millis, offset, format@),
        format@ == TIME_OF_DAY@ ==> text@ == hour_and_minute(millis as int, offset as int),
{
    let utc = chrono::Offset::fix(&chrono::Utc);
    let zone = chrono::FixedOffset::east_opt(offset).unwrap_or(utc);
    let time = chrono::DateTime::from_timestamp_millis(millis).unwrap_or_default();
    time.with_timezone(&zone).format(format).to_string()
}

// ---------------------------------------------------------------------------
// Error texts
// ---------------------------------------------------------------------------

impl DateErrorView {
    pub open spec fn message(self) -> Seq<char> {
        match self {
            DateErrorView::BeforeEpoch =>
                "date is before the Unix epoch: out of range integral type conversion attempted"@,
            DateErrorView::Ambiguous(time) => "local date/time "@ + date_time_text(
                time.day,
                time.second,
                time.nano,
            ) + " is ambiguous; use RFC 3339 with an explicit offset"@,
            DateErrorView::Missing(time) => "local date/time "@ + date_time_text(
                time.day,
                time.second,
                time.nano,
            ) + " does not exist; use RFC 3339 with an explicit offset"@,
            DateErrorView::InvalidRelative(text) => "invalid relative date "@ + debug_text(text),
            DateErrorView::NoAmount(cause) => "relative date needs a numeric amount: "@ + cause,
            DateErrorView::UnknownUnit(unit) => "unsupported relative-date unit "@ + debug_text(
                unit,
            ),
            DateErrorView::YesterdayOutOfRange => "yesterday is outside the supported date range"@,
            DateErrorView::InvalidUnixMillis(cause) => "invalid Unix-millisecond timestamp: "@ + cause,
            DateErrorView::InvalidUnix(cause) => "invalid Unix timestamp: "@ + cause,
            DateErrorView::UnixTooLarge => "Unix timestamp is too large"@,
            DateErrorView::Invalid(text) => "invalid date "@ + debug_text(text)
                + "; try 'yesterday', '2 hours ago', '2026-08-08 14:30', RFC 3339, or @<unix-seconds>"@,
            DateErrorView::OutOfRange => "date is outside the supported range"@,
            DateErrorView::Reversed => "--since must be earlier than --until"@,
        }
    }

    pub open spec fn valid(self) -> bool {
        match self {
            DateErrorView::Ambiguous(time) => time.valid(),
            DateErrorView::Missing(time) => time.valid(),
            _ => true,
        }
    }
}

fn around(front: &str, middle: &str, back: &str) -> (text: String)
    ensures
        text@ == front@ + middle@ + back@,
{
    let mut text: String = front.to_owned();
    text.push_str(middle);
    text.push_str(back);
    text
}

fn before_quoted(front: &str, value: &str) -> (text: String)
    ensures
        text@ == front@ + debug_text(value@),
{
    let mut text: String = front.to_owned();
    text.push_str(quoted(value).as_str());
    text
}

impl DateError {
    pub fn message(&self) -> (text: String)
        requires
            self@.valid(),
        ensures
            text@ == self@.message(),
    {
        match self {
            DateError::BeforeEpoch =>
                "date is before the Unix epoch: out of range integral type conversion attempted".to_owned(),
            DateError::Ambiguous(time) => around(
                "local date/time ",
                show_date_time(*time).as_str(),
                " is ambiguous; use RFC 3339 with an explicit offset",
            ),
            DateError::Missing(time) => around(
                "local date/time ",
                show_date_time(*time).as_str(),
                " does not exist; use RFC 3339 with an explicit offset",
            ),
            DateError::InvalidRelative(text) => before_quoted(
                "invalid relative date ",
                text.as_str(),
            ),
            DateError::NoAmount(cause) => with_suffix(
                "relative date needs a numeric amount: ",
                cause.as_str(),
            ),
            DateError::UnknownUnit(unit) => before_quoted(
                "unsupported relative-date unit ",
                unit.as_str(),
            ),
            DateError::YesterdayOutOfRange => {
                "yesterday is outside the supported date range".to_owned()
            },
            DateError::InvalidUnixMillis(cause) => with_suffix(
                "invalid Unix-millisecond timestamp: ",
                cause.as_str(),
            ),
            DateError::InvalidUnix(cause) => with_suffix("invalid Unix timestamp: ", cause.as_str()),
            DateError::UnixTooLarge => "Unix timestamp is too large".to_owned(),
            DateError::Invalid(text) => around(
                "invalid date ",
                quoted(text.as_str()).as_str(),
                "; try 'yesterday', '2 hours ago', '2026-08-08 14:30', RFC 3339, or @<unix-seconds>",
            ),
            DateError::OutOfRange => "date is outside the supported range".to_owned(),
            DateError::Reversed => "--since must be earlier than --until".to_owned(),
        }
    }
}

// ---------------------------------------------------------------------------
// Instants
// ---------------------------------------------------------------------------

/// An instant that is not before the Unix epoch.
pub open spec fn instant(millis: int) -> Result<u64, DateErrorView> {
    if 0 <= millis {
        Ok(millis as u64)
    } else {
        Err(DateErrorView::BeforeEpoch)
    }
}

pub open spec fn instant_view(result: Result<u64, DateError>) -> Result<u64, DateErrorView> {
    match result {
        Ok(instant) => Ok(instant),
        Err(error) => Err(error@),
    }
}

pub open spec fn date_view(result: Result<ParsedDate, DateError>) -> Result<
    ParsedDate,
    DateErrorView,
> {
    match result {
        Ok(date) => Ok(date),
        Err(error) => Err(error@),
    }
}

fn millis(value: i64) -> (result: Result<u64, DateError>)
    ensures
        instant_view(result) == instant(value as int),
{
    if value >= 0 {
        Ok(value as u64)
    } else {
        Err(DateError::BeforeEpoch)
    }
}

/// What a date and time of day comes to, given what it means in the time zone.
pub open spec fn resolved(time: LocalTime, resolution: Resolution) -> Result<u64, DateErrorView> {
    match resolution {
        Resolution::Single(value) => instant(value as int),
        Resolution::Ambiguous => Err(DateErrorView::Ambiguous(time)),
        Resolution::Missing => Err(DateErrorView::Missing(time)),
    }
}

/// What a date and time of day comes to, given what it means in the time zone.
pub fn finish_local(time: LocalTime, resolution: Resolution) -> (result: Result<u64, DateError>)
    ensures
        instant_view(result) == resolved(time, resolution),
{
    match resolution {
        Resolution::Single(value) => millis(value),
        Resolution::Ambiguous => Err(DateError::Ambiguous(time)),
        Resolution::Missing => Err(DateError::Missing(time)),
    }
}

/// Whether an outcome is that of a date and time of day under some time zone.
pub open spec fn some_local(time: LocalTime, outcome: Result<u64, DateErrorView>) -> bool {
    exists|resolution: Resolution|
        resolves(time, resolution) && outcome == #[trigger] resolved(time, resolution)
}

/// What a date and time of day comes to in the time zone of the machine.
fn local_datetime(time: LocalTime) -> (result: Result<u64, DateError>)
    requires
        time.valid(),
    ensures
        some_local(time, instant_view(result)),
{
    let resolution = resolve(time);
    finish_local(time, resolution)
}

// ---------------------------------------------------------------------------
// Relative dates
// ---------------------------------------------------------------------------

/// The milliseconds of a unit of time.
pub open spec fn unit_millis(unit: Seq<char>) -> Option<int> {
    if unit == "s"@ || unit == "sec"@ || unit == "secs"@ || unit == "second"@ || unit
        == "seconds"@ {
        Some(1_000)
    } else if unit == "m"@ || unit == "min"@ || unit == "mins"@ || unit == "minute"@ || unit
        == "minutes"@ {
        Some(60_000)
    } else if unit == "h"@ || unit == "hr"@ || unit == "hrs"@ || unit == "hour"@ || unit
        == "hours"@ {
        Some(3_600_000)
    } else if unit == "d"@ || unit == "day"@ || unit == "days"@ {
        Some(86_400_000)
    } else if unit == "w"@ || unit == "week"@ || unit == "weeks"@ {
        Some(604_800_000)
    } else {
        None
    }
}

fn unit_length(unit: &str) -> (millis: Option<i64>)
    ensures
        unit_millis(unit@) == (match millis {
            Some(millis) => Some(millis as int),
            None => None,
        }),
        millis is Some ==> 0 < millis->0 <= 604_800_000,
{
    if same_text(unit, "s") || same_text(unit, "sec") || same_text(unit, "secs") || same_text(
        unit,
        "second",
    ) || same_text(unit, "seconds") {
        Some(1_000)
    } else if same_text(unit, "m") || same_text(unit, "min") || same_text(unit, "mins")
        || same_text(unit, "minute") || same_text(unit, "minutes") {
        Some(60_000)
    } else if same_text(unit, "h") || same_text(unit, "hr") || same_text(unit, "hrs") || same_text(
        unit,
        "hour",
    ) || same_text(unit, "hours") {
        Some(3_600_000)
    } else if same_text(unit, "d") || same_text(unit, "day") || same_text(unit, "days") {
        Some(86_400_000)
    } else if same_text(unit, "w") || same_text(unit, "week") || same_text(unit, "weeks") {
        Some(604_800_000)
    } else {
        None
    }
}

/// The length of the run of digits at the front of a text.
pub open spec fn digit_run(s: Seq<char>) -> nat
    decreases s.len(),
{
    if s.len() > 0 && is_digit(s[0]) {
        1 + digit_run(s.drop_first())
    } else {
        0
    }
}

fn leading_digits(chars: &Vec<char>) -> (count: usize)
    ensures
        count == digit_run(chars@),
        count <= chars@.len(),
{
    let mut count: usize = 0;
    assert(chars@.skip(0) =~= chars@);
    while count < chars.len() && '0' <= chars[count] && chars[count] <= '9'
        invariant
            count <= chars@.len(),
            digit_run(chars@) == count + digit_run(chars@.skip(count as int)),
        decreases chars@.len() - count,
    {
        assert(chars@.skip(count as int).drop_first() =~= chars@.skip(count + 1));
        count = count + 1;
    }
    count
}

/// The amount and the unit of a relative date: two words, or one in which the
/// digits come first.
pub open spec fn amount_and_unit(fields: Seq<Seq<char>>) -> Option<(Seq<char>, Seq<char>)> {
    if fields.len() == 1 {
        let split = digit_run(fields[0]) as int;
        Some((fields[0].take(split), fields[0].skip(split)))
    } else if fields.len() == 2 {
        Some((fields[0], fields[1]))
    } else {
        None
    }
}

/// The number of milliseconds that a relative date goes back, or why it is
/// none. Only a text that ends in " ago" is a relative date.
pub open spec fn relative_span(value: Seq<char>) -> Option<Result<int, DateErrorView>> {
    if !has_suffix(value, " ago"@) {
        None
    } else {
        Some(
            match amount_and_unit(word_texts(value.take(value.len() - 4))) {
                None => Err(DateErrorView::InvalidRelative(value)),
                Some((amount, unit)) => match signed(amount) {
                    Some(count) => if i64::MIN <= count <= i64::MAX {
                        match unit_millis(unit) {
                            Some(length) => Ok(count * length),
                            None => Err(DateErrorView::UnknownUnit(unit)),
                        }
                    } else {
                        Err(DateErrorView::NoAmount(i64_failure(amount)))
                    },
                    None => Err(DateErrorView::NoAmount(i64_failure(amount))),
                },
            },
        )
    }
}

pub open spec fn span_view(span: Option<Result<i128, DateError>>) -> Option<
    Result<int, DateErrorView>,
> {
    match span {
        Some(Ok(span)) => Some(Ok(span as int)),
        Some(Err(error)) => Some(Err(error@)),
        None => None,
    }
}

/// The number of milliseconds that a relative date goes back.
fn read_span(value: &str) -> (span: Option<Result<i128, DateError>>)
    ensures
        span_view(span) == relative_span(value@),
{
    proof {
        reveal_strlit(" ago");
    }
    let raw = match strip_suffix(value, " ago") {
        Some(raw) => raw,
        None => {
            return None;
        },
    };
    let fields = words(raw.as_str());
    let ghost views = texts(fields@);
    let (amount, unit) = if fields.len() == 1 {
        assert(views[0] == fields@[0]@);
        let chars = chars_of(fields[0].as_str());
        let split: usize = leading_digits(&chars);
        let amount = text_between(&chars, 0, split);
        let unit = text_between(&chars, split, chars.len());
        assert(amount@ =~= views[0].take(split as int));
        assert(unit@ =~= views[0].skip(split as int));
        (amount, unit)
    } else if fields.len() == 2 {
        assert(views[0] == fields@[0]@);
        assert(views[1] == fields@[1]@);
        (fields[0].clone(), fields[1].clone())
    } else {
        return Some(Err(DateError::InvalidRelative(value.to_owned())));
    };
    let count: i64 = match parse_i64(amount.as_str()) {
        Some(count) => count,
        None => {
            return Some(Err(DateError::NoAmount(i64_error(amount.as_str()))));
        },
    };
    match unit_length(unit.as_str()) {
        Some(length) => {
            assert(-0x8000_0000_0000_0000 * 604_800_000 <= count * length
                <= 0x8000_0000_0000_0000 * 604_800_000) by (nonlinear_arith)
                requires
                    -0x8000_0000_0000_0000 <= count <= 0x8000_0000_0000_0000,
                    0 < length <= 604_800_000,
            ;
            let span: i128 = count as i128 * length as i128;
            Some(Ok(span))
        },
        None => Some(Err(DateError::UnknownUnit(unit))),
    }
}

// ---------------------------------------------------------------------------
// Dates
// ---------------------------------------------------------------------------

/// What a text stands for: something that is known, or a date and a time of day
/// that the time zone has to settle.
pub enum ReadDate {
    Known(Result<ParsedDate, DateErrorView>),
    Local(LocalTime),
}

/// A time since the Unix epoch, in seconds, or in milliseconds with "ms" behind.
pub open spec fn unix_instant(text: Seq<char>) -> Result<ParsedDate, DateErrorView> {
    if has_suffix(text, "ms"@) {
        let number = text.take(text.len() - 2);
        match unsigned(number) {
            Some(value) => if value <= u64::MAX {
                Ok(ParsedDate::Instant(value as u64))
            } else {
                Err(DateErrorView::InvalidUnixMillis(u64_failure(number)))
            },
            None => Err(DateErrorView::InvalidUnixMillis(u64_failure(number))),
        }
    } else {
        match unsigned(text) {
            Some(value) => if value > u64::MAX {
                Err(DateErrorView::InvalidUnix(u64_failure(text)))
            } else if value * 1_000 > u64::MAX {
                Err(DateErrorView::UnixTooLarge)
            } else {
                Ok(ParsedDate::Instant((value * 1_000) as u64))
            },
            None => Err(DateErrorView::InvalidUnix(u64_failure(text))),
        }
    }
}

/// A date as an instant, where it is one.
pub open spec fn as_instant(millis: int) -> Result<ParsedDate, DateErrorView> {
    match instant(millis) {
        Ok(value) => Ok(ParsedDate::Instant(value)),
        Err(error) => Err(error),
    }
}

/// What a date that stands for itself means: neither a word nor relative.
pub open spec fn absolute_date(value: Seq<char>) -> ReadDate {
    let to_second = date_time_fields(value, "%Y-%m-%d %H:%M:%S"@);
    let to_minute = date_time_fields(value, "%Y-%m-%d %H:%M"@);
    let day = date_day(value, "%Y-%m-%d"@);
    if has_prefix(value, "@"@) {
        ReadDate::Known(unix_instant(value.skip(1)))
    } else if rfc3339_millis(value) is Some {
        ReadDate::Known(as_instant(rfc3339_millis(value)->0 as int))
    } else {
        match (to_second, to_minute, day) {
            (Some((day, second, nano)), _, _) => ReadDate::Local(LocalTime { day, second, nano }),
            (None, Some((day, second, nano)), _) => ReadDate::Local(
                LocalTime { day, second, nano },
            ),
            (None, None, Some(day)) => ReadDate::Known(Ok(ParsedDate::LocalDate(day))),
            (None, None, None) => ReadDate::Known(Err(DateErrorView::Invalid(value))),
        }
    }
}

/// What a date on the command line means.
pub open spec fn read_date_spec(text: Seq<char>, now: Now) -> ReadDate {
    let value = trimmed(text);
    let lower = lowercase(value);
    if lower == "now"@ {
        ReadDate::Known(as_instant(now.millis as int))
    } else if lower == "today"@ {
        ReadDate::Known(Ok(ParsedDate::LocalDate(now.local_day)))
    } else if lower == "yesterday"@ {
        ReadDate::Known(
            if now.local_day > FIRST_DAY {
                Ok(ParsedDate::LocalDate((now.local_day - 1) as i32))
            } else {
                Err(DateErrorView::YesterdayOutOfRange)
            },
        )
    } else {
        match relative_span(lower) {
            Some(Ok(span)) => ReadDate::Known(as_instant(now.millis - span)),
            Some(Err(error)) => ReadDate::Known(Err(error)),
            None => absolute_date(value),
        }
    }
}

/// Whether a relative date stays within the dates that there are.
pub open spec fn span_fits(text: Seq<char>, now: Now) -> bool {
    relative_span(lowercase(trimmed(text))) matches Some(Ok(span)) ==> FIRST_MILLISECOND
        <= now.millis - span <= LAST_MILLISECOND
}

/// Whether a relative date stays within the dates that there are.
pub fn relative_date_fits(text: &str, now: Now) -> (yes: bool)
    requires
        now.valid(),
    ensures
        yes == span_fits(text@, now),
{
    let value = trim(text);
    let lower = lowercased(value.as_str());
    match read_span(lower.as_str()) {
        Some(Ok(span)) => {
            let first: i128 = FIRST_MILLISECOND as i128;
            let last: i128 = LAST_MILLISECOND as i128;
            let current: i128 = now.millis as i128;
            current - last <= span && span <= current - first
        },
        _ => true,
    }
}

/// What a date on the command line means, as far as the text and the current
/// time settle it.
#[derive(Debug, PartialEq, Eq)]
pub enum DateStep {
    Known(Result<ParsedDate, DateError>),
    Local(LocalTime),
}

impl View for DateStep {
    type V = ReadDate;

    open spec fn view(&self) -> ReadDate {
        match self {
            DateStep::Known(Ok(date)) => ReadDate::Known(Ok(*date)),
            DateStep::Known(Err(error)) => ReadDate::Known(Err(error@)),
            DateStep::Local(time) => ReadDate::Local(*time),
        }
    }
}

impl ReadDate {
    /// Whether the day, the time or the error that was read can be.
    pub open spec fn valid(self) -> bool {
        match self {
            ReadDate::Known(Ok(ParsedDate::LocalDate(day))) => FIRST_DAY <= day <= LAST_DAY,
            ReadDate::Known(Err(error)) => error.valid(),
            ReadDate::Local(time) => time.valid(),
            _ => true,
        }
    }
}

fn unix_date(text: &str) -> (result: Result<ParsedDate, DateError>)
    ensures
        date_view(result) == unix_instant(text@),
        result matches Ok(date) ==> date is Instant,
        date_view(result) matches Err(error) ==> error.valid(),
{
    proof {
        reveal_strlit("ms");
    }
    match strip_suffix(text, "ms") {
        Some(number) => match parse_u64(number.as_str()) {
            Some(value) => Ok(ParsedDate::Instant(value)),
            None => Err(DateError::InvalidUnixMillis(u64_error(number.as_str()))),
        },
        None => match parse_u64(text) {
            Some(value) => match value.checked_mul(1_000) {
                Some(millis) => Ok(ParsedDate::Instant(millis)),
                None => Err(DateError::UnixTooLarge),
            },
            None => Err(DateError::InvalidUnix(u64_error(text))),
        },
    }
}

fn known_instant(value: i64) -> (step: DateStep)
    ensures
        step@ == ReadDate::Known(as_instant(value as int)),
        step@.valid(),
{
    match millis(value) {
        Ok(instant) => DateStep::Known(Ok(ParsedDate::Instant(instant))),
        Err(error) => DateStep::Known(Err(error)),
    }
}

fn read_absolute(value: &str) -> (step: DateStep)
    ensures
        step@ == absolute_date(value@),
        step@.valid(),
{
    proof {
        reveal_strlit("@");
    }
    if let Some(unix) = strip_prefix(value, "@") {
        return DateStep::Known(unix_date(unix.as_str()));
    }
    if let Some(instant) = parse_rfc3339(value) {
        return known_instant(instant);
    }
    if let Some(time) = parse_date_time(value, "%Y-%m-%d %H:%M:%S") {
        return DateStep::Local(time);
    }
    if let Some(time) = parse_date_time(value, "%Y-%m-%d %H:%M") {
        return DateStep::Local(time);
    }
    match parse_day(value, "%Y-%m-%d") {
        Some(day) => DateStep::Known(Ok(ParsedDate::LocalDate(day))),
        None => DateStep::Known(Err(DateError::Invalid(value.to_owned()))),
    }
}

proof fn lemma_span_error_valid(value: Seq<char>)
    ensures
        relative_span(value) matches Some(Err(error)) ==> error.valid(),
{
}

/// What a date on the command line means, as far as the text and the current
/// time settle it.
pub fn read_date(text: &str, now: Now) -> (step: DateStep)
    requires
        now.valid(),
        span_fits(text@, now),
    ensures
        step@ == read_date_spec(text@, now),
        step@.valid(),
{
    let value = trim(text);
    let lower = lowercased(value.as_str());
    if same_text(lower.as_str(), "now") {
        return known_instant(now.millis);
    }
    if same_text(lower.as_str(), "today") {
        return DateStep::Known(Ok(ParsedDate::LocalDate(now.local_day)));
    }
    if same_text(lower.as_str(), "yesterday") {
        return DateStep::Known(
            if now.local_day > FIRST_DAY {
                Ok(ParsedDate::LocalDate(now.local_day - 1))
            } else {
                Err(DateError::YesterdayOutOfRange)
            },
        );
    }
    proof {
        lemma_span_error_valid(lower@);
    }
    match read_span(lower.as_str()) {
        Some(Ok(span)) => {
            let target: i128 = now.millis as i128 - span;
            known_instant(target as i64)
        },
        Some(Err(error)) => DateStep::Known(Err(error)),
        None => read_absolute(value.as_str()),
    }
}

/// Whether an outcome is that of a date under some time zone.
pub open spec fn date_outcome(read: ReadDate, outcome: Result<ParsedDate, DateErrorView>) -> bool {
    match read {
        ReadDate::Known(known) => outcome == known,
        ReadDate::Local(time) => match outcome {
            Ok(ParsedDate::Instant(value)) => some_local(time, Ok(value)),
            Ok(ParsedDate::LocalDate(_)) => false,
            Err(error) => some_local(time, Err(error)),
        },
    }
}

pub open spec fn outcome_valid(outcome: Result<ParsedDate, DateErrorView>) -> bool {
    ReadDate::Known(outcome).valid()
}

/// What a date on the command line stands for.
pub fn parse_date(text: &str, now: Now) -> (result: Result<ParsedDate, DateError>)
    requires
        now.valid(),
        span_fits(text@, now),
    ensures
        date_outcome(read_date_spec(text@, now), date_view(result)),
        outcome_valid(date_view(result)),
{
    match read_date(text, now) {
        DateStep::Known(known) => known,
        DateStep::Local(time) => match local_datetime(time) {
            Ok(value) => Ok(ParsedDate::Instant(value)),
            Err(error) => Err(error),
        },
    }
}

/// The day whose first instant bounds a range: as an upper bound a day counts
/// as a whole.
pub open spec fn bound_day(day: i32, until: bool) -> int {
    if until {
        day + 1
    } else {
        day as int
    }
}

/// Whether an outcome is that of a date as a bound, under some time zone.
pub open spec fn bound_outcome(
    date: ParsedDate,
    until: bool,
    outcome: Result<u64, DateErrorView>,
) -> bool {
    match date {
        ParsedDate::Instant(value) => outcome == Ok::<u64, DateErrorView>(value),
        ParsedDate::LocalDate(day) => if bound_day(day, until) > LAST_DAY {
            outcome == Err::<u64, DateErrorView>(DateErrorView::OutOfRange)
        } else {
            some_local(
                LocalTime { day: bound_day(day, until) as i32, second: 0, nano: 0 },
                outcome,
            )
        },
    }
}

/// The instant that a date stands for as the bound of a range.
pub fn date_bound(date: ParsedDate, until: bool) -> (result: Result<u64, DateError>)
    requires
        date matches ParsedDate::LocalDate(day) ==> FIRST_DAY <= day <= LAST_DAY,
    ensures
        bound_outcome(date, until, instant_view(result)),
        instant_view(result) matches Err(error) ==> error.valid(),
{
    match date {
        ParsedDate::Instant(value) => Ok(value),
        ParsedDate::LocalDate(day) => {
            if until && day == LAST_DAY {
                return Err(DateError::OutOfRange);
            }
            let bound: i32 = if until {
                day + 1
            } else {
                day
            };
            local_datetime(LocalTime { day: bound, second: 0, nano: 0 })
        },
    }
}

/// Whether an outcome is that of a text as a bound, under some time zone.
pub open spec fn text_outcome(
    text: Seq<char>,
    now: Now,
    until: bool,
    outcome: Result<u64, DateErrorView>,
) -> bool {
    exists|date: Result<ParsedDate, DateErrorView>| #[trigger]
        date_outcome(read_date_spec(text, now), date) && (match date {
            Ok(date) => bound_outcome(date, until, outcome),
            Err(error) => outcome == Err::<u64, DateErrorView>(error),
        })
}

fn text_bound(text: &str, now: Now, until: bool) -> (result: Result<u64, DateError>)
    requires
        now.valid(),
        span_fits(text@, now),
    ensures
        text_outcome(text@, now, until, instant_view(result)),
        instant_view(result) matches Err(error) ==> error.valid(),
{
    let parsed = parse_date(text, now);
    let ghost date = date_view(parsed);
    match parsed {
        Ok(date) => date_bound(date, until),
        Err(error) => Err(error),
    }
}

/// The range between two bounds, either of which may be missing.
pub open spec fn range_of(
    since: Option<Result<u64, DateErrorView>>,
    until: Option<Result<u64, DateErrorView>>,
) -> Result<TimeRange, DateErrorView> {
    match (since, until) {
        (Some(Err(error)), _) => Err(error),
        (_, Some(Err(error))) => Err(error),
        (Some(Ok(start)), Some(Ok(end))) => if start >= end {
            Err(DateErrorView::Reversed)
        } else {
            Ok(TimeRange { since: Some(start), until: Some(end) })
        },
        (Some(Ok(start)), None) => Ok(TimeRange { since: Some(start), until: None }),
        (None, Some(Ok(end))) => Ok(TimeRange { since: None, until: Some(end) }),
        (None, None) => Ok(TimeRange { since: None, until: None }),
    }
}

pub open spec fn bound_view(bound: Option<Result<u64, DateError>>) -> Option<
    Result<u64, DateErrorView>,
> {
    match bound {
        Some(bound) => Some(instant_view(bound)),
        None => None,
    }
}

pub open spec fn range_view(result: Result<TimeRange, DateError>) -> Result<
    TimeRange,
    DateErrorView,
> {
    match result {
        Ok(range) => Ok(range),
        Err(error) => Err(error@),
    }
}

/// The range between two bounds, either of which may be missing.
pub fn time_range(
    since: Option<Result<u64, DateError>>,
    until: Option<Result<u64, DateError>>,
) -> (result: Result<TimeRange, DateError>)
    ensures
        range_view(result) == range_of(bound_view(since), bound_view(until)),
{
    let since = match since {
        Some(Ok(start)) => Some(start),
        Some(Err(error)) => {
            return Err(error);
        },
        None => None,
    };
    let until = match until {
        Some(Ok(end)) => Some(end),
        Some(Err(error)) => {
            return Err(error);
        },
        None => None,
    };
    if let (Some(start), Some(end)) = (since, until) {
        if start >= end {
            return Err(DateError::Reversed);
        }
    }
    Ok(TimeRange { since, until })
}

/// Whether an outcome is that of a text as a bound, or of no bound.
pub open spec fn bound_possible(
    text: Option<&str>,
    now: Now,
    until: bool,
    outcome: Option<Result<u64, DateErrorView>>,
) -> bool {
    match (text, outcome) {
        (Some(text), Some(outcome)) => text_outcome(text@, now, until, outcome),
        (None, None) => true,
        _ => false,
    }
}

fn bound(text: Option<&str>, now: Now, until: bool) -> (result: Option<Result<u64, DateError>>)
    requires
        now.valid(),
        text is Some ==> span_fits(text->0@, now),
    ensures
        bound_possible(text, now, until, bound_view(result)),
        bound_view(result) matches Some(Err(error)) ==> error.valid(),
{
    match text {
        Some(text) => Some(text_bound(text, now, until)),
        None => None,
    }
}

/// Whether the lower bound of a range can be had in some time zone, or is missing.
pub open spec fn may_start(since: Option<&str>, now: Now) -> bool {
    exists|start: Option<Result<u64, DateErrorView>>| #[trigger]
        bound_possible(since, now, false, start) && !(start matches Some(Err(_)))
}

/// Whether a bound stays within the dates that there are.
pub open spec fn bound_fits(text: Option<&str>, now: Now) -> bool {
    text is Some ==> span_fits(text->0@, now)
}

/// Whether an outcome is that of a range with this lower bound, under some time
/// zone. A lower bound in error is reported before the upper one is read.
pub open spec fn range_from_start(
    start: Option<Result<u64, DateErrorView>>,
    until: Option<&str>,
    now: Now,
    outcome: Result<TimeRange, DateErrorView>,
) -> bool {
    match start {
        Some(Err(error)) => outcome == Err::<TimeRange, DateErrorView>(error),
        _ => exists|end: Option<Result<u64, DateErrorView>>|
            bound_possible(until, now, true, end) && outcome == #[trigger] range_of(start, end),
    }
}

/// Whether an outcome is that of a range, under some time zone.
pub open spec fn range_possible(
    since: Option<&str>,
    until: Option<&str>,
    now: Now,
    outcome: Result<TimeRange, DateErrorView>,
) -> bool {
    exists|start: Option<Result<u64, DateErrorView>>|
        bound_possible(since, now, false, start) && #[trigger] range_from_start(
            start,
            until,
            now,
            outcome,
        )
}

/// The range of time between two dates on the command line. The lower bound is
/// read first, and the upper one only where the lower one is no error.
pub fn parse_time_range(since: Option<&str>, until: Option<&str>, now: Now) -> (result: Result<
    TimeRange,
    DateError,
>)
    requires
        now.valid(),
        bound_fits(since, now),
        may_start(since, now) ==> bound_fits(until, now),
    ensures
        range_possible(since, until, now, range_view(result)),
        range_view(result) matches Err(error) ==> error.valid(),
{
    let start = bound(since, now, false);
    let ghost start_view = bound_view(start);
    if let Some(Err(error)) = start {
        assert(range_from_start(start_view, until, now, Err(error@)));
        return Err(error);
    }
    assert(may_start(since, now));
    let end = bound(until, now, true);
    let ghost end_view = bound_view(end);
    let result = time_range(start, end);
    assert(range_view(result) == range_of(start_view, end_view));
    assert(range_from_start(start_view, until, now, range_view(result)));
    result
}

/// Whether an outcome is that of a range, under some time zone, where none stands
/// for a relative date that is read and leads out of the dates that there are.
pub open spec fn checked_range_possible(
    since: Option<&str>,
    until: Option<&str>,
    now: Now,
    outcome: Option<Result<TimeRange, DateErrorView>>,
) -> bool {
    match outcome {
        Some(outcome) => {
            &&& bound_fits(since, now)
            &&& range_possible(since, until, now, outcome)
            &&& !bound_fits(until, now) ==> {
                &&& outcome is Err
                &&& bound_possible(since, now, false, Some(Err(outcome->Err_0)))
            }
        },
        None => !bound_fits(since, now) || (!bound_fits(until, now) && may_start(since, now)),
    }
}

/// The range of time between two dates on the command line; none where a
/// relative date leads out of the dates that there are. A lower bound in error is
/// reported whatever the upper one is.
pub fn checked_time_range(since: Option<&str>, until: Option<&str>, now: Now) -> (result: Option<
    Result<TimeRange, DateError>,
>)
    requires
        now.valid(),
    ensures
        checked_range_possible(
            since,
            until,
            now,
            match result {
                Some(result) => Some(range_view(result)),
                None => None,
            },
        ),
        bound_fits(since, now) && (may_start(since, now) ==> bound_fits(until, now))
            ==> result is Some,
        !bound_fits(since, now) ==> result is None,
        result matches Some(Err(error)) ==> error@.valid(),
{
    if let Some(text) = since {
        if !relative_date_fits(text, now) {
            return None;
        }
    }
    let fits = match until {
        Some(text) => relative_date_fits(text, now),
        None => true,
    };
    if fits {
        return Some(parse_time_range(since, until, now));
    }
    match bound(since, now, false) {
        Some(Err(error)) => {
            assert(range_from_start(Some(Err(error@)), until, now, Err(error@)));
            Some(Err(error))
        },
        start => {
            assert(bound_possible(since, now, false, bound_view(start)));
            None
        },
    }
}

/// A range of time never ends before it starts, nor as soon as it starts.
pub proof fn ranges_run_forward(
    since: Option<Result<u64, DateErrorView>>,
    until: Option<Result<u64, DateErrorView>>,
)
    ensures
        range_of(since, until) matches Ok(range) ==> (range.since is Some && range.until is Some
            ==> range.since->0 < range.until->0),
{
}

/// The word for now and a relative date are exactly as far apart as the
/// relative date says.
pub proof fn relative_dates_count_back(text: Seq<char>, now: Now, span: int)
    requires
        relative_span(lowercase(trimmed(text))) == Some(Ok::<int, DateErrorView>(span)),
        lowercase(trimmed(text)) != "now"@,
        lowercase(trimmed(text)) != "today"@,
        lowercase(trimmed(text)) != "yesterday"@,
        0 <= now.millis - span <= u64::MAX,
    ensures
        read_date_spec(text, now) == ReadDate::Known(
            Ok(ParsedDate::Instant((now.millis - span) as u64)),
        ),
{
}

/// A day as both bounds of a range stands for the whole day: the range is as
/// long as a day, and longer or shorter only by as much as the time zone moves.
pub proof fn day_as_range_is_whole(day: i32, start: u64, end: u64)
    requires
        FIRST_DAY <= day < LAST_DAY,
        bound_outcome(ParsedDate::LocalDate(day), false, Ok(start)),
        bound_outcome(ParsedDate::LocalDate(day), true, Ok(end)),
    ensures
        exists|before: int, after: int|
            #![trigger is_offset(before), is_offset(after)]
            is_offset(before) && is_offset(after) && start == (day * 86_400 - before) * 1_000 && end
                - start == 86_400_000 + (before - after) * 1_000,
{
    let first = LocalTime { day, second: 0, nano: 0 };
    let next = LocalTime { day: (day + 1) as i32, second: 0, nano: 0 };
    let opening = choose|resolution: Resolution|
        resolves(first, resolution) && Ok::<u64, DateErrorView>(start) == #[trigger] resolved(
            first,
            resolution,
        );
    let closing = choose|resolution: Resolution|
        resolves(next, resolution) && Ok::<u64, DateErrorView>(end) == #[trigger] resolved(
            next,
            resolution,
        );
    let before = choose|offset: int|
        is_offset(offset) && opening->Single_0 == #[trigger] local_millis(first, offset);
    let after = choose|offset: int|
        is_offset(offset) && closing->Single_0 == #[trigger] local_millis(next, offset);
    assert(is_offset(before) && is_offset(after));
}

// ---------------------------------------------------------------------------
// Showing times
// ---------------------------------------------------------------------------

/// A time in the format of RFC 3339, in a time zone that is some seconds ahead of
/// UTC; the number itself where there is no such date.
pub open spec fn timestamp_text(time: u64, offset: i32) -> Seq<char> {
    if time <= LAST_MILLISECOND && time + offset * 1_000 <= LAST_MILLISECOND {
        rfc3339_text(time as i64, offset)
    } else {
        decimal(time as nat)
    }
}

/// Whether a text is how a time is shown in some time zone.
pub open spec fn shows_time(time: u64, text: Seq<char>) -> bool {
    exists|offset: i32| is_offset(offset as int) && text == #[trigger] timestamp_text(time, offset)
}

/// A time in the format of RFC 3339, in a time zone that is some seconds ahead of
/// UTC.
pub fn timestamp_at(time: u64, offset: i32) -> (text: String)
    requires
        is_offset(offset as int),
    ensures
        text@ == timestamp_text(time, offset),
{
    if time <= LAST_MILLISECOND as u64 {
        if time as i64 + offset as i64 * 1_000 <= LAST_MILLISECOND {
            return show_rfc3339(time as i64, offset);
        }
    }
    decimal_text(time)
}

/// The seconds by which the time zone of the machine is ahead of UTC at some
/// time; none exactly for a time that is no date.
fn offset_at(time: u64) -> (offset: Option<i32>)
    ensures
        offset is Some <==> time <= LAST_MILLISECOND,
        offset is Some ==> is_offset(offset->0 as int),
{
    if time <= LAST_MILLISECOND as u64 {
        local_offset(time as i64)
    } else {
        None
    }
}

/// A time in the format of RFC 3339, in the time zone of the machine.
pub fn timestamp(time: u64) -> (text: String)
    ensures
        shows_time(time, text@),
{
    match offset_at(time) {
        Some(offset) => timestamp_at(time, offset),
        None => {
            assert(timestamp_text(time, 0) == decimal(time as nat));
            decimal_text(time)
        },
    }
}

/// A time with its day and month, in a time zone that is some seconds ahead of
/// UTC; the number itself where there is no such date.
pub open spec fn short_time_text(time: u64, offset: i32) -> Seq<char> {
    if time <= LAST_MILLISECOND {
        time_text(time as i64, offset, SHORT_TIME@)
    } else {
        decimal(time as nat)
    }
}

/// Whether a text is how a time is shown for short in some time zone.
pub open spec fn shows_short_time(time: u64, text: Seq<char>) -> bool {
    exists|offset: i32| is_offset(offset as int) && text == #[trigger] short_time_text(time, offset)
}

/// A time with its day and month, in a time zone that is some seconds ahead of
/// UTC.
pub fn short_timestamp_at(time: u64, offset: i32) -> (text: String)
    requires
        is_offset(offset as int),
    ensures
        text@ == short_time_text(time, offset),
{
    if time <= LAST_MILLISECOND as u64 {
        show_time(time as i64, offset, SHORT_TIME)
    } else {
        decimal_text(time)
    }
}

/// A time with its day and month, in the time zone of the machine.
pub fn short_timestamp(time: u64) -> (text: String)
    ensures
        shows_short_time(time, text@),
{
    match offset_at(time) {
        Some(offset) => short_timestamp_at(time, offset),
        None => {
            assert(short_time_text(time, 0) == decimal(time as nat));
            decimal_text(time)
        },
    }
}

/// The time of day of a time, in a time zone that is some seconds ahead of UTC;
/// nothing where there is no such date.
pub open spec fn clock_text(time: u64, offset: int) -> Seq<char> {
    if FIRST_MILLISECOND <= signed_time(time) <= LAST_MILLISECOND {
        hour_and_minute(signed_time(time), offset)
    } else {
        Seq::empty()
    }
}

/// Whether a text is the time of day of a time in some time zone.
pub open spec fn shows_clock_time(time: u64, text: Seq<char>) -> bool {
    exists|offset: int| is_offset(offset) && text == #[trigger] clock_text(time, offset)
}

/// The time of day of a time, in a time zone that is some seconds ahead of UTC.
pub fn clock_time_at(time: u64, offset: i32) -> (text: String)
    requires
        is_offset(offset as int),
    ensures
        text@ == clock_text(time, offset as int),
{
    let millis: i64 = with_sign(time);
    if FIRST_MILLISECOND <= millis && millis <= LAST_MILLISECOND {
        show_time(millis, offset, TIME_OF_DAY)
    } else {
        String::new()
    }
}

/// The time of day of a time, in the time zone of the machine.
pub fn clock_time(time: u64) -> (text: String)
    ensures
        shows_clock_time(time, text@),
{
    let offset: i32 = match local_offset(with_sign(time)) {
        Some(offset) => offset,
        None => 0,
    };
    clock_time_at(time, offset)
}

/// A range has exactly the bounds that were given, each whatever the other is:
/// it starts where it should, and is open at the front where no start was given;
/// it ends where it should, and is open at the back where no end was given.
pub proof fn range_has_the_given_bounds(
    since: Option<Result<u64, DateErrorView>>,
    until: Option<Result<u64, DateErrorView>>,
    range: TimeRange,
)
    requires
        range_of(since, until) == Ok::<TimeRange, DateErrorView>(range),
    ensures
        range.since is None <==> since is None,
        range.until is None <==> until is None,
        since matches Some(start) ==> start == Ok::<u64, DateErrorView>(range.since->0),
        until matches Some(end) ==> end == Ok::<u64, DateErrorView>(range.until->0),
{
}

/// There is no range exactly where a bound could not be read, or where the end is
/// not after the start. A start that could not be read is what is told first,
/// and then an end that could not be read.
pub proof fn range_is_refused_for_a_reason(
    since: Option<Result<u64, DateErrorView>>,
    until: Option<Result<u64, DateErrorView>>,
)
    ensures
        range_of(since, until) is Err <==> {
            ||| since matches Some(Err(_))
            ||| until matches Some(Err(_))
            ||| since matches Some(Ok(start)) && until matches Some(Ok(end)) && end <= start
        },
        since matches Some(Err(error)) ==> range_of(since, until) == Err::<
            TimeRange,
            DateErrorView,
        >(error),
        !(since matches Some(Err(_))) ==> (until matches Some(Err(error)) ==> range_of(since, until)
            == Err::<TimeRange, DateErrorView>(error)),
        since matches Some(Ok(start)) && until matches Some(Ok(end)) && end <= start ==> range_of(
            since,
            until,
        ) == Err::<TimeRange, DateErrorView>(DateErrorView::Reversed),
{
}

/// The words for days: now is the current time, today is the current day, and
/// yesterday the one before it. They are read in any case, and with white space
/// round them.
pub proof fn words_stand_for_days(text: Seq<char>, now: Now)
    requires
        now.valid(),
    ensures
        lowercase(trimmed(text)) == "now"@ && now.millis >= 0 ==> read_date_spec(text, now)
            == ReadDate::Known(Ok(ParsedDate::Instant(now.millis as u64))),
        lowercase(trimmed(text)) == "now"@ && now.millis < 0 ==> read_date_spec(text, now)
            == ReadDate::Known(Err(DateErrorView::BeforeEpoch)),
        lowercase(trimmed(text)) == "today"@ ==> read_date_spec(text, now) == ReadDate::Known(
            Ok(ParsedDate::LocalDate(now.local_day)),
        ),
        lowercase(trimmed(text)) == "yesterday"@ && now.local_day > FIRST_DAY ==> read_date_spec(
            text,
            now,
        ) == ReadDate::Known(Ok(ParsedDate::LocalDate((now.local_day - 1) as i32))),
{
    reveal_strlit("now");
    reveal_strlit("today");
    reveal_strlit("yesterday");
    assert("now"@.len() == 3);
    assert("today"@.len() == 5);
    assert("yesterday"@.len() == 9);
}

/// A second is a thousand milliseconds, a minute sixty seconds, an hour sixty
/// minutes, a day twenty-four hours and a week seven days, by any of their names.
pub proof fn units_have_their_lengths(unit: Seq<char>)
    ensures
        unit == "s"@ || unit == "sec"@ || unit == "secs"@ || unit == "second"@ || unit
            == "seconds"@ ==> unit_millis(unit) == Some(1_000int),
        unit == "m"@ || unit == "min"@ || unit == "mins"@ || unit == "minute"@ || unit
            == "minutes"@ ==> unit_millis(unit) == Some(60 * 1_000int),
        unit == "h"@ || unit == "hr"@ || unit == "hrs"@ || unit == "hour"@ || unit == "hours"@
            ==> unit_millis(unit) == Some(60 * 60 * 1_000int),
        unit == "d"@ || unit == "day"@ || unit == "days"@ ==> unit_millis(unit) == Some(
            24 * 60 * 60 * 1_000int,
        ),
        unit == "w"@ || unit == "week"@ || unit == "weeks"@ ==> unit_millis(unit) == Some(
            7 * 24 * 60 * 60 * 1_000int,
        ),
        unit_millis(unit) is Some ==> unit.len() <= 7 && unit.len() > 0,
{
    reveal_strlit("s");
    reveal_strlit("sec");
    reveal_strlit("secs");
    reveal_strlit("second");
    reveal_strlit("seconds");
    reveal_strlit("m");
    reveal_strlit("min");
    reveal_strlit("mins");
    reveal_strlit("minute");
    reveal_strlit("minutes");
    reveal_strlit("h");
    reveal_strlit("hr");
    reveal_strlit("hrs");
    reveal_strlit("hour");
    reveal_strlit("hours");
    reveal_strlit("d");
    reveal_strlit("day");
    reveal_strlit("days");
    reveal_strlit("w");
    reveal_strlit("week");
    reveal_strlit("weeks");
    assert("s"@[0] == 's' && "sec"@[0] == 's' && "secs"@[0] == 's' && "second"@[0] == 's'
        && "seconds"@[0] == 's');
    assert("m"@[0] == 'm' && "min"@[0] == 'm' && "mins"@[0] == 'm' && "minute"@[0] == 'm'
        && "minutes"@[0] == 'm');
    assert("h"@[0] == 'h' && "hr"@[0] == 'h' && "hrs"@[0] == 'h' && "hour"@[0] == 'h'
        && "hours"@[0] == 'h');
    assert("d"@[0] == 'd' && "day"@[0] == 'd' && "days"@[0] == 'd');
    assert("w"@[0] == 'w' && "week"@[0] == 'w' && "weeks"@[0] == 'w');
}

/// A relative date is an amount and a unit, together or apart, before the word
/// for the past; it goes back by as many units.
pub proof fn relative_dates_are_amounts_of_units(
    value: Seq<char>,
    amount: Seq<char>,
    unit: Seq<char>,
    count: int,
    length: int,
)
    requires
        has_suffix(value, " ago"@),
        ({
            let fields = word_texts(value.take(value.len() - 4));
            ||| fields == seq![amount, unit]
            ||| fields == seq![amount + unit] && crate::number::all_digits(amount) && (unit.len() > 0
                ==> !is_digit(unit[0]))
        }),
        signed(amount) == Some(count),
        i64::MIN <= count <= i64::MAX,
        unit_millis(unit) == Some(length),
    ensures
        relative_span(value) == Some(Ok::<int, DateErrorView>(count * length)),
{
    let fields = word_texts(value.take(value.len() - 4));
    if fields.len() == 1 {
        lemma_digit_run(amount, unit);
        assert((amount + unit).take(amount.len() as int) =~= amount);
        assert((amount + unit).skip(amount.len() as int) =~= unit);
    }
}

proof fn lemma_digit_run(amount: Seq<char>, unit: Seq<char>)
    requires
        crate::number::all_digits(amount),
        unit.len() > 0 ==> !is_digit(unit[0]),
    ensures
        digit_run(amount + unit) == amount.len(),
    decreases amount.len(),
{
    if amount.len() == 0 {
        assert(amount + unit =~= unit);
    } else {
        assert(is_digit(amount[0]));
        assert((amount + unit).drop_first() =~= amount.drop_first() + unit);
        lemma_digit_run(amount.drop_first(), unit);
    }
}

/// Only what ends in the word for the past is a relative date; one with more
/// than two words before it is refused, and so is one whose unit is not known.
pub proof fn relative_dates_are_refused(value: Seq<char>)
    ensures
        relative_span(value) is Some <==> has_suffix(value, " ago"@),
        has_suffix(value, " ago"@) && word_texts(value.take(value.len() - 4)).len() > 2
            ==> relative_span(value) == Some(
            Err::<int, DateErrorView>(DateErrorView::InvalidRelative(value)),
        ),
        has_suffix(value, " ago"@) && word_texts(value.take(value.len() - 4)).len() == 0
            ==> relative_span(value) == Some(
            Err::<int, DateErrorView>(DateErrorView::InvalidRelative(value)),
        ),
        has_suffix(value, " ago"@) && word_texts(value.take(value.len() - 4)).len() == 2 && signed(
            word_texts(value.take(value.len() - 4))[0],
        ) is None ==> relative_span(value) == Some(
            Err::<int, DateErrorView>(
                DateErrorView::NoAmount(i64_failure(word_texts(value.take(value.len() - 4))[0])),
            ),
        ),
{
}

/// A number of seconds since the epoch is that time, and a number of
/// milliseconds too; as many seconds are a thousand times as many milliseconds.
pub proof fn unix_times_are_counted_from_the_epoch(seconds: u64, millis: u64)
    requires
        seconds * 1_000 <= u64::MAX,
    ensures
        unix_instant(decimal(seconds as nat)) == Ok::<ParsedDate, DateErrorView>(
            ParsedDate::Instant((seconds * 1_000) as u64),
        ),
        unix_instant(decimal(millis as nat) + "ms"@) == Ok::<ParsedDate, DateErrorView>(
            ParsedDate::Instant(millis),
        ),
{
    reveal_strlit("ms");
    let digits = decimal(seconds as nat);
    crate::number::unsigned_reads_decimal(seconds as nat);
    crate::number::unsigned_reads_decimal(millis as nat);
    crate::number::lemma_decimal_value(seconds as nat);
    assert(is_digit(digits.last()));
    if has_suffix(digits, "ms"@) {
        let tail = digits.subrange(digits.len() - 2, digits.len() as int);
        assert(tail[1] == digits.last());
        assert("ms"@[1] == 's');
    }
    let text = decimal(millis as nat) + "ms"@;
    assert(text.subrange(text.len() - 2, text.len() as int) =~= "ms"@);
    assert(text.take(text.len() - 2) =~= decimal(millis as nat));
}

/// A date that is no word and not relative is tried as a time since the epoch, a
/// time with its offset, a local time to the second, one to the minute, and a
/// day; what is none of these is refused.
pub proof fn dates_are_tried_in_order(value: Seq<char>)
    ensures
        ({
            let to_second = date_time_fields(value, "%Y-%m-%d %H:%M:%S"@);
            let to_minute = date_time_fields(value, "%Y-%m-%d %H:%M"@);
            let day = date_day(value, "%Y-%m-%d"@);
            let marked = value.len() > 0 && value[0] == '@';
            let exact = rfc3339_millis(value);
            &&& marked ==> absolute_date(value) == ReadDate::Known(unix_instant(value.skip(1)))
            &&& !marked && exact is Some && exact->0 >= 0 ==> absolute_date(value)
                == ReadDate::Known(Ok(ParsedDate::Instant(exact->0 as u64)))
            &&& !marked && exact is Some && exact->0 < 0 ==> absolute_date(value)
                == ReadDate::Known(Err(DateErrorView::BeforeEpoch))
            &&& !marked && exact is None ==> (to_second matches Some((day, second, nano))
                ==> absolute_date(value) == ReadDate::Local(LocalTime { day, second, nano }))
            &&& !marked && exact is None && to_second is None ==> (to_minute matches Some(
                (day, second, nano),
            ) ==> absolute_date(value) == ReadDate::Local(LocalTime { day, second, nano }))
            &&& !marked && exact is None && to_second is None && to_minute is None && day is Some
                ==> absolute_date(value) == ReadDate::Known(Ok(ParsedDate::LocalDate(day->0)))
            &&& !marked && exact is None && to_second is None && to_minute is None && day is None
                ==> absolute_date(value) == ReadDate::Known(Err(DateErrorView::Invalid(value)))
        }),
{
    reveal_strlit("@");
    if value.len() > 0 {
        assert(value.subrange(0, 1)[0] == value[0]);
        if value[0] == '@' {
            assert(value.subrange(0, 1) =~= "@"@);
        }
    }
}

/// A time is its own bound. A day begins as a lower bound with its own midnight,
/// and as an upper bound ends with the midnight after it; whatever the time zone
/// is, that is off from midnight in Greenwich by less than a day.
pub proof fn bounds_are_midnights(day: i32, value: u64, until: bool, outcome: u64)
    requires
        bound_outcome(ParsedDate::LocalDate(day), until, Ok(outcome)),
    ensures
        bound_outcome(ParsedDate::Instant(value), until, Ok(value)),
        forall|other: Result<u64, DateErrorView>| #[trigger]
            bound_outcome(ParsedDate::Instant(value), until, other) ==> other == Ok::<
                u64,
                DateErrorView,
            >(value),
        until ==> (day + 1) * 86_400_000 - 86_400_000 < outcome < (day + 1) * 86_400_000
            + 86_400_000,
        !until ==> day * 86_400_000 - 86_400_000 < outcome < day * 86_400_000 + 86_400_000,
{
    let time = LocalTime { day: bound_day(day, until) as i32, second: 0, nano: 0 };
    let resolution = choose|resolution: Resolution|
        resolves(time, resolution) && Ok::<u64, DateErrorView>(outcome) == #[trigger] resolved(
            time,
            resolution,
        );
    let offset = choose|offset: int|
        is_offset(offset) && resolution->Single_0 == #[trigger] local_millis(time, offset);
    assert(outcome == local_millis(time, offset));
}

/// A clock shows the hour and the minute of the day, with two digits each and a
/// colon between: the minute that the time lies in.
pub proof fn clocks_show_hour_and_minute(millis: int, offset: int)
    ensures
        ({
            let text = hour_and_minute(millis, offset);
            let second = (millis / 1_000 + offset) % 86_400;
            let hour = 10 * (text[0] as int - '0' as int) + (text[1] as int - '0' as int);
            let minute = 10 * (text[3] as int - '0' as int) + (text[4] as int - '0' as int);
            &&& text.len() == 5
            &&& text[2] == ':'
            &&& 0 <= hour < 24
            &&& 0 <= minute < 60
            &&& hour * 3_600 + minute * 60 <= second < hour * 3_600 + minute * 60 + 60
        }),
{
}

/// A time that the calendar can hold is shown by it, as that very time, in some
/// time zone; any other is shown as its number of milliseconds.
pub proof fn times_are_shown_as_they_are(time: u64, text: Seq<char>)
    ensures
        shows_time(time, text) && time <= LAST_MILLISECOND - 86_400_000 ==> exists|offset: i32|
            is_offset(offset as int) && text == #[trigger] rfc3339_text(time as i64, offset),
        shows_time(time, text) && time > LAST_MILLISECOND ==> text == decimal(time as nat),
        shows_short_time(time, text) && time <= LAST_MILLISECOND ==> exists|offset: i32|
            is_offset(offset as int) && text == #[trigger] time_text(
                time as i64,
                offset,
                "%d %b %H:%M"@,
            ),
        shows_short_time(time, text) && time > LAST_MILLISECOND ==> text == decimal(time as nat),
        shows_clock_time(time, text) && time <= LAST_MILLISECOND ==> exists|offset: int|
            is_offset(offset) && text == #[trigger] hour_and_minute(time as int, offset),
{
    if shows_time(time, text) {
        let offset = choose|offset: i32|
            is_offset(offset as int) && text == #[trigger] timestamp_text(time, offset);
        assert(time <= LAST_MILLISECOND - 86_400_000 ==> text == rfc3339_text(time as i64, offset));
    }
    if shows_short_time(time, text) {
        let offset = choose|offset: i32|
            is_offset(offset as int) && text == #[trigger] short_time_text(time, offset);
        assert(time <= LAST_MILLISECOND ==> text == time_text(
            time as i64,
            offset,
            "%d %b %H:%M"@,
        ));
    }
    if shows_clock_time(time, text) {
        let offset = choose|offset: int|
            is_offset(offset) && text == #[trigger] clock_text(time, offset);
        assert(time <= LAST_MILLISECOND ==> text == hour_and_minute(time as int, offset));
    }
}

/// A local time that occurs once is the time that it is in its zone; one that
/// occurs twice or not at all is refused, and the error names it.
pub proof fn doubtful_times_are_refused(time: LocalTime, value: i64)
    ensures
        value >= 0 ==> resolved(time, Resolution::Single(value)) == Ok::<u64, DateErrorView>(
            value as u64,
        ),
        value < 0 ==> resolved(time, Resolution::Single(value)) == Err::<u64, DateErrorView>(
            DateErrorView::BeforeEpoch,
        ),
        resolved(time, Resolution::Ambiguous) == Err::<u64, DateErrorView>(
            DateErrorView::Ambiguous(time),
        ),
        resolved(time, Resolution::Missing) == Err::<u64, DateErrorView>(
            DateErrorView::Missing(time),
        ),
{
}

/// What a date that is refused is reported as.
pub proof fn refused_dates_are_worded(time: LocalTime, text: Seq<char>)
    ensures
        DateErrorView::BeforeEpoch.message()
            == "date is before the Unix epoch: out of range integral type conversion attempted"@,
        DateErrorView::Ambiguous(time).message() == "local date/time "@ + date_time_text(
            time.day,
            time.second,
            time.nano,
        ) + " is ambiguous; use RFC 3339 with an explicit offset"@,
        DateErrorView::Missing(time).message() == "local date/time "@ + date_time_text(
            time.day,
            time.second,
            time.nano,
        ) + " does not exist; use RFC 3339 with an explicit offset"@,
        DateErrorView::InvalidRelative(text).message() == "invalid relative date "@ + debug_text(
            text,
        ),
        DateErrorView::NoAmount(text).message() == "relative date needs a numeric amount: "@ + text,
        DateErrorView::UnknownUnit(text).message() == "unsupported relative-date unit "@
            + debug_text(text),
        DateErrorView::YesterdayOutOfRange.message()
            == "yesterday is outside the supported date range"@,
        DateErrorView::InvalidUnixMillis(text).message() == "invalid Unix-millisecond timestamp: "@
            + text,
        DateErrorView::InvalidUnix(text).message() == "invalid Unix timestamp: "@ + text,
        DateErrorView::UnixTooLarge.message() == "Unix timestamp is too large"@,
        DateErrorView::Invalid(text).message() == "invalid date "@ + debug_text(text)
            + "; try 'yesterday', '2 hours ago', '2026-08-08 14:30', RFC 3339, or @<unix-seconds>"@,
        DateErrorView::OutOfRange.message() == "date is outside the supported range"@,
        DateErrorView::Reversed.message() == "--since must be earlier than --until"@,
{
}

/// A range that is read has a start exactly where a text was given for it, and an
/// end likewise. Where the text stands for a time, the bound is that time; where
/// it stands for a day, the range begins with the midnight before it, and ends
/// with the midnight after it, in whatever time zone.
pub proof fn ranges_are_read_from_texts(
    since: Option<&str>,
    until: Option<&str>,
    now: Now,
    range: TimeRange,
)
    requires
        range_possible(since, until, now, Ok(range)),
    ensures
        since is None <==> range.since is None,
        until is None <==> range.until is None,
        since matches Some(text) ==> {
            &&& read_date_spec(text@, now) matches ReadDate::Known(Ok(ParsedDate::Instant(start)))
                ==> range.since == Some(start)
            &&& read_date_spec(text@, now) matches ReadDate::Known(Ok(ParsedDate::LocalDate(day)))
                ==> (day - 1) * 86_400_000 < range.since->0 < (day + 1) * 86_400_000
        },
        until matches Some(text) ==> {
            &&& read_date_spec(text@, now) matches ReadDate::Known(Ok(ParsedDate::Instant(end)))
                ==> range.until == Some(end)
            &&& read_date_spec(text@, now) matches ReadDate::Known(Ok(ParsedDate::LocalDate(day)))
                ==> day * 86_400_000 < range.until->0 < (day + 2) * 86_400_000
        },
{
    let outcome = Ok::<TimeRange, DateErrorView>(range);
    let start = choose|start: Option<Result<u64, DateErrorView>>|
        bound_possible(since, now, false, start) && #[trigger] range_from_start(
            start,
            until,
            now,
            outcome,
        );
    let end = choose|end: Option<Result<u64, DateErrorView>>|
        bound_possible(until, now, true, end) && outcome == #[trigger] range_of(start, end);
    range_has_the_given_bounds(start, end, range);
    if let Some(text) = since {
        lemma_bound_is_read(text@, now, false, range.since->0);
    }
    if let Some(text) = until {
        lemma_bound_is_read(text@, now, true, range.until->0);
    }
}

proof fn lemma_bound_is_read(text: Seq<char>, now: Now, until: bool, value: u64)
    requires
        text_outcome(text, now, until, Ok(value)),
    ensures
        read_date_spec(text, now) matches ReadDate::Known(Ok(ParsedDate::Instant(known))) ==> value
            == known,
        read_date_spec(text, now) matches ReadDate::Known(Ok(ParsedDate::LocalDate(day))) ==> {
            let midnight = if until {
                (day + 1) * 86_400_000
            } else {
                day * 86_400_000
            };
            midnight - 86_400_000 < value < midnight + 86_400_000
        },
{
    let date = choose|date: Result<ParsedDate, DateErrorView>| #[trigger]
        date_outcome(read_date_spec(text, now), date) && (match date {
            Ok(date) => bound_outcome(date, until, Ok(value)),
            Err(error) => Ok::<u64, DateErrorView>(value) == Err::<u64, DateErrorView>(error),
        });
    if let ReadDate::Known(Ok(ParsedDate::LocalDate(day))) = read_date_spec(text, now) {
        bounds_are_midnights(day, 0, until, value);
    }
}

/// A relative date is refused beforehand exactly where the calendar cannot hold
/// what it comes to.
pub proof fn far_dates_are_refused(text: Seq<char>, now: Now, span: int)
    requires
        relative_span(lowercase(trimmed(text))) == Some(Ok::<int, DateErrorView>(span)),
    ensures
        span_fits(text, now) <==> -8_334_601_228_800_000 <= now.millis - span
            <= 8_210_266_876_799_999,
{
}

/// A range is read wherever both of its dates can be held by the calendar. What
/// is read is a range that the texts stand for, or the reason why there is none.
pub proof fn checked_ranges_are_ranges(
    since: Option<&str>,
    until: Option<&str>,
    now: Now,
    outcome: Option<Result<TimeRange, DateErrorView>>,
)
    requires
        checked_range_possible(since, until, now, outcome),
    ensures
        outcome matches Some(result) ==> range_possible(since, until, now, result),
        (since is None || span_fits(since->0@, now)) && (until is None || span_fits(
            until->0@,
            now,
        )) ==> outcome is Some,
        since is Some && !span_fits(since->0@, now) ==> outcome is None,
{
}

/// A range that is handed over has exactly the bounds that were read, each for
/// itself; nothing is handed over where one could not be read.
pub proof fn handed_over_range_has_the_given_bounds(
    since: Option<Result<u64, DateError>>,
    until: Option<Result<u64, DateError>>,
    result: Result<TimeRange, DateError>,
)
    requires
        range_view(result) == range_of(bound_view(since), bound_view(until)),
    ensures
        result matches Ok(range) ==> {
            &&& since is None <==> range.since is None
            &&& until is None <==> range.until is None
            &&& since is Some ==> since->0 is Ok && range.since == Some(since->0->Ok_0)
            &&& until is Some ==> until->0 is Ok && range.until == Some(until->0->Ok_0)
            &&& since is Some && until is Some ==> since->0->Ok_0 < until->0->Ok_0
        },
        (since is Some && since->0 is Err) || (until is Some && until->0 is Err) ==> result is Err,
{
}

} // verus!
