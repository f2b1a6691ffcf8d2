//! The retention window: the cutoff, or the range, that decides which
//! images count as stale.

use crate::calendar::{first_day_number, get_past_date, lemma_first_day, Date};
use crate::text::{chars_of, find_char, first_index};
use crate::timestamps::{
    naive_datetime_seconds, offset_datetime_parts, parse_naive_datetime, parse_offset_datetime,
    utc_timestamp, EPOCH_DAY,
};
use vstd::prelude::*;

verus! {

/// The window of creation times that makes an image stale.
///
/// Without `stop`, every instant up to and including `start` lies in the
/// window. With `stop`, the window is the closed range between the two,
/// whichever of them is the earlier.
#[derive(Clone, Copy, Debug, PartialEq, Eq, Structural)]
pub struct DateWindow {
    /// Seconds since the epoch.
    pub start: i64,
    /// Seconds since the epoch.
    pub stop: Option<i64>,
}

/// A [`DateWindow`] with its instants as mathematical integers.
pub struct Window {
    pub start: int,
    pub stop: Option<int>,
}

impl View for DateWindow {
    type V = Window;

    open spec fn view(&self) -> Window {
        Window {
            start: self.start as int,
            stop: match self.stop {
                Some(stop) => Some(stop as int),
                None => None,
            },
        }
    }
}

/// Which of the dates given could not be read.
#[derive(Clone, Copy, Debug, PartialEq, Eq, Structural)]
pub enum DateSide {
    /// The only date given.
    Single,
    /// The first date of a range.
    Start,
    /// The second date of a range.
    Stop,
}

/// Why no window could be made.
#[derive(Debug)]
pub enum DateParseError {
    /// A date is neither of the form `YYYY-MM-DD` nor of the form
    /// `YYYY-MM-DDTHH:MM:SS`.
    Malformed { side: DateSide, input: String },
    /// No date was given, and the day two days before today is not a
    /// supported date.
    NoDefault,
}

/// A [`DateParseError`] with its text as a sequence of characters.
pub enum DateFault {
    Malformed { side: DateSide, input: Seq<char> },
    NoDefault,
}

impl View for DateParseError {
    type V = DateFault;

    open spec fn view(&self) -> DateFault {
        match *self {
            DateParseError::Malformed { side, input } => DateFault::Malformed {
                side,
                input: input@,
            },
            DateParseError::NoDefault => DateFault::NoDefault,
        }
    }
}

/// What is said of a date that could not be read, before the date itself.
pub open spec fn malformed_notice(side: DateSide) -> Seq<char> {
    match side {
        DateSide::Single => "failed to parse date. Verify its format (example: YYYY-MM-DD or YYYY-MM-DDTHH:MM:SS): "@,
        DateSide::Start => "failed to parse from date. Verify its format (example: YYYY-MM-DD or YYYY-MM-DDTHH:MM:SS): "@,
        DateSide::Stop => "failed to parse to date. Verify its format (example: YYYY-MM-DD or YYYY-MM-DDTHH:MM:SS): "@,
    }
}

/// What is said of a fault: for a malformed date, which date it is, the
/// forms a date may have, and the date as it was given.
pub open spec fn fault_text(fault: DateFault) -> Seq<char> {
    match fault {
        DateFault::Malformed { side, input } => malformed_notice(side) + input,
        DateFault::NoDefault => "no date given, and two days before today is not a supported date"@,
    }
}

impl DateParseError {
    /// The error in words.
    pub fn message(&self) -> (r: String)
        ensures
            r@ == fault_text(self@),
    {
        match self {
            DateParseError::Malformed { side, input } => {
                let notice = match side {
                    DateSide::Single => "failed to parse date. Verify its format (example: YYYY-MM-DD or YYYY-MM-DDTHH:MM:SS): ",
                    DateSide::Start => "failed to parse from date. Verify its format (example: YYYY-MM-DD or YYYY-MM-DDTHH:MM:SS): ",
                    DateSide::Stop => "failed to parse to date. Verify its format (example: YYYY-MM-DD or YYYY-MM-DDTHH:MM:SS): ",
                };
                let mut text = notice.to_owned();
                text.append(input.as_str());
                text
            },
            DateParseError::NoDefault => {
                "no date given, and two days before today is not a supported date".to_owned()
            },
        }
    }
}

/// The format of a date with a time, `%FT%T`: `YYYY-MM-DDTHH:MM:SS`.
pub open spec fn date_time_format() -> Seq<char> {
    seq!['%', 'F', 'T', '%', 'T']
}

/// The time that a date without a time is given: midnight.
pub open spec fn midnight() -> Seq<char> {
    seq!['T', '0', '0', ':', '0', '0', ':', '0', '0']
}

/// A date as it is handed to the parser: one that holds no `T` has no time
/// and gets midnight.
pub open spec fn with_time(piece: Seq<char>) -> Seq<char> {
    if first_index(piece, 'T') < piece.len() {
        piece
    } else {
        piece + midnight()
    }
}

/// The instant that a date stands for, in seconds since the epoch.
pub open spec fn instant_of(piece: Seq<char>) -> Option<int> {
    naive_datetime_seconds(with_time(piece), date_time_format())
}

/// Whether `text` holds the separator `|` and so gives a range.
pub open spec fn is_range(text: Seq<char>) -> bool {
    first_index(text, '|') < text.len()
}

/// What precedes the first separator.
pub open spec fn start_piece(text: Seq<char>) -> Seq<char> {
    text.take(first_index(text, '|'))
}

/// What lies between the first separator and the second, or the end.
pub open spec fn stop_piece(text: Seq<char>) -> Seq<char> {
    let rest = text.skip(first_index(text, '|') + 1);
    rest.take(first_index(rest, '|'))
}

/// The window of a single date that was read as `instant`.
pub open spec fn single_resolution(input: Seq<char>, instant: Option<int>) -> Result<
    Window,
    DateFault,
> {
    match instant {
        Some(start) => Ok(Window { start, stop: None }),
        None => Err(DateFault::Malformed { side: DateSide::Single, input }),
    }
}

/// The window of a range whose ends were read as `start` and `stop`. The
/// ends stay in the order given. Where both are malformed the first one is
/// reported.
pub open spec fn range_resolution(
    start_input: Seq<char>,
    start: Option<int>,
    stop_input: Seq<char>,
    stop: Option<int>,
) -> Result<Window, DateFault> {
    match start {
        None => Err(DateFault::Malformed { side: DateSide::Start, input: start_input }),
        Some(from) => match stop {
            None => Err(DateFault::Malformed { side: DateSide::Stop, input: stop_input }),
            Some(to) => Ok(Window { start: from, stop: Some(to) }),
        },
    }
}

/// The window used when no date is given: from one o'clock in the morning,
/// UTC, of the day two days before `today`.
pub open spec fn default_resolution(today: Date) -> Result<Window, DateFault> {
    if today.wf() && today.day_number() - 2 >= first_day_number() {
        Ok(
            Window {
                start: (today.day_number() - 2 - EPOCH_DAY) * 86_400 + 3_600,
                stop: None,
            },
        )
    } else {
        Err(DateFault::NoDefault)
    }
}

/// The window that the input asks for.
pub open spec fn resolution(date: Option<Seq<char>>, today: Date) -> Result<
    Window,
    DateFault,
> {
    match date {
        None => default_resolution(today),
        Some(text) => if is_range(text) {
            range_resolution(
                start_piece(text),
                instant_of(start_piece(text)),
                stop_piece(text),
                instant_of(stop_piece(text)),
            )
        } else {
            single_resolution(text, instant_of(text))
        },
    }
}

/// An exec result and the resolution it stands for.
pub open spec fn resolves_to(
    r: Result<DateWindow, DateParseError>,
    expected: Result<Window, DateFault>,
) -> bool {
    match r {
        Ok(window) => expected == Ok::<Window, DateFault>(window@),
        Err(e) => expected == Err::<Window, DateFault>(e@),
    }
}

/// An exec instant and the named instant it stands for.
pub open spec fn reads_as(r: Option<i64>, expected: Option<int>) -> bool {
    match r {
        Some(seconds) => expected == Some(seconds as int),
        None => expected is None,
    }
}

/// The window of a single date, given what the date was read as.
pub fn single_window(input: &str, instant: Option<i64>) -> (r: Result<
    DateWindow,
    DateParseError,
>)
    ensures
        match instant {
            Some(start) => r matches Ok(window) && window == (DateWindow { start, stop: None }),
            None => r matches Err(e) && e@ == (DateFault::Malformed {
                side: DateSide::Single,
                input: input@,
            }),
        },
{
    match instant {
        Some(start) => Ok(DateWindow { start, stop: None }),
        None => Err(DateParseError::Malformed { side: DateSide::Single, input: input.to_owned() }),
    }
}

/// The window of a range, given what its two ends were read as.
pub fn range_window(
    start_input: &str,
    start: Option<i64>,
    stop_input: &str,
    stop: Option<i64>,
) -> (r: Result<DateWindow, DateParseError>)
    ensures
        match start {
            None => r matches Err(e) && e@ == (DateFault::Malformed {
                side: DateSide::Start,
                input: start_input@,
            }),
            Some(from) => match stop {
                None => r matches Err(e) && e@ == (DateFault::Malformed {
                    side: DateSide::Stop,
                    input: stop_input@,
                }),
                Some(to) => r matches Ok(window) && window == (DateWindow {
                    start: from,
                    stop: Some(to),
                }),
            },
        },
{
    match start {
        None => Err(
            DateParseError::Malformed { side: DateSide::Start, input: start_input.to_owned() },
        ),
        Some(from) => match stop {
            None => Err(
                DateParseError::Malformed { side: DateSide::Stop, input: stop_input.to_owned() },
            ),
            Some(to) => Ok(DateWindow { start: from, stop: Some(to) }),
        },
    }
}

/// Reads one date, with or without a time.
pub fn parse_instant(piece: &str) -> (r: Option<i64>)
    ensures
        reads_as(r, instant_of(piece@)),
{
    let chars = chars_of(piece);
    let at = find_char(&chars, 'T', 0);
    assert(chars@.skip(0) == chars@);
    proof {
        reveal_strlit("%FT%T");
        reveal_strlit("T00:00:00");
        assert("%FT%T"@ == date_time_format());
        assert("T00:00:00"@ == midnight());
    }
    let parsed = if at < chars.len() {
        parse_naive_datetime(piece, "%FT%T")
    } else {
        let mut whole = piece.to_owned();
        whole.append("T00:00:00");
        parse_naive_datetime(whole.as_str(), "%FT%T")
    };
    match parsed {
        Ok(seconds) => Some(seconds),
        Err(_) => None,
    }
}

/// The window used when no date is given.
pub fn default_window(today: Date) -> (r: Result<DateWindow, DateParseError>)
    ensures
        resolves_to(r, default_resolution(today)),
{
    match get_past_date(today.year, today.month, today.day, 2) {
        None => Err(DateParseError::NoDefault),
        Some(past) => match utc_timestamp(past.year, past.month, past.day, 1, 0, 0) {
            Some(start) => {
                proof {
                    lemma_first_day(past.year as int, past.month as int, past.day as int);
                }
                Ok(DateWindow { start, stop: None })
            },
            None => Err(DateParseError::NoDefault),
        },
    }
}

/// Turns the date input into the retention window.
///
/// No input gives the default window, which begins two days before `today`.
/// One date gives a cutoff. Two dates with `|` between them give a range.
pub fn parse_date(date: Option<String>, today: Date) -> (r: Result<DateWindow, DateParseError>)
    ensures
        resolves_to(r, resolution(date.deep_view(), today)),
{
    match date {
        None => default_window(today),
        Some(text) => {
            let chars = chars_of(text.as_str());
            let bar = find_char(&chars, '|', 0);
            assert(chars@.skip(0) == chars@);
            if bar < chars.len() {
                let end = find_char(&chars, '|', bar + 1);
                let first = text.as_str().substring_char(0, bar);
                let second = text.as_str().substring_char(bar + 1, end);
                assert(second@ == stop_piece(text@)) by {
                    let rest = text@.skip(bar + 1);
                }
                range_window(first, parse_instant(first), second, parse_instant(second))
            } else {
                single_window(text.as_str(), parse_instant(text.as_str()))
            }
        },
    }
}

/// An instant, and how far the local time it was written in is ahead of UTC.
#[derive(Clone, Copy, Debug, PartialEq, Eq, Structural)]
pub struct OffsetInstant {
    /// Seconds since the epoch.
    pub timestamp: i64,
    /// Seconds east of UTC.
    pub utc_offset: i32,
}

/// A text that is no creation time.
#[derive(Debug)]
pub struct TimestampError {
    pub input: String,
}

impl TimestampError {
    /// The error in words.
    pub fn message(&self) -> (r: String)
        ensures
            r@ == "failed to parse creation time (example: 2021-01-01 00:00:00 +0100 CET): "@
                + self.input@,
    {
        let mut text =
            "failed to parse creation time (example: 2021-01-01 00:00:00 +0100 CET): ".to_owned();
        text.append(self.input.as_str());
        text
    }
}

/// The format of a creation time, `%Y-%m-%d %H:%M:%S %z %Z`, as in
/// `2021-01-01 00:00:00 +0100 CET`.
pub open spec fn created_at_format() -> Seq<char> {
    seq![
        '%',
        'Y',
        '-',
        '%',
        'm',
        '-',
        '%',
        'd',
        ' ',
        '%',
        'H',
        ':',
        '%',
        'M',
        ':',
        '%',
        'S',
        ' ',
        '%',
        'z',
        ' ',
        '%',
        'Z',
    ]
}

/// The instant and the offset that a creation time stands for.
pub open spec fn created_at_of(text: Seq<char>) -> Option<(int, int)> {
    offset_datetime_parts(text, created_at_format())
}

/// Reads the creation time of an image.
pub fn deserialize(text: &str) -> (r: Result<OffsetInstant, TimestampError>)
    ensures
        match r {
            Ok(at) => created_at_of(text@) == Some((at.timestamp as int, at.utc_offset as int)),
            Err(e) => created_at_of(text@) is None && e.input@ == text@,
        },
{
    proof {
        reveal_strlit("%Y-%m-%d %H:%M:%S %z %Z");
        assert("%Y-%m-%d %H:%M:%S %z %Z"@ == created_at_format());
    }
    match parse_offset_datetime(text, "%Y-%m-%d %H:%M:%S %z %Z") {
        Ok(parts) => Ok(OffsetInstant { timestamp: parts.0, utc_offset: parts.1 }),
        Err(_) => Err(TimestampError { input: text.to_owned() }),
    }
}

} // verus!
