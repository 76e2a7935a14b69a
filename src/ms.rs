//! Durations counted in whole milliseconds, with their human-readable text.
use vstd::prelude::*;

verus! {

/// The text `ms_converter` gives for a number of milliseconds, in the largest
/// unit (day, hour, minute, second, millisecond) that the number reaches.
pub uninterp spec fn duration_text(millis: int) -> Seq<char>;

/// The number of milliseconds that `ms_converter` reads from a duration text
/// such as `5s` or `2 min`, or `None` where it rejects the text.
pub uninterp spec fn text_millis(text: Seq<char>) -> Option<u64>;

#[verifier::external_type_specification]
#[verifier::external_body]
pub struct ExMsConverterError(ms_converter::Error);

/// Relies on `ms_converter::get_max_possible_duration`: it picks one of the
/// postfixes `d`, `h`, `m`, `s`, `ms`, all of which it accepts, so it always
/// returns `Ok`, with a text that depends on the number alone. It takes the
/// absolute value first, which overflows on `i64::MIN`: negative numbers are
/// left out.
#[verifier::external_body]
fn max_possible_duration(millis: i64) -> (r: Result<String, ms_converter::Error>)
    requires
        millis >= 0,
    ensures
        r is Ok,
        r is Ok ==> r->Ok_0@ == duration_text(millis as int),
{
    ms_converter::get_max_possible_duration(millis)
}

/// Relies on `ms_converter::ms_into_time`: it reads a duration text, fails on
/// a text it cannot read or on a negative duration, and otherwise returns a
/// duration built from a `u64` number of milliseconds. It counts the digits
/// after a decimal point in an `i32`, so texts of `MAX_DURATION_TEXT_LEN`
/// characters or more are left out.
#[verifier::external_body]
fn ms_into_millis(text: &str) -> (r: Result<u64, ms_converter::Error>)
    requires
        text@.len() < MAX_DURATION_TEXT_LEN,
    ensures
        match r {
            Ok(v) => text_millis(text@) == Some(v),
            Err(_) => text_millis(text@).is_none(),
        },
{
    ms_converter::ms_into_time(text).map(|d| d.as_millis() as u64)
}

/// Length, in characters, from which a duration text is too long to read.
pub const MAX_DURATION_TEXT_LEN: usize = 0x7fff_ffff;

/// Largest number of milliseconds that the text conversion accepts.
pub const MAX_TEXT_MILLIS: u64 = 0x7fff_ffff_ffff_ffff;

/// A duration in whole milliseconds.
#[derive(Debug, Clone, Copy, PartialEq, Eq, Structural)]
pub struct Ms {
    pub millis: u64,
}

/// A duration text that could not be read.
#[derive(Debug, Clone, Copy, PartialEq, Eq, Structural)]
pub struct MsParseError;

impl Ms {
    pub fn from_millis(millis: u64) -> (r: Ms)
        ensures
            r.millis == millis,
    {
        Ms { millis }
    }

    pub fn from_secs(secs: u64) -> (r: Ms)
        requires
            secs * 1000 <= u64::MAX,
        ensures
            r.millis == secs * 1000,
    {
        Ms { millis: secs * 1000 }
    }

    /// Whole seconds in the duration, rounded down.
    pub fn as_secs(&self) -> (r: u64)
        ensures
            r == self.millis / 1000,
    {
        self.millis / 1000
    }

    /// The duration as text in its largest unit, or `None` where it is too
    /// long for the conversion.
    pub fn to_string(&self) -> (r: Option<String>)
        ensures
            self.millis <= MAX_TEXT_MILLIS ==> (r matches Some(s) && s@ == duration_text(
                self.millis as int,
            )),
            self.millis > MAX_TEXT_MILLIS ==> r.is_none(),
    {
        Self::dur_to_string(self.millis)
    }

    /// The text of `millis` milliseconds in its largest unit, or `None` where
    /// the number does not fit in an `i64`.
    pub fn dur_to_string(millis: u64) -> (r: Option<String>)
        ensures
            millis <= MAX_TEXT_MILLIS ==> (r matches Some(s) && s@ == duration_text(
                millis as int,
            )),
            millis > MAX_TEXT_MILLIS ==> r.is_none(),
    {
        if millis > MAX_TEXT_MILLIS {
            return None;
        }
        match max_possible_duration(millis as i64) {
            Ok(s) => Some(s),
            Err(_) => None,
        }
    }

    /// Reads a duration text such as `5s`, `1m` or `250`.
    pub fn parse(text: &str) -> (r: Result<Ms, MsParseError>)
        requires
            text@.len() < MAX_DURATION_TEXT_LEN,
        ensures
            match text_millis(text@) {
                Some(v) => r == Ok::<Ms, MsParseError>(Ms { millis: v }),
                None => r == Err::<Ms, MsParseError>(MsParseError),
            },
    {
        match ms_into_millis(text) {
            Ok(v) => Ok(Ms { millis: v }),
            Err(_) => Err(MsParseError),
        }
    }
}

} // verus!
