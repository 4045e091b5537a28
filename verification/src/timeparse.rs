//! Timestamp conversion: a track point's time value is rendered as text by
//! the gpx crate and parsed by chrono into whole milliseconds since the Unix
//! epoch, UTC. The two outside calls stand behind trusted wrappers. Which
//! text a given time value renders to is left to the formatter; what a given
//! text parses to is a function of the text alone and carries a name, so the
//! parsing stage has an exact contract.

use vstd::prelude::*;

verus! {

#[verifier::external_type_specification]
#[verifier::external_body]
pub struct ExGpxTime(gpx::Time);

#[verifier::external_type_specification]
#[verifier::external_body]
pub struct ExGpxError(gpx::errors::GpxError);

#[verifier::external_type_specification]
#[verifier::external_body]
pub struct ExParseError(chrono::ParseError);

/// The instant, in whole milliseconds since the Unix epoch UTC, that a piece
/// of text denotes as an RFC 3339 date-time, or nothing when the text is not
/// a valid RFC 3339 date-time chrono accepts. A function of the text alone,
/// the same in every process and on every machine.
pub uninterp spec fn rfc3339_millis(s: Seq<char>) -> Option<int>;

/// Relies on gpx::Time::format: renders the timestamp as ISO 8601 text, or
/// reports a formatting error (for instance a year outside 0..=9999, which
/// the four-digit layout cannot carry). Which string comes back is left
/// open: the parameter is an opaque outside value, so the result can carry
/// no name.
#[verifier::external_body]
fn format_time(t: &gpx::Time) -> (r: Result<String, gpx::errors::GpxError>) {
    t.format()
}

/// Relies on chrono's DateTime::parse_from_rfc3339, which accepts exactly the
/// valid RFC 3339 date-time strings, and on DateTime::timestamp_millis, which
/// converts the parsed instant to the number of non-leap milliseconds since
/// January 1, 1970 UTC — a value independent of the offset the string
/// carried. Both depend on the text alone, so the composed result bears the
/// name `rfc3339_millis`.
#[verifier::external_body]
fn parse_rfc3339_millis(s: &str) -> (r: Result<i64, chrono::ParseError>)
    ensures
        (match r {
            Ok(ms) => rfc3339_millis(s@) == Some(ms as int),
            Err(_) => rfc3339_millis(s@) is None,
        }),
{
    match chrono::DateTime::parse_from_rfc3339(s) {
        Ok(dt) => Ok(dt.timestamp_millis()),
        Err(e) => Err(e),
    }
}

/// How converting a track point's timestamp can fail; either case is fatal
/// for the whole run.
#[derive(Clone, Copy, PartialEq, Eq, Structural, Debug)]
pub enum TimeError {
    /// The time value could not be rendered as text.
    Format,
    /// The rendered text was not a valid RFC 3339 date-time.
    Parse,
}

impl TimeError {
    /// A short description of the failure, for error reporting.
    pub fn describe(&self) -> (s: String)
        ensures
            (*self is Format) ==> s@ == "failed to format time as string"@,
            (*self is Parse) ==> s@ == "failed to parse string as datetime"@,
    {
        match self {
            TimeError::Format => "failed to format time as string".to_owned(),
            TimeError::Parse => "failed to parse string as datetime".to_owned(),
        }
    }
}

/// Parses RFC 3339 text into whole milliseconds since the Unix epoch, UTC:
/// exactly the instant the text denotes, and an error exactly when the text
/// is not a valid RFC 3339 date-time.
pub fn parse_instant_ms(s: &str) -> (r: Result<i64, TimeError>)
    ensures
        (match r {
            Ok(ms) => rfc3339_millis(s@) == Some(ms as int),
            Err(e) => rfc3339_millis(s@) is None && e == TimeError::Parse,
        }),
{
    match parse_rfc3339_millis(s) {
        Ok(ms) => Ok(ms),
        Err(_) => Err(TimeError::Parse),
    }
}

/// Converts a track point's time value to whole milliseconds since the Unix
/// epoch, UTC, by rendering it as text and parsing the text back. The
/// formatter decides both whether text comes back and which, and its input
/// is opaque, so this function's result cannot be tied to its argument; the
/// parsing stage is `parse_instant_ms`, whose contract is exact. A `Format`
/// error means the rendering failed; a `Parse` error means the rendered text
/// was no valid RFC 3339 date-time (the formatter can emit offsets of 24
/// hours and beyond, which the parser refuses).
pub fn convert_time(time: &gpx::Time) -> (r: Result<i64, TimeError>) {
    match format_time(time) {
        Err(_) => Err(TimeError::Format),
        Ok(s) => parse_instant_ms(s.as_str()),
    }
}

} // verus!
