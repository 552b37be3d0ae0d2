use std::fmt::Write;
use vstd::prelude::*;

verus! {

/// The seconds since the Unix epoch (taken as UTC) that `chrono` reads from
/// `s` under the format `fmt`, or `None` where it reads nothing.
pub uninterp spec fn datetime_of(s: Seq<char>, fmt: Seq<char>) -> Option<i64>;

/// The text that `chrono` writes for the instant `t` (seconds since the Unix
/// epoch, UTC) under the format `fmt`, or `None` where it writes nothing.
pub uninterp spec fn formatted_datetime_of(t: i64, fmt: Seq<char>) -> Option<Seq<char>>;

/// Relies on `chrono::NaiveDateTime::parse_from_str` and
/// `NaiveDateTime::and_utc().timestamp()`: the result depends on the two
/// strings alone.
#[verifier::external_body]
pub(crate) fn parse_datetime(s: &str, fmt: &str) -> (r: Option<i64>)
    ensures
        r == datetime_of(s@, fmt@),
{
    chrono::NaiveDateTime::parse_from_str(s, fmt).ok().map(|d| d.and_utc().timestamp())
}

/// Relies on `chrono::DateTime::from_timestamp` and `format`: the result
/// depends on the instant and the format alone; an instant out of range or a
/// format that cannot be written gives `None`.
#[verifier::external_body]
pub(crate) fn format_datetime(t: i64, fmt: &str) -> (r: Option<String>)
    ensures
        match r {
            Some(s) => formatted_datetime_of(t, fmt@) == Some(s@),
            None => formatted_datetime_of(t, fmt@).is_none(),
        },
{
    let d = chrono::DateTime::from_timestamp(t, 0)?;
    let mut out = String::new();
    write!(out, "{}", d.naive_utc().format(fmt)).ok()?;
    Some(out)
}

} // verus!
