//! The calls this library makes into other crates, with what it relies on.
use vstd::prelude::*;

verus! {

/// Lowercase hexadecimal digit of a value below sixteen.
pub open spec fn hex_digit(d: u8) -> char {
    if d < 10 {
        (d + 48) as char
    } else {
        (d + 87) as char
    }
}

/// Two lowercase hexadecimal digits per byte, high digit first.
pub open spec fn hex_of(b: Seq<u8>) -> Seq<char>
    decreases b.len(),
{
    if b.len() == 0 {
        seq![]
    } else {
        seq![hex_digit(b[0] / 16), hex_digit(b[0] % 16)] + hex_of(b.drop_first())
    }
}

/// Relies on hex::encode: each byte becomes two lowercase hexadecimal digits,
/// high digit first, in the order of the bytes.
#[verifier::external_body]
pub(crate) fn hex_encode(b: &[u8]) -> (r: String)
    ensures
        r@ == hex_of(b@),
{
    hex::encode(b)
}

/// The text that a byte string holds as UTF-8, or `None` if it is not UTF-8.
pub uninterp spec fn utf8_text(b: Seq<u8>) -> Option<Seq<char>>;

/// Relies on String::from_utf8: it accepts exactly the valid UTF-8 byte strings
/// and gives back their text.
#[verifier::external_body]
pub(crate) fn utf8_string(b: Vec<u8>) -> (r: Option<String>)
    ensures
        match r {
            Some(s) => utf8_text(b@) == Some(s@),
            None => utf8_text(b@) is None,
        },
{
    String::from_utf8(b).ok()
}

/// Whether a calendar date and time exist for this many seconds and
/// nanoseconds after the Unix epoch: the day falls between January 1 of the
/// year -262143 and December 31 of the year 262142 (days -95746129 to 95745399
/// counted from the Common Era), and the nanoseconds are below 2·10^9, reaching
/// 10^9 only within the last second of a minute (a leap second).
pub open spec fn datetime_exists(seconds: i64, nanos: u32) -> bool {
    let days = (seconds as int) / 86_400 + 719_163;
    let second_of_day = (seconds as int) % 86_400;
    &&& -95_746_129 <= days <= 95_745_399
    &&& nanos < 2_000_000_000
    &&& (nanos < 1_000_000_000 || second_of_day % 60 == 59)
}

/// Relies on chrono::DateTime::from_timestamp: `Some` exactly when the day
/// is one that `NaiveDate` represents and the time of day is one that
/// `NaiveTime::from_num_seconds_from_midnight_opt` accepts.
#[verifier::external_body]
pub(crate) fn timestamp_representable(seconds: i64, nanos: u32) -> (r: bool)
    ensures
        r == datetime_exists(seconds, nanos),
{
    chrono::DateTime::from_timestamp(seconds, nanos).is_some()
}

} // verus!
