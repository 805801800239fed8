use vstd::prelude::*;

use crate::processor::JsonKind;

verus! {

#[verifier::external_type_specification]
#[verifier::external_body]
pub struct ExJsonError(serde_json::Error);

/// The kind of the one JSON document that `text` holds, or `None` where it
/// holds none.
pub uninterp spec fn json_kind(text: Seq<char>) -> Option<JsonKind>;

/// Relies on `serde_json::from_str::<serde_json::Value>`: it accepts exactly
/// one JSON document, and the variant of the value it returns is the kind.
#[verifier::external_body]
pub(crate) fn parse_kind(text: &str) -> (r: Result<JsonKind, serde_json::Error>)
    ensures
        r matches Ok(k) ==> json_kind(text@) == Some(k),
        r is Err ==> json_kind(text@) is None,
{
    serde_json::from_str::<serde_json::Value>(text).map(
        |v| match v {
            serde_json::Value::Null => JsonKind::Null,
            serde_json::Value::Bool(_) => JsonKind::Bool,
            serde_json::Value::Number(_) => JsonKind::Number,
            serde_json::Value::String(_) => JsonKind::Text,
            serde_json::Value::Array(_) => JsonKind::Array,
            serde_json::Value::Object(_) => JsonKind::Object,
        },
    )
}

/// Relies on `std::time::SystemTime::duration_since(UNIX_EPOCH)`: the time
/// elapsed since the epoch as whole seconds and the nanoseconds past them,
/// or `None` where the system clock reads before the epoch.
#[verifier::external_body]
pub(crate) fn since_epoch() -> (r: Option<(u64, u32)>)
    ensures
        r matches Some(d) ==> d.1 < 1_000_000_000,
{
    std::time::SystemTime::now().duration_since(std::time::UNIX_EPOCH).ok().map(
        |d| (d.as_secs(), d.subsec_nanos()),
    )
}

/// Relies on `chrono::DateTime::from_timestamp` and
/// `DateTime::timestamp_millis`: `None` where the instant lies outside
/// chrono's range (years up to 262142, well past 8e12 seconds after the
/// epoch), else the milliseconds since the epoch, the nanoseconds rounded
/// down.
#[verifier::external_body]
pub(crate) fn millis_of(secs: i64, nanos: u32) -> (r: Option<i64>)
    requires
        nanos < 1_000_000_000,
    ensures
        0 <= secs <= 8_000_000_000_000 ==> r is Some,
        r matches Some(m) ==> m == secs * 1000 + nanos / 1_000_000,
{
    chrono::DateTime::from_timestamp(secs, nanos).map(|d| d.timestamp_millis())
}

} // verus!
