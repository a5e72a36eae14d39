use vstd::prelude::*;

verus! {

/// Relies on chrono's `Local::now`: the current local time as whole seconds
/// since the Unix epoch. The value depends on the clock, so nothing is
/// promised of it.
#[verifier::external_body]
pub fn now_ts() -> i64 {
    chrono::Local::now().timestamp()
}

/// Relies on chrono's `Local::now` and its `Display` rendering: the current
/// local time written out with sub-second precision. The value depends on the
/// clock, so nothing is promised of it. Used only to seed frame identifiers.
#[verifier::external_body]
pub(crate) fn now_string() -> String {
    chrono::Local::now().to_string()
}

/// Relies on chrono's `TimeZone::timestamp_opt` and `DateTime::format`: the
/// given second count rendered as a `YYYY-MM-DD HH:MM:SS` local date-time.
/// `None` exactly when chrono cannot represent the seconds as a local time.
/// The text depends on the machine's time zone, so nothing is promised of it.
#[verifier::external_body]
pub fn format_local_datetime(ts: i64) -> Option<String> {
    match chrono::TimeZone::timestamp_opt(&chrono::Local, ts, 0) {
        chrono::offset::LocalResult::Single(dt) => {
            Some(dt.format("%Y-%m-%d %H:%M:%S").to_string())
        }
        _ => None,
    }
}

/// Relies on chrono's `NaiveDateTime::parse_from_str` and
/// `NaiveDateTime::and_local_timezone`: the seconds since the Unix epoch of a
/// `YYYY-MM-DD HH:MM:SS` local date-time, or `None` when the text does not
/// parse or names no unambiguous local time. The value depends on the
/// machine's time zone, so nothing is promised of it.
#[verifier::external_body]
pub fn parse_local_datetime(s: &str) -> Option<i64> {
    let naive = chrono::NaiveDateTime::parse_from_str(s, "%Y-%m-%d %H:%M:%S").ok()?;
    naive.and_local_timezone(chrono::Local).single().map(|dt| dt.timestamp())
}

} // verus!
