use vstd::prelude::*;

verus! {

/// A fresh random identifier: `uuid::Uuid::new_v4()` written by its `Display` impl, the
/// hyphenated form of 36 characters. Nothing is claimed of which identifier comes back.
#[verifier::external_body]
pub(crate) fn new_uuid() -> (s: String)
    ensures
        s@.len() == 36,
{
    uuid::Uuid::new_v4().to_string()
}

/// The current time as `chrono::Utc::now().to_rfc3339()` writes it. Nothing is claimed of the
/// text, which depends on the clock.
#[verifier::external_body]
pub(crate) fn now_rfc3339() -> (s: String) {
    chrono::Utc::now().to_rfc3339()
}

/// The current time in milliseconds since the Unix epoch, read from `std::time::SystemTime`
/// (0 when the clock reads earlier than the epoch, saturated at `u64::MAX`). Nothing is claimed
/// of the value, which depends on the clock.
#[verifier::external_body]
pub(crate) fn now_unix_millis() -> (t: u64) {
    match std::time::SystemTime::now().duration_since(std::time::UNIX_EPOCH) {
        Ok(d) => u64::try_from(d.as_millis()).unwrap_or(u64::MAX),
        Err(_) => 0,
    }
}

} // verus!

verus! {

/// The RFC 3339 text, in UTC, of a moment given as seconds since the Unix epoch and nanoseconds.
pub uninterp spec fn rfc3339_of(secs: i64, nanos: u32) -> Seq<char>;

/// `chrono::DateTime::from_timestamp(secs, nanos)` (the epoch itself where that is out of range)
/// written by `to_rfc3339`. The text is a function of the arguments alone; it is left unstated.
#[verifier::external_body]
pub(crate) fn rfc3339_from_timestamp(secs: i64, nanos: u32) -> (s: String)
    ensures
        s@ == rfc3339_of(secs, nanos),
{
    chrono::DateTime::from_timestamp(secs, nanos).unwrap_or_default().to_rfc3339()
}

/// The current time as `chrono::Utc::now()`: whole seconds since the Unix epoch and the
/// nanoseconds past them. The moment depends on the clock and is not claimed; what is claimed
/// holds of every `DateTime<Utc>`, whose years lie within about 262,000 of year 0, and whose
/// sub-second part stays below two seconds (a leap second runs past one).
#[verifier::external_body]
pub(crate) fn now_unix_parts() -> (t: (i64, u32))
    ensures
        -10_000_000_000_000 < t.0 < 10_000_000_000_000,
        t.1 < 2_000_000_000,
{
    let now = chrono::Utc::now();
    (now.timestamp(), now.timestamp_subsec_nanos())
}

} // verus!
