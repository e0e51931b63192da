use vstd::prelude::*;

verus! {

/// Relies on std's SystemTime::now and SystemTime::duration_since: the
/// whole seconds and the nanoseconds since the Unix epoch, or `None` when
/// the system clock reads before 1970.
#[verifier::external_body]
fn seconds_since_epoch() -> (r: Option<(u64, u32)>) {
    match std::time::SystemTime::now().duration_since(std::time::UNIX_EPOCH) {
        Ok(d) => Some((d.as_secs(), d.subsec_nanos())),
        Err(_) => None,
    }
}

/// Relies on chrono's DateTime::<Utc>::from_timestamp, which returns `None`
/// for a time outside chrono's range, and DateTime::timestamp_millis.
#[verifier::external_body]
fn unix_millis(secs: i64, nanos: u32) -> (r: Option<i64>) {
    match chrono::DateTime::from_timestamp(secs, nanos) {
        Some(t) => Some(t.timestamp_millis()),
        None => None,
    }
}

/// The current UTC time in milliseconds since the Unix epoch; `None` when
/// the system clock reads before 1970 or beyond what chrono represents.
pub(crate) fn utc_now_millis() -> (r: Option<i64>) {
    match seconds_since_epoch() {
        Some((secs, nanos)) => {
            if secs > i64::MAX as u64 {
                None
            } else {
                unix_millis(secs as i64, nanos)
            }
        },
        None => None,
    }
}

} // verus!
