//! Clocks and identifiers that come from outside the library.
use vstd::prelude::*;

verus! {

#[verifier::external_type_specification]
#[verifier::external_body]
pub struct ExInstant(std::time::Instant);

/// Relies on std's `Instant::now`: a reading of the monotonic clock.
pub assume_specification[ std::time::Instant::now ]() -> std::time::Instant;

/// Relies on std's `Instant::elapsed`: the time since the reading.
pub assume_specification[ std::time::Instant::elapsed ](i: &std::time::Instant) -> core::time::Duration;

/// Relies on std's `Duration::as_nanos`: the duration in whole nanoseconds.
pub assume_specification[ core::time::Duration::as_nanos ](d: &core::time::Duration) -> u128;

/// Nanoseconds since `start`, saturated to the range of `i64`.
pub fn elapsed_ns(start: &std::time::Instant) -> (r: i64)
    ensures
        r >= 0,
{
    let n = start.elapsed().as_nanos();
    if n > i64::MAX as u128 {
        i64::MAX
    } else {
        n as i64
    }
}

/// Relies on chrono's `Utc::now` and `DateTime::timestamp_nanos_opt`: the
/// wall-clock time in nanoseconds since the Unix epoch, `None` where it does
/// not fit in an `i64`.
#[verifier::external_body]
fn wall_clock_ns() -> Option<i64> {
    chrono::Utc::now().timestamp_nanos_opt()
}

/// The wall-clock time in nanoseconds since the Unix epoch, or zero where it
/// cannot be represented.
pub fn now_ns() -> i64 {
    match wall_clock_ns() {
        Some(t) => t,
        None => 0,
    }
}

/// A lowercase hexadecimal digit.
pub open spec fn is_lower_hex(c: char) -> bool {
    ('0' <= c && c <= '9') || ('a' <= c && c <= 'f')
}

/// The hyphenated UUID form: 36 characters, hyphens at positions 8, 13, 18
/// and 23, lowercase hexadecimal digits everywhere else.
pub open spec fn is_hyphenated_uuid(s: Seq<char>) -> bool {
    &&& s.len() == 36
    &&& forall|i: int|
        0 <= i < 36 ==> if i == 8 || i == 13 || i == 18 || i == 23 {
            #[trigger] s[i] == '-'
        } else {
            is_lower_hex(s[i])
        }
}

/// Relies on uuid's `Uuid::new_v4` and its `Display`, which writes the
/// lowercase hyphenated form.
#[verifier::external_body]
fn random_uuid_text() -> (r: String)
    ensures
        is_hyphenated_uuid(r@),
{
    uuid::Uuid::new_v4().to_string()
}

/// A fresh exchange order identifier: `EX-` followed by a random UUID.
pub fn new_exchange_order_id() -> (r: String)
    ensures
        r@.len() == 39,
        r@.subrange(0, 3) == "EX-"@,
        is_hyphenated_uuid(r@.subrange(3, 39)),
{
    let id = random_uuid_text();
    let r = String::from_str("EX-").concat(id.as_str());
    proof {
        reveal_strlit("EX-");
        assert(r@.subrange(0, 3) =~= "EX-"@);
        assert(r@.subrange(3, 39) =~= id@);
    }
    r
}

} // verus!
