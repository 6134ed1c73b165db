//! Wall-clock readings in milliseconds since the Unix epoch, and the three
//! ways the host narrows them to `u64`.
use vstd::prelude::*;

verus! {

#[derive(Debug, Clone, Copy, PartialEq, Eq, Structural)]
pub enum ClockError {
    /// The system clock reads a time before the Unix epoch.
    BeforeEpoch,
    /// The reading does not fit in a `u64` of milliseconds.
    Overflow,
}

impl ClockError {
    pub fn message(&self) -> (r: String)
        ensures
            self is BeforeEpoch ==> r@ == "system clock is before Unix epoch"@,
            self is Overflow ==> r@ == "system clock reading does not fit in 64 bits"@,
    {
        match self {
            ClockError::BeforeEpoch => String::from_str("system clock is before Unix epoch"),
            ClockError::Overflow => String::from_str("system clock reading does not fit in 64 bits"),
        }
    }
}

#[verifier::external_type_specification]
#[verifier::external_body]
pub struct ExSystemTime(std::time::SystemTime);

/// `SystemTime::now`: the machine's clock, of which nothing is stated.
#[verifier::external_body]
fn system_now() -> (r: std::time::SystemTime) {
    std::time::SystemTime::now()
}

/// `SystemTime::duration_since(UNIX_EPOCH)`; `None` where `t` is before the
/// epoch.
#[verifier::external_body]
fn since_epoch(t: &std::time::SystemTime) -> (r: Option<std::time::Duration>) {
    match t.duration_since(std::time::UNIX_EPOCH) {
        Ok(duration) => Some(duration),
        Err(_) => None,
    }
}

/// `Duration::as_millis`: the whole milliseconds of `d`; a `Duration` is
/// opaque here, so nothing is stated of the number.
#[verifier::external_body]
fn duration_millis(d: &std::time::Duration) -> (r: u128) {
    d.as_millis()
}

/// The clock's reading in whole milliseconds since the Unix epoch; `None`
/// where it reads a time before the epoch.
fn millis_since_epoch() -> (r: Option<u128>) {
    let now = system_now();
    match since_epoch(&now) {
        Some(duration) => Some(duration_millis(&duration)),
        None => None,
    }
}

/// The low 64 bits of a reading, as an `as u64` cast keeps them.
pub fn truncate_millis(ms: u128) -> (r: u64)
    ensures
        r == ms % 0x1_0000_0000_0000_0000,
{
    assert(ms as u64 == ms % 0x1_0000_0000_0000_0000) by (bit_vector);
    #[verifier::truncate]
    (ms as u64)
}

/// A reading, or `u64::MAX` where it does not fit.
pub fn saturate_millis(ms: u128) -> (r: u64)
    ensures
        r == if ms <= u64::MAX { ms } else { u64::MAX as u128 },
{
    if ms <= u64::MAX as u128 {
        ms as u64
    } else {
        u64::MAX
    }
}

/// A reading where it fits in a `u64`, else `Overflow`.
pub fn checked_millis(ms: u128) -> (r: Result<u64, ClockError>)
    ensures
        ms <= u64::MAX ==> r == Ok::<u64, ClockError>(ms as u64),
        ms > u64::MAX ==> r == Err::<u64, ClockError>(ClockError::Overflow),
{
    if ms <= u64::MAX as u128 {
        Ok(ms as u64)
    } else {
        Err(ClockError::Overflow)
    }
}

/// Milliseconds since the Unix epoch, truncated to 64 bits.
pub fn unix_time_ms() -> (r: Result<u64, ClockError>)
    ensures
        r matches Err(e) ==> e == ClockError::BeforeEpoch,
{
    match millis_since_epoch() {
        Some(ms) => Ok(truncate_millis(ms)),
        None => Err(ClockError::BeforeEpoch),
    }
}

/// Milliseconds since the Unix epoch, saturated at `u64::MAX`.
pub fn unix_millis_saturating() -> (r: Result<u64, ClockError>)
    ensures
        r matches Err(e) ==> e == ClockError::BeforeEpoch,
{
    match millis_since_epoch() {
        Some(ms) => Ok(saturate_millis(ms)),
        None => Err(ClockError::BeforeEpoch),
    }
}

/// Milliseconds since the Unix epoch, refused where they overflow 64 bits.
pub fn unix_millis_checked() -> (r: Result<u64, ClockError>)
    ensures
        r matches Err(e) ==> e == ClockError::BeforeEpoch || e == ClockError::Overflow,
{
    match millis_since_epoch() {
        Some(ms) => checked_millis(ms),
        None => Err(ClockError::BeforeEpoch),
    }
}

} // verus!
