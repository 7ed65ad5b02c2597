//! Short messages shown for a few seconds.
use vstd::prelude::*;
use std::time::Instant;

verus! {

#[derive(Debug, Clone, Copy, PartialEq, Eq, Structural)]
pub enum NotificationSeverity {
    Info,
    Warning,
    Error,
}

/// `std::time::Instant`, a point in time; opaque here.
#[verifier::external_type_specification]
#[verifier::external_body]
pub struct ExInstant(std::time::Instant);

/// The current time, from `Instant::now`; nothing is claimed of it.
#[verifier::external_body]
fn instant_now() -> Instant {
    Instant::now()
}

/// The time passed since `t`, in nanoseconds, from `Instant::elapsed`;
/// it depends on the clock, and nothing is claimed of it.
#[verifier::external_body]
fn elapsed_nanos(t: &Instant) -> u128 {
    t.elapsed().as_nanos()
}

/// A message, its severity, when it was made, and for how many seconds it
/// is shown.
pub struct Notification {
    pub message: String,
    pub severity: NotificationSeverity,
    pub created_at: Instant,
    pub duration_secs: u64,
}

/// A span of `elapsed` nanoseconds is longer than `secs` seconds.
pub open spec fn outlasts(elapsed: int, secs: int) -> bool {
    elapsed > secs * 1_000_000_000
}

/// Whether `elapsed_nanos` nanoseconds outlast `duration_secs` seconds.
pub fn outlived(elapsed_nanos: u128, duration_secs: u64) -> (r: bool)
    ensures
        r == outlasts(elapsed_nanos as int, duration_secs as int),
{
    elapsed_nanos > (duration_secs as u128) * 1_000_000_000
}

impl Notification {
    /// A notification made now, shown for `duration_secs` seconds.
    pub fn new(message: String, severity: NotificationSeverity, duration_secs: u64) -> (r: Self)
        ensures
            r.message@ == message@,
            r.severity == severity,
            r.duration_secs == duration_secs,
    {
        Notification { message, severity, created_at: instant_now(), duration_secs }
    }

    /// Whether the notification has been shown for longer than its
    /// duration; this depends on the clock.
    pub fn is_expired(&self) -> bool {
        outlived(elapsed_nanos(&self.created_at), self.duration_secs)
    }
}

} // verus!
