//! A short-lived notification and the monotonic clock it is timed by.
//!
//! Times are clock readings: nanoseconds since the clock was started. The
//! decisions are functions of the toast and a reading; the methods without a
//! reading take one from the toast's own clock first.

use vstd::prelude::*;
use std::time::Instant;

verus! {

/// How long a toast stays up, in nanoseconds: eight seconds.
pub const TOAST_DURATION: u128 = 8_000_000_000;

/// `std::time::Instant`: a measurement of the monotonic clock, of which
/// nothing is known but what the functions below hand out.
#[verifier::external_type_specification]
#[verifier::external_body]
pub struct ExInstant(std::time::Instant);

/// `Instant::now`: the current instant of the monotonic clock. Nothing is
/// claimed of it.
#[verifier::external_body]
fn instant_now() -> (now: Instant) {
    Instant::now()
}

/// `Instant::elapsed`: the time that has passed since `since`. Nothing is
/// claimed of it.
#[verifier::external_body]
fn instant_elapsed(since: &Instant) -> (elapsed: core::time::Duration) {
    since.elapsed()
}

/// `Duration::as_nanos`: the length of `span` in nanoseconds. Nothing is
/// claimed of it.
#[verifier::external_body]
fn duration_nanos(span: &core::time::Duration) -> (nanos: u128) {
    span.as_nanos()
}

/// A monotonic clock that counts from the moment it was started.
#[derive(Clone, Copy)]
pub struct Clock {
    origin: Instant,
}

impl Clock {
    /// Starts a clock.
    pub fn start() -> (clock: Clock) {
        Clock { origin: instant_now() }
    }

    /// Nanoseconds since the clock was started.
    pub fn now(&self) -> (reading: u128) {
        let elapsed = instant_elapsed(&self.origin);
        duration_nanos(&elapsed)
    }
}

/// Time from the reading `since` to the reading `now`; zero if `now` is the
/// earlier one.
pub open spec fn elapsed_between(since: u128, now: u128) -> int {
    if now >= since {
        now - since
    } else {
        0
    }
}

/// A notification: a message and the clock reading at which it was shown.
pub struct Toast {
    /// The message; it is kept when the toast is dismissed.
    pub message: String,
    /// The reading at which the toast was shown, if it has not been
    /// dismissed since.
    pub shown_since: Option<u128>,
    /// The clock that `show` and `is_showing` read.
    pub clock: Clock,
}

impl Toast {
    /// Whether the toast is up at the reading `now`: it was shown, not
    /// dismissed since, and less than `TOAST_DURATION` has passed.
    pub open spec fn showing_at(&self, now: u128) -> bool {
        match self.shown_since {
            Some(since) => elapsed_between(since, now) < TOAST_DURATION,
            None => false,
        }
    }

    /// An empty toast that is not showing, with a clock of its own.
    pub fn new() -> (toast: Toast)
        ensures
            toast.message@ == Seq::<char>::empty(),
            toast.shown_since is None,
    {
        Toast { message: String::new(), shown_since: None, clock: Clock::start() }
    }

    /// An empty toast that is not showing, timed by `clock`.
    pub fn with_clock(clock: Clock) -> (toast: Toast)
        ensures
            toast.message@ == Seq::<char>::empty(),
            toast.shown_since is None,
            toast.clock == clock,
    {
        Toast { message: String::new(), shown_since: None, clock }
    }

    /// Shows `message` from the reading `now` on.
    pub fn show_at(&mut self, message: &str, now: u128)
        ensures
            final(self).message@ == message@,
            final(self).shown_since == Some(now),
            final(self).clock == old(self).clock,
    {
        self.message = message.to_owned();
        self.shown_since = Some(now);
    }

    /// Shows `message` from now on: from some reading of the toast's clock.
    pub fn show(&mut self, message: &str)
        ensures
            final(self).message@ == message@,
            final(self).shown_since is Some,
            final(self).clock == old(self).clock,
    {
        let now: u128 = self.clock.now();
        self.show_at(message, now);
    }

    /// Takes the toast down. The message stays.
    pub fn dismiss(&mut self)
        ensures
            final(self).shown_since is None,
            final(self).message == old(self).message,
            final(self).clock == old(self).clock,
            forall|now: u128| !final(self).showing_at(now),
    {
        self.shown_since = None;
    }

    /// Whether the toast is up at the reading `now`.
    pub fn is_showing_at(&self, now: u128) -> (showing: bool)
        ensures
            showing == self.showing_at(now),
    {
        match self.shown_since {
            Some(since) => {
                if now >= since {
                    now - since < TOAST_DURATION
                } else {
                    true
                }
            },
            None => false,
        }
    }

    /// Whether the toast is up now: at some reading of its clock. A toast
    /// that was never shown, or was dismissed, is not.
    pub fn is_showing(&self) -> (showing: bool)
        ensures
            exists|now: u128| showing == #[trigger] self.showing_at(now),
            self.shown_since is None ==> !showing,
    {
        let now: u128 = self.clock.now();
        self.is_showing_at(now)
    }

    /// A reading of the toast's clock.
    pub fn now(&self) -> (reading: u128) {
        self.clock.now()
    }
}

/// A toast shown at some reading is up at that reading and at every later one
/// less than `TOAST_DURATION` after it, and at no reading from then on.
pub proof fn lemma_toast_lifetime(toast: Toast, since: u128, now: u128)
    requires
        toast.shown_since == Some(since),
        since <= now,
    ensures
        toast.showing_at(since),
        toast.showing_at(now) == (now - since < TOAST_DURATION),
{
}

} // verus!
