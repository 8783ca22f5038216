use std::time::{Duration, Instant};
use vstd::prelude::*;

use crate::promises::{Promise, PromiseState};

verus! {

/// Declares std's `Instant`, a reading of the monotonic clock, so that timers
/// can hold one; nothing inside it is visible here.
#[verifier::external_type_specification]
#[verifier::external_body]
pub struct ExInstant(Instant);

/// Relies on `Instant::now`: reads the monotonic clock.
#[verifier::external_body]
fn clock_now() -> Instant {
    Instant::now()
}

/// Relies on `Instant::elapsed`: the time passed since `start`.
#[verifier::external_body]
fn elapsed_since(start: &Instant) -> Duration {
    start.elapsed()
}

/// Relies on `Duration::as_millis`: the whole milliseconds of `d`.
#[verifier::external_body]
fn whole_millis(d: &Duration) -> u128 {
    d.as_millis()
}

/// The whole milliseconds passed since `start`, capped at `u64::MAX`.
fn elapsed_ms(start: &Instant) -> u64 {
    let ms = whole_millis(&elapsed_since(start));
    if ms > u64::MAX as u128 {
        u64::MAX
    } else {
        ms as u64
    }
}

/// A one-shot timer: runs its action once, on the first poll at which at least
/// `ms` milliseconds have passed since it was built, and then finishes.
pub struct Timeout<F>
    where
        F: Fn(),
{
    f: F,
    now: Instant,
    ms: u64,
}

impl<F: Fn()> Timeout<F> {
    /// The action accepts being run at any time.
    #[verifier::type_invariant]
    spec fn callable(&self) -> bool {
        self.f.requires(())
    }

    /// The delay, in milliseconds.
    pub closed spec fn delay(&self) -> nat {
        self.ms as nat
    }

    /// Whether the timer fires at a poll that comes `elapsed` whole
    /// milliseconds after it was built.
    pub open spec fn fires_at(&self, elapsed: nat) -> bool {
        elapsed >= self.delay()
    }

    /// The outcome of a poll made `elapsed` whole milliseconds after the timer
    /// was built: it finishes, with no payload, once the delay has passed, and
    /// runs its action just then.
    pub fn poll_at<T, E>(&self, elapsed: u64) -> (r: PromiseState<Option<T>, E>)
        ensures
            self.fires_at(elapsed as nat) ==> r == PromiseState::<Option<T>, E>::Done(None),
            !self.fires_at(elapsed as nat) ==> r is Pending,
    {
        proof {
            use_type_invariant(self);
        }
        if elapsed >= self.ms {
            (self.f)();
            PromiseState::Done(None)
        } else {
            PromiseState::Pending
        }
    }
}

/// Builds a one-shot timer that runs `f` once `ms` milliseconds have passed.
pub fn set_timeout<F: Fn()>(f: F, ms: u64) -> (r: Timeout<F>)
    requires
        f.requires(()),
    ensures
        r.delay() == ms,
{
    Timeout { f, now: clock_now(), ms }
}

impl<T, E, S, F: Fn()> Promise<T, E, S> for Timeout<F> {
    /// A poll finishes with no payload or leaves the timer running, and one
    /// with no delay always finishes; the delay stays.
    open spec fn polled(&self, post: Self, r: PromiseState<Option<T>, E>) -> bool {
        &&& post.delay() == self.delay()
        &&& r is Pending || r == PromiseState::<Option<T>, E>::Done(None)
        &&& self.delay() == 0 ==> r == PromiseState::<Option<T>, E>::Done(None)
    }

    open spec fn chains(&self, val: Option<T>, next: Option<S>) -> bool {
        next is None
    }

    open spec fn rejects_to(&self, err: E, r: Result<Option<S>, E>) -> bool {
        r == Err::<Option<S>, E>(err)
    }

    open spec fn blocks_as(&self, b: bool) -> bool {
        !b
    }

    fn poll(&mut self) -> PromiseState<Option<T>, E> {
        let elapsed = elapsed_ms(&self.now);
        self.poll_at(elapsed)
    }

    fn chain(&self, val: Option<T>) -> Option<S> {
        None
    }

    fn chain_err(&self, err: E) -> Result<Option<S>, E> {
        Err(err)
    }

    fn should_block(&self) -> bool {
        false
    }

    fn block(&mut self) {
    }
}

/// A recurring timer: runs its action at a poll once more than `ms`
/// milliseconds have passed since it was built or last ran, then measures
/// from that moment again. It never finishes.
pub struct Interval<F>
    where
        F: Fn(),
{
    f: F,
    now: Instant,
    ms: u64,
}

impl<F: Fn()> Interval<F> {
    /// The action accepts being run at any time.
    #[verifier::type_invariant]
    spec fn callable(&self) -> bool {
        self.f.requires(())
    }

    /// The period, in milliseconds.
    pub closed spec fn period(&self) -> nat {
        self.ms as nat
    }

    /// The instant the period is measured from: when the timer was built or
    /// last ran its action.
    pub closed spec fn reference(&self) -> Instant {
        self.now
    }

    /// Whether a poll `elapsed` whole milliseconds after the last reference
    /// instant runs the action.
    pub fn due(&self, elapsed: u64) -> (r: bool)
        ensures
            r == (elapsed > self.period()),
    {
        elapsed > self.ms
    }

    /// Handles a poll made `elapsed` whole milliseconds after the reference
    /// instant, at the instant `now`: once more than the period has passed,
    /// runs the action and measures from `now` on; otherwise changes nothing.
    pub fn tick(&mut self, elapsed: u64, now: Instant) -> (fired: bool)
        ensures
            fired == (elapsed > old(self).period()),
            final(self).period() == old(self).period(),
            fired ==> final(self).reference() == now,
            !fired ==> final(self).reference() == old(self).reference(),
    {
        if self.due(elapsed) {
            proof {
                use_type_invariant(&*self);
            }
            self.now = now;
            (self.f)();
            true
        } else {
            false
        }
    }
}

/// Builds a recurring timer that runs `f` every `ms` milliseconds or so.
pub fn set_interval<F: Fn()>(f: F, ms: u64) -> (r: Interval<F>)
    requires
        f.requires(()),
    ensures
        r.period() == ms,
{
    Interval { f, now: clock_now(), ms }
}

impl<T, E, S, F: Fn()> Promise<T, E, S> for Interval<F> {
    /// A poll never finishes the timer; the period stays.
    open spec fn polled(&self, post: Self, r: PromiseState<Option<T>, E>) -> bool {
        &&& post.period() == self.period()
        &&& r is Pending
    }

    open spec fn chains(&self, val: Option<T>, next: Option<S>) -> bool {
        next is None
    }

    open spec fn rejects_to(&self, err: E, r: Result<Option<S>, E>) -> bool {
        r == Err::<Option<S>, E>(err)
    }

    open spec fn blocks_as(&self, b: bool) -> bool {
        !b
    }

    fn poll(&mut self) -> PromiseState<Option<T>, E> {
        let elapsed = elapsed_ms(&self.now);
        let now = clock_now();
        self.tick(elapsed, now);
        PromiseState::Pending
    }

    fn chain(&self, val: Option<T>) -> Option<S> {
        None
    }

    fn chain_err(&self, err: E) -> Result<Option<S>, E> {
        Err(err)
    }

    fn should_block(&self) -> bool {
        false
    }

    fn block(&mut self) {
    }
}

} // verus!
