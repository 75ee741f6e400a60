//! Counts how many ticks the simulation makes per second.
//!
//! Times are nanoseconds on the monotonic clock, measured from the moment the
//! tracker was created.

use vstd::prelude::*;

verus! {

/// One second, in nanoseconds.
pub const ONE_SECOND_NANOS: u128 = 1_000_000_000;

/// The largest number of nanoseconds a `std::time::Duration` holds: `u64::MAX`
/// whole seconds and a fraction below one second.
pub const MAX_DURATION_NANOS: u128 = 18_446_744_073_709_551_615_999_999_999;

#[verifier::external_type_specification]
#[verifier::external_body]
pub struct ExInstant(std::time::Instant);

/// `std::time::Instant::now`: a reading of the monotonic clock. Nothing is
/// claimed of the value, which depends on the time of the call.
#[verifier::external_body]
fn clock_now() -> std::time::Instant {
    std::time::Instant::now()
}

/// `std::time::Instant::elapsed` followed by `std::time::Duration::as_nanos`:
/// the nanoseconds that passed since `origin`. Only the bound that a
/// `Duration` can hold (whole seconds in a `u64`, the fraction below one
/// second) is claimed; the value itself depends on the time of the call.
#[verifier::external_body]
fn nanos_since(origin: &std::time::Instant) -> (r: u128)
    ensures
        r <= MAX_DURATION_NANOS,
{
    origin.elapsed().as_nanos()
}

/// What a tracker counts: ticks in the current window, the time at which the
/// window closes, and the count published when the last window closed.
pub ghost struct TpsState {
    pub counter: nat,
    pub resets_at: nat,
    pub tps: nat,
}

/// The state of a tracker just created.
pub open spec fn initial_state() -> TpsState {
    TpsState { counter: 0, resets_at: ONE_SECOND_NANOS as nat, tps: 0 }
}

/// One tick at time `now`: past the end of the window, the count is published
/// and a new window of one second starts at `now`; otherwise the tick is
/// counted.
pub open spec fn tick_step(s: TpsState, now: nat) -> TpsState {
    if s.resets_at < now {
        TpsState { counter: 0, resets_at: now + (ONE_SECOND_NANOS as nat), tps: s.counter }
    } else {
        TpsState { counter: s.counter + 1, ..s }
    }
}

/// The ticks at `times`, one after the other.
pub open spec fn run_ticks(s: TpsState, times: Seq<nat>) -> TpsState
    decreases times.len(),
{
    if times.len() == 0 {
        s
    } else {
        tick_step(run_ticks(s, times.drop_last()), times.last())
    }
}

/// Tracks the number of ticks per second.
pub struct TpsTracker {
    counter: usize,
    resets_at: u128,
    tps: usize,
    origin: std::time::Instant,
}

impl View for TpsTracker {
    type V = TpsState;

    closed spec fn view(&self) -> TpsState {
        TpsState { counter: self.counter as nat, resets_at: self.resets_at as nat, tps: self.tps as nat }
    }
}

impl TpsTracker {
    /// The instant the tracker was created, from which its times are measured.
    pub closed spec fn origin(&self) -> std::time::Instant {
        self.origin
    }

    /// A tracker whose first window ends one second from now.
    pub fn new() -> (r: TpsTracker)
        ensures
            r@ == initial_state(),
            r@.counter == 0 && r@.tps == 0 && r@.resets_at == 1_000_000_000,
    {
        TpsTracker { counter: 0, tps: 0, resets_at: ONE_SECOND_NANOS, origin: clock_now() }
    }

    /// Records one tick, at the current time.
    pub fn tick(&mut self)
        requires
            old(self)@.counter < usize::MAX,
        ensures
            final(self).origin() == old(self).origin(),
            (exists|now: nat| now <= MAX_DURATION_NANOS && #[trigger] tick_step(old(self)@, now) == final(self)@),
            (final(self)@.counter == 0 && final(self)@.tps == old(self)@.counter
                && final(self)@.resets_at > old(self)@.resets_at)
                || final(self)@ == (TpsState { counter: old(self)@.counter + 1, ..old(self)@ }),
    {
        let now = nanos_since(&self.origin);
        self.tick_at(now);
    }

    /// Records one tick at time `now`, in nanoseconds since the tracker was
    /// created.
    pub fn tick_at(&mut self, now: u128)
        requires
            old(self)@.resets_at < now ==> now + ONE_SECOND_NANOS <= u128::MAX,
            old(self)@.resets_at >= now ==> old(self)@.counter < usize::MAX,
        ensures
            final(self).origin() == old(self).origin(),
            final(self)@ == tick_step(old(self)@, now as nat),
            old(self)@.resets_at < now ==> final(self)@.counter == 0 && final(self)@.tps == old(self)@.counter
                && final(self)@.resets_at == now + 1_000_000_000,
            old(self)@.resets_at >= now ==> final(self)@.counter == old(self)@.counter + 1
                && final(self)@.tps == old(self)@.tps && final(self)@.resets_at == old(self)@.resets_at,
    {
        if self.resets_at < now {
            self.resets_at = now + ONE_SECOND_NANOS;
            self.tps = self.counter;
            self.counter = 0;
        } else {
            self.counter += 1;
        }
    }

    /// The number of ticks counted so far in the current window.
    pub fn counted(&self) -> (r: usize)
        ensures
            r == self@.counter,
    {
        self.counter
    }

    /// The number of ticks counted in the last window that closed.
    pub fn get(&self) -> (r: usize)
        ensures
            r == self@.tps,
    {
        self.tps
    }
}

/// A tick publishes a count exactly when it comes after the end of the
/// window: then the published count is the ticks counted so far, counting
/// starts again from none, and the window ends one second after the tick.
/// Otherwise the tick adds one to the count and changes nothing else.
pub proof fn lemma_tick_publishes_only_past_the_window(s: TpsState, now: nat)
    ensures
        s.resets_at < now ==> tick_step(s, now).tps == s.counter && tick_step(s, now).counter == 0
            && tick_step(s, now).resets_at == now + 1_000_000_000,
        s.resets_at >= now ==> tick_step(s, now).counter == s.counter + 1
            && tick_step(s, now).tps == s.tps && tick_step(s, now).resets_at == s.resets_at,
{
}

/// Ticks that come no later than the end of the window are each counted, and
/// neither the window nor the published rate changes.
pub proof fn lemma_ticks_within_window_are_counted(s: TpsState, times: Seq<nat>)
    requires
        forall|k: int| 0 <= k < times.len() ==> times[k] <= s.resets_at,
    ensures
        run_ticks(s, times) == (TpsState { counter: s.counter + times.len(), ..s }),
    decreases times.len(),
{
    if times.len() > 0 {
        lemma_ticks_within_window_are_counted(s, times.drop_last());
    }
}

/// The first tick past the end of the window publishes how many ticks the
/// window counted, and opens a new window of one second from that tick.
pub proof fn lemma_rate_is_published(s: TpsState, times: Seq<nat>, late: nat)
    requires
        forall|k: int| 0 <= k < times.len() ==> times[k] <= s.resets_at,
        s.resets_at < late,
    ensures
        run_ticks(s, times.push(late)) == (TpsState {
            counter: 0,
            resets_at: late + (ONE_SECOND_NANOS as nat),
            tps: s.counter + times.len(),
        }),
{
    lemma_ticks_within_window_are_counted(s, times);
    assert(times.push(late).drop_last() =~= times);
}

/// A tick never moves the end of the window back, and a tick past the end
/// moves it past that tick.
pub proof fn lemma_window_moves_forward(s: TpsState, now: nat)
    ensures
        tick_step(s, now).resets_at >= s.resets_at,
        s.resets_at < now ==> tick_step(s, now).resets_at > now,
{
}

/// The tick at position `m` of `times`, run from `s`, comes past the end of
/// the window it finds, and so closes that window.
pub open spec fn closes_window(s: TpsState, times: Seq<nat>, m: int) -> bool {
    times[m] > run_ticks(s, times.take(m)).resets_at
}

/// Running one more tick of `times` is one more step.
proof fn lemma_run_take_step(s: TpsState, times: Seq<nat>, m: int)
    requires
        0 <= m < times.len(),
    ensures
        run_ticks(s, times.take(m + 1)) == tick_step(run_ticks(s, times.take(m)), times[m]),
{
    assert(times.take(m + 1).drop_last() =~= times.take(m));
}

/// Between positions `a` and `b`, ticks that close no window are each
/// counted and change nothing else.
proof fn lemma_run_between(s: TpsState, times: Seq<nat>, a: int, b: int)
    requires
        0 <= a <= b <= times.len(),
        forall|m: int| a <= m < b ==> !#[trigger] closes_window(s, times, m),
    ensures
        run_ticks(s, times.take(b)) == (TpsState {
            counter: run_ticks(s, times.take(a)).counter + (b - a) as nat,
            ..run_ticks(s, times.take(a))
        }),
    decreases b - a,
{
    if a < b {
        lemma_run_between(s, times, a, b - 1);
        lemma_run_take_step(s, times, b - 1);
        assert(!closes_window(s, times, b - 1));
    }
}

/// Ticks that close no window are each counted, and neither the window nor
/// the published rate changes.
pub proof fn lemma_no_window_closed(s: TpsState, times: Seq<nat>)
    requires
        forall|m: int| 0 <= m < times.len() ==> !#[trigger] closes_window(s, times, m),
    ensures
        run_ticks(s, times) == (TpsState { counter: s.counter + times.len(), ..s }),
{
    lemma_run_between(s, times, 0, times.len() as int);
    assert(times.take(0) =~= Seq::<nat>::empty());
    assert(times.take(times.len() as int) =~= times);
}

/// After the last tick that closes a window, at position `c`, the window ends
/// one second after that tick, the ticks after it are counted, and the rate
/// published is the count that tick found.
pub proof fn lemma_last_window_closed(s: TpsState, times: Seq<nat>, c: int)
    requires
        0 <= c < times.len(),
        closes_window(s, times, c),
        forall|m: int| c < m < times.len() ==> !#[trigger] closes_window(s, times, m),
    ensures
        run_ticks(s, times).resets_at == times[c] + ONE_SECOND_NANOS,
        run_ticks(s, times).counter == times.len() - 1 - c,
        run_ticks(s, times).tps == run_ticks(s, times.take(c)).counter,
{
    lemma_run_take_step(s, times, c);
    lemma_run_between(s, times, c + 1, times.len() as int);
    assert(times.take(times.len() as int) =~= times);
}

/// The count a closing tick at position `c` finds: the ticks since the
/// closing tick before it at `p`, or, with none before it, all ticks before
/// it on top of the starting count.
pub proof fn lemma_count_found_at_close(s: TpsState, times: Seq<nat>, c: int)
    requires
        0 <= c < times.len(),
    ensures
        (forall|m: int| 0 <= m < c ==> !#[trigger] closes_window(s, times, m))
            ==> run_ticks(s, times.take(c)).counter == s.counter + c,
        forall|p: int|
            0 <= p < c && #[trigger] closes_window(s, times, p)
                && (forall|m: int| p < m < c ==> !#[trigger] closes_window(s, times, m))
                ==> run_ticks(s, times.take(c)).counter == c - p - 1,
{
    if forall|m: int| 0 <= m < c ==> !#[trigger] closes_window(s, times, m) {
        lemma_run_between(s, times, 0, c);
        assert(times.take(0) =~= Seq::<nat>::empty());
    }
    assert forall|p: int|
        0 <= p < c && #[trigger] closes_window(s, times, p)
            && (forall|m: int| p < m < c ==> !#[trigger] closes_window(s, times, m))
        implies run_ticks(s, times.take(c)).counter == c - p - 1 by {
        lemma_run_take_step(s, times, p);
        lemma_run_between(s, times, p + 1, c);
    }
}

/// The end of the window never moves back, over any ticks.
pub proof fn lemma_window_end_never_decreases(s: TpsState, times: Seq<nat>)
    ensures
        run_ticks(s, times).resets_at >= s.resets_at,
    decreases times.len(),
{
    if times.len() > 0 {
        lemma_window_end_never_decreases(s, times.drop_last());
    }
}

/// Ticks at `times` on a tracker just created. With none closing a window,
/// all are counted, the first window still ends at one second, and no rate
/// is published. Otherwise, with `c` the last tick to close a window, the
/// window ends one second after it, the ticks after it are counted, and the
/// rate published is the number of ticks between it and the closing tick
/// before it, or all ticks before it when it is the first.
pub proof fn lemma_ticks_from_new(times: Seq<nat>)
    ensures
        (forall|m: int| 0 <= m < times.len() ==> !#[trigger] closes_window(initial_state(), times, m))
            ==> run_ticks(initial_state(), times) == (TpsState {
                counter: times.len(),
                resets_at: ONE_SECOND_NANOS as nat,
                tps: 0,
            }),
        forall|c: int|
            0 <= c < times.len() && #[trigger] closes_window(initial_state(), times, c)
                && (forall|m: int| c < m < times.len() ==> !#[trigger] closes_window(initial_state(), times, m))
                ==> {
                    &&& run_ticks(initial_state(), times).resets_at == times[c] + ONE_SECOND_NANOS
                    &&& run_ticks(initial_state(), times).counter == times.len() - 1 - c
                    &&& (forall|m: int| 0 <= m < c ==> !#[trigger] closes_window(initial_state(), times, m))
                        ==> run_ticks(initial_state(), times).tps == c
                    &&& forall|p: int|
                        0 <= p < c && #[trigger] closes_window(initial_state(), times, p)
                            && (forall|m: int| p < m < c ==> !#[trigger] closes_window(initial_state(), times, m))
                            ==> run_ticks(initial_state(), times).tps == c - p - 1
                },
        run_ticks(initial_state(), times).resets_at >= ONE_SECOND_NANOS,
{
    let s = initial_state();
    if forall|m: int| 0 <= m < times.len() ==> !#[trigger] closes_window(s, times, m) {
        lemma_no_window_closed(s, times);
    }
    assert forall|c: int|
        0 <= c < times.len() && #[trigger] closes_window(s, times, c)
            && (forall|m: int| c < m < times.len() ==> !#[trigger] closes_window(s, times, m))
        implies {
            &&& run_ticks(s, times).resets_at == times[c] + ONE_SECOND_NANOS
            &&& run_ticks(s, times).counter == times.len() - 1 - c
            &&& (forall|m: int| 0 <= m < c ==> !#[trigger] closes_window(s, times, m))
                ==> run_ticks(s, times).tps == c
            &&& forall|p: int|
                0 <= p < c && #[trigger] closes_window(s, times, p)
                    && (forall|m: int| p < m < c ==> !#[trigger] closes_window(s, times, m))
                    ==> run_ticks(s, times).tps == c - p - 1
        } by {
        lemma_last_window_closed(s, times, c);
        lemma_count_found_at_close(s, times, c);
    }
    lemma_window_end_never_decreases(s, times);
}

} // verus!
