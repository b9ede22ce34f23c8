//! Time: the TSC timer and its calibration against the PIT, and the small
//! futures the kernel awaits (yield, delay, sleep, nothing), each reduced to
//! what one poll decides.
use vstd::prelude::*;

verus! {

/// The PIT input clock in Hz.
pub const PIT_FREQUENCY: u64 = 1193182;
/// The calibration window in milliseconds.
pub const CALIBRATION_MS: u64 = 100;

/// The PIT counter value from its two latched bytes.
pub fn pit_count(high: u8, low: u8) -> (c: u16)
    ensures
        c == high as int * 256 + low as int,
{
    (high as u16) * 256 + low as u16
}

/// The TSC value from `rdtsc`'s two halves.
pub fn tsc_from_halves(high: u32, low: u32) -> (t: u64)
    ensures
        t == high as int * 0x1_0000_0000 + low as int,
{
    (high as u64) * 0x1_0000_0000 + low as u64
}

/// The PIT ticks in the calibration window: 119318 for 100 ms.
pub const WINDOW_TICKS: u64 = 119318;

/// How far a down-counting 16-bit PIT counter moved from `last` to
/// `current`, counting a wrap past zero as one more lap.
pub open spec fn countdown_distance(last: u16, current: u16) -> int {
    if current <= last { last - current } else { last + 0x10000 - current }
}

/// The calibration window as the PIT counter is read: the last reading and
/// the ticks counted since the window began, across counter wraps.
pub struct PitWindow {
    pub last: u16,
    pub elapsed: u64,
}

impl PitWindow {
    /// A window that begins at counter reading `pit_start`.
    pub fn start(pit_start: u16) -> (w: Self)
        ensures
            w.last == pit_start,
            w.elapsed == 0,
    {
        PitWindow { last: pit_start, elapsed: 0 }
    }

    /// Takes the next counter reading; whether the window's ticks are all
    /// counted. Readings must come more often than once per counter lap.
    pub fn observe(&mut self, current: u16) -> (done: bool)
        requires
            old(self).elapsed < WINDOW_TICKS,
        ensures
            final(self).last == current,
            final(self).elapsed == old(self).elapsed + countdown_distance(old(self).last, current),
            done == (final(self).elapsed >= WINDOW_TICKS),
    {
        let step: u64 = if current <= self.last {
            (self.last - current) as u64
        } else {
            self.last as u64 + 0x10000 - current as u64
        };
        self.elapsed = self.elapsed + step;
        self.last = current;
        self.elapsed >= WINDOW_TICKS
    }
}

/// The calibration window is the whole PIT ticks of `CALIBRATION_MS`
/// milliseconds, more than one lap of the 16-bit counter.
pub proof fn law_window_is_calibration_time()
    ensures
        WINDOW_TICKS == PIT_FREQUENCY * CALIBRATION_MS / 1000,
        WINDOW_TICKS > 0x10000,
{
}

/// The TSC frequency in Hz from the TSC ticks seen over the calibration window.
pub fn frequency_from_tsc(tsc_diff: u64) -> (f: u64)
    requires
        tsc_diff * 1000 <= u64::MAX,
    ensures
        f == tsc_diff * 1000 / (CALIBRATION_MS as int),
{
    (tsc_diff * 1000) / CALIBRATION_MS
}

/// A TSC timer of known frequency.
pub struct TscTimer {
    frequency: u64,
}

impl TscTimer {
    /// A timer for a TSC that runs at `frequency` Hz.
    pub fn new(frequency: u64) -> (t: Self)
        ensures
            t.spec_frequency() == frequency,
    {
        TscTimer { frequency }
    }

    pub closed spec fn spec_frequency(&self) -> u64 {
        self.frequency
    }

    /// The frequency in Hz.
    pub fn frequency(&self) -> (f: u64)
        ensures
            f == self.spec_frequency(),
    {
        self.frequency
    }

    /// The TSC ticks in `ms` milliseconds, rounded down.
    pub fn ticks_for_ms(&self, ms: u64) -> (t: u64)
        requires
            self.spec_frequency() * ms <= u64::MAX,
        ensures
            t == self.spec_frequency() * ms / 1000,
    {
        (self.frequency * ms) / 1000
    }

    /// Whether a busy wait of `ticks` that began at `start` is over at `now`.
    pub fn wait_elapsed(&self, start: u64, now: u64, ticks: u64) -> (r: bool)
        requires
            start <= now,
        ensures
            r == (now - start >= ticks),
    {
        now - start >= ticks
    }
}

/// The milliseconds between two TSC readings at `frequency` Hz, rounded down.
pub fn elapsed_ms(start: u64, end: u64, frequency: u64) -> (ms: u64)
    requires
        start <= end,
        frequency > 0,
        (end - start) * 1000 <= u64::MAX,
    ensures
        ms == (end - start) * 1000 / (frequency as int),
{
    (end - start) * 1000 / frequency
}

/// What one poll of a future came to.
#[derive(PartialEq, Eq, Structural, Clone, Copy, Debug)]
pub enum PollOutcome {
    /// Done.
    Ready,
    /// Not done; the future has asked to be polled again.
    PendingWoken,
}

/// Gives up the processor once: the first poll asks to be polled again,
/// every later poll is ready.
pub struct YieldFuture {
    pub yielded: bool,
}

impl YieldFuture {
    /// A yield that has not given up the processor yet.
    pub fn new() -> (f: Self)
        ensures
            !f.yielded,
    {
        YieldFuture { yielded: false }
    }

    pub fn poll_once(&mut self) -> (p: PollOutcome)
        ensures
            final(self).yielded,
            p == if old(self).yielded { PollOutcome::Ready } else { PollOutcome::PendingWoken },
    {
        if self.yielded {
            PollOutcome::Ready
        } else {
            self.yielded = true;
            PollOutcome::PendingWoken
        }
    }
}

/// Ready at once.
pub struct NopFuture;

impl NopFuture {
    pub fn poll_once(&mut self) -> (p: PollOutcome)
        ensures
            p == PollOutcome::Ready,
    {
        PollOutcome::Ready
    }
}

/// One poll of a delay with `rem` polls to go: what remains, and the outcome.
pub open spec fn delay_poll(rem: u64) -> (u64, PollOutcome) {
    if rem == 0 {
        (0, PollOutcome::Ready)
    } else {
        ((rem - 1) as u64, PollOutcome::PendingWoken)
    }
}

/// What remains of a delay of `n` polls after `k` polls.
pub open spec fn delay_remaining(n: u64, k: nat) -> u64
    decreases k,
{
    if k == 0 { n } else { delay_poll(delay_remaining(n, (k - 1) as nat)).0 }
}

/// A delay of `n` polls is pending exactly `n` times, then ready: poll
/// number `k` (from 0) of `DelayFuture::new(n)` is pending when `k < n` and
/// ready otherwise.
pub proof fn law_delay_pending_n_times(n: u64, k: nat)
    ensures
        delay_remaining(n, k) == (if k <= n { (n - k) as u64 } else { 0u64 }),
        delay_poll(delay_remaining(n, k)).1 == (if k < n { PollOutcome::PendingWoken } else { PollOutcome::Ready }),
    decreases k,
{
    if k > 0 {
        law_delay_pending_n_times(n, (k - 1) as nat);
    }
}

/// Ready after a given number of further polls.
pub struct DelayFuture {
    pub remaining: u64,
}

impl DelayFuture {
    /// A delay of `ticks` polls.
    pub fn new(ticks: u64) -> (d: Self)
        ensures
            d.remaining == ticks,
    {
        DelayFuture { remaining: ticks }
    }

    /// One poll: ready when nothing remains, else one less remains.
    pub fn poll_once(&mut self) -> (p: PollOutcome)
        ensures
            (final(self).remaining, p) == delay_poll(old(self).remaining),
    {
        if self.remaining == 0 {
            PollOutcome::Ready
        } else {
            self.remaining = self.remaining - 1;
            PollOutcome::PendingWoken
        }
    }
}

/// Ready once the TSC reaches a target.
pub struct SleepFuture {
    pub target_tsc: u64,
}

impl SleepFuture {
    /// A sleep of `ms` milliseconds from `now` on a TSC of `frequency` Hz.
    pub fn new(frequency: u64, now: u64, ms: u64) -> (s: Self)
        requires
            frequency * ms <= u64::MAX,
            now + frequency * ms / 1000 <= u64::MAX,
        ensures
            s.target_tsc == now + frequency * ms / 1000,
    {
        let ticks = (frequency * ms) / 1000;
        SleepFuture { target_tsc: now + ticks }
    }

    /// A sleep of `us` microseconds from `now` on a TSC of `frequency` Hz.
    pub fn new_us(frequency: u64, now: u64, us: u64) -> (s: Self)
        requires
            frequency * us <= u64::MAX,
            now + frequency * us / 1_000_000 <= u64::MAX,
        ensures
            s.target_tsc == now + frequency * us / 1_000_000,
    {
        let ticks = (frequency * us) / 1_000_000;
        SleepFuture { target_tsc: now + ticks }
    }

    /// One poll at TSC reading `now`.
    pub fn poll_once(&self, now: u64) -> (p: PollOutcome)
        ensures
            p == if now >= self.target_tsc { PollOutcome::Ready } else { PollOutcome::PendingWoken },
    {
        if now >= self.target_tsc {
            PollOutcome::Ready
        } else {
            PollOutcome::PendingWoken
        }
    }
}

/// A sleep of `ms` milliseconds on `timer`, from TSC reading `now`.
pub fn sleep_ms(timer: &TscTimer, now: u64, ms: u64) -> (s: SleepFuture)
    requires
        timer.spec_frequency() * ms <= u64::MAX,
        now + timer.spec_frequency() * ms / 1000 <= u64::MAX,
    ensures
        s.target_tsc == now + timer.spec_frequency() * ms / 1000,
{
    SleepFuture::new(timer.frequency(), now, ms)
}

/// A sleep of `us` microseconds on `timer`, from TSC reading `now`.
pub fn sleep_us(timer: &TscTimer, now: u64, us: u64) -> (s: SleepFuture)
    requires
        timer.spec_frequency() * us <= u64::MAX,
        now + timer.spec_frequency() * us / 1_000_000 <= u64::MAX,
    ensures
        s.target_tsc == now + timer.spec_frequency() * us / 1_000_000,
{
    SleepFuture::new_us(timer.frequency(), now, us)
}

/// The executor's wake-up flag, set by interrupts and wakers.
pub struct WakeFlag {
    pub woken: bool,
}

impl WakeFlag {
    pub fn new() -> (w: Self)
        ensures
            !w.woken,
    {
        WakeFlag { woken: false }
    }

    /// Cleared before the executor polls again after a pending poll.
    pub fn clear(&mut self)
        ensures
            !final(self).woken,
    {
        self.woken = false;
    }

    /// Whether the executor should pause before its next poll: only when
    /// nothing woke it since the flag was cleared.
    pub fn should_pause(&self) -> (r: bool)
        ensures
            r == !self.woken,
    {
        !self.woken
    }
}

/// Wakes the executor.
pub fn wake(flag: &mut WakeFlag)
    ensures
        final(flag).woken,
{
    flag.woken = true;
}

/// A sleep of `ms` milliseconds begun at TSC reading `start` is over at
/// reading `now` exactly when the milliseconds elapsed between the two
/// readings reach `ms`, on a TSC whose frequency is a whole number of kHz.
pub proof fn law_sleep_ends_when_its_time_has_elapsed(frequency: u64, start: u64, now: u64, ms: u64)
    requires
        frequency > 0,
        frequency % 1000 == 0,
        start <= now,
    ensures
        (now >= start + frequency * ms / 1000) <==> ((now - start) * 1000 / (frequency as int) >= ms),
{
    let k: int = (frequency / 1000) as int;
    let d: int = now - start;
    assert(frequency == 1000 * k);
    assert(frequency * ms / 1000 == k * ms) by (nonlinear_arith)
        requires
            frequency == 1000 * k,
            k > 0,
    {
        assert(frequency * ms == (k * ms) * 1000);
    }
    assert(d * 1000 / (frequency as int) == d / k) by (nonlinear_arith)
        requires
            frequency == 1000 * k,
            k > 0,
            d >= 0,
    {
        assert(d * 1000 / (1000 * k) == d / k) by {
            vstd::arithmetic::div_mod::lemma_div_denominator(d * 1000, 1000, k);
            assert(d * 1000 / 1000 == d);
        }
    }
    assert((d >= k * ms) <==> (d / k >= ms)) by (nonlinear_arith)
        requires
            k > 0,
            d >= 0,
            ms >= 0,
    {
        vstd::arithmetic::div_mod::lemma_fundamental_div_mod(d, k);
    }
}

} // verus!
