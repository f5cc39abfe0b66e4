//! The firmware's reading loop, as a state machine that the platform code
//! drives, and the encoding of one reading into a report request.
//!
//! The loop discards two warm-up readings, then repeats: restart if uptime
//! has passed its ceiling; race building and delivering a report against a
//! timeout, restarting after a short grace period if the timeout wins; wait
//! for the next tick.
use vstd::prelude::*;
use crate::decimal::{decimal_text, round_significant_spec};
use crate::sensor::Reading;
use vstd::utf8::encode_utf8;

verus! {

/// Readings discarded after boot before reporting starts.
pub const WARMUP_READINGS: u8 = 2;

/// Seconds a report may take before the device restarts.
pub const REPORT_TIMEOUT_SECS: u64 = 10;

/// Seconds to wait between a report timeout and the restart.
pub const RESET_GRACE_SECS: u64 = 1;

/// Uptime, in seconds, after which the device restarts regardless of health.
pub const MAX_UPTIME_SECS: u64 = 14400;

/// Most bytes (UTF-8) a report request may have: the capacity of its buffer.

/// Most significant digits a report writes of each value.
pub const REPORT_SIGNIFICANT_DIGITS: u32 = 4;
pub const REPORT_URL_CAPACITY: usize = 120;

/// Where the loop stands.
#[derive(Clone, Copy, Debug, PartialEq, Eq, Structural)]
pub enum LoopPhase {
    /// Discarding warm-up readings; `discarded` of them are done.
    Starting { discarded: u8 },
    /// Reporting; the steady loop began at `start_secs`.
    Running { start_secs: u64 },
    /// A restart has been decided; nothing else happens.
    Resetting,
}

/// What the platform code observed.
#[derive(Clone, Copy, Debug, PartialEq, Eq, Structural)]
pub enum LoopEvent {
    /// A warm-up reading finished; the clock read `now_secs`.
    WarmupRead { now_secs: u64 },
    /// A new cycle is about to start; the clock reads `now_secs`.
    CycleDue { now_secs: u64 },
    /// The report finished before the timeout.
    ReportDone,
    /// The timeout fired before the report finished.
    ReportTimedOut,
    /// The periodic ticker fired.
    Ticked,
}

/// What the platform code is to do next.
#[derive(Clone, Copy, Debug, PartialEq, Eq, Structural)]
pub enum LoopAction {
    /// Take one reading and throw it away.
    TakeWarmupReading,
    /// Read the clock and report `CycleDue`.
    StartCycle,
    /// Build and deliver a report, racing it against a timeout of this many seconds.
    RaceReport { timeout_secs: u64 },
    /// Wait for the next tick.
    WaitForTick,
    /// Wait this many seconds, then restart the device.
    Reset { after_secs: u64 },
}

impl LoopPhase {
    /// The phase at boot.
    pub fn new() -> (r: LoopPhase)
        ensures
            r == (LoopPhase::Starting { discarded: 0 }),
    {
        LoopPhase::Starting { discarded: 0 }
    }

    /// What to do in this phase when nothing new has been observed.
    pub open spec fn idle_action(self) -> LoopAction {
        match self {
            LoopPhase::Starting { .. } => LoopAction::TakeWarmupReading,
            LoopPhase::Running { .. } => LoopAction::StartCycle,
            LoopPhase::Resetting => LoopAction::Reset { after_secs: 0 },
        }
    }

    /// The transition on one event. An event that does not belong to the
    /// phase changes nothing.
    pub open spec fn step_spec(self, e: LoopEvent) -> (LoopPhase, LoopAction) {
        match (self, e) {
            (LoopPhase::Starting { discarded }, LoopEvent::WarmupRead { now_secs }) => {
                if discarded + 1 >= WARMUP_READINGS {
                    (LoopPhase::Running { start_secs: now_secs }, LoopAction::StartCycle)
                } else {
                    (
                        LoopPhase::Starting { discarded: (discarded + 1) as u8 },
                        LoopAction::TakeWarmupReading,
                    )
                }
            },
            (LoopPhase::Running { start_secs }, LoopEvent::CycleDue { now_secs }) => {
                if now_secs > start_secs && now_secs - start_secs > MAX_UPTIME_SECS {
                    (LoopPhase::Resetting, LoopAction::Reset { after_secs: 0 })
                } else {
                    (self, LoopAction::RaceReport { timeout_secs: REPORT_TIMEOUT_SECS })
                }
            },
            (LoopPhase::Running { .. }, LoopEvent::ReportDone) => (self, LoopAction::WaitForTick),
            (LoopPhase::Running { .. }, LoopEvent::ReportTimedOut) => (
                LoopPhase::Resetting,
                LoopAction::Reset { after_secs: RESET_GRACE_SECS },
            ),
            (LoopPhase::Running { .. }, LoopEvent::Ticked) => (self, LoopAction::StartCycle),
            _ => (self, self.idle_action()),
        }
    }

    /// Takes one event and gives the next phase and action.
    pub fn step(&self, e: LoopEvent) -> (r: (LoopPhase, LoopAction))
        ensures
            r == self.step_spec(e),
    {
        match (*self, e) {
            (LoopPhase::Starting { discarded }, LoopEvent::WarmupRead { now_secs }) => {
                if discarded >= WARMUP_READINGS - 1 {
                    (LoopPhase::Running { start_secs: now_secs }, LoopAction::StartCycle)
                } else {
                    (LoopPhase::Starting { discarded: discarded + 1 }, LoopAction::TakeWarmupReading)
                }
            },
            (LoopPhase::Running { start_secs }, LoopEvent::CycleDue { now_secs }) => {
                if now_secs > start_secs && now_secs - start_secs > MAX_UPTIME_SECS {
                    (LoopPhase::Resetting, LoopAction::Reset { after_secs: 0 })
                } else {
                    (*self, LoopAction::RaceReport { timeout_secs: REPORT_TIMEOUT_SECS })
                }
            },
            (LoopPhase::Running { .. }, LoopEvent::ReportDone) => (*self, LoopAction::WaitForTick),
            (LoopPhase::Running { .. }, LoopEvent::ReportTimedOut) => (
                LoopPhase::Resetting,
                LoopAction::Reset { after_secs: RESET_GRACE_SECS },
            ),
            (LoopPhase::Running { .. }, LoopEvent::Ticked) => (*self, LoopAction::StartCycle),
            _ => {
                let a = match *self {
                    LoopPhase::Starting { .. } => LoopAction::TakeWarmupReading,
                    LoopPhase::Running { .. } => LoopAction::StartCycle,
                    LoopPhase::Resetting => LoopAction::Reset { after_secs: 0 },
                };
                (*self, a)
            },
        }
    }
}

/// Once a restart is decided, no event leads anywhere else.
pub proof fn lemma_resetting_is_terminal(e: LoopEvent)
    ensures
        LoopPhase::Resetting.step_spec(e) == (LoopPhase::Resetting, (LoopAction::Reset {
            after_secs: 0,
        })),
{
}

/// From boot, exactly two warm-up readings are discarded before the steady
/// loop starts, and it starts at the time of the second one.
pub proof fn lemma_two_warmup_readings(t1: u64, t2: u64)
    ensures
        (LoopPhase::Starting { discarded: 0 }).step_spec((LoopEvent::WarmupRead { now_secs: t1 }))
            == ((LoopPhase::Starting { discarded: 1 }), LoopAction::TakeWarmupReading),
        (LoopPhase::Starting { discarded: 1 }).step_spec((LoopEvent::WarmupRead { now_secs: t2 }))
            == ((LoopPhase::Running { start_secs: t2 }), LoopAction::StartCycle),
{
}

/// A steady loop restarts at a cycle exactly when its uptime has passed the
/// ceiling, and otherwise races a report against the timeout.
pub proof fn lemma_uptime_ceiling(start_secs: u64, now_secs: u64)
    ensures
        ((LoopPhase::Running { start_secs }).step_spec((LoopEvent::CycleDue { now_secs })).0
            == LoopPhase::Resetting) <==> (now_secs as int - start_secs as int > MAX_UPTIME_SECS),
{
}

#[verifier::external_type_specification]
#[verifier::external_body]
pub struct ExUrlBuffer<const N: usize>(heapless::String<N>);

/// The characters held by a request buffer.
pub uninterp spec fn url_buffer_text(b: heapless::String<120>) -> Seq<char>;

/// Relies on heapless's `String::new`: an empty string.
#[verifier::external_body]
fn url_buffer_new() -> (r: heapless::String<120>)
    ensures
        url_buffer_text(r) == Seq::<char>::empty(),
{
    heapless::String::new()
}

/// Relies on heapless's `String::push_str`: it appends `s` when the bytes
/// held and the bytes of `s` together fit the capacity, and otherwise fails
/// and leaves the string as it was.
#[verifier::external_body]
fn url_buffer_push_str(b: &mut heapless::String<120>, s: &str) -> (r: Result<(), ()>)
    ensures
        r is Ok <==> encode_utf8(url_buffer_text(*old(b))).len() + encode_utf8(s@).len() <= 120,
        r is Ok ==> url_buffer_text(*final(b)) == url_buffer_text(*old(b)) + s@,
        r is Err ==> url_buffer_text(*final(b)) == url_buffer_text(*old(b)),
{
    b.push_str(s)
}

/// Relies on heapless's `String::as_str`: the characters held.
#[verifier::external_body]
fn url_buffer_to_string(b: &heapless::String<120>) -> (r: String)
    ensures
        r@ == url_buffer_text(*b),
{
    b.as_str().to_owned()
}

/// The UTF-8 encoding of a concatenation is the concatenation of encodings.
pub proof fn lemma_encode_utf8_concat(a: Seq<char>, b: Seq<char>)
    ensures
        encode_utf8(a + b) == encode_utf8(a) + encode_utf8(b),
    decreases a.len(),
{
    if a.len() == 0 {
        assert(a + b =~= b);
        assert(encode_utf8(a) + encode_utf8(b) =~= encode_utf8(b));
    } else {
        assert((a + b).drop_first() =~= a.drop_first() + b);
        assert((a + b)[0] == a[0]);
        lemma_encode_utf8_concat(a.drop_first(), b);
        assert(encode_utf8(a + b) =~= encode_utf8(a) + encode_utf8(b));
    }
}

/// The report request for a reading: `base` (which already names the
/// collector and the location, ending in `/`), the temperature, `/`, and
/// the humidity; each value rounded to at most four significant digits and
/// written without trailing zeros.
pub open spec fn report_url_text(base: Seq<char>, reading: Reading) -> Seq<char> {
    base + decimal_text(round_significant_spec(reading.temperature, REPORT_SIGNIFICANT_DIGITS as nat))
        + seq!['/'] + decimal_text(
        round_significant_spec(reading.humidity, REPORT_SIGNIFICANT_DIGITS as nat),
    )
}

/// Builds the report request for a reading; `None` when it would not fit
/// the request buffer, in which case this cycle's report is dropped.
pub fn report_url(base: &str, reading: &Reading) -> (r: Option<String>)
    requires
        reading.temperature.roundable(),
        reading.humidity.roundable(),
    ensures
        r is Some <==> encode_utf8(report_url_text(base@, *reading)).len() <= REPORT_URL_CAPACITY,
        r is Some ==> r->0@ == report_url_text(base@, *reading),
{
    let t = reading.temperature.round_significant(REPORT_SIGNIFICANT_DIGITS).to_text();
    let h = reading.humidity.round_significant(REPORT_SIGNIFICANT_DIGITS).to_text();
    let ghost tt = t@;
    let ghost ht = h@;
    let ghost slash = "/"@;
    proof {
        reveal_strlit("/");
        assert(slash == seq!['/']);
        lemma_encode_utf8_concat(base@, tt);
        lemma_encode_utf8_concat(base@ + tt, slash);
        lemma_encode_utf8_concat(base@ + tt + slash, ht);
        assert(report_url_text(base@, *reading) == base@ + tt + slash + ht);
    }
    let mut b = url_buffer_new();
    assert(Seq::<char>::empty() + base@ =~= base@);
    if url_buffer_push_str(&mut b, base).is_err() {
        return None;
    }
    if url_buffer_push_str(&mut b, t.as_str()).is_err() {
        return None;
    }
    if url_buffer_push_str(&mut b, "/").is_err() {
        return None;
    }
    if url_buffer_push_str(&mut b, h.as_str()).is_err() {
        return None;
    }
    Some(url_buffer_to_string(&b))
}

} // verus!
