//! The liveness monitor and the watchdog.
//!
//! The monitor's periodic tick writes the heartbeat, publishes a heartbeat
//! message, and evaluates the two self-clearing control flags; the
//! watchdog, run by every process that depends on server liveness, kills
//! its process when the heartbeat goes stale. Both decisions are computed
//! here over the store model; the driver performs the store commands and
//! the process exit.

use vstd::prelude::*;
use crate::admission::{Grant, GrantView, StoreModel, StoreModelView};

verus! {

/// The heartbeat staleness past which a watcher must die. Tunable.
pub const WATCHDOG_THRESHOLD_SECS: i64 = 60;

/// How often the watchdog polls the heartbeat.
pub const WATCHDOG_POLL_SECS: u64 = 10;

/// Whether the watchdog must terminate its process: the heartbeat is
/// stale when `now - heartbeat` strictly exceeds the threshold.
pub open spec fn watchdog_expired_spec(now: int, heartbeat: int, threshold: int) -> bool {
    now - heartbeat > threshold
}

/// The watchdog decision. Fires if and only if the heartbeat lag strictly
/// exceeds the threshold — at a lag of exactly the threshold it does not.
pub fn watchdog_expired(now: i64, heartbeat: i64, threshold: i64) -> (r: bool)
    ensures
        r == watchdog_expired_spec(now as int, heartbeat as int, threshold as int),
{
    (now as i128) - (heartbeat as i128) > (threshold as i128)
}

/// The watchdog boundary: a lag of exactly the threshold never fires; one
/// second more always does.
pub proof fn lemma_watchdog_boundary(now: int, heartbeat: int, threshold: int)
    ensures
        now - heartbeat == threshold ==> !watchdog_expired_spec(now, heartbeat, threshold),
        now - heartbeat == threshold + 1 ==> watchdog_expired_spec(now, heartbeat, threshold),
{
}

// ---------------------------------------------------------------------------
// The monitor tick
// ---------------------------------------------------------------------------

/// What one tick fired.
#[derive(Clone, Copy, PartialEq, Eq, Structural, Debug)]
pub struct TickOutcome {
    pub fired_reset: bool,
    pub fired_audit: bool,
}

/// The value a control flag shows after its create-if-absent write: an
/// absent key is created armed, so each flag fires once after first
/// appearing and then whenever it is externally re-armed.
pub open spec fn flag_armed(f: Option<bool>) -> bool {
    match f {
        None => true,
        Some(b) => b,
    }
}

/// What one monitor tick does to the store: the heartbeat key takes the
/// tick's timestamp; an armed `reset` flag fires once, clearing all
/// client/session state and both flags; otherwise an armed `audit` flag
/// fires once; both flags sit cleared afterwards.
pub open spec fn tick_spec(st: StoreModelView, now: int) -> (StoreModelView, TickOutcome) {
    let fired_reset = flag_armed(st.reset);
    let fired_audit = !fired_reset && flag_armed(st.audit);
    let next = if fired_reset {
        StoreModelView {
            clients: Set::<Seq<char>>::empty(),
            grants: Map::empty(),
            heartbeat: now,
            reset: Some(false),
            audit: Some(false),
        }
    } else {
        StoreModelView { heartbeat: now, reset: Some(false), audit: Some(false), ..st }
    };
    (next, TickOutcome { fired_reset, fired_audit })
}

/// One monitor tick over the store model. The driver mirrors the outcome
/// onto the real store: on `fired_reset` it clears all state and reloads
/// the access-control definitions from their durable config; on
/// `fired_audit` it runs the reconciliation pass over stored identities.
pub fn monitor_tick(store: &mut StoreModel, now: i64) -> (out: TickOutcome)
    requires
        old(store).wf(),
    ensures
        final(store).wf(),
        final(store)@ == tick_spec(old(store)@, now as int).0,
        out == tick_spec(old(store)@, now as int).1,
{
    store.heartbeat = now;
    let fired_reset = match store.reset {
        None => true,
        Some(b) => b,
    };
    if fired_reset {
        store.clients.clear();
        store.grants.clear();
        store.reset = Some(false);
        store.audit = Some(false);
        proof {
            assert(store.clients@.map_values(|s: String| s@) =~= Seq::<Seq<char>>::empty());
            assert(store.grants@.map_values(|g: Grant| g@) =~= Seq::<GrantView>::empty());
            assert(store@.clients =~= Set::<Seq<char>>::empty());
        }
        TickOutcome { fired_reset: true, fired_audit: false }
    } else {
        let fired_audit = match store.audit {
            None => true,
            Some(b) => b,
        };
        store.reset = Some(false);
        store.audit = Some(false);
        TickOutcome { fired_reset: false, fired_audit }
    }
}

/// Control flags self-clear: after any tick both flags sit at `false`,
/// and the immediately following tick observes neither. An armed flag is
/// therefore observed true exactly once until it is re-armed externally.
pub proof fn lemma_flags_fire_once(st: StoreModelView, now1: int, now2: int)
    ensures
        tick_spec(st, now1).0.reset == Some(false),
        tick_spec(st, now1).0.audit == Some(false),
        !tick_spec(tick_spec(st, now1).0, now2).1.fired_reset,
        !tick_spec(tick_spec(st, now1).0, now2).1.fired_audit,
{
}

/// A tick observes `reset` exactly when the flag is armed (or its key
/// absent, which creates it armed); it observes `audit` exactly when
/// `audit` is armed and `reset` did not fire in the same tick — a firing
/// reset clears `audit` with the rest of the state.
pub proof fn lemma_flags_observed_iff_armed(st: StoreModelView, now: int)
    ensures
        tick_spec(st, now).1.fired_reset == flag_armed(st.reset),
        tick_spec(st, now).1.fired_audit == (!flag_armed(st.reset) && flag_armed(st.audit)),
{
}

/// A firing reset leaves no client/session state behind.
pub proof fn lemma_reset_clears_state(st: StoreModelView, now: int)
    requires
        flag_armed(st.reset),
    ensures
        tick_spec(st, now).0.clients == Set::<Seq<char>>::empty(),
        tick_spec(st, now).0.grants == Map::<Seq<char>, GrantView>::empty(),
{
}

// ---------------------------------------------------------------------------
// The tick cadence
// ---------------------------------------------------------------------------

/// The bounds of the randomized pause between ticks.
pub const TICK_PAUSE_MIN_SECS: u64 = 10;

pub const TICK_PAUSE_MAX_SECS: u64 = 20;

/// Relies on `rand::random_range`: a uniform draw from the given
/// half-open range; the result lies in the range, and an empty range
/// would panic, which the precondition rules out.
#[verifier::external_body]
fn random_secs_in(lo: u64, hi: u64) -> (s: u64)
    requires
        lo < hi,
    ensures
        lo <= s < hi,
{
    rand::random_range(lo..hi)
}

/// The pause before the next monitor tick: randomized within a bounded
/// range, so outside actors cannot predict the monitor's cadence.
pub fn tick_pause_secs() -> (s: u64)
    ensures
        TICK_PAUSE_MIN_SECS <= s < TICK_PAUSE_MAX_SECS,
{
    random_secs_in(TICK_PAUSE_MIN_SECS, TICK_PAUSE_MAX_SECS)
}

} // verus!
