//! The client side of the admission handshake, as an explicit state
//! machine.
//!
//! The driver owns the I/O: it publishes the connect request, polls
//! authentication, subscribes and receives. Every decision — what to do
//! next, when to give up — is taken here, by a pure transition function
//! over the state and the observed event, so the bounded-retry policy is
//! provable in isolation from the bus.

use vstd::prelude::*;

verus! {

/// The retry budgets of one admission session. These are tunable
/// deployment constants; the defaults below match the reference
/// deployment.
pub struct HandshakeConfig {
    /// How many times the connect request is published while nobody
    /// subscribes before the session fails with no-server.
    pub publish_budget: u8,
    /// How many failed authentication polls are allowed before the session
    /// fails with auth-timeout.
    pub auth_budget: u8,
}

pub const DEFAULT_PUBLISH_BUDGET: u8 = 10;

pub const DEFAULT_AUTH_BUDGET: u8 = 10;

impl HandshakeConfig {
    pub open spec fn wf(self) -> bool {
        self.publish_budget >= 1 && self.auth_budget >= 1
    }
}

/// The budgets of the reference deployment.
pub fn default_config() -> (cfg: HandshakeConfig)
    ensures
        cfg.wf(),
        cfg.publish_budget == 10,
        cfg.auth_budget == 10,
{
    HandshakeConfig { publish_budget: DEFAULT_PUBLISH_BUDGET, auth_budget: DEFAULT_AUTH_BUDGET }
}

/// The states of one admission session. The two failure states are
/// terminal for the session; the process-level supervisor decides whether
/// a fresh session starts.
#[derive(Clone, Copy, PartialEq, Eq, Structural, Debug)]
pub enum HandshakeState {
    /// Publishing the connect request until somebody listens.
    Connecting { attempts: u8 },
    /// Polling authentication until the grant is provisioned.
    Authenticating { attempts: u8 },
    /// Admitted: subscribed and receiving. Steady state.
    Listening,
    /// The publish budget ran out with no subscriber seen.
    FailedNoServer,
    /// The authentication budget ran out without a grant.
    FailedAuthTimeout,
}

/// What the driver observed since the last step.
#[derive(Clone, Copy, PartialEq, Eq, Structural, Debug)]
pub enum HandshakeEvent {
    /// The connect request was published; this many subscribers saw it.
    PublishSeen { subscribers: u64 },
    /// One authentication attempt came back, granted or not.
    AuthChecked { granted: bool },
}

/// What the driver must do next in a given state.
#[derive(Clone, Copy, PartialEq, Eq, Structural, Debug)]
pub enum HandshakeAction {
    /// Publish the connect request on the connecting channel, then report
    /// the subscriber count.
    PublishConnect,
    /// Wait the poll interval, try to authenticate, then report the
    /// outcome.
    TryAuth,
    /// Subscribe to the broadcast channel and the own channel and receive.
    Listen,
    /// Give up this session: no server was listening.
    ReportNoServer,
    /// Give up this session: authentication timed out.
    ReportAuthTimeout,
}

/// A session starts by publishing, with no attempts spent.
pub fn initial_state() -> (st: HandshakeState)
    ensures
        st == (HandshakeState::Connecting { attempts: 0u8 }),
{
    HandshakeState::Connecting { attempts: 0 }
}

/// Attempt counters never reach their budget.
pub open spec fn state_wf(cfg: HandshakeConfig, st: HandshakeState) -> bool {
    match st {
        HandshakeState::Connecting { attempts } => attempts < cfg.publish_budget,
        HandshakeState::Authenticating { attempts } => attempts < cfg.auth_budget,
        _ => true,
    }
}

/// The transition function. Connecting counts publishes that nobody saw
/// and moves to Authenticating on the first subscriber; Authenticating
/// counts refused polls and moves to Listening on the first grant; a
/// counter reaching its budget fails the session. Terminal states and
/// mismatched events change nothing.
pub open spec fn step_spec(cfg: HandshakeConfig, st: HandshakeState, ev: HandshakeEvent) -> HandshakeState {
    match (st, ev) {
        (
            HandshakeState::Connecting { attempts },
            HandshakeEvent::PublishSeen { subscribers },
        ) => {
            if subscribers > 0 {
                HandshakeState::Authenticating { attempts: 0u8 }
            } else if attempts + 1 >= cfg.publish_budget {
                HandshakeState::FailedNoServer
            } else {
                HandshakeState::Connecting { attempts: (attempts + 1) as u8 }
            }
        },
        (HandshakeState::Authenticating { attempts }, HandshakeEvent::AuthChecked { granted }) => {
            if granted {
                HandshakeState::Listening
            } else if attempts + 1 >= cfg.auth_budget {
                HandshakeState::FailedAuthTimeout
            } else {
                HandshakeState::Authenticating { attempts: (attempts + 1) as u8 }
            }
        },
        _ => st,
    }
}

/// One step of the session, as the driver reports an event.
pub fn handshake_step(cfg: &HandshakeConfig, st: HandshakeState, ev: HandshakeEvent) -> (next:
    HandshakeState)
    requires
        cfg.wf(),
        state_wf(*cfg, st),
    ensures
        next == step_spec(*cfg, st, ev),
        state_wf(*cfg, next),
{
    match (st, ev) {
        (
            HandshakeState::Connecting { attempts },
            HandshakeEvent::PublishSeen { subscribers },
        ) => {
            if subscribers > 0 {
                HandshakeState::Authenticating { attempts: 0 }
            } else if attempts + 1 >= cfg.publish_budget {
                HandshakeState::FailedNoServer
            } else {
                HandshakeState::Connecting { attempts: attempts + 1 }
            }
        },
        (HandshakeState::Authenticating { attempts }, HandshakeEvent::AuthChecked { granted }) => {
            if granted {
                HandshakeState::Listening
            } else if attempts + 1 >= cfg.auth_budget {
                HandshakeState::FailedAuthTimeout
            } else {
                HandshakeState::Authenticating { attempts: attempts + 1 }
            }
        },
        (s, _) => s,
    }
}

pub open spec fn action_spec(st: HandshakeState) -> HandshakeAction {
    match st {
        HandshakeState::Connecting { .. } => HandshakeAction::PublishConnect,
        HandshakeState::Authenticating { .. } => HandshakeAction::TryAuth,
        HandshakeState::Listening => HandshakeAction::Listen,
        HandshakeState::FailedNoServer => HandshakeAction::ReportNoServer,
        HandshakeState::FailedAuthTimeout => HandshakeAction::ReportAuthTimeout,
    }
}

/// What to do in the current state. Subscribing to the protected channels
/// happens exactly in the Listening state, never before admission.
pub fn next_action(st: &HandshakeState) -> (a: HandshakeAction)
    ensures
        a == action_spec(*st),
        (a is Listen) <==> (*st is Listening),
{
    match st {
        HandshakeState::Connecting { .. } => HandshakeAction::PublishConnect,
        HandshakeState::Authenticating { .. } => HandshakeAction::TryAuth,
        HandshakeState::Listening => HandshakeAction::Listen,
        HandshakeState::FailedNoServer => HandshakeAction::ReportNoServer,
        HandshakeState::FailedAuthTimeout => HandshakeAction::ReportAuthTimeout,
    }
}

/// The session state after a whole sequence of observed events.
pub open spec fn run_spec(cfg: HandshakeConfig, st: HandshakeState, evs: Seq<HandshakeEvent>) -> HandshakeState
    decreases evs.len(),
{
    if evs.len() == 0 {
        st
    } else {
        run_spec(cfg, step_spec(cfg, st, evs[0]), evs.drop_first())
    }
}

/// A failed session stays failed, whatever else is observed.
pub proof fn lemma_terminal_absorbs(cfg: HandshakeConfig, st: HandshakeState, evs: Seq<
    HandshakeEvent,
>)
    requires
        st is FailedNoServer || st is FailedAuthTimeout,
    ensures
        run_spec(cfg, st, evs) == st,
    decreases evs.len(),
{
    if evs.len() > 0 {
        lemma_terminal_absorbs(cfg, step_spec(cfg, st, evs[0]), evs.drop_first());
    }
}

proof fn lemma_no_server_from(cfg: HandshakeConfig, a: u8, evs: Seq<HandshakeEvent>)
    requires
        cfg.wf(),
        a < cfg.publish_budget,
        forall|k: int|
            0 <= k < evs.len() ==> evs[k] == (HandshakeEvent::PublishSeen { subscribers: 0u64 }),
        evs.len() >= cfg.publish_budget - a,
    ensures
        run_spec(cfg, HandshakeState::Connecting { attempts: a }, evs)
            == HandshakeState::FailedNoServer,
    decreases evs.len(),
{
    let st = HandshakeState::Connecting { attempts: a };
    let next = step_spec(cfg, st, evs[0]);
    if a + 1 >= cfg.publish_budget {
        lemma_terminal_absorbs(cfg, next, evs.drop_first());
    } else {
        assert(forall|k: int|
            0 <= k < evs.drop_first().len() ==> evs.drop_first()[k] == (HandshakeEvent::PublishSeen {
                subscribers: 0u64,
            }));
        lemma_no_server_from(cfg, (a + 1) as u8, evs.drop_first());
    }
}

/// The admission budget is bounded: a fresh session that only ever sees
/// zero subscribers reports no-server once the configured number of
/// publish attempts is spent — it does not loop on.
pub proof fn lemma_no_server_bounded(cfg: HandshakeConfig, evs: Seq<HandshakeEvent>)
    requires
        cfg.wf(),
        forall|k: int|
            0 <= k < evs.len() ==> evs[k] == (HandshakeEvent::PublishSeen { subscribers: 0u64 }),
        evs.len() >= cfg.publish_budget,
    ensures
        run_spec(cfg, HandshakeState::Connecting { attempts: 0u8 }, evs)
            == HandshakeState::FailedNoServer,
{
    lemma_no_server_from(cfg, 0u8, evs);
}

proof fn lemma_auth_timeout_from(cfg: HandshakeConfig, a: u8, evs: Seq<HandshakeEvent>)
    requires
        cfg.wf(),
        a < cfg.auth_budget,
        forall|k: int|
            0 <= k < evs.len() ==> evs[k] == (HandshakeEvent::AuthChecked { granted: false }),
        evs.len() >= cfg.auth_budget - a,
    ensures
        run_spec(cfg, HandshakeState::Authenticating { attempts: a }, evs)
            == HandshakeState::FailedAuthTimeout,
    decreases evs.len(),
{
    let st = HandshakeState::Authenticating { attempts: a };
    let next = step_spec(cfg, st, evs[0]);
    if a + 1 >= cfg.auth_budget {
        lemma_terminal_absorbs(cfg, next, evs.drop_first());
    } else {
        assert(forall|k: int|
            0 <= k < evs.drop_first().len() ==> evs.drop_first()[k] == (HandshakeEvent::AuthChecked {
                granted: false,
            }));
        lemma_auth_timeout_from(cfg, (a + 1) as u8, evs.drop_first());
    }
}

proof fn lemma_auth_never_listening_from(cfg: HandshakeConfig, a: u8, evs: Seq<HandshakeEvent>, k: int)
    requires
        cfg.wf(),
        a < cfg.auth_budget,
        forall|t: int|
            0 <= t < evs.len() ==> evs[t] == (HandshakeEvent::AuthChecked { granted: false }),
        0 <= k <= evs.len(),
    ensures
        !(run_spec(cfg, HandshakeState::Authenticating { attempts: a }, evs.take(k))
            is Listening),
    decreases k,
{
    let st = HandshakeState::Authenticating { attempts: a };
    if k == 0 {
        assert(evs.take(0) =~= Seq::<HandshakeEvent>::empty());
    } else {
        let pre = evs.take(k);
        assert(pre[0] == evs[0]);
        let next = step_spec(cfg, st, evs[0]);
        assert(pre.drop_first() =~= evs.drop_first().take(k - 1));
        if a + 1 >= cfg.auth_budget {
            lemma_terminal_absorbs(cfg, next, pre.drop_first());
        } else {
            assert(forall|t: int|
                0 <= t < evs.drop_first().len() ==> evs.drop_first()[t]
                    == (HandshakeEvent::AuthChecked { granted: false }));
            lemma_auth_never_listening_from(cfg, (a + 1) as u8, evs.drop_first(), k - 1);
        }
    }
}

/// The authentication budget is bounded: a session whose polls are all
/// refused reports auth-timeout once the budget is spent, and at no point
/// along the way is it in the Listening state — so it never subscribes to
/// the protected channels.
pub proof fn lemma_auth_timeout_bounded(cfg: HandshakeConfig, evs: Seq<HandshakeEvent>)
    requires
        cfg.wf(),
        forall|k: int|
            0 <= k < evs.len() ==> evs[k] == (HandshakeEvent::AuthChecked { granted: false }),
        evs.len() >= cfg.auth_budget,
    ensures
        run_spec(cfg, HandshakeState::Authenticating { attempts: 0u8 }, evs)
            == HandshakeState::FailedAuthTimeout,
        forall|k: int|
            0 <= k <= evs.len() ==> !(run_spec(
                cfg,
                HandshakeState::Authenticating { attempts: 0u8 },
                evs.take(k),
            ) is Listening),
{
    lemma_auth_timeout_from(cfg, 0u8, evs);
    assert forall|k: int| 0 <= k <= evs.len() implies !(run_spec(
        cfg,
        HandshakeState::Authenticating { attempts: 0u8 },
        evs.take(k),
    ) is Listening) by {
        lemma_auth_never_listening_from(cfg, 0u8, evs, k);
    }
}

// ---------------------------------------------------------------------------
// The process-level supervisor
// ---------------------------------------------------------------------------

/// How many session failures in short order the supervisor tolerates
/// before the process gives up.
pub const SUPERVISOR_MAX_FAILURES: u8 = 10;

/// A session that ran longer than this before failing counts as sustained
/// failure-free operation: the failure counter starts over.
pub const SUPERVISOR_RESET_WINDOW_SECS: i64 = 60;

/// The failure counter after one failed session that ran for `elapsed`
/// seconds: a failure after a long run counts as the first of a new
/// streak; otherwise it adds to the streak.
pub open spec fn supervisor_next_spec(attempts: u8, elapsed: int) -> int {
    if elapsed > SUPERVISOR_RESET_WINDOW_SECS {
        1
    } else {
        attempts + 1
    }
}

/// Counts one failed session.
pub fn supervisor_after_failure(attempts: u8, elapsed: i64) -> (next: u8)
    requires
        attempts <= SUPERVISOR_MAX_FAILURES,
    ensures
        next as int == supervisor_next_spec(attempts, elapsed as int),
{
    let base: u8 = if elapsed > SUPERVISOR_RESET_WINDOW_SECS {
        0
    } else {
        attempts
    };
    base + 1
}

/// Whether the supervisor starts another session.
pub fn supervisor_should_retry(attempts: u8) -> (r: bool)
    ensures
        r == (attempts < SUPERVISOR_MAX_FAILURES),
{
    attempts < SUPERVISOR_MAX_FAILURES
}

} // verus!
