//! The admission decision and its effect on the authorization store.
//!
//! The store itself is an external service; this module models the state
//! the protocol keeps in it — the set of known client identities, the
//! per-identity capability grants, the heartbeat key and the two control
//! flags — and computes, for each connect request, exactly the next store
//! state. The driver replays those effects as store commands.

use vstd::prelude::*;
use crate::message::{Message, MessageView, client_channel, client_channel_spec, str_eq};

verus! {

/// The two bus operations a capability can allow.
#[derive(Clone, Copy, PartialEq, Eq, Structural)]
pub enum CapOp {
    Publish,
    Subscribe,
}

/// Leave to perform one operation on one named channel.
#[derive(Clone)]
pub struct Capability {
    pub op: CapOp,
    pub channel: String,
}

pub struct CapabilityView {
    pub op: CapOp,
    pub channel: Seq<char>,
}

impl View for Capability {
    type V = CapabilityView;

    open spec fn view(&self) -> CapabilityView {
        CapabilityView { op: self.op, channel: self.channel@ }
    }
}

/// One identity's authorization: enabled with its secret and an explicit
/// allow-list of capabilities over a default-deny baseline.
#[derive(Clone)]
pub struct Grant {
    pub identity: String,
    pub secret: String,
    pub caps: Vec<Capability>,
}

pub struct GrantView {
    pub identity: Seq<char>,
    pub secret: Seq<char>,
    pub caps: Seq<CapabilityView>,
}

impl View for Grant {
    type V = GrantView;

    open spec fn view(&self) -> GrantView {
        GrantView {
            identity: self.identity@,
            secret: self.secret@,
            caps: self.caps@.map_values(|c: Capability| c@),
        }
    }
}

/// The exact capability set every admitted client gets: publish on its own
/// channel, subscribe on its own channel, subscribe on the broadcast
/// channel — and nothing else.
pub open spec fn grant_caps_spec(identity: Seq<char>) -> Seq<CapabilityView> {
    seq![
        CapabilityView { op: CapOp::Publish, channel: client_channel_spec(identity) },
        CapabilityView { op: CapOp::Subscribe, channel: client_channel_spec(identity) },
        CapabilityView { op: CapOp::Subscribe, channel: "clients:msg:all"@ },
    ]
}

/// The grant provisioned for one connect request.
pub open spec fn grant_spec(identity: Seq<char>, secret: Seq<char>) -> GrantView {
    GrantView { identity, secret, caps: grant_caps_spec(identity) }
}

/// Builds the grant for `identity` with `secret`: exactly the three
/// capabilities of [`grant_caps_spec`], never more.
pub fn make_grant(identity: &str, secret: &str) -> (g: Grant)
    ensures
        g@ == grant_spec(identity@, secret@),
{
    let mut caps: Vec<Capability> = Vec::new();
    caps.push(Capability { op: CapOp::Publish, channel: client_channel(identity) });
    caps.push(Capability { op: CapOp::Subscribe, channel: client_channel(identity) });
    caps.push(
        Capability { op: CapOp::Subscribe, channel: crate::message::broadcast_channel() },
    );
    let g = Grant { identity: identity.to_owned(), secret: secret.to_owned(), caps };
    proof {
        assert(g@.caps =~= grant_caps_spec(identity@));
    }
    g
}

/// A connect request the handler acts on: the admission verb with a
/// non-empty identity and a non-empty secret.
pub open spec fn is_valid_connect(m: MessageView) -> bool {
    &&& m.action == "auth_request"@
    &&& m.from.len() > 0
    &&& m.data.len() > 0
}

/// Decides whether a message is a connect request the handler acts on.
/// Anything else — wrong verb, empty identity, empty secret — is rejected
/// silently: the connecting channel is public and unauthenticated.
pub fn check_connect(m: &Message) -> (r: bool)
    ensures
        r == is_valid_connect(m@),
{
    str_eq(m.action.as_str(), "auth_request") && !m.from.as_str().is_empty()
        && !m.data.as_str().is_empty()
}

// ---------------------------------------------------------------------------
// The store model
// ---------------------------------------------------------------------------

/// The state the protocol keeps in the authorization store.
pub struct StoreModel {
    /// The registered client identities (a set; no duplicates).
    pub clients: Vec<String>,
    /// The capability grants, keyed by identity (no duplicate keys).
    pub grants: Vec<Grant>,
    /// The heartbeat key: the last timestamp the monitor wrote.
    pub heartbeat: i64,
    /// The reset control flag; `None` while the key is absent.
    pub reset: Option<bool>,
    /// The audit control flag; `None` while the key is absent.
    pub audit: Option<bool>,
}

pub struct StoreModelView {
    pub clients: Set<Seq<char>>,
    pub grants: Map<Seq<char>, GrantView>,
    pub heartbeat: int,
    pub reset: Option<bool>,
    pub audit: Option<bool>,
}

/// The map held by a sequence of grants, later entries winning.
pub open spec fn grants_map(gs: Seq<GrantView>) -> Map<Seq<char>, GrantView>
    decreases gs.len(),
{
    if gs.len() == 0 {
        Map::empty()
    } else {
        grants_map(gs.drop_last()).insert(gs.last().identity, gs.last())
    }
}

/// No two grant entries share an identity.
pub open spec fn grants_wf(gs: Seq<GrantView>) -> bool {
    forall|a: int, b: int| 0 <= a < b < gs.len() ==> gs[a].identity != gs[b].identity
}

impl View for StoreModel {
    type V = StoreModelView;

    open spec fn view(&self) -> StoreModelView {
        StoreModelView {
            clients: self.clients@.map_values(|s: String| s@).to_set(),
            grants: grants_map(self.grants@.map_values(|g: Grant| g@)),
            heartbeat: self.heartbeat as int,
            reset: self.reset,
            audit: self.audit,
        }
    }
}

impl StoreModel {
    pub open spec fn wf(self) -> bool {
        grants_wf(self.grants@.map_values(|g: Grant| g@))
    }

    /// A store with nothing in it and both control flag keys absent.
    pub fn new_empty() -> (st: StoreModel)
        ensures
            st.wf(),
            st@.clients == Set::<Seq<char>>::empty(),
            st@.grants == Map::<Seq<char>, GrantView>::empty(),
            st@.heartbeat == 0,
            st@.reset is None,
            st@.audit is None,
    {
        let st = StoreModel {
            clients: Vec::new(),
            grants: Vec::new(),
            heartbeat: 0,
            reset: None,
            audit: None,
        };
        proof {
            assert(st.clients@.map_values(|s: String| s@) =~= Seq::<Seq<char>>::empty());
            assert(st.grants@.map_values(|g: Grant| g@) =~= Seq::<GrantView>::empty());
            assert(st@.clients =~= Set::<Seq<char>>::empty());
        }
        st
    }
}

/// What one connect request does to the store: registers the identity and
/// overwrites its grant with exactly [`grant_spec`]. Invalid requests leave
/// the store untouched.
pub open spec fn handle_connect_spec(st: StoreModelView, m: MessageView) -> StoreModelView {
    if is_valid_connect(m) {
        StoreModelView {
            clients: st.clients.insert(m.from),
            grants: st.grants.insert(m.from, grant_spec(m.from, m.data)),
            ..st
        }
    } else {
        st
    }
}

proof fn lemma_grants_map_push(gs: Seq<GrantView>, g: GrantView)
    ensures
        grants_map(gs.push(g)) == grants_map(gs).insert(g.identity, g),
{
    assert(gs.push(g).drop_last() =~= gs);
    assert(gs.push(g).last() == g);
}

proof fn lemma_grants_map_update(gs: Seq<GrantView>, idx: int, g: GrantView)
    requires
        grants_wf(gs),
        0 <= idx < gs.len(),
        gs[idx].identity == g.identity,
    ensures
        grants_map(gs.update(idx, g)) == grants_map(gs).insert(g.identity, g),
    decreases gs.len(),
{
    let id = g.identity;
    if idx == gs.len() - 1 {
        assert(gs.update(idx, g).drop_last() =~= gs.drop_last());
        assert(gs.update(idx, g).last() == g);
        assert(grants_map(gs.drop_last()).insert(id, g) =~= grants_map(gs.drop_last()).insert(
            id,
            gs.last(),
        ).insert(id, g));
    } else {
        assert(forall|a: int, b: int|
            0 <= a < b < gs.drop_last().len() ==> gs.drop_last()[a].identity
                != gs.drop_last()[b].identity);
        lemma_grants_map_update(gs.drop_last(), idx, g);
        assert(gs.update(idx, g).drop_last() =~= gs.drop_last().update(idx, g));
        assert(gs.update(idx, g).last() == gs.last());
        assert(gs.last().identity != id);
        assert(grants_map(gs.drop_last()).insert(id, g).insert(gs.last().identity, gs.last())
            =~= grants_map(gs.drop_last()).insert(gs.last().identity, gs.last()).insert(id, g));
    }
}

/// If no entry carries `id`, the map does not hold `id` either.
proof fn lemma_grants_map_absent(gs: Seq<GrantView>, id: Seq<char>)
    requires
        forall|k: int| 0 <= k < gs.len() ==> gs[k].identity != id,
    ensures
        !grants_map(gs).dom().contains(id),
    decreases gs.len(),
{
    if gs.len() > 0 {
        lemma_grants_map_absent(gs.drop_last(), id);
    }
}

impl StoreModel {
    /// Whether `identity` is a registered client.
    pub fn has_client(&self, identity: &str) -> (r: bool)
        ensures
            r == self@.clients.contains(identity@),
    {
        let mut k: usize = 0;
        let ghost cs = self.clients@.map_values(|s: String| s@);
        while k < self.clients.len()
            invariant
                k <= self.clients@.len(),
                cs == self.clients@.map_values(|s: String| s@),
                forall|t: int| 0 <= t < k as int ==> cs[t] != identity@,
            decreases self.clients@.len() - k,
        {
            if str_eq(self.clients[k].as_str(), identity) {
                proof {
                    assert(cs[k as int] == identity@);
                }
                return true;
            }
            k += 1;
        }
        proof {
            assert(!cs.contains(identity@));
        }
        false
    }

    /// The position of `identity`'s grant entry, if any.
    fn find_grant_index(&self, identity: &str) -> (r: Option<usize>)
        ensures
            ({
                let gs = self.grants@.map_values(|g: Grant| g@);
                match r {
                    Some(idx) => idx < gs.len() && gs[idx as int].identity == identity@,
                    None => forall|k: int| 0 <= k < gs.len() ==> gs[k].identity != identity@,
                }
            }),
    {
        let ghost gs = self.grants@.map_values(|g: Grant| g@);
        let mut k: usize = 0;
        while k < self.grants.len()
            invariant
                k <= self.grants@.len(),
                gs == self.grants@.map_values(|g: Grant| g@),
                forall|t: int| 0 <= t < k as int ==> gs[t].identity != identity@,
            decreases self.grants@.len() - k,
        {
            if str_eq(self.grants[k].identity.as_str(), identity) {
                return Some(k);
            }
            k += 1;
        }
        None
    }

    /// The grant currently held for `identity`, if any.
    pub fn grant_of(&self, identity: &str) -> (r: Option<&Grant>)
        requires
            self.wf(),
        ensures
            match r {
                Some(g) => self@.grants.dom().contains(identity@) && self@.grants[identity@]
                    == g@,
                None => !self@.grants.dom().contains(identity@),
            },
    {
        let ghost gs = self.grants@.map_values(|g: Grant| g@);
        match self.find_grant_index(identity) {
            Some(idx) => {
                proof {
                    lemma_grants_map_at(gs, idx as int);
                }
                Some(&self.grants[idx])
            },
            None => {
                proof {
                    lemma_grants_map_absent(gs, identity@);
                }
                None
            },
        }
    }

    /// Applies one received connect request to the store: a valid request
    /// registers the identity and overwrites its grant with exactly the
    /// three-capability set; an invalid one changes nothing. Re-applying
    /// the same request is idempotent, so duplicate requests from client
    /// retries are safe.
    pub fn apply_connect(&mut self, m: &Message)
        requires
            old(self).wf(),
        ensures
            final(self).wf(),
            final(self)@ == handle_connect_spec(old(self)@, m@),
    {
        if !check_connect(m) {
            return ;
        }
        let ghost pre = self@;
        // register the identity (a set insert: no duplicates)
        if !self.has_client(m.from.as_str()) {
            let ghost cs0 = self.clients@.map_values(|s: String| s@);
            self.clients.push(m.from.clone());
            proof {
                assert(self.clients@.map_values(|s: String| s@) =~= cs0 + seq![m.from@]);
                Seq::lemma_to_set_insert_commutes(cs0, m.from@);
                assert(self@.clients =~= pre.clients.insert(m.from@));
            }
        } else {
            proof {
                assert(self@.clients =~= pre.clients.insert(m.from@));
            }
        }
        // provision the grant (an idempotent overwrite)
        let g = make_grant(m.from.as_str(), m.data.as_str());
        let ghost gs0 = self.grants@.map_values(|gr: Grant| gr@);
        match self.find_grant_index(m.from.as_str()) {
            Some(idx) => {
                self.grants.set(idx, g);
                proof {
                    assert(self.grants@.map_values(|gr: Grant| gr@) =~= gs0.update(
                        idx as int,
                        grant_spec(m.from@, m.data@),
                    ));
                    lemma_grants_map_update(gs0, idx as int, grant_spec(m.from@, m.data@));
                }
            },
            None => {
                self.grants.push(g);
                proof {
                    assert(self.grants@.map_values(|gr: Grant| gr@) =~= gs0.push(
                        grant_spec(m.from@, m.data@),
                    ));
                    lemma_grants_map_push(gs0, grant_spec(m.from@, m.data@));
                }
            },
        }
        proof {
            assert(self@ == handle_connect_spec(pre, m@));
        }
    }
}

/// Every entry of a well-formed grant list is what its map yields for its
/// identity.
proof fn lemma_grants_map_at(gs: Seq<GrantView>, idx: int)
    requires
        grants_wf(gs),
        0 <= idx < gs.len(),
    ensures
        grants_map(gs).dom().contains(gs[idx].identity),
        grants_map(gs)[gs[idx].identity] == gs[idx],
    decreases gs.len(),
{
    if idx == gs.len() - 1 {
    } else {
        assert(forall|a: int, b: int|
            0 <= a < b < gs.drop_last().len() ==> gs.drop_last()[a].identity
                != gs.drop_last()[b].identity);
        lemma_grants_map_at(gs.drop_last(), idx);
        assert(gs.last().identity != gs[idx].identity);
    }
}

// ---------------------------------------------------------------------------
// The laws of admission
// ---------------------------------------------------------------------------

/// A valid connect request provisions a grant whose capability set is
/// exactly {publish own, subscribe own, subscribe broadcast} — never more.
pub proof fn lemma_grant_caps_exact(st: StoreModelView, m: MessageView)
    requires
        is_valid_connect(m),
    ensures
        handle_connect_spec(st, m).grants.dom().contains(m.from),
        handle_connect_spec(st, m).grants[m.from].caps == grant_caps_spec(m.from),
        handle_connect_spec(st, m).grants[m.from].caps.len() == 3,
{
}

/// Provisioning the same connect request twice yields the same store as
/// provisioning it once: duplicate requests are idempotent.
pub proof fn lemma_connect_idempotent(st: StoreModelView, m: MessageView)
    ensures
        handle_connect_spec(handle_connect_spec(st, m), m) == handle_connect_spec(st, m),
{
    if is_valid_connect(m) {
        let once = handle_connect_spec(st, m);
        let twice = handle_connect_spec(once, m);
        assert(twice.clients =~= once.clients);
        assert(twice.grants =~= once.grants);
    }
}

/// A connect request with an empty identity or an empty secret, or with
/// any other verb, produces no grant and no store mutation at all.
pub proof fn lemma_invalid_connect_no_mutation(st: StoreModelView, m: MessageView)
    requires
        !is_valid_connect(m),
    ensures
        handle_connect_spec(st, m) == st,
{
}

} // verus!
