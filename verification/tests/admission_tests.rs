use netmon::admission::{check_connect, make_grant, CapOp, StoreModel};
use netmon::codec::{parse_message, serialize_message};
use netmon::message::{client_channel, connect_request, Message};

#[test]
fn valid_connect_provisions_exact_capability_set() {
    let mut store = StoreModel::new_empty();
    store.apply_connect(&connect_request("abc", "xyz", 1));
    let g = store.grant_of("abc").expect("grant must exist");
    assert_eq!(g.identity, "abc");
    assert_eq!(g.secret, "xyz");
    assert_eq!(g.caps.len(), 3);
    assert!(matches!(g.caps[0].op, CapOp::Publish));
    assert_eq!(g.caps[0].channel, "clients:msg:abc");
    assert!(matches!(g.caps[1].op, CapOp::Subscribe));
    assert_eq!(g.caps[1].channel, "clients:msg:abc");
    assert!(matches!(g.caps[2].op, CapOp::Subscribe));
    assert_eq!(g.caps[2].channel, "clients:msg:all");
}

#[test]
fn duplicate_connect_is_idempotent() {
    let mut store = StoreModel::new_empty();
    let m = connect_request("abc", "xyz", 1);
    store.apply_connect(&m);
    store.apply_connect(&m);
    let g = store.grant_of("abc").expect("grant must exist");
    assert_eq!(g.identity, "abc");
    assert_eq!(g.secret, "xyz");
    assert_eq!(g.caps.len(), 3);
    assert!(store.has_client("abc"));
}

#[test]
fn later_connect_overwrites_the_secret() {
    let mut store = StoreModel::new_empty();
    store.apply_connect(&connect_request("abc", "old", 1));
    store.apply_connect(&connect_request("abc", "new", 2));
    let g = store.grant_of("abc").expect("grant must exist");
    assert_eq!(g.secret, "new");
    assert_eq!(g.caps.len(), 3);
}

#[test]
fn empty_identity_or_secret_mutates_nothing() {
    let mut store = StoreModel::new_empty();
    store.apply_connect(&connect_request("", "xyz", 1));
    store.apply_connect(&connect_request("abc", "", 1));
    assert!(!store.has_client(""));
    assert!(!store.has_client("abc"));
    assert!(store.grant_of("").is_none());
    assert!(store.grant_of("abc").is_none());
}

#[test]
fn other_verbs_mutate_nothing() {
    let mut store = StoreModel::new_empty();
    let mut m = connect_request("abc", "xyz", 1);
    m.action = "env_vars_os".to_owned();
    assert!(!check_connect(&m));
    store.apply_connect(&m);
    assert!(!store.has_client("abc"));
    assert!(store.grant_of("abc").is_none());
}

#[test]
fn make_grant_builds_the_three_capabilities() {
    let g = make_grant("id1", "s3cr3t");
    assert_eq!(g.caps.len(), 3);
    assert_eq!(g.caps[0].channel, "clients:msg:id1");
    assert_eq!(g.caps[2].channel, "clients:msg:all");
}

#[test]
fn admission_scenario_end_to_end() {
    // the client generates credentials and publishes a connect request
    let request = connect_request("abc", "xyz", 10);
    assert_eq!(request.from, "abc");
    assert_eq!(request.action, "auth_request");
    assert_eq!(request.data, "xyz");
    let wire = serialize_message(&request);

    // the handler receives it from the connecting channel and provisions
    let received: Message = parse_message(wire.as_str()).expect("wire form must parse");
    assert!(check_connect(&received));
    let mut store = StoreModel::new_empty();
    store.apply_connect(&received);

    // the client may now authenticate with (abc, xyz)
    let g = store.grant_of("abc").expect("grant must exist");
    assert_eq!(g.secret, "xyz");

    // it may use its own channel and the broadcast channel, nothing else
    let own = client_channel("abc");
    assert_eq!(own, "clients:msg:abc");
    assert!(g.caps.iter().any(|c| matches!(c.op, CapOp::Subscribe) && c.channel == "clients:msg:abc"));
    assert!(g.caps.iter().any(|c| matches!(c.op, CapOp::Subscribe) && c.channel == "clients:msg:all"));
    assert!(g.caps.iter().any(|c| matches!(c.op, CapOp::Publish) && c.channel == "clients:msg:abc"));
    assert!(!g.caps.iter().any(|c| c.channel == "clients:msg:other"));
}
