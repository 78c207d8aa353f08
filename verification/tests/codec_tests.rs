use netmon::codec::{parse_message, serialize_message, str_chars, string_from_chars};
use netmon::message::{connect_request, Message};

fn msg(stamp: i64, from: &str, event: &str, action: &str, target: &str, data: &str) -> Message {
    Message {
        stamp,
        from: from.to_owned(),
        event: event.to_owned(),
        action: action.to_owned(),
        target: target.to_owned(),
        data: data.to_owned(),
    }
}

fn assert_round_trip(m: &Message) {
    let wire = serialize_message(m);
    let back = parse_message(wire.as_str()).expect("canonical form must parse");
    assert_eq!(back.stamp, m.stamp);
    assert_eq!(back.from, m.from);
    assert_eq!(back.event, m.event);
    assert_eq!(back.action, m.action);
    assert_eq!(back.target, m.target);
    assert_eq!(back.data, m.data);
}

#[test]
fn round_trip_connect_request() {
    assert_round_trip(&connect_request("abc", "xyz", 5));
}

#[test]
fn round_trip_empty_fields() {
    assert_round_trip(&Message::new_empty());
}

#[test]
fn round_trip_escaped_payload() {
    assert_round_trip(&msg(7, "a\"b", "e\\f", "auth_request", "x\ny", "line1\nline2\r\ttab\\\""));
}

#[test]
fn round_trip_unicode_payload() {
    assert_round_trip(&msg(42, "identitä", "größe", "auth_request", "ziel", "päyload αβγ"));
}

#[test]
fn round_trip_extreme_stamps() {
    assert_round_trip(&msg(i64::MIN, "a", "", "", "", "b"));
    assert_round_trip(&msg(i64::MAX, "a", "", "", "", "b"));
    assert_round_trip(&msg(-1, "a", "", "", "", "b"));
    assert_round_trip(&msg(0, "", "", "", "", ""));
}

#[test]
fn serialize_exact_document() {
    let wire = serialize_message(&connect_request("abc", "xyz", 5));
    assert_eq!(
        wire,
        "stamp = 5\nfrom = \"abc\"\nevent = \"\"\naction = \"auth_request\"\ntarget = \"\"\ndata = \"xyz\"\n"
    );
}

#[test]
fn serialize_escapes_exactly() {
    let wire = serialize_message(&msg(-12, "a\"b", "", "", "", "x\\y\nz"));
    assert_eq!(
        wire,
        "stamp = -12\nfrom = \"a\\\"b\"\nevent = \"\"\naction = \"\"\ntarget = \"\"\ndata = \"x\\\\y\\nz\"\n"
    );
}

#[test]
fn serialized_form_is_valid_toml() {
    let wire = serialize_message(&msg(99, "abc", "query", "auth_request", "server", "s\ne\"c"));
    let doc: toml::Value = toml::from_str(&wire).expect("the wire form must be a toml document");
    assert_eq!(doc.get("stamp").and_then(|v| v.as_integer()), Some(99));
    assert_eq!(doc.get("from").and_then(|v| v.as_str()), Some("abc"));
    assert_eq!(doc.get("event").and_then(|v| v.as_str()), Some("query"));
    assert_eq!(doc.get("action").and_then(|v| v.as_str()), Some("auth_request"));
    assert_eq!(doc.get("target").and_then(|v| v.as_str()), Some("server"));
    assert_eq!(doc.get("data").and_then(|v| v.as_str()), Some("s\ne\"c"));
}

#[test]
fn parse_rejects_malformed() {
    assert!(parse_message("").is_none());
    assert!(parse_message("garbage").is_none());
    assert!(parse_message("stamp = 5\n").is_none());
    assert!(parse_message("stamp = \nfrom = \"a\"\n").is_none());
    // missing closing quote
    assert!(parse_message(
        "stamp = 5\nfrom = \"abc\nevent = \"\"\naction = \"\"\ntarget = \"\"\ndata = \"\"\n"
    )
    .is_none());
    // unknown escape
    assert!(parse_message(
        "stamp = 5\nfrom = \"a\\qb\"\nevent = \"\"\naction = \"\"\ntarget = \"\"\ndata = \"\"\n"
    )
    .is_none());
    // trailing bytes after the last line
    assert!(parse_message(
        "stamp = 5\nfrom = \"a\"\nevent = \"\"\naction = \"\"\ntarget = \"\"\ndata = \"\"\nx"
    )
    .is_none());
    // stamp out of the signed 64-bit range
    assert!(parse_message(
        "stamp = 99999999999999999999\nfrom = \"a\"\nevent = \"\"\naction = \"\"\ntarget = \"\"\ndata = \"\"\n"
    )
    .is_none());
}

#[test]
fn parse_accepts_only_canonical_key_order() {
    // the same lines out of order are not the canonical document
    assert!(parse_message(
        "from = \"a\"\nstamp = 5\nevent = \"\"\naction = \"\"\ntarget = \"\"\ndata = \"\"\n"
    )
    .is_none());
}

#[test]
fn chars_round_trip() {
    let v = str_chars("héllo\nwörld");
    assert_eq!(v.len(), 11);
    assert_eq!(string_from_chars(&v), "héllo\nwörld");
}
