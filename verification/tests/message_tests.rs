use netmon::message::{
    broadcast_channel, client_channel, client_handle_message, client_user, connect_request,
    connect_request_now, connecting_channel, env_report, handlers_channel, heartbeat_message,
    heartbeat_message_now, str_eq, wants_env_report, Message,
};

#[test]
fn connect_request_fields() {
    let m = connect_request("abc", "xyz", 5);
    assert_eq!(m.stamp, 5);
    assert_eq!(m.from, "abc");
    assert_eq!(m.event, "");
    assert_eq!(m.action, "auth_request");
    assert_eq!(m.target, "");
    assert_eq!(m.data, "xyz");
}

#[test]
fn stamped_builders_fill_all_other_fields() {
    let m = connect_request_now("abc", "xyz");
    assert_eq!(m.from, "abc");
    assert_eq!(m.action, "auth_request");
    assert_eq!(m.data, "xyz");
    let h = heartbeat_message_now();
    assert_eq!(h.from, "server");
    assert_eq!(h.event, "heartbeat");
    assert_eq!(h.action, "");
}

#[test]
fn heartbeat_message_fields() {
    let m = heartbeat_message(77);
    assert_eq!(m.stamp, 77);
    assert_eq!(m.from, "server");
    assert_eq!(m.event, "heartbeat");
    assert_eq!(m.action, "");
    assert_eq!(m.target, "");
    assert_eq!(m.data, "");
}

#[test]
fn channel_names() {
    assert_eq!(connecting_channel(), "clients:msg:connecting");
    assert_eq!(broadcast_channel(), "clients:msg:all");
    assert_eq!(handlers_channel(), "handlers:msg:all");
    assert_eq!(client_channel("abc"), "clients:msg:abc");
    assert_eq!(client_user("abc"), "client:abc");
}

#[test]
fn default_message_is_empty() {
    let m = Message::default();
    assert_eq!(m.stamp, 0);
    assert_eq!(m.from, "");
    assert_eq!(m.data, "");
}

#[test]
fn empty_message_has_all_fields_present_and_empty() {
    let m = Message::new_empty();
    assert_eq!(m.stamp, 0);
    assert_eq!(m.from, "");
    assert_eq!(m.event, "");
    assert_eq!(m.action, "");
    assert_eq!(m.target, "");
    assert_eq!(m.data, "");
}

#[test]
fn env_query_detection() {
    let mut q = Message::new_empty();
    q.from = "server".to_owned();
    q.event = "query".to_owned();
    q.target = "clients".to_owned();
    q.action = "env_vars_os".to_owned();
    assert!(wants_env_report(&q));
    q.from = "abc".to_owned();
    assert!(!wants_env_report(&q));
    q.from = "server".to_owned();
    q.target = "server".to_owned();
    assert!(!wants_env_report(&q));
}

#[test]
fn client_answers_env_query_on_its_own_channel() {
    let mut q = Message::new_empty();
    q.from = "server".to_owned();
    q.event = "query".to_owned();
    q.target = "clients".to_owned();
    q.action = "env_vars_os".to_owned();
    let reply = client_handle_message("abc", 9, &q, "HOME=/root").expect("a query gets a reply");
    assert_eq!(reply.from, "abc");
    assert_eq!(reply.stamp, 9);
    assert_eq!(reply.event, "query");
    assert_eq!(reply.action, "env_vars_os");
    assert_eq!(reply.target, "server");
    assert_eq!(reply.data, "HOME=/root");
    // a heartbeat gets no reply
    assert!(client_handle_message("abc", 9, &heartbeat_message(1), "").is_none());
}

#[test]
fn env_report_fields() {
    let m = env_report("abc", 3, "K=V");
    assert_eq!(m.from, "abc");
    assert_eq!(m.target, "server");
    assert_eq!(m.data, "K=V");
}

#[test]
fn str_eq_compares_contents() {
    assert!(str_eq("abc", "abc"));
    assert!(!str_eq("abc", "abd"));
    assert!(str_eq("", ""));
    assert!(!str_eq("a", ""));
}
