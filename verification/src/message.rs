use vstd::prelude::*;

verus! {

/// The only wire entity. All six fields are always present on the wire; an
/// empty string means "unset", never absence.
pub struct Message {
    /// Unix seconds, assigned by the producer.
    pub stamp: i64,
    /// Identity of the sender; `"server"` is reserved.
    pub from: String,
    /// Category, e.g. `"query"` or `"heartbeat"`.
    pub event: String,
    /// Verb, e.g. `"auth_request"`.
    pub action: String,
    /// Intended audience identity, or `"clients"` / `"server"`.
    pub target: String,
    /// Opaque payload; its schema depends on `action`.
    pub data: String,
}

/// The mathematical value of a [`Message`].
pub struct MessageView {
    pub stamp: int,
    pub from: Seq<char>,
    pub event: Seq<char>,
    pub action: Seq<char>,
    pub target: Seq<char>,
    pub data: Seq<char>,
}

impl MessageView {
    /// Every value that an executable [`Message`] can hold: the stamp fits
    /// in a signed 64-bit integer.
    pub open spec fn wf(self) -> bool {
        i64::MIN <= self.stamp <= i64::MAX
    }
}

impl View for Message {
    type V = MessageView;

    open spec fn view(&self) -> MessageView {
        MessageView {
            stamp: self.stamp as int,
            from: self.from@,
            event: self.event@,
            action: self.action@,
            target: self.target@,
            data: self.data@,
        }
    }
}

impl Message {
    /// A message with every field unset, as consumers must expect them.
    pub fn new_empty() -> (m: Message)
        ensures
            m@.stamp == 0,
            m@.from == Seq::<char>::empty(),
            m@.event == Seq::<char>::empty(),
            m@.action == Seq::<char>::empty(),
            m@.target == Seq::<char>::empty(),
            m@.data == Seq::<char>::empty(),
    {
        Message {
            stamp: 0,
            from: String::new(),
            event: String::new(),
            action: String::new(),
            target: String::new(),
            data: String::new(),
        }
    }
}

impl Default for Message {
    /// The default message equals [`Message::new_empty`]: every field
    /// present and empty.
    fn default() -> (m: Message)
        ensures
            m@.stamp == 0,
            m@.from == Seq::<char>::empty(),
            m@.event == Seq::<char>::empty(),
            m@.action == Seq::<char>::empty(),
            m@.target == Seq::<char>::empty(),
            m@.data == Seq::<char>::empty(),
    {
        Message::new_empty()
    }
}

/// Compares two string slices by their character sequences.
pub fn str_eq(a: &str, b: &str) -> (r: bool)
    ensures
        r == (a@ == b@),
{
    let sa = a.to_owned();
    let sb = b.to_owned();
    sa == sb
}

/// The channel a client publishes admission requests on.
pub fn connecting_channel() -> (c: String)
    ensures
        c@ == "clients:msg:connecting"@,
{
    String::from_str("clients:msg:connecting")
}

/// The broadcast channel every admitted client subscribes to.
pub fn broadcast_channel() -> (c: String)
    ensures
        c@ == "clients:msg:all"@,
{
    String::from_str("clients:msg:all")
}

/// The broadcast channel shared by the server's handler processes.
pub fn handlers_channel() -> (c: String)
    ensures
        c@ == "handlers:msg:all"@,
{
    String::from_str("handlers:msg:all")
}

/// The channel scoped to one identity.
pub open spec fn client_channel_spec(identity: Seq<char>) -> Seq<char> {
    "clients:msg:"@ + identity
}

/// Builds the channel name scoped to `identity`.
pub fn client_channel(identity: &str) -> (c: String)
    ensures
        c@ == client_channel_spec(identity@),
{
    String::from_str("clients:msg:").concat(identity)
}

/// The store user name under which an identity authenticates.
pub open spec fn client_user_spec(identity: Seq<char>) -> Seq<char> {
    "client:"@ + identity
}

/// Builds the store user name for `identity`.
pub fn client_user(identity: &str) -> (u: String)
    ensures
        u@ == client_user_spec(identity@),
{
    String::from_str("client:").concat(identity)
}

/// The connect request a client publishes on the connecting channel:
/// its generated identity in `from`, its generated secret in `data`.
pub fn connect_request(identity: &str, secret: &str, stamp: i64) -> (m: Message)
    ensures
        m@.stamp == stamp as int,
        m@.from == identity@,
        m@.event == Seq::<char>::empty(),
        m@.action == "auth_request"@,
        m@.target == Seq::<char>::empty(),
        m@.data == secret@,
{
    Message {
        stamp,
        from: identity.to_owned(),
        event: String::new(),
        action: String::from_str("auth_request"),
        target: String::new(),
        data: secret.to_owned(),
    }
}

/// Relies on `chrono::Utc::now` and `chrono::DateTime::timestamp`: the
/// clock's current Unix seconds. Nothing can be promised of a clock
/// reading, so callers state what holds whatever value comes back.
#[verifier::external_body]
fn clock_now_unix() -> i64 {
    chrono::Utc::now().timestamp()
}

/// A connect request stamped with the current clock reading.
pub fn connect_request_now(identity: &str, secret: &str) -> (m: Message)
    ensures
        m@.from == identity@,
        m@.event == Seq::<char>::empty(),
        m@.action == "auth_request"@,
        m@.target == Seq::<char>::empty(),
        m@.data == secret@,
{
    let now = clock_now_unix();
    connect_request(identity, secret, now)
}

/// A heartbeat message stamped with the current clock reading.
pub fn heartbeat_message_now() -> (m: Message)
    ensures
        m@.from == "server"@,
        m@.event == "heartbeat"@,
        m@.action == Seq::<char>::empty(),
        m@.target == Seq::<char>::empty(),
        m@.data == Seq::<char>::empty(),
{
    let now = clock_now_unix();
    heartbeat_message(now)
}

/// The heartbeat message the monitor publishes each tick.
pub fn heartbeat_message(now: i64) -> (m: Message)
    ensures
        m@.stamp == now as int,
        m@.from == "server"@,
        m@.event == "heartbeat"@,
        m@.action == Seq::<char>::empty(),
        m@.target == Seq::<char>::empty(),
        m@.data == Seq::<char>::empty(),
{
    Message {
        stamp: now,
        from: String::from_str("server"),
        event: String::from_str("heartbeat"),
        action: String::new(),
        target: String::new(),
        data: String::new(),
    }
}

/// True of a message that asks the clients for their environment report.
pub open spec fn is_env_query(m: MessageView) -> bool {
    &&& m.from == "server"@
    &&& m.event == "query"@
    &&& m.target == "clients"@
    &&& m.action == "env_vars_os"@
}

/// Decides whether a received message is an environment query addressed to
/// the clients.
pub fn wants_env_report(m: &Message) -> (r: bool)
    ensures
        r == is_env_query(m@),
{
    str_eq(m.from.as_str(), "server") && str_eq(m.event.as_str(), "query")
        && str_eq(m.target.as_str(), "clients")
        && str_eq(m.action.as_str(), "env_vars_os")
}

/// The reply a client publishes on its own channel after an environment
/// query: the collected report travels opaquely in `data`.
pub fn env_report(identity: &str, stamp: i64, report: &str) -> (m: Message)
    ensures
        m@.stamp == stamp as int,
        m@.from == identity@,
        m@.event == "query"@,
        m@.action == "env_vars_os"@,
        m@.target == "server"@,
        m@.data == report@,
{
    Message {
        stamp,
        from: identity.to_owned(),
        event: String::from_str("query"),
        action: String::from_str("env_vars_os"),
        target: String::from_str("server"),
        data: report.to_owned(),
    }
}

/// A client's answer to one received message: the reply to publish on its
/// own channel, or nothing. Only an environment query from the server gets
/// a reply; everything else is dropped.
pub fn client_handle_message(identity: &str, now: i64, m: &Message, report: &str) -> (r: Option<
    Message,
>)
    ensures
        is_env_query(m@) ==> (r matches Some(reply) && reply@.from == identity@ && reply@.stamp
            == now as int && reply@.event == "query"@ && reply@.action == "env_vars_os"@
            && reply@.target == "server"@ && reply@.data == report@),
        !is_env_query(m@) ==> r is None,
{
    if wants_env_report(m) {
        Some(env_report(identity, now, report))
    } else {
        None
    }
}

} // verus!
