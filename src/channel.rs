use vstd::prelude::*;
use crate::config::{is_secure_flag, parse_secure};
use crate::datetime::{datetime_of, parse_datetime};
use crate::doc::{member, object_texts, push_text_field, str_member, Doc};
use crate::text::{has_prefix, starts_with, str_eq};

verus! {

/// The reserved topic of the channel protocol's own lifecycle events.
pub const SYSTEM_TOPIC: &'static str = "phoenix";

/// The channel on which the backend answers with the last event it recorded.
pub const NOTIFICATION_TOPIC: &'static str = "browser:notification";

/// The event that carries the backend's last recorded event.
pub const REPLY_INFO_EVENT: &'static str = "reply_info";

/// How the backend writes the time of its last recorded event, read by `chrono`.
pub const REPLY_TIME_FORMAT: &'static str = "%Y-%m-%dT%H:%M:%S%.fZ";

/// The event of an inbound frame.
pub enum InboundEvent {
    /// An application event, by name.
    Named(String),
    /// The protocol's close signal.
    Close,
    /// The protocol's answer to a message this side sent, a join among them.
    Reply,
    /// Any other protocol lifecycle event.
    OtherSystem,
}

/// Reads a frame's event name: the protocol's own events carry the `phx_`
/// prefix, of which `phx_close` closes and `phx_reply` answers; any other
/// name is an application event.
pub fn classify_event(name: &str) -> (r: InboundEvent)
    ensures
        name@ == "phx_close"@ ==> r is Close,
        name@ == "phx_reply"@ ==> r is Reply,
        name@ != "phx_close"@ && name@ != "phx_reply"@ && has_prefix(name@, "phx_"@) ==> r is OtherSystem,
        !has_prefix(name@, "phx_"@) ==> r is Named && r->Named_0@ == name@,
{
    proof {
        reveal_strlit("phx_close");
        reveal_strlit("phx_reply");
        reveal_strlit("phx_");
        assert("phx_close"@ != "phx_reply"@) by {
            assert("phx_close"@[4] != "phx_reply"@[4]);
        }
        assert(has_prefix("phx_close"@, "phx_"@)) by {
            assert("phx_close"@.subrange(0, 4) =~= "phx_"@);
        }
        assert(has_prefix("phx_reply"@, "phx_"@)) by {
            assert("phx_reply"@.subrange(0, 4) =~= "phx_"@);
        }
    }
    if str_eq(name, "phx_close") {
        InboundEvent::Close
    } else if str_eq(name, "phx_reply") {
        InboundEvent::Reply
    } else if starts_with(name, "phx_") {
        InboundEvent::OtherSystem
    } else {
        InboundEvent::Named(name.to_string())
    }
}


#[derive(PartialEq, Eq, Structural, Clone, Copy, Debug)]
pub enum Route {
    /// It is for this pipeline's handler.
    Handle,
    /// The connection is closing: leave the loop and reconnect.
    Teardown,
    /// Nobody handles it: log it and go on.
    Ignore,
}

pub open spec fn route_of(pipeline_topic: Seq<char>, topic: Seq<char>, event: InboundEvent) -> Route {
    if topic == pipeline_topic && event is Named {
        Route::Handle
    } else if topic == SYSTEM_TOPIC@ && event is Close {
        Route::Teardown
    } else {
        Route::Ignore
    }
}

/// Decides where an inbound frame goes, for the pipeline joined to
/// `pipeline_topic`.
pub fn route(pipeline_topic: &str, topic: &str, event: &InboundEvent) -> (r: Route)
    ensures
        r == route_of(pipeline_topic@, topic@, *event),
{
    let named = match event {
        InboundEvent::Named(_) => true,
        _ => false,
    };
    if named && str_eq(topic, pipeline_topic) {
        Route::Handle
    } else if str_eq(topic, SYSTEM_TOPIC) {
        match event {
            InboundEvent::Close => Route::Teardown,
            _ => Route::Ignore,
        }
    } else {
        Route::Ignore
    }
}

/// What a frame says of the backend's checkpoint: `None` when it is not the
/// answer, `Some(None)` when the answer holds no time that reads, and
/// `Some(Some(t))` when it holds time `t`.
pub open spec fn checkpoint_reply_of(topic: Seq<char>, event: InboundEvent, payload: Doc) -> Option<Option<i64>> {
    if topic == NOTIFICATION_TOPIC@ && event is Named && event->Named_0@ == REPLY_INFO_EVENT@ {
        match member(payload, "last_event"@) {
            Some(Doc::Str(s)) => Some(datetime_of(s@, REPLY_TIME_FORMAT@)),
            Some(_) => Some(None),
            None => None,
        }
    } else {
        None
    }
}

/// Reads the backend's checkpoint from its answer on the notification channel.
pub fn checkpoint_reply(topic: &str, event: &InboundEvent, payload: &Doc) -> (r: Option<Option<i64>>)
    ensures
        r == checkpoint_reply_of(topic@, *event, *payload),
{
    if !str_eq(topic, NOTIFICATION_TOPIC) {
        return None;
    }
    match event {
        InboundEvent::Named(name) => {
            if !str_eq(name.as_str(), REPLY_INFO_EVENT) {
                return None;
            }
            match payload.get("last_event") {
                Some(Doc::Str(s)) => Some(parse_datetime(s.as_str(), REPLY_TIME_FORMAT)),
                Some(_) => Some(None),
                None => None,
            }
        },
        _ => None,
    }
}

/// The decimal digits of `n`.
pub open spec fn decimal_text(n: nat) -> Seq<char>
    decreases n,
{
    if n < 10 {
        seq![digit_char(n)]
    } else {
        decimal_text(n / 10).push(digit_char(n % 10))
    }
}

pub open spec fn digit_char(d: nat) -> char {
    if d < 10 { (('0' as nat) + d) as char } else { '?' }
}

/// Writes `n` in decimal.
pub fn decimal_string(n: u16) -> (r: String)
    ensures
        r@ == decimal_text(n as nat),
    decreases n,
{
    let digits = "0123456789";
    proof {
        reveal_strlit("0123456789");
    }
    let d = (n % 10) as usize;
    let one = digits.substring_char(d, d + 1);
    assert(one@ == seq![digit_char(d as nat)]) by {
        assert(one@[0] == digits@[d as int]);
    }
    if n < 10 {
        one.to_string()
    } else {
        let mut r = decimal_string(n / 10);
        r.append(one);
        r
    }
}

/// Why a login did not give a session.
pub enum AuthError {
    /// The backend could not be reached.
    Unreachable(String),
    /// The backend answered with a status other than success.
    Rejected(String),
    /// The answer's body is not a session.
    MalformedResponse,
}

pub open spec fn rejection_message(status: u16) -> Seq<char> {
    if 500 <= status <= 599 {
        "serveur error"@
    } else {
        "Something else happened. Status: "@ + decimal_text(status as nat)
    }
}

/// The scheme of the login request.
pub open spec fn http_scheme(secure: bool) -> Seq<char> {
    if secure { "https://"@ } else { "http://"@ }
}

/// The scheme of the channel connection.
pub open spec fn ws_scheme(secure: bool) -> Seq<char> {
    if secure { "wss://"@ } else { "ws://"@ }
}

/// One agent's session with the backend: where it is, how to log in, the
/// token and checkpoint that the login gave, and which channel is joined.
pub struct Socket {
    pub hostname: String,
    pub password: String,
    pub port: String,
    pub secure: bool,
    pub token: Option<String>,
    pub last_event: Option<String>,
    pub username: String,
    /// Whether the channel connection is open.
    pub connected: bool,
    /// The channel joined on it, if any.
    pub channel: Option<String>,
    /// Whether the server has accepted the join of `channel`.
    pub joined: bool,
    /// The channel whose join awaits the server's answer, if any.
    pub pending: Option<String>,
}

/// Why a channel could not be joined.
pub enum JoinError {
    /// No answer came in time.
    JoinTimeout,
    /// The server refused the join.
    JoinRejected,
}

/// The status that a reply's payload reports.
pub open spec fn reply_status(payload: Doc) -> Option<Seq<char>> {
    str_member(payload, "status"@)
}

/// A message ready to be written on the channel connection.
pub struct OutboundMessage {
    pub topic: String,
    pub event: String,
    pub payload: Doc,
}

impl Socket {
    /// A session not yet logged in; `secure` reads as `parse_secure` reads it.
    pub fn new(hostname: &str, port: &str, username: &str, password: &str, secure: &str) -> (r: Socket)
        ensures
            r.hostname@ == hostname@,
            r.port@ == port@,
            r.username@ == username@,
            r.password@ == password@,
            r.secure == is_secure_flag(secure@),
            r.token.is_none(),
            r.last_event.is_none(),
            !r.connected,
            r.channel.is_none(),
            !r.joined,
            r.pending.is_none(),
    {
        Socket {
            hostname: hostname.to_string(),
            password: password.to_string(),
            port: port.to_string(),
            secure: parse_secure(secure),
            token: None,
            last_event: None,
            username: username.to_string(),
            connected: false,
            channel: None,
            joined: false,
            pending: None,
        }
    }

    /// Where the login request goes.
    pub fn session_url(&self) -> (r: String)
        ensures
            r@ == http_scheme(self.secure) + self.hostname@ + ":"@ + self.port@ + "/api/sessions"@,
    {
        let mut url = if self.secure {
            "https://".to_string()
        } else {
            "http://".to_string()
        };
        url.append(self.hostname.as_str());
        url.append(":");
        url.append(self.port.as_str());
        url.append("/api/sessions");
        url
    }

    /// Takes the answer to the login request: its status, and the token and
    /// last event that its body holds (`None` where the body is not a
    /// session). A status other than success is a rejection, and a body that
    /// is not a session or holds an empty token is malformed; either leaves
    /// the socket as it was.
    pub fn complete_login(&mut self, status: u16, body: Option<(String, Option<String>)>) -> (r: Result<(), AuthError>)
        ensures
            !(200 <= status <= 299) ==> r is Err && r->Err_0 is Rejected && r->Err_0->Rejected_0@ == rejection_message(status)
                && *final(self) == *old(self),
            200 <= status <= 299 && (body.is_none() || body.unwrap().0@.len() == 0) ==> r is Err
                && r->Err_0 is MalformedResponse && *final(self) == *old(self),
            200 <= status <= 299 && body.is_some() && body.unwrap().0@.len() > 0 ==> r is Ok && *final(self) == (Socket {
                token: Some(body.unwrap().0),
                last_event: body.unwrap().1,
                ..*old(self)
            }),
    {
        if status < 200 || status > 299 {
            if status >= 500 && status <= 599 {
                return Err(AuthError::Rejected("serveur error".to_string()));
            }
            let mut msg = "Something else happened. Status: ".to_string();
            msg.append(decimal_string(status).as_str());
            return Err(AuthError::Rejected(msg));
        }
        match body {
            Some((token, last_event)) => {
                if token.as_str().unicode_len() == 0 {
                    return Err(AuthError::MalformedResponse);
                }
                self.token = Some(token);
                self.last_event = last_event;
                Ok(())
            },
            None => Err(AuthError::MalformedResponse),
        }
    }

    /// The channel connection's address and query parameters (the token and
    /// the agent's identifier); without a token there is none to open.
    pub fn websocket_request(&self, identifier: &str) -> (r: Result<(String, Vec<(String, String)>), String>)
        ensures
            self.token.is_none() ==> r is Err && r->Err_0@ == "missing authentification token"@,
            self.token.is_some() ==> r is Ok
                && r->Ok_0.0@ == ws_scheme(self.secure) + self.hostname@ + ":"@ + self.port@ + "/socket"@
                && r->Ok_0.1@.len() == 2
                && r->Ok_0.1@[0].0@ == "userToken"@ && r->Ok_0.1@[0].1@ == self.token.unwrap()@
                && r->Ok_0.1@[1].0@ == "identifier"@ && r->Ok_0.1@[1].1@ == identifier@,
    {
        match &self.token {
            None => Err("missing authentification token".to_string()),
            Some(token) => {
                let mut url = if self.secure {
                    "wss://".to_string()
                } else {
                    "ws://".to_string()
                };
                url.append(self.hostname.as_str());
                url.append(":");
                url.append(self.port.as_str());
                url.append("/socket");
                let mut params: Vec<(String, String)> = Vec::new();
                params.push(("userToken".to_string(), token.clone()));
                params.push(("identifier".to_string(), identifier.to_string()));
                Ok((url, params))
            },
        }
    }

    /// Records that the channel connection is open.
    pub fn mark_connected(&mut self)
        ensures
            *final(self) == (Socket { connected: true, channel: None, joined: false, pending: None, ..*old(self) }),
    {
        self.connected = true;
        self.channel = None;
        self.joined = false;
        self.pending = None;
    }

    /// Records that the connection closed: its channel can no longer be used.
    pub fn disconnect(&mut self)
        ensures
            *final(self) == (Socket { connected: false, channel: None, joined: false, pending: None, ..*old(self) }),
    {
        self.connected = false;
        self.channel = None;
        self.joined = false;
        self.pending = None;
    }

    /// Starts joining a channel on the open connection; returns the join
    /// payload, which carries the agent's identifier. The channel already
    /// joined, if any, stays in use until `join_reply` takes the server's
    /// acceptance of the new one.
    pub fn open_channel(&mut self, identifier: &str, channel_name: &str) -> (r: Result<Doc, String>)
        ensures
            !old(self).connected ==> r is Err && r->Err_0@ == "missing websocket connection"@
                && *final(self) == *old(self),
            old(self).connected ==> r is Ok && object_texts(r->Ok_0) == Some(seq![("identifier"@, Some(identifier@))])
                && final(self).pending.is_some() && final(self).pending.unwrap()@ == channel_name@
                && *final(self) == (Socket { pending: final(self).pending, ..*old(self) }),
    {
        if !self.connected {
            return Err("missing websocket connection".to_string());
        }
        let mut fields: Vec<(String, Doc)> = Vec::new();
        push_text_field(&mut fields, "identifier", Some(identifier.to_string()));
        self.pending = Some(channel_name.to_string());
        Ok(Doc::Object(fields))
    }

    /// Takes one frame while a join is pending. A reply on the channel being
    /// joined settles it: status `ok` makes it the joined channel, any other
    /// status refuses it and leaves the channel joined before as it was. Any
    /// other frame leaves the socket as it was and returns `None`.
    pub fn join_reply(&mut self, topic: &str, event: &InboundEvent, payload: &Doc) -> (r: Option<Result<(), JoinError>>)
        ensures
            ({
                let waiting = old(self).connected && old(self).pending.is_some();
                if waiting && topic@ == old(self).pending.unwrap()@ && *event is Reply {
                    if reply_status(*payload) == Some("ok"@) {
                        r == Some(Ok::<(), JoinError>(())) && *final(self) == (Socket {
                            channel: old(self).pending,
                            joined: true,
                            pending: None,
                            ..*old(self)
                        })
                    } else {
                        r.is_some() && r.unwrap() is Err && r.unwrap()->Err_0 is JoinRejected
                            && *final(self) == (Socket { pending: None, ..*old(self) })
                    }
                } else {
                    r.is_none() && *final(self) == *old(self)
                }
            }),
    {
        if !self.connected {
            return None;
        }
        let is_reply = match event {
            InboundEvent::Reply => true,
            _ => false,
        };
        if !is_reply {
            return None;
        }
        let matches_channel = match &self.pending {
            Some(c) => str_eq(topic, c.as_str()),
            None => false,
        };
        if !matches_channel {
            return None;
        }
        let accepted = match payload.get_str("status") {
            Some(st) => str_eq(st.as_str(), "ok"),
            None => false,
        };
        if accepted {
            self.channel = self.pending.take();
            self.joined = true;
            Some(Ok(()))
        } else {
            self.pending = None;
            Some(Err(JoinError::JoinRejected))
        }
    }

    /// Addresses one application event to the joined channel.
    pub fn send(&self, event_name: &str, content: Doc) -> (r: Result<OutboundMessage, String>)
        ensures
            !self.connected ==> r is Err && r->Err_0@ == "missing websocket connection"@,
            self.connected && (self.channel.is_none() || !self.joined) ==> r is Err
                && r->Err_0@ == "unable to send message"@,
            self.connected && self.channel.is_some() && self.joined ==> r is Ok && r->Ok_0.topic@ == self.channel.unwrap()@
                && r->Ok_0.event@ == event_name@ && r->Ok_0.payload == content,
    {
        if !self.connected {
            return Err("missing websocket connection".to_string());
        }
        if !self.joined {
            return Err("unable to send message".to_string());
        }
        match &self.channel {
            Some(c) => Ok(OutboundMessage { topic: c.clone(), event: event_name.to_string(), payload: content }),
            None => Err("unable to send message".to_string()),
        }
    }
}

} // verus!
