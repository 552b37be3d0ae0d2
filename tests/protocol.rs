use watcher::browser::{browse_request, FileSystem, FileSystemEntry, FileSystemResponse};
use watcher::channel::{checkpoint_reply, classify_event, decimal_string, route, AuthError, InboundEvent, JoinError, Route, Socket};
use watcher::config::{
    get_adobe_media_encoder_log_filename, get_backend_hostname, get_backend_password, get_backend_port,
    get_backend_secure, get_backend_username, get_data_size, get_identifier, get_mounted_name_path_browsing,
    get_root_path_browsing, parse_chunk_size, parse_secure,
};
use watcher::doc::Doc;
use watcher::supervisor::{step, Action, Outcome, Phase};
use watcher::uploader::{
    chunk_lengths, control_reply, start_message, upload_outcome, upload_plan, upload_request, upload_url, ControlReply,
    Frame, Incoming, UploadOrder, UploadResponse,
};

fn obj(fields: Vec<(&str, Doc)>) -> Doc {
    Doc::Object(fields.into_iter().map(|(k, v)| (k.to_string(), v)).collect())
}

fn s(t: &str) -> Doc {
    Doc::Str(t.to_string())
}

fn named(n: &str) -> InboundEvent {
    InboundEvent::Named(n.to_string())
}

#[test]
fn settings_prefer_environment_then_argument() {
    assert_eq!(get_identifier(None, None), "identifier_not_set");
    assert_eq!(get_identifier(None, Some("agent-1")), "agent-1");
    assert_eq!(get_identifier(Some("env-agent"), Some("agent-1")), "env-agent");
    assert_eq!(get_backend_hostname(None, None), "127.0.0.1");
    assert_eq!(get_backend_port(None, None), "4000");
    assert_eq!(get_backend_username(None, None), "admin@media-io.com");
    assert_eq!(get_backend_password(None, None), "admin123");
    assert_eq!(get_backend_secure(None, None), "false");
    assert_eq!(get_root_path_browsing(None, None), "/tmp/");
    assert_eq!(get_mounted_name_path_browsing(None, None), "H:/NTS2018 mp4s/");
    assert_eq!(get_adobe_media_encoder_log_filename(None, None), "tests/AMEEncodingLog.txt");
    assert_eq!(get_data_size(None, Some("1024")), "1024");
}

#[test]
fn secure_flag_values() {
    for on in ["true", "True", "TRUE", "1"] {
        assert!(parse_secure(on));
    }
    for off in ["false", "yes", "", "tRUE"] {
        assert!(!parse_secure(off));
    }
}

#[test]
fn chunk_size_parsing() {
    assert_eq!(parse_chunk_size("64000"), Some(64000));
    assert_eq!(parse_chunk_size("18446744073709551615"), Some(u64::MAX));
    assert_eq!(parse_chunk_size("18446744073709551616"), None);
    assert_eq!(parse_chunk_size("0"), None);
    assert_eq!(parse_chunk_size(""), None);
    assert_eq!(parse_chunk_size("64k"), None);
}

#[test]
fn upload_of_257000_bytes_in_64000_byte_chunks() {
    let chunks = chunk_lengths(257000, 64000);
    assert_eq!(chunks, vec![64000, 64000, 64000, 64000, 1000]);
    assert_eq!(chunks.iter().sum::<u64>(), 257000);
    let control = start_message("dest/movie.mp4", 257000);
    assert!(matches!(control.get("size"), Some(Doc::UInt(257000))));
    assert!(matches!(control.get("filename"), Some(Doc::Str(f)) if f == "dest/movie.mp4"));
    assert!(matches!(upload_outcome(7, Ok(())), Ok(UploadResponse { job_id: Some(7), message: None })));
}

#[test]
fn chunk_plan_edges() {
    assert_eq!(chunk_lengths(0, 10), Vec::<u64>::new());
    assert_eq!(chunk_lengths(10, 10), vec![10]);
    assert_eq!(chunk_lengths(11, 10), vec![10, 1]);
    assert_eq!(chunk_lengths(3, u64::MAX), vec![3]);
}

#[test]
fn failed_job_is_reported_as_error() {
    match upload_outcome(9, Err("disk gone".to_string())) {
        Err(UploadResponse { job_id: Some(9), message: Some(m) }) => assert_eq!(m, "disk gone"),
        _ => panic!("wrong report"),
    }
}

fn start_payload() -> Doc {
    obj(vec![
        ("job_id", Doc::UInt(42)),
        (
            "parameters",
            obj(vec![
                ("source", obj(vec![("path", s("/data/in.mp4"))])),
                ("destination", obj(vec![("path", s("out/in.mp4"))])),
            ]),
        ),
    ])
}

#[test]
fn upload_request_reads_order() {
    let order = upload_request(&named("start"), &start_payload()).ok().unwrap();
    assert_eq!(order.job_id, 42);
    assert_eq!(order.path, "/data/in.mp4");
    assert_eq!(order.destination, "out/in.mp4");
}

#[test]
fn upload_request_refusals() {
    let bad = obj(vec![("job_id", Doc::OtherNumber("-1".to_string()))]);
    let r = upload_request(&named("start"), &bad).err().unwrap();
    assert_eq!(r.job_id, None);
    assert_eq!(r.message.as_deref(), Some("unable to get properly parameters"));
    let r = upload_request(&named("stop"), &start_payload()).err().unwrap();
    assert_eq!(r.message.as_deref(), Some("unsupported event name"));
    let r = upload_request(&InboundEvent::Close, &start_payload()).err().unwrap();
    assert_eq!(r.message.as_deref(), Some("unsupported message"));
    assert!(UploadOrder::from(&s("nothing")).is_none());
}

#[test]
fn upload_response_payload() {
    let d = UploadResponse { job_id: Some(3), message: Some("boom".to_string()) }.to_doc();
    assert!(matches!(d.get("job_id"), Some(Doc::UInt(3))));
    assert!(matches!(d.get("message"), Some(Doc::Str(m)) if m == "boom"));
    let empty = UploadResponse { job_id: None, message: None }.to_doc();
    assert!(matches!(empty, Doc::Object(ref f) if f.is_empty()));
}

#[test]
fn upload_urls() {
    assert_eq!(upload_url(false, "127.0.0.1", "4000"), "ws://127.0.0.1:4010");
    assert_eq!(upload_url(true, "backend.example", "443"), "wss://backend.example:443/upload");
}

#[test]
fn routing_of_frames() {
    assert_eq!(route("browser:all", "browser:all", &named("file_system")), Route::Handle);
    assert_eq!(route("browser:all", "phoenix", &InboundEvent::Close), Route::Teardown);
    assert_eq!(route("browser:all", "phoenix", &InboundEvent::OtherSystem), Route::Ignore);
    assert_eq!(route("browser:all", "elsewhere", &InboundEvent::Close), Route::Ignore);
    assert_eq!(route("browser:all", "browser:all", &InboundEvent::Reply), Route::Ignore);
}

#[test]
fn checkpoint_from_reply() {
    let payload = obj(vec![("last_event", s("2018-03-15T10:20:30.000Z"))]);
    assert_eq!(checkpoint_reply("browser:notification", &named("reply_info"), &payload), Some(Some(1521109230)));
    let unreadable = obj(vec![("last_event", Doc::Null)]);
    assert_eq!(checkpoint_reply("browser:notification", &named("reply_info"), &unreadable), Some(None));
    assert_eq!(checkpoint_reply("browser:notification", &named("other"), &payload), None);
    assert_eq!(checkpoint_reply("browser:all", &named("reply_info"), &payload), None);
    assert_eq!(checkpoint_reply("browser:notification", &named("reply_info"), &obj(vec![])), None);
}

#[test]
fn login_outcomes() {
    let mut sock = Socket::new("backend", "4000", "me", "pw", "true");
    assert!(sock.secure);
    assert_eq!(sock.session_url(), "https://backend:4000/api/sessions");
    assert_eq!(sock.websocket_request("agent").err().unwrap(), "missing authentification token");
    match sock.complete_login(503, None) {
        Err(AuthError::Rejected(m)) => assert_eq!(m, "serveur error"),
        _ => panic!("expected rejection"),
    }
    match sock.complete_login(404, None) {
        Err(AuthError::Rejected(m)) => assert_eq!(m, "Something else happened. Status: 404"),
        _ => panic!("expected rejection"),
    }
    assert!(matches!(sock.complete_login(200, None), Err(AuthError::MalformedResponse)));
    assert!(sock.token.is_none());
    assert!(matches!(sock.complete_login(200, Some((String::new(), None))), Err(AuthError::MalformedResponse)));
    assert!(sock.token.is_none());
    assert!(sock.complete_login(201, Some(("tok".to_string(), Some("2018".to_string())))).is_ok());
    assert_eq!(sock.token.as_deref(), Some("tok"));
    assert_eq!(sock.last_event.as_deref(), Some("2018"));
    let (url, params) = sock.websocket_request("agent").unwrap();
    assert_eq!(url, "wss://backend:4000/socket");
    assert_eq!(params, vec![
        ("userToken".to_string(), "tok".to_string()),
        ("identifier".to_string(), "agent".to_string()),
    ]);
}

#[test]
fn decimal_strings() {
    assert_eq!(decimal_string(0), "0");
    assert_eq!(decimal_string(404), "404");
    assert_eq!(decimal_string(65535), "65535");
}

#[test]
fn channel_join_and_send() {
    let mut sock = Socket::new("h", "1", "u", "p", "0");
    assert!(!sock.secure);
    assert_eq!(sock.open_channel("agent", "transfer:upload").err().unwrap(), "missing websocket connection");
    assert_eq!(sock.send("new_item", Doc::Null).err().unwrap(), "missing websocket connection");
    sock.mark_connected();
    assert_eq!(sock.send("new_item", Doc::Null).err().unwrap(), "unable to send message");
    let join = sock.open_channel("agent", "transfer:upload").unwrap();
    assert!(matches!(join.get("identifier"), Some(Doc::Str(i)) if i == "agent"));
    assert_eq!(sock.send("new_item", Doc::Null).err().unwrap(), "unable to send message");
    assert!(sock.join_reply("other", &InboundEvent::Reply, &obj(vec![("status", s("ok"))])).is_none());
    assert!(sock.join_reply("transfer:upload", &named("x"), &obj(vec![("status", s("ok"))])).is_none());
    assert!(matches!(
        sock.join_reply("transfer:upload", &InboundEvent::Reply, &obj(vec![("status", s("ok"))])),
        Some(Ok(()))
    ));
    assert!(sock.joined);
    let msg = sock.send("upload_completed", Doc::Bool(true)).unwrap();
    assert_eq!(msg.topic, "transfer:upload");
    assert_eq!(msg.event, "upload_completed");
    assert!(matches!(msg.payload, Doc::Bool(true)));
    sock.disconnect();
    assert!(sock.send("x", Doc::Null).is_err());
}

#[test]
fn reconnect_after_failures() {
    let mut p = Phase::Disconnected;
    for fail_at in [0, 1, 2, 0] {
        let (next, a) = step(p, Outcome::Start);
        assert_eq!(a, Action::Authenticate);
        p = next;
        for _ in 0..fail_at {
            p = step(p, Outcome::Succeeded).0;
        }
        let (next, a) = step(p, Outcome::Failed);
        assert_eq!(a, Action::WaitAndRetry);
        p = next;
        assert_eq!(p, Phase::Disconnected);
    }
    let mut actions = Vec::new();
    for o in [Outcome::Start, Outcome::Succeeded, Outcome::Succeeded, Outcome::Succeeded] {
        let (next, a) = step(p, o);
        actions.push(a);
        p = next;
    }
    assert_eq!(p, Phase::Active);
    assert_eq!(actions, vec![Action::Authenticate, Action::Connect, Action::Join, Action::Dispatch]);
    assert_eq!(step(p, Outcome::Failed), (Phase::Disconnected, Action::WaitAndRetry));
    assert_eq!(step(p, Outcome::Unrecoverable), (Phase::Fatal, Action::Stop));
    assert_eq!(step(Phase::Fatal, Outcome::Start), (Phase::Fatal, Action::Nothing));
}

#[test]
fn browse_requests() {
    let payload = obj(vec![("body", obj(vec![("path", s("movies"))]))]);
    assert_eq!(browse_request(&named("file_system"), &payload, "/srv"), Some("/srv/movies".to_string()));
    assert_eq!(browse_request(&named("other"), &payload, "/srv"), None);
    assert_eq!(browse_request(&named("file_system"), &obj(vec![]), "/srv"), None);
    assert_eq!(FileSystem::from(&payload).unwrap().path, "movies");
}

#[test]
fn browse_response_payload() {
    let resp = FileSystemResponse {
        entries: vec![FileSystemEntry {
            root: "/srv/movies/".to_string(),
            filename: "a.mp4".to_string(),
            is_dir: false,
            is_file: true,
        }],
    };
    match resp.to_doc().get("entries") {
        Some(Doc::Array(items)) => {
            assert_eq!(items.len(), 1);
            assert!(matches!(items[0].get("abs_path"), Some(Doc::Str(p)) if p == "/srv/movies/a.mp4"));
            assert!(matches!(items[0].get("is_file"), Some(Doc::Bool(true))));
            assert!(matches!(items[0].get("is_dir"), Some(Doc::Bool(false))));
        }
        _ => panic!("no entries"),
    }
}

#[test]
fn refused_join_on_fresh_connection() {
    let mut sock = Socket::new("h", "1", "u", "p", "0");
    sock.mark_connected();
    sock.open_channel("agent", "browser:all").unwrap();
    let reply = sock.join_reply("browser:all", &InboundEvent::Reply, &obj(vec![("status", s("error"))]));
    assert!(matches!(reply, Some(Err(JoinError::JoinRejected))));
    assert!(sock.channel.is_none());
    assert!(sock.pending.is_none());
    assert!(!sock.joined);
    assert!(sock.send("response", Doc::Null).is_err());
}

#[test]
fn refused_join_keeps_joined_channel() {
    let mut sock = Socket::new("h", "1", "u", "p", "0");
    sock.mark_connected();
    sock.open_channel("agent", "channel:a").unwrap();
    assert!(matches!(
        sock.join_reply("channel:a", &InboundEvent::Reply, &obj(vec![("status", s("ok"))])),
        Some(Ok(()))
    ));
    sock.open_channel("agent", "channel:b").unwrap();
    assert_eq!(sock.send("x", Doc::Null).unwrap().topic, "channel:a");
    let reply = sock.join_reply("channel:b", &InboundEvent::Reply, &obj(vec![("status", s("error"))]));
    assert!(matches!(reply, Some(Err(JoinError::JoinRejected))));
    assert_eq!(sock.channel.as_deref(), Some("channel:a"));
    assert!(sock.joined);
    assert!(sock.pending.is_none());
    assert_eq!(sock.send("x", Doc::Null).unwrap().topic, "channel:a");
}

#[test]
fn accepted_join_replaces_channel() {
    let mut sock = Socket::new("h", "1", "u", "p", "0");
    sock.mark_connected();
    sock.open_channel("agent", "channel:a").unwrap();
    sock.join_reply("channel:a", &InboundEvent::Reply, &obj(vec![("status", s("ok"))]));
    sock.open_channel("agent", "channel:b").unwrap();
    assert!(sock.join_reply("channel:a", &InboundEvent::Reply, &obj(vec![("status", s("ok"))])).is_none());
    sock.join_reply("channel:b", &InboundEvent::Reply, &obj(vec![("status", s("ok"))]));
    assert_eq!(sock.send("x", Doc::Null).unwrap().topic, "channel:b");
}

#[test]
fn event_names() {
    assert!(matches!(classify_event("phx_close"), InboundEvent::Close));
    assert!(matches!(classify_event("phx_reply"), InboundEvent::Reply));
    assert!(matches!(classify_event("phx_error"), InboundEvent::OtherSystem));
    assert!(matches!(classify_event("start"), InboundEvent::Named(n) if n == "start"));
    assert!(matches!(classify_event(""), InboundEvent::Named(n) if n.is_empty()));
}

#[test]
fn upload_plan_frames() {
    let frames = upload_plan("dest/movie.mp4", 257000, 64000);
    assert_eq!(frames.len(), 7);
    assert!(matches!(&frames[0], Frame::Start { filename, size: 257000 } if filename == "dest/movie.mp4"));
    for f in &frames[1..5] {
        assert!(matches!(f, Frame::Chunk(64000)));
    }
    assert!(matches!(frames[5], Frame::Chunk(1000)));
    assert!(matches!(frames[6], Frame::Close));
    let empty = upload_plan("e", 0, 10);
    assert_eq!(empty.len(), 2);
    assert!(matches!(empty[1], Frame::Close));
}

#[test]
fn upload_control_frames() {
    assert!(matches!(control_reply(Incoming::Ping(vec![1, 2])), ControlReply::Pong(d) if d == vec![1, 2]));
    assert!(matches!(control_reply(Incoming::Close), ControlReply::Close));
    assert!(matches!(control_reply(Incoming::Text), ControlReply::Ignore));
    assert!(matches!(control_reply(Incoming::Pong), ControlReply::Ignore));
}
