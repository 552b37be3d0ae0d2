use vstd::prelude::*;
use crate::channel::{ws_scheme, InboundEvent};
use crate::doc::{field_of, member, str_member, Doc};
use crate::text::str_eq;

verus! {

/// The port that uploads use when the backend runs on this machine.
pub const LOOPBACK_UPLOAD_PORT: &'static str = "4010";

/// A request to upload one file.
pub struct UploadOrder {
    pub job_id: u64,
    pub path: String,
    pub destination: String,
}

/// The `path` text of `parameters.<which>` in a request's payload.
pub open spec fn parameter_path(d: Doc, which: Seq<char>) -> Option<Seq<char>> {
    match member(d, "parameters"@) {
        Some(params) => match member(params, which) {
            Some(p) => str_member(p, "path"@),
            None => None,
        },
        None => None,
    }
}

/// The job id, source path and destination path of an upload request, when
/// all three are there with the right shape.
pub open spec fn order_of(d: Doc) -> Option<(u64, Seq<char>, Seq<char>)> {
    match (member(d, "job_id"@), parameter_path(d, "source"@), parameter_path(d, "destination"@)) {
        (Some(Doc::UInt(j)), Some(p), Some(q)) => Some((j, p, q)),
        _ => None,
    }
}

fn parameter_path_of(d: &Doc, which: &str) -> (r: Option<String>)
    ensures
        match r {
            Some(s) => parameter_path(*d, which@) == Some(s@),
            None => parameter_path(*d, which@).is_none(),
        },
{
    match d.get("parameters") {
        Some(params) => match params.get(which) {
            Some(p) => p.get_str("path"),
            None => None,
        },
        None => None,
    }
}

impl UploadOrder {
    /// Reads an upload request from its payload.
    pub fn from(content: &Doc) -> (r: Option<UploadOrder>)
        ensures
            match r {
                Some(o) => order_of(*content) == Some((o.job_id, o.path@, o.destination@)),
                None => order_of(*content).is_none(),
            },
    {
        let job_id = match content.get("job_id") {
            Some(Doc::UInt(j)) => *j,
            _ => return None,
        };
        let path = match parameter_path_of(content, "source") {
            Some(p) => p,
            None => return None,
        };
        let destination = match parameter_path_of(content, "destination") {
            Some(p) => p,
            None => return None,
        };
        Some(UploadOrder { job_id, path, destination })
    }
}

/// What is reported back on the control channel about one request.
pub struct UploadResponse {
    pub job_id: Option<u64>,
    pub message: Option<String>,
}

impl UploadResponse {
    /// The payload of the report: `job_id` and `message`, each where known.
    pub fn to_doc(&self) -> (r: Doc)
        ensures
            r is Object,
            r->Object_0@.len() == (if self.job_id.is_some() { 1nat } else { 0nat }) + (if self.message.is_some() {
                1nat
            } else {
                0nat
            }),
            member(r, "job_id"@) == match self.job_id {
                Some(j) => Some(Doc::UInt(j)),
                None => None::<Doc>,
            },
            match self.message {
                Some(m) => str_member(r, "message"@) == Some(m@),
                None => member(r, "message"@).is_none(),
            },
    {
        let mut fields: Vec<(String, Doc)> = Vec::new();
        match self.job_id {
            Some(j) => fields.push(("job_id".to_string(), Doc::UInt(j))),
            None => {},
        }
        let ghost after_job = fields@;
        match &self.message {
            Some(m) => fields.push(("message".to_string(), Doc::Str(m.clone()))),
            None => {},
        }
        proof {
            reveal_with_fuel(field_of, 3);
            reveal_strlit("job_id");
            reveal_strlit("message");
            assert("job_id"@ != "message"@) by {
                assert("job_id"@[0] != "message"@[0]);
            }
            if after_job.len() == 1 {
                assert(fields@[0] == after_job[0]);
            }
            if fields@.len() == 2 {
                assert(fields@.drop_first()[0] == fields@[1]);
                assert(fields@.drop_first().drop_first().len() == 0);
            } else if fields@.len() == 1 {
                assert(fields@.drop_first().len() == 0);
            }
        }
        Doc::Object(fields)
    }
}

/// Message of a request whose payload is not an upload request.
pub const BAD_PARAMETERS: &'static str = "unable to get properly parameters";
/// Message of a request with another event than `start`.
pub const UNSUPPORTED_EVENT: &'static str = "unsupported event name";
/// Message of a frame that is no application event.
pub const UNSUPPORTED_MESSAGE: &'static str = "unsupported message";

/// Whether `r` is the report of a refused request with message `m`.
pub open spec fn refusal(r: UploadResponse, m: Seq<char>) -> bool {
    r.job_id.is_none() && r.message.is_some() && r.message.unwrap()@ == m
}

/// Decides what to do with a frame on the upload channel: a `start` event
/// with a well-formed payload is an order to run; anything else is refused
/// with a report that says why.
pub fn upload_request(event: &InboundEvent, payload: &Doc) -> (r: Result<UploadOrder, UploadResponse>)
    ensures
        match *event {
            InboundEvent::Named(name) => if name@ == "start"@ {
                match order_of(*payload) {
                    Some(o) => r is Ok && (r->Ok_0.job_id, r->Ok_0.path@, r->Ok_0.destination@) == o,
                    None => r is Err && refusal(r->Err_0, BAD_PARAMETERS@),
                }
            } else {
                r is Err && refusal(r->Err_0, UNSUPPORTED_EVENT@)
            },
            _ => r is Err && refusal(r->Err_0, UNSUPPORTED_MESSAGE@),
        },
{
    match event {
        InboundEvent::Named(name) => {
            if str_eq(name.as_str(), "start") {
                match UploadOrder::from(payload) {
                    Some(o) => Ok(o),
                    None => Err(UploadResponse { job_id: None, message: Some(BAD_PARAMETERS.to_string()) }),
                }
            } else {
                Err(UploadResponse { job_id: None, message: Some(UNSUPPORTED_EVENT.to_string()) })
            }
        },
        _ => Err(UploadResponse { job_id: None, message: Some(UNSUPPORTED_MESSAGE.to_string()) }),
    }
}

/// The report of a finished job: success carries the job id alone, failure
/// the job id and what went wrong; the two go out as `upload_completed` and
/// `upload_error`.
pub fn upload_outcome(job_id: u64, result: Result<(), String>) -> (r: Result<UploadResponse, UploadResponse>)
    ensures
        match result {
            Ok(()) => r is Ok && r->Ok_0.job_id == Some(job_id) && r->Ok_0.message.is_none(),
            Err(m) => r is Err && r->Err_0.job_id == Some(job_id) && r->Err_0.message == Some(m),
        },
{
    match result {
        Ok(()) => Ok(UploadResponse { job_id: Some(job_id), message: None }),
        Err(m) => Err(UploadResponse { job_id: Some(job_id), message: Some(m) }),
    }
}

/// Whether the backend runs on this machine.
pub open spec fn is_loopback(host: Seq<char>) -> bool {
    host == "127.0.0.1"@ || host == "localhost"@ || host == "0.0.0.0"@
}

/// Where uploads go: the backend's `/upload` endpoint, or a fixed port when
/// the backend runs on this machine.
pub fn upload_url(secure: bool, hostname: &str, port: &str) -> (r: String)
    ensures
        r@ == ws_scheme(secure) + hostname@ + ":"@ + if is_loopback(hostname@) {
            LOOPBACK_UPLOAD_PORT@
        } else {
            port@ + "/upload"@
        },
{
    let mut url = if secure {
        "wss://".to_string()
    } else {
        "ws://".to_string()
    };
    url.append(hostname);
    url.append(":");
    if str_eq(hostname, "127.0.0.1") || str_eq(hostname, "localhost") || str_eq(hostname, "0.0.0.0") {
        url.append(LOOPBACK_UPLOAD_PORT);
    } else {
        url.append(port);
        url.append("/upload");
    }
    url
}

/// The lengths of the chunks that carry `remaining` bytes, `c` at a time.
pub open spec fn chunk_plan(remaining: nat, c: nat) -> Seq<nat>
    decreases remaining,
{
    if remaining == 0 || c == 0 {
        Seq::empty()
    } else if remaining <= c {
        seq![remaining]
    } else {
        seq![c] + chunk_plan((remaining - c) as nat, c)
    }
}

pub open spec fn total(s: Seq<nat>) -> nat
    decreases s.len(),
{
    if s.len() == 0 {
        0
    } else {
        s[0] + total(s.drop_first())
    }
}

/// Splits a file of `size` bytes into chunks of at most `chunk` bytes, in
/// order.
pub fn chunk_lengths(size: u64, chunk: u64) -> (r: Vec<u64>)
    requires
        chunk > 0,
    ensures
        r@.map_values(|x: u64| x as nat) == chunk_plan(size as nat, chunk as nat),
{
    let mut out: Vec<u64> = Vec::new();
    let mut sent: u64 = 0;
    assert(chunk_plan(size as nat, chunk as nat) == Seq::<nat>::empty() + chunk_plan(size as nat, chunk as nat));
    while sent < size
        invariant
            chunk > 0,
            sent <= size,
            chunk_plan(size as nat, chunk as nat) == out@.map_values(|x: u64| x as nat) + chunk_plan(
                (size - sent) as nat,
                chunk as nat,
            ),
        decreases size - sent,
    {
        let left = size - sent;
        let len = if chunk < left { chunk } else { left };
        let ghost before = out@.map_values(|x: u64| x as nat);
        out.push(len);
        assert(out@.map_values(|x: u64| x as nat) == before.push(len as nat));
        assert(chunk_plan(left as nat, chunk as nat) == seq![len as nat] + chunk_plan((left - len) as nat, chunk as nat));
        assert(before + (seq![len as nat] + chunk_plan((left - len) as nat, chunk as nat)) == before.push(len as nat)
            + chunk_plan((left - len) as nat, chunk as nat));
        sent = sent + len;
    }
    assert(out@.map_values(|x: u64| x as nat) + Seq::<nat>::empty() == out@.map_values(|x: u64| x as nat));
    out
}

/// A frame of an upload, in mathematical form.
pub enum FrameView {
    Control(Seq<char>, nat),
    Binary(nat),
    Close,
}

/// The frames of one upload: the control frame with the destination and the
/// size, the chunks, then the close frame.
pub open spec fn upload_frames(dst: Seq<char>, size: nat, c: nat) -> Seq<FrameView> {
    seq![FrameView::Control(dst, size)] + chunk_plan(size, c).map_values(|n: nat| FrameView::Binary(n))
        + seq![FrameView::Close]
}

/// One frame written on an upload connection.
pub enum Frame {
    /// The text frame that opens the upload: destination and size.
    Start { filename: String, size: u64 },
    /// A binary frame with the next `len` bytes of the file.
    Chunk(u64),
    /// The close frame.
    Close,
}

pub open spec fn frame_view(f: Frame) -> FrameView {
    match f {
        Frame::Start { filename, size } => FrameView::Control(filename@, size as nat),
        Frame::Chunk(n) => FrameView::Binary(n as nat),
        Frame::Close => FrameView::Close,
    }
}

/// The frames of one upload, in the order they are written.
pub fn upload_plan(dst_filename: &str, size: u64, chunk: u64) -> (r: Vec<Frame>)
    requires
        chunk > 0,
    ensures
        r@.map_values(|f: Frame| frame_view(f)) == upload_frames(dst_filename@, size as nat, chunk as nat),
{
    let lengths = chunk_lengths(size, chunk);
    let mut frames: Vec<Frame> = Vec::new();
    frames.push(Frame::Start { filename: dst_filename.to_string(), size });
    let ghost plan = chunk_plan(size as nat, chunk as nat);
    let mut i: usize = 0;
    while i < lengths.len()
        invariant
            lengths@.map_values(|x: u64| x as nat) == plan,
            i <= lengths@.len(),
            frames@.map_values(|f: Frame| frame_view(f)) == seq![FrameView::Control(dst_filename@, size as nat)]
                + plan.subrange(0, i as int).map_values(|n: nat| FrameView::Binary(n)),
        decreases lengths.len() - i,
    {
        let ghost before = frames@.map_values(|f: Frame| frame_view(f));
        frames.push(Frame::Chunk(lengths[i]));
        assert(plan[i as int] == lengths@[i as int] as nat);
        assert(plan.subrange(0, i + 1).map_values(|n: nat| FrameView::Binary(n)) =~= plan.subrange(0, i as int).map_values(
            |n: nat| FrameView::Binary(n),
        ).push(FrameView::Binary(plan[i as int])));
        assert(frames@.map_values(|f: Frame| frame_view(f)) =~= before.push(FrameView::Binary(plan[i as int])));
        i = i + 1;
    }
    let ghost before = frames@.map_values(|f: Frame| frame_view(f));
    frames.push(Frame::Close);
    assert(frames@.map_values(|f: Frame| frame_view(f)) =~= before.push(FrameView::Close));
    assert(plan.subrange(0, plan.len() as int) == plan);
    proof {
        let chunks = plan.map_values(|n: nat| FrameView::Binary(n));
        assert(before.push(FrameView::Close) =~= seq![FrameView::Control(dst_filename@, size as nat)] + chunks
            + seq![FrameView::Close]);
    }
    frames
}

/// A control frame that arrives on an upload connection.
pub enum Incoming {
    Ping(Vec<u8>),
    Pong,
    Close,
    Text,
    Binary,
}

/// What the upload writes back for a control frame.
pub enum ControlReply {
    /// Answer a ping with its data.
    Pong(Vec<u8>),
    /// Echo the close and stop the transfer.
    Close,
    /// Nothing to answer.
    Ignore,
}

/// Decides the answer to a frame read from the upload connection: a ping is
/// answered with a pong of the same data, a close ends the transfer, and
/// anything else is left unanswered.
pub fn control_reply(frame: Incoming) -> (r: ControlReply)
    ensures
        match frame {
            Incoming::Ping(d) => r is Pong && r->Pong_0@ == d@,
            Incoming::Close => r is Close,
            _ => r is Ignore,
        },
{
    match frame {
        Incoming::Ping(d) => ControlReply::Pong(d),
        Incoming::Close => ControlReply::Close,
        _ => ControlReply::Ignore,
    }
}

proof fn lemma_chunk_plan(remaining: nat, c: nat)
    requires
        c > 0,
    ensures
        total(chunk_plan(remaining, c)) == remaining,
        forall|i: int| 0 <= i < chunk_plan(remaining, c).len() ==> 0 < #[trigger] chunk_plan(remaining, c)[i] <= c,
    decreases remaining,
{
    if remaining > c {
        let rest = chunk_plan((remaining - c) as nat, c);
        lemma_chunk_plan((remaining - c) as nat, c);
        assert((seq![c] + rest).drop_first() == rest);
        assert(total(seq![c] + rest) == c + total(rest));
        assert forall|i: int| 0 <= i < chunk_plan(remaining, c).len() implies 0 < #[trigger] chunk_plan(
            remaining,
            c,
        )[i] <= c by {
            if i > 0 {
                assert(chunk_plan(remaining, c)[i] == rest[i - 1]);
            }
        }
    } else if remaining > 0 {
        assert(seq![remaining].drop_first() == Seq::<nat>::empty());
        assert(total(Seq::<nat>::empty()) == 0);
    }
}

/// An upload of `size` bytes in chunks of at most `c` bytes sends binary
/// frames whose lengths add up to `size`, none empty or over `c`; it opens
/// with the control frame and ends with the close frame, right after the
/// last chunk.
pub proof fn lemma_upload_complete(dst: Seq<char>, size: nat, c: nat)
    requires
        c > 0,
    ensures
        total(chunk_plan(size, c)) == size,
        forall|i: int| 0 <= i < chunk_plan(size, c).len() ==> 0 < #[trigger] chunk_plan(size, c)[i] <= c,
        upload_frames(dst, size, c).len() == chunk_plan(size, c).len() + 2,
        upload_frames(dst, size, c)[0] == FrameView::Control(dst, size),
        upload_frames(dst, size, c).last() == FrameView::Close,
        forall|i: int| 0 <= i < chunk_plan(size, c).len() ==> #[trigger] upload_frames(dst, size, c)[i + 1]
            == FrameView::Binary(chunk_plan(size, c)[i]),
{
    lemma_chunk_plan(size, c);
    let chunks = chunk_plan(size, c).map_values(|n: nat| FrameView::Binary(n));
    let frames = upload_frames(dst, size, c);
    assert(frames == seq![FrameView::Control(dst, size)] + chunks + seq![FrameView::Close]);
    assert forall|i: int| 0 <= i < chunk_plan(size, c).len() implies #[trigger] frames[i + 1] == FrameView::Binary(
        chunk_plan(size, c)[i],
    ) by {
        assert(frames[i + 1] == chunks[i]);
    }
}

/// The control frame that opens an upload: the destination file name and the
/// size in bytes.
pub fn start_message(dst_filename: &str, size: u64) -> (r: Doc)
    ensures
        str_member(r, "filename"@) == Some(dst_filename@),
        member(r, "size"@) == Some(Doc::UInt(size)),
        r is Object && r->Object_0@.len() == 2,
{
    let mut fields: Vec<(String, Doc)> = Vec::new();
    fields.push(("filename".to_string(), Doc::Str(dst_filename.to_string())));
    fields.push(("size".to_string(), Doc::UInt(size)));
    proof {
        reveal_with_fuel(field_of, 3);
        reveal_strlit("filename");
        reveal_strlit("size");
        assert("filename"@ != "size"@) by {
            assert("filename"@[0] != "size"@[0]);
        }
        assert(fields@.drop_first()[0] == fields@[1]);
    }
    Doc::Object(fields)
}

} // verus!
