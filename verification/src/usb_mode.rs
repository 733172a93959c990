//! USB transfer mode: whether the host may use the card, and how each
//! request frame is answered.
//!
//! A request is handled in two steps. `plan_request` decodes it against the
//! mode's state and either answers it at once or names the storage operation
//! it needs; `complete_request` turns the storage's reply into the answer.
//! `handle_frame` runs both around a call into the storage.

use vstd::prelude::*;
use vstd::bytes::*;
use vstd::slice::*;
use vstd::utf8::*;
use crate::image_viewer::ImageError;
use crate::text::{eq_ci, eq_ignore_ascii_case, utf8_string};
use crate::usb::{
    frame_view,
    bytes_eq, chunk_frames, decode_frame, decode_rest, encode_error, encode_error_for, encode_frame,
    encode_ok, error_frame, error_text, frame_wire, frames_view, list_payload, ok_frame, read_path,
    read_u32, read_u64, send_chunked, serialize_list, spec_read_path, spec_read_u32, spec_read_u64,
    str_bytes, write_u32, ErrorCode, Frame, UsbDirEntry, UsbProtocol, FLAG_CONT, FLAG_EOF,
    FLAG_ERR, FLAG_RESP,
};

verus! {

/// Whether the host may use the card.
#[derive(Clone, Copy, Debug, PartialEq, Eq, Structural)]
pub enum UsbModeState {
    Idle,
    Prompt,
    Active,
    Rejected,
}

/// The request commands.
#[derive(Clone, Copy, Debug, PartialEq, Eq, Structural)]
pub enum Command {
    Ping,
    Info,
    List,
    Read,
    Write,
    Delete,
    Mkdir,
    Rmdir,
    Rename,
    Eject,
}

impl Command {
    pub open spec fn spec_code(self) -> u8 {
        match self {
            Command::Ping => 0x01,
            Command::Info => 0x02,
            Command::List => 0x10,
            Command::Read => 0x11,
            Command::Write => 0x12,
            Command::Delete => 0x13,
            Command::Mkdir => 0x14,
            Command::Rmdir => 0x15,
            Command::Rename => 0x16,
            Command::Eject => 0x20,
        }
    }

    /// The command byte on the wire.
    pub fn code(&self) -> (r: u8)
        ensures
            r == self.spec_code(),
    {
        match self {
            Command::Ping => 0x01,
            Command::Info => 0x02,
            Command::List => 0x10,
            Command::Read => 0x11,
            Command::Write => 0x12,
            Command::Delete => 0x13,
            Command::Mkdir => 0x14,
            Command::Rmdir => 0x15,
            Command::Rename => 0x16,
            Command::Eject => 0x20,
        }
    }
}

/// What the mode last saw, for the status screen.
#[derive(Clone, Copy, Debug, PartialEq, Eq)]
pub struct UsbStatus {
    pub last_cmd: Option<u8>,
    pub last_req: Option<u16>,
    pub last_err: Option<ErrorCode>,
    pub last_list_count: Option<u16>,
}

/// A streamed write in progress.
pub struct WriteSession {
    pub req_id: u16,
    pub path: String,
    pub offset: u64,
    pub total_len: u64,
    pub written: u64,
}

/// The storage the host works on.
pub trait UsbStorage {
    fn usb_list(&mut self, path: &str) -> Result<Vec<UsbDirEntry>, ImageError>;

    fn usb_read(&mut self, path: &str, offset: u64, length: u32) -> Result<Vec<u8>, ImageError>;

    fn usb_write(&mut self, path: &str, offset: u64, data: &[u8]) -> Result<u32, ImageError>;

    fn usb_write_stream(&mut self, path: &str, offset: u64, data: &[u8], final_chunk: bool) -> Result<
        u32,
        ImageError,
    > {
        self.usb_write(path, offset, data)
    }

    fn usb_delete(&mut self, path: &str) -> Result<(), ImageError>;

    fn usb_rmdir(&mut self, path: &str) -> Result<(), ImageError>;

    fn usb_rename(&mut self, from: &str, to: &str) -> Result<(), ImageError>;

    fn usb_mkdir(&mut self, path: &str) -> Result<(), ImageError>;
}

/// A storage operation that a request needs.
pub enum StorageOp {
    List { path: String },
    Read { path: String, offset: u64, length: u32 },
    Write { path: String, offset: u64, data: Vec<u8> },
    WriteStream { path: String, offset: u64, data: Vec<u8>, final_chunk: bool },
    Delete { path: String },
    Mkdir { path: String },
    Rmdir { path: String },
    Rename { from: String, to: String },
}

/// What the storage answered to a `StorageOp`.
pub enum StorageReply {
    Listed(Result<Vec<UsbDirEntry>, ImageError>),
    Data(Result<Vec<u8>, ImageError>),
    Written(Result<u32, ImageError>),
    Done(Result<(), ImageError>),
}

/// The first step of handling a request.
pub enum RequestStep {
    Reply(Vec<Vec<u8>>),
    Storage(StorageOp),
}

/// A storage operation as values.
pub enum OpModel {
    List(Seq<char>),
    Read(Seq<char>, u64, u32),
    Write(Seq<char>, u64, Seq<u8>),
    WriteStream(Seq<char>, u64, Seq<u8>, bool),
    Delete(Seq<char>),
    Mkdir(Seq<char>),
    Rmdir(Seq<char>),
    Rename(Seq<char>, Seq<char>),
}

/// The first step of handling a request, as values.
pub enum StepModel {
    Reply(Seq<Seq<u8>>),
    Storage(OpModel),
}

pub open spec fn op_view(op: StorageOp) -> OpModel {
    match op {
        StorageOp::List { path } => OpModel::List(path@),
        StorageOp::Read { path, offset, length } => OpModel::Read(path@, offset, length),
        StorageOp::Write { path, offset, data } => OpModel::Write(path@, offset, data@),
        StorageOp::WriteStream { path, offset, data, final_chunk } => OpModel::WriteStream(
            path@,
            offset,
            data@,
            final_chunk,
        ),
        StorageOp::Delete { path } => OpModel::Delete(path@),
        StorageOp::Mkdir { path } => OpModel::Mkdir(path@),
        StorageOp::Rmdir { path } => OpModel::Rmdir(path@),
        StorageOp::Rename { from, to } => OpModel::Rename(from@, to@),
    }
}

pub open spec fn step_view(s: RequestStep) -> StepModel {
    match s {
        RequestStep::Reply(frames) => StepModel::Reply(frames_view(frames@)),
        RequestStep::Storage(op) => StepModel::Storage(op_view(op)),
    }
}

/// Whether a reply is of the kind that the operation produces.
pub open spec fn reply_matches(op: OpModel, reply: StorageReply) -> bool {
    match op {
        OpModel::List(_) => reply is Listed,
        OpModel::Read(..) => reply is Data,
        OpModel::Write(..) => reply is Written,
        OpModel::WriteStream(..) => reply is Written,
        _ => reply is Done,
    }
}

/// A path as a request carries it: its UTF-8 length (`u16`), then the bytes.
pub open spec fn path_field(path: Seq<char>) -> Seq<u8> {
    spec_u16_to_le_bytes(encode_utf8(path).len() as u16) + encode_utf8(path)
}

proof fn lemma_read_path_field(pre: Seq<u8>, path: Seq<char>, rest: Seq<u8>)
    requires
        encode_utf8(path).len() <= u16::MAX,
    ensures
        spec_read_path(pre + path_field(path) + rest, pre.len() as int) == Some(
            (path, (pre.len() + path_field(path).len()) as int),
        ),
        path_field(path).len() == 2 + encode_utf8(path).len(),
{
    lemma_auto_spec_u16_to_from_le_bytes();
    let e = encode_utf8(path);
    let d = pre + path_field(path) + rest;
    let c = pre.len() as int;
    assert(d.subrange(c, c + 2) =~= spec_u16_to_le_bytes(e.len() as u16));
    assert(d.subrange(c + 2, c + 2 + e.len()) =~= e);
    encode_utf8_valid_utf8(path);
    encode_utf8_decode_utf8(path);
}

/// A rename request names the path to rename first and its new path
/// second: once the mode is active, it becomes the storage rename of the
/// first path to the second.
pub proof fn lemma_rename_request_order(
    m: ModeModel,
    flags: u8,
    req_id: u16,
    from: Seq<char>,
    to: Seq<char>,
)
    requires
        m.state == UsbModeState::Active,
        encode_utf8(from).len() <= u16::MAX,
        encode_utf8(to).len() <= u16::MAX,
    ensures
        plan(m, flags, 0x16, req_id, path_field(from) + path_field(to)).1 == StepModel::Storage(
            OpModel::Rename(from, to),
        ),
{
    let p = path_field(from) + path_field(to);
    lemma_read_path_field(Seq::<u8>::empty(), from, path_field(to));
    assert(Seq::<u8>::empty() + path_field(from) + path_field(to) =~= p);
    lemma_read_path_field(path_field(from), to, Seq::<u8>::empty());
    assert(path_field(from) + path_field(to) + Seq::<u8>::empty() =~= p);
}

/// A list, delete, mkdir or rmdir request acts on the path it carries:
/// once the mode is active, it becomes the storage operation of its command
/// on that path.
pub proof fn lemma_path_request_target(m: ModeModel, flags: u8, req_id: u16, cmd: u8, path: Seq<char>)
    requires
        m.state == UsbModeState::Active,
        cmd == 0x10 || cmd == 0x13 || cmd == 0x14 || cmd == 0x15,
        encode_utf8(path).len() <= u16::MAX,
    ensures
        plan(m, flags, cmd, req_id, path_field(path)).1 == StepModel::Storage(
            if cmd == 0x10 {
                OpModel::List(path)
            } else if cmd == 0x13 {
                OpModel::Delete(path)
            } else if cmd == 0x14 {
                OpModel::Mkdir(path)
            } else {
                OpModel::Rmdir(path)
            },
        ),
{
    lemma_read_path_field(Seq::<u8>::empty(), path, Seq::<u8>::empty());
    assert(Seq::<u8>::empty() + path_field(path) + Seq::<u8>::empty() =~= path_field(path));
}

/// A read request asks for the path, offset and length it carries, in that
/// order: once the mode is active, it becomes the storage read of them.
pub proof fn lemma_read_request_fields(
    m: ModeModel,
    flags: u8,
    req_id: u16,
    path: Seq<char>,
    offset: u64,
    length: u32,
)
    requires
        m.state == UsbModeState::Active,
        encode_utf8(path).len() <= u16::MAX,
    ensures
        plan(
            m,
            flags,
            0x11,
            req_id,
            path_field(path) + spec_u64_to_le_bytes(offset) + spec_u32_to_le_bytes(length),
        ).1 == StepModel::Storage(OpModel::Read(path, offset, length)),
{
    lemma_auto_spec_u32_to_from_le_bytes();
    lemma_auto_spec_u64_to_from_le_bytes();
    let o = spec_u64_to_le_bytes(offset);
    let l = spec_u32_to_le_bytes(length);
    let p = path_field(path) + o + l;
    lemma_read_path_field(Seq::<u8>::empty(), path, o + l);
    assert(Seq::<u8>::empty() + path_field(path) + (o + l) =~= p);
    let c1 = path_field(path).len() as int;
    assert(p.subrange(c1, c1 + 8) =~= o);
    assert(p.subrange(c1 + 8, c1 + 12) =~= l);
}

/// A streamed write in progress, as values.
pub struct SessionModel {
    pub req_id: u16,
    pub path: Seq<char>,
    pub offset: u64,
    pub total_len: u64,
    pub written: u64,
}

/// The state of the mode, as values.
pub struct ModeModel {
    pub state: UsbModeState,
    pub max_payload: usize,
    pub last_cmd: Option<u8>,
    pub last_req: Option<u16>,
    pub last_err: Option<ErrorCode>,
    pub last_list_count: Option<u16>,
    pub session: Option<SessionModel>,
}

/// Answers a request with one error frame and records the error.
pub open spec fn reject(m: ModeModel, req_id: u16, cmd: u8, code: ErrorCode, msg: Seq<char>) -> (
    ModeModel,
    StepModel,
) {
    (
        ModeModel { last_err: Some(code), ..m },
        StepModel::Reply(seq![error_frame(req_id, cmd, code, msg)]),
    )
}

/// Answers a request with one successful frame and clears the error.
pub open spec fn accept_with(m: ModeModel, req_id: u16, cmd: u8, payload: Seq<u8>) -> (
    ModeModel,
    StepModel,
) {
    (ModeModel { last_err: None, ..m }, StepModel::Reply(seq![ok_frame(req_id, cmd, payload)]))
}

/// A request that names one path.
pub open spec fn plan_path_op(m: ModeModel, req_id: u16, cmd: u8, p: Seq<u8>) -> (
    ModeModel,
    StepModel,
) {
    match spec_read_path(p, 0) {
        None => reject(m, req_id, cmd, ErrorCode::InvalidArgs, "bad path"@),
        Some((path, _)) => (
            m,
            StepModel::Storage(
                if cmd == 0x10 {
                    OpModel::List(path)
                } else if cmd == 0x13 {
                    OpModel::Delete(path)
                } else if cmd == 0x14 {
                    OpModel::Mkdir(path)
                } else {
                    OpModel::Rmdir(path)
                },
            ),
        ),
    }
}

/// A read request: path, offset, length.
pub open spec fn plan_read(m: ModeModel, req_id: u16, cmd: u8, p: Seq<u8>) -> (ModeModel, StepModel) {
    match spec_read_path(p, 0) {
        None => reject(m, req_id, cmd, ErrorCode::InvalidArgs, "bad path"@),
        Some((path, c1)) => match spec_read_u64(p, c1) {
            None => reject(m, req_id, cmd, ErrorCode::InvalidArgs, "bad offset"@),
            Some((offset, c2)) => match spec_read_u32(p, c2) {
                None => reject(m, req_id, cmd, ErrorCode::InvalidArgs, "bad length"@),
                Some((length, _)) => (m, StepModel::Storage(OpModel::Read(path, offset, length))),
            },
        },
    }
}

/// A one-shot write request: path, offset, length, data.
pub open spec fn plan_write(m: ModeModel, req_id: u16, cmd: u8, p: Seq<u8>) -> (ModeModel, StepModel) {
    match spec_read_path(p, 0) {
        None => reject(m, req_id, cmd, ErrorCode::InvalidArgs, "bad path"@),
        Some((path, c1)) => match spec_read_u64(p, c1) {
            None => reject(m, req_id, cmd, ErrorCode::InvalidArgs, "bad offset"@),
            Some((offset, c2)) => match spec_read_u32(p, c2) {
                None => reject(m, req_id, cmd, ErrorCode::InvalidArgs, "bad length"@),
                Some((length, c3)) => {
                    if c3 + length > p.len() {
                        reject(m, req_id, cmd, ErrorCode::InvalidArgs, "bad data"@)
                    } else {
                        (
                            m,
                            StepModel::Storage(
                                OpModel::Write(path, offset, p.subrange(c3, c3 + length)),
                            ),
                        )
                    }
                },
            },
        },
    }
}

/// A rename request: two paths.
pub open spec fn plan_rename(m: ModeModel, req_id: u16, cmd: u8, p: Seq<u8>) -> (ModeModel, StepModel) {
    match spec_read_path(p, 0) {
        None => reject(m, req_id, cmd, ErrorCode::InvalidArgs, "bad from"@),
        Some((from, c1)) => match spec_read_path(p, c1) {
            None => reject(m, req_id, cmd, ErrorCode::InvalidArgs, "bad to"@),
            Some((to, _)) => (m, StepModel::Storage(OpModel::Rename(from, to))),
        },
    }
}

/// The declared length of a stream header's path (0 without one).
pub open spec fn stream_header_len(p: Seq<u8>) -> int {
    if p.len() >= 2 {
        spec_u16_from_le_bytes(p.subrange(0, 2)) as int
    } else {
        0
    }
}

/// Whether a stream chunk starts with a well-formed header: a nonempty
/// UTF-8 path, a total length and room for an offset.
pub open spec fn stream_header_ok(p: Seq<u8>) -> bool {
    let n = stream_header_len(p);
    n > 0 && p.len() >= 2 + n + 4 + 8 && valid_utf8(p.subrange(2, 2 + n))
}

/// Whether a stream chunk carries a header: any well-formed one when no
/// session is open, else one naming the open session's path byte for byte.
pub open spec fn stream_has_header(session: Option<SessionModel>, p: Seq<u8>) -> bool {
    match session {
        None => stream_header_ok(p),
        Some(s) => {
            let n = stream_header_len(p);
            stream_header_ok(p) && n == encode_utf8(s.path).len() && p.subrange(2, 2 + n)
                == encode_utf8(s.path)
        },
    }
}

/// A streamed chunk once its session is settled: the chunk's offset must be
/// where the session stands; an earlier one is answered with the progress.
pub open spec fn plan_stream_chunk(
    m: ModeModel,
    flags: u8,
    req_id: u16,
    cmd: u8,
    p: Seq<u8>,
    cursor: int,
) -> (ModeModel, StepModel) {
    let s = m.session->0;
    if s.req_id != req_id {
        reject(m, req_id, cmd, ErrorCode::Busy, "write busy"@)
    } else {
        match spec_read_u64(p, cursor) {
            None => reject(m, req_id, cmd, ErrorCode::InvalidArgs, "bad offset"@),
            Some((offset, c2)) => {
                if offset > s.written {
                    reject(m, req_id, cmd, ErrorCode::InvalidArgs, "offset ahead"@)
                } else if offset < s.written {
                    (
                        m,
                        StepModel::Reply(
                            seq![
                                frame_wire(
                                    FLAG_RESP | FLAG_CONT,
                                    cmd,
                                    req_id,
                                    spec_u32_to_le_bytes(s.written as u32),
                                ),
                            ],
                        ),
                    )
                } else {
                    (
                        m,
                        StepModel::Storage(
                            OpModel::WriteStream(
                                s.path,
                                (s.offset + s.written) as u64,
                                p.skip(c2),
                                flags & FLAG_EOF != 0,
                            ),
                        ),
                    )
                }
            },
        }
    }
}

/// A streamed write chunk: the first one opens a session from its header;
/// later ones may repeat the header, which must then agree with the session.
pub open spec fn plan_stream(m: ModeModel, flags: u8, req_id: u16, cmd: u8, p: Seq<u8>) -> (
    ModeModel,
    StepModel,
) {
    let has_header = stream_has_header(m.session, p);
    if m.session is None {
        if !has_header {
            reject(m, req_id, cmd, ErrorCode::InvalidArgs, "missing header"@)
        } else {
            match spec_read_path(p, 0) {
                None => reject(m, req_id, cmd, ErrorCode::InvalidArgs, "bad path"@),
                Some((path, c1)) => match spec_read_u32(p, c1) {
                    None => reject(m, req_id, cmd, ErrorCode::InvalidArgs, "bad total"@),
                    Some((total, c2)) => plan_stream_chunk(
                        ModeModel {
                            session: Some(
                                SessionModel {
                                    req_id,
                                    path,
                                    offset: 0,
                                    total_len: total as u64,
                                    written: 0,
                                },
                            ),
                            ..m
                        },
                        flags,
                        req_id,
                        cmd,
                        p,
                        c2,
                    ),
                },
            }
        }
    } else if has_header {
        match spec_read_path(p, 0) {
            None => reject(m, req_id, cmd, ErrorCode::InvalidArgs, "bad path"@),
            Some((path, c1)) => match spec_read_u32(p, c1) {
                None => reject(m, req_id, cmd, ErrorCode::InvalidArgs, "bad total"@),
                Some((total, c2)) => {
                    let s = m.session->0;
                    if !eq_ci(s.path, path) {
                        reject(m, req_id, cmd, ErrorCode::InvalidArgs, "path mismatch"@)
                    } else if s.total_len != total as u64 {
                        reject(m, req_id, cmd, ErrorCode::InvalidArgs, "total mismatch"@)
                    } else {
                        plan_stream_chunk(m, flags, req_id, cmd, p, c2)
                    }
                },
            },
        }
    } else {
        plan_stream_chunk(m, flags, req_id, cmd, p, 0)
    }
}

/// The first step of handling a request frame: what the mode becomes and
/// either the answer or the storage operation that the answer needs.
pub open spec fn plan(m0: ModeModel, flags: u8, cmd: u8, req_id: u16, p: Seq<u8>) -> (
    ModeModel,
    StepModel,
) {
    let m = ModeModel { last_cmd: Some(cmd), last_req: Some(req_id), ..m0 };
    if m.state != UsbModeState::Active {
        reject(m, req_id, cmd, ErrorCode::Busy, "usb not active"@)
    } else if cmd == 0x01 {
        accept_with(m, req_id, cmd, spec_u32_to_le_bytes(0x5854_3430))
    } else if cmd == 0x02 {
        accept_with(
            m,
            req_id,
            cmd,
            spec_u32_to_le_bytes(m.max_payload as u32) + spec_u32_to_le_bytes(0x3F),
        )
    } else if cmd == 0x10 || cmd == 0x13 || cmd == 0x14 || cmd == 0x15 {
        plan_path_op(m, req_id, cmd, p)
    } else if cmd == 0x11 {
        plan_read(m, req_id, cmd, p)
    } else if cmd == 0x12 {
        if flags & (FLAG_CONT | FLAG_EOF) != 0 {
            plan_stream(m, flags, req_id, cmd, p)
        } else {
            plan_write(m, req_id, cmd, p)
        }
    } else if cmd == 0x16 {
        plan_rename(m, req_id, cmd, p)
    } else if cmd == 0x20 {
        let (m2, step) = accept_with(m, req_id, cmd, seq![]);
        (ModeModel { state: UsbModeState::Idle, ..m2 }, step)
    } else {
        reject(m, req_id, cmd, ErrorCode::InvalidCommand, "unknown command"@)
    }
}

/// One turn of the receive loop on `buf`: a rejected frame is answered
/// with an error, a request as `plan` and `complete` say, with `reply` as
/// the storage's answer where the request needs one. Gives the new mode,
/// what stays buffered, the answer frames, and whether `reply` is of the
/// kind the storage operation gives.
#[verifier::opaque]
pub open spec fn process_step(m: ModeModel, buf: Seq<u8>, reply: StorageReply) -> (
    ModeModel,
    Seq<u8>,
    Seq<Seq<u8>>,
    bool,
) {
    match decode_frame(buf) {
        None => (m, buf, seq![], true),
        Some(Err(code)) => (
            ModeModel { last_err: Some(code), ..m },
            decode_rest(buf),
            seq![error_frame(0, 0, code, "bad frame"@)],
            true,
        ),
        Some(Ok(f)) => {
            let (m2, step) = plan(m, f.0, f.1, f.2, f.3);
            match step {
                StepModel::Reply(frames) => (m2, decode_rest(buf), frames, true),
                StepModel::Storage(op) => {
                    let (m3, frames) = complete(m2, f.1, f.2, op, reply);
                    (m3, decode_rest(buf), frames, reply_matches(op, reply))
                },
            }
        },
    }
}

/// `replies.len()` turns of the receive loop, one storage answer per turn,
/// with the answer frames of all turns in order.
pub open spec fn process_turns(m: ModeModel, buf: Seq<u8>, replies: Seq<StorageReply>) -> (
    ModeModel,
    Seq<u8>,
    Seq<Seq<u8>>,
    bool,
)
    decreases replies.len(),
{
    if replies.len() == 0 {
        (m, buf, seq![], true)
    } else {
        let (m1, b1, o1, ok1) = process_turns(m, buf, replies.drop_last());
        let (m2, b2, o2, ok2) = process_step(m1, b1, replies.last());
        (m2, b2, o1 + o2, ok1 && ok2)
    }
}

proof fn lemma_turns_push(
    m0: ModeModel,
    b0: Seq<u8>,
    replies: Seq<StorageReply>,
    o: Seq<Seq<u8>>,
    m: ModeModel,
    b: Seq<u8>,
    rep: StorageReply,
    m2: ModeModel,
    b2: Seq<u8>,
    o2: Seq<Seq<u8>>,
)
    requires
        process_turns(m0, b0, replies) == (m, b, o, true),
        process_step(m, b, rep) == (m2, b2, o2, true),
    ensures
        process_turns(m0, b0, replies.push(rep)) == (m2, b2, o + o2, true),
{
    assert(replies.push(rep).drop_last() =~= replies);
}

proof fn lemma_step_rejected(m: ModeModel, buf: Seq<u8>, code: ErrorCode, rep: StorageReply)
    requires
        decode_frame(buf) == Some(Err::<(u8, u8, u16, Seq<u8>), ErrorCode>(code)),
    ensures
        process_step(m, buf, rep) == (
            ModeModel { last_err: Some(code), ..m },
            decode_rest(buf),
            seq![error_frame(0, 0, code, "bad frame"@)],
            true,
        ),
{
    reveal(process_step);
}

proof fn lemma_step_request(
    m: ModeModel,
    buf: Seq<u8>,
    f: (u8, u8, u16, Seq<u8>),
    rep: StorageReply,
    m3: ModeModel,
    frames: Seq<Seq<u8>>,
)
    requires
        decode_frame(buf) == Some(Ok::<(u8, u8, u16, Seq<u8>), ErrorCode>(f)),
        ({
            let (m2, step) = plan(m, f.0, f.1, f.2, f.3);
            match step {
                StepModel::Reply(fr) => m3 == m2 && frames == fr,
                StepModel::Storage(op) => reply_matches(op, rep) && (m3, frames) == complete(
                    m2,
                    f.1,
                    f.2,
                    op,
                    rep,
                ),
            }
        }),
    ensures
        process_step(m, buf, rep) == (m3, decode_rest(buf), frames, true),
{
    reveal(process_step);
}

/// A failed storage operation: an I/O error carrying the storage's message
/// or the fallback.
pub open spec fn storage_failed(
    m: ModeModel,
    req_id: u16,
    cmd: u8,
    err: ImageError,
    fallback: Seq<char>,
) -> (ModeModel, Seq<Seq<u8>>) {
    (
        ModeModel { last_err: Some(ErrorCode::Io), ..m },
        seq![error_frame(req_id, cmd, ErrorCode::Io, error_text(err, fallback))],
    )
}

/// The second step: what the mode becomes and the frames that answer the
/// request, given the storage's reply.
pub open spec fn complete(m: ModeModel, cmd: u8, req_id: u16, op: OpModel, reply: StorageReply) -> (
    ModeModel,
    Seq<Seq<u8>>,
) {
    match (op, reply) {
        (OpModel::List(_), StorageReply::Listed(Ok(entries))) => (
            ModeModel {
                last_err: None,
                last_list_count: Some(entries@.len() as u16),
                ..m
            },
            chunk_frames(cmd, req_id, list_payload(entries@), m.max_payload as int),
        ),
        (OpModel::List(_), StorageReply::Listed(Err(e))) => storage_failed(
            m,
            req_id,
            cmd,
            e,
            "list failed"@,
        ),
        (OpModel::Read(..), StorageReply::Data(Ok(data))) => (
            ModeModel { last_err: None, ..m },
            chunk_frames(cmd, req_id, data@, m.max_payload as int),
        ),
        (OpModel::Read(..), StorageReply::Data(Err(e))) => storage_failed(
            m,
            req_id,
            cmd,
            e,
            "read failed"@,
        ),
        (OpModel::Write(..), StorageReply::Written(Ok(w))) => (
            ModeModel { last_err: None, ..m },
            seq![ok_frame(req_id, cmd, spec_u32_to_le_bytes(w))],
        ),
        (OpModel::Write(..), StorageReply::Written(Err(e))) => storage_failed(
            m,
            req_id,
            cmd,
            e,
            "write failed"@,
        ),
        (OpModel::WriteStream(_, _, _, fin), StorageReply::Written(Ok(w))) => {
            let s = m.session->0;
            let written: u64 = if s.written + w > u64::MAX {
                u64::MAX
            } else {
                (s.written + w) as u64
            };
            let payload = spec_u32_to_le_bytes(written as u32);
            if fin {
                if written != s.total_len {
                    (
                        ModeModel { last_err: Some(ErrorCode::Io), session: None, ..m },
                        seq![
                            error_frame(req_id, cmd, ErrorCode::Io, "write length mismatch"@),
                        ],
                    )
                } else {
                    (
                        ModeModel { last_err: None, session: None, ..m },
                        seq![frame_wire(FLAG_RESP | FLAG_EOF, cmd, req_id, payload)],
                    )
                }
            } else {
                (
                    ModeModel { session: Some(SessionModel { written, ..s }), ..m },
                    seq![frame_wire(FLAG_RESP | FLAG_CONT, cmd, req_id, payload)],
                )
            }
        },
        (OpModel::WriteStream(..), StorageReply::Written(Err(e))) => {
            let (m2, frames) = storage_failed(m, req_id, cmd, e, "write failed"@);
            (ModeModel { session: None, ..m2 }, frames)
        },
        (OpModel::Delete(_), StorageReply::Done(Ok(()))) => (
            ModeModel { last_err: None, ..m },
            seq![ok_frame(req_id, cmd, seq![])],
        ),
        (OpModel::Delete(_), StorageReply::Done(Err(e))) => storage_failed(
            m,
            req_id,
            cmd,
            e,
            "delete failed"@,
        ),
        (OpModel::Mkdir(_), StorageReply::Done(Ok(()))) => (
            ModeModel { last_err: None, ..m },
            seq![ok_frame(req_id, cmd, seq![])],
        ),
        (OpModel::Mkdir(_), StorageReply::Done(Err(e))) => storage_failed(
            m,
            req_id,
            cmd,
            e,
            "mkdir failed"@,
        ),
        (OpModel::Rmdir(_), StorageReply::Done(Ok(()))) => (
            ModeModel { last_err: None, ..m },
            seq![ok_frame(req_id, cmd, seq![])],
        ),
        (OpModel::Rmdir(_), StorageReply::Done(Err(e))) => storage_failed(
            m,
            req_id,
            cmd,
            e,
            "rmdir failed"@,
        ),
        (OpModel::Rename(..), StorageReply::Done(Ok(()))) => (
            ModeModel { last_err: None, ..m },
            seq![ok_frame(req_id, cmd, seq![])],
        ),
        (OpModel::Rename(..), StorageReply::Done(Err(e))) => storage_failed(
            m,
            req_id,
            cmd,
            e,
            "rename failed"@,
        ),
        _ => (m, seq![]),
    }
}

/// The mode: its state, the frame reassembly and what it last saw.
pub struct UsbMode {
    state: UsbModeState,
    protocol: UsbProtocol,
    last_cmd: Option<u8>,
    last_req: Option<u16>,
    last_err: Option<ErrorCode>,
    last_list_count: Option<u16>,
    write_session: Option<WriteSession>,
}

impl View for UsbMode {
    type V = ModeModel;

    closed spec fn view(&self) -> ModeModel {
        ModeModel {
            state: self.state,
            max_payload: self.protocol.spec_max_payload(),
            last_cmd: self.last_cmd,
            last_req: self.last_req,
            last_err: self.last_err,
            last_list_count: self.last_list_count,
            session: match self.write_session {
                Some(s) => Some(
                    SessionModel {
                        req_id: s.req_id,
                        path: s.path@,
                        offset: s.offset,
                        total_len: s.total_len,
                        written: s.written,
                    },
                ),
                None => None,
            },
        }
    }
}

impl UsbMode {
    /// Streamed writes start at offset 0.
    pub closed spec fn wf(&self) -> bool {
        self.write_session matches Some(s) ==> s.offset == 0
    }

    /// Bytes received and not yet made into frames.
    pub closed spec fn pending(&self) -> Seq<u8> {
        self.protocol.pending()
    }

    pub fn new(max_payload: usize) -> (r: Self)
        ensures
            r.wf(),
            r@ == (ModeModel {
                state: UsbModeState::Idle,
                max_payload,
                last_cmd: None,
                last_req: None,
                last_err: None,
                last_list_count: None,
                session: None,
            }),
            r.pending() == Seq::<u8>::empty(),
    {
        UsbMode {
            state: UsbModeState::Idle,
            protocol: UsbProtocol::new(max_payload),
            last_cmd: None,
            last_req: None,
            last_err: None,
            last_list_count: None,
            write_session: None,
        }
    }

    pub fn state(&self) -> (r: UsbModeState)
        ensures
            r == self@.state,
    {
        self.state
    }

    pub fn set_state(&mut self, state: UsbModeState)
        ensures
            final(self)@ == (ModeModel { state, ..old(self)@ }),
            final(self).pending() == old(self).pending(),
            final(self).wf() == old(self).wf(),
    {
        self.state = state;
    }

    /// The frame reassembly.
    pub fn protocol(&mut self) -> (r: &mut UsbProtocol)
        ensures
            r.pending() == old(self).pending(),
            r.spec_max_payload() == old(self)@.max_payload,
            final(self).pending() == final(r).pending(),
            final(self)@ == (ModeModel { max_payload: final(r).spec_max_payload(), ..old(self)@ }),
            final(self).wf() == old(self).wf(),
    {
        &mut self.protocol
    }

    pub fn status(&self) -> (r: UsbStatus)
        ensures
            r == (UsbStatus {
                last_cmd: self@.last_cmd,
                last_req: self@.last_req,
                last_err: self@.last_err,
                last_list_count: self@.last_list_count,
            }),
    {
        UsbStatus {
            last_cmd: self.last_cmd,
            last_req: self.last_req,
            last_err: self.last_err,
            last_list_count: self.last_list_count,
        }
    }

    /// Whether the user should be asked to allow transfers.
    pub fn should_prompt(&self) -> (r: bool)
        ensures
            r == (self@.state == UsbModeState::Idle),
    {
        self.state == UsbModeState::Idle
    }

    pub fn enter_prompt(&mut self)
        ensures
            final(self)@ == (ModeModel { state: UsbModeState::Prompt, ..old(self)@ }),
            final(self).pending() == old(self).pending(),
            final(self).wf() == old(self).wf(),
    {
        self.state = UsbModeState::Prompt;
    }

    pub fn accept(&mut self)
        ensures
            final(self)@ == (ModeModel { state: UsbModeState::Active, ..old(self)@ }),
            final(self).pending() == old(self).pending(),
            final(self).wf() == old(self).wf(),
    {
        self.state = UsbModeState::Active;
    }

    pub fn reject(&mut self)
        ensures
            final(self)@ == (ModeModel { state: UsbModeState::Rejected, ..old(self)@ }),
            final(self).pending() == old(self).pending(),
            final(self).wf() == old(self).wf(),
    {
        self.state = UsbModeState::Rejected;
    }
}

impl UsbMode {
    /// Records an error and answers with one error frame.
    fn reject_step(&mut self, req_id: u16, cmd: u8, code: ErrorCode, msg: &str) -> (r: RequestStep)
        ensures
            (final(self)@, step_view(r)) == reject(old(self)@, req_id, cmd, code, msg@),
            final(self).pending() == old(self).pending(),
            final(self).wf() == old(self).wf(),
    {
        self.last_err = Some(code);
        let mut frames: Vec<Vec<u8>> = Vec::new();
        frames.push(encode_error(req_id, cmd, code, msg));
        assert(frames_view(frames@) =~= seq![error_frame(req_id, cmd, code, msg@)]);
        RequestStep::Reply(frames)
    }

    /// Clears the error and answers with one successful frame.
    fn accept_step(&mut self, req_id: u16, cmd: u8, payload: &[u8]) -> (r: RequestStep)
        ensures
            (final(self)@, step_view(r)) == accept_with(old(self)@, req_id, cmd, payload@),
            final(self).pending() == old(self).pending(),
            final(self).wf() == old(self).wf(),
    {
        self.last_err = None;
        let mut frames: Vec<Vec<u8>> = Vec::new();
        frames.push(encode_ok(req_id, cmd, payload));
        assert(frames_view(frames@) =~= seq![ok_frame(req_id, cmd, payload@)]);
        RequestStep::Reply(frames)
    }

    fn plan_path_op_step(&mut self, frame: &Frame) -> (r: RequestStep)
        ensures
            (final(self)@, step_view(r)) == plan_path_op(
                old(self)@,
                frame.req_id,
                frame.cmd,
                frame.payload@,
            ),
            final(self).pending() == old(self).pending(),
            final(self).wf() == old(self).wf(),
    {
        let mut cursor: usize = 0;
        match read_path(frame.payload.as_slice(), &mut cursor) {
            None => self.reject_step(frame.req_id, frame.cmd, ErrorCode::InvalidArgs, "bad path"),
            Some(path) => {
                if frame.cmd == 0x10 {
                    RequestStep::Storage(StorageOp::List { path })
                } else if frame.cmd == 0x13 {
                    RequestStep::Storage(StorageOp::Delete { path })
                } else if frame.cmd == 0x14 {
                    RequestStep::Storage(StorageOp::Mkdir { path })
                } else {
                    RequestStep::Storage(StorageOp::Rmdir { path })
                }
            },
        }
    }

    fn plan_read_step(&mut self, frame: &Frame) -> (r: RequestStep)
        ensures
            (final(self)@, step_view(r)) == plan_read(old(self)@, frame.req_id, frame.cmd, frame.payload@),
            final(self).pending() == old(self).pending(),
            final(self).wf() == old(self).wf(),
    {
        let p = frame.payload.as_slice();
        let mut cursor: usize = 0;
        let path = match read_path(p, &mut cursor) {
            None => return self.reject_step(frame.req_id, frame.cmd, ErrorCode::InvalidArgs, "bad path"),
            Some(x) => x,
        };
        let offset = match read_u64(p, &mut cursor) {
            None => return self.reject_step(
                frame.req_id,
                frame.cmd,
                ErrorCode::InvalidArgs,
                "bad offset",
            ),
            Some(x) => x,
        };
        let length = match read_u32(p, &mut cursor) {
            None => return self.reject_step(
                frame.req_id,
                frame.cmd,
                ErrorCode::InvalidArgs,
                "bad length",
            ),
            Some(x) => x,
        };
        RequestStep::Storage(StorageOp::Read { path, offset, length })
    }

    fn plan_write_step(&mut self, frame: &Frame) -> (r: RequestStep)
        ensures
            (final(self)@, step_view(r)) == plan_write(old(self)@, frame.req_id, frame.cmd, frame.payload@),
            final(self).pending() == old(self).pending(),
            final(self).wf() == old(self).wf(),
    {
        let p = frame.payload.as_slice();
        let mut cursor: usize = 0;
        let path = match read_path(p, &mut cursor) {
            None => return self.reject_step(frame.req_id, frame.cmd, ErrorCode::InvalidArgs, "bad path"),
            Some(x) => x,
        };
        let offset = match read_u64(p, &mut cursor) {
            None => return self.reject_step(
                frame.req_id,
                frame.cmd,
                ErrorCode::InvalidArgs,
                "bad offset",
            ),
            Some(x) => x,
        };
        let length = match read_u32(p, &mut cursor) {
            None => return self.reject_step(
                frame.req_id,
                frame.cmd,
                ErrorCode::InvalidArgs,
                "bad length",
            ),
            Some(x) => x,
        };
        if p.len() - cursor < length as usize {
            return self.reject_step(frame.req_id, frame.cmd, ErrorCode::InvalidArgs, "bad data");
        }
        let data = slice_to_vec(slice_subrange(p, cursor, cursor + length as usize));
        RequestStep::Storage(StorageOp::Write { path, offset, data })
    }

    fn plan_rename_step(&mut self, frame: &Frame) -> (r: RequestStep)
        ensures
            (final(self)@, step_view(r)) == plan_rename(
                old(self)@,
                frame.req_id,
                frame.cmd,
                frame.payload@,
            ),
            final(self).pending() == old(self).pending(),
            final(self).wf() == old(self).wf(),
    {
        let p = frame.payload.as_slice();
        let mut cursor: usize = 0;
        let from = match read_path(p, &mut cursor) {
            None => return self.reject_step(frame.req_id, frame.cmd, ErrorCode::InvalidArgs, "bad from"),
            Some(x) => x,
        };
        let to = match read_path(p, &mut cursor) {
            None => return self.reject_step(frame.req_id, frame.cmd, ErrorCode::InvalidArgs, "bad to"),
            Some(x) => x,
        };
        RequestStep::Storage(StorageOp::Rename { from, to })
    }

    fn plan_stream_chunk_step(&mut self, frame: &Frame, cursor: usize) -> (r: RequestStep)
        requires
            old(self).wf(),
            old(self)@.session is Some,
        ensures
            (final(self)@, step_view(r)) == plan_stream_chunk(
                old(self)@,
                frame.flags,
                frame.req_id,
                frame.cmd,
                frame.payload@,
                cursor as int,
            ),
            final(self).pending() == old(self).pending(),
            final(self).wf(),
            final(self)@.session is Some,
    {
        let (sreq, written, soffset) = match &self.write_session {
            Some(s) => (s.req_id, s.written, s.offset),
            None => {
                return RequestStep::Reply(Vec::new());
            },
        };
        if sreq != frame.req_id {
            return self.reject_step(frame.req_id, frame.cmd, ErrorCode::Busy, "write busy");
        }
        let p = frame.payload.as_slice();
        let mut c = cursor;
        let offset = match read_u64(p, &mut c) {
            None => return self.reject_step(
                frame.req_id,
                frame.cmd,
                ErrorCode::InvalidArgs,
                "bad offset",
            ),
            Some(x) => x,
        };
        if offset > written {
            return self.reject_step(frame.req_id, frame.cmd, ErrorCode::InvalidArgs, "offset ahead");
        }
        if offset < written {
            let mut payload: Vec<u8> = Vec::new();
            write_u32(&mut payload, written as u32);
            let mut frames: Vec<Vec<u8>> = Vec::new();
            frames.push(encode_frame(FLAG_RESP | FLAG_CONT, frame.cmd, frame.req_id, payload.as_slice()));
            assert(frames_view(frames@) =~= seq![
                frame_wire(FLAG_RESP | FLAG_CONT, frame.cmd, frame.req_id, payload@),
            ]);
            return RequestStep::Reply(frames);
        }
        let data = slice_to_vec(slice_subrange(p, c, p.len()));
        assert(data@ =~= p@.skip(c as int));
        let path = match &self.write_session {
            Some(s) => s.path.clone(),
            None => String::new(),
        };
        RequestStep::Storage(
            StorageOp::WriteStream {
                path,
                offset: soffset + written,
                data,
                final_chunk: frame.flags & FLAG_EOF != 0,
            },
        )
    }

    fn plan_stream_step(&mut self, frame: &Frame) -> (r: RequestStep)
        requires
            old(self).wf(),
        ensures
            (final(self)@, step_view(r)) == plan_stream(
                old(self)@,
                frame.flags,
                frame.req_id,
                frame.cmd,
                frame.payload@,
            ),
            final(self).pending() == old(self).pending(),
            final(self).wf(),
            step_view(r) is Storage ==> final(self)@.session is Some,
    {
        let p = frame.payload.as_slice();
        let plen = p.len();
        let header_len: usize = if plen >= 2 {
            u16_from_le_bytes(slice_subrange(p, 0, 2)) as usize
        } else {
            0
        };
        let header_ok = header_len > 0 && plen >= header_len + 14 && utf8_string(
            slice_subrange(p, 2, 2 + header_len),
        ).is_some();
        let has_header = if !header_ok {
            false
        } else {
            match &self.write_session {
                None => true,
                Some(s) => {
                    let pb = str_bytes(s.path.as_str());
                    header_len == pb.len() && bytes_eq(slice_subrange(p, 2, 2 + header_len), pb)
                },
            }
        };
        assert(has_header == stream_has_header(self@.session, p@));
        if self.write_session.is_none() {
            if !has_header {
                return self.reject_step(
                    frame.req_id,
                    frame.cmd,
                    ErrorCode::InvalidArgs,
                    "missing header",
                );
            }
            let mut cursor: usize = 0;
            let path = match read_path(p, &mut cursor) {
                None => return self.reject_step(
                    frame.req_id,
                    frame.cmd,
                    ErrorCode::InvalidArgs,
                    "bad path",
                ),
                Some(x) => x,
            };
            let total = match read_u32(p, &mut cursor) {
                None => return self.reject_step(
                    frame.req_id,
                    frame.cmd,
                    ErrorCode::InvalidArgs,
                    "bad total",
                ),
                Some(x) => x,
            };
            self.write_session = Some(
                WriteSession {
                    req_id: frame.req_id,
                    path,
                    offset: 0,
                    total_len: total as u64,
                    written: 0,
                },
            );
            self.plan_stream_chunk_step(frame, cursor)
        } else if has_header {
            let mut cursor: usize = 0;
            let path = match read_path(p, &mut cursor) {
                None => return self.reject_step(
                    frame.req_id,
                    frame.cmd,
                    ErrorCode::InvalidArgs,
                    "bad path",
                ),
                Some(x) => x,
            };
            let total = match read_u32(p, &mut cursor) {
                None => return self.reject_step(
                    frame.req_id,
                    frame.cmd,
                    ErrorCode::InvalidArgs,
                    "bad total",
                ),
                Some(x) => x,
            };
            let (same_path, same_total) = match &self.write_session {
                Some(s) => (
                    eq_ignore_ascii_case(s.path.as_str(), path.as_str()),
                    s.total_len == total as u64,
                ),
                None => (false, false),
            };
            if !same_path {
                return self.reject_step(
                    frame.req_id,
                    frame.cmd,
                    ErrorCode::InvalidArgs,
                    "path mismatch",
                );
            }
            if !same_total {
                return self.reject_step(
                    frame.req_id,
                    frame.cmd,
                    ErrorCode::InvalidArgs,
                    "total mismatch",
                );
            }
            self.plan_stream_chunk_step(frame, cursor)
        } else {
            self.plan_stream_chunk_step(frame, 0)
        }
    }

    /// The first step of handling a request frame (see `plan`).
    pub fn plan_request(&mut self, frame: &Frame) -> (r: RequestStep)
        requires
            old(self).wf(),
        ensures
            final(self).wf(),
            (final(self)@, step_view(r)) == plan(
                old(self)@,
                frame.flags,
                frame.cmd,
                frame.req_id,
                frame.payload@,
            ),
            final(self).pending() == old(self).pending(),
            step_view(r) matches StepModel::Storage(OpModel::WriteStream(..))
                ==> final(self)@.session is Some,
    {
        self.last_cmd = Some(frame.cmd);
        self.last_req = Some(frame.req_id);
        let cmd = frame.cmd;
        let req_id = frame.req_id;
        if self.state != UsbModeState::Active {
            return self.reject_step(req_id, cmd, ErrorCode::Busy, "usb not active");
        }
        if cmd == 0x01 {
            let mut payload: Vec<u8> = Vec::new();
            write_u32(&mut payload, 0x5854_3430);
            self.accept_step(req_id, cmd, payload.as_slice())
        } else if cmd == 0x02 {
            let mut payload: Vec<u8> = Vec::new();
            write_u32(&mut payload, self.protocol.max_payload() as u32);
            write_u32(&mut payload, 0x3F);
            self.accept_step(req_id, cmd, payload.as_slice())
        } else if cmd == 0x10 || cmd == 0x13 || cmd == 0x14 || cmd == 0x15 {
            self.plan_path_op_step(frame)
        } else if cmd == 0x11 {
            self.plan_read_step(frame)
        } else if cmd == 0x12 {
            if frame.flags & (FLAG_CONT | FLAG_EOF) != 0 {
                self.plan_stream_step(frame)
            } else {
                self.plan_write_step(frame)
            }
        } else if cmd == 0x16 {
            self.plan_rename_step(frame)
        } else if cmd == 0x20 {
            let empty: Vec<u8> = Vec::new();
            let step = self.accept_step(req_id, cmd, empty.as_slice());
            self.state = UsbModeState::Idle;
            step
        } else {
            self.reject_step(req_id, cmd, ErrorCode::InvalidCommand, "unknown command")
        }
    }
}

impl UsbMode {
    /// Records an I/O error and answers with the storage's message or the
    /// fallback.
    fn fail_step(&mut self, req_id: u16, cmd: u8, err: ImageError, fallback: &str) -> (r: Vec<
        Vec<u8>,
    >)
        ensures
            (final(self)@, frames_view(r@)) == storage_failed(
                old(self)@,
                req_id,
                cmd,
                err,
                fallback@,
            ),
            final(self).pending() == old(self).pending(),
            final(self).wf() == old(self).wf(),
    {
        self.last_err = Some(ErrorCode::Io);
        let mut frames: Vec<Vec<u8>> = Vec::new();
        frames.push(encode_error_for(req_id, cmd, ErrorCode::Io, err, fallback));
        assert(frames_view(frames@) =~= seq![
            error_frame(req_id, cmd, ErrorCode::Io, error_text(err, fallback@)),
        ]);
        frames
    }

    fn ok_frames(req_id: u16, cmd: u8, payload: &[u8]) -> (r: Vec<Vec<u8>>)
        ensures
            frames_view(r@) == seq![ok_frame(req_id, cmd, payload@)],
    {
        let mut frames: Vec<Vec<u8>> = Vec::new();
        frames.push(encode_ok(req_id, cmd, payload));
        assert(frames_view(frames@) =~= seq![ok_frame(req_id, cmd, payload@)]);
        frames
    }

    /// Ends a streamed write chunk once the storage has answered.
    fn complete_stream(&mut self, cmd: u8, req_id: u16, op: &StorageOp, res: Result<u32, ImageError>) -> (r:
        Vec<Vec<u8>>)
        requires
            old(self).wf(),
            old(self)@.session is Some,
            op is WriteStream,
        ensures
            final(self).wf(),
            (final(self)@, frames_view(r@)) == complete(
                old(self)@,
                cmd,
                req_id,
                op_view(*op),
                StorageReply::Written(res),
            ),
            final(self).pending() == old(self).pending(),
    {
        let fin = match op {
            StorageOp::WriteStream { final_chunk, .. } => *final_chunk,
            _ => false,
        };
        match res {
            Err(e) => {
                let frames = self.fail_step(req_id, cmd, e, "write failed");
                self.write_session = None;
                frames
            },
            Ok(w) => {
                let (written, total) = match &self.write_session {
                    Some(s) => (s.written.saturating_add(w as u64), s.total_len),
                    None => (0, 0),
                };
                let mut payload: Vec<u8> = Vec::new();
                write_u32(&mut payload, written as u32);
                let mut frames: Vec<Vec<u8>> = Vec::new();
                if fin {
                    if written != total {
                        self.last_err = Some(ErrorCode::Io);
                        frames.push(encode_error(req_id, cmd, ErrorCode::Io, "write length mismatch"));
                        self.write_session = None;
                        assert(frames_view(frames@) =~= seq![
                            error_frame(req_id, cmd, ErrorCode::Io, "write length mismatch"@),
                        ]);
                        return frames;
                    }
                    self.last_err = None;
                    frames.push(encode_frame(FLAG_RESP | FLAG_EOF, cmd, req_id, payload.as_slice()));
                    self.write_session = None;
                    assert(frames_view(frames@) =~= seq![
                        frame_wire(FLAG_RESP | FLAG_EOF, cmd, req_id, payload@),
                    ]);
                    frames
                } else {
                    if let Some(s) = &mut self.write_session {
                        s.written = written;
                    }
                    frames.push(encode_frame(FLAG_RESP | FLAG_CONT, cmd, req_id, payload.as_slice()));
                    assert(frames_view(frames@) =~= seq![
                        frame_wire(FLAG_RESP | FLAG_CONT, cmd, req_id, payload@),
                    ]);
                    frames
                }
            },
        }
    }

    /// The second step of handling a request (see `complete`): turns the
    /// storage's reply into the answer.
    pub fn complete_request(&mut self, cmd: u8, req_id: u16, op: &StorageOp, reply: StorageReply) -> (r:
        Vec<Vec<u8>>)
        requires
            old(self).wf(),
            old(self)@.max_payload > 0,
            reply_matches(op_view(*op), reply),
            op is WriteStream ==> old(self)@.session is Some,
        ensures
            final(self).wf(),
            (final(self)@, frames_view(r@)) == complete(old(self)@, cmd, req_id, op_view(*op), reply),
            final(self).pending() == old(self).pending(),
    {
        match reply {
            StorageReply::Listed(res) => match res {
                Ok(entries) => {
                    self.last_err = None;
                    self.last_list_count = Some(entries.len() as u16);
                    let payload = serialize_list(entries.as_slice());
                    send_chunked(cmd, req_id, payload.as_slice(), self.protocol.max_payload())
                },
                Err(e) => self.fail_step(req_id, cmd, e, "list failed"),
            },
            StorageReply::Data(res) => match res {
                Ok(data) => {
                    self.last_err = None;
                    send_chunked(cmd, req_id, data.as_slice(), self.protocol.max_payload())
                },
                Err(e) => self.fail_step(req_id, cmd, e, "read failed"),
            },
            StorageReply::Written(res) => {
                if matches!(op, StorageOp::WriteStream { .. }) {
                    self.complete_stream(cmd, req_id, op, res)
                } else {
                    match res {
                        Ok(w) => {
                            self.last_err = None;
                            let mut payload: Vec<u8> = Vec::new();
                            write_u32(&mut payload, w);
                            Self::ok_frames(req_id, cmd, payload.as_slice())
                        },
                        Err(e) => self.fail_step(req_id, cmd, e, "write failed"),
                    }
                }
            },
            StorageReply::Done(res) => {
                let fallback: &str = match op {
                    StorageOp::Delete { .. } => "delete failed",
                    StorageOp::Mkdir { .. } => "mkdir failed",
                    StorageOp::Rmdir { .. } => "rmdir failed",
                    _ => "rename failed",
                };
                match res {
                    Ok(()) => {
                        self.last_err = None;
                        let empty: Vec<u8> = Vec::new();
                        Self::ok_frames(req_id, cmd, empty.as_slice())
                    },
                    Err(e) => self.fail_step(req_id, cmd, e, fallback),
                }
            },
        }
    }

    /// Runs a storage operation.
    fn perform<S: UsbStorage>(op: &StorageOp, storage: &mut S) -> (r: StorageReply)
        ensures
            reply_matches(op_view(*op), r),
    {
        match op {
            StorageOp::List { path } => StorageReply::Listed(storage.usb_list(path.as_str())),
            StorageOp::Read { path, offset, length } => StorageReply::Data(
                storage.usb_read(path.as_str(), *offset, *length),
            ),
            StorageOp::Write { path, offset, data } => StorageReply::Written(
                storage.usb_write(path.as_str(), *offset, data.as_slice()),
            ),
            StorageOp::WriteStream { path, offset, data, final_chunk } => StorageReply::Written(
                storage.usb_write_stream(path.as_str(), *offset, data.as_slice(), *final_chunk),
            ),
            StorageOp::Delete { path } => StorageReply::Done(storage.usb_delete(path.as_str())),
            StorageOp::Mkdir { path } => StorageReply::Done(storage.usb_mkdir(path.as_str())),
            StorageOp::Rmdir { path } => StorageReply::Done(storage.usb_rmdir(path.as_str())),
            StorageOp::Rename { from, to } => StorageReply::Done(
                storage.usb_rename(from.as_str(), to.as_str()),
            ),
        }
    }

    /// Handles one request frame: answered at once where the mode decides,
    /// otherwise after asking the storage, whatever it answers.
    pub fn handle_frame<S: UsbStorage>(&mut self, frame: &Frame, storage: &mut S) -> (r: Vec<Vec<u8>>)
        requires
            old(self).wf(),
            old(self)@.max_payload > 0,
        ensures
            final(self).wf(),
            final(self).pending() == old(self).pending(),
            ({
                let (m, step) = plan(
                    old(self)@,
                    frame.flags,
                    frame.cmd,
                    frame.req_id,
                    frame.payload@,
                );
                match step {
                    StepModel::Reply(frames) => final(self)@ == m && frames_view(r@) == frames,
                    StepModel::Storage(op) => exists|reply: StorageReply|
                        reply_matches(op, reply) && (final(self)@, frames_view(r@)) == #[trigger] complete(
                            m,
                            frame.cmd,
                            frame.req_id,
                            op,
                            reply,
                        ),
                }
            }),
    {
        let step = self.plan_request(frame);
        match step {
            RequestStep::Reply(frames) => frames,
            RequestStep::Storage(op) => {
                let reply = Self::perform(&op, storage);
                let ghost g = reply;
                let frames = self.complete_request(frame.cmd, frame.req_id, &op, reply);
                assert(reply_matches(op_view(op), g));
                frames
            },
        }
    }

    /// Takes in received bytes; bytes from the host while the mode is idle
    /// open the prompt that asks the user to allow file access. Nothing is
    /// served until the user accepts.
    pub fn receive(&mut self, bytes: &[u8])
        ensures
            final(self).wf() == old(self).wf(),
            final(self).pending() == old(self).pending() + bytes@,
            final(self)@ == if bytes@.len() > 0 && old(self)@.state == UsbModeState::Idle {
                ModeModel { state: UsbModeState::Prompt, ..old(self)@ }
            } else {
                old(self)@
            },
    {
        if bytes.len() > 0 {
            self.protocol.push_bytes(bytes);
            if self.should_prompt() {
                self.enter_prompt();
            }
        } else {
            assert(old(self).pending() + bytes@ =~= old(self).pending());
        }
    }

    /// Answers every complete frame received so far, in order: a rejected
    /// frame with an error, each request as `handle_frame` does. The answer
    /// is that of the turns of `process_turns` for some storage answers of
    /// the right kinds, until only the start of an incomplete frame stays
    /// buffered.
    #[verifier::spinoff_prover]
    pub fn process<S: UsbStorage>(&mut self, storage: &mut S) -> (r: Vec<Vec<u8>>)
        requires
            old(self).wf(),
            old(self)@.max_payload > 0,
        ensures
            final(self).wf(),
            decode_frame(final(self).pending()) is None,
            final(self)@.max_payload == old(self)@.max_payload,
            exists|replies: Seq<StorageReply>|
                #[trigger] process_turns(old(self)@, old(self).pending(), replies) == (
                    final(self)@,
                    final(self).pending(),
                    frames_view(r@),
                    true,
                ),
    {
        let ghost max = self@.max_payload;
        let ghost m0 = self@;
        let ghost b0 = self.pending();
        let ghost mut replies: Seq<StorageReply> = Seq::empty();
        let mut out: Vec<Vec<u8>> = Vec::new();
        loop
            invariant
                self.wf(),
                self@.max_payload == max,
                max > 0,
                process_turns(m0, b0, replies) == (self@, self.pending(), frames_view(out@), true),
            ensures
                self.wf(),
                decode_frame(self.pending()) is None,
                self@.max_payload == max,
                process_turns(m0, b0, replies) == (self@, self.pending(), frames_view(out@), true),
            decreases self.pending().len(),
        {
            let ghost before = self.pending();
            let ghost m_before = self@;
            let ghost out_before = frames_view(out@);
            match self.protocol.next_frame() {
                None => {
                    break;
                },
                Some(Err(code)) => {
                    self.last_err = Some(code);
                    let e = encode_error(0, 0, code, "bad frame");
                    out.push(e);
                    proof {
                        let rep = StorageReply::Done(Ok(()));
                        lemma_step_rejected(m_before, before, code, rep);
                        assert(frames_view(out@) =~= out_before + seq![e@]);
                        lemma_turns_push(
                            m0,
                            b0,
                            replies,
                            out_before,
                            m_before,
                            before,
                            rep,
                            self@,
                            self.pending(),
                            seq![e@],
                        );
                        replies = replies.push(rep);
                    }
                },
                Some(Ok(frame)) => {
                    let ghost fv = frame_view(frame);
                    let mut frames = self.handle_frame(&frame, storage);
                    let ghost got = frames_view(frames@);
                    out.append(&mut frames);
                    proof {
                        let (m, step) = plan(m_before, fv.0, fv.1, fv.2, fv.3);
                        let rep = match step {
                            StepModel::Reply(_) => StorageReply::Done(Ok(())),
                            StepModel::Storage(op) => choose|reply: StorageReply|
                                reply_matches(op, reply) && (self@, got) == #[trigger] complete(
                                    m,
                                    frame.cmd,
                                    frame.req_id,
                                    op,
                                    reply,
                                ),
                        };
                        lemma_step_request(m_before, before, fv, rep, self@, got);
                        assert(frames_view(out@) =~= out_before + got);
                        lemma_turns_push(
                            m0,
                            b0,
                            replies,
                            out_before,
                            m_before,
                            before,
                            rep,
                            self@,
                            self.pending(),
                            got,
                        );
                        replies = replies.push(rep);
                    }
                },
            }
            assert(self.pending().len() < before.len());
        }
        out
    }
}

} // verus!
