//! The USB serial file protocol: framing, CRC32, payload codecs and the
//! mode state machine that decides how each request is answered.

use vstd::prelude::*;
use vstd::bytes::*;
use vstd::slice::*;
use vstd::utf8::*;
use crate::image_viewer::ImageError;
use crate::text::utf8_string;

verus! {

/// Frame magic, "TR" little-endian.
pub const MAGIC: u16 = 0x5452;
/// Protocol version carried in every frame.
pub const VERSION: u8 = 0x01;

pub const FLAG_RESP: u8 = 1;
pub const FLAG_ERR: u8 = 2;
pub const FLAG_EOF: u8 = 4;
pub const FLAG_CONT: u8 = 8;

/// Bytes of a frame that are not payload: 11 header bytes and a 4-byte CRC.
pub const FRAME_OVERHEAD: usize = 15;

/// Error codes carried in error responses.
#[derive(Clone, Copy, Debug, PartialEq, Eq, Structural)]
pub enum ErrorCode {
    InvalidCommand,
    BadPath,
    Io,
    NotFound,
    NotPermitted,
    CrcMismatch,
    InvalidArgs,
    Busy,
}

impl ErrorCode {
    pub open spec fn spec_code(self) -> u16 {
        match self {
            ErrorCode::InvalidCommand => 1,
            ErrorCode::BadPath => 2,
            ErrorCode::Io => 3,
            ErrorCode::NotFound => 4,
            ErrorCode::NotPermitted => 5,
            ErrorCode::CrcMismatch => 6,
            ErrorCode::InvalidArgs => 7,
            ErrorCode::Busy => 8,
        }
    }

    /// The numeric code sent on the wire.
    pub fn code(&self) -> (r: u16)
        ensures
            r == self.spec_code(),
    {
        match self {
            ErrorCode::InvalidCommand => 1,
            ErrorCode::BadPath => 2,
            ErrorCode::Io => 3,
            ErrorCode::NotFound => 4,
            ErrorCode::NotPermitted => 5,
            ErrorCode::CrcMismatch => 6,
            ErrorCode::InvalidArgs => 7,
            ErrorCode::Busy => 8,
        }
    }
}

/// One decoded protocol frame.
#[derive(Clone, Debug)]
pub struct Frame {
    pub flags: u8,
    pub cmd: u8,
    pub req_id: u16,
    pub payload: Vec<u8>,
}

/// The mathematical content of a frame: flags, command, request id, payload.
pub open spec fn frame_view(f: Frame) -> (u8, u8, u16, Seq<u8>) {
    (f.flags, f.cmd, f.req_id, f.payload@)
}

pub open spec fn outcome_view(r: Option<Result<Frame, ErrorCode>>) -> Option<
    Result<(u8, u8, u16, Seq<u8>), ErrorCode>,
> {
    match r {
        None => None,
        Some(Ok(f)) => Some(Ok(frame_view(f))),
        Some(Err(e)) => Some(Err(e)),
    }
}

// ---------------------------------------------------------------------------
// CRC32 (IEEE, reflected polynomial 0xEDB88320)
// ---------------------------------------------------------------------------

/// One shift step of the bitwise CRC32 algorithm.
pub open spec fn crc_round(c: u32) -> u32 {
    if c & 1 == 1 {
        (c >> 1u32) ^ 0xEDB8_8320u32
    } else {
        c >> 1u32
    }
}

/// `k` shift steps.
pub open spec fn crc_rounds(c: u32, k: nat) -> u32
    decreases k,
{
    if k == 0 {
        c
    } else {
        crc_round(crc_rounds(c, (k - 1) as nat))
    }
}

/// The register after absorbing one byte.
pub open spec fn crc_byte(c: u32, b: u8) -> u32 {
    crc_rounds(c ^ (b as u32), 8)
}

/// The register after absorbing all of `data`, starting from all ones.
pub open spec fn crc_fold(data: Seq<u8>) -> u32
    decreases data.len(),
{
    if data.len() == 0 {
        0xFFFF_FFFFu32
    } else {
        crc_byte(crc_fold(data.drop_last()), data.last())
    }
}

/// The standard CRC32 of `data`: the final register, inverted.
pub open spec fn crc32_spec(data: Seq<u8>) -> u32 {
    !crc_fold(data)
}

proof fn lemma_round_linear(a: u32, b: u32)
    ensures
        crc_round(a ^ b) == crc_round(a) ^ crc_round(b),
{
    assert((if (a ^ b) & 1 == 1 { ((a ^ b) >> 1u32) ^ 0xEDB8_8320u32 } else { (a ^ b) >> 1u32 }) == (if a & 1
        == 1 { (a >> 1u32) ^ 0xEDB8_8320u32 } else { a >> 1u32 }) ^ (if b & 1 == 1 {
        (b >> 1u32) ^ 0xEDB8_8320u32
    } else {
        b >> 1u32
    })) by (bit_vector);
}

proof fn lemma_round_nonzero(d: u32)
    requires
        d != 0,
    ensures
        crc_round(d) != 0,
{
    assert(d != 0 ==> (if d & 1 == 1 { (d >> 1u32) ^ 0xEDB8_8320u32 } else { d >> 1u32 }) != 0) by (bit_vector);
}

proof fn lemma_rounds_linear(a: u32, b: u32, k: nat)
    ensures
        crc_rounds(a ^ b, k) == crc_rounds(a, k) ^ crc_rounds(b, k),
    decreases k,
{
    if k > 0 {
        lemma_rounds_linear(a, b, (k - 1) as nat);
        lemma_round_linear(crc_rounds(a, (k - 1) as nat), crc_rounds(b, (k - 1) as nat));
    }
}

proof fn lemma_rounds_nonzero(d: u32, k: nat)
    requires
        d != 0,
    ensures
        crc_rounds(d, k) != 0,
    decreases k,
{
    if k > 0 {
        lemma_rounds_nonzero(d, (k - 1) as nat);
        lemma_round_nonzero(crc_rounds(d, (k - 1) as nat));
    }
}

/// Absorbing a byte into two registers that differ, or two different
/// bytes into the same register, gives registers that differ.
proof fn lemma_byte_differs(c1: u32, c2: u32, b1: u8, b2: u8)
    requires
        c1 != c2 || b1 != b2,
        c1 == c2 || b1 == b2,
    ensures
        crc_byte(c1, b1) != crc_byte(c2, b2),
{
    let x = c1 ^ (b1 as u32);
    let y = c2 ^ (b2 as u32);
    assert((c1 != c2 || b1 != b2) && (c1 == c2 || b1 == b2) ==> (c1 ^ (b1 as u32)) ^ (c2 ^ (b2 as u32)) != 0)
        by (bit_vector);
    lemma_rounds_linear(x, y, 8);
    lemma_rounds_nonzero(x ^ y, 8);
    let p = crc_rounds(x, 8);
    let q = crc_rounds(y, 8);
    assert(p ^ q != 0 ==> p != q) by (bit_vector);
}

/// The CRC register tells apart two messages of one length that differ in
/// exactly one byte.
proof fn lemma_fold_differs(d1: Seq<u8>, d2: Seq<u8>, j: int)
    requires
        d1.len() == d2.len(),
        0 <= j < d1.len(),
        d1[j] != d2[j],
        forall|i: int| 0 <= i < d1.len() && i != j ==> d1[i] == d2[i],
    ensures
        crc_fold(d1) != crc_fold(d2),
    decreases d1.len(),
{
    let n = d1.len() as int;
    if j == n - 1 {
        assert(d1.drop_last() =~= d2.drop_last());
        lemma_byte_differs(crc_fold(d1.drop_last()), crc_fold(d2.drop_last()), d1.last(), d2.last());
    } else {
        lemma_fold_differs(d1.drop_last(), d2.drop_last(), j);
        assert(d1.last() == d2.last());
        lemma_byte_differs(crc_fold(d1.drop_last()), crc_fold(d2.drop_last()), d1.last(), d2.last());
    }
}

/// CRC32 detects any damage confined to one byte, a flipped bit among
/// them: the CRC of the damaged message differs.
pub proof fn lemma_crc_detects_byte_damage(data: Seq<u8>, j: int, mask: u8)
    requires
        0 <= j < data.len(),
        mask != 0,
    ensures
        crc32_spec(data.update(j, data[j] ^ mask)) != crc32_spec(data),
{
    let bad = data.update(j, data[j] ^ mask);
    let byte: u8 = data[j];
    assert(byte ^ mask != byte) by (bit_vector)
        requires
            mask != 0,
    ;
    lemma_fold_differs(bad, data, j);
    let a = crc_fold(bad);
    let b = crc_fold(data);
    assert(a != b ==> !a != !b) by (bit_vector);
}

/// CRC32 (IEEE) of a byte slice.
pub fn crc32(data: &[u8]) -> (r: u32)
    ensures
        r == crc32_spec(data@),
{
    let mut crc: u32 = 0xFFFF_FFFF;
    let mut i: usize = 0;
    while i < data.len()
        invariant
            i <= data@.len(),
            crc == crc_fold(data@.take(i as int)),
        decreases data@.len() - i,
    {
        let byte = data[i];
        let ghost start = crc ^ (byte as u32);
        crc = crc ^ (byte as u32);
        let mut k: usize = 0;
        while k < 8
            invariant
                k <= 8,
                crc == crc_rounds(start, k as nat),
            decreases 8 - k,
        {
            if crc & 1 == 1 {
                crc = (crc >> 1) ^ 0xEDB8_8320;
            } else {
                crc = crc >> 1;
            }
            k = k + 1;
        }
        assert(data@.take(i + 1).drop_last() =~= data@.take(i as int));
        i = i + 1;
    }
    assert(data@.take(data@.len() as int) =~= data@);
    !crc
}

// ---------------------------------------------------------------------------
// Wire format
// ---------------------------------------------------------------------------

/// The 11 header bytes of a frame.
pub open spec fn wire_header(flags: u8, cmd: u8, req_id: u16, len: u32) -> Seq<u8> {
    spec_u16_to_le_bytes(MAGIC) + seq![VERSION, flags, cmd] + spec_u16_to_le_bytes(req_id)
        + spec_u32_to_le_bytes(len)
}

/// The complete encoding of a frame: header, payload, CRC32 of both.
pub open spec fn frame_wire(flags: u8, cmd: u8, req_id: u16, payload: Seq<u8>) -> Seq<u8> {
    let body = wire_header(flags, cmd, req_id, payload.len() as u32) + payload;
    body + spec_u32_to_le_bytes(crc32_spec(body))
}

/// Payload length announced by a buffer that holds at least a header.
pub open spec fn announced_len(buf: Seq<u8>) -> int {
    spec_u32_from_le_bytes(buf.subrange(7, 11)) as int
}

pub open spec fn header_valid(buf: Seq<u8>) -> bool {
    spec_u16_from_le_bytes(buf.subrange(0, 2)) == MAGIC && buf[2] == VERSION
}

pub open spec fn crc_valid(buf: Seq<u8>) -> bool {
    let len = announced_len(buf);
    spec_u32_from_le_bytes(buf.subrange(11 + len, 15 + len)) == crc32_spec(
        buf.subrange(0, 11 + len),
    )
}

/// What the receiver makes of the front of its buffer: nothing yet, a
/// rejected frame, or a frame.
pub open spec fn decode_frame(buf: Seq<u8>) -> Option<Result<(u8, u8, u16, Seq<u8>), ErrorCode>> {
    if buf.len() < 15 {
        None
    } else if !header_valid(buf) {
        Some(Err(ErrorCode::InvalidArgs))
    } else if buf.len() < 15 + announced_len(buf) {
        None
    } else if !crc_valid(buf) {
        Some(Err(ErrorCode::CrcMismatch))
    } else {
        let len = announced_len(buf);
        Some(
            Ok(
                (
                    buf[3],
                    buf[4],
                    spec_u16_from_le_bytes(buf.subrange(5, 7)),
                    buf.subrange(11, 11 + len),
                ),
            ),
        )
    }
}

/// What stays in the receive buffer after `decode_frame`.
pub open spec fn decode_rest(buf: Seq<u8>) -> Seq<u8> {
    if buf.len() < 15 {
        buf
    } else if !header_valid(buf) {
        buf.drop_first()
    } else if buf.len() < 15 + announced_len(buf) {
        buf
    } else {
        buf.skip(15 + announced_len(buf))
    }
}

/// Appends the little-endian encoding of a `u16`.
pub fn write_u16(buf: &mut Vec<u8>, value: u16)
    ensures
        final(buf)@ == old(buf)@ + spec_u16_to_le_bytes(value),
{
    let bytes = u16_to_le_bytes(value);
    buf.extend_from_slice(bytes.as_slice());
}

/// Appends the little-endian encoding of a `u32`.
pub fn write_u32(buf: &mut Vec<u8>, value: u32)
    ensures
        final(buf)@ == old(buf)@ + spec_u32_to_le_bytes(value),
{
    let bytes = u32_to_le_bytes(value);
    buf.extend_from_slice(bytes.as_slice());
}

/// Appends the little-endian encoding of a `u64`.
pub fn write_u64(buf: &mut Vec<u8>, value: u64)
    ensures
        final(buf)@ == old(buf)@ + spec_u64_to_le_bytes(value),
{
    let bytes = u64_to_le_bytes(value);
    buf.extend_from_slice(bytes.as_slice());
}

/// Encodes one frame (the length field holds the payload length truncated
/// to 32 bits).
pub fn encode_frame(flags: u8, cmd: u8, req_id: u16, payload: &[u8]) -> (r: Vec<u8>)
    ensures
        r@ == frame_wire(flags, cmd, req_id, payload@),
{
    let mut out: Vec<u8> = Vec::new();
    write_u16(&mut out, MAGIC);
    out.push(VERSION);
    out.push(flags);
    out.push(cmd);
    write_u16(&mut out, req_id);
    write_u32(&mut out, payload.len() as u32);
    out.extend_from_slice(payload);
    assert(out@ =~= wire_header(flags, cmd, req_id, payload@.len() as u32) + payload@);
    let crc = crc32(out.as_slice());
    write_u32(&mut out, crc);
    out
}


// ---------------------------------------------------------------------------
// Payload codecs
// ---------------------------------------------------------------------------

/// A little-endian `u16` at `c`, and the position after it.
pub open spec fn spec_read_u16(data: Seq<u8>, c: int) -> Option<(u16, int)> {
    if 0 <= c && c + 2 <= data.len() {
        Some((spec_u16_from_le_bytes(data.subrange(c, c + 2)), c + 2))
    } else {
        None
    }
}

/// A little-endian `u32` at `c`, and the position after it.
pub open spec fn spec_read_u32(data: Seq<u8>, c: int) -> Option<(u32, int)> {
    if 0 <= c && c + 4 <= data.len() {
        Some((spec_u32_from_le_bytes(data.subrange(c, c + 4)), c + 4))
    } else {
        None
    }
}

/// A little-endian `u64` at `c`, and the position after it.
pub open spec fn spec_read_u64(data: Seq<u8>, c: int) -> Option<(u64, int)> {
    if 0 <= c && c + 8 <= data.len() {
        Some((spec_u64_from_le_bytes(data.subrange(c, c + 8)), c + 8))
    } else {
        None
    }
}

/// A path at `c`: a `u16` byte length and that many bytes of UTF-8.
pub open spec fn spec_read_path(data: Seq<u8>, c: int) -> Option<(Seq<char>, int)> {
    match spec_read_u16(data, c) {
        Some((n, c2)) => {
            if c2 + n <= data.len() && valid_utf8(data.subrange(c2, c2 + n)) {
                Some((decode_utf8(data.subrange(c2, c2 + n)), c2 + n))
            } else {
                None
            }
        },
        None => None,
    }
}

/// Reads a little-endian `u16` at the cursor and advances it; `None`
/// (cursor unchanged) when fewer than two bytes are left.
pub fn read_u16(data: &[u8], cursor: &mut usize) -> (r: Option<u16>)
    ensures
        match spec_read_u16(data@, *old(cursor) as int) {
            Some((v, c)) => r == Some(v) && *final(cursor) == c,
            None => r is None && *final(cursor) == *old(cursor),
        },
{
    if *cursor > data.len() || data.len() - *cursor < 2 {
        return None;
    }
    let v = u16_from_le_bytes(slice_subrange(data, *cursor, *cursor + 2));
    *cursor = *cursor + 2;
    Some(v)
}

/// Reads a little-endian `u32` at the cursor and advances it.
pub fn read_u32(data: &[u8], cursor: &mut usize) -> (r: Option<u32>)
    ensures
        match spec_read_u32(data@, *old(cursor) as int) {
            Some((v, c)) => r == Some(v) && *final(cursor) == c,
            None => r is None && *final(cursor) == *old(cursor),
        },
{
    if *cursor > data.len() || data.len() - *cursor < 4 {
        return None;
    }
    let v = u32_from_le_bytes(slice_subrange(data, *cursor, *cursor + 4));
    *cursor = *cursor + 4;
    Some(v)
}

/// Reads a little-endian `u64` at the cursor and advances it.
pub fn read_u64(data: &[u8], cursor: &mut usize) -> (r: Option<u64>)
    ensures
        match spec_read_u64(data@, *old(cursor) as int) {
            Some((v, c)) => r == Some(v) && *final(cursor) == c,
            None => r is None && *final(cursor) == *old(cursor),
        },
{
    if *cursor > data.len() || data.len() - *cursor < 8 {
        return None;
    }
    let v = u64_from_le_bytes(slice_subrange(data, *cursor, *cursor + 8));
    *cursor = *cursor + 8;
    Some(v)
}

/// Reads a length-prefixed UTF-8 path at the cursor and advances past it;
/// `None` (cursor possibly past the length field) when it does not fit or
/// is not UTF-8.
pub fn read_path(data: &[u8], cursor: &mut usize) -> (r: Option<String>)
    ensures
        match spec_read_path(data@, *old(cursor) as int) {
            Some((p, c)) => r matches Some(s) && s@ == p && *final(cursor) == c,
            None => r is None,
        },
{
    let len = match read_u16(data, cursor) {
        Some(n) => n as usize,
        None => return None,
    };
    if *cursor > data.len() || data.len() - *cursor < len {
        return None;
    }
    let bytes = slice_subrange(data, *cursor, *cursor + len);
    match utf8_string(bytes) {
        Some(s) => {
            proof {
                encode_utf8_decode_utf8(s@);
            }
            *cursor = *cursor + len;
            Some(s)
        },
        None => None,
    }
}

/// Whether two byte strings are equal.
pub fn bytes_eq(a: &[u8], b: &[u8]) -> (r: bool)
    ensures
        r == (a@ == b@),
{
    if a.len() != b.len() {
        return false;
    }
    let mut i: usize = 0;
    while i < a.len()
        invariant
            a@.len() == b@.len(),
            i <= a@.len(),
            a@.take(i as int) == b@.take(i as int),
        decreases a@.len() - i,
    {
        if a[i] != b[i] {
            assert(a@[i as int] != b@[i as int]);
            return false;
        }
        assert(a@.take(i + 1) =~= a@.take(i as int).push(a@[i as int]));
        assert(b@.take(i + 1) =~= b@.take(i as int).push(b@[i as int]));
        i = i + 1;
    }
    assert(a@.take(a@.len() as int) =~= a@);
    assert(b@.take(b@.len() as int) =~= b@);
    true
}

/// The UTF-8 bytes of a string.
pub fn str_bytes(s: &str) -> (r: &[u8])
    ensures
        r@ == encode_utf8(s@),
{
    s.as_bytes()
}

/// One listing entry: name, whether it is a folder, size in bytes.
pub struct UsbDirEntry {
    pub name: String,
    pub is_dir: bool,
    pub size: u64,
}

/// The encoding of one listing entry.
pub open spec fn entry_bytes(e: UsbDirEntry) -> Seq<u8> {
    let name = encode_utf8(e.name@);
    seq![if e.is_dir { 1u8 } else { 0u8 }] + spec_u16_to_le_bytes(name.len() as u16) + name
        + spec_u64_to_le_bytes(e.size)
}

/// The encodings of the first `n` entries, in order.
pub open spec fn entries_bytes(entries: Seq<UsbDirEntry>, n: int) -> Seq<u8>
    decreases n,
{
    if n <= 0 {
        seq![]
    } else {
        entries_bytes(entries, n - 1) + entry_bytes(entries[n - 1])
    }
}

/// A listing payload: a `u16` count, then each entry.
pub open spec fn list_payload(entries: Seq<UsbDirEntry>) -> Seq<u8> {
    spec_u16_to_le_bytes(entries.len() as u16) + entries_bytes(entries, entries.len() as int)
}

/// Encodes a directory listing.
pub fn serialize_list(entries: &[UsbDirEntry]) -> (r: Vec<u8>)
    ensures
        r@ == list_payload(entries@),
{
    let mut payload: Vec<u8> = Vec::new();
    write_u16(&mut payload, entries.len() as u16);
    let mut i: usize = 0;
    while i < entries.len()
        invariant
            i <= entries@.len(),
            payload@ == spec_u16_to_le_bytes(entries@.len() as u16) + entries_bytes(
                entries@,
                i as int,
            ),
        decreases entries@.len() - i,
    {
        let entry = &entries[i];
        let ghost before = payload@;
        payload.push(if entry.is_dir { 1u8 } else { 0u8 });
        let name = str_bytes(entry.name.as_str());
        write_u16(&mut payload, name.len() as u16);
        payload.extend_from_slice(name);
        write_u64(&mut payload, entry.size);
        assert(payload@ =~= before + entry_bytes(entries@[i as int]));
        i = i + 1;
    }
    payload
}

/// The payload of an error response: code, message length, message.
pub open spec fn error_payload(code: ErrorCode, message: Seq<char>) -> Seq<u8> {
    let m = encode_utf8(message);
    spec_u16_to_le_bytes(code.spec_code()) + spec_u16_to_le_bytes(m.len() as u16) + m
}

/// An error response frame.
pub open spec fn error_frame(req_id: u16, cmd: u8, code: ErrorCode, message: Seq<char>) -> Seq<u8> {
    frame_wire(FLAG_RESP | FLAG_ERR, cmd, req_id, error_payload(code, message))
}

/// A successful response frame.
pub open spec fn ok_frame(req_id: u16, cmd: u8, payload: Seq<u8>) -> Seq<u8> {
    frame_wire(FLAG_RESP, cmd, req_id, payload)
}

/// The message an error carries, or the fallback for the other kinds.
pub open spec fn error_text(err: ImageError, fallback: Seq<char>) -> Seq<char> {
    match err {
        ImageError::Message(m) => m@,
        _ => fallback,
    }
}

/// Encodes an error response.
pub fn encode_error(req_id: u16, cmd: u8, code: ErrorCode, message: &str) -> (r: Vec<u8>)
    ensures
        r@ == error_frame(req_id, cmd, code, message@),
{
    let mut payload: Vec<u8> = Vec::new();
    write_u16(&mut payload, code.code());
    let m = str_bytes(message);
    write_u16(&mut payload, m.len() as u16);
    payload.extend_from_slice(m);
    assert(payload@ =~= error_payload(code, message@));
    encode_frame(FLAG_RESP | FLAG_ERR, cmd, req_id, payload.as_slice())
}

/// Encodes an error response carrying the error's own message, or the
/// fallback for errors without one.
pub fn encode_error_for(req_id: u16, cmd: u8, code: ErrorCode, err: ImageError, fallback: &str) -> (r:
    Vec<u8>)
    ensures
        r@ == error_frame(req_id, cmd, code, error_text(err, fallback@)),
{
    match err {
        ImageError::Message(msg) => encode_error(req_id, cmd, code, msg.as_str()),
        _ => encode_error(req_id, cmd, code, fallback),
    }
}

/// Encodes a successful response.
pub fn encode_ok(req_id: u16, cmd: u8, payload: &[u8]) -> (r: Vec<u8>)
    ensures
        r@ == ok_frame(req_id, cmd, payload@),
{
    encode_frame(FLAG_RESP, cmd, req_id, payload)
}

/// The frames of a response split into chunks of at most `max` bytes,
/// starting at `offset`: continuation frames, the last one marked EOF.
pub open spec fn chunks_from(cmd: u8, req_id: u16, payload: Seq<u8>, max: int, offset: int) -> Seq<
    Seq<u8>,
>
    decreases payload.len() - offset,
{
    if max <= 0 || offset >= payload.len() || offset < 0 {
        seq![]
    } else {
        let end = if offset + max < payload.len() {
            offset + max
        } else {
            payload.len() as int
        };
        let flags = if end >= payload.len() {
            FLAG_RESP | FLAG_EOF
        } else {
            FLAG_RESP | FLAG_CONT
        };
        seq![frame_wire(flags, cmd, req_id, payload.subrange(offset, end))] + chunks_from(
            cmd,
            req_id,
            payload,
            max,
            end,
        )
    }
}

/// The frames that answer a request with `payload`: one plain response when
/// it fits in `max` bytes, else a run of chunks.
pub open spec fn chunk_frames(cmd: u8, req_id: u16, payload: Seq<u8>, max: int) -> Seq<Seq<u8>> {
    if payload.len() <= max {
        seq![ok_frame(req_id, cmd, payload)]
    } else {
        chunks_from(cmd, req_id, payload, max, 0)
    }
}

/// The bytes of each frame, in order.
pub open spec fn frames_view(frames: Seq<Vec<u8>>) -> Seq<Seq<u8>> {
    frames.map_values(|f: Vec<u8>| f@)
}

/// Splits a response payload into frames of at most `max_payload` bytes.
pub fn send_chunked(cmd: u8, req_id: u16, payload: &[u8], max_payload: usize) -> (r: Vec<Vec<u8>>)
    requires
        max_payload > 0,
    ensures
        frames_view(r@) == chunk_frames(cmd, req_id, payload@, max_payload as int),
{
    let mut out: Vec<Vec<u8>> = Vec::new();
    if payload.len() <= max_payload {
        out.push(encode_ok(req_id, cmd, payload));
        assert(frames_view(out@) =~= chunk_frames(cmd, req_id, payload@, max_payload as int));
        return out;
    }
    let mut offset: usize = 0;
    while offset < payload.len()
        invariant
            offset <= payload@.len(),
            max_payload > 0,
            payload@.len() > max_payload,
            frames_view(out@) + chunks_from(cmd, req_id, payload@, max_payload as int, offset as int)
                == chunks_from(cmd, req_id, payload@, max_payload as int, 0),
        decreases payload@.len() - offset,
    {
        let end = if payload.len() - offset > max_payload {
            offset + max_payload
        } else {
            payload.len()
        };
        let flags = if end >= payload.len() {
            FLAG_RESP | FLAG_EOF
        } else {
            FLAG_RESP | FLAG_CONT
        };
        let chunk = encode_frame(flags, cmd, req_id, slice_subrange(payload, offset, end));
        let ghost old_out = frames_view(out@);
        out.push(chunk);
        assert(frames_view(out@) =~= old_out.push(chunk@));
        assert(old_out.push(chunk@) + chunks_from(cmd, req_id, payload@, max_payload as int, end as int)
            =~= old_out + chunks_from(cmd, req_id, payload@, max_payload as int, offset as int));
        offset = end;
    }
    assert(frames_view(out@) + chunks_from(cmd, req_id, payload@, max_payload as int, offset as int)
        =~= frames_view(out@));
    out
}

/// Drops the first `n` bytes of a buffer.
fn drop_front(buf: &mut Vec<u8>, n: usize)
    requires
        n <= old(buf)@.len(),
    ensures
        final(buf)@ == old(buf)@.skip(n as int),
{
    let mut rest: Vec<u8> = Vec::new();
    let mut i = n;
    while i < buf.len()
        invariant
            n <= i <= buf@.len(),
            rest@ == buf@.subrange(n as int, i as int),
        decreases buf@.len() - i,
    {
        rest.push(buf[i]);
        i = i + 1;
    }
    assert(rest@ =~= buf@.skip(n as int));
    *buf = rest;
}

/// Reassembles frames from the bytes received so far.
pub struct UsbProtocol {
    rx_buf: Vec<u8>,
    max_payload: usize,
}

impl UsbProtocol {
    /// Bytes received and not yet consumed.
    pub closed spec fn pending(&self) -> Seq<u8> {
        self.rx_buf@
    }

    pub closed spec fn spec_max_payload(&self) -> usize {
        self.max_payload
    }

    pub fn new(max_payload: usize) -> (r: Self)
        ensures
            r.pending() == Seq::<u8>::empty(),
            r.spec_max_payload() == max_payload,
    {
        UsbProtocol { rx_buf: Vec::new(), max_payload }
    }

    pub fn max_payload(&self) -> (r: usize)
        ensures
            r == self.spec_max_payload(),
    {
        self.max_payload
    }

    /// Appends received bytes.
    pub fn push_bytes(&mut self, bytes: &[u8])
        ensures
            final(self).pending() == old(self).pending() + bytes@,
            final(self).spec_max_payload() == old(self).spec_max_payload(),
    {
        self.rx_buf.extend_from_slice(bytes);
    }

    /// Takes the next frame, or the error for a rejected one, off the front
    /// of the buffer; `None` while a frame is still incomplete.
    pub fn next_frame(&mut self) -> (r: Option<Result<Frame, ErrorCode>>)
        ensures
            outcome_view(r) == decode_frame(old(self).pending()),
            final(self).pending() == decode_rest(old(self).pending()),
            final(self).spec_max_payload() == old(self).spec_max_payload(),
    {
        let ghost buf = self.rx_buf@;
        if self.rx_buf.len() < FRAME_OVERHEAD {
            return None;
        }
        let magic = u16_from_le_bytes(slice_subrange(self.rx_buf.as_slice(), 0, 2));
        if magic != MAGIC {
            self.rx_buf.remove(0);
            assert(self.rx_buf@ =~= buf.drop_first());
            return Some(Err(ErrorCode::InvalidArgs));
        }
        let version = self.rx_buf[2];
        if version != VERSION {
            self.rx_buf.remove(0);
            assert(self.rx_buf@ =~= buf.drop_first());
            return Some(Err(ErrorCode::InvalidArgs));
        }
        let flags = self.rx_buf[3];
        let cmd = self.rx_buf[4];
        let req_id = u16_from_le_bytes(slice_subrange(self.rx_buf.as_slice(), 5, 7));
        let len32 = u32_from_le_bytes(slice_subrange(self.rx_buf.as_slice(), 7, 11));
        if (self.rx_buf.len() as u64) < 15 + (len32 as u64) {
            return None;
        }
        let len = len32 as usize;
        let payload_end = 11 + len;
        let total = payload_end + 4;
        let expected_crc = u32_from_le_bytes(
            slice_subrange(self.rx_buf.as_slice(), payload_end, total),
        );
        let actual_crc = crc32(slice_subrange(self.rx_buf.as_slice(), 0, payload_end));
        if expected_crc != actual_crc {
            drop_front(&mut self.rx_buf, total);
            return Some(Err(ErrorCode::CrcMismatch));
        }
        let payload = slice_to_vec(slice_subrange(self.rx_buf.as_slice(), 11, payload_end));
        drop_front(&mut self.rx_buf, total);
        Some(Ok(Frame { flags, cmd, req_id, payload }))
    }
}

/// A frame that was encoded and then received, followed by any further bytes,
/// is decoded back to the same flags, command, request id and payload, and
/// exactly the further bytes stay in the buffer.
pub proof fn lemma_frame_roundtrip(
    flags: u8,
    cmd: u8,
    req_id: u16,
    payload: Seq<u8>,
    rest: Seq<u8>,
)
    requires
        payload.len() <= u32::MAX,
    ensures
        decode_frame(frame_wire(flags, cmd, req_id, payload) + rest) == Some(
            Ok::<(u8, u8, u16, Seq<u8>), ErrorCode>((flags, cmd, req_id, payload)),
        ),
        decode_rest(frame_wire(flags, cmd, req_id, payload) + rest) == rest,
{
    lemma_auto_spec_u16_to_from_le_bytes();
    lemma_auto_spec_u32_to_from_le_bytes();
    let len = payload.len() as u32;
    let hdr = wire_header(flags, cmd, req_id, len);
    let body = hdr + payload;
    let crc = spec_u32_to_le_bytes(crc32_spec(body));
    let buf = body + crc + rest;
    assert(frame_wire(flags, cmd, req_id, payload) + rest =~= buf);
    assert(hdr.len() == 11);
    assert(buf.subrange(0, 2) =~= spec_u16_to_le_bytes(MAGIC));
    assert(buf.subrange(5, 7) =~= spec_u16_to_le_bytes(req_id));
    assert(buf.subrange(7, 11) =~= spec_u32_to_le_bytes(len));
    assert(len as int == payload.len());
    assert(announced_len(buf) == payload.len());
    let n = payload.len() as int;
    assert(buf.subrange(0, 11 + n) =~= body);
    assert(buf.subrange(11 + n, 15 + n) =~= crc);
    assert(buf.subrange(11, 11 + n) =~= payload);
    assert(buf.skip(15 + n) =~= rest);
}


/// A frame whose CRC bytes were damaged in transit (any byte of the four
/// changed) is rejected as a CRC mismatch, and exactly its own bytes are
/// dropped, so the frames after it are still read.
pub proof fn lemma_damaged_crc_detected(
    flags: u8,
    cmd: u8,
    req_id: u16,
    payload: Seq<u8>,
    rest: Seq<u8>,
    k: int,
    mask: u8,
)
    requires
        payload.len() <= u32::MAX,
        0 <= k < 4,
        mask != 0,
    ensures
        ({
            let w = frame_wire(flags, cmd, req_id, payload);
            let at = 11 + payload.len() + k;
            let bad = w.update(at, w[at] ^ mask) + rest;
            &&& decode_frame(bad) == Some(Err::<(u8, u8, u16, Seq<u8>), ErrorCode>(ErrorCode::CrcMismatch))
            &&& decode_rest(bad) == rest
        }),
{
    lemma_frame_roundtrip(flags, cmd, req_id, payload, rest);
    lemma_auto_spec_u32_to_from_le_bytes();
    let w = frame_wire(flags, cmd, req_id, payload);
    let n: int = 11 + payload.len() as int;
    let at = n + k;
    let good = w + rest;
    let bad = w.update(at, w[at] ^ mask) + rest;
    let body = wire_header(flags, cmd, req_id, payload.len() as u32) + payload;
    let crc = crc32_spec(body);
    assert(w.len() == n + 4);
    let byte: u8 = w[at];
    assert(byte ^ mask != byte) by (bit_vector)
        requires
            mask != 0,
    ;
    assert(bad.subrange(0, 11) =~= good.subrange(0, 11));
    assert(bad.subrange(0, 2) =~= good.subrange(0, 2));
    assert(bad.subrange(7, 11) =~= good.subrange(7, 11));
    assert(bad[2] == good[2]);
    assert(bad.len() == good.len());
    assert(announced_len(bad) == announced_len(good));
    assert(announced_len(good) == payload.len());
    assert(bad.subrange(0, n) =~= body);
    let stored = bad.subrange(n, n + 4);
    assert(good.subrange(n, n + 4) =~= spec_u32_to_le_bytes(crc));
    assert(stored[k] != spec_u32_to_le_bytes(crc)[k]);
    assert(stored != spec_u32_to_le_bytes(crc));
    if spec_u32_from_le_bytes(stored) == crc {
        assert(spec_u32_to_le_bytes(spec_u32_from_le_bytes(stored)) == stored);
    }
    assert(!crc_valid(bad));
    assert(bad.skip(n + 4) =~= rest);
}

/// A frame whose payload was damaged in transit (any one byte changed, a
/// flipped bit among them) is rejected as a CRC mismatch, and exactly its
/// own bytes are dropped.
pub proof fn lemma_damaged_payload_detected(
    flags: u8,
    cmd: u8,
    req_id: u16,
    payload: Seq<u8>,
    rest: Seq<u8>,
    j: int,
    mask: u8,
)
    requires
        payload.len() <= u32::MAX,
        0 <= j < payload.len(),
        mask != 0,
    ensures
        ({
            let w = frame_wire(flags, cmd, req_id, payload);
            let bad = w.update(11 + j, w[11 + j] ^ mask) + rest;
            &&& decode_frame(bad) == Some(Err::<(u8, u8, u16, Seq<u8>), ErrorCode>(ErrorCode::CrcMismatch))
            &&& decode_rest(bad) == rest
        }),
{
    lemma_frame_roundtrip(flags, cmd, req_id, payload, rest);
    lemma_auto_spec_u32_to_from_le_bytes();
    let w = frame_wire(flags, cmd, req_id, payload);
    let n: int = 11 + payload.len() as int;
    let at = 11 + j;
    let good = w + rest;
    let bad = w.update(at, w[at] ^ mask) + rest;
    let body = wire_header(flags, cmd, req_id, payload.len() as u32) + payload;
    let crc = crc32_spec(body);
    assert(w.len() == n + 4);
    assert(bad.subrange(0, 2) =~= good.subrange(0, 2));
    assert(bad.subrange(7, 11) =~= good.subrange(7, 11));
    assert(bad[2] == good[2]);
    assert(bad.len() == good.len());
    assert(announced_len(bad) == announced_len(good));
    assert(announced_len(good) == payload.len());
    assert(good.subrange(0, n) =~= body);
    assert(bad.subrange(0, n) =~= body.update(at, body[at] ^ mask));
    lemma_crc_detects_byte_damage(body, at, mask);
    assert(bad.subrange(n, n + 4) =~= good.subrange(n, n + 4));
    assert(good.subrange(n, n + 4) =~= spec_u32_to_le_bytes(crc));
    assert(!crc_valid(bad));
    assert(bad.skip(n + 4) =~= rest);
}

/// A frame with one byte damaged anywhere after its header (in the payload
/// or the CRC) is rejected as a CRC mismatch and dropped whole, so the
/// frame after it is read as sent.
pub proof fn lemma_damaged_frame_skipped(
    flags: u8,
    cmd: u8,
    req_id: u16,
    payload: Seq<u8>,
    at: int,
    mask: u8,
    next_flags: u8,
    next_cmd: u8,
    next_req_id: u16,
    next_payload: Seq<u8>,
)
    requires
        payload.len() <= u32::MAX,
        next_payload.len() <= u32::MAX,
        11 <= at < frame_wire(flags, cmd, req_id, payload).len(),
        mask != 0,
    ensures
        ({
            let w = frame_wire(flags, cmd, req_id, payload);
            let bad = w.update(at, w[at] ^ mask) + frame_wire(next_flags, next_cmd, next_req_id, next_payload);
            &&& decode_frame(bad) == Some(Err::<(u8, u8, u16, Seq<u8>), ErrorCode>(ErrorCode::CrcMismatch))
            &&& decode_frame(decode_rest(bad)) == Some(
                Ok::<(u8, u8, u16, Seq<u8>), ErrorCode>((next_flags, next_cmd, next_req_id, next_payload)),
            )
        }),
{
    let next = frame_wire(next_flags, next_cmd, next_req_id, next_payload);
    lemma_auto_spec_u16_to_from_le_bytes();
    lemma_auto_spec_u32_to_from_le_bytes();
    assert(wire_header(flags, cmd, req_id, payload.len() as u32).len() == 11);
    assert(frame_wire(flags, cmd, req_id, payload).len() == 15 + payload.len());
    if at < 11 + payload.len() {
        lemma_damaged_payload_detected(flags, cmd, req_id, payload, next, at - 11, mask);
    } else {
        lemma_damaged_crc_detected(flags, cmd, req_id, payload, next, at - 11 - payload.len(), mask);
    }
    lemma_frame_roundtrip(next_flags, next_cmd, next_req_id, next_payload, seq![]);
    assert(next + seq![] =~= next);
}

/// The payloads that a receiver decodes from a run of frames, joined.
pub open spec fn received_payload(frames: Seq<Seq<u8>>) -> Seq<u8>
    decreases frames.len(),
{
    if frames.len() == 0 {
        seq![]
    } else {
        let rest = received_payload(frames.drop_first());
        match decode_frame(frames[0]) {
            Some(Ok((_, _, _, p))) => p + rest,
            _ => rest,
        }
    }
}

proof fn lemma_chunks_from_reassemble(cmd: u8, req_id: u16, payload: Seq<u8>, max: int, offset: int)
    requires
        max > 0,
        0 <= offset <= payload.len(),
        payload.len() <= u32::MAX,
    ensures
        received_payload(chunks_from(cmd, req_id, payload, max, offset)) == payload.skip(offset),
    decreases payload.len() - offset,
{
    if offset >= payload.len() {
        assert(payload.skip(offset) =~= seq![]);
    } else {
        let end = if offset + max < payload.len() {
            offset + max
        } else {
            payload.len() as int
        };
        let flags = if end >= payload.len() {
            FLAG_RESP | FLAG_EOF
        } else {
            FLAG_RESP | FLAG_CONT
        };
        let chunk = payload.subrange(offset, end);
        let frames = chunks_from(cmd, req_id, payload, max, offset);
        lemma_chunks_from_reassemble(cmd, req_id, payload, max, end);
        lemma_frame_roundtrip(flags, cmd, req_id, chunk, seq![]);
        assert(frame_wire(flags, cmd, req_id, chunk) + seq![] =~= frame_wire(flags, cmd, req_id, chunk));
        assert(frames[0] == frame_wire(flags, cmd, req_id, chunk));
        assert(frames.drop_first() =~= chunks_from(cmd, req_id, payload, max, end));
        assert(chunk + payload.skip(end) =~= payload.skip(offset));
    }
}

/// However a response payload is split into frames, a receiver that decodes
/// each frame and joins the payloads gets the whole payload back.
pub proof fn lemma_chunked_response_reassembles(cmd: u8, req_id: u16, payload: Seq<u8>, max: int)
    requires
        max > 0,
        payload.len() <= u32::MAX,
    ensures
        received_payload(chunk_frames(cmd, req_id, payload, max)) == payload,
{
    if payload.len() <= max {
        lemma_frame_roundtrip(FLAG_RESP, cmd, req_id, payload, seq![]);
        assert(frame_wire(FLAG_RESP, cmd, req_id, payload) + seq![] =~= frame_wire(
            FLAG_RESP,
            cmd,
            req_id,
            payload,
        ));
        let frames = chunk_frames(cmd, req_id, payload, max);
        assert(frames.drop_first() =~= Seq::<Seq<u8>>::empty());
        assert(received_payload(frames.drop_first()) == Seq::<u8>::empty());
        assert(frames[0] == frame_wire(FLAG_RESP, cmd, req_id, payload));
        assert(payload + Seq::<u8>::empty() =~= payload);
    } else {
        lemma_chunks_from_reassemble(cmd, req_id, payload, max, 0);
        assert(payload.skip(0) =~= payload);
    }
}

} // verus!
