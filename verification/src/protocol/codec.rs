//! Framing of protocol messages on a byte stream.
//!
//! A frame is the four magic bytes `LOCA`, a version byte, a message-type byte,
//! the payload length as a big-endian `u32`, then the payload itself.
use vstd::prelude::*;
use bytes::BytesMut;
use crate::protocol::message::{MessageType, type_byte};

verus! {

#[verifier::external_type_specification]
#[verifier::external_body]
pub struct ExBytesMut(BytesMut);

/// The bytes that a `BytesMut` buffer holds.
pub uninterp spec fn buffer_bytes(b: BytesMut) -> Seq<u8>;

/// `BytesMut::len`: the number of bytes the buffer holds.
#[verifier::external_body]
fn buffer_len(b: &BytesMut) -> (n: usize)
    ensures
        n == buffer_bytes(*b).len(),
{
    b.len()
}

/// Indexing a `BytesMut` (through its `Deref` to `[u8]`): the byte at position `i`.
#[verifier::external_body]
fn buffer_byte(b: &BytesMut, i: usize) -> (x: u8)
    requires
        i < buffer_bytes(*b).len(),
    ensures
        x == buffer_bytes(*b)[i as int],
{
    b[i]
}

/// `BytesMut::reserve`: makes room for more bytes; the contents stay as they were.
#[verifier::external_body]
fn buffer_reserve(b: &mut BytesMut, additional: usize)
    requires
        buffer_bytes(*old(b)).len() + additional <= isize::MAX,
    ensures
        buffer_bytes(*final(b)) == buffer_bytes(*old(b)),
{
    b.reserve(additional)
}

/// `BytesMut::extend_from_slice`: appends `data` to the buffer.
#[verifier::external_body]
fn buffer_extend(b: &mut BytesMut, data: &[u8])
    requires
        buffer_bytes(*old(b)).len() + data@.len() <= isize::MAX,
    ensures
        buffer_bytes(*final(b)) == buffer_bytes(*old(b)) + data@,
{
    b.extend_from_slice(data)
}

/// `BytesMut::split_to`: removes the first `at` bytes from the buffer and hands them out.
#[verifier::external_body]
fn buffer_split_to(b: &mut BytesMut, at: usize) -> (front: Vec<u8>)
    requires
        at <= buffer_bytes(*old(b)).len(),
    ensures
        front@ == buffer_bytes(*old(b)).take(at as int),
        buffer_bytes(*final(b)) == buffer_bytes(*old(b)).skip(at as int),
{
    b.split_to(at).to_vec()
}

/// Why a buffer cannot hold a frame.
#[derive(Debug, Clone, Copy, PartialEq, Eq)]
pub enum CodecError {
    /// The buffer does not start with `LOCA`.
    InvalidMagic,
    /// The version byte is not the one this protocol speaks.
    UnsupportedVersion,
}

/// A frame taken off a byte stream: its type byte and its payload.
#[derive(Debug, Clone, PartialEq, Eq)]
pub struct Frame {
    pub message_type: u8,
    pub payload: Vec<u8>,
}

/// Frames and unframes protocol messages.
#[derive(Debug, Clone, Copy)]
pub struct MessageCodec;

pub open spec fn frame_magic() -> Seq<u8> {
    seq![0x4Cu8, 0x4Fu8, 0x43u8, 0x41u8]
}

pub open spec fn frame_version() -> u8 {
    1
}

/// Length of a frame's header: magic, version, type and length.
pub open spec fn header_len() -> nat {
    10
}

/// The four big-endian bytes of `v`.
pub open spec fn be_bytes(v: u32) -> Seq<u8> {
    seq![
        (v / 0x100_0000) as u8,
        ((v / 0x1_0000) % 0x100) as u8,
        ((v / 0x100) % 0x100) as u8,
        (v % 0x100) as u8,
    ]
}

/// The number that four big-endian bytes denote.
pub open spec fn be_value(b: Seq<u8>) -> nat {
    (b[0] * 0x100_0000 + b[1] * 0x1_0000 + b[2] * 0x100 + b[3]) as nat
}

/// The bytes of the frame that carries `payload` under type byte `t`; the length field
/// holds the payload's length truncated to 32 bits.
pub open spec fn frame(t: u8, payload: Seq<u8>) -> Seq<u8> {
    frame_magic() + seq![frame_version(), t] + be_bytes(payload.len() as u32) + payload
}

/// The inputs on which decoding cannot read the length field: exactly nine bytes that
/// pass the magic and version checks.
pub open spec fn decode_unreadable(buf: Seq<u8>) -> bool {
    buf.len() == 9 && buf.take(4) == frame_magic() && buf[4] == frame_version()
}

/// What decoding `buf` gives: `Ok(None)` while a frame is incomplete, an error when the
/// header is wrong, or the type byte, the payload and the number of bytes the frame uses.
pub open spec fn frame_decode(buf: Seq<u8>) -> Result<Option<(u8, Seq<u8>, nat)>, CodecError> {
    if buf.len() < 9 {
        Ok(None)
    } else if buf.take(4) != frame_magic() {
        Err(CodecError::InvalidMagic)
    } else if buf[4] != frame_version() {
        Err(CodecError::UnsupportedVersion)
    } else {
        let n = be_value(buf.subrange(6, 10));
        if buf.len() < header_len() + n {
            Ok(None)
        } else {
            Ok(Some((buf[5], buf.subrange(10, 10 + n as int), header_len() + n)))
        }
    }
}

proof fn lemma_be_roundtrip(v: u32)
    ensures
        be_value(be_bytes(v)) == v,
{
    assert((v / 0x100_0000) * 0x100_0000 + ((v / 0x1_0000) % 0x100) * 0x1_0000 + ((v / 0x100)
        % 0x100) * 0x100 + v % 0x100 == v) by (bit_vector);
    assert(v / 0x100_0000 < 0x100) by (bit_vector);
    let b = be_bytes(v);
    assert(b[0] == v / 0x100_0000);
    assert(b[1] == (v / 0x1_0000) % 0x100);
    assert(b[2] == (v / 0x100) % 0x100);
    assert(b[3] == v % 0x100);
}

/// Number of bytes a buffer holds.
pub fn buffered_len(b: &BytesMut) -> (n: usize)
    ensures
        n == buffer_bytes(*b).len(),
{
    buffer_len(b)
}

/// A copy of the bytes a buffer holds.
pub fn buffered_bytes(b: &BytesMut) -> (v: Vec<u8>)
    ensures
        v@ == buffer_bytes(*b),
{
    let n = buffer_len(b);
    let mut v: Vec<u8> = Vec::new();
    let mut i: usize = 0;
    while i < n
        invariant
            n == buffer_bytes(*b).len(),
            i <= n,
            v@ == buffer_bytes(*b).take(i as int),
        decreases n - i,
    {
        v.push(buffer_byte(b, i));
        assert(buffer_bytes(*b).take(i + 1) =~= buffer_bytes(*b).take(i as int).push(buffer_bytes(*b)[i as int]));
        i = i + 1;
    }
    assert(buffer_bytes(*b).take(n as int) =~= buffer_bytes(*b));
    v
}

/// Whether the buffer is one that decoding cannot handle: nine bytes that pass the magic and
/// version checks, whose length field is cut short.
pub fn is_decode_unreadable(b: &BytesMut) -> (r: bool)
    ensures
        r == decode_unreadable(buffer_bytes(*b)),
{
    let ghost buf = buffer_bytes(*b);
    if buffer_len(b) != 9 {
        return false;
    }
    let m0 = buffer_byte(b, 0);
    let m1 = buffer_byte(b, 1);
    let m2 = buffer_byte(b, 2);
    let m3 = buffer_byte(b, 3);
    let v = buffer_byte(b, 4);
    let r = m0 == 0x4C && m1 == 0x4F && m2 == 0x43 && m3 == 0x41 && v == 1;
    proof {
        if buf.take(4) == frame_magic() {
            assert(buf.take(4)[0] == m0 && buf.take(4)[1] == m1);
            assert(buf.take(4)[2] == m2 && buf.take(4)[3] == m3);
        }
        if r {
            assert(buf.take(4) =~= frame_magic());
        }
    }
    r
}

impl MessageCodec {
    /// Appends the frame of `payload`, typed by `message_type`, to `dst`.
    pub fn encode_frame(&mut self, message_type: MessageType, payload: &[u8], dst: &mut BytesMut)
        requires
            buffer_bytes(*old(dst)).len() + payload@.len() + header_len() <= isize::MAX,
        ensures
            buffer_bytes(*final(dst)) == buffer_bytes(*old(dst)) + frame(type_byte(message_type), payload@),
    {
        let length = payload.len() as u32;
        buffer_reserve(dst, 9 + payload.len());
        let magic: [u8; 4] = [0x4C, 0x4F, 0x43, 0x41];
        buffer_extend(dst, magic.as_slice());
        let version: [u8; 1] = [1];
        buffer_extend(dst, version.as_slice());
        let kind: [u8; 1] = [message_type.type_byte()];
        buffer_extend(dst, kind.as_slice());
        let len_bytes: [u8; 4] = [
            (length / 0x100_0000) as u8,
            ((length / 0x1_0000) % 0x100) as u8,
            ((length / 0x100) % 0x100) as u8,
            (length % 0x100) as u8,
        ];
        buffer_extend(dst, len_bytes.as_slice());
        buffer_extend(dst, payload);
        assert(magic@ =~= frame_magic());
        assert(len_bytes@ =~= be_bytes(payload@.len() as u32));
        assert(buffer_bytes(*dst) =~= buffer_bytes(*old(dst)) + frame(type_byte(message_type), payload@));
    }

    /// Takes the next complete frame off the front of `src`.
    ///
    /// Returns `Ok(None)`, leaving `src` as it is, while fewer than nine bytes are buffered
    /// or the frame they begin is incomplete; an error, leaving `src` as it is, when the
    /// magic or the version byte is wrong.
    pub fn decode_frame(&mut self, src: &mut BytesMut) -> (r: Result<Option<Frame>, CodecError>)
        requires
            !decode_unreadable(buffer_bytes(*old(src))),
        ensures
            match (r, frame_decode(buffer_bytes(*old(src)))) {
                (Ok(Some(f)), Ok(Some((t, p, used)))) => {
                    &&& f.message_type == t
                    &&& f.payload@ == p
                    &&& buffer_bytes(*final(src)) == buffer_bytes(*old(src)).skip(used as int)
                },
                (Ok(None), Ok(None)) => buffer_bytes(*final(src)) == buffer_bytes(*old(src)),
                (Err(e), Err(e2)) => e == e2 && buffer_bytes(*final(src)) == buffer_bytes(*old(src)),
                _ => false,
            },
    {
        let ghost buf = buffer_bytes(*src);
        let len = buffer_len(src);
        if len < 9 {
            return Ok(None);
        }
        let m0 = buffer_byte(src, 0);
        let m1 = buffer_byte(src, 1);
        let m2 = buffer_byte(src, 2);
        let m3 = buffer_byte(src, 3);
        if !(m0 == 0x4C && m1 == 0x4F && m2 == 0x43 && m3 == 0x41) {
            proof {
                if buf.take(4) == frame_magic() {
                    assert(buf.take(4)[0] == m0 && buf.take(4)[1] == m1);
                    assert(buf.take(4)[2] == m2 && buf.take(4)[3] == m3);
                }
            }
            return Err(CodecError::InvalidMagic);
        }
        assert(buf.take(4) =~= frame_magic());
        if buffer_byte(src, 4) != 1 {
            return Err(CodecError::UnsupportedVersion);
        }
        let kind = buffer_byte(src, 5);
        let b6 = buffer_byte(src, 6);
        let b7 = buffer_byte(src, 7);
        let b8 = buffer_byte(src, 8);
        let b9 = buffer_byte(src, 9);
        let length: u64 = (b6 as u64) * 0x100_0000 + (b7 as u64) * 0x1_0000 + (b8 as u64) * 0x100
            + (b9 as u64);
        assert(length == be_value(buf.subrange(6, 10)));
        if (len as u64) < 10 + length {
            return Ok(None);
        }
        let mut data = buffer_split_to(src, (10 + length) as usize);
        let payload = data.split_off(10);
        assert(payload@ =~= buf.subrange(10, 10 + length as int));
        Ok(Some(Frame { message_type: kind, payload }))
    }
}

/// Decoding a buffer that begins with the frame of `payload` gives back its type byte and
/// `payload`, and leaves whatever followed the frame in the buffer.
pub proof fn lemma_decode_after_encode(t: u8, payload: Seq<u8>, rest: Seq<u8>)
    requires
        payload.len() <= u32::MAX,
    ensures
        !decode_unreadable(frame(t, payload) + rest),
        frame_decode(frame(t, payload) + rest) == Ok::<Option<(u8, Seq<u8>, nat)>, CodecError>(
            Some((t, payload, frame(t, payload).len())),
        ),
        (frame(t, payload) + rest).skip(frame(t, payload).len() as int) == rest,
        frame(t, payload).len() == header_len() + payload.len(),
{
    let f = frame(t, payload);
    let buf = f + rest;
    lemma_be_roundtrip(payload.len() as u32);
    assert(buf.take(4) =~= frame_magic());
    assert(buf.subrange(6, 10) =~= be_bytes(payload.len() as u32));
    assert(buf.subrange(10, 10 + payload.len() as int) =~= payload);
    assert(buf.skip(f.len() as int) =~= rest);
}

/// A buffer that holds only part of a frame decodes to `Ok(None)`, so the decoder waits for
/// more bytes; the one exception is a prefix of exactly nine bytes, where decoding cannot
/// read the length field.
pub proof fn lemma_partial_frame_waits(t: u8, payload: Seq<u8>, k: nat)
    requires
        payload.len() <= u32::MAX,
        k < frame(t, payload).len(),
        k != 9,
    ensures
        !decode_unreadable(frame(t, payload).take(k as int)),
        frame_decode(frame(t, payload).take(k as int)) == Ok::<Option<(u8, Seq<u8>, nat)>, CodecError>(None),
{
    let f = frame(t, payload);
    let buf = f.take(k as int);
    lemma_be_roundtrip(payload.len() as u32);
    if k >= 9 {
        assert(buf.take(4) =~= frame_magic());
        assert(buf.subrange(6, 10) =~= be_bytes(payload.len() as u32));
    }
}

/// The layout of a frame, byte by byte: `L`, `O`, `C`, `A`, the version 1, the type byte,
/// the payload's length as four big-endian bytes (most significant first), then the payload.
pub proof fn lemma_frame_layout(t: u8, payload: Seq<u8>)
    requires
        payload.len() <= u32::MAX,
    ensures
        ({
            let f = frame(t, payload);
            let n = payload.len();
            &&& f.len() == 10 + n
            &&& f[0] == 0x4C && f[1] == 0x4F && f[2] == 0x43 && f[3] == 0x41
            &&& f[4] == 1
            &&& f[5] == t
            &&& f[6] == n / 0x100_0000
            &&& f[7] == (n / 0x1_0000) % 0x100
            &&& f[8] == (n / 0x100) % 0x100
            &&& f[9] == n % 0x100
            &&& f[6] * 0x100_0000 + f[7] * 0x1_0000 + f[8] * 0x100 + f[9] == n
            &&& forall|k: int| 0 <= k < n ==> #[trigger] f[10 + k] == payload[k]
        }),
{
    let v = payload.len() as u32;
    assert(v == payload.len());
    assert((v / 0x100_0000) * 0x100_0000 + ((v / 0x1_0000) % 0x100) * 0x1_0000 + ((v / 0x100)
        % 0x100) * 0x100 + v % 0x100 == v) by (bit_vector);
    assert(v / 0x100_0000 < 0x100) by (bit_vector);
    let f = frame(t, payload);
    assert forall|k: int| 0 <= k < payload.len() implies #[trigger] f[10 + k] == payload[k] by {
        assert((frame_magic() + seq![frame_version(), t] + be_bytes(v)).len() == 10);
    }
}

/// How decoding reads a header: a buffer of at least ten bytes that starts with `LOCA` and
/// version 1 carries a payload whose length is its bytes 6 to 9 read big-endian; the frame
/// is taken once that many bytes follow the header, with the type byte at 5, and otherwise
/// decoding waits.
pub proof fn lemma_decode_reads_header(buf: Seq<u8>)
    requires
        buf.len() >= 10,
        buf[0] == 0x4C && buf[1] == 0x4F && buf[2] == 0x43 && buf[3] == 0x41,
        buf[4] == 1,
    ensures
        ({
            let n = buf[6] * 0x100_0000 + buf[7] * 0x1_0000 + buf[8] * 0x100 + buf[9];
            &&& buf.len() >= 10 + n ==> frame_decode(buf) == Ok::<Option<(u8, Seq<u8>, nat)>, CodecError>(
                Some((buf[5], buf.subrange(10, 10 + n), (10 + n) as nat)),
            )
            &&& buf.len() < 10 + n ==> frame_decode(buf) == Ok::<Option<(u8, Seq<u8>, nat)>, CodecError>(None)
        }),
{
    assert(buf.take(4) =~= frame_magic());
    let h = buf.subrange(6, 10);
    assert(h[0] == buf[6] && h[1] == buf[7] && h[2] == buf[8] && h[3] == buf[9]);
}

/// How decoding refuses or waits before the length field: fewer than nine bytes wait for
/// more; otherwise a first four bytes other than `LOCA` are refused as a wrong magic, and a
/// fifth byte other than 1 as an unsupported version.
pub proof fn lemma_decode_checks_header(buf: Seq<u8>)
    ensures
        buf.len() < 9 ==> frame_decode(buf) == Ok::<Option<(u8, Seq<u8>, nat)>, CodecError>(None),
        buf.len() >= 9 && !(buf[0] == 0x4C && buf[1] == 0x4F && buf[2] == 0x43 && buf[3] == 0x41) ==> frame_decode(
            buf,
        ) == Err::<Option<(u8, Seq<u8>, nat)>, CodecError>(CodecError::InvalidMagic),
        buf.len() >= 9 && buf[0] == 0x4C && buf[1] == 0x4F && buf[2] == 0x43 && buf[3] == 0x41 && buf[4] != 1
            ==> frame_decode(buf) == Err::<Option<(u8, Seq<u8>, nat)>, CodecError>(CodecError::UnsupportedVersion),
{
    if buf.len() >= 9 {
        if buf[0] == 0x4C && buf[1] == 0x4F && buf[2] == 0x43 && buf[3] == 0x41 {
            assert(buf.take(4) =~= frame_magic());
        } else {
            assert(buf.take(4)[0] == buf[0] && buf.take(4)[1] == buf[1]);
            assert(buf.take(4)[2] == buf[2] && buf.take(4)[3] == buf[3]);
        }
    }
}

} // verus!
