//! Messages of the binary protocol and their layouts.
//!
//! A message body is a 16-bit little-endian opcode followed by the fields of
//! the message, each integer little-endian. A frame is the body preceded by
//! its length as a 16-bit little-endian integer.
use vstd::prelude::*;
use vstd::utf8::*;
use crate::wire::{
    i32_le, i64_at, i64_le, lemma_i64_round_trip, lemma_u16_round_trip, push_all, push_i32_le,
    push_i64_le, push_u16_le, read_i64_le, read_u16_le, u16_at, u16_le,
};

verus! {

/// Opaque identity of a connected peer.
pub type Identity = [u8; 16];

/// Largest body length that a frame may declare.
pub const MAX_FRAME_LEN: usize = 8096;

/// What a client sends.
#[derive(Debug)]
pub enum Incoming {
    Ping { timestamp: i64 },
    Hello { token: String },
    Move { direction: u8 },
}

/// The mathematical value of an [`Incoming`] message.
pub enum IncomingView {
    Ping { timestamp: i64 },
    Hello { token: Seq<char> },
    Move { direction: u8 },
}

impl View for Incoming {
    type V = IncomingView;

    open spec fn view(&self) -> IncomingView {
        match self {
            Incoming::Ping { timestamp } => IncomingView::Ping { timestamp: *timestamp },
            Incoming::Hello { token } => IncomingView::Hello { token: token@ },
            Incoming::Move { direction } => IncomingView::Move { direction: *direction },
        }
    }
}

/// Why a body could not be read as an [`Incoming`] message.
#[derive(Debug, Clone, Copy, PartialEq, Eq, Structural)]
pub enum DecodeError {
    /// Fewer than two bytes: no opcode.
    TooShort,
    /// The opcode names no client message.
    UnknownOpcode,
    /// The opcode is known but its fields are missing or out of range.
    Malformed,
}

/// What the server sends.
#[derive(Debug)]
pub enum Outgoing {
    Pong { timestamp: i64 },
    Hello { id: Identity },
    Connect { id: Identity, x: i32, y: i32, z: i32 },
    Disconnect { id: Identity },
    Introduce { users: Vec<(Identity, i32, i32, i32)> },
    Move { id: Identity, x: i32, y: i32, z: i32, tick: i64 },
    Arrive { id: Identity, x: i32, y: i32, z: i32 },
}

/// Result of `String::from_utf8_lossy` on the given bytes.
pub uninterp spec fn lossy_utf8_of(b: Seq<u8>) -> Seq<char>;

/// The text that a byte string reads as: the characters it encodes when it
/// is valid UTF-8, else what lossy decoding makes of it.
pub open spec fn utf8_text(b: Seq<u8>) -> Seq<char> {
    if valid_utf8(b) {
        decode_utf8(b)
    } else {
        lossy_utf8_of(b)
    }
}

/// Relies on `String::from_utf8_lossy`: bytes that are valid UTF-8 decode to
/// exactly the characters they encode; other bytes give a text that depends
/// on the bytes alone.
#[verifier::external_body]
fn lossy_utf8(b: &[u8]) -> (r: String)
    ensures
        valid_utf8(b@) ==> r@ == decode_utf8(b@),
        !valid_utf8(b@) ==> r@ == lossy_utf8_of(b@),
{
    String::from_utf8_lossy(b).into_owned()
}

/// The opcode layout `[n, 0]`.
pub open spec fn opcode(n: u16) -> Seq<u8> {
    u16_le(n)
}

/// Layout of an identity followed by a position.
pub open spec fn located_bytes(id: Identity, x: i32, y: i32, z: i32) -> Seq<u8> {
    id@ + i32_le(x) + i32_le(y) + i32_le(z)
}

/// Layout of a roster: each entry's identity and position, in order.
pub open spec fn roster_bytes(users: Seq<(Identity, i32, i32, i32)>) -> Seq<u8>
    decreases users.len(),
{
    if users.len() == 0 {
        Seq::empty()
    } else {
        let u = users.last();
        roster_bytes(users.drop_last()) + located_bytes(u.0, u.1, u.2, u.3)
    }
}

/// The body that encodes a server message.
pub open spec fn outgoing_bytes(m: Outgoing) -> Seq<u8> {
    match m {
        Outgoing::Pong { timestamp } => opcode(1) + i64_le(timestamp),
        Outgoing::Hello { id } => opcode(2) + id@,
        Outgoing::Connect { id, x, y, z } => opcode(3) + located_bytes(id, x, y, z),
        Outgoing::Disconnect { id } => opcode(4) + id@,
        Outgoing::Introduce { users } => opcode(5) + roster_bytes(users@),
        Outgoing::Move { id, x, y, z, tick } => opcode(6) + located_bytes(id, x, y, z) + i64_le(
            tick,
        ),
        Outgoing::Arrive { id, x, y, z } => opcode(7) + located_bytes(id, x, y, z),
    }
}

/// The body that encodes a client message.
pub open spec fn incoming_bytes(m: IncomingView) -> Seq<u8> {
    match m {
        IncomingView::Ping { timestamp } => opcode(1) + i64_le(timestamp),
        IncomingView::Hello { token } => opcode(2) + encode_utf8(token),
        IncomingView::Move { direction } => opcode(3) + seq![direction],
    }
}

/// A client message that the server accepts: a move names a direction from
/// 0 (stop) to 4 and a greeting carries a non-empty token.
pub open spec fn valid_incoming(m: IncomingView) -> bool {
    match m {
        IncomingView::Ping { .. } => true,
        IncomingView::Hello { token } => token.len() > 0,
        IncomingView::Move { direction } => direction <= 4,
    }
}

/// How a body reads as a client message.
pub open spec fn decode_spec(b: Seq<u8>) -> Result<IncomingView, DecodeError> {
    if b.len() < 2 {
        Err(DecodeError::TooShort)
    } else {
        let op = u16_at(b);
        let body = b.subrange(2, b.len() as int);
        if op == 1 {
            if body.len() == 8 {
                Ok(IncomingView::Ping { timestamp: i64_at(body) })
            } else {
                Err(DecodeError::Malformed)
            }
        } else if op == 2 {
            if body.len() >= 1 {
                Ok(IncomingView::Hello { token: utf8_text(body) })
            } else {
                Err(DecodeError::Malformed)
            }
        } else if op == 3 {
            if body.len() >= 1 && body[0] <= 4 {
                Ok(IncomingView::Move { direction: body[0] })
            } else {
                Err(DecodeError::Malformed)
            }
        } else {
            Err(DecodeError::UnknownOpcode)
        }
    }
}

fn push_located(out: &mut Vec<u8>, id: &Identity, x: i32, y: i32, z: i32)
    ensures
        final(out)@ == old(out)@ + located_bytes(*id, x, y, z),
{
    push_all(out, id);
    push_i32_le(out, x);
    push_i32_le(out, y);
    push_i32_le(out, z);
    assert(final(out)@ =~= old(out)@ + located_bytes(*id, x, y, z));
}

impl Outgoing {
    /// The body of this message: opcode, then fields.
    pub fn serialize(self) -> (r: Vec<u8>)
        ensures
            r@ == outgoing_bytes(self),
    {
        let mut out: Vec<u8> = Vec::new();
        match self {
            Outgoing::Pong { timestamp } => {
                push_u16_le(&mut out, 1);
                push_i64_le(&mut out, timestamp);
            },
            Outgoing::Hello { id } => {
                push_u16_le(&mut out, 2);
                push_all(&mut out, &id);
            },
            Outgoing::Connect { id, x, y, z } => {
                push_u16_le(&mut out, 3);
                push_located(&mut out, &id, x, y, z);
            },
            Outgoing::Disconnect { id } => {
                push_u16_le(&mut out, 4);
                push_all(&mut out, &id);
            },
            Outgoing::Introduce { users } => {
                push_u16_le(&mut out, 5);
                let ghost head = out@;
                let mut i: usize = 0;
                while i < users.len()
                    invariant
                        i <= users@.len(),
                        out@ == head + roster_bytes(users@.subrange(0, i as int)),
                    decreases users@.len() - i,
                {
                    let u = &users[i];
                    push_located(&mut out, &u.0, u.1, u.2, u.3);
                    proof {
                        let prefix = users@.subrange(0, i + 1);
                        assert(prefix.drop_last() =~= users@.subrange(0, i as int));
                        assert(prefix.last() == users@[i as int]);
                    }
                    i = i + 1;
                }
                assert(users@.subrange(0, users@.len() as int) =~= users@);
            },
            Outgoing::Move { id, x, y, z, tick } => {
                push_u16_le(&mut out, 6);
                push_located(&mut out, &id, x, y, z);
                push_i64_le(&mut out, tick);
            },
            Outgoing::Arrive { id, x, y, z } => {
                push_u16_le(&mut out, 7);
                push_located(&mut out, &id, x, y, z);
            },
        }
        out
    }
}

impl Incoming {
    /// Reads a body as a client message.
    pub fn deserialize(buf: &[u8]) -> (r: Result<Incoming, DecodeError>)
        ensures
            r matches Ok(m) ==> decode_spec(buf@) == Ok::<IncomingView, DecodeError>(m@),
            r matches Err(e) ==> decode_spec(buf@) == Err::<IncomingView, DecodeError>(e),
    {
        if buf.len() < 2 {
            return Err(DecodeError::TooShort);
        }
        let op = read_u16_le(buf, 0);
        assert(buf@.subrange(0, buf@.len() as int)[0] == buf@[0]);
        assert(buf@.subrange(0, buf@.len() as int)[1] == buf@[1]);
        let n = buf.len() - 2;
        if op == 1 {
            if n == 8 {
                let timestamp = read_i64_le(buf, 2);
                Ok(Incoming::Ping { timestamp })
            } else {
                Err(DecodeError::Malformed)
            }
        } else if op == 2 {
            if n >= 1 {
                let rest = slice_from(buf, 2);
                let token = lossy_utf8(rest);
                Ok(Incoming::Hello { token })
            } else {
                Err(DecodeError::Malformed)
            }
        } else if op == 3 {
            if n >= 1 && buf[2] <= 4 {
                Ok(Incoming::Move { direction: buf[2] })
            } else {
                Err(DecodeError::Malformed)
            }
        } else {
            Err(DecodeError::UnknownOpcode)
        }
    }

    /// The body that a client sends for this message.
    pub fn serialize(&self) -> (r: Vec<u8>)
        ensures
            r@ == incoming_bytes(self@),
    {
        let mut out: Vec<u8> = Vec::new();
        match self {
            Incoming::Ping { timestamp } => {
                push_u16_le(&mut out, 1);
                push_i64_le(&mut out, *timestamp);
            },
            Incoming::Hello { token } => {
                push_u16_le(&mut out, 2);
                push_all(&mut out, token.as_str().as_bytes());
            },
            Incoming::Move { direction } => {
                push_u16_le(&mut out, 3);
                out.push(*direction);
                assert(out@ =~= opcode(3) + seq![*direction]);
            },
        }
        out
    }
}

/// The bytes of `b` from `at` on.
fn slice_from(b: &[u8], at: usize) -> (r: &[u8])
    requires
        at <= b@.len(),
    ensures
        r@ == b@.subrange(at as int, b@.len() as int),
{
    let (_, rest) = b.split_at(at);
    rest
}

/// Every valid client message reads back from its own layout.
pub proof fn lemma_incoming_round_trip(m: IncomingView)
    requires
        valid_incoming(m),
    ensures
        decode_spec(incoming_bytes(m)) == Ok::<IncomingView, DecodeError>(m),
{
    let b = incoming_bytes(m);
    let body = b.subrange(2, b.len() as int);
    match m {
        IncomingView::Ping { timestamp } => {
            assert(body =~= i64_le(timestamp));
            lemma_u16_round_trip(1);
            assert(b.subrange(0, 2) =~= opcode(1));
            lemma_i64_round_trip(timestamp);
        },
        IncomingView::Hello { token } => {
            assert(body =~= encode_utf8(token));
            lemma_u16_round_trip(2);
            encode_utf8_valid_utf8(token);
            encode_utf8_decode_utf8(token);
            if encode_utf8(token).len() == 0 {
                assert(encode_utf8(token) =~= Seq::<u8>::empty());
                assert(decode_utf8(Seq::<u8>::empty()) =~= Seq::<char>::empty());
            }
        },
        IncomingView::Move { direction } => {
            assert(body =~= seq![direction]);
            lemma_u16_round_trip(3);
        },
    }
}

/// Why a body cannot travel in a frame, or a header announces no valid frame.
#[derive(Debug, Clone, Copy, PartialEq, Eq, Structural)]
pub enum FrameError {
    /// A length of zero.
    Empty,
    /// A length above [`MAX_FRAME_LEN`].
    TooLarge,
}

/// A body length that a frame may carry.
pub open spec fn frame_len_ok(n: int) -> bool {
    1 <= n <= MAX_FRAME_LEN
}

/// The frame that carries `body`: its length, then the body itself.
pub open spec fn framed(body: Seq<u8>) -> Seq<u8> {
    u16_le(body.len() as u16) + body
}

/// What a two-byte header announces.
pub open spec fn header_spec(b0: u8, b1: u8) -> Result<usize, FrameError> {
    let n = u16_at(seq![b0, b1]);
    if n == 0 {
        Err(FrameError::Empty)
    } else if n > MAX_FRAME_LEN {
        Err(FrameError::TooLarge)
    } else {
        Ok(n as usize)
    }
}

/// Wraps a body in a frame; an empty body or one above [`MAX_FRAME_LEN`]
/// bytes is refused.
pub fn frame(body: &[u8]) -> (r: Result<Vec<u8>, FrameError>)
    ensures
        body@.len() == 0 ==> r == Err::<Vec<u8>, FrameError>(FrameError::Empty),
        body@.len() > MAX_FRAME_LEN ==> r == Err::<Vec<u8>, FrameError>(FrameError::TooLarge),
        frame_len_ok(body@.len() as int) ==> (r matches Ok(f) && f@ == framed(body@)),
{
    if body.len() == 0 {
        return Err(FrameError::Empty);
    }
    if body.len() > MAX_FRAME_LEN {
        return Err(FrameError::TooLarge);
    }
    let mut out: Vec<u8> = Vec::new();
    push_u16_le(&mut out, body.len() as u16);
    push_all(&mut out, body);
    Ok(out)
}

/// Reads the two-byte header of a frame: the length of the body that
/// follows, which must lie in `1..=MAX_FRAME_LEN`.
pub fn read_header(b0: u8, b1: u8) -> (r: Result<usize, FrameError>)
    ensures
        r == header_spec(b0, b1),
{
    let n = ((b0 as u16) | ((b1 as u16) << 8u16)) as u16;
    assert(seq![b0, b1][0] == b0 && seq![b0, b1][1] == b1);
    if n == 0 {
        Err(FrameError::Empty)
    } else if n as usize > MAX_FRAME_LEN {
        Err(FrameError::TooLarge)
    } else {
        Ok(n as usize)
    }
}

/// The header of every frame announces exactly the length of the body it
/// carries.
pub proof fn lemma_frame_header(body: Seq<u8>)
    requires
        frame_len_ok(body.len() as int),
    ensures
        framed(body).len() == body.len() + 2,
        header_spec(framed(body)[0], framed(body)[1]) == Ok::<usize, FrameError>(body.len() as usize),
        framed(body).subrange(2, framed(body).len() as int) == body,
{
    let f = framed(body);
    lemma_u16_round_trip(body.len() as u16);
    assert(seq![f[0], f[1]] =~= u16_le(body.len() as u16));
    assert(f.subrange(2, f.len() as int) =~= body);
}

} // verus!
