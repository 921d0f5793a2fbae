//! What the gateway does with a message from a peer that has not yet
//! authenticated.
use vstd::prelude::*;
use vstd::string::StringSliceAdditionalSpecFns;
use vstd::utf8::encode_utf8;
use crate::codec::{Identity, Incoming, IncomingView, Outgoing, decode_spec, outgoing_bytes};
use crate::token::{verify, verify_spec};

verus! {

/// The gateway's answer to one message.
#[derive(Debug)]
pub enum Gate {
    /// The token holds: write `ack` to the peer and hand it to the world
    /// under `id`.
    Accept { id: Identity, ack: Vec<u8> },
    /// Write this body back to the peer and keep waiting.
    Reply(Vec<u8>),
    /// The token was refused: close the connection.
    Reject,
    /// Nothing to do.
    Ignore,
}

/// `g` is the gateway's answer to the body `b` under `secret`.
pub open spec fn gate_spec(b: Seq<u8>, secret: Seq<u8>, g: Gate) -> bool {
    match decode_spec(b) {
        Ok(IncomingView::Hello { token }) => match verify_spec(encode_utf8(token), secret) {
            Ok((id, _)) => g matches Gate::Accept { id: gid, ack } && gid@ == id && ack@
                == outgoing_bytes(Outgoing::Hello { id: gid }),
            Err(_) => g is Reject,
        },
        Ok(IncomingView::Ping { timestamp }) => g matches Gate::Reply(r) && r@ == outgoing_bytes(
            Outgoing::Pong { timestamp },
        ),
        _ => g is Ignore,
    }
}

/// Answers one message of a waiting peer: a greeting with a token that
/// verifies under `secret` lets it in with a hello carrying its identity, a
/// greeting with any other token rejects it, a ping is answered with a pong,
/// and anything else is ignored.
pub fn handle_packet(body: &[u8], secret: &str) -> (g: Gate)
    ensures
        gate_spec(body@, secret.spec_bytes(), g),
{
    match Incoming::deserialize(body) {
        Ok(Incoming::Hello { token }) => match verify(token.as_str(), secret) {
            Ok(t) => {
                let ack = Outgoing::Hello { id: t.id }.serialize();
                Gate::Accept { id: t.id, ack }
            },
            Err(_) => Gate::Reject,
        },
        Ok(Incoming::Ping { timestamp }) => Gate::Reply(Outgoing::Pong { timestamp }.serialize()),
        _ => Gate::Ignore,
    }
}

} // verus!
