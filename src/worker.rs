//! What a broker worker does with one request: the request comes as an
//! identity frame and a payload frame; the payload is decoded record by
//! record, and the reply carries the same identity frame and a fixed
//! one-byte acknowledgment.
use vstd::prelude::*;
use crate::codec::{ByteOrder, Sensor, decode_payload, payload_decoding};

verus! {

/// The acknowledgment payload: the byte `R`.
pub const ACK: u8 = 82;

/// The outcome of a request, for the worker to carry out.
pub enum WorkerAction {
    /// Log `readings` under `identity`, then send `frames` back.
    Reply { identity: Vec<u8>, readings: Vec<Sensor>, frames: Vec<Vec<u8>> },
    /// The payload's last record is cut short: log the identity and the
    /// payload's length, and send nothing back.
    Discard { identity: Vec<u8>, length: usize },
    /// The request is not exactly an identity frame and a payload frame: the
    /// framing is corrupt and the worker stops.
    Malformed { frame_count: usize },
}

/// Whether `frames` is a request: an identity frame and a payload frame.
pub open spec fn is_request(frames: Seq<Vec<u8>>) -> bool {
    frames.len() == 2
}

/// Decides what to do with one request made of `frames`, whose payload
/// records are in the given byte order.
pub fn handle_request(frames: Vec<Vec<u8>>, order: ByteOrder) -> (r: WorkerAction)
    ensures
        r is Malformed <==> !is_request(frames@),
        r matches WorkerAction::Malformed { frame_count } ==> frame_count == frames@.len(),
        is_request(frames@) ==> (r is Discard <==> frames@[1]@.len() % 4 != 0),
        r matches WorkerAction::Discard { identity, length } ==> {
            &&& identity@ == frames@[0]@
            &&& length == frames@[1]@.len()
        },
        r matches WorkerAction::Reply { identity, readings, frames: out } ==> {
            &&& identity@ == frames@[0]@
            &&& readings@ == payload_decoding(frames@[1]@, order)
            &&& out@.len() == 2
            &&& out@[0]@ == frames@[0]@
            &&& out@[1]@ == seq![ACK]
        },
{
    let frame_count = frames.len();
    if frame_count != 2 {
        return WorkerAction::Malformed { frame_count };
    }
    let ghost given = frames@;
    let mut frames = frames;
    let payload = frames.remove(1);
    let identity = frames.remove(0);
    assert(identity == given[0] && payload == given[1]);
    match decode_payload(payload.as_slice(), order) {
        Ok(readings) => {
            let reply_identity = copy_bytes(&identity);
            let ack: Vec<u8> = vec![ACK];
            let out: Vec<Vec<u8>> = vec![reply_identity, ack];
            WorkerAction::Reply { identity, readings, frames: out }
        },
        Err(_) => WorkerAction::Discard { identity, length: payload.len() },
    }
}

/// A copy of `bytes`.
fn copy_bytes(bytes: &Vec<u8>) -> (r: Vec<u8>)
    ensures
        r@ == bytes@,
{
    let mut r: Vec<u8> = Vec::new();
    let mut i: usize = 0;
    while i < bytes.len()
        invariant
            i <= bytes@.len(),
            r@ == bytes@.subrange(0, i as int),
        decreases bytes@.len() - i,
    {
        r.push(bytes[i]);
        i = i + 1;
        assert(r@ =~= bytes@.subrange(0, i as int));
    }
    assert(r@ =~= bytes@);
    r
}

} // verus!
