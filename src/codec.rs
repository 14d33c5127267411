//! Fixed-width binary codec of one sensor reading.
//!
//! A reading is two half-precision floats, kept here as their raw bit
//! patterns. Its encoding is four bytes: the temperature's two bytes, then the
//! humidity's two bytes, each in the byte order of the machine.
use vstd::prelude::*;

verus! {

/// Order of the two bytes of a half-precision value.
#[derive(Clone, Copy, Debug, PartialEq, Eq, Structural)]
pub enum ByteOrder {
    Little,
    Big,
}

/// One sensor reading, each value held as the bit pattern of a
/// half-precision float.
#[derive(Clone, Copy, Debug, PartialEq, Eq, Structural)]
pub struct Sensor {
    /// The temperature in degrees Celsius, as half-precision bits.
    pub temperature: u16,
    /// The relative humidity in percent, as half-precision bits.
    pub humidity: u16,
}

/// The two bytes of `bits` in the given order.
pub open spec fn half_bytes(bits: u16, order: ByteOrder) -> Seq<u8> {
    let lo = (bits % 256) as u8;
    let hi = (bits / 256) as u8;
    match order {
        ByteOrder::Little => seq![lo, hi],
        ByteOrder::Big => seq![hi, lo],
    }
}

/// The value whose bytes in the given order are `b0`, `b1`.
pub open spec fn half_of_bytes(b0: u8, b1: u8, order: ByteOrder) -> u16 {
    match order {
        ByteOrder::Little => (b0 as int + 256 * b1 as int) as u16,
        ByteOrder::Big => (256 * b0 as int + b1 as int) as u16,
    }
}

/// The four-byte encoding of a reading.
pub open spec fn encoding(s: Sensor, order: ByteOrder) -> Seq<u8> {
    half_bytes(s.temperature, order) + half_bytes(s.humidity, order)
}

/// The reading held in the first four bytes of `b`.
pub open spec fn decoding(b: Seq<u8>, order: ByteOrder) -> Sensor
    recommends
        b.len() >= 4,
{
    Sensor {
        temperature: half_of_bytes(b[0], b[1], order),
        humidity: half_of_bytes(b[2], b[3], order),
    }
}

/// The encodings of `readings`, one after the other, in their order.
pub open spec fn payload_encoding(readings: Seq<Sensor>, order: ByteOrder) -> Seq<u8>
    decreases readings.len(),
{
    if readings.len() == 0 {
        Seq::empty()
    } else {
        payload_encoding(readings.drop_last(), order) + encoding(readings.last(), order)
    }
}

/// Relies on u16::to_ne_bytes: the value's bytes in the machine's order,
/// which is little-endian or big-endian.
#[verifier::external_body]
fn u16_to_ne_bytes(bits: u16) -> (r: [u8; 2])
    ensures
        r@ == half_bytes(bits, ByteOrder::Little) || r@ == half_bytes(bits, ByteOrder::Big),
{
    bits.to_ne_bytes()
}

impl ByteOrder {
    /// The byte order in which this machine lays out a half-precision value,
    /// found by laying out the value with bits `1`.
    pub fn native() -> (r: ByteOrder) {
        let probe = u16_to_ne_bytes(1);
        if probe[0] == 1 {
            ByteOrder::Little
        } else {
            ByteOrder::Big
        }
    }
}

/// The two bytes of `bits` in the given order.
fn half_to_bytes(bits: u16, order: ByteOrder) -> (r: [u8; 2])
    ensures
        r@ == half_bytes(bits, order),
{
    let lo = (bits % 256) as u8;
    let hi = (bits / 256) as u8;
    let r = match order {
        ByteOrder::Little => [lo, hi],
        ByteOrder::Big => [hi, lo],
    };
    assert(r@ =~= half_bytes(bits, order));
    r
}

/// The value whose bytes in the given order are `b0`, `b1`.
fn half_from_bytes(b0: u8, b1: u8, order: ByteOrder) -> (r: u16)
    ensures
        r == half_of_bytes(b0, b1, order),
{
    match order {
        ByteOrder::Little => b0 as u16 + 256 * b1 as u16,
        ByteOrder::Big => 256 * b0 as u16 + b1 as u16,
    }
}

impl Sensor {
    /// The four-byte encoding of this reading.
    pub fn to_bytes(&self, order: ByteOrder) -> (r: Vec<u8>)
        ensures
            r@ == encoding(*self, order),
            r@.len() == 4,
    {
        let t = half_to_bytes(self.temperature, order);
        let h = half_to_bytes(self.humidity, order);
        let r = vec![t[0], t[1], h[0], h[1]];
        assert(r@ =~= encoding(*self, order));
        r
    }

    /// The reading held in the first four bytes of `bytes`.
    pub fn from_bytes(bytes: &[u8], order: ByteOrder) -> (r: Sensor)
        requires
            bytes@.len() >= 4,
        ensures
            r == decoding(bytes@, order),
    {
        Sensor {
            temperature: half_from_bytes(bytes[0], bytes[1], order),
            humidity: half_from_bytes(bytes[2], bytes[3], order),
        }
    }
}

/// Encoding a value's bytes gives those bytes back.
proof fn lemma_half_bytes_round_trip(b0: u8, b1: u8, order: ByteOrder)
    ensures
        half_bytes(half_of_bytes(b0, b1, order), order) == seq![b0, b1],
{
    let v = half_of_bytes(b0, b1, order);
    match order {
        ByteOrder::Little => {
            assert(v as int == b0 as int + 256 * b1 as int);
            assert((v % 256) as u8 == b0 && (v / 256) as u8 == b1);
        },
        ByteOrder::Big => {
            assert(v as int == 256 * b0 as int + b1 as int);
            assert((v % 256) as u8 == b1 && (v / 256) as u8 == b0);
        },
    }
    assert(half_bytes(v, order) =~= seq![b0, b1]);
}

/// Decoding a value's bytes gives the value back.
proof fn lemma_half_value_round_trip(bits: u16, order: ByteOrder)
    ensures
        half_of_bytes(half_bytes(bits, order)[0], half_bytes(bits, order)[1], order) == bits,
{
}

/// Encoding the reading decoded from four bytes gives those four bytes.
pub proof fn lemma_encode_decode(bytes: Seq<u8>, order: ByteOrder)
    requires
        bytes.len() == 4,
    ensures
        encoding(decoding(bytes, order), order) == bytes,
{
    lemma_half_bytes_round_trip(bytes[0], bytes[1], order);
    lemma_half_bytes_round_trip(bytes[2], bytes[3], order);
    assert(encoding(decoding(bytes, order), order) =~= bytes);
}

/// Decoding the encoding of a reading gives the same reading.
pub proof fn lemma_decode_encode(s: Sensor, order: ByteOrder)
    ensures
        decoding(encoding(s, order), order) == s,
{
    lemma_half_value_round_trip(s.temperature, order);
    lemma_half_value_round_trip(s.humidity, order);
}

/// Decoding four bytes, encoding the reading and decoding again gives the
/// reading decoded first: the codec is an exact reinterpretation of bits.
pub proof fn lemma_decode_round_trip(bytes: Seq<u8>, order: ByteOrder)
    requires
        bytes.len() == 4,
    ensures
        decoding(encoding(decoding(bytes, order), order), order) == decoding(bytes, order),
{
    lemma_encode_decode(bytes, order);
}

/// Why a payload could not be read as a sequence of readings.
#[derive(Clone, Copy, Debug, PartialEq, Eq, Structural)]
pub enum PayloadError {
    /// The payload's length is not a multiple of the record size: its last
    /// record is cut short.
    PartialRecord,
}

/// The number of bytes of one encoded reading.
pub const RECORD_LEN: usize = 4;

/// The readings held by a payload of whole records, one for each record.
pub open spec fn payload_decoding(b: Seq<u8>, order: ByteOrder) -> Seq<Sensor> {
    Seq::new(b.len() / 4, |i: int| decoding(b.subrange(4 * i, 4 * i + 4), order))
}

/// Appending a reading appends its encoding.
proof fn lemma_payload_push(readings: Seq<Sensor>, s: Sensor, order: ByteOrder)
    ensures
        payload_encoding(readings.push(s), order) == payload_encoding(readings, order) + encoding(s, order),
{
    assert(readings.push(s).drop_last() =~= readings);
}

/// The payload of `n` readings has `4 * n` bytes, the `i`-th record being the
/// encoding of the `i`-th reading.
pub proof fn lemma_payload_records(readings: Seq<Sensor>, order: ByteOrder)
    ensures
        payload_encoding(readings, order).len() == 4 * readings.len(),
        forall|i: int|
            0 <= i < readings.len() ==> #[trigger] payload_encoding(readings, order).subrange(
                4 * i,
                4 * i + 4,
            ) == encoding(readings[i], order),
    decreases readings.len(),
{
    if readings.len() > 0 {
        let init = readings.drop_last();
        lemma_payload_records(init, order);
        let p = payload_encoding(readings, order);
        let q = payload_encoding(init, order);
        assert forall|i: int| 0 <= i < readings.len() implies #[trigger] p.subrange(4 * i, 4 * i + 4)
            == encoding(readings[i], order) by {
            if i < init.len() {
                assert(q.subrange(4 * i, 4 * i + 4) == encoding(init[i], order));
                assert(p.subrange(4 * i, 4 * i + 4) =~= q.subrange(4 * i, 4 * i + 4));
            } else {
                assert(p.subrange(4 * i, 4 * i + 4) =~= encoding(readings.last(), order));
            }
        }
    }
}

/// Decoding the payload of some readings gives those readings back.
pub proof fn lemma_payload_decode_encode(readings: Seq<Sensor>, order: ByteOrder)
    ensures
        payload_decoding(payload_encoding(readings, order), order) == readings,
{
    lemma_payload_records(readings, order);
    let d = payload_decoding(payload_encoding(readings, order), order);
    assert forall|i: int| 0 <= i < readings.len() implies d[i] == readings[i] by {
        lemma_decode_encode(readings[i], order);
    }
    assert(d =~= readings);
}

/// Encoding the readings decoded from a payload of whole records gives the
/// payload back.
pub proof fn lemma_payload_encode_decode(payload: Seq<u8>, order: ByteOrder)
    requires
        payload.len() % 4 == 0,
    ensures
        payload_encoding(payload_decoding(payload, order), order) == payload,
    decreases payload.len(),
{
    if payload.len() > 0 {
        let n = payload.len() - 4;
        let init = payload.subrange(0, n as int);
        let last = payload.subrange(n as int, payload.len() as int);
        lemma_payload_encode_decode(init, order);
        lemma_encode_decode(last, order);
        let d = payload_decoding(payload, order);
        assert(d.drop_last() =~= payload_decoding(init, order)) by {
            assert forall|i: int| 0 <= i < d.len() - 1 implies #[trigger] init.subrange(
                4 * i,
                4 * i + 4,
            ) =~= payload.subrange(4 * i, 4 * i + 4) by {}
        }
        assert(d.last() == decoding(last, order));
        assert(payload =~= init + last);
    } else {
        assert(payload_decoding(payload, order) =~= Seq::<Sensor>::empty());
        assert(payload =~= Seq::<u8>::empty());
    }
}

/// The payload of `readings`: their encodings one after the other.
pub fn encode_payload(readings: &Vec<Sensor>, order: ByteOrder) -> (r: Vec<u8>)
    requires
        readings@.len() * 4 <= usize::MAX,
    ensures
        r@ == payload_encoding(readings@, order),
        r@.len() == 4 * readings@.len(),
{
    let mut out: Vec<u8> = Vec::new();
    let mut i: usize = 0;
    while i < readings.len()
        invariant
            i <= readings@.len(),
            out@ == payload_encoding(readings@.subrange(0, i as int), order),
        decreases readings@.len() - i,
    {
        let record = readings[i].to_bytes(order);
        let mut j: usize = 0;
        let ghost before = out@;
        while j < record.len()
            invariant
                j <= record@.len(),
                record@.len() == 4,
                out@ == before + record@.subrange(0, j as int),
            decreases record@.len() - j,
        {
            out.push(record[j]);
            j = j + 1;
            assert(out@ =~= before + record@.subrange(0, j as int));
        }
        proof {
            lemma_payload_push(readings@.subrange(0, i as int), readings@[i as int], order);
            assert(readings@.subrange(0, i + 1) =~= readings@.subrange(0, i as int).push(
                readings@[i as int],
            ));
            assert(record@.subrange(0, 4) =~= record@);
        }
        i = i + 1;
    }
    proof {
        assert(readings@.subrange(0, i as int) =~= readings@);
        lemma_payload_records(readings@, order);
    }
    out
}

/// The readings held by `payload`, one for each four-byte record, or an
/// error when the last record is cut short.
pub fn decode_payload(payload: &[u8], order: ByteOrder) -> (r: Result<Vec<Sensor>, PayloadError>)
    ensures
        r is Err <==> payload@.len() % 4 != 0,
        r matches Err(e) ==> e == PayloadError::PartialRecord,
        r matches Ok(v) ==> v@ == payload_decoding(payload@, order),
        r matches Ok(v) ==> payload_encoding(v@, order) == payload@,
{
    if payload.len() % RECORD_LEN != 0 {
        return Err(PayloadError::PartialRecord);
    }
    let n = payload.len() / RECORD_LEN;
    let mut out: Vec<Sensor> = Vec::new();
    let mut i: usize = 0;
    while i < n
        invariant
            n == payload@.len() / 4,
            payload@.len() % 4 == 0,
            payload@.len() <= usize::MAX,
            i <= n,
            out@ == payload_decoding(payload@, order).subrange(0, i as int),
        decreases n - i,
    {
        assert(4 * i + 4 <= payload@.len()) by (nonlinear_arith)
            requires
                i < n,
                n == payload@.len() / 4,
        ;
        let start = i * RECORD_LEN;
        let mut record: Vec<u8> = Vec::new();
        let mut j: usize = 0;
        while j < RECORD_LEN
            invariant
                j <= 4,
                start == 4 * i,
                start + 4 <= payload@.len(),
                i < n,
                n == payload@.len() / 4,
                record@ == payload@.subrange(start as int, start + j),
            decreases 4 - j,
        {
            record.push(payload[start + j]);
            j = j + 1;
            assert(record@ =~= payload@.subrange(start as int, start + j));
        }
        let s = Sensor::from_bytes(record.as_slice(), order);
        out.push(s);
        i = i + 1;
        assert(out@ =~= payload_decoding(payload@, order).subrange(0, i as int));
    }
    assert(out@ =~= payload_decoding(payload@, order));
    proof {
        lemma_payload_encode_decode(payload@, order);
    }
    Ok(out)
}

} // verus!
