//! A simulated field controller: an identity token and a fixed set of zones,
//! each holding one sensor reading that is resampled on every telemetry cycle.
//!
//! Readings are drawn on a grid of half-precision values: temperatures from
//! 40 up to 50 in steps of 1/32, humidities from 10 up to 20 in steps of 1/64.
//! Each grid point is exactly representable, so a reading's bits hold the
//! sampled value without rounding.
use vstd::prelude::*;
use vstd::arithmetic::power2::pow2;
use rand::Rng;
use crate::codec::{ByteOrder, Sensor, encode_payload, payload_encoding};

verus! {

/// The number of zones of a controller.
pub const ZONES: usize = 8;

/// The number of characters of a controller's identity token.
pub const ID_LEN: usize = 21;

/// The number of temperature grid points: 40 up to 50 in steps of 1/32.
pub const TEMPERATURE_STEPS: u16 = 320;

/// The number of humidity grid points: 10 up to 20 in steps of 1/64.
pub const HUMIDITY_STEPS: u16 = 640;

/// The biased exponent field of half-precision bits.
pub open spec fn half_exponent(bits: u16) -> int {
    (bits as int / 1024) % 32
}

/// The mantissa field of half-precision bits.
pub open spec fn half_mantissa(bits: u16) -> int {
    bits as int % 1024
}

/// Whether half-precision bits stand for a finite value with the sign clear.
pub open spec fn half_nonneg_finite(bits: u16) -> bool {
    bits < 0x7c00
}

/// The value of non-negative finite half-precision bits, times 2^24 (an
/// integer for every such value).
pub open spec fn half_scaled(bits: u16) -> int {
    if half_exponent(bits) == 0 {
        half_mantissa(bits)
    } else {
        pow2((half_exponent(bits) - 1) as nat) * (1024 + half_mantissa(bits))
    }
}

/// The scale of `half_scaled`: 2^24.
pub open spec fn half_unit() -> int {
    0x100_0000
}

/// Whether bits stand for a temperature in [40, 50).
pub open spec fn temperature_in_range(bits: u16) -> bool {
    &&& half_nonneg_finite(bits)
    &&& 40 * half_unit() <= half_scaled(bits) < 50 * half_unit()
}

/// Whether bits stand for a humidity in [10, 20).
pub open spec fn humidity_in_range(bits: u16) -> bool {
    &&& half_nonneg_finite(bits)
    &&& 10 * half_unit() <= half_scaled(bits) < 20 * half_unit()
}

/// Whether both values of a reading lie in their ranges.
pub open spec fn reading_in_range(s: Sensor) -> bool {
    temperature_in_range(s.temperature) && humidity_in_range(s.humidity)
}

/// Whether a character belongs to the URL-safe alphabet of identity tokens.
pub open spec fn is_url_safe(c: char) -> bool {
    ('a' <= c && c <= 'z') || ('A' <= c && c <= 'Z') || ('0' <= c && c <= '9') || c == '_'
        || c == '-'
}

/// Relies on rand::thread_rng and Rng::gen_range: a value drawn from
/// `0..bound`, which must not be empty.
#[verifier::external_body]
fn random_below(bound: u16) -> (r: u16)
    requires
        bound > 0,
    ensures
        r < bound,
{
    rand::thread_rng().gen_range(0..bound)
}

/// Relies on nanoid::format with nanoid's default generator and its SAFE
/// alphabet: `size` characters, each from that URL-safe alphabet. The call
/// returns only once it has `size` characters, so `size` must be positive.
#[verifier::external_body]
fn random_id(size: usize) -> (r: String)
    requires
        0 < size <= usize::MAX / 8,
    ensures
        r@.len() == size,
        forall|i: int| 0 <= i < r@.len() ==> is_url_safe(#[trigger] r@[i]),
{
    nanoid::format(nanoid::rngs::default, &nanoid::alphabet::SAFE, size)
}

/// The bits of the temperature at grid point `k`: 40 + k/32.
pub fn temperature_bits(k: u16) -> (r: u16)
    requires
        k < TEMPERATURE_STEPS,
    ensures
        temperature_in_range(r),
        half_scaled(r) == 40 * half_unit() + k * 0x8_0000,
{
    let r = 0x5100 + k;
    proof {
        vstd::arithmetic::power2::lemma2_to64();
        assert(half_exponent(r) == 20);
        assert(half_mantissa(r) == 256 + k);
        assert(pow2((half_exponent(r) - 1) as nat) == 0x8_0000);
        assert(half_scaled(r) == 0x8_0000 * (1280 + k));
    }
    r
}

/// The bits of the humidity at grid point `j`: 10 + j/64.
pub fn humidity_bits(j: u16) -> (r: u16)
    requires
        j < HUMIDITY_STEPS,
    ensures
        humidity_in_range(r),
        half_scaled(r) == 10 * half_unit() + j * 0x4_0000,
{
    proof {
        vstd::arithmetic::power2::lemma2_to64();
    }
    if j < 384 {
        let r = 0x4900 + 2 * j;
        assert(half_exponent(r) == 18);
        assert(half_mantissa(r) == 256 + 2 * j);
        assert(pow2((half_exponent(r) - 1) as nat) == 0x2_0000);
        assert(half_scaled(r) == 0x2_0000 * (1280 + 2 * j));
        r
    } else {
        let r = 0x4c00 + (j - 384);
        assert(half_exponent(r) == 19);
        assert(half_mantissa(r) == j - 384);
        assert(pow2((half_exponent(r) - 1) as nat) == 0x4_0000);
        assert(half_scaled(r) == 0x4_0000 * (640 + j));
        r
    }
}

impl Sensor {
    /// A reading drawn at random: temperature in [40, 50), humidity in [10, 20).
    pub fn new() -> (r: Sensor)
        ensures
            reading_in_range(r),
    {
        let k = random_below(TEMPERATURE_STEPS);
        let j = random_below(HUMIDITY_STEPS);
        Sensor { temperature: temperature_bits(k), humidity: humidity_bits(j) }
    }

    /// Resamples both values in place, within the same ranges.
    pub fn update(&mut self)
        ensures
            reading_in_range(*final(self)),
    {
        let k = random_below(TEMPERATURE_STEPS);
        let j = random_below(HUMIDITY_STEPS);
        self.temperature = temperature_bits(k);
        self.humidity = humidity_bits(j);
    }
}

/// A simulated controller: its identity, the byte order of the machine it
/// reports from, and one reading for each zone.
pub struct Controller {
    /// The identity token under which the controller connects.
    pub id: String,
    sensors: Vec<Sensor>,
    order: ByteOrder,
}

impl Controller {
    /// The readings of the zones, in zone order.
    pub closed spec fn readings(&self) -> Seq<Sensor> {
        self.sensors@
    }

    /// The controller's identity token.
    pub closed spec fn identity(&self) -> Seq<char> {
        self.id@
    }

    /// The byte order in which the controller encodes its readings.
    pub closed spec fn byte_order(&self) -> ByteOrder {
        self.order
    }

    /// One reading for each zone, each within its ranges.
    pub open spec fn wf(&self) -> bool {
        &&& self.readings().len() == ZONES
        &&& forall|i: int| 0 <= i < self.readings().len() ==> reading_in_range(#[trigger] self.readings()[i])
    }

    /// A controller with a fresh random identity token and a random reading in
    /// each zone.
    pub fn new() -> (r: Controller)
        ensures
            r.wf(),
            r.identity().len() == ID_LEN,
            forall|i: int| 0 <= i < r.identity().len() ==> is_url_safe(#[trigger] r.identity()[i]),
    {
        let mut sensors: Vec<Sensor> = Vec::new();
        let mut i: usize = 0;
        while i < ZONES
            invariant
                i <= ZONES,
                sensors@.len() == i,
                forall|z: int| 0 <= z < i ==> reading_in_range(#[trigger] sensors@[z]),
            decreases ZONES - i,
        {
            sensors.push(Sensor::new());
            i = i + 1;
        }
        Controller { id: random_id(ID_LEN), sensors, order: ByteOrder::native() }
    }

    /// The readings of the zones, in zone order.
    pub fn sensors(&self) -> (r: &Vec<Sensor>)
        ensures
            r@ == self.readings(),
    {
        &self.sensors
    }

    /// The byte order in which the controller encodes its readings.
    pub fn order(&self) -> (r: ByteOrder)
        ensures
            r == self.byte_order(),
    {
        self.order
    }

    /// Resamples every zone's reading in place and returns the telemetry
    /// payload: the encodings of the new readings in zone order.
    pub fn sensor_data(&mut self) -> (r: Vec<u8>)
        requires
            old(self).wf(),
        ensures
            final(self).wf(),
            final(self).identity() == old(self).identity(),
            final(self).byte_order() == old(self).byte_order(),
            r@ == payload_encoding(final(self).readings(), final(self).byte_order()),
            r@.len() == 4 * ZONES,
    {
        let mut i: usize = 0;
        while i < self.sensors.len()
            invariant
                self.sensors@.len() == ZONES,
                i <= ZONES,
                self.id == old(self).id,
                self.order == old(self).order,
                forall|z: int| 0 <= z < i ==> reading_in_range(#[trigger] self.sensors@[z]),
            decreases ZONES - i,
        {
            let mut s = self.sensors[i];
            s.update();
            self.sensors.set(i, s);
            i = i + 1;
        }
        encode_payload(&self.sensors, self.order)
    }
}

} // verus!
