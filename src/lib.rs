//! Telemetry for simulated field controllers: the fixed-width sensor record
//! codec, the controller model that produces payloads, and the decision a
//! broker worker takes on each request it receives.

pub mod codec;
pub mod device;
pub mod worker;
