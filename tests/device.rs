use iot_comm::codec::{decode_payload, ByteOrder, Sensor};
use iot_comm::device::{humidity_bits, temperature_bits, Controller, ID_LEN, ZONES};

fn value(bits: u16) -> f32 {
    half::f16::from_bits(bits).to_f32()
}

fn assert_in_range(s: &Sensor) {
    let t = value(s.temperature);
    let h = value(s.humidity);
    assert!((40.0..50.0).contains(&t), "temperature {}", t);
    assert!((10.0..20.0).contains(&h), "humidity {}", h);
}

#[test]
fn temperature_grid_values() {
    assert_eq!(temperature_bits(0), 0x5100);
    assert_eq!(value(temperature_bits(0)), 40.0);
    assert_eq!(value(temperature_bits(16)), 40.5);
    assert_eq!(value(temperature_bits(319)), 49.96875);
}

#[test]
fn humidity_grid_values() {
    assert_eq!(value(humidity_bits(0)), 10.0);
    assert_eq!(value(humidity_bits(1)), 10.015625);
    assert_eq!(value(humidity_bits(383)), 15.984375);
    assert_eq!(value(humidity_bits(384)), 16.0);
    assert_eq!(value(humidity_bits(639)), 19.984375);
}

#[test]
fn humidity_grid_is_evenly_spaced() {
    for j in 0u16..640 {
        assert_eq!(value(humidity_bits(j)), 10.0 + j as f32 / 64.0);
    }
    for k in 0u16..320 {
        assert_eq!(value(temperature_bits(k)), 40.0 + k as f32 / 32.0);
    }
}

#[test]
fn sensor_new_and_update_in_range() {
    for _ in 0..200 {
        let mut s = Sensor::new();
        assert_in_range(&s);
        s.update();
        assert_in_range(&s);
    }
}

#[test]
fn controller_new_identity() {
    let c = Controller::new();
    assert_eq!(c.id.chars().count(), ID_LEN);
    assert!(c.id.chars().all(|ch| ch.is_ascii_alphanumeric() || ch == '_' || ch == '-'));
    assert_eq!(c.sensors().len(), ZONES);
    assert_eq!(c.order(), ByteOrder::native());
    let other = Controller::new();
    assert_ne!(c.id, other.id);
}

#[test]
fn sensor_data_is_thirty_two_bytes_in_range() {
    let mut c = Controller::new();
    let id = c.id.clone();
    for _ in 0..50 {
        let data = c.sensor_data();
        assert_eq!(data.len(), 32);
        assert_eq!(c.id, id);
        let decoded = decode_payload(&data, c.order()).unwrap();
        assert_eq!(&decoded, c.sensors());
        for s in decoded.iter() {
            assert_in_range(s);
        }
    }
}
