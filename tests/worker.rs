use iot_comm::codec::{encode_payload, ByteOrder, Sensor};
use iot_comm::worker::{handle_request, WorkerAction, ACK};

#[test]
fn ack_is_letter_r() {
    assert_eq!(ACK, b'R');
}

#[test]
fn zero_payload_is_logged_and_acknowledged() {
    let frames = vec![b"abc".to_vec(), vec![0u8; 32]];
    match handle_request(frames, ByteOrder::native()) {
        WorkerAction::Reply { identity, readings, frames } => {
            assert_eq!(identity, b"abc".to_vec());
            assert_eq!(readings.len(), 8);
            for r in readings.iter() {
                assert_eq!(*r, Sensor { temperature: 0, humidity: 0 });
            }
            assert_eq!(frames, vec![b"abc".to_vec(), b"R".to_vec()]);
        }
        _ => panic!("expected a reply"),
    }
}

#[test]
fn partial_record_is_discarded() {
    let frames = vec![b"dev".to_vec(), vec![0u8; 31]];
    match handle_request(frames, ByteOrder::Little) {
        WorkerAction::Discard { identity, length } => {
            assert_eq!(identity, b"dev".to_vec());
            assert_eq!(length, 31);
        }
        _ => panic!("expected a discard"),
    }
}

#[test]
fn missing_payload_frame_is_malformed() {
    assert!(matches!(
        handle_request(vec![b"dev".to_vec()], ByteOrder::Little),
        WorkerAction::Malformed { frame_count: 1 }
    ));
    assert!(matches!(
        handle_request(vec![b"a".to_vec(), vec![], vec![]], ByteOrder::Little),
        WorkerAction::Malformed { frame_count: 3 }
    ));
}

#[test]
fn replies_keep_each_identity() {
    let order = ByteOrder::native();
    for n in 0u16..12 {
        let identity = format!("device-{}", n).into_bytes();
        for k in 0u16..3 {
            let readings = vec![Sensor { temperature: n, humidity: k }];
            let payload = encode_payload(&readings, order);
            match handle_request(vec![identity.clone(), payload], order) {
                WorkerAction::Reply { identity: id, readings: got, frames } => {
                    assert_eq!(id, identity);
                    assert_eq!(got, readings);
                    assert_eq!(frames[0], identity);
                    assert_eq!(frames[1], vec![ACK]);
                }
                _ => panic!("expected a reply"),
            }
        }
    }
}
