use gnunet::bytes::{append, copy_range, find_nul, same_bytes};
use gnunet::keys::PeerIdentity;
use gnunet::transport::{
    self_hello, start_message, TransportService, TransportServiceInitError, MESSAGE_TYPE_HELLO,
    MESSAGE_TYPE_TRANSPORT_START,
};

#[test]
fn transport_type_codes() {
    assert_eq!(MESSAGE_TYPE_HELLO, 17);
    assert_eq!(MESSAGE_TYPE_TRANSPORT_START, 360);
}

#[test]
fn start_frame_layout() {
    let mut expected = vec![0, 40, 0x01, 0x68, 0, 0, 0, 0];
    expected.extend_from_slice(&[0u8; 32]);
    assert_eq!(TransportService::start_frame(), expected);
}

#[test]
fn start_message_carries_options_and_peer() {
    let frame = start_message(0x01020304, &PeerIdentity { bytes: [0xee; 32] });
    let mut expected = vec![0, 40, 0x01, 0x68, 1, 2, 3, 4];
    expected.extend_from_slice(&[0xee; 32]);
    assert_eq!(frame, expected);
}

#[test]
fn init_takes_hello_only() {
    let service = TransportService::init(17, &[1, 2, 3]).unwrap();
    assert_eq!(service.into_hello(), vec![1, 2, 3]);
    assert_eq!(
        TransportService::init(16, &[1, 2, 3]),
        Err(TransportServiceInitError::NonHelloMessage { ty: 16 })
    );
}

#[test]
fn self_hello_hands_out_the_body() {
    assert_eq!(self_hello(17, &[9, 8]), Ok(vec![9, 8]));
    assert_eq!(self_hello(17, &[]), Ok(vec![]));
    assert_eq!(
        self_hello(360, &[9, 8]),
        Err(TransportServiceInitError::NonHelloMessage { ty: 360 })
    );
}

#[test]
fn byte_helpers() {
    let mut v = vec![1u8, 2];
    append(&mut v, &[3, 4]);
    append(&mut v, &[]);
    assert_eq!(v, vec![1, 2, 3, 4]);
    assert_eq!(copy_range(&v, 1, 3), vec![2, 3]);
    assert_eq!(copy_range(&v, 2, 2), Vec::<u8>::new());
    assert!(same_bytes(&[1, 2], &[1, 2]));
    assert!(!same_bytes(&[1, 2], &[1, 3]));
    assert!(!same_bytes(&[1, 2], &[1, 2, 3]));
    assert!(same_bytes(&[], &[]));
    assert_eq!(find_nul(&[1, 0, 2, 0], 0), 1);
    assert_eq!(find_nul(&[1, 0, 2, 0], 2), 3);
    assert_eq!(find_nul(&[1, 2], 0), 2);
    assert_eq!(find_nul(&[1, 2], 2), 2);
}
