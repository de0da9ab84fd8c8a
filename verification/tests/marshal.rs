use medea_rtc::marshal::{mid_extension, test_payload, MarshalBytes, PAYLOAD_LEN};

#[test]
fn extension_is_written_to_the_front() {
    let m = MarshalBytes::new(&[1, 2, 3]);
    assert_eq!(m.marshal_size(), 3);
    let mut buf = [9; 5];
    assert_eq!(m.marshal_to(&mut buf), 3);
    assert_eq!(buf, [1, 2, 3, 9, 9]);
}

#[test]
fn empty_extension_writes_nothing() {
    let m = MarshalBytes::new(&[]);
    assert_eq!(m.marshal_size(), 0);
    assert_eq!(m.marshal_to(&mut []), 0);
}

#[test]
fn media_identification_is_a_zero() {
    let m = mid_extension();
    let mut buf = [0; 1];
    assert_eq!(m.marshal_to(&mut buf), 1);
    assert_eq!(&buf, b"0");
}

#[test]
fn payload_counts_up() {
    let payload = test_payload();
    assert_eq!(payload.len(), PAYLOAD_LEN);
    assert_eq!(payload.len(), 1000);
    assert_eq!(payload[0], 0);
    assert_eq!(payload[254], 254);
    assert_eq!(payload[255], 0);
    assert_eq!(payload[999], 234);
}
