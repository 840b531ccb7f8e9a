use vibe_rt::{socket_address, time_value};

#[test]
fn socket_address_matches_sockaddr_in() {
    assert_eq!(
        socket_address([127, 0, 0, 1], 8080),
        [2, 0, 0x1f, 0x90, 127, 0, 0, 1, 0, 0, 0, 0, 0, 0, 0, 0]
    );
    assert_eq!(
        socket_address([0, 0, 0, 0], 0),
        [2, 0, 0, 0, 0, 0, 0, 0, 0, 0, 0, 0, 0, 0, 0, 0]
    );
    let bytes = socket_address([10, 1, 2, 3], 65535);
    assert_eq!(&bytes[2..4], &65535_u16.to_be_bytes());
}

#[test]
fn time_value_matches_timeval_layout() {
    let bytes = time_value(1);
    assert_eq!(bytes, vec![1, 0, 0, 0, 0, 0, 0, 0, 0, 0, 0, 0, 0, 0, 0, 0]);
    let bytes = time_value(0x0102_0304_0506_0708);
    assert_eq!(&bytes[..8], &0x0102_0304_0506_0708_i64.to_le_bytes());
    assert_eq!(&bytes[8..], &[0; 8]);
    let bytes = time_value(-1);
    assert_eq!(&bytes[..8], &[0xff; 8]);
    assert_eq!(i64::from_le_bytes(bytes[..8].try_into().unwrap()), -1);
}
