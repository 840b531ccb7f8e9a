use vibe_rt::{bcmp, c_bytes, memcmp, memcpy, memmove, memset, strlen};

#[test]
fn supplies_compiler_memory_intrinsics() {
    let mut bytes = [0_u8; 6];
    let length = bytes.len();
    memset(&mut bytes, 7, length);
    assert_eq!(bytes, [7; 6]);

    let source = [1_u8, 2, 3];
    memcpy(&mut bytes, &source, source.len());
    assert_eq!(bytes, [1, 2, 3, 7, 7, 7]);

    memmove(&mut bytes, 1, 0, 5);
    assert_eq!(bytes, [1, 1, 2, 3, 7, 7]);

    assert_eq!(memcmp(b"abc", b"abc", 3), 0);
    assert!(memcmp(b"abc", b"abd", 3) < 0);
    assert_eq!(bcmp(b"abc", b"abc", 3), 0);
    assert_ne!(bcmp(b"abc", b"abd", 3), 0);

    assert_eq!(strlen(b"vibe\0"), 4);
}

#[test]
fn memset_uses_the_low_byte_and_stops_at_count() {
    let mut bytes = [9_u8; 5];
    memset(&mut bytes, 0x1ff, 3);
    assert_eq!(bytes, [0xff, 0xff, 0xff, 9, 9]);
    memset(&mut bytes, 0, 0);
    assert_eq!(bytes, [0xff, 0xff, 0xff, 9, 9]);
}

#[test]
fn memcpy_copies_only_count_bytes() {
    let mut bytes = [0_u8; 4];
    memcpy(&mut bytes, &[5, 6, 7, 8, 9], 2);
    assert_eq!(bytes, [5, 6, 0, 0]);
}

#[test]
fn memmove_handles_both_overlap_directions() {
    let mut forward = [1_u8, 2, 3, 4, 5, 6];
    memmove(&mut forward, 0, 2, 4);
    assert_eq!(forward, [3, 4, 5, 6, 5, 6]);

    let mut backward = [1_u8, 2, 3, 4, 5, 6];
    memmove(&mut backward, 2, 0, 4);
    assert_eq!(backward, [1, 2, 1, 2, 3, 4]);

    let mut apart = [1_u8, 2, 3, 4, 5, 6];
    memmove(&mut apart, 4, 0, 2);
    assert_eq!(apart, [1, 2, 3, 4, 1, 2]);
}

#[test]
fn memcmp_reports_the_first_difference() {
    assert_eq!(memcmp(b"abc", b"abd", 3), -1);
    assert_eq!(memcmp(b"abd", b"abc", 3), 1);
    assert_eq!(memcmp(b"a\xff", b"a\x00", 2), 255);
    assert_eq!(memcmp(b"xyz", b"abc", 0), 0);
    assert_eq!(memcmp(b"abcX", b"abcY", 3), 0);
    assert_eq!(memcmp(b"zb", b"ab", 2), 25);
}

#[test]
fn compare_is_antisymmetric_on_examples() {
    let pairs: [(&[u8], &[u8]); 3] = [(b"abc", b"abd"), (b"q", b"q"), (b"\x00\x10", b"\x00\x01")];
    for (left, right) in pairs {
        assert_eq!(memcmp(left, right, left.len()), -memcmp(right, left, left.len()));
    }
}

#[test]
fn strlen_stops_at_the_first_nul() {
    assert_eq!(strlen(b"\0"), 0);
    assert_eq!(strlen(b"ab\0cd\0"), 2);
    assert_eq!(c_bytes(b"vibe\0rest"), b"vibe");
    assert_eq!(c_bytes(b"\0"), b"");
    let text = b"runtime\0tail\0";
    assert_eq!(c_bytes(text).len(), strlen(text));
}
