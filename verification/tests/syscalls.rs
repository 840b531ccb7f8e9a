use vibe_rt::{
    decode, decode_current_dir, decode_descriptor, decode_fork, decode_unit, decode_wait, Errno,
    Fork,
};

#[test]
fn decodes_linux_syscall_results() {
    assert_eq!(decode(7), Ok(7));
    assert_eq!(decode(-2), Err(Errno(2)));
}

#[test]
fn decodes_zero_and_large_results() {
    assert_eq!(decode(0), Ok(0));
    assert_eq!(decode(isize::MAX), Ok(isize::MAX as usize));
    assert_eq!(decode(-4095), Err(Errno(4095)));
    assert_eq!(decode(isize::MIN + 1), Err(Errno((isize::MAX) as i32)));
}

#[test]
fn decodes_unit_results() {
    assert_eq!(decode_unit(0), Ok(()));
    assert_eq!(decode_unit(3), Ok(()));
    assert_eq!(decode_unit(-9), Err(Errno(9)));
}

#[test]
fn decodes_descriptors() {
    assert_eq!(decode_descriptor(3), Ok(3));
    assert_eq!(decode_descriptor(-24), Err(Errno(24)));
}

#[test]
fn decodes_fork_sides() {
    assert_eq!(decode_fork(0), Ok(Fork::Child));
    assert_eq!(decode_fork(4242), Ok(Fork::Parent(4242)));
    assert_eq!(decode_fork(-11), Err(Errno(11)));
}

#[test]
fn decodes_wait_results() {
    assert_eq!(decode_wait(77, 256), Ok((77, 256)));
    assert_eq!(decode_wait(-10, 0), Err(Errno(10)));
}

#[test]
fn decodes_current_directory() {
    let buffer = *b"/tmp\0xyz";
    assert_eq!(decode_current_dir(&buffer, 5), Ok(&b"/tmp"[..]));
    assert_eq!(decode_current_dir(&buffer, 4), Err(Errno(5)));
    assert_eq!(decode_current_dir(&buffer, 0), Err(Errno(5)));
    assert_eq!(decode_current_dir(&buffer, -34), Err(Errno(34)));
    assert_eq!(decode_current_dir(b"/\0", 2), Ok(&b"/"[..]));
}
