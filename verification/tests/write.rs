use vibe_rt::{write_all, Errno, WriteAll, WriteProgress};

fn pending(progress: WriteProgress) -> WriteAll {
    match progress {
        WriteProgress::Pending(state) => state,
        WriteProgress::Done(_) => panic!("writing ended early"),
    }
}

fn done(progress: WriteProgress) -> Result<(), Errno> {
    match progress {
        WriteProgress::Done(result) => result,
        WriteProgress::Pending(_) => panic!("writing still pending"),
    }
}

#[test]
fn empty_buffer_is_written_at_once() {
    assert_eq!(done(write_all(0)), Ok(()));
}

#[test]
fn partial_writes_continue_where_the_last_ended() {
    let state = pending(write_all(9));
    assert_eq!((state.offset(), state.length()), (0, 9));
    let state = pending(state.resume(4));
    assert_eq!(state.offset(), 4);
    let state = pending(state.resume(1));
    assert_eq!(state.offset(), 5);
    assert_eq!(done(state.resume(4)), Ok(()));
}

#[test]
fn a_write_of_nothing_is_an_io_error() {
    let state = pending(write_all(3));
    assert_eq!(done(state.resume(0)), Err(Errno(5)));
}

#[test]
fn a_failed_write_ends_with_its_error() {
    let state = pending(pending(write_all(3)).resume(1));
    assert_eq!(done(state.resume(-32)), Err(Errno(32)));
}
