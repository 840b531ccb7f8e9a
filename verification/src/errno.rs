use vstd::prelude::*;

verus! {

/// A raw Linux error number, as the kernel reports it.
#[derive(Clone, Copy, Debug, PartialEq, Eq, Structural)]
pub struct Errno(pub i32);

/// The result of a system call: a value, or the kernel's error number.
pub type Result<T> = core::result::Result<T, Errno>;

/// The error number carried by a raw return value `value < 0`.
pub open spec fn spec_errno_of(value: isize) -> i32 {
    (-value) as i32
}

/// What a raw x86_64 Linux system call return value means: a negative value
/// `-e` is the error `e`; any other value is the call's result.
pub open spec fn spec_decode(value: isize) -> Result<usize> {
    if value < 0 {
        Err(Errno(spec_errno_of(value)))
    } else {
        Ok(value as usize)
    }
}

/// A negative reply decodes to the error number it carries, and only a
/// non-negative reply decodes to a value, which is the reply itself.
pub proof fn lemma_decode_meaning(value: isize)
    ensures
        value < 0 ==> spec_decode(value) == Err::<usize, Errno>(Errno((-value) as i32)),
        value >= 0 ==> spec_decode(value) == Ok::<usize, Errno>(value as usize),
        spec_decode(value) is Ok <==> value >= 0,
        spec_decode(value) matches Ok(n) ==> n == value,
{
}

/// Decodes a raw system call return value.
pub fn decode(value: isize) -> (result: Result<usize>)
    requires
        value != isize::MIN,
    ensures
        result == spec_decode(value),
        value < 0 ==> result == Err::<usize, Errno>(Errno((-value) as i32)),
        value >= 0 ==> result == Ok::<usize, Errno>(value as usize),
{
    proof {
        lemma_decode_meaning(value);
    }
    if value < 0 {
        Err(Errno((-value) as i32))
    } else {
        Ok(value as usize)
    }
}

/// Decodes the return value of a call whose only result is success.
pub fn decode_unit(value: isize) -> (result: Result<()>)
    requires
        value != isize::MIN,
    ensures
        match spec_decode(value) {
            Ok(_) => result == Ok::<(), Errno>(()),
            Err(error) => result == Err::<(), Errno>(error),
        },
{
    match decode(value) {
        Ok(_) => Ok(()),
        Err(error) => Err(error),
    }
}

/// Decodes the return value of a call that yields a file descriptor.
pub fn decode_descriptor(value: isize) -> (result: Result<i32>)
    requires
        value != isize::MIN,
    ensures
        match spec_decode(value) {
            Ok(fd) => result == Ok::<i32, Errno>(fd as i32),
            Err(error) => result == Err::<i32, Errno>(error),
        },
{
    match decode(value) {
        Ok(fd) => Ok(fd as i32),
        Err(error) => Err(error),
    }
}

/// Which side of a `fork` a process is on.
#[derive(Clone, Copy, Debug, PartialEq, Eq, Structural)]
pub enum Fork {
    /// The parent, with the child's process ID.
    Parent(i32),
    /// The child.
    Child,
}

/// Decodes the return value of `fork`: zero in the child, the child's
/// process ID in the parent.
pub fn decode_fork(value: isize) -> (result: Result<Fork>)
    requires
        value != isize::MIN,
    ensures
        match spec_decode(value) {
            Ok(pid) => result == Ok::<Fork, Errno>(
                if pid == 0 {
                    Fork::Child
                } else {
                    Fork::Parent(pid as i32)
                },
            ),
            Err(error) => result == Err::<Fork, Errno>(error),
        },
{
    match decode(value) {
        Ok(pid) => {
            if pid == 0 {
                Ok(Fork::Child)
            } else {
                Ok(Fork::Parent(pid as i32))
            }
        },
        Err(error) => Err(error),
    }
}

/// Decodes the return value of `wait4`, given the status word it stored:
/// the ID of the child that changed state, with that status.
pub fn decode_wait(value: isize, status: i32) -> (result: Result<(i32, i32)>)
    requires
        value != isize::MIN,
    ensures
        match spec_decode(value) {
            Ok(pid) => result == Ok::<(i32, i32), Errno>((pid as i32, status)),
            Err(error) => result == Err::<(i32, i32), Errno>(error),
        },
{
    match decode(value) {
        Ok(pid) => Ok((pid as i32, status)),
        Err(error) => Err(error),
    }
}

/// The error number of `EIO`, the input/output error.
pub const EIO: i32 = 5;

/// Decodes the return value of `getcwd` into `buffer`: the length of the
/// path it stored, with its terminating NUL. A reply without that NUL is
/// `EIO`; otherwise the path is the bytes before the NUL.
pub fn decode_current_dir(buffer: &[u8], value: isize) -> (result: Result<&[u8]>)
    requires
        value != isize::MIN,
        value <= buffer@.len(),
    ensures
        match spec_decode(value) {
            Err(error) => result matches Err(e) && e == error,
            Ok(length) => if length == 0 || buffer@[length - 1] != 0 {
                result matches Err(e) && e == Errno(EIO)
            } else {
                result matches Ok(path) && path@ == buffer@.take(length - 1)
            },
        },
{
    let length = decode(value)?;
    if length == 0 || buffer[length - 1] != 0 {
        return Err(Errno(EIO));
    }
    Ok(vstd::slice::slice_subrange(buffer, 0, length - 1))
}

} // verus!

