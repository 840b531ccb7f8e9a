use vstd::prelude::*;
use crate::errno::{Errno, Result, spec_decode, decode, EIO};

verus! {

/// Writing a whole buffer of `length` bytes with repeated `write` calls, of
/// which the first `offset` bytes are written; some bytes are always left.
pub struct WriteAll {
    length: usize,
    offset: usize,
}

/// Where writing a buffer stands after a `write` returned.
pub enum WriteProgress {
    /// Bytes are left: the next `write` starts at the state's offset.
    Pending(WriteAll),
    /// It is over: all bytes were written, or the error that stopped it.
    Done(Result<()>),
}

/// How writing the bytes from `offset` of a buffer of `length` bytes ends
/// when the `write` calls return `replies` in turn; `None` while bytes are
/// left after the last reply.
pub open spec fn spec_write_outcome(length: int, offset: int, replies: Seq<isize>) -> Option<
    Result<()>,
>
    decreases replies.len(),
{
    if replies.len() == 0 {
        None
    } else {
        match spec_decode(replies[0]) {
            Err(error) => Some(Err(error)),
            Ok(written) => if written == 0 {
                Some(Err(Errno(EIO)))
            } else if offset + written == length {
                Some(Ok(()))
            } else {
                spec_write_outcome(length, offset + written, replies.drop_first())
            },
        }
    }
}

/// The sum of the counts in `counts`.
pub open spec fn spec_total(counts: Seq<isize>) -> int
    decreases counts.len(),
{
    if counts.len() == 0 {
        0
    } else {
        counts[0] + spec_total(counts.drop_first())
    }
}

impl WriteAll {
    #[verifier::type_invariant]
    spec fn bytes_left(self) -> bool {
        self.offset < self.length
    }

    /// The size of the buffer.
    pub closed spec fn spec_length(self) -> nat {
        self.length as nat
    }

    /// How many bytes at its start are written.
    pub closed spec fn spec_offset(self) -> nat {
        self.offset as nat
    }

    /// The size of the buffer.
    pub fn length(&self) -> (length: usize)
        ensures
            length == self.spec_length(),
    {
        self.length
    }

    /// How many bytes at the start of the buffer are written: the next
    /// `write` is given the bytes from here to the end.
    pub fn offset(&self) -> (offset: usize)
        ensures
            offset == self.spec_offset(),
            offset < self.spec_length(),
    {
        proof {
            use_type_invariant(self);
        }
        self.offset
    }

    /// Takes the raw return value of a `write` of the bytes from the offset
    /// to the end: an error ends the writing with that error, a write of no
    /// byte ends it with `EIO`, and a write of the last bytes ends it with
    /// success; otherwise the offset advances by the bytes written.
    pub fn resume(self, reply: isize) -> (progress: WriteProgress)
        requires
            reply != isize::MIN,
            reply <= self.spec_length() - self.spec_offset(),
        ensures
            match spec_decode(reply) {
                Err(error) => progress == WriteProgress::Done(Err(error)),
                Ok(written) => if written == 0 {
                    progress == WriteProgress::Done(Err(Errno(EIO)))
                } else if self.spec_offset() + written == self.spec_length() {
                    progress == WriteProgress::Done(Ok(()))
                } else {
                    progress matches WriteProgress::Pending(next) && next.spec_length()
                        == self.spec_length() && next.spec_offset() == self.spec_offset()
                        + written
                },
            },
            forall|rest: Seq<isize>|
                #![trigger spec_write_outcome(
                    self.spec_length() as int,
                    self.spec_offset() as int,
                    seq![reply] + rest,
                )]
                spec_write_outcome(
                    self.spec_length() as int,
                    self.spec_offset() as int,
                    seq![reply] + rest,
                ) == match progress {
                    WriteProgress::Done(outcome) => Some(outcome),
                    WriteProgress::Pending(next) => spec_write_outcome(
                        next.spec_length() as int,
                        next.spec_offset() as int,
                        rest,
                    ),
                },
    {
        proof {
            use_type_invariant(&self);
            assert forall|rest: Seq<isize>| #[trigger] (seq![reply] + rest).drop_first() == rest by {
                assert((seq![reply] + rest).drop_first() =~= rest);
            }
        }
        match decode(reply) {
            Err(error) => WriteProgress::Done(Err(error)),
            Ok(written) => {
                if written == 0 {
                    WriteProgress::Done(Err(Errno(EIO)))
                } else if written == self.length - self.offset {
                    WriteProgress::Done(Ok(()))
                } else {
                    WriteProgress::Pending(
                        WriteAll { length: self.length, offset: self.offset + written },
                    )
                }
            },
        }
    }
}

/// Starts writing a whole buffer of `length` bytes: an empty buffer is
/// written at once, any other starts at its first byte.
pub fn write_all(length: usize) -> (progress: WriteProgress)
    ensures
        length == 0 ==> progress == WriteProgress::Done(Ok(())),
        length > 0 ==> (progress matches WriteProgress::Pending(state) && state.spec_length()
            == length && state.spec_offset() == 0),
{
    if length == 0 {
        WriteProgress::Done(Ok(()))
    } else {
        WriteProgress::Pending(WriteAll { length, offset: 0 })
    }
}

/// Writing succeeds once the `write` calls, each writing at least one byte,
/// have written as many bytes as were left.
pub proof fn lemma_write_all_completes(length: int, offset: int, replies: Seq<isize>)
    requires
        offset < length,
        replies.len() > 0,
        forall|i: int| 0 <= i < replies.len() ==> #[trigger] replies[i] > 0,
        spec_total(replies) == length - offset,
    ensures
        spec_write_outcome(length, offset, replies) == Some(Ok::<(), Errno>(())),
    decreases replies.len(),
{
    let rest = replies.drop_first();
    assert(replies[0] > 0);
    assert(spec_decode(replies[0]) == Ok::<usize, Errno>(replies[0] as usize));
    if replies.len() > 1 {
        lemma_total_positive(rest);
        assert forall|i: int| 0 <= i < rest.len() implies #[trigger] rest[i] > 0 by {
            assert(replies[i + 1] > 0);
        }
        lemma_write_all_completes(length, offset + replies[0], rest);
    } else {
        assert(rest.len() == 0);
        assert(spec_total(rest) == 0);
    }
}

proof fn lemma_total_positive(counts: Seq<isize>)
    requires
        counts.len() > 0,
        forall|i: int| 0 <= i < counts.len() ==> #[trigger] counts[i] > 0,
    ensures
        spec_total(counts) > 0,
    decreases counts.len(),
{
    let rest = counts.drop_first();
    assert(counts[0] > 0);
    if rest.len() > 0 {
        assert forall|i: int| 0 <= i < rest.len() implies #[trigger] rest[i] > 0 by {
            assert(counts[i + 1] > 0);
        }
        lemma_total_positive(rest);
    } else {
        assert(spec_total(rest) == 0);
    }
}

/// Writing succeeds only when some first `count` replies each wrote at least
/// one byte and together wrote exactly the bytes that were left.
pub proof fn lemma_write_all_succeeds_only_when_complete(
    length: int,
    offset: int,
    replies: Seq<isize>,
)
    requires
        spec_write_outcome(length, offset, replies) == Some(Ok::<(), Errno>(())),
    ensures
        exists|count: int|
            0 < count <= replies.len() && spec_total(#[trigger] replies.take(count)) == length
                - offset && forall|i: int| 0 <= i < count ==> #[trigger] replies[i] > 0,
    decreases replies.len(),
{
    let first = replies[0];
    let rest = replies.drop_first();
    if first as int + offset == length {
        let one = replies.take(1);
        assert(one.drop_first().len() == 0);
        assert(spec_total(one.drop_first()) == 0);
        assert(one[0] == first);
        assert(spec_total(one) == first);
    } else {
        lemma_write_all_succeeds_only_when_complete(length, offset + first, rest);
        let count = choose|count: int|
            0 < count <= rest.len() && spec_total(#[trigger] rest.take(count)) == length - (
            offset + first) && forall|i: int| 0 <= i < count ==> #[trigger] rest[i] > 0;
        let taken = replies.take(count + 1);
        assert(taken.drop_first() =~= rest.take(count));
        assert(taken[0] == first);
        assert forall|i: int| 0 <= i < count + 1 implies #[trigger] replies[i] > 0 by {
            if i > 0 {
                assert(replies[i] == rest[i - 1]);
            }
        }
    }
}

} // verus!

