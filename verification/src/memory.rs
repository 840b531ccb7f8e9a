use vstd::prelude::*;

verus! {

/// `bytes` with the `count` bytes at `at` replaced by `fill`.
pub open spec fn spec_overwrite(bytes: Seq<u8>, at: int, fill: Seq<u8>) -> Seq<u8> {
    bytes.take(at) + fill + bytes.skip(at + fill.len())
}

/// Overwriting keeps the length, puts `fill` at `at`, and leaves every
/// other byte as it was.
pub proof fn lemma_overwrite_meaning(bytes: Seq<u8>, at: int, fill: Seq<u8>)
    requires
        0 <= at,
        at + fill.len() <= bytes.len(),
    ensures
        spec_overwrite(bytes, at, fill).len() == bytes.len(),
        forall|i: int|
            at <= i < at + fill.len() ==> #[trigger] spec_overwrite(bytes, at, fill)[i] == fill[i
                - at],
        forall|i: int|
            0 <= i < bytes.len() && !(at <= i < at + fill.len()) ==> #[trigger] spec_overwrite(
                bytes,
                at,
                fill,
            )[i] == bytes[i],
{
}

/// Fills the first `count` bytes of `destination` with the low byte of `value`.
pub fn memset(destination: &mut [u8], value: i32, count: usize)
    requires
        count <= old(destination)@.len(),
    ensures
        final(destination)@ == spec_overwrite(
            old(destination)@,
            0,
            Seq::new(count as nat, |i: int| value as u8),
        ),
        final(destination)@.len() == old(destination)@.len(),
        forall|i: int| 0 <= i < count ==> #[trigger] final(destination)@[i] == value as u8,
        forall|i: int|
            count <= i < old(destination)@.len() ==> #[trigger] final(destination)@[i] == old(
                destination,
            )@[i],
{
    let byte = value as u8;
    let mut offset: usize = 0;
    while offset < count
        invariant
            count <= destination@.len(),
            destination@.len() == old(destination)@.len(),
            offset <= count,
            forall|i: int| 0 <= i < offset ==> destination@[i] == byte,
            forall|i: int| offset <= i < destination@.len() ==> destination@[i] == old(destination)@[i],
        decreases count - offset,
    {
        destination[offset] = byte;
        offset = offset + 1;
    }
    assert(destination@ =~= spec_overwrite(
        old(destination)@,
        0,
        Seq::new(count as nat, |i: int| value as u8),
    ));
}

/// Copies the first `count` bytes of `source` to the start of `destination`.
pub fn memcpy(destination: &mut [u8], source: &[u8], count: usize)
    requires
        count <= old(destination)@.len(),
        count <= source@.len(),
    ensures
        final(destination)@ == spec_overwrite(old(destination)@, 0, source@.take(count as int)),
        final(destination)@.len() == old(destination)@.len(),
        forall|i: int| 0 <= i < count ==> #[trigger] final(destination)@[i] == source@[i],
        forall|i: int|
            count <= i < old(destination)@.len() ==> #[trigger] final(destination)@[i] == old(
                destination,
            )@[i],
{
    let mut offset: usize = 0;
    while offset < count
        invariant
            count <= destination@.len(),
            count <= source@.len(),
            destination@.len() == old(destination)@.len(),
            offset <= count,
            forall|i: int| 0 <= i < offset ==> destination@[i] == source@[i],
            forall|i: int| offset <= i < destination@.len() ==> destination@[i] == old(destination)@[i],
        decreases count - offset,
    {
        destination[offset] = source[offset];
        offset = offset + 1;
    }
    assert(destination@ =~= spec_overwrite(old(destination)@, 0, source@.take(count as int)));
}

/// Moves `count` bytes inside `buffer` from offset `source` to offset
/// `destination`; the two ranges may overlap.
pub fn memmove(buffer: &mut [u8], destination: usize, source: usize, count: usize)
    requires
        destination + count <= old(buffer)@.len(),
        source + count <= old(buffer)@.len(),
    ensures
        final(buffer)@ == spec_overwrite(
            old(buffer)@,
            destination as int,
            old(buffer)@.subrange(source as int, source + count),
        ),
        final(buffer)@.len() == old(buffer)@.len(),
        forall|i: int|
            destination <= i < destination + count ==> #[trigger] final(buffer)@[i] == old(
                buffer,
            )@[i - destination + source],
        forall|i: int|
            0 <= i < old(buffer)@.len() && !(destination <= i < destination + count)
                ==> #[trigger] final(buffer)@[i] == old(buffer)@[i],
{
    let ghost original = buffer@;
    let length = buffer.len();
    if destination <= source {
        let mut offset: usize = 0;
        while offset < count
            invariant
                destination <= source,
                destination + count <= original.len(),
                source + count <= original.len(),
                buffer@.len() == original.len(),
                length == original.len(),
                offset <= count,
                forall|i: int|
                    destination <= i < destination + offset ==> #[trigger] buffer@[i] == original[i
                        - destination + source],
                forall|i: int|
                    0 <= i < original.len() && !(destination <= i < destination + offset)
                        ==> buffer@[i] == original[i],
            decreases count - offset,
        {
            let byte = buffer[source + offset];
            buffer[destination + offset] = byte;
            offset = offset + 1;
        }
    } else {
        let mut remaining: usize = count;
        while remaining > 0
            invariant
                source < destination,
                destination + count <= original.len(),
                source + count <= original.len(),
                buffer@.len() == original.len(),
                length == original.len(),
                remaining <= count,
                forall|i: int|
                    destination + remaining <= i < destination + count ==> #[trigger] buffer@[i]
                        == original[i - destination + source],
                forall|i: int|
                    0 <= i < original.len() && !(destination + remaining <= i < destination + count)
                        ==> buffer@[i] == original[i],
            decreases remaining,
        {
            remaining = remaining - 1;
            let byte = buffer[source + remaining];
            buffer[destination + remaining] = byte;
        }
    }
    assert(buffer@ =~= spec_overwrite(
        original,
        destination as int,
        original.subrange(source as int, source + count),
    ));
}

/// The C comparison of two equally long byte strings: the difference of the
/// first pair of bytes that differ, or zero when there is none.
pub open spec fn spec_compare(left: Seq<u8>, right: Seq<u8>) -> int
    recommends
        left.len() == right.len(),
    decreases left.len(),
{
    if left.len() == 0 || right.len() == 0 {
        0
    } else if left[0] != right[0] {
        left[0] - right[0]
    } else {
        spec_compare(left.drop_first(), right.drop_first())
    }
}

/// The first `count` bytes of `bytes`.
pub open spec fn spec_prefix(bytes: Seq<u8>, count: usize) -> Seq<u8> {
    bytes.take(count as int)
}

/// The bytes of `bytes` from offset `from` up to offset `to`.
pub open spec fn spec_window(bytes: Seq<u8>, from: usize, to: usize) -> Seq<u8> {
    bytes.subrange(from as int, to as int)
}

/// The signed difference of two bytes.
fn byte_difference(left: u8, right: u8) -> (difference: i32)
    ensures
        difference == left - right,
{
    left as i32 - right as i32
}

proof fn lemma_window_step(bytes: Seq<u8>, from: usize, to: usize)
    requires
        from < to <= bytes.len(),
    ensures
        spec_window(bytes, from, to).len() > 0,
        spec_window(bytes, from, to)[0] == bytes[from as int],
        spec_window(bytes, from, to).drop_first() =~= spec_window(bytes, (from + 1) as usize, to),
{
}

proof fn lemma_window_whole(bytes: Seq<u8>, to: usize)
    requires
        to <= bytes.len(),
    ensures
        spec_window(bytes, 0, to) =~= spec_prefix(bytes, to),
        spec_window(bytes, to, to).len() == 0,
{
}

/// Compares the first `count` bytes of `left` and `right`.
pub fn memcmp(left: &[u8], right: &[u8], count: usize) -> (difference: i32)
    requires
        count <= left@.len(),
        count <= right@.len(),
    ensures
        difference == spec_compare(spec_prefix(left@, count), spec_prefix(right@, count)),
{
    proof {
        lemma_window_whole(left@, count);
        lemma_window_whole(right@, count);
    }
    let mut offset: usize = 0;
    while offset < count
        invariant
            count <= left@.len(),
            count <= right@.len(),
            offset <= count,
            spec_compare(spec_prefix(left@, count), spec_prefix(right@, count)) == spec_compare(
                spec_window(left@, offset, count),
                spec_window(right@, offset, count),
            ),
        decreases count - offset,
    {
        let l = left[offset];
        let r = right[offset];
        proof {
            lemma_window_step(left@, offset, count);
            lemma_window_step(right@, offset, count);
        }
        if l != r {
            return byte_difference(l, r);
        }
        offset = offset + 1;
    }
    proof {
        lemma_window_whole(left@, count);
    }
    0
}

/// Reports whether the first `count` bytes of `left` and `right` differ:
/// zero exactly when they are equal.
pub fn bcmp(left: &[u8], right: &[u8], count: usize) -> (difference: i32)
    requires
        count <= left@.len(),
        count <= right@.len(),
    ensures
        difference == spec_compare(spec_prefix(left@, count), spec_prefix(right@, count)),
{
    memcmp(left, right, count)
}

/// `bytes` holds a NUL byte.
pub open spec fn spec_has_nul(bytes: Seq<u8>) -> bool {
    exists|i: int| 0 <= i < bytes.len() && bytes[i] == 0
}

/// `length` is the position of the first NUL byte of `bytes`.
pub open spec fn spec_nul_at(bytes: Seq<u8>, length: int) -> bool {
    &&& 0 <= length < bytes.len()
    &&& bytes[length] == 0
    &&& forall|i: int| 0 <= i < length ==> bytes[i] != 0
}

/// The length of the NUL-terminated string at the start of `value`.
pub fn strlen(value: &[u8]) -> (length: usize)
    requires
        spec_has_nul(value@),
    ensures
        spec_nul_at(value@, length as int),
        length < value@.len(),
        value@[length as int] == 0,
        forall|i: int| 0 <= i < length ==> #[trigger] value@[i] != 0,
{
    let mut length: usize = 0;
    while value[length] != 0
        invariant
            spec_has_nul(value@),
            length < value@.len(),
            forall|i: int| 0 <= i < length ==> value@[i] != 0,
        decreases value@.len() - length,
    {
        length = length + 1;
        assert(length < value@.len()) by {
            let k = choose|i: int| 0 <= i < value@.len() && value@[i] == 0;
            assert(k >= length);
        }
    }
    length
}

/// The bytes of the NUL-terminated string at the start of `value`, without the NUL.
pub fn c_bytes(value: &[u8]) -> (string: &[u8])
    requires
        spec_has_nul(value@),
    ensures
        spec_nul_at(value@, string@.len() as int),
        string@ == value@.take(string@.len() as int),
        string@.len() < value@.len(),
        value@[string@.len() as int] == 0,
        forall|i: int| 0 <= i < string@.len() ==> #[trigger] string@[i] != 0 && string@[i]
            == value@[i],
{
    let length = strlen(value);
    vstd::slice::slice_subrange(value, 0, length)
}

/// Two byte strings of one length compare as zero exactly when they are equal.
pub proof fn lemma_compare_zero_iff_equal(left: Seq<u8>, right: Seq<u8>)
    requires
        left.len() == right.len(),
    ensures
        (spec_compare(left, right) == 0) <==> (left == right),
    decreases left.len(),
{
    if left.len() > 0 {
        lemma_compare_zero_iff_equal(left.drop_first(), right.drop_first());
        if left[0] == right[0] && left.drop_first() == right.drop_first() {
            assert(left =~= right) by {
                assert forall|i: int| 0 <= i < left.len() implies left[i] == right[i] by {
                    if i > 0 {
                        assert(left[i] == left.drop_first()[i - 1]);
                        assert(right[i] == right.drop_first()[i - 1]);
                    }
                }
            }
        }
        if left == right {
            assert(left.drop_first() =~= right.drop_first());
        }
    } else {
        assert(left =~= right);
    }
}

/// Swapping the operands of a comparison negates its result.
pub proof fn lemma_compare_antisymmetric(left: Seq<u8>, right: Seq<u8>)
    ensures
        spec_compare(left, right) == -spec_compare(right, left),
    decreases left.len(),
{
    if left.len() > 0 && right.len() > 0 && left[0] == right[0] {
        lemma_compare_antisymmetric(left.drop_first(), right.drop_first());
    }
}

/// The comparison is decided by the first position where the strings differ:
/// it is negative exactly when the left byte there is the smaller one.
pub proof fn lemma_compare_first_difference(left: Seq<u8>, right: Seq<u8>, at: int)
    requires
        left.len() == right.len(),
        0 <= at < left.len(),
        left[at] != right[at],
        forall|i: int| 0 <= i < at ==> left[i] == right[i],
    ensures
        spec_compare(left, right) == left[at] - right[at],
        (spec_compare(left, right) < 0) <==> (left[at] < right[at]),
    decreases at,
{
    if at > 0 {
        assert forall|i: int| 0 <= i < at - 1 implies left.drop_first()[i] == right.drop_first()[i] by {
            assert(left[i + 1] == right[i + 1]);
        }
        lemma_compare_first_difference(left.drop_first(), right.drop_first(), at - 1);
        assert(left[0] == right[0]);
    }
}

/// A string has one length: the first NUL byte is at one position, so
/// `strlen` and the length of `c_bytes` agree.
pub proof fn lemma_nul_position_unique(bytes: Seq<u8>, first: int, second: int)
    requires
        spec_nul_at(bytes, first),
        spec_nul_at(bytes, second),
    ensures
        first == second,
{
    if first < second {
        assert(bytes[first] == 0);
    } else if second < first {
        assert(bytes[second] == 0);
    }
}

} // verus!

