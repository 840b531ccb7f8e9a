use vstd::prelude::*;
use vstd::bytes::spec_u64_to_le_bytes;
use vstd::bytes::spec_u64_from_le_bytes;

verus! {

/// The IPv4 address family.
pub const AF_INET: u16 = 2;

/// `count` zero bytes.
pub open spec fn spec_zeros(count: nat) -> Seq<u8> {
    Seq::new(count, |i: int| 0u8)
}

/// The bytes of Linux's `sockaddr_in` for `address:port` on x86_64: the
/// family in native (little-endian) order, the port in network (big-endian)
/// order, the four address bytes, and eight bytes of zero padding.
pub open spec fn spec_socket_address(address: Seq<u8>, port: u16) -> Seq<u8> {
    seq![AF_INET as u8, 0u8, (port / 256) as u8, (port % 256) as u8] + address + spec_zeros(8)
}

/// The encoded `sockaddr_in` is 16 bytes: the family `AF_INET` in
/// little-endian order, the port in big-endian order, the four address
/// bytes in the order given, then zeros.
pub proof fn lemma_socket_address_fields(address: Seq<u8>, port: u16)
    requires
        address.len() == 4,
    ensures
        spec_socket_address(address, port).len() == 16,
        spec_socket_address(address, port)[0] == AF_INET,
        spec_socket_address(address, port)[1] == 0,
        spec_socket_address(address, port)[2] * 256 + spec_socket_address(address, port)[3]
            == port,
        spec_socket_address(address, port).subrange(4, 8) == address,
        forall|i: int| 8 <= i < 16 ==> #[trigger] spec_socket_address(address, port)[i] == 0,
{
    assert(spec_socket_address(address, port).subrange(4, 8) =~= address);
}

/// Encodes `address:port` as Linux's `sockaddr_in`.
pub fn socket_address(address: [u8; 4], port: u16) -> (bytes: [u8; 16])
    ensures
        bytes@ == spec_socket_address(address@, port),
        bytes@[0] == AF_INET && bytes@[1] == 0,
        bytes@[2] * 256 + bytes@[3] == port,
        bytes@.subrange(4, 8) == address@,
        forall|i: int| 8 <= i < 16 ==> #[trigger] bytes@[i] == 0,
{
    proof {
        lemma_socket_address_fields(address@, port);
    }
    let high = (port / 256) as u8;
    let low = (port % 256) as u8;
    let bytes = [
        2u8, 0u8, high, low, address[0], address[1], address[2], address[3],
        0u8, 0u8, 0u8, 0u8, 0u8, 0u8, 0u8, 0u8,
    ];
    assert(bytes@ =~= spec_socket_address(address@, port));
    bytes
}

/// The bytes of Linux's `timeval` and `timespec` on x86_64 for a whole number
/// of seconds: the seconds as a little-endian 64-bit integer, then a zero
/// sub-second field.
pub open spec fn spec_time_value(seconds: i64) -> Seq<u8> {
    spec_u64_to_le_bytes(seconds as u64) + spec_zeros(8)
}

/// The encoded duration is 16 bytes whose first 8 read back, as a
/// little-endian 64-bit integer, as the seconds, and whose last 8 are zero.
pub proof fn lemma_time_value_fields(seconds: i64)
    ensures
        spec_time_value(seconds).len() == 16,
        spec_u64_from_le_bytes(spec_time_value(seconds).take(8)) == seconds as u64,
        forall|i: int| 8 <= i < 16 ==> #[trigger] spec_time_value(seconds)[i] == 0,
{
    vstd::bytes::lemma_auto_spec_u64_to_from_le_bytes();
    assert(spec_time_value(seconds).take(8) =~= spec_u64_to_le_bytes(seconds as u64));
}

/// Encodes a duration of `seconds` whole seconds as `timeval`/`timespec`.
pub fn time_value(seconds: i64) -> (bytes: Vec<u8>)
    ensures
        bytes@ == spec_time_value(seconds),
        bytes@.len() == 16,
        spec_u64_from_le_bytes(bytes@.take(8)) == seconds as u64,
        forall|i: int| 8 <= i < 16 ==> #[trigger] bytes@[i] == 0,
{
    let mut bytes = vstd::bytes::u64_to_le_bytes(seconds as u64);
    let ghost field = bytes@;
    let mut index: usize = 0;
    while index < 8
        invariant
            index <= 8,
            field.len() == 8,
            bytes@ == field + spec_zeros(index as nat),
        decreases 8 - index,
    {
        bytes.push(0u8);
        index = index + 1;
        assert(bytes@ =~= field + spec_zeros(index as nat));
    }
    proof {
        vstd::bytes::lemma_auto_spec_u64_to_from_le_bytes();
        assert(bytes@.take(8) =~= spec_u64_to_le_bytes(seconds as u64));
    }
    bytes
}

/// Where the entry stack holds the argument and environment pointer arrays.
pub struct EntryLayout {
    /// First word of the argument pointers, counted from the stack pointer.
    pub arguments: usize,
    /// First word of the environment pointers, counted from the first
    /// argument pointer.
    pub environment: usize,
}

/// The layout of the stack that Linux hands an ELF process at entry, given
/// its first word `argc`: `argc` argument pointers follow `argc`, then a null
/// word, then the environment pointers.
pub fn entry_layout(argc: usize) -> (layout: EntryLayout)
    requires
        argc < usize::MAX,
    ensures
        layout.arguments == 1,
        layout.environment == argc + 1,
{
    EntryLayout { arguments: 1, environment: argc + 1 }
}

} // verus!
