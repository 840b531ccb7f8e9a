//! The verified core of a minimal x86_64 Linux userspace runtime: decoding of
//! raw system call results, the byte layouts the kernel reads, the decisions
//! of multi-call operations (socket setup, writing a whole buffer), process
//! argument and environment lookup, and the memory routines that libc-free
//! binaries need.
pub mod errno;
pub mod layout;
pub mod memory;
pub mod socket;
pub mod startup;
pub mod write;

pub use errno::{
    decode, decode_current_dir, decode_descriptor, decode_fork, decode_unit, decode_wait, Errno,
    Fork, Result,
};
pub use layout::{entry_layout, socket_address, time_value, EntryLayout};
pub use memory::{bcmp, c_bytes, memcmp, memcpy, memmove, memset, strlen};
pub use socket::{tcp_connect, tcp_listener, udp_connect, SocketCall, SocketProgress, SocketSetup};
pub use startup::{Args, Env};
pub use write::{write_all, WriteAll, WriteProgress};
