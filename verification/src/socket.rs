use vstd::prelude::*;
use crate::errno::{Errno, Result, spec_decode, decode};
use crate::layout::AF_INET;

verus! {

/// `SOCK_STREAM`: a TCP socket.
pub const SOCK_STREAM: usize = 1;
/// `SOCK_DGRAM`: a UDP socket.
pub const SOCK_DGRAM: usize = 2;
/// `SOL_SOCKET`: options of the socket layer.
pub const SOL_SOCKET: usize = 1;
/// `SO_REUSEADDR`: allow rebinding a recently used local address.
pub const SO_REUSEADDR: usize = 2;
/// `SO_RCVTIMEO`: the timeout of blocking reads.
pub const SO_RCVTIMEO: usize = 20;
/// The length of the queue of pending connections of a listener.
pub const LISTEN_BACKLOG: usize = 16;

/// What a socket is being set up for.
#[derive(Clone, Copy)]
pub enum SocketPlan {
    /// A TCP socket listening on `port` of every local IPv4 address.
    Listener { port: u16 },
    /// A socket of type `kind` connected to `address:port`.
    Connection { kind: usize, address: [u8; 4], port: u16 },
}

/// A system call that setting up a socket asks for. Addresses are given as
/// the IPv4 address and port that `layout::socket_address` encodes.
#[derive(Clone, Copy)]
pub enum SocketCall {
    /// `socket(domain, kind, protocol)`
    Open { domain: usize, kind: usize, protocol: usize },
    /// `setsockopt(fd, level, name, &value, 4)`
    SetOption { fd: i32, level: usize, name: usize, value: i32 },
    /// `bind(fd, sockaddr_in(address, port), 16)`
    Bind { fd: i32, address: [u8; 4], port: u16 },
    /// `listen(fd, backlog)`
    Listen { fd: i32, backlog: usize },
    /// `connect(fd, sockaddr_in(address, port), 16)`
    Connect { fd: i32, address: [u8; 4], port: u16 },
    /// `close(fd)`
    Close { fd: i32 },
}

/// A socket being set up: which system call it waits on.
#[derive(Clone, Copy)]
pub enum SocketSetup {
    /// Creating the socket.
    Opening { plan: SocketPlan },
    /// Allowing the listener's address to be reused.
    ReusingAddress { fd: i32, port: u16 },
    /// Binding the listener to its port.
    Binding { fd: i32, port: u16 },
    /// Making the socket listen.
    Listening { fd: i32 },
    /// Connecting the socket to its peer.
    Connecting { fd: i32, address: [u8; 4], port: u16 },
    /// Closing the socket after `error`; the setup then fails with `error`.
    Closing { fd: i32, error: Errno },
}

/// Where a setup stands after a system call returned.
#[derive(Clone, Copy)]
pub enum SocketProgress {
    /// It waits on another system call.
    Pending(SocketSetup),
    /// It is over: the socket's descriptor, or the error that stopped it.
    Done(Result<i32>),
}

/// The socket type that a plan creates.
pub open spec fn spec_kind(plan: SocketPlan) -> usize {
    match plan {
        SocketPlan::Listener { .. } => SOCK_STREAM,
        SocketPlan::Connection { kind, .. } => kind,
    }
}

/// The system call that a setup waits on.
pub open spec fn spec_call(setup: SocketSetup) -> SocketCall {
    match setup {
        SocketSetup::Opening { plan } => SocketCall::Open {
            domain: AF_INET as usize,
            kind: spec_kind(plan),
            protocol: 0,
        },
        SocketSetup::ReusingAddress { fd, .. } => SocketCall::SetOption {
            fd,
            level: SOL_SOCKET,
            name: SO_REUSEADDR,
            value: 1,
        },
        SocketSetup::Binding { fd, port } => SocketCall::Bind { fd, address: [0u8, 0u8, 0u8, 0u8], port },
        SocketSetup::Listening { fd } => SocketCall::Listen { fd, backlog: LISTEN_BACKLOG },
        SocketSetup::Connecting { fd, address, port } => SocketCall::Connect { fd, address, port },
        SocketSetup::Closing { fd, .. } => SocketCall::Close { fd },
    }
}

/// The stage that follows a created socket `fd`.
pub open spec fn spec_opened(plan: SocketPlan, fd: i32) -> SocketSetup {
    match plan {
        SocketPlan::Listener { port } => SocketSetup::ReusingAddress { fd, port },
        SocketPlan::Connection { address, port, .. } => SocketSetup::Connecting {
            fd,
            address,
            port,
        },
    }
}

/// Where a setup stands after its system call returned `reply`: a failure
/// before the socket exists ends the setup; a failure after it closes the
/// socket first; a success moves to the next call, and the last success ends
/// the setup with the socket's descriptor.
pub open spec fn spec_resume(setup: SocketSetup, reply: isize) -> SocketProgress {
    match setup {
        SocketSetup::Opening { plan } => match spec_decode(reply) {
            Err(error) => SocketProgress::Done(Err(error)),
            Ok(fd) => SocketProgress::Pending(spec_opened(plan, fd as i32)),
        },
        SocketSetup::ReusingAddress { fd, port } => match spec_decode(reply) {
            Err(error) => SocketProgress::Pending(SocketSetup::Closing { fd, error }),
            Ok(_) => SocketProgress::Pending(SocketSetup::Binding { fd, port }),
        },
        SocketSetup::Binding { fd, .. } => match spec_decode(reply) {
            Err(error) => SocketProgress::Pending(SocketSetup::Closing { fd, error }),
            Ok(_) => SocketProgress::Pending(SocketSetup::Listening { fd }),
        },
        SocketSetup::Listening { fd } => match spec_decode(reply) {
            Err(error) => SocketProgress::Pending(SocketSetup::Closing { fd, error }),
            Ok(_) => SocketProgress::Done(Ok(fd)),
        },
        SocketSetup::Connecting { fd, .. } => match spec_decode(reply) {
            Err(error) => SocketProgress::Pending(SocketSetup::Closing { fd, error }),
            Ok(_) => SocketProgress::Done(Ok(fd)),
        },
        SocketSetup::Closing { error, .. } => SocketProgress::Done(Err(error)),
    }
}

/// Starts setting up a TCP socket that listens on `port` of every local
/// IPv4 address, with address reuse enabled.
pub fn tcp_listener(port: u16) -> (setup: SocketSetup)
    ensures
        setup == (SocketSetup::Opening { plan: SocketPlan::Listener { port } }),
{
    SocketSetup::Opening { plan: SocketPlan::Listener { port } }
}

/// Starts setting up a socket of type `kind` connected to `address:port`.
fn connect_socket(kind: usize, address: [u8; 4], port: u16) -> (setup: SocketSetup)
    ensures
        setup == (SocketSetup::Opening { plan: SocketPlan::Connection { kind, address, port } }),
{
    SocketSetup::Opening { plan: SocketPlan::Connection { kind, address, port } }
}

/// Starts setting up a TCP socket connected to `address:port`.
pub fn tcp_connect(address: [u8; 4], port: u16) -> (setup: SocketSetup)
    ensures
        setup == (SocketSetup::Opening {
            plan: SocketPlan::Connection { kind: SOCK_STREAM, address, port },
        }),
{
    connect_socket(SOCK_STREAM, address, port)
}

/// Starts setting up a UDP socket connected to `address:port`.
pub fn udp_connect(address: [u8; 4], port: u16) -> (setup: SocketSetup)
    ensures
        setup == (SocketSetup::Opening {
            plan: SocketPlan::Connection { kind: SOCK_DGRAM, address, port },
        }),
{
    connect_socket(SOCK_DGRAM, address, port)
}

impl SocketSetup {
    /// The system call this setup waits on.
    pub fn call(&self) -> (call: SocketCall)
        ensures
            call == spec_call(*self),
    {
        match *self {
            SocketSetup::Opening { plan } => {
                let kind = match plan {
                    SocketPlan::Listener { .. } => SOCK_STREAM,
                    SocketPlan::Connection { kind, .. } => kind,
                };
                SocketCall::Open { domain: 2, kind, protocol: 0 }
            },
            SocketSetup::ReusingAddress { fd, .. } => SocketCall::SetOption {
                fd,
                level: SOL_SOCKET,
                name: SO_REUSEADDR,
                value: 1,
            },
            SocketSetup::Binding { fd, port } => SocketCall::Bind {
                fd,
                address: [0u8, 0u8, 0u8, 0u8],
                port,
            },
            SocketSetup::Listening { fd } => SocketCall::Listen { fd, backlog: LISTEN_BACKLOG },
            SocketSetup::Connecting { fd, address, port } => SocketCall::Connect {
                fd,
                address,
                port,
            },
            SocketSetup::Closing { fd, .. } => SocketCall::Close { fd },
        }
    }

    /// Takes the raw return value of the call this setup waited on.
    pub fn resume(self, reply: isize) -> (progress: SocketProgress)
        requires
            reply != isize::MIN,
        ensures
            progress == spec_resume(self, reply),
    {
        let outcome = decode(reply);
        match self {
            SocketSetup::Opening { plan } => match outcome {
                Err(error) => SocketProgress::Done(Err(error)),
                Ok(fd) => {
                    let fd = fd as i32;
                    match plan {
                        SocketPlan::Listener { port } => SocketProgress::Pending(
                            SocketSetup::ReusingAddress { fd, port },
                        ),
                        SocketPlan::Connection { address, port, .. } => SocketProgress::Pending(
                            SocketSetup::Connecting { fd, address, port },
                        ),
                    }
                },
            },
            SocketSetup::ReusingAddress { fd, port } => match outcome {
                Err(error) => SocketProgress::Pending(SocketSetup::Closing { fd, error }),
                Ok(_) => SocketProgress::Pending(SocketSetup::Binding { fd, port }),
            },
            SocketSetup::Binding { fd, .. } => match outcome {
                Err(error) => SocketProgress::Pending(SocketSetup::Closing { fd, error }),
                Ok(_) => SocketProgress::Pending(SocketSetup::Listening { fd }),
            },
            SocketSetup::Listening { fd } => match outcome {
                Err(error) => SocketProgress::Pending(SocketSetup::Closing { fd, error }),
                Ok(_) => SocketProgress::Done(Ok(fd)),
            },
            SocketSetup::Connecting { fd, .. } => match outcome {
                Err(error) => SocketProgress::Pending(SocketSetup::Closing { fd, error }),
                Ok(_) => SocketProgress::Done(Ok(fd)),
            },
            SocketSetup::Closing { error, .. } => SocketProgress::Done(Err(error)),
        }
    }
}

/// The calls a setup makes and how it ends, when its calls return `replies`
/// in turn; the outcome is `None` while the setup still waits.
pub open spec fn spec_run(setup: SocketSetup, replies: Seq<isize>) -> (Seq<SocketCall>, Option<Result<i32>>)
    decreases replies.len(),
{
    if replies.len() == 0 {
        (Seq::empty(), None)
    } else {
        match spec_resume(setup, replies[0]) {
            SocketProgress::Done(outcome) => (seq![spec_call(setup)], Some(outcome)),
            SocketProgress::Pending(next) => {
                let (calls, outcome) = spec_run(next, replies.drop_first());
                (seq![spec_call(setup)] + calls, outcome)
            },
        }
    }
}

/// The socket a setup holds, once it was created.
pub open spec fn spec_descriptor(setup: SocketSetup) -> Option<i32> {
    match setup {
        SocketSetup::Opening { .. } => None,
        SocketSetup::ReusingAddress { fd, .. } => Some(fd),
        SocketSetup::Binding { fd, .. } => Some(fd),
        SocketSetup::Listening { fd } => Some(fd),
        SocketSetup::Connecting { fd, .. } => Some(fd),
        SocketSetup::Closing { fd, .. } => Some(fd),
    }
}

/// Once the socket exists, a failed call closes it, and the setup then fails
/// with that call's error, whatever `close` returns.
pub proof fn lemma_failure_closes_socket(setup: SocketSetup, reply: isize, closed: isize)
    requires
        spec_descriptor(setup) is Some,
        !(setup is Closing),
        spec_decode(reply) is Err,
    ensures
        ({
            let fd = spec_descriptor(setup).unwrap();
            let error = spec_decode(reply)->Err_0;
            &&& spec_resume(setup, reply) == SocketProgress::Pending(
                SocketSetup::Closing { fd, error },
            )
            &&& spec_call(SocketSetup::Closing { fd, error }) == SocketCall::Close { fd }
            &&& spec_resume(SocketSetup::Closing { fd, error }, closed) == SocketProgress::Done(
                Err(error),
            )
        }),
{
}

/// Connecting a socket of type `kind` to `address:port` creates the socket,
/// connects it, and yields its descriptor; if the socket cannot be created
/// the setup fails at once, and if it cannot connect the socket is closed
/// and the setup fails with the error of `connect`.
pub proof fn lemma_connect_run(
    kind: usize,
    address: [u8; 4],
    port: u16,
    opened: isize,
    connected: isize,
    closed: isize,
)
    ensures
        ({
            let setup = SocketSetup::Opening {
                plan: SocketPlan::Connection { kind, address, port },
            };
            let open = SocketCall::Open { domain: AF_INET as usize, kind, protocol: 0 };
            match spec_decode(opened) {
                Err(error) => spec_run(setup, seq![opened]) == (seq![open], Some(
                    Err::<i32, Errno>(error),
                )),
                Ok(n) => {
                    let fd = n as i32;
                    let connect = SocketCall::Connect { fd, address, port };
                    match spec_decode(connected) {
                        Ok(_) => spec_run(setup, seq![opened, connected]) == (
                            seq![open, connect],
                            Some(Ok::<i32, Errno>(fd)),
                        ),
                        Err(error) => spec_run(setup, seq![opened, connected, closed]) == (
                            seq![open, connect, SocketCall::Close { fd }],
                            Some(Err::<i32, Errno>(error)),
                        ),
                    }
                },
            }
        }),
{
    let setup = SocketSetup::Opening { plan: SocketPlan::Connection { kind, address, port } };
    let empty = Seq::<isize>::empty();
    lemma_run_step(setup, opened, empty);
    assert(seq![opened] + empty =~= seq![opened]);
    if let Ok(n) = spec_decode(opened) {
        let connecting = SocketSetup::Connecting { fd: n as i32, address, port };
        match spec_decode(connected) {
            Ok(_) => {
                lemma_run_step(connecting, connected, empty);
                lemma_run_step(setup, opened, seq![connected]);
                assert(seq![connected] + empty =~= seq![connected]);
                assert(seq![opened] + seq![connected] =~= seq![opened, connected]);
            },
            Err(error) => {
                let closing = SocketSetup::Closing { fd: n as i32, error };
                lemma_run_step(closing, closed, empty);
                lemma_run_step(connecting, connected, seq![closed]);
                lemma_run_step(setup, opened, seq![connected, closed]);
                assert(seq![closed] + empty =~= seq![closed]);
                assert(seq![connected] + seq![closed] =~= seq![connected, closed]);
                assert(seq![opened] + seq![connected, closed] =~= seq![opened, connected, closed]);
            },
        }
    }
}

proof fn lemma_run_step(setup: SocketSetup, reply: isize, rest: Seq<isize>)
    ensures
        spec_run(setup, seq![reply] + rest) == match spec_resume(setup, reply) {
            SocketProgress::Done(outcome) => (seq![spec_call(setup)], Some(outcome)),
            SocketProgress::Pending(next) => (
                seq![spec_call(setup)] + spec_run(next, rest).0,
                spec_run(next, rest).1,
            ),
        },
{
    assert((seq![reply] + rest).drop_first() =~= rest);
    assert((seq![reply] + rest)[0] == reply);
}

/// Setting up a listener on `port` creates a TCP socket, enables address
/// reuse, binds it to `port` of every local address and makes it listen,
/// then yields its descriptor; a failure to create the socket ends the
/// setup at once, and any later failure closes the socket and fails with
/// that call's error.
pub proof fn lemma_listener_run(
    port: u16,
    opened: isize,
    reused: isize,
    bound: isize,
    listened: isize,
    closed: isize,
)
    ensures
        ({
            let setup = SocketSetup::Opening { plan: SocketPlan::Listener { port } };
            let open = SocketCall::Open { domain: AF_INET as usize, kind: SOCK_STREAM, protocol: 0 };
            match spec_decode(opened) {
                Err(error) => spec_run(setup, seq![opened]) == (seq![open], Some(
                    Err::<i32, Errno>(error),
                )),
                Ok(n) => {
                    let fd = n as i32;
                    let reuse = SocketCall::SetOption {
                        fd,
                        level: SOL_SOCKET,
                        name: SO_REUSEADDR,
                        value: 1,
                    };
                    let bind = SocketCall::Bind { fd, address: [0u8, 0u8, 0u8, 0u8], port };
                    let listen = SocketCall::Listen { fd, backlog: LISTEN_BACKLOG };
                    let close = SocketCall::Close { fd };
                    match spec_decode(reused) {
                        Err(error) => spec_run(setup, seq![opened, reused, closed]) == (
                            seq![open, reuse, close],
                            Some(Err::<i32, Errno>(error)),
                        ),
                        Ok(_) => match spec_decode(bound) {
                            Err(error) => spec_run(setup, seq![opened, reused, bound, closed]) == (
                                seq![open, reuse, bind, close],
                                Some(Err::<i32, Errno>(error)),
                            ),
                            Ok(_) => match spec_decode(listened) {
                                Err(error) => spec_run(
                                    setup,
                                    seq![opened, reused, bound, listened, closed],
                                ) == (
                                    seq![open, reuse, bind, listen, close],
                                    Some(Err::<i32, Errno>(error)),
                                ),
                                Ok(_) => spec_run(setup, seq![opened, reused, bound, listened])
                                    == (seq![open, reuse, bind, listen], Some(Ok::<i32, Errno>(fd))),
                            },
                        },
                    }
                },
            }
        }),
{
    let setup = SocketSetup::Opening { plan: SocketPlan::Listener { port } };
    let empty = Seq::<isize>::empty();
    lemma_run_step(setup, opened, empty);
    assert(seq![opened] + empty =~= seq![opened]);
    if let Ok(n) = spec_decode(opened) {
        let fd = n as i32;
        let reusing = SocketSetup::ReusingAddress { fd, port };
        let binding = SocketSetup::Binding { fd, port };
        let listening = SocketSetup::Listening { fd };
        match spec_decode(reused) {
            Err(error) => {
                let closing = SocketSetup::Closing { fd, error };
                lemma_run_step(closing, closed, empty);
                lemma_run_step(reusing, reused, seq![closed]);
                lemma_run_step(setup, opened, seq![reused, closed]);
                assert(seq![closed] + empty =~= seq![closed]);
                assert(seq![reused] + seq![closed] =~= seq![reused, closed]);
                assert(seq![opened] + seq![reused, closed] =~= seq![opened, reused, closed]);
            },
            Ok(_) => match spec_decode(bound) {
                Err(error) => {
                    let closing = SocketSetup::Closing { fd, error };
                    lemma_run_step(closing, closed, empty);
                    lemma_run_step(binding, bound, seq![closed]);
                    lemma_run_step(reusing, reused, seq![bound, closed]);
                    lemma_run_step(setup, opened, seq![reused, bound, closed]);
                    assert(seq![closed] + empty =~= seq![closed]);
                    assert(seq![bound] + seq![closed] =~= seq![bound, closed]);
                    assert(seq![reused] + seq![bound, closed] =~= seq![reused, bound, closed]);
                    assert(seq![opened] + seq![reused, bound, closed] =~= seq![
                        opened,
                        reused,
                        bound,
                        closed,
                    ]);
                },
                Ok(_) => match spec_decode(listened) {
                    Err(error) => {
                        let closing = SocketSetup::Closing { fd, error };
                        lemma_run_step(closing, closed, empty);
                        lemma_run_step(listening, listened, seq![closed]);
                        lemma_run_step(binding, bound, seq![listened, closed]);
                        lemma_run_step(reusing, reused, seq![bound, listened, closed]);
                        lemma_run_step(setup, opened, seq![reused, bound, listened, closed]);
                        assert(seq![closed] + empty =~= seq![closed]);
                        assert(seq![listened] + seq![closed] =~= seq![listened, closed]);
                        assert(seq![bound] + seq![listened, closed] =~= seq![
                            bound,
                            listened,
                            closed,
                        ]);
                        assert(seq![reused] + seq![bound, listened, closed] =~= seq![
                            reused,
                            bound,
                            listened,
                            closed,
                        ]);
                        assert(seq![opened] + seq![reused, bound, listened, closed] =~= seq![
                            opened,
                            reused,
                            bound,
                            listened,
                            closed,
                        ]);
                    },
                    Ok(_) => {
                        lemma_run_step(listening, listened, empty);
                        lemma_run_step(binding, bound, seq![listened]);
                        lemma_run_step(reusing, reused, seq![bound, listened]);
                        lemma_run_step(setup, opened, seq![reused, bound, listened]);
                        assert(seq![listened] + empty =~= seq![listened]);
                        assert(seq![bound] + seq![listened] =~= seq![bound, listened]);
                        assert(seq![reused] + seq![bound, listened] =~= seq![
                            reused,
                            bound,
                            listened,
                        ]);
                        assert(seq![opened] + seq![reused, bound, listened] =~= seq![
                            opened,
                            reused,
                            bound,
                            listened,
                        ]);
                    },
                },
            },
        }
    }
}

} // verus!

