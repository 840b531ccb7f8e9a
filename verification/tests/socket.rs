use vibe_rt::socket::{SOCK_DGRAM, SOCK_STREAM, SOL_SOCKET, SO_REUSEADDR, LISTEN_BACKLOG};
use vibe_rt::{tcp_connect, tcp_listener, udp_connect, Errno, SocketCall, SocketProgress, SocketSetup};

fn pending(progress: SocketProgress) -> SocketSetup {
    match progress {
        SocketProgress::Pending(setup) => setup,
        SocketProgress::Done(_) => panic!("setup ended early"),
    }
}

fn done(progress: SocketProgress) -> Result<i32, Errno> {
    match progress {
        SocketProgress::Done(result) => result,
        SocketProgress::Pending(_) => panic!("setup still pending"),
    }
}

#[test]
fn listener_runs_socket_reuse_bind_listen() {
    let setup = tcp_listener(8080);
    assert!(matches!(setup.call(), SocketCall::Open { domain: 2, kind, protocol: 0 } if kind == SOCK_STREAM));
    let setup = pending(setup.resume(3));
    assert!(matches!(setup.call(), SocketCall::SetOption { fd: 3, level, name, value: 1 }
        if level == SOL_SOCKET && name == SO_REUSEADDR));
    let setup = pending(setup.resume(0));
    assert!(matches!(setup.call(), SocketCall::Bind { fd: 3, address: [0, 0, 0, 0], port: 8080 }));
    let setup = pending(setup.resume(0));
    assert!(matches!(setup.call(), SocketCall::Listen { fd: 3, backlog } if backlog == LISTEN_BACKLOG));
    assert_eq!(done(setup.resume(0)), Ok(3));
}

#[test]
fn listener_closes_the_socket_when_bind_fails() {
    let setup = pending(tcp_listener(80).resume(5));
    let setup = pending(setup.resume(0));
    let setup = pending(setup.resume(-98));
    assert!(matches!(setup.call(), SocketCall::Close { fd: 5 }));
    assert_eq!(done(setup.resume(-9)), Err(Errno(98)));
}

#[test]
fn listener_closes_the_socket_when_reuse_or_listen_fails() {
    let setup = pending(pending(tcp_listener(1).resume(4)).resume(-22));
    assert!(matches!(setup.call(), SocketCall::Close { fd: 4 }));
    assert_eq!(done(setup.resume(0)), Err(Errno(22)));

    let setup = pending(pending(pending(tcp_listener(1).resume(4)).resume(0)).resume(0));
    let setup = pending(setup.resume(-95));
    assert!(matches!(setup.call(), SocketCall::Close { fd: 4 }));
    assert_eq!(done(setup.resume(0)), Err(Errno(95)));
}

#[test]
fn failing_socket_creation_ends_setup_at_once() {
    assert_eq!(done(tcp_listener(80).resume(-97)), Err(Errno(97)));
    assert_eq!(done(tcp_connect([1, 2, 3, 4], 80).resume(-24)), Err(Errno(24)));
}

#[test]
fn tcp_connect_creates_and_connects() {
    let setup = tcp_connect([127, 0, 0, 1], 443);
    assert!(matches!(setup.call(), SocketCall::Open { domain: 2, kind, protocol: 0 } if kind == SOCK_STREAM));
    let setup = pending(setup.resume(7));
    assert!(matches!(setup.call(), SocketCall::Connect { fd: 7, address: [127, 0, 0, 1], port: 443 }));
    assert_eq!(done(setup.resume(0)), Ok(7));
}

#[test]
fn udp_connect_closes_the_socket_when_connect_fails() {
    let setup = udp_connect([10, 0, 0, 1], 53);
    assert!(matches!(setup.call(), SocketCall::Open { domain: 2, kind, protocol: 0 } if kind == SOCK_DGRAM));
    let setup = pending(setup.resume(6));
    let setup = pending(setup.resume(-111));
    assert!(matches!(setup.call(), SocketCall::Close { fd: 6 }));
    assert_eq!(done(setup.resume(0)), Err(Errno(111)));
}
