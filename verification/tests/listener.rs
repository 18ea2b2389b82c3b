use rsc::io_error::{IoError, IoErrorKind};
use rsc::listener::{
    DrainStep, OpenEvent, OpenStep, RecvStep, UeventListener, WaitEvent, WaitStep,
};

fn error() -> IoError {
    IoError { kind: IoErrorKind::Interrupted, code: Some(4), message: "interrupted".to_string() }
}

fn listener() -> UeventListener {
    match UeventListener::new(OpenEvent::Bind { fd: 7, rc: 0, error: error() }) {
        OpenStep::Opened(listener) => listener,
        _ => panic!("the socket was bound"),
    }
}

#[test]
fn opening() {
    assert!(matches!(
        UeventListener::new(OpenEvent::Start),
        OpenStep::Socket { protocol: 15 }
    ));
    assert!(matches!(
        UeventListener::new(OpenEvent::Socket { fd: -1, error: error() }),
        OpenStep::Failed { error: e } if e == error()
    ));
    assert!(matches!(
        UeventListener::new(OpenEvent::Socket { fd: 0, error: error() }),
        OpenStep::Bind { fd: 0, pid: 0, groups: 1 }
    ));
    assert!(matches!(
        UeventListener::new(OpenEvent::Bind { fd: 7, rc: -1, error: error() }),
        OpenStep::CloseAndFail { fd: 7, error: e } if e == error()
    ));
    assert!(matches!(
        UeventListener::new(OpenEvent::Bind { fd: -3, rc: 0, error: error() }),
        OpenStep::Failed { .. }
    ));
    assert_eq!(listener().fd(), 7);
}

#[test]
fn blocking_receive() {
    let buf = b"change@/d\0SUBSYSTEM=power_supply\0rest of the buffer";
    assert!(matches!(
        listener().recv_blocking(-1, buf, error()),
        RecvStep::Failed(e) if e == error()
    ));
    assert!(matches!(listener().recv_blocking(0, buf, error()), RecvStep::Again));
    match listener().recv_blocking(33, buf, error()) {
        RecvStep::Event(event) => {
            assert_eq!(event.action, "change");
            assert_eq!(event.subsystem, "power_supply");
        }
        _ => panic!("an event came"),
    }
    match listener().recv_blocking(1, &[0, b'x'], error()) {
        RecvStep::Event(event) => assert!(event.is_parse_failure()),
        _ => panic!("a message came"),
    }
}

#[test]
fn waiting() {
    let listener = listener();
    assert!(matches!(
        listener.recv_with_timeout(WaitEvent::Start { timeout_ms: 60_000 }),
        WaitStep::Poll { timeout_ms: 60_000, left_ms: 0 }
    ));
    assert!(matches!(
        listener.recv_with_timeout(WaitEvent::Polled { rc: -1, left_ms: 9, error: error() }),
        WaitStep::Done(Err(e)) if e == error()
    ));
    assert!(matches!(
        listener.recv_with_timeout(WaitEvent::Polled { rc: 0, left_ms: 0, error: error() }),
        WaitStep::Done(Ok(None))
    ));
    assert!(matches!(
        listener.recv_with_timeout(WaitEvent::Polled { rc: 1, left_ms: 9, error: error() }),
        WaitStep::Receive
    ));
    let received = |n: isize, kind: IoErrorKind| {
        let error = IoError { kind, code: None, message: "failed".to_string() };
        listener.recv_with_timeout(WaitEvent::Received { n, buf: vec![1, 2], error })
    };
    // Nothing there after all.
    assert!(matches!(received(-1, IoErrorKind::WouldBlock), WaitStep::Done(Ok(None))));
    assert!(matches!(received(0, IoErrorKind::Other), WaitStep::Done(Ok(None))));
    // A failure is not a timeout.
    for kind in [IoErrorKind::Interrupted, IoErrorKind::Other] {
        assert!(matches!(received(-1, kind), WaitStep::Done(Err(e)) if e.kind == kind));
    }
    let buf = b"change@/d####".to_vec();
    match listener.recv_with_timeout(WaitEvent::Received { n: 9, buf, error: error() }) {
        WaitStep::Done(Ok(Some(event))) => assert_eq!(event.devpath, "/d"),
        _ => panic!("an event came"),
    }
}

/// The limits that a wait is polled with where every poll times out.
fn limits(timeout_ms: u128) -> Vec<i32> {
    let listener = listener();
    let mut limits = Vec::new();
    let mut step = listener.recv_with_timeout(WaitEvent::Start { timeout_ms });
    loop {
        match step {
            WaitStep::Poll { timeout_ms, left_ms } => {
                limits.push(timeout_ms);
                step = listener.recv_with_timeout(WaitEvent::Polled {
                    rc: 0,
                    left_ms,
                    error: error(),
                });
            }
            WaitStep::Done(Ok(None)) => return limits,
            _ => panic!("every poll timed out"),
        }
    }
}

#[test]
fn long_waits_take_several_polls() {
    assert_eq!(limits(0), vec![0]);
    assert_eq!(limits(1), vec![1]);
    assert_eq!(limits(0x7fff_ffff), vec![i32::MAX]);
    assert_eq!(limits(0x8000_0000), vec![i32::MAX, 1]);
    assert_eq!(limits(0x1_0000_0000), vec![i32::MAX, i32::MAX, 2]);
    for ms in [59_999u128, 0xffff_ffff, 0x12_3456_789a] {
        assert_eq!(limits(ms).iter().map(|limit| *limit as u128).sum::<u128>(), ms);
    }
}

#[test]
fn drain_counts_messages() {
    let listener = listener();
    let mut count = 0;
    for n in [100isize, 1, 900, -1, 5] {
        match listener.try_drain(count, n) {
            DrainStep::Again { count: c } => count = c,
            DrainStep::Done { count: c } => {
                count = c;
                break;
            }
        }
    }
    assert_eq!(count, 3);
    assert_eq!(listener.try_drain(4, 0), DrainStep::Done { count: 4 });
}

#[test]
fn blocking_wait_skips_empty_messages() {
    let listener = listener();
    let mut receives = 0;
    for n in [0isize, 0, 0, 9, 9] {
        receives += 1;
        match listener.recv_blocking(n, b"change@/d", error()) {
            RecvStep::Again => continue,
            RecvStep::Event(event) => {
                assert_eq!(event.devpath, "/d");
                break;
            }
            RecvStep::Failed(_) => panic!("no receive failed"),
        }
    }
    assert_eq!(receives, 4);
}
