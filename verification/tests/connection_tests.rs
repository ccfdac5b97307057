use grweb::connection::{Action, ConnectionState, ConnectionTask, IoOutcome};
use grweb::Response;

#[test]
fn full_request_cycle() {
    let mut t = ConnectionTask::new(8);
    assert_eq!(t.state(), ConnectionState::ReadRequest);
    assert_eq!(t.next_action(), Action::Read);
    let full = b"GET /a HTTP/1.1\r\n\r\n";
    let take = t.read_capacity().min(full.len());
    assert_eq!(take, 8);
    assert!(!t.on_read(IoOutcome::Transferred(take), &full[..8]));
    assert_eq!(t.next_action(), Action::Process);
    assert!(t.process().is_none());
    assert_eq!(t.state(), ConnectionState::ReadRequest);
    // the buffer is full, so the next read first doubles it
    assert_eq!(t.next_action(), Action::Read);
    assert_eq!(t.buffer_len(), 16);
    assert_eq!(t.read_capacity(), 8);
    assert!(!t.on_read(IoOutcome::Transferred(8), &full[8..16]));
    assert_eq!(t.next_action(), Action::Process);
    assert!(t.process().is_none());
    assert_eq!(t.next_action(), Action::Read);
    assert!(!t.on_read(IoOutcome::Transferred(3), &full[16..]));
    assert_eq!(t.received_bytes(), b"GET /a HTTP/1.1\r\n\r\n");
    assert_eq!(t.next_action(), Action::Process);
    let head = t.process().unwrap();
    assert_eq!(head.path, "/a");
    t.respond(&Response::ok());
    assert_eq!(t.state(), ConnectionState::WriteResponse);
    let out = t.pending_output().to_vec();
    assert_eq!(out, b"HTTP/1.1 200 OK\r\nContent-Length: 2\r\nConnection: close\r\nContent-Type: text/plain;charset=utf-8\r\n\r\nOK".to_vec());
    assert_eq!(t.next_action(), Action::Write);
    assert!(!t.on_write(IoOutcome::Transferred(10)));
    assert_eq!(t.pending_output(), &out[10..]);
    assert!(!t.on_write(IoOutcome::WouldBlock));
    assert_eq!(t.next_action(), Action::Write);
    let left = t.pending_output().len();
    assert!(!t.on_write(IoOutcome::Transferred(left)));
    assert_eq!(t.next_action(), Action::Finish);
    assert_eq!(t.state(), ConnectionState::Done);
}

#[test]
fn closed_or_failed_reads_finish() {
    let mut t = ConnectionTask::new(4);
    assert_eq!(t.next_action(), Action::Read);
    assert!(t.on_read(IoOutcome::Transferred(0), b""));
    assert_eq!(t.state(), ConnectionState::Done);
    let mut u = ConnectionTask::new(4);
    assert_eq!(u.next_action(), Action::Read);
    assert!(!u.on_read(IoOutcome::WouldBlock, b""));
    assert_eq!(u.state(), ConnectionState::ReadRequest);
    assert!(u.on_read(IoOutcome::Failed, b""));
    assert_eq!(u.next_action(), Action::Finish);
}

#[test]
fn handed_over_stream_finishes() {
    let mut t = ConnectionTask::new(64);
    assert_eq!(t.next_action(), Action::Read);
    let req = b"GET /ws HTTP/1.1\r\n\r\n";
    assert!(!t.on_read(IoOutcome::Transferred(req.len()), req));
    assert_eq!(t.next_action(), Action::Process);
    assert!(t.process().is_some());
    t.hand_over_stream();
    assert_eq!(t.state(), ConnectionState::Done);
    assert_eq!(t.next_action(), Action::Finish);
}

#[test]
fn failed_write_finishes() {
    let mut t = ConnectionTask::new(64);
    t.respond(&Response::not_found());
    assert!(t.on_write(IoOutcome::Failed));
    assert_eq!(t.state(), ConnectionState::Done);
    let mut u = ConnectionTask::new(64);
    u.respond(&Response::not_found());
    assert!(u.on_write(IoOutcome::Transferred(0)));
}

#[test]
fn finished_connection_stays_finished() {
    let mut t = ConnectionTask::new(8);
    assert_eq!(t.next_action(), Action::Read);
    assert!(!t.on_read(IoOutcome::WouldBlock, b""));
    assert_eq!(t.state(), ConnectionState::ReadRequest);
    assert_eq!(t.next_action(), Action::Read);
    assert!(t.on_read(IoOutcome::Failed, b""));
    for _ in 0..3 {
        assert_eq!(t.next_action(), Action::Finish);
        assert_eq!(t.state(), ConnectionState::Done);
    }
}
