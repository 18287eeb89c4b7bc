use class_queue::connection::{
    needs_prior_io, read_outcome, write_outcome, Attempt, Connection, Inbound, Input, IoStatus, Outbox,
    Phase, ReadOutcome, SessionFlags, Step,
};

#[test]
fn first_attempt_decides_the_phase() {
    assert_eq!(Connection::new(Attempt::Complete).current(), Phase::Established);
    assert_eq!(Connection::new(Attempt::Interrupted).current(), Phase::AwaitingUpgrade);
    assert_eq!(Connection::new(Attempt::Failed).current(), Phase::Closed);
}

#[test]
fn interrupted_handshake_resumes() {
    let mut c = Connection::new(Attempt::Interrupted);
    assert!(matches!(c.handle(Input::Handshake(Attempt::Interrupted)), Step::Wait));
    assert_eq!(c.current(), Phase::AwaitingUpgrade);
    assert!(!c.accepts_deliveries());
    assert!(matches!(c.handle(Input::Handshake(Attempt::Complete)), Step::Wait));
    assert_eq!(c.current(), Phase::Established);
    assert!(c.accepts_deliveries());
}

#[test]
fn refused_handshake_closes_after_its_answer_is_flushed() {
    let mut c = Connection::new(Attempt::Interrupted);
    assert!(matches!(c.handle(Input::Handshake(Attempt::Refused)), Step::Wait));
    assert_eq!(c.current(), Phase::Refusing);
    assert!(matches!(c.handle(Input::Flushed(IoStatus::WouldBlock)), Step::Wait));
    assert!(matches!(c.handle(Input::Received(Inbound::WouldBlock)), Step::Wait));
    assert_eq!(c.current(), Phase::Refusing);
    assert!(matches!(c.handle(Input::Flushed(IoStatus::Done)), Step::Remove));
    assert_eq!(c.current(), Phase::Closed);
    assert_eq!(Connection::new(Attempt::Refused).current(), Phase::Refusing);
}

#[test]
fn failed_handshake_removes() {
    let mut c = Connection::new(Attempt::Interrupted);
    assert!(matches!(c.handle(Input::Handshake(Attempt::Failed)), Step::Remove));
    assert_eq!(c.current(), Phase::Closed);
}

#[test]
fn established_frames() {
    let mut c = Connection::new(Attempt::Complete);
    match c.handle(Input::Received(Inbound::Text(b"hi".to_vec()))) {
        Step::Deliver(p) => assert_eq!(p, b"hi".to_vec()),
        _ => panic!("text must be delivered"),
    }
    match c.handle(Input::Received(Inbound::Binary(vec![1, 2]))) {
        Step::Deliver(p) => assert_eq!(p, vec![1, 2]),
        _ => panic!("binary must be delivered"),
    }
    match c.handle(Input::Received(Inbound::Ping(vec![9]))) {
        Step::Pong(p) => assert_eq!(p, vec![9]),
        _ => panic!("ping must be answered"),
    }
    assert!(matches!(c.handle(Input::Received(Inbound::Pong)), Step::Wait));
    assert!(matches!(c.handle(Input::Received(Inbound::WouldBlock)), Step::Wait));
    assert!(matches!(c.handle(Input::Flushed(IoStatus::WouldBlock)), Step::Wait));
    assert_eq!(c.current(), Phase::Established);
}

#[test]
fn close_frame_flushes_then_removes() {
    let mut c = Connection::new(Attempt::Complete);
    assert!(matches!(c.handle(Input::Received(Inbound::Close)), Step::Close));
    assert_eq!(c.current(), Phase::Closing);
    assert!(matches!(c.handle(Input::Flushed(IoStatus::WouldBlock)), Step::Wait));
    assert!(matches!(c.handle(Input::Flushed(IoStatus::Done)), Step::Remove));
    assert_eq!(c.current(), Phase::Closed);
}

#[test]
fn transport_errors_remove() {
    let mut c = Connection::new(Attempt::Complete);
    assert!(matches!(c.handle(Input::Flushed(IoStatus::Failed)), Step::Remove));
    let mut d = Connection::new(Attempt::Complete);
    assert!(matches!(d.handle(Input::Received(Inbound::Failed)), Step::Remove));
}

#[test]
fn frame_before_upgrade_is_a_violation() {
    let mut c = Connection::new(Attempt::Interrupted);
    assert!(matches!(c.handle(Input::Received(Inbound::Text(vec![]))), Step::Remove));
    assert_eq!(c.current(), Phase::Closed);
}

#[test]
fn prior_io_rule() {
    let f = |h, w, r| SessionFlags { handshaking: h, wants_write: w, wants_read: r };
    assert!(needs_prior_io(f(true, false, false)));
    assert!(needs_prior_io(f(false, true, false)));
    assert!(!needs_prior_io(f(false, false, true)));
}

#[test]
fn zero_length_read_is_shutdown() {
    assert_eq!(read_outcome(Ok(0)), ReadOutcome::Shutdown);
    assert_eq!(read_outcome(Ok(5)), ReadOutcome::Data(5));
    assert_eq!(read_outcome(Err(IoStatus::WouldBlock)), ReadOutcome::WouldBlock);
    assert_eq!(read_outcome(Err(IoStatus::Failed)), ReadOutcome::Failed);
}

#[test]
fn write_reports_taken_bytes_even_if_push_blocks() {
    assert_eq!(write_outcome(10, IoStatus::Done), Ok(10));
    assert_eq!(write_outcome(10, IoStatus::WouldBlock), Ok(10));
    assert_eq!(write_outcome(0, IoStatus::WouldBlock), Err(IoStatus::WouldBlock));
    assert_eq!(write_outcome(10, IoStatus::Failed), Err(IoStatus::Failed));
}

#[test]
fn would_block_then_retry_sends_each_byte_once() {
    let mut out = Outbox::new();
    out.push(b"hello ".to_vec());
    out.push(b"world".to_vec());
    let mut wire: Vec<u8> = Vec::new();
    // the socket takes 4 bytes, then blocks, then takes everything
    let script = [Some(4usize), None, None, Some(100)];
    for step in script.iter() {
        let pending = out.pending_bytes().to_vec();
        let r = match step {
            Some(cap) => {
                let n = (*cap).min(pending.len());
                wire.extend_from_slice(&pending[..n]);
                write_outcome(n, IoStatus::Done)
            }
            None => write_outcome(0, IoStatus::WouldBlock),
        };
        out.record(r);
    }
    assert_eq!(wire, b"hello world".to_vec());
    assert!(out.is_empty());
}
