use class_queue::server::{event_of_token, token_of_connection, AcceptNext, AcceptResult, Drain, Event};

#[test]
fn token_zero_is_the_acceptor() {
    assert_eq!(event_of_token(0), Event::Acceptor);
}

#[test]
fn other_tokens_name_connections() {
    assert_eq!(event_of_token(1), Event::Connection(0));
    assert_eq!(event_of_token(42), Event::Connection(41));
    assert_eq!(token_of_connection(41), 42);
    assert_eq!(event_of_token(token_of_connection(7)), Event::Connection(7));
}

#[test]
fn five_pending_connections_are_all_accepted_before_waiting() {
    let outcomes = [
        AcceptResult::Accepted,
        AcceptResult::Accepted,
        AcceptResult::Accepted,
        AcceptResult::Accepted,
        AcceptResult::Accepted,
        AcceptResult::WouldBlock,
    ];
    let mut drain = Drain::new();
    let mut calls = 0;
    for r in outcomes.iter() {
        calls += 1;
        if drain.record(*r) == AcceptNext::Wait {
            break;
        }
    }
    assert_eq!(drain.count(), 5);
    assert_eq!(calls, 6);
}

#[test]
fn accept_failure_ends_the_burst() {
    let mut drain = Drain::new();
    assert_eq!(drain.record(AcceptResult::Accepted), AcceptNext::AcceptAgain);
    assert_eq!(drain.record(AcceptResult::Failed), AcceptNext::Wait);
    assert_eq!(drain.count(), 1);
}
