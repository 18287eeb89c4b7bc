use class_queue::application::{Answer, ClientMessage, Command, Config, InternalMessage, ServerMessage, State};

fn state() -> State {
    State::new(Config {
        root_dir: "www".to_string(),
        bcrypt_password: bcrypt::hash("secret", 4).unwrap(),
        salt: b"salt".to_vec(),
    })
}

fn names(m: &Option<InternalMessage>) -> Vec<(u64, bool, String)> {
    match m {
        Some(InternalMessage::NewQueue(v)) => v.iter().map(|s| (s.id, s.being_seen, s.name.clone())).collect(),
        _ => panic!("expected a queue"),
    }
}

#[test]
fn await_queues_and_hands_out_tokens() {
    let mut s = state();
    let (a, b) = s.apply(Command::Await("ann".to_string()));
    assert_eq!(a, Some(Answer::Token(0)));
    assert_eq!(names(&b), vec![(0, false, "ann".to_string())]);
    let (a, b) = s.apply(Command::Await("bob".to_string()));
    assert_eq!(a, Some(Answer::Token(1)));
    assert_eq!(names(&b), vec![(0, false, "ann".to_string()), (1, false, "bob".to_string())]);
}

#[test]
fn cancel_removes_the_student() {
    let mut s = state();
    s.apply(Command::Await("ann".to_string()));
    s.apply(Command::Await("bob".to_string()));
    let (a, b) = s.apply(Command::Cancel(Some(0)));
    assert_eq!(a, None);
    assert_eq!(names(&b), vec![(1, false, "bob".to_string())]);
    let (a, b) = s.apply(Command::Cancel(None));
    assert_eq!(a, Some(Answer::UnAuthorized));
    assert!(b.is_none());
}

#[test]
fn only_admins_visit() {
    let mut s = state();
    s.apply(Command::Await("ann".to_string()));
    let (a, b) = s.apply(Command::Visit(Some(0)));
    assert_eq!(a, Some(Answer::UnAuthorized));
    assert!(b.is_none());
    let (a, _) = s.apply(Command::Authenticate(true));
    assert_eq!(a, Some(Answer::Token(1)));
    let (a, b) = s.apply(Command::Visit(Some(1)));
    assert_eq!(a, None);
    assert!(matches!(b, Some(InternalMessage::NewTurn)));
    match s.connect() {
        ServerMessage::NewQueue(v) => assert!(v[0].being_seen),
        _ => panic!("connect sends the queue"),
    }
    let (a, _) = s.apply(Command::Authenticate(false));
    assert_eq!(a, Some(Answer::UnAuthorized));
}

#[test]
fn client_messages_go_through_the_hasher_and_bcrypt() {
    let mut s = state();
    let (reply, internal) = s.from_client(ClientMessage::Await("ann".to_string()));
    let token = match reply {
        Some(ServerMessage::YourId(t)) => t,
        _ => panic!("await answers with an id"),
    };
    assert!(!token.is_empty() && token.len() <= 9);
    assert_eq!(token, harsh::Harsh::builder().salt(b"salt".to_vec()).build().unwrap().encode(&[0]));
    assert_eq!(names(&internal).len(), 1);
    let (reply, _) = s.from_client(ClientMessage::Authenticate("wrong".to_string()));
    assert!(matches!(reply, Some(ServerMessage::UnAuthorized)));
    let (reply, _) = s.from_client(ClientMessage::Authenticate("secret".to_string()));
    let admin = match reply {
        Some(ServerMessage::YourId(t)) => t,
        _ => panic!("a right password answers with an id"),
    };
    let (reply, internal) = s.from_client(ClientMessage::Visit(admin));
    assert!(reply.is_none());
    assert!(matches!(internal, Some(InternalMessage::NewTurn)));
    let (reply, internal) = s.from_client(ClientMessage::Visit("nonsense".to_string()));
    assert!(matches!(reply, Some(ServerMessage::UnAuthorized)));
    assert!(internal.is_none());
    let (reply, internal) = s.from_client(ClientMessage::Cancel(token));
    assert!(reply.is_none());
    assert_eq!(names(&internal), vec![]);
}

#[test]
fn internal_message_becomes_server_message() {
    assert!(matches!(ServerMessage::from(InternalMessage::NewTurn), ServerMessage::NewTurn));
    let m = InternalMessage::NewQueue(vec![]);
    assert!(matches!(ServerMessage::from(m.clone()), ServerMessage::NewQueue(v) if v.is_empty()));
}

#[test]
fn fresh_state_has_an_empty_queue() {
    let s = state();
    assert!(s.can_issue());
    assert_eq!(s.root_dir, "www");
    match s.connect() {
        ServerMessage::NewQueue(v) => assert!(v.is_empty()),
        _ => panic!("connect sends the queue"),
    }
}

#[test]
fn overlong_token_text_is_refused_without_decoding() {
    let mut s = state();
    s.from_client(ClientMessage::Await("ann".to_string()));
    // long enough to overflow the hasher's digit sum if it were decoded
    let crafted = "a".to_string() + &"Z".repeat(40);
    let (reply, internal) = s.from_client(ClientMessage::Visit(crafted.clone()));
    assert!(matches!(reply, Some(ServerMessage::UnAuthorized)));
    assert!(internal.is_none());
    let (reply, internal) = s.from_client(ClientMessage::Cancel(crafted));
    assert!(matches!(reply, Some(ServerMessage::UnAuthorized)));
    assert!(internal.is_none());
    match s.connect() {
        ServerMessage::NewQueue(v) => assert_eq!(v.len(), 1),
        _ => panic!("connect sends the queue"),
    }
}

#[test]
fn short_text_that_does_not_decode_is_unauthorized() {
    let mut s = state();
    s.from_client(ClientMessage::Await("ann".to_string()));
    let (reply, internal) = s.from_client(ClientMessage::Cancel("zz".to_string()));
    assert!(matches!(reply, Some(ServerMessage::UnAuthorized)));
    assert!(internal.is_none());
    let (reply, internal) = s.from_client(ClientMessage::Visit("".to_string()));
    assert!(matches!(reply, Some(ServerMessage::UnAuthorized)));
    assert!(internal.is_none());
}

#[test]
fn tokens_depend_on_the_salt() {
    let mut a = state();
    let mut b = State::new(Config {
        root_dir: "www".to_string(),
        bcrypt_password: bcrypt::hash("secret", 4).unwrap(),
        salt: b"pepper".to_vec(),
    });
    let ta = a.from_client(ClientMessage::Await("ann".to_string())).0;
    let tb = b.from_client(ClientMessage::Await("ann".to_string())).0;
    match (ta, tb) {
        (Some(ServerMessage::YourId(x)), Some(ServerMessage::YourId(y))) => assert_ne!(x, y),
        _ => panic!("await answers with an id"),
    }
}
