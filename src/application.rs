//! The application: a queue of students waiting for help, and the admins who
//! visit them. Client messages change the queue; changes are broadcast to every
//! connection as internal messages.
use vstd::prelude::*;
use vstd::string::StringSliceAdditionalSpecFns;
use vstd::utf8::encode_utf8;

verus! {

#[verifier::external_type_specification]
#[verifier::external_body]
pub struct ExHarsh(harsh::Harsh);

/// A single student that is waiting for help.
pub struct Student {
    pub id: u64,
    pub being_seen: bool,
    pub name: String,
}

impl Student {
    /// A copy of this student.
    pub fn duplicate(&self) -> (r: Student)
        ensures
            r == *self,
    {
        Student { id: self.id, being_seen: self.being_seen, name: self.name.clone() }
    }
}

/// A message from a client.
pub enum ClientMessage {
    /// Request for help, with the name given.
    Await(String),
    /// Cancel a request for help, using the id that was handed out.
    Cancel(String),
    /// Log in, using the admin password.
    Authenticate(String),
    /// Announce a visit to the student at the front, using the admin's id.
    Visit(String),
}

/// A message to a client.
pub enum ServerMessage {
    /// Sent after an await or a successful authentication.
    YourId(String),
    /// Sent after a failed authentication, or an unknown id.
    UnAuthorized,
    /// Sent to everyone when the queue changes.
    NewQueue(Vec<Student>),
    /// Sent to everyone when the student at the front is being seen.
    NewTurn,
}

/// A message broadcast to every connection.
pub enum InternalMessage {
    NewQueue(Vec<Student>),
    NewTurn,
}

impl InternalMessage {
    /// A copy of this message.
    pub fn duplicate(&self) -> (r: InternalMessage)
        ensures
            same_message(r, *self),
    {
        match self {
            InternalMessage::NewQueue(v) => InternalMessage::NewQueue(copy_students(v)),
            InternalMessage::NewTurn => InternalMessage::NewTurn,
        }
    }
}

impl Clone for InternalMessage {
    fn clone(&self) -> (r: InternalMessage)
        ensures
            same_message(r, *self),
    {
        self.duplicate()
    }
}

impl From<InternalMessage> for ServerMessage {
    fn from(other: InternalMessage) -> (r: ServerMessage) {
        match other {
            InternalMessage::NewQueue(data) => ServerMessage::NewQueue(data),
            InternalMessage::NewTurn => ServerMessage::NewTurn,
        }
    }
}

impl vstd::std_specs::convert::FromSpecImpl<InternalMessage> for ServerMessage {
    open spec fn obeys_from_spec() -> bool {
        true
    }

    open spec fn from_spec(other: InternalMessage) -> ServerMessage {
        match other {
            InternalMessage::NewQueue(data) => ServerMessage::NewQueue(data),
            InternalMessage::NewTurn => ServerMessage::NewTurn,
        }
    }
}

/// Two internal messages carry the same content.
pub open spec fn same_message(a: InternalMessage, b: InternalMessage) -> bool {
    match (a, b) {
        (InternalMessage::NewQueue(x), InternalMessage::NewQueue(y)) => x@ == y@,
        (InternalMessage::NewTurn, InternalMessage::NewTurn) => true,
        _ => false,
    }
}

/// A copy of a list of students.
pub fn copy_students(v: &Vec<Student>) -> (r: Vec<Student>)
    ensures
        r@ == v@,
{
    let mut out: Vec<Student> = Vec::new();
    let mut i: usize = 0;
    while i < v.len()
        invariant
            0 <= i <= v@.len(),
            out@ == v@.subrange(0, i as int),
        decreases v@.len() - i,
    {
        out.push(v[i].duplicate());
        i = i + 1;
        assert(out@ =~= v@.subrange(0, i as int));
    }
    assert(v@.subrange(0, v@.len() as int) =~= v@);
    out
}

/// The queue without the students holding `id`.
pub open spec fn without(q: Seq<Student>, id: u64) -> Seq<Student>
    decreases q.len(),
{
    if q.len() == 0 {
        q
    } else if q.last().id == id {
        without(q.drop_last(), id)
    } else {
        without(q.drop_last(), id).push(q.last())
    }
}

/// A client message with the outside work already done: ids decoded and the
/// password checked.
pub enum Command {
    Await(String),
    /// The decoded id, if the text was a valid id.
    Cancel(Option<u64>),
    /// Whether the password was right.
    Authenticate(bool),
    /// The decoded admin id, if the text was a valid id.
    Visit(Option<u64>),
}

/// The reply to the sender, before its token is encoded.
#[derive(Debug, Clone, Copy, PartialEq, Eq, Structural)]
pub enum Answer {
    /// The sender's new token.
    Token(u64),
    UnAuthorized,
}

/// The queue with its front student marked as being seen.
pub open spec fn mark_front(q: Seq<Student>) -> Seq<Student> {
    if q.len() == 0 {
        q
    } else {
        q.update(0, Student { being_seen: true, ..q[0] })
    }
}

/// The state of the application.
pub struct State {
    /// Students currently waiting for help, in arrival order.
    queue: Vec<Student>,
    /// The bcrypt hash of the admin password.
    password: String,
    /// Turns token numbers into opaque strings and back.
    hasher: Hasher,
    /// Tokens of the admins that logged in.
    admins: Vec<u64>,
    /// The next token to hand out.
    max_token: u64,
    /// The directory static files are served from.
    pub root_dir: String,
}

/// What the application is built from.
pub struct Config {
    pub root_dir: String,
    pub bcrypt_password: String,
    /// Salt for the token hasher.
    pub salt: Vec<u8>,
}

/// Whether a password matches a bcrypt hash.
pub uninterp spec fn password_matches(password: Seq<u8>, hash: Seq<char>) -> bool;

/// Relies on `bcrypt::verify`: whether `password` hashes to `hash` under the cost
/// and salt that `hash` holds; a malformed hash matches nothing.
#[verifier::external_body]
fn check_password(password: &str, hash: &str) -> (r: bool)
    ensures
        r == password_matches(encode_utf8(password@), hash@),
{
    bcrypt::verify(password, hash).unwrap_or(false)
}

/// Text of the values under harsh's default alphabet and separators, salted with
/// `salt`, and with no minimum length.
pub uninterp spec fn hash_text(salt: Seq<u8>, values: Seq<u64>) -> Seq<char>;

/// A token hasher with harsh's default alphabet, and the salt it was built from.
/// Only `build_hasher` makes one, so the two always belong together.
pub struct Hasher {
    inner: harsh::Harsh,
    salt: Vec<u8>,
}

impl Hasher {
    pub closed spec fn salt(&self) -> Seq<u8> {
        self.salt@
    }
}

/// Relies on `harsh::HarshBuilder::build`: with the default alphabet and separators
/// it cannot fail (the only errors are an alphabet shorter than 16 bytes or holding
/// a space), and the hasher it builds uses `salt`.
#[verifier::external_body]
fn build_hasher(salt: Vec<u8>) -> (r: Hasher)
    ensures
        r.salt() == salt@,
{
    let inner = harsh::Harsh::builder().salt(salt.clone()).build().unwrap_or_default();
    Hasher { inner, salt }
}

/// Relies on `harsh::Harsh::encode`: the text for one token. The default alphabet is
/// ASCII, so the text is valid UTF-8 and encoding does not panic.
#[verifier::external_body]
fn encode_token(hasher: &Hasher, token: u64) -> (r: String)
    ensures
        r@ == hash_text(hasher.salt(), seq![token]),
{
    hasher.inner.encode(&[token])
}

/// Longest token text, in bytes, that is handed to the hasher for decoding.
///
/// Decoding sums digit values without an overflow check; the hasher's alphabet has
/// at most 255 distinct bytes, so a digit run of at most 8 bytes (after the one
/// lottery byte) stays within `u64`. Longer texts are never issued by a hasher
/// built without a minimum length, and are refused before decoding.
pub const MAX_TOKEN_BYTES: usize = 9;

/// Relies on `harsh::Harsh::decode`: the values a token text stands for, if any;
/// decoding re-encodes what it found and succeeds only if that gives the text back.
/// For texts of at most `MAX_TOKEN_BYTES` bytes the digit sums cannot overflow, and
/// the default alphabet keeps the re-encoding ASCII, so the call does not panic.
#[verifier::external_body]
fn decode_token(hasher: &Hasher, text: &str) -> (r: Option<Vec<u64>>)
    requires
        encode_utf8(text@).len() <= MAX_TOKEN_BYTES,
    ensures
        r matches Some(v) ==> hash_text(hasher.salt(), v@) == text@,
{
    hasher.inner.decode(text).ok()
}

/// `text` is the hasher's text for some values, the first of which is `id`.
pub open spec fn decodes_to(salt: Seq<u8>, text: Seq<char>, id: u64) -> bool {
    exists|v: Seq<u64>| v.len() > 0 && v[0] == id && #[trigger] hash_text(salt, v) == text
}

/// The token a client's text stands for: texts too long to be a token are refused
/// without decoding; otherwise the first decoded value, if any.
fn token_of(hasher: &Hasher, text: &str) -> (r: Option<u64>)
    ensures
        encode_utf8(text@).len() > MAX_TOKEN_BYTES ==> r is None,
        r matches Some(id) ==> decodes_to(hasher.salt(), text@, id),
{
    let n = text.as_bytes().len();
    if n > MAX_TOKEN_BYTES {
        return None;
    }
    match decode_token(hasher, text) {
        Some(values) => {
            if values.len() > 0 {
                assert(hash_text(hasher.salt(), values@) == text@);
                Some(values[0])
            } else {
                None
            }
        },
        None => None,
    }
}

impl State {
    pub closed spec fn queue(&self) -> Seq<Student> {
        self.queue@
    }

    pub closed spec fn admins(&self) -> Seq<u64> {
        self.admins@
    }

    pub closed spec fn next_token(&self) -> u64 {
        self.max_token
    }

    pub closed spec fn root(&self) -> Seq<char> {
        self.root_dir@
    }

    /// Salt of the token hasher.
    pub closed spec fn salt(&self) -> Seq<u8> {
        self.hasher.salt()
    }

    pub closed spec fn password_hash(&self) -> Seq<char> {
        self.password@
    }

    /// A fresh state: nobody waiting, no admin logged in.
    pub fn new(cfg: Config) -> (r: State)
        ensures
            r.queue() == Seq::<Student>::empty(),
            r.admins() == Seq::<u64>::empty(),
            r.next_token() == 0,
            r.password_hash() == cfg.bcrypt_password@,
            r.salt() == cfg.salt@,
            r.root() == cfg.root_dir@,
    {
        let Config { root_dir, bcrypt_password, salt } = cfg;
        let hasher = build_hasher(salt);
        State {
            queue: Vec::new(),
            password: bcrypt_password,
            hasher,
            admins: Vec::new(),
            max_token: 0,
            root_dir,
        }
    }

    /// Whether another token can be handed out.
    pub fn can_issue(&self) -> (r: bool)
        ensures
            r == (self.next_token() < u64::MAX),
    {
        self.max_token < u64::MAX
    }

    /// The first message sent to a new client: the queue as it stands.
    pub fn connect(&self) -> (r: ServerMessage)
        ensures
            r matches ServerMessage::NewQueue(v) && v@ == self.queue(),
    {
        ServerMessage::NewQueue(copy_students(&self.queue))
    }

    /// Apply a command. An await queues the student under a new token, replies with
    /// the token and broadcasts the queue. A cancel with a valid id removes that
    /// student and broadcasts the queue. A right password makes the sender an admin
    /// under a new token. A visit by a known admin marks the front student as being
    /// seen and broadcasts a new turn. Anything else is answered as unauthorized.
    pub fn apply(&mut self, cmd: Command) -> (r: (Option<Answer>, Option<InternalMessage>))
        requires
            old(self).next_token() < u64::MAX,
        ensures
            final(self).password_hash() == old(self).password_hash(),
            final(self).salt() == old(self).salt(),
            final(self).root() == old(self).root(),
            applied(*old(self), cmd, *final(self), r),
    {
        match cmd {
            Command::Await(name) => {
                let id = self.max_token;
                self.max_token = id + 1;
                self.queue.push(Student { id, being_seen: false, name });
                (Some(Answer::Token(id)), Some(InternalMessage::NewQueue(copy_students(&self.queue))))
            },
            Command::Cancel(Some(id)) => {
                self.remove_student(id);
                (None, Some(InternalMessage::NewQueue(copy_students(&self.queue))))
            },
            Command::Authenticate(true) => {
                let id = self.max_token;
                self.max_token = id + 1;
                self.admins.push(id);
                (Some(Answer::Token(id)), None)
            },
            Command::Visit(Some(id)) => {
                if self.is_admin(id) {
                    if self.queue.len() > 0 {
                        let mut s = self.queue.remove(0);
                        s.being_seen = true;
                        self.queue.insert(0, s);
                        assert(self.queue@ =~= mark_front(old(self).queue@));
                    }
                    (None, Some(InternalMessage::NewTurn))
                } else {
                    (Some(Answer::UnAuthorized), None)
                }
            },
            _ => (Some(Answer::UnAuthorized), None),
        }
    }

    fn is_admin(&self, id: u64) -> (r: bool)
        ensures
            r == self.admins().contains(id),
    {
        let mut i: usize = 0;
        while i < self.admins.len()
            invariant
                0 <= i <= self.admins@.len(),
                forall|j: int| 0 <= j < i ==> self.admins@[j] != id,
            decreases self.admins@.len() - i,
        {
            if self.admins[i] == id {
                return true;
            }
            i = i + 1;
        }
        false
    }

    fn remove_student(&mut self, id: u64)
        ensures
            final(self).queue() == without(old(self).queue(), id),
            final(self).admins() == old(self).admins(),
            final(self).next_token() == old(self).next_token(),
            final(self).password_hash() == old(self).password_hash(),
            final(self).salt() == old(self).salt(),
            final(self).root() == old(self).root(),
    {
        let ghost q = self.queue@;
        let mut kept: Vec<Student> = Vec::new();
        let mut i: usize = 0;
        while i < self.queue.len()
            invariant
                self.queue@ == q,
                0 <= i <= q.len(),
                kept@ == without(q.subrange(0, i as int), id),
            decreases q.len() - i,
        {
            assert(q.subrange(0, i + 1).drop_last() =~= q.subrange(0, i as int));
            if self.queue[i].id != id {
                kept.push(self.queue[i].duplicate());
            }
            i = i + 1;
        }
        assert(q.subrange(0, q.len() as int) =~= q);
        self.queue = kept;
    }

    /// Handle a client message: returns, optionally, a message for the sender and a
    /// message to broadcast. Ids are decoded with the hasher and the password is
    /// checked against the stored bcrypt hash; the rest is `apply`.
    pub fn from_client(&mut self, message: ClientMessage) -> (r: (Option<ServerMessage>, Option<InternalMessage>))
        requires
            old(self).next_token() < u64::MAX,
        ensures
            final(self).password_hash() == old(self).password_hash(),
            final(self).salt() == old(self).salt(),
            final(self).root() == old(self).root(),
            exists|cmd: Command, a: Option<Answer>|
                command_for(message, cmd, old(self).password_hash(), old(self).salt()) && #[trigger] applied(
                    *old(self),
                    cmd,
                    *final(self),
                    (a, r.1),
                ) && answered(a, r.0, old(self).salt()),
    {
        let cmd = match message {
            ClientMessage::Await(name) => Command::Await(name),
            ClientMessage::Cancel(text) => Command::Cancel(token_of(&self.hasher, text.as_str())),
            ClientMessage::Authenticate(pw) => Command::Authenticate(
                check_password(pw.as_str(), self.password.as_str()),
            ),
            ClientMessage::Visit(text) => Command::Visit(token_of(&self.hasher, text.as_str())),
        };
        let ghost c = cmd;
        let ghost before = *self;
        let (answer, internal) = self.apply(cmd);
        let reply = match answer {
            Some(Answer::Token(t)) => Some(ServerMessage::YourId(encode_token(&self.hasher, t))),
            Some(Answer::UnAuthorized) => Some(ServerMessage::UnAuthorized),
            None => None,
        };
        let r = (reply, internal);
        assert(command_for(message, c, before.password_hash(), before.salt()) && applied(before, c, *self, (answer, r.1))
            && answered(answer, r.0, before.salt()));
        r
    }
}

/// `t` and `r` are the state and result after applying `cmd` to `s`.
pub open spec fn applied(s: State, cmd: Command, t: State, r: (Option<Answer>, Option<InternalMessage>)) -> bool {
    match cmd {
        Command::Await(name) => {
            let st = Student { id: s.next_token(), being_seen: false, name };
            &&& t.queue() == s.queue().push(st)
            &&& t.admins() == s.admins()
            &&& t.next_token() == s.next_token() + 1
            &&& r.0 == Some(Answer::Token(s.next_token()))
            &&& r.1 matches Some(InternalMessage::NewQueue(v)) && v@ == t.queue()
        },
        Command::Cancel(Some(id)) => {
            &&& t.queue() == without(s.queue(), id)
            &&& t.admins() == s.admins()
            &&& t.next_token() == s.next_token()
            &&& r.0 is None
            &&& r.1 matches Some(InternalMessage::NewQueue(v)) && v@ == t.queue()
        },
        Command::Authenticate(true) => {
            &&& t.queue() == s.queue()
            &&& t.admins() == s.admins().push(s.next_token())
            &&& t.next_token() == s.next_token() + 1
            &&& r.0 == Some(Answer::Token(s.next_token()))
            &&& r.1 is None
        },
        Command::Visit(Some(id)) => if s.admins().contains(id) {
            &&& t.queue() == mark_front(s.queue())
            &&& t.admins() == s.admins()
            &&& t.next_token() == s.next_token()
            &&& r.0 is None
            &&& r.1 matches Some(InternalMessage::NewTurn)
        } else {
            &&& t.queue() == s.queue()
            &&& t.admins() == s.admins()
            &&& t.next_token() == s.next_token()
            &&& r.0 == Some(Answer::UnAuthorized)
            &&& r.1 is None
        },
        _ => {
            &&& t.queue() == s.queue()
            &&& t.admins() == s.admins()
            &&& t.next_token() == s.next_token()
            &&& r.0 == Some(Answer::UnAuthorized)
            &&& r.1 is None
        },
    }
}

/// The reply sent for an answer: a token becomes its encoded form.
pub open spec fn answered(a: Option<Answer>, reply: Option<ServerMessage>, salt: Seq<u8>) -> bool {
    match a {
        Some(Answer::Token(t)) => reply matches Some(ServerMessage::YourId(text)) && text@ == hash_text(
            salt,
            seq![t],
        ),
        Some(Answer::UnAuthorized) => reply matches Some(ServerMessage::UnAuthorized),
        None => reply is None,
    }
}

/// `cmd` is what `message` becomes once the outside work is done: a text too long
/// to be a token decodes to nothing, and a decoded id is the first of values whose
/// text is exactly the one sent; the password check is exact.
pub open spec fn command_for(message: ClientMessage, cmd: Command, hash: Seq<char>, salt: Seq<u8>) -> bool {
    match (message, cmd) {
        (ClientMessage::Await(n), Command::Await(m)) => n == m,
        (ClientMessage::Cancel(t), Command::Cancel(d)) => (encode_utf8(t@).len() > MAX_TOKEN_BYTES
            ==> d is None) && (d matches Some(id) ==> decodes_to(salt, t@, id)),
        (ClientMessage::Authenticate(p), Command::Authenticate(ok)) => ok == password_matches(
            encode_utf8(p@),
            hash,
        ),
        (ClientMessage::Visit(t), Command::Visit(d)) => (encode_utf8(t@).len() > MAX_TOKEN_BYTES
            ==> d is None) && (d matches Some(id) ==> decodes_to(salt, t@, id)),
        _ => false,
    }
}

} // verus!
