//! The reactor's dispatch rules: which source a readiness token names, and how an
//! edge-triggered accept burst is drained.
use vstd::prelude::*;

verus! {

/// Possible events that can happen to the server. Only stores which source the
/// event occurred for.
#[derive(Debug, Clone, Copy, PartialEq, Eq, Structural)]
pub enum Event {
    /// The listening socket is ready.
    Acceptor,
    /// The connection with this table key is ready (its socket, or its subscription).
    Connection(usize),
}

/// Token `0` is the listening socket; token `k + 1` is the connection with key `k`.
pub open spec fn event_for(token: usize) -> Event {
    if token == 0 {
        Event::Acceptor
    } else {
        Event::Connection((token - 1) as usize)
    }
}

/// The event a readiness token stands for.
pub fn event_of_token(token: usize) -> (r: Event)
    ensures
        r == event_for(token),
{
    if token == 0 {
        Event::Acceptor
    } else {
        Event::Connection(token - 1)
    }
}

/// The token under which the connection with key `key` is registered.
pub fn token_of_connection(key: usize) -> (r: usize)
    requires
        key < usize::MAX,
    ensures
        r == key + 1,
        event_for(r) == Event::Connection(key),
{
    key + 1
}

/// Outcome of one `accept` on the listening socket.
#[derive(Debug, Clone, Copy, PartialEq, Eq, Structural)]
pub enum AcceptResult {
    Accepted,
    WouldBlock,
    Failed,
}

/// What to do after one `accept`.
#[derive(Debug, Clone, Copy, PartialEq, Eq, Structural)]
pub enum AcceptNext {
    /// Register the new connection (if any) and accept again.
    AcceptAgain,
    /// The burst is drained: go back to waiting for readiness.
    Wait,
}

pub open spec fn next_after(r: AcceptResult) -> AcceptNext {
    if r == AcceptResult::Accepted {
        AcceptNext::AcceptAgain
    } else {
        AcceptNext::Wait
    }
}

/// Readiness of the listening socket fires once per burst, not once per pending
/// connection, so accepting goes on until the socket has nothing more to give.
pub struct Drain {
    accepted: usize,
    done: bool,
}

impl Drain {
    pub closed spec fn accepted(&self) -> nat {
        self.accepted as nat
    }

    pub closed spec fn done(&self) -> bool {
        self.done
    }

    /// Start draining after a readiness event on the listening socket.
    pub fn new() -> (r: Drain)
        ensures
            r.accepted() == 0,
            !r.done(),
    {
        Drain { accepted: 0, done: false }
    }

    /// Record the outcome of one `accept` and say what to do next.
    pub fn record(&mut self, r: AcceptResult) -> (next: AcceptNext)
        requires
            !old(self).done(),
            old(self).accepted() < usize::MAX,
        ensures
            next == next_after(r),
            final(self).done() == (next == AcceptNext::Wait),
            (final(self).accepted(), final(self).done()) == drain_step(
                (old(self).accepted(), old(self).done()),
                r,
            ),
    {
        match r {
            AcceptResult::Accepted => {
                self.accepted = self.accepted + 1;
                AcceptNext::AcceptAgain
            },
            _ => {
                self.done = true;
                AcceptNext::Wait
            },
        }
    }

    /// Number of connections accepted in this burst.
    pub fn count(&self) -> (r: usize)
        ensures
            r == self.accepted(),
    {
        self.accepted
    }
}

/// One `accept` outcome applied to (number accepted, back to waiting); once
/// waiting, further outcomes change nothing.
pub open spec fn drain_step(st: (nat, bool), r: AcceptResult) -> (nat, bool) {
    if st.1 {
        st
    } else if r == AcceptResult::Accepted {
        (st.0 + 1, false)
    } else {
        (st.0, true)
    }
}

/// Drain a burst given the outcomes of successive `accept` calls: the number
/// accepted, and whether the drain has gone back to waiting. `Drain::record`
/// performs `drain_step`, so a `Drain` fed these outcomes from `Drain::new` ends
/// in this state.
pub open spec fn drain_run(outcomes: Seq<AcceptResult>) -> (nat, bool)
    decreases outcomes.len(),
{
    if outcomes.len() == 0 {
        (0, false)
    } else {
        drain_step(drain_run(outcomes.drop_last()), outcomes.last())
    }
}

/// `i` successful accepts in a row.
pub open spec fn burst(i: nat) -> Seq<AcceptResult> {
    Seq::new(i, |j: int| AcceptResult::Accepted)
}

/// When `k` connections are pending and then the socket would block, the drain
/// accepts all `k` of them and only then goes back to waiting; it never waits
/// while an `accept` has just succeeded.
pub proof fn lemma_drain_accepts_all(k: nat)
    ensures
        forall|i: int| 0 <= i <= k ==> #[trigger] drain_run(
            burst(i as nat),
        ) == (i as nat, false),
        drain_run(burst(k).push(AcceptResult::WouldBlock)) == (
            k,
            true,
        ),
    decreases k,
{
    assert forall|i: int| 0 <= i <= k implies #[trigger] drain_run(
        burst(i as nat),
    ) == (i as nat, false) by {
        lemma_accepted_prefix(i as nat);
    }
    lemma_accepted_prefix(k);
    let s = burst(k);
    assert(s.push(AcceptResult::WouldBlock).drop_last() =~= s);
}

proof fn lemma_accepted_prefix(i: nat)
    ensures
        drain_run(burst(i)) == (i, false),
    decreases i,
{
    if i > 0 {
        lemma_accepted_prefix((i - 1) as nat);
        assert(burst(i).drop_last() =~= burst((i - 1) as nat));
    }
}

} // verus!
