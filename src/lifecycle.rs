use vstd::prelude::*;

verus! {

/// The wait between two failed attempts, in milliseconds.
pub const RECONNECT_DELAY_MS: u64 = 1000;

/// Where the one broker connection stands.
#[derive(Debug, Clone, Copy, PartialEq, Eq)]
pub enum ConnectionState {
    Disconnected,
    Connecting,
    Connected,
    Reconnecting,
}

/// What the transport reports to the lifecycle.
#[derive(Debug, Clone, Copy, PartialEq, Eq)]
pub enum Event {
    /// The process has started.
    Start,
    /// A connect or reconnect attempt succeeded; `session_present` tells
    /// whether the broker kept the session, and with it the subscriptions.
    ConnectSucceeded { session_present: bool },
    /// A connect or reconnect attempt failed.
    ConnectFailed,
    /// The batch subscription succeeded.
    SubscribeSucceeded,
    /// The batch subscription failed while the connection stayed up.
    SubscribeFailed,
    /// A message arrived.
    Message,
    /// The connection was lost.
    ConnectionLost,
}

/// What the lifecycle asks of the transport next.
#[derive(Debug, Clone, Copy, PartialEq, Eq)]
pub enum Action {
    /// Wait `delay_ms`, then attempt the first connect.
    Connect { delay_ms: u64 },
    /// Wait `delay_ms`, then subscribe to every routed topic in one batch
    /// and report how that went.
    Subscribe { delay_ms: u64 },
    /// The subscriptions are in place: go on consuming.
    Resume,
    /// Run the message processor on the message, then consume.
    Process,
    /// Wait `delay_ms`, then attempt to reconnect.
    Reconnect { delay_ms: u64 },
    /// The event does not apply in this state: go on as before.
    Ignore,
}

/// The state of the connection lifecycle: where the connection stands and
/// whether the broker confirmed this client's subscriptions in the current
/// session.
#[derive(Debug, Clone, Copy, PartialEq, Eq)]
pub struct Lifecycle {
    pub state: ConnectionState,
    pub subscribed: bool,
}

/// The transition table: the next lifecycle and the action for an event.
/// Failed connects, reconnects and subscriptions are retried after a fixed
/// delay, without end; a reconnect subscribes again unless the broker kept
/// the session in which the subscriptions were confirmed.
pub open spec fn next(s: Lifecycle, e: Event) -> (Lifecycle, Action) {
    match (s.state, e) {
        (ConnectionState::Disconnected, Event::Start) => (
            Lifecycle { state: ConnectionState::Connecting, subscribed: false },
            Action::Connect { delay_ms: 0 },
        ),
        (ConnectionState::Connecting, Event::ConnectSucceeded { .. }) => (
            Lifecycle { state: ConnectionState::Connected, subscribed: false },
            Action::Subscribe { delay_ms: 0 },
        ),
        (ConnectionState::Connecting, Event::ConnectFailed) => (
            s,
            Action::Connect { delay_ms: RECONNECT_DELAY_MS },
        ),
        (ConnectionState::Connected, Event::SubscribeSucceeded) => (
            Lifecycle { state: ConnectionState::Connected, subscribed: true },
            Action::Resume,
        ),
        (ConnectionState::Connected, Event::SubscribeFailed) => (
            Lifecycle { state: ConnectionState::Connected, subscribed: false },
            Action::Subscribe { delay_ms: RECONNECT_DELAY_MS },
        ),
        (ConnectionState::Connected, Event::Message) => (s, Action::Process),
        (ConnectionState::Connected, Event::ConnectionLost) => (
            Lifecycle { state: ConnectionState::Reconnecting, subscribed: s.subscribed },
            Action::Reconnect { delay_ms: 0 },
        ),
        (ConnectionState::Reconnecting, Event::ConnectSucceeded { session_present }) => {
            if session_present && s.subscribed {
                (Lifecycle { state: ConnectionState::Connected, subscribed: true }, Action::Resume)
            } else {
                (
                    Lifecycle { state: ConnectionState::Connected, subscribed: false },
                    Action::Subscribe { delay_ms: 0 },
                )
            }
        },
        (ConnectionState::Reconnecting, Event::ConnectFailed) => (
            s,
            Action::Reconnect { delay_ms: RECONNECT_DELAY_MS },
        ),
        _ => (s, Action::Ignore),
    }
}

/// The lifecycle and the actions after a sequence of events.
pub open spec fn run(s: Lifecycle, events: Seq<Event>) -> (Lifecycle, Seq<Action>)
    decreases events.len(),
{
    if events.len() == 0 {
        (s, Seq::empty())
    } else {
        let (s1, a) = next(s, events[0]);
        let (s2, rest) = run(s1, events.drop_first());
        (s2, seq![a] + rest)
    }
}

impl Lifecycle {
    /// A lifecycle that has not started.
    pub fn new() -> (r: Self)
        ensures
            r.state == ConnectionState::Disconnected,
            !r.subscribed,
    {
        Lifecycle { state: ConnectionState::Disconnected, subscribed: false }
    }

    /// Takes one event and says what to do next.
    pub fn step(&mut self, event: Event) -> (r: Action)
        ensures
            (*final(self), r) == next(*old(self), event),
    {
        let s = *self;
        let (n, a) = match (s.state, event) {
            (ConnectionState::Disconnected, Event::Start) => (
                Lifecycle { state: ConnectionState::Connecting, subscribed: false },
                Action::Connect { delay_ms: 0 },
            ),
            (ConnectionState::Connecting, Event::ConnectSucceeded { .. }) => (
                Lifecycle { state: ConnectionState::Connected, subscribed: false },
                Action::Subscribe { delay_ms: 0 },
            ),
            (ConnectionState::Connecting, Event::ConnectFailed) => (
                s,
                Action::Connect { delay_ms: RECONNECT_DELAY_MS },
            ),
            (ConnectionState::Connected, Event::SubscribeSucceeded) => (
                Lifecycle { state: ConnectionState::Connected, subscribed: true },
                Action::Resume,
            ),
            (ConnectionState::Connected, Event::SubscribeFailed) => (
                Lifecycle { state: ConnectionState::Connected, subscribed: false },
                Action::Subscribe { delay_ms: RECONNECT_DELAY_MS },
            ),
            (ConnectionState::Connected, Event::Message) => (s, Action::Process),
            (ConnectionState::Connected, Event::ConnectionLost) => (
                Lifecycle { state: ConnectionState::Reconnecting, subscribed: s.subscribed },
                Action::Reconnect { delay_ms: 0 },
            ),
            (ConnectionState::Reconnecting, Event::ConnectSucceeded { session_present }) => {
                if session_present && s.subscribed {
                    (
                        Lifecycle { state: ConnectionState::Connected, subscribed: true },
                        Action::Resume,
                    )
                } else {
                    (
                        Lifecycle { state: ConnectionState::Connected, subscribed: false },
                        Action::Subscribe { delay_ms: 0 },
                    )
                }
            },
            (ConnectionState::Reconnecting, Event::ConnectFailed) => (
                s,
                Action::Reconnect { delay_ms: RECONNECT_DELAY_MS },
            ),
            _ => (s, Action::Ignore),
        };
        *self = n;
        a
    }

    /// Whether the message processor may run: only while connected.
    pub fn is_connected(&self) -> (r: bool)
        ensures
            r == (self.state == ConnectionState::Connected),
    {
        match self.state {
            ConnectionState::Connected => true,
            _ => false,
        }
    }
}

/// Running two sequences of events one after the other.
pub proof fn lemma_run_append(s: Lifecycle, a: Seq<Event>, b: Seq<Event>)
    ensures
        run(s, a + b) == (run(run(s, a).0, b).0, run(s, a).1 + run(run(s, a).0, b).1),
    decreases a.len(),
{
    if a.len() == 0 {
        assert(a + b =~= b);
        assert(Seq::<Action>::empty() + run(s, b).1 =~= run(s, b).1);
    } else {
        let (s1, x) = next(s, a[0]);
        assert((a + b).drop_first() =~= a.drop_first() + b);
        lemma_run_append(s1, a.drop_first(), b);
        let (s2, rest) = run(s1, a.drop_first());
        assert(seq![x] + (rest + run(s2, b).1) =~= (seq![x] + rest) + run(s2, b).1);
    }
}

/// One event from `s`.
pub proof fn lemma_run_one(s: Lifecycle, e: Event)
    ensures
        run(s, seq![e]) == (next(s, e).0, seq![next(s, e).1]),
{
    assert(seq![e].drop_first() =~= Seq::<Event>::empty());
    assert(run(next(s, e).0, Seq::<Event>::empty()) == (next(s, e).0, Seq::<Action>::empty()));
    assert(seq![next(s, e).1] + Seq::<Action>::empty() =~= seq![next(s, e).1]);
}

/// `n` failed attempts in a row.
pub open spec fn failures(n: nat) -> Seq<Event> {
    Seq::new(n, |i: int| Event::ConnectFailed)
}

/// While reconnecting, each failed attempt is met by another attempt after
/// the fixed delay, and the lifecycle stays as it is.
pub proof fn lemma_retry_forever(s: Lifecycle, n: nat)
    requires
        s.state == ConnectionState::Reconnecting,
    ensures
        run(s, failures(n)).0 == s,
        run(s, failures(n)).1 =~= Seq::new(
            n,
            |i: int| Action::Reconnect { delay_ms: RECONNECT_DELAY_MS },
        ),
    decreases n,
{
    if n > 0 {
        assert(failures(n).drop_first() =~= failures((n - 1) as nat));
        lemma_retry_forever(s, (n - 1) as nat);
    }
}

/// Whether a reconnect from `s` in a session the broker kept or not finds
/// the subscriptions in place.
pub open spec fn kept(s: Lifecycle, session_present: bool) -> bool {
    session_present && s.subscribed
}

/// What the transport reports after a reconnect: a confirmed subscription
/// where one was asked for.
pub open spec fn resubscribe_events(kept: bool) -> Seq<Event> {
    if kept {
        Seq::empty()
    } else {
        seq![Event::SubscribeSucceeded]
    }
}

/// The actions after a reconnect: resume where the subscriptions were
/// kept, else subscribe once and resume.
pub open spec fn resubscribe_actions(kept: bool) -> Seq<Action> {
    if kept {
        seq![Action::Resume]
    } else {
        seq![Action::Subscribe { delay_ms: 0 }, Action::Resume]
    }
}

/// A connected client that loses its connection, fails `n` reconnect
/// attempts and then reconnects is connected and subscribed; it subscribes
/// again, once, unless the broker kept the session whose subscriptions it
/// had confirmed, and it processes the next message.
pub proof fn lemma_reconnect_resumes(s: Lifecycle, n: nat, session_present: bool)
    requires
        s.state == ConnectionState::Connected,
    ensures
        ({
            let k = kept(s, session_present);
            let events = seq![Event::ConnectionLost] + failures(n) + seq![
                Event::ConnectSucceeded { session_present },
            ] + resubscribe_events(k) + seq![Event::Message];
            let (f, actions) = run(s, events);
            &&& f == Lifecycle { state: ConnectionState::Connected, subscribed: true }
            &&& actions == seq![Action::Reconnect { delay_ms: 0 }] + Seq::new(
                n,
                |i: int| Action::Reconnect { delay_ms: RECONNECT_DELAY_MS },
            ) + resubscribe_actions(k) + seq![Action::Process]
        }),
{
    let k = kept(s, session_present);
    let lost = seq![Event::ConnectionLost];
    let ok = seq![Event::ConnectSucceeded { session_present }];
    let resub = resubscribe_events(k);
    let msg = seq![Event::Message];
    let r = Lifecycle { state: ConnectionState::Reconnecting, subscribed: s.subscribed };
    let c = Lifecycle { state: ConnectionState::Connected, subscribed: true };
    let c0 = Lifecycle { state: ConnectionState::Connected, subscribed: k };
    lemma_run_append(s, lost + failures(n) + ok + resub, msg);
    lemma_run_append(s, lost + failures(n) + ok, resub);
    lemma_run_append(s, lost + failures(n), ok);
    lemma_run_append(s, lost, failures(n));
    lemma_run_one(s, Event::ConnectionLost);
    lemma_retry_forever(r, n);
    lemma_run_one(r, Event::ConnectSucceeded { session_present });
    assert(run(r, ok).0 == c0);
    if k {
        assert(run(c0, resub) == (c0, Seq::<Action>::empty()));
        assert(resub.len() == 0);
    } else {
        lemma_run_one(c0, Event::SubscribeSucceeded);
    }
    assert(run(c0, resub).0 == c);
    lemma_run_one(c, Event::Message);
    let actions = run(s, lost + failures(n) + ok + resub + msg).1;
    let head = seq![Action::Reconnect { delay_ms: 0 }] + Seq::new(
        n,
        |i: int| Action::Reconnect { delay_ms: RECONNECT_DELAY_MS },
    );
    if k {
        assert(actions =~= head + seq![Action::Resume] + Seq::<Action>::empty() + seq![Action::Process]);
    } else {
        assert(actions =~= head + seq![Action::Subscribe { delay_ms: 0 }] + seq![Action::Resume]
            + seq![Action::Process]);
    }
    assert(actions =~= head + resubscribe_actions(k) + seq![Action::Process]);
}

} // verus!
