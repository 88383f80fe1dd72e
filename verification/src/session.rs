//! The life of one connection as a state machine: each signal from the connection
//! gives the next state and what the caller is to do.

use vstd::prelude::*;
use crate::tier::{Tier, negotiate, negotiated_tier};

verus! {

/// What a connection is to the hub.
#[derive(Clone, Copy, Debug, PartialEq, Eq, Structural)]
pub enum Role {
    /// It pushes events; it is never registered.
    Producer,
    /// It subscribes and receives events.
    Consumer,
}

/// Where a session stands.
#[derive(Clone, Copy, Debug, PartialEq, Eq, Structural)]
pub enum Phase {
    /// A consumer whose first message is still awaited.
    AwaitingSubscription,
    /// In service.
    Active,
    /// Torn down.
    Closed,
}

/// The state of one session.
#[derive(Clone, Copy, Debug, PartialEq, Eq, Structural)]
pub struct Session {
    pub role: Role,
    pub phase: Phase,
    /// The subscription tier; it has a meaning for an active consumer only.
    pub tier: Tier,
}

/// What a connection reports.
#[derive(Clone, Copy, Debug)]
pub enum Signal<'a> {
    /// A text message arrived.
    Text(&'a str),
    /// The bounded wait for the first message ran out.
    Silence,
    /// The peer closed, the stream ended, or reading failed.
    Closed,
    /// Writing to the connection failed.
    WriteFailed,
    /// A message of another kind arrived.
    Other,
}

/// The mathematical value of a [`Signal`].
pub enum SignalView {
    Text(Seq<char>),
    Silence,
    Closed,
    WriteFailed,
    Other,
}

impl<'a> View for Signal<'a> {
    type V = SignalView;

    open spec fn view(&self) -> SignalView {
        match self {
            Signal::Text(text) => SignalView::Text(text@),
            Signal::Silence => SignalView::Silence,
            Signal::Closed => SignalView::Closed,
            Signal::WriteFailed => SignalView::WriteFailed,
            Signal::Other => SignalView::Other,
        }
    }
}

/// What the caller is to do after a signal.
#[derive(Clone, Copy, Debug, PartialEq, Eq, Structural)]
pub enum Action {
    /// Register the session with this tier: the handshake is over.
    Subscribe(Tier),
    /// Hand the text to the classifier and on to the dispatcher.
    Process,
    /// Stop both loops of the session; `deregister` says whether the session has an
    /// entry in the registry to remove.
    Teardown { deregister: bool },
    /// Nothing.
    Nothing,
}

/// The tier that the signal which ends the handshake settles.
pub open spec fn settled_tier(signal: SignalView) -> Tier {
    match signal {
        SignalView::Text(text) => negotiated_tier(Some(text)),
        _ => negotiated_tier(None),
    }
}

/// The state after a signal.
pub open spec fn next_session(session: Session, signal: SignalView) -> Session {
    match session.phase {
        Phase::Closed => session,
        Phase::AwaitingSubscription => match signal {
            SignalView::WriteFailed => Session { phase: Phase::Closed, ..session },
            _ => Session { phase: Phase::Active, tier: settled_tier(signal), ..session },
        },
        Phase::Active => match signal {
            SignalView::Closed | SignalView::WriteFailed => Session {
                phase: Phase::Closed,
                ..session
            },
            _ => session,
        },
    }
}

/// What the caller is to do after a signal.
pub open spec fn next_action(session: Session, signal: SignalView) -> Action {
    match session.phase {
        Phase::Closed => Action::Nothing,
        Phase::AwaitingSubscription => match signal {
            SignalView::WriteFailed => Action::Teardown { deregister: false },
            _ => Action::Subscribe(settled_tier(signal)),
        },
        Phase::Active => match signal {
            SignalView::Closed | SignalView::WriteFailed => Action::Teardown {
                deregister: session.role == Role::Consumer,
            },
            SignalView::Text(_) => if session.role == Role::Producer {
                Action::Process
            } else {
                Action::Nothing
            },
            _ => Action::Nothing,
        },
    }
}

impl Session {
    /// The state of a connection that was just accepted: a producer is in service at
    /// once, a consumer awaits its subscription.
    pub fn new(role: Role) -> (session: Session)
        ensures
            session == (Session {
                role,
                phase: if role == Role::Consumer {
                    Phase::AwaitingSubscription
                } else {
                    Phase::Active
                },
                tier: Tier::All,
            }),
    {
        match role {
            Role::Consumer => Session { role, phase: Phase::AwaitingSubscription, tier: Tier::All },
            Role::Producer => Session { role, phase: Phase::Active, tier: Tier::All },
        }
    }

    /// Takes one signal: moves to the next state and says what to do.
    pub fn step(&mut self, signal: Signal<'_>) -> (action: Action)
        ensures
            *final(self) == next_session(*old(self), signal@),
            action == next_action(*old(self), signal@),
    {
        match self.phase {
            Phase::Closed => Action::Nothing,
            Phase::AwaitingSubscription => match signal {
                Signal::WriteFailed => {
                    self.phase = Phase::Closed;
                    Action::Teardown { deregister: false }
                },
                Signal::Text(text) => {
                    let tier = negotiate(Some(text));
                    self.phase = Phase::Active;
                    self.tier = tier;
                    Action::Subscribe(tier)
                },
                _ => {
                    let tier = negotiate(None);
                    self.phase = Phase::Active;
                    self.tier = tier;
                    Action::Subscribe(tier)
                },
            },
            Phase::Active => match signal {
                Signal::Closed | Signal::WriteFailed => {
                    self.phase = Phase::Closed;
                    Action::Teardown { deregister: self.role == Role::Consumer }
                },
                Signal::Text(_) => {
                    if self.role == Role::Producer {
                        Action::Process
                    } else {
                        Action::Nothing
                    }
                },
                _ => Action::Nothing,
            },
        }
    }
}

/// The state after a run of signals.
pub open spec fn session_after(session: Session, signals: Seq<SignalView>) -> Session
    decreases signals.len(),
{
    if signals.len() == 0 {
        session
    } else {
        next_session(session_after(session, signals.drop_last()), signals.last())
    }
}

/// What the caller is told at the `i`-th signal of a run.
pub open spec fn action_at(session: Session, signals: Seq<SignalView>, i: int) -> Action {
    next_action(session_after(session, signals.take(i)), signals[i])
}

/// A session never goes back: a closed one stays closed, and one that has left the
/// handshake never awaits a subscription again, nor changes its tier or its role.
pub proof fn lemma_session_moves_forward(session: Session, signals: Seq<SignalView>)
    ensures
        session_after(session, signals).role == session.role,
        session.phase == Phase::Closed ==> session_after(session, signals) == session,
        session.phase != Phase::AwaitingSubscription ==> session_after(session, signals).phase
            != Phase::AwaitingSubscription && session_after(session, signals).tier == session.tier,
    decreases signals.len(),
{
    if signals.len() > 0 {
        lemma_session_moves_forward(session, signals.drop_last());
    }
}

/// A run of signals, cut in two: the state after the whole is the state after the
/// second part, started from the state after the first.
pub proof fn lemma_session_after_split(session: Session, signals: Seq<SignalView>, at: int)
    requires
        0 <= at <= signals.len(),
    ensures
        session_after(session, signals) == session_after(
            session_after(session, signals.take(at)),
            signals.skip(at),
        ),
    decreases signals.len(),
{
    if at == signals.len() {
        assert(signals.take(at) =~= signals);
        assert(signals.skip(at) =~= Seq::<SignalView>::empty());
    } else {
        lemma_session_after_split(session, signals.drop_last(), at);
        assert(signals.drop_last().take(at) =~= signals.take(at));
        assert(signals.drop_last().skip(at) =~= signals.skip(at).drop_last());
        assert(signals.skip(at).last() == signals.last());
    }
}

/// A session is torn down at most once: after the signal that tears it down, every
/// signal is answered with `Nothing`.
pub proof fn lemma_teardown_once(session: Session, signals: Seq<SignalView>, i: int, j: int)
    requires
        0 <= i < j < signals.len(),
        action_at(session, signals, i) is Teardown,
    ensures
        action_at(session, signals, j) == Action::Nothing,
{
    let before = session_after(session, signals.take(i));
    let closed = next_session(before, signals[i]);
    assert(closed.phase == Phase::Closed);
    assert(signals.take(i + 1).drop_last() =~= signals.take(i));
    assert(session_after(session, signals.take(i + 1)) == closed);
    lemma_session_after_split(session, signals.take(j), i + 1);
    assert(signals.take(j).take(i + 1) =~= signals.take(i + 1));
    lemma_session_moves_forward(closed, signals.take(j).skip(i + 1));
}

/// A session subscribes at most once: after the signal that ends the handshake, no
/// signal is answered with `Subscribe`, and the tier stays what the handshake made
/// it.
pub proof fn lemma_subscribes_once(session: Session, signals: Seq<SignalView>, i: int, j: int)
    requires
        0 <= i < j < signals.len(),
        action_at(session, signals, i) matches Action::Subscribe(_),
    ensures
        !(action_at(session, signals, j) matches Action::Subscribe(_)),
        action_at(session, signals, i) == Action::Subscribe(
            session_after(session, signals.take(j)).tier,
        ),
{
    let before = session_after(session, signals.take(i));
    let active = next_session(before, signals[i]);
    assert(active.phase == Phase::Active);
    assert(signals.take(i + 1).drop_last() =~= signals.take(i));
    assert(session_after(session, signals.take(i + 1)) == active);
    lemma_session_after_split(session, signals.take(j), i + 1);
    assert(signals.take(j).take(i + 1) =~= signals.take(i + 1));
    lemma_session_moves_forward(active, signals.take(j).skip(i + 1));
}

/// A consumer whose handshake ends without the literal `SUBSCRIBE:important`, be it
/// by another text, by silence, by a message of another kind or by the peer closing,
/// is subscribed with tier `All`.
pub proof fn lemma_handshake_default(session: Session, signal: SignalView)
    requires
        session.phase == Phase::AwaitingSubscription,
        signal != SignalView::WriteFailed,
        signal != SignalView::Text("SUBSCRIBE:important"@),
    ensures
        next_action(session, signal) == Action::Subscribe(Tier::All),
        next_session(session, signal).tier == Tier::All,
        next_session(session, signal).phase == Phase::Active,
{
}

} // verus!
