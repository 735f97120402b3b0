//! A session with the compositor, as a state machine: what to do next, and
//! what follows from how it went.
//!
//! The caller does the work that the session asks for (connect, wait for a
//! message, send a command) and reports how it went. The session decides the
//! rest: it follows the events, has the workspace names brought in line after
//! each, and on the stop signal has every name taken away before it ends.

use crate::order::ascending;
use crate::reconcile::{
    lemma_reconciliation_covers, lemma_sweep_covers, reconcile, reconciliation, sweep, unset_all,
    views, workspaces_of, Command, CommandView,
};
use crate::event::Event;
use crate::state::{after, is_finite, lemma_after_is_finite, State};
use crate::tracker::Tracker;
use std::collections::VecDeque;
use vstd::prelude::*;

verus! {

/// Where a session stands.
#[derive(Clone, Copy, Debug, PartialEq, Eq, Structural)]
pub enum Phase {
    /// Not yet connected to the compositor.
    Connecting,
    /// Following the compositor's events.
    Streaming,
    /// Told to stop: taking the workspace names away.
    Draining,
    /// At its end.
    Terminated,
}

/// What went wrong in a session.
#[derive(Clone, Copy, Debug, PartialEq, Eq, Structural)]
pub enum Failure {
    /// The compositor could not be reached.
    Connection,
    /// The compositor did not grant the stream of events.
    Handshake,
    /// A command could not be sent, or the compositor refused it.
    Send,
    /// The handler for the stop signal could not be set.
    ShutdownSignal,
}

/// What the caller is to do next.
#[derive(Debug, PartialEq, Eq)]
pub enum Action {
    /// Connect to the compositor, ask for its events and set the handler for
    /// the stop signal, then report `Input::Connected`.
    Connect,
    /// Wait for the next message, then report `Input::Message`.
    Receive,
    /// Send this command over a connection of its own, then report
    /// `Input::Sent`.
    Send(Command),
    /// End the process: cleanly, or with the failure given.
    Exit(Option<Failure>),
}

/// An action, with its command by its view.
pub enum ActionView {
    /// Connect to the compositor.
    Connect,
    /// Wait for the next message.
    Receive,
    /// Send this command.
    Send(CommandView),
    /// End the process.
    Exit(Option<Failure>),
}

impl View for Action {
    type V = ActionView;

    open spec fn view(&self) -> ActionView {
        match self {
            Action::Connect => ActionView::Connect,
            Action::Receive => ActionView::Receive,
            Action::Send(command) => ActionView::Send(command@),
            Action::Exit(failure) => ActionView::Exit(*failure),
        }
    }
}

/// What came of the action that the session asked for.
#[derive(Debug, PartialEq, Eq)]
pub enum Input {
    /// The session is connected, or it failed to connect in the way given.
    Connected(Result<(), Failure>),
    /// An event has come, or, with `None`, the stop signal or the end of the
    /// stream.
    Message(Option<Event>),
    /// The command was sent and accepted (`true`), or it was not (`false`).
    Sent(bool),
}

/// A session as the contracts see it.
pub struct SessionView {
    /// Where the session stands.
    pub phase: Phase,
    /// The tracked state.
    pub state: State,
    /// The commands that are still to be sent, the next one first.
    pub pending: Seq<CommandView>,
    /// The first failure, if there was one.
    pub failure: Option<Failure>,
}

impl SessionView {
    /// A session at its start.
    pub open spec fn initial() -> SessionView {
        SessionView {
            phase: Phase::Connecting,
            state: Map::empty(),
            pending: Seq::empty(),
            failure: None,
        }
    }

    /// What the caller is to do next.
    pub open spec fn action(self) -> ActionView {
        match self.phase {
            Phase::Connecting => ActionView::Connect,
            Phase::Streaming => if self.pending.len() > 0 {
                ActionView::Send(self.pending[0])
            } else {
                ActionView::Receive
            },
            Phase::Draining => if self.pending.len() > 0 {
                ActionView::Send(self.pending[0])
            } else {
                ActionView::Exit(self.failure)
            },
            Phase::Terminated => ActionView::Exit(self.failure),
        }
    }

    /// The session on its way out, with `pending` still to be sent: at its
    /// end once nothing is left.
    pub open spec fn draining(self, pending: Seq<CommandView>) -> SessionView {
        SessionView {
            phase: if pending.len() == 0 {
                Phase::Terminated
            } else {
                Phase::Draining
            },
            pending,
            ..self
        }
    }

    /// The session at its end, after the failure `failure`.
    pub open spec fn failed(self, failure: Failure) -> SessionView {
        SessionView {
            phase: Phase::Terminated,
            pending: Seq::empty(),
            failure: Some(failure),
            ..self
        }
    }

    /// The session after a command was sent, or, with `ok` false, was not.
    ///
    /// While it follows events a command that fails ends the session at once.
    /// On its way out the session notes the failure and goes on with the
    /// commands that are left.
    pub open spec fn after_sent(self, ok: bool) -> SessionView {
        if self.phase == Phase::Streaming {
            if ok {
                SessionView { pending: self.pending.drop_first(), ..self }
            } else {
                self.failed(Failure::Send)
            }
        } else {
            SessionView {
                failure: if ok || self.failure is Some {
                    self.failure
                } else {
                    Some(Failure::Send)
                },
                ..self
            }.draining(self.pending.drop_first())
        }
    }

    /// The session after `input`. An input that does not answer the action
    /// that the session asked for leaves it as it is.
    pub open spec fn after(self, input: Input) -> SessionView {
        match (self.action(), input) {
            (ActionView::Connect, Input::Connected(Ok(_))) => SessionView {
                phase: Phase::Streaming,
                ..self
            },
            (ActionView::Connect, Input::Connected(Err(failure))) => self.failed(failure),
            (ActionView::Receive, Input::Message(Some(event))) => {
                let state = after(self.state, event);
                SessionView { state, pending: reconciliation(state), ..self }
            },
            (ActionView::Receive, Input::Message(None)) => self.draining(sweep(self.state)),
            (ActionView::Send(_), Input::Sent(ok)) => self.after_sent(ok),
            _ => self,
        }
    }
}

/// Whether `pending` is what is left of `all` after some of its first commands.
pub open spec fn is_rest_of(pending: Seq<CommandView>, all: Seq<CommandView>) -> bool {
    exists|n: int| 0 <= n <= all.len() && pending == #[trigger] all.skip(n)
}

impl SessionView {
    /// Whether the session is in a state that a session can come to: what is
    /// pending is the rest of a reconciliation while it follows events, and
    /// the rest of a sweep, with something left, on its way out; nothing is
    /// pending before it is connected and at its end.
    pub open spec fn is_sound(self) -> bool {
        &&& is_finite(self.state)
        &&& match self.phase {
            Phase::Connecting => self.pending.len() == 0 && self.failure is None,
            Phase::Streaming => self.failure is None && is_rest_of(
                self.pending,
                reconciliation(self.state),
            ),
            Phase::Draining => self.pending.len() > 0 && is_rest_of(
                self.pending,
                sweep(self.state),
            ),
            Phase::Terminated => self.pending.len() == 0,
        }
    }

    /// A session at its start is sound.
    pub proof fn lemma_initial_is_sound()
        ensures
            SessionView::initial().is_sound(),
    {
    }

    /// The session after `inputs`, the first input first.
    pub open spec fn run(self, inputs: Seq<Input>) -> SessionView
        decreases inputs.len(),
    {
        if inputs.len() == 0 {
            self
        } else {
            self.after(inputs.first()).run(inputs.drop_first())
        }
    }

    /// The commands that the session issues over `inputs`: each command that
    /// it asked to send and of which an input then told how the sending went.
    pub open spec fn issued(self, inputs: Seq<Input>) -> Seq<CommandView>
        decreases inputs.len(),
    {
        if inputs.len() == 0 {
            Seq::empty()
        } else {
            let later = self.after(inputs.first()).issued(inputs.drop_first());
            match (self.action(), inputs.first()) {
                (ActionView::Send(command), Input::Sent(_)) => seq![command] + later,
                _ => later,
            }
        }
    }

    /// A sound session is sound after any input.
    pub proof fn lemma_after_is_sound(self, input: Input)
        requires
            self.is_sound(),
        ensures
            self.after(input).is_sound(),
    {
        let next = self.after(input);
        match (self.action(), input) {
            (ActionView::Connect, Input::Connected(Ok(_))) => {
                let all = reconciliation(self.state);
                assert(next.pending =~= all.skip(all.len() as int));
            },
            (ActionView::Receive, Input::Message(Some(event))) => {
                lemma_after_is_finite(self.state, event);
                assert(next.pending =~= reconciliation(next.state).skip(0));
            },
            (ActionView::Receive, Input::Message(None)) => {
                assert(next.pending =~= sweep(next.state).skip(0));
            },
            (ActionView::Send(_), Input::Sent(ok)) => {
                let all = if self.phase == Phase::Streaming {
                    reconciliation(self.state)
                } else {
                    sweep(self.state)
                };
                let n = choose|n: int|
                    0 <= n <= all.len() && self.pending == #[trigger] all.skip(n);
                assert(self.pending.drop_first() =~= all.skip(n + 1));
            },
            _ => {},
        }
    }

    /// A sound session is sound after any inputs.
    pub proof fn lemma_run_is_sound(self, inputs: Seq<Input>)
        requires
            self.is_sound(),
        ensures
            self.run(inputs).is_sound(),
        decreases inputs.len(),
    {
        if inputs.len() > 0 {
            self.lemma_after_is_sound(inputs.first());
            self.after(inputs.first()).lemma_run_is_sound(inputs.drop_first());
        }
    }

    /// On its way out a session only sends what is pending, in that order,
    /// takes in no event, and ends when nothing is pending any more: whatever
    /// the inputs, what it has issued and what is still pending are together
    /// what was pending.
    pub proof fn lemma_way_out(self, inputs: Seq<Input>)
        requires
            self.is_sound(),
            self.phase is Draining || self.phase is Terminated,
        ensures
            self.run(inputs).phase is Draining || self.run(inputs).phase is Terminated,
            self.run(inputs).state == self.state,
            self.issued(inputs) + self.run(inputs).pending == self.pending,
            !(self.run(inputs).action() is Receive),
            !(self.run(inputs).action() is Connect),
        decreases inputs.len(),
    {
        if inputs.len() > 0 {
            let next = self.after(inputs.first());
            let rest = inputs.drop_first();
            self.lemma_after_is_sound(inputs.first());
            next.lemma_way_out(rest);
            match (self.action(), inputs.first()) {
                (ActionView::Send(command), Input::Sent(_)) => {
                    assert(self.pending =~= seq![command] + next.pending);
                },
                _ => {
                    assert(next == self);
                },
            }
            assert(self.issued(inputs) + self.run(inputs).pending =~= self.pending);
        } else {
            assert(self.issued(inputs) + self.pending =~= self.pending);
        }
    }

    /// The stop signal, or the end of the stream, starts the sweep: from then
    /// on the session issues nothing but the commands that take the names of
    /// the workspaces it tracked at that time away, in ascending order of the
    /// workspaces, however the sending goes and whatever else comes in. It
    /// takes in no further event, and when it has ended it has issued the
    /// command for each of those workspaces exactly once.
    pub proof fn lemma_stop_sweeps(self, inputs: Seq<Input>)
        requires
            self.is_sound(),
            self.action() is Receive,
        ensures
            ({
                let stopped = self.after(Input::Message(None));
                let end = stopped.run(inputs);
                let issued = stopped.issued(inputs);
                &&& issued.len() <= sweep(self.state).len()
                &&& issued == sweep(self.state).take(issued.len() as int)
                &&& end.phase is Terminated ==> issued == sweep(self.state)
                &&& end.phase is Terminated ==> workspaces_of(issued) == ascending(
                    self.state.dom(),
                )
                &&& end.phase is Terminated ==> workspaces_of(issued).no_duplicates()
                &&& end.phase is Terminated ==> workspaces_of(issued).to_set()
                    == self.state.dom()
                &&& forall|i: int|
                    0 <= i < issued.len() ==> #[trigger] issued[i] is UnsetWorkspaceName
                &&& end.state == self.state
                &&& end.action() is Exit || (end.action() matches ActionView::Send(command)
                    && command is UnsetWorkspaceName)
            }),
    {
        let stopped = self.after(Input::Message(None));
        let end = stopped.run(inputs);
        let issued = stopped.issued(inputs);
        self.lemma_after_is_sound(Input::Message(None));
        stopped.lemma_way_out(inputs);
        stopped.lemma_run_is_sound(inputs);
        lemma_sweep_covers(self.state);
        assert(issued + end.pending == sweep(self.state));
        assert(issued =~= sweep(self.state).take(issued.len() as int));
        if end.phase is Terminated {
            assert(issued =~= sweep(self.state));
        }
        if end.pending.len() > 0 {
            assert(end.pending[0] == sweep(self.state)[issued.len() as int]);
        }
    }

    /// After an event the session has the workspace names brought in line:
    /// if each command is sent and accepted, it has issued the reconciliation
    /// of the new state, one command for each workspace, when it next waits
    /// for a message.
    pub proof fn lemma_event_reconciles(self, event: Event)
        requires
            self.is_sound(),
            self.action() is Receive,
        ensures
            ({
                let taken = self.after(Input::Message(Some(event)));
                let accepted = Seq::new(taken.pending.len(), |i: int| Input::Sent(true));
                &&& taken.state == after(self.state, event)
                &&& taken.issued(accepted) == reconciliation(taken.state)
                &&& workspaces_of(taken.issued(accepted)) == ascending(taken.state.dom())
                &&& workspaces_of(taken.issued(accepted)).no_duplicates()
                &&& workspaces_of(taken.issued(accepted)).to_set() == taken.state.dom()
                &&& taken.run(accepted).state == taken.state
                &&& taken.run(accepted).action() is Receive
            }),
    {
        let taken = self.after(Input::Message(Some(event)));
        taken.lemma_all_accepted(taken.pending.len());
        assert(taken.pending.take(taken.pending.len() as int) == taken.pending);
        lemma_after_is_finite(self.state, event);
        lemma_reconciliation_covers(taken.state);
    }

    /// While it follows events, a session whose next `n` commands are sent
    /// and accepted has issued just these.
    proof fn lemma_all_accepted(self, n: nat)
        requires
            self.phase is Streaming,
            n <= self.pending.len(),
        ensures
            ({
                let accepted = Seq::new(n, |i: int| Input::Sent(true));
                &&& self.issued(accepted) == self.pending.take(n as int)
                &&& self.run(accepted) == SessionView {
                    pending: self.pending.skip(n as int),
                    ..self
                }
            }),
        decreases n,
    {
        let accepted = Seq::new(n, |i: int| Input::Sent(true));
        if n > 0 {
            let next = self.after(Input::Sent(true));
            let fewer = Seq::new((n - 1) as nat, |i: int| Input::Sent(true));
            next.lemma_all_accepted((n - 1) as nat);
            assert(accepted.drop_first() =~= fewer);
            assert(accepted.first() == Input::Sent(true));
            assert(self.issued(accepted) =~= self.pending.take(n as int));
            assert(next.pending.skip(n - 1) =~= self.pending.skip(n as int));
        } else {
            assert(self.issued(accepted) =~= self.pending.take(0));
            assert(self.pending.skip(0) =~= self.pending);
        }
    }
}

/// `commands` as a queue, the first command at its front.
fn queue_of(commands: Vec<Command>) -> (queue: VecDeque<Command>)
    ensures
        queue@ == commands@,
{
    let mut queue: VecDeque<Command> = VecDeque::new();
    for command in walk: commands
        invariant
            queue@ == walk.seq().take(walk.index()),
            walk.seq() == commands@,
    {
        queue.push_back(command);
        assert(walk.seq().take(walk.index() + 1) =~= walk.seq().take(walk.index()).push(command));
    }
    assert(commands@.take(commands@.len() as int) == commands@);
    queue
}

/// A session with the compositor.
pub struct Session {
    phase: Phase,
    tracker: Tracker,
    pending: VecDeque<Command>,
    failure: Option<Failure>,
}

impl View for Session {
    type V = SessionView;

    closed spec fn view(&self) -> SessionView {
        SessionView {
            phase: self.phase,
            state: self.tracker@,
            pending: views(self.pending@),
            failure: self.failure,
        }
    }
}

impl Session {
    /// A session at its start.
    pub fn new() -> (session: Session)
        ensures
            session@ == SessionView::initial(),
    {
        let session = Session {
            phase: Phase::Connecting,
            tracker: Tracker::new(),
            pending: VecDeque::new(),
            failure: None,
        };
        assert(session@.pending =~= Seq::empty());
        session
    }

    /// Where the session stands.
    pub fn phase(&self) -> (phase: Phase)
        ensures
            phase == self@.phase,
    {
        self.phase
    }

    /// The first failure, if there was one.
    pub fn failure(&self) -> (failure: Option<Failure>)
        ensures
            failure == self@.failure,
    {
        self.failure
    }

    /// The tracked state.
    pub fn tracker(&self) -> (tracker: &Tracker)
        ensures
            tracker@ == self@.state,
    {
        &self.tracker
    }

    /// What the caller is to do next.
    pub fn next_action(&self) -> (action: Action)
        ensures
            action@ == self@.action(),
    {
        match self.phase {
            Phase::Connecting => Action::Connect,
            Phase::Streaming => if self.pending.len() > 0 {
                Action::Send(self.pending[0].clone())
            } else {
                Action::Receive
            },
            Phase::Draining => if self.pending.len() > 0 {
                Action::Send(self.pending[0].clone())
            } else {
                Action::Exit(self.failure)
            },
            Phase::Terminated => Action::Exit(self.failure),
        }
    }

    /// Ends the session after the failure `failure`.
    fn fail(&mut self, failure: Failure)
        ensures
            final(self)@ == old(self)@.failed(failure),
    {
        self.phase = Phase::Terminated;
        self.pending = VecDeque::new();
        self.failure = Some(failure);
        assert(self@.pending =~= Seq::empty());
    }

    /// Puts the session on its way out, with `commands` still to be sent.
    fn drain(&mut self, commands: VecDeque<Command>)
        ensures
            final(self)@ == old(self)@.draining(views(commands@)),
    {
        self.phase = if commands.len() == 0 {
            Phase::Terminated
        } else {
            Phase::Draining
        };
        self.pending = commands;
    }

    /// Takes in that the command at the front was sent, or was not.
    fn sent(&mut self, ok: bool)
        requires
            old(self)@.pending.len() > 0,
        ensures
            final(self)@ == old(self)@.after_sent(ok),
    {
        let ghost before = self.pending@;
        match self.phase {
            Phase::Streaming => {
                if ok {
                    self.pending.pop_front();
                    assert(views(self.pending@) =~= views(before).drop_first());
                } else {
                    self.fail(Failure::Send);
                }
            },
            _ => {
                if !ok && self.failure.is_none() {
                    self.failure = Some(Failure::Send);
                }
                self.pending.pop_front();
                assert(views(self.pending@) =~= views(before).drop_first());
                if self.pending.len() == 0 {
                    self.phase = Phase::Terminated;
                } else {
                    self.phase = Phase::Draining;
                }
            },
        }
    }

    /// Takes in what came of the action that the session asked for.
    pub fn step(&mut self, input: Input)
        ensures
            final(self)@ == old(self)@.after(input),
    {
        match self.phase {
            Phase::Connecting => {
                match input {
                    Input::Connected(Ok(_)) => {
                        self.phase = Phase::Streaming;
                    },
                    Input::Connected(Err(failure)) => {
                        self.fail(failure);
                    },
                    _ => {},
                }
            },
            Phase::Streaming => {
                if self.pending.len() > 0 {
                    if let Input::Sent(ok) = input {
                        self.sent(ok);
                    }
                } else {
                    match input {
                        Input::Message(Some(event)) => {
                            self.tracker.apply(&event);
                            self.pending = queue_of(reconcile(&self.tracker));
                        },
                        Input::Message(None) => {
                            let commands = queue_of(unset_all(&self.tracker));
                            self.drain(commands);
                        },
                        _ => {},
                    }
                }
            },
            Phase::Draining => {
                if self.pending.len() > 0 {
                    if let Input::Sent(ok) = input {
                        self.sent(ok);
                    }
                }
            },
            Phase::Terminated => {},
        }
    }
}

} // verus!
