//! A subscriber session: which batches it takes, which filter it applies,
//! and when it ends.
//!
//! A session is three tasks: the dispatch task hands batches to the client,
//! the reader task takes filter updates from the client, and the heartbeat
//! task pings the client. The tasks wait elsewhere; here is what each of
//! them decides when something has happened.

use vstd::prelude::*;
use crate::commitment::CommitmentLevel;

verus! {

/// Seconds between two pings of the heartbeat task.
pub const HEARTBEAT_INTERVAL_SECS: u64 = 10;

/// What an attempt to queue an update for the client without waiting came
/// to.
#[derive(Debug, Clone, Copy, PartialEq, Eq, Structural)]
pub enum TrySend {
    /// The update is queued.
    Sent,
    /// The queue is full: the client does not keep up.
    Full,
    /// The client is gone.
    Closed,
}

/// Why the fan-out bus handed the session no batch.
#[derive(Debug, Clone, Copy, PartialEq, Eq, Structural)]
pub enum ReceiveError {
    /// The session fell behind and missed this many batches.
    Lagged(u64),
    /// The bus is gone.
    Closed,
}

/// What the dispatch task hears on its control channel.
#[derive(Debug)]
pub enum Control<F> {
    /// A new filter, with the commitment level that it asks for.
    Filter(F, CommitmentLevel),
    /// A sibling task asks the session to end.
    Close,
    /// The control channel is gone.
    Disconnected,
}

/// What the dispatch task does next.
#[derive(Debug, Clone, Copy, PartialEq, Eq, Structural)]
pub enum SessionStep {
    /// Goes on.
    Continue,
    /// Ends the session after telling the client that it lagged.
    Lagged,
    /// Ends the session.
    End,
}

/// The state of a session.
pub struct SessionView<F> {
    pub id: usize,
    pub filter: F,
    pub commitment: CommitmentLevel,
    pub open: bool,
}

impl<F> SessionView<F> {
    /// The session after a control message: a filter replaces the one in
    /// use, anything else ends the session. An ended session stays as it is.
    pub open spec fn after_control(self, control: Control<F>) -> (SessionView<F>, SessionStep) {
        if !self.open {
            (self, SessionStep::End)
        } else {
            match control {
                Control::Filter(filter, commitment) => (
                    SessionView { id: self.id, filter, commitment, open: true },
                    SessionStep::Continue,
                ),
                _ => (SessionView { open: false, ..self }, SessionStep::End),
            }
        }
    }

    /// Whether the session looks into a batch: only while it is open, and
    /// only into batches at the commitment of its filter.
    pub open spec fn takes(self, commitment: CommitmentLevel) -> bool {
        self.open && commitment == self.commitment
    }

    /// The session after an attempt to queue an update: a full queue ends it
    /// with a lag notice, a closed one ends it silently.
    pub open spec fn after_send(self, outcome: TrySend) -> (SessionView<F>, SessionStep) {
        if !self.open {
            (self, SessionStep::End)
        } else {
            match outcome {
                TrySend::Sent => (self, SessionStep::Continue),
                TrySend::Full => (SessionView { open: false, ..self }, SessionStep::Lagged),
                TrySend::Closed => (SessionView { open: false, ..self }, SessionStep::End),
            }
        }
    }

    /// The session after the bus had no batch for it: having lagged ends it
    /// with a lag notice, a closed bus ends it silently.
    pub open spec fn after_receive_error(self, error: ReceiveError) -> (
        SessionView<F>,
        SessionStep,
    ) {
        if !self.open {
            (self, SessionStep::End)
        } else {
            match error {
                ReceiveError::Lagged(_) => (
                    SessionView { open: false, ..self },
                    SessionStep::Lagged,
                ),
                ReceiveError::Closed => (SessionView { open: false, ..self }, SessionStep::End),
            }
        }
    }
}

/// The dispatch task of a session, with the filter that it applies.
pub struct Session<F> {
    id: usize,
    filter: F,
    commitment: CommitmentLevel,
    open: bool,
}

impl<F> View for Session<F> {
    type V = SessionView<F>;

    closed spec fn view(&self) -> SessionView<F> {
        SessionView {
            id: self.id,
            filter: self.filter,
            commitment: self.commitment,
            open: self.open,
        }
    }
}

impl<F> Session<F> {
    /// An open session with its first filter.
    pub fn new(id: usize, filter: F, commitment: CommitmentLevel) -> (session: Self)
        ensures
            session@ == (SessionView { id, filter, commitment, open: true }),
    {
        Session { id, filter, commitment, open: true }
    }

    /// The number of the session.
    pub fn id(&self) -> (id: usize)
        ensures
            id == self@.id,
    {
        self.id
    }

    /// The filter in use.
    pub fn filter(&self) -> (filter: &F)
        ensures
            *filter == self@.filter,
    {
        &self.filter
    }

    /// The commitment level of the filter in use.
    pub fn commitment(&self) -> (commitment: CommitmentLevel)
        ensures
            commitment == self@.commitment,
    {
        self.commitment
    }

    /// Whether the session has not ended.
    pub fn is_open(&self) -> (open: bool)
        ensures
            open == self@.open,
    {
        self.open
    }

    /// Takes a control message; see [`SessionView::after_control`].
    pub fn on_control(&mut self, control: Control<F>) -> (step: SessionStep)
        ensures
            final(self)@ == old(self)@.after_control(control).0,
            step == old(self)@.after_control(control).1,
    {
        if !self.open {
            return SessionStep::End;
        }
        match control {
            Control::Filter(filter, commitment) => {
                self.filter = filter;
                self.commitment = commitment;
                SessionStep::Continue
            },
            _ => {
                self.open = false;
                SessionStep::End
            },
        }
    }

    /// Whether the session looks into a batch at `commitment`; see
    /// [`SessionView::takes`].
    pub fn takes(&self, commitment: CommitmentLevel) -> (takes: bool)
        ensures
            takes == self@.takes(commitment),
    {
        self.open && commitment == self.commitment
    }

    /// Takes the outcome of queueing an update; see
    /// [`SessionView::after_send`].
    pub fn on_send(&mut self, outcome: TrySend) -> (step: SessionStep)
        ensures
            final(self)@ == old(self)@.after_send(outcome).0,
            step == old(self)@.after_send(outcome).1,
    {
        if !self.open {
            return SessionStep::End;
        }
        match outcome {
            TrySend::Sent => SessionStep::Continue,
            TrySend::Full => {
                self.open = false;
                SessionStep::Lagged
            },
            TrySend::Closed => {
                self.open = false;
                SessionStep::End
            },
        }
    }

    /// Takes a failure to receive from the bus; see
    /// [`SessionView::after_receive_error`].
    pub fn on_receive_error(&mut self, error: ReceiveError) -> (step: SessionStep)
        ensures
            final(self)@ == old(self)@.after_receive_error(error).0,
            step == old(self)@.after_receive_error(error).1,
    {
        if !self.open {
            return SessionStep::End;
        }
        self.open = false;
        match error {
            ReceiveError::Lagged(_) => SessionStep::Lagged,
            ReceiveError::Closed => SessionStep::End,
        }
    }
}

/// A filter update decides about every batch that the session looks at from
/// then on: the session takes exactly the batches at the commitment of the
/// new filter, and the filter in use is the new one.
pub proof fn lemma_filter_update_takes_effect<F>(
    session: SessionView<F>,
    filter: F,
    commitment: CommitmentLevel,
    batch: CommitmentLevel,
)
    requires
        session.open,
    ensures
        session.after_control(Control::Filter(filter, commitment)).0.filter == filter,
        session.after_control(Control::Filter(filter, commitment)).0.takes(batch) == (batch
            == commitment),
        session.after_control(Control::Filter(filter, commitment)).1 == SessionStep::Continue,
{
}

/// A session that has ended takes no batch and stays ended, whatever
/// happens.
pub proof fn lemma_ended_session_stays_ended<F>(
    session: SessionView<F>,
    control: Control<F>,
    outcome: TrySend,
    error: ReceiveError,
    batch: CommitmentLevel,
)
    requires
        !session.open,
    ensures
        !session.takes(batch),
        session.after_control(control) == (session, SessionStep::End),
        session.after_send(outcome) == (session, SessionStep::End),
        session.after_receive_error(error) == (session, SessionStep::End),
{
}

/// What the inbound stream of a session yields.
#[derive(Debug)]
pub enum Inbound<R> {
    /// A filter update from the client.
    Request(R),
    /// The client has closed the stream.
    End,
    /// The stream has failed.
    Failed,
}

/// What the reader task does with what the inbound stream yielded.
#[derive(Debug)]
pub enum ReaderStep<R> {
    /// Compiles the request into a filter and goes on.
    Compile(R),
    /// Asks the dispatch task to end the session, and stops.
    Close,
}

/// What the reader task does once a request has been compiled and handed to
/// the dispatch task.
#[derive(Debug, Clone, Copy, PartialEq, Eq, Structural)]
pub enum ReaderFollowUp {
    /// Nothing more.
    Nothing,
    /// Tells the client that its request is invalid.
    InvalidArgument,
}

/// Decides what the reader task does with what the inbound stream yielded:
/// a request is compiled, and the end of the stream or a failure of it ends
/// the session.
pub fn reader_step<R>(inbound: Inbound<R>) -> (step: ReaderStep<R>)
    ensures
        step == match inbound {
            Inbound::Request(request) => ReaderStep::Compile(request),
            Inbound::End => ReaderStep::Close,
            Inbound::Failed => ReaderStep::Close,
        },
{
    match inbound {
        Inbound::Request(request) => ReaderStep::Compile(request),
        Inbound::End => ReaderStep::Close,
        Inbound::Failed => ReaderStep::Close,
    }
}

/// Decides what the reader task does after a request: the client hears of
/// it if the request did not compile, or if the filter could not be handed
/// to the dispatch task.
pub fn reader_follow_up(compiled: bool, delivered: bool) -> (follow_up: ReaderFollowUp)
    ensures
        follow_up == (if compiled && delivered {
            ReaderFollowUp::Nothing
        } else {
            ReaderFollowUp::InvalidArgument
        }),
{
    if compiled && delivered {
        ReaderFollowUp::Nothing
    } else {
        ReaderFollowUp::InvalidArgument
    }
}

/// What the heartbeat task does after a ping.
#[derive(Debug, Clone, Copy, PartialEq, Eq, Structural)]
pub enum HeartbeatStep {
    /// Goes on.
    Continue,
    /// Asks the dispatch task to end the session, and stops.
    Close,
}

/// Decides what the heartbeat task does after a ping: only a client that is
/// gone ends the session; a full queue is no reason.
pub fn heartbeat_step(outcome: TrySend) -> (step: HeartbeatStep)
    ensures
        step == (if outcome == TrySend::Closed {
            HeartbeatStep::Close
        } else {
            HeartbeatStep::Continue
        }),
{
    match outcome {
        TrySend::Closed => HeartbeatStep::Close,
        _ => HeartbeatStep::Continue,
    }
}

} // verus!
