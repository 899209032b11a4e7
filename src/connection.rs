//! Connection life cycle: the decisions taken while the event loop is stepped
//! until the context is ready, and while it serves queries afterwards.
use vstd::prelude::*;

verus! {

/// State of the protocol context, as the client library reports it.
#[derive(Clone, Copy, Debug, PartialEq, Eq, Structural)]
pub enum ContextState {
    Unconnected,
    Connecting,
    Authorizing,
    SettingName,
    Ready,
    Failed,
    Terminated,
}

/// Outcome of one non-blocking step of the event loop.
#[derive(Clone, Copy, Debug, PartialEq, Eq, Structural)]
pub enum IterateOutcome {
    /// The step ran and dispatched whatever was pending.
    Dispatched,
    /// The loop was told to quit.
    Quit,
    /// The step failed.
    Failed,
}

/// State of the connection owned by a manager.
#[derive(Clone, Copy, Debug, PartialEq, Eq, Structural)]
pub enum ConnectionState {
    Unconnected,
    Connecting,
    Ready,
    Failed,
    Terminated,
}

/// Why a connection cannot be used. Fatal to that connection: tear it down and,
/// if wanted, retry with a fresh one.
#[derive(Clone, Copy, Debug, PartialEq, Eq, Structural)]
pub enum ConnectionError {
    /// The client library refused to start connecting.
    ConnectRefused,
    /// The event loop was told to quit.
    LoopQuit,
    /// A step of the event loop failed.
    LoopFailed,
    /// The context reported a failure.
    ContextFailed,
    /// The context was terminated.
    ContextTerminated,
}

/// What the loop driving a connect does next.
#[derive(Clone, Copy, Debug, PartialEq, Eq, Structural)]
pub enum ConnectProgress {
    /// Not ready yet: step the event loop again.
    Waiting,
    /// The context is ready for queries.
    Ready,
    /// The connect failed.
    Failed(ConnectionError),
}

/// The verdict on one step of the event loop: the loop's own outcome first, then
/// the context's state.
pub open spec fn step_verdict(outcome: IterateOutcome, context: ContextState) -> ConnectProgress {
    match outcome {
        IterateOutcome::Quit => ConnectProgress::Failed(ConnectionError::LoopQuit),
        IterateOutcome::Failed => ConnectProgress::Failed(ConnectionError::LoopFailed),
        IterateOutcome::Dispatched => match context {
            ContextState::Ready => ConnectProgress::Ready,
            ContextState::Failed => ConnectProgress::Failed(ConnectionError::ContextFailed),
            ContextState::Terminated => ConnectProgress::Failed(ConnectionError::ContextTerminated),
            _ => ConnectProgress::Waiting,
        },
    }
}

/// The connection state a verdict leaves behind.
pub open spec fn state_after(p: ConnectProgress) -> ConnectionState {
    match p {
        ConnectProgress::Waiting => ConnectionState::Connecting,
        ConnectProgress::Ready => ConnectionState::Ready,
        ConnectProgress::Failed(ConnectionError::ContextTerminated) => ConnectionState::Terminated,
        ConnectProgress::Failed(_) => ConnectionState::Failed,
    }
}

fn verdict(outcome: IterateOutcome, context: ContextState) -> (r: ConnectProgress)
    ensures
        r == step_verdict(outcome, context),
{
    match outcome {
        IterateOutcome::Quit => ConnectProgress::Failed(ConnectionError::LoopQuit),
        IterateOutcome::Failed => ConnectProgress::Failed(ConnectionError::LoopFailed),
        IterateOutcome::Dispatched => match context {
            ContextState::Ready => ConnectProgress::Ready,
            ContextState::Failed => ConnectProgress::Failed(ConnectionError::ContextFailed),
            ContextState::Terminated => ConnectProgress::Failed(ConnectionError::ContextTerminated),
            _ => ConnectProgress::Waiting,
        },
    }
}

fn state_for(p: ConnectProgress) -> (r: ConnectionState)
    ensures
        r == state_after(p),
{
    match p {
        ConnectProgress::Waiting => ConnectionState::Connecting,
        ConnectProgress::Ready => ConnectionState::Ready,
        ConnectProgress::Failed(ConnectionError::ContextTerminated) => ConnectionState::Terminated,
        ConnectProgress::Failed(_) => ConnectionState::Failed,
    }
}

/// Owns the life cycle of one connection. The caller owns the event loop and the
/// context, performs what the manager decides, and reports back what happened.
pub struct ConnectionManager {
    state: ConnectionState,
}

impl View for ConnectionManager {
    type V = ConnectionState;

    closed spec fn view(&self) -> ConnectionState {
        self.state
    }
}

impl ConnectionManager {
    /// A manager whose context has not been connected.
    pub fn new() -> (r: Self)
        ensures
            r@ == ConnectionState::Unconnected,
    {
        ConnectionManager { state: ConnectionState::Unconnected }
    }

    /// The state of the connection.
    pub fn state(&self) -> (r: ConnectionState)
        ensures
            r == self@,
    {
        self.state
    }

    /// Whether queries may be issued.
    pub fn is_ready(&self) -> (r: bool)
        ensures
            r == (self@ == ConnectionState::Ready),
    {
        self.state == ConnectionState::Ready
    }

    /// The context was asked to connect; `accepted` is whether the client library
    /// took the request. Afterwards the event loop is stepped until `on_connect_step`
    /// says otherwise.
    pub fn connect_started(&mut self, accepted: bool) -> (r: ConnectProgress)
        requires
            old(self)@ == ConnectionState::Unconnected,
        ensures
            r == if accepted {
                ConnectProgress::Waiting
            } else {
                ConnectProgress::Failed(ConnectionError::ConnectRefused)
            },
            final(self)@ == state_after(r),
    {
        if accepted {
            self.state = ConnectionState::Connecting;
            ConnectProgress::Waiting
        } else {
            self.state = ConnectionState::Failed;
            ConnectProgress::Failed(ConnectionError::ConnectRefused)
        }
    }

    /// One step of the event loop ran while connecting, with `outcome`, after which
    /// the context reported `context`. `Ready` once the context is ready; a failure
    /// of the loop or of the context ends the connect with its error.
    pub fn on_connect_step(&mut self, outcome: IterateOutcome, context: ContextState) -> (r:
        ConnectProgress)
        requires
            old(self)@ == ConnectionState::Connecting,
        ensures
            r == step_verdict(outcome, context),
            final(self)@ == state_after(r),
    {
        let r = verdict(outcome, context);
        self.state = state_for(r);
        r
    }

    /// One step of the event loop ran while the connection served queries. A failure
    /// of the loop or of the context ends the connection with its error; otherwise
    /// it stays ready.
    pub fn on_serving_step(&mut self, outcome: IterateOutcome, context: ContextState) -> (r: Result<
        (),
        ConnectionError,
    >)
        requires
            old(self)@ == ConnectionState::Ready,
        ensures
            match step_verdict(outcome, context) {
                ConnectProgress::Failed(e) => r == Err::<(), ConnectionError>(e) && final(self)@
                    == state_after(step_verdict(outcome, context)),
                _ => r is Ok && final(self)@ == ConnectionState::Ready,
            },
    {
        match verdict(outcome, context) {
            ConnectProgress::Failed(e) => {
                self.state = state_for(ConnectProgress::Failed(e));
                Err(e)
            },
            _ => Ok(()),
        }
    }

    /// Tears the connection down. Returns whether the caller must now disconnect the
    /// context and quit the event loop: true once for a context that is connecting or
    /// ready, false afterwards and for one that never connected or already ended.
    pub fn shutdown(&mut self) -> (r: bool)
        ensures
            r == (old(self)@ == ConnectionState::Connecting || old(self)@ == ConnectionState::Ready),
            final(self)@ == if r {
                ConnectionState::Terminated
            } else {
                old(self)@
            },
    {
        match self.state {
            ConnectionState::Connecting | ConnectionState::Ready => {
                self.state = ConnectionState::Terminated;
                true
            },
            _ => false,
        }
    }
}

} // verus!
