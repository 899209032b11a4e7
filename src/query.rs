//! Outstanding list queries and the decision of when all of them have finished.
//!
//! The server delivers list results through callbacks that run while its event
//! loop is stepped, one step at a time on one thread. A request's buffer is only
//! touched from those callbacks and, between steps, by the loop that drives them,
//! so it needs no lock; it is read only once every request is finished.
use vstd::prelude::*;

verus! {

/// State of one asynchronous operation against the server.
#[derive(Clone, Copy, Debug, PartialEq, Eq, Structural)]
pub enum OperationState {
    /// Still in flight.
    Running,
    /// Completed.
    Done,
    /// Cancelled; whatever arrived before stands as the result.
    Cancelled,
}

/// Whether an operation in state `s` will deliver nothing more.
pub open spec fn is_terminal(s: OperationState) -> bool {
    s != OperationState::Running
}

/// One callback event of a list query.
#[derive(Clone, Copy, Debug, PartialEq, Eq)]
pub enum ListResult<T> {
    /// One item of the list.
    Item(T),
    /// The list is complete.
    End,
    /// The server reported an error for this list.
    Error,
}

/// What a request has gathered so far.
pub ghost struct RequestView<T> {
    pub state: OperationState,
    pub items: Seq<T>,
    pub ended: bool,
    pub errors: nat,
}

/// One outstanding list query and the buffer its callback fills.
pub struct IntrospectionRequest<T> {
    state: OperationState,
    items: Vec<T>,
    ended: bool,
    errors: u64,
}

impl<T> View for IntrospectionRequest<T> {
    type V = RequestView<T>;

    closed spec fn view(&self) -> RequestView<T> {
        RequestView {
            state: self.state,
            items: self.items@,
            ended: self.ended,
            errors: self.errors as nat,
        }
    }
}

/// The state recorded after observing `observed`: a finished request stays finished.
pub open spec fn next_state(recorded: OperationState, observed: OperationState) -> OperationState {
    if is_terminal(recorded) {
        recorded
    } else {
        observed
    }
}

impl<T> IntrospectionRequest<T> {
    /// A request just issued: running, with an empty buffer.
    pub fn new() -> (r: Self)
        ensures
            r@ == (RequestView::<T> {
                state: OperationState::Running,
                items: Seq::empty(),
                ended: false,
                errors: 0,
            }),
    {
        IntrospectionRequest { state: OperationState::Running, items: Vec::new(), ended: false, errors: 0 }
    }

    /// Handles one callback event: an item is appended, the end of the list is noted,
    /// an error is counted (the count stops at `u64::MAX`).
    pub fn on_list_result(&mut self, result: ListResult<T>)
        ensures
            final(self)@.state == old(self)@.state,
            match result {
                ListResult::Item(x) => {
                    &&& final(self)@.items == old(self)@.items.push(x)
                    &&& final(self)@.ended == old(self)@.ended
                    &&& final(self)@.errors == old(self)@.errors
                },
                ListResult::End => {
                    &&& final(self)@.items == old(self)@.items
                    &&& final(self)@.ended
                    &&& final(self)@.errors == old(self)@.errors
                },
                ListResult::Error => {
                    &&& final(self)@.items == old(self)@.items
                    &&& final(self)@.ended == old(self)@.ended
                    &&& final(self)@.errors == if old(self)@.errors < u64::MAX {
                        old(self)@.errors + 1
                    } else {
                        old(self)@.errors
                    }
                },
            },
    {
        match result {
            ListResult::Item(x) => self.items.push(x),
            ListResult::End => self.ended = true,
            ListResult::Error => self.errors = self.errors.saturating_add(1),
        }
    }

    /// Records the operation's state as polled after a step of the event loop.
    pub fn observe(&mut self, observed: OperationState)
        ensures
            final(self)@ == (RequestView { state: next_state(old(self)@.state, observed), ..old(self)@ }),
    {
        if self.state == OperationState::Running {
            self.state = observed;
        }
    }

    /// The recorded state.
    pub fn state(&self) -> (r: OperationState)
        ensures
            r == self@.state,
    {
        self.state
    }

    /// Whether the request will deliver nothing more.
    pub fn is_finished(&self) -> (r: bool)
        ensures
            r == is_terminal(self@.state),
    {
        self.state != OperationState::Running
    }

    /// Number of errors the server reported for this list.
    pub fn errors(&self) -> (r: u64)
        ensures
            r as nat == self@.errors,
    {
        self.errors
    }

    /// Whether the end of the list was signalled.
    pub fn ended(&self) -> (r: bool)
        ensures
            r == self@.ended,
    {
        self.ended
    }

    /// The items gathered, in delivery order; a cancelled request yields what arrived.
    pub fn into_items(self) -> (r: Vec<T>)
        requires
            is_terminal(self@.state),
        ensures
            r@ == self@.items,
    {
        self.items
    }
}

/// Whether every state in `s` is terminal.
pub open spec fn all_terminal(s: Seq<OperationState>) -> bool {
    forall|i: int| 0 <= i < s.len() ==> is_terminal(#[trigger] s[i])
}

/// What the driving loop does after a step.
#[derive(Clone, Copy, Debug, PartialEq, Eq, Structural)]
pub enum AwaitStatus {
    /// Some request is still running: step the event loop again.
    Pending,
    /// Every request is done or cancelled: the buffers may be read.
    Complete,
}

/// Steps taken and state of each request, as the coordinator has recorded them.
pub ghost struct CoordinatorView {
    pub states: Seq<OperationState>,
    pub steps: nat,
}

/// Tracks a set of outstanding requests while the event loop is stepped, and says
/// when all of them have finished. Any number of requests may be outstanding.
pub struct QueryCoordinator {
    states: Vec<OperationState>,
    steps: u64,
}

impl View for QueryCoordinator {
    type V = CoordinatorView;

    closed spec fn view(&self) -> CoordinatorView {
        CoordinatorView { states: self.states@, steps: self.steps as nat }
    }
}

impl QueryCoordinator {
    /// A coordinator for `n` requests, all running, before any step.
    pub fn new(n: usize) -> (r: Self)
        ensures
            r@.states == Seq::new(n as nat, |i: int| OperationState::Running),
            r@.steps == 0,
    {
        let mut states: Vec<OperationState> = Vec::new();
        for i in 0..n
            invariant
                states@ == Seq::new(i as nat, |j: int| OperationState::Running),
        {
            states.push(OperationState::Running);
            proof {
                assert(states@ =~= Seq::new((i + 1) as nat, |j: int| OperationState::Running));
            }
        }
        QueryCoordinator { states, steps: 0 }
    }

    /// Records one step of the event loop, after which request `i` reported
    /// `observed[i]`. The result is `Complete` exactly when every request has
    /// reached `Done` or `Cancelled`; never while one is still running.
    pub fn record_step(&mut self, observed: &Vec<OperationState>) -> (r: AwaitStatus)
        requires
            observed.len() == old(self)@.states.len(),
        ensures
            final(self)@.states == Seq::new(
                observed.len() as nat,
                |i: int| next_state(old(self)@.states[i], observed@[i]),
            ),
            final(self)@.steps == if old(self)@.steps < u64::MAX {
                old(self)@.steps + 1
            } else {
                old(self)@.steps
            },
            r == AwaitStatus::Complete <==> all_terminal(final(self)@.states),
    {
        let ghost before = self.states@;
        let ghost steps_before = self.steps;
        let mut complete = true;
        let mut i: usize = 0;
        while i < observed.len()
            invariant
                i <= observed.len(),
                observed.len() == before.len(),
                self.states@.len() == before.len(),
                self.steps == steps_before,
                forall|j: int| 0 <= j < i ==> self.states@[j] == next_state(before[j], observed@[j]),
                forall|j: int| i <= j < before.len() ==> self.states@[j] == before[j],
                complete <==> (forall|j: int| 0 <= j < i ==> is_terminal(#[trigger] self.states@[j])),
            decreases observed.len() - i,
        {
            let ghost mid = self.states@;
            let recorded = self.states[i];
            let next = if recorded == OperationState::Running {
                observed[i]
            } else {
                recorded
            };
            self.states.set(i, next);
            if next == OperationState::Running {
                complete = false;
            }
            proof {
                assert(self.states@ == mid.update(i as int, next));
                assert forall|j: int| 0 <= j < i implies self.states@[j] == mid[j] by {}
                if next == OperationState::Running {
                    assert(!is_terminal(self.states@[i as int]));
                } else if complete {
                    assert forall|j: int| 0 <= j < i + 1 implies is_terminal(#[trigger] self.states@[j]) by {
                        if j < i {
                            assert(is_terminal(mid[j]));
                        }
                    }
                } else {
                    let j = choose|j: int| 0 <= j < i && !is_terminal(#[trigger] mid[j]);
                    assert(!is_terminal(self.states@[j]));
                }
            }
            i = i + 1;
        }
        self.steps = self.steps.saturating_add(1);
        proof {
            assert(self.states@ =~= Seq::new(
                observed.len() as nat,
                |i: int| next_state(before[i], observed@[i]),
            ));
        }
        if complete {
            AwaitStatus::Complete
        } else {
            AwaitStatus::Pending
        }
    }

    /// Whether every request has finished.
    pub fn is_complete(&self) -> (r: bool)
        ensures
            r == all_terminal(self@.states),
    {
        let mut i: usize = 0;
        while i < self.states.len()
            invariant
                i <= self.states.len(),
                forall|j: int| 0 <= j < i ==> is_terminal(#[trigger] self.states@[j]),
            decreases self.states.len() - i,
        {
            if self.states[i] == OperationState::Running {
                return false;
            }
            i = i + 1;
        }
        true
    }

    /// Steps of the event loop recorded so far.
    pub fn steps(&self) -> (r: u64)
        ensures
            r as nat == self@.steps,
    {
        self.steps
    }

    /// State recorded for request `i`.
    pub fn state_of(&self, i: usize) -> (r: OperationState)
        requires
            i < self@.states.len(),
        ensures
            r == self@.states[i as int],
    {
        self.states[i]
    }
}

} // verus!
