use tmix::{AwaitStatus, IntrospectionRequest, ListResult, OperationState, QueryCoordinator};

/// A stand-in for a server operation that finishes after `steps` loop steps and
/// delivers one item per step until then.
struct FakeOperation {
    steps: u32,
    taken: u32,
    cancel: bool,
}

impl FakeOperation {
    fn step(&mut self) -> (Vec<ListResult<u32>>, OperationState) {
        if self.taken >= self.steps {
            let done = if self.cancel { OperationState::Cancelled } else { OperationState::Done };
            return (vec![], done);
        }
        self.taken += 1;
        if self.taken == self.steps {
            let done = if self.cancel { OperationState::Cancelled } else { OperationState::Done };
            (vec![ListResult::Item(self.taken), ListResult::End], done)
        } else {
            (vec![ListResult::Item(self.taken)], OperationState::Running)
        }
    }
}

fn drive(ops: &mut [FakeOperation]) -> (u64, Vec<Vec<u32>>) {
    let mut requests: Vec<IntrospectionRequest<u32>> =
        ops.iter().map(|_| IntrospectionRequest::new()).collect();
    let mut coordinator = QueryCoordinator::new(ops.len());
    loop {
        let mut observed = Vec::new();
        for (op, req) in ops.iter_mut().zip(requests.iter_mut()) {
            let (events, state) = op.step();
            for e in events {
                req.on_list_result(e);
            }
            req.observe(state);
            observed.push(req.state());
        }
        match coordinator.record_step(&observed) {
            AwaitStatus::Complete => break,
            AwaitStatus::Pending => {
                assert!(observed.iter().any(|s| *s == OperationState::Running));
            }
        }
        assert!(coordinator.steps() < 100);
    }
    assert!(requests.iter().all(|r| r.is_finished()));
    (coordinator.steps(), requests.into_iter().map(|r| r.into_items()).collect())
}

#[test]
fn await_returns_at_the_slowest_request() {
    let mut ops = vec![
        FakeOperation { steps: 3, taken: 0, cancel: false },
        FakeOperation { steps: 5, taken: 0, cancel: false },
    ];
    let (steps, buffers) = drive(&mut ops);
    assert_eq!(steps, 5);
    assert_eq!(buffers[0], vec![1, 2, 3]);
    assert_eq!(buffers[1], vec![1, 2, 3, 4, 5]);
}

#[test]
fn await_handles_any_number_of_requests() {
    let mut ops: Vec<FakeOperation> =
        (1..=4).map(|n| FakeOperation { steps: n, taken: 0, cancel: false }).collect();
    let (steps, buffers) = drive(&mut ops);
    assert_eq!(steps, 4);
    assert_eq!(buffers[3].len(), 4);
}

#[test]
fn cancelled_request_yields_partial_result() {
    let mut ops = vec![
        FakeOperation { steps: 2, taken: 0, cancel: true },
        FakeOperation { steps: 1, taken: 0, cancel: false },
    ];
    let (steps, buffers) = drive(&mut ops);
    assert_eq!(steps, 2);
    assert_eq!(buffers[0], vec![1, 2]);
}

#[test]
fn pending_while_any_request_runs() {
    let mut c = QueryCoordinator::new(2);
    assert!(!c.is_complete());
    let s = c.record_step(&vec![OperationState::Done, OperationState::Running]);
    assert_eq!(s, AwaitStatus::Pending);
    assert!(!c.is_complete());
    let s = c.record_step(&vec![OperationState::Running, OperationState::Cancelled]);
    assert_eq!(s, AwaitStatus::Complete);
    assert_eq!(c.state_of(0), OperationState::Done);
    assert_eq!(c.state_of(1), OperationState::Cancelled);
    assert!(c.is_complete());
    assert_eq!(c.steps(), 2);
}

#[test]
fn no_requests_complete_at_once() {
    let mut c = QueryCoordinator::new(0);
    assert!(c.is_complete());
    assert_eq!(c.record_step(&vec![]), AwaitStatus::Complete);
}

#[test]
fn request_counts_errors_and_notes_end() {
    let mut r: IntrospectionRequest<u32> = IntrospectionRequest::new();
    assert_eq!(r.state(), OperationState::Running);
    r.on_list_result(ListResult::Item(4));
    r.on_list_result(ListResult::Error);
    r.on_list_result(ListResult::Error);
    assert!(!r.ended());
    r.on_list_result(ListResult::End);
    assert!(r.ended());
    assert_eq!(r.errors(), 2);
    r.observe(OperationState::Done);
    r.observe(OperationState::Running);
    assert_eq!(r.state(), OperationState::Done);
    assert_eq!(r.into_items(), vec![4]);
}
