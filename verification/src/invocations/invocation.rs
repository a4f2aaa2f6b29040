//! Invocations: the nodes of the graph that an invoker runs, and the
//! decisions each node takes while it runs.
use vstd::prelude::*;
use crate::invocations::invoker::InvokerControlFlow;

verus! {

/// A node of the invocation graph as a module describes it: its name, the
/// names of its parents and children, the objekt it works on, and the action
/// that runs it (`A`, which the runtime knows how to call).
pub struct InvocationTemplate<A> {
    pub children: Vec<String>,
    pub action: A,
    pub name: String,
    pub objekt_name: String,
    pub parents: Vec<String>,
}

/// The invocations of one objekt, and which of them are entrypoints.
pub struct InvocationTemplateInformation<A> {
    pub invocation_list: Vec<InvocationTemplate<A>>,
    pub entrypoint_list: Vec<String>,
}

/// A node of a built invocation graph. Its parents and children are wait
/// slots: numbers that the runtime gives one shared signal cell each. A
/// node waits on every slot in `parents` and signals every slot in
/// `children`.
#[derive(Clone, Debug)]
pub struct Invocation<A> {
    pub children: Vec<usize>,
    pub action: A,
    pub objekt_name: String,
    pub parents: Vec<usize>,
}

/// What a node does with the value it finds in one parent's slot.
#[derive(Clone, Copy, Debug, PartialEq, Eq, Structural)]
pub enum ParentAction {
    /// The slot was primed (`Continue(true)`): reset it to
    /// `Continue(false)` and go on without waiting.
    TakePrimed,
    /// Wait on the slot until the parent signals it.
    Wait,
}

/// The action a node takes on the value `observed` in a parent's slot.
pub fn parent_action<A>(observed: &InvokerControlFlow<A>) -> (r: ParentAction)
    ensures
        r == (if observed matches InvokerControlFlow::Continue(true) {
            ParentAction::TakePrimed
        } else {
            ParentAction::Wait
        }),
{
    match observed {
        InvokerControlFlow::Continue(true) => ParentAction::TakePrimed,
        _ => ParentAction::Wait,
    }
}

/// What waiting on the parents gives, when the values read in their slots
/// (each read before any wait on that slot) were `observed`, in parent
/// order: the last of them, or `Continue(false)` without parents.
pub open spec fn parents_outcome<A>(observed: Seq<InvokerControlFlow<A>>) -> InvokerControlFlow<A> {
    if observed.len() == 0 {
        InvokerControlFlow::Continue(false)
    } else {
        observed.last()
    }
}

/// Waiting on a node's parents, one slot after another: each value read in
/// a slot tells whether to wait on it, and the wait gives the last value
/// read.
pub struct ParentWait<A> {
    current: InvokerControlFlow<A>,
    observed: Ghost<Seq<InvokerControlFlow<A>>>,
}

impl<A> ParentWait<A> {
    /// The values read so far, in parent order.
    pub closed spec fn observed(&self) -> Seq<InvokerControlFlow<A>> {
        self.observed@
    }

    pub closed spec fn wf(&self) -> bool {
        self.current == parents_outcome(self.observed@)
    }

    /// Nothing read yet.
    pub fn new() -> (r: Self)
        ensures
            r.wf(),
            r.observed() == Seq::<InvokerControlFlow<A>>::empty(),
    {
        ParentWait { current: InvokerControlFlow::Continue(false), observed: Ghost(Seq::empty()) }
    }

    /// Records the value read in the next parent's slot, and says what to
    /// do with that slot.
    pub fn observe(&mut self, value: InvokerControlFlow<A>) -> (r: ParentAction)
        requires
            old(self).wf(),
        ensures
            final(self).wf(),
            final(self).observed() == old(self).observed().push(value),
            r == (if value matches InvokerControlFlow::Continue(true) {
                ParentAction::TakePrimed
            } else {
                ParentAction::Wait
            }),
    {
        let r = parent_action(&value);
        self.observed = Ghost(self.observed@.push(value));
        self.current = value;
        r
    }

    /// What the wait on the parents gives.
    pub fn into_result(self) -> (r: InvokerControlFlow<A>)
        requires
            self.wf(),
        ensures
            r == parents_outcome(self.observed()),
            self.observed().len() == 0 ==> r == InvokerControlFlow::<A>::Continue(false),
            self.observed().len() > 0 ==> r == self.observed().last(),
    {
        self.current
    }
}

/// How the call of a node's action ended.
pub enum CallOutcome<A> {
    /// The action returned this control flow.
    Returned(InvokerControlFlow<A>),
    /// The action reported an error or panicked.
    Failed,
}

/// Where the thread of a node stands. `flow` is the control flow its
/// parents gave last (`Continue(false)` before they gave any); the thread
/// ends with it.
pub enum ThreadState<A> {
    /// The thread has not looked up its objekt yet.
    Starting,
    /// The thread waits on its parents.
    AwaitingParents { flow: InvokerControlFlow<A> },
    /// The thread reads whether its objekt is poisoned.
    ReadingPoison { flow: InvokerControlFlow<A> },
    /// The thread calls its action.
    Calling { flow: InvokerControlFlow<A> },
    /// The thread signals its children `signal`, or `flow` when that is
    /// `None`; then it finishes or waits on its parents again.
    Signalling { flow: InvokerControlFlow<A>, signal: Option<InvokerControlFlow<A>>, then_finish: bool },
    /// The thread has ended with `flow`.
    Finished { flow: InvokerControlFlow<A> },
}

/// What the runtime reports to a node's thread.
pub enum ThreadEvent<A> {
    /// The objekt was looked up: found or not.
    ObjektLookedUp(bool),
    /// The parents gave this control flow.
    ParentsGave(InvokerControlFlow<A>),
    /// Whether the objekt is poisoned.
    PoisonRead(bool),
    /// The action ended so.
    CallEnded(CallOutcome<A>),
    /// All children were signalled.
    ChildrenSignalled,
}

/// What the runtime does next for a node's thread.
#[derive(Clone, Copy, Debug, PartialEq, Eq, Structural)]
pub enum ThreadAction {
    AwaitParents,
    ReadPoison,
    Call,
    SignalChildren,
    Finish,
}

/// The runtime's next step for a node's thread: first mark the objekt
/// poisoned if `poison`, then do `action`.
#[derive(Clone, Copy, Debug, PartialEq, Eq, Structural)]
pub struct ThreadCommand {
    pub poison: bool,
    pub action: ThreadAction,
}

/// `event` is one the thread can get in `state`.
pub open spec fn accepts<A>(state: ThreadState<A>, event: ThreadEvent<A>) -> bool {
    match state {
        ThreadState::Starting => event is ObjektLookedUp,
        ThreadState::AwaitingParents { .. } => event is ParentsGave,
        ThreadState::ReadingPoison { .. } => event is PoisonRead,
        ThreadState::Calling { .. } => event is CallEnded,
        ThreadState::Signalling { .. } => event is ChildrenSignalled,
        ThreadState::Finished { .. } => false,
    }
}

/// The command that goes with entering `state`.
pub open spec fn command_for<A>(state: ThreadState<A>, poison: bool) -> ThreadCommand {
    ThreadCommand {
        poison,
        action: match state {
            ThreadState::AwaitingParents { .. } => ThreadAction::AwaitParents,
            ThreadState::ReadingPoison { .. } => ThreadAction::ReadPoison,
            ThreadState::Calling { .. } => ThreadAction::Call,
            ThreadState::Signalling { .. } => ThreadAction::SignalChildren,
            _ => ThreadAction::Finish,
        },
    }
}

/// The state a node's thread enters on `event`, for a node with `children`
/// children and `parents` parents. A missing objekt stops the thread. Only a
/// `Continue` from the parents lets the node go on: anything else is passed
/// to the children, and the thread ends with it. A poisoned objekt sends
/// the thread back to wait. After the call, a node without children ends if
/// it has no parents either and otherwise waits again; a node with children
/// signals them what the action returned, or `Continue(false)` when it
/// failed, and waits again.
pub open spec fn next_state<A>(
    children: nat,
    parents: nat,
    state: ThreadState<A>,
    event: ThreadEvent<A>,
) -> ThreadState<A> {
    match (state, event) {
        (ThreadState::Starting, ThreadEvent::ObjektLookedUp(found)) => if found {
            ThreadState::AwaitingParents { flow: InvokerControlFlow::Continue(false) }
        } else {
            ThreadState::Finished { flow: InvokerControlFlow::Stop }
        },
        (ThreadState::AwaitingParents { .. }, ThreadEvent::ParentsGave(f)) => if f is Continue {
            ThreadState::ReadingPoison { flow: f }
        } else {
            ThreadState::Signalling { flow: f, signal: None, then_finish: true }
        },
        (ThreadState::ReadingPoison { flow }, ThreadEvent::PoisonRead(poisoned)) => if poisoned {
            ThreadState::AwaitingParents { flow }
        } else {
            ThreadState::Calling { flow }
        },
        (ThreadState::Calling { flow }, ThreadEvent::CallEnded(outcome)) => if children == 0 {
            if parents == 0 {
                ThreadState::Finished { flow }
            } else {
                ThreadState::AwaitingParents { flow }
            }
        } else {
            ThreadState::Signalling {
                flow,
                signal: Some(
                    match outcome {
                        CallOutcome::Returned(v) => v,
                        CallOutcome::Failed => InvokerControlFlow::Continue(false),
                    },
                ),
                then_finish: false,
            }
        },
        (ThreadState::Signalling { flow, then_finish, .. }, ThreadEvent::ChildrenSignalled) => if then_finish {
            ThreadState::Finished { flow }
        } else {
            ThreadState::AwaitingParents { flow }
        },
        _ => state,
    }
}

/// Whether `event` leaves the objekt to be marked poisoned: the action
/// failed.
pub open spec fn poisons<A>(event: ThreadEvent<A>) -> bool {
    event matches ThreadEvent::CallEnded(CallOutcome::Failed)
}

impl<A> Invocation<A> {
    /// The state this node's thread enters on `event`, and what the runtime
    /// does next.
    pub fn next_step(&self, state: ThreadState<A>, event: ThreadEvent<A>) -> (r: (
        ThreadState<A>,
        ThreadCommand,
    ))
        requires
            accepts(state, event),
        ensures
            r.0 == next_state(self.children@.len(), self.parents@.len(), state, event),
            r.1 == command_for(r.0, poisons(event)),
    {
        let n_children = self.children.len();
        let n_parents = self.parents.len();
        let poison = match &event {
            ThreadEvent::CallEnded(CallOutcome::Failed) => true,
            _ => false,
        };
        let next = match state {
            ThreadState::Starting => match event {
                ThreadEvent::ObjektLookedUp(found) => if found {
                    ThreadState::AwaitingParents { flow: InvokerControlFlow::Continue(false) }
                } else {
                    ThreadState::Finished { flow: InvokerControlFlow::Stop }
                },
                _ => ThreadState::Starting,
            },
            ThreadState::AwaitingParents { flow } => match event {
                ThreadEvent::ParentsGave(f) => match f {
                    InvokerControlFlow::Continue(b) => ThreadState::ReadingPoison {
                        flow: InvokerControlFlow::Continue(b),
                    },
                    other => ThreadState::Signalling { flow: other, signal: None, then_finish: true },
                },
                _ => ThreadState::AwaitingParents { flow },
            },
            ThreadState::ReadingPoison { flow } => match event {
                ThreadEvent::PoisonRead(poisoned) => if poisoned {
                    ThreadState::AwaitingParents { flow }
                } else {
                    ThreadState::Calling { flow }
                },
                _ => ThreadState::ReadingPoison { flow },
            },
            ThreadState::Calling { flow } => match event {
                ThreadEvent::CallEnded(outcome) => if n_children == 0 {
                    if n_parents == 0 {
                        ThreadState::Finished { flow }
                    } else {
                        ThreadState::AwaitingParents { flow }
                    }
                } else {
                    let signal = match outcome {
                        CallOutcome::Returned(v) => v,
                        CallOutcome::Failed => InvokerControlFlow::Continue(false),
                    };
                    ThreadState::Signalling { flow, signal: Some(signal), then_finish: false }
                },
                _ => ThreadState::Calling { flow },
            },
            ThreadState::Signalling { flow, signal, then_finish } => match event {
                ThreadEvent::ChildrenSignalled => if then_finish {
                    ThreadState::Finished { flow }
                } else {
                    ThreadState::AwaitingParents { flow }
                },
                _ => ThreadState::Signalling { flow, signal, then_finish },
            },
            ThreadState::Finished { flow } => ThreadState::Finished { flow },
        };
        let action = match &next {
            ThreadState::AwaitingParents { .. } => ThreadAction::AwaitParents,
            ThreadState::ReadingPoison { .. } => ThreadAction::ReadPoison,
            ThreadState::Calling { .. } => ThreadAction::Call,
            ThreadState::Signalling { .. } => ThreadAction::SignalChildren,
            _ => ThreadAction::Finish,
        };
        (next, ThreadCommand { poison, action })
    }
}

/// The control flow that a signalling thread signals.
pub open spec fn signalled_flow<A>(state: ThreadState<A>) -> InvokerControlFlow<A> {
    match state {
        ThreadState::Signalling { flow, signal, .. } => match signal {
            Some(v) => v,
            None => flow,
        },
        _ => InvokerControlFlow::Stop,
    }
}

impl<A> ThreadState<A> {
    /// The control flow to signal to the children, in a signalling state.
    pub fn signal_flow(&self) -> (r: Option<&InvokerControlFlow<A>>)
        ensures
            r is Some <==> self is Signalling,
            r matches Some(v) ==> *v == signalled_flow(*self),
    {
        match self {
            ThreadState::Signalling { flow, signal, .. } => match signal {
                Some(v) => Some(v),
                None => Some(flow),
            },
            _ => None,
        }
    }

    /// The control flow the thread ended with.
    pub fn into_result(self) -> (r: InvokerControlFlow<A>)
        requires
            self is Finished,
        ensures
            r == self->Finished_flow,
    {
        match self {
            ThreadState::Finished { flow } => flow,
            _ => InvokerControlFlow::Stop,
        }
    }
}

/// The number of `true` entries of `s`.
pub open spec fn count_true(s: Seq<bool>) -> nat
    decreases s.len(),
{
    if s.len() == 0 {
        0
    } else {
        count_true(s.drop_last()) + (if s.last() { 1nat } else { 0nat })
    }
}

pub proof fn lemma_count_true_bounds(s: Seq<bool>)
    ensures
        count_true(s) <= s.len(),
        count_true(s) == s.len() <==> (forall|i: int| 0 <= i < s.len() ==> #[trigger] s[i]),
    decreases s.len(),
{
    if s.len() > 0 {
        lemma_count_true_bounds(s.drop_last());
        if count_true(s) == s.len() {
            assert forall|i: int| 0 <= i < s.len() implies #[trigger] s[i] by {
                if i < s.len() - 1 {
                    assert(s.drop_last()[i] == s[i]);
                }
            }
        }
        if forall|i: int| 0 <= i < s.len() ==> #[trigger] s[i] {
            assert forall|i: int| 0 <= i < s.drop_last().len() implies #[trigger] s.drop_last()[i] by {
                assert(s[i]);
            }
        }
    }
}

pub proof fn lemma_count_true_update(s: Seq<bool>, i: int)
    requires
        0 <= i < s.len(),
        !s[i],
    ensures
        count_true(s.update(i, true)) == count_true(s) + 1,
    decreases s.len(),
{
    let t = s.update(i, true);
    if i < s.len() - 1 {
        assert(t.drop_last() =~= s.drop_last().update(i, true));
        lemma_count_true_update(s.drop_last(), i);
    } else {
        assert(t.drop_last() =~= s.drop_last());
    }
}

/// The progress of signalling a node's children: which children have
/// been woken so far. A child counts as signalled only once a waiting
/// thread was woken on its slot; the others are tried again.
pub struct SignalProgress {
    done: Vec<bool>,
    done_count: usize,
}

impl SignalProgress {
    /// Which children have been woken.
    pub closed spec fn done_seq(&self) -> Seq<bool> {
        self.done@
    }

    pub closed spec fn wf(&self) -> bool {
        self.done_count == count_true(self.done@)
    }

    /// No child of `children` has been woken yet.
    pub fn new(children: usize) -> (r: Self)
        ensures
            r.wf(),
            r.done_seq() == Seq::new(children as nat, |i: int| false),
    {
        let done = vec![false; children];
        proof {
            let s = done@;
            assert forall|i: int| 0 <= i < s.len() implies !s[i] by {}
            lemma_count_true_zero(s);
        }
        let r = SignalProgress { done, done_count: 0 };
        assert(r.done_seq() =~= Seq::new(children as nat, |i: int| false));
        r
    }

    /// Whether child `i` still has to be signalled.
    pub fn is_pending(&self, i: usize) -> (r: bool)
        requires
            i < self.done_seq().len(),
        ensures
            r == !self.done_seq()[i as int],
    {
        !self.done[i]
    }

    /// Records whether signalling child `i` woke a thread.
    pub fn record(&mut self, i: usize, woken: bool)
        requires
            old(self).wf(),
            i < old(self).done_seq().len(),
            !old(self).done_seq()[i as int],
        ensures
            final(self).wf(),
            final(self).done_seq() == (if woken {
                old(self).done_seq().update(i as int, true)
            } else {
                old(self).done_seq()
            }),
    {
        if woken {
            proof {
                lemma_count_true_update(self.done@, i as int);
                lemma_count_true_bounds(self.done@.update(i as int, true));
            }
            let n = self.done.len();
            assert(self.done_count < n);
            self.done.set(i, true);
            self.done_count = self.done_count + 1;
        }
    }

    /// Whether every child has been woken.
    pub fn is_finished(&self) -> (r: bool)
        requires
            self.wf(),
        ensures
            r <==> (forall|i: int| 0 <= i < self.done_seq().len() ==> #[trigger] self.done_seq()[i]),
    {
        proof {
            lemma_count_true_bounds(self.done@);
        }
        let r = !(self.done_count < self.done.len());
        assert(r == (count_true(self.done@) == self.done@.len()));
        if r {
            assert forall|i: int| 0 <= i < self.done_seq().len() implies #[trigger] self.done_seq()[i] by {
                assert(self.done@[i]);
            }
        } else {
            assert(!(forall|i: int| 0 <= i < self.done@.len() ==> #[trigger] self.done@[i]));
            let ghost k = choose|i: int| 0 <= i < self.done@.len() && !self.done@[i];
            assert(!self.done_seq()[k]);
        }
        r
    }
}

proof fn lemma_count_true_zero(s: Seq<bool>)
    requires
        forall|i: int| 0 <= i < s.len() ==> !s[i],
    ensures
        count_true(s) == 0,
    decreases s.len(),
{
    if s.len() > 0 {
        assert forall|i: int| 0 <= i < s.drop_last().len() implies !s.drop_last()[i] by {
            assert(!s[i]);
        }
        lemma_count_true_zero(s.drop_last());
    }
}

} // verus!
