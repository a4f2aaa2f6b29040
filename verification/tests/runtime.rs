use eos_use::invocations::invocation::{
    parent_action, CallOutcome, Invocation, ParentAction, ParentWait, SignalProgress, ThreadAction, ThreadCommand, ThreadEvent,
    ThreadState,
};
use eos_use::invocations::invoker::{join_control_flows, merge_control_flow, Invoker, InvokerControlFlow};

type Flow = InvokerControlFlow<u8>;

fn is_continue(f: &Flow, v: bool) -> bool {
    matches!(f, InvokerControlFlow::Continue(x) if *x == v)
}

fn restart(tag: u8) -> Flow {
    let mut invoker: Invoker<u8> = Invoker::new();
    invoker.push_invocations(vec![eos_use::invocations::invocation::InvocationTemplate {
        children: vec![],
        action: tag,
        name: String::from("n"),
        objekt_name: String::new(),
        parents: vec![],
    }]);
    invoker.push_entrypoints(vec![String::from("n")]);
    InvokerControlFlow::Restart(Box::new(invoker.check_for_errors_and_build().unwrap()))
}

fn restart_tag(f: &Flow) -> Option<u8> {
    match f {
        InvokerControlFlow::Restart(b) => Some(b.invocations()[0].1.action),
        _ => None,
    }
}

#[test]
fn joining_keeps_stop() {
    let r = join_control_flows(vec![Flow::Continue(true), restart(1), Flow::Stop, restart(2), Flow::Continue(false)]);
    assert!(matches!(r, InvokerControlFlow::Stop));
    assert!(matches!(merge_control_flow(Flow::Stop, restart(3)), InvokerControlFlow::Stop));
    assert!(matches!(merge_control_flow(Flow::Stop, Flow::Continue(true)), InvokerControlFlow::Stop));
}

#[test]
fn joining_takes_last_restart() {
    let r = join_control_flows(vec![restart(1), Flow::Continue(true), restart(2), Flow::Continue(false)]);
    assert_eq!(restart_tag(&r), Some(2));
    let r = merge_control_flow(restart(4), Flow::Continue(true));
    assert_eq!(restart_tag(&r), Some(4));
}

#[test]
fn joining_continues_with_last_value() {
    assert!(is_continue(&join_control_flows(vec![]), false));
    assert!(is_continue(&join_control_flows(vec![Flow::Continue(false), Flow::Continue(true)]), true));
    assert!(is_continue(&join_control_flows(vec![Flow::Continue(true), Flow::Continue(false)]), false));
}

#[test]
fn restart_names_the_next_graph() {
    assert!(restart(5).into_restart().is_some());
    assert!(Flow::Stop.into_restart().is_none());
    assert!(Flow::Continue(true).into_restart().is_none());
}

#[test]
fn parents_decisions() {
    assert_eq!(parent_action(&Flow::Continue(true)), ParentAction::TakePrimed);
    assert_eq!(parent_action(&Flow::Continue(false)), ParentAction::Wait);
    assert_eq!(parent_action(&Flow::Stop), ParentAction::Wait);
    assert_eq!(parent_action(&restart(1)), ParentAction::Wait);
}

fn node(children: Vec<usize>, parents: Vec<usize>) -> Invocation<u8> {
    Invocation { children, action: 0, objekt_name: String::new(), parents }
}

fn cmd(action: ThreadAction, poison: bool) -> ThreadCommand {
    ThreadCommand { poison, action }
}

#[test]
fn missing_objekt_stops_the_thread() {
    let (s, c) = node(vec![0], vec![1]).next_step(ThreadState::Starting, ThreadEvent::ObjektLookedUp(false));
    assert_eq!(c, cmd(ThreadAction::Finish, false));
    assert!(matches!(s.into_result(), InvokerControlFlow::Stop));
}

#[test]
fn lone_node_runs_once() {
    let n = node(vec![], vec![]);
    let (s, c) = n.next_step(ThreadState::Starting, ThreadEvent::ObjektLookedUp(true));
    assert_eq!(c, cmd(ThreadAction::AwaitParents, false));
    let (s, c) = n.next_step(s, ThreadEvent::ParentsGave(Flow::Continue(true)));
    assert_eq!(c, cmd(ThreadAction::ReadPoison, false));
    let (s, c) = n.next_step(s, ThreadEvent::PoisonRead(false));
    assert_eq!(c, cmd(ThreadAction::Call, false));
    let (s, c) = n.next_step(s, ThreadEvent::CallEnded(CallOutcome::Failed));
    assert_eq!(c, cmd(ThreadAction::Finish, true));
    assert!(is_continue(&s.into_result(), true));
}

#[test]
fn poisoned_objekt_sends_thread_back_to_wait() {
    let n = node(vec![0], vec![1]);
    let (s, c) = n.next_step(
        ThreadState::ReadingPoison { flow: Flow::Continue(false) },
        ThreadEvent::PoisonRead(true),
    );
    assert_eq!(c, cmd(ThreadAction::AwaitParents, false));
    assert!(matches!(s, ThreadState::AwaitingParents { .. }));
}

#[test]
fn stop_is_passed_on_to_children() {
    let n = node(vec![3], vec![1]);
    let (s, c) = n.next_step(
        ThreadState::AwaitingParents { flow: Flow::Continue(false) },
        ThreadEvent::ParentsGave(Flow::Stop),
    );
    assert_eq!(c, cmd(ThreadAction::SignalChildren, false));
    assert!(matches!(s.signal_flow(), Some(InvokerControlFlow::Stop)));
    let (s, c) = n.next_step(s, ThreadEvent::ChildrenSignalled);
    assert_eq!(c, cmd(ThreadAction::Finish, false));
    assert!(matches!(s.into_result(), InvokerControlFlow::Stop));
}

#[test]
fn children_hear_every_call() {
    let n = node(vec![3], vec![1]);
    let (s, c) = n.next_step(
        ThreadState::Calling { flow: Flow::Continue(false) },
        ThreadEvent::CallEnded(CallOutcome::Returned(restart(7))),
    );
    assert_eq!(c, cmd(ThreadAction::SignalChildren, false));
    assert_eq!(restart_tag(s.signal_flow().unwrap()), Some(7));
    let (s, c) = n.next_step(s, ThreadEvent::ChildrenSignalled);
    assert_eq!(c, cmd(ThreadAction::AwaitParents, false));
    assert!(matches!(s, ThreadState::AwaitingParents { flow: InvokerControlFlow::Continue(false) }));
    let (s, c) = n.next_step(
        ThreadState::Calling { flow: Flow::Continue(true) },
        ThreadEvent::CallEnded(CallOutcome::Failed),
    );
    assert_eq!(c, cmd(ThreadAction::SignalChildren, true));
    assert!(is_continue(s.signal_flow().unwrap(), false));
}

#[test]
fn childless_node_with_parents_waits_again() {
    let n = node(vec![], vec![2]);
    let (s, c) = n.next_step(
        ThreadState::Calling { flow: Flow::Continue(false) },
        ThreadEvent::CallEnded(CallOutcome::Returned(Flow::Stop)),
    );
    assert_eq!(c, cmd(ThreadAction::AwaitParents, false));
    assert!(s.signal_flow().is_none());
}

#[test]
fn signalling_finishes_once_every_child_is_woken() {
    let mut p = SignalProgress::new(3);
    assert!(!p.is_finished());
    p.record(0, true);
    p.record(1, false);
    assert!(!p.is_pending(0));
    assert!(p.is_pending(1));
    p.record(2, true);
    assert!(!p.is_finished());
    p.record(1, true);
    assert!(p.is_finished());
    assert!(SignalProgress::new(0).is_finished());
}

#[test]
fn waiting_on_parents_gives_last_value_read() {
    let w: ParentWait<u8> = ParentWait::new();
    assert!(is_continue(&w.into_result(), false));
    let mut w: ParentWait<u8> = ParentWait::new();
    assert_eq!(w.observe(Flow::Continue(true)), ParentAction::TakePrimed);
    assert_eq!(w.observe(Flow::Stop), ParentAction::Wait);
    assert!(matches!(w.into_result(), InvokerControlFlow::Stop));
    let mut w: ParentWait<u8> = ParentWait::new();
    assert_eq!(w.observe(Flow::Stop), ParentAction::Wait);
    assert_eq!(w.observe(Flow::Continue(true)), ParentAction::TakePrimed);
    assert!(is_continue(&w.into_result(), true));
}
