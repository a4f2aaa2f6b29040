//! What holds of the invoker across its operations.
use vstd::prelude::*;
use crate::invocations::invoker::{
    BuiltInvoker, InvokerControlFlow, Invoker, all_slots, built_from, folded_flow, graph_issues,
    invocation_from, joined_flow, lemma_parents_found, parent_issue, child_issue, parent_issues,
    child_issues, template_issues, issues_upto, unreachable_issue, has_other_template,
    inserted_templates, lemma_slot_prefix, lemma_slot_step, GraphIssue, entrypoint_issue,
    entrypoint_issue_from, first_duplicate_from, has_template, lemma_slot_at,
    merged_flow, slot_owners, slot_parent_name, slot_start,
};
use crate::invocations::invocation::{
    CallOutcome, InvocationTemplate, ThreadAction, ThreadCommand, ThreadEvent, ThreadState, command_for,
    next_state, parents_outcome, poisons, signalled_flow,
};
use crate::utils::text::{lemma_text_lt_irreflexive, string_views};

verus! {

proof fn lemma_fold_stop<A>(current: InvokerControlFlow<A>, s: Seq<InvokerControlFlow<A>>)
    ensures
        folded_flow(current, s) is Stop <==> (current is Stop || exists|i: int|
            0 <= i < s.len() && #[trigger] s[i] is Stop),
    decreases s.len(),
{
    if s.len() > 0 {
        let c = merged_flow(current, s[0]);
        let t = s.drop_first();
        lemma_fold_stop(c, t);
        if exists|i: int| 0 <= i < s.len() && #[trigger] s[i] is Stop {
            let i = choose|i: int| 0 <= i < s.len() && #[trigger] s[i] is Stop;
            if i > 0 {
                assert(t[i - 1] is Stop);
            }
        }
        if exists|i: int| 0 <= i < t.len() && #[trigger] t[i] is Stop {
            let i = choose|i: int| 0 <= i < t.len() && #[trigger] t[i] is Stop;
            assert(s[i + 1] is Stop);
        }
    }
}

proof fn lemma_fold_continue<A>(current: InvokerControlFlow<A>, s: Seq<InvokerControlFlow<A>>)
    requires
        forall|i: int| 0 <= i < s.len() ==> #[trigger] s[i] is Continue,
    ensures
        folded_flow(current, s) == (if s.len() > 0 && current is Continue {
            s.last()
        } else {
            current
        }),
    decreases s.len(),
{
    if s.len() > 0 {
        let c = merged_flow(current, s[0]);
        let t = s.drop_first();
        assert forall|i: int| 0 <= i < t.len() implies #[trigger] t[i] is Continue by {
            assert(s[i + 1] is Continue);
        }
        lemma_fold_continue(c, t);
        if t.len() > 0 {
            assert(t.last() == s.last());
        }
    }
}

proof fn lemma_fold_last<A>(current: InvokerControlFlow<A>, s: Seq<InvokerControlFlow<A>>, i: int)
    requires
        0 <= i < s.len(),
        !(s[i] is Continue),
        forall|j: int| i < j < s.len() ==> #[trigger] s[j] is Continue,
        !(current is Stop),
        forall|j: int| 0 <= j < s.len() ==> !(#[trigger] s[j] is Stop),
    ensures
        folded_flow(current, s) == s[i],
    decreases s.len(),
{
    let c = merged_flow(current, s[0]);
    let t = s.drop_first();
    assert(!(s[0] is Stop));
    if i == 0 {
        assert forall|j: int| 0 <= j < t.len() implies #[trigger] t[j] is Continue by {
            assert(s[j + 1] is Continue);
        }
        lemma_fold_continue(c, t);
    } else {
        assert(!(t[i - 1] is Continue));
        assert forall|j: int| i - 1 < j < t.len() implies #[trigger] t[j] is Continue by {
            assert(s[j + 1] is Continue);
        }
        assert forall|j: int| 0 <= j < t.len() implies !(#[trigger] t[j] is Stop) by {
            assert(!(s[j + 1] is Stop));
        }
        lemma_fold_last(c, t, i - 1);
    }
}

/// How the runtime joins the control flows its threads ended with: the run
/// stops when any thread stopped; it continues only when every thread
/// continued, and then with the last thread's value (or `Continue(false)`
/// without threads); otherwise it takes the last flow that was not a
/// `Continue`, which is a `Restart`.
pub proof fn law_joined_flow<A>(flows: Seq<InvokerControlFlow<A>>)
    ensures
        joined_flow(flows) is Stop <==> exists|i: int| 0 <= i < flows.len() && #[trigger] flows[i] is Stop,
        joined_flow(flows) is Continue <==> forall|i: int|
            0 <= i < flows.len() ==> #[trigger] flows[i] is Continue,
        (forall|i: int| 0 <= i < flows.len() ==> #[trigger] flows[i] is Continue) ==> joined_flow(flows)
            == (if flows.len() > 0 {
            flows.last()
        } else {
            InvokerControlFlow::<A>::Continue(false)
        }),
        forall|i: int|
            0 <= i < flows.len() && !(#[trigger] flows[i] is Continue) && (forall|j: int|
                i < j < flows.len() ==> #[trigger] flows[j] is Continue) && (forall|j: int|
                0 <= j < flows.len() ==> !(#[trigger] flows[j] is Stop)) ==> joined_flow(flows) == flows[i],
{
    let c = InvokerControlFlow::<A>::Continue(false);
    lemma_fold_stop(c, flows);
    if forall|i: int| 0 <= i < flows.len() ==> #[trigger] flows[i] is Continue {
        lemma_fold_continue(c, flows);
    }
    if !(forall|i: int| 0 <= i < flows.len() ==> #[trigger] flows[i] is Continue) {
        let i = choose|i: int| 0 <= i < flows.len() && !(#[trigger] flows[i] is Continue);
        if !(exists|k: int| 0 <= k < flows.len() && #[trigger] flows[k] is Stop) {
            lemma_last_non_continue(flows, i);
            let l = choose|l: int|
                0 <= l < flows.len() && !(#[trigger] flows[l] is Continue) && (forall|j: int|
                    l < j < flows.len() ==> #[trigger] flows[j] is Continue);
            assert forall|j: int| 0 <= j < flows.len() implies !(#[trigger] flows[j] is Stop) by {}
            lemma_fold_last(c, flows, l);
        }
    }
}

proof fn lemma_last_non_continue<A>(s: Seq<InvokerControlFlow<A>>, i: int)
    requires
        0 <= i < s.len(),
        !(s[i] is Continue),
    ensures
        exists|l: int|
            0 <= l < s.len() && !(#[trigger] s[l] is Continue) && (forall|j: int|
                l < j < s.len() ==> #[trigger] s[j] is Continue),
    decreases s.len() - i,
{
    if exists|k: int| i < k < s.len() && !(#[trigger] s[k] is Continue) {
        let k = choose|k: int| i < k < s.len() && !(#[trigger] s[k] is Continue);
        lemma_last_non_continue(s, k);
    } else {
        assert(forall|j: int| i < j < s.len() ==> #[trigger] s[j] is Continue);
    }
}

/// Once a run has stopped, joining more threads leaves it stopped.
pub proof fn law_stop_stays<A>(flows: Seq<InvokerControlFlow<A>>)
    ensures
        folded_flow(InvokerControlFlow::<A>::Stop, flows) is Stop,
{
    lemma_fold_stop(InvokerControlFlow::<A>::Stop, flows);
}


/// Only invocation `w` of `b` waits on slot `s`.
pub open spec fn slot_waited_only_by<A>(b: BuiltInvoker<A>, s: int, w: int) -> bool {
    &&& 0 <= w < b.invocation_seq().len()
    &&& b.invocation_seq()[w].1.parents@.contains(s as usize)
    &&& forall|q: int|
        0 <= q < b.invocation_seq().len() && q != w ==> !(#[trigger] b.invocation_seq()[q]).1.parents@.contains(
            s as usize,
        )
}

/// Only invocation `p` of `b` signals slot `s`.
pub open spec fn slot_signalled_only_by<A>(b: BuiltInvoker<A>, s: int, p: int) -> bool {
    &&& 0 <= p < b.invocation_seq().len()
    &&& b.invocation_seq()[p].1.children@.contains(s as usize)
    &&& forall|q: int|
        0 <= q < b.invocation_seq().len() && q != p ==> !(#[trigger] b.invocation_seq()[q]).1.children@.contains(
            s as usize,
        )
}

proof fn lemma_slot_owners_valid<A>(ts: Seq<InvocationTemplate<A>>, m: int)
    requires
        0 <= m <= ts.len(),
    ensures
        forall|s: int|
            0 <= s < slot_owners(ts, m).len() ==> {
                let o = #[trigger] slot_owners(ts, m)[s];
                &&& 0 <= o.0 < m
                &&& 0 <= o.1 < ts[o.0].parents@.len()
                &&& s == slot_start(ts, o.0) + o.1
            },
    decreases m,
{
    if m > 0 {
        lemma_slot_owners_valid(ts, m - 1);
        lemma_slot_step(ts, m - 1);
    }
}

proof fn lemma_slot_range<A>(ts: Seq<InvocationTemplate<A>>, i: int, j: int, s: int)
    requires
        0 <= i < ts.len(),
        0 <= j < ts.len(),
        slot_start(ts, i) <= s < slot_start(ts, i) + ts[i].parents@.len(),
        slot_start(ts, j) <= s < slot_start(ts, j) + ts[j].parents@.len(),
    ensures
        i == j,
{
    lemma_slot_step(ts, i);
    lemma_slot_step(ts, j);
    if i < j {
        lemma_slot_prefix(ts, i + 1, j);
    } else if j < i {
        lemma_slot_prefix(ts, j + 1, i);
    }
}

/// Every wait slot of a built graph links one pair of invocations: exactly
/// one invocation waits on it, the one whose parent list made it, and
/// exactly one other invocation signals it, the one that parent names.
pub proof fn law_slot_links_one_pair<A>(inv: Invoker<A>, b: BuiltInvoker<A>, s: int)
    requires
        inv.wf(),
        graph_issues(inv.template_seq(), inv.entrypoint_seq()).len() == 0,
        built_from(b, inv.template_seq(), inv.entrypoint_seq()),
        0 <= s < b.primed_seq().len(),
    ensures
        slot_waited_only_by(b, s, all_slots(inv.template_seq())[s].0),
        exists|p: int|
            #[trigger] slot_signalled_only_by(b, s, p) && p != all_slots(inv.template_seq())[s].0
                && b.invocation_seq()[p].0@ == slot_parent_name(inv.template_seq(), s),
{
    let ts = inv.template_seq();
    let es = inv.entrypoint_seq();
    let n = ts.len() as int;
    inv.lemma_templates();
    lemma_slot_owners_valid(ts, n);
    lemma_parents_found(ts, es);
    let w = all_slots(ts)[s].0;
    let k = all_slots(ts)[s].1;
    assert(s == slot_start(ts, w) + k);
    let bw = b.invocation_seq()[w];
    assert(invocation_from(bw, ts, w));
    assert(bw.1.parents@[k] == s);
    assert(bw.1.parents@.contains(s as usize));
    assert forall|q: int|
        0 <= q < b.invocation_seq().len() && q != w implies !(#[trigger] b.invocation_seq()[q]).1.parents@.contains(
        s as usize,
    ) by {
        let bq = b.invocation_seq()[q];
        assert(invocation_from(bq, ts, q));
        if bq.1.parents@.contains(s as usize) {
            let kq = choose|kq: int| 0 <= kq < bq.1.parents@.len() && bq.1.parents@[kq] == s as usize;
            assert(bq.1.parents@[kq] == slot_start(ts, q) + kq);
            lemma_slot_range(ts, q, w, s);
        }
    }
    let parent = ts[w].parents@[k]@;
    assert(slot_parent_name(ts, s) == parent);
    assert(crate::invocations::invoker::has_other_template(ts, w, parent));
    let p = choose|p: int| 0 <= p < ts.len() && p != w && #[trigger] ts[p].name@ == parent;
    let bp = b.invocation_seq()[p];
    assert(invocation_from(bp, ts, p));
    assert(bp.1.children@.contains(s as usize));
    assert forall|q: int|
        0 <= q < b.invocation_seq().len() && q != p implies !(#[trigger] b.invocation_seq()[q]).1.children@.contains(
        s as usize,
    ) by {
        let bq = b.invocation_seq()[q];
        assert(invocation_from(bq, ts, q));
        if bq.1.children@.contains(s as usize) {
            assert(ts[q].name@ == parent);
            if q < p {
                assert(crate::utils::text::text_lt(ts[q].name@, ts[p].name@));
            } else {
                assert(crate::utils::text::text_lt(ts[p].name@, ts[q].name@));
            }
            lemma_text_lt_irreflexive(parent);
        }
    }
    assert(slot_signalled_only_by(b, s, p));
}


proof fn lemma_parent_issues_free<A>(ts: Seq<InvocationTemplate<A>>, i: int, m: int)
    requires
        forall|k: int| 0 <= k < m ==> #[trigger] parent_issue(ts, i, k).len() == 0,
    ensures
        parent_issues(ts, i, m).len() == 0,
    decreases m,
{
    if m > 0 {
        lemma_parent_issues_free(ts, i, m - 1);
    }
}

proof fn lemma_child_issues_free<A>(ts: Seq<InvocationTemplate<A>>, i: int, m: int)
    requires
        forall|k: int| 0 <= k < m ==> #[trigger] child_issue(ts, i, k).len() == 0,
    ensures
        child_issues(ts, i, m).len() == 0,
    decreases m,
{
    if m > 0 {
        lemma_child_issues_free(ts, i, m - 1);
    }
}

proof fn lemma_issues_free<A>(ts: Seq<InvocationTemplate<A>>, es: Seq<Seq<char>>, m: int)
    requires
        forall|i: int| 0 <= i < m ==> #[trigger] template_issues(ts, es, i).len() == 0,
    ensures
        issues_upto(ts, es, m).len() == 0,
    decreases m,
{
    if m > 0 {
        lemma_issues_free(ts, es, m - 1);
    }
}

/// Templates with distinct names have no problem with the `k`-th parent of
/// template `i` when template `j` bears that parent's name and lists `i` as
/// a child.
pub(crate) proof fn lemma_parent_issue_free<A>(ts: Seq<InvocationTemplate<A>>, i: int, k: int, j: int)
    requires
        0 <= i < ts.len(),
        0 <= j < ts.len(),
        0 <= k < ts[i].parents@.len(),
        i != j,
        ts[j].name@ == ts[i].parents@[k]@,
        forall|q: int| 0 <= q < ts.len() && #[trigger] ts[q].name@ == ts[j].name@ ==> q == j,
        string_views(ts[j].children@).contains(ts[i].name@),
    ensures
        parent_issue(ts, i, k).len() == 0,
{
    assert(has_other_template(ts, i, ts[i].parents@[k]@));
}

/// Templates with distinct names have no problem with the `k`-th child of
/// template `i` when template `j` bears that child's name and lists `i` as
/// a parent.
pub(crate) proof fn lemma_child_issue_free<A>(ts: Seq<InvocationTemplate<A>>, i: int, k: int, j: int)
    requires
        0 <= i < ts.len(),
        0 <= j < ts.len(),
        0 <= k < ts[i].children@.len(),
        i != j,
        ts[j].name@ == ts[i].children@[k]@,
        forall|q: int| 0 <= q < ts.len() && #[trigger] ts[q].name@ == ts[j].name@ ==> q == j,
        string_views(ts[j].parents@).contains(ts[i].name@),
    ensures
        child_issue(ts, i, k).len() == 0,
{
    assert(has_other_template(ts, i, ts[i].children@[k]@));
}

/// Templates whose every problem-free check passes have no problems.
pub(crate) proof fn lemma_graph_issue_free<A>(ts: Seq<InvocationTemplate<A>>, es: Seq<Seq<char>>)
    requires
        forall|i: int| 0 <= i < ts.len() ==> (#[trigger] ts[i]).parents@.len() > 0 || es.contains(ts[i].name@),
        forall|i: int, k: int|
            0 <= i < ts.len() && 0 <= k < ts[i].parents@.len() ==> #[trigger] parent_issue(ts, i, k).len() == 0,
        forall|i: int, k: int|
            0 <= i < ts.len() && 0 <= k < ts[i].children@.len() ==> #[trigger] child_issue(ts, i, k).len() == 0,
    ensures
        graph_issues(ts, es).len() == 0,
{
    assert forall|i: int| 0 <= i < ts.len() implies #[trigger] template_issues(ts, es, i).len() == 0 by {
        assert(ts[i].parents@.len() > 0 || es.contains(ts[i].name@));
        assert(unreachable_issue(ts, es, i).len() == 0);
        assert forall|k: int| 0 <= k < ts[i].parents@.len() implies #[trigger] parent_issue(ts, i, k).len() == 0 by {}
        lemma_parent_issues_free(ts, i, ts[i].parents@.len() as int);
        assert forall|k: int| 0 <= k < ts[i].children@.len() implies #[trigger] child_issue(ts, i, k).len() == 0 by {}
        lemma_child_issues_free(ts, i, ts[i].children@.len() as int);
    }
    lemma_issues_free(ts, es, ts.len() as int);
}


/// Pushing templates keeps, for each name, the last template pushed under
/// it; a name that none of them bears keeps what it had.
#[verifier::spinoff_prover]
#[verifier::rlimit(40)]
pub proof fn law_last_pushed_template_wins<A>(
    m: Map<Seq<char>, InvocationTemplate<A>>,
    added: Seq<InvocationTemplate<A>>,
    k: Seq<char>,
)
    ensures
        forall|i: int|
            0 <= i < added.len() && #[trigger] added[i].name@ == k && (forall|j: int|
                i < j < added.len() ==> (#[trigger] added[j]).name@ != k) ==> inserted_templates(m, added).contains_key(k)
                && inserted_templates(m, added)[k] == added[i],
        (forall|i: int| 0 <= i < added.len() ==> (#[trigger] added[i]).name@ != k) ==> (inserted_templates(
            m,
            added,
        ).contains_key(k) == m.contains_key(k) && (m.contains_key(k) ==> inserted_templates(m, added)[k]
            == m[k])),
    decreases added.len(),
{
    if added.len() > 0 {
        let d = added.drop_last();
        law_last_pushed_template_wins(m, d, k);
        assert forall|i: int|
            0 <= i < added.len() && #[trigger] added[i].name@ == k && (forall|j: int|
                i < j < added.len() ==> (#[trigger] added[j]).name@ != k) implies inserted_templates(m, added).contains_key(k)
                && inserted_templates(m, added)[k] == added[i] by {
            if i < added.len() - 1 {
                assert(d[i] == added[i]);
                assert forall|j: int| i < j < d.len() implies (#[trigger] d[j]).name@ != k by {
                    assert(d[j] == added[j]);
                }
                assert(added.last().name@ != k);
            }
        }
        if forall|i: int| 0 <= i < added.len() ==> (#[trigger] added[i]).name@ != k {
            assert forall|i: int| 0 <= i < d.len() implies (#[trigger] d[i]).name@ != k by {
                assert(d[i] == added[i]);
            }
            assert(added.last().name@ != k);
        }
    }
}


/// A control flow other than `Continue` from the parents is passed on: the
/// thread signals it to its children and then ends with it.
pub proof fn law_stop_is_passed_on<A>(
    children: nat,
    parents: nat,
    last: InvokerControlFlow<A>,
    f: InvokerControlFlow<A>,
)
    requires
        !(f is Continue),
    ensures
        ({
            let s1 = next_state(
                children,
                parents,
                ThreadState::AwaitingParents { flow: last },
                ThreadEvent::ParentsGave(f),
            );
            &&& s1 is Signalling
            &&& signalled_flow(s1) == f
            &&& next_state(children, parents, s1, ThreadEvent::ChildrenSignalled)
                == ThreadState::Finished { flow: f }
        }),
{
}

/// A node without parents or children runs its action once, whatever its
/// outcome, and ends with the flow its (absent) parents gave.
pub proof fn law_lone_node_runs_once<A>(b: bool, outcome: CallOutcome<A>)
    ensures
        ({
            let s1 = next_state(0, 0, ThreadState::<A>::Starting, ThreadEvent::ObjektLookedUp(true));
            let s2 = next_state(0, 0, s1, ThreadEvent::ParentsGave(InvokerControlFlow::Continue(b)));
            let s3 = next_state(0, 0, s2, ThreadEvent::PoisonRead(false));
            let s4 = next_state(0, 0, s3, ThreadEvent::CallEnded(outcome));
            s4 == ThreadState::Finished { flow: InvokerControlFlow::<A>::Continue(b) }
        }),
{
}

/// A node with children signals them after every call of its action:
/// what the action returned, or `Continue(false)` when it failed; then it
/// waits on its parents again, keeping the flow they gave.
pub proof fn law_children_hear_every_call<A>(
    children: nat,
    parents: nat,
    flow: InvokerControlFlow<A>,
    outcome: CallOutcome<A>,
)
    requires
        children > 0,
    ensures
        ({
            let s1 = next_state(children, parents, ThreadState::Calling { flow }, ThreadEvent::CallEnded(outcome));
            &&& s1 is Signalling
            &&& signalled_flow(s1) == match outcome {
                CallOutcome::Returned(v) => v,
                CallOutcome::Failed => InvokerControlFlow::<A>::Continue(false),
            }
            &&& next_state(children, parents, s1, ThreadEvent::ChildrenSignalled)
                == ThreadState::AwaitingParents { flow }
        }),
{
}


/// Waiting on the parents gives the value read in the last parent's slot,
/// whatever it is; without parents it gives `Continue(false)`.
pub proof fn law_wait_gives_last_value_read<A>(observed: Seq<InvokerControlFlow<A>>, x: InvokerControlFlow<A>)
    ensures
        parents_outcome(observed.push(x)) == x,
        parents_outcome(Seq::<InvokerControlFlow<A>>::empty()) == InvokerControlFlow::<A>::Continue(false),
{
}

/// Looking up the objekt: found, the thread waits on its parents with
/// `Continue(false)` so far; missing, the thread ends with `Stop`.
pub proof fn law_objekt_lookup<A>(children: nat, parents: nat, found: bool)
    ensures
        ({
            let e = ThreadEvent::<A>::ObjektLookedUp(found);
            let s = next_state(children, parents, ThreadState::<A>::Starting, e);
            &&& found ==> s == ThreadState::AwaitingParents { flow: InvokerControlFlow::<A>::Continue(false) }
            &&& found ==> command_for(s, poisons(e)) == ThreadCommand {
                poison: false,
                action: ThreadAction::AwaitParents,
            }
            &&& !found ==> s == ThreadState::Finished { flow: InvokerControlFlow::<A>::Stop }
            &&& !found ==> command_for(s, poisons(e)) == ThreadCommand {
                poison: false,
                action: ThreadAction::Finish,
            }
        }),
{
}

/// A `Continue` from the parents leads to reading the poison mark, keeping
/// that flow; anything else is signalled to the children, then ends the
/// thread.
pub proof fn law_parents_gave<A>(
    children: nat,
    parents: nat,
    last: InvokerControlFlow<A>,
    f: InvokerControlFlow<A>,
)
    ensures
        ({
            let e = ThreadEvent::ParentsGave(f);
            let s = next_state(children, parents, ThreadState::AwaitingParents { flow: last }, e);
            &&& f is Continue ==> s == ThreadState::ReadingPoison { flow: f }
            &&& f is Continue ==> command_for(s, poisons(e)) == ThreadCommand {
                poison: false,
                action: ThreadAction::ReadPoison,
            }
            &&& !(f is Continue) ==> s == ThreadState::Signalling { flow: f, signal: None, then_finish: true }
            &&& !(f is Continue) ==> command_for(s, poisons(e)) == ThreadCommand {
                poison: false,
                action: ThreadAction::SignalChildren,
            }
        }),
{
}

/// A poisoned objekt is never called: whatever the node's children and
/// parents, reading the mark set sends the thread back to its parents with
/// the same flow; only an unmarked objekt leads to the call.
pub proof fn law_poisoned_objekt_is_not_called<A>(
    children: nat,
    parents: nat,
    flow: InvokerControlFlow<A>,
    poisoned: bool,
)
    ensures
        ({
            let e = ThreadEvent::<A>::PoisonRead(poisoned);
            let s = next_state(children, parents, ThreadState::ReadingPoison { flow }, e);
            &&& poisoned ==> s == ThreadState::AwaitingParents { flow }
            &&& poisoned ==> command_for(s, poisons(e)) == ThreadCommand {
                poison: false,
                action: ThreadAction::AwaitParents,
            }
            &&& !poisoned ==> s == ThreadState::Calling { flow }
            &&& !poisoned ==> command_for(s, poisons(e)) == ThreadCommand {
                poison: false,
                action: ThreadAction::Call,
            }
        }),
{
}

/// After the call of a childless node's action, whatever its outcome, the
/// objekt is marked poisoned exactly when the action failed; a node with
/// parents then waits on them again with the same flow, and only a node
/// without parents ends, with that flow.
pub proof fn law_childless_node_after_call<A>(
    parents: nat,
    flow: InvokerControlFlow<A>,
    outcome: CallOutcome<A>,
)
    ensures
        ({
            let e = ThreadEvent::CallEnded(outcome);
            let s = next_state(0, parents, ThreadState::Calling { flow }, e);
            &&& parents > 0 ==> s == ThreadState::AwaitingParents { flow }
            &&& parents > 0 ==> command_for(s, poisons(e)) == ThreadCommand {
                poison: outcome is Failed,
                action: ThreadAction::AwaitParents,
            }
            &&& parents == 0 ==> s == ThreadState::Finished { flow }
            &&& parents == 0 ==> command_for(s, poisons(e)) == ThreadCommand {
                poison: outcome is Failed,
                action: ThreadAction::Finish,
            }
        }),
{
}

/// After the call of the action of a node with children, the objekt is
/// marked poisoned exactly when the action failed, and the children are
/// signalled next.
pub proof fn law_call_with_children_signals<A>(
    children: nat,
    parents: nat,
    flow: InvokerControlFlow<A>,
    outcome: CallOutcome<A>,
)
    requires
        children > 0,
    ensures
        ({
            let e = ThreadEvent::CallEnded(outcome);
            let s = next_state(children, parents, ThreadState::Calling { flow }, e);
            command_for(s, poisons(e)) == ThreadCommand {
                poison: outcome is Failed,
                action: ThreadAction::SignalChildren,
            }
        }),
{
}

/// Once the children are signalled, the thread ends if it was passing a
/// stop on, and otherwise waits on its parents again, keeping its flow.
pub proof fn law_after_signalling<A>(
    children: nat,
    parents: nat,
    flow: InvokerControlFlow<A>,
    signal: Option<InvokerControlFlow<A>>,
    then_finish: bool,
)
    ensures
        ({
            let e = ThreadEvent::<A>::ChildrenSignalled;
            let s = next_state(children, parents, ThreadState::Signalling { flow, signal, then_finish }, e);
            &&& then_finish ==> s == ThreadState::Finished { flow }
            &&& then_finish ==> command_for(s, poisons(e)) == ThreadCommand {
                poison: false,
                action: ThreadAction::Finish,
            }
            &&& !then_finish ==> s == ThreadState::AwaitingParents { flow }
            &&& !then_finish ==> command_for(s, poisons(e)) == ThreadCommand {
                poison: false,
                action: ThreadAction::AwaitParents,
            }
        }),
{
}


/// No two templates of `ts` bear the same name.
pub open spec fn names_distinct<A>(ts: Seq<InvocationTemplate<A>>) -> bool {
    forall|p: int, q: int|
        0 <= p < ts.len() && 0 <= q < ts.len() && #[trigger] ts[p].name@ == #[trigger] ts[q].name@ ==> p == q
}

/// The templates of a well-formed invoker bear distinct names.
pub proof fn law_invoker_names_distinct<A>(inv: Invoker<A>)
    requires
        inv.wf(),
    ensures
        names_distinct(inv.template_seq()),
{
    inv.lemma_templates();
    let ts = inv.template_seq();
    assert forall|p: int, q: int|
        0 <= p < ts.len() && 0 <= q < ts.len() && #[trigger] ts[p].name@ == #[trigger] ts[q].name@ implies p == q by {
        if p < q {
            assert(crate::utils::text::text_lt(ts[p].name@, ts[q].name@));
            lemma_text_lt_irreflexive(ts[p].name@);
        } else if q < p {
            assert(crate::utils::text::text_lt(ts[q].name@, ts[p].name@));
            lemma_text_lt_irreflexive(ts[q].name@);
        }
    }
}

proof fn lemma_add_contains<T>(a: Seq<T>, b: Seq<T>, x: T)
    requires
        a.contains(x) || b.contains(x),
    ensures
        (a + b).contains(x),
{
    if a.contains(x) {
        let i = choose|i: int| 0 <= i < a.len() && a[i] == x;
        assert((a + b)[i] == x);
    } else {
        let i = choose|i: int| 0 <= i < b.len() && b[i] == x;
        assert((a + b)[a.len() + i] == x);
    }
}

proof fn lemma_upto_contains<A>(ts: Seq<InvocationTemplate<A>>, es: Seq<Seq<char>>, m: int, i: int, x: GraphIssue)
    requires
        0 <= i < m,
        template_issues(ts, es, i).contains(x),
    ensures
        issues_upto(ts, es, m).contains(x),
    decreases m,
{
    if i < m - 1 {
        lemma_upto_contains(ts, es, m - 1, i, x);
    }
    lemma_add_contains(issues_upto(ts, es, m - 1), template_issues(ts, es, m - 1), x);
}

proof fn lemma_parent_issues_contains<A>(ts: Seq<InvocationTemplate<A>>, i: int, m: int, k: int, x: GraphIssue)
    requires
        0 <= k < m,
        parent_issue(ts, i, k).contains(x),
    ensures
        parent_issues(ts, i, m).contains(x),
    decreases m,
{
    if k < m - 1 {
        lemma_parent_issues_contains(ts, i, m - 1, k, x);
    }
    lemma_add_contains(parent_issues(ts, i, m - 1), parent_issue(ts, i, m - 1), x);
}

proof fn lemma_child_issues_contains<A>(ts: Seq<InvocationTemplate<A>>, i: int, m: int, k: int, x: GraphIssue)
    requires
        0 <= k < m,
        child_issue(ts, i, k).contains(x),
    ensures
        child_issues(ts, i, m).contains(x),
    decreases m,
{
    if k < m - 1 {
        lemma_child_issues_contains(ts, i, m - 1, k, x);
    }
    lemma_add_contains(child_issues(ts, i, m - 1), child_issue(ts, i, m - 1), x);
}

proof fn lemma_reported_parent<A>(ts: Seq<InvocationTemplate<A>>, es: Seq<Seq<char>>, i: int, k: int, x: GraphIssue)
    requires
        0 <= i < ts.len(),
        0 <= k < ts[i].parents@.len(),
        parent_issue(ts, i, k) == seq![x],
    ensures
        graph_issues(ts, es).contains(x),
{
    assert(seq![x][0] == x);
    lemma_parent_issues_contains(ts, i, ts[i].parents@.len() as int, k, x);
    let u = unreachable_issue(ts, es, i);
    let p = parent_issues(ts, i, ts[i].parents@.len() as int);
    let c = child_issues(ts, i, ts[i].children@.len() as int);
    lemma_add_contains(u, p, x);
    lemma_add_contains(u + p, c, x);
    lemma_upto_contains(ts, es, ts.len() as int, i, x);
}

proof fn lemma_reported_child<A>(ts: Seq<InvocationTemplate<A>>, es: Seq<Seq<char>>, i: int, k: int, x: GraphIssue)
    requires
        0 <= i < ts.len(),
        0 <= k < ts[i].children@.len(),
        child_issue(ts, i, k) == seq![x],
    ensures
        graph_issues(ts, es).contains(x),
{
    assert(seq![x][0] == x);
    lemma_child_issues_contains(ts, i, ts[i].children@.len() as int, k, x);
    let u = unreachable_issue(ts, es, i);
    let p = parent_issues(ts, i, ts[i].parents@.len() as int);
    let c = child_issues(ts, i, ts[i].children@.len() as int);
    lemma_add_contains(u + p, c, x);
    lemma_upto_contains(ts, es, ts.len() as int, i, x);
}

/// A template without parents that is no entrypoint is reported
/// unreachable, whatever children it lists.
pub proof fn law_unreachable_is_reported<A>(ts: Seq<InvocationTemplate<A>>, es: Seq<Seq<char>>, i: int)
    requires
        0 <= i < ts.len(),
        ts[i].parents@.len() == 0,
        !es.contains(ts[i].name@),
    ensures
        graph_issues(ts, es).contains(GraphIssue::Unreachable { name: ts[i].name@ }),
        graph_issues(ts, es).len() > 0,
{
    let x = GraphIssue::Unreachable { name: ts[i].name@ };
    let u = unreachable_issue(ts, es, i);
    assert(u == seq![x]);
    assert(u[0] == x);
    let p = parent_issues(ts, i, ts[i].parents@.len() as int);
    let c = child_issues(ts, i, ts[i].children@.len() as int);
    lemma_add_contains(u, p, x);
    lemma_add_contains(u + p, c, x);
    lemma_upto_contains(ts, es, ts.len() as int, i, x);
}

/// A parent that no other template bears is reported not found.
pub proof fn law_missing_parent_is_reported<A>(ts: Seq<InvocationTemplate<A>>, es: Seq<Seq<char>>, i: int, k: int)
    requires
        0 <= i < ts.len(),
        0 <= k < ts[i].parents@.len(),
        forall|j: int| 0 <= j < ts.len() && j != i ==> #[trigger] ts[j].name@ != ts[i].parents@[k]@,
    ensures
        graph_issues(ts, es).contains(
            GraphIssue::ParentNotFound { name: ts[i].name@, parent: ts[i].parents@[k]@ },
        ),
{
    lemma_reported_parent(
        ts,
        es,
        i,
        k,
        GraphIssue::ParentNotFound { name: ts[i].name@, parent: ts[i].parents@[k]@ },
    );
}

/// A parent borne by template `j` that does not list `i` among its
/// children is reported, whether or not `j` lists any children.
pub proof fn law_unreciprocated_parent_is_reported<A>(
    ts: Seq<InvocationTemplate<A>>,
    es: Seq<Seq<char>>,
    i: int,
    k: int,
    j: int,
)
    requires
        names_distinct(ts),
        0 <= i < ts.len(),
        0 <= j < ts.len(),
        j != i,
        0 <= k < ts[i].parents@.len(),
        ts[j].name@ == ts[i].parents@[k]@,
        forall|q: int| 0 <= q < ts[j].children@.len() ==> #[trigger] ts[j].children@[q]@ != ts[i].name@,
    ensures
        graph_issues(ts, es).contains(
            GraphIssue::ParentNotReciprocated { name: ts[i].name@, parent: ts[i].parents@[k]@ },
        ),
{
    let parent = ts[i].parents@[k]@;
    assert(has_other_template(ts, i, parent));
    let o = crate::invocations::invoker::other_template(ts, i, parent);
    assert(ts[o].name@ == ts[j].name@);
    assert(o == j);
    if string_views(ts[j].children@).contains(ts[i].name@) {
        let q = choose|q: int| 0 <= q < string_views(ts[j].children@).len() && string_views(ts[j].children@)[q] == ts[i].name@;
        assert(ts[j].children@[q]@ == ts[i].name@);
    }
    lemma_reported_parent(
        ts,
        es,
        i,
        k,
        GraphIssue::ParentNotReciprocated { name: ts[i].name@, parent },
    );
}

/// A child that no other template bears is reported not found.
pub proof fn law_missing_child_is_reported<A>(ts: Seq<InvocationTemplate<A>>, es: Seq<Seq<char>>, i: int, k: int)
    requires
        0 <= i < ts.len(),
        0 <= k < ts[i].children@.len(),
        forall|j: int| 0 <= j < ts.len() && j != i ==> #[trigger] ts[j].name@ != ts[i].children@[k]@,
    ensures
        graph_issues(ts, es).contains(
            GraphIssue::ChildNotFound { name: ts[i].name@, child: ts[i].children@[k]@ },
        ),
{
    lemma_reported_child(
        ts,
        es,
        i,
        k,
        GraphIssue::ChildNotFound { name: ts[i].name@, child: ts[i].children@[k]@ },
    );
}

/// A child borne by template `j` that does not list `i` among its parents
/// is reported, whether or not `j` lists any parents.
pub proof fn law_unreciprocated_child_is_reported<A>(
    ts: Seq<InvocationTemplate<A>>,
    es: Seq<Seq<char>>,
    i: int,
    k: int,
    j: int,
)
    requires
        names_distinct(ts),
        0 <= i < ts.len(),
        0 <= j < ts.len(),
        j != i,
        0 <= k < ts[i].children@.len(),
        ts[j].name@ == ts[i].children@[k]@,
        forall|q: int| 0 <= q < ts[j].parents@.len() ==> #[trigger] ts[j].parents@[q]@ != ts[i].name@,
    ensures
        graph_issues(ts, es).contains(
            GraphIssue::ChildNotReciprocated { name: ts[i].name@, child: ts[i].children@[k]@ },
        ),
{
    let child = ts[i].children@[k]@;
    assert(has_other_template(ts, i, child));
    let o = crate::invocations::invoker::other_template(ts, i, child);
    assert(ts[o].name@ == ts[j].name@);
    assert(o == j);
    if string_views(ts[j].parents@).contains(ts[i].name@) {
        let q = choose|q: int| 0 <= q < string_views(ts[j].parents@).len() && string_views(ts[j].parents@)[q] == ts[i].name@;
        assert(ts[j].parents@[q]@ == ts[i].name@);
    }
    lemma_reported_child(
        ts,
        es,
        i,
        k,
        GraphIssue::ChildNotReciprocated { name: ts[i].name@, child },
    );
}

/// Templates with distinct names, each an entrypoint or with a parent, each
/// of whose parents and children is another template that lists it back,
/// have no problem.
pub proof fn law_consistent_graph_has_no_issues<A>(ts: Seq<InvocationTemplate<A>>, es: Seq<Seq<char>>)
    requires
        names_distinct(ts),
        forall|i: int| 0 <= i < ts.len() ==> (#[trigger] ts[i]).parents@.len() > 0 || es.contains(ts[i].name@),
        forall|i: int, k: int|
            #![trigger ts[i].parents@[k]]
            0 <= i < ts.len() && 0 <= k < ts[i].parents@.len() ==> exists|j: int, q: int|
                #![trigger ts[j].children@[q]]
                0 <= j < ts.len() && j != i && ts[j].name@ == ts[i].parents@[k]@ && 0 <= q
                    < ts[j].children@.len() && ts[j].children@[q]@ == ts[i].name@,
        forall|i: int, k: int|
            #![trigger ts[i].children@[k]]
            0 <= i < ts.len() && 0 <= k < ts[i].children@.len() ==> exists|j: int, q: int|
                #![trigger ts[j].parents@[q]]
                0 <= j < ts.len() && j != i && ts[j].name@ == ts[i].children@[k]@ && 0 <= q
                    < ts[j].parents@.len() && ts[j].parents@[q]@ == ts[i].name@,
    ensures
        graph_issues(ts, es).len() == 0,
{
    assert forall|i: int, k: int|
        0 <= i < ts.len() && 0 <= k < ts[i].parents@.len() implies #[trigger] parent_issue(ts, i, k).len() == 0 by {
        assert(ts[i].parents@[k] == ts[i].parents@[k]);
        let (j, q) = choose|j: int, q: int|
            #![trigger ts[j].children@[q]]
            0 <= j < ts.len() && j != i && ts[j].name@ == ts[i].parents@[k]@ && 0 <= q
                < ts[j].children@.len() && ts[j].children@[q]@ == ts[i].name@;
        assert(string_views(ts[j].children@)[q] == ts[i].name@);
        lemma_parent_issue_free(ts, i, k, j);
    }
    assert forall|i: int, k: int|
        0 <= i < ts.len() && 0 <= k < ts[i].children@.len() implies #[trigger] child_issue(ts, i, k).len() == 0 by {
        assert(ts[i].children@[k] == ts[i].children@[k]);
        let (j, q) = choose|j: int, q: int|
            #![trigger ts[j].parents@[q]]
            0 <= j < ts.len() && j != i && ts[j].name@ == ts[i].children@[k]@ && 0 <= q
                < ts[j].parents@.len() && ts[j].parents@[q]@ == ts[i].name@;
        assert(string_views(ts[j].parents@)[q] == ts[i].name@);
        lemma_child_issue_free(ts, i, k, j);
    }
    lemma_graph_issue_free(ts, es);
}


proof fn lemma_first_duplicate_none(es: Seq<Seq<char>>, p: int, j: int)
    requires
        0 <= j,
    ensures
        first_duplicate_from(es, p, j) is None <==> forall|q: int|
            j <= q < es.len() && q != p ==> #[trigger] es[q] != es[p],
    decreases es.len() - j,
{
    if j < es.len() {
        lemma_first_duplicate_none(es, p, j + 1);
    }
}

proof fn lemma_entrypoint_issue_none<A>(ts: Seq<InvocationTemplate<A>>, es: Seq<Seq<char>>, i: int)
    requires
        0 <= i,
    ensures
        entrypoint_issue_from(ts, es, i) is None <==> forall|p: int|
            i <= p < es.len() ==> has_template(ts, #[trigger] es[p]) && first_duplicate_from(es, p, 0) is None,
    decreases es.len() - i,
{
    if i < es.len() {
        lemma_entrypoint_issue_none(ts, es, i + 1);
    }
}

/// The entrypoints pass their check exactly when each names a template and
/// no entrypoint is listed twice.
pub proof fn law_entrypoints_checked<A>(ts: Seq<InvocationTemplate<A>>, es: Seq<Seq<char>>)
    ensures
        entrypoint_issue(ts, es) is None <==> ((forall|i: int|
            #![trigger es[i]]
            0 <= i < es.len() ==> exists|j: int| 0 <= j < ts.len() && #[trigger] ts[j].name@ == es[i]) && (
        forall|i: int, j: int| 0 <= i < j < es.len() ==> #[trigger] es[i] != #[trigger] es[j])),
{
    lemma_entrypoint_issue_none(ts, es, 0);
    assert forall|p: int| 0 <= p < es.len() implies (first_duplicate_from(es, p, 0) is None <==> forall|q: int|
        0 <= q < es.len() && q != p ==> #[trigger] es[q] != es[p]) by {
        lemma_first_duplicate_none(es, p, 0);
    }
    if entrypoint_issue(ts, es) is None {
        assert forall|i: int, j: int| 0 <= i < j < es.len() implies #[trigger] es[i] != #[trigger] es[j] by {
            assert(first_duplicate_from(es, i, 0) is None);
        }
        assert forall|i: int| #![trigger es[i]] 0 <= i < es.len() implies exists|j: int|
            0 <= j < ts.len() && #[trigger] ts[j].name@ == es[i] by {
            assert(has_template(ts, es[i]));
        }
    }
    if (forall|i: int|
        #![trigger es[i]]
        0 <= i < es.len() ==> exists|j: int| 0 <= j < ts.len() && #[trigger] ts[j].name@ == es[i]) && (
    forall|i: int, j: int| 0 <= i < j < es.len() ==> #[trigger] es[i] != #[trigger] es[j]) {
        assert forall|p: int| 0 <= p < es.len() implies has_template(ts, #[trigger] es[p])
            && first_duplicate_from(es, p, 0) is None by {
            assert forall|q: int| 0 <= q < es.len() && q != p implies #[trigger] es[q] != es[p] by {
                if q < p {
                    assert(es[q] != es[p]);
                } else {
                    assert(es[p] != es[q]);
                }
            }
        }
    }
}


/// A built graph has one invocation per template, in the same order and
/// with the same name and action; each invocation waits on one slot per
/// listed parent, and the `k`-th of them is signalled by an invocation
/// named as its `k`-th parent; a slot starts primed exactly when the
/// invocation waiting on it is an entrypoint.
pub proof fn law_built_graph_shape<A>(inv: Invoker<A>, b: BuiltInvoker<A>)
    requires
        inv.wf(),
        graph_issues(inv.template_seq(), inv.entrypoint_seq()).len() == 0,
        built_from(b, inv.template_seq(), inv.entrypoint_seq()),
    ensures
        b.invocation_seq().len() == inv.template_seq().len(),
        forall|i: int|
            #![trigger b.invocation_seq()[i]]
            0 <= i < inv.template_seq().len() ==> {
                &&& b.invocation_seq()[i].0@ == inv.template_seq()[i].name@
                &&& b.invocation_seq()[i].1.action == inv.template_seq()[i].action
                &&& b.invocation_seq()[i].1.parents@.len() == inv.template_seq()[i].parents@.len()
            },
        forall|i: int, k: int|
            #![trigger b.invocation_seq()[i].1.parents@[k]]
            0 <= i < inv.template_seq().len() && 0 <= k < inv.template_seq()[i].parents@.len() ==> {
                let s = b.invocation_seq()[i].1.parents@[k];
                &&& s < b.primed_seq().len()
                &&& b.primed_seq()[s as int] == inv.entrypoint_seq().contains(inv.template_seq()[i].name@)
                &&& exists|p: int|
                    0 <= p < b.invocation_seq().len() && p != i && #[trigger] b.invocation_seq()[p].1.children@.contains(s)
                        && b.invocation_seq()[p].0@ == inv.template_seq()[i].parents@[k]@
            },
{
    let ts = inv.template_seq();
    let es = inv.entrypoint_seq();
    inv.lemma_templates();
    lemma_parents_found(ts, es);
    assert forall|i: int| #![trigger b.invocation_seq()[i]] 0 <= i < ts.len() implies {
        &&& b.invocation_seq()[i].0@ == ts[i].name@
        &&& b.invocation_seq()[i].1.action == ts[i].action
        &&& b.invocation_seq()[i].1.parents@.len() == ts[i].parents@.len()
    } by {
        assert(invocation_from(b.invocation_seq()[i], ts, i));
    }
    assert forall|i: int, k: int|
        #![trigger b.invocation_seq()[i].1.parents@[k]]
        0 <= i < ts.len() && 0 <= k < ts[i].parents@.len() implies {
            let s = b.invocation_seq()[i].1.parents@[k];
            &&& s < b.primed_seq().len()
            &&& b.primed_seq()[s as int] == es.contains(ts[i].name@)
            &&& exists|p: int|
                0 <= p < b.invocation_seq().len() && p != i && #[trigger] b.invocation_seq()[p].1.children@.contains(s)
                    && b.invocation_seq()[p].0@ == ts[i].parents@[k]@
        } by {
        assert(invocation_from(b.invocation_seq()[i], ts, i));
        let s = b.invocation_seq()[i].1.parents@[k];
        assert(s == slot_start(ts, i) + k);
        lemma_slot_at(ts, i, k);
        let parent = ts[i].parents@[k]@;
        assert(has_other_template(ts, i, parent));
        let p = choose|p: int| 0 <= p < ts.len() && p != i && #[trigger] ts[p].name@ == parent;
        assert(invocation_from(b.invocation_seq()[p], ts, p));
        assert(b.invocation_seq()[p].1.children@.contains(s));
        assert(b.primed_seq()[s as int] == es.contains(ts[all_slots(ts)[s as int].0].name@));
    }
}

} // verus!
