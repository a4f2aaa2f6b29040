//! The invoker: collects invocation templates and entrypoints, checks that
//! they form a consistent graph, and builds the graph of wait slots that the
//! runtime runs.
use vstd::prelude::*;
use crate::invocations::invocation::{Invocation, InvocationTemplate};
use crate::utils::name_map::{NameMap, has_key, lemma_sorted_keys_distinct};
use crate::utils::text::{contains_string, decimal_string, decimal_text, string_views};

verus! {

/// A built invocation graph. Each invocation has a name; wait slots are
/// numbered from 0, and `wait_primed` says for each slot whether it starts
/// out as `Continue(true)` (the others start as `Continue(false)`).
#[derive(Clone, Debug)]
pub struct BuiltInvoker<A> {
    invocations: Vec<(String, Invocation<A>)>,
    wait_primed: Vec<bool>,
}

/// What an invocation tells the graph to do next.
#[derive(Clone, Debug)]
pub enum InvokerControlFlow<A> {
    /// Go on; a `true` is a go-ahead for a node that waits on this value.
    Continue(bool),
    /// Stop running.
    Stop,
    /// Stop this graph and run the given one.
    Restart(Box<BuiltInvoker<A>>),
}

impl<A> BuiltInvoker<A> {
    pub closed spec fn invocation_seq(&self) -> Seq<(String, Invocation<A>)> {
        self.invocations@
    }

    pub closed spec fn primed_seq(&self) -> Seq<bool> {
        self.wait_primed@
    }

    /// The invocations, in increasing name order.
    pub fn invocations(&self) -> (r: &Vec<(String, Invocation<A>)>)
        ensures
            r@ == self.invocation_seq(),
    {
        &self.invocations
    }

    /// For each wait slot, whether it starts out as `Continue(true)`.
    pub fn wait_primed(&self) -> (r: &Vec<bool>)
        ensures
            r@ == self.primed_seq(),
    {
        &self.wait_primed
    }
}

/// The control flow that the runtime keeps after joining a thread that
/// ended with `next`, when it had `current` so far: a `Continue` gives way
/// to anything, a `Restart` gives way to anything but a `Continue`, and a
/// `Stop` stays.
pub open spec fn merged_flow<A>(
    current: InvokerControlFlow<A>,
    next: InvokerControlFlow<A>,
) -> InvokerControlFlow<A> {
    match current {
        InvokerControlFlow::Continue(_) => next,
        InvokerControlFlow::Restart(_) => if next is Continue {
            current
        } else {
            next
        },
        InvokerControlFlow::Stop => current,
    }
}

/// Folds `merged_flow` over `flows`, from `current`.
pub open spec fn folded_flow<A>(
    current: InvokerControlFlow<A>,
    flows: Seq<InvokerControlFlow<A>>,
) -> InvokerControlFlow<A>
    decreases flows.len(),
{
    if flows.len() == 0 {
        current
    } else {
        folded_flow(merged_flow(current, flows[0]), flows.drop_first())
    }
}

/// The control flow of a whole run whose threads ended with `flows`, in the
/// order they are joined.
pub open spec fn joined_flow<A>(flows: Seq<InvokerControlFlow<A>>) -> InvokerControlFlow<A> {
    folded_flow(InvokerControlFlow::Continue(false), flows)
}

/// Combines the control flow kept so far with that of the next joined thread.
pub fn merge_control_flow<A>(current: InvokerControlFlow<A>, next: InvokerControlFlow<A>) -> (r:
    InvokerControlFlow<A>)
    ensures
        r == merged_flow(current, next),
{
    match current {
        InvokerControlFlow::Continue(_) => next,
        InvokerControlFlow::Restart(v) => {
            if let InvokerControlFlow::Continue(_) = next {
                InvokerControlFlow::Restart(v)
            } else {
                next
            }
        },
        InvokerControlFlow::Stop => {
            if let InvokerControlFlow::Stop = next {
                next
            } else {
                InvokerControlFlow::Stop
            }
        },
    }
}

/// The control flow of a run whose threads ended with `flows`, joined in
/// order.
pub fn join_control_flows<A>(flows: Vec<InvokerControlFlow<A>>) -> (r: InvokerControlFlow<A>)
    ensures
        r == joined_flow(flows@),
{
    let ghost all = flows@;
    let mut rest = flows;
    let mut current = InvokerControlFlow::Continue(false);
    while rest.len() > 0
        invariant
            folded_flow(current, rest@) == joined_flow(all),
        decreases rest@.len(),
    {
        let next = rest.remove(0);
        current = merge_control_flow(current, next);
    }
    current
}

impl<A> InvokerControlFlow<A> {
    /// The graph to run next after a run that ended with this control flow:
    /// only a `Restart` names one.
    pub fn into_restart(self) -> (r: Option<Box<BuiltInvoker<A>>>)
        ensures
            r == (match self {
                InvokerControlFlow::Restart(v) => Some(v),
                _ => None,
            }),
    {
        match self {
            InvokerControlFlow::Restart(v) => Some(v),
            _ => None,
        }
    }
}

} // verus!

verus! {

/// A way in which templates and entrypoints fail to form an invocation
/// graph.
pub enum GraphIssue {
    EntrypointNotFound { name: Seq<char> },
    DuplicateEntrypoint { name: Seq<char>, first: nat, second: nat },
    Unreachable { name: Seq<char> },
    ParentNotReciprocated { name: Seq<char>, parent: Seq<char> },
    ParentNotFound { name: Seq<char>, parent: Seq<char> },
    ChildNotReciprocated { name: Seq<char>, child: Seq<char> },
    ChildNotFound { name: Seq<char>, child: Seq<char> },
}

/// The message that reports `issue`.
pub open spec fn issue_message(issue: GraphIssue) -> Seq<char> {
    match issue {
        GraphIssue::EntrypointNotFound { name } => "Entrypoint `"@ + name
            + "` is not found in invocation map"@,
        GraphIssue::DuplicateEntrypoint { name, first, second } => "Duplicate entrypoints: `"@
            + name + "` at position "@ + decimal_text(first) + " and "@ + decimal_text(second),
        GraphIssue::Unreachable { name } => "Invocation `"@ + name + "` is unreachable"@,
        GraphIssue::ParentNotReciprocated { name, parent } => "The invocation `"@ + name
            + "` lists a parent `"@ + parent
            + "`, but the listed children of that parent don't include `"@ + name
            + "`. It may have been overriden by a node with a duplicate name"@,
        GraphIssue::ParentNotFound { name, parent } => "Invocation `"@ + name
            + "` can't find parent with name `"@ + parent + "`"@,
        GraphIssue::ChildNotReciprocated { name, child } => "The invocation `"@ + name
            + "` lists a child `"@ + child
            + "`, but the listed parents of that child don't include `"@ + name
            + "`. It may have been overriden by a node with a duplicate name"@,
        GraphIssue::ChildNotFound { name, child } => "Invocation \""@ + name
            + "\" can't find child with name `"@ + child + "`"@,
    }
}

/// The messages `ms` each followed by a line break.
pub open spec fn lines_text(ms: Seq<Seq<char>>) -> Seq<char>
    decreases ms.len(),
{
    if ms.len() == 0 {
        Seq::empty()
    } else {
        lines_text(ms.drop_last()) + ms.last() + "\n"@
    }
}

/// Some template of `ts` is named `name`.
pub open spec fn has_template<A>(ts: Seq<InvocationTemplate<A>>, name: Seq<char>) -> bool {
    exists|j: int| 0 <= j < ts.len() && #[trigger] ts[j].name@ == name
}

/// The first position from `j` on, other than `i`, whose entrypoint equals
/// the one at `i`.
pub open spec fn first_duplicate_from(es: Seq<Seq<char>>, i: int, j: int) -> Option<int>
    decreases es.len() - j,
{
    if j >= es.len() {
        None
    } else if j != i && es[j] == es[i] {
        Some(j)
    } else {
        first_duplicate_from(es, i, j + 1)
    }
}

/// The first problem with the entrypoints from position `i` on: an
/// entrypoint that names no template, or one that is listed twice.
pub open spec fn entrypoint_issue_from<A>(
    ts: Seq<InvocationTemplate<A>>,
    es: Seq<Seq<char>>,
    i: int,
) -> Option<GraphIssue>
    decreases es.len() - i,
{
    if i < 0 || i >= es.len() {
        None
    } else if !has_template(ts, es[i]) {
        Some(GraphIssue::EntrypointNotFound { name: es[i] })
    } else {
        match first_duplicate_from(es, i, 0) {
            Some(j) => Some(
                GraphIssue::DuplicateEntrypoint { name: es[i], first: i as nat, second: j as nat },
            ),
            None => entrypoint_issue_from(ts, es, i + 1),
        }
    }
}

/// The first problem with the entrypoints `es`, given the templates `ts`.
pub open spec fn entrypoint_issue<A>(ts: Seq<InvocationTemplate<A>>, es: Seq<Seq<char>>) -> Option<
    GraphIssue,
> {
    entrypoint_issue_from(ts, es, 0)
}

/// Template `i` has no parents and is no entrypoint.
pub open spec fn unreachable_issue<A>(
    ts: Seq<InvocationTemplate<A>>,
    es: Seq<Seq<char>>,
    i: int,
) -> Seq<GraphIssue> {
    if ts[i].parents@.len() == 0 && !es.contains(ts[i].name@) {
        seq![GraphIssue::Unreachable { name: ts[i].name@ }]
    } else {
        Seq::empty()
    }
}

/// Some template other than `i` is named `name`.
pub open spec fn has_other_template<A>(ts: Seq<InvocationTemplate<A>>, i: int, name: Seq<char>) -> bool {
    exists|j: int| 0 <= j < ts.len() && j != i && #[trigger] ts[j].name@ == name
}

/// The template other than `i` that is named `name`.
pub open spec fn other_template<A>(ts: Seq<InvocationTemplate<A>>, i: int, name: Seq<char>) -> int {
    choose|j: int| 0 <= j < ts.len() && j != i && #[trigger] ts[j].name@ == name
}

/// The problem, if any, with the `k`-th parent of template `i`: no other
/// template bears its name, or that template does not list `i` as a child.
pub open spec fn parent_issue<A>(ts: Seq<InvocationTemplate<A>>, i: int, k: int) -> Seq<GraphIssue> {
    let name = ts[i].name@;
    let parent = ts[i].parents@[k]@;
    if has_other_template(ts, i, parent) {
        if string_views(ts[other_template(ts, i, parent)].children@).contains(name) {
            Seq::empty()
        } else {
            seq![GraphIssue::ParentNotReciprocated { name, parent }]
        }
    } else {
        seq![GraphIssue::ParentNotFound { name, parent }]
    }
}

/// The problem, if any, with the `k`-th child of template `i`: no other
/// template bears its name, or that template does not list `i` as a parent.
pub open spec fn child_issue<A>(ts: Seq<InvocationTemplate<A>>, i: int, k: int) -> Seq<GraphIssue> {
    let name = ts[i].name@;
    let child = ts[i].children@[k]@;
    if has_other_template(ts, i, child) {
        if string_views(ts[other_template(ts, i, child)].parents@).contains(name) {
            Seq::empty()
        } else {
            seq![GraphIssue::ChildNotReciprocated { name, child }]
        }
    } else {
        seq![GraphIssue::ChildNotFound { name, child }]
    }
}

/// The problems with the first `m` parents of template `i`.
pub open spec fn parent_issues<A>(ts: Seq<InvocationTemplate<A>>, i: int, m: int) -> Seq<GraphIssue>
    decreases m,
{
    if m <= 0 {
        Seq::empty()
    } else {
        parent_issues(ts, i, m - 1) + parent_issue(ts, i, m - 1)
    }
}

/// The problems with the first `m` children of template `i`.
pub open spec fn child_issues<A>(ts: Seq<InvocationTemplate<A>>, i: int, m: int) -> Seq<GraphIssue>
    decreases m,
{
    if m <= 0 {
        Seq::empty()
    } else {
        child_issues(ts, i, m - 1) + child_issue(ts, i, m - 1)
    }
}

/// The problems with template `i`, in the order they are reported.
pub open spec fn template_issues<A>(
    ts: Seq<InvocationTemplate<A>>,
    es: Seq<Seq<char>>,
    i: int,
) -> Seq<GraphIssue> {
    unreachable_issue(ts, es, i) + parent_issues(ts, i, ts[i].parents@.len() as int) + child_issues(
        ts,
        i,
        ts[i].children@.len() as int,
    )
}

/// The problems with the first `m` templates, in the order they are
/// reported.
pub open spec fn issues_upto<A>(ts: Seq<InvocationTemplate<A>>, es: Seq<Seq<char>>, m: int) -> Seq<
    GraphIssue,
>
    decreases m,
{
    if m <= 0 {
        Seq::empty()
    } else {
        issues_upto(ts, es, m - 1) + template_issues(ts, es, m - 1)
    }
}

/// All problems with the templates `ts`, in the order they are reported.
pub open spec fn graph_issues<A>(ts: Seq<InvocationTemplate<A>>, es: Seq<Seq<char>>) -> Seq<GraphIssue> {
    issues_upto(ts, es, ts.len() as int)
}

/// The report of the problems `issues`: one line each.
pub open spec fn issues_report(issues: Seq<GraphIssue>) -> Seq<char> {
    lines_text(issues.map_values(|x: GraphIssue| issue_message(x)))
}

/// The wait slots of the first `m` templates, in the order they are made:
/// one for each parent that a template lists, as (template, position in its
/// parent list).
pub open spec fn slot_owners<A>(ts: Seq<InvocationTemplate<A>>, m: int) -> Seq<(int, int)>
    decreases m,
{
    if m <= 0 {
        Seq::empty()
    } else {
        slot_owners(ts, m - 1) + Seq::new(ts[m - 1].parents@.len(), |k: int| (m - 1, k))
    }
}

/// The number of the first wait slot of template `i`.
pub open spec fn slot_start<A>(ts: Seq<InvocationTemplate<A>>, i: int) -> int {
    slot_owners(ts, i).len() as int
}

/// All wait slots of the templates `ts`.
pub open spec fn all_slots<A>(ts: Seq<InvocationTemplate<A>>) -> Seq<(int, int)> {
    slot_owners(ts, ts.len() as int)
}

/// The name of the parent that wait slot `s` links its owner to.
pub open spec fn slot_parent_name<A>(ts: Seq<InvocationTemplate<A>>, s: int) -> Seq<char> {
    ts[all_slots(ts)[s].0].parents@[all_slots(ts)[s].1]@
}

/// `s` is strictly increasing.
pub open spec fn strictly_increasing(s: Seq<usize>) -> bool {
    forall|a: int, b: int| 0 <= a < b < s.len() ==> s[a] < s[b]
}

/// `entry` is the invocation that template `i` of `ts` gives: the same
/// name, action and objekt; as parents the slots made for the template's
/// parent list, in order; as children, in increasing order, the slots whose
/// parent is this template.
pub open spec fn invocation_from<A>(
    entry: (String, Invocation<A>),
    ts: Seq<InvocationTemplate<A>>,
    i: int,
) -> bool {
    let inv = entry.1;
    &&& entry.0@ == ts[i].name@
    &&& inv.action == ts[i].action
    &&& inv.objekt_name@ == ts[i].objekt_name@
    &&& inv.parents@.len() == ts[i].parents@.len()
    &&& forall|k: int| 0 <= k < inv.parents@.len() ==> #[trigger] inv.parents@[k] == slot_start(ts, i) + k
    &&& strictly_increasing(inv.children@)
    &&& forall|s: usize| #[trigger]
        inv.children@.contains(s) <==> (s < all_slots(ts).len() && slot_parent_name(ts, s as int)
            == ts[i].name@)
}

/// `b` is the graph that the templates `ts` and entrypoints `es` build: one
/// invocation per template, in the same order; one wait slot per listed
/// parent, which the template's invocation waits on and the parent's
/// invocation signals; and the slots of entrypoints start primed.
pub open spec fn built_from<A>(
    b: BuiltInvoker<A>,
    ts: Seq<InvocationTemplate<A>>,
    es: Seq<Seq<char>>,
) -> bool {
    &&& b.invocation_seq().len() == ts.len()
    &&& b.primed_seq().len() == all_slots(ts).len()
    &&& forall|i: int| 0 <= i < ts.len() ==> invocation_from(#[trigger] b.invocation_seq()[i], ts, i)
    &&& forall|s: int|
        0 <= s < all_slots(ts).len() ==> #[trigger] b.primed_seq()[s] == es.contains(
            ts[all_slots(ts)[s].0].name@,
        )
}

/// Adds the templates `added` to the map `m`, each under its name, later
/// ones replacing earlier ones.
pub open spec fn inserted_templates<A>(
    m: Map<Seq<char>, InvocationTemplate<A>>,
    added: Seq<InvocationTemplate<A>>,
) -> Map<Seq<char>, InvocationTemplate<A>>
    decreases added.len(),
{
    if added.len() == 0 {
        m
    } else {
        inserted_templates(m, added.drop_last()).insert(added.last().name@, added.last())
    }
}

} // verus!

verus! {

/// Collects invocation templates, each under its name, and the names of the
/// entrypoints.
pub struct Invoker<A> {
    entrypoints: Vec<String>,
    invocations: NameMap<InvocationTemplate<A>>,
}

impl<A> Invoker<A> {
    /// The entrypoints, in the order they were pushed.
    pub closed spec fn entrypoint_seq(&self) -> Seq<Seq<char>> {
        string_views(self.entrypoints@)
    }

    /// The templates, in increasing name order.
    pub closed spec fn template_seq(&self) -> Seq<InvocationTemplate<A>> {
        self.invocations.entries().map_values(|e: (String, InvocationTemplate<A>)| e.1)
    }

    /// The templates by name.
    pub closed spec fn template_map(&self) -> Map<Seq<char>, InvocationTemplate<A>> {
        self.invocations@
    }

    /// Templates are kept in increasing name order, each under its own
    /// name.
    pub closed spec fn wf(&self) -> bool {
        &&& self.invocations.wf()
        &&& forall|k: Seq<char>| #[trigger]
            self.invocations@.contains_key(k) ==> self.invocations@[k].name@ == k
    }

    /// What a well-formed invoker guarantees of its templates: they stand in
    /// increasing name order, and the sequence and the map hold the same
    /// templates.
    pub proof fn lemma_templates(&self)
        requires
            self.wf(),
        ensures
            forall|i: int, j: int|
                0 <= i < j < self.template_seq().len() ==> crate::utils::text::text_lt(
                    #[trigger] self.template_seq()[i].name@,
                    #[trigger] self.template_seq()[j].name@,
                ),
            forall|i: int|
                0 <= i < self.template_seq().len() ==> self.template_map().contains_key(
                    #[trigger] self.template_seq()[i].name@,
                ) && self.template_map()[self.template_seq()[i].name@] == self.template_seq()[i],
            forall|k: Seq<char>| #[trigger]
                self.template_map().contains_key(k) ==> has_template(self.template_seq(), k),
    {
        self.lemma_names();
        let es = self.invocations.entries();
        let ts = self.template_seq();
        assert forall|k: Seq<char>| #[trigger]
            self.template_map().contains_key(k) implies has_template(ts, k) by {
            let i = crate::utils::name_map::key_position(es, k);
            assert(ts[i].name@ == k);
        }
    }

    /// In a well-formed invoker, each template is stored under its name, and
    /// names are distinct.
    proof fn lemma_names(&self)
        requires
            self.wf(),
        ensures
            self.template_seq().len() == self.invocations.entries().len(),
            forall|i: int|
                0 <= i < self.template_seq().len() ==> #[trigger] self.template_seq()[i].name@
                    == self.invocations.entries()[i].0@,
            forall|i: int|
                0 <= i < self.template_seq().len() ==> #[trigger] self.template_seq()[i]
                    == self.invocations.entries()[i].1,
            forall|i: int|
                0 <= i < self.template_seq().len() ==> #[trigger] self.template_map()[self.template_seq()[i].name@]
                    == self.template_seq()[i] && self.template_map().contains_key(self.template_seq()[i].name@),
            forall|i: int, j: int|
                0 <= i < self.template_seq().len() && 0 <= j < self.template_seq().len()
                    && #[trigger] self.template_seq()[i].name@ == #[trigger] self.template_seq()[j].name@
                    ==> i == j,
            forall|i: int, j: int|
                0 <= i < j < self.template_seq().len() ==> crate::utils::text::text_lt(
                    #[trigger] self.template_seq()[i].name@,
                    #[trigger] self.template_seq()[j].name@,
                ),
    {
        let es = self.invocations.entries();
        let ts = self.template_seq();
        assert forall|i: int| 0 <= i < ts.len() implies #[trigger] ts[i].name@ == es[i].0@
            && self.template_map()[ts[i].name@] == ts[i] && self.template_map().contains_key(ts[i].name@) by {
            crate::utils::name_map::lemma_entries_map_at(es, i);
            assert(self.invocations@.contains_key(es[i].0@));
        }
        assert forall|i: int, j: int|
            0 <= i < ts.len() && 0 <= j < ts.len() && #[trigger] ts[i].name@ == #[trigger] ts[j].name@
            implies i == j by {
            assert(ts[i].name@ == es[i].0@);
            assert(ts[j].name@ == es[j].0@);
            if i != j {
                lemma_sorted_keys_distinct(es, i, j);
            }
        }
        assert forall|i: int, j: int| 0 <= i < j < ts.len() implies crate::utils::text::text_lt(
            #[trigger] ts[i].name@,
            #[trigger] ts[j].name@,
        ) by {
            assert(ts[i].name@ == es[i].0@);
            assert(ts[j].name@ == es[j].0@);
        }
    }

    pub fn new() -> (r: Self)
        ensures
            r.wf(),
            r.entrypoint_seq() == Seq::<Seq<char>>::empty(),
            r.template_seq() == Seq::<InvocationTemplate<A>>::empty(),
            r.template_map() == Map::<Seq<char>, InvocationTemplate<A>>::empty(),
    {
        let r = Self { entrypoints: Vec::new(), invocations: NameMap::new() };
        assert(r.entrypoint_seq() =~= Seq::<Seq<char>>::empty());
        assert(r.template_seq() =~= Seq::<InvocationTemplate<A>>::empty());
        r
    }

    /// Appends `entrypoints` to the entrypoints.
    pub fn push_entrypoints(&mut self, entrypoints: Vec<String>)
        requires
            old(self).wf(),
        ensures
            final(self).wf(),
            final(self).entrypoint_seq() == old(self).entrypoint_seq() + string_views(entrypoints@),
            final(self).template_seq() == old(self).template_seq(),
            final(self).template_map() == old(self).template_map(),
    {
        let mut entrypoints = entrypoints;
        let ghost added = entrypoints@;
        self.entrypoints.append(&mut entrypoints);
        assert(self.entrypoint_seq() =~= old(self).entrypoint_seq() + string_views(added));
    }

    /// Adds each template under its name, later ones replacing earlier ones
    /// and those already held.
    pub fn push_invocations(&mut self, invocations: Vec<InvocationTemplate<A>>)
        requires
            old(self).wf(),
        ensures
            final(self).wf(),
            final(self).entrypoint_seq() == old(self).entrypoint_seq(),
            final(self).template_map() == inserted_templates(old(self).template_map(), invocations@),
    {
        let ghost all = invocations@;
        let ghost start = self.invocations@;
        let total = invocations.len();
        let mut rest = invocations;
        let mut done: usize = 0;
        while rest.len() > 0
            invariant
                self.wf(),
                self.entrypoint_seq() == old(self).entrypoint_seq(),
                done <= all.len(),
                total == all.len(),
                rest@ == all.skip(done as int),
                self.invocations@ == inserted_templates(start, all.take(done as int)),
            decreases rest@.len(),
        {
            let e = rest.remove(0);
            assert(e == all[done as int]);
            let name = e.name.clone();
            self.invocations.insert(name, e);
            assert(all.take(done + 1).drop_last() =~= all.take(done as int));
            assert(all.take(done + 1).last() == e);
            done = done + 1;
            assert(rest@ =~= all.skip(done as int));
        }
        assert(all.take(done as int) =~= all);
    }
}

} // verus!

verus! {

fn entrypoint_not_found_message(name: &String) -> (r: String)
    ensures
        r@ == issue_message(GraphIssue::EntrypointNotFound { name: name@ }),
{
    let mut r = String::from_str("Entrypoint `");
    r.append(name.as_str());
    r.append("` is not found in invocation map");
    r
}

fn duplicate_entrypoint_message(name: &String, first: usize, second: usize) -> (r: String)
    ensures
        r@ == issue_message(
            GraphIssue::DuplicateEntrypoint { name: name@, first: first as nat, second: second as nat },
        ),
{
    let mut r = String::from_str("Duplicate entrypoints: `");
    r.append(name.as_str());
    r.append("` at position ");
    let a = decimal_string(first);
    r.append(a.as_str());
    r.append(" and ");
    let b = decimal_string(second);
    r.append(b.as_str());
    r
}

fn unreachable_message(name: &String) -> (r: String)
    ensures
        r@ == issue_message(GraphIssue::Unreachable { name: name@ }),
{
    let mut r = String::from_str("Invocation `");
    r.append(name.as_str());
    r.append("` is unreachable");
    r
}

fn parent_not_reciprocated_message(name: &String, parent: &String) -> (r: String)
    ensures
        r@ == issue_message(GraphIssue::ParentNotReciprocated { name: name@, parent: parent@ }),
{
    let mut r = String::from_str("The invocation `");
    r.append(name.as_str());
    r.append("` lists a parent `");
    r.append(parent.as_str());
    r.append("`, but the listed children of that parent don't include `");
    r.append(name.as_str());
    r.append("`. It may have been overriden by a node with a duplicate name");
    r
}

fn parent_not_found_message(name: &String, parent: &String) -> (r: String)
    ensures
        r@ == issue_message(GraphIssue::ParentNotFound { name: name@, parent: parent@ }),
{
    let mut r = String::from_str("Invocation `");
    r.append(name.as_str());
    r.append("` can't find parent with name `");
    r.append(parent.as_str());
    r.append("`");
    r
}

fn child_not_reciprocated_message(name: &String, child: &String) -> (r: String)
    ensures
        r@ == issue_message(GraphIssue::ChildNotReciprocated { name: name@, child: child@ }),
{
    let mut r = String::from_str("The invocation `");
    r.append(name.as_str());
    r.append("` lists a child `");
    r.append(child.as_str());
    r.append("`, but the listed parents of that child don't include `");
    r.append(name.as_str());
    r.append("`. It may have been overriden by a node with a duplicate name");
    r
}

fn child_not_found_message(name: &String, child: &String) -> (r: String)
    ensures
        r@ == issue_message(GraphIssue::ChildNotFound { name: name@, child: child@ }),
{
    let mut r = String::from_str("Invocation \"");
    r.append(name.as_str());
    r.append("\" can't find child with name `");
    r.append(child.as_str());
    r.append("`");
    r
}

/// `ms` are the messages of `issues`, one for one.
pub open spec fn messages_of(ms: Seq<String>, issues: Seq<GraphIssue>) -> bool {
    &&& ms.len() == issues.len()
    &&& forall|q: int| 0 <= q < ms.len() ==> #[trigger] ms[q]@ == issue_message(issues[q])
}

proof fn lemma_messages_push(ms: Seq<String>, issues: Seq<GraphIssue>, m: String, issue: GraphIssue)
    requires
        messages_of(ms, issues),
        m@ == issue_message(issue),
    ensures
        messages_of(ms.push(m), issues + seq![issue]),
{
    let a = ms.push(m);
    let b = issues + seq![issue];
    assert forall|q: int| 0 <= q < a.len() implies #[trigger] a[q]@ == issue_message(b[q]) by {
        if q < ms.len() {
            assert(a[q] == ms[q]);
            assert(b[q] == issues[q]);
        }
    }
}

proof fn lemma_messages_same(ms: Seq<String>, issues: Seq<GraphIssue>)
    requires
        messages_of(ms, issues),
    ensures
        messages_of(ms, issues + Seq::<GraphIssue>::empty()),
{
    assert(issues + Seq::<GraphIssue>::empty() =~= issues);
}

/// Joins the messages `ms`, each followed by a line break.
fn render_lines(ms: &Vec<String>) -> (r: String)
    ensures
        r@ == lines_text(string_views(ms@)),
{
    let mut r = String::new();
    let n = ms.len();
    let mut q: usize = 0;
    assert(string_views(ms@).take(0) =~= Seq::<Seq<char>>::empty());
    while q < n
        invariant
            n == ms@.len(),
            q <= n,
            r@ == lines_text(string_views(ms@).take(q as int)),
        decreases n - q,
    {
        r.append(ms[q].as_str());
        r.append("\n");
        let ghost v = string_views(ms@);
        assert(v.take(q + 1).drop_last() =~= v.take(q as int));
        assert(v.take(q + 1).last() == ms@[q as int]@);
        q = q + 1;
    }
    assert(string_views(ms@).take(n as int) =~= string_views(ms@));
    r
}

} // verus!

verus! {

impl<A> Invoker<A> {
    proof fn lemma_has_template(&self, k: Seq<char>)
        requires
            self.wf(),
        ensures
            has_template(self.template_seq(), k) <==> self.invocations@.contains_key(k),
            has_template(self.template_seq(), k) <==> has_key(self.invocations.entries(), k),
    {
        self.lemma_names();
        let ts = self.template_seq();
        let es = self.invocations.entries();
        if has_template(ts, k) {
            let j = choose|j: int| 0 <= j < ts.len() && #[trigger] ts[j].name@ == k;
            assert(es[j].0@ == k);
        }
        if has_key(es, k) {
            let j = choose|j: int| 0 <= j < es.len() && #[trigger] es[j].0@ == k;
            assert(ts[j].name@ == k);
        }
    }

    /// The message of the first problem with the entrypoints, if any.
    fn find_entrypoint_issue(&self) -> (r: Option<String>)
        requires
            self.wf(),
        ensures
            match entrypoint_issue(self.template_seq(), self.entrypoint_seq()) {
                None => r is None,
                Some(x) => r is Some && r->0@ == issue_message(x),
            },
    {
        let ghost ts = self.template_seq();
        let ghost es = self.entrypoint_seq();
        let n = self.entrypoints.len();
        let mut i: usize = 0;
        while i < n
            invariant
                self.wf(),
                ts == self.template_seq(),
                es == self.entrypoint_seq(),
                n == es.len(),
                n == self.entrypoints@.len(),
                i <= n,
                entrypoint_issue_from(ts, es, 0) == entrypoint_issue_from(ts, es, i as int),
            decreases n - i,
        {
            let e = &self.entrypoints[i];
            assert(es[i as int] == e@);
            let found = self.invocations.contains_key(e);
            proof {
                self.lemma_has_template(e@);
            }
            if !found {
                return Some(entrypoint_not_found_message(e));
            }
            let mut j: usize = 0;
            while j < n
                invariant
                    n == es.len(),
                    n == self.entrypoints@.len(),
                    es == self.entrypoint_seq(),
                    i < n,
                    j <= n,
                    has_template(ts, es[i as int]),
                    e@ == es[i as int],
                    ts == self.template_seq(),
                    entrypoint_issue_from(ts, es, 0) == entrypoint_issue_from(ts, es, i as int),
                    first_duplicate_from(es, i as int, 0) == first_duplicate_from(es, i as int, j as int),
                decreases n - j,
            {
                assert(es[j as int] == self.entrypoints@[j as int]@);
                if i != j && self.entrypoints[i] == self.entrypoints[j] {
                    assert(first_duplicate_from(es, i as int, j as int) == Some(j as int));
                    assert(entrypoint_issue_from(ts, es, i as int) == Some(
                        GraphIssue::DuplicateEntrypoint { name: es[i as int], first: i as nat, second: j as nat },
                    ));
                    return Some(duplicate_entrypoint_message(e, i, j));
                }
                j = j + 1;
            }
            i = i + 1;
        }
        None
    }
}

} // verus!

verus! {

impl<A> Invoker<A> {
    /// What `index_of` on a name tells of the templates other than `i`.
    proof fn lemma_other_template(&self, i: int, name: Seq<char>, found: Option<usize>)
        requires
            self.wf(),
            0 <= i < self.template_seq().len(),
            match found {
                Some(j) => j < self.invocations.entries().len() && self.invocations.entries()[j as int].0@
                    == name,
                None => !has_key(self.invocations.entries(), name),
            },
        ensures
            has_other_template(self.template_seq(), i, name) <==> (found is Some && found->0 != i),
            found is Some && found->0 != i ==> other_template(self.template_seq(), i, name)
                == found->0,
    {
        self.lemma_names();
        let ts = self.template_seq();
        match found {
            Some(j) => {
                assert(ts[j as int].name@ == name);
                if has_other_template(ts, i, name) {
                    let o = other_template(ts, i, name);
                    assert(ts[o].name@ == ts[j as int].name@);
                }
                if j != i {
                    assert(has_other_template(ts, i, name));
                }
            },
            None => {
                if has_other_template(ts, i, name) {
                    let o = other_template(ts, i, name);
                    assert(self.invocations.entries()[o].0@ == name);
                }
            },
        }
    }

    /// The messages of all problems with the templates, in the order they
    /// are reported.
    fn collect_issue_messages(&self) -> (r: Vec<String>)
        requires
            self.wf(),
        ensures
            messages_of(r@, graph_issues(self.template_seq(), self.entrypoint_seq())),
    {
        let ghost ts = self.template_seq();
        let ghost es = self.entrypoint_seq();
        proof {
            self.lemma_names();
        }
        let n = self.invocations.len();
        let mut out: Vec<String> = Vec::new();
        let mut i: usize = 0;
        while i < n
            invariant
                self.wf(),
                ts == self.template_seq(),
                es == self.entrypoint_seq(),
                n == ts.len(),
                i <= n,
                messages_of(out@, issues_upto(ts, es, i as int)),
            decreases n - i,
        {
            proof {
                self.lemma_names();
            }
            let t = self.invocations.value_at(i);
            assert(*t == ts[i as int]);
            let ghost before = issues_upto(ts, es, i as int);
            if t.parents.len() == 0 && !contains_string(&self.entrypoints, &t.name) {
                let m = unreachable_message(&t.name);
                proof {
                    lemma_messages_push(out@, before, m, GraphIssue::Unreachable { name: t.name@ });
                }
                out.push(m);
            } else {
                proof {
                    lemma_messages_same(out@, before);
                }
            }
            assert(before + unreachable_issue(ts, es, i as int) =~= before + unreachable_issue(ts, es, i as int) + parent_issues(ts, i as int, 0));
            let np = t.parents.len();
            let mut k: usize = 0;
            while k < np
                invariant
                    self.wf(),
                    ts == self.template_seq(),
                    *t == ts[i as int],
                    i < n,
                    n == ts.len(),
                    np == t.parents@.len(),
                    k <= np,
                    messages_of(out@, before + unreachable_issue(ts, es, i as int) + parent_issues(ts, i as int, k as int)),
                decreases np - k,
            {
                let ghost prev = before + unreachable_issue(ts, es, i as int) + parent_issues(ts, i as int, k as int);
                let p = &t.parents[k];
                let found = self.invocations.index_of(p);
                proof {
                    self.lemma_other_template(i as int, p@, found);
                }
                let mut m: Option<String> = None;
                match found {
                    Some(j) => {
                        if j != i {
                            let other = self.invocations.value_at(j);
                            if !contains_string(&other.children, &t.name) {
                                m = Some(parent_not_reciprocated_message(&t.name, p));
                            }
                        } else {
                            m = Some(parent_not_found_message(&t.name, p));
                        }
                    },
                    None => {
                        m = Some(parent_not_found_message(&t.name, p));
                    },
                }
                match m {
                    Some(msg) => {
                        proof {
                            let issue = parent_issue(ts, i as int, k as int)[0];
                            assert(parent_issue(ts, i as int, k as int) =~= seq![issue]);
                            lemma_messages_push(out@, prev, msg, issue);
                        }
                        out.push(msg);
                    },
                    None => {
                        assert(parent_issue(ts, i as int, k as int) =~= Seq::<GraphIssue>::empty());
                        proof {
                            lemma_messages_same(out@, prev);
                        }
                    },
                }
                assert(prev + parent_issue(ts, i as int, k as int) =~= before + unreachable_issue(ts, es, i as int) + parent_issues(ts, i as int, k + 1));
                k = k + 1;
            }
            let ghost mid = before + unreachable_issue(ts, es, i as int) + parent_issues(ts, i as int, np as int);
            assert(mid =~= mid + child_issues(ts, i as int, 0));
            let nc = t.children.len();
            let mut k: usize = 0;
            while k < nc
                invariant
                    self.wf(),
                    ts == self.template_seq(),
                    *t == ts[i as int],
                    i < n,
                    n == ts.len(),
                    nc == t.children@.len(),
                    k <= nc,
                    messages_of(out@, mid + child_issues(ts, i as int, k as int)),
                decreases nc - k,
            {
                let ghost prev = mid + child_issues(ts, i as int, k as int);
                let c = &t.children[k];
                let found = self.invocations.index_of(c);
                proof {
                    self.lemma_other_template(i as int, c@, found);
                }
                let mut m: Option<String> = None;
                match found {
                    Some(j) => {
                        if j != i {
                            let other = self.invocations.value_at(j);
                            if !contains_string(&other.parents, &t.name) {
                                m = Some(child_not_reciprocated_message(&t.name, c));
                            }
                        } else {
                            m = Some(child_not_found_message(&t.name, c));
                        }
                    },
                    None => {
                        m = Some(child_not_found_message(&t.name, c));
                    },
                }
                match m {
                    Some(msg) => {
                        proof {
                            let issue = child_issue(ts, i as int, k as int)[0];
                            assert(child_issue(ts, i as int, k as int) =~= seq![issue]);
                            lemma_messages_push(out@, prev, msg, issue);
                        }
                        out.push(msg);
                    },
                    None => {
                        assert(child_issue(ts, i as int, k as int) =~= Seq::<GraphIssue>::empty());
                        proof {
                            lemma_messages_same(out@, prev);
                        }
                    },
                }
                assert(prev + child_issue(ts, i as int, k as int) =~= mid + child_issues(ts, i as int, k + 1));
                k = k + 1;
            }
            assert(mid + child_issues(ts, i as int, nc as int) =~= issues_upto(ts, es, i + 1));
            i = i + 1;
        }
        out
    }
}

} // verus!

verus! {

pub(crate) proof fn lemma_slot_step<A>(ts: Seq<InvocationTemplate<A>>, i: int)
    requires
        0 <= i < ts.len(),
    ensures
        slot_start(ts, i + 1) == slot_start(ts, i) + ts[i].parents@.len(),
        forall|s: int| 0 <= s < slot_start(ts, i) ==> #[trigger] slot_owners(ts, i + 1)[s] == slot_owners(ts, i)[s],
        forall|k: int| 0 <= k < ts[i].parents@.len() ==> #[trigger] slot_owners(ts, i + 1)[slot_start(ts, i) + k] == (i, k),
{
}

pub(crate) proof fn lemma_slot_prefix<A>(ts: Seq<InvocationTemplate<A>>, a: int, b: int)
    requires
        0 <= a <= b <= ts.len(),
    ensures
        slot_start(ts, a) <= slot_start(ts, b),
        forall|s: int| 0 <= s < slot_start(ts, a) ==> #[trigger] slot_owners(ts, b)[s] == slot_owners(ts, a)[s],
    decreases b - a,
{
    if a < b {
        lemma_slot_prefix(ts, a, b - 1);
        lemma_slot_step(ts, b - 1);
    }
}

pub(crate) proof fn lemma_slot_at<A>(ts: Seq<InvocationTemplate<A>>, i: int, k: int)
    requires
        0 <= i < ts.len(),
        0 <= k < ts[i].parents@.len(),
    ensures
        slot_start(ts, i) + k < all_slots(ts).len(),
        all_slots(ts)[slot_start(ts, i) + k] == (i, k),
        slot_parent_name(ts, slot_start(ts, i) + k) == ts[i].parents@[k]@,
{
    lemma_slot_step(ts, i);
    lemma_slot_prefix(ts, i + 1, ts.len() as int);
    assert(slot_owners(ts, i + 1)[slot_start(ts, i) + k] == (i, k));
}

proof fn lemma_parent_issues_len<A>(ts: Seq<InvocationTemplate<A>>, i: int, m: int)
    requires
        parent_issues(ts, i, m).len() == 0,
    ensures
        forall|k: int| 0 <= k < m ==> #[trigger] parent_issue(ts, i, k).len() == 0,
    decreases m,
{
    if m > 0 {
        lemma_parent_issues_len(ts, i, m - 1);
    }
}

proof fn lemma_issues_upto_len<A>(ts: Seq<InvocationTemplate<A>>, es: Seq<Seq<char>>, m: int)
    requires
        issues_upto(ts, es, m).len() == 0,
    ensures
        forall|i: int| 0 <= i < m ==> #[trigger] template_issues(ts, es, i).len() == 0,
    decreases m,
{
    if m > 0 {
        lemma_issues_upto_len(ts, es, m - 1);
    }
}

/// Without problems, every parent that a template lists is another template.
pub(crate) proof fn lemma_parents_found<A>(ts: Seq<InvocationTemplate<A>>, es: Seq<Seq<char>>)
    requires
        graph_issues(ts, es).len() == 0,
    ensures
        forall|i: int, k: int|
            0 <= i < ts.len() && 0 <= k < ts[i].parents@.len() ==> has_other_template(
                ts,
                i,
                #[trigger] ts[i].parents@[k]@,
            ),
{
    lemma_issues_upto_len(ts, es, ts.len() as int);
    assert forall|i: int, k: int|
        0 <= i < ts.len() && 0 <= k < ts[i].parents@.len() implies has_other_template(
        ts,
        i,
        #[trigger] ts[i].parents@[k]@,
    ) by {
        assert(template_issues(ts, es, i).len() == 0);
        lemma_parent_issues_len(ts, i, ts[i].parents@.len() as int);
        assert(parent_issue(ts, i, k).len() == 0);
    }
}

impl<A: Copy> Invoker<A> {
    /// The graph that the templates and entrypoints give, when they have no
    /// problem.
    fn build(&self) -> (r: BuiltInvoker<A>)
        requires
            self.wf(),
            graph_issues(self.template_seq(), self.entrypoint_seq()).len() == 0,
        ensures
            built_from(r, self.template_seq(), self.entrypoint_seq()),
    {
        let ghost ts = self.template_seq();
        let ghost es = self.entrypoint_seq();
        proof {
            self.lemma_names();
            lemma_parents_found(ts, es);
        }
        let n = self.invocations.len();
        let mut targets: Vec<usize> = Vec::new();
        let mut primed: Vec<bool> = Vec::new();
        let mut i: usize = 0;
        while i < n
            invariant
                self.wf(),
                ts == self.template_seq(),
                es == self.entrypoint_seq(),
                n == ts.len(),
                i <= n,
                forall|i: int, k: int|
                    0 <= i < ts.len() && 0 <= k < ts[i].parents@.len() ==> has_other_template(
                        ts,
                        i,
                        #[trigger] ts[i].parents@[k]@,
                    ),
                targets@.len() == slot_start(ts, i as int),
                primed@.len() == slot_start(ts, i as int),
                forall|s: int|
                    0 <= s < targets@.len() ==> #[trigger] targets@[s] < n && ts[targets@[s] as int].name@
                        == slot_parent_name(ts, s),
                forall|s: int|
                    0 <= s < primed@.len() ==> #[trigger] primed@[s] == es.contains(
                        ts[all_slots(ts)[s].0].name@,
                    ),
            decreases n - i,
        {
            proof {
                self.lemma_names();
            }
            let t = self.invocations.value_at(i);
            assert(*t == ts[i as int]);
            let is_entry = contains_string(&self.entrypoints, &t.name);
            let np = t.parents.len();
            let mut k: usize = 0;
            while k < np
                invariant
                    self.wf(),
                    ts == self.template_seq(),
                    es == self.entrypoint_seq(),
                    *t == ts[i as int],
                    is_entry == es.contains(ts[i as int].name@),
                    n == ts.len(),
                    i < n,
                    np == ts[i as int].parents@.len(),
                    k <= np,
                    forall|i: int, k: int|
                        0 <= i < ts.len() && 0 <= k < ts[i].parents@.len() ==> has_other_template(
                            ts,
                            i,
                            #[trigger] ts[i].parents@[k]@,
                        ),
                    targets@.len() == slot_start(ts, i as int) + k,
                    primed@.len() == slot_start(ts, i as int) + k,
                    forall|s: int|
                        0 <= s < targets@.len() ==> #[trigger] targets@[s] < n && ts[targets@[s] as int].name@
                            == slot_parent_name(ts, s),
                    forall|s: int|
                        0 <= s < primed@.len() ==> #[trigger] primed@[s] == es.contains(
                            ts[all_slots(ts)[s].0].name@,
                        ),
                decreases np - k,
            {
                let p = &t.parents[k];
                let found = self.invocations.index_of(p);
                proof {
                    self.lemma_other_template(i as int, p@, found);
                    lemma_slot_at(ts, i as int, k as int);
                }
                let j = match found {
                    Some(j) => j,
                    None => 0,
                };
                assert(ts[j as int].name@ == p@);
                let ghost s = targets@.len() as int;
                targets.push(j);
                primed.push(is_entry);
                assert(targets@[s] == j);
                assert(primed@[s] == is_entry);
                k = k + 1;
            }
            proof {
                lemma_slot_step(ts, i as int);
            }
            i = i + 1;
        }
        let total = targets.len();
        assert(total == all_slots(ts).len());
        let mut invs: Vec<(String, Invocation<A>)> = Vec::new();
        let mut start: usize = 0;
        let mut i: usize = 0;
        while i < n
            invariant
                self.wf(),
                ts == self.template_seq(),
                n == ts.len(),
                i <= n,
                total == targets@.len(),
                total == all_slots(ts).len(),
                start == slot_start(ts, i as int),
                forall|s: int|
                    0 <= s < targets@.len() ==> #[trigger] targets@[s] < n && ts[targets@[s] as int].name@
                        == slot_parent_name(ts, s),
                invs@.len() == i,
                forall|q: int| 0 <= q < i ==> invocation_from(#[trigger] invs@[q], ts, q),
            decreases n - i,
        {
            proof {
                self.lemma_names();
                lemma_slot_step(ts, i as int);
                lemma_slot_prefix(ts, i + 1, n as int);
            }
            let t = self.invocations.value_at(i);
            assert(*t == ts[i as int]);
            let np = t.parents.len();
            let mut parents: Vec<usize> = Vec::new();
            let mut k: usize = 0;
            while k < np
                invariant
                    np == ts[i as int].parents@.len(),
                    start == slot_start(ts, i as int),
                    start + np <= total,
                    k <= np,
                    parents@.len() == k,
                    forall|q: int| 0 <= q < k ==> #[trigger] parents@[q] == start + q,
                decreases np - k,
            {
                parents.push(start + k);
                k = k + 1;
            }
            let mut children: Vec<usize> = Vec::new();
            let mut s: usize = 0;
            while s < total
                invariant
                    total == targets@.len(),
                    s <= total,
                    strictly_increasing(children@),
                    forall|q: int| 0 <= q < children@.len() ==> #[trigger] children@[q] < s,
                    forall|x: usize| #[trigger] children@.contains(x) <==> (x < s && targets@[x as int] == i),
                decreases total - s,
            {
                if targets[s] == i {
                    let ghost before = children@;
                    children.push(s);
                    assert forall|x: usize| #[trigger] children@.contains(x) <==> (x < s + 1 && targets@[x as int] == i) by {
                        if x == s {
                            assert(children@[before.len() as int] == s);
                        } else if children@.contains(x) {
                            let q = choose|q: int| 0 <= q < children@.len() && children@[q] == x;
                            assert(q < before.len());
                            assert(before[q] == x);
                            assert(before.contains(x));
                        } else if x < s && targets@[x as int] == i {
                            assert(before.contains(x));
                            let q = choose|q: int| 0 <= q < before.len() && before[q] == x;
                            assert(children@[q] == x);
                        }
                    }
                } else {
                    assert forall|x: usize| #[trigger] children@.contains(x) <==> (x < s + 1 && targets@[x as int] == i) by {
                        if children@.contains(x) {
                            let q = choose|q: int| 0 <= q < children@.len() && children@[q] == x;
                            assert(children@[q] < s);
                        }
                        assert(children@.contains(x) <==> (x < s && targets@[x as int] == i));
                        if x == s {
                            assert(targets@[x as int] != i);
                        }
                    }
                }
                s = s + 1;
            }
            let entry = (
                t.name.clone(),
                Invocation {
                    children,
                    action: t.action,
                    objekt_name: t.objekt_name.clone(),
                    parents,
                },
            );
            assert forall|x: usize| #[trigger]
                entry.1.children@.contains(x) <==> (x < all_slots(ts).len() && slot_parent_name(ts, x as int)
                    == ts[i as int].name@) by {
                if x < all_slots(ts).len() {
                    let tx = targets@[x as int];
                    assert(ts[tx as int].name@ == slot_parent_name(ts, x as int));
                }
            }
            assert(invocation_from(entry, ts, i as int));
            invs.push(entry);
            start = start + np;
            i = i + 1;
        }
        BuiltInvoker { invocations: invs, wait_primed: primed }
    }
}

} // verus!

verus! {

impl<A: Copy> Invoker<A> {
    /// Checks the templates and entrypoints and builds their graph.
    ///
    /// The first entrypoint that names no template or is listed twice is
    /// reported alone. Otherwise every problem with the templates is
    /// reported, one line each: a template without parents that is no
    /// entrypoint, and each listed parent or child that no other template
    /// bears, or whose template does not list this one back. Without any
    /// problem the graph is built.
    pub fn check_for_errors_and_build(self) -> (r: Result<BuiltInvoker<A>, String>)
        requires
            self.wf(),
        ensures
            match entrypoint_issue(self.template_seq(), self.entrypoint_seq()) {
                Some(issue) => r is Err && r->Err_0@ == issue_message(issue),
                None => {
                    let issues = graph_issues(self.template_seq(), self.entrypoint_seq());
                    if issues.len() > 0 {
                        r is Err && r->Err_0@ == issues_report(issues)
                    } else {
                        r is Ok && built_from(r->Ok_0, self.template_seq(), self.entrypoint_seq())
                    }
                },
            },
    {
        if let Some(message) = self.find_entrypoint_issue() {
            return Err(message);
        }
        let messages = self.collect_issue_messages();
        if messages.len() > 0 {
            let r = render_lines(&messages);
            let ghost issues = graph_issues(self.template_seq(), self.entrypoint_seq());
            assert(string_views(messages@) =~= issues.map_values(|x: GraphIssue| issue_message(x)));
            return Err(r);
        }
        Ok(self.build())
    }
}

} // verus!
