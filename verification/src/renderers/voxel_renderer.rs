//! The voxel renderer module: its objekt, and the invocations it declares.
use vstd::prelude::*;
use crate::EosVersion;
use crate::invocations::invocation::{InvocationTemplate, InvocationTemplateInformation};
use crate::invocations::invoker::{
    Invoker, entrypoint_issue, entrypoint_issue_from, first_duplicate_from, graph_issues,
    has_template, inserted_templates, parent_issue, child_issue,
};
use crate::invocations::laws::{lemma_child_issue_free, lemma_graph_issue_free, lemma_parent_issue_free};
use crate::utils::text::{lemma_text_lt_irreflexive, string_views, text_lt};

verus! {

/// The objekt of the voxel renderer.
#[derive(Debug)]
pub struct VoxelRenderer {
    pub poisoned: bool,
    pub tick: u32,
    pub version: EosVersion,
}

/// The function of the voxel renderer that an invocation runs.
#[derive(Clone, Copy, Debug, PartialEq, Eq, Structural)]
pub enum VoxelInvocation {
    /// Does nothing; links the graph into a loop.
    Dummy,
    /// Does nothing.
    Hello,
    /// Advances the tick; fails at tick 10.
    LooseNode,
}

/// The tick at which the loose node fails.
pub const FAILING_TICK: u32 = 10;

/// `t` is the template named `name`, with these parents and children, that
/// runs `action` on objekt `objekt_name`.
pub open spec fn template_is(
    t: InvocationTemplate<VoxelInvocation>,
    name: Seq<char>,
    parents: Seq<Seq<char>>,
    children: Seq<Seq<char>>,
    objekt_name: Seq<char>,
    action: VoxelInvocation,
) -> bool {
    &&& t.name@ == name
    &&& string_views(t.parents@) == parents
    &&& string_views(t.children@) == children
    &&& t.objekt_name@ == objekt_name
    &&& t.action == action
}

/// The invocations that a voxel renderer named `o` declares: `test`, the
/// entrypoint, runs `Hello`; `test_link` runs `Dummy` and links `test` back
/// to itself; `test_loose` runs `LooseNode` after `test`. Each name is the
/// objekt's name followed by the suffix.
pub open spec fn voxel_invocations(
    info: InvocationTemplateInformation<VoxelInvocation>,
    o: Seq<char>,
) -> bool {
    let test = o + "test"@;
    let link = o + "test_link"@;
    let loose = o + "test_loose"@;
    &&& info.invocation_list@.len() == 3
    &&& template_is(info.invocation_list@[0], link, seq![test], seq![test], o, VoxelInvocation::Dummy)
    &&& template_is(info.invocation_list@[1], loose, seq![test], seq![], o, VoxelInvocation::LooseNode)
    &&& template_is(info.invocation_list@[2], test, seq![link], seq![link, loose], o, VoxelInvocation::Hello)
    &&& string_views(info.entrypoint_list@) == seq![test]
}

fn suffixed(o: &String, suffix: &str) -> (r: String)
    ensures
        r@ == o@ + suffix@,
{
    let mut r = o.clone();
    r.append(suffix);
    r
}

impl VoxelRenderer {
    /// The invocations this objekt declares under the name `objekt_name`.
    pub fn get_invocations(&self, objekt_name: String) -> (r: InvocationTemplateInformation<VoxelInvocation>)
        ensures
            voxel_invocations(r, objekt_name@),
    {
        let link = InvocationTemplate {
            children: vec![suffixed(&objekt_name, "test")],
            name: suffixed(&objekt_name, "test_link"),
            parents: vec![suffixed(&objekt_name, "test")],
            objekt_name: objekt_name.clone(),
            action: VoxelInvocation::Dummy,
        };
        let loose = InvocationTemplate {
            children: Vec::new(),
            name: suffixed(&objekt_name, "test_loose"),
            parents: vec![suffixed(&objekt_name, "test")],
            objekt_name: objekt_name.clone(),
            action: VoxelInvocation::LooseNode,
        };
        let test = InvocationTemplate {
            children: vec![suffixed(&objekt_name, "test_link"), suffixed(&objekt_name, "test_loose")],
            name: suffixed(&objekt_name, "test"),
            parents: vec![suffixed(&objekt_name, "test_link")],
            objekt_name: objekt_name.clone(),
            action: VoxelInvocation::Hello,
        };
        let entrypoint_list = vec![suffixed(&objekt_name, "test")];
        let r = InvocationTemplateInformation { invocation_list: vec![link, loose, test], entrypoint_list };
        assert(string_views(r.invocation_list@[0].parents@) =~= seq![objekt_name@ + "test"@]);
        assert(string_views(r.invocation_list@[0].children@) =~= seq![objekt_name@ + "test"@]);
        assert(string_views(r.invocation_list@[1].parents@) =~= seq![objekt_name@ + "test"@]);
        assert(string_views(r.invocation_list@[1].children@) =~= Seq::<Seq<char>>::empty());
        assert(string_views(r.invocation_list@[2].parents@) =~= seq![objekt_name@ + "test_link"@]);
        assert(string_views(r.invocation_list@[2].children@) =~= seq![
            objekt_name@ + "test_link"@,
            objekt_name@ + "test_loose"@,
        ]);
        assert(string_views(r.entrypoint_list@) =~= seq![objekt_name@ + "test"@]);
        r
    }

    /// Whether an invocation on this objekt failed.
    pub fn poisoned(&self) -> (r: bool)
        ensures
            r == self.poisoned,
    {
        self.poisoned
    }

    /// Marks that an invocation on this objekt failed.
    pub fn set_poisoned(&mut self)
        ensures
            final(self).poisoned,
            final(self).tick == old(self).tick,
            final(self).version == old(self).version,
    {
        self.poisoned = true;
    }

    /// The version of this objekt.
    pub fn version(&self) -> (r: EosVersion)
        ensures
            r == self.version,
    {
        self.version.clone()
    }

    /// The work of the loose node: fails at the failing tick, and otherwise
    /// advances the tick by one. Returns whether it succeeded.
    pub fn loose_node_tick(&mut self) -> (ok: bool)
        requires
            old(self).tick < u32::MAX,
        ensures
            ok == (old(self).tick != FAILING_TICK),
            final(self).tick == (if ok { old(self).tick + 1 } else { old(self).tick as int }),
            final(self).poisoned == old(self).poisoned,
            final(self).version == old(self).version,
    {
        if self.tick == FAILING_TICK {
            return false;
        }
        self.tick = self.tick + 1;
        true
    }
}


/// Each voxel renderer's invocations, pushed with its entrypoints into an
/// invoker that holds nothing else, pass all of the invoker's checks: the
/// entrypoint names a template, and every parent and child is another
/// template that lists the invocation back.
pub proof fn law_voxel_invocations_build(
    inv: Invoker<VoxelInvocation>,
    info: InvocationTemplateInformation<VoxelInvocation>,
    o: Seq<char>,
)
    requires
        inv.wf(),
        voxel_invocations(info, o),
        inv.template_map() == inserted_templates(Map::empty(), info.invocation_list@),
        inv.entrypoint_seq() == string_views(info.entrypoint_list@),
    ensures
        entrypoint_issue(inv.template_seq(), inv.entrypoint_seq()) is None,
        graph_issues(inv.template_seq(), inv.entrypoint_seq()).len() == 0,
{
    reveal_strlit("test");
    reveal_strlit("test_link");
    reveal_strlit("test_loose");
    let l = info.invocation_list@;
    let test = o + "test"@;
    let link = o + "test_link"@;
    let loose = o + "test_loose"@;
    assert(test.len() == o.len() + 4);
    assert(link.len() == o.len() + 9);
    assert(loose.len() == o.len() + 10);
    let ts = inv.template_seq();
    let es = inv.entrypoint_seq();
    let m = inv.template_map();
    assert(template_is(l[0], link, seq![test], seq![test], o, VoxelInvocation::Dummy));
    assert(template_is(l[1], loose, seq![test], seq![], o, VoxelInvocation::LooseNode));
    assert(template_is(l[2], test, seq![link], seq![link, loose], o, VoxelInvocation::Hello));
    let e = Map::<Seq<char>, InvocationTemplate<VoxelInvocation>>::empty();
    let l1 = l.drop_last().drop_last();
    let l2 = l.drop_last();
    assert(l1.drop_last() =~= Seq::<InvocationTemplate<VoxelInvocation>>::empty());
    assert(l1.last() == l[0]);
    assert(l2.last() == l[1]);
    assert(l.last() == l[2]);
    assert(inserted_templates(e, l1.drop_last()) == e);
    assert(inserted_templates(e, l1) == e.insert(link, l[0]));
    assert(inserted_templates(e, l2) == e.insert(link, l[0]).insert(loose, l[1]));
    assert(m == Map::<Seq<char>, InvocationTemplate<VoxelInvocation>>::empty().insert(link, l[0]).insert(
        loose,
        l[1],
    ).insert(test, l[2]));
    inv.lemma_templates();
    assert forall|q: int, j: int|
        0 <= q < ts.len() && 0 <= j < ts.len() && #[trigger] ts[q].name@ == #[trigger] ts[j].name@ implies q == j by {
        if q < j {
            assert(text_lt(ts[q].name@, ts[j].name@));
            lemma_text_lt_irreflexive(ts[q].name@);
        } else if j < q {
            assert(text_lt(ts[j].name@, ts[q].name@));
            lemma_text_lt_irreflexive(ts[j].name@);
        }
    }
    assert(m.contains_key(test));
    assert(m.contains_key(link));
    assert(m.contains_key(loose));
    assert(has_template(ts, test));
    assert(has_template(ts, link));
    assert(has_template(ts, loose));
    let jt = choose|j: int| 0 <= j < ts.len() && #[trigger] ts[j].name@ == test;
    let jl = choose|j: int| 0 <= j < ts.len() && #[trigger] ts[j].name@ == link;
    let jo = choose|j: int| 0 <= j < ts.len() && #[trigger] ts[j].name@ == loose;
    assert(ts[jt] == l[2]);
    assert(ts[jl] == l[0]);
    assert(ts[jo] == l[1]);
    assert(seq![link, loose][0] == link);
    assert(seq![link, loose][1] == loose);
    assert(seq![test][0] == test);
    assert(seq![link][0] == link);
    assert(string_views(l[2].parents@).len() == l[2].parents@.len());
    assert(string_views(l[2].children@).len() == l[2].children@.len());
    assert(string_views(l[0].parents@)[0] == l[0].parents@[0]@);
    assert(string_views(l[1].parents@)[0] == l[1].parents@[0]@);
    assert(string_views(l[2].parents@)[0] == l[2].parents@[0]@);
    assert(string_views(l[0].children@)[0] == l[0].children@[0]@);
    assert(string_views(l[2].children@)[0] == l[2].children@[0]@);
    assert(string_views(l[2].children@)[1] == l[2].children@[1]@);
    assert(string_views(l[2].children@).contains(link));
    assert(string_views(l[2].children@).contains(loose));
    assert(string_views(l[0].children@).contains(test));
    assert(string_views(l[2].parents@).contains(link));
    assert(string_views(l[0].parents@).contains(test));
    assert(string_views(l[1].parents@).contains(test));
    assert forall|i: int| 0 <= i < ts.len() implies (ts[i] == l[0] && i == jl) || (ts[i] == l[1] && i == jo) || (
    ts[i] == l[2] && i == jt) by {
        assert(m.contains_key(ts[i].name@) && m[ts[i].name@] == ts[i]);
    }
    assert forall|i: int, k: int|
        0 <= i < ts.len() && 0 <= k < ts[i].parents@.len() implies #[trigger] parent_issue(ts, i, k).len() == 0 by {
        if i == jl {
            lemma_parent_issue_free(ts, i, k, jt);
        } else if i == jo {
            lemma_parent_issue_free(ts, i, k, jt);
        } else {
            lemma_parent_issue_free(ts, i, k, jl);
        }
    }
    assert forall|i: int, k: int|
        0 <= i < ts.len() && 0 <= k < ts[i].children@.len() implies #[trigger] child_issue(ts, i, k).len() == 0 by {
        if i == jl {
            lemma_child_issue_free(ts, i, k, jt);
        } else if i == jo {
            assert(string_views(l[1].children@).len() == 0);
        } else if k == 0 {
            lemma_child_issue_free(ts, i, k, jl);
        } else {
            lemma_child_issue_free(ts, i, k, jo);
        }
    }
    assert forall|i: int| 0 <= i < ts.len() implies (#[trigger] ts[i]).parents@.len() > 0 || es.contains(
        ts[i].name@,
    ) by {
        assert(string_views(ts[i].parents@).len() == ts[i].parents@.len());
    }
    lemma_graph_issue_free(ts, es);
    assert(es == seq![test]);
    assert(first_duplicate_from(es, 0, 1) is None);
    assert(first_duplicate_from(es, 0, 0) is None);
    assert(entrypoint_issue_from(ts, es, 1) is None);
    assert(entrypoint_issue_from(ts, es, 0) is None);
}

} // verus!
