use eos_use::invocations::invocation::{InvocationTemplate, InvocationTemplateInformation};
use eos_use::invocations::invoker::{BuiltInvoker, Invoker};
use eos_use::renderers::voxel_renderer::{VoxelInvocation, VoxelRenderer};
use eos_use::EosVersion;

fn strings(v: &[&str]) -> Vec<String> {
    v.iter().map(|s| s.to_string()).collect()
}

fn template(name: &str, parents: &[&str], children: &[&str], action: u8) -> InvocationTemplate<u8> {
    InvocationTemplate {
        children: strings(children),
        action,
        name: name.to_string(),
        objekt_name: format!("objekt_of_{}", name),
        parents: strings(parents),
    }
}

fn build(templates: Vec<InvocationTemplate<u8>>, entrypoints: &[&str]) -> Result<BuiltInvoker<u8>, String> {
    let mut invoker = Invoker::new();
    invoker.push_invocations(templates);
    invoker.push_entrypoints(strings(entrypoints));
    invoker.check_for_errors_and_build()
}

fn err(r: Result<BuiltInvoker<u8>, String>) -> String {
    match r {
        Ok(_) => panic!("expected an error"),
        Err(e) => e,
    }
}

fn voxel_renderer() -> VoxelRenderer {
    VoxelRenderer { poisoned: false, tick: 0, version: EosVersion { major: 0, minor: 1, patch: 0 } }
}

#[test]
fn voxel_invocations_build_into_a_consistent_graph() {
    let info: InvocationTemplateInformation<VoxelInvocation> = voxel_renderer().get_invocations(String::from("cube"));
    let mut invoker = Invoker::new();
    invoker.push_invocations(info.invocation_list);
    invoker.push_entrypoints(info.entrypoint_list);
    let built = match invoker.check_for_errors_and_build() {
        Ok(b) => b,
        Err(e) => panic!("unexpected error: {}", e),
    };
    let invs = built.invocations();
    let names: Vec<&str> = invs.iter().map(|(n, _)| n.as_str()).collect();
    assert_eq!(names, vec!["cubetest", "cubetest_link", "cubetest_loose"]);
    // slot 0: `cubetest` waits on its parent `cubetest_link`
    // slot 1: `cubetest_link` waits on its parent `cubetest`
    // slot 2: `cubetest_loose` waits on its parent `cubetest`
    assert_eq!(invs[0].1.parents, vec![0]);
    assert_eq!(invs[0].1.children, vec![1, 2]);
    assert_eq!(invs[0].1.action, VoxelInvocation::Hello);
    assert_eq!(invs[1].1.parents, vec![1]);
    assert_eq!(invs[1].1.children, vec![0]);
    assert_eq!(invs[1].1.action, VoxelInvocation::Dummy);
    assert_eq!(invs[2].1.parents, vec![2]);
    assert!(invs[2].1.children.is_empty());
    assert_eq!(invs[2].1.action, VoxelInvocation::LooseNode);
    for (_, inv) in invs.iter() {
        assert_eq!(inv.objekt_name, "cube");
    }
    // only the slot that the entrypoint `cubetest` waits on starts primed
    assert_eq!(built.wait_primed(), &vec![true, false, false]);
}

#[test]
fn every_slot_has_one_waiter_and_one_signaller() {
    let templates = vec![
        template("a", &[], &["b", "c"], 1),
        template("b", &["a"], &["d"], 2),
        template("c", &["a"], &["d"], 3),
        template("d", &["b", "c"], &[], 4),
    ];
    let built = build(templates, &["a"]).unwrap();
    let invs = built.invocations();
    let slots = built.wait_primed().len();
    assert_eq!(slots, 4);
    for s in 0..slots {
        let waiters = invs.iter().filter(|(_, i)| i.parents.contains(&s)).count();
        let signallers = invs.iter().filter(|(_, i)| i.children.contains(&s)).count();
        assert_eq!(waiters, 1);
        assert_eq!(signallers, 1);
    }
    assert_eq!(invs[3].1.parents, vec![2, 3]);
    assert_eq!(invs[0].1.children, vec![0, 1]);
    assert_eq!(invs[1].1.children, vec![2]);
    assert_eq!(invs[2].1.children, vec![3]);
    assert_eq!(built.wait_primed(), &vec![false, false, false, false]);
}

#[test]
fn invocations_come_out_in_name_order() {
    let templates = vec![template("zeta", &[], &[], 1), template("alpha", &[], &[], 2), template("mid", &[], &[], 3)];
    let built = build(templates, &["mid", "zeta", "alpha"]).unwrap();
    let names: Vec<&str> = built.invocations().iter().map(|(n, _)| n.as_str()).collect();
    assert_eq!(names, vec!["alpha", "mid", "zeta"]);
    assert_eq!(built.invocations()[0].1.action, 2);
    assert!(built.wait_primed().is_empty());
}

#[test]
fn later_template_replaces_earlier_one_of_same_name() {
    let templates = vec![template("a", &["missing"], &[], 1), template("a", &[], &[], 9)];
    let built = build(templates, &["a"]).unwrap();
    assert_eq!(built.invocations().len(), 1);
    assert_eq!(built.invocations()[0].1.action, 9);
}

#[test]
fn entrypoints_accumulate_across_pushes() {
    let mut invoker = Invoker::new();
    invoker.push_invocations(vec![template("a", &[], &[], 1), template("b", &[], &[], 2)]);
    invoker.push_entrypoints(strings(&["a"]));
    invoker.push_entrypoints(strings(&["b"]));
    assert!(invoker.check_for_errors_and_build().is_ok());
}

#[test]
fn missing_entrypoint_is_reported_alone() {
    let templates = vec![template("a", &["nowhere"], &[], 1)];
    assert_eq!(err(build(templates, &["a", "ghost"])), "Entrypoint `ghost` is not found in invocation map");
}

#[test]
fn duplicate_entrypoint_reports_both_positions() {
    let templates = vec![template("a", &[], &[], 1), template("b", &[], &[], 2)];
    assert_eq!(err(build(templates, &["b", "a", "b"])), "Duplicate entrypoints: `b` at position 0 and 2");
}

#[test]
fn first_entrypoint_problem_wins() {
    let templates = vec![template("a", &[], &[], 1)];
    assert_eq!(err(build(templates, &["a", "a", "x"])), "Duplicate entrypoints: `a` at position 0 and 1");
    let templates = vec![template("a", &[], &[], 1)];
    assert_eq!(err(build(templates, &["x", "a", "a"])), "Entrypoint `x` is not found in invocation map");
}

#[test]
fn unreachable_invocation_is_reported() {
    let templates = vec![template("a", &[], &[], 1), template("lonely", &[], &[], 2)];
    assert_eq!(err(build(templates, &["a"])), "Invocation `lonely` is unreachable\n");
}

#[test]
fn missing_parent_and_child_are_reported() {
    let templates = vec![template("a", &["p"], &["c"], 1)];
    assert_eq!(
        err(build(templates, &["a"])),
        "Invocation `a` can't find parent with name `p`\nInvocation \"a\" can't find child with name `c`\n"
    );
}

#[test]
fn own_name_as_parent_is_not_found() {
    let templates = vec![template("a", &["a"], &["a"], 1)];
    assert_eq!(
        err(build(templates, &["a"])),
        "Invocation `a` can't find parent with name `a`\nInvocation \"a\" can't find child with name `a`\n"
    );
}

#[test]
fn unreciprocated_links_are_reported() {
    let templates = vec![template("a", &[], &["b"], 1), template("b", &["a"], &[], 2), template("c", &["a"], &["b"], 3)];
    let expected = String::from("The invocation `c` lists a parent `a`, but the listed children of that parent don't include `c`. It may have been overriden by a node with a duplicate name\n")
        + "The invocation `c` lists a child `b`, but the listed parents of that child don't include `c`. It may have been overriden by a node with a duplicate name\n";
    assert_eq!(err(build(templates, &["a"])), expected);
}

#[test]
fn problems_are_listed_in_name_order() {
    let templates = vec![template("z", &[], &[], 1), template("m", &["q"], &[], 2), template("b", &[], &[], 3)];
    let expected = String::from("Invocation `b` is unreachable\n")
        + "Invocation `m` can't find parent with name `q`\n"
        + "Invocation `z` is unreachable\n";
    assert_eq!(err(build(templates, &[])), expected);
}

#[test]
fn empty_invoker_builds_an_empty_graph() {
    let built = build(vec![], &[]).unwrap();
    assert!(built.invocations().is_empty());
    assert!(built.wait_primed().is_empty());
}
