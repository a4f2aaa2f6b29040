use eos_use::renderers::voxel_renderer::{VoxelInvocation, VoxelRenderer, FAILING_TICK};
use eos_use::EosVersion;

fn renderer(tick: u32) -> VoxelRenderer {
    VoxelRenderer { poisoned: false, tick, version: EosVersion { major: 1, minor: 2, patch: 3 } }
}

#[test]
fn invocations_are_named_after_the_objekt() {
    let info = renderer(0).get_invocations(String::from("voxel"));
    let l = &info.invocation_list;
    assert_eq!(l.len(), 3);
    assert_eq!(l[0].name, "voxeltest_link");
    assert_eq!(l[0].parents, vec!["voxeltest"]);
    assert_eq!(l[0].children, vec!["voxeltest"]);
    assert_eq!(l[0].action, VoxelInvocation::Dummy);
    assert_eq!(l[1].name, "voxeltest_loose");
    assert_eq!(l[1].parents, vec!["voxeltest"]);
    assert!(l[1].children.is_empty());
    assert_eq!(l[1].action, VoxelInvocation::LooseNode);
    assert_eq!(l[2].name, "voxeltest");
    assert_eq!(l[2].parents, vec!["voxeltest_link"]);
    assert_eq!(l[2].children, vec!["voxeltest_link", "voxeltest_loose"]);
    assert_eq!(l[2].action, VoxelInvocation::Hello);
    for t in l.iter() {
        assert_eq!(t.objekt_name, "voxel");
    }
    assert_eq!(info.entrypoint_list, vec!["voxeltest"]);
}

#[test]
fn loose_node_fails_at_tick_ten() {
    let mut r = renderer(0);
    let mut successes = 0;
    while r.loose_node_tick() {
        successes += 1;
    }
    assert_eq!(successes, 10);
    assert_eq!(r.tick, FAILING_TICK);
    assert!(!r.loose_node_tick());
    assert_eq!(r.tick, 10);
    let mut later = renderer(11);
    assert!(later.loose_node_tick());
    assert_eq!(later.tick, 12);
}

#[test]
fn poisoning_sticks() {
    let mut r = renderer(3);
    assert!(!r.poisoned());
    r.set_poisoned();
    assert!(r.poisoned());
    assert!(r.loose_node_tick());
    assert!(r.poisoned());
    let v = r.version();
    assert_eq!((v.major, v.minor, v.patch), (1, 2, 3));
}
