use eos_use::modules::dynamic_modules::{library_path, path_not_found_message};
use eos_use::modules::static_modules::EosModuleStatic;
use eos_use::modules::EosModuleFnTypes;

struct Hooks;

impl EosModuleFnTypes for Hooks {
    type FnModuleInit = fn() -> u32;
    type FnObjektAdd = fn(String, String);
    type FnObjektGet = fn(&String) -> u32;
    type FnObjektGetInvocations = fn(String) -> usize;
    type FnObjektRemove = fn(&String);
    type FnObjektRemoveAll = fn();
    type FnObjektsGetKeys = fn() -> Vec<String>;
    type FnObjektsLen = fn() -> usize;
}

fn init() -> u32 {
    42
}
fn add(_: String, _: String) {}
fn get(_: &String) -> u32 {
    1
}
fn invocations(_: String) -> usize {
    3
}
fn remove(_: &String) {}
fn remove_all() {}
fn keys() -> Vec<String> {
    vec![String::from("k")]
}
fn len() -> usize {
    9
}

#[test]
fn static_module_keeps_its_entry_points() {
    let m: EosModuleStatic<Hooks> = EosModuleStatic::new(
        init as fn() -> u32,
        add as fn(String, String),
        get as fn(&String) -> u32,
        invocations as fn(String) -> usize,
        remove as fn(&String),
        remove_all as fn(),
        len as fn() -> usize,
        keys as fn() -> Vec<String>,
    );
    assert_eq!(m.config.name, "default");
    assert_eq!((m.module_init())(), 42);
    assert_eq!((m.objekt_get())(&String::new()), 1);
    assert_eq!((m.objekt_get_invocations())(String::new()), 3);
    assert_eq!((m.objekts_len())(), 9);
    assert_eq!((m.objekts_get_keys())(), vec![String::from("k")]);
    (m.objekt_add())(String::new(), String::new());
    (m.objekt_remove())(&String::new());
    (m.objekt_remove_all())();
}

#[test]
fn library_path_names_the_shared_object() {
    assert_eq!(library_path("debug", "eos_voxel_renderer", "so"), "target/debug/libeos_voxel_renderer.so");
    assert_eq!(library_path("release", "m", "dll"), "target/release/libm.dll");
    assert_eq!(path_not_found_message("target/debug/libx.so"), "Path not found: target/debug/libx.so");
}
