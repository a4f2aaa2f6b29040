use eos_use::objekts::lookup_objekt;
use eos_use::utils::name_map::NameMap;

#[test]
fn insert_then_get_gives_back_the_value() {
    let mut m: NameMap<u32> = NameMap::new();
    m.insert(String::from("b"), 2);
    m.insert(String::from("a"), 1);
    assert_eq!(m.get(&String::from("a")), Some(&1));
    assert_eq!(m.get(&String::from("b")), Some(&2));
    assert_eq!(m.get(&String::from("c")), None);
    m.insert(String::from("a"), 10);
    assert_eq!(m.get(&String::from("a")), Some(&10));
    assert_eq!(m.len(), 2);
    m.insert(String::from("b"), 20);
    assert_eq!(m.len(), 2);
}

#[test]
fn keys_come_out_in_order() {
    let mut m: NameMap<u32> = NameMap::new();
    for (i, k) in ["delta", "alpha", "charlie", "bravo", "alpha2"].iter().enumerate() {
        m.insert(k.to_string(), i as u32);
    }
    assert_eq!(m.keys(), vec!["alpha", "alpha2", "bravo", "charlie", "delta"]);
    assert_eq!(m.key_at(0), "alpha");
    assert_eq!(*m.value_at(4), 0);
    assert_eq!(m.index_of(&String::from("charlie")), Some(3));
    assert_eq!(m.index_of(&String::from("echo")), None);
}

#[test]
fn remove_and_clear_drop_entries() {
    let mut m: NameMap<u32> = NameMap::new();
    m.insert(String::from("x"), 1);
    m.insert(String::from("y"), 2);
    m.remove(&String::from("x"));
    assert!(!m.contains_key(&String::from("x")));
    assert!(m.contains_key(&String::from("y")));
    m.remove(&String::from("absent"));
    assert_eq!(m.len(), 1);
    m.clear();
    assert_eq!(m.len(), 0);
    assert!(m.keys().is_empty());
}

#[test]
fn lookup_reports_missing_objekt() {
    let mut m: NameMap<u32> = NameMap::new();
    m.insert(String::from("cube"), 7);
    assert_eq!(lookup_objekt(&m, &String::from("cube")), Ok(&7));
    assert_eq!(
        lookup_objekt(&m, &String::from("sphere")),
        Err(String::from("Invocation could not find objekt with name: sphere"))
    );
}
