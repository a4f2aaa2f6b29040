use eos_use::utils::text::{decimal_string, string_lt};

#[test]
fn decimal_renders_positions() {
    assert_eq!(decimal_string(0), "0");
    assert_eq!(decimal_string(7), "7");
    assert_eq!(decimal_string(10), "10");
    assert_eq!(decimal_string(1234567), "1234567");
}

#[test]
fn names_compare_as_strings() {
    let a = String::from("test");
    let b = String::from("test_link");
    let c = String::from("test_loose");
    assert!(string_lt(&a, &b));
    assert!(string_lt(&b, &c));
    assert!(!string_lt(&b, &a));
    assert!(!string_lt(&a, &a));
    assert_eq!(string_lt(&String::from("é"), &String::from("z")), String::from("é") < String::from("z"));
}

#[test]
fn name_order_agrees_with_string_order() {
    let samples = ["", "a", "ab", "abc", "b", "B", "é", "ée", "z", "日本", "日", "\u{10FFFF}", "a\u{0}", "ß", "test", "test_link", "test_loose"];
    for x in samples.iter() {
        for y in samples.iter() {
            let a = x.to_string();
            let b = y.to_string();
            assert_eq!(string_lt(&a, &b), a < b, "{:?} < {:?}", a, b);
        }
    }
}

#[test]
fn name_map_walks_keys_like_an_ordered_map() {
    let samples = ["日本", "b", "", "ée", "a", "z", "é", "ab"];
    let mut m: eos_use::utils::name_map::NameMap<usize> = eos_use::utils::name_map::NameMap::new();
    let mut reference = std::collections::BTreeMap::new();
    for (i, s) in samples.iter().enumerate() {
        m.insert(s.to_string(), i);
        reference.insert(s.to_string(), i);
    }
    let keys: Vec<String> = reference.keys().cloned().collect();
    assert_eq!(m.keys(), keys);
}
