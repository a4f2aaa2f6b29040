use eos_use::module_list::{cfg_file_load, cfg_file_load_idents, cfg_file_load_strs};

#[test]
fn module_list_is_read_from_json() {
    assert_eq!(
        cfg_file_load("[\"eos_voxel_renderer\", \"other\"]"),
        Some(vec![String::from("eos_voxel_renderer"), String::from("other")])
    );
    assert_eq!(cfg_file_load(" [ ] "), Some(vec![]));
    assert_eq!(cfg_file_load("[\"a\\\"b\"]"), Some(vec![String::from("a\"b")]));
    assert_eq!(cfg_file_load("not json"), None);
    assert_eq!(cfg_file_load("[1, 2]"), None);
    assert_eq!(cfg_file_load("{\"a\": \"b\"}"), None);
}

fn expected_strs(paths: &[&str]) -> String {
    let mut ret = String::from(
        "
        let mut macroRet = vec![];
    ",
    );
    for path_name in paths {
        ret.push_str(
            format!(
                "
            macroRet.push(\"{}\");
        ",
                path_name,
            )
            .as_str(),
        );
    }
    ret
}

fn expected_idents(paths: &[&str]) -> String {
    let mut string_ret = String::from(
        "
        #[allow(incorrect_ident_case)]
        let mut macroRet = std::collections::BTreeMap::new();
    ",
    );
    for path_name in paths {
        let s = path_name;
        string_ret.push_str(
            format!(
                "
            macroRet.insert(
                String::from(\"{}\"), std::sync::Arc::new(
                    eos_use::modules::EosModuleHandle::new(
                        {}::eos_module_init,
                        {}::eos_objekt_add,
                        {}::eos_objekt_get,
                        {}::eos_objekt_get_invocations,
                        {}::eos_objekt_remove,
                        {}::eos_objekt_remove_all,
                        {}::eos_objekts_len,
                        {}::eos_objekts_get_keys,
                    )
                )
            );
        ",
                path_name, s, s, s, s, s, s, s, s,
            )
            .as_str(),
        );
    }
    string_ret
}

#[test]
fn strs_source_lists_every_path() {
    let paths = vec![String::from("eos_voxel_renderer"), String::from("second")];
    assert_eq!(cfg_file_load_strs(&paths), expected_strs(&["eos_voxel_renderer", "second"]));
    assert_eq!(cfg_file_load_strs(&vec![]), expected_strs(&[]));
}

#[test]
fn idents_source_registers_every_module() {
    let paths = vec![String::from("eos_voxel_renderer"), String::from("b")];
    assert_eq!(cfg_file_load_idents(&paths), expected_idents(&["eos_voxel_renderer", "b"]));
    assert_eq!(cfg_file_load_idents(&vec![]), expected_idents(&[]));
}
