//! The list of modules to load, and the source text that declares them.
use vstd::prelude::*;
use crate::utils::text::string_views;

verus! {

#[verifier::external_type_specification]
#[verifier::external_body]
pub struct ExJsonError(serde_json::Error);

/// The list of strings that the JSON text `text` holds, if it is a JSON
/// array of strings.
pub uninterp spec fn json_string_list(text: Seq<char>) -> Option<Seq<Seq<char>>>;

/// Parses `text` as a JSON array of strings with `serde_json::from_str`.
/// What is stated of it: it succeeds exactly when `json_string_list` names a
/// list for `text`, and then gives that list. What the JSON grammar accepts
/// is left to the name.
#[verifier::external_body]
fn parse_json_string_list(text: &str) -> (r: Result<Vec<String>, serde_json::Error>)
    ensures
        r is Ok <==> json_string_list(text@) is Some,
        r matches Ok(v) ==> string_views(v@) == json_string_list(text@)->0,
{
    serde_json::from_str::<Vec<String>>(text)
}

/// The module names that a module list file holds: a JSON array of
/// strings. `None` when the text is no such array.
pub fn cfg_file_load(contents: &str) -> (r: Option<Vec<String>>)
    ensures
        r is Some <==> json_string_list(contents@) is Some,
        r matches Some(v) ==> string_views(v@) == json_string_list(contents@)->0,
{
    match parse_json_string_list(contents) {
        Ok(v) => Some(v),
        Err(_) => None,
    }
}

/// The source text that collects the module paths `paths` into a list.
pub open spec fn strs_source(paths: Seq<Seq<char>>) -> Seq<char>
    decreases paths.len(),
{
    if paths.len() == 0 {
        "\n        let mut macroRet = vec![];\n    "@
    } else {
        strs_source(paths.drop_last()) + "\n            macroRet.push(\""@ + paths.last() + "\");\n        "@
    }
}

/// The source text that registers the module of `path` as a linked module.
pub open spec fn ident_entry_source(path: Seq<char>) -> Seq<char> {
    "\n            macroRet.insert(\n                String::from(\""@ + path + "\"), std::sync::Arc::new(\n                    eos_use::modules::EosModuleHandle::new(\n                        "@ + path + "::eos_module_init,\n                        "@ + path + "::eos_objekt_add,\n                        "@ + path + "::eos_objekt_get,\n                        "@ + path + "::eos_objekt_get_invocations,\n                        "@ + path + "::eos_objekt_remove,\n                        "@ + path + "::eos_objekt_remove_all,\n                        "@ + path + "::eos_objekts_len,\n                        "@ + path + "::eos_objekts_get_keys,\n                    )\n                )\n            );\n        "@
}

/// The source text that collects the modules `paths` as linked modules,
/// by name.
pub open spec fn idents_source(paths: Seq<Seq<char>>) -> Seq<char>
    decreases paths.len(),
{
    if paths.len() == 0 {
        "\n        #[allow(incorrect_ident_case)]\n        let mut macroRet = std::collections::BTreeMap::new();\n    "@
    } else {
        idents_source(paths.drop_last()) + ident_entry_source(paths.last())
    }
}

/// The source text that collects the module paths into a list named
/// `macroRet`, one `push` each.
pub fn cfg_file_load_strs(module_paths: &Vec<String>) -> (r: String)
    ensures
        r@ == strs_source(string_views(module_paths@)),
{
    let mut r = String::from_str("\n        let mut macroRet = vec![];\n    ");
    let n = module_paths.len();
    let mut i: usize = 0;
    while i < n
        invariant
            n == module_paths@.len(),
            i <= n,
            r@ == strs_source(string_views(module_paths@).take(i as int)),
        decreases n - i,
    {
        r.append("\n            macroRet.push(\"");
        r.append(module_paths[i].as_str());
        r.append("\");\n        ");
        let ghost v = string_views(module_paths@);
        assert(v.take(i + 1).drop_last() =~= v.take(i as int));
        assert(v.take(i + 1).last() == module_paths@[i as int]@);
        i = i + 1;
    }
    assert(string_views(module_paths@).take(n as int) =~= string_views(module_paths@));
    r
}

fn append_ident_entry(r: &mut String, path: &str)
    ensures
        final(r)@ == old(r)@ + ident_entry_source(path@),
{
    r.append("\n            macroRet.insert(\n                String::from(\"");
    r.append(path);
    r.append("\"), std::sync::Arc::new(\n                    eos_use::modules::EosModuleHandle::new(\n                        ");
    r.append(path);
    r.append("::eos_module_init,\n                        ");
    r.append(path);
    r.append("::eos_objekt_add,\n                        ");
    r.append(path);
    r.append("::eos_objekt_get,\n                        ");
    r.append(path);
    r.append("::eos_objekt_get_invocations,\n                        ");
    r.append(path);
    r.append("::eos_objekt_remove,\n                        ");
    r.append(path);
    r.append("::eos_objekt_remove_all,\n                        ");
    r.append(path);
    r.append("::eos_objekts_len,\n                        ");
    r.append(path);
    r.append("::eos_objekts_get_keys,\n                    )\n                )\n            );\n        ");
}

/// The source text that collects the modules into a map named `macroRet`
/// from each module's name to a handle on its entry points.
pub fn cfg_file_load_idents(module_paths: &Vec<String>) -> (r: String)
    ensures
        r@ == idents_source(string_views(module_paths@)),
{
    let mut r = String::from_str("\n        #[allow(incorrect_ident_case)]\n        let mut macroRet = std::collections::BTreeMap::new();\n    ");
    let n = module_paths.len();
    let mut i: usize = 0;
    while i < n
        invariant
            n == module_paths@.len(),
            i <= n,
            r@ == idents_source(string_views(module_paths@).take(i as int)),
        decreases n - i,
    {
        append_ident_entry(&mut r, module_paths[i].as_str());
        let ghost v = string_views(module_paths@);
        assert(v.take(i + 1).drop_last() =~= v.take(i as int));
        assert(v.take(i + 1).last() == module_paths@[i as int]@);
        i = i + 1;
    }
    assert(string_views(module_paths@).take(n as int) =~= string_views(module_paths@));
    r
}

} // verus!
