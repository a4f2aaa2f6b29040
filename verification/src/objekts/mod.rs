//! Objekts: the named values that modules hold and invocations work on.
use vstd::prelude::*;
use crate::utils::name_map::NameMap;

verus! {

/// The message when no objekt is named `objekt_name`.
pub open spec fn missing_objekt_text(objekt_name: Seq<char>) -> Seq<char> {
    "Invocation could not find objekt with name: "@ + objekt_name
}

/// The objekt named `objekt_name` in `store`, or the message that none is.
pub fn lookup_objekt<'a, V>(store: &'a NameMap<V>, objekt_name: &String) -> (r: Result<&'a V, String>)
    requires
        store.wf(),
    ensures
        match r {
            Ok(v) => store@.contains_key(objekt_name@) && *v == store@[objekt_name@],
            Err(m) => !store@.contains_key(objekt_name@) && m@ == missing_objekt_text(objekt_name@),
        },
{
    match store.get(objekt_name) {
        Some(v) => Ok(v),
        None => {
            let mut m = String::from_str("Invocation could not find objekt with name: ");
            m.append(objekt_name.as_str());
            Err(m)
        },
    }
}

} // verus!
