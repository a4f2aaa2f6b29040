//! Modules loaded from shared libraries at run time.
use vstd::prelude::*;

verus! {

/// The path of the shared library of module `name`, built in `profile`,
/// with the platform's library `extension`.
pub open spec fn library_path_text(profile: Seq<char>, name: Seq<char>, extension: Seq<char>) -> Seq<
    char,
> {
    "target/"@ + profile + "/lib"@ + name + "."@ + extension
}

/// The path of the shared library of module `name`: `target/`, the build
/// profile, `/lib`, the name, `.` and the platform's library extension.
pub fn library_path(profile: &str, name: &str, extension: &str) -> (r: String)
    ensures
        r@ == library_path_text(profile@, name@, extension@),
{
    let mut r = String::from_str("target/");
    r.append(profile);
    r.append("/lib");
    r.append(name);
    r.append(".");
    r.append(extension);
    r
}

/// The message when no shared library was found at `path`.
pub fn path_not_found_message(path: &str) -> (r: String)
    ensures
        r@ == "Path not found: "@ + path@,
{
    let mut r = String::from_str("Path not found: ");
    r.append(path);
    r
}

} // verus!
