//! What the routes of the server read.
use vstd::prelude::*;

verus! {

/// The path of a static file: `static/<name>` under the documents path.
pub fn static_file_path(doc_path: &str, name: &str) -> (p: String)
    ensures
        p@ == doc_path@ + "/static/"@ + name@,
{
    let mut p = String::from_str(doc_path);
    p.append("/static/");
    p.append(name);
    p
}

} // verus!
