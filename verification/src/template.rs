//! Where the templates of the pages lie.
use vstd::prelude::*;

verus! {

/// The path of the file of a template: `templates/<name>.html` under the
/// documents path.
pub fn template_path(doc_path: &str, name: &str) -> (p: String)
    ensures
        p@ == doc_path@ + "/templates/"@ + name@ + ".html"@,
{
    let mut p = String::from_str(doc_path);
    p.append("/templates/");
    p.append(name);
    p.append(".html");
    p
}

} // verus!
