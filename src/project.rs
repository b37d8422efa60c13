//! Which files a scan of a project looks at.
use vstd::prelude::*;

verus! {

/// The file extensions scanned for a project of type `project`: a `cs`
/// project scans `cs` and `html` files; no other project type is known.
pub fn get_files_extensions_for_project(project: &str) -> (r: Option<Vec<String>>)
    ensures
        r is Some <==> project@ == "cs"@,
        r is Some ==> r->0@.len() == 2 && r->0@[0]@ == "cs"@ && r->0@[1]@ == "html"@,
{
    let p = project.to_owned();
    let cs = "cs".to_owned();
    if p == cs {
        let mut v: Vec<String> = Vec::new();
        v.push(cs);
        v.push("html".to_owned());
        Some(v)
    } else {
        None
    }
}

/// Whether `ext` is one of `exts`.
pub fn has_extension(exts: &Vec<String>, ext: &str) -> (r: bool)
    ensures
        r == exists|i: int| 0 <= i < exts@.len() && (#[trigger] exts@[i])@ == ext@,
{
    let e = ext.to_owned();
    let mut i: usize = 0;
    while i < exts.len()
        invariant
            i <= exts@.len(),
            e@ == ext@,
            forall|j: int| 0 <= j < i ==> (#[trigger] exts@[j])@ != ext@,
        decreases exts@.len() - i,
    {
        if exts[i] == e {
            return true;
        }
        i = i + 1;
    }
    false
}

} // verus!
