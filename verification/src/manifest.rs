//! The launcher manifest that tells the host menus this app exists.
use crate::paths::{join, joined};
use crate::text::owned;
use vstd::prelude::*;

verus! {

/// One verb a launcher offers.
#[derive(Debug, Clone)]
pub struct Verb {
    pub id: String,
    pub label: String,
    pub args: Vec<String>,
}

/// The launcher manifest, `apps/yfiles.json`.
#[derive(Debug, Clone)]
pub struct Manifest {
    pub name: String,
    pub label: String,
    pub icon: String,
    pub binary: String,
    pub verbs: Vec<Verb>,
}

/// The manifest for the executable at `binary`: named after the file it is
/// written to, with the one verb `open`.
pub fn manifest_value(binary: &str) -> (r: Manifest)
    ensures
        r.name@ == "yfiles"@,
        r.label@ == "Yfiles"@,
        r.icon@.len() == 0,
        r.binary@ == binary@,
        r.verbs@.len() == 1,
        r.verbs@[0].id@ == "open"@,
        r.verbs@[0].label@ == "Open Yfiles"@,
        r.verbs@[0].args@.len() == 0,
{
    let mut verbs: Vec<Verb> = Vec::new();
    verbs.push(Verb { id: owned("open"), label: owned("Open Yfiles"), args: Vec::new() });
    Manifest {
        name: owned("yfiles"),
        label: owned("Yfiles"),
        icon: String::new(),
        binary: owned(binary),
        verbs,
    }
}

/// Where the manifest goes inside the launcher folder.
pub fn manifest_path(apps_dir: &str) -> (r: String)
    ensures
        r@ == joined(apps_dir@, "yfiles.json"@),
{
    join(apps_dir, "yfiles.json")
}

} // verus!
