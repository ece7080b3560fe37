//! The OS-neutral activation plan for a bundle, which an activator renders
//! per shell.
use vstd::prelude::*;
use vstd::string::*;

use crate::domain::Bundle;
use crate::text::{concat_str, strings_view};

verus! {

/// OS-neutral activation intermediate; an `Activator` renders this per `Shell`.
#[derive(Debug, Clone, PartialEq, Eq)]
pub struct EnvPlan {
    pub cuda_home: String,
    pub cuda_path: String,
    pub toolkit_root: String,
    pub prepend_path: Vec<String>,
    pub prepend_lib: Vec<String>,
    pub current: String,
    pub injected: Vec<String>,
}

/// The plan's `bin` segment for a toolkit root.
pub open spec fn bin_dir(root: Seq<char>) -> Seq<char> {
    root + "/bin"@
}

/// The plan's `lib64` segment for a toolkit root.
pub open spec fn lib_dir(root: Seq<char>) -> Seq<char> {
    root + "/lib64"@
}

/// Build the OS-neutral environment plan for an activated bundle.
///
/// The two prepend segments (`bin`, `lib64`) are exactly the breadcrumb
/// (`injected`) the activator must strip on the next switch.
pub fn plan_for(bundle: &Bundle) -> (p: EnvPlan)
    ensures
        p.cuda_home@ == bundle.toolkit.root@,
        p.cuda_path@ == bundle.toolkit.root@,
        p.toolkit_root@ == bundle.toolkit.root@,
        strings_view(p.prepend_path@) == seq![bin_dir(bundle.toolkit.root@)],
        strings_view(p.prepend_lib@) == seq![lib_dir(bundle.toolkit.root@)],
        p.current@ == bundle.toolkit.version.raw@,
        strings_view(p.injected@) == seq![
            bin_dir(bundle.toolkit.root@),
            lib_dir(bundle.toolkit.root@),
        ],
{
    let root = bundle.toolkit.root.as_str();
    let bin = concat_str(root, "/bin");
    let lib = concat_str(root, "/lib64");
    let mut prepend_path: Vec<String> = Vec::new();
    prepend_path.push(bin.clone());
    let mut prepend_lib: Vec<String> = Vec::new();
    prepend_lib.push(lib.clone());
    let mut injected: Vec<String> = Vec::new();
    injected.push(bin);
    injected.push(lib);
    let p = EnvPlan {
        cuda_home: bundle.toolkit.root.clone(),
        cuda_path: bundle.toolkit.root.clone(),
        toolkit_root: bundle.toolkit.root.clone(),
        prepend_path,
        prepend_lib,
        current: bundle.handle(),
        injected,
    };
    assert(strings_view(p.prepend_path@) =~= seq![bin_dir(bundle.toolkit.root@)]);
    assert(strings_view(p.prepend_lib@) =~= seq![lib_dir(bundle.toolkit.root@)]);
    assert(strings_view(p.injected@) =~= seq![
        bin_dir(bundle.toolkit.root@),
        lib_dir(bundle.toolkit.root@),
    ]);
    p
}

} // verus!
