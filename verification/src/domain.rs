//! Domain types: platforms, shells, toolkits and the bundles built on them.
use vstd::prelude::*;
use vstd::string::*;

use crate::text::{
    concat_str, copy_opt_string, copy_strings, opt_str_view, str_eq, string_of, strings_view,
};
use crate::version::Version;

verus! {

/// `time::OffsetDateTime`: an install timestamp, carried through unread.
#[verifier::external_type_specification]
#[verifier::external_body]
pub struct ExOffsetDateTime(time::OffsetDateTime);

/// `OffsetDateTime::clone`: the type derives `Clone` beside `Copy`, so a
/// clone is the same value.
pub assume_specification[ <time::OffsetDateTime as Clone>::clone ](
    x: &time::OffsetDateTime,
) -> (r: time::OffsetDateTime)
    ensures
        r == *x,
;

#[derive(Debug, Clone, Copy, PartialEq, Eq, Structural)]
pub enum Os {
    Linux,
    Windows,
}

#[derive(Debug, Clone, Copy, PartialEq, Eq, Structural)]
pub enum Arch {
    X86_64,
    Sbsa,
    Aarch64,
}

#[derive(Debug, Clone, Copy, PartialEq, Eq, Structural)]
pub struct Platform {
    pub os: Os,
    pub arch: Arch,
}

/// The platform a build targets, from its target OS and architecture names
/// (`"windows"`/`"linux"`, `"x86_64"`/`"aarch64"`, as `std::env::consts`
/// spells them). Any OS but Windows is Linux; an unknown architecture falls
/// back to `X86_64` (sbsa is also aarch64-based).
pub fn current_platform(target_os: &str, target_arch: &str) -> (p: Platform)
    ensures
        p.os == (if target_os@ == "windows"@ {
            Os::Windows
        } else {
            Os::Linux
        }),
        p.arch == (if target_arch@ == "x86_64"@ {
            Arch::X86_64
        } else if target_arch@ == "aarch64"@ {
            Arch::Aarch64
        } else {
            Arch::X86_64
        }),
{
    let os = if str_eq(target_os, "windows") {
        Os::Windows
    } else {
        Os::Linux
    };
    let arch = if str_eq(target_arch, "x86_64") {
        Arch::X86_64
    } else if str_eq(target_arch, "aarch64") {
        Arch::Aarch64
    } else {
        Arch::X86_64
    };
    Platform { os, arch }
}

pub open spec fn os_key(os: Os) -> Seq<char> {
    match os {
        Os::Linux => "linux"@,
        Os::Windows => "windows"@,
    }
}

pub open spec fn arch_key(arch: Arch) -> Seq<char> {
    match arch {
        Arch::X86_64 => "x86_64"@,
        Arch::Sbsa => "sbsa"@,
        Arch::Aarch64 => "aarch64"@,
    }
}

impl Platform {
    /// The redist platform-directory key, e.g. `"linux-x86_64"`.
    pub fn redist_key(&self) -> (r: String)
        ensures
            r@ == os_key(self.os) + "-"@ + arch_key(self.arch),
    {
        let os = match self.os {
            Os::Linux => "linux",
            Os::Windows => "windows",
        };
        let arch = match self.arch {
            Arch::X86_64 => "x86_64",
            Arch::Sbsa => "sbsa",
            Arch::Aarch64 => "aarch64",
        };
        let mut r = concat_str(os, "-");
        r.append(arch);
        r
    }
}

#[derive(Debug, Clone, Copy, PartialEq, Eq, Structural)]
pub enum Shell {
    Bash,
    Zsh,
    PowerShell,
    Cmd,
}

#[derive(Debug, Clone, Copy, PartialEq, Eq, Structural)]
pub enum Source {
    Adopted,
    Downloaded,
    Supplied,
}

#[derive(Debug, Clone, Copy, PartialEq, Eq, Structural)]
pub enum GpuClass {
    Unknown,
    GeForce,
    DataCenter,
    Jetson,
    NgcReadyRtx,
}

#[derive(Debug, Clone, PartialEq, Eq)]
pub struct Toolkit {
    pub version: Version,
    pub source: Source,
    pub root: String,
    pub platform: Platform,
    pub components: Vec<String>,
    pub has_lib64: bool,
    pub installed_at: time::OffsetDateTime,
    pub checksum: Option<String>,
}

#[derive(Debug, Clone, PartialEq, Eq)]
pub struct Cudnn {
    pub version: Version,
    pub cuda_major: u32,
    pub source: Source,
    pub store: String,
    pub sha256: String,
    pub libs: Vec<String>,
}

#[derive(Debug, Clone, PartialEq, Eq)]
pub struct Companion {
    pub name: String,
    pub version: Version,
    pub store: String,
    pub sha256: String,
}

/// The optional CUDA math-library components, requestable at install time
/// via `cuvm install <spec> --with <comp,…>`.
pub open spec fn math_lib_names() -> Seq<Seq<char>> {
    seq![
        "libcublas"@,
        "libcufft"@,
        "libcurand"@,
        "libcusolver"@,
        "libcusparse"@,
        "libnpp"@,
        "libnvjitlink"@,
    ]
}

/// The math-library component names, in their documented order.
pub fn math_lib_components() -> (r: Vec<String>)
    ensures
        r@.len() == math_lib_names().len(),
        forall|i: int| 0 <= i < r@.len() ==> #[trigger] r@[i]@ == math_lib_names()[i],
{
    let mut r: Vec<String> = Vec::new();
    r.push(string_of("libcublas"));
    r.push(string_of("libcufft"));
    r.push(string_of("libcurand"));
    r.push(string_of("libcusolver"));
    r.push(string_of("libcusparse"));
    r.push(string_of("libnpp"));
    r.push(string_of("libnvjitlink"));
    r
}

/// True when `component` is one of the math-library components.
pub fn is_math_lib(component: &str) -> (r: bool)
    ensures
        r == math_lib_names().contains(component@),
{
    let names = math_lib_components();
    let mut i: usize = 0;
    while i < names.len()
        invariant
            names@.len() == math_lib_names().len(),
            forall|k: int| 0 <= k < names@.len() ==> #[trigger] names@[k]@ == math_lib_names()[k],
            i <= names@.len(),
            forall|k: int| 0 <= k < i ==> math_lib_names()[k] != component@,
        decreases names.len() - i,
    {
        if str_eq(names[i].as_str(), component) {
            assert(math_lib_names()[i as int] == component@);
            return true;
        }
        i = i + 1;
    }
    false
}

#[derive(Debug, Clone, PartialEq, Eq)]
pub struct Bundle {
    pub toolkit: Toolkit,
    pub cudnn: Option<Cudnn>,
    pub extra: Vec<Companion>,
}

impl Bundle {
    /// The stable handle for a bundle == the toolkit version's raw string.
    pub fn handle(&self) -> (r: String)
        ensures
            r@ == self.toolkit.version.raw@,
    {
        self.toolkit.version.raw.clone()
    }
}

/// Field-for-field equality of two toolkits, strings by their text.
pub open spec fn same_toolkit(a: Toolkit, b: Toolkit) -> bool {
    &&& a.version.fields@ == b.version.fields@
    &&& a.version.raw@ == b.version.raw@
    &&& a.source == b.source
    &&& a.root@ == b.root@
    &&& a.platform == b.platform
    &&& strings_view(a.components@) == strings_view(b.components@)
    &&& a.has_lib64 == b.has_lib64
    &&& a.installed_at == b.installed_at
    &&& opt_str_view(a.checksum) == opt_str_view(b.checksum)
}

pub open spec fn same_cudnn(a: Cudnn, b: Cudnn) -> bool {
    &&& a.version.fields@ == b.version.fields@
    &&& a.version.raw@ == b.version.raw@
    &&& a.cuda_major == b.cuda_major
    &&& a.source == b.source
    &&& a.store@ == b.store@
    &&& a.sha256@ == b.sha256@
    &&& strings_view(a.libs@) == strings_view(b.libs@)
}

pub open spec fn same_companion(a: Companion, b: Companion) -> bool {
    &&& a.name@ == b.name@
    &&& a.version.fields@ == b.version.fields@
    &&& a.version.raw@ == b.version.raw@
    &&& a.store@ == b.store@
    &&& a.sha256@ == b.sha256@
}

/// Field-for-field equality of two bundles, strings by their text.
pub open spec fn same_bundle(a: Bundle, b: Bundle) -> bool {
    &&& same_toolkit(a.toolkit, b.toolkit)
    &&& match (a.cudnn, b.cudnn) {
        (Some(x), Some(y)) => same_cudnn(x, y),
        (None, None) => true,
        _ => false,
    }
    &&& a.extra@.len() == b.extra@.len()
    &&& forall|i: int| 0 <= i < a.extra@.len() ==> #[trigger] same_companion(a.extra@[i], b.extra@[i])
}

impl Toolkit {
    /// A field-for-field copy.
    pub fn copy(&self) -> (r: Toolkit)
        ensures
            same_toolkit(r, *self),
    {
        Toolkit {
            version: self.version.copy(),
            source: self.source,
            root: self.root.clone(),
            platform: self.platform,
            components: copy_strings(&self.components),
            has_lib64: self.has_lib64,
            installed_at: self.installed_at.clone(),
            checksum: copy_opt_string(&self.checksum),
        }
    }
}

impl Cudnn {
    /// A field-for-field copy.
    pub fn copy(&self) -> (r: Cudnn)
        ensures
            same_cudnn(r, *self),
    {
        Cudnn {
            version: self.version.copy(),
            cuda_major: self.cuda_major,
            source: self.source,
            store: self.store.clone(),
            sha256: self.sha256.clone(),
            libs: copy_strings(&self.libs),
        }
    }
}

impl Companion {
    /// A field-for-field copy.
    pub fn copy(&self) -> (r: Companion)
        ensures
            same_companion(r, *self),
    {
        Companion {
            name: self.name.clone(),
            version: self.version.copy(),
            store: self.store.clone(),
            sha256: self.sha256.clone(),
        }
    }
}

impl Bundle {
    /// A field-for-field copy.
    pub fn copy(&self) -> (r: Bundle)
        ensures
            same_bundle(r, *self),
    {
        let cudnn = match &self.cudnn {
            Some(c) => Some(c.copy()),
            None => None,
        };
        let mut extra: Vec<Companion> = Vec::new();
        let mut i: usize = 0;
        while i < self.extra.len()
            invariant
                i <= self.extra@.len(),
                extra@.len() == i,
                forall|k: int| 0 <= k < i ==> #[trigger] same_companion(extra@[k], self.extra@[k]),
            decreases self.extra.len() - i,
        {
            extra.push(self.extra[i].copy());
            i = i + 1;
        }
        Bundle { toolkit: self.toolkit.copy(), cudnn, extra }
    }
}

#[derive(Debug, Clone, PartialEq, Eq)]
pub struct Alias {
    pub name: String,
    pub target: String,
}

#[derive(Debug, Clone, PartialEq, Eq)]
pub struct Pin {
    pub spec: String,
    pub file: String,
}

#[derive(Debug, Clone, PartialEq, Eq)]
pub struct Driver {
    pub present: bool,
    pub version: Version,
    pub platform: Platform,
    pub gpu_class: GpuClass,
}

} // verus!
