//! The values that cross between the use-cases and their collaborators, and
//! the collaborator traits the library itself calls through.
//!
//! Filesystem locations are carried as `String`s.
use vstd::prelude::*;

use crate::compat_tables::vv;
use crate::domain::{Bundle, Driver, Pin, Platform};
use crate::version::Version;

verus! {

/// `anyhow::Error`: the error a collaborator reports, carried through unread.
#[verifier::external_type_specification]
#[verifier::external_body]
pub struct ExAnyhowError(anyhow::Error);

/// A version spec resolved to an installed bundle.
#[derive(Debug, Clone, PartialEq, Eq)]
pub struct Resolved {
    pub bundle: Bundle,
    pub spec: String,
    pub via: ResolveVia,
    pub pin: Option<Pin>,
}

/// Which rule resolved a spec.
#[derive(Debug, Clone, Copy, PartialEq, Eq, Structural)]
pub enum ResolveVia {
    Exact,
    Minor,
    Major,
    Latest,
    Alias,
    PinFile,
    Default,
}

/// A compatibility verdict.
#[derive(Debug, Clone, PartialEq, Eq)]
pub struct Verdict {
    pub ok: bool,
    pub severity: Severity,
    pub reason: String,
    pub forward_compat_possible: bool,
}

/// How serious a verdict or a diagnostic is.
#[derive(Debug, Clone, Copy, PartialEq, Eq, Structural)]
pub enum Severity {
    Okay,
    Warn,
    Block,
}

/// The severity's rank: 0 for `Okay`, 1 for `Warn`, 2 for `Block`.
pub open spec fn severity_level(s: Severity) -> int {
    match s {
        Severity::Okay => 0,
        Severity::Warn => 1,
        Severity::Block => 2,
    }
}

impl Severity {
    /// The severity as the report prints it: `OK`, `WARN` or `BLOCK`.
    pub fn label(&self) -> (r: &'static str)
        ensures
            r@ == severity_label(*self),
    {
        match self {
            Severity::Okay => "OK",
            Severity::Warn => "WARN",
            Severity::Block => "BLOCK",
        }
    }
}

pub open spec fn severity_label(s: Severity) -> Seq<char> {
    match s {
        Severity::Okay => "OK"@,
        Severity::Warn => "WARN"@,
        Severity::Block => "BLOCK"@,
    }
}

/// One redist platform object; `relative_path` is taken verbatim.
#[derive(Debug, Clone, PartialEq, Eq)]
pub struct Artifact {
    pub component: String,
    pub relative_path: String,
    pub url: String,
    pub sha256: String,
    pub md5: Option<String>,
    pub size: u64,
}

/// What to acquire for an install.
#[derive(Debug, Clone, PartialEq, Eq)]
pub struct AcquirePlan {
    pub artifacts: Vec<Artifact>,
    pub dest_handle: String,
}

/// A downloaded, on-disk artifact.
#[derive(Debug, Clone, PartialEq, Eq)]
pub struct Cached {
    pub artifact: Artifact,
    pub path: String,
}

/// Kind of user-supplied artifact.
#[derive(Debug, Clone, Copy, PartialEq, Eq, Structural)]
pub enum ArtifactKind {
    Toolkit,
    Cudnn,
}

/// A scan candidate: an existing on-disk install.
#[derive(Debug, Clone, PartialEq, Eq)]
pub struct Candidate {
    pub root: String,
    pub version_hint: Option<String>,
}

/// Which components to request from the registry.
#[derive(Debug, Clone, PartialEq, Eq)]
pub enum ComponentPolicy {
    /// The minimal usable set (manifest-driven, version-branched).
    Recommended,
    /// An explicit component-name allowlist.
    Only(Vec<String>),
}

/// The redist registry.
pub trait RegistryClient {
    /// Available toolkit versions for a platform.
    fn list_toolkits(&self, p: &Platform) -> Result<Vec<Version>, anyhow::Error>;

    /// Available cuDNN versions for a platform and CUDA major.
    fn list_cudnn(&self, p: &Platform, major: u32) -> Result<Vec<Version>, anyhow::Error>;

    /// The component artifacts of a toolkit version.
    fn resolve_toolkit(
        &self,
        v: &Version,
        p: &Platform,
        want: &ComponentPolicy,
    ) -> Result<Vec<Artifact>, anyhow::Error>;

    /// The artifacts of a cuDNN version.
    fn resolve_cudnn(&self, v: &Version, p: &Platform, major: u32) -> Result<
        Vec<Artifact>,
        anyhow::Error,
    >;
}

/// The installed NVIDIA driver.
pub trait DriverProbe {
    /// Probe the installed driver.
    fn probe(&self) -> Result<Driver, anyhow::Error>;
}

/// A verdict as (ok, severity, reason, forward-compat possible).
pub type VerdictView = (bool, Severity, Seq<char>, bool);

/// A version as its fields and its text.
pub type VersionView = (Seq<u32>, Seq<char>);

/// A list of candidate versions, as contracts read it.
pub type VersionsView = Seq<Version>;

pub open spec fn verdict_view(v: Verdict) -> VerdictView {
    (v.ok, v.severity, v.reason@, v.forward_compat_possible)
}

/// Driver/toolkit/cuDNN compatibility decisions.
///
/// Each answer is a function of the engine and the arguments, named by a
/// spec function that every implementation defines.
pub trait CompatEngine {
    /// The toolkit ceiling the engine reports for driver `d` (the version's
    /// fields and text), or `None` where its lookup fails.
    spec fn ceiling_for(&self, d: Driver) -> Option<VersionView>;

    /// The engine's verdict on toolkit `want` for driver `d`.
    spec fn toolkit_verdict(&self, d: Driver, want: VersionView, strict: bool) -> VerdictView;

    /// The cuDNN the engine picks for toolkit `tk` from `avail` (fields and
    /// text), or `None` where none fits.
    spec fn cudnn_pick(&self, tk: VersionView, avail: VersionsView) -> Option<VersionView>;

    /// The engine's verdict on pairing toolkit `tk` with cuDNN `cudnn`.
    spec fn pair_verdict(&self, tk: VersionView, cudnn: VersionView) -> VerdictView;

    /// The maximum toolkit version the driver supports.
    fn max_toolkit_for_driver(&self, d: &Driver) -> (r: Result<Version, anyhow::Error>)
        ensures
            match r {
                Ok(v) => self.ceiling_for(*d) == Some(vv(v)),
                Err(_) => self.ceiling_for(*d) is None,
            },
    ;

    /// Whether a wanted toolkit is compatible with the driver.
    fn check_toolkit(&self, d: &Driver, want: &Version, strict: bool) -> (r: Verdict)
        ensures
            verdict_view(r) == self.toolkit_verdict(*d, vv(*want), strict),
    ;

    /// The best-matching cuDNN for a toolkit from the available set.
    fn pair_cudnn(&self, tk: &Version, avail: &[Version]) -> (r: Option<Version>)
        ensures
            match r {
                Some(v) => self.cudnn_pick(vv(*tk), avail@) == Some(vv(v)),
                None => self.cudnn_pick(vv(*tk), avail@) is None,
            },
    ;

    /// Validate a specific toolkit/cuDNN pairing.
    fn validate_pair(&self, tk: &Version, cudnn: &Version) -> (r: Verdict)
        ensures
            verdict_view(r) == self.pair_verdict(vv(*tk), vv(*cudnn)),
    ;
}

} // verus!
