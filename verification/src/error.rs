//! Errors from parsing, construction and resolution, and the compatibility
//! decisions surfaced to users.
use vstd::prelude::*;
use vstd::string::*;

use crate::text::{decimal, string_of, trim, u32_decimal};
use crate::version::Version;

verus! {

/// Errors from pure-core parsing / construction and resolver logic.
#[derive(Debug, Clone, PartialEq, Eq)]
pub enum CoreError {
    InvalidVersion { raw: String },
    NotInstalled { spec: String },
    AliasCycle(String),
    UnknownAlias(String),
}

/// `format!("{:?}", s)` for a string: the text in double quotes with Rust's
/// debug escapes.
pub uninterp spec fn debug_quoted(s: Seq<char>) -> Seq<char>;

/// `<str as Debug>::fmt`, through `format!`.
#[verifier::external_body]
fn quoted(s: &str) -> (r: String)
    ensures
        r@ == debug_quoted(s@),
{
    format!("{:?}", s)
}

/// What `Version::parse` reports for text `s` it rejects: the message of
/// its `InvalidVersion` error, which carries the trimmed text.
pub open spec fn invalid_version_message(s: Seq<char>) -> Seq<char> {
    "invalid version string: "@ + debug_quoted(trim(s))
}

/// The message of a core error.
pub open spec fn core_error_message(e: CoreError) -> Seq<char> {
    match e {
        CoreError::InvalidVersion { raw } => "invalid version string: "@ + debug_quoted(raw@),
        CoreError::NotInstalled { spec } => "no installed toolkit matches "@ + debug_quoted(spec@)
            + "; run `cuvm install "@ + spec@ + "` to install it"@,
        CoreError::AliasCycle(name) => "alias cycle detected while expanding "@ + debug_quoted(
            name@,
        ),
        CoreError::UnknownAlias(name) => "alias "@ + debug_quoted(name@) + " is not defined"@,
    }
}

impl CoreError {
    /// The error's message (what `Display` renders).
    pub fn to_string(&self) -> (r: String)
        ensures
            r@ == core_error_message(*self),
    {
        match self {
            CoreError::InvalidVersion { raw } => {
                let mut m = string_of("invalid version string: ");
                let q = quoted(raw.as_str());
                m.append(q.as_str());
                m
            },
            CoreError::NotInstalled { spec } => {
                let mut m = string_of("no installed toolkit matches ");
                let q = quoted(spec.as_str());
                m.append(q.as_str());
                m.append("; run `cuvm install ");
                m.append(spec.as_str());
                m.append("` to install it");
                m
            },
            CoreError::AliasCycle(name) => {
                let mut m = string_of("alias cycle detected while expanding ");
                let q = quoted(name.as_str());
                m.append(q.as_str());
                m
            },
            CoreError::UnknownAlias(name) => {
                let mut m = string_of("alias ");
                let q = quoted(name.as_str());
                m.append(q.as_str());
                m.append(" is not defined");
                m
            },
        }
    }
}

/// Compatibility / resolution decisions surfaced by the compat engine and
/// resolver.
#[derive(Debug)]
pub enum CompatError {
    NotInstalled { spec: String },
    DriverCeiling { want: Version, ceiling: Version },
    CudnnMismatch { cuda_major: u32, cudnn_major: u32 },
}

/// The message of a compatibility error.
pub open spec fn compat_error_message(e: CompatError) -> Seq<char> {
    match e {
        CompatError::NotInstalled { spec } => "no toolkit matching "@ + debug_quoted(spec@)
            + " is installed (not installed)"@,
        CompatError::DriverCeiling { want, ceiling } => "requested CUDA "@ + want.raw@
            + " exceeds the driver ceiling "@ + ceiling.raw@,
        CompatError::CudnnMismatch { cuda_major, cudnn_major } => "cuDNN major "@ + decimal(
            cudnn_major as nat,
        ) + " is incompatible with CUDA major "@ + decimal(cuda_major as nat),
    }
}

impl CompatError {
    /// The error's message (what `Display` renders).
    pub fn to_string(&self) -> (r: String)
        ensures
            r@ == compat_error_message(*self),
    {
        match self {
            CompatError::NotInstalled { spec } => {
                let mut m = string_of("no toolkit matching ");
                let q = quoted(spec.as_str());
                m.append(q.as_str());
                m.append(" is installed (not installed)");
                m
            },
            CompatError::DriverCeiling { want, ceiling } => {
                let mut m = string_of("requested CUDA ");
                m.append(want.raw.as_str());
                m.append(" exceeds the driver ceiling ");
                m.append(ceiling.raw.as_str());
                m
            },
            CompatError::CudnnMismatch { cuda_major, cudnn_major } => {
                let mut m = string_of("cuDNN major ");
                let a = u32_decimal(*cudnn_major);
                m.append(a.as_str());
                m.append(" is incompatible with CUDA major ");
                let b = u32_decimal(*cuda_major);
                m.append(b.as_str());
                m
            },
        }
    }
}

} // verus!
