//! A toolkit directory discovered on disk but not yet adopted. The
//! filesystem walk that finds such directories happens elsewhere.
use vstd::prelude::*;
use vstd::string::*;

use crate::domain::Platform;
use crate::text::{
    starts_with, str_chars, string_from_chars, string_from_range, string_of, strip_prefix,
    strip_prefix_exec, trim,
};
use crate::version::{version_fields, Version};

verus! {

/// A discovered toolkit directory awaiting adoption.
#[derive(Debug, Clone, PartialEq, Eq)]
pub struct Candidate {
    /// Parsed toolkit version (from the directory name `cuda-X.Y[.Z]`).
    pub version: Version,
    /// Absolute path to the toolkit root, recorded verbatim (adopted in place).
    pub root: String,
    /// Target platform of the host doing the adoption.
    pub platform: Platform,
}

/// The version text a `cuda-<version>` directory name carries, if it has that
/// shape.
pub open spec fn dir_version_text(name: Seq<char>) -> Option<Seq<char>> {
    if starts_with(name, "cuda-"@) && name.len() > "cuda-"@.len() {
        Some(name.subrange("cuda-"@.len() as int, name.len() as int))
    } else {
        None
    }
}

impl Candidate {
    /// Stable handle used as the manifest key for this candidate: the
    /// version's raw text.
    pub fn handle(&self) -> (r: String)
        ensures
            r@ == self.version.raw@,
    {
        self.version.raw.clone()
    }

    /// Parse a `cuda-X.Y[.Z]` directory name into a candidate: `None` when the
    /// name lacks the `cuda-` prefix, has nothing after it, or what follows is
    /// not a version. (The bare `cuda` symlink is resolved to its target
    /// directory before this is called.)
    pub fn from_dir_name(name: &str, root: String, platform: Platform) -> (r: Option<Candidate>)
        ensures
            match r {
                Some(c) => dir_version_text(name@) is Some && version_fields(
                    dir_version_text(name@).unwrap(),
                ) == Some(c.version.fields@) && c.version.raw@ == trim(
                    dir_version_text(name@).unwrap(),
                ) && c.root@ == root@ && c.platform == platform,
                None => dir_version_text(name@) is None || version_fields(
                    dir_version_text(name@).unwrap(),
                ) is None,
            },
    {
        proof {
            reveal_strlit("cuda-");
        }
        let v = str_chars(name);
        let prefix = str_chars("cuda-");
        if !crate::text::starts_with_exec(&v, &prefix) || v.len() <= prefix.len() {
            return None;
        }
        let rest = string_from_range(&v, prefix.len(), v.len());
        match Version::parse(rest.as_str()) {
            Ok(version) => Some(Candidate { version, root, platform }),
            Err(_) => None,
        }
    }
}

/// The version text `adopt <path>` reads from a toolkit directory's name:
/// what follows `cuda-`, or the whole name without that prefix.
pub open spec fn adopt_dir_text(name: Seq<char>) -> Seq<char> {
    match strip_prefix(name, "cuda-"@) {
        Some(rest) => rest,
        None => name,
    }
}

/// The version `adopt <path>` records for a directory name: the parsed
/// version text of the name, or `0.0.0` when it is not a version.
pub fn adopt_dir_version(name: &str) -> (r: Version)
    ensures
        match version_fields(adopt_dir_text(name@)) {
            Some(f) => r.fields@ == f && r.raw@ == trim(adopt_dir_text(name@)),
            None => r.fields@ == seq![0u32, 0u32, 0u32] && r.raw@ == "0.0.0"@,
        },
{
    let v = str_chars(name);
    let text = match strip_prefix_exec(&v, "cuda-") {
        Some(rest) => string_from_chars(&rest),
        None => string_of(name),
    };
    match Version::parse(text.as_str()) {
        Ok(version) => version,
        Err(_) => {
            let mut fields: Vec<u32> = Vec::new();
            fields.push(0);
            fields.push(0);
            fields.push(0);
            assert(fields@ =~= seq![0u32, 0u32, 0u32]);
            Version { fields, raw: string_of("0.0.0") }
        },
    }
}

} // verus!
