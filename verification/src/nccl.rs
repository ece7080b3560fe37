//! NCCL pairing decisions: reading a redist archive's name, picking a listed
//! version, and refusing a build for another CUDA major. (NCCL is
//! BSD-licensed: there is no EULA gate.)
use vstd::prelude::*;
use vstd::string::*;

use crate::pick::{listed_pick, pick_listed_version};
use crate::text::{
    first_occurrence, first_occurrence_exec, occurs_at, parse_u32, str_chars, string_from_chars,
    string_of, strip_prefix, strip_prefix_exec, strip_suffix, strip_suffix_exec, sub_chars, trim,
    u32_decimal, decimal,
};
use crate::version::{parse_u32_chars, version_fields, Version};

verus! {

/// The version text and CUDA-major text of a standard redist archive name
/// `nccl_<ver>-<build>+cuda<major.minor>_<arch>.txz`.
pub open spec fn nccl_archive_parts(name: Seq<char>) -> Option<(Seq<char>, Seq<char>)> {
    match strip_prefix(name, "nccl_"@) {
        None => None,
        Some(a) => match strip_suffix(a, ".txz"@) {
            None => None,
            Some(stem) => match first_occurrence(stem, "+cuda"@) {
                None => None,
                Some(i) => {
                    let ver_build = stem.subrange(0, i);
                    let cuda_arch = stem.subrange(i + "+cuda"@.len(), stem.len() as int);
                    let ver = match first_occurrence(ver_build, "-"@) {
                        Some(j) => ver_build.subrange(0, j),
                        None => ver_build,
                    };
                    match first_occurrence(cuda_arch, "_"@) {
                        None => None,
                        Some(k) => {
                            let cuda = cuda_arch.subrange(0, k);
                            let major = match first_occurrence(cuda, "."@) {
                                Some(d) => cuda.subrange(0, d),
                                None => cuda,
                            };
                            Some((ver, major))
                        },
                    }
                },
            },
        },
    }
}

/// What an archive name gives: the version's fields and text, and the CUDA
/// major; `None` when the name has not the standard shape.
pub open spec fn nccl_archive(name: Seq<char>) -> Option<(Seq<u32>, Seq<char>, u32)> {
    match nccl_archive_parts(name) {
        None => None,
        Some((ver, major_text)) => match (parse_u32(major_text), version_fields(ver)) {
            (Some(major), Some(f)) => Some((f, trim(ver), major)),
            _ => None,
        },
    }
}

/// Parse `nccl_<ver>-<build>+cuda<MAJOR.MINOR>_<arch>.txz` into the version
/// and the CUDA major. The standard redist archive name is the only
/// user-supplied naming understood.
pub fn parse_nccl_archive_name(name: &str) -> (r: Option<(Version, u32)>)
    ensures
        match r {
            Some((v, major)) => nccl_archive(name@) == Some((v.fields@, v.raw@, major)),
            None => nccl_archive(name@) is None,
        },
{
    proof {
        reveal_strlit("+cuda");
    }
    let v = str_chars(name);
    let a = match strip_prefix_exec(&v, "nccl_") {
        Some(a) => a,
        None => return None,
    };
    let stem = match strip_suffix_exec(&a, ".txz") {
        Some(s) => s,
        None => return None,
    };
    let found = first_occurrence_exec(&stem, "+cuda");
    let i = match found {
        Some(i) => i,
        None => return None,
    };
    assert(occurs_at(stem@, "+cuda"@, i as int));
    let n = stem.len();
    let ver_build = sub_chars(&stem, 0, i);
    let cuda_arch = sub_chars(&stem, i + 5, n);
    let dash = first_occurrence_exec(&ver_build, "-");
    let ver = match dash {
        Some(j) => sub_chars(&ver_build, 0, j),
        None => ver_build,
    };
    let underscore = first_occurrence_exec(&cuda_arch, "_");
    let k = match underscore {
        Some(k) => k,
        None => return None,
    };
    let cuda = sub_chars(&cuda_arch, 0, k);
    let dot = first_occurrence_exec(&cuda, ".");
    let major_text = match dot {
        Some(d) => sub_chars(&cuda, 0, d),
        None => cuda,
    };
    let major = match parse_u32_chars(&major_text) {
        Some(m) => m,
        None => return None,
    };
    let ver_text = string_from_chars(&ver);
    match Version::parse(ver_text.as_str()) {
        Ok(version) => Some((version, major)),
        Err(_) => None,
    }
}

/// The newest listed NCCL matching `spec` (`latest` is the newest overall);
/// a spec matches by numeric fields, not as a string prefix.
pub fn pick_listed(available: &[Version], spec: &str) -> (r: Option<Version>)
    ensures
        listed_pick(available@, spec@, r),
{
    pick_listed_version(available, spec)
}

/// The refusal of an NCCL archive built for another CUDA major than the
/// toolkit's.
pub open spec fn nccl_major_refusal(
    name: Seq<char>,
    cuda_major: u32,
    handle: Seq<char>,
    toolkit_major: u32,
) -> Seq<char> {
    "NCCL archive `"@ + name + "` is built for CUDA "@ + decimal(cuda_major as nat) + ", but "@
        + handle + " is CUDA "@ + decimal(toolkit_major as nat)
}

/// NCCL builds are CUDA-major specific: refuse an archive built for another
/// major than the target toolkit's.
pub fn check_nccl_major(name: &str, cuda_major: u32, handle: &str, toolkit_major: u32) -> (r:
    Result<(), String>)
    ensures
        match r {
            Ok(()) => cuda_major == toolkit_major,
            Err(msg) => cuda_major != toolkit_major && msg@ == nccl_major_refusal(
                name@,
                cuda_major,
                handle@,
                toolkit_major,
            ),
        },
{
    if cuda_major == toolkit_major {
        return Ok(());
    }
    let mut m = string_of("NCCL archive `");
    m.append(name);
    m.append("` is built for CUDA ");
    let a = u32_decimal(cuda_major);
    m.append(a.as_str());
    m.append(", but ");
    m.append(handle);
    m.append(" is CUDA ");
    let b = u32_decimal(toolkit_major);
    m.append(b.as_str());
    Err(m)
}

/// A user-supplied NCCL archive for the toolkit `handle` of CUDA major
/// `toolkit_major`: its version and CUDA major from the standard file name,
/// refused when the name is not one or the build is for another major.
pub fn supplied_nccl(name: &str, handle: &str, toolkit_major: u32) -> (r: Result<(Version, u32), String>)
    ensures
        match nccl_archive(name@) {
            None => r matches Err(m) && m@ == "`"@ + name@
                + "` is not a standard NCCL redist archive name (expected nccl_<ver>-<build>+cuda<X.Y>_<arch>.txz)"@,
            Some((f, raw, major)) => if major == toolkit_major {
                r matches Ok((v, m)) && v.fields@ == f && v.raw@ == raw && m == major
            } else {
                r matches Err(m) && m@ == nccl_major_refusal(name@, major, handle@, toolkit_major)
            },
        },
{
    let (version, major) = match parse_nccl_archive_name(name) {
        Some(p) => p,
        None => {
            let mut m = string_of("`");
            m.append(name);
            m.append(
                "` is not a standard NCCL redist archive name (expected nccl_<ver>-<build>+cuda<X.Y>_<arch>.txz)",
            );
            return Err(m);
        },
    };
    match check_nccl_major(name, major, handle, toolkit_major) {
        Ok(()) => Ok((version, major)),
        Err(m) => Err(m),
    }
}

} // verus!
