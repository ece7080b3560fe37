//! `self update` decisions: the release asset for a host, the published
//! checksum of an archive, the latest release tag, and whether to update.
//!
//! The installed binary is never touched until a verified replacement is
//! staged; the downloading, extracting and swapping happen at the edges.
use vstd::prelude::*;
use vstd::string::*;
use vstd::utf8::{decode_utf8, valid_utf8};

use crate::text::{
    chars_eq, lines_exec, lines_of, parts_view, str_chars, str_eq, string_from_chars, string_of,
    trim_start_char, trim_start_char_exec, words, words_exec,
};
use crate::error::invalid_version_message;
use crate::version::{version_fields, version_order, Version};

verus! {

/// The release-asset platform tag for a host, from its OS and architecture
/// names as `std::env::consts` spells them.
pub open spec fn asset_for(os: Seq<char>, arch: Seq<char>) -> Option<Seq<char>> {
    if os == "linux"@ && arch == "x86_64"@ {
        Some("linux-amd64"@)
    } else if os == "linux"@ && arch == "aarch64"@ {
        Some("linux-arm64"@)
    } else if os == "windows"@ && arch == "x86_64"@ {
        Some("windows-amd64"@)
    } else {
        None
    }
}

/// The release-asset platform tag for a host; the error names the host and
/// the tags published.
pub fn asset_name(os: &str, arch: &str) -> (r: Result<String, String>)
    ensures
        match r {
            Ok(a) => asset_for(os@, arch@) == Some(a@),
            Err(m) => asset_for(os@, arch@) is None && m@ == "no prebuilt cuvm release for "@
                + os@ + "/"@ + arch@ + " (have: linux-amd64, linux-arm64, windows-amd64)"@,
        },
{
    if str_eq(os, "linux") && str_eq(arch, "x86_64") {
        Ok(string_of("linux-amd64"))
    } else if str_eq(os, "linux") && str_eq(arch, "aarch64") {
        Ok(string_of("linux-arm64"))
    } else if str_eq(os, "windows") && str_eq(arch, "x86_64") {
        Ok(string_of("windows-amd64"))
    } else {
        let mut m = string_of("no prebuilt cuvm release for ");
        m.append(os);
        m.append("/");
        m.append(arch);
        m.append(" (have: linux-amd64, linux-arm64, windows-amd64)");
        Err(m)
    }
}

/// The archive extension of a host's release asset.
pub fn archive_ext(windows: bool) -> (r: &'static str)
    ensures
        r@ == (if windows {
            "zip"@
        } else {
            "tar.gz"@
        }),
{
    if windows {
        "zip"
    } else {
        "tar.gz"
    }
}

/// `std::str::from_utf8`, the text as an owned string: `None` exactly when
/// the bytes are not valid UTF-8, else their decoding.
#[verifier::external_body]
fn utf8_text(bytes: &[u8]) -> (r: Option<String>)
    ensures
        match r {
            Some(s) => valid_utf8(bytes@) && s@ == decode_utf8(bytes@),
            None => !valid_utf8(bytes@),
        },
{
    match std::str::from_utf8(bytes) {
        Ok(s) => Some(s.to_string()),
        Err(_) => None,
    }
}

/// The checksum the first matching line of a `SHA256SUMS` body gives for
/// `archive`: a line whose second word, without leading `*`, is the archive
/// name, and whose first word is the checksum.
pub open spec fn sha_entry(lines: Seq<Seq<char>>, archive: Seq<char>) -> Option<Seq<char>>
    decreases lines.len(),
{
    if lines.len() == 0 {
        None
    } else {
        let w = words(lines[0]);
        if w.len() >= 2 && trim_start_char(w[1], '*') == archive {
            Some(w[0])
        } else {
            sha_entry(lines.drop_first(), archive)
        }
    }
}

/// Find the expected sha256 of `archive` in a `SHA256SUMS` body (lines of
/// `<hex>  <name>`, a leading `*` on the name tolerated).
pub fn sha_for(sums: &[u8], archive: &str) -> (r: Result<String, String>)
    ensures
        match r {
            Ok(h) => valid_utf8(sums@) && sha_entry(lines_of(decode_utf8(sums@)), archive@) == Some(
                h@,
            ),
            Err(m) => if valid_utf8(sums@) {
                sha_entry(lines_of(decode_utf8(sums@)), archive@) is None && m@
                    == "SHA256SUMS has no entry for "@ + archive@
            } else {
                m@ == "SHA256SUMS is not valid UTF-8"@
            },
        },
{
    let text = match utf8_text(sums) {
        Some(t) => t,
        None => return Err(string_of("SHA256SUMS is not valid UTF-8")),
    };
    let lines = lines_exec(&str_chars(text.as_str()));
    let ghost lv = parts_view(lines@);
    let want = str_chars(archive);
    let mut i: usize = 0;
    assert(lv.subrange(0, lv.len() as int) =~= lv);
    while i < lines.len()
        invariant
            i <= lines@.len(),
            lv == parts_view(lines@),
            lv == lines_of(decode_utf8(sums@)),
            valid_utf8(sums@),
            want@ == archive@,
            sha_entry(lv, archive@) == sha_entry(lv.subrange(i as int, lv.len() as int), archive@),
        decreases lines.len() - i,
    {
        let ws = words_exec(&lines[i]);
        let ghost rest = lv.subrange(i as int, lv.len() as int);
        assert(rest[0] == lines@[i as int]@);
        assert(rest.drop_first() =~= lv.subrange(i + 1, lv.len() as int));
        if ws.len() >= 2 {
            let name = trim_start_char_exec(&ws[1], '*');
            assert(ws@[1]@ == words(rest[0])[1]);
            if chars_eq(&name, &want) {
                assert(ws@[0]@ == words(rest[0])[0]);
                return Ok(string_from_chars(&ws[0]));
            }
        }
        i = i + 1;
    }
    let mut m = string_of("SHA256SUMS has no entry for ");
    m.append(archive);
    Err(m)
}

/// A release tag or requested version without its leading `v`s.
pub fn strip_v(tag: &str) -> (r: String)
    ensures
        r@ == trim_start_char(tag@, 'v'),
{
    string_from_chars(&trim_start_char_exec(&str_chars(tag), 'v'))
}

/// What a JSON document gives for `key`: `None` when the bytes are not JSON,
/// `Some(None)` when the document has no string under `key` at its top level,
/// else `Some(Some(text))`.
pub uninterp spec fn json_string_field_of(body: Seq<u8>, key: Seq<char>) -> Option<Option<Seq<char>>>;

/// The character view of a nested optional string.
pub open spec fn opt_opt_view(o: Option<Option<String>>) -> Option<Option<Seq<char>>> {
    match o {
        None => None,
        Some(None) => Some(None),
        Some(Some(s)) => Some(Some(s@)),
    }
}

/// `serde_json::from_slice` into a `serde_json::Value`, then `Value::get` of
/// `key` and `Value::as_str`: the parse outcome and the string found, as the
/// name above gives them for these bytes and this key.
#[verifier::external_body]
fn json_string_field(body: &[u8], key: &str) -> (r: Option<Option<String>>)
    ensures
        opt_opt_view(r) == json_string_field_of(body@, key@),
{
    match serde_json::from_slice::<serde_json::Value>(body) {
        Err(_) => None,
        Ok(v) => Some(v.get(key).and_then(serde_json::Value::as_str).map(|t| t.to_string())),
    }
}

/// The version a release document's `tag_name` names, from what the JSON
/// reader found: its leading `v`s removed; an error when the document did not
/// parse or carries no string `tag_name`.
pub fn tag_from_field(field: Option<Option<String>>) -> (r: Result<String, String>)
    ensures
        match opt_opt_view(field) {
            None => r matches Err(m) && m@ == "parsing the GitHub release JSON"@,
            Some(None) => r matches Err(m) && m@ == "the GitHub release JSON has no `tag_name`"@,
            Some(Some(t)) => r matches Ok(v) && v@ == trim_start_char(t, 'v'),
        },
{
    match field {
        None => Err(string_of("parsing the GitHub release JSON")),
        Some(None) => Err(string_of("the GitHub release JSON has no `tag_name`")),
        Some(Some(t)) => Ok(strip_v(t.as_str())),
    }
}

/// The latest release's version from the body of the GitHub "latest
/// release" document.
pub fn latest_tag(body: &[u8]) -> (r: Result<String, String>)
    ensures
        match json_string_field_of(body@, "tag_name"@) {
            None => r matches Err(m) && m@ == "parsing the GitHub release JSON"@,
            Some(None) => r matches Err(m) && m@ == "the GitHub release JSON has no `tag_name`"@,
            Some(Some(t)) => r matches Ok(v) && v@ == trim_start_char(t, 'v'),
        },
{
    let field = json_string_field(body, "tag_name");
    tag_from_field(field)
}

/// What `self update` does once the target version is known.
pub enum UpdatePlan {
    /// Nothing to download: print `message` and succeed.
    Report { message: String },
    /// Download the checksums and the archive, verify, and swap the binary.
    Fetch {
        target: String,
        stage: String,
        archive: String,
        sums_url: String,
        archive_url: String,
    },
}

/// Whether `target` is a newer version than `current` (both parse).
pub open spec fn is_newer(current: Seq<char>, target: Seq<char>) -> bool {
    version_order(version_fields(target).unwrap(), version_fields(current).unwrap()) > 0
}

/// The line `self update` prints instead of updating, if it does not update.
/// `explicit` is whether the target was asked for rather than the latest.
pub open spec fn report_message(
    current: Seq<char>,
    target: Seq<char>,
    explicit: bool,
    check: bool,
    force: bool,
    newer: bool,
) -> Option<Seq<char>> {
    if check {
        if newer {
            Some("cuvm "@ + current + " \u{2192} "@ + target + " available (run `cuvm self update`)"@)
        } else if explicit {
            Some("cuvm "@ + current + " is already at or ahead of "@ + target)
        } else {
            Some("cuvm "@ + current + " is up to date (latest "@ + target + ")"@)
        }
    } else if !newer && !force {
        if explicit {
            Some("cuvm "@ + current + " is already at or ahead of "@ + target
                + "; pass --force to reinstall or downgrade"@)
        } else {
            Some("cuvm "@ + current + " is already up to date (latest "@ + target + ")"@)
        }
    } else {
        None
    }
}

/// What `self update` does, by its flags: `--check` only reports; without
/// it, a newer target or `--force` fetches the release (whether or not the
/// version was named), and only a target no newer than the running version,
/// without `--force`, is reported instead.
pub proof fn lemma_update_fetches_when_newer_or_forced(
    current: Seq<char>,
    target: Seq<char>,
    explicit: bool,
    check: bool,
    force: bool,
    newer: bool,
)
    ensures
        check ==> report_message(current, target, explicit, check, force, newer) is Some,
        !check && (newer || force) ==> report_message(
            current,
            target,
            explicit,
            check,
            force,
            newer,
        ) is None,
        !check && !newer && !force ==> report_message(
            current,
            target,
            explicit,
            check,
            force,
            newer,
        ) is Some,
{
}

/// The staged directory name of a release: `cuvm-<target>-<asset>`.
pub open spec fn stage_name(target: Seq<char>, asset: Seq<char>) -> Seq<char> {
    "cuvm-"@ + target + "-"@ + asset
}

/// The archive file of a release.
pub open spec fn archive_name(target: Seq<char>, asset: Seq<char>, windows: bool) -> Seq<char> {
    stage_name(target, asset) + "."@ + (if windows {
        "zip"@
    } else {
        "tar.gz"@
    })
}

/// A file of release `v<target>` under the download base.
pub open spec fn release_file_url(base: Seq<char>, target: Seq<char>, file: Seq<char>) -> Seq<char> {
    base + "/v"@ + target + "/"@ + file
}

/// Decide what `self update` does: the running version `current`, the
/// target version (asked for when `explicit`, else the latest release), the
/// host's asset tag and archive kind, and the release download base.
pub fn plan_update(
    current: &str,
    target: &str,
    explicit: bool,
    check: bool,
    force: bool,
    asset: &str,
    windows: bool,
    download_base: &str,
) -> (r: Result<UpdatePlan, String>)
    ensures
        version_fields(current@) is None ==> (r matches Err(m) && m@
            == "parsing the running cuvm version: "@ + invalid_version_message(current@)),
        version_fields(current@) is Some && version_fields(target@) is Some && !check && (force
            || is_newer(current@, target@)) ==> r matches Ok(UpdatePlan::Fetch { .. }),
        version_fields(current@) is Some && version_fields(target@) is Some && (check || (!force
            && !is_newer(current@, target@))) ==> r matches Ok(UpdatePlan::Report { .. }),
        version_fields(current@) is Some && version_fields(target@) is None ==> (r matches Err(m)
            && m@ == "parsing target version `"@ + target@ + "`: "@ + invalid_version_message(
            target@,
        )),
        version_fields(current@) is Some && version_fields(target@) is Some ==> match r {
            Ok(UpdatePlan::Report { message }) => report_message(
                current@,
                target@,
                explicit,
                check,
                force,
                is_newer(current@, target@),
            ) == Some(message@),
            Ok(UpdatePlan::Fetch { target: t, stage, archive, sums_url, archive_url }) => {
                &&& report_message(
                    current@,
                    target@,
                    explicit,
                    check,
                    force,
                    is_newer(current@, target@),
                ) is None
                &&& t@ == target@
                &&& stage@ == stage_name(target@, asset@)
                &&& archive@ == archive_name(target@, asset@, windows)
                &&& sums_url@ == release_file_url(download_base@, target@, "SHA256SUMS"@)
                &&& archive_url@ == release_file_url(
                    download_base@,
                    target@,
                    archive_name(target@, asset@, windows),
                )
            },
            Err(_) => false,
        },
{
    let cur = match Version::parse(current) {
        Ok(v) => v,
        Err(e) => {
            let mut m = string_of("parsing the running cuvm version: ");
            let cause = e.to_string();
            m.append(cause.as_str());
            return Err(m);
        },
    };
    let tgt = match Version::parse(target) {
        Ok(v) => v,
        Err(e) => {
            let mut m = string_of("parsing target version `");
            m.append(target);
            m.append("`: ");
            let cause = e.to_string();
            m.append(cause.as_str());
            return Err(m);
        },
    };
    let newer = tgt.compare_to(&cur) > 0;
    if check || (!newer && !force) {
        let mut m = string_of("cuvm ");
        m.append(current);
        if check && newer {
            m.append(" \u{2192} ");
            m.append(target);
            m.append(" available (run `cuvm self update`)");
        } else if check && explicit {
            m.append(" is already at or ahead of ");
            m.append(target);
        } else if check {
            m.append(" is up to date (latest ");
            m.append(target);
            m.append(")");
        } else if explicit {
            m.append(" is already at or ahead of ");
            m.append(target);
            m.append("; pass --force to reinstall or downgrade");
        } else {
            m.append(" is already up to date (latest ");
            m.append(target);
            m.append(")");
        }
        return Ok(UpdatePlan::Report { message: m });
    }
    let mut stage = string_of("cuvm-");
    stage.append(target);
    stage.append("-");
    stage.append(asset);
    let mut archive = stage.clone();
    archive.append(".");
    archive.append(archive_ext(windows));
    let mut dir = string_of(download_base);
    dir.append("/v");
    dir.append(target);
    dir.append("/");
    let mut sums_url = dir.clone();
    sums_url.append("SHA256SUMS");
    let mut archive_url = dir;
    archive_url.append(archive.as_str());
    Ok(UpdatePlan::Fetch { target: string_of(target), stage, archive, sums_url, archive_url })
}

} // verus!
