//! cuDNN pairing decisions: the EULA gate, reading a redist archive's name,
//! picking a listed version, and choosing the installed toolkit to pair with.
use vstd::prelude::*;
use vstd::string::*;

use crate::domain::Source;
use crate::manifest::BundleRecord;
use crate::pick::{lemma_listed_pick_view, listed_pick, listed_pick_view, pick_listed_version};
use crate::compat_tables::vv;
use crate::error::invalid_version_message;
use crate::ports::{CompatEngine, VerdictView};
use crate::text::{
    decimal, ends_with, find_last_from, is_digit, last_occurrence, lemma_decimal_digits,
    lemma_parse_decimal, last_occurrence_exec, lemma_split_nonempty, occurs_at,
    parse_u32, split,
    split_chars, str_chars, str_eq, string_from_chars, string_of, strip_suffix, strip_suffix_exec,
    sub_chars, trim,
};
use crate::version::{has_prefix, has_prefix_exec, parse_u32_chars, version_fields, Version};

verus! {

/// What the EULA gate decided.
#[derive(Debug, PartialEq, Eq)]
pub enum EulaDecision {
    /// Go ahead; `record` is true when this run is the acceptance moment.
    Proceed { record: bool },
    /// Do not download; the reason is user-facing.
    Refused { reason: String },
}

/// Why the EULA step refuses.
pub open spec fn eula_refusal() -> Seq<char> {
    "the NVIDIA cuDNN EULA has not been accepted (cuvm never downloads silently); re-run with --accept-eula, or run interactively to accept once"@
}

/// The EULA gate: a recorded acceptance, `--accept-eula`, or an interactive
/// yes. `ask` is consulted only when interactive and nothing else already
/// decided.
pub fn eula_gate<F: FnOnce() -> bool>(
    already_accepted: bool,
    accept_flag: bool,
    interactive: bool,
    ask: F,
) -> (r: EulaDecision)
    requires
        !already_accepted && !accept_flag && interactive ==> call_requires(ask, ()),
    ensures
        already_accepted ==> r == (EulaDecision::Proceed { record: false }),
        !already_accepted && accept_flag ==> r == (EulaDecision::Proceed { record: true }),
        !already_accepted && !accept_flag && !interactive ==> (r matches EulaDecision::Refused {
            reason,
        } && reason@ == eula_refusal()),
        !already_accepted && !accept_flag && interactive ==> exists|yes: bool|
            call_ensures(ask, (), yes) && (if yes {
                r == (EulaDecision::Proceed { record: true })
            } else {
                r matches EulaDecision::Refused { reason } && reason@ == eula_refusal()
            }),
{
    if already_accepted {
        return EulaDecision::Proceed { record: false };
    }
    if accept_flag {
        return EulaDecision::Proceed { record: true };
    }
    if interactive {
        let yes = ask();
        if yes {
            return EulaDecision::Proceed { record: true };
        }
    }
    EulaDecision::Refused {
        reason: string_of(
            "the NVIDIA cuDNN EULA has not been accepted (cuvm never downloads silently); re-run with --accept-eula, or run interactively to accept once",
        ),
    }
}

/// The version text and CUDA-major text of a standard redist archive name
/// `cudnn-<platform>-<version>_cuda<major>-archive.{tar.xz,zip}`.
pub open spec fn cudnn_archive_parts(name: Seq<char>) -> Option<(Seq<char>, Seq<char>)> {
    let stem0 = match strip_suffix(name, ".tar.xz"@) {
        Some(s) => Some(s),
        None => strip_suffix(name, ".zip"@),
    };
    match stem0 {
        None => None,
        Some(s0) => match strip_suffix(s0, "-archive"@) {
            None => None,
            Some(stem) => match last_occurrence(stem, "_cuda"@) {
                None => None,
                Some(i) => {
                    let rest = stem.subrange(0, i);
                    let cuda = stem.subrange(i + "_cuda"@.len(), stem.len() as int);
                    match last_occurrence(rest, "-"@) {
                        None => None,
                        Some(j) => Some((rest.subrange(j + 1, rest.len() as int), cuda)),
                    }
                },
            },
        },
    }
}

/// What an archive name gives: the version's fields and text, and the CUDA
/// major; `None` when the name has not the standard shape.
pub open spec fn cudnn_archive(name: Seq<char>) -> Option<(Seq<u32>, Seq<char>, u32)> {
    match cudnn_archive_parts(name) {
        None => None,
        Some((ver, cuda)) => match (parse_u32(cuda), version_fields(ver)) {
            (Some(major), Some(f)) => Some((f, trim(ver), major)),
            _ => None,
        },
    }
}

/// `p` occurs last at or before `i` at `k` when it occurs at `k` and at no
/// position after `k` up to `i`.
proof fn lemma_find_last_at(s: Seq<char>, p: Seq<char>, i: int, k: int)
    requires
        0 <= k <= i,
        occurs_at(s, p, k),
        forall|j: int| k < j <= i ==> !#[trigger] occurs_at(s, p, j),
    ensures
        find_last_from(s, p, i) == Some(k),
    decreases i - k,
{
    if i > k {
        lemma_find_last_at(s, p, i - 1, k);
    }
}

/// An archive name built from its parts reads back as them: for
/// `cudnn-<platform>-<ver>_cuda<cuda>-archive<ext>`, with `ext` one of
/// `.tar.xz` and `.zip`, `ver` without `-` and `cuda` without `_`, the
/// version text is `ver` and the CUDA-major text `cuda`.
pub proof fn lemma_archive_name_round_trip(
    platform: Seq<char>,
    ver: Seq<char>,
    cuda: Seq<char>,
    ext: Seq<char>,
)
    requires
        ext == ".tar.xz"@ || ext == ".zip"@,
        forall|i: int| 0 <= i < ver.len() ==> #[trigger] ver[i] != '-',
        forall|i: int| 0 <= i < cuda.len() ==> #[trigger] cuda[i] != '_',
    ensures
        cudnn_archive_parts(
            "cudnn-"@ + platform + "-"@ + ver + "_cuda"@ + cuda + "-archive"@ + ext,
        ) == Some((ver, cuda)),
        cudnn_archive("cudnn-"@ + platform + "-"@ + ver + "_cuda"@ + cuda + "-archive"@ + ext)
            == match (parse_u32(cuda), version_fields(ver)) {
            (Some(major), Some(f)) => Some((f, trim(ver), major)),
            _ => None,
        },
{
    reveal_strlit("cudnn-");
    reveal_strlit("-");
    reveal_strlit("_cuda");
    reveal_strlit("-archive");
    reveal_strlit(".tar.xz");
    reveal_strlit(".zip");
    let pre = "cudnn-"@ + platform + "-"@ + ver;
    let stem = pre + "_cuda"@ + cuda;
    let stem0 = stem + "-archive"@;
    let name = stem0 + ext;
    assert("cudnn-"@ + platform + "-"@ + ver + "_cuda"@ + cuda + "-archive"@ + ext =~= name);
    // The extension.
    if ext == ".tar.xz"@ {
        assert(name.subrange(name.len() - 7, name.len() as int) =~= ".tar.xz"@);
        assert(name.subrange(0, name.len() - 7) =~= stem0);
        assert(strip_suffix(name, ".tar.xz"@) == Some(stem0));
    } else {
        assert(name[name.len() - 1] == 'p');
        if ends_with(name, ".tar.xz"@) {
            assert(name.subrange(name.len() - 7, name.len() as int)[6] == name[name.len() - 1]);
        }
        assert(strip_suffix(name, ".tar.xz"@) is None);
        assert(name.subrange(name.len() - 4, name.len() as int) =~= ".zip"@);
        assert(name.subrange(0, name.len() - 4) =~= stem0);
        assert(strip_suffix(name, ".zip"@) == Some(stem0));
    }
    // The `-archive` suffix.
    assert(stem0.subrange(stem0.len() - 8, stem0.len() as int) =~= "-archive"@);
    assert(stem0.subrange(0, stem0.len() - 8) =~= stem);
    assert(strip_suffix(stem0, "-archive"@) == Some(stem));
    // The last `_cuda`.
    let k = pre.len() as int;
    assert(stem.subrange(k, k + 5) =~= "_cuda"@);
    assert forall|j: int| k < j <= stem.len() - 5 implies !#[trigger] occurs_at(stem, "_cuda"@, j) by {
        if occurs_at(stem, "_cuda"@, j) {
            assert(stem.subrange(j, j + 5)[0] == stem[j]);
            if j < k + 5 {
                assert(stem[j] == "_cuda"@[j - k]);
            } else {
                assert(stem[j] == cuda[j - k - 5]);
            }
        }
    }
    lemma_find_last_at(stem, "_cuda"@, stem.len() - 5, k);
    assert(stem.subrange(0, k) =~= pre);
    assert(stem.subrange(k + 5, stem.len() as int) =~= cuda);
    // The last `-` before the version.
    let d = pre.len() - ver.len() - 1;
    assert(pre.subrange(d, d + 1) =~= "-"@);
    assert forall|j: int| d < j <= pre.len() - 1 implies !#[trigger] occurs_at(pre, "-"@, j) by {
        if occurs_at(pre, "-"@, j) {
            assert(pre.subrange(j, j + 1)[0] == pre[j]);
            assert(pre[j] == ver[j - d - 1]);
        }
    }
    lemma_find_last_at(pre, "-"@, pre.len() - 1, d);
    assert(pre.subrange(d + 1, pre.len() as int) =~= ver);
}

/// The archive name of a version and a numeric CUDA major reads back as
/// them: `cudnn-<platform>-<ver>_cuda<major>-archive<ext>`, with `ext` one of
/// `.tar.xz` and `.zip` and `ver` a version without `-`, gives the version's
/// fields, its trimmed text and `major`.
pub proof fn lemma_archive_name_round_trip_major(
    platform: Seq<char>,
    ver: Seq<char>,
    major: u32,
    ext: Seq<char>,
)
    requires
        ext == ".tar.xz"@ || ext == ".zip"@,
        forall|i: int| 0 <= i < ver.len() ==> #[trigger] ver[i] != '-',
        version_fields(ver) is Some,
    ensures
        cudnn_archive(
            "cudnn-"@ + platform + "-"@ + ver + "_cuda"@ + decimal(major as nat) + "-archive"@ + ext,
        ) == Some((version_fields(ver).unwrap(), trim(ver), major)),
{
    let cuda = decimal(major as nat);
    lemma_decimal_digits(major as nat);
    lemma_parse_decimal(major);
    assert forall|i: int| 0 <= i < cuda.len() implies #[trigger] cuda[i] != '_' by {
        assert(is_digit(cuda[i]));
    }
    lemma_archive_name_round_trip(platform, ver, cuda, ext);
}

/// Parse `cudnn-<platform>-<version>_cuda<major>-archive.<ext>` into the
/// version and the CUDA major. The standard redist archive name is the only
/// user-supplied naming understood (it carries the pairing facts).
pub fn parse_cudnn_archive_name(name: &str) -> (r: Option<(Version, u32)>)
    ensures
        match r {
            Some((v, major)) => cudnn_archive(name@) == Some((v.fields@, v.raw@, major)),
            None => cudnn_archive(name@) is None,
        },
{
    proof {
        reveal_strlit("_cuda");
    }
    let v = str_chars(name);
    let stem0 = match strip_suffix_exec(&v, ".tar.xz") {
        Some(s) => s,
        None => match strip_suffix_exec(&v, ".zip") {
            Some(s) => s,
            None => return None,
        },
    };
    let stem = match strip_suffix_exec(&stem0, "-archive") {
        Some(s) => s,
        None => return None,
    };
    let found = last_occurrence_exec(&stem, "_cuda");
    let i = match found {
        Some(i) => i,
        None => return None,
    };
    assert(occurs_at(stem@, "_cuda"@, i as int));
    proof {
        reveal_strlit("-");
        assert("_cuda"@.len() == 5);
        assert("-"@.len() == 1);
    }
    let n = stem.len();
    let rest = sub_chars(&stem, 0, i);
    let cuda = sub_chars(&stem, i + 5, n);
    let found_dash = last_occurrence_exec(&rest, "-");
    let j = match found_dash {
        Some(j) => j,
        None => return None,
    };
    assert(occurs_at(rest@, "-"@, j as int));
    let rn = rest.len();
    let ver = sub_chars(&rest, j + 1, rn);
    let major = match parse_u32_chars(&cuda) {
        Some(m) => m,
        None => return None,
    };
    let ver_text = string_from_chars(&ver);
    match Version::parse(ver_text.as_str()) {
        Ok(version) => Some((version, major)),
        Err(_) => None,
    }
}

/// The newest listed cuDNN matching `spec` (`latest` is the newest overall);
/// of equal newest ones the last listed.
pub fn pick_listed(available: &[Version], spec: &str) -> (r: Option<Version>)
    ensures
        listed_pick(available@, spec@, r),
{
    pick_listed_version(available, spec)
}

/// The installed toolkit a cuDNN (or NCCL) is paired with.
pub struct Target {
    /// Manifest handle (the bundle's `version` string).
    pub handle: String,
    /// Absolute toolkit root the libraries are linked into.
    pub root: String,
    /// How the toolkit got here (adopted ones are refused).
    pub source: Source,
    /// Parsed toolkit version (drives pairing and `cuda_major`).
    pub toolkit_version: Version,
}

/// Why no pairing target was chosen.
#[derive(Debug, Clone, PartialEq, Eq)]
pub enum TargetError {
    /// No installed toolkit matches the spec.
    NoMatch { spec: String },
    /// The match is adopted in place, which is never modified.
    Adopted { handle: String },
    /// The matching manifest handle is not a version; `cause` is the parse
    /// error's message.
    NotAVersion { handle: String, cause: String },
}

impl TargetError {
    /// The user-facing message.
    pub fn to_string(&self) -> (r: String)
        ensures
            r@ == match *self {
                TargetError::NoMatch { spec } => "no installed toolkit matches `"@ + spec@
                    + "`; run `cuvm ls`"@,
                TargetError::Adopted { handle } => handle@
                    + " is adopted in place; cuvm never modifies adopted installs (ADR-005). Install the toolkit with `cuvm install "@
                    + handle@ + "` first."@,
                TargetError::NotAVersion { handle, cause } => "manifest handle `"@ + handle@
                    + "` is not a version: "@ + cause@,
            },
    {
        match self {
            TargetError::NoMatch { spec } => {
                let mut m = string_of("no installed toolkit matches `");
                m.append(spec.as_str());
                m.append("`; run `cuvm ls`");
                m
            },
            TargetError::Adopted { handle } => {
                let mut m = handle.clone();
                m.append(
                    " is adopted in place; cuvm never modifies adopted installs (ADR-005). Install the toolkit with `cuvm install ",
                );
                m.append(handle.as_str());
                m.append("` first.");
                m
            },
            TargetError::NotAVersion { handle, cause } => {
                let mut m = string_of("manifest handle `");
                m.append(handle.as_str());
                m.append("` is not a version: ");
                m.append(cause.as_str());
                m
            },
        }
    }
}

/// A manifest record matches a `--for` spec: its handle equals the spec, or
/// both are versions and the spec's fields begin the record's.
pub open spec fn target_matches(handle: Seq<char>, spec: Seq<char>) -> bool {
    handle == spec || match (version_fields(handle), version_fields(spec)) {
        (Some(h), Some(s)) => has_prefix(h, s),
        _ => false,
    }
}

/// `a` before `b` in `Vec<u32>`'s derived order: lexicographic, a proper
/// prefix first.
pub open spec fn lex_less(a: Seq<u32>, b: Seq<u32>) -> bool
    decreases a.len(),
{
    if a.len() == 0 {
        b.len() > 0
    } else if b.len() == 0 {
        false
    } else if a[0] != b[0] {
        a[0] < b[0]
    } else {
        lex_less(a.drop_first(), b.drop_first())
    }
}

/// `Option<Vec<u32>>`'s derived order: `None` first.
pub open spec fn key_less(a: Option<Seq<u32>>, b: Option<Seq<u32>>) -> bool {
    match (a, b) {
        (None, Some(_)) => true,
        (Some(x), Some(y)) => lex_less(x, y),
        _ => false,
    }
}

/// The ranking key of a manifest handle: its parsed fields, if any.
pub open spec fn handle_key(handle: Seq<char>) -> Option<Seq<u32>> {
    version_fields(handle)
}

/// Record `i` is the one `--for spec` picks: it matches, no matching record
/// ranks above it, and no later matching record ranks equal (the last of the
/// top-ranked counts, as `max_by_key` has it).
pub open spec fn is_target_record(recs: Seq<BundleRecord>, spec: Seq<char>, i: int) -> bool {
    &&& 0 <= i < recs.len()
    &&& target_matches(recs[i].version@, spec)
    &&& forall|j: int|
        0 <= j < recs.len() && #[trigger] target_matches(recs[j].version@, spec) ==> !key_less(
            handle_key(recs[i].version@),
            handle_key(recs[j].version@),
        )
    &&& forall|j: int|
        i < j < recs.len() && #[trigger] target_matches(recs[j].version@, spec) ==> key_less(
            handle_key(recs[j].version@),
            handle_key(recs[i].version@),
        )
}

proof fn lemma_lex_total(a: Seq<u32>, b: Seq<u32>)
    ensures
        !lex_less(a, b) && !lex_less(b, a) ==> a == b,
        !(lex_less(a, b) && lex_less(b, a)),
    decreases a.len(),
{
    if a.len() > 0 && b.len() > 0 && a[0] == b[0] {
        lemma_lex_total(a.drop_first(), b.drop_first());
        if !lex_less(a, b) && !lex_less(b, a) {
            assert(a =~= seq![a[0]] + a.drop_first());
            assert(b =~= seq![b[0]] + b.drop_first());
        }
    }
}

proof fn lemma_lex_trans(a: Seq<u32>, b: Seq<u32>, c: Seq<u32>)
    requires
        lex_less(a, b),
        lex_less(b, c),
    ensures
        lex_less(a, c),
    decreases a.len(),
{
    if a.len() > 0 && b.len() > 0 && c.len() > 0 && a[0] == b[0] && b[0] == c[0] {
        lemma_lex_trans(a.drop_first(), b.drop_first(), c.drop_first());
    }
}

proof fn lemma_key_total(a: Option<Seq<u32>>, b: Option<Seq<u32>>)
    ensures
        !key_less(a, b) && !key_less(b, a) ==> a == b,
        !(key_less(a, b) && key_less(b, a)),
{
    match (a, b) {
        (Some(x), Some(y)) => lemma_lex_total(x, y),
        _ => {},
    }
}

proof fn lemma_key_trans(a: Option<Seq<u32>>, b: Option<Seq<u32>>, c: Option<Seq<u32>>)
    requires
        key_less(a, b),
        key_less(b, c),
    ensures
        key_less(a, c),
{
    match (a, b, c) {
        (Some(x), Some(y), Some(z)) => lemma_lex_trans(x, y, z),
        _ => {},
    }
}

/// Whether `a` comes before `b` in `Vec<u32>`'s derived order.
fn lex_less_exec(a: &Vec<u32>, b: &Vec<u32>) -> (r: bool)
    ensures
        r == lex_less(a@, b@),
{
    let mut i: usize = 0;
    assert(a@.subrange(0, a@.len() as int) =~= a@);
    assert(b@.subrange(0, b@.len() as int) =~= b@);
    while i < a.len() && i < b.len() && a[i] == b[i]
        invariant
            i <= a@.len(),
            i <= b@.len(),
            lex_less(a@, b@) == lex_less(a@.subrange(i as int, a@.len() as int), b@.subrange(i as int, b@.len() as int)),
        decreases a.len() - i,
    {
        proof {
            let x = a@.subrange(i as int, a@.len() as int);
            let y = b@.subrange(i as int, b@.len() as int);
            assert(x.drop_first() =~= a@.subrange(i + 1, a@.len() as int));
            assert(y.drop_first() =~= b@.subrange(i + 1, b@.len() as int));
        }
        i = i + 1;
    }
    let ghost x = a@.subrange(i as int, a@.len() as int);
    let ghost y = b@.subrange(i as int, b@.len() as int);
    if i == a.len() {
        i < b.len()
    } else if i == b.len() {
        false
    } else {
        assert(x[0] == a@[i as int] && y[0] == b@[i as int]);
        a[i] < b[i]
    }
}

fn key_of(handle: &str) -> (r: Option<Vec<u32>>)
    ensures
        match r {
            Some(f) => handle_key(handle@) == Some(f@),
            None => handle_key(handle@) is None,
        },
{
    match Version::parse(handle) {
        Ok(v) => Some(v.fields),
        Err(_) => None,
    }
}

fn key_less_exec(a: &Option<Vec<u32>>, b: &Option<Vec<u32>>) -> (r: bool)
    ensures
        r == key_less(
            match a {
                Some(x) => Some(x@),
                None => None,
            },
            match b {
                Some(x) => Some(x@),
                None => None,
            },
        ),
{
    match (a, b) {
        (None, Some(_)) => true,
        (Some(x), Some(y)) => lex_less_exec(x, y),
        _ => false,
    }
}

fn target_matches_exec(handle: &str, spec: &str) -> (r: bool)
    ensures
        r == target_matches(handle@, spec@),
{
    if str_eq(handle, spec) {
        return true;
    }
    match (Version::parse(handle), Version::parse(spec)) {
        (Ok(h), Ok(s)) => has_prefix_exec(&h.fields, &s.fields),
        _ => false,
    }
}

/// Choose the installed toolkit `--for spec` names: the handle equal to the
/// spec, or one the spec's fields begin; the newest of them by parsed fields
/// (compared as `Vec<u32>`), the last of equal ones. An adopted match is
/// refused, as is a handle that is not a version. Returns the record's index
/// and its parsed version.
pub fn select_target(records: &Vec<BundleRecord>, spec: &str) -> (r: Result<(usize, Version), TargetError>)
    ensures
        match r {
            Ok((i, v)) => is_target_record(records@, spec@, i as int) && records@[i as int].source
                != Source::Adopted && version_fields(records@[i as int].version@) == Some(v.fields@)
                && v.raw@ == trim(records@[i as int].version@),
            Err(TargetError::NoMatch { spec: s }) => s@ == spec@ && forall|j: int|
                0 <= j < records@.len() ==> !#[trigger] target_matches(records@[j].version@, spec@),
            Err(TargetError::Adopted { handle }) => exists|i: int|
                #[trigger] is_target_record(records@, spec@, i) && records@[i].source
                    == Source::Adopted && handle@ == records@[i].version@,
            Err(TargetError::NotAVersion { handle, cause }) => exists|i: int|
                #[trigger] is_target_record(records@, spec@, i) && records@[i].source
                    != Source::Adopted && handle@ == records@[i].version@ && version_fields(
                    handle@,
                ) is None && cause@ == invalid_version_message(handle@),
        },
{
    let mut best: Option<usize> = None;
    let mut best_key: Option<Vec<u32>> = None;
    let mut i: usize = 0;
    while i < records.len()
        invariant
            i <= records@.len(),
            match best {
                None => forall|j: int|
                    0 <= j < i ==> !#[trigger] target_matches(records@[j].version@, spec@),
                Some(b) => {
                    &&& b < i
                    &&& target_matches(records@[b as int].version@, spec@)
                    &&& (match best_key {
                        Some(x) => Some(x@),
                        None => None,
                    }) == handle_key(records@[b as int].version@)
                    &&& forall|j: int|
                        0 <= j < i && #[trigger] target_matches(records@[j].version@, spec@)
                            ==> !key_less(
                            handle_key(records@[b as int].version@),
                            handle_key(records@[j].version@),
                        )
                    &&& forall|j: int|
                        b < j < i && #[trigger] target_matches(records@[j].version@, spec@)
                            ==> key_less(
                            handle_key(records@[j].version@),
                            handle_key(records@[b as int].version@),
                        )
                },
            },
        decreases records.len() - i,
    {
        let h = records[i].version.as_str();
        let m = target_matches_exec(h, spec);
        assert(m == target_matches(records@[i as int].version@, spec@));
        if m {
            let k = key_of(h);
            let replace = match best {
                None => true,
                Some(_) => !key_less_exec(&k, &best_key),
            };
            if replace {
                proof {
                    let ki = handle_key(records@[i as int].version@);
                    if let Some(b) = best {
                        let kb = handle_key(records@[b as int].version@);
                        lemma_key_total(ki, kb);
                        assert forall|j: int|
                            0 <= j < i && #[trigger] target_matches(records@[j].version@, spec@)
                                implies !key_less(ki, handle_key(records@[j].version@)) by {
                            let kj = handle_key(records@[j].version@);
                            if key_less(ki, kj) {
                                if key_less(kb, ki) {
                                    lemma_key_trans(kb, ki, kj);
                                } else {
                                    assert(ki == kb);
                                }
                            }
                        }
                    }
                    lemma_key_total(ki, ki);
                }
                best = Some(i);
                best_key = k;
            } else {
                proof {
                    if let Some(b) = best {
                        lemma_key_total(
                            handle_key(records@[i as int].version@),
                            handle_key(records@[b as int].version@),
                        );
                    }
                }
            }
        }
        i = i + 1;
    }
    let b = match best {
        Some(b) => b,
        None => {
            return Err(TargetError::NoMatch { spec: string_of(spec) });
        },
    };
    assert(is_target_record(records@, spec@, b as int));
    let rec = &records[b];
    if rec.source == Source::Adopted {
        return Err(TargetError::Adopted { handle: rec.version.clone() });
    }
    match Version::parse(rec.version.as_str()) {
        Ok(v) => Ok((b, v)),
        Err(e) => Err(TargetError::NotAVersion { handle: rec.version.clone(), cause: e.to_string() }),
    }
}

/// The file name of a redist artifact: the last `/`-separated piece of its
/// relative path.
pub fn artifact_file_name(relative_path: &str) -> (r: String)
    ensures
        r@ == split(relative_path@, '/').last(),
{
    let parts = split_chars(&str_chars(relative_path), '/');
    proof {
        lemma_split_nonempty(relative_path@, '/');
    }
    let last = parts.len() - 1;
    string_from_chars(&parts[last])
}

/// The message when no cuDNN matches a pick spec.
pub open spec fn no_cudnn_message(spec: Seq<char>) -> Seq<char> {
    "no cuDNN in the redist index matches `"@ + spec + "`"@
}

/// The outcome of checking a picked cuDNN `c` against the engine's verdict
/// `v` on the pair: `c` when the verdict is ok, else the verdict's reason.
pub open spec fn pair_checked(c: (Seq<u32>, Seq<char>), v: VerdictView) -> Result<
    (Seq<u32>, Seq<char>),
    Seq<char>,
> {
    if v.0 {
        Ok(c)
    } else {
        Err(v.2)
    }
}

/// A choice as the picked version's fields and text, or the error text.
pub open spec fn choice_view(r: Result<Version, String>) -> Result<(Seq<u32>, Seq<char>), Seq<char>> {
    match r {
        Ok(v) => Ok(vv(v)),
        Err(m) => Err(m@),
    }
}

/// Which cuDNN a toolkit is paired with: the engine's default pairing when
/// `spec` is `default`, else the newest listed version the spec picks; the
/// engine must then accept the pair, or its reason is the error.
pub fn choose_cudnn<E: CompatEngine + ?Sized>(
    engine: &E,
    toolkit: &Version,
    available: &[Version],
    spec: &str,
) -> (r: Result<Version, String>)
    ensures
        ({
            let pick = if spec@ == "default"@ {
                engine.cudnn_pick(vv(*toolkit), available@)
            } else {
                listed_pick_view(available@, spec@)
            };
            match pick {
                None => choice_view(r) == Err::<(Seq<u32>, Seq<char>), Seq<char>>(
                    no_cudnn_message(spec@),
                ),
                Some(c) => choice_view(r) == pair_checked(
                    c,
                    engine.pair_verdict(vv(*toolkit), c),
                ),
            }
        }),
{
    let picked = if str_eq(spec, "default") {
        engine.pair_cudnn(toolkit, available)
    } else {
        let p = pick_listed(available, spec);
        proof {
            lemma_listed_pick_view(available@, spec@, p);
        }
        p
    };
    let picked = match picked {
        Some(p) => p,
        None => {
            let mut m = string_of("no cuDNN in the redist index matches `");
            m.append(spec);
            m.append("`");
            return Err(m);
        },
    };
    let verdict = engine.validate_pair(toolkit, &picked);
    if !verdict.ok {
        return Err(verdict.reason);
    }
    Ok(picked)
}

/// The message for a file name that is not a standard cuDNN archive name.
pub open spec fn not_archive_message(name: Seq<char>) -> Seq<char> {
    "`"@ + name
        + "` is not a standard cuDNN redist archive name (expected cudnn-<platform>-<ver>_cuda<major>-archive.tar.xz/.zip)"@
}

/// A user-supplied cuDNN archive for a toolkit: its version and CUDA major
/// from the standard file name, refused when the name is not one, or when
/// the engine does not accept the pair (its reason is the error).
pub fn supplied_cudnn<E: CompatEngine + ?Sized>(engine: &E, toolkit: &Version, name: &str) -> (r: Result<
    (Version, u32),
    String,
>)
    ensures
        match cudnn_archive(name@) {
            None => r matches Err(m) && m@ == not_archive_message(name@),
            Some((f, raw, major)) => match pair_checked(
                (f, raw),
                engine.pair_verdict(vv(*toolkit), (f, raw)),
            ) {
                Ok(_) => r matches Ok((v, m)) && vv(v) == (f, raw) && m == major,
                Err(reason) => r matches Err(m) && m@ == reason,
            },
        },
{
    let (version, major) = match parse_cudnn_archive_name(name) {
        Some(p) => p,
        None => {
            let mut m = string_of("`");
            m.append(name);
            m.append(
                "` is not a standard cuDNN redist archive name (expected cudnn-<platform>-<ver>_cuda<major>-archive.tar.xz/.zip)",
            );
            return Err(m);
        },
    };
    let verdict = engine.validate_pair(toolkit, &version);
    if !verdict.ok {
        return Err(verdict.reason);
    }
    Ok((version, major))
}

} // verus!
