//! `doctor`: diagnostics over an already-probed environment.
//!
//! No I/O here: the caller reads the environment strings and probes the
//! driver and the active bundle, and passes them in.
use vstd::prelude::*;
use vstd::string::*;

use crate::compat_tables::vv;
use crate::composition::{join_relative, join_under};
use crate::domain::{Driver, GpuClass};
use crate::install::first_record;
use crate::manifest::BundleRecord;
use crate::ports::{
    severity_label, severity_level, verdict_view, CompatEngine, Severity, Verdict, VerdictView,
};
use crate::text::{
    ascii_lower, contains_exec, contains_seq, decimal, ends_with, ends_with_exec, join, join_with, parts_view,
    replace_char, replace_char_exec, split, split_chars, starts_with, starts_with_exec, str_chars,
    string_from_chars, string_of, usize_decimal,
};
use crate::version::Version;

verus! {

/// One diagnostic line. `code` is a stable machine-readable id (such as
/// `DRIVER_CEILING`).
#[derive(Debug, Clone, PartialEq, Eq)]
pub struct Finding {
    pub code: String,
    pub severity: Severity,
    pub title: String,
    pub detail: String,
    pub hint: Option<String>,
}

/// A finding as (code, severity, title, detail, hint).
pub type FindingView = (Seq<char>, Severity, Seq<char>, Seq<char>, Option<Seq<char>>);

pub open spec fn opt_text(o: Option<String>) -> Option<Seq<char>> {
    match o {
        Some(s) => Some(s@),
        None => None,
    }
}

pub open spec fn opt_view(o: Option<Vec<char>>) -> Option<Seq<char>> {
    match o {
        Some(v) => Some(v@),
        None => None,
    }
}

pub open spec fn finding_view(f: Finding) -> FindingView {
    (f.code@, f.severity, f.title@, f.detail@, opt_text(f.hint))
}

pub open spec fn findings_view(v: Seq<Finding>) -> Seq<FindingView> {
    Seq::new(v.len(), |i: int| finding_view(v[i]))
}

/// The full ordered set of findings produced by one `doctor` run.
#[derive(Debug, Clone, PartialEq, Eq)]
pub struct DoctorReport {
    pub findings: Vec<Finding>,
}

/// The highest severity rank among the findings, 0 when there are none.
pub open spec fn worst_level(fs: Seq<Finding>) -> int
    decreases fs.len(),
{
    if fs.len() == 0 {
        0
    } else {
        let rest = worst_level(fs.drop_last());
        let l = severity_level(fs.last().severity);
        if l > rest {
            l
        } else {
            rest
        }
    }
}

/// The worst rank is 0 exactly when every finding is `Okay`, and 2 exactly
/// when some finding is `Block`.
pub proof fn lemma_worst_level(fs: Seq<Finding>)
    ensures
        0 <= worst_level(fs) <= 2,
        worst_level(fs) == 0 <==> forall|i: int|
            0 <= i < fs.len() ==> #[trigger] fs[i].severity == Severity::Okay,
        worst_level(fs) == 2 <==> exists|i: int|
            0 <= i < fs.len() && #[trigger] fs[i].severity == Severity::Block,
    decreases fs.len(),
{
    if fs.len() > 0 {
        let rest = fs.drop_last();
        lemma_worst_level(rest);
        assert forall|i: int| 0 <= i < rest.len() implies #[trigger] rest[i] == fs[i] by {}
        if exists|i: int| 0 <= i < rest.len() && #[trigger] rest[i].severity == Severity::Block {
            let i = choose|i: int| 0 <= i < rest.len() && #[trigger] rest[i].severity == Severity::Block;
            assert(fs[i].severity == Severity::Block);
        }
        if exists|i: int| 0 <= i < fs.len() && #[trigger] fs[i].severity == Severity::Block {
            let i = choose|i: int| 0 <= i < fs.len() && #[trigger] fs[i].severity == Severity::Block;
            if i < fs.len() - 1 {
                assert(rest[i].severity == Severity::Block);
            }
        }
        if worst_level(fs) == 0 {
            assert forall|i: int| 0 <= i < fs.len() implies #[trigger] fs[i].severity
                == Severity::Okay by {
                if i < fs.len() - 1 {
                    assert(rest[i].severity == Severity::Okay);
                }
            }
        }
        if forall|i: int| 0 <= i < fs.len() ==> #[trigger] fs[i].severity == Severity::Okay {
            assert(fs[fs.len() - 1].severity == Severity::Okay);
            assert forall|i: int| 0 <= i < rest.len() implies #[trigger] rest[i].severity
                == Severity::Okay by {
                assert(fs[i].severity == Severity::Okay);
            }
        }
    }
}

/// One finding as the report prints it.
pub open spec fn render_finding(f: FindingView) -> Seq<char> {
    "["@ + severity_label(f.1) + "] "@ + f.2 + " ("@ + f.0 + ")\n"@ + "    "@ + f.3 + "\n"@
        + match f.4 {
        Some(h) => "    hint: "@ + h + "\n"@,
        None => Seq::<char>::empty(),
    }
}

/// The findings as the report prints them, in order.
pub open spec fn render_findings(fs: Seq<FindingView>) -> Seq<char>
    decreases fs.len(),
{
    if fs.len() == 0 {
        Seq::<char>::empty()
    } else {
        render_findings(fs.drop_last()) + render_finding(fs.last())
    }
}

impl DoctorReport {
    /// Machine-readable exit code: 0 when every finding is OK, 1 when the
    /// worst is a warning, 2 when any finding blocks. Gates CI.
    pub fn exit_code(&self) -> (r: i32)
        ensures
            r == worst_level(self.findings@),
            r == 0 <==> forall|i: int|
                0 <= i < self.findings@.len() ==> #[trigger] self.findings@[i].severity
                    == Severity::Okay,
            r == 2 <==> exists|i: int|
                0 <= i < self.findings@.len() && #[trigger] self.findings@[i].severity
                    == Severity::Block,
            r == 1 <==> (exists|i: int|
                0 <= i < self.findings@.len() && #[trigger] self.findings@[i].severity
                    == Severity::Warn) && !(exists|i: int|
                0 <= i < self.findings@.len() && #[trigger] self.findings@[i].severity
                    == Severity::Block),
    {
        let mut worst: i32 = 0;
        let mut i: usize = 0;
        while i < self.findings.len()
            invariant
                i <= self.findings@.len(),
                worst == worst_level(self.findings@.take(i as int)),
            decreases self.findings.len() - i,
        {
            assert(self.findings@.take(i + 1).drop_last() =~= self.findings@.take(i as int));
            let level: i32 = match self.findings[i].severity {
                Severity::Okay => 0,
                Severity::Warn => 1,
                Severity::Block => 2,
            };
            if level > worst {
                worst = level;
            }
            i = i + 1;
        }
        assert(self.findings@.take(self.findings@.len() as int) =~= self.findings@);
        proof {
            lemma_worst_level(self.findings@);
            if exists|i: int|
                0 <= i < self.findings@.len() && #[trigger] self.findings@[i].severity
                    == Severity::Warn {
                let k = choose|i: int|
                    0 <= i < self.findings@.len() && #[trigger] self.findings@[i].severity
                        == Severity::Warn;
                assert(self.findings@[k].severity != Severity::Okay);
            }
            if worst == 1 {
                assert(!(forall|i: int|
                    0 <= i < self.findings@.len() ==> #[trigger] self.findings@[i].severity
                        == Severity::Okay));
                let k = choose|i: int|
                    !(0 <= i < self.findings@.len() ==> #[trigger] self.findings@[i].severity
                        == Severity::Okay);
                assert(self.findings@[k].severity == Severity::Warn);
            }
        }
        worst
    }

    /// Healthy exactly when every finding is OK.
    pub fn is_healthy(&self) -> (r: bool)
        ensures
            r <==> forall|i: int|
                0 <= i < self.findings@.len() ==> #[trigger] self.findings@[i].severity
                    == Severity::Okay,
    {
        self.exit_code() == 0
    }

    /// The report as text: each finding as `[SEVERITY] title (code)`, its
    /// indented detail and hint, then `exit: <code>`.
    pub fn to_string(&self) -> (r: String)
        ensures
            r@ == render_findings(findings_view(self.findings@)) + "exit: "@ + decimal(
                worst_level(self.findings@) as nat,
            ),
    {
        let mut out = String::new();
        let mut i: usize = 0;
        while i < self.findings.len()
            invariant
                i <= self.findings@.len(),
                out@ == render_findings(findings_view(self.findings@).take(i as int)),
            decreases self.findings.len() - i,
        {
            let ghost fv = findings_view(self.findings@);
            assert(fv.take(i + 1).drop_last() =~= fv.take(i as int));
            let f = &self.findings[i];
            out.append("[");
            out.append(f.severity.label());
            out.append("] ");
            out.append(f.title.as_str());
            out.append(" (");
            out.append(f.code.as_str());
            out.append(")\n");
            out.append("    ");
            out.append(f.detail.as_str());
            out.append("\n");
            match &f.hint {
                Some(h) => {
                    out.append("    hint: ");
                    out.append(h.as_str());
                    out.append("\n");
                },
                None => {},
            }
            assert(fv.take(i + 1).last() == finding_view(*f));
            i = i + 1;
        }
        assert(findings_view(self.findings@).take(self.findings@.len() as int) =~= findings_view(
            self.findings@,
        ));
        let code = self.exit_code();
        out.append("exit: ");
        let code_text = usize_decimal(code as usize);
        out.append(code_text.as_str());
        out
    }
}

// ----- driver ceiling -----

/// The GPU classes eligible for `cuda-compat`.
pub open spec fn compat_eligible_class(c: GpuClass) -> bool {
    c == GpuClass::DataCenter || c == GpuClass::Jetson || c == GpuClass::NgcReadyRtx
}

/// The finding for a machine with no driver.
pub open spec fn absent_driver_finding() -> FindingView {
    (
        "DRIVER_ABSENT"@,
        Severity::Warn,
        "GPU driver not detected"@,
        "nvidia-smi reported no driver; driver unknown, build-only OK."@,
        Some("Install an NVIDIA driver to run CUDA programs; compilation still works."@),
    )
}

/// The severity of an exceeded ceiling: never `Block`.
pub open spec fn exceeded_severity(s: Severity) -> Severity {
    if s == Severity::Block {
        Severity::Warn
    } else {
        s
    }
}

/// The ceiling finding for a present driver (class `class`, text `drv`),
/// given the ceiling lookup's result (its text, or the error message) and,
/// when a toolkit is active, the active toolkit's text with the engine's
/// non-strict verdict on it.
pub open spec fn ceiling_finding(
    class: GpuClass,
    drv: Seq<char>,
    ceiling: Result<Seq<char>, Seq<char>>,
    check: Option<(Seq<char>, VerdictView)>,
) -> FindingView {
    match ceiling {
        Err(msg) => (
            "DRIVER_CEILING"@,
            Severity::Warn,
            "Could not determine driver ceiling"@,
            "driver "@ + drv + " (ceiling lookup failed): "@ + msg,
            None,
        ),
        Ok(c) => match check {
            None => (
                "DRIVER_CEILING"@,
                Severity::Okay,
                "Driver toolkit ceiling"@,
                "driver "@ + drv + " supports CUDA up to "@ + c + "; no toolkit is active."@,
                None,
            ),
            Some((a, v)) => if v.0 {
                (
                    "DRIVER_CEILING"@,
                    Severity::Okay,
                    "Active toolkit within driver ceiling"@,
                    "active CUDA "@ + a + " <= driver ceiling "@ + c + " (driver "@ + drv + ")."@,
                    None,
                )
            } else {
                (
                    "DRIVER_CEILING"@,
                    exceeded_severity(v.1),
                    "Active toolkit exceeds driver ceiling"@,
                    "active CUDA "@ + a + " exceeds driver ceiling "@ + c + " (driver "@ + drv
                        + ")."@,
                    Some(
                        if v.3 && compat_eligible_class(class) {
                            "This GPU class is cuda-compat eligible (Linux): a forward-compat package may raise the ceiling."@
                        } else {
                            "Re-run with --force to proceed, or switch to a toolkit within the ceiling."@
                        },
                    ),
                )
            },
        },
    }
}

fn finding(code: &str, severity: Severity, title: &str, detail: String, hint: Option<&str>) -> (f:
    Finding)
    ensures
        finding_view(f) == (
            code@,
            severity,
            title@,
            detail@,
            match hint {
                Some(h) => Some(h@),
                None => None,
            },
        ),
{
    let hint = match hint {
        Some(h) => Some(string_of(h)),
        None => None,
    };
    Finding { code: string_of(code), severity, title: string_of(title), detail, hint }
}

/// The ceiling finding for a present driver, from the ceiling lookup's result
/// and, when a toolkit is active, the engine's non-strict verdict on it.
pub fn present_driver_finding(
    driver: &Driver,
    ceiling: Result<&Version, &str>,
    check: Option<(&Version, &Verdict)>,
) -> (f: Finding)
    ensures
        finding_view(f) == ceiling_finding(
            driver.gpu_class,
            driver.version.raw@,
            match ceiling {
                Ok(c) => Ok(c.raw@),
                Err(m) => Err(m@),
            },
            match check {
                Some((a, v)) => Some((a.raw@, verdict_view(*v))),
                None => None,
            },
        ),
{
    let drv = driver.version.raw.as_str();
    let c = match ceiling {
        Err(msg) => {
            let mut d = string_of("driver ");
            d.append(drv);
            d.append(" (ceiling lookup failed): ");
            d.append(msg);
            return finding("DRIVER_CEILING", Severity::Warn, "Could not determine driver ceiling", d, None);
        },
        Ok(c) => c,
    };
    match check {
        None => {
            let mut d = string_of("driver ");
            d.append(drv);
            d.append(" supports CUDA up to ");
            d.append(c.raw.as_str());
            d.append("; no toolkit is active.");
            finding("DRIVER_CEILING", Severity::Okay, "Driver toolkit ceiling", d, None)
        },
        Some((active, verdict)) => {
            if verdict.ok {
                let mut d = string_of("active CUDA ");
                d.append(active.raw.as_str());
                d.append(" <= driver ceiling ");
                d.append(c.raw.as_str());
                d.append(" (driver ");
                d.append(drv);
                d.append(").");
                finding("DRIVER_CEILING", Severity::Okay, "Active toolkit within driver ceiling", d, None)
            } else {
                let eligible = driver.gpu_class == GpuClass::DataCenter || driver.gpu_class
                    == GpuClass::Jetson || driver.gpu_class == GpuClass::NgcReadyRtx;
                let hint = if verdict.forward_compat_possible && eligible {
                    "This GPU class is cuda-compat eligible (Linux): a forward-compat package may raise the ceiling."
                } else {
                    "Re-run with --force to proceed, or switch to a toolkit within the ceiling."
                };
                let severity = if verdict.severity == Severity::Block {
                    Severity::Warn
                } else {
                    verdict.severity
                };
                let mut d = string_of("active CUDA ");
                d.append(active.raw.as_str());
                d.append(" exceeds driver ceiling ");
                d.append(c.raw.as_str());
                d.append(" (driver ");
                d.append(drv);
                d.append(").");
                finding("DRIVER_CEILING", severity, "Active toolkit exceeds driver ceiling", d, Some(hint))
            }
        },
    }
}

/// `anyhow::Error`'s `Display` (through `ToString`): the error's message.
/// Nothing is stated of the text.
#[verifier::external_body]
fn error_text(e: &anyhow::Error) -> String {
    e.to_string()
}

/// Driver-to-toolkit ceiling diagnostic. It never blocks: an exceeded
/// ceiling is a warning (with a `--force`/cuda-compat path), and a missing
/// driver is "build-only OK". For a present driver the finding follows the
/// ceiling the engine reports and, when a toolkit is active, the engine's
/// non-strict verdict on it; the error message of a failed lookup is the
/// engine's.
pub fn check_driver_ceiling<E: CompatEngine + ?Sized>(engine: &E, driver: &Driver, active: Option<&Version>) -> (f:
    Finding)
    ensures
        f.severity != Severity::Block,
        !driver.present ==> finding_view(f) == absent_driver_finding(),
        driver.present ==> match engine.ceiling_for(*driver) {
            Some(c) => finding_view(f) == ceiling_finding(
                driver.gpu_class,
                driver.version.raw@,
                Ok(c.1),
                match active {
                    Some(a) => Some((a.raw@, engine.toolkit_verdict(*driver, vv(*a), false))),
                    None => None,
                },
            ),
            None => exists|msg: Seq<char>|
                finding_view(f) == #[trigger] ceiling_finding(
                    driver.gpu_class,
                    driver.version.raw@,
                    Err(msg),
                    None,
                ),
        },
{
    if !driver.present {
        return finding(
            "DRIVER_ABSENT",
            Severity::Warn,
            "GPU driver not detected",
            string_of("nvidia-smi reported no driver; driver unknown, build-only OK."),
            Some("Install an NVIDIA driver to run CUDA programs; compilation still works."),
        );
    }
    let ceiling = match engine.max_toolkit_for_driver(driver) {
        Ok(v) => v,
        Err(e) => {
            let msg = error_text(&e);
            let f = present_driver_finding(driver, Err(msg.as_str()), None);
            proof {
                assert(finding_view(f) == ceiling_finding(
                    driver.gpu_class,
                    driver.version.raw@,
                    Err(msg@),
                    None,
                ));
            }
            return f;
        },
    };
    match active {
        None => {
            present_driver_finding(driver, Ok(&ceiling), None)
        },
        Some(a) => {
            let verdict = engine.check_toolkit(driver, a, false);
            present_driver_finding(driver, Ok(&ceiling), Some((a, &verdict)))
        },
    }
}

// ----- PATH hygiene -----

/// Pre-read environment. `path_sep` is `:` on unix and `;` on Windows.
#[derive(Debug, Clone)]
pub struct EnvSnapshot {
    pub path: String,
    pub ld_library_path: String,
    pub cuda_home: Option<String>,
    pub active_root: Option<String>,
    pub path_sep: char,
}

pub open spec fn is_slash(c: char) -> bool {
    c == '/' || c == '\\'
}

/// `s` without its trailing run of `/` and `\` (`str::trim_end_matches`).
pub open spec fn strip_slashes(s: Seq<char>) -> Seq<char>
    decreases s.len(),
{
    if s.len() > 0 && is_slash(s.last()) {
        strip_slashes(s.drop_last())
    } else {
        s
    }
}

/// A path without trailing separators, with `\` turned into `/`.
pub open spec fn norm(p: Seq<char>) -> Seq<char> {
    replace_char(strip_slashes(p), '\\', '/')
}

/// Every character of `s` is ASCII.
pub open spec fn is_ascii_text(s: Seq<char>) -> bool {
    forall|i: int| 0 <= i < s.len() ==> (#[trigger] s[i] as u32) < 128
}

/// `str::to_lowercase`: Unicode lower-casing.
pub uninterp spec fn lowercase(s: Seq<char>) -> Seq<char>;

/// The lowered text ends like a bin directory (or, for `lib`, a lib or lib64
/// directory).
pub open spec fn has_dir_suffix(lowered: Seq<char>, lib: bool) -> bool {
    if lib {
        ends_with(lowered, "/lib64"@) || ends_with(lowered, "/lib"@)
    } else {
        ends_with(lowered, "/bin"@)
    }
}

/// A CUDA bin (or lib) directory: its lowered, normalized path ends in the
/// directory suffix and holds a `cuda` token.
pub open spec fn is_cuda_dir(seg: Seq<char>, lib: bool) -> bool {
    let nl = lowercase(norm(seg));
    has_dir_suffix(nl, lib) && contains_seq(nl, "cuda"@)
}

/// Normalized path `p` lies inside root `a`: it starts with `a`, and the root
/// text ends there or at a `/` (so `/opt/cuda-12.4.10` is not inside
/// `/opt/cuda-12.4.1`).
pub open spec fn within_root(p: Seq<char>, a: Seq<char>) -> bool {
    starts_with(p, a) && (p.len() == a.len() || p[a.len() as int] == '/')
}

/// A bin (or lib) directory under the (normalized) active toolkit root: these
/// count as CUDA directories though their path may carry no `cuda` token.
pub open spec fn under_active(seg: Seq<char>, active: Option<Seq<char>>, lib: bool) -> bool {
    match active {
        Some(a) => has_dir_suffix(lowercase(norm(seg)), lib) && within_root(norm(seg), a),
        None => false,
    }
}

pub open spec fn keeps_dir(seg: Seq<char>, active: Option<Seq<char>>, lib: bool) -> bool {
    seg.len() > 0 && (is_cuda_dir(seg, lib) || under_active(seg, active, lib))
}

/// The CUDA bin (or lib) entries of a search path's segments, in order.
pub open spec fn cuda_dirs(segs: Seq<Seq<char>>, active: Option<Seq<char>>, lib: bool) -> Seq<
    Seq<char>,
>
    decreases segs.len(),
{
    if segs.len() == 0 {
        Seq::<Seq<char>>::empty()
    } else if keeps_dir(segs.last(), active, lib) {
        cuda_dirs(segs.drop_last(), active, lib).push(segs.last())
    } else {
        cuda_dirs(segs.drop_last(), active, lib)
    }
}

/// The bins outside the active root `a`, in order.
pub open spec fn stale_bins(bins: Seq<Seq<char>>, a: Seq<char>) -> Seq<Seq<char>>
    decreases bins.len(),
{
    if bins.len() == 0 {
        Seq::<Seq<char>>::empty()
    } else if !within_root(norm(bins.last()), a) {
        stale_bins(bins.drop_last(), a).push(bins.last())
    } else {
        stale_bins(bins.drop_last(), a)
    }
}

/// The toolkit root nvcc resolves to from a bin entry: the normalized entry
/// without its `/bin`, or empty when it does not end in `/bin`.
pub open spec fn resolved_root(first_bin: Seq<char>) -> Seq<char> {
    let n = norm(first_bin);
    if ends_with(n, "/bin"@) {
        n.subrange(0, n.len() - 4)
    } else {
        Seq::<char>::empty()
    }
}

pub open spec fn one_if(c: bool, f: FindingView) -> Seq<FindingView> {
    if c {
        seq![f]
    } else {
        Seq::<FindingView>::empty()
    }
}

/// The findings of the PATH / LD_LIBRARY_PATH hygiene check.
pub open spec fn hygiene_findings(
    path: Seq<char>,
    ld: Seq<char>,
    cuda_home: Option<Seq<char>>,
    active_root: Option<Seq<char>>,
    sep: char,
) -> Seq<FindingView> {
    let active = match active_root {
        Some(r) => Some(norm(r)),
        None => None,
    };
    let bins = cuda_dirs(split(path, sep), active, false);
    let dup = one_if(
        bins.len() > 1,
        (
            "PATH_DUP_CUDA"@,
            Severity::Warn,
            "Multiple CUDA bin directories on PATH"@,
            "PATH contains "@ + decimal(bins.len()) + " CUDA bin entries: "@ + join(bins, ", "@),
            Some("Run `cuvm use <ver>` to rebuild a clean CUVM_INJECTED segment."@),
        ),
    );
    let stale = match active {
        Some(a) => {
            let st = stale_bins(bins, a);
            one_if(
                st.len() > 0,
                (
                    "PATH_STALE_CUDA"@,
                    Severity::Warn,
                    "Stale CUDA bin on PATH"@,
                    "PATH has CUDA bin(s) outside the active toolkit "@ + a + ": "@ + join(
                        st,
                        ", "@,
                    ),
                    Some(
                        "`cuvm use <ver>` strips CUVM_INJECTED precisely; remove manual PATH edits."@,
                    ),
                ),
            )
        },
        None => Seq::<FindingView>::empty(),
    };
    let nvcc = match cuda_home {
        Some(h) => if bins.len() > 0 {
            let home = norm(h);
            let root = resolved_root(bins[0]);
            one_if(
                root.len() > 0 && root != home,
                (
                    "NVCC_MISMATCH"@,
                    Severity::Block,
                    "nvcc does not match CUDA_HOME"@,
                    "nvcc resolves to "@ + bins[0] + " (root "@ + root + ") but CUDA_HOME="@ + home
                        + "; builds will use a different toolkit than the active one."@,
                    Some("Run `cuvm use <ver>` so the active bin is first on PATH."@),
                ),
            )
        } else {
            Seq::<FindingView>::empty()
        },
        None => Seq::<FindingView>::empty(),
    };
    let libs = cuda_dirs(split(ld, sep), active, true);
    let ld_dup = one_if(
        libs.len() > 1,
        (
            "LD_DUP_CUDA"@,
            Severity::Warn,
            "Multiple CUDA lib directories on LD_LIBRARY_PATH"@,
            "LD_LIBRARY_PATH has "@ + decimal(libs.len()) + " CUDA lib entries: "@ + join(
                libs,
                ", "@,
            ),
            Some("`cuvm use <ver>` strips the recorded CUVM_INJECTED lib segment first."@),
        ),
    );
    let all = dup + stale + nvcc + ld_dup;
    if all.len() == 0 {
        seq![
            (
                "PATH_HYGIENE"@,
                Severity::Okay,
                "PATH / LD_LIBRARY_PATH clean"@,
                "no duplicate or stale CUDA entries; nvcc matches CUDA_HOME."@,
                None,
            ),
        ]
    } else {
        all
    }
}

/// The place of a hygiene finding's code in the report's order.
pub open spec fn hygiene_rank(code: Seq<char>) -> int {
    if code == "PATH_DUP_CUDA"@ {
        0
    } else if code == "PATH_STALE_CUDA"@ {
        1
    } else if code == "NVCC_MISMATCH"@ {
        2
    } else if code == "LD_DUP_CUDA"@ {
        3
    } else if code == "PATH_HYGIENE"@ {
        4
    } else {
        5
    }
}

/// A problem finding with a rank within `lo..=hi`: not `OK`, blocking only
/// for `NVCC_MISMATCH`, a stale-bin finding only when `act`, an nvcc
/// mismatch only when `home`.
spec fn problem_in(f: FindingView, lo: int, hi: int, home: bool, act: bool) -> bool {
    &&& lo <= hygiene_rank(f.0) <= hi
    &&& f.1 != Severity::Okay
    &&& (f.1 == Severity::Block <==> f.0 == "NVCC_MISMATCH"@)
    &&& (f.0 == "PATH_STALE_CUDA"@ ==> act)
    &&& (f.0 == "NVCC_MISMATCH"@ ==> home)
}

/// Problem findings in strict rank order.
spec fn ordered_problems(s: Seq<FindingView>, lo: int, hi: int, home: bool, act: bool) -> bool {
    &&& forall|i: int, j: int|
        0 <= i < j < s.len() ==> hygiene_rank(#[trigger] s[i].0) < hygiene_rank(#[trigger] s[j].0)
    &&& forall|i: int| 0 <= i < s.len() ==> #[trigger] problem_in(s[i], lo, hi, home, act)
}

proof fn lemma_ordered_one(c: bool, f: FindingView, k: int, home: bool, act: bool)
    requires
        problem_in(f, k, k, home, act),
    ensures
        ordered_problems(one_if(c, f), k, k, home, act),
{
    if c {
        assert(one_if(c, f)[0] == f);
    }
}

proof fn lemma_ordered_concat(
    a: Seq<FindingView>,
    b: Seq<FindingView>,
    lo: int,
    m: int,
    hi: int,
    home: bool,
    act: bool,
)
    requires
        lo <= m < hi,
        ordered_problems(a, lo, m, home, act),
        ordered_problems(b, m + 1, hi, home, act),
    ensures
        ordered_problems(a + b, lo, hi, home, act),
{
    let s = a + b;
    assert forall|i: int, j: int| 0 <= i < j < s.len() implies hygiene_rank(#[trigger] s[i].0)
        < hygiene_rank(#[trigger] s[j].0) by {
        if j < a.len() {
            assert(s[i] == a[i] && s[j] == a[j]);
        } else if i >= a.len() {
            assert(s[i] == b[i - a.len()] && s[j] == b[j - a.len()]);
        } else {
            assert(s[i] == a[i] && s[j] == b[j - a.len()]);
            assert(problem_in(a[i], lo, m, home, act));
            assert(problem_in(b[j - a.len()], m + 1, hi, home, act));
        }
    }
    assert forall|i: int| 0 <= i < s.len() implies #[trigger] problem_in(s[i], lo, hi, home, act) by {
        if i < a.len() {
            assert(s[i] == a[i]);
            assert(problem_in(a[i], lo, m, home, act));
        } else {
            assert(s[i] == b[i - a.len()]);
            assert(problem_in(b[i - a.len()], m + 1, hi, home, act));
        }
    }
}

/// The shape of a hygiene report: never empty; its codes come in the fixed
/// order `PATH_DUP_CUDA`, `PATH_STALE_CUDA`, `NVCC_MISMATCH`, `LD_DUP_CUDA`,
/// each at most once, or the report is the single `PATH_HYGIENE` finding,
/// which is exactly when every finding is `OK`; only `NVCC_MISMATCH` blocks;
/// a stale bin is reported only when a toolkit is active, and an nvcc
/// mismatch only when `CUDA_HOME` is set.
pub proof fn lemma_hygiene_report_shape(
    path: Seq<char>,
    ld: Seq<char>,
    cuda_home: Option<Seq<char>>,
    active_root: Option<Seq<char>>,
    sep: char,
)
    ensures
        ({
            let r = hygiene_findings(path, ld, cuda_home, active_root, sep);
            &&& r.len() >= 1
            &&& forall|i: int, j: int|
                0 <= i < j < r.len() ==> hygiene_rank(#[trigger] r[i].0) < hygiene_rank(
                    #[trigger] r[j].0,
                )
            &&& forall|i: int| 0 <= i < r.len() ==> hygiene_rank(#[trigger] r[i].0) <= 4
            &&& (r.len() == 1 && r[0].0 == "PATH_HYGIENE"@) <==> (forall|i: int|
                0 <= i < r.len() ==> #[trigger] r[i].1 == Severity::Okay)
            &&& forall|i: int|
                0 <= i < r.len() ==> (#[trigger] r[i].1 == Severity::Block <==> r[i].0
                    == "NVCC_MISMATCH"@)
            &&& forall|i: int|
                0 <= i < r.len() && #[trigger] r[i].0 == "PATH_STALE_CUDA"@ ==> active_root is Some
            &&& forall|i: int|
                0 <= i < r.len() && #[trigger] r[i].0 == "NVCC_MISMATCH"@ ==> cuda_home is Some
        }),
{
    reveal_strlit("PATH_DUP_CUDA");
    reveal_strlit("PATH_STALE_CUDA");
    reveal_strlit("NVCC_MISMATCH");
    reveal_strlit("LD_DUP_CUDA");
    reveal_strlit("PATH_HYGIENE");
    assert("PATH_DUP_CUDA"@.len() == 13);
    assert("PATH_STALE_CUDA"@.len() == 15);
    assert("NVCC_MISMATCH"@.len() == 13);
    assert("LD_DUP_CUDA"@.len() == 11);
    assert("PATH_HYGIENE"@.len() == 12);
    assert("NVCC_MISMATCH"@[0] != "PATH_DUP_CUDA"@[0]);
    assert(hygiene_rank("PATH_DUP_CUDA"@) == 0);
    assert(hygiene_rank("PATH_STALE_CUDA"@) == 1);
    assert(hygiene_rank("NVCC_MISMATCH"@) == 2);
    assert(hygiene_rank("LD_DUP_CUDA"@) == 3);
    assert(hygiene_rank("PATH_HYGIENE"@) == 4);
    let home = cuda_home is Some;
    let act = active_root is Some;
    let r = hygiene_findings(path, ld, cuda_home, active_root, sep);
    let active = match active_root {
        Some(x) => Some(norm(x)),
        None => None,
    };
    let bins = cuda_dirs(split(path, sep), active, false);
    let libs = cuda_dirs(split(ld, sep), active, true);
    let fd = (
        "PATH_DUP_CUDA"@,
        Severity::Warn,
        "Multiple CUDA bin directories on PATH"@,
        "PATH contains "@ + decimal(bins.len()) + " CUDA bin entries: "@ + join(bins, ", "@),
        Some("Run `cuvm use <ver>` to rebuild a clean CUVM_INJECTED segment."@),
    );
    let dup = one_if(bins.len() > 1, fd);
    lemma_ordered_one(bins.len() > 1, fd, 0, home, act);
    let stale = match active {
        Some(a) => {
            let st = stale_bins(bins, a);
            let fs = (
                "PATH_STALE_CUDA"@,
                Severity::Warn,
                "Stale CUDA bin on PATH"@,
                "PATH has CUDA bin(s) outside the active toolkit "@ + a + ": "@ + join(st, ", "@),
                Some(
                    "`cuvm use <ver>` strips CUVM_INJECTED precisely; remove manual PATH edits."@,
                ),
            );
            lemma_ordered_one(st.len() > 0, fs, 1, home, act);
            one_if(st.len() > 0, fs)
        },
        None => Seq::<FindingView>::empty(),
    };
    let nvcc = match cuda_home {
        Some(h) => if bins.len() > 0 {
            let hm = norm(h);
            let root = resolved_root(bins[0]);
            let fnv = (
                "NVCC_MISMATCH"@,
                Severity::Block,
                "nvcc does not match CUDA_HOME"@,
                "nvcc resolves to "@ + bins[0] + " (root "@ + root + ") but CUDA_HOME="@ + hm
                    + "; builds will use a different toolkit than the active one."@,
                Some("Run `cuvm use <ver>` so the active bin is first on PATH."@),
            );
            lemma_ordered_one(root.len() > 0 && root != hm, fnv, 2, home, act);
            one_if(root.len() > 0 && root != hm, fnv)
        } else {
            Seq::<FindingView>::empty()
        },
        None => Seq::<FindingView>::empty(),
    };
    let fl = (
        "LD_DUP_CUDA"@,
        Severity::Warn,
        "Multiple CUDA lib directories on LD_LIBRARY_PATH"@,
        "LD_LIBRARY_PATH has "@ + decimal(libs.len()) + " CUDA lib entries: "@ + join(libs, ", "@),
        Some("`cuvm use <ver>` strips the recorded CUVM_INJECTED lib segment first."@),
    );
    let ld_dup = one_if(libs.len() > 1, fl);
    lemma_ordered_one(libs.len() > 1, fl, 3, home, act);
    lemma_ordered_concat(dup, stale, 0, 0, 1, home, act);
    lemma_ordered_concat(dup + stale, nvcc, 0, 1, 2, home, act);
    lemma_ordered_concat(dup + stale + nvcc, ld_dup, 0, 2, 3, home, act);
    let all = dup + stale + nvcc + ld_dup;
    assert(ordered_problems(all, 0, 3, home, act));
    if all.len() == 0 {
        assert(r == seq![
            (
                "PATH_HYGIENE"@,
                Severity::Okay,
                "PATH / LD_LIBRARY_PATH clean"@,
                "no duplicate or stale CUDA entries; nvcc matches CUDA_HOME."@,
                None::<Seq<char>>,
            ),
        ]);
    } else {
        assert(r == all);
        assert(problem_in(r[0], 0, 3, home, act));
        assert forall|i: int| 0 <= i < r.len() implies hygiene_rank(#[trigger] r[i].0) <= 4 && (
        r[i].1 == Severity::Block <==> r[i].0 == "NVCC_MISMATCH"@) by {
            assert(problem_in(r[i], 0, 3, home, act));
        }
        assert forall|i: int| 0 <= i < r.len() && #[trigger] r[i].0 == "PATH_STALE_CUDA"@ implies act by {
            assert(problem_in(r[i], 0, 3, home, act));
        }
        assert forall|i: int| 0 <= i < r.len() && #[trigger] r[i].0 == "NVCC_MISMATCH"@ implies home by {
            assert(problem_in(r[i], 0, 3, home, act));
        }
    }
}

/// The nvcc check: the report holds an `NVCC_MISMATCH` finding exactly when
/// `CUDA_HOME` is set and the first CUDA bin on PATH resolves to a non-empty
/// toolkit root other than the normalized `CUDA_HOME`, whether or not a
/// toolkit is active; that finding blocks.
pub proof fn lemma_nvcc_mismatch_reported(
    path: Seq<char>,
    ld: Seq<char>,
    cuda_home: Option<Seq<char>>,
    active_root: Option<Seq<char>>,
    sep: char,
)
    ensures
        ({
            let r = hygiene_findings(path, ld, cuda_home, active_root, sep);
            let active = match active_root {
                Some(x) => Some(norm(x)),
                None => None,
            };
            let bins = cuda_dirs(split(path, sep), active, false);
            let mismatch = match cuda_home {
                Some(h) => bins.len() > 0 && resolved_root(bins[0]).len() > 0 && resolved_root(
                    bins[0],
                ) != norm(h),
                None => false,
            };
            &&& mismatch ==> exists|i: int|
                0 <= i < r.len() && (#[trigger] r[i]).0 == "NVCC_MISMATCH"@ && r[i].1
                    == Severity::Block
            &&& !mismatch ==> forall|i: int|
                0 <= i < r.len() ==> (#[trigger] r[i]).0 != "NVCC_MISMATCH"@
        }),
{
    reveal_strlit("PATH_DUP_CUDA");
    reveal_strlit("PATH_STALE_CUDA");
    reveal_strlit("NVCC_MISMATCH");
    reveal_strlit("LD_DUP_CUDA");
    reveal_strlit("PATH_HYGIENE");
    assert("PATH_DUP_CUDA"@.len() == 13);
    assert("PATH_STALE_CUDA"@.len() == 15);
    assert("NVCC_MISMATCH"@.len() == 13);
    assert("LD_DUP_CUDA"@.len() == 11);
    assert("PATH_HYGIENE"@.len() == 12);
    assert("NVCC_MISMATCH"@[0] != "PATH_DUP_CUDA"@[0]);
    let r = hygiene_findings(path, ld, cuda_home, active_root, sep);
    let active = match active_root {
        Some(x) => Some(norm(x)),
        None => None,
    };
    let bins = cuda_dirs(split(path, sep), active, false);
    let libs = cuda_dirs(split(ld, sep), active, true);
    let dup = one_if(
        bins.len() > 1,
        (
            "PATH_DUP_CUDA"@,
            Severity::Warn,
            "Multiple CUDA bin directories on PATH"@,
            "PATH contains "@ + decimal(bins.len()) + " CUDA bin entries: "@ + join(bins, ", "@),
            Some("Run `cuvm use <ver>` to rebuild a clean CUVM_INJECTED segment."@),
        ),
    );
    let stale = match active {
        Some(a) => {
            let st = stale_bins(bins, a);
            one_if(
                st.len() > 0,
                (
                    "PATH_STALE_CUDA"@,
                    Severity::Warn,
                    "Stale CUDA bin on PATH"@,
                    "PATH has CUDA bin(s) outside the active toolkit "@ + a + ": "@ + join(
                        st,
                        ", "@,
                    ),
                    Some(
                        "`cuvm use <ver>` strips CUVM_INJECTED precisely; remove manual PATH edits."@,
                    ),
                ),
            )
        },
        None => Seq::<FindingView>::empty(),
    };
    let nvcc = match cuda_home {
        Some(h) => if bins.len() > 0 {
            let hm = norm(h);
            let root = resolved_root(bins[0]);
            one_if(
                root.len() > 0 && root != hm,
                (
                    "NVCC_MISMATCH"@,
                    Severity::Block,
                    "nvcc does not match CUDA_HOME"@,
                    "nvcc resolves to "@ + bins[0] + " (root "@ + root + ") but CUDA_HOME="@ + hm
                        + "; builds will use a different toolkit than the active one."@,
                    Some("Run `cuvm use <ver>` so the active bin is first on PATH."@),
                ),
            )
        } else {
            Seq::<FindingView>::empty()
        },
        None => Seq::<FindingView>::empty(),
    };
    let ld_dup = one_if(
        libs.len() > 1,
        (
            "LD_DUP_CUDA"@,
            Severity::Warn,
            "Multiple CUDA lib directories on LD_LIBRARY_PATH"@,
            "LD_LIBRARY_PATH has "@ + decimal(libs.len()) + " CUDA lib entries: "@ + join(
                libs,
                ", "@,
            ),
            Some("`cuvm use <ver>` strips the recorded CUVM_INJECTED lib segment first."@),
        ),
    );
    let all = dup + stale + nvcc + ld_dup;
    let mismatch = match cuda_home {
        Some(h) => bins.len() > 0 && resolved_root(bins[0]).len() > 0 && resolved_root(bins[0])
            != norm(h),
        None => false,
    };
    assert forall|i: int| 0 <= i < dup.len() implies (#[trigger] dup[i]).0 == "PATH_DUP_CUDA"@ by {}
    assert forall|i: int| 0 <= i < stale.len() implies (#[trigger] stale[i]).0
        == "PATH_STALE_CUDA"@ by {}
    assert forall|i: int| 0 <= i < ld_dup.len() implies (#[trigger] ld_dup[i]).0
        == "LD_DUP_CUDA"@ by {}
    if mismatch {
        let k: int = (dup.len() + stale.len()) as int;
        assert(nvcc.len() == 1);
        assert(all[k] == nvcc[0]);
        assert(r == all);
        assert(r[k].0 == "NVCC_MISMATCH"@ && r[k].1 == Severity::Block);
    } else {
        assert(nvcc.len() == 0);
        if all.len() == 0 {
            assert(r.len() == 1);
            assert(r[0].0 == "PATH_HYGIENE"@);
        } else {
            assert(r == all);
            assert forall|i: int| 0 <= i < r.len() implies (#[trigger] r[i]).0
                != "NVCC_MISMATCH"@ by {
                if i < dup.len() {
                    assert(r[i] == dup[i]);
                } else if i < dup.len() + stale.len() {
                    assert(r[i] == stale[i - dup.len()]);
                } else {
                    assert(r[i] == ld_dup[i - dup.len() - stale.len()]);
                }
            }
        }
    }
}

fn norm_chars(p: &Vec<char>) -> (r: Vec<char>)
    ensures
        r@ == norm(p@),
{
    let mut j: usize = p.len();
    assert(p@.subrange(0, j as int) =~= p@);
    while j > 0 && (p[j - 1] == '/' || p[j - 1] == '\\')
        invariant
            j <= p@.len(),
            strip_slashes(p@) == strip_slashes(p@.subrange(0, j as int)),
        decreases j,
    {
        assert(p@.subrange(0, j as int).drop_last() =~= p@.subrange(0, j - 1));
        j = j - 1;
    }
    let mut t: Vec<char> = Vec::new();
    let mut i: usize = 0;
    while i < j
        invariant
            j <= p@.len(),
            i <= j,
            t@ == p@.subrange(0, i as int),
        decreases j - i,
    {
        t.push(p[i]);
        i = i + 1;
        assert(t@ =~= p@.subrange(0, i as int));
    }
    assert(strip_slashes(p@.subrange(0, j as int)) == p@.subrange(0, j as int));
    replace_char_exec(&t, '\\', '/')
}

/// `str::to_lowercase`: the Unicode lower-casing of `s`, which on ASCII
/// text is ASCII lower-casing (`A`..`Z` to `a`..`z`, every other character
/// kept).
#[verifier::external_body]
fn to_lowercase(s: &str) -> (r: String)
    ensures
        r@ == lowercase(s@),
        is_ascii_text(s@) ==> r@ == Seq::new(s@.len(), |i: int| ascii_lower(s@[i])),
{
    s.to_lowercase()
}

fn lowercase_chars(v: &Vec<char>) -> (r: Vec<char>)
    ensures
        r@ == lowercase(v@),
        is_ascii_text(v@) ==> r@ == Seq::new(v@.len(), |i: int| ascii_lower(v@[i])),
{
    let s = string_from_chars(v);
    let l = to_lowercase(s.as_str());
    str_chars(l.as_str())
}

fn has_dir_suffix_exec(lowered: &Vec<char>, lib: bool) -> (r: bool)
    ensures
        r == has_dir_suffix(lowered@, lib),
{
    if lib {
        ends_with_exec(lowered, &str_chars("/lib64")) || ends_with_exec(lowered, &str_chars("/lib"))
    } else {
        ends_with_exec(lowered, &str_chars("/bin"))
    }
}

fn within_root_exec(p: &Vec<char>, a: &Vec<char>) -> (r: bool)
    ensures
        r == within_root(p@, a@),
{
    starts_with_exec(p, a) && (p.len() == a.len() || p[a.len()] == '/')
}

fn keeps_dir_exec(seg: &Vec<char>, active: &Option<Vec<char>>, lib: bool) -> (r: bool)
    ensures
        r == keeps_dir(
            seg@,
            match active {
                Some(a) => Some(a@),
                None => None,
            },
            lib,
        ),
{
    if seg.len() == 0 {
        return false;
    }
    let n = norm_chars(seg);
    let nl = lowercase_chars(&n);
    if !has_dir_suffix_exec(&nl, lib) {
        return false;
    }
    if contains_exec(&nl, &str_chars("cuda")) {
        return true;
    }
    match active {
        Some(a) => within_root_exec(&n, a),
        None => false,
    }
}

fn cuda_dirs_exec(list: &String, sep: char, active: &Option<Vec<char>>, lib: bool) -> (r: Vec<
    Vec<char>,
>)
    ensures
        parts_view(r@) == cuda_dirs(
            split(list@, sep),
            match active {
                Some(a) => Some(a@),
                None => None,
            },
            lib,
        ),
{
    let segs = split_chars(&str_chars(list.as_str()), sep);
    let ghost av = match active {
        Some(a) => Some(a@),
        None => None,
    };
    let ghost sv = parts_view(segs@);
    let mut out: Vec<Vec<char>> = Vec::new();
    let mut i: usize = 0;
    while i < segs.len()
        invariant
            i <= segs@.len(),
            sv == parts_view(segs@),
            parts_view(out@) == cuda_dirs(sv.take(i as int), av, lib),
            av == match active {
                Some(a) => Some(a@),
                None => None,
            },
        decreases segs.len() - i,
    {
        assert(sv.take(i + 1).drop_last() =~= sv.take(i as int));
        assert(sv.take(i + 1).last() == segs@[i as int]@);
        if keeps_dir_exec(&segs[i], active, lib) {
            let ghost before = parts_view(out@);
            out.push(copy_chars(&segs[i]));
            assert(parts_view(out@) =~= before.push(segs@[i as int]@));
        }
        i = i + 1;
    }
    assert(sv.take(segs@.len() as int) =~= sv);
    out
}

fn copy_chars(v: &Vec<char>) -> (r: Vec<char>)
    ensures
        r@ == v@,
{
    let mut r: Vec<char> = Vec::new();
    let mut i: usize = 0;
    while i < v.len()
        invariant
            i <= v@.len(),
            r@ == v@.subrange(0, i as int),
        decreases v.len() - i,
    {
        r.push(v[i]);
        i = i + 1;
        assert(r@ =~= v@.subrange(0, i as int));
    }
    assert(r@ =~= v@);
    r
}

fn stale_bins_exec(bins: &Vec<Vec<char>>, a: &Vec<char>) -> (r: Vec<Vec<char>>)
    ensures
        parts_view(r@) == stale_bins(parts_view(bins@), a@),
{
    let ghost bv = parts_view(bins@);
    let mut out: Vec<Vec<char>> = Vec::new();
    let mut i: usize = 0;
    while i < bins.len()
        invariant
            i <= bins@.len(),
            bv == parts_view(bins@),
            parts_view(out@) == stale_bins(bv.take(i as int), a@),
        decreases bins.len() - i,
    {
        assert(bv.take(i + 1).drop_last() =~= bv.take(i as int));
        assert(bv.take(i + 1).last() == bins@[i as int]@);
        let n = norm_chars(&bins[i]);
        if !within_root_exec(&n, a) {
            let ghost before = parts_view(out@);
            out.push(copy_chars(&bins[i]));
            assert(parts_view(out@) =~= before.push(bins@[i as int]@));
        }
        i = i + 1;
    }
    assert(bv.take(bins@.len() as int) =~= bv);
    out
}

fn push_finding(out: &mut Vec<Finding>, f: Finding)
    ensures
        findings_view(final(out)@) == findings_view(old(out)@).push(finding_view(f)),
{
    out.push(f);
    assert(findings_view(out@) =~= findings_view(old(out)@).push(finding_view(f)));
}

/// `PATH`/`LD_LIBRARY_PATH` hygiene: duplicate CUDA directories, stale CUDA
/// entries, and nvcc resolving away from `CUDA_HOME`.
#[verifier::spinoff_prover]
#[verifier::rlimit(50)]
pub fn check_path_hygiene(s: &EnvSnapshot) -> (r: Vec<Finding>)
    ensures
        findings_view(r@) == hygiene_findings(
            s.path@,
            s.ld_library_path@,
            opt_text(s.cuda_home),
            opt_text(s.active_root),
            s.path_sep,
        ),
{
    let mut out: Vec<Finding> = Vec::new();
    let active: Option<Vec<char>> = match &s.active_root {
        Some(r) => Some(norm_chars(&str_chars(r.as_str()))),
        None => None,
    };
    let ghost av = opt_view(active);
    assert(av == match opt_text(s.active_root) {
        Some(r) => Some(norm(r)),
        None => None,
    });
    let bins = cuda_dirs_exec(&s.path, s.path_sep, &active, false);
    let ghost bv = parts_view(bins@);
    // (a) duplicate CUDA bin directories on PATH.
    let ghost dup = one_if(
        bv.len() > 1,
        (
            "PATH_DUP_CUDA"@,
            Severity::Warn,
            "Multiple CUDA bin directories on PATH"@,
            "PATH contains "@ + decimal(bv.len()) + " CUDA bin entries: "@ + join(bv, ", "@),
            Some("Run `cuvm use <ver>` to rebuild a clean CUVM_INJECTED segment."@),
        ),
    );
    if bins.len() > 1 {
        let mut d = string_of("PATH contains ");
        let n = usize_decimal(bins.len());
        d.append(n.as_str());
        d.append(" CUDA bin entries: ");
        let joined = string_from_chars(&join_with(&bins, ", "));
        d.append(joined.as_str());
        push_finding(
            &mut out,
            finding(
                "PATH_DUP_CUDA",
                Severity::Warn,
                "Multiple CUDA bin directories on PATH",
                d,
                Some("Run `cuvm use <ver>` to rebuild a clean CUVM_INJECTED segment."),
            ),
        );
    }
    assert(findings_view(out@) =~= dup);
    // (b) stale CUDA bins outside the active root.
    let ghost stale = match av {
        Some(a) => {
            let st = stale_bins(bv, a);
            one_if(
                st.len() > 0,
                (
                    "PATH_STALE_CUDA"@,
                    Severity::Warn,
                    "Stale CUDA bin on PATH"@,
                    "PATH has CUDA bin(s) outside the active toolkit "@ + a + ": "@ + join(
                        st,
                        ", "@,
                    ),
                    Some(
                        "`cuvm use <ver>` strips CUVM_INJECTED precisely; remove manual PATH edits."@,
                    ),
                ),
            )
        },
        None => Seq::<FindingView>::empty(),
    };
    match &active {
        Some(a) => {
            let st = stale_bins_exec(&bins, a);
            if st.len() > 0 {
                let mut d = string_of("PATH has CUDA bin(s) outside the active toolkit ");
                let at = string_from_chars(a);
                d.append(at.as_str());
                d.append(": ");
                let joined = string_from_chars(&join_with(&st, ", "));
                d.append(joined.as_str());
                push_finding(
                    &mut out,
                    finding(
                        "PATH_STALE_CUDA",
                        Severity::Warn,
                        "Stale CUDA bin on PATH",
                        d,
                        Some(
                            "`cuvm use <ver>` strips CUVM_INJECTED precisely; remove manual PATH edits.",
                        ),
                    ),
                );
            }
        },
        None => {},
    }
    assert(findings_view(out@) =~= dup + stale);
    // (c) nvcc resolution against CUDA_HOME: the first CUDA bin on PATH is
    // where nvcc resolves.
    let ghost nvcc = match opt_text(s.cuda_home) {
        Some(h) => if bv.len() > 0 {
            let home = norm(h);
            let root = resolved_root(bv[0]);
            one_if(
                root.len() > 0 && root != home,
                (
                    "NVCC_MISMATCH"@,
                    Severity::Block,
                    "nvcc does not match CUDA_HOME"@,
                    "nvcc resolves to "@ + bv[0] + " (root "@ + root + ") but CUDA_HOME="@ + home
                        + "; builds will use a different toolkit than the active one."@,
                    Some("Run `cuvm use <ver>` so the active bin is first on PATH."@),
                ),
            )
        } else {
            Seq::<FindingView>::empty()
        },
        None => Seq::<FindingView>::empty(),
    };
    match &s.cuda_home {
        Some(h) => {
            if bins.len() > 0 {
                let home = norm_chars(&str_chars(h.as_str()));
                let first = &bins[0];
                let n = norm_chars(first);
                let bin = str_chars("/bin");
                proof {
                    reveal_strlit("/bin");
                }
                let root: Vec<char> = if ends_with_exec(&n, &bin) {
                    let mut r: Vec<char> = Vec::new();
                    let mut k: usize = 0;
                    while k < n.len() - 4
                        invariant
                            n@.len() >= 4,
                            k <= n@.len() - 4,
                            r@ == n@.subrange(0, k as int),
                        decreases n.len() - 4 - k,
                    {
                        r.push(n[k]);
                        k = k + 1;
                        assert(r@ =~= n@.subrange(0, k as int));
                    }
                    r
                } else {
                    Vec::new()
                };
                assert(root@ =~= resolved_root(bv[0]));
                if root.len() > 0 && !crate::text::chars_eq(&root, &home) {
                    let mut d = string_of("nvcc resolves to ");
                    let ft = string_from_chars(first);
                    d.append(ft.as_str());
                    d.append(" (root ");
                    let rt = string_from_chars(&root);
                    d.append(rt.as_str());
                    d.append(") but CUDA_HOME=");
                    let ht = string_from_chars(&home);
                    d.append(ht.as_str());
                    d.append("; builds will use a different toolkit than the active one.");
                    push_finding(
                        &mut out,
                        finding(
                            "NVCC_MISMATCH",
                            Severity::Block,
                            "nvcc does not match CUDA_HOME",
                            d,
                            Some("Run `cuvm use <ver>` so the active bin is first on PATH."),
                        ),
                    );
                }
            }
        },
        None => {},
    }
    assert(findings_view(out@) =~= dup + stale + nvcc);
    // LD hygiene: duplicate CUDA lib directories (a warning only).
    let libs = cuda_dirs_exec(&s.ld_library_path, s.path_sep, &active, true);
    let ghost lv = parts_view(libs@);
    let ghost ld_dup = one_if(
        lv.len() > 1,
        (
            "LD_DUP_CUDA"@,
            Severity::Warn,
            "Multiple CUDA lib directories on LD_LIBRARY_PATH"@,
            "LD_LIBRARY_PATH has "@ + decimal(lv.len()) + " CUDA lib entries: "@ + join(
                lv,
                ", "@,
            ),
            Some("`cuvm use <ver>` strips the recorded CUVM_INJECTED lib segment first."@),
        ),
    );
    if libs.len() > 1 {
        let mut d = string_of("LD_LIBRARY_PATH has ");
        let n = usize_decimal(libs.len());
        d.append(n.as_str());
        d.append(" CUDA lib entries: ");
        let joined = string_from_chars(&join_with(&libs, ", "));
        d.append(joined.as_str());
        push_finding(
            &mut out,
            finding(
                "LD_DUP_CUDA",
                Severity::Warn,
                "Multiple CUDA lib directories on LD_LIBRARY_PATH",
                d,
                Some("`cuvm use <ver>` strips the recorded CUVM_INJECTED lib segment first."),
            ),
        );
    }
    assert(findings_view(out@) =~= dup + stale + nvcc + ld_dup);
    if out.len() == 0 {
        push_finding(
            &mut out,
            finding(
                "PATH_HYGIENE",
                Severity::Okay,
                "PATH / LD_LIBRARY_PATH clean",
                string_of("no duplicate or stale CUDA entries; nvcc matches CUDA_HOME."),
                None,
            ),
        );
    }
    out
}

/// Every diagnostic composed into one ordered report: the driver-ceiling
/// finding, then the hygiene findings.
pub fn run_doctor<E: CompatEngine + ?Sized>(
    engine: &E,
    driver: &Driver,
    active: Option<&Version>,
    env: &EnvSnapshot,
) -> (r: DoctorReport)
    ensures
        r.findings@.len() >= 2,
        r.findings@[0].code@ == "DRIVER_ABSENT"@ || r.findings@[0].code@ == "DRIVER_CEILING"@,
        r.findings@[0].severity != Severity::Block,
        !driver.present ==> finding_view(r.findings@[0]) == absent_driver_finding(),
        driver.present ==> match engine.ceiling_for(*driver) {
            Some(c) => finding_view(r.findings@[0]) == ceiling_finding(
                driver.gpu_class,
                driver.version.raw@,
                Ok(c.1),
                match active {
                    Some(a) => Some((a.raw@, engine.toolkit_verdict(*driver, vv(*a), false))),
                    None => None,
                },
            ),
            None => exists|msg: Seq<char>|
                finding_view(r.findings@[0]) == #[trigger] ceiling_finding(
                    driver.gpu_class,
                    driver.version.raw@,
                    Err(msg),
                    None,
                ),
        },
        findings_view(r.findings@).drop_first() == hygiene_findings(
            env.path@,
            env.ld_library_path@,
            opt_text(env.cuda_home),
            opt_text(env.active_root),
            env.path_sep,
        ),
{
    let mut findings: Vec<Finding> = Vec::new();
    let first = check_driver_ceiling(engine, driver, active);
    findings.push(first);
    let mut rest = check_path_hygiene(env);
    let ghost restv = findings_view(rest@);
    findings.append(&mut rest);
    assert(findings_view(findings@).drop_first() =~= restv);
    assert(findings@[0] == first);
    proof {
        lemma_hygiene_report_shape(
            env.path@,
            env.ld_library_path@,
            opt_text(env.cuda_home),
            opt_text(env.active_root),
            env.path_sep,
        );
    }
    DoctorReport { findings }
}

/// Where the active toolkit lives, as `doctor` reads it: the recorded path
/// of the first bundle of the active handle, else `<home>/versions/<handle>`.
pub fn active_root_of(records: &Vec<BundleRecord>, home: &str, active: &str) -> (r: String)
    ensures
        r@ == match first_record(records@, active@) {
            Some(i) => records@[i].path@,
            None => join_relative(join_relative(home@, "versions"@), active@),
        },
{
    let mut i: usize = 0;
    while i < records.len()
        invariant
            i <= records@.len(),
            forall|j: int| 0 <= j < i ==> #[trigger] records@[j].version@ != active@,
        decreases records.len() - i,
    {
        if crate::text::str_eq(records[i].version.as_str(), active) {
            proof {
                let w = choose|k: int|
                    0 <= k < records@.len() && #[trigger] records@[k].version@ == active@ && forall|j: int|
                        0 <= j < k ==> #[trigger] records@[j].version@ != active@;
                assert(records@[i as int].version@ == active@);
                if w > i {
                    assert(records@[i as int].version@ != active@);
                }
                assert(w == i);
            }
            return records[i].path.clone();
        }
        i = i + 1;
    }
    let versions = join_under(home, "versions");
    join_under(versions.as_str(), active)
}

} // verus!
