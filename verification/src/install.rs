//! `install` decisions: the driver-ceiling gate, which remote release a spec
//! names, and which scanned toolkit a download may degrade to adopting.
use vstd::prelude::*;
use vstd::string::*;

use crate::compat_tables::vv;
use crate::composition::{join_relative, join_under};
use crate::domain::{Bundle, Driver, GpuClass, Source};
use crate::manifest::{without_handle, BundleRecord};
use crate::pick::{fields_of, is_last_newest, last_newest, text_fields_match, text_fields_match_exec};
use crate::ports::{CompatEngine, Severity, Verdict};
use crate::text::{
    copy_opt_string, copy_strings, decimal, opt_str_view, str_chars, str_eq, string_of, strings_view,
    usize_decimal,
};
use crate::version::{has_prefix, has_prefix_exec, version_fields, Version};

verus! {

/// cuDNN behaviour for an install run.
pub struct CudnnOpts {
    /// `--cudnn <ver>` override; `None` pairs the matrix default.
    pub explicit: Option<String>,
    /// `--no-cudnn`.
    pub skip: bool,
    /// `--accept-eula`.
    pub accept_eula: bool,
}

/// Result of the driver-ceiling screen. It is advisory: it refuses only
/// when the toolkit is incompatible and `--force` was not passed; a missing
/// driver always proceeds ("driver unknown, build-only OK").
#[derive(Debug)]
pub enum GateOutcome {
    /// Compatible (or forced, or no driver): the install may proceed.
    Proceed,
    /// Incompatible and not forced: the install is refused.
    Refused {
        /// Why the toolkit was deemed incompatible with the driver.
        reason: String,
        /// Actionable hint (always mentions `--force`; may add a cuda-compat note).
        hint: String,
    },
}

/// An outcome as `None` (proceed) or the refusal's reason and hint.
pub open spec fn gate_view(g: GateOutcome) -> Option<(Seq<char>, Seq<char>)> {
    match g {
        GateOutcome::Proceed => None,
        GateOutcome::Refused { reason, hint } => Some((reason@, hint@)),
    }
}

/// The cuda-compat note for an eligible GPU whose verdict allows it.
pub open spec fn compat_note(forward_compat_possible: bool, class: GpuClass) -> Seq<char> {
    if forward_compat_possible && (class == GpuClass::DataCenter || class == GpuClass::Jetson
        || class == GpuClass::NgcReadyRtx) {
        " This GPU class is cuda-compat eligible (Linux): a forward-compat package may raise the ceiling."@
    } else {
        Seq::<char>::empty()
    }
}

/// The screen's decision for a present driver of class `class` and the engine's
/// non-strict verdict (ok, severity, reason, forward-compat possible): the
/// outcome, and the warning line to print when `--force` overrides a refusal.
pub open spec fn gate_decision(
    class: GpuClass,
    v: (bool, Severity, Seq<char>, bool),
    force: bool,
) -> (Option<(Seq<char>, Seq<char>)>, Option<Seq<char>>) {
    if v.0 || v.1 == Severity::Okay {
        (None, None)
    } else {
        let note = compat_note(v.3, class);
        if force {
            (None, Some("cuvm: warning: "@ + v.2 + " (proceeding due to --force)."@ + note))
        } else {
            (Some((v.2, "re-run with --force to install anyway. (cuda-compat)"@ + note)), None)
        }
    }
}

/// `--force` always proceeds: the screen refuses exactly when `--force` was
/// not passed and the verdict is neither ok nor `Okay`, whatever its
/// severity; a refusal carries the verdict's reason and a hint naming
/// `--force`, and an override under `--force` prints a warning.
pub proof fn lemma_force_always_proceeds(
    class: GpuClass,
    v: (bool, Severity, Seq<char>, bool),
    force: bool,
)
    ensures
        force ==> gate_decision(class, v, force).0 is None,
        gate_decision(class, v, force).0 is Some <==> (!force && !v.0 && v.1 != Severity::Okay),
        gate_decision(class, v, force).0 matches Some((reason, hint)) ==> reason == v.2
            && crate::text::contains_seq(hint, "--force"@),
        gate_decision(class, v, force).1 is Some <==> (force && !v.0 && v.1 != Severity::Okay),
{
    reveal_strlit("--force");
    reveal_strlit("re-run with --force to install anyway. (cuda-compat)");
    let note = compat_note(v.3, class);
    let lit = "re-run with --force to install anyway. (cuda-compat)"@;
    let hint = lit + note;
    assert(lit.len() == 52);
    assert(lit.subrange(12, 19) =~= "--force"@);
    assert(hint.subrange(12, 19) =~= lit.subrange(12, 19));
    assert(crate::text::occurs_at(hint, "--force"@, 12));
}

/// The screen's decision for a present driver, given the engine's non-strict
/// verdict on the wanted toolkit: the outcome, and the warning line to print
/// when `--force` overrides a refusal.
pub fn gate_outcome_for(driver: &Driver, verdict: &Verdict, force: bool) -> (r: (
    GateOutcome,
    Option<String>,
))
    ensures
        (gate_view(r.0), crate::text::opt_str_view(r.1)) == gate_decision(
            driver.gpu_class,
            (verdict.ok, verdict.severity, verdict.reason@, verdict.forward_compat_possible),
            force,
        ),
        force ==> gate_view(r.0) is None,
        gate_view(r.0) is Some <==> (!force && !verdict.ok && verdict.severity != Severity::Okay),
{
    proof {
        lemma_force_always_proceeds(
            driver.gpu_class,
            (verdict.ok, verdict.severity, verdict.reason@, verdict.forward_compat_possible),
            force,
        );
    }
    if verdict.ok || verdict.severity == Severity::Okay {
        return (GateOutcome::Proceed, None);
    }
    let eligible = driver.gpu_class == GpuClass::DataCenter || driver.gpu_class == GpuClass::Jetson
        || driver.gpu_class == GpuClass::NgcReadyRtx;
    let note = if verdict.forward_compat_possible && eligible {
        " This GPU class is cuda-compat eligible (Linux): a forward-compat package may raise the ceiling."
    } else {
        ""
    };
    proof {
        reveal_strlit("");
    }
    if force {
        let mut w = string_of("cuvm: warning: ");
        w.append(verdict.reason.as_str());
        w.append(" (proceeding due to --force).");
        w.append(note);
        return (GateOutcome::Proceed, Some(w));
    }
    let mut hint = string_of("re-run with --force to install anyway. (cuda-compat)");
    hint.append(note);
    (GateOutcome::Refused { reason: verdict.reason.clone(), hint }, None)
}

/// Run the driver-ceiling check and decide whether to proceed. It never
/// hard-blocks: an exceeded ceiling is a refusal that `--force` overrides,
/// with a cuda-compat note when the GPU class is forward-compat eligible.
/// A missing driver proceeds without consulting the engine. Returns the
/// outcome and the warning line to print when `--force` overrode a refusal.
/// For a present driver the decision follows the engine's non-strict verdict
/// on `want`.
pub fn compat_gate<E: CompatEngine + ?Sized>(engine: &E, driver: &Driver, want: &Version, force: bool) -> (r:
    (GateOutcome, Option<String>))
    ensures
        !driver.present ==> gate_view(r.0) is None && r.1 is None,
        driver.present ==> (gate_view(r.0), crate::text::opt_str_view(r.1)) == gate_decision(
            driver.gpu_class,
            engine.toolkit_verdict(*driver, vv(*want), false),
            force,
        ),
        force ==> gate_view(r.0) is None,
{
    if !driver.present {
        return (GateOutcome::Proceed, None);
    }
    let verdict = engine.check_toolkit(driver, want, false);
    let r = gate_outcome_for(driver, &verdict, force);
    assert((gate_view(r.0), crate::text::opt_str_view(r.1)) == gate_decision(
        driver.gpu_class,
        (verdict.ok, verdict.severity, verdict.reason@, verdict.forward_compat_possible),
        force,
    ));
    r
}

/// On Windows an install whose resolved component set is empty (CUDA 13.x
/// ships no Windows redist) degrades to adopting an in-place toolkit: the
/// warning reason, or `None` where the install goes on (off Windows, or with
/// components to fetch).
pub fn empty_plan_degrade(windows: bool, artifact_count: usize, handle: &str) -> (r: Option<String>)
    ensures
        r is Some <==> windows && artifact_count == 0,
        r matches Some(m) ==> m@ == "no windows-x86_64 redist components resolved for "@ + handle@,
{
    if windows && artifact_count == 0 {
        let mut m = string_of("no windows-x86_64 redist components resolved for ");
        m.append(handle);
        Some(m)
    } else {
        None
    }
}

/// On Windows a failed download (enterprise lockdown) degrades to adopting
/// an in-place toolkit: the warning reason, given the failure's message;
/// `None` off Windows, where the failure is the install's error.
pub fn blocked_download_degrade(windows: bool, failure: &str) -> (r: Option<String>)
    ensures
        r is Some <==> windows,
        r matches Some(m) ==> m@ == "windows download blocked, degrading to adopt-only: "@ + failure@,
{
    if windows {
        let mut m = string_of("windows download blocked, degrading to adopt-only: ");
        m.append(failure);
        Some(m)
    } else {
        None
    }
}

/// A scanned candidate satisfies a registry handle when it has fields and
/// all of them equal the handle's leading fields (`12.4` matches `12.4.1`;
/// `12.4.0` does not).
pub open spec fn adopt_matches(handle: Seq<char>, candidate: Seq<u32>) -> bool {
    match version_fields(handle) {
        None => false,
        Some(w) => candidate.len() > 0 && has_prefix(w, candidate),
    }
}

/// Whether a scanned adopt `candidate` satisfies the registry-resolved
/// `handle`. Windows scan candidates come from `v<major>.<minor>` directories
/// and usually carry only two fields.
pub fn adopt_candidate_matches(handle: &str, candidate: &Version) -> (r: bool)
    ensures
        r == adopt_matches(handle@, candidate.fields@),
{
    let want = match Version::parse(handle) {
        Ok(w) => w,
        Err(_) => return false,
    };
    candidate.fields.len() > 0 && has_prefix_exec(&want.fields, &candidate.fields)
}

/// A remote release satisfies an install spec: `latest` takes anything;
/// otherwise the spec's dot-separated fields must equal, as text, the
/// release's leading fields.
pub open spec fn remote_matches(spec: Seq<char>, f: Seq<u32>) -> bool {
    spec == "latest"@ || text_fields_match(spec, f)
}

/// Whether `version` satisfies `spec` (exact `X.Y.Z`, minor `X.Y`, major `X`,
/// or `latest`).
pub fn version_matches(spec: &str, version: &Version) -> (r: bool)
    ensures
        r == remote_matches(spec@, version.fields@),
{
    if str_eq(spec, "latest") {
        return true;
    }
    text_fields_match_exec(spec, version)
}

/// The releases a spec selects.
pub open spec fn remote_selection(av: Seq<Version>, spec: Seq<char>) -> Seq<bool> {
    Seq::new(av.len(), |j: int| remote_matches(spec, av[j].fields@))
}

/// The newest remote release matching `spec` (the last of equal newest ones
/// as listed), as `install` resolves it.
pub fn pick_remote(available: &[Version], spec: &str) -> (r: Option<Version>)
    ensures
        match r {
            Some(v) => exists|i: int|
                #[trigger] is_last_newest(
                    fields_of(available@),
                    remote_selection(available@, spec@),
                    i,
                ) && v.fields@ == available@[i].fields@ && v.raw@ == available@[i].raw@,
            None => forall|j: int|
                0 <= j < available@.len() ==> !#[trigger] remote_matches(
                    spec@,
                    available@[j].fields@,
                ),
        },
{
    let mut sel: Vec<bool> = Vec::new();
    let mut k: usize = 0;
    while k < available.len()
        invariant
            k <= available@.len(),
            sel@.len() == k,
            forall|j: int|
                0 <= j < k ==> #[trigger] sel@[j] == remote_matches(spec@, available@[j].fields@),
        decreases available.len() - k,
    {
        sel.push(version_matches(spec, &available[k]));
        k = k + 1;
    }
    assert(sel@ =~= remote_selection(available@, spec@));
    match last_newest(available, &sel) {
        Some(i) => Some(available[i].copy()),
        None => {
            assert forall|j: int| 0 <= j < available@.len() implies !#[trigger] remote_matches(
                spec@,
                available@[j].fields@,
            ) by {
                assert(!sel@[j]);
            }
            None
        },
    }
}

/// Whether a bundle of `handle` is recorded.
pub open spec fn recorded(records: Seq<BundleRecord>, handle: Seq<char>) -> bool {
    exists|i: int| 0 <= i < records.len() && #[trigger] records[i].version@ == handle
}

/// Whether a bundle of `handle` is recorded among `records`.
pub fn has_bundle(records: &Vec<BundleRecord>, handle: &str) -> (r: bool)
    ensures
        r == recorded(records@, handle@),
{
    let mut i: usize = 0;
    while i < records.len()
        invariant
            i <= records@.len(),
            forall|j: int| 0 <= j < i ==> #[trigger] records@[j].version@ != handle@,
        decreases records.len() - i,
    {
        if str_eq(records[i].version.as_str(), handle) {
            return true;
        }
        i = i + 1;
    }
    false
}

/// How one install target begins once the registry has been listed.
#[derive(Debug)]
pub enum InstallStart {
    /// Already installed and `--reinstall` not passed: nothing to do.
    AlreadyPresent { handle: String },
    /// Go on with `want`; `existed` when a bundle of its handle is recorded
    /// (the install then replaces it).
    Proceed { want: Version, existed: bool },
}

/// The release an install target resolves to, then whether it is already
/// present: the newest remote release matching `spec` (the last of equal
/// newest ones as listed), refused when none matches; a recorded one is left
/// alone unless `reinstall`.
pub fn start_install(
    available: &[Version],
    records: &Vec<BundleRecord>,
    spec: &str,
    reinstall: bool,
) -> (r: Result<InstallStart, String>)
    ensures
        match r {
            Err(m) => m@ == "no remote toolkit matches `"@ + spec@ + "`"@ && forall|j: int|
                0 <= j < available@.len() ==> !#[trigger] remote_matches(
                    spec@,
                    available@[j].fields@,
                ),
            Ok(InstallStart::AlreadyPresent { handle }) => !reinstall && exists|i: int|
                #[trigger] is_last_newest(
                    fields_of(available@),
                    remote_selection(available@, spec@),
                    i,
                ) && handle@ == available@[i].raw@ && recorded(records@, available@[i].raw@),
            Ok(InstallStart::Proceed { want, existed }) => exists|i: int|
                #[trigger] is_last_newest(
                    fields_of(available@),
                    remote_selection(available@, spec@),
                    i,
                ) && want.fields@ == available@[i].fields@ && want.raw@ == available@[i].raw@
                    && existed == recorded(records@, available@[i].raw@) && (existed
                    ==> reinstall),
        },
{
    let want = match pick_remote(available, spec) {
        Some(w) => w,
        None => {
            let mut m = string_of("no remote toolkit matches `");
            m.append(spec);
            m.append("`");
            return Err(m);
        },
    };
    let existed = has_bundle(records, want.raw.as_str());
    if existed && !reinstall {
        return Ok(InstallStart::AlreadyPresent { handle: want.raw.clone() });
    }
    Ok(InstallStart::Proceed { want, existed })
}

/// The error an install target fails with when the driver-ceiling screen
/// refuses it: the reason, then the hint on a line of its own.
pub fn refusal_error(g: &GateOutcome) -> (r: Option<String>)
    ensures
        match gate_view(*g) {
            None => r is None,
            Some((reason, hint)) => opt_str_view(r) == Some(reason + "\nhint: "@ + hint),
        },
{
    match g {
        GateOutcome::Proceed => None,
        GateOutcome::Refused { reason, hint } => {
            let mut m = reason.clone();
            m.append("\nhint: ");
            m.append(hint.as_str());
            Some(m)
        },
    }
}

/// The manifest record of a freshly downloaded toolkit: placed under
/// `versions/<handle>` (relative to the cuvm home), with no checksum.
pub fn downloaded_record(
    handle: &str,
    cudnn: Option<String>,
    components: Vec<String>,
    installed_at: time::OffsetDateTime,
) -> (r: BundleRecord)
    ensures
        r.version@ == handle@,
        r.source == Source::Downloaded,
        r.path@ == "versions/"@ + handle@,
        r.cudnn == cudnn,
        r.components@ == components@,
        r.sha256 is None,
        r.installed_at == installed_at,
{
    let mut path = string_of("versions/");
    path.append(handle);
    BundleRecord {
        version: string_of(handle),
        source: Source::Downloaded,
        path,
        cudnn,
        components,
        sha256: None,
        installed_at,
    }
}

/// What installing one target did.
#[derive(Debug)]
pub enum InstallOutcome {
    /// Freshly installed (no earlier bundle of this handle).
    Installed { handle: String, path: String },
    /// Installed over an existing bundle (`--reinstall`).
    Reinstalled { handle: String, path: String },
    /// Already present and `--reinstall` not passed: nothing done.
    AlreadyPresent { handle: String },
    /// The download degraded to adopting a toolkit in place (Windows).
    Adopted { handle: String, path: String },
}

/// The outcome of a placed toolkit: a reinstall when a bundle of its handle
/// was recorded before.
pub fn placed_outcome(handle: String, path: String, existed: bool) -> (r: InstallOutcome)
    ensures
        existed ==> r == (InstallOutcome::Reinstalled { handle, path }),
        !existed ==> r == (InstallOutcome::Installed { handle, path }),
{
    if existed {
        InstallOutcome::Reinstalled { handle, path }
    } else {
        InstallOutcome::Installed { handle, path }
    }
}

/// The line an outcome prints and whether it goes to standard output (a
/// change) rather than standard error (a notice).
pub open spec fn outcome_report(o: InstallOutcome) -> (Seq<char>, bool) {
    match o {
        InstallOutcome::Installed { handle, path } => (
            "+ cuda "@ + handle@ + "  ->  "@ + path@,
            true,
        ),
        InstallOutcome::Reinstalled { handle, path } => (
            "~ cuda "@ + handle@ + "  ->  "@ + path@,
            true,
        ),
        InstallOutcome::Adopted { handle, path } => (
            "+ cuda "@ + handle@ + " (adopted)  ->  "@ + path@,
            true,
        ),
        InstallOutcome::AlreadyPresent { handle } => (
            "cuvm: "@ + handle@ + " is already installed"@,
            false,
        ),
    }
}

/// The handle an outcome changed, if it changed one.
pub open spec fn outcome_change(o: InstallOutcome) -> Option<Seq<char>> {
    match o {
        InstallOutcome::Installed { handle, .. } => Some(handle@),
        InstallOutcome::Reinstalled { handle, .. } => Some(handle@),
        InstallOutcome::Adopted { handle, .. } => Some(handle@),
        InstallOutcome::AlreadyPresent { .. } => None,
    }
}

/// The running account of an `install` run over several targets.
pub struct InstallTally {
    /// Handles installed, reinstalled or adopted, in order.
    pub changed: Vec<String>,
    /// Targets that failed.
    pub failed: usize,
}

/// The summary line after all targets, and whether it is dimmed: nothing
/// when nothing changed unless every target of several was already there;
/// else the one changed handle or the count, with the elapsed seconds.
pub open spec fn install_summary(
    changed: Seq<Seq<char>>,
    failed: nat,
    requested: nat,
    elapsed: Seq<char>,
) -> Option<(Seq<char>, bool)> {
    if changed.len() == 0 {
        if failed == 0 && requested > 1 {
            Some(("cuvm: all requested versions already installed"@, false))
        } else {
            None
        }
    } else if changed.len() == 1 {
        Some(("Installed CUDA "@ + changed[0] + " in "@ + elapsed + "s"@, true))
    } else {
        Some(("Installed "@ + decimal(changed.len()) + " toolkits in "@ + elapsed + "s"@, true))
    }
}

impl InstallTally {
    /// No target seen yet.
    pub fn new() -> (t: InstallTally)
        ensures
            t.changed@.len() == 0,
            t.failed == 0,
    {
        InstallTally { changed: Vec::new(), failed: 0 }
    }

    /// Account for one target: its outcome, or the error it failed with.
    /// Returns the line to print and whether it goes to standard output.
    pub fn note(&mut self, spec: &str, outcome: Result<InstallOutcome, String>) -> (r: (
        String,
        bool,
    ))
        requires
            old(self).failed < usize::MAX,
        ensures
            match outcome {
                Ok(o) => {
                    &&& (r.0@, r.1) == outcome_report(o)
                    &&& final(self).failed == old(self).failed
                    &&& strings_view(final(self).changed@) == match outcome_change(o) {
                        Some(h) => strings_view(old(self).changed@).push(h),
                        None => strings_view(old(self).changed@),
                    }
                },
                Err(e) => {
                    &&& r.0@ == "cuvm: error installing "@ + spec@ + ": "@ + e@
                    &&& !r.1
                    &&& final(self).failed == old(self).failed + 1
                    &&& strings_view(final(self).changed@) == strings_view(old(self).changed@)
                },
            },
    {
        match outcome {
            Ok(o) => {
                let ghost before = strings_view(self.changed@);
                match o {
                    InstallOutcome::Installed { handle, path } => {
                        let mut line = string_of("+ cuda ");
                        line.append(handle.as_str());
                        line.append("  ->  ");
                        line.append(path.as_str());
                        self.changed.push(handle);
                        assert(strings_view(self.changed@) =~= before.push(handle@));
                        (line, true)
                    },
                    InstallOutcome::Reinstalled { handle, path } => {
                        let mut line = string_of("~ cuda ");
                        line.append(handle.as_str());
                        line.append("  ->  ");
                        line.append(path.as_str());
                        self.changed.push(handle);
                        assert(strings_view(self.changed@) =~= before.push(handle@));
                        (line, true)
                    },
                    InstallOutcome::Adopted { handle, path } => {
                        let mut line = string_of("+ cuda ");
                        line.append(handle.as_str());
                        line.append(" (adopted)  ->  ");
                        line.append(path.as_str());
                        self.changed.push(handle);
                        assert(strings_view(self.changed@) =~= before.push(handle@));
                        (line, true)
                    },
                    InstallOutcome::AlreadyPresent { handle } => {
                        let mut line = string_of("cuvm: ");
                        line.append(handle.as_str());
                        line.append(" is already installed");
                        (line, false)
                    },
                }
            },
            Err(e) => {
                let mut line = string_of("cuvm: error installing ");
                line.append(spec);
                line.append(": ");
                line.append(e.as_str());
                self.failed = self.failed + 1;
                (line, false)
            },
        }
    }

    /// The summary line after `requested` targets, `elapsed` being the
    /// seconds taken as the caller renders them, and whether it is dimmed.
    pub fn summary(&self, requested: usize, elapsed: &str) -> (r: Option<(String, bool)>)
        ensures
            match r {
                Some((line, dim)) => install_summary(
                    strings_view(self.changed@),
                    self.failed as nat,
                    requested as nat,
                    elapsed@,
                ) == Some((line@, dim)),
                None => install_summary(
                    strings_view(self.changed@),
                    self.failed as nat,
                    requested as nat,
                    elapsed@,
                ) is None,
            },
    {
        let n = self.changed.len();
        if n == 0 {
            if self.failed == 0 && requested > 1 {
                Some((string_of("cuvm: all requested versions already installed"), false))
            } else {
                None
            }
        } else if n == 1 {
            let mut line = string_of("Installed CUDA ");
            line.append(self.changed[0].as_str());
            line.append(" in ");
            line.append(elapsed);
            line.append("s");
            Some((line, true))
        } else {
            let mut line = string_of("Installed ");
            let count = usize_decimal(n);
            line.append(count.as_str());
            line.append(" toolkits in ");
            line.append(elapsed);
            line.append("s");
            Some((line, true))
        }
    }

    /// The process exit code: 1 when any target failed, else 0.
    pub fn exit_code(&self) -> (r: i32)
        ensures
            r == (if self.failed > 0 {
                1i32
            } else {
                0i32
            }),
    {
        if self.failed > 0 {
            1
        } else {
            0
        }
    }
}

/// The first record of `handle`, if any.
pub open spec fn first_record(records: Seq<BundleRecord>, handle: Seq<char>) -> Option<int> {
    if exists|i: int| 0 <= i < records.len() && #[trigger] records[i].version@ == handle {
        Some(
            choose|i: int|
                0 <= i < records.len() && #[trigger] records[i].version@ == handle && forall|j: int|
                    0 <= j < i ==> #[trigger] records[j].version@ != handle,
        )
    } else {
        None
    }
}

/// Where a record's toolkit lives: its path when absolute (starts with `/`),
/// else that path under the cuvm home.
pub open spec fn record_dir(home: Seq<char>, path: Seq<char>) -> Seq<char> {
    if path.len() > 0 && path[0] == '/' {
        path
    } else {
        join_relative(home, path)
    }
}

/// What `uninstall` of `spec` does: the directory to delete (for a
/// downloaded or supplied bundle; adopted files stay in place), and the line
/// it prints. The bundle is deregistered in every case.
pub fn plan_uninstall(records: &Vec<BundleRecord>, home: &str, spec: &str) -> (r: (
    Option<String>,
    String,
))
    ensures
        match first_record(records@, spec@) {
            None => r.0 is None && r.1@ == "deregistered "@ + spec@,
            Some(i) => if records@[i].source == Source::Adopted {
                r.0 is None && r.1@ == "deregistered "@ + spec@ + " (adopted files left in place)"@
            } else {
                opt_str_view(r.0) == Some(record_dir(home@, records@[i].path@)) && r.1@ == "removed "@
                    + spec@
            },
        },
{
    let mut i: usize = 0;
    while i < records.len()
        invariant
            i <= records@.len(),
            forall|j: int| 0 <= j < i ==> #[trigger] records@[j].version@ != spec@,
        decreases records.len() - i,
    {
        if str_eq(records[i].version.as_str(), spec) {
            proof {
                let w = choose|k: int|
                    0 <= k < records@.len() && #[trigger] records@[k].version@ == spec@ && forall|j: int|
                        0 <= j < k ==> #[trigger] records@[j].version@ != spec@;
                assert(records@[i as int].version@ == spec@);
                if w < i {
                } else if w > i {
                    assert(records@[i as int].version@ != spec@);
                }
                assert(w == i);
            }
            if records[i].source == Source::Adopted {
                let mut m = string_of("deregistered ");
                m.append(spec);
                m.append(" (adopted files left in place)");
                return (None, m);
            }
            let path = records[i].path.as_str();
            let pv = str_chars(path);
            let dir = if pv.len() > 0 && pv[0] == '/' {
                string_of(path)
            } else {
                join_under(home, path)
            };
            let mut m = string_of("removed ");
            m.append(spec);
            return (Some(dir), m);
        }
        i = i + 1;
    }
    let mut m = string_of("deregistered ");
    m.append(spec);
    (None, m)
}

/// The manifest record of a toolkit adopted in place: its handle, its root
/// verbatim as path, its components and checksum, no cuDNN.
pub fn adopted_record(b: &Bundle) -> (r: BundleRecord)
    ensures
        r.version@ == b.toolkit.version.raw@,
        r.source == Source::Adopted,
        r.path@ == b.toolkit.root@,
        r.cudnn is None,
        strings_view(r.components@) == strings_view(b.toolkit.components@),
        opt_str_view(r.sha256) == opt_str_view(b.toolkit.checksum),
        r.installed_at == b.toolkit.installed_at,
{
    BundleRecord {
        version: b.toolkit.version.raw.clone(),
        source: Source::Adopted,
        path: b.toolkit.root.clone(),
        cudnn: None,
        components: copy_strings(&b.toolkit.components),
        sha256: copy_opt_string(&b.toolkit.checksum),
        installed_at: b.toolkit.installed_at.clone(),
    }
}

/// Installing is idempotent: once a release's record is upserted (as
/// `install` records a placed toolkit), its handle is recorded, so the same
/// spec against the same listing starts as already present unless
/// `--reinstall` is given.
pub proof fn lemma_install_idempotent(records: Seq<BundleRecord>, record: BundleRecord)
    ensures
        recorded(without_handle(records, record.version@).push(record), record.version@),
{
    let after = without_handle(records, record.version@).push(record);
    assert(after[after.len() - 1].version@ == record.version@);
}

} // verus!
