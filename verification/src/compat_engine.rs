//! The compatibility engine over the embedded tables: driver ceilings,
//! strict and likely toolkit checks, and cuDNN pairing.
//!
//! All version comparisons use the numeric field order of `Version`, never a
//! lexical string compare.
use vstd::prelude::*;
use vstd::string::*;

use crate::compat_tables::{
    embedded_cudnn_entries, embedded_driver_rows, entries_view, opt_vv, row_view, rows_view, ver,
    vv, contains_u32, CudnnMatrix, DriverCeilingTable, DriverRow,
};
use crate::domain::{Driver, GpuClass, Os};
use crate::ports::VersionView;
use crate::text::{decimal, string_of, u32_decimal};
use crate::version::{
    field_at, lemma_order_from_meaning, lemma_version_order_antisymmetric, lemma_version_order_reflexive,
    lemma_version_order_transitive, version_order, Version,
};

verus! {

/// A driver-table row: CUDA release, Linux minimum, Windows minimum.
pub type RowView = (VersionView, VersionView, Option<VersionView>);

/// A cuDNN-matrix entry: cuDNN line and the CUDA majors it supports.
pub type EntryView = (VersionView, Seq<u32>);

/// How serious a compatibility finding is.
#[derive(Debug, Clone, Copy, PartialEq, Eq, Structural)]
pub enum CompatSeverity {
    Okay,
    Warn,
    Block,
}

/// The verdict of a compatibility check.
#[derive(Debug, Clone)]
pub struct CompatOutcome {
    pub ok: bool,
    pub severity: CompatSeverity,
    pub reason: String,
    pub forward_compat_possible: bool,
}

/// An outcome as (ok, severity, reason, forward-compat possible).
pub type OutcomeView = (bool, CompatSeverity, Seq<char>, bool);

pub open spec fn outcome_view(o: CompatOutcome) -> OutcomeView {
    (o.ok, o.severity, o.reason@, o.forward_compat_possible)
}

/// No toolkit ceiling exists for a driver on its OS.
#[derive(Debug, Clone, Copy, PartialEq, Eq, Structural)]
pub enum CompatLookupError {
    NoCeiling,
}

impl CompatLookupError {
    /// The error's message.
    pub fn to_string(&self) -> (r: String)
        ensures
            r@ == "no CUDA toolkit ceiling for this driver/OS"@,
    {
        string_of("no CUDA toolkit ceiling for this driver/OS")
    }
}

/// The per-OS minimum driver of a row; `None` where the release is N/A on
/// that OS.
pub open spec fn row_min(r: RowView, os: Os) -> Option<VersionView> {
    match os {
        Os::Linux => Some(r.1),
        Os::Windows => r.2,
    }
}

/// A driver with fields `driver` meets the row's minimum on `os`.
pub open spec fn row_admits(r: RowView, os: Os, driver: Seq<u32>) -> bool {
    match row_min(r, os) {
        Some(m) => version_order(m.0, driver) <= 0,
        None => false,
    }
}

/// Row `i` is the driver's ceiling: it admits the driver, no admitting row
/// names a newer CUDA release, and every earlier admitting row names an older
/// one (so among equal releases the first row counts).
pub open spec fn is_ceiling_row(rows: Seq<RowView>, os: Os, driver: Seq<u32>, i: int) -> bool {
    &&& 0 <= i < rows.len()
    &&& row_admits(rows[i], os, driver)
    &&& forall|j: int|
        0 <= j < rows.len() && #[trigger] row_admits(rows[j], os, driver) ==> version_order(
            rows[j].0.0,
            rows[i].0.0,
        ) <= 0
    &&& forall|j: int|
        0 <= j < i && #[trigger] row_admits(rows[j], os, driver) ==> version_order(
            rows[j].0.0,
            rows[i].0.0,
        ) < 0
}

/// The first row whose CUDA release equals `line` numerically.
pub open spec fn find_row(rows: Seq<RowView>, line: Seq<u32>) -> Option<RowView>
    decreases rows.len(),
{
    if rows.len() == 0 {
        None
    } else if version_order(rows[0].0.0, line) == 0 {
        Some(rows[0])
    } else {
        find_row(rows.drop_first(), line)
    }
}

/// The first entry of the cuDNN line `line`: the first entry whose cuDNN
/// major is `line`.
pub open spec fn find_line_entry(entries: Seq<EntryView>, line: int) -> Option<EntryView>
    decreases entries.len(),
{
    if entries.len() == 0 {
        None
    } else if field_at(entries[0].0.0, 0) == line {
        Some(entries[0])
    } else {
        find_line_entry(entries.drop_first(), line)
    }
}

/// The embedded matrix lists the cuDNN line of `v` (its major) as supporting
/// CUDA `major`.
pub open spec fn pairs_with(v: Seq<u32>, major: u32) -> bool {
    match find_line_entry(embedded_cudnn_entries(), field_at(v, 0)) {
        Some(e) => e.1.contains(major),
        None => false,
    }
}

/// `cuda-compat` is Linux-only and never applies to `GeForce`.
pub open spec fn forward_compat_eligible(os: Os, class: GpuClass) -> bool {
    os == Os::Linux && (class == GpuClass::DataCenter || class == GpuClass::NgcReadyRtx || class
        == GpuClass::Jetson)
}

/// The minor-version-compatibility floor ("likely works") of a CUDA major.
pub open spec fn floor_for(major: int) -> VersionView {
    if major >= 13 {
        (seq![580u32, 65, 6], "580.65.06"@)
    } else {
        (seq![525u32, 60, 13], "525.60.13"@)
    }
}

/// The `major.minor` line of a version's fields.
pub open spec fn line_of(f: Seq<u32>) -> Seq<u32> {
    seq![field_at(f, 0) as u32, field_at(f, 1) as u32]
}

/// The outcome of checking driver `drv` (on `os`, of GPU class `class`)
/// against toolkit `want`, strictly or by the minor-version floor.
pub open spec fn toolkit_outcome(
    os: Os,
    class: GpuClass,
    drv: VersionView,
    want: VersionView,
    strict: bool,
) -> OutcomeView {
    let fwd = forward_compat_eligible(os, class);
    match find_row(embedded_driver_rows(), line_of(want.0)) {
        None => (
            false,
            CompatSeverity::Block,
            "unknown CUDA toolkit "@ + want.1 + " (not in compat table)"@,
            fwd,
        ),
        Some(row) => match row_min(row, os) {
            None => (false, CompatSeverity::Block, "CUDA "@ + want.1 + " is N/A on this OS"@, fwd),
            Some(min) => if version_order(drv.0, min.0) >= 0 {
                (
                    true,
                    CompatSeverity::Okay,
                    "driver "@ + drv.1 + " satisfies CUDA "@ + want.1 + " minimum "@ + min.1,
                    fwd,
                )
            } else if strict {
                (
                    false,
                    CompatSeverity::Block,
                    "driver "@ + drv.1 + " is below CUDA "@ + want.1 + " minimum "@ + min.1
                        + " (use --force or cuda-compat)"@,
                    fwd,
                )
            } else {
                let major = field_at(want.0, 0);
                let fl = floor_for(major);
                if version_order(drv.0, fl.0) >= 0 {
                    (
                        false,
                        CompatSeverity::Warn,
                        "driver "@ + drv.1 + " below strict minimum "@ + min.1 + " but above the "@
                            + decimal(major as nat) + ".x minor-version floor "@ + fl.1
                            + " (likely works)"@,
                        fwd,
                    )
                } else {
                    (
                        false,
                        CompatSeverity::Block,
                        "driver "@ + drv.1 + " below the "@ + decimal(major as nat)
                            + ".x minor-version floor "@ + fl.1,
                        fwd,
                    )
                }
            },
        },
    }
}

/// The cuDNN line a CUDA major needs, for the refusal message.
pub open spec fn cudnn_need(major: u32) -> Seq<char> {
    if major >= 13 {
        "9.x"@
    } else if major <= 11 {
        "8.x"@
    } else {
        "8.x/9.x"@
    }
}

/// The outcome of pairing toolkit `toolkit` with cuDNN `cudnn`.
pub open spec fn pair_outcome(toolkit: VersionView, cudnn: VersionView) -> OutcomeView {
    let major = field_at(toolkit.0, 0) as u32;
    if pairs_with(cudnn.0, major) {
        (
            true,
            CompatSeverity::Okay,
            "cuDNN "@ + cudnn.1 + " supports CUDA "@ + decimal(major as nat) + ".x"@,
            false,
        )
    } else {
        (
            false,
            CompatSeverity::Block,
            "cuDNN "@ + cudnn.1 + " does not support CUDA "@ + decimal(major as nat)
                + ".x (needs cuDNN "@ + cudnn_need(major) + ")"@,
            false,
        )
    }
}

/// Candidate `i` is the newest of `av` that pairs with `major`; among equal
/// newest candidates it is the last.
pub open spec fn is_newest_pairing(av: Seq<Version>, major: u32, i: int) -> bool {
    &&& 0 <= i < av.len()
    &&& pairs_with(av[i].fields@, major)
    &&& forall|j: int|
        0 <= j < av.len() && #[trigger] pairs_with(av[j].fields@, major) ==> version_order(
            av[j].fields@,
            av[i].fields@,
        ) <= 0
    &&& forall|j: int|
        i < j < av.len() && #[trigger] pairs_with(av[j].fields@, major) ==> version_order(
            av[j].fields@,
            av[i].fields@,
        ) < 0
}

/// The ceiling the embedded driver table gives a driver with fields
/// `driver` on `os`: the CUDA release of its ceiling row, or `None` when no
/// row admits the driver.
pub open spec fn table_ceiling(os: Os, driver: Seq<u32>) -> Option<VersionView> {
    let rows = embedded_driver_rows();
    if exists|i: int| is_ceiling_row(rows, os, driver, i) {
        Some(rows[choose|i: int| is_ceiling_row(rows, os, driver, i)].0)
    } else {
        None
    }
}

/// The newest pairing among `av` for CUDA `major` (its fields and text), or
/// `None` when no candidate pairs.
pub open spec fn newest_pick(av: Seq<Version>, major: u32) -> Option<VersionView> {
    if exists|i: int| is_newest_pairing(av, major, i) {
        Some(vv(av[choose|i: int| is_newest_pairing(av, major, i)]))
    } else {
        None
    }
}

/// A driver has at most one ceiling row.
pub proof fn lemma_ceiling_row_unique(rows: Seq<RowView>, os: Os, driver: Seq<u32>, i: int, k: int)
    requires
        is_ceiling_row(rows, os, driver, i),
        is_ceiling_row(rows, os, driver, k),
    ensures
        i == k,
{
    lemma_version_order_antisymmetric(rows[i].0.0, rows[k].0.0);
    if i < k {
        assert(row_admits(rows[i], os, driver));
        assert(row_admits(rows[k], os, driver));
    } else if k < i {
        assert(row_admits(rows[i], os, driver));
        assert(row_admits(rows[k], os, driver));
    }
}

/// A candidate list has at most one newest pairing.
pub proof fn lemma_newest_pairing_unique(av: Seq<Version>, major: u32, i: int, k: int)
    requires
        is_newest_pairing(av, major, i),
        is_newest_pairing(av, major, k),
    ensures
        i == k,
{
    lemma_version_order_antisymmetric(av[i].fields@, av[k].fields@);
    if i < k {
        assert(pairs_with(av[i].fields@, major));
        assert(pairs_with(av[k].fields@, major));
    } else if k < i {
        assert(pairs_with(av[i].fields@, major));
        assert(pairs_with(av[k].fields@, major));
    }
}

proof fn lemma_find_row(rows: Seq<RowView>, line: Seq<u32>, i: int)
    requires
        0 <= i <= rows.len(),
        forall|j: int| 0 <= j < i ==> version_order(#[trigger] rows[j].0.0, line) != 0,
    ensures
        i < rows.len() && version_order(rows[i].0.0, line) == 0 ==> find_row(rows, line) == Some(
            rows[i],
        ),
        i == rows.len() ==> find_row(rows, line) is None,
    decreases i,
{
    if i > 0 {
        assert(version_order(rows[0].0.0, line) != 0);
        let rest = rows.drop_first();
        assert forall|j: int| 0 <= j < i - 1 implies version_order(#[trigger] rest[j].0.0, line)
            != 0 by {
            assert(rest[j] == rows[j + 1]);
        }
        lemma_find_row(rest, line, i - 1);
    }
}

proof fn lemma_find_line_entry(entries: Seq<EntryView>, line: int, i: int)
    requires
        0 <= i <= entries.len(),
        forall|j: int| 0 <= j < i ==> field_at(#[trigger] entries[j].0.0, 0) != line,
    ensures
        i < entries.len() && field_at(entries[i].0.0, 0) == line ==> find_line_entry(entries, line)
            == Some(entries[i]),
        i == entries.len() ==> find_line_entry(entries, line) is None,
    decreases i,
{
    if i > 0 {
        assert(field_at(entries[0].0.0, 0) != line);
        let rest = entries.drop_first();
        assert forall|j: int| 0 <= j < i - 1 implies field_at(#[trigger] rest[j].0.0, 0)
            != line by {
            assert(rest[j] == entries[j + 1]);
        }
        lemma_find_line_entry(rest, line, i - 1);
    }
}

/// No two rows of the embedded driver table name the same CUDA release.
proof fn lemma_embedded_rows_distinct(j: int, k: int)
    requires
        0 <= j < k < embedded_driver_rows().len(),
    ensures
        version_order(embedded_driver_rows()[j].0.0, embedded_driver_rows()[k].0.0) != 0,
{
    let rows = embedded_driver_rows();
    lemma_order_from_meaning(rows[j].0.0, rows[k].0.0, 0);
    assert(field_at(rows[j].0.0, 0) != field_at(rows[k].0.0, 0) || field_at(rows[j].0.0, 1)
        != field_at(rows[k].0.0, 1));
}

/// The ceiling passes a strict check: where the embedded table gives a
/// driver (on `os`, of class `class`, version `drv`) a toolkit ceiling,
/// checking that ceiling strictly against the driver is ok.
pub proof fn lemma_ceiling_passes_strict_check(os: Os, class: GpuClass, drv: VersionView)
    requires
        table_ceiling(os, drv.0) is Some,
    ensures
        toolkit_outcome(os, class, drv, table_ceiling(os, drv.0).unwrap(), true).0,
        toolkit_outcome(os, class, drv, table_ceiling(os, drv.0).unwrap(), true).1
            == CompatSeverity::Okay,
{
    let rows = embedded_driver_rows();
    let i = choose|i: int| is_ceiling_row(rows, os, drv.0, i);
    let c = rows[i].0;
    assert(c.0.len() == 2);
    assert(line_of(c.0) =~= c.0);
    assert forall|j: int| 0 <= j < i implies version_order(#[trigger] rows[j].0.0, c.0) != 0 by {
        lemma_embedded_rows_distinct(j, i);
    }
    lemma_version_order_reflexive(c.0);
    lemma_find_row(rows, c.0, i);
    assert(find_row(rows, line_of(c.0)) == Some(rows[i]));
    let m = row_min(rows[i], os).unwrap();
    assert(row_min(rows[i], os) == Some(m));
    lemma_version_order_antisymmetric(m.0, drv.0);
    assert(version_order(drv.0, m.0) >= 0);
}

/// A strict check of toolkit `v` against driver `d` is ok, with severity
/// `Okay`.
pub open spec fn ceiling_passes_strict(d: Driver, v: Version) -> bool {
    let o = toolkit_outcome(d.platform.os, d.gpu_class, vv(d.version), vv(v), true);
    o.0 && o.1 == CompatSeverity::Okay
}

/// The ceiling `max_toolkit_for_driver` returns passes a strict check: for a
/// driver `d` whose lookup gives `v`, `check_toolkit(d, v, true)` is ok.
pub proof fn lemma_returned_ceiling_passes_strict_check(d: Driver, v: Version)
    requires
        table_ceiling(d.platform.os, d.version.fields@) == Some(vv(v)),
    ensures
        ceiling_passes_strict(d, v),
{
    lemma_ceiling_passes_strict_check(d.platform.os, d.gpu_class, vv(d.version));
}

/// Forward compatibility (`cuda-compat`) is offered exactly on Linux for a
/// data-center, Jetson or NGC-ready RTX GPU, whatever the toolkit, the
/// driver version and the strictness: never on Windows, never for GeForce
/// or an unknown class.
pub proof fn lemma_forward_compat_eligibility(
    os: Os,
    class: GpuClass,
    drv: VersionView,
    want: VersionView,
    strict: bool,
)
    ensures
        toolkit_outcome(os, class, drv, want, strict).3 == (os == Os::Linux && (class
            == GpuClass::DataCenter || class == GpuClass::Jetson || class == GpuClass::NgcReadyRtx)),
{
}

/// The default compatibility engine over the embedded tables.
pub struct DefaultCompatEngine {
    drivers: DriverCeilingTable,
    cudnn: CudnnMatrix,
}

fn outcome(ok: bool, severity: CompatSeverity, reason: String, fwd: bool) -> (o: CompatOutcome)
    ensures
        outcome_view(o) == (ok, severity, reason@, fwd),
{
    CompatOutcome { ok, severity, reason, forward_compat_possible: fwd }
}

/// The per-OS minimum driver of a row.
fn os_min(row: &DriverRow, os: Os) -> (r: Option<&Version>)
    ensures
        match r {
            Some(v) => row_min(row_view(*row), os) == Some(vv(*v)),
            None => row_min(row_view(*row), os) is None,
        },
{
    match os {
        Os::Linux => Some(&row.linux_min),
        Os::Windows => match &row.windows_min {
            Some(v) => Some(v),
            None => None,
        },
    }
}

/// The minor-version-compatibility floor for a toolkit's CUDA major.
fn floor_version(major: u32) -> (v: Version)
    ensures
        vv(v) == floor_for(major as int),
{
    if major >= 13 {
        ver(&[580, 65, 6], "580.65.06")
    } else {
        ver(&[525, 60, 13], "525.60.13")
    }
}

fn fwd_eligible(d: &Driver) -> (r: bool)
    ensures
        r == forward_compat_eligible(d.platform.os, d.gpu_class),
{
    d.platform.os == Os::Linux && (d.gpu_class == GpuClass::DataCenter || d.gpu_class
        == GpuClass::NgcReadyRtx || d.gpu_class == GpuClass::Jetson)
}

impl DefaultCompatEngine {
    #[verifier::type_invariant]
    spec fn holds_embedded_tables(&self) -> bool {
        &&& rows_view(self.drivers.rows@) == embedded_driver_rows()
        &&& entries_view(self.cudnn.entries@) == embedded_cudnn_entries()
    }

    /// The driver table the engine reads.
    pub closed spec fn driver_rows(&self) -> Seq<RowView> {
        rows_view(self.drivers.rows@)
    }

    /// The cuDNN matrix the engine reads.
    pub closed spec fn cudnn_entries(&self) -> Seq<EntryView> {
        entries_view(self.cudnn.entries@)
    }

    /// An engine over the embedded tables.
    pub fn new() -> (e: Self)
        ensures
            e.driver_rows() == embedded_driver_rows(),
            e.cudnn_entries() == embedded_cudnn_entries(),
    {
        DefaultCompatEngine { drivers: DriverCeilingTable::load(), cudnn: CudnnMatrix::load() }
    }

    /// Inverse lookup: the highest CUDA release whose per-OS minimum is at
    /// most the driver's version.
    ///
    /// Fails with [`CompatLookupError::NoCeiling`] exactly when no row admits
    /// the driver.
    pub fn max_toolkit_for_driver(&self, d: &Driver) -> (r: Result<Version, CompatLookupError>)
        ensures
            match r {
                Ok(v) => table_ceiling(d.platform.os, d.version.fields@) == Some(vv(v)),
                Err(_) => table_ceiling(d.platform.os, d.version.fields@) is None,
            },
            r matches Ok(v) ==> ceiling_passes_strict(*d, v),
            match r {
                Ok(v) => exists|i: int|
                    is_ceiling_row(embedded_driver_rows(), d.platform.os, d.version.fields@, i)
                        && vv(v) == embedded_driver_rows()[i].0,
                Err(_) => forall|j: int|
                    0 <= j < embedded_driver_rows().len() ==> !#[trigger] row_admits(
                        embedded_driver_rows()[j],
                        d.platform.os,
                        d.version.fields@,
                    ),
            },
    {
        proof {
            use_type_invariant(self);
        }
        let os = d.platform.os;
        let rows = &self.drivers.rows;
        let ghost rv = rows_view(rows@);
        let ghost dv = d.version.fields@;
        let mut best: Option<usize> = None;
        let mut i: usize = 0;
        while i < rows.len()
            invariant
                i <= rows@.len(),
                rv == rows_view(rows@),
                dv == d.version.fields@,
                os == d.platform.os,
                match best {
                    None => forall|j: int| 0 <= j < i ==> !#[trigger] row_admits(rv[j], os, dv),
                    Some(b) => {
                        &&& b < i
                        &&& row_admits(rv[b as int], os, dv)
                        &&& forall|j: int|
                            0 <= j < i && #[trigger] row_admits(rv[j], os, dv) ==> version_order(
                                rv[j].0.0,
                                rv[b as int].0.0,
                            ) <= 0
                        &&& forall|j: int|
                            0 <= j < b && #[trigger] row_admits(rv[j], os, dv) ==> version_order(
                                rv[j].0.0,
                                rv[b as int].0.0,
                            ) < 0
                    },
                },
            decreases rows.len() - i,
        {
            let row = &rows[i];
            assert(rv[i as int] == row_view(*row));
            match os_min(row, os) {
                Some(min) => {
                    if min.compare_to(&d.version) <= 0 {
                        let replace = match best {
                            Some(b) => row.cuda.compare_to(&rows[b].cuda) > 0,
                            None => true,
                        };
                        if replace {
                            proof {
                                lemma_version_order_reflexive(rv[i as int].0.0);
                                if let Some(b) = best {
                                    lemma_version_order_antisymmetric(
                                        rv[i as int].0.0,
                                        rv[b as int].0.0,
                                    );
                                    assert forall|j: int|
                                        0 <= j < i && #[trigger] row_admits(
                                            rv[j],
                                            os,
                                            dv,
                                        ) implies version_order(rv[j].0.0, rv[i as int].0.0)
                                        < 0 by {
                                        lemma_version_order_transitive(
                                            rv[j].0.0,
                                            rv[b as int].0.0,
                                            rv[i as int].0.0,
                                        );
                                    }
                                }
                            }
                            best = Some(i);
                        }
                    }
                },
                None => {},
            }
            i = i + 1;
        }
        match best {
            Some(b) => {
                assert(is_ceiling_row(rv, os, dv, b as int));
                let v = rows[b].cuda.copy();
                proof {
                    let c = choose|i: int| is_ceiling_row(rv, os, dv, i);
                    lemma_ceiling_row_unique(rv, os, dv, b as int, c);
                    lemma_returned_ceiling_passes_strict_check(*d, v);
                }
                Ok(v)
            },
            None => Err(CompatLookupError::NoCeiling),
        }
    }

    /// Strict (exact per-release minimum) or likely (minor-version floor)
    /// check of driver `d` against toolkit `want`. A patch-level toolkit
    /// (`12.4.1`) is checked against its `major.minor` row.
    pub fn check_toolkit(&self, d: &Driver, want: &Version, strict: bool) -> (o: CompatOutcome)
        ensures
            outcome_view(o) == toolkit_outcome(
                d.platform.os,
                d.gpu_class,
                vv(d.version),
                vv(*want),
                strict,
            ),
            o.forward_compat_possible == (d.platform.os == Os::Linux && (d.gpu_class
                == GpuClass::DataCenter || d.gpu_class == GpuClass::Jetson || d.gpu_class
                == GpuClass::NgcReadyRtx)),
    {
        proof {
            use_type_invariant(self);
            lemma_forward_compat_eligibility(
                d.platform.os,
                d.gpu_class,
                vv(d.version),
                vv(*want),
                strict,
            );
        }
        let fwd = fwd_eligible(d);
        let os = d.platform.os;
        let want_line = want.major_minor();
        let ghost rv = rows_view(self.drivers.rows@);
        assert(want_line.fields@ == line_of(want.fields@));
        let found = self.drivers.row_for(&want_line);
        let row = match found {
            None => {
                proof {
                    assert forall|j: int| 0 <= j < rv.len() implies version_order(
                        #[trigger] rv[j].0.0,
                        line_of(want.fields@),
                    ) != 0 by {
                        assert(rv[j] == row_view(self.drivers.rows@[j]));
                    }
                    lemma_find_row(rv, line_of(want.fields@), rv.len() as int);
                }
                let mut r = string_of("unknown CUDA toolkit ");
                r.append(want.raw.as_str());
                r.append(" (not in compat table)");
                return outcome(false, CompatSeverity::Block, r, fwd);
            },
            Some(row) => row,
        };
        proof {
            let i = choose|i: int|
                0 <= i < self.drivers.rows@.len() && self.drivers.rows@[i] == *row && version_order(
                    self.drivers.rows@[i].cuda.fields@,
                    want_line.fields@,
                ) == 0 && forall|j: int|
                    0 <= j < i ==> version_order(
                        #[trigger] self.drivers.rows@[j].cuda.fields@,
                        want_line.fields@,
                    ) != 0;
            assert forall|j: int| 0 <= j < i implies version_order(
                #[trigger] rv[j].0.0,
                line_of(want.fields@),
            ) != 0 by {
                assert(rv[j] == row_view(self.drivers.rows@[j]));
            }
            assert(rv[i] == row_view(*row));
            lemma_find_row(rv, line_of(want.fields@), i);
        }
        let strict_min = match os_min(row, os) {
            None => {
                let mut r = string_of("CUDA ");
                r.append(want.raw.as_str());
                r.append(" is N/A on this OS");
                return outcome(false, CompatSeverity::Block, r, fwd);
            },
            Some(m) => m,
        };
        if d.version.compare_to(strict_min) >= 0 {
            let mut r = string_of("driver ");
            r.append(d.version.raw.as_str());
            r.append(" satisfies CUDA ");
            r.append(want.raw.as_str());
            r.append(" minimum ");
            r.append(strict_min.raw.as_str());
            return outcome(true, CompatSeverity::Okay, r, fwd);
        }
        if strict {
            let mut r = string_of("driver ");
            r.append(d.version.raw.as_str());
            r.append(" is below CUDA ");
            r.append(want.raw.as_str());
            r.append(" minimum ");
            r.append(strict_min.raw.as_str());
            r.append(" (use --force or cuda-compat)");
            return outcome(false, CompatSeverity::Block, r, fwd);
        }
        let major = want.major();
        let floor = floor_version(major);
        let major_text = u32_decimal(major);
        if d.version.compare_to(&floor) >= 0 {
            let mut r = string_of("driver ");
            r.append(d.version.raw.as_str());
            r.append(" below strict minimum ");
            r.append(strict_min.raw.as_str());
            r.append(" but above the ");
            r.append(major_text.as_str());
            r.append(".x minor-version floor ");
            r.append(floor.raw.as_str());
            r.append(" (likely works)");
            outcome(false, CompatSeverity::Warn, r, fwd)
        } else {
            let mut r = string_of("driver ");
            r.append(d.version.raw.as_str());
            r.append(" below the ");
            r.append(major_text.as_str());
            r.append(".x minor-version floor ");
            r.append(floor.raw.as_str());
            outcome(false, CompatSeverity::Block, r, fwd)
        }
    }

    /// Whether the matrix lists the cuDNN line of `v` as supporting CUDA
    /// `major`.
    fn supports(&self, v: &Version, major: u32) -> (r: bool)
        ensures
            r == pairs_with(v.fields@, major),
    {
        proof {
            use_type_invariant(self);
        }
        let ghost ev = entries_view(self.cudnn.entries@);
        let ghost line = field_at(v.fields@, 0);
        match self.cudnn.line_entry_for(v) {
            None => {
                proof {
                    assert forall|j: int| 0 <= j < ev.len() implies field_at(
                        #[trigger] ev[j].0.0,
                        0,
                    ) != line by {
                        assert(ev[j].0.0 == self.cudnn.entries@[j].cudnn.fields@);
                    }
                    lemma_find_line_entry(ev, line, ev.len() as int);
                }
                false
            },
            Some(e) => {
                proof {
                    let i = choose|i: int|
                        0 <= i < self.cudnn.entries@.len() && self.cudnn.entries@[i] == *e
                            && field_at(self.cudnn.entries@[i].cudnn.fields@, 0) == line
                            && forall|j: int|
                            0 <= j < i ==> field_at(
                                #[trigger] self.cudnn.entries@[j].cudnn.fields@,
                                0,
                            ) != line;
                    assert forall|j: int| 0 <= j < i implies field_at(
                        #[trigger] ev[j].0.0,
                        0,
                    ) != line by {
                        assert(ev[j].0.0 == self.cudnn.entries@[j].cudnn.fields@);
                    }
                    assert(ev[i] == (vv(e.cudnn), e.cuda_majors@));
                    lemma_find_line_entry(ev, line, i);
                }
                contains_u32(&e.cuda_majors, major)
            },
        }
    }

    /// The newest available cuDNN whose line supports the toolkit's CUDA
    /// major (the last of equal newest ones), or `None` when none does.
    pub fn pair_cudnn(&self, toolkit: &Version, available: &[Version]) -> (r: Option<Version>)
        ensures
            opt_vv(r) == newest_pick(available@, field_at(toolkit.fields@, 0) as u32),
            match r {
                Some(v) => exists|i: int|
                    is_newest_pairing(available@, field_at(toolkit.fields@, 0) as u32, i) && vv(v)
                        == vv(available@[i]),
                None => forall|j: int|
                    0 <= j < available@.len() ==> !#[trigger] pairs_with(
                        available@[j].fields@,
                        field_at(toolkit.fields@, 0) as u32,
                    ),
            },
    {
        let major = toolkit.major();
        let ghost av = available@;
        let mut best: Option<usize> = None;
        let mut i: usize = 0;
        while i < available.len()
            invariant
                i <= av.len(),
                av == available@,
                major == field_at(toolkit.fields@, 0) as u32,
                match best {
                    None => forall|j: int|
                        0 <= j < i ==> !#[trigger] pairs_with(av[j].fields@, major),
                    Some(b) => {
                        &&& b < i
                        &&& pairs_with(av[b as int].fields@, major)
                        &&& forall|j: int|
                            0 <= j < i && #[trigger] pairs_with(av[j].fields@, major)
                                ==> version_order(av[j].fields@, av[b as int].fields@) <= 0
                        &&& forall|j: int|
                            b < j < i && #[trigger] pairs_with(av[j].fields@, major)
                                ==> version_order(av[j].fields@, av[b as int].fields@) < 0
                    },
                },
            decreases available.len() - i,
        {
            if self.supports(&available[i], major) {
                let replace = match best {
                    Some(b) => available[i].compare_to(&available[b]) >= 0,
                    None => true,
                };
                if replace {
                    proof {
                        lemma_version_order_reflexive(av[i as int].fields@);
                        if let Some(b) = best {
                            lemma_version_order_antisymmetric(
                                av[i as int].fields@,
                                av[b as int].fields@,
                            );
                            assert forall|j: int|
                                0 <= j < i && #[trigger] pairs_with(
                                    av[j].fields@,
                                    major,
                                ) implies version_order(av[j].fields@, av[i as int].fields@)
                                <= 0 by {
                                lemma_version_order_transitive(
                                    av[j].fields@,
                                    av[b as int].fields@,
                                    av[i as int].fields@,
                                );
                            }
                        }
                    }
                    best = Some(i);
                }
            }
            i = i + 1;
        }
        match best {
            Some(b) => {
                assert(is_newest_pairing(av, major, b as int));
                proof {
                    let c = choose|i: int| is_newest_pairing(av, major, i);
                    lemma_newest_pairing_unique(av, major, b as int, c);
                }
                Some(available[b].copy())
            },
            None => None,
        }
    }

    /// Validate an explicit toolkit/cuDNN pairing by the toolkit's CUDA major.
    pub fn validate_pair(&self, toolkit: &Version, cudnn: &Version) -> (o: CompatOutcome)
        ensures
            outcome_view(o) == pair_outcome(vv(*toolkit), vv(*cudnn)),
    {
        let major = toolkit.major();
        let major_text = u32_decimal(major);
        if self.supports(cudnn, major) {
            let mut r = string_of("cuDNN ");
            r.append(cudnn.raw.as_str());
            r.append(" supports CUDA ");
            r.append(major_text.as_str());
            r.append(".x");
            outcome(true, CompatSeverity::Okay, r, false)
        } else {
            let need = if major >= 13 {
                "9.x"
            } else if major <= 11 {
                "8.x"
            } else {
                "8.x/9.x"
            };
            let mut r = string_of("cuDNN ");
            r.append(cudnn.raw.as_str());
            r.append(" does not support CUDA ");
            r.append(major_text.as_str());
            r.append(".x (needs cuDNN ");
            r.append(need);
            r.append(")");
            outcome(false, CompatSeverity::Block, r, false)
        }
    }
}

impl Default for DefaultCompatEngine {
    fn default() -> (e: Self)
        ensures
            e.driver_rows() == embedded_driver_rows(),
            e.cudnn_entries() == embedded_cudnn_entries(),
    {
        Self::new()
    }
}

} // verus!
