//! `DefaultCompatEngine` behind the `CompatEngine` interface: outcomes become
//! verdicts, engine severities become interface severities.
//!
//! A `Driver { present: false }` is handled by the callers before they ask the
//! engine; the engine itself does not branch on `present`.
use vstd::prelude::*;

use crate::compat_engine::{
    is_ceiling_row, is_newest_pairing, newest_pick, outcome_view, table_ceiling, pair_outcome, row_admits, toolkit_outcome,
    CompatSeverity, DefaultCompatEngine, EntryView, OutcomeView, RowView,
};
use crate::compat_tables::{embedded_cudnn_entries, embedded_driver_rows, vv};
use crate::domain::Driver;
use crate::ports::{
    verdict_view, CompatEngine, Severity, Verdict, VerdictView, VersionView, VersionsView,
};
use crate::version::{field_at, Version};

verus! {

/// The interface severity of an engine severity.
pub open spec fn severity_of(s: CompatSeverity) -> Severity {
    match s {
        CompatSeverity::Okay => Severity::Okay,
        CompatSeverity::Warn => Severity::Warn,
        CompatSeverity::Block => Severity::Block,
    }
}

/// The verdict view of an outcome view.
pub open spec fn verdict_of(o: OutcomeView) -> (bool, Severity, Seq<char>, bool) {
    (o.0, severity_of(o.1), o.2, o.3)
}

fn map_severity(s: CompatSeverity) -> (r: Severity)
    ensures
        r == severity_of(s),
{
    match s {
        CompatSeverity::Okay => Severity::Okay,
        CompatSeverity::Warn => Severity::Warn,
        CompatSeverity::Block => Severity::Block,
    }
}

/// `anyhow::Error::msg`: an error whose message is `msg`. Nothing is stated of
/// the value: it may carry a backtrace, which depends on the environment.
#[verifier::external_body]
fn error_with_message(msg: String) -> anyhow::Error {
    anyhow::Error::msg(msg)
}

/// The embedded-table engine as a `CompatEngine`.
pub struct CompatEngineAdapter {
    inner: DefaultCompatEngine,
}

impl CompatEngineAdapter {
    /// The driver table the wrapped engine reads.
    pub closed spec fn driver_rows(&self) -> Seq<RowView> {
        self.inner.driver_rows()
    }

    /// The cuDNN matrix the wrapped engine reads.
    pub closed spec fn cudnn_entries(&self) -> Seq<EntryView> {
        self.inner.cudnn_entries()
    }

    /// An adapter over a fresh `DefaultCompatEngine`: it reads the embedded
    /// driver table and cuDNN matrix.
    pub fn new() -> (r: Self)
        ensures
            r.driver_rows() == embedded_driver_rows(),
            r.cudnn_entries() == embedded_cudnn_entries(),
    {
        CompatEngineAdapter { inner: DefaultCompatEngine::new() }
    }
}

impl Default for CompatEngineAdapter {
    fn default() -> (r: Self) {
        Self::new()
    }
}

impl CompatEngine for CompatEngineAdapter {
    open spec fn ceiling_for(&self, d: Driver) -> Option<VersionView> {
        table_ceiling(d.platform.os, d.version.fields@)
    }

    open spec fn toolkit_verdict(&self, d: Driver, want: VersionView, strict: bool) -> VerdictView {
        verdict_of(toolkit_outcome(d.platform.os, d.gpu_class, vv(d.version), want, strict))
    }

    open spec fn cudnn_pick(&self, tk: VersionView, avail: VersionsView) -> Option<VersionView> {
        newest_pick(avail, field_at(tk.0, 0) as u32)
    }

    open spec fn pair_verdict(&self, tk: VersionView, cudnn: VersionView) -> VerdictView {
        verdict_of(pair_outcome(tk, cudnn))
    }

    fn max_toolkit_for_driver(&self, d: &Driver) -> (r: Result<Version, anyhow::Error>)
        ensures
            match r {
                Ok(v) => exists|i: int|
                    is_ceiling_row(embedded_driver_rows(), d.platform.os, d.version.fields@, i)
                        && vv(v) == embedded_driver_rows()[i].0,
                Err(_) => forall|j: int|
                    0 <= j < embedded_driver_rows().len() ==> !#[trigger] row_admits(
                        embedded_driver_rows()[j],
                        d.platform.os,
                        d.version.fields@,
                    ),
            },
            r matches Ok(v) ==> self.toolkit_verdict(*d, vv(v), true).0 && self.toolkit_verdict(
                *d,
                vv(v),
                true,
            ).1 == Severity::Okay,
    {
        match self.inner.max_toolkit_for_driver(d) {
            Ok(v) => Ok(v),
            Err(e) => Err(error_with_message(e.to_string())),
        }
    }

    fn check_toolkit(&self, d: &Driver, want: &Version, strict: bool) -> (r: Verdict)
        ensures
            verdict_view(r) == verdict_of(
                toolkit_outcome(d.platform.os, d.gpu_class, vv(d.version), vv(*want), strict),
            ),
    {
        let o = self.inner.check_toolkit(d, want, strict);
        Verdict {
            ok: o.ok,
            severity: map_severity(o.severity),
            reason: o.reason,
            forward_compat_possible: o.forward_compat_possible,
        }
    }

    fn pair_cudnn(&self, tk: &Version, avail: &[Version]) -> (r: Option<Version>)
        ensures
            match r {
                Some(v) => exists|i: int|
                    is_newest_pairing(avail@, field_at(tk.fields@, 0) as u32, i) && vv(v) == vv(
                        avail@[i],
                    ),
                None => forall|j: int|
                    0 <= j < avail@.len() ==> !#[trigger] crate::compat_engine::pairs_with(
                        avail@[j].fields@,
                        field_at(tk.fields@, 0) as u32,
                    ),
            },
    {
        self.inner.pair_cudnn(tk, avail)
    }

    fn validate_pair(&self, tk: &Version, cudnn: &Version) -> (r: Verdict)
        ensures
            verdict_view(r) == verdict_of(pair_outcome(vv(*tk), vv(*cudnn))),
    {
        let o = self.inner.validate_pair(tk, cudnn);
        Verdict {
            ok: o.ok,
            severity: map_severity(o.severity),
            reason: o.reason,
            forward_compat_possible: o.forward_compat_possible,
        }
    }
}

/// A boxed `CompatEngine` backed by the embedded compatibility tables.
pub fn new_compat_engine() -> (r: Box<dyn CompatEngine>) {
    Box::new(CompatEngineAdapter::new())
}

} // verus!
