use cuvm::domain::{Arch, Driver, GpuClass, Os, Platform};
use cuvm::install::{
    adopt_candidate_matches, compat_gate, pick_remote, version_matches, GateOutcome,
};
use cuvm::list::{
    available_row, filter_and_collapse, format_text_rows, newest_per_minor, redist_url_for,
    spec_matches, Row,
};
use cuvm::ports::{CompatEngine, Severity, Verdict, VerdictView, VersionView, VersionsView};
use cuvm::version::Version;
use cuvm::domain::Source;
use cuvm::install::downloaded_record;
use cuvm::install::plan_uninstall;
use cuvm::install::refusal_error;
use cuvm::install::{placed_outcome, InstallOutcome, InstallTally};
use cuvm::install::{start_install, InstallStart};
use cuvm::list::listing_rows;
use cuvm::list::remote_listing;
use cuvm::install::{blocked_download_degrade, empty_plan_degrade};

fn v(s: &str) -> Version {
    Version::parse(s).unwrap()
}

#[test]
fn two_field_windows_candidate_matches_the_resolved_patch_handle() {
    assert!(adopt_candidate_matches("12.4.1", &v("12.4")));
}

#[test]
fn exact_three_field_candidate_still_matches() {
    assert!(adopt_candidate_matches("12.4.1", &v("12.4.1")));
}

#[test]
fn different_minor_does_not_match() {
    assert!(!adopt_candidate_matches("12.4.1", &v("12.6")));
}

#[test]
fn three_field_candidate_must_agree_on_every_field() {
    assert!(!adopt_candidate_matches("12.4.1", &v("12.4.0")));
}

#[test]
fn different_major_does_not_match() {
    assert!(!adopt_candidate_matches("13.0.1", &v("12.4")));
}

/// A compat engine that answers `check_toolkit` with a canned verdict and
/// fails the test on anything else (or when it has no verdict to give).
struct GateEngine {
    verdict: Option<Verdict>,
}

impl CompatEngine for GateEngine {
    fn ceiling_for(&self, _d: Driver) -> Option<VersionView> {
        unreachable!("a contract-only item")
    }

    fn toolkit_verdict(&self, _d: Driver, _want: VersionView, _strict: bool) -> VerdictView {
        unreachable!("a contract-only item")
    }

    fn cudnn_pick(&self, _tk: VersionView, _avail: VersionsView) -> Option<VersionView> {
        unreachable!("a contract-only item")
    }

    fn pair_verdict(&self, _tk: VersionView, _cudnn: VersionView) -> VerdictView {
        unreachable!("a contract-only item")
    }

    fn max_toolkit_for_driver(&self, _d: &Driver) -> anyhow::Result<Version> {
        panic!("max_toolkit_for_driver must not be consulted")
    }

    fn check_toolkit(&self, _d: &Driver, _want: &Version, strict: bool) -> Verdict {
        assert!(!strict, "the install gate asks for the non-strict verdict");
        self.verdict.clone().expect("check_toolkit must not be consulted")
    }

    fn pair_cudnn(&self, _tk: &Version, _avail: &[Version]) -> Option<Version> {
        panic!("pair_cudnn must not be consulted")
    }

    fn validate_pair(&self, _tk: &Version, _cudnn: &Version) -> Verdict {
        panic!("validate_pair must not be consulted")
    }
}

fn driver(present: bool, gpu: GpuClass) -> Driver {
    Driver {
        present,
        version: Version::parse("550.54.14").unwrap(),
        platform: Platform {
            os: Os::Linux,
            arch: Arch::X86_64,
        },
        gpu_class: gpu,
    }
}

fn warn_verdict(fwd: bool) -> Verdict {
    Verdict {
        ok: false,
        severity: Severity::Warn,
        reason: "toolkit exceeds driver ceiling".into(),
        forward_compat_possible: fwd,
    }
}

#[test]
fn ok_verdict_proceeds() {
    let eng = GateEngine {
        verdict: Some(Verdict {
            ok: true,
            severity: Severity::Okay,
            reason: "within ceiling".into(),
            forward_compat_possible: false,
        }),
    };
    let want = Version::parse("12.4.1").unwrap();
    let out = compat_gate(&eng, &driver(true, GpuClass::GeForce), &want, false);
    assert!(matches!(out.0, GateOutcome::Proceed));
    assert!(out.1.is_none());
}

#[test]
fn warn_without_force_refuses_with_hint() {
    let eng = GateEngine {
        verdict: Some(warn_verdict(true)),
    };
    let want = Version::parse("12.9.0").unwrap();
    let out = compat_gate(&eng, &driver(true, GpuClass::DataCenter), &want, false);
    match out.0 {
        GateOutcome::Refused { reason, hint } => {
            assert!(reason.contains("driver ceiling"));
            assert!(hint.contains("--force"));
            assert!(hint.contains("cuda-compat"));
        }
        GateOutcome::Proceed => panic!("expected refusal without --force"),
    }
}

#[test]
fn warn_with_force_proceeds() {
    let eng = GateEngine {
        verdict: Some(warn_verdict(false)),
    };
    let want = Version::parse("12.9.0").unwrap();
    let out = compat_gate(&eng, &driver(true, GpuClass::GeForce), &want, true);
    assert!(matches!(out.0, GateOutcome::Proceed));
    assert_eq!(
        out.1.as_deref(),
        Some("cuvm: warning: toolkit exceeds driver ceiling (proceeding due to --force).")
    );
}

#[test]
fn absent_driver_proceeds_without_consulting_engine() {
    let eng = GateEngine { verdict: None };
    let want = Version::parse("12.4.1").unwrap();
    let out = compat_gate(&eng, &driver(false, GpuClass::Unknown), &want, false);
    assert!(matches!(out.0, GateOutcome::Proceed));
}

#[test]
fn refusal_hint_carries_the_compat_note_only_for_eligible_gpus() {
    let eng = GateEngine {
        verdict: Some(warn_verdict(true)),
    };
    let want = v("12.9.0");
    match compat_gate(&eng, &driver(true, GpuClass::GeForce), &want, false).0 {
        GateOutcome::Refused { hint, .. } => {
            assert_eq!(hint, "re-run with --force to install anyway. (cuda-compat)")
        }
        GateOutcome::Proceed => panic!("expected refusal"),
    }
    match compat_gate(&eng, &driver(true, GpuClass::Jetson), &want, false).0 {
        GateOutcome::Refused { hint, .. } => assert!(hint.ends_with(
            " This GPU class is cuda-compat eligible (Linux): a forward-compat package may raise the ceiling."
        )),
        GateOutcome::Proceed => panic!("expected refusal"),
    }
}

#[test]
fn install_specs_match_by_field_or_latest() {
    assert!(version_matches("latest", &v("12.4.1")));
    assert!(version_matches("12", &v("12.4.1")));
    assert!(version_matches("12.4", &v("12.4.1")));
    assert!(!version_matches("12.4.1.0", &v("12.4.1")));
    assert!(!version_matches("1", &v("12.4.1")));
    let av = vec![v("12.4.0"), v("12.6.2"), v("12.4.1"), v("11.8.0")];
    assert_eq!(pick_remote(&av, "12.4").unwrap().raw, "12.4.1");
    assert_eq!(pick_remote(&av, "latest").unwrap().raw, "12.6.2");
    assert!(pick_remote(&av, "13").is_none());
}

fn raws(versions: &[Version]) -> Vec<&str> {
    versions.iter().map(|x| x.raw.as_str()).collect()
}

#[test]
fn exact_patch_spec_survives_the_newest_per_minor_collapse() {
    let got = filter_and_collapse(vec![v("12.4.0"), v("12.4.1")], Some("12.4.0"), false);
    assert_eq!(raws(&got), ["12.4.0"]);
}

#[test]
fn minor_spec_still_collapses_to_the_newest_patch() {
    let got = filter_and_collapse(
        vec![v("12.4.0"), v("12.4.1"), v("12.6.0")],
        Some("12.4"),
        false,
    );
    assert_eq!(raws(&got), ["12.4.1"]);
}

#[test]
fn all_versions_keeps_every_matching_patch() {
    let got = filter_and_collapse(
        vec![v("12.4.0"), v("12.4.1"), v("12.6.0")],
        Some("12.4"),
        true,
    );
    assert_eq!(raws(&got), ["12.4.0", "12.4.1"]);
}

#[test]
fn collapse_orders_lines_by_their_text_key() {
    let got = newest_per_minor(vec![v("12.10.0"), v("12.4.1"), v("12.4.3"), v("12.10.1")]);
    assert_eq!(raws(&got), ["12.10.1", "12.4.3"]);
}

#[test]
fn spec_matching_is_by_field_text() {
    assert!(spec_matches("12", &v("12.4.1")));
    assert!(spec_matches("12.4.1", &v("12.4.1")));
    assert!(!spec_matches("12.4.1.0", &v("12.4.1")));
    assert!(!spec_matches("1", &v("12.4.1")));
}

#[test]
fn redist_url_for_normalizes_a_missing_trailing_slash() {
    let ver = v("12.4.1");
    assert_eq!(
        redist_url_for("http://host/redist", &ver),
        "http://host/redist/redistrib_12.4.1.json"
    );
    assert_eq!(
        redist_url_for("http://host/redist/", &ver),
        "http://host/redist/redistrib_12.4.1.json"
    );
}

fn row(handle: &str, is_default: bool, installed: bool, path: Option<&str>) -> Row {
    Row {
        handle: handle.to_string(),
        version: v(handle),
        installed,
        source: if installed {
            Some("downloaded".to_string())
        } else {
            None
        },
        path: path.map(ToString::to_string),
        components: Vec::new(),
        installed_at: None,
        is_default,
    }
}

#[test]
fn default_marker_stays_glued_with_mixed_width_handles() {
    let list = vec![
        row("12.10.0", false, false, None),
        row("12.4.1", true, true, Some("/home/u/.cuvm/versions/12.4.1")),
    ];
    let lines = format_text_rows(&list, false, "http://host/redist/");
    assert_eq!(
        lines,
        [
            "12.10.0   <download available>",
            "12.4.1 *  /home/u/.cuvm/versions/12.4.1",
        ]
    );
}

#[test]
fn show_urls_renders_the_redist_url_for_available_rows() {
    let list = vec![available_row(&v("12.6.0"))];
    let lines = format_text_rows(&list, true, "http://host/redist");
    assert_eq!(lines, ["12.6.0  http://host/redist/redistrib_12.6.0.json"]);
}

#[test]
fn listing_merges_installed_and_available_newest_first() {
    let installed = vec![row("12.4.1", true, true, Some("/h/versions/12.4.1"))];
    let available = vec![v("12.4.1"), v("12.6.0"), v("11.8.0"), v("12.6.0")];
    let rows = listing_rows(installed, &available, None);
    let handles: Vec<&str> = rows.iter().map(|r| r.handle.as_str()).collect();
    assert_eq!(handles, ["12.6.0", "12.4.1", "11.8.0"]);
    assert!(rows[1].installed && rows[1].is_default);
    assert!(!rows[0].installed && rows[0].path.is_none());

    let installed = vec![row("12.4.1", false, true, Some("/h/versions/12.4.1"))];
    let rows = listing_rows(installed, &available, Some("12"));
    let handles: Vec<&str> = rows.iter().map(|r| r.handle.as_str()).collect();
    assert_eq!(handles, ["12.6.0", "12.4.1"]);
}

#[test]
fn listing_keeps_the_last_installed_row_of_a_handle_and_orders_ties_by_handle() {
    let installed = vec![
        row("12.4.0", false, true, Some("/old")),
        row("12.4", false, true, Some("/two-field")),
        row("12.4.0", false, true, Some("/new")),
    ];
    let rows = listing_rows(installed, &[], None);
    let shown: Vec<(&str, &str)> = rows
        .iter()
        .map(|r| (r.handle.as_str(), r.path.as_deref().unwrap()))
        .collect();
    assert_eq!(shown, [("12.4", "/two-field"), ("12.4.0", "/new")]);
}

fn record(version: &str, source: cuvm::domain::Source, path: &str) -> cuvm::manifest::BundleRecord {
    cuvm::manifest::BundleRecord {
        version: version.to_string(),
        source,
        path: path.to_string(),
        cudnn: None,
        components: vec!["cuda_nvcc".to_string()],
        sha256: None,
        installed_at: time::OffsetDateTime::UNIX_EPOCH,
    }
}

#[test]
fn start_install_resolves_then_checks_presence() {
    let av = vec![v("12.4.0"), v("12.4.1"), v("12.6.0")];
    let recs = vec![record("12.4.1", Source::Downloaded, "versions/12.4.1")];
    match start_install(&av, &recs, "12.4", false).unwrap() {
        InstallStart::AlreadyPresent { handle } => assert_eq!(handle, "12.4.1"),
        other => panic!("expected already present, got {other:?}"),
    }
    match start_install(&av, &recs, "12.4", true).unwrap() {
        InstallStart::Proceed { want, existed } => {
            assert_eq!(want.raw, "12.4.1");
            assert!(existed);
        }
        other => panic!("expected proceed, got {other:?}"),
    }
    match start_install(&av, &recs, "latest", false).unwrap() {
        InstallStart::Proceed { want, existed } => {
            assert_eq!(want.raw, "12.6.0");
            assert!(!existed);
        }
        other => panic!("expected proceed, got {other:?}"),
    }
    assert_eq!(
        start_install(&av, &recs, "13", false).unwrap_err(),
        "no remote toolkit matches `13`"
    );
}

#[test]
fn a_refusal_becomes_the_target_error_with_its_hint() {
    assert_eq!(refusal_error(&GateOutcome::Proceed), None);
    assert_eq!(
        refusal_error(&GateOutcome::Refused {
            reason: "too new".into(),
            hint: "use --force".into()
        })
        .unwrap(),
        "too new\nhint: use --force"
    );
}

#[test]
fn downloaded_records_live_under_versions() {
    let r = downloaded_record(
        "12.4.1",
        Some("9.8.0.87".into()),
        vec!["cuda_nvcc".into()],
        time::OffsetDateTime::UNIX_EPOCH,
    );
    assert_eq!(r.path, "versions/12.4.1");
    assert_eq!(r.source, cuvm::domain::Source::Downloaded);
    assert_eq!(r.cudnn.as_deref(), Some("9.8.0.87"));
    assert!(r.sha256.is_none());
}

#[test]
fn install_tally_reports_each_target_and_sums_up() {
    let mut t = InstallTally::new();
    assert_eq!(
        t.note("12.4", Ok(placed_outcome("12.4.1".into(), "/h/versions/12.4.1".into(), false))),
        ("+ cuda 12.4.1  ->  /h/versions/12.4.1".to_string(), true)
    );
    assert_eq!(
        t.note("12.6", Ok(placed_outcome("12.6.0".into(), "/h/versions/12.6.0".into(), true))),
        ("~ cuda 12.6.0  ->  /h/versions/12.6.0".to_string(), true)
    );
    assert_eq!(
        t.note("11.8", Ok(InstallOutcome::AlreadyPresent { handle: "11.8.0".into() })),
        ("cuvm: 11.8.0 is already installed".to_string(), false)
    );
    assert_eq!(
        t.note("13", Err("no remote toolkit matches `13`".into())),
        (
            "cuvm: error installing 13: no remote toolkit matches `13`".to_string(),
            false
        )
    );
    assert_eq!(
        t.summary(4, "8.3"),
        Some(("Installed 2 toolkits in 8.3s".to_string(), true))
    );
    assert_eq!(t.exit_code(), 1);

    let mut one = InstallTally::new();
    one.note("12.4", Ok(InstallOutcome::Adopted { handle: "12.4.1".into(), path: "C:/cuda".into() }));
    assert_eq!(
        one.summary(1, "0.5"),
        Some(("Installed CUDA 12.4.1 in 0.5s".to_string(), true))
    );
    assert_eq!(one.exit_code(), 0);

    let mut none = InstallTally::new();
    none.note("12.4", Ok(InstallOutcome::AlreadyPresent { handle: "12.4.1".into() }));
    none.note("12.6", Ok(InstallOutcome::AlreadyPresent { handle: "12.6.0".into() }));
    assert_eq!(
        none.summary(2, "0.0"),
        Some(("cuvm: all requested versions already installed".to_string(), false))
    );
    assert_eq!(InstallTally::new().summary(1, "0.0"), None);
}

#[test]
fn uninstall_deletes_only_what_cuvm_placed() {
    let recs = vec![
        record("12.4.1", Source::Downloaded, "versions/12.4.1"),
        record("12.2.0", Source::Adopted, "/usr/local/cuda-12.2"),
        record("11.8.0", Source::Supplied, "/opt/cuda-11.8"),
    ];
    assert_eq!(
        plan_uninstall(&recs, "/home/u/.cuvm", "12.4.1"),
        (
            Some("/home/u/.cuvm/versions/12.4.1".to_string()),
            "removed 12.4.1".to_string()
        )
    );
    assert_eq!(
        plan_uninstall(&recs, "/home/u/.cuvm", "12.2.0"),
        (
            None,
            "deregistered 12.2.0 (adopted files left in place)".to_string()
        )
    );
    assert_eq!(
        plan_uninstall(&recs, "/home/u/.cuvm", "11.8.0"),
        (Some("/opt/cuda-11.8".to_string()), "removed 11.8.0".to_string())
    );
    assert_eq!(
        plan_uninstall(&recs, "/home/u/.cuvm", "10.2"),
        (None, "deregistered 10.2".to_string())
    );
}

#[test]
fn installing_twice_finds_the_first_install() {
    let av = vec![v("12.4.1"), v("12.6.0")];
    let mut m = cuvm::manifest::Manifest::new();
    let first = match start_install(&av, &m.bundles, "12.6", false).unwrap() {
        InstallStart::Proceed { want, existed } => {
            assert!(!existed);
            want
        }
        other => panic!("expected proceed, got {other:?}"),
    };
    m.upsert_bundle(downloaded_record(
        &first.raw,
        None,
        vec![],
        time::OffsetDateTime::UNIX_EPOCH,
    ));
    match start_install(&av, &m.bundles, "12.6", false).unwrap() {
        InstallStart::AlreadyPresent { handle } => assert_eq!(handle, "12.6.0"),
        other => panic!("expected already present, got {other:?}"),
    }
}

#[test]
fn remote_listing_filters_then_lists_newest_first() {
    let all = vec![v("9.1.0"), v("8.9.7"), v("9.10.0"), v("9.8.0"), v("9.8")];
    let raws = |r: Vec<Version>| r.into_iter().map(|x| x.raw).collect::<Vec<_>>();
    assert_eq!(
        raws(remote_listing(all.clone(), None)),
        ["9.10.0", "9.8", "9.8.0", "9.1.0", "8.9.7"]
    );
    assert_eq!(raws(remote_listing(all.clone(), Some("9.8"))), ["9.8", "9.8.0"]);
    assert_eq!(raws(remote_listing(all.clone(), Some("9.8.0"))), ["9.8.0"]);
    assert_eq!(raws(remote_listing(all.clone(), Some("9"))), ["9.10.0", "9.8", "9.8.0", "9.1.0"]);
    assert!(remote_listing(all, Some("7")).is_empty());
}

#[test]
fn windows_installs_degrade_to_adopt_only_on_windows() {
    assert_eq!(
        empty_plan_degrade(true, 0, "13.0.1").as_deref(),
        Some("no windows-x86_64 redist components resolved for 13.0.1")
    );
    assert_eq!(empty_plan_degrade(true, 3, "12.4.1"), None);
    assert_eq!(empty_plan_degrade(false, 0, "13.0.1"), None);
    assert_eq!(
        blocked_download_degrade(true, "403 Forbidden").as_deref(),
        Some("windows download blocked, degrading to adopt-only: 403 Forbidden")
    );
    assert_eq!(blocked_download_degrade(false, "403 Forbidden"), None);
}
