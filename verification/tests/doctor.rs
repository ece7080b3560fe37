use cuvm::doctor::{
    check_driver_ceiling, check_path_hygiene, run_doctor, DoctorReport, EnvSnapshot, Finding,
};
use cuvm::domain::{Arch, Driver, GpuClass, Os, Platform};
use cuvm::ports::{CompatEngine, Severity, Verdict, VerdictView, VersionView, VersionsView};
use cuvm::version::Version;
use cuvm::doctor::active_root_of;
use cuvm::manifest::BundleRecord;

/// A compat engine with canned answers; it fails the test if consulted
/// where it should not be.
struct CannedEngine {
    ceiling: Option<&'static str>,
    verdict: Option<Verdict>,
}

impl CompatEngine for CannedEngine {
    fn ceiling_for(&self, _d: Driver) -> Option<VersionView> {
        unreachable!("a contract-only item")
    }

    fn toolkit_verdict(&self, _d: Driver, _want: VersionView, _strict: bool) -> VerdictView {
        unreachable!("a contract-only item")
    }

    fn cudnn_pick(&self, _tk: VersionView, _avail: VersionsView) -> Option<VersionView> {
        unreachable!("a contract-only item")
    }

    fn pair_verdict(&self, _tk: VersionView, _cudnn: VersionView) -> VerdictView {
        unreachable!("a contract-only item")
    }

    fn max_toolkit_for_driver(&self, _d: &Driver) -> anyhow::Result<Version> {
        match self.ceiling {
            Some(c) => Ok(Version::parse(c).unwrap()),
            None => Err(anyhow::Error::msg("table lookup failed")),
        }
    }

    fn check_toolkit(&self, _d: &Driver, _want: &Version, _strict: bool) -> Verdict {
        self.verdict.clone().expect("check_toolkit must not be consulted")
    }

    fn pair_cudnn(&self, _toolkit: &Version, _available: &[Version]) -> Option<Version> {
        panic!("pair_cudnn must not be consulted")
    }

    fn validate_pair(&self, _toolkit: &Version, _cudnn: &Version) -> Verdict {
        panic!("validate_pair must not be consulted")
    }
}

fn unused_engine() -> CannedEngine {
    CannedEngine {
        ceiling: None,
        verdict: None,
    }
}

fn finding(sev: Severity) -> Finding {
    Finding {
        code: "X".into(),
        severity: sev,
        title: "t".into(),
        detail: "d".into(),
        hint: None,
    }
}

fn linux_driver(v: &str, present: bool, gpu: GpuClass) -> Driver {
    Driver {
        present,
        version: Version::parse(v).unwrap(),
        platform: Platform {
            os: Os::Linux,
            arch: Arch::X86_64,
        },
        gpu_class: gpu,
    }
}

fn snap(path: &str, ld: &str, home: &str, root: &str) -> EnvSnapshot {
    EnvSnapshot {
        path: path.into(),
        ld_library_path: ld.into(),
        cuda_home: Some(home.into()),
        active_root: Some(root.into()),
        path_sep: ':',
    }
}

// ----- exit code -----

#[test]
fn exit_code_is_zero_when_all_ok() {
    let r = DoctorReport {
        findings: vec![finding(Severity::Okay), finding(Severity::Okay)],
    };
    assert_eq!(r.exit_code(), 0);
    assert!(r.is_healthy());
}

#[test]
fn exit_code_is_one_when_worst_is_warn() {
    let r = DoctorReport {
        findings: vec![finding(Severity::Okay), finding(Severity::Warn)],
    };
    assert_eq!(r.exit_code(), 1);
    assert!(!r.is_healthy());
}

#[test]
fn exit_code_is_two_when_any_block_even_with_warns() {
    let r = DoctorReport {
        findings: vec![
            finding(Severity::Warn),
            finding(Severity::Block),
            finding(Severity::Okay),
        ],
    };
    assert_eq!(r.exit_code(), 2);
}

#[test]
fn empty_report_is_healthy() {
    let r = DoctorReport { findings: vec![] };
    assert_eq!(r.exit_code(), 0);
    assert!(r.is_healthy());
}

#[test]
fn report_text_lists_findings_then_the_exit_code() {
    let r = DoctorReport {
        findings: vec![
            Finding {
                code: "A".into(),
                severity: Severity::Warn,
                title: "first".into(),
                detail: "one".into(),
                hint: Some("do this".into()),
            },
            finding(Severity::Okay),
        ],
    };
    assert_eq!(
        r.to_string(),
        "[WARN] first (A)\n    one\n    hint: do this\n[OK] t (X)\n    d\nexit: 1"
    );
}

// ----- driver ceiling -----

#[test]
fn within_ceiling_is_ok() {
    let engine = CannedEngine {
        ceiling: Some("12.6"),
        verdict: Some(Verdict {
            ok: true,
            severity: Severity::Okay,
            reason: "within ceiling".into(),
            forward_compat_possible: false,
        }),
    };
    let d = linux_driver("565.57.01", true, GpuClass::GeForce);
    let active = Version::parse("12.4.1").unwrap();
    let f = check_driver_ceiling(&engine, &d, Some(&active));
    assert_eq!(f.code, "DRIVER_CEILING");
    assert_eq!(f.severity, Severity::Okay);
    assert_eq!(f.detail, "active CUDA 12.4.1 <= driver ceiling 12.6 (driver 565.57.01).");
}

#[test]
fn exceeds_ceiling_warns_with_compat_hint_on_eligible_gpu() {
    let engine = CannedEngine {
        ceiling: Some("12.4"),
        verdict: Some(Verdict {
            ok: false,
            severity: Severity::Warn,
            reason: "toolkit exceeds driver ceiling".into(),
            forward_compat_possible: true,
        }),
    };
    let d = linux_driver("550.54.14", true, GpuClass::DataCenter);
    let active = Version::parse("12.9.0").unwrap();
    let f = check_driver_ceiling(&engine, &d, Some(&active));
    assert_eq!(f.severity, Severity::Warn);
    assert!(f.detail.contains("12.9.0"));
    assert!(f.detail.contains("12.4"));
    assert!(f.hint.as_deref().unwrap().contains("cuda-compat"));
}

#[test]
fn no_driver_warns_build_only_ok_never_blocks() {
    let engine = unused_engine();
    let d = linux_driver("0", false, GpuClass::Unknown);
    let active = Version::parse("12.4.1").unwrap();
    let f = check_driver_ceiling(&engine, &d, Some(&active));
    assert_eq!(f.code, "DRIVER_ABSENT");
    assert_eq!(f.severity, Severity::Warn);
    assert!(f.detail.to_lowercase().contains("build-only"));
}

#[test]
fn no_active_toolkit_reports_driver_ceiling_only() {
    let engine = CannedEngine {
        ceiling: Some("12.6"),
        verdict: None,
    };
    let d = linux_driver("565.57.01", true, GpuClass::GeForce);
    let f = check_driver_ceiling(&engine, &d, None);
    assert_eq!(f.code, "DRIVER_CEILING");
    assert_eq!(f.severity, Severity::Okay);
    assert!(f.detail.contains("12.6"));
}

#[test]
fn a_blocking_verdict_is_reported_as_a_warning() {
    let engine = CannedEngine {
        ceiling: Some("12.0"),
        verdict: Some(Verdict {
            ok: false,
            severity: Severity::Block,
            reason: "below floor".into(),
            forward_compat_possible: false,
        }),
    };
    let d = linux_driver("525.60.13", true, GpuClass::GeForce);
    let active = Version::parse("13.0").unwrap();
    let f = check_driver_ceiling(&engine, &d, Some(&active));
    assert_eq!(f.severity, Severity::Warn);
    assert_eq!(f.title, "Active toolkit exceeds driver ceiling");
    assert_eq!(
        f.hint.as_deref(),
        Some("Re-run with --force to proceed, or switch to a toolkit within the ceiling.")
    );
}

#[test]
fn a_failed_ceiling_lookup_warns_with_the_engine_message() {
    let engine = CannedEngine {
        ceiling: None,
        verdict: None,
    };
    let d = linux_driver("300.1", true, GpuClass::GeForce);
    let f = check_driver_ceiling(&engine, &d, None);
    assert_eq!(f.severity, Severity::Warn);
    assert_eq!(f.title, "Could not determine driver ceiling");
    assert_eq!(
        f.detail,
        "driver 300.1 (ceiling lookup failed): table lookup failed"
    );
}

// ----- PATH hygiene -----

#[test]
fn clean_single_cuda_on_path_is_ok() {
    let s = snap(
        "/home/u/.cuvm/versions/12.4.1/bin:/usr/bin",
        "/home/u/.cuvm/versions/12.4.1/lib64",
        "/home/u/.cuvm/versions/12.4.1",
        "/home/u/.cuvm/versions/12.4.1",
    );
    let fs = check_path_hygiene(&s);
    assert!(fs.iter().all(|f| f.severity == Severity::Okay), "{fs:#?}");
}

#[test]
fn dup_cuda_dirs_warn() {
    let s = snap(
        "/opt/cuda-12.2/bin:/home/u/.cuvm/versions/12.4.1/bin:/usr/bin",
        "/opt/cuda-12.2/lib64:/home/u/.cuvm/versions/12.4.1/lib64",
        "/home/u/.cuvm/versions/12.4.1",
        "/home/u/.cuvm/versions/12.4.1",
    );
    let fs = check_path_hygiene(&s);
    let dup = fs
        .iter()
        .find(|f| f.code == "PATH_DUP_CUDA")
        .expect("dup finding");
    assert_eq!(dup.severity, Severity::Warn);
    assert!(dup.detail.contains("/opt/cuda-12.2/bin"));
    assert!(dup.detail.contains("12.4.1/bin"));
}

#[test]
fn nvcc_resolving_outside_cuda_home_blocks() {
    let s = snap(
        "/opt/cuda-12.2/bin:/home/u/.cuvm/versions/12.4.1/bin:/usr/bin",
        "/opt/cuda-12.2/lib64:/home/u/.cuvm/versions/12.4.1/lib64",
        "/home/u/.cuvm/versions/12.4.1",
        "/home/u/.cuvm/versions/12.4.1",
    );
    let fs = check_path_hygiene(&s);
    let mm = fs
        .iter()
        .find(|f| f.code == "NVCC_MISMATCH")
        .expect("mismatch finding");
    assert_eq!(mm.severity, Severity::Block);
    assert!(mm.detail.contains("/opt/cuda-12.2/bin"));
    assert!(mm.detail.contains("/home/u/.cuvm/versions/12.4.1"));
    assert!(mm.hint.as_deref().unwrap().contains("cuvm use"));
}

#[test]
fn stale_cuda_bin_not_matching_active_root_warns() {
    let s = snap(
        "/opt/cuda-11.8/bin:/usr/bin",
        "/opt/cuda-11.8/lib64",
        "/home/u/.cuvm/versions/12.4.1",
        "/home/u/.cuvm/versions/12.4.1",
    );
    let fs = check_path_hygiene(&s);
    let stale = fs
        .iter()
        .find(|f| f.code == "PATH_STALE_CUDA")
        .expect("stale finding");
    assert_eq!(stale.severity, Severity::Warn);
    assert!(stale.detail.contains("/opt/cuda-11.8/bin"));
}

#[test]
fn no_cuda_home_yields_no_mismatch_only_info() {
    let s = EnvSnapshot {
        path: "/usr/bin".into(),
        ld_library_path: String::new(),
        cuda_home: None,
        active_root: None,
        path_sep: ':',
    };
    let fs = check_path_hygiene(&s);
    assert!(fs.iter().all(|f| f.severity == Severity::Okay), "{fs:#?}");
}

#[test]
fn hygiene_findings_come_in_a_fixed_order_with_exact_details() {
    let s = snap(
        "/opt/cuda-12.2/bin:/home/u/.cuvm/versions/12.4.1/bin:/usr/bin",
        "/opt/cuda-12.2/lib64:/home/u/.cuvm/versions/12.4.1/lib64",
        "/home/u/.cuvm/versions/12.4.1/",
        "/home/u/.cuvm/versions/12.4.1",
    );
    let fs = check_path_hygiene(&s);
    let codes: Vec<&str> = fs.iter().map(|f| f.code.as_str()).collect();
    assert_eq!(
        codes,
        vec!["PATH_DUP_CUDA", "PATH_STALE_CUDA", "NVCC_MISMATCH", "LD_DUP_CUDA"]
    );
    assert_eq!(
        fs[0].detail,
        "PATH contains 2 CUDA bin entries: /opt/cuda-12.2/bin, /home/u/.cuvm/versions/12.4.1/bin"
    );
    assert_eq!(
        fs[1].detail,
        "PATH has CUDA bin(s) outside the active toolkit /home/u/.cuvm/versions/12.4.1: /opt/cuda-12.2/bin"
    );
    assert_eq!(
        fs[2].detail,
        "nvcc resolves to /opt/cuda-12.2/bin (root /opt/cuda-12.2) but CUDA_HOME=/home/u/.cuvm/versions/12.4.1; builds will use a different toolkit than the active one."
    );
    assert_eq!(
        fs[3].detail,
        "LD_LIBRARY_PATH has 2 CUDA lib entries: /opt/cuda-12.2/lib64, /home/u/.cuvm/versions/12.4.1/lib64"
    );
}

#[test]
fn windows_style_paths_normalize_and_match_case_insensitively() {
    let s = EnvSnapshot {
        path: "C:\\Program Files\\NVIDIA GPU Computing Toolkit\\CUDA\\v12.4\\bin\\;C:\\Windows"
            .into(),
        ld_library_path: String::new(),
        cuda_home: Some("C:/Program Files/NVIDIA GPU Computing Toolkit/CUDA/v12.4".into()),
        active_root: None,
        path_sep: ';',
    };
    let fs = check_path_hygiene(&s);
    assert_eq!(fs.len(), 1);
    assert_eq!(fs[0].code, "PATH_HYGIENE");
}

#[test]
fn run_doctor_puts_the_ceiling_first_then_hygiene() {
    let engine = CannedEngine {
        ceiling: Some("12.6"),
        verdict: Some(Verdict {
            ok: true,
            severity: Severity::Okay,
            reason: "ok".into(),
            forward_compat_possible: false,
        }),
    };
    let driver = linux_driver("565.57.01", true, GpuClass::GeForce);
    let active = Version::parse("12.4.1").unwrap();
    let env = snap(
        "/opt/cuda-12.2/bin:/home/u/.cuvm/versions/12.4.1/bin:/usr/bin",
        "/opt/cuda-12.2/lib64:/home/u/.cuvm/versions/12.4.1/lib64",
        "/home/u/.cuvm/versions/12.4.1",
        "/home/u/.cuvm/versions/12.4.1",
    );
    let report = run_doctor(&engine, &driver, Some(&active), &env);
    assert_eq!(report.findings[0].code, "DRIVER_CEILING");
    assert_eq!(report.findings.len(), 5);
    assert_eq!(report.exit_code(), 2);
}

#[test]
fn active_root_is_the_recorded_path_else_under_versions() {
    let recs = vec![BundleRecord {
        version: "12.2.0".to_string(),
        source: cuvm::domain::Source::Adopted,
        path: "/usr/local/cuda-12.2".to_string(),
        cudnn: None,
        components: vec![],
        sha256: None,
        installed_at: time::OffsetDateTime::UNIX_EPOCH,
    }];
    assert_eq!(active_root_of(&recs, "/h", "12.2.0"), "/usr/local/cuda-12.2");
    assert_eq!(active_root_of(&recs, "/h", "12.4.1"), "/h/versions/12.4.1");
}

#[test]
fn a_bin_of_a_sibling_root_is_stale() {
    // `/opt/cuda-12.4.10/bin` shares a text prefix with the active root
    // `/opt/cuda-12.4.1` but does not lie inside it.
    let s = EnvSnapshot {
        path: "/opt/cuda-12.4.10/bin".into(),
        ld_library_path: String::new(),
        cuda_home: None,
        active_root: Some("/opt/cuda-12.4.1".into()),
        path_sep: ':',
    };
    let fs = check_path_hygiene(&s);
    assert_eq!(fs.len(), 1, "{fs:#?}");
    assert_eq!(fs[0].code, "PATH_STALE_CUDA");
    assert_eq!(fs[0].severity, Severity::Warn);
    assert_eq!(
        fs[0].detail,
        "PATH has CUDA bin(s) outside the active toolkit /opt/cuda-12.4.1: /opt/cuda-12.4.10/bin"
    );
}

#[test]
fn a_bin_inside_the_active_root_is_not_stale() {
    let s = EnvSnapshot {
        path: "/opt/cuda-12.4.1/bin:/usr/bin".into(),
        ld_library_path: String::new(),
        cuda_home: None,
        active_root: Some("/opt/cuda-12.4.1/".into()),
        path_sep: ':',
    };
    let fs = check_path_hygiene(&s);
    assert_eq!(fs.len(), 1, "{fs:#?}");
    assert_eq!(fs[0].code, "PATH_HYGIENE");
}

#[test]
fn a_managed_bin_without_a_cuda_token_counts_only_inside_the_root() {
    // `/home/u/.cuvm/versions/12.4.1/bin` counts as a CUDA bin under the
    // active root; `/home/u/.cuvm/versions/12.4.10/bin` is no CUDA dir at all.
    let s = EnvSnapshot {
        path: "/home/u/.cuvm/versions/12.4.1/bin:/home/u/.cuvm/versions/12.4.10/bin".into(),
        ld_library_path: String::new(),
        cuda_home: None,
        active_root: Some("/home/u/.cuvm/versions/12.4.1".into()),
        path_sep: ':',
    };
    let fs = check_path_hygiene(&s);
    assert_eq!(fs.len(), 1, "{fs:#?}");
    assert_eq!(fs[0].code, "PATH_HYGIENE");
}

#[test]
fn hygiene_codes_come_in_the_fixed_order() {
    let s = EnvSnapshot {
        path: "/usr/local/cuda-12.6/bin:/opt/cuda-12.4.1/bin".into(),
        ld_library_path: "/usr/local/cuda-12.6/lib64:/opt/cuda-12.4.1/lib64".into(),
        cuda_home: Some("/opt/cuda-12.4.1".into()),
        active_root: Some("/opt/cuda-12.4.1".into()),
        path_sep: ':',
    };
    let codes: Vec<String> = check_path_hygiene(&s).into_iter().map(|f| f.code).collect();
    assert_eq!(
        codes,
        vec!["PATH_DUP_CUDA", "PATH_STALE_CUDA", "NVCC_MISMATCH", "LD_DUP_CUDA"]
    );
}
