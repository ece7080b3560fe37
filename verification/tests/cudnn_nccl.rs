use cuvm::cudnn::{
    eula_gate, parse_cudnn_archive_name, pick_listed, select_target, EulaDecision, TargetError,
};
use cuvm::domain::Source;
use cuvm::manifest::BundleRecord;
use cuvm::nccl::{check_nccl_major, parse_nccl_archive_name};
use cuvm::version::Version;
use cuvm::cudnn::artifact_file_name;
use cuvm::cudnn::choose_cudnn;

#[test]
fn eula_gate_orders_recorded_flag_prompt_refusal() {
    let no_ask = || panic!("must not prompt");
    assert_eq!(
        eula_gate(true, false, false, no_ask),
        EulaDecision::Proceed { record: false }
    );
    assert_eq!(
        eula_gate(false, true, false, no_ask),
        EulaDecision::Proceed { record: true }
    );
    assert_eq!(
        eula_gate(false, false, true, || true),
        EulaDecision::Proceed { record: true }
    );
    assert!(matches!(
        eula_gate(false, false, true, || false),
        EulaDecision::Refused { .. }
    ));
    assert!(matches!(
        eula_gate(false, false, false, no_ask),
        EulaDecision::Refused { .. }
    ));
}

#[test]
fn eula_refusal_explains_how_to_accept() {
    match eula_gate(false, false, false, || true) {
        EulaDecision::Refused { reason } => {
            assert!(reason.contains("--accept-eula"));
            assert!(reason.contains("never downloads silently"));
        }
        other => panic!("expected a refusal, got {other:?}"),
    }
}

#[test]
fn cudnn_archive_name_parses_version_and_cuda_major() {
    let (v, major) = parse_cudnn_archive_name("cudnn-linux-x86_64-9.8.0.87_cuda12-archive.tar.xz")
        .expect("standard name parses");
    assert_eq!(v.raw, "9.8.0.87");
    assert_eq!(major, 12);
    let (v, major) =
        parse_cudnn_archive_name("cudnn-windows-x86_64-8.9.7.29_cuda11-archive.zip").unwrap();
    assert_eq!(v.raw, "8.9.7.29");
    assert_eq!(major, 11);
    assert!(parse_cudnn_archive_name("random.tar.xz").is_none());
    assert!(parse_cudnn_archive_name("cudnn-linux-x86_64-9.8.0-archive.tar.xz").is_none());
}

fn cudnn_available() -> Vec<Version> {
    ["8.9.7.29", "9.8.0.87", "9.8.1.3", "9.10.0.56"]
        .iter()
        .map(|s| Version::parse(s).expect("test version parses"))
        .collect()
}

#[test]
fn cudnn_pick_listed_latest_takes_newest_overall() {
    let picked = pick_listed(&cudnn_available(), "latest").expect("non-empty list");
    assert_eq!(picked.raw, "9.10.0.56");
}

#[test]
fn pick_listed_prefix_takes_newest_matching() {
    let picked = pick_listed(&cudnn_available(), "9.8").expect("9.8.* exists");
    assert_eq!(picked.raw, "9.8.1.3");
}

#[test]
fn cudnn_pick_listed_no_match_is_none() {
    assert!(pick_listed(&cudnn_available(), "10.1").is_none());
}

#[test]
fn pick_listed_unparseable_spec_is_none() {
    assert!(pick_listed(&cudnn_available(), "not-a-version").is_none());
}

#[test]
fn pick_listed_latest_of_nothing_is_none() {
    assert!(pick_listed(&[], "latest").is_none());
}

#[test]
fn nccl_archive_name_parses_version_and_cuda_major() {
    let (v, major) =
        parse_nccl_archive_name("nccl_2.21.5-1+cuda12.4_x86_64.txz").expect("standard name");
    assert_eq!(v.raw, "2.21.5");
    assert_eq!(major, 12);
    let (v, major) = parse_nccl_archive_name("nccl_2.18.3-1+cuda11.0_aarch64.txz").unwrap();
    assert_eq!(v.raw, "2.18.3");
    assert_eq!(major, 11);
    assert!(parse_nccl_archive_name("random.txz").is_none());
    assert!(parse_nccl_archive_name("nccl_2.21.5-1+cuda12.4_x86_64.tar.gz").is_none());
}

fn nccl_available() -> Vec<Version> {
    ["2.18.3", "2.20.5", "2.21.5", "2.27.3"]
        .iter()
        .map(|s| Version::parse(s).expect("test version parses"))
        .collect()
}

#[test]
fn nccl_pick_listed_latest_takes_newest_overall() {
    assert_eq!(
        cuvm::nccl::pick_listed(&nccl_available(), "latest").unwrap().raw,
        "2.27.3"
    );
}

#[test]
fn pick_listed_prefix_matches_numeric_fields_not_string_prefix() {
    assert_eq!(
        cuvm::nccl::pick_listed(&nccl_available(), "2.21").unwrap().raw,
        "2.21.5"
    );
    assert_eq!(
        cuvm::nccl::pick_listed(&nccl_available(), "2.20").unwrap().raw,
        "2.20.5"
    );
    assert!(cuvm::nccl::pick_listed(&nccl_available(), "2.2").is_none());
}

#[test]
fn nccl_pick_listed_no_match_is_none() {
    assert!(cuvm::nccl::pick_listed(&nccl_available(), "3.0").is_none());
}

#[test]
fn nccl_major_mismatch_is_refused_with_both_majors() {
    assert_eq!(check_nccl_major("nccl_2.21.5-1+cuda12.4_x86_64.txz", 12, "12.4.1", 12), Ok(()));
    let err = check_nccl_major("nccl_2.18.3-1+cuda11.0_x86_64.txz", 11, "12.4.1", 12).unwrap_err();
    assert_eq!(
        err,
        "NCCL archive `nccl_2.18.3-1+cuda11.0_x86_64.txz` is built for CUDA 11, but 12.4.1 is CUDA 12"
    );
}

fn record(version: &str, source: Source) -> BundleRecord {
    BundleRecord {
        version: version.to_string(),
        source,
        path: format!("versions/{version}"),
        cudnn: None,
        components: vec!["cuda_nvcc".to_string()],
        sha256: None,
        installed_at: time::OffsetDateTime::UNIX_EPOCH,
    }
}

#[test]
fn select_target_takes_the_newest_matching_toolkit() {
    let records = vec![
        record("12.4.0", Source::Downloaded),
        record("12.4.1", Source::Downloaded),
        record("12.6.0", Source::Downloaded),
    ];
    let (i, v) = select_target(&records, "12.4").unwrap();
    assert_eq!(i, 1);
    assert_eq!(v.raw, "12.4.1");
    let (i, _) = select_target(&records, "12.6.0").unwrap();
    assert_eq!(i, 2);
}

#[test]
fn select_target_refuses_adopted_and_unmatched() {
    let records = vec![record("12.4.1", Source::Adopted)];
    assert_eq!(
        select_target(&records, "12.4"),
        Err(TargetError::Adopted {
            handle: "12.4.1".to_string()
        })
    );
    let err = select_target(&records, "11.8").unwrap_err();
    assert_eq!(
        err,
        TargetError::NoMatch {
            spec: "11.8".to_string()
        }
    );
    assert_eq!(
        err.to_string(),
        "no installed toolkit matches `11.8`; run `cuvm ls`"
    );
}

#[test]
fn retrofit_records_the_cudnn_on_the_matching_bundle_only() {
    let mut m = cuvm::manifest::Manifest::new();
    m.upsert_bundle(record("12.4.1", Source::Downloaded));
    m.upsert_bundle(record("12.6.0", Source::Downloaded));
    m.set_cudnn("12.6.0", "9.8.0.87");
    assert_eq!(m.bundles[0].cudnn, None);
    assert_eq!(m.bundles[1].cudnn.as_deref(), Some("9.8.0.87"));
    assert_eq!(m.bundles[1].version, "12.6.0");
}

#[test]
fn artifact_file_names_are_the_last_path_piece() {
    assert_eq!(
        artifact_file_name("cudnn/linux-x86_64/cudnn-linux-x86_64-9.8.0.87_cuda12-archive.tar.xz"),
        "cudnn-linux-x86_64-9.8.0.87_cuda12-archive.tar.xz"
    );
    assert_eq!(artifact_file_name("plain.txz"), "plain.txz");
}

/// An engine whose pairing and verdict are canned.
struct PairEngine {
    default_pick: Option<&'static str>,
    accept: bool,
}

impl cuvm::ports::CompatEngine for PairEngine {
    fn ceiling_for(&self, _d: cuvm::domain::Driver) -> Option<cuvm::ports::VersionView> {
        unreachable!("a contract-only item")
    }

    fn toolkit_verdict(&self, _d: cuvm::domain::Driver, _want: cuvm::ports::VersionView, _strict: bool) -> cuvm::ports::VerdictView {
        unreachable!("a contract-only item")
    }

    fn cudnn_pick(&self, _tk: cuvm::ports::VersionView, _avail: cuvm::ports::VersionsView) -> Option<cuvm::ports::VersionView> {
        unreachable!("a contract-only item")
    }

    fn pair_verdict(&self, _tk: cuvm::ports::VersionView, _cudnn: cuvm::ports::VersionView) -> cuvm::ports::VerdictView {
        unreachable!("a contract-only item")
    }

    fn max_toolkit_for_driver(&self, _d: &cuvm::domain::Driver) -> anyhow::Result<Version> {
        panic!("not consulted")
    }

    fn check_toolkit(
        &self,
        _d: &cuvm::domain::Driver,
        _want: &Version,
        _strict: bool,
    ) -> cuvm::ports::Verdict {
        panic!("not consulted")
    }

    fn pair_cudnn(&self, _tk: &Version, _avail: &[Version]) -> Option<Version> {
        self.default_pick.map(|s| Version::parse(s).unwrap())
    }

    fn validate_pair(&self, _tk: &Version, cudnn: &Version) -> cuvm::ports::Verdict {
        cuvm::ports::Verdict {
            ok: self.accept,
            severity: if self.accept {
                cuvm::ports::Severity::Okay
            } else {
                cuvm::ports::Severity::Block
            },
            reason: format!("cuDNN {} does not support this toolkit", cudnn.raw),
            forward_compat_possible: false,
        }
    }
}

#[test]
fn choose_cudnn_pairs_by_default_or_by_spec_and_respects_the_verdict() {
    let tk = Version::parse("12.4.1").unwrap();
    let eng = PairEngine { default_pick: Some("9.8.1.3"), accept: true };
    assert_eq!(choose_cudnn(&eng, &tk, &cudnn_available(), "default").unwrap().raw, "9.8.1.3");
    assert_eq!(choose_cudnn(&eng, &tk, &cudnn_available(), "9.8.0").unwrap().raw, "9.8.0.87");
    assert_eq!(
        choose_cudnn(&eng, &tk, &cudnn_available(), "7").unwrap_err(),
        "no cuDNN in the redist index matches `7`"
    );
    let strict = PairEngine { default_pick: None, accept: false };
    assert_eq!(
        choose_cudnn(&strict, &tk, &cudnn_available(), "8").unwrap_err(),
        "cuDNN 8.9.7.29 does not support this toolkit"
    );
    assert_eq!(
        choose_cudnn(&strict, &tk, &cudnn_available(), "default").unwrap_err(),
        "no cuDNN in the redist index matches `default`"
    );
}

#[test]
fn upserting_a_handle_twice_keeps_one_record() {
    let mut m = cuvm::manifest::Manifest::new();
    m.upsert_bundle(record("12.4.1", Source::Adopted));
    m.upsert_bundle(record("12.6.0", Source::Downloaded));
    m.upsert_bundle(record("12.4.1", Source::Downloaded));
    let handles: Vec<&str> = m.bundles.iter().map(|b| b.version.as_str()).collect();
    assert_eq!(handles, ["12.6.0", "12.4.1"]);
    assert_eq!(m.bundles[1].source, Source::Downloaded);
}

#[test]
fn aliases_read_back_what_was_written() {
    let mut m = cuvm::manifest::Manifest::new();
    m.set_alias("default", "12.4.1");
    m.set_alias("stable", "12.4");
    m.set_alias("default", "12.6.0");
    assert_eq!(m.alias_target("default").as_deref(), Some("12.6.0"));
    assert_eq!(m.alias_target("stable").as_deref(), Some("12.4"));
    assert!(m.remove_alias("default"));
    assert_eq!(m.alias_target("default"), None);
    assert!(!m.remove_alias("default"));
    assert_eq!(m.alias_target("stable").as_deref(), Some("12.4"));
}

#[test]
fn adopt_reads_the_version_from_the_directory_name() {
    let v = cuvm::candidate::adopt_dir_version("cuda-12.4");
    assert_eq!(v.raw, "12.4");
    assert_eq!(v.fields, vec![12, 4]);
    assert_eq!(cuvm::candidate::adopt_dir_version("12.6.1").raw, "12.6.1");
    let p = cuvm::candidate::adopt_dir_version("cuda");
    assert_eq!(p.raw, "0.0.0");
    assert_eq!(p.fields, vec![0, 0, 0]);
}

#[test]
fn supplied_cudnn_archives_need_a_standard_name_and_an_accepted_pair() {
    let tk = Version::parse("12.4.1").unwrap();
    let ok = PairEngine { default_pick: None, accept: true };
    let (v, major) = cuvm::cudnn::supplied_cudnn(
        &ok,
        &tk,
        "cudnn-linux-x86_64-9.8.0.87_cuda12-archive.tar.xz",
    )
    .unwrap();
    assert_eq!((v.raw.as_str(), major), ("9.8.0.87", 12));
    assert_eq!(
        cuvm::cudnn::supplied_cudnn(&ok, &tk, "cudnn.zip").unwrap_err(),
        "`cudnn.zip` is not a standard cuDNN redist archive name (expected cudnn-<platform>-<ver>_cuda<major>-archive.tar.xz/.zip)"
    );
    let no = PairEngine { default_pick: None, accept: false };
    assert_eq!(
        cuvm::cudnn::supplied_cudnn(&no, &tk, "cudnn-linux-x86_64-8.9.7.29_cuda11-archive.tar.xz")
            .unwrap_err(),
        "cuDNN 8.9.7.29 does not support this toolkit"
    );
}

#[test]
fn choose_cudnn_with_the_embedded_engine_pairs_by_line() {
    let eng = cuvm::compat_adapter::CompatEngineAdapter::new();
    let tk = Version::parse("12.4.1").unwrap();
    let avail: Vec<Version> = ["8.9.7", "9.7.0", "9.8.0"]
        .iter()
        .map(|s| Version::parse(s).unwrap())
        .collect();
    assert_eq!(choose_cudnn(&eng, &tk, &avail, "default").unwrap().raw, "9.8.0");
    assert_eq!(choose_cudnn(&eng, &tk, &avail, "9.7").unwrap().raw, "9.7.0");
    let tk13 = Version::parse("13.0").unwrap();
    assert_eq!(
        choose_cudnn(&eng, &tk13, &avail, "8").unwrap_err(),
        "cuDNN 8.9.7 does not support CUDA 13.x (needs cuDNN 9.x)"
    );
}

#[test]
fn archive_names_built_from_parts_read_back() {
    let (v, major) =
        parse_cudnn_archive_name("cudnn-linux-sbsa-9.10.2.21_cuda13-archive.zip").unwrap();
    assert_eq!(v.raw, "9.10.2.21");
    assert_eq!(v.fields, vec![9, 10, 2, 21]);
    assert_eq!(major, 13);
    let (v, major) =
        parse_cudnn_archive_name("cudnn-windows-x86_64-8.9.7.29_cuda11-archive.tar.xz").unwrap();
    assert_eq!((v.raw.as_str(), major), ("8.9.7.29", 11));
}

#[test]
fn target_errors_carry_the_full_message() {
    let records = vec![record("12.4.1", Source::Adopted)];
    assert_eq!(
        select_target(&records, "12.4").unwrap_err().to_string(),
        "12.4.1 is adopted in place; cuvm never modifies adopted installs (ADR-005). Install the toolkit with `cuvm install 12.4.1` first."
    );
    let odd = vec![record("nightly", Source::Downloaded)];
    let err = select_target(&odd, "nightly").unwrap_err();
    assert_eq!(
        err,
        TargetError::NotAVersion {
            handle: "nightly".to_string(),
            cause: "invalid version string: \"nightly\"".to_string(),
        }
    );
    assert_eq!(
        err.to_string(),
        "manifest handle `nightly` is not a version: invalid version string: \"nightly\""
    );
}
