use cuvm::compat_adapter::{new_compat_engine, CompatEngineAdapter};
use cuvm::compat_engine::{CompatLookupError, CompatSeverity, DefaultCompatEngine};
use cuvm::compat_tables::{CudnnMatrix, DriverCeilingTable};
use cuvm::domain::{Arch, Driver, GpuClass, Os, Platform};
use cuvm::ports::{CompatEngine, Severity};
use cuvm::version::Version;

fn linux_driver(ver: &str, class: GpuClass) -> Driver {
    Driver {
        present: true,
        version: Version::parse(ver).unwrap(),
        platform: Platform {
            os: Os::Linux,
            arch: Arch::X86_64,
        },
        gpu_class: class,
    }
}

fn windows_driver(ver: &str) -> Driver {
    Driver {
        present: true,
        version: Version::parse(ver).unwrap(),
        platform: Platform {
            os: Os::Windows,
            arch: Arch::X86_64,
        },
        gpu_class: GpuClass::GeForce,
    }
}

// ----- engine -----

#[test]
fn ceiling_linux_550_54_14_is_12_4() {
    let e = DefaultCompatEngine::new();
    let d = linux_driver("550.54.14", GpuClass::GeForce);
    assert_eq!(
        e.max_toolkit_for_driver(&d).unwrap(),
        Version::parse("12.4").unwrap()
    );
}

#[test]
fn ceiling_linux_565_is_12_6() {
    let e = DefaultCompatEngine::new();
    // 12.6 min = 560.28.03 (<=565), 12.8 min = 570.26 (>565) -> ceiling 12.6.
    let d = linux_driver("565.57.01", GpuClass::GeForce);
    assert_eq!(
        e.max_toolkit_for_driver(&d).unwrap(),
        Version::parse("12.6").unwrap()
    );
}

#[test]
fn ceiling_linux_552_is_12_4() {
    let e = DefaultCompatEngine::new();
    // 12.4 min = 550.54.14 (<=552), 12.5 min = 555.42.02 (>552) -> ceiling 12.4.
    let d = linux_driver("552.12", GpuClass::GeForce);
    assert_eq!(
        e.max_toolkit_for_driver(&d).unwrap(),
        Version::parse("12.4").unwrap()
    );
}

#[test]
fn ceiling_uses_numeric_tuple_compare_not_lexical() {
    let e = DefaultCompatEngine::new();
    // Driver 570.124.06 must clear 12.8's 570.26 minimum -> ceiling >= 12.8.
    let d = linux_driver("570.124.06", GpuClass::DataCenter);
    let ceiling = e.max_toolkit_for_driver(&d).unwrap();
    assert!(
        ceiling >= Version::parse("12.8").unwrap(),
        "got {ceiling:?}"
    );
    // 12.9 min = 575.51.03 (>570.124.06) so ceiling stays 12.8.
    assert_eq!(ceiling, Version::parse("12.8").unwrap());
}

#[test]
fn ceiling_windows_skips_na_13x_rows() {
    let e = DefaultCompatEngine::new();
    // A high Windows driver still cannot reach any 13.x (all N/A) -> caps at 12.9.
    let d = windows_driver("999.99");
    assert_eq!(
        e.max_toolkit_for_driver(&d).unwrap(),
        Version::parse("12.9").unwrap()
    );
}

#[test]
fn ceiling_of_a_driver_below_every_minimum_is_no_ceiling() {
    let e = DefaultCompatEngine::new();
    let d = linux_driver("400.1", GpuClass::GeForce);
    let err = e.max_toolkit_for_driver(&d).unwrap_err();
    assert_eq!(err, CompatLookupError::NoCeiling);
    assert_eq!(err.to_string(), "no CUDA toolkit ceiling for this driver/OS");
}

#[test]
fn ceiling_keeps_the_raw_text_of_the_table_row() {
    let e = DefaultCompatEngine::new();
    let d = linux_driver("600.30.02", GpuClass::DataCenter);
    let ceiling = e.max_toolkit_for_driver(&d).unwrap();
    assert_eq!(ceiling.raw, "13.3");
    assert_eq!(ceiling.fields, vec![13, 3]);
}

#[test]
fn check_toolkit_strict_blocks_below_exact_minimum() {
    let e = DefaultCompatEngine::new();
    let d = linux_driver("545.23.06", GpuClass::GeForce);
    let out = e.check_toolkit(&d, &Version::parse("12.4").unwrap(), true);
    assert_eq!(out.severity, CompatSeverity::Block);
    assert!(!out.ok);
}

#[test]
fn check_toolkit_strict_ok_at_or_above_minimum() {
    let e = DefaultCompatEngine::new();
    let d = linux_driver("550.54.14", GpuClass::GeForce);
    let out = e.check_toolkit(&d, &Version::parse("12.4").unwrap(), true);
    assert_eq!(out.severity, CompatSeverity::Okay);
    assert!(out.ok);
}

#[test]
fn check_toolkit_accepts_patch_version_via_minor_row() {
    let e = DefaultCompatEngine::new();
    let d = linux_driver("565.57.01", GpuClass::GeForce);
    let out = e.check_toolkit(&d, &Version::parse("12.4.1").unwrap(), true);
    assert_eq!(out.severity, CompatSeverity::Okay);
    assert!(out.ok);
}

#[test]
fn check_toolkit_likely_warns_above_floor_below_strict() {
    let e = DefaultCompatEngine::new();
    let d = linux_driver("540.00.00", GpuClass::GeForce);
    let out = e.check_toolkit(&d, &Version::parse("12.4").unwrap(), false);
    assert_eq!(out.severity, CompatSeverity::Warn);
    assert!(!out.ok);
}

#[test]
fn check_toolkit_likely_blocks_below_floor() {
    let e = DefaultCompatEngine::new();
    let d = linux_driver("560.28.03", GpuClass::DataCenter);
    let out = e.check_toolkit(&d, &Version::parse("13.0").unwrap(), false);
    assert_eq!(out.severity, CompatSeverity::Block);
}

#[test]
fn check_toolkit_forward_compat_flag_only_for_eligible_gpu_on_linux() {
    let e = DefaultCompatEngine::new();
    let dc = linux_driver("545.23.06", GpuClass::DataCenter);
    let out_dc = e.check_toolkit(&dc, &Version::parse("12.4").unwrap(), true);
    assert!(out_dc.forward_compat_possible);
    let gf = linux_driver("545.23.06", GpuClass::GeForce);
    let out_gf = e.check_toolkit(&gf, &Version::parse("12.4").unwrap(), true);
    assert!(!out_gf.forward_compat_possible);
    let win = windows_driver("520.06");
    let out_win = e.check_toolkit(&win, &Version::parse("12.4").unwrap(), true);
    assert!(!out_win.forward_compat_possible);
}

#[test]
fn check_toolkit_reasons_spell_out_each_case() {
    let e = DefaultCompatEngine::new();
    let d = linux_driver("550.54.14", GpuClass::GeForce);
    let ok = e.check_toolkit(&d, &Version::parse("12.4").unwrap(), true);
    assert_eq!(ok.reason, "driver 550.54.14 satisfies CUDA 12.4 minimum 550.54.14");

    let low = linux_driver("545.23.06", GpuClass::GeForce);
    let strict = e.check_toolkit(&low, &Version::parse("12.4").unwrap(), true);
    assert_eq!(
        strict.reason,
        "driver 545.23.06 is below CUDA 12.4 minimum 550.54.14 (use --force or cuda-compat)"
    );
    let likely = e.check_toolkit(&low, &Version::parse("12.4").unwrap(), false);
    assert_eq!(
        likely.reason,
        "driver 545.23.06 below strict minimum 550.54.14 but above the 12.x minor-version floor 525.60.13 (likely works)"
    );

    let old = linux_driver("560.28.03", GpuClass::GeForce);
    let floor = e.check_toolkit(&old, &Version::parse("13.0").unwrap(), false);
    assert_eq!(
        floor.reason,
        "driver 560.28.03 below the 13.x minor-version floor 580.65.06"
    );
}

#[test]
fn check_toolkit_unknown_and_windows_na_toolkits_block() {
    let e = DefaultCompatEngine::new();
    let d = linux_driver("600.30.02", GpuClass::GeForce);
    let unknown = e.check_toolkit(&d, &Version::parse("12.7").unwrap(), true);
    assert_eq!(unknown.severity, CompatSeverity::Block);
    assert!(!unknown.ok);
    assert_eq!(unknown.reason, "unknown CUDA toolkit 12.7 (not in compat table)");

    let win = windows_driver("999.99");
    let na = e.check_toolkit(&win, &Version::parse("13.1").unwrap(), false);
    assert_eq!(na.severity, CompatSeverity::Block);
    assert_eq!(na.reason, "CUDA 13.1 is N/A on this OS");
}

#[test]
fn pair_cudnn_picks_newest_supporting_line() {
    let e = DefaultCompatEngine::new();
    let avail = vec![
        Version::parse("8.9.7").unwrap(),
        Version::parse("9.23.0").unwrap(),
    ];
    assert_eq!(
        e.pair_cudnn(&Version::parse("13.0").unwrap(), &avail),
        Some(Version::parse("9.23.0").unwrap())
    );
    assert_eq!(
        e.pair_cudnn(&Version::parse("11.8").unwrap(), &avail),
        Some(Version::parse("8.9.7").unwrap())
    );
    assert_eq!(
        e.pair_cudnn(&Version::parse("12.4").unwrap(), &avail),
        Some(Version::parse("9.23.0").unwrap())
    );
}

#[test]
fn pair_cudnn_none_when_nothing_supports() {
    let e = DefaultCompatEngine::new();
    let avail = vec![Version::parse("8.9.7").unwrap()];
    assert_eq!(e.pair_cudnn(&Version::parse("13.0").unwrap(), &avail), None);
}

#[test]
fn pair_cudnn_takes_the_last_of_equal_newest_candidates() {
    let e = DefaultCompatEngine::new();
    let avail = vec![
        Version::parse("9.23").unwrap(),
        Version::parse("8.9.7").unwrap(),
        Version::parse("9.23.0").unwrap(),
    ];
    let got = e.pair_cudnn(&Version::parse("12.4").unwrap(), &avail).unwrap();
    assert_eq!(got.raw, "9.23.0");
}

#[test]
fn validate_pair_blocks_13x_with_8x_cudnn() {
    let e = DefaultCompatEngine::new();
    let out = e.validate_pair(
        &Version::parse("13.0").unwrap(),
        &Version::parse("8.9.7").unwrap(),
    );
    assert_eq!(out.severity, CompatSeverity::Block);
    assert!(!out.ok);
    assert_eq!(
        out.reason,
        "cuDNN 8.9.7 does not support CUDA 13.x (needs cuDNN 9.x)"
    );
}

#[test]
fn validate_pair_blocks_11x_with_9x_cudnn() {
    let e = DefaultCompatEngine::new();
    let out = e.validate_pair(
        &Version::parse("11.8").unwrap(),
        &Version::parse("9.23.0").unwrap(),
    );
    assert_eq!(out.severity, CompatSeverity::Block);
    assert_eq!(
        out.reason,
        "cuDNN 9.23.0 does not support CUDA 11.x (needs cuDNN 8.x)"
    );
}

#[test]
fn validate_pair_ok_for_supported_major() {
    let e = DefaultCompatEngine::new();
    let out = e.validate_pair(
        &Version::parse("13.3").unwrap(),
        &Version::parse("9.23.0").unwrap(),
    );
    assert_eq!(out.severity, CompatSeverity::Okay);
    assert!(out.ok);
    assert_eq!(out.reason, "cuDNN 9.23.0 supports CUDA 13.x");
}

#[test]
fn validate_pair_unknown_cudnn_for_12x_needs_either_line() {
    let e = DefaultCompatEngine::new();
    let out = e.validate_pair(
        &Version::parse("12.4").unwrap(),
        &Version::parse("7.6.5").unwrap(),
    );
    assert_eq!(out.severity, CompatSeverity::Block);
    assert_eq!(
        out.reason,
        "cuDNN 7.6.5 does not support CUDA 12.x (needs cuDNN 8.x/9.x)"
    );
}

// ----- adapter -----

#[test]
fn adapter_max_toolkit_maps_correctly() {
    let adapter = CompatEngineAdapter::new();
    let d = linux_driver("565.57.01", GpuClass::GeForce);
    let ceiling = adapter.max_toolkit_for_driver(&d).unwrap();
    assert_eq!(ceiling, Version::parse("12.6").unwrap());
}

#[test]
fn adapter_check_toolkit_maps_severity() {
    let adapter = CompatEngineAdapter::new();
    let d = linux_driver("565.57.01", GpuClass::GeForce);
    let want = Version::parse("12.4.1").unwrap();
    let verdict = adapter.check_toolkit(&d, &want, true);
    assert!(verdict.ok);
    assert_eq!(verdict.severity, Severity::Okay);
}

#[test]
fn adapter_block_maps_to_app_block() {
    let adapter = CompatEngineAdapter::new();
    let d = Driver {
        present: true,
        version: Version::parse("520.00").unwrap(),
        platform: Platform {
            os: Os::Linux,
            arch: Arch::X86_64,
        },
        gpu_class: GpuClass::GeForce,
    };
    let want = Version::parse("13.0").unwrap();
    let verdict = adapter.check_toolkit(&d, &want, false);
    assert_eq!(verdict.severity, Severity::Block);
    assert!(!verdict.ok);
}

#[test]
fn adapter_reports_a_missing_ceiling_as_an_error_with_its_message() {
    let engine = new_compat_engine();
    let d = linux_driver("300.1", GpuClass::GeForce);
    let err = engine.max_toolkit_for_driver(&d).unwrap_err();
    assert_eq!(err.to_string(), "no CUDA toolkit ceiling for this driver/OS");
}

#[test]
fn adapter_passes_pairing_and_validation_through() {
    let engine = new_compat_engine();
    let avail = vec![Version::parse("8.9.7").unwrap()];
    assert_eq!(
        engine.pair_cudnn(&Version::parse("11.8").unwrap(), &avail),
        Some(Version::parse("8.9.7").unwrap())
    );
    let v = engine.validate_pair(
        &Version::parse("13.0").unwrap(),
        &Version::parse("8.9.7").unwrap(),
    );
    assert_eq!(v.severity, Severity::Block);
    assert!(!v.forward_compat_possible);
}

// ----- tables -----

#[test]
fn loads_all_driver_rows_with_no_127() {
    let t = DriverCeilingTable::load();
    assert_eq!(t.rows.len(), 14);
    assert!(
        !t.rows
            .iter()
            .any(|r| r.cuda == Version::parse("12.7").unwrap()),
        "CUDA 12.7 must not exist (NVIDIA skipped it)"
    );
}

#[test]
fn driver_strings_parse_as_numeric_tuples_not_lexical() {
    let t = DriverCeilingTable::load();
    let r128 = t.row_for(&Version::parse("12.8").unwrap()).unwrap();
    let r129 = t.row_for(&Version::parse("12.9").unwrap()).unwrap();
    assert!(r128.linux_min < r129.linux_min);
    assert!(Version::parse("570.26").unwrap() < Version::parse("570.124.06").unwrap());
}

#[test]
fn windows_na_begins_at_cuda_13_0_not_13_1() {
    let t = DriverCeilingTable::load();
    assert!(t
        .row_for(&Version::parse("12.9").unwrap())
        .unwrap()
        .windows_min
        .is_some());
    for v in ["13.0", "13.1", "13.2", "13.3"] {
        let row = t.row_for(&Version::parse(v).unwrap()).unwrap();
        assert!(
            row.windows_min.is_none(),
            "CUDA {v} must be Windows N/A (driver unbundled at 13.0)"
        );
    }
}

#[test]
fn linux_min_is_present_for_every_row() {
    let t = DriverCeilingTable::load();
    for r in &t.rows {
        assert!(r.linux_min >= Version::parse("520.0").unwrap());
    }
}

#[test]
fn cudnn_matrix_loads_both_lines() {
    let m = CudnnMatrix::load();
    assert_eq!(m.entries.len(), 2);
    let last8 = m.entry_for(&Version::parse("8.9.7").unwrap()).unwrap();
    assert_eq!(last8.cuda_majors, vec![11, 12]);
    let nine = m.entry_for(&Version::parse("9.23.0").unwrap()).unwrap();
    assert_eq!(nine.cuda_majors, vec![12, 13]);
}

#[test]
fn cudnn_matrix_maps_cuda_major_to_lines() {
    let m = CudnnMatrix::load();
    let for13: Vec<u32> = m
        .cudnn_lines_for_cuda_major(13)
        .iter()
        .map(Version::major)
        .collect();
    assert_eq!(for13, vec![9]);
    let for11: Vec<u32> = m
        .cudnn_lines_for_cuda_major(11)
        .iter()
        .map(Version::major)
        .collect();
    assert_eq!(for11, vec![8]);
    let mut for12: Vec<u32> = m
        .cudnn_lines_for_cuda_major(12)
        .iter()
        .map(Version::major)
        .collect();
    for12.sort_unstable();
    assert_eq!(for12, vec![8, 9]);
}

#[test]
fn row_for_matches_numerically_and_misses_unknown_releases() {
    let t = DriverCeilingTable::load();
    let r = t.row_for(&Version::parse("12.4.0").unwrap()).unwrap();
    assert_eq!(r.cuda.raw, "12.4");
    assert!(t.row_for(&Version::parse("14.0").unwrap()).is_none());
    let m = CudnnMatrix::load();
    assert!(m.entry_for(&Version::parse("9.1.0").unwrap()).is_none());
    assert!(m.cudnn_lines_for_cuda_major(10).is_empty());
}

// ----- pairing by cuDNN major line -----

fn versions(list: &[&str]) -> Vec<Version> {
    list.iter().map(|s| Version::parse(s).unwrap()).collect()
}

#[test]
fn pair_cudnn_pairs_by_line_not_by_exact_matrix_version() {
    let e = DefaultCompatEngine::new();
    let avail = versions(&["8.9.7", "9.7.0", "9.8.0"]);
    assert_eq!(
        e.pair_cudnn(&Version::parse("12.4.1").unwrap(), &avail),
        Some(Version::parse("9.8.0").unwrap())
    );
    // CUDA 11 is served by the 8.x line only.
    assert_eq!(
        e.pair_cudnn(&Version::parse("11.8").unwrap(), &avail),
        Some(Version::parse("8.9.7").unwrap())
    );
}

#[test]
fn pair_cudnn_ignores_lines_the_matrix_does_not_know() {
    let e = DefaultCompatEngine::new();
    let avail = versions(&["7.6.5", "10.0.0"]);
    assert_eq!(e.pair_cudnn(&Version::parse("12.4").unwrap(), &avail), None);
}

#[test]
fn validate_pair_accepts_any_release_of_a_supporting_line() {
    let e = DefaultCompatEngine::new();
    let out = e.validate_pair(
        &Version::parse("12.4.1").unwrap(),
        &Version::parse("9.7.0").unwrap(),
    );
    assert!(out.ok);
    assert_eq!(out.severity, CompatSeverity::Okay);
    assert_eq!(out.reason, "cuDNN 9.7.0 supports CUDA 12.x");
}

#[test]
fn validate_pair_blocks_a_line_without_the_cuda_major() {
    let e = DefaultCompatEngine::new();
    let out = e.validate_pair(
        &Version::parse("13.0").unwrap(),
        &Version::parse("8.9.0").unwrap(),
    );
    assert!(!out.ok);
    assert_eq!(out.severity, CompatSeverity::Block);
    assert_eq!(out.reason, "cuDNN 8.9.0 does not support CUDA 13.x (needs cuDNN 9.x)");
}

#[test]
fn matrix_line_entry_is_found_by_major() {
    let m = CudnnMatrix::load();
    let e = m.line_entry_for(&Version::parse("9.1.0").unwrap()).unwrap();
    assert_eq!(e.cudnn.raw, "9.23.0");
    assert!(m.line_entry_for(&Version::parse("7.0").unwrap()).is_none());
}

#[test]
fn adapter_pairs_cudnn_by_line() {
    let adapter = CompatEngineAdapter::new();
    let avail = versions(&["8.9.7", "9.7.0", "9.8.0"]);
    assert_eq!(
        adapter.pair_cudnn(&Version::parse("12.4.1").unwrap(), &avail),
        Some(Version::parse("9.8.0").unwrap())
    );
    let v = adapter.validate_pair(
        &Version::parse("12.4.1").unwrap(),
        &Version::parse("9.7.0").unwrap(),
    );
    assert!(v.ok);
    assert_eq!(v.severity, Severity::Okay);
}

#[test]
fn the_ceiling_passes_a_strict_check() {
    let e = DefaultCompatEngine::new();
    for (drv, class) in [
        ("565.57.01", GpuClass::GeForce),
        ("550.54.14", GpuClass::DataCenter),
        ("570.124.06", GpuClass::Jetson),
        ("600.30.02", GpuClass::GeForce),
    ] {
        let d = linux_driver(drv, class);
        let ceiling = e.max_toolkit_for_driver(&d).unwrap();
        let out = e.check_toolkit(&d, &ceiling, true);
        assert!(out.ok, "{drv}: {}", out.reason);
        assert_eq!(out.severity, CompatSeverity::Okay);
    }
    let w = windows_driver("999.99");
    let ceiling = e.max_toolkit_for_driver(&w).unwrap();
    assert!(e.check_toolkit(&w, &ceiling, true).ok);
}
