use cuvm::candidate::Candidate;
use cuvm::domain::{
    current_platform, is_math_lib, math_lib_components, Arch, Bundle, Os, Platform, Source,
    Toolkit,
};
use cuvm::env_plan::{plan_for, EnvPlan};
use cuvm::error::{CompatError, CoreError};
use cuvm::version::Version;

fn linux() -> Platform {
    Platform {
        os: Os::Linux,
        arch: Arch::X86_64,
    }
}

fn sample_bundle(ver: &str, root: &str) -> Bundle {
    Bundle {
        toolkit: Toolkit {
            version: Version::parse(ver).unwrap(),
            source: Source::Downloaded,
            root: root.to_string(),
            platform: linux(),
            components: vec!["cuda_nvcc".to_string(), "cuda_cudart".to_string()],
            has_lib64: false,
            installed_at: time::OffsetDateTime::UNIX_EPOCH,
            checksum: None,
        },
        cudnn: None,
        extra: vec![],
    }
}

// ----- domain -----

#[test]
fn redist_key_matches_redist_platform_dirs() {
    assert_eq!(
        Platform {
            os: Os::Linux,
            arch: Arch::X86_64
        }
        .redist_key(),
        "linux-x86_64"
    );
    assert_eq!(
        Platform {
            os: Os::Linux,
            arch: Arch::Sbsa
        }
        .redist_key(),
        "linux-sbsa"
    );
    assert_eq!(
        Platform {
            os: Os::Linux,
            arch: Arch::Aarch64
        }
        .redist_key(),
        "linux-aarch64"
    );
    assert_eq!(
        Platform {
            os: Os::Windows,
            arch: Arch::X86_64
        }
        .redist_key(),
        "windows-x86_64"
    );
}

#[test]
fn bundle_handle_equals_toolkit_version_raw() {
    let b = sample_bundle("12.4.1", "/home/u/.cuvm/versions/12.4.1");
    assert_eq!(b.handle(), "12.4.1");
}

#[test]
fn current_platform_maps_target_names() {
    assert_eq!(current_platform("windows", "x86_64"), Platform { os: Os::Windows, arch: Arch::X86_64 });
    assert_eq!(current_platform("linux", "aarch64"), Platform { os: Os::Linux, arch: Arch::Aarch64 });
    assert_eq!(current_platform("macos", "riscv64"), Platform { os: Os::Linux, arch: Arch::X86_64 });
}

#[test]
fn math_libs_are_the_documented_seven() {
    let names = math_lib_components();
    assert_eq!(
        names,
        vec![
            "libcublas",
            "libcufft",
            "libcurand",
            "libcusolver",
            "libcusparse",
            "libnpp",
            "libnvjitlink"
        ]
    );
    assert!(is_math_lib("libcufft"));
    assert!(!is_math_lib("cuda_nvcc"));
    assert!(!is_math_lib("LIBCUFFT"));
}

#[test]
fn bundle_copy_keeps_every_field() {
    let mut b = sample_bundle("12.4.1", "/r");
    b.toolkit.checksum = Some("abc".into());
    let c = b.copy();
    assert_eq!(c, b);
}

// ----- env plan -----

#[test]
fn envplan_holds_the_activation_fields() {
    let p = EnvPlan {
        cuda_home: "/home/u/.cuvm/versions/12.4.1".into(),
        cuda_path: "/home/u/.cuvm/versions/12.4.1".into(),
        toolkit_root: "/home/u/.cuvm/versions/12.4.1".into(),
        prepend_path: vec!["/home/u/.cuvm/versions/12.4.1/bin".into()],
        prepend_lib: vec!["/home/u/.cuvm/versions/12.4.1/lib64".into()],
        current: "12.4.1".into(),
        injected: vec![
            "/home/u/.cuvm/versions/12.4.1/bin".into(),
            "/home/u/.cuvm/versions/12.4.1/lib64".into(),
        ],
    };
    assert_eq!(p.cuda_home, p.cuda_path);
    assert_eq!(p.cuda_path, p.toolkit_root);
    assert_eq!(p.prepend_path.len(), 1);
    assert_eq!(p.injected.len(), 2);
    assert_eq!(p.current, "12.4.1");
    assert_eq!(p.clone(), p);
}

#[test]
fn plan_maps_roots_and_prepends() {
    let p = plan_for(&sample_bundle("12.4.1", "/home/u/.cuvm/versions/12.4.1"));
    assert_eq!(p.cuda_home, "/home/u/.cuvm/versions/12.4.1");
    assert_eq!(p.cuda_path, "/home/u/.cuvm/versions/12.4.1");
    assert_eq!(p.toolkit_root, "/home/u/.cuvm/versions/12.4.1");
    assert_eq!(
        p.prepend_path,
        vec!["/home/u/.cuvm/versions/12.4.1/bin".to_string()]
    );
    assert_eq!(
        p.prepend_lib,
        vec!["/home/u/.cuvm/versions/12.4.1/lib64".to_string()]
    );
}

#[test]
fn plan_sets_current_and_injected_from_handle() {
    let p = plan_for(&sample_bundle("12.4.1", "/home/u/.cuvm/versions/12.4.1"));
    assert_eq!(p.current, "12.4.1");
    assert_eq!(
        p.injected,
        vec![
            "/home/u/.cuvm/versions/12.4.1/bin".to_string(),
            "/home/u/.cuvm/versions/12.4.1/lib64".to_string(),
        ]
    );
}

// ----- errors -----

#[test]
fn core_error_invalid_version_displays_raw() {
    let e = CoreError::InvalidVersion { raw: "12.x".into() };
    assert!(e.to_string().contains("12.x"));
    assert_eq!(e.to_string(), "invalid version string: \"12.x\"");
}

#[test]
fn core_error_not_installed_offers_install() {
    let e = CoreError::NotInstalled {
        spec: "11.8".into(),
    };
    let msg = e.to_string();
    assert!(msg.contains("11.8"));
    assert!(msg.contains("cuvm install 11.8"));
    assert_eq!(
        msg,
        "no installed toolkit matches \"11.8\"; run `cuvm install 11.8` to install it"
    );
}

#[test]
fn core_error_alias_cycle_names_alias() {
    let e = CoreError::AliasCycle("loop".into());
    assert!(e.to_string().contains("loop"));
}

#[test]
fn core_error_unknown_alias_names_alias() {
    let e = CoreError::UnknownAlias("missing".into());
    assert!(e.to_string().contains("missing"));
    assert_eq!(e.to_string(), "alias \"missing\" is not defined");
}

#[test]
fn core_error_is_partial_eq() {
    assert_eq!(
        CoreError::NotInstalled {
            spec: "12.4".into()
        },
        CoreError::NotInstalled {
            spec: "12.4".into()
        }
    );
    assert_ne!(
        CoreError::NotInstalled {
            spec: "12.4".into()
        },
        CoreError::NotInstalled {
            spec: "11.8".into()
        }
    );
}

#[test]
fn core_error_quotes_with_debug_escapes() {
    let e = CoreError::AliasCycle("a\"b".into());
    assert_eq!(e.to_string(), "alias cycle detected while expanding \"a\\\"b\"");
}

#[test]
fn compat_error_not_installed_names_the_spec() {
    let e = CompatError::NotInstalled {
        spec: "12.4".into(),
    };
    let msg = e.to_string();
    assert!(msg.contains("12.4"));
    assert!(msg.to_lowercase().contains("not installed"));
}

#[test]
fn compat_error_driver_ceiling_reports_both_versions() {
    let e = CompatError::DriverCeiling {
        want: Version::parse("13.0").unwrap(),
        ceiling: Version::parse("12.4").unwrap(),
    };
    let msg = e.to_string();
    assert!(msg.contains("13.0"));
    assert!(msg.contains("12.4"));
    assert_eq!(msg, "requested CUDA 13.0 exceeds the driver ceiling 12.4");
}

#[test]
fn compat_error_cudnn_mismatch_reports_majors() {
    let e = CompatError::CudnnMismatch {
        cuda_major: 13,
        cudnn_major: 8,
    };
    let msg = e.to_string();
    assert!(msg.contains("13"));
    assert!(msg.contains('8'));
    assert_eq!(msg, "cuDNN major 8 is incompatible with CUDA major 13");
}

// ----- candidate -----

#[test]
fn from_dir_name_parses_minor_version() {
    let c = Candidate::from_dir_name("cuda-12.4", "/usr/local/cuda-12.4".to_string(), linux())
        .expect("cuda-12.4 should parse");
    assert_eq!(c.version, Version::parse("12.4").unwrap());
    assert_eq!(c.root, "/usr/local/cuda-12.4");
    assert_eq!(c.handle(), "12.4");
}

#[test]
fn from_dir_name_parses_patch_version() {
    let c = Candidate::from_dir_name("cuda-12.4.1", "/x/cuda-12.4.1".to_string(), linux())
        .expect("cuda-12.4.1 should parse");
    assert_eq!(c.version, Version::parse("12.4.1").unwrap());
}

#[test]
fn from_dir_name_rejects_non_cuda_dirs() {
    assert!(Candidate::from_dir_name("cuda", "/usr/local/cuda".to_string(), linux()).is_none());
    assert!(Candidate::from_dir_name("cudnn-9.2", "/x".to_string(), linux()).is_none());
    assert!(Candidate::from_dir_name("cuda-", "/x".to_string(), linux()).is_none());
    assert!(Candidate::from_dir_name("cuda-banana", "/x".to_string(), linux()).is_none());
    assert!(Candidate::from_dir_name("notcuda-12.4", "/x".to_string(), linux()).is_none());
}

#[test]
fn adopted_records_keep_the_root_verbatim() {
    let mut b = sample_bundle("12.2.0", "/usr/local/cuda-12.2");
    b.toolkit.source = Source::Adopted;
    b.toolkit.checksum = Some("abc".to_string());
    let r = cuvm::install::adopted_record(&b);
    assert_eq!(r.version, "12.2.0");
    assert_eq!(r.source, Source::Adopted);
    assert_eq!(r.path, "/usr/local/cuda-12.2");
    assert_eq!(r.cudnn, None);
    assert_eq!(r.components, vec!["cuda_nvcc", "cuda_cudart"]);
    assert_eq!(r.sha256.as_deref(), Some("abc"));
}
