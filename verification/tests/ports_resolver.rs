use cuvm::domain::{Arch, Bundle, Os, Pin, Platform, Source, Toolkit};
use cuvm::error::CoreError;
use cuvm::ports::{Artifact, ResolveVia, Resolved, Severity, Verdict};
use cuvm::resolver::{pin_from_contents, MemResolver};
use cuvm::version::Version;

fn bundle(ver: &str) -> Bundle {
    Bundle {
        toolkit: Toolkit {
            version: Version::parse(ver).unwrap(),
            source: Source::Downloaded,
            root: format!("/home/u/.cuvm/versions/{ver}"),
            platform: Platform {
                os: Os::Linux,
                arch: Arch::X86_64,
            },
            components: vec!["cuda_nvcc".into(), "cuda_cudart".into()],
            has_lib64: false,
            installed_at: time::OffsetDateTime::UNIX_EPOCH,
            checksum: None,
        },
        cudnn: None,
        extra: vec![],
    }
}

fn resolver(versions: &[&str], aliases: &[(&str, &str)]) -> MemResolver {
    let installed = versions.iter().map(|v| bundle(v)).collect();
    let pairs = aliases
        .iter()
        .map(|(k, v)| ((*k).to_string(), (*v).to_string()))
        .collect();
    MemResolver::new(installed, pairs)
}

// ----- interfaces -----

#[test]
fn resolved_carries_bundle_spec_via_and_pin() {
    let r = Resolved {
        bundle: bundle("12.4.1"),
        spec: "12.4".to_string(),
        via: ResolveVia::Minor,
        pin: None,
    };
    assert_eq!(r.spec, "12.4");
    assert!(matches!(r.via, ResolveVia::Minor));
    assert!(r.pin.is_none());
}

#[test]
fn verdict_blocks_with_reason() {
    let v = Verdict {
        ok: false,
        severity: Severity::Block,
        reason: "driver ceiling exceeded".to_string(),
        forward_compat_possible: false,
    };
    assert!(!v.ok);
    assert!(matches!(v.severity, Severity::Block));
    assert_eq!(v.reason, "driver ceiling exceeded");
}

#[test]
fn artifact_mirrors_one_redist_platform_object() {
    let a = Artifact {
        component: "cuda_nvcc".to_string(),
        relative_path: "cuda_nvcc/linux-x86_64/cuda_nvcc-linux-x86_64-12.4.131-archive.tar.xz"
            .to_string(),
        url: "https://developer.download.nvidia.com/compute/cuda/redist/...".to_string(),
        sha256: "deadbeef".to_string(),
        md5: None,
        size: 1234,
    };
    assert_eq!(a.component, "cuda_nvcc");
    assert!(a.relative_path.starts_with("cuda_nvcc/"));
    assert_eq!(a.size, 1234);
}

#[test]
fn severity_labels_are_upper_case() {
    assert_eq!(Severity::Okay.label(), "OK");
    assert_eq!(Severity::Warn.label(), "WARN");
    assert_eq!(Severity::Block.label(), "BLOCK");
}

// ----- resolver grammar -----

#[test]
fn exact_match() {
    let r = resolver(&["12.4.1", "12.4.0", "13.0.0"], &[]);
    let got = r.resolve("12.4.1").unwrap();
    assert_eq!(got.bundle.toolkit.version.raw, "12.4.1");
    assert_eq!(got.via, ResolveVia::Exact);
    assert_eq!(got.spec, "12.4.1");
}

#[test]
fn minor_picks_newest_patch() {
    let r = resolver(&["12.4.0", "12.4.1", "12.4.10", "12.5.0"], &[]);
    let got = r.resolve("12.4").unwrap();
    assert_eq!(got.bundle.toolkit.version.raw, "12.4.10");
    assert_eq!(got.via, ResolveVia::Minor);
}

#[test]
fn major_picks_newest_in_line_not_higher_major() {
    let r = resolver(&["12.4.1", "12.9.0", "13.0.0", "13.3.0"], &[]);
    let got = r.resolve("12").unwrap();
    assert_eq!(got.bundle.toolkit.version.raw, "12.9.0");
    assert_eq!(got.via, ResolveVia::Major);
}

#[test]
fn latest_picks_global_newest() {
    let r = resolver(&["12.4.1", "13.0.0", "13.3.0"], &[]);
    let got = r.resolve("latest").unwrap();
    assert_eq!(got.bundle.toolkit.version.raw, "13.3.0");
    assert_eq!(got.via, ResolveVia::Latest);
}

#[test]
fn missing_version_returns_typed_not_installed() {
    let r = resolver(&["12.4.1"], &[]);
    let err = r.resolve("11.8").unwrap_err();
    assert_eq!(
        err,
        CoreError::NotInstalled {
            spec: "11.8".into()
        }
    );
    assert!(err.to_string().contains("cuvm install 11.8"));
}

#[test]
fn exact_spec_not_installed_is_not_installed() {
    let r = resolver(&["12.4.1"], &[]);
    let err = r.resolve("12.4.2").unwrap_err();
    assert_eq!(
        err,
        CoreError::NotInstalled {
            spec: "12.4.2".into()
        }
    );
}

#[test]
fn latest_with_nothing_installed_is_not_installed() {
    let r = resolver(&[], &[]);
    assert_eq!(
        r.resolve("latest").unwrap_err(),
        CoreError::NotInstalled {
            spec: "latest".into()
        }
    );
}

#[test]
fn numerically_equal_versions_resolve_to_the_first_installed() {
    let r = resolver(&["12.4", "12.4.0"], &[]);
    let got = r.resolve("12.4.0").unwrap();
    assert_eq!(got.bundle.toolkit.version.raw, "12.4");
}

// ----- aliases -----

#[test]
fn alias_resolves_to_bundle() {
    let r = resolver(&["12.4.1"], &[("default", "12.4.1")]);
    let got = r.resolve("default").unwrap();
    assert_eq!(got.bundle.toolkit.version.raw, "12.4.1");
    assert_eq!(got.via, ResolveVia::Alias);
    assert_eq!(got.spec, "default");
}

#[test]
fn alias_chain_resolves_recursively() {
    let r = resolver(
        &["12.4.0", "12.4.9"],
        &[("ml", "stable"), ("stable", "12.4")],
    );
    let got = r.resolve("ml").unwrap();
    assert_eq!(got.bundle.toolkit.version.raw, "12.4.9");
    assert_eq!(got.via, ResolveVia::Alias);
}

#[test]
fn expand_alias_terminal_is_version_spec() {
    let r = resolver(&["12.4.1"], &[("default", "12.4.1")]);
    assert_eq!(r.expand_alias("default").unwrap(), "12.4.1");
}

#[test]
fn alias_cycle_is_rejected() {
    let r = resolver(&["12.4.1"], &[("a", "b"), ("b", "a")]);
    let err = r.expand_alias("a").unwrap_err();
    assert_eq!(err, CoreError::AliasCycle("a".into()));
    let rerr = r.resolve("a").unwrap_err();
    assert_eq!(rerr, CoreError::AliasCycle("a".into()));
}

#[test]
fn self_referential_alias_is_cycle() {
    let r = resolver(&["12.4.1"], &[("loop", "loop")]);
    assert_eq!(
        r.expand_alias("loop").unwrap_err(),
        CoreError::AliasCycle("loop".into())
    );
}

#[test]
fn unknown_name_falls_through_to_version_parse() {
    let r = resolver(&["12.9.0"], &[]);
    assert_eq!(r.resolve("12").unwrap().via, ResolveVia::Major);
    assert_eq!(
        r.resolve("nope").unwrap_err(),
        CoreError::NotInstalled {
            spec: "nope".into()
        }
    );
}

#[test]
fn a_later_alias_pair_replaces_an_earlier_one() {
    let r = resolver(&["12.4.1", "13.0.0"], &[("default", "12.4.1"), ("default", "13.0.0")]);
    assert_eq!(r.expand_alias("default").unwrap(), "13.0.0");
}

#[test]
fn alias_to_a_missing_version_names_the_target() {
    let r = resolver(&["12.4.1"], &[("old", "11.8")]);
    assert_eq!(
        r.resolve("old").unwrap_err(),
        CoreError::NotInstalled {
            spec: "11.8".into()
        }
    );
}

#[test]
fn latest_is_never_read_as_an_alias() {
    let r = resolver(&["12.4.1", "13.0.0"], &[("latest", "12.4.1")]);
    let got = r.resolve("latest").unwrap();
    assert_eq!(got.via, ResolveVia::Latest);
    assert_eq!(got.bundle.toolkit.version.raw, "13.0.0");
}

// ----- pins -----

#[test]
fn pin_contents_are_trimmed_and_blank_files_ignored() {
    let p = pin_from_contents("  12.4\n", "/p/.cuda-version").unwrap();
    assert_eq!(p.spec, "12.4");
    assert_eq!(p.file, "/p/.cuda-version");
    assert!(pin_from_contents(" \n\t", "/p/.cuda-version").is_none());
}

#[test]
fn a_pin_resolves_by_pinfile_and_keeps_the_pin() {
    let r = resolver(&["12.4.1"], &[]);
    let pin = Pin {
        spec: "12.4".into(),
        file: "/p/.cuda-version".into(),
    };
    let got = r.resolve_pinned(Some(pin.clone())).unwrap().unwrap();
    assert_eq!(got.via, ResolveVia::PinFile);
    assert_eq!(got.pin, Some(pin));
    assert_eq!(got.bundle.toolkit.version.raw, "12.4.1");
}

#[test]
fn without_a_pin_the_default_alias_applies_or_nothing() {
    let with_default = resolver(&["12.4.1"], &[("default", "12.4")]);
    let got = with_default.resolve_pinned(None).unwrap().unwrap();
    assert_eq!(got.via, ResolveVia::Default);
    assert_eq!(got.spec, "default");
    let bare = resolver(&["12.4.1"], &[]);
    assert_eq!(bare.resolve_pinned(None), Ok(None));
}

#[test]
fn a_pin_to_an_uninstalled_version_is_not_installed() {
    let r = resolver(&["12.4.1"], &[]);
    let pin = Pin {
        spec: "13.0".into(),
        file: "/p/.cuda-version".into(),
    };
    assert_eq!(
        r.resolve_pinned(Some(pin)),
        Err(CoreError::NotInstalled {
            spec: "13.0".into()
        })
    );
}

#[test]
fn ports_are_object_safe() {
    fn takes_registry(_: &dyn cuvm::ports::RegistryClient) {}
    fn takes_probe(_: &dyn cuvm::ports::DriverProbe) {}
    fn takes_engine(_: &dyn cuvm::ports::CompatEngine) {}
    let _r: fn(&dyn cuvm::ports::RegistryClient) = takes_registry;
    let _p: fn(&dyn cuvm::ports::DriverProbe) = takes_probe;
    let _e: fn(&dyn cuvm::ports::CompatEngine) = takes_engine;
    let engine = cuvm::compat_adapter::new_compat_engine();
    takes_engine(engine.as_ref());
}
