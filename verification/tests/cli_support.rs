use cuvm::commands::{resolve_os, OsArg, ShellArg};
use cuvm::composition::cache_dir;
use cuvm::domain::{Os, Shell};
use cuvm::reporter::dim_if;
use cuvm::self_update::{
    archive_ext, asset_name, latest_tag, plan_update, sha_for, strip_v, tag_from_field,
    UpdatePlan,
};
use cuvm::shims;

#[test]
fn sha_for_finds_the_matching_line_and_ignores_others() {
    let sums = b"aaaa  cuvm-1.0.0-linux-arm64.tar.gz\n\
                 bbbb  cuvm-1.0.0-linux-amd64.tar.gz\n\
                 cccc  SHA256SUMS.sig\n";
    assert_eq!(
        sha_for(sums, "cuvm-1.0.0-linux-amd64.tar.gz").unwrap(),
        "bbbb"
    );
}

#[test]
fn sha_for_tolerates_a_binary_mode_star_prefix() {
    let sums = b"dead  *cuvm-1.0.0-windows-amd64.zip\n";
    assert_eq!(
        sha_for(sums, "cuvm-1.0.0-windows-amd64.zip").unwrap(),
        "dead"
    );
}

#[test]
fn sha_for_errors_when_the_archive_is_absent() {
    let sums = b"aaaa  some-other-file\n";
    assert!(sha_for(sums, "cuvm-1.0.0-linux-amd64.tar.gz").is_err());
}

#[test]
fn sha_for_reports_what_went_wrong() {
    assert_eq!(
        sha_for(b"aaaa  some-other-file\r\n", "x.zip").unwrap_err(),
        "SHA256SUMS has no entry for x.zip"
    );
    assert_eq!(
        sha_for(&[0xff, 0xfe, b'\n'], "x.zip").unwrap_err(),
        "SHA256SUMS is not valid UTF-8"
    );
    assert_eq!(sha_for(b"beef x.zip\r\n", "x.zip").unwrap(), "beef");
}

#[test]
fn asset_names_cover_the_published_hosts() {
    assert_eq!(asset_name("linux", "x86_64").unwrap(), "linux-amd64");
    assert_eq!(asset_name("linux", "aarch64").unwrap(), "linux-arm64");
    assert_eq!(asset_name("windows", "x86_64").unwrap(), "windows-amd64");
    assert_eq!(
        asset_name("macos", "aarch64").unwrap_err(),
        "no prebuilt cuvm release for macos/aarch64 (have: linux-amd64, linux-arm64, windows-amd64)"
    );
    assert_eq!(archive_ext(true), "zip");
    assert_eq!(archive_ext(false), "tar.gz");
}

#[test]
fn release_tags_lose_their_leading_v() {
    assert_eq!(strip_v("v1.2.3"), "1.2.3");
    assert_eq!(strip_v("1.2.3"), "1.2.3");
    assert_eq!(
        tag_from_field(Some(Some("v0.9.0".to_string()))).unwrap(),
        "0.9.0"
    );
    assert_eq!(
        tag_from_field(Some(None)).unwrap_err(),
        "the GitHub release JSON has no `tag_name`"
    );
    assert_eq!(
        tag_from_field(None).unwrap_err(),
        "parsing the GitHub release JSON"
    );
}

#[test]
fn latest_tag_reads_the_release_document() {
    assert_eq!(
        latest_tag(br#"{"tag_name": "v1.4.0", "name": "cuvm 1.4.0"}"#).unwrap(),
        "1.4.0"
    );
    assert_eq!(
        latest_tag(br#"{"name": "cuvm"}"#).unwrap_err(),
        "the GitHub release JSON has no `tag_name`"
    );
    assert_eq!(
        latest_tag(br#"{"tag_name": 7}"#).unwrap_err(),
        "the GitHub release JSON has no `tag_name`"
    );
    assert_eq!(
        latest_tag(b"not json").unwrap_err(),
        "parsing the GitHub release JSON"
    );
}

fn report(plan: Result<UpdatePlan, String>) -> String {
    match plan.unwrap() {
        UpdatePlan::Report { message } => message,
        UpdatePlan::Fetch { .. } => panic!("expected a report"),
    }
}

#[test]
fn check_reports_without_fetching() {
    let base = "https://example.invalid/releases/download";
    assert_eq!(
        report(plan_update("1.0.0", "1.1.0", false, true, false, "linux-amd64", false, base)),
        "cuvm 1.0.0 \u{2192} 1.1.0 available (run `cuvm self update`)"
    );
    assert_eq!(
        report(plan_update("1.1.0", "1.0.0", true, true, false, "linux-amd64", false, base)),
        "cuvm 1.1.0 is already at or ahead of 1.0.0"
    );
    assert_eq!(
        report(plan_update("1.1.0", "1.1.0", false, true, false, "linux-amd64", false, base)),
        "cuvm 1.1.0 is up to date (latest 1.1.0)"
    );
}

#[test]
fn update_without_a_newer_target_needs_force() {
    let base = "https://example.invalid/releases/download";
    assert_eq!(
        report(plan_update("1.1.0", "1.0.0", true, false, false, "linux-amd64", false, base)),
        "cuvm 1.1.0 is already at or ahead of 1.0.0; pass --force to reinstall or downgrade"
    );
    assert_eq!(
        report(plan_update("1.1", "1.1.0", false, false, false, "linux-amd64", false, base)),
        "cuvm 1.1 is already up to date (latest 1.1.0)"
    );
    assert!(matches!(
        plan_update("1.1.0", "1.0.0", true, false, true, "linux-amd64", false, base),
        Ok(UpdatePlan::Fetch { .. })
    ));
}

#[test]
fn update_to_a_newer_release_names_its_files() {
    let plan = plan_update(
        "1.0.0",
        "1.2.0",
        false,
        false,
        false,
        "windows-amd64",
        true,
        "https://example.invalid/dl",
    )
    .unwrap();
    match plan {
        UpdatePlan::Fetch {
            target,
            stage,
            archive,
            sums_url,
            archive_url,
        } => {
            assert_eq!(target, "1.2.0");
            assert_eq!(stage, "cuvm-1.2.0-windows-amd64");
            assert_eq!(archive, "cuvm-1.2.0-windows-amd64.zip");
            assert_eq!(sums_url, "https://example.invalid/dl/v1.2.0/SHA256SUMS");
            assert_eq!(
                archive_url,
                "https://example.invalid/dl/v1.2.0/cuvm-1.2.0-windows-amd64.zip"
            );
        }
        UpdatePlan::Report { message } => panic!("expected a fetch, got {message}"),
    }
}

#[test]
fn unparseable_versions_are_reported() {
    assert_eq!(
        plan_update("dev", "1.0.0", false, true, false, "a", false, "b").err().unwrap(),
        "parsing the running cuvm version: invalid version string: \"dev\""
    );
    assert_eq!(
        plan_update("1.0.0", "1.x", true, true, false, "a", false, "b").err().unwrap(),
        "parsing target version `1.x`: invalid version string: \"1.x\""
    );
}

#[test]
fn cache_dir_is_under_home() {
    assert_eq!(cache_dir("/tmp/cuvmhome"), "/tmp/cuvmhome/cache");
    assert_eq!(cache_dir("/tmp/cuvmhome/"), "/tmp/cuvmhome/cache");
    assert_eq!(cache_dir(""), "cache");
}

#[test]
fn dim_is_plain_when_not_a_tty_and_wrapped_when_tty() {
    assert_eq!(
        dim_if("Installed CUDA 12.4.1 in 8.3s", false),
        "Installed CUDA 12.4.1 in 8.3s"
    );
    assert_eq!(dim_if("x", true), "\x1b[2mx\x1b[0m");
}

#[test]
fn bash_shim_defines_function_and_eval_protocol() {
    let s = shims::BASH_SHIM;
    assert!(s.contains("cuvm()"), "bash shim must define cuvm() function");
    assert!(s.contains("use|env|shell|default"));
    assert!(s.contains(r#"eval "$(command cuvm "$@" --shell bash)""#));
    assert!(s.contains(r#"command cuvm "$@""#));
    assert!(s.contains("__cuvm_autoload"));
}

#[test]
fn zsh_shim_uses_bash_emitter_and_defines_function() {
    let s = shims::ZSH_SHIM;
    assert!(s.contains("cuvm()"));
    assert!(s.contains(r#"eval "$(command cuvm "$@" --shell bash)""#));
    assert!(s.contains("__cuvm_autoload"));
}

#[test]
fn powershell_shim_evals_activation_verbs_and_passes_through() {
    let s = shims::windows_powershell();
    assert!(s.contains("Invoke-Expression"));
    assert!(s.contains("--shell powershell"));
    assert!(s.contains("'use','env','shell','default'"));
    assert!(s.contains("& cuvm.exe @args"));
}

#[test]
fn cmd_shim_uses_temp_bat_call_del() {
    let s = shims::windows_cmd();
    assert!(s.contains("--shell cmd --out"));
    assert!(s.to_lowercase().contains("call "));
    assert!(s.to_lowercase().contains("del "));
    assert!(s.contains("%TEMP%"));
}

#[test]
fn command_line_values_map_onto_the_domain() {
    assert_eq!(Shell::from(ShellArg::PowerShell), Shell::PowerShell);
    assert_eq!(Shell::from(ShellArg::Zsh), Shell::Zsh);
    assert_eq!(Os::from(OsArg::Windows), Os::Windows);
    assert_eq!(resolve_os(Some(OsArg::Linux), true), Os::Linux);
    assert_eq!(resolve_os(None, true), Os::Windows);
    assert_eq!(resolve_os(None, false), Os::Linux);
}
