use cuvm::domain::Os;
use cuvm::env_plan::EnvPlan;
use cuvm::process_env::{process_env, EnvVar};

fn plan(root: &str) -> EnvPlan {
    EnvPlan {
        cuda_home: root.to_string(),
        cuda_path: root.to_string(),
        toolkit_root: root.to_string(),
        prepend_path: vec![format!("{root}/bin")],
        prepend_lib: vec![format!("{root}/lib64")],
        current: "12.4.1".to_string(),
        injected: vec![format!("{root}/bin"), format!("{root}/lib64")],
    }
}

fn env_of(pairs: &[(&str, &str)]) -> impl Fn(&str) -> Option<String> {
    let owned: Vec<(String, String)> = pairs
        .iter()
        .map(|(k, v)| ((*k).to_string(), (*v).to_string()))
        .collect();
    move |k: &str| {
        owned
            .iter()
            .find(|(key, _)| key == k)
            .map(|(_, v)| v.clone())
    }
}

fn value<'a>(vars: &'a [EnvVar], key: &str) -> Option<&'a str> {
    vars.iter().find(|v| v.key == key).map(|v| v.value.as_str())
}

#[test]
fn fresh_env_prepends_and_sets_all_roots() {
    let p = plan("/home/u/.cuvm/versions/12.4.1");
    let vars = process_env(&p, Os::Linux, env_of(&[("PATH", "/usr/bin:/bin")]));
    assert_eq!(
        value(&vars, "CUDA_HOME"),
        Some("/home/u/.cuvm/versions/12.4.1")
    );
    assert_eq!(
        value(&vars, "CUDA_PATH"),
        Some("/home/u/.cuvm/versions/12.4.1")
    );
    assert_eq!(
        value(&vars, "CUDAToolkit_ROOT"),
        Some("/home/u/.cuvm/versions/12.4.1")
    );
    assert_eq!(
        value(&vars, "PATH"),
        Some("/home/u/.cuvm/versions/12.4.1/bin:/usr/bin:/bin")
    );
    assert_eq!(
        value(&vars, "LD_LIBRARY_PATH"),
        Some("/home/u/.cuvm/versions/12.4.1/lib64")
    );
    assert_eq!(value(&vars, "CUVM_CURRENT"), Some("12.4.1"));
    assert_eq!(
        value(&vars, "CUVM_INJECTED"),
        Some("/home/u/.cuvm/versions/12.4.1/bin:/home/u/.cuvm/versions/12.4.1/lib64")
    );
}

#[test]
fn reactivation_strips_prior_breadcrumb_no_double_prepend() {
    let p = plan("/new");
    let vars = process_env(
        &p,
        Os::Linux,
        env_of(&[
            ("PATH", "/old/bin:/usr/bin"),
            ("LD_LIBRARY_PATH", "/old/lib64:/lib"),
            ("CUVM_INJECTED", "/old/bin:/old/lib64"),
        ]),
    );
    assert_eq!(value(&vars, "PATH"), Some("/new/bin:/usr/bin"));
    assert_eq!(value(&vars, "LD_LIBRARY_PATH"), Some("/new/lib64:/lib"));
    let again = process_env(
        &p,
        Os::Linux,
        env_of(&[
            ("PATH", "/new/bin:/usr/bin"),
            ("LD_LIBRARY_PATH", "/new/lib64:/lib"),
            ("CUVM_INJECTED", "/new/bin:/new/lib64"),
        ]),
    );
    assert_eq!(value(&again, "PATH"), Some("/new/bin:/usr/bin"));
}

#[test]
fn wsl_driver_libs_are_preserved() {
    let p = plan("/new");
    let vars = process_env(
        &p,
        Os::Linux,
        env_of(&[
            ("LD_LIBRARY_PATH", "/usr/lib/wsl/lib:/old/lib64"),
            ("CUVM_INJECTED", "/old/bin:/old/lib64"),
        ]),
    );
    assert_eq!(
        value(&vars, "LD_LIBRARY_PATH"),
        Some("/new/lib64:/usr/lib/wsl/lib")
    );
}

#[test]
fn empty_path_segments_are_dropped() {
    let p = plan("/new");
    let vars = process_env(&p, Os::Linux, env_of(&[("PATH", "/usr/bin:")]));
    assert_eq!(value(&vars, "PATH"), Some("/new/bin:/usr/bin"));
}

#[test]
fn windows_uses_semicolons_no_ld_path_and_bin_only_breadcrumb() {
    let p = plan("C:\\Users\\u\\.cuvm\\versions\\12.4.1");
    let vars = process_env(
        &p,
        Os::Windows,
        env_of(&[("PATH", "C:\\Windows;C:\\Windows\\System32")]),
    );
    assert_eq!(
        value(&vars, "CUDA_HOME"),
        Some("C:\\Users\\u\\.cuvm\\versions\\12.4.1")
    );
    assert_eq!(
        value(&vars, "PATH"),
        Some("C:\\Users\\u\\.cuvm\\versions\\12.4.1\\bin;C:\\Windows;C:\\Windows\\System32")
    );
    assert_eq!(value(&vars, "LD_LIBRARY_PATH"), None);
    assert_eq!(
        value(&vars, "CUVM_INJECTED"),
        Some("C:\\Users\\u\\.cuvm\\versions\\12.4.1\\bin")
    );
}

#[test]
fn windows_breadcrumb_strips_a_prior_backslash_injection() {
    let p = plan("C:\\new");
    let vars = process_env(
        &p,
        Os::Windows,
        env_of(&[
            ("PATH", "C:\\new\\bin;C:\\Windows"),
            ("CUVM_INJECTED", "C:\\new\\bin"),
        ]),
    );
    assert_eq!(value(&vars, "PATH"), Some("C:\\new\\bin;C:\\Windows"));
}

#[test]
fn windows_breadcrumb_strip_is_case_insensitive() {
    let p = plan("C:\\new");
    let vars = process_env(
        &p,
        Os::Windows,
        env_of(&[
            ("PATH", "c:\\OLD\\BIN;C:\\Windows"),
            ("CUVM_INJECTED", "C:\\old\\bin"),
        ]),
    );
    assert_eq!(value(&vars, "PATH"), Some("C:\\new\\bin;C:\\Windows"));
}

#[test]
fn unix_breadcrumb_strip_stays_case_sensitive() {
    let p = plan("/new");
    let vars = process_env(
        &p,
        Os::Linux,
        env_of(&[("PATH", "/OLD/BIN:/usr/bin"), ("CUVM_INJECTED", "/old/bin")]),
    );
    assert_eq!(value(&vars, "PATH"), Some("/new/bin:/OLD/BIN:/usr/bin"));
}

#[test]
fn missing_path_var_yields_just_the_prepend() {
    let p = plan("/new");
    let vars = process_env(&p, Os::Linux, |_| None);
    assert_eq!(value(&vars, "PATH"), Some("/new/bin"));
    assert_eq!(value(&vars, "LD_LIBRARY_PATH"), Some("/new/lib64"));
}

#[test]
fn variables_come_in_the_activator_order() {
    let p = plan("/r");
    let keys: Vec<String> = process_env(&p, Os::Linux, |_| None)
        .into_iter()
        .map(|v| v.key)
        .collect();
    assert_eq!(
        keys,
        vec![
            "CUDA_HOME",
            "CUDA_PATH",
            "CUDAToolkit_ROOT",
            "PATH",
            "LD_LIBRARY_PATH",
            "CUVM_CURRENT",
            "CUVM_INJECTED"
        ]
    );
}

#[test]
fn switching_plans_twice_leaves_only_the_latest_segments() {
    let first = process_env(
        &plan("/a"),
        Os::Linux,
        env_of(&[("PATH", "/usr/bin:/bin"), ("LD_LIBRARY_PATH", "")]),
    );
    let second = process_env(
        &plan("/b"),
        Os::Linux,
        env_of(&[
            ("PATH", value(&first, "PATH").unwrap()),
            ("LD_LIBRARY_PATH", value(&first, "LD_LIBRARY_PATH").unwrap()),
            ("CUVM_INJECTED", value(&first, "CUVM_INJECTED").unwrap()),
        ]),
    );
    assert_eq!(value(&second, "PATH"), Some("/b/bin:/usr/bin:/bin"));
    assert_eq!(value(&second, "LD_LIBRARY_PATH"), Some("/b/lib64"));
    let third = process_env(
        &plan("/b"),
        Os::Linux,
        env_of(&[
            ("PATH", value(&second, "PATH").unwrap()),
            ("LD_LIBRARY_PATH", value(&second, "LD_LIBRARY_PATH").unwrap()),
            ("CUVM_INJECTED", value(&second, "CUVM_INJECTED").unwrap()),
        ]),
    );
    assert_eq!(third, second);
    for var in &third {
        if var.key == "PATH" || var.key == "LD_LIBRARY_PATH" {
            assert!(var.value.split(':').all(|seg| !seg.is_empty()));
        }
    }
}

#[test]
fn a_prepend_entry_holding_the_separator_leaves_no_empty_segment() {
    let mut p = plan("/a");
    p.prepend_path = vec!["/a:".to_string()];
    p.prepend_lib = vec![];
    let vars = process_env(&p, Os::Linux, env_of(&[("PATH", "/usr/bin")]));
    assert_eq!(value(&vars, "PATH"), Some("/a:/usr/bin"));
    // Re-activating over that environment changes nothing.
    let injected = value(&vars, "CUVM_INJECTED").unwrap().to_string();
    let path = value(&vars, "PATH").unwrap().to_string();
    let again = process_env(
        &p,
        Os::Linux,
        env_of(&[("CUVM_INJECTED", injected.as_str()), ("PATH", path.as_str())]),
    );
    assert_eq!(value(&again, "PATH"), Some("/a:/usr/bin"));
}

#[test]
fn a_prepend_entry_holding_two_segments_prepends_both() {
    let mut p = plan("/a");
    p.prepend_path = vec!["/a/bin::/a/extra".to_string(), String::new()];
    let vars = process_env(&p, Os::Linux, env_of(&[("PATH", "/usr/bin")]));
    assert_eq!(value(&vars, "PATH"), Some("/a/bin:/a/extra:/usr/bin"));
}
