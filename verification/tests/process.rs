use script_runner::sandbox::{
    child_env, command_args, extend_strings, module_profile, module_wrapper, place_profile,
    sandbox_descriptor, shell_main, EnvVar, SHELL_WRAPPER,
};

fn vars(pairs: &[(&str, &str)]) -> Vec<EnvVar> {
    pairs.iter().map(|(n, v)| EnvVar { name: n.to_string(), value: v.to_string() }).collect()
}

fn listed(v: &[EnvVar]) -> Vec<(String, String)> {
    v.iter().map(|e| (e.name.clone(), e.value.clone())).collect()
}

fn owned(pairs: &[(&str, &str)]) -> Vec<(String, String)> {
    pairs.iter().map(|(n, v)| (n.to_string(), v.to_string())).collect()
}

#[test]
fn descriptor_fills_every_placeholder() {
    let t = "cwd: \"{JOB_DIR}\"\nclone_newuser: {CLONE_NEWUSER}\nmount: \"{SHARED_MOUNT}\" \"{JOB_DIR}\"\ncache: {CACHE_DIR}";
    assert_eq!(
        sandbox_descriptor(t, "/tmp/job", true, "/shared", None),
        "cwd: \"/tmp/job\"\nclone_newuser: true\nmount: \"/shared\" \"/tmp/job\"\ncache: {CACHE_DIR}"
    );
    assert_eq!(
        sandbox_descriptor(t, "/tmp/job", false, "/shared", Some("/cache")),
        "cwd: \"/tmp/job\"\nclone_newuser: false\nmount: \"/shared\" \"/tmp/job\"\ncache: /cache"
    );
}

#[test]
fn command_line_by_mode() {
    let args = vec!["x".to_string(), "".to_string()];
    assert_eq!(
        command_args(true, &args),
        vec!["--config", "run.config.proto", "--", "/bin/bash", "wrapper.sh", "x", ""]
    );
    assert_eq!(command_args(false, &args), vec!["wrapper.sh", "x", ""]);
    assert_eq!(command_args(false, &Vec::new()), vec!["wrapper.sh"]);
}

#[test]
fn extend_strings_appends_in_order() {
    let mut v = vec!["a".to_string()];
    extend_strings(&mut v, &vec!["b".to_string(), "c".to_string()]);
    assert_eq!(v, vec!["a", "b", "c"]);
}

#[test]
fn sandboxed_environment_is_an_allow_list() {
    let own = vars(&[("SECRET", "s")]);
    let reserved = vars(&[("WM_TOKEN", "t")]);
    let env = child_env(true, &own, &reserved, None, "/bin", "http://svc", "/home/w");
    assert_eq!(
        listed(&env),
        owned(&[("WM_TOKEN", "t"), ("RUST_LOG", "info"), ("PATH", "/bin"), ("BASE_INTERNAL_URL", "http://svc")])
    );
}

#[test]
fn direct_environment_adds_own_variables_and_home() {
    let own = vars(&[("A", "1")]);
    let reserved = vars(&[("WM_TOKEN", "t")]);
    let env = child_env(false, &own, &reserved, Some("UTC"), "/bin", "http://svc", "/home/w");
    assert_eq!(
        listed(&env),
        owned(&[
            ("A", "1"),
            ("WM_TOKEN", "t"),
            ("RUST_LOG", "info"),
            ("TZ", "UTC"),
            ("PATH", "/bin"),
            ("BASE_INTERNAL_URL", "http://svc"),
            ("HOME", "/home/w"),
        ])
    );
}

#[test]
fn scripts_written_beside_the_job() {
    assert_eq!(shell_main("echo hi"), "set -e\necho hi");
    assert!(SHELL_WRAPPER.starts_with("set -o pipefail\nset -e\nmkfifo bp\n"));
    assert!(SHELL_WRAPPER.ends_with("| tee bp\nwait $!"));
    assert_eq!(
        module_wrapper("/usr/bin/pwsh"),
        "set -o pipefail\nset -e\nmkfifo bp\ncat bp | tail -1 > ./result2.out &\n/usr/bin/pwsh -F ./main.ps1 \"$@\" 2>&1 | tee bp\nwait $!"
    );
    let profile = module_profile("/cache");
    assert!(profile.starts_with("$PSModuleAutoloadingPreference = 'None'\n"));
    assert!(profile.ends_with("$env:PSModulePath = \"/cache:$PSModulePathBackup\""));
}

#[test]
fn profile_goes_after_the_parameter_block() {
    assert_eq!(
        place_profile("param($a)\nWrite-Host $a", Some("param($a)"), "PROFILE"),
        "param($a)\nPROFILE\n\nWrite-Host $a"
    );
    assert_eq!(place_profile("Write-Host 1", None, "PROFILE"), "PROFILE\nWrite-Host 1");
    assert_eq!(place_profile("Write-Host 1", Some(""), "PROFILE"), "\nPROFILE\nWrite-Host 1");
}
