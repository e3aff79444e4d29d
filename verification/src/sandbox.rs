//! What a child process is started with: the sandbox configuration, the
//! command line, the environment and the scripts written beside the job.
use vstd::prelude::*;
use crate::text::{replace_text, replaced, strings};

verus! {

/// The log level given to every child.
pub const LOG_LEVEL: &'static str = "info";

/// The wrapper that runs a shell script and captures its last line of output.
pub const SHELL_WRAPPER: &'static str =
    "set -o pipefail\nset -e\nmkfifo bp\ncat bp | tail -1 > ./result2.out &\n /bin/bash ./main.sh \"$@\" 2>&1 | tee bp\nwait $!";

/// The wrapper around a module-capable interpreter, up to its path.
pub const MODULE_WRAPPER_HEAD: &'static str =
    "set -o pipefail\nset -e\nmkfifo bp\ncat bp | tail -1 > ./result2.out &\n";

/// The wrapper around a module-capable interpreter, after its path.
pub const MODULE_WRAPPER_TAIL: &'static str = " -F ./main.ps1 \"$@\" 2>&1 | tee bp\nwait $!";

/// The start of the profile that restricts module loading, up to the cache
/// directory.
pub const PROFILE_HEAD: &'static str =
    "$PSModuleAutoloadingPreference = 'None'\n$PSModulePathBackup = $env:PSModulePath\n$env:PSModulePath = ($Env:PSModulePath -split ':')[-1]\nGet-Module -ListAvailable | Import-Module\n$env:PSModulePath = \"";

/// The end of the profile, after the cache directory.
pub const PROFILE_TAIL: &'static str = ":$PSModulePathBackup\"";

/// The view of an optional text.
pub open spec fn opt_str(o: Option<&str>) -> Option<Seq<char>> {
    match o {
        Some(s) => Some(s@),
        None => None,
    }
}

/// The text that stands for a truth value in a configuration.
pub open spec fn bool_text(b: bool) -> Seq<char> {
    if b {
        "true"@
    } else {
        "false"@
    }
}

/// A configuration template with the job directory, the user namespace
/// switch and the shared mount filled in, in this order.
pub open spec fn filled_template(
    template: Seq<char>,
    job_dir: Seq<char>,
    new_user: bool,
    shared_mount: Seq<char>,
) -> Seq<char> {
    replaced(
        replaced(replaced(template, "{JOB_DIR}"@, job_dir), "{CLONE_NEWUSER}"@, bool_text(new_user)),
        "{SHARED_MOUNT}"@,
        shared_mount,
    )
}

/// The configuration of a sandbox: the filled template, with the cache
/// directory filled in last where the language has one.
pub open spec fn descriptor_of(
    template: Seq<char>,
    job_dir: Seq<char>,
    new_user: bool,
    shared_mount: Seq<char>,
    cache_dir: Option<Seq<char>>,
) -> Seq<char> {
    let filled = filled_template(template, job_dir, new_user, shared_mount);
    match cache_dir {
        Some(dir) => replaced(filled, "{CACHE_DIR}"@, dir),
        None => filled,
    }
}

/// Fills the placeholders of a sandbox configuration template.
pub fn sandbox_descriptor(
    template: &str,
    job_dir: &str,
    new_user: bool,
    shared_mount: &str,
    cache_dir: Option<&str>,
) -> (r: String)
    ensures
        r@ == descriptor_of(
            template@,
            job_dir@,
            new_user,
            shared_mount@,
            opt_str(cache_dir),
        ),
{
    let a = replace_text(template, "{JOB_DIR}", job_dir);
    let flag = if new_user {
        "true"
    } else {
        "false"
    };
    let b = replace_text(a.as_str(), "{CLONE_NEWUSER}", flag);
    let c = replace_text(b.as_str(), "{SHARED_MOUNT}", shared_mount);
    match cache_dir {
        Some(dir) => replace_text(c.as_str(), "{CACHE_DIR}", dir),
        None => c,
    }
}

/// Appends copies of the strings of `src` to `dst`.
pub fn extend_strings(dst: &mut Vec<String>, src: &Vec<String>)
    ensures
        strings(final(dst)@) == strings(old(dst)@) + strings(src@),
{
    let mut i: usize = 0;
    assert(strings(dst@) =~= strings(old(dst)@) + strings(src@).take(0));
    while i < src.len()
        invariant
            i <= src.len(),
            strings(dst@) == strings(old(dst)@) + strings(src@).take(i as int),
        decreases src.len() - i,
    {
        let ghost before = strings(dst@);
        dst.push(src[i].clone());
        assert(strings(dst@) =~= before.push(src@[i as int]@));
        i = i + 1;
        assert(strings(dst@) =~= strings(old(dst)@) + strings(src@).take(i as int));
    }
    assert(strings(src@).take(src.len() as int) =~= strings(src@));
}

/// What the sandbox binary is called with, before the script's arguments.
pub open spec fn sandbox_prefix() -> Seq<Seq<char>> {
    seq!["--config"@, "run.config.proto"@, "--"@, "/bin/bash"@, "wrapper.sh"@]
}

/// What the shell is called with, before the script's arguments.
pub open spec fn direct_prefix() -> Seq<Seq<char>> {
    seq!["wrapper.sh"@]
}

/// The command line of a child: the prefix of the chosen mode, then the
/// script's arguments.
pub open spec fn command_line(sandboxed: bool, args: Seq<Seq<char>>) -> Seq<Seq<char>> {
    if sandboxed {
        sandbox_prefix() + args
    } else {
        direct_prefix() + args
    }
}

/// Builds the arguments of the child process.
pub fn command_args(sandboxed: bool, args: &Vec<String>) -> (r: Vec<String>)
    ensures
        strings(r@) == command_line(sandboxed, strings(args@)),
{
    let mut r: Vec<String> = Vec::new();
    if sandboxed {
        r.push(String::from_str("--config"));
        r.push(String::from_str("run.config.proto"));
        r.push(String::from_str("--"));
        r.push(String::from_str("/bin/bash"));
        r.push(String::from_str("wrapper.sh"));
        assert(strings(r@) =~= sandbox_prefix());
    } else {
        r.push(String::from_str("wrapper.sh"));
        assert(strings(r@) =~= direct_prefix());
    }
    extend_strings(&mut r, args);
    r
}

/// One variable of a child's environment.
pub struct EnvVar {
    pub name: String,
    pub value: String,
}

/// The names and values of a list of variables.
pub open spec fn env_pairs(v: Seq<EnvVar>) -> Seq<(Seq<char>, Seq<char>)> {
    Seq::new(v.len(), |i: int| (v[i].name@, v[i].value@))
}

/// At most one variable, named `name`.
pub open spec fn optional_var(name: Seq<char>, value: Option<Seq<char>>) -> Seq<(Seq<char>, Seq<char>)> {
    match value {
        Some(v) => seq![(name, v)],
        None => Seq::empty(),
    }
}

/// The environment of a child, as an ordered list in which a later entry
/// overrides an earlier one of the same name. Nothing is inherited: a
/// sandboxed child gets the reserved variables, the log level, the time
/// zone where one is given, the search path and the service address; a
/// direct child gets the worker's own variables before these and its home
/// directory after them.
pub open spec fn environment(
    sandboxed: bool,
    own: Seq<(Seq<char>, Seq<char>)>,
    reserved: Seq<(Seq<char>, Seq<char>)>,
    time_zone: Option<Seq<char>>,
    search_path: Seq<char>,
    service: Seq<char>,
    home: Seq<char>,
) -> Seq<(Seq<char>, Seq<char>)> {
    let fixed = reserved + seq![("RUST_LOG"@, LOG_LEVEL@)] + optional_var("TZ"@, time_zone) + seq![
        ("PATH"@, search_path),
        ("BASE_INTERNAL_URL"@, service),
    ];
    if sandboxed {
        fixed
    } else {
        own + fixed + seq![("HOME"@, home)]
    }
}

/// Appends copies of the variables of `src` to `dst`.
pub fn extend_env(dst: &mut Vec<EnvVar>, src: &Vec<EnvVar>)
    ensures
        env_pairs(final(dst)@) == env_pairs(old(dst)@) + env_pairs(src@),
{
    let mut i: usize = 0;
    assert(env_pairs(dst@) =~= env_pairs(old(dst)@) + env_pairs(src@).take(0));
    while i < src.len()
        invariant
            i <= src.len(),
            env_pairs(dst@) == env_pairs(old(dst)@) + env_pairs(src@).take(i as int),
        decreases src.len() - i,
    {
        let ghost before = env_pairs(dst@);
        dst.push(EnvVar { name: src[i].name.clone(), value: src[i].value.clone() });
        assert(env_pairs(dst@) =~= before.push((src@[i as int].name@, src@[i as int].value@)));
        i = i + 1;
        assert(env_pairs(dst@) =~= env_pairs(old(dst)@) + env_pairs(src@).take(i as int));
    }
    assert(env_pairs(src@).take(src.len() as int) =~= env_pairs(src@));
}

/// Appends one variable to `dst`.
pub fn push_var(dst: &mut Vec<EnvVar>, name: &str, value: &str)
    ensures
        env_pairs(final(dst)@) == env_pairs(old(dst)@).push((name@, value@)),
{
    dst.push(EnvVar { name: String::from_str(name), value: String::from_str(value) });
    assert(env_pairs(dst@) =~= env_pairs(old(dst)@).push((name@, value@)));
}

/// Builds the environment of a child process.
pub fn child_env(
    sandboxed: bool,
    own: &Vec<EnvVar>,
    reserved: &Vec<EnvVar>,
    time_zone: Option<&str>,
    search_path: &str,
    service: &str,
    home: &str,
) -> (r: Vec<EnvVar>)
    ensures
        env_pairs(r@) == environment(
            sandboxed,
            env_pairs(own@),
            env_pairs(reserved@),
            opt_str(time_zone),
            search_path@,
            service@,
            home@,
        ),
{
    let mut r: Vec<EnvVar> = Vec::new();
    assert(env_pairs(r@) =~= Seq::<(Seq<char>, Seq<char>)>::empty());
    if !sandboxed {
        extend_env(&mut r, own);
    }
    let ghost head = env_pairs(r@);
    extend_env(&mut r, reserved);
    push_var(&mut r, "RUST_LOG", LOG_LEVEL);
    match time_zone {
        Some(z) => {
            push_var(&mut r, "TZ", z);
        },
        None => {},
    }
    push_var(&mut r, "PATH", search_path);
    push_var(&mut r, "BASE_INTERNAL_URL", service);
    let ghost fixed = env_pairs(reserved@) + seq![("RUST_LOG"@, LOG_LEVEL@)] + optional_var(
        "TZ"@,
        opt_str(time_zone),
    ) + seq![("PATH"@, search_path@), ("BASE_INTERNAL_URL"@, service@)];
    assert(env_pairs(r@) =~= head + fixed);
    if !sandboxed {
        push_var(&mut r, "HOME", home);
        assert(env_pairs(r@) =~= head + fixed + seq![("HOME"@, home@)]);
    } else {
        assert(head + fixed =~= fixed);
    }
    r
}

/// The main file of a shell job: the script made to stop at its first error.
pub fn shell_main(content: &str) -> (r: String)
    ensures
        r@ == "set -e\n"@ + content@,
{
    let mut r = String::from_str("set -e\n");
    r.append(content);
    r
}

/// The wrapper script for a module-capable interpreter found at `interpreter`.
pub fn module_wrapper(interpreter: &str) -> (r: String)
    ensures
        r@ == MODULE_WRAPPER_HEAD@ + interpreter@ + MODULE_WRAPPER_TAIL@,
{
    let mut r = String::from_str(MODULE_WRAPPER_HEAD);
    r.append(interpreter);
    r.append(MODULE_WRAPPER_TAIL);
    r
}

/// The profile that makes the interpreter load modules from `cache_dir`.
pub fn module_profile(cache_dir: &str) -> (r: String)
    ensures
        r@ == PROFILE_HEAD@ + cache_dir@ + PROFILE_TAIL@,
{
    let mut r = String::from_str(PROFILE_HEAD);
    r.append(cache_dir);
    r.append(PROFILE_TAIL);
    r
}

/// The main file of a job with a profile: the parameter block, where the
/// script has one, stays first and is taken out of the rest.
pub open spec fn with_profile(code: Seq<char>, params: Option<Seq<char>>, profile: Seq<char>) -> Seq<char> {
    match params {
        Some(p) => p + "\n"@ + profile + "\n"@ + replaced(code, p, ""@),
        None => profile + "\n"@ + code,
    }
}

/// Puts the profile in front of a script, after its parameter block.
pub fn place_profile(code: &str, params: Option<&str>, profile: &str) -> (r: String)
    ensures
        r@ == with_profile(
            code@,
            opt_str(params),
            profile@,
        ),
{
    match params {
        Some(p) => {
            let mut r = String::from_str(p);
            r.append("\n");
            r.append(profile);
            r.append("\n");
            let rest = replace_text(code, p, "");
            r.append(rest.as_str());
            r
        },
        None => {
            let mut r = String::from_str(profile);
            r.append("\n");
            r.append(code);
            r
        },
    }
}

} // verus!
