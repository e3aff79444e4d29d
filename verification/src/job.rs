//! What has to be written and started for a job, worked out before any
//! file is touched.
use vstd::prelude::*;
use crate::args::{bound_text, flag_args, flag_of, positional_args, JobArg};
use crate::json::opt_text;
use crate::outcome::{extract_result, extracted};
use crate::sandbox::{
    child_env, command_args, command_line, descriptor_of, env_pairs, environment, module_profile,
    module_wrapper, opt_str, place_profile, sandbox_descriptor, shell_main, with_profile, EnvVar,
    MODULE_WRAPPER_HEAD, MODULE_WRAPPER_TAIL, PROFILE_HEAD, PROFILE_TAIL, SHELL_WRAPPER,
};
use crate::text::strings;

verus! {

/// The shell that runs every wrapper script.
pub const SHELL: &'static str = "/bin/bash";

/// What the worker is set up with.
pub struct Settings {
    /// Whether children run inside the sandbox.
    pub sandboxed: bool,
    /// Whether the sandbox gives the child a user namespace of its own.
    pub new_user: bool,
    /// Path of the sandbox binary.
    pub sandbox_path: String,
    /// Search path given to every child.
    pub search_path: String,
    /// Home directory given to a child that runs outside the sandbox.
    pub home: String,
    /// Time zone given to a child of the module-capable interpreter.
    pub time_zone: String,
    /// Directory of the shared module cache.
    pub cache_dir: String,
    /// Path of the module-capable interpreter.
    pub interpreter: String,
    /// Sandbox configuration template for shell scripts.
    pub shell_template: String,
    /// Sandbox configuration template for the module-capable interpreter.
    pub module_template: String,
}

/// What one job brings along.
pub struct Request {
    /// Working directory of the job.
    pub job_dir: String,
    /// Directory shared between the jobs of a flow.
    pub shared_mount: String,
    /// Address of the internal service.
    pub service: String,
    /// The worker's own variables, handed on only outside the sandbox.
    pub own: Vec<EnvVar>,
    /// The reserved variables of the job.
    pub reserved: Vec<EnvVar>,
    /// The parameters that the script declares, in order.
    pub params: Vec<String>,
    /// The arguments that the job gives.
    pub args: Vec<JobArg>,
}

/// How a child process is started.
pub struct Launch {
    /// The binary to run.
    pub program: String,
    /// Its arguments.
    pub args: Vec<String>,
    /// Its whole environment, later entries first in rank.
    pub env: Vec<EnvVar>,
    /// The sandbox configuration to write first, if the child is sandboxed.
    pub descriptor: Option<String>,
}

/// What a job writes and starts.
pub struct Plan {
    /// Text of the main script file.
    pub main: String,
    /// Text of the wrapper script.
    pub wrapper: String,
    /// The child to start.
    pub launch: Launch,
}

/// The values bound to the declared parameters, in order.
pub open spec fn positional(params: Seq<String>, args: Seq<JobArg>) -> Seq<Seq<char>> {
    Seq::new(params.len(), |i: int| bound_text(args, params[i]@))
}

/// For each declared parameter, in order, its flag and then its value.
pub open spec fn flagged(params: Seq<String>, args: Seq<JobArg>) -> Seq<Seq<char>> {
    Seq::new(
        2 * params.len(),
        |i: int|
            if i % 2 == 0 {
                flag_of(params[i / 2]@)
            } else {
                bound_text(args, params[i / 2]@)
            },
    )
}

/// Whether `l` starts the child that the settings and the request call for:
/// the sandbox binary with a configuration written from `template`, or the
/// shell with none.
pub open spec fn launch_fits(
    l: Launch,
    s: Settings,
    q: Request,
    args: Seq<Seq<char>>,
    template: Seq<char>,
    cache_dir: Option<Seq<char>>,
    time_zone: Option<Seq<char>>,
) -> bool {
    &&& l.program@ == if s.sandboxed {
        s.sandbox_path@
    } else {
        SHELL@
    }
    &&& strings(l.args@) == command_line(s.sandboxed, args)
    &&& env_pairs(l.env@) == environment(
        s.sandboxed,
        env_pairs(q.own@),
        env_pairs(q.reserved@),
        time_zone,
        s.search_path@,
        q.service@,
        s.home@,
    )
    &&& opt_text(l.descriptor) == if s.sandboxed {
        Some(descriptor_of(template, q.job_dir@, s.new_user, q.shared_mount@, cache_dir))
    } else {
        None
    }
}

/// Works out how the child of a job is started.
pub fn launch(
    settings: &Settings,
    request: &Request,
    args: &Vec<String>,
    template: &str,
    cache_dir: Option<&str>,
    time_zone: Option<&str>,
) -> (r: Launch)
    ensures
        launch_fits(r, *settings, *request, strings(args@), template@, opt_str(cache_dir), opt_str(time_zone)),
{
    let env = child_env(
        settings.sandboxed,
        &request.own,
        &request.reserved,
        time_zone,
        settings.search_path.as_str(),
        request.service.as_str(),
        settings.home.as_str(),
    );
    let cmd = command_args(settings.sandboxed, args);
    if settings.sandboxed {
        let descriptor = sandbox_descriptor(
            template,
            request.job_dir.as_str(),
            settings.new_user,
            request.shared_mount.as_str(),
            cache_dir,
        );
        Launch { program: settings.sandbox_path.clone(), args: cmd, env, descriptor: Some(descriptor) }
    } else {
        Launch { program: String::from_str(SHELL), args: cmd, env, descriptor: None }
    }
}

/// The interpreter that installs published modules. It runs outside the
/// sandbox, since it writes into the shared cache.
pub const INSTALLER: &'static str = "pwsh";

/// The contents of the three result artifacts after a run, each absent
/// where its file does not exist.
pub struct Artifacts {
    /// The structured result file.
    pub structured: Option<String>,
    /// The plain text result file.
    pub plain: Option<String>,
    /// The capture of the last line of output.
    pub last_line: Option<String>,
}

/// What has happened to a job so far.
pub enum JobEvent {
    /// Nothing yet.
    Start,
    /// The install command has ended well.
    Installed,
    /// The script has ended well and left these artifacts.
    Finished(Artifacts),
}

/// What is to be done next for a job.
pub enum JobStep {
    /// Run the installer once, outside the sandbox, with these arguments,
    /// and wait for its end.
    Install(Vec<String>),
    /// Write the files of the plan and run its child.
    Run(Plan),
    /// Report this JSON text as the result of the job.
    Done(String),
}

/// Whether `r` is the plan of a shell job: the script is made to stop at
/// its first error, its parameters are bound by position, and no time zone
/// is set.
pub open spec fn is_shell_plan(r: Plan, s: Settings, q: Request, content: Seq<char>) -> bool {
    &&& r.main@ == "set -e\n"@ + content
    &&& r.wrapper@ == SHELL_WRAPPER@
    &&& launch_fits(r.launch, s, q, positional(q.params@, q.args@), s.shell_template@, None, None)
}

/// Whether `r` is the plan of a job of the module-capable interpreter: the
/// profile stands after the parameter block, the parameters are bound by
/// flag, and the cache directory and the time zone are handed on.
pub open spec fn is_module_plan(r: Plan, s: Settings, q: Request, code: Seq<char>, block: Option<Seq<char>>) -> bool {
    &&& r.main@ == with_profile(code, block, PROFILE_HEAD@ + s.cache_dir@ + PROFILE_TAIL@)
    &&& r.wrapper@ == MODULE_WRAPPER_HEAD@ + s.interpreter@ + MODULE_WRAPPER_TAIL@
    &&& launch_fits(
        r.launch,
        s,
        q,
        flagged(q.params@, q.args@),
        s.module_template@,
        Some(s.cache_dir@),
        Some(s.time_zone@),
    )
}

/// The JSON text reported for a run that left these artifacts: a filled
/// structured file as it is, else a filled text file as a JSON string, else
/// the last-line capture, trimmed, as a JSON string, else the fixed text
/// that says nothing was found.
pub open spec fn result_of(a: Artifacts) -> Seq<char> {
    extracted(opt_text(a.structured), opt_text(a.plain), opt_text(a.last_line))
}

/// Plans a shell job: the script is made to stop at its first error, its
/// parameters are bound by position, and no time zone is set.
pub fn shell_plan(settings: &Settings, request: &Request, content: &str) -> (r: Plan)
    ensures
        is_shell_plan(r, *settings, *request, content@),
{
    let args = positional_args(&request.params, &request.args);
    assert(strings(args@) =~= positional(request.params@, request.args@));
    let launch = launch(settings, request, &args, settings.shell_template.as_str(), None, None);
    Plan { main: shell_main(content), wrapper: String::from_str(SHELL_WRAPPER), launch }
}

/// Plans a job of the module-capable interpreter from its script with the
/// imports already resolved: the profile goes in after the parameter
/// block, the parameters are bound by flag, and the cache directory and the
/// time zone are handed on.
pub fn module_plan(settings: &Settings, request: &Request, code: &str, param_block: Option<&str>) -> (r: Plan)
    ensures
        is_module_plan(r, *settings, *request, code@, opt_str(param_block)),
{
    let args = flag_args(&request.params, &request.args);
    proof {
        let want = flagged(request.params@, request.args@);
        assert forall|i: int| 0 <= i < want.len() implies strings(args@)[i] == want[i] by {
            let k = i / 2;
            assert(0 <= k < request.params@.len());
            if i % 2 == 0 {
                assert(i == 2 * k);
            } else {
                assert(i == 2 * k + 1);
            }
            assert(request.params@[k]@ == request.params[k]@);
        }
        assert(strings(args@) =~= want);
    }
    let launch = launch(
        settings,
        request,
        &args,
        settings.module_template.as_str(),
        Some(settings.cache_dir.as_str()),
        Some(settings.time_zone.as_str()),
    );
    let profile = module_profile(settings.cache_dir.as_str());
    Plan {
        main: place_profile(code, param_block, profile.as_str()),
        wrapper: module_wrapper(settings.interpreter.as_str()),
        launch,
    }
}

/// Says what to do next for a shell job: at first, and whatever came
/// before the run, the script is run as planned; once it has finished its
/// result is reported, and a missing result is no failure.
pub fn handle_bash_job(settings: &Settings, request: &Request, content: &str, event: JobEvent) -> (r: JobStep)
    ensures
        match event {
            JobEvent::Finished(a) => r matches JobStep::Done(t) && t@ == result_of(a),
            _ => r matches JobStep::Run(plan) && is_shell_plan(plan, *settings, *request, content@),
        },
{
    match event {
        JobEvent::Finished(a) => JobStep::Done(extract_result(a.structured, a.plain, a.last_line)),
        _ => JobStep::Run(shell_plan(settings, request, content)),
    }
}

/// Says what to do next for a job of the module-capable interpreter, from
/// its script with the imports resolved and from the install command that
/// the resolution gave. At first the installer is run, once, where there is
/// anything to install; the script is run after that, or at once where
/// there is nothing to install; once it has finished its result is
/// reported, and a missing result is no failure.
pub fn handle_powershell_job(
    settings: &Settings,
    request: &Request,
    code: &str,
    param_block: Option<&str>,
    install: Option<Vec<String>>,
    event: JobEvent,
) -> (r: JobStep)
    ensures
        match event {
            JobEvent::Start => match install {
                Some(v) => r matches JobStep::Install(w) && w@ == v@,
                None => r matches JobStep::Run(plan) && is_module_plan(
                    plan,
                    *settings,
                    *request,
                    code@,
                    opt_str(param_block),
                ),
            },
            JobEvent::Installed => r matches JobStep::Run(plan) && is_module_plan(
                plan,
                *settings,
                *request,
                code@,
                opt_str(param_block),
            ),
            JobEvent::Finished(a) => r matches JobStep::Done(t) && t@ == result_of(a),
        },
{
    match event {
        JobEvent::Start => match install {
            Some(v) => JobStep::Install(v),
            None => JobStep::Run(module_plan(settings, request, code, param_block)),
        },
        JobEvent::Installed => JobStep::Run(module_plan(settings, request, code, param_block)),
        JobEvent::Finished(a) => JobStep::Done(extract_result(a.structured, a.plain, a.last_line)),
    }
}

} // verus!
