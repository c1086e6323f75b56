//! One invocation of the command line: the checks made before the sandboxed
//! command starts, and what is then printed or executed.
use vstd::prelude::*;
use vstd::slice::slice_to_vec;
use vstd::string::*;
use vstd::utf8::*;

use crate::allow_paths::{project_dir_redundancy_warnings, redundancy_warnings, AllowAccess};
use crate::cli::{Cli, Command, RunArgs};
use crate::config::{
    byte_views, env_views, invocation, invocation_result, load_invocation_config, opt_view,
    InvocationConfig, InvocationView,
};
use crate::error::{ErrorOf, ErrorView, ResolveContext, SeatbeltError};
use crate::paths::{fail, CanonicalPathBuf, FsSnapshot, Halt, HaltOf, HaltView};
use crate::profile::{ProfileView, SandboxProfile};
use crate::sandbox_exec::{
    build_final_command, lemma_sandbox_command_shape, profile_args, sandbox_command,
    sandbox_prefix, EnvVars, SandboxContext,
};
use crate::shell_quote::{arg_views, lemma_shell_line_reads_back, read_line, shell_line, shell_words};
use crate::text::{char_bytes, chars_of, string_from_chars, utf8_str};
use crate::unix_path::{
    bytes_eq, parent, parent_of, path_eq, path_starts_with, same_path, starts_with_path,
};

verus! {

broadcast use vstd::string::group_string_axioms;

/// The directory under which TMPDIR must resolve.
pub open spec fn tmpdir_prefix() -> Seq<u8> {
    char_bytes("/private/var/folders"@)
}

/// What `git -C <dir> rev-parse --show-toplevel` gave: whether it exited
/// successfully, and what it printed on standard output.
#[derive(Debug)]
pub struct GitOutput {
    pub success: bool,
    pub stdout: Vec<u8>,
}

/// The Git answer for one directory; `output` is `None` when `git` could
/// not be run at all.
#[derive(Debug)]
pub struct GitAnswer {
    pub dir: Vec<u8>,
    pub output: Option<GitOutput>,
}

/// What an invocation reads from its process: the environment, the current
/// directory (`None` when it could not be read), and the Git answers given
/// so far.
#[derive(Debug)]
pub struct RunEnv {
    pub vars: EnvVars,
    pub current_dir: Option<Vec<u8>>,
    pub git: Vec<GitAnswer>,
}

/// The first Git answer recorded for `dir`.
pub open spec fn find_git(answers: Seq<GitAnswer>, dir: Seq<u8>) -> Option<GitAnswer>
    decreases answers.len(),
{
    if answers.len() == 0 {
        None
    } else if answers[0].dir@ == dir {
        Some(answers[0])
    } else {
        find_git(answers.drop_first(), dir)
    }
}

impl RunEnv {
    pub open spec fn git_answer(self, dir: Seq<u8>) -> Option<GitAnswer> {
        find_git(self.git@, dir)
    }

    /// Records what `git` answered for one more directory.
    pub fn record_git(&mut self, answer: GitAnswer)
        ensures
            final(self).git@ == old(self).git@.push(answer),
            final(self).vars == old(self).vars,
            final(self).current_dir == old(self).current_dir,
    {
        self.git.push(answer);
    }

    /// The first Git answer recorded for `dir`.
    pub fn lookup_git(&self, dir: &[u8]) -> (r: Option<&GitAnswer>)
        ensures
            match r {
                Some(a) => self.git_answer(dir@) == Some(*a),
                None => self.git_answer(dir@) is None,
            },
    {
        let mut i: usize = 0;
        assert(self.git@.skip(0) == self.git@);
        while i < self.git.len()
            invariant
                i <= self.git@.len(),
                find_git(self.git@.skip(i as int), dir@) == self.git_answer(dir@),
            decreases self.git.len() - i,
        {
            assert(self.git@.skip(i as int).drop_first() == self.git@.skip(i + 1));
            if bytes_eq(self.git[i].dir.as_slice(), dir) {
                return Some(&self.git[i]);
            }
            i = i + 1;
        }
        None
    }
}

/// Unicode white space, as `char::is_whitespace` classifies it.
pub open spec fn is_white_space(c: char) -> bool {
    let v = c as u32;
    ||| 0x9 <= v <= 0xd
    ||| v == 0x20
    ||| v == 0x85
    ||| v == 0xa0
    ||| v == 0x1680
    ||| 0x2000 <= v <= 0x200a
    ||| v == 0x2028
    ||| v == 0x2029
    ||| v == 0x202f
    ||| v == 0x205f
    ||| v == 0x3000
}

/// `s` without its leading white space.
pub open spec fn trim_start_ws(s: Seq<char>) -> Seq<char>
    decreases s.len(),
{
    if s.len() > 0 && is_white_space(s[0]) {
        trim_start_ws(s.drop_first())
    } else {
        s
    }
}

/// `s` without its trailing white space.
pub open spec fn trim_end_ws(s: Seq<char>) -> Seq<char>
    decreases s.len(),
{
    if s.len() > 0 && is_white_space(s.last()) {
        trim_end_ws(s.drop_last())
    } else {
        s
    }
}

/// `s` without white space at either end, as `str::trim` leaves it.
pub open spec fn trim_ws(s: Seq<char>) -> Seq<char> {
    trim_end_ws(trim_start_ws(s))
}

/// Whether `c` is Unicode white space.
pub fn is_whitespace_char(c: char) -> (b: bool)
    ensures
        b == is_white_space(c),
{
    let v = c as u32;
    (0x9 <= v && v <= 0xd) || v == 0x20 || v == 0x85 || v == 0xa0 || v == 0x1680 || (0x2000 <= v
        && v <= 0x200a) || v == 0x2028 || v == 0x2029 || v == 0x202f || v == 0x205f || v == 0x3000
}

/// `text` without white space at either end.
pub fn trim_whitespace(text: &str) -> (t: String)
    ensures
        t@ == trim_ws(text@),
{
    let v = chars_of(text);
    let n = v.len();
    let mut i: usize = 0;
    assert(v@.skip(0) == v@);
    while i < n && is_whitespace_char(v[i])
        invariant
            n == v@.len(),
            i <= n,
            trim_start_ws(v@.skip(i as int)) == trim_start_ws(v@),
        decreases n - i,
    {
        assert(v@.skip(i as int).drop_first() == v@.skip(i + 1));
        i = i + 1;
    }
    if i < n {
        assert(v@.skip(i as int)[0] == v@[i as int]);
    } else {
        assert(v@.skip(i as int).len() == 0);
    }
    assert(trim_start_ws(v@) == v@.subrange(i as int, n as int));
    let mut j: usize = n;
    while j > i && is_whitespace_char(v[j - 1])
        invariant
            n == v@.len(),
            i <= j <= n,
            trim_end_ws(v@.subrange(i as int, j as int)) == trim_end_ws(
                v@.subrange(i as int, n as int),
            ),
        decreases j - i,
    {
        assert(v@.subrange(i as int, j as int).drop_last() == v@.subrange(i as int, j - 1));
        j = j - 1;
    }
    if j > i {
        assert(v@.subrange(i as int, j as int).last() == v@[j - 1]);
    }
    string_from_chars(v.as_slice(), i, j)
}

/// The Git root that a `git rev-parse --show-toplevel` answer names: none
/// when `git` could not run, failed, or printed only white space; otherwise
/// what it printed, trimmed. Output that is not UTF-8 is an error.
pub open spec fn git_root_of(output: Option<GitOutput>) -> Result<Option<Seq<u8>>, ErrorView> {
    match output {
        None => Ok(None),
        Some(o) => if !o.success {
            Ok(None)
        } else if !valid_utf8(o.stdout@) {
            Err(ErrorOf::GitRootNotUtf8)
        } else {
            let t = trim_ws(decode_utf8(o.stdout@));
            if t.len() == 0 {
                Ok(None)
            } else {
                Ok(Some(encode_utf8(t)))
            }
        },
    }
}

pub open spec fn git_root_result(r: Result<Option<Vec<u8>>, SeatbeltError>) -> Result<
    Option<Seq<u8>>,
    ErrorView,
> {
    match r {
        Ok(Some(v)) => Ok(Some(v@)),
        Ok(None) => Ok(None),
        Err(e) => Err(e@),
    }
}

/// The Git root named by what `git rev-parse --show-toplevel` gave.
pub fn git_root_from_output(output: &Option<GitOutput>) -> (r: Result<
    Option<Vec<u8>>,
    SeatbeltError,
>)
    ensures
        git_root_result(r) == git_root_of(*output),
{
    match output {
        None => Ok(None),
        Some(o) => {
            if !o.success {
                return Ok(None);
            }
            match utf8_str(o.stdout.as_slice()) {
                None => Err(ErrorOf::GitRootNotUtf8),
                Some(text) => {
                    proof {
                        broadcast use encode_utf8_decode_utf8;

                        assert(decode_utf8(text.spec_bytes()) == text@);
                    }
                    let trimmed = trim_whitespace(text);
                    let t = trimmed.as_str();
                    if t.is_empty() {
                        Ok(None)
                    } else {
                        Ok(Some(slice_to_vec(t.as_bytes())))
                    }
                },
            }
        },
    }
}

/// The value of the environment variable `name`, which must be set.
pub fn required_env_path(vars: &EnvVars, name: &str) -> (r: Result<Vec<u8>, SeatbeltError>)
    ensures
        match vars.lookup(name@) {
            Some(v) => r is Ok && r->Ok_0@ == v,
            None => r is Err && r->Err_0@ == ErrorOf::<Seq<u8>, Seq<char>, Seq<Seq<u8>>>::RequiredEnvNotSet(name@),
        },
{
    match vars.var_os(name) {
        Some(v) => Ok(v),
        None => Err(ErrorOf::RequiredEnvNotSet(name.to_owned())),
    }
}

/// Checks that the resolved TMPDIR lies under `/private/var/folders`,
/// component by component.
pub fn validate_tmpdir(path: &[u8]) -> (r: Result<(), SeatbeltError>)
    ensures
        r is Ok <==> starts_with_path(path@, tmpdir_prefix()),
        r is Err ==> r->Err_0@ == ErrorOf::<Seq<u8>, Seq<char>, Seq<Seq<u8>>>::TmpdirOutside(path@),
{
    let prefix = crate::text::ascii_bytes("/private/var/folders");
    if !path_starts_with(path, prefix.as_slice()) {
        return Err(ErrorOf::TmpdirOutside(slice_to_vec(path)));
    }
    Ok(())
}


/// The resolved home directory and the directory that holds it.
pub open spec fn home_directories(fs: FsSnapshot, home: Seq<u8>) -> Result<
    (Seq<u8>, Seq<u8>),
    HaltView,
> {
    match fs.canonical(home, ResolveContext::Home) {
        Err(h) => Err(h),
        Ok(resolved) => match parent_of(resolved) {
            None => Err(fail(ErrorOf::HomeHasNoParent(resolved))),
            Some(p) => match fs.canonical(p, ResolveContext::UsersDirectory) {
                Err(h) => Err(h),
                Ok(users) => Ok((resolved, users)),
            },
        },
    }
}

/// The project directory: the resolved current directory, or the resolved
/// root of the Git work tree that contains it.
pub open spec fn project_directory(env: RunEnv, fs: FsSnapshot) -> Result<Seq<u8>, HaltView> {
    match env.current_dir {
        None => Err(fail(ErrorOf::CurrentDirFailed)),
        Some(cwd) => match fs.canonical(cwd@, ResolveContext::CurrentDirectory) {
            Err(h) => Err(h),
            Ok(p) => match env.git_answer(p) {
                None => Err(HaltOf::NeedGitRoot(p)),
                Some(a) => match git_root_of(a.output) {
                    Err(e) => Err(fail(e)),
                    Ok(None) => Ok(p),
                    Ok(Some(root)) => fs.canonical(root, ResolveContext::GitRoot),
                },
            },
        },
    }
}

/// What a run ends with: a line to print (`--dry-run`), or a command to
/// execute in place of the process.
#[derive(Debug, PartialEq, Eq)]
pub enum RunStepOf<S, L> {
    PrintLine(S),
    Exec(L),
}

pub type RunStep = RunStepOf<String, Vec<Vec<u8>>>;

pub type RunStepView = RunStepOf<Seq<char>, Seq<Seq<u8>>>;

impl View for RunStepOf<String, Vec<Vec<u8>>> {
    type V = RunStepView;

    open spec fn view(&self) -> RunStepView {
        match self {
            RunStepOf::PrintLine(s) => RunStepOf::PrintLine(s@),
            RunStepOf::Exec(c) => RunStepOf::Exec(byte_views(c@)),
        }
    }
}

/// A run that got past the checks on its directories: the warnings to
/// print first, then the step to take or the error to report.
#[derive(Debug)]
pub struct RunReport {
    pub warnings: Vec<String>,
    pub outcome: Result<RunStep, SeatbeltError>,
}

pub struct RunReportView {
    pub warnings: Seq<Seq<char>>,
    pub outcome: Result<RunStepView, ErrorView>,
}

pub open spec fn outcome_view(o: Result<RunStep, SeatbeltError>) -> Result<RunStepView, ErrorView> {
    match o {
        Ok(s) => Ok(s@),
        Err(e) => Err(e@),
    }
}

pub open spec fn string_views(s: Seq<String>) -> Seq<Seq<char>> {
    s.map_values(|w: String| w@)
}

impl DeepView for RunReport {
    type V = RunReportView;

    open spec fn deep_view(&self) -> RunReportView {
        RunReportView { warnings: string_views(self.warnings@), outcome: outcome_view(self.outcome) }
    }
}

/// The part of a run after the warnings: TMPDIR must be set and resolve
/// under `/private/var/folders`, and every name in `allow_env` must be set.
/// A question for the file system stops it (`Err`); an error of the run is
/// its outcome.
pub open spec fn run_outcome(
    config: InvocationView,
    dry_run: bool,
    command: Seq<Seq<u8>>,
    env: RunEnv,
    fs: FsSnapshot,
    users: Seq<u8>,
    home: Seq<u8>,
    project: Seq<u8>,
) -> Result<Result<RunStepView, ErrorView>, HaltView> {
    match env.vars.lookup("TMPDIR"@) {
        None => Ok(Err(ErrorOf::RequiredEnvNotSet("TMPDIR"@))),
        Some(t) => match fs.canonical(t, ResolveContext::Tmpdir) {
            Err(HaltOf::Error(e)) => Ok(Err(e)),
            Err(h) => Err(h),
            Ok(tmpdir) => if !starts_with_path(tmpdir, tmpdir_prefix()) {
                Ok(Err(ErrorOf::TmpdirOutside(tmpdir)))
            } else {
                match sandbox_command(
                    config.profile,
                    users,
                    home,
                    project,
                    tmpdir,
                    env.vars,
                    config.allow_env,
                    command,
                ) {
                    Err(e) => Ok(Err(e)),
                    Ok(c) => Ok(
                        Ok(
                            if dry_run {
                                RunStepOf::PrintLine(shell_line(c))
                            } else {
                                RunStepOf::Exec(c)
                            },
                        ),
                    ),
                }
            },
        },
    }
}

/// A run of `command` with the given invocation: HOME must be set and
/// resolve, along with its parent; the project directory must not be the
/// home directory; each granted path that lies inside the project directory
/// gets a warning, read paths first.
pub open spec fn run_plan(
    config: InvocationView,
    dry_run: bool,
    command: Seq<Seq<u8>>,
    env: RunEnv,
    fs: FsSnapshot,
) -> Result<RunReportView, HaltView> {
    match env.vars.lookup("HOME"@) {
        None => Err(fail(ErrorOf::RequiredEnvNotSet("HOME"@))),
        Some(h) => match home_directories(fs, h) {
            Err(e) => Err(e),
            Ok((home, users)) => match project_directory(env, fs) {
                Err(e) => Err(e),
                Ok(project) => if same_path(project, home) {
                    Err(fail(ErrorOf::RunFromHome(home)))
                } else {
                    match run_outcome(config, dry_run, command, env, fs, users, home, project) {
                        Err(e) => Err(e),
                        Ok(outcome) => Ok(
                            RunReportView {
                                warnings: redundancy_warnings(
                                    AllowAccess::Read,
                                    config.allow_read_paths,
                                    project,
                                ) + redundancy_warnings(
                                    AllowAccess::Write,
                                    config.allow_write_paths,
                                    project,
                                ),
                                outcome,
                            },
                        ),
                    }
                },
            },
        },
    }
}

pub open spec fn report_result(r: Result<RunReport, Halt>) -> Result<RunReportView, HaltView> {
    match r {
        Ok(rep) => Ok(rep.deep_view()),
        Err(h) => Err(h@),
    }
}

fn resolve_home_directories(home: &[u8], fs: &FsSnapshot) -> (r: Result<
    (CanonicalPathBuf, CanonicalPathBuf),
    Halt,
>)
    ensures
        match home_directories(*fs, home@) {
            Ok(d) => r is Ok && r->Ok_0.0@ == d.0 && r->Ok_0.1@ == d.1,
            Err(h) => r is Err && r->Err_0@ == h,
        },
{
    let resolved_home = CanonicalPathBuf::new(fs, home, ResolveContext::Home)?;
    let parent_dir = match parent(resolved_home.as_path()) {
        Some(p) => p,
        None => {
            return Err(HaltOf::Error(ErrorOf::HomeHasNoParent(resolved_home.into_path_buf())));
        },
    };
    let users = CanonicalPathBuf::new(fs, parent_dir.as_slice(), ResolveContext::UsersDirectory)?;
    Ok((resolved_home, users))
}

fn resolve_project_dir(env: &RunEnv, fs: &FsSnapshot) -> (r: Result<CanonicalPathBuf, Halt>)
    ensures
        match project_directory(*env, *fs) {
            Ok(p) => r is Ok && r->Ok_0@ == p,
            Err(h) => r is Err && r->Err_0@ == h,
        },
{
    let cwd = match &env.current_dir {
        Some(c) => c,
        None => {
            return Err(HaltOf::Error(ErrorOf::CurrentDirFailed));
        },
    };
    let project = CanonicalPathBuf::new(fs, cwd.as_slice(), ResolveContext::CurrentDirectory)?;
    let answer = match env.lookup_git(project.as_path()) {
        Some(a) => a,
        None => {
            return Err(HaltOf::NeedGitRoot(project.into_path_buf()));
        },
    };
    match git_root_from_output(&answer.output) {
        Err(e) => Err(HaltOf::Error(e)),
        Ok(None) => Ok(project),
        Ok(Some(root)) => CanonicalPathBuf::new(fs, root.as_slice(), ResolveContext::GitRoot),
    }
}

fn finish_run(
    config: &InvocationConfig,
    dry_run: bool,
    command: &[Vec<u8>],
    env: &RunEnv,
    fs: &FsSnapshot,
    users: CanonicalPathBuf,
    home: CanonicalPathBuf,
    project: CanonicalPathBuf,
) -> (r: Result<Result<RunStep, SeatbeltError>, Halt>)
    ensures
        match run_outcome(
            config.deep_view(),
            dry_run,
            byte_views(command@),
            *env,
            *fs,
            users@,
            home@,
            project@,
        ) {
            Ok(o) => r is Ok && outcome_view(r->Ok_0) == o,
            Err(h) => r is Err && r->Err_0@ == h,
        },
{
    let tmpdir = match required_env_path(&env.vars, "TMPDIR") {
        Ok(t) => t,
        Err(e) => {
            return Ok(Err(e));
        },
    };
    let resolved_tmpdir = match CanonicalPathBuf::new(fs, tmpdir.as_slice(), ResolveContext::Tmpdir) {
        Ok(t) => t,
        Err(HaltOf::Error(e)) => {
            return Ok(Err(e));
        },
        Err(h) => {
            return Err(h);
        },
    };
    match validate_tmpdir(resolved_tmpdir.as_path()) {
        Ok(()) => {},
        Err(e) => {
            return Ok(Err(e));
        },
    }
    let sandbox_context = SandboxContext {
        profile: &config.profile,
        resolved_users_dir: users,
        resolved_home: home,
        project_dir: project,
        resolved_tmpdir,
    };
    match build_final_command(&sandbox_context, &env.vars, config.allow_env.as_slice(), command) {
        Err(e) => Ok(Err(e)),
        Ok(final_command) => {
            if dry_run {
                let line = shell_words(final_command.as_slice());
                assert(arg_views(final_command@) =~= byte_views(final_command@));
                Ok(Ok(RunStepOf::PrintLine(line)))
            } else {
                Ok(Ok(RunStepOf::Exec(final_command)))
            }
        },
    }
}

/// Runs `command` with the given invocation, as far as the library decides:
/// the directories are resolved and checked, the warnings gathered, and the
/// `sandbox-exec` command built (and quoted, with `dry_run`). Where the
/// snapshots lack an answer, the result names the question.
pub fn run(
    config: &InvocationConfig,
    dry_run: bool,
    command: &[Vec<u8>],
    env: &RunEnv,
    fs: &FsSnapshot,
) -> (r: Result<RunReport, Halt>)
    ensures
        report_result(r) == run_plan(config.deep_view(), dry_run, byte_views(command@), *env, *fs),
{
    let home = match required_env_path(&env.vars, "HOME") {
        Ok(h) => h,
        Err(e) => {
            return Err(HaltOf::Error(e));
        },
    };
    let (resolved_home, resolved_users_dir) = resolve_home_directories(home.as_slice(), fs)?;
    let project_dir = resolve_project_dir(env, fs)?;
    if path_eq(project_dir.as_path(), resolved_home.as_path()) {
        return Err(HaltOf::Error(ErrorOf::RunFromHome(resolved_home.into_path_buf())));
    }
    let mut warnings = project_dir_redundancy_warnings(
        AllowAccess::Read,
        config.allow_read_paths.as_slice(),
        project_dir.as_path(),
    );
    let write_warnings = project_dir_redundancy_warnings(
        AllowAccess::Write,
        config.allow_write_paths.as_slice(),
        project_dir.as_path(),
    );
    let ghost project = project_dir@;
    let ghost read_views = string_views(warnings@);
    let mut k: usize = 0;
    assert(string_views(write_warnings@).take(0) == Seq::<Seq<char>>::empty());
    assert(read_views + Seq::<Seq<char>>::empty() == read_views);
    while k < write_warnings.len()
        invariant
            k <= write_warnings@.len(),
            string_views(warnings@) == read_views + string_views(write_warnings@).take(k as int),
        decreases write_warnings.len() - k,
    {
        let w = write_warnings[k].clone();
        let ghost before = warnings@;
        warnings.push(w);
        assert(string_views(warnings@) == string_views(before).push(write_warnings@[k as int]@));
        assert(string_views(write_warnings@).take(k + 1) == string_views(write_warnings@).take(
            k as int,
        ).push(write_warnings@[k as int]@));
        k = k + 1;
    }
    assert(string_views(write_warnings@).take(write_warnings@.len() as int) == string_views(
        write_warnings@,
    ));
    let outcome = finish_run(
        config,
        dry_run,
        command,
        env,
        fs,
        resolved_users_dir,
        resolved_home,
        project_dir,
    )?;
    Ok(RunReport { warnings, outcome })
}

/// What the command line asks for once the invocation is decided: the
/// profile to print, a run that got as far as its report, or a run that
/// stopped on an error before its report.
#[derive(Debug)]
pub enum CliActionOf<P, R, E> {
    PrintProfile(P),
    Run(R),
    RunFailed(E),
}

pub type CliAction = CliActionOf<SandboxProfile, RunReport, SeatbeltError>;

pub type CliActionView = CliActionOf<ProfileView, RunReportView, ErrorView>;

impl DeepView for CliActionOf<SandboxProfile, RunReport, SeatbeltError> {
    type V = CliActionView;

    open spec fn deep_view(&self) -> CliActionView {
        match self {
            CliActionOf::PrintProfile(p) => CliActionOf::PrintProfile(p.deep_view()),
            CliActionOf::Run(r) => CliActionOf::Run(r.deep_view()),
            CliActionOf::RunFailed(e) => CliActionOf::RunFailed(e@),
        }
    }
}

/// The whole command line: HOME must be set; the invocation is decided
/// from the options, the config and the file system; then the subcommand
/// is planned. A run's own errors are kept apart from those of deciding the
/// invocation; questions for the snapshots stop both.
pub open spec fn cli_plan(cli: Cli, env: RunEnv, fs: FsSnapshot) -> Result<CliActionView, HaltView> {
    match env.vars.lookup("HOME"@) {
        None => Err(fail(ErrorOf::RequiredEnvNotSet("HOME"@))),
        Some(home) => match invocation(
            fs,
            home,
            opt_view(cli.config),
            opt_view(cli.profile),
            env_views(cli.allow_env@),
            byte_views(cli.allow_read@),
            byte_views(cli.allow_write@),
        ) {
            Err(h) => Err(h),
            Ok(config) => match cli.command {
                Command::PrintProfile => Ok(CliActionOf::PrintProfile(config.profile)),
                Command::Run(args) => match run_plan(
                    config,
                    args.dry_run,
                    byte_views(args.command@),
                    env,
                    fs,
                ) {
                    Err(HaltOf::Error(e)) => Ok(CliActionOf::RunFailed(e)),
                    Err(h) => Err(h),
                    Ok(report) => Ok(CliActionOf::Run(report)),
                },
            },
        },
    }
}

pub open spec fn action_result(r: Result<CliAction, Halt>) -> Result<CliActionView, HaltView> {
    match r {
        Ok(a) => Ok(a.deep_view()),
        Err(h) => Err(h@),
    }
}

/// Decides what the command line does, from the parsed options, what the
/// process environment holds and what the file system answered so far.
pub fn run_cli(cli: &Cli, env: &RunEnv, fs: &FsSnapshot) -> (r: Result<CliAction, Halt>)
    ensures
        action_result(r) == cli_plan(*cli, *env, *fs),
{
    let home = match required_env_path(&env.vars, "HOME") {
        Ok(h) => h,
        Err(e) => {
            return Err(HaltOf::Error(e));
        },
    };
    let config = load_invocation_config(
        home.as_slice(),
        &cli.config,
        &cli.profile,
        cli.allow_env.as_slice(),
        cli.allow_read.as_slice(),
        cli.allow_write.as_slice(),
        fs,
    )?;
    match &cli.command {
        Command::PrintProfile => Ok(CliActionOf::PrintProfile(config.profile)),
        Command::Run(args) => match run(&config, args.dry_run, args.command.as_slice(), env, fs) {
            Ok(report) => Ok(CliActionOf::Run(report)),
            Err(HaltOf::Error(e)) => Ok(CliActionOf::RunFailed(e)),
            Err(h) => Err(h),
        },
    }
}


/// A run never starts from the home directory: when the project directory
/// (the current directory, or the root of its Git work tree) resolves to
/// the home directory, the run stops with the refusal, before any warning
/// is printed or any command is built.
pub proof fn lemma_run_refuses_home(
    config: InvocationView,
    dry_run: bool,
    command: Seq<Seq<u8>>,
    env: RunEnv,
    fs: FsSnapshot,
    home: Seq<u8>,
)
    requires
        env.vars.lookup("HOME"@) == Some(home),
        home_directories(fs, home) is Ok,
        project_directory(env, fs) is Ok,
        same_path(project_directory(env, fs)->Ok_0, home_directories(fs, home)->Ok_0.0),
    ensures
        run_plan(config, dry_run, command, env, fs) == Err::<RunReportView, HaltView>(
            fail(ErrorOf::RunFromHome(home_directories(fs, home)->Ok_0.0)),
        ),
{
}

/// What a run prints or executes is the sandbox command built from its
/// resolved directories: HOME and its parent resolved, the project
/// directory resolved and not the home directory, and TMPDIR resolved under
/// `/private/var/folders`. With `dry_run` the command is printed as a line
/// of shell words; otherwise it is executed as it is.
pub proof fn lemma_run_step(
    config: InvocationView,
    dry_run: bool,
    command: Seq<Seq<u8>>,
    env: RunEnv,
    fs: FsSnapshot,
)
    requires
        run_plan(config, dry_run, command, env, fs) is Ok,
        run_plan(config, dry_run, command, env, fs)->Ok_0.outcome is Ok,
    ensures
        ({
            let h = env.vars.lookup("HOME"@)->0;
            let home = home_directories(fs, h)->Ok_0.0;
            let users = home_directories(fs, h)->Ok_0.1;
            let project = project_directory(env, fs)->Ok_0;
            let tmpdir = fs.canonical(env.vars.lookup("TMPDIR"@)->0, ResolveContext::Tmpdir)->Ok_0;
            let c = sandbox_command(
                config.profile,
                users,
                home,
                project,
                tmpdir,
                env.vars,
                config.allow_env,
                command,
            )->Ok_0;
            &&& env.vars.lookup("HOME"@) is Some
            &&& home_directories(fs, h) is Ok
            &&& project_directory(env, fs) is Ok
            &&& !same_path(project, home)
            &&& env.vars.lookup("TMPDIR"@) is Some
            &&& fs.canonical(env.vars.lookup("TMPDIR"@)->0, ResolveContext::Tmpdir) is Ok
            &&& starts_with_path(tmpdir, tmpdir_prefix())
            &&& sandbox_command(
                config.profile,
                users,
                home,
                project,
                tmpdir,
                env.vars,
                config.allow_env,
                command,
            ) is Ok
            &&& run_plan(config, dry_run, command, env, fs)->Ok_0.outcome == Ok::<
                RunStepView,
                ErrorView,
            >(
                if dry_run {
                    RunStepOf::PrintLine(shell_line(c))
                } else {
                    RunStepOf::Exec(c)
                },
            )
        }),
{
}


/// `run --dry-run` prints exactly the command that the same run without it
/// executes: the printed line reads back, word by word, as that command;
/// the warnings are the same, and so is any error.
pub proof fn lemma_dry_run_prints_the_executed_command(
    config: InvocationView,
    command: Seq<Seq<u8>>,
    env: RunEnv,
    fs: FsSnapshot,
)
    requires
        run_plan(config, true, command, env, fs) is Ok,
    ensures
        run_plan(config, false, command, env, fs) is Ok,
        ({
            let printed = run_plan(config, true, command, env, fs)->Ok_0;
            let executed = run_plan(config, false, command, env, fs)->Ok_0;
            &&& executed.warnings == printed.warnings
            &&& match (printed.outcome, executed.outcome) {
                (Ok(RunStepOf::PrintLine(line)), Ok(RunStepOf::Exec(c))) => read_line(line) == Some(
                    c,
                ),
                (Err(e1), Err(e2)) => e1 == e2,
                _ => false,
            }
        }),
{
    let printed = run_plan(config, true, command, env, fs)->Ok_0;
    if printed.outcome is Ok {
        lemma_run_step(config, true, command, env, fs);
        let h = env.vars.lookup("HOME"@)->0;
        let home = home_directories(fs, h)->Ok_0.0;
        let users = home_directories(fs, h)->Ok_0.1;
        let project = project_directory(env, fs)->Ok_0;
        let tmpdir = fs.canonical(env.vars.lookup("TMPDIR"@)->0, ResolveContext::Tmpdir)->Ok_0;
        lemma_sandbox_command_shape(
            config.profile,
            users,
            home,
            project,
            tmpdir,
            env.vars,
            config.allow_env,
            command,
        );
        let c = sandbox_command(
            config.profile,
            users,
            home,
            project,
            tmpdir,
            env.vars,
            config.allow_env,
            command,
        )->Ok_0;
        lemma_shell_line_reads_back(c);
    }
}


/// `print-profile` shows the profile that `run` loads: with the same
/// options, environment and file system, the command that `run` executes
/// hands `sandbox-exec` that profile, as `-f` and the file or `-p` and the
/// text.
pub proof fn lemma_print_profile_shows_the_run_profile(
    cli: Cli,
    args: RunArgs,
    env: RunEnv,
    fs: FsSnapshot,
)
    requires
        cli.command == Command::PrintProfile,
        cli_plan(cli, env, fs) is Ok,
        cli_plan(Cli { command: Command::Run(args), ..cli }, env, fs) matches Ok(
            CliActionOf::Run(report),
        ) && report.outcome matches Ok(RunStepOf::Exec(_)),
    ensures
        cli_plan(cli, env, fs) matches Ok(CliActionOf::PrintProfile(profile)) && cli_plan(
            Cli { command: Command::Run(args), ..cli },
            env,
            fs,
        ) matches Ok(CliActionOf::Run(report)) && report.outcome matches Ok(RunStepOf::Exec(c))
            && c.subrange(1, 3) == profile_args(profile),
{
    let run_cli_value = Cli { command: Command::Run(args), ..cli };
    let home = env.vars.lookup("HOME"@)->0;
    let config = invocation(
        fs,
        home,
        opt_view(cli.config),
        opt_view(cli.profile),
        env_views(cli.allow_env@),
        byte_views(cli.allow_read@),
        byte_views(cli.allow_write@),
    )->Ok_0;
    let command = byte_views(args.command@);
    lemma_run_step(config, args.dry_run, command, env, fs);
    let h = home;
    let rh = home_directories(fs, h)->Ok_0.0;
    let users = home_directories(fs, h)->Ok_0.1;
    let project = project_directory(env, fs)->Ok_0;
    let tmpdir = fs.canonical(env.vars.lookup("TMPDIR"@)->0, ResolveContext::Tmpdir)->Ok_0;
    let prefix = sandbox_prefix(config.profile, users, rh, project, tmpdir);
    let c = sandbox_command(
        config.profile,
        users,
        rh,
        project,
        tmpdir,
        env.vars,
        config.allow_env,
        command,
    )->Ok_0;
    assert(c.subrange(0, 13) == prefix);
    assert(prefix.subrange(1, 3) == profile_args(config.profile));
    assert(c.subrange(1, 3) == prefix.subrange(1, 3));
}

} // verus!
