#![allow(unused_imports, dead_code)]

use seatbelt::allow_paths::{
    broad_directory_paths, is_overly_broad_directory, project_dir_redundancy_warnings,
    resolve_allow_paths, AllowAccess, AllowPathOf, ResolvedAllowPath,
};
use seatbelt::app::{
    git_root_from_output, required_env_path, run_cli, trim_whitespace, validate_tmpdir,
    CliAction, CliActionOf, GitAnswer, GitOutput, RunEnv, RunStepOf,
};
use seatbelt::cli::{Cli, Command, RunArgs};
use seatbelt::config::{
    config_path_candidates, load_invocation_config, AllowConfig, ConfigFile, ConfigRead,
    InvocationConfig, SeatbeltConfig,
};
use seatbelt::env_name::EnvName;
use seatbelt::error::{ErrorOf, FileContext, ResolveContext, SeatbeltError};
use seatbelt::paths::{CanonicalPathBuf, FsSnapshot, Halt, HaltOf, PathKind, PathProbe};
use seatbelt::profile::{
    append_allow_paths, compose_import_profile, compose_profile, resolve_profile_fragment,
    sbpl_string_literal, ProfileOf, SandboxProfile,
};
use seatbelt::sandbox_exec::{append_if_set, build_final_command, env_pair, EnvVars, SandboxContext};
use seatbelt::shell_quote::{
    is_shell_safe_byte, push_shell_octal_escape, shell_ansi_c_quote, shell_quote,
    shell_single_quote, shell_words,
};
use seatbelt::test_support::{
    canonical_path, canonicalized, env_name, must, profile_text_contains, profile_text_excludes,
};

const SANDBOX_EXEC_PATH: &str = "/usr/bin/sandbox-exec";

fn os(value: &str) -> Vec<u8> {
    value.as_bytes().to_vec()
}

type World = Vec<(&'static str, &'static str, PathKind)>;

/// What the simulated file system answers for `path`: the entry listed for
/// it, or nothing when it does not exist.
fn answer(world: &[(&'static str, &'static str, PathKind)], path: &[u8]) -> PathProbe {
    for (p, resolved, kind) in world {
        if p.as_bytes() == path {
            return PathProbe { path: path.to_vec(), resolved: Some(os(resolved)), kind: Some(*kind) };
        }
    }
    PathProbe { path: path.to_vec(), resolved: None, kind: None }
}

fn no_config(_: &[u8]) -> Option<SeatbeltConfig> {
    None
}

/// Runs one library step against the simulated file system, answering each
/// question that it asks until it is done.
fn with_world<T>(
    world: &[(&'static str, &'static str, PathKind)],
    config: &dyn Fn(&[u8]) -> Option<SeatbeltConfig>,
    mut step: impl FnMut(&FsSnapshot) -> Result<T, Halt>,
) -> Result<T, SeatbeltError> {
    let mut fs = FsSnapshot::new();
    loop {
        match step(&fs) {
            Ok(value) => return Ok(value),
            Err(HaltOf::Error(error)) => return Err(error),
            Err(HaltOf::NeedProbe(path)) => fs.record(answer(world, &path)),
            Err(HaltOf::NeedConfig(path)) => {
                let content = match config(&path) {
                    Some(parsed) => ConfigRead::Parsed(parsed),
                    None => ConfigRead::ReadFailed,
                };
                fs.record_config(ConfigFile { path, content });
            },
            Err(HaltOf::NeedGitRoot(_)) => panic!("no Git answer in this test"),
        }
    }
}

fn resolved(world: &[(&'static str, &'static str, PathKind)], path: &str) -> CanonicalPathBuf {
    let mut fs = FsSnapshot::new();
    fs.record(answer(world, path.as_bytes()));
    canonicalized(&fs, path.as_bytes(), ResolveContext::FilePath)
}

/// A temporary directory `/tmp/t` that resolves under `/private`, holding
/// the home directory `home`.
fn temp_world(extra: &[(&'static str, &'static str, PathKind)]) -> World {
    let mut world = vec![
        ("/", "/", PathKind::Directory),
        ("/tmp/t", "/private/tmp/t", PathKind::Directory),
        ("/private/tmp/t", "/private/tmp/t", PathKind::Directory),
        ("/tmp/t/home", "/private/tmp/t/home", PathKind::Directory),
        ("/private/tmp/t/home", "/private/tmp/t/home", PathKind::Directory),
    ];
    world.extend_from_slice(extra);
    world
}

fn resolve(
    world: &[(&'static str, &'static str, PathKind)],
    home: &str,
    paths: &[&str],
    access: AllowAccess,
) -> Result<Vec<ResolvedAllowPath>, SeatbeltError> {
    let paths: Vec<Vec<u8>> = paths.iter().map(|p| os(p)).collect();
    with_world(world, &no_config, |fs| resolve_allow_paths(home.as_bytes(), &paths, access, fs))
}

fn home_env() -> EnvVars {
    let mut env = EnvVars::new();
    env.insert("HOME".to_owned(), os("/Users/alice"));
    env
}

fn env_of(pairs: &[(&str, &str)]) -> EnvVars {
    let mut env = EnvVars::new();
    for (name, value) in pairs {
        env.insert((*name).to_owned(), os(value));
    }
    env
}

fn empty_env() -> EnvVars {
    EnvVars::new()
}

fn file_profile() -> SandboxProfile {
    ProfileOf::File(os("/profiles/default.sb"))
}

fn sandbox_context(profile: &SandboxProfile) -> SandboxContext<'_> {
    let users: CanonicalPathBuf = canonical_path("/Users");
    SandboxContext {
        profile,
        resolved_users_dir: users,
        resolved_home: canonical_path("/Users/alice"),
        project_dir: canonical_path("/Users/alice/project"),
        resolved_tmpdir: canonical_path("/tmp/alice"),
    }
}


#[test]
fn sandbox_exec_build_final_command_assembles_sandbox_env_and_command() {
    let env_source = env_of(&[
        ("USER", "alice"),
        ("SHELL", "/bin/fish"),
        ("TERM", "ansi"),
        ("LANG", "C.UTF-8"),
        ("PATH", "/usr/bin:/bin"),
        ("SSH_AUTH_SOCK", "/tmp/ssh.sock"),
        ("EDITOR", "vim"),
        ("VISUAL", "nvim"),
        ("XDG_CONFIG_HOME", "/Users/alice/.config"),
        ("XDG_DATA_HOME", "/Users/alice/.local/share"),
        ("XDG_CACHE_HOME", "/Users/alice/.cache"),
        ("XDG_RUNTIME_DIR", "/tmp/runtime"),
        ("EXTRA_TOKEN", "secret"),
    ]);

    let profile = file_profile();
    let context = sandbox_context(&profile);

    let actual = must(build_final_command(
        &context,
        &env_source,
        &[env_name("EXTRA_TOKEN")],
        &[os("echo"), os("hello world")],
    ));

    assert_eq!(
        actual,
        vec![
            os(SANDBOX_EXEC_PATH),
            os("-f"),
            os("/profiles/default.sb"),
            os("-D"),
            os("_USERS_DIR=/Users"),
            os("-D"),
            os("_HOME=/Users/alice"),
            os("-D"),
            os("_PROJECT_DIR=/Users/alice/project"),
            os("-D"),
            os("_TMPDIR=/tmp/alice"),
            os("/usr/bin/env"),
            os("-i"),
            os("HOME=/Users/alice"),
            os("USER=alice"),
            os("SHELL=/bin/fish"),
            os("TERM=ansi"),
            os("LANG=C.UTF-8"),
            os("PATH=/usr/bin:/bin"),
            os("TMPDIR=/tmp/alice"),
            os("SSH_AUTH_SOCK=/tmp/ssh.sock"),
            os("EDITOR=vim"),
            os("VISUAL=nvim"),
            os("XDG_CONFIG_HOME=/Users/alice/.config"),
            os("XDG_DATA_HOME=/Users/alice/.local/share"),
            os("XDG_CACHE_HOME=/Users/alice/.cache"),
            os("XDG_RUNTIME_DIR=/tmp/runtime"),
            os("EXTRA_TOKEN=secret"),
            os("echo"),
            os("hello world"),
        ]
    );
}

#[test]
fn sandbox_exec_build_final_command_uses_defaults_for_missing_base_env() {
    let env_source = empty_env();
    let profile = file_profile();
    let context = sandbox_context(&profile);

    let actual = must(build_final_command(&context, &env_source, &[], &[os("true")]));

    assert_eq!(
        actual,
        vec![
            os(SANDBOX_EXEC_PATH),
            os("-f"),
            os("/profiles/default.sb"),
            os("-D"),
            os("_USERS_DIR=/Users"),
            os("-D"),
            os("_HOME=/Users/alice"),
            os("-D"),
            os("_PROJECT_DIR=/Users/alice/project"),
            os("-D"),
            os("_TMPDIR=/tmp/alice"),
            os("/usr/bin/env"),
            os("-i"),
            os("HOME=/Users/alice"),
            os("USER="),
            os("SHELL=/bin/zsh"),
            os("TERM=xterm-256color"),
            os("LANG=en_US.UTF-8"),
            os("PATH="),
            os("TMPDIR=/tmp/alice"),
            os("true"),
        ]
    );
}

#[test]
fn sandbox_exec_build_final_command_uses_generated_profile_text() {
    let env_source = empty_env();
    let profile = ProfileOf::Text("(version 1)\n(import \"/profiles/base.sb\")\n".to_owned());
    let context = sandbox_context(&profile);

    let actual = must(build_final_command(&context, &env_source, &[], &[os("true")]));

    assert_eq!(
        actual,
        vec![
            os(SANDBOX_EXEC_PATH),
            os("-p"),
            os("(version 1)\n(import \"/profiles/base.sb\")\n"),
            os("-D"),
            os("_USERS_DIR=/Users"),
            os("-D"),
            os("_HOME=/Users/alice"),
            os("-D"),
            os("_PROJECT_DIR=/Users/alice/project"),
            os("-D"),
            os("_TMPDIR=/tmp/alice"),
            os("/usr/bin/env"),
            os("-i"),
            os("HOME=/Users/alice"),
            os("USER="),
            os("SHELL=/bin/zsh"),
            os("TERM=xterm-256color"),
            os("LANG=en_US.UTF-8"),
            os("PATH="),
            os("TMPDIR=/tmp/alice"),
            os("true"),
        ]
    );
}

#[test]
fn sandbox_exec_build_final_command_rejects_unset_allow_env_name() {
    let env_source = empty_env();

    let profile = file_profile();
    let context = sandbox_context(&profile);

    let result = build_final_command(&context, &env_source, &[env_name("TOKEN")], &[os("true")]);

    assert_eq!(
        result.err().map(|error| error.to_string()),
        Some("environment variable is not set: TOKEN".to_owned())
    );
}

#[test]
fn sandbox_exec_env_pair_joins_name_and_value() {
    assert_eq!(env_pair("NAME", b"a=b"), os("NAME=a=b"));
    assert_eq!(env_pair("EMPTY", b""), os("EMPTY="));
}

#[test]
fn sandbox_exec_append_if_set_skips_unset_variables() {
    let env = env_of(&[("EDITOR", "vim")]);
    let mut command = vec![os("x")];
    append_if_set(&mut command, &env, "VISUAL");
    assert_eq!(command, vec![os("x")]);
    append_if_set(&mut command, &env, "EDITOR");
    assert_eq!(command, vec![os("x"), os("EDITOR=vim")]);
}

#[test]
fn sandbox_exec_first_variable_of_a_name_wins() {
    let env = env_of(&[("A", "1"), ("A", "2")]);
    assert_eq!(env.var_os("A"), Some(os("1")));
    assert_eq!(env.var_os("B"), None);
}

#[test]
fn sandbox_exec_allowed_variables_keep_their_order() {
    let env = env_of(&[("B", "2"), ("A", "1")]);
    let profile = file_profile();
    let context = sandbox_context(&profile);
    let actual = must(build_final_command(&context, &env, &[env_name("A"), env_name("B")], &[os("true")]));
    let n = actual.len();
    assert_eq!(actual[n - 3..].to_vec(), vec![os("A=1"), os("B=2"), os("true")]);
    assert_eq!(actual[11], os("/usr/bin/env"));
    assert_eq!(actual[12], os("-i"));
}

#[test]
fn sandbox_exec_reports_the_first_unset_variable() {
    let env = env_of(&[("B", "2")]);
    let profile = file_profile();
    let context = sandbox_context(&profile);
    let result = build_final_command(&context, &env, &[env_name("B"), env_name("C"), env_name("D")], &[]);
    assert_eq!(
        result.err().map(|error| error.to_string()),
        Some("environment variable is not set: C".to_owned())
    );
}
