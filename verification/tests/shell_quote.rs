#![allow(unused_imports, dead_code)]

use seatbelt::allow_paths::{
    broad_directory_paths, is_overly_broad_directory, project_dir_redundancy_warnings,
    resolve_allow_paths, AllowAccess, AllowPathOf, ResolvedAllowPath,
};
use seatbelt::app::{
    git_root_from_output, required_env_path, run_cli, trim_whitespace, validate_tmpdir,
    CliAction, CliActionOf, GitAnswer, GitOutput, RunEnv, RunStepOf,
};
use seatbelt::cli::{Cli, Command, RunArgs};
use seatbelt::config::{
    config_path_candidates, load_invocation_config, AllowConfig, ConfigFile, ConfigRead,
    InvocationConfig, SeatbeltConfig,
};
use seatbelt::env_name::EnvName;
use seatbelt::error::{ErrorOf, FileContext, ResolveContext, SeatbeltError};
use seatbelt::paths::{CanonicalPathBuf, FsSnapshot, Halt, HaltOf, PathKind, PathProbe};
use seatbelt::profile::{
    append_allow_paths, compose_import_profile, compose_profile, resolve_profile_fragment,
    sbpl_string_literal, ProfileOf, SandboxProfile,
};
use seatbelt::sandbox_exec::{append_if_set, build_final_command, env_pair, EnvVars, SandboxContext};
use seatbelt::shell_quote::{
    is_shell_safe_byte, push_shell_octal_escape, shell_ansi_c_quote, shell_quote,
    shell_single_quote, shell_words,
};
use seatbelt::test_support::{
    canonical_path, canonicalized, env_name, must, profile_text_contains, profile_text_excludes,
};

const SANDBOX_EXEC_PATH: &str = "/usr/bin/sandbox-exec";

fn os(value: &str) -> Vec<u8> {
    value.as_bytes().to_vec()
}

type World = Vec<(&'static str, &'static str, PathKind)>;

/// What the simulated file system answers for `path`: the entry listed for
/// it, or nothing when it does not exist.
fn answer(world: &[(&'static str, &'static str, PathKind)], path: &[u8]) -> PathProbe {
    for (p, resolved, kind) in world {
        if p.as_bytes() == path {
            return PathProbe { path: path.to_vec(), resolved: Some(os(resolved)), kind: Some(*kind) };
        }
    }
    PathProbe { path: path.to_vec(), resolved: None, kind: None }
}

fn no_config(_: &[u8]) -> Option<SeatbeltConfig> {
    None
}

/// Runs one library step against the simulated file system, answering each
/// question that it asks until it is done.
fn with_world<T>(
    world: &[(&'static str, &'static str, PathKind)],
    config: &dyn Fn(&[u8]) -> Option<SeatbeltConfig>,
    mut step: impl FnMut(&FsSnapshot) -> Result<T, Halt>,
) -> Result<T, SeatbeltError> {
    let mut fs = FsSnapshot::new();
    loop {
        match step(&fs) {
            Ok(value) => return Ok(value),
            Err(HaltOf::Error(error)) => return Err(error),
            Err(HaltOf::NeedProbe(path)) => fs.record(answer(world, &path)),
            Err(HaltOf::NeedConfig(path)) => {
                let content = match config(&path) {
                    Some(parsed) => ConfigRead::Parsed(parsed),
                    None => ConfigRead::ReadFailed,
                };
                fs.record_config(ConfigFile { path, content });
            },
            Err(HaltOf::NeedGitRoot(_)) => panic!("no Git answer in this test"),
        }
    }
}

fn resolved(world: &[(&'static str, &'static str, PathKind)], path: &str) -> CanonicalPathBuf {
    let mut fs = FsSnapshot::new();
    fs.record(answer(world, path.as_bytes()));
    canonicalized(&fs, path.as_bytes(), ResolveContext::FilePath)
}

/// A temporary directory `/tmp/t` that resolves under `/private`, holding
/// the home directory `home`.
fn temp_world(extra: &[(&'static str, &'static str, PathKind)]) -> World {
    let mut world = vec![
        ("/", "/", PathKind::Directory),
        ("/tmp/t", "/private/tmp/t", PathKind::Directory),
        ("/private/tmp/t", "/private/tmp/t", PathKind::Directory),
        ("/tmp/t/home", "/private/tmp/t/home", PathKind::Directory),
        ("/private/tmp/t/home", "/private/tmp/t/home", PathKind::Directory),
    ];
    world.extend_from_slice(extra);
    world
}

fn resolve(
    world: &[(&'static str, &'static str, PathKind)],
    home: &str,
    paths: &[&str],
    access: AllowAccess,
) -> Result<Vec<ResolvedAllowPath>, SeatbeltError> {
    let paths: Vec<Vec<u8>> = paths.iter().map(|p| os(p)).collect();
    with_world(world, &no_config, |fs| resolve_allow_paths(home.as_bytes(), &paths, access, fs))
}

fn home_env() -> EnvVars {
    let mut env = EnvVars::new();
    env.insert("HOME".to_owned(), os("/Users/alice"));
    env
}

fn env_of(pairs: &[(&str, &str)]) -> EnvVars {
    let mut env = EnvVars::new();
    for (name, value) in pairs {
        env.insert((*name).to_owned(), os(value));
    }
    env
}

fn empty_env() -> EnvVars {
    EnvVars::new()
}

fn file_profile() -> SandboxProfile {
    ProfileOf::File(os("/profiles/default.sb"))
}

fn sandbox_context(profile: &SandboxProfile) -> SandboxContext<'_> {
    let users: CanonicalPathBuf = canonical_path("/Users");
    SandboxContext {
        profile,
        resolved_users_dir: users,
        resolved_home: canonical_path("/Users/alice"),
        project_dir: canonical_path("/Users/alice/project"),
        resolved_tmpdir: canonical_path("/tmp/alice"),
    }
}


#[test]
fn shell_quote_shell_words_preserves_non_ascii_arguments() {
    let command = [os("echo"), os("café")];

    let actual = shell_words(&command);

    assert_eq!(actual, "echo 'café'");
}

#[test]
fn shell_quote_shell_words_escapes_non_utf8_arguments_without_replacement() {
    let command = [os("echo"), vec![b'f', b'o', b'o', 0xff, b'b', b'a', b'r']];

    let actual = shell_words(&command);

    assert_eq!(actual, "echo $'foo\\377bar'");
}

#[test]
fn shell_quote_empty_argument_is_two_quotes() {
    assert_eq!(shell_quote(b""), "''");
}

#[test]
fn shell_quote_safe_bytes_stay_bare() {
    assert_eq!(shell_quote(b"HOME=/Users/alice,x@y%z+1.2:3-_"), "HOME=/Users/alice,x@y%z+1.2:3-_");
}

#[test]
fn shell_quote_single_quotes_are_closed_and_escaped() {
    assert_eq!(shell_quote(b"it's"), "'it'\\''s'");
    assert_eq!(shell_single_quote("a b"), "'a b'");
}

#[test]
fn shell_quote_ansi_c_escapes() {
    assert_eq!(
        shell_ansi_c_quote(&[b'\'', b'\\', b'\n', b'\r', b'\t', b'a', 0x80, 0x01]),
        "$'\\'\\\\\\n\\r\\ta\\200\\001'"
    );
    let mut quoted = String::new();
    push_shell_octal_escape(&mut quoted, 0xff);
    assert_eq!(quoted, "\\377");
    assert!(is_shell_safe_byte(b'/'));
    assert!(!is_shell_safe_byte(b' '));
    assert!(!is_shell_safe_byte(b'~'));
}

#[test]
fn shell_quote_line_joins_words_with_spaces() {
    assert_eq!(shell_words(&[os("a"), os(""), os("b c")]), "a '' 'b c'");
    assert_eq!(shell_words(&[]), "");
}
