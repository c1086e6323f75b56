#![allow(unused_imports, dead_code)]

use seatbelt::allow_paths::{
    broad_directory_paths, is_overly_broad_directory, project_dir_redundancy_warnings,
    resolve_allow_paths, AllowAccess, AllowPathOf, ResolvedAllowPath,
};
use seatbelt::app::{
    git_root_from_output, required_env_path, run_cli, trim_whitespace, validate_tmpdir,
    CliAction, CliActionOf, GitAnswer, GitOutput, RunEnv, RunStepOf,
};
use seatbelt::cli::{Cli, Command, RunArgs};
use seatbelt::config::{
    config_path_candidates, load_invocation_config, AllowConfig, ConfigFile, ConfigRead,
    InvocationConfig, SeatbeltConfig,
};
use seatbelt::env_name::EnvName;
use seatbelt::error::{ErrorOf, FileContext, ResolveContext, SeatbeltError};
use seatbelt::paths::{CanonicalPathBuf, FsSnapshot, Halt, HaltOf, PathKind, PathProbe};
use seatbelt::profile::{
    append_allow_paths, compose_import_profile, compose_profile, resolve_profile_fragment,
    sbpl_string_literal, ProfileOf, SandboxProfile,
};
use seatbelt::sandbox_exec::{append_if_set, build_final_command, env_pair, EnvVars, SandboxContext};
use seatbelt::shell_quote::{
    is_shell_safe_byte, push_shell_octal_escape, shell_ansi_c_quote, shell_quote,
    shell_single_quote, shell_words,
};
use seatbelt::test_support::{
    canonical_path, canonicalized, env_name, must, profile_text_contains, profile_text_excludes,
};

const SANDBOX_EXEC_PATH: &str = "/usr/bin/sandbox-exec";

fn os(value: &str) -> Vec<u8> {
    value.as_bytes().to_vec()
}

type World = Vec<(&'static str, &'static str, PathKind)>;

/// What the simulated file system answers for `path`: the entry listed for
/// it, or nothing when it does not exist.
fn answer(world: &[(&'static str, &'static str, PathKind)], path: &[u8]) -> PathProbe {
    for (p, resolved, kind) in world {
        if p.as_bytes() == path {
            return PathProbe { path: path.to_vec(), resolved: Some(os(resolved)), kind: Some(*kind) };
        }
    }
    PathProbe { path: path.to_vec(), resolved: None, kind: None }
}

fn no_config(_: &[u8]) -> Option<SeatbeltConfig> {
    None
}

/// Runs one library step against the simulated file system, answering each
/// question that it asks until it is done.
fn with_world<T>(
    world: &[(&'static str, &'static str, PathKind)],
    config: &dyn Fn(&[u8]) -> Option<SeatbeltConfig>,
    mut step: impl FnMut(&FsSnapshot) -> Result<T, Halt>,
) -> Result<T, SeatbeltError> {
    let mut fs = FsSnapshot::new();
    loop {
        match step(&fs) {
            Ok(value) => return Ok(value),
            Err(HaltOf::Error(error)) => return Err(error),
            Err(HaltOf::NeedProbe(path)) => fs.record(answer(world, &path)),
            Err(HaltOf::NeedConfig(path)) => {
                let content = match config(&path) {
                    Some(parsed) => ConfigRead::Parsed(parsed),
                    None => ConfigRead::ReadFailed,
                };
                fs.record_config(ConfigFile { path, content });
            },
            Err(HaltOf::NeedGitRoot(_)) => panic!("no Git answer in this test"),
        }
    }
}

fn resolved(world: &[(&'static str, &'static str, PathKind)], path: &str) -> CanonicalPathBuf {
    let mut fs = FsSnapshot::new();
    fs.record(answer(world, path.as_bytes()));
    canonicalized(&fs, path.as_bytes(), ResolveContext::FilePath)
}

/// A temporary directory `/tmp/t` that resolves under `/private`, holding
/// the home directory `home`.
fn temp_world(extra: &[(&'static str, &'static str, PathKind)]) -> World {
    let mut world = vec![
        ("/", "/", PathKind::Directory),
        ("/tmp/t", "/private/tmp/t", PathKind::Directory),
        ("/private/tmp/t", "/private/tmp/t", PathKind::Directory),
        ("/tmp/t/home", "/private/tmp/t/home", PathKind::Directory),
        ("/private/tmp/t/home", "/private/tmp/t/home", PathKind::Directory),
    ];
    world.extend_from_slice(extra);
    world
}

fn resolve(
    world: &[(&'static str, &'static str, PathKind)],
    home: &str,
    paths: &[&str],
    access: AllowAccess,
) -> Result<Vec<ResolvedAllowPath>, SeatbeltError> {
    let paths: Vec<Vec<u8>> = paths.iter().map(|p| os(p)).collect();
    with_world(world, &no_config, |fs| resolve_allow_paths(home.as_bytes(), &paths, access, fs))
}

fn home_env() -> EnvVars {
    let mut env = EnvVars::new();
    env.insert("HOME".to_owned(), os("/Users/alice"));
    env
}

fn env_of(pairs: &[(&str, &str)]) -> EnvVars {
    let mut env = EnvVars::new();
    for (name, value) in pairs {
        env.insert((*name).to_owned(), os(value));
    }
    env
}

fn empty_env() -> EnvVars {
    EnvVars::new()
}

fn file_profile() -> SandboxProfile {
    ProfileOf::File(os("/profiles/default.sb"))
}

fn sandbox_context(profile: &SandboxProfile) -> SandboxContext<'_> {
    let users: CanonicalPathBuf = canonical_path("/Users");
    SandboxContext {
        profile,
        resolved_users_dir: users,
        resolved_home: canonical_path("/Users/alice"),
        project_dir: canonical_path("/Users/alice/project"),
        resolved_tmpdir: canonical_path("/tmp/alice"),
    }
}


#[test]
fn allow_paths_resolve_allow_paths_rejects_write_nonexistent_paths() {
    let world = temp_world(&[]);
    let missing = "/tmp/t/home/missing";

    let result = resolve(&world, "/tmp/t/home", &[missing], AllowAccess::Write);

    assert_eq!(
        result.err().map(|error| error.to_string()),
        Some(format!("failed to resolve --allow-write path: {}", missing))
    );
}

#[test]
fn allow_paths_resolve_allow_paths_rejects_write_root_directory() {
    let world = temp_world(&[]);

    let result = resolve(&world, "/tmp/t/home", &["/"], AllowAccess::Write);

    assert_eq!(
        result.err().map(|error| error.to_string()),
        Some("--allow-write directory is too broad: /".to_owned())
    );
}

#[test]
fn allow_paths_resolve_allow_paths_rejects_write_home_directory() {
    let world = temp_world(&[]);
    let expected_home = resolved(&world, "/tmp/t/home");

    let result = resolve(&world, "/tmp/t/home", &["~"], AllowAccess::Write);

    assert_eq!(
        result.err().map(|error| error.to_string()),
        Some(format!("--allow-write directory is too broad: {}", expected_home.display()))
    );
}

#[test]
fn allow_paths_resolve_allow_paths_rejects_write_home_documents_directory() {
    let world = temp_world(&[
        ("/tmp/t/home/Documents", "/private/tmp/t/home/Documents", PathKind::Directory),
        ("/private/tmp/t/home/Documents", "/private/tmp/t/home/Documents", PathKind::Directory),
    ]);
    let expected_documents = resolved(&world, "/tmp/t/home/Documents");

    let result = resolve(&world, "/tmp/t/home", &["~/Documents"], AllowAccess::Write);

    assert_eq!(
        result.err().map(|error| error.to_string()),
        Some(format!("--allow-write directory is too broad: {}", expected_documents.display()))
    );
}

#[test]
fn allow_paths_resolve_allow_paths_rejects_write_home_src_directory() {
    let world = temp_world(&[
        ("/tmp/t/home/src", "/private/tmp/t/home/src", PathKind::Directory),
        ("/private/tmp/t/home/src", "/private/tmp/t/home/src", PathKind::Directory),
    ]);
    let expected_src = resolved(&world, "/tmp/t/home/src");

    let result = resolve(&world, "/tmp/t/home", &["~/src"], AllowAccess::Write);

    assert_eq!(
        result.err().map(|error| error.to_string()),
        Some(format!("--allow-write directory is too broad: {}", expected_src.display()))
    );
}

#[test]
fn allow_paths_resolve_allow_paths_rejects_write_users_directory() {
    let world = temp_world(&[]);
    let expected_users_dir = resolved(&world, "/tmp/t");

    let result = resolve(&world, "/tmp/t/home", &["/tmp/t"], AllowAccess::Write);

    assert_eq!(
        result.err().map(|error| error.to_string()),
        Some(format!("--allow-write directory is too broad: {}", expected_users_dir.display()))
    );
}

#[test]
fn allow_paths_resolve_allow_paths_rejects_read_nonexistent_paths() {
    let world = temp_world(&[]);
    let missing = "/tmp/t/home/missing";

    let result = resolve(&world, "/tmp/t/home", &[missing], AllowAccess::Read);

    assert_eq!(
        result.err().map(|error| error.to_string()),
        Some(format!("failed to resolve --allow-read path: {}", missing))
    );
}

#[test]
fn allow_paths_resolve_allow_paths_rejects_read_root_directory() {
    let world = temp_world(&[]);

    let result = resolve(&world, "/tmp/t/home", &["/"], AllowAccess::Read);

    assert_eq!(
        result.err().map(|error| error.to_string()),
        Some("--allow-read directory is too broad: /".to_owned())
    );
}

#[test]
fn allow_paths_resolve_allow_paths_rejects_read_home_directory() {
    let world = temp_world(&[]);
    let expected_home = resolved(&world, "/tmp/t/home");

    let result = resolve(&world, "/tmp/t/home", &["~"], AllowAccess::Read);

    assert_eq!(
        result.err().map(|error| error.to_string()),
        Some(format!("--allow-read directory is too broad: {}", expected_home.display()))
    );
}

#[test]
fn allow_paths_resolve_allow_paths_rejects_read_home_documents_directory() {
    let world = temp_world(&[
        ("/tmp/t/home/Documents", "/private/tmp/t/home/Documents", PathKind::Directory),
        ("/private/tmp/t/home/Documents", "/private/tmp/t/home/Documents", PathKind::Directory),
    ]);
    let expected_documents = resolved(&world, "/tmp/t/home/Documents");

    let result = resolve(&world, "/tmp/t/home", &["~/Documents"], AllowAccess::Read);

    assert_eq!(
        result.err().map(|error| error.to_string()),
        Some(format!("--allow-read directory is too broad: {}", expected_documents.display()))
    );
}

#[test]
fn allow_paths_resolve_allow_paths_rejects_read_home_src_directory() {
    let world = temp_world(&[
        ("/tmp/t/home/src", "/private/tmp/t/home/src", PathKind::Directory),
        ("/private/tmp/t/home/src", "/private/tmp/t/home/src", PathKind::Directory),
    ]);
    let expected_src = resolved(&world, "/tmp/t/home/src");

    let result = resolve(&world, "/tmp/t/home", &["~/src"], AllowAccess::Read);

    assert_eq!(
        result.err().map(|error| error.to_string()),
        Some(format!("--allow-read directory is too broad: {}", expected_src.display()))
    );
}

#[test]
fn allow_paths_resolve_allow_paths_rejects_read_users_directory() {
    let world = temp_world(&[]);
    let expected_users_dir = resolved(&world, "/tmp/t");

    let result = resolve(&world, "/tmp/t/home", &["/tmp/t"], AllowAccess::Read);

    assert_eq!(
        result.err().map(|error| error.to_string()),
        Some(format!("--allow-read directory is too broad: {}", expected_users_dir.display()))
    );
}

#[test]
fn allow_paths_project_dir_redundancy_warnings_report_read_and_write_paths() {
    let project_dir = b"/Users/alice/project";

    let read_warnings = project_dir_redundancy_warnings(
        AllowAccess::Read,
        &[AllowPathOf::Directory(canonical_path("/Users/alice/project"))],
        project_dir,
    );
    let write_warnings = project_dir_redundancy_warnings(
        AllowAccess::Write,
        &[AllowPathOf::File(canonical_path("/Users/alice/project/output.log"))],
        project_dir,
    );

    assert_eq!(
        read_warnings,
        vec![
            "warning: allow.read/--allow-read /Users/alice/project is already covered by $PROJECT_DIR"
                .to_owned()
        ]
    );
    assert_eq!(
        write_warnings,
        vec![
            "warning: allow.write/--allow-write /Users/alice/project/output.log is already covered by $PROJECT_DIR"
                .to_owned()
        ]
    );
}

/// A checkout at `/Users/alice/work/seatbelt`, the current directory, with
/// `src` and `Cargo.toml` in it.
fn checkout_world() -> World {
    vec![
        ("/", "/", PathKind::Directory),
        ("/Users", "/Users", PathKind::Directory),
        ("/Users/alice", "/Users/alice", PathKind::Directory),
        ("src", "/Users/alice/work/seatbelt/src", PathKind::Directory),
        ("Cargo.toml", "/Users/alice/work/seatbelt/Cargo.toml", PathKind::File),
    ]
}

#[test]
fn allow_paths_resolve_allow_paths_resolves_read_relative_directories() {
    let world = checkout_world();
    let home = must(required_env_path(&home_env(), "HOME"));
    let expected = resolved(&world, "src");

    let actual = must(resolve(&world, std::str::from_utf8(&home).expect("UTF-8"), &["src"], AllowAccess::Read));

    assert_eq!(actual, vec![AllowPathOf::Directory(expected)]);
}

#[test]
fn allow_paths_resolve_allow_paths_resolves_read_files() {
    let world = checkout_world();
    let home = must(required_env_path(&home_env(), "HOME"));
    let expected = resolved(&world, "Cargo.toml");

    let actual = must(resolve(&world, std::str::from_utf8(&home).expect("UTF-8"), &["Cargo.toml"], AllowAccess::Read));

    assert_eq!(actual, vec![AllowPathOf::File(expected)]);
}

#[test]
fn allow_paths_access_strings() {
    assert_eq!(AllowAccess::Read.option_name(), "--allow-read");
    assert_eq!(AllowAccess::Write.option_name(), "--allow-write");
    assert_eq!(AllowAccess::Read.source_label(), "allow.read/--allow-read");
    assert_eq!(AllowAccess::Write.comment(), "Additional read/write paths from allow.write/--allow-write");
    assert_eq!(AllowAccess::Read.sbpl_permissions(), "file-read*");
    assert_eq!(AllowAccess::Write.sbpl_permissions(), "file-read* file-write*");
}

#[test]
fn allow_paths_rejects_paths_that_are_neither_files_nor_directories() {
    let world = temp_world(&[("/tmp/t/fifo", "/private/tmp/t/fifo", PathKind::Other)]);
    let result = resolve(&world, "/tmp/t/home", &["/tmp/t/fifo"], AllowAccess::Read);
    assert_eq!(
        result.err().map(|error| error.to_string()),
        Some("--allow-read path must be a file or directory: /private/tmp/t/fifo".to_owned())
    );
}

#[test]
fn allow_paths_reports_paths_that_cannot_be_inspected() {
    let paths = vec![os("/tmp/t/odd")];
    let mut fs = FsSnapshot::new();
    fs.record(PathProbe { path: os("/tmp/t/odd"), resolved: Some(os("/private/tmp/t/odd")), kind: None });
    let result = resolve_allow_paths(b"/tmp/t/home", &paths, AllowAccess::Write, &fs);
    let message = match result {
        Err(HaltOf::Error(error)) => Some(error.to_string()),
        _ => None,
    };
    assert_eq!(message, Some("failed to inspect --allow-write path: /private/tmp/t/odd".to_owned()));
}

#[test]
fn allow_paths_broad_directories_compare_by_components() {
    let broad = vec![os("/"), os("/Users"), os("/Users/alice")];
    assert!(is_overly_broad_directory(b"/Users/alice/", &broad));
    assert!(is_overly_broad_directory(b"/Users//alice", &broad));
    assert!(!is_overly_broad_directory(b"/Users/alice/work", &broad));
}

#[test]
fn allow_paths_broad_directory_paths_lists_existing_ones() {
    let world = temp_world(&[("/private/tmp/t/home/src", "/private/tmp/t/home/src", PathKind::Directory)]);
    let broad = must(with_world(&world, &no_config, |fs| broad_directory_paths(b"/tmp/t/home", fs)));
    assert_eq!(broad, vec![os("/"), os("/private/tmp/t"), os("/private/tmp/t/home"), os("/private/tmp/t/home/src")]);
}

#[test]
fn allow_paths_narrow_directories_are_granted() {
    let world = temp_world(&[("/tmp/t/home/work", "/private/tmp/t/home/work", PathKind::Directory)]);
    let actual = must(resolve(&world, "/tmp/t/home", &["~/work"], AllowAccess::Write));
    assert_eq!(actual, vec![AllowPathOf::Directory(canonical_path("/private/tmp/t/home/work"))]);
    assert_eq!(actual[0].path(), b"/private/tmp/t/home/work");
}
