#![allow(unused_imports, dead_code)]

use seatbelt::allow_paths::{
    broad_directory_paths, is_overly_broad_directory, project_dir_redundancy_warnings,
    resolve_allow_paths, AllowAccess, AllowPathOf, ResolvedAllowPath,
};
use seatbelt::app::{
    git_root_from_output, required_env_path, run_cli, trim_whitespace, validate_tmpdir,
    CliAction, CliActionOf, GitAnswer, GitOutput, RunEnv, RunStepOf,
};
use seatbelt::cli::{Cli, Command, RunArgs};
use seatbelt::config::{
    config_path_candidates, load_invocation_config, AllowConfig, ConfigFile, ConfigRead,
    InvocationConfig, SeatbeltConfig,
};
use seatbelt::env_name::EnvName;
use seatbelt::error::{ErrorOf, FileContext, ResolveContext, SeatbeltError};
use seatbelt::paths::{CanonicalPathBuf, FsSnapshot, Halt, HaltOf, PathKind, PathProbe};
use seatbelt::profile::{
    append_allow_paths, compose_import_profile, compose_profile, resolve_profile_fragment,
    sbpl_string_literal, ProfileOf, SandboxProfile,
};
use seatbelt::sandbox_exec::{append_if_set, build_final_command, env_pair, EnvVars, SandboxContext};
use seatbelt::shell_quote::{
    is_shell_safe_byte, push_shell_octal_escape, shell_ansi_c_quote, shell_quote,
    shell_single_quote, shell_words,
};
use seatbelt::test_support::{
    canonical_path, canonicalized, env_name, must, profile_text_contains, profile_text_excludes,
};

const SANDBOX_EXEC_PATH: &str = "/usr/bin/sandbox-exec";

fn os(value: &str) -> Vec<u8> {
    value.as_bytes().to_vec()
}

type World = Vec<(&'static str, &'static str, PathKind)>;

/// What the simulated file system answers for `path`: the entry listed for
/// it, or nothing when it does not exist.
fn answer(world: &[(&'static str, &'static str, PathKind)], path: &[u8]) -> PathProbe {
    for (p, resolved, kind) in world {
        if p.as_bytes() == path {
            return PathProbe { path: path.to_vec(), resolved: Some(os(resolved)), kind: Some(*kind) };
        }
    }
    PathProbe { path: path.to_vec(), resolved: None, kind: None }
}

fn no_config(_: &[u8]) -> Option<SeatbeltConfig> {
    None
}

/// Runs one library step against the simulated file system, answering each
/// question that it asks until it is done.
fn with_world<T>(
    world: &[(&'static str, &'static str, PathKind)],
    config: &dyn Fn(&[u8]) -> Option<SeatbeltConfig>,
    mut step: impl FnMut(&FsSnapshot) -> Result<T, Halt>,
) -> Result<T, SeatbeltError> {
    let mut fs = FsSnapshot::new();
    loop {
        match step(&fs) {
            Ok(value) => return Ok(value),
            Err(HaltOf::Error(error)) => return Err(error),
            Err(HaltOf::NeedProbe(path)) => fs.record(answer(world, &path)),
            Err(HaltOf::NeedConfig(path)) => {
                let content = match config(&path) {
                    Some(parsed) => ConfigRead::Parsed(parsed),
                    None => ConfigRead::ReadFailed,
                };
                fs.record_config(ConfigFile { path, content });
            },
            Err(HaltOf::NeedGitRoot(_)) => panic!("no Git answer in this test"),
        }
    }
}

fn resolved(world: &[(&'static str, &'static str, PathKind)], path: &str) -> CanonicalPathBuf {
    let mut fs = FsSnapshot::new();
    fs.record(answer(world, path.as_bytes()));
    canonicalized(&fs, path.as_bytes(), ResolveContext::FilePath)
}

/// A temporary directory `/tmp/t` that resolves under `/private`, holding
/// the home directory `home`.
fn temp_world(extra: &[(&'static str, &'static str, PathKind)]) -> World {
    let mut world = vec![
        ("/", "/", PathKind::Directory),
        ("/tmp/t", "/private/tmp/t", PathKind::Directory),
        ("/private/tmp/t", "/private/tmp/t", PathKind::Directory),
        ("/tmp/t/home", "/private/tmp/t/home", PathKind::Directory),
        ("/private/tmp/t/home", "/private/tmp/t/home", PathKind::Directory),
    ];
    world.extend_from_slice(extra);
    world
}

fn resolve(
    world: &[(&'static str, &'static str, PathKind)],
    home: &str,
    paths: &[&str],
    access: AllowAccess,
) -> Result<Vec<ResolvedAllowPath>, SeatbeltError> {
    let paths: Vec<Vec<u8>> = paths.iter().map(|p| os(p)).collect();
    with_world(world, &no_config, |fs| resolve_allow_paths(home.as_bytes(), &paths, access, fs))
}

fn home_env() -> EnvVars {
    let mut env = EnvVars::new();
    env.insert("HOME".to_owned(), os("/Users/alice"));
    env
}

fn env_of(pairs: &[(&str, &str)]) -> EnvVars {
    let mut env = EnvVars::new();
    for (name, value) in pairs {
        env.insert((*name).to_owned(), os(value));
    }
    env
}

fn empty_env() -> EnvVars {
    EnvVars::new()
}

fn file_profile() -> SandboxProfile {
    ProfileOf::File(os("/profiles/default.sb"))
}

fn sandbox_context(profile: &SandboxProfile) -> SandboxContext<'_> {
    let users: CanonicalPathBuf = canonical_path("/Users");
    SandboxContext {
        profile,
        resolved_users_dir: users,
        resolved_home: canonical_path("/Users/alice"),
        project_dir: canonical_path("/Users/alice/project"),
        resolved_tmpdir: canonical_path("/tmp/alice"),
    }
}


#[test]
fn main_build_final_command_assembles_sandbox_env_and_command() {
    let env_source = env_of(&[
        ("USER", "alice"),
        ("SHELL", "/bin/fish"),
        ("TERM", "ansi"),
        ("LANG", "C.UTF-8"),
        ("PATH", "/usr/bin:/bin"),
        ("SSH_AUTH_SOCK", "/tmp/ssh.sock"),
        ("EDITOR", "vim"),
        ("VISUAL", "nvim"),
        ("XDG_CONFIG_HOME", "/Users/alice/.config"),
        ("XDG_DATA_HOME", "/Users/alice/.local/share"),
        ("XDG_CACHE_HOME", "/Users/alice/.cache"),
        ("XDG_RUNTIME_DIR", "/tmp/runtime"),
        ("EXTRA_TOKEN", "secret"),
    ]);

    let profile = file_profile();
    let context = sandbox_context(&profile);

    let actual = must(build_final_command(
        &context,
        &env_source,
        &[env_name("EXTRA_TOKEN")],
        &[os("echo"), os("hello world")],
    ));

    assert_eq!(
        actual,
        vec![
            os(SANDBOX_EXEC_PATH),
            os("-f"),
            os("/profiles/default.sb"),
            os("-D"),
            os("_USERS_DIR=/Users"),
            os("-D"),
            os("_HOME=/Users/alice"),
            os("-D"),
            os("_PROJECT_DIR=/Users/alice/project"),
            os("-D"),
            os("_TMPDIR=/tmp/alice"),
            os("/usr/bin/env"),
            os("-i"),
            os("HOME=/Users/alice"),
            os("USER=alice"),
            os("SHELL=/bin/fish"),
            os("TERM=ansi"),
            os("LANG=C.UTF-8"),
            os("PATH=/usr/bin:/bin"),
            os("TMPDIR=/tmp/alice"),
            os("SSH_AUTH_SOCK=/tmp/ssh.sock"),
            os("EDITOR=vim"),
            os("VISUAL=nvim"),
            os("XDG_CONFIG_HOME=/Users/alice/.config"),
            os("XDG_DATA_HOME=/Users/alice/.local/share"),
            os("XDG_CACHE_HOME=/Users/alice/.cache"),
            os("XDG_RUNTIME_DIR=/tmp/runtime"),
            os("EXTRA_TOKEN=secret"),
            os("echo"),
            os("hello world"),
        ]
    );
}

#[test]
fn main_build_final_command_uses_defaults_for_missing_base_env() {
    let env_source = empty_env();
    let profile = file_profile();
    let context = sandbox_context(&profile);

    let actual = must(build_final_command(&context, &env_source, &[], &[os("true")]));

    assert_eq!(
        actual,
        vec![
            os(SANDBOX_EXEC_PATH),
            os("-f"),
            os("/profiles/default.sb"),
            os("-D"),
            os("_USERS_DIR=/Users"),
            os("-D"),
            os("_HOME=/Users/alice"),
            os("-D"),
            os("_PROJECT_DIR=/Users/alice/project"),
            os("-D"),
            os("_TMPDIR=/tmp/alice"),
            os("/usr/bin/env"),
            os("-i"),
            os("HOME=/Users/alice"),
            os("USER="),
            os("SHELL=/bin/zsh"),
            os("TERM=xterm-256color"),
            os("LANG=en_US.UTF-8"),
            os("PATH="),
            os("TMPDIR=/tmp/alice"),
            os("true"),
        ]
    );
}

#[test]
fn main_build_final_command_uses_generated_profile_text() {
    let env_source = empty_env();
    let profile = ProfileOf::Text("(version 1)\n(import \"/profiles/base.sb\")\n".to_owned());
    let context = sandbox_context(&profile);

    let actual = must(build_final_command(&context, &env_source, &[], &[os("true")]));

    assert_eq!(
        actual,
        vec![
            os(SANDBOX_EXEC_PATH),
            os("-p"),
            os("(version 1)\n(import \"/profiles/base.sb\")\n"),
            os("-D"),
            os("_USERS_DIR=/Users"),
            os("-D"),
            os("_HOME=/Users/alice"),
            os("-D"),
            os("_PROJECT_DIR=/Users/alice/project"),
            os("-D"),
            os("_TMPDIR=/tmp/alice"),
            os("/usr/bin/env"),
            os("-i"),
            os("HOME=/Users/alice"),
            os("USER="),
            os("SHELL=/bin/zsh"),
            os("TERM=xterm-256color"),
            os("LANG=en_US.UTF-8"),
            os("PATH="),
            os("TMPDIR=/tmp/alice"),
            os("true"),
        ]
    );
}

#[test]
fn main_build_final_command_rejects_unset_allow_env_name() {
    let env_source = empty_env();

    let profile = file_profile();
    let context = sandbox_context(&profile);

    let result = build_final_command(&context, &env_source, &[env_name("TOKEN")], &[os("true")]);

    assert_eq!(
        result.err().map(|error| error.to_string()),
        Some("environment variable is not set: TOKEN".to_owned())
    );
}

#[test]
fn main_accepts_system_per_user_tmpdir() {
    let result = validate_tmpdir(b"/private/var/folders/zz/zyxvpxvq6csfxvn_n0000000000000/T");

    assert_eq!(result.map_err(|error| error.to_string()), Ok(()));
}

#[test]
fn main_rejects_global_tmpdir() {
    let result = validate_tmpdir(b"/private/tmp");

    assert_eq!(
        result.err().map(|error| error.to_string()),
        Some("TMPDIR must resolve under /private/var/folders: /private/tmp".to_owned())
    );
}

#[test]
fn main_config_path_candidates_support_yaml_and_yml_names() {
    let actual = config_path_candidates(b"/Users/alice/.config/seatbelt", b"acme");

    assert_eq!(
        actual,
        vec![
            os("/Users/alice/.config/seatbelt/acme.yaml"),
            os("/Users/alice/.config/seatbelt/acme.yml"),
        ]
    );
}

#[test]
fn main_rejects_config_and_profile_together() {
    let config = Some(os("acme"));
    let profile = Some(os("raw.sb"));
    let result = with_world(&[], &no_config, |fs| {
        load_invocation_config(b"/Users/alice", &config, &profile, &[], &[], &[], fs)
    });

    assert_eq!(
        result.err().map(|error| error.to_string()),
        Some("--profile cannot be used together with --config".to_owned())
    );
}

/// The config files under `/tmp/t/home/.config/seatbelt`, as they parse.
fn temp_configs(path: &[u8]) -> Option<SeatbeltConfig> {
    if path == b"/private/tmp/t/home/.config/seatbelt/pi.yaml" {
        // profiles:
        //   - base.sb
        // allow:
        //   read:
        //     - ~/src/pi
        Some(SeatbeltConfig {
            profiles: vec![os("base.sb")],
            allow: AllowConfig { env: vec![], read: vec![os("~/src/pi")], write: vec![] },
        })
    } else if path == b"/private/tmp/t/home/.config/seatbelt/build.yaml" {
        // profiles:
        //   - base.sb
        // allow:
        //   write:
        //     - ~/dist
        Some(SeatbeltConfig {
            profiles: vec![os("base.sb")],
            allow: AllowConfig { env: vec![], read: vec![], write: vec![os("~/dist")] },
        })
    } else {
        None
    }
}

fn config_world() -> World {
    temp_world(&[
        ("/tmp/t/home/.config/seatbelt/pi.yaml", "/private/tmp/t/home/.config/seatbelt/pi.yaml", PathKind::File),
        ("/tmp/t/home/.config/seatbelt/build.yaml", "/private/tmp/t/home/.config/seatbelt/build.yaml", PathKind::File),
        (
            "/tmp/t/home/.config/seatbelt/profiles/base.sb",
            "/private/tmp/t/home/.config/seatbelt/profiles/base.sb",
            PathKind::File,
        ),
        ("/tmp/t/home/src/pi", "/private/tmp/t/home/src/pi", PathKind::Directory),
        ("/private/tmp/t/home/src", "/private/tmp/t/home/src", PathKind::Directory),
        ("/tmp/t/obscura.json", "/private/tmp/t/obscura.json", PathKind::File),
        ("/tmp/t/home/dist", "/private/tmp/t/home/dist", PathKind::Directory),
        ("/tmp/t/output.log", "/private/tmp/t/output.log", PathKind::File),
    ])
}

fn load_config(
    world: &[(&'static str, &'static str, PathKind)],
    name: &str,
    read: &[&str],
    write: &[&str],
) -> Result<InvocationConfig, SeatbeltError> {
    let config = Some(os(name));
    let read: Vec<Vec<u8>> = read.iter().map(|p| os(p)).collect();
    let write: Vec<Vec<u8>> = write.iter().map(|p| os(p)).collect();
    with_world(world, &temp_configs, |fs| {
        load_invocation_config(b"/tmp/t/home", &config, &None, &[], &read, &write, fs)
    })
}

#[test]
fn main_load_invocation_config_combines_config_and_cli_allow_read_paths() {
    let world = config_world();
    let cli_read_file = "/tmp/t/obscura.json";

    let invocation = must(load_config(&world, "pi", &[cli_read_file], &[]));
    let expected_config_read_dir = resolved(&world, "/tmp/t/home/src/pi");
    let expected_cli_read_file = resolved(&world, cli_read_file);

    assert_eq!(invocation.allow_env, Vec::<EnvName>::new());
    assert_eq!(
        invocation.allow_read_paths,
        vec![
            AllowPathOf::Directory(expected_config_read_dir.clone()),
            AllowPathOf::File(expected_cli_read_file.clone())
        ]
    );
    assert_eq!(invocation.allow_write_paths, Vec::<ResolvedAllowPath>::new());
    assert!(profile_text_contains(
        &invocation.profile,
        &format!("(literal \"{}\")", expected_config_read_dir.display())
    ));
    assert!(profile_text_contains(
        &invocation.profile,
        &format!("(subpath \"{}\")", expected_config_read_dir.display())
    ));
    assert!(profile_text_contains(
        &invocation.profile,
        &format!("(literal \"{}\")", expected_cli_read_file.display())
    ));
    assert!(profile_text_excludes(
        &invocation.profile,
        &format!("(subpath \"{}\")", expected_cli_read_file.display())
    ));
}

#[test]
fn main_load_invocation_config_combines_config_and_cli_allow_write_paths() {
    let world = config_world();
    let cli_write_file = "/tmp/t/output.log";

    let invocation = must(load_config(&world, "build", &[], &[cli_write_file]));
    let expected_config_write_dir = resolved(&world, "/tmp/t/home/dist");
    let expected_cli_write_file = resolved(&world, cli_write_file);

    assert_eq!(invocation.allow_env, Vec::<EnvName>::new());
    assert_eq!(invocation.allow_read_paths, Vec::<ResolvedAllowPath>::new());
    assert_eq!(
        invocation.allow_write_paths,
        vec![
            AllowPathOf::Directory(expected_config_write_dir.clone()),
            AllowPathOf::File(expected_cli_write_file.clone())
        ]
    );
    assert!(profile_text_contains(
        &invocation.profile,
        "; Additional read/write paths from allow.write/--allow-write"
    ));
    assert!(profile_text_contains(&invocation.profile, "(allow file-read* file-write*"));
    assert!(profile_text_contains(
        &invocation.profile,
        &format!("(literal \"{}\")", expected_config_write_dir.display())
    ));
    assert!(profile_text_contains(
        &invocation.profile,
        &format!("(subpath \"{}\")", expected_config_write_dir.display())
    ));
    assert!(profile_text_contains(
        &invocation.profile,
        &format!("(literal \"{}\")", expected_cli_write_file.display())
    ));
    assert!(profile_text_excludes(
        &invocation.profile,
        &format!("(subpath \"{}\")", expected_cli_write_file.display())
    ));
}

#[test]
fn main_rejects_absolute_profile_entries_in_config() {
    let fs = FsSnapshot::new();
    let result = resolve_profile_fragment(b"/Users/alice/.config/seatbelt/profiles", b"/tmp/profile.sb", &fs);

    let message = match result {
        Err(HaltOf::Error(error)) => Some(error.to_string()),
        _ => None,
    };
    assert_eq!(
        message,
        Some(
            "profile entries must be relative to /Users/alice/.config/seatbelt/profiles: /tmp/profile.sb"
                .to_owned()
        )
    );
}

#[test]
fn main_compose_import_profile_appends_allow_read_paths() {
    let actual = must(compose_import_profile(
        &[os("/profiles/raw.sb")],
        &[
            AllowPathOf::Directory(canonical_path("/Users/alice/docs")),
            AllowPathOf::File(canonical_path("/Users/alice/.zshrc")),
            AllowPathOf::Directory(canonical_path("/Volumes/Shared Stuff")),
        ],
        &[],
    ));

    assert_eq!(
        actual,
        "(version 1)\n\n(import \"/profiles/raw.sb\")\n\n; Additional read-only paths from allow.read/--allow-read\n(allow file-read*\n    (literal \"/Users/alice/docs\")\n    (subpath \"/Users/alice/docs\")\n    (literal \"/Users/alice/.zshrc\")\n    (literal \"/Volumes/Shared Stuff\")\n    (subpath \"/Volumes/Shared Stuff\")\n)\n"
    );
}

#[test]
fn main_compose_import_profile_appends_allow_write_paths() {
    let actual = must(compose_import_profile(
        &[os("/profiles/raw.sb")],
        &[],
        &[
            AllowPathOf::Directory(canonical_path("/Users/alice/dist")),
            AllowPathOf::File(canonical_path("/Users/alice/output.log")),
        ],
    ));

    assert_eq!(
        actual,
        "(version 1)\n\n(import \"/profiles/raw.sb\")\n\n; Additional read/write paths from allow.write/--allow-write\n(allow file-read* file-write*\n    (literal \"/Users/alice/dist\")\n    (subpath \"/Users/alice/dist\")\n    (literal \"/Users/alice/output.log\")\n)\n"
    );
}

#[test]
fn main_compose_import_profile_escapes_allow_read_paths() {
    let actual = must(compose_import_profile(
        &[os("/profiles/raw.sb")],
        &[AllowPathOf::File(canonical_path("/Users/alice/quoted\"file"))],
        &[],
    ));

    assert_eq!(
        actual,
        "(version 1)\n\n(import \"/profiles/raw.sb\")\n\n; Additional read-only paths from allow.read/--allow-read\n(allow file-read*\n    (literal \"/Users/alice/quoted\\\"file\")\n)\n"
    );
}

#[test]
fn main_resolve_allow_paths_rejects_write_nonexistent_paths() {
    let world = temp_world(&[]);
    let missing = "/tmp/t/home/missing";

    let result = resolve(&world, "/tmp/t/home", &[missing], AllowAccess::Write);

    assert_eq!(
        result.err().map(|error| error.to_string()),
        Some(format!("failed to resolve --allow-write path: {}", missing))
    );
}

#[test]
fn main_resolve_allow_paths_rejects_write_root_directory() {
    let world = temp_world(&[]);

    let result = resolve(&world, "/tmp/t/home", &["/"], AllowAccess::Write);

    assert_eq!(
        result.err().map(|error| error.to_string()),
        Some("--allow-write directory is too broad: /".to_owned())
    );
}

#[test]
fn main_resolve_allow_paths_rejects_write_home_directory() {
    let world = temp_world(&[]);
    let expected_home = resolved(&world, "/tmp/t/home");

    let result = resolve(&world, "/tmp/t/home", &["~"], AllowAccess::Write);

    assert_eq!(
        result.err().map(|error| error.to_string()),
        Some(format!("--allow-write directory is too broad: {}", expected_home.display()))
    );
}

#[test]
fn main_resolve_allow_paths_rejects_write_home_documents_directory() {
    let world = temp_world(&[
        ("/tmp/t/home/Documents", "/private/tmp/t/home/Documents", PathKind::Directory),
        ("/private/tmp/t/home/Documents", "/private/tmp/t/home/Documents", PathKind::Directory),
    ]);
    let expected_documents = resolved(&world, "/tmp/t/home/Documents");

    let result = resolve(&world, "/tmp/t/home", &["~/Documents"], AllowAccess::Write);

    assert_eq!(
        result.err().map(|error| error.to_string()),
        Some(format!("--allow-write directory is too broad: {}", expected_documents.display()))
    );
}

#[test]
fn main_resolve_allow_paths_rejects_write_home_src_directory() {
    let world = temp_world(&[
        ("/tmp/t/home/src", "/private/tmp/t/home/src", PathKind::Directory),
        ("/private/tmp/t/home/src", "/private/tmp/t/home/src", PathKind::Directory),
    ]);
    let expected_src = resolved(&world, "/tmp/t/home/src");

    let result = resolve(&world, "/tmp/t/home", &["~/src"], AllowAccess::Write);

    assert_eq!(
        result.err().map(|error| error.to_string()),
        Some(format!("--allow-write directory is too broad: {}", expected_src.display()))
    );
}

#[test]
fn main_resolve_allow_paths_rejects_write_users_directory() {
    let world = temp_world(&[]);
    let expected_users_dir = resolved(&world, "/tmp/t");

    let result = resolve(&world, "/tmp/t/home", &["/tmp/t"], AllowAccess::Write);

    assert_eq!(
        result.err().map(|error| error.to_string()),
        Some(format!("--allow-write directory is too broad: {}", expected_users_dir.display()))
    );
}

#[test]
fn main_resolve_allow_paths_rejects_read_nonexistent_paths() {
    let world = temp_world(&[]);
    let missing = "/tmp/t/home/missing";

    let result = resolve(&world, "/tmp/t/home", &[missing], AllowAccess::Read);

    assert_eq!(
        result.err().map(|error| error.to_string()),
        Some(format!("failed to resolve --allow-read path: {}", missing))
    );
}

#[test]
fn main_resolve_allow_paths_rejects_read_root_directory() {
    let world = temp_world(&[]);

    let result = resolve(&world, "/tmp/t/home", &["/"], AllowAccess::Read);

    assert_eq!(
        result.err().map(|error| error.to_string()),
        Some("--allow-read directory is too broad: /".to_owned())
    );
}

#[test]
fn main_resolve_allow_paths_rejects_read_home_directory() {
    let world = temp_world(&[]);
    let expected_home = resolved(&world, "/tmp/t/home");

    let result = resolve(&world, "/tmp/t/home", &["~"], AllowAccess::Read);

    assert_eq!(
        result.err().map(|error| error.to_string()),
        Some(format!("--allow-read directory is too broad: {}", expected_home.display()))
    );
}

#[test]
fn main_resolve_allow_paths_rejects_read_home_documents_directory() {
    let world = temp_world(&[
        ("/tmp/t/home/Documents", "/private/tmp/t/home/Documents", PathKind::Directory),
        ("/private/tmp/t/home/Documents", "/private/tmp/t/home/Documents", PathKind::Directory),
    ]);
    let expected_documents = resolved(&world, "/tmp/t/home/Documents");

    let result = resolve(&world, "/tmp/t/home", &["~/Documents"], AllowAccess::Read);

    assert_eq!(
        result.err().map(|error| error.to_string()),
        Some(format!("--allow-read directory is too broad: {}", expected_documents.display()))
    );
}

#[test]
fn main_resolve_allow_paths_rejects_read_home_src_directory() {
    let world = temp_world(&[
        ("/tmp/t/home/src", "/private/tmp/t/home/src", PathKind::Directory),
        ("/private/tmp/t/home/src", "/private/tmp/t/home/src", PathKind::Directory),
    ]);
    let expected_src = resolved(&world, "/tmp/t/home/src");

    let result = resolve(&world, "/tmp/t/home", &["~/src"], AllowAccess::Read);

    assert_eq!(
        result.err().map(|error| error.to_string()),
        Some(format!("--allow-read directory is too broad: {}", expected_src.display()))
    );
}

#[test]
fn main_resolve_allow_paths_rejects_read_users_directory() {
    let world = temp_world(&[]);
    let expected_users_dir = resolved(&world, "/tmp/t");

    let result = resolve(&world, "/tmp/t/home", &["/tmp/t"], AllowAccess::Read);

    assert_eq!(
        result.err().map(|error| error.to_string()),
        Some(format!("--allow-read directory is too broad: {}", expected_users_dir.display()))
    );
}

#[test]
fn main_project_dir_redundancy_warnings_report_read_and_write_paths() {
    let project_dir = b"/Users/alice/project";

    let read_warnings = project_dir_redundancy_warnings(
        AllowAccess::Read,
        &[AllowPathOf::Directory(canonical_path("/Users/alice/project"))],
        project_dir,
    );
    let write_warnings = project_dir_redundancy_warnings(
        AllowAccess::Write,
        &[AllowPathOf::File(canonical_path("/Users/alice/project/output.log"))],
        project_dir,
    );

    assert_eq!(
        read_warnings,
        vec![
            "warning: allow.read/--allow-read /Users/alice/project is already covered by $PROJECT_DIR"
                .to_owned()
        ]
    );
    assert_eq!(
        write_warnings,
        vec![
            "warning: allow.write/--allow-write /Users/alice/project/output.log is already covered by $PROJECT_DIR"
                .to_owned()
        ]
    );
}

/// A checkout at `/Users/alice/work/seatbelt`, the current directory, with
/// `src` and `Cargo.toml` in it.
fn checkout_world() -> World {
    vec![
        ("/", "/", PathKind::Directory),
        ("/Users", "/Users", PathKind::Directory),
        ("/Users/alice", "/Users/alice", PathKind::Directory),
        ("src", "/Users/alice/work/seatbelt/src", PathKind::Directory),
        ("Cargo.toml", "/Users/alice/work/seatbelt/Cargo.toml", PathKind::File),
    ]
}

#[test]
fn main_resolve_allow_paths_resolves_read_relative_directories() {
    let world = checkout_world();
    let home = must(required_env_path(&home_env(), "HOME"));
    let expected = resolved(&world, "src");

    let actual = must(resolve(&world, std::str::from_utf8(&home).expect("UTF-8"), &["src"], AllowAccess::Read));

    assert_eq!(actual, vec![AllowPathOf::Directory(expected)]);
}

#[test]
fn main_resolve_allow_paths_resolves_read_files() {
    let world = checkout_world();
    let home = must(required_env_path(&home_env(), "HOME"));
    let expected = resolved(&world, "Cargo.toml");

    let actual = must(resolve(&world, std::str::from_utf8(&home).expect("UTF-8"), &["Cargo.toml"], AllowAccess::Read));

    assert_eq!(actual, vec![AllowPathOf::File(expected)]);
}

#[test]
fn main_shell_words_preserves_non_ascii_arguments() {
    let command = [os("echo"), os("café")];

    let actual = shell_words(&command);

    assert_eq!(actual, "echo 'café'");
}

#[test]
fn main_shell_words_escapes_non_utf8_arguments_without_replacement() {
    let command = [os("echo"), vec![b'f', b'o', b'o', 0xff, b'b', b'a', b'r']];

    let actual = shell_words(&command);

    assert_eq!(actual, "echo $'foo\\377bar'");
}

