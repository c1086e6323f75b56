//! Choosing the sandbox profile and the extra permissions of one invocation,
//! from the command line and the YAML configuration.
use vstd::prelude::*;
use vstd::slice::slice_to_vec;
use vstd::string::*;

use crate::allow_paths::{
    broad_directory_set, lemma_granted_paths_exist_and_are_not_broad, overly_broad,
    resolve_allow_paths, resolved_allow_paths, AllowAccess, AllowPathView, ResolvedAllowPath,
};
use crate::env_name::EnvName;
use crate::error::{ErrorOf, FileContext, ResolveContext};
use crate::paths::{
    canonicalize, canonicalize_existing_file, existing_file, fail, is_kind, path_result,
    FsSnapshot, Halt, HaltOf, HaltView, PathKind,
};
use crate::profile::{
    allow_block, allow_views, append_allow_paths, compose_import_profile, compose_profile,
    composed_profile, config_profile, import_lines, ProfileOf, ProfileView, SandboxProfile,
};
use crate::text::{ascii_bytes, char_bytes};
use crate::unix_path::{has_ext, has_extension, has_root, is_absolute, join, joined, with_ext, with_extension};

verus! {

broadcast use vstd::string::group_string_axioms;

/// The `allow` section of a config file.
#[derive(Debug)]
pub struct AllowConfig {
    pub env: Vec<EnvName>,
    pub read: Vec<Vec<u8>>,
    pub write: Vec<Vec<u8>>,
}

/// A parsed config file.
#[derive(Debug)]
pub struct SeatbeltConfig {
    pub profiles: Vec<Vec<u8>>,
    pub allow: AllowConfig,
}

/// What reading a config file gave.
#[derive(Debug)]
pub enum ConfigRead {
    Parsed(SeatbeltConfig),
    ReadFailed,
    ParseFailed,
}

/// A config file and what reading it gave.
#[derive(Debug)]
pub struct ConfigFile {
    pub path: Vec<u8>,
    pub content: ConfigRead,
}

/// Everything one invocation runs with.
#[derive(Debug)]
pub struct InvocationConfig {
    pub allow_env: Vec<EnvName>,
    pub profile: SandboxProfile,
    pub allow_read_paths: Vec<ResolvedAllowPath>,
    pub allow_write_paths: Vec<ResolvedAllowPath>,
}

/// An invocation as a mathematical value.
pub struct InvocationView {
    pub allow_env: Seq<Seq<char>>,
    pub profile: ProfileView,
    pub allow_read_paths: Seq<AllowPathView>,
    pub allow_write_paths: Seq<AllowPathView>,
}

pub open spec fn env_views(s: Seq<EnvName>) -> Seq<Seq<char>> {
    s.map_values(|e: EnvName| e@)
}

pub open spec fn byte_views(s: Seq<Vec<u8>>) -> Seq<Seq<u8>> {
    s.map_values(|p: Vec<u8>| p@)
}

impl DeepView for InvocationConfig {
    type V = InvocationView;

    open spec fn deep_view(&self) -> InvocationView {
        InvocationView {
            allow_env: env_views(self.allow_env@),
            profile: self.profile.deep_view(),
            allow_read_paths: allow_views(self.allow_read_paths@),
            allow_write_paths: allow_views(self.allow_write_paths@),
        }
    }
}

pub open spec fn default_config_suffix() -> Seq<u8> {
    char_bytes(".config/seatbelt/default.yaml"@)
}

pub open spec fn configs_suffix() -> Seq<u8> {
    char_bytes(".config/seatbelt"@)
}

pub open spec fn profiles_suffix() -> Seq<u8> {
    char_bytes(".config/seatbelt/profiles"@)
}

/// The files that a config name may stand for in `config_dir`: the name as
/// given when it has an extension, else the name with `.yaml` and with
/// `.yml`.
pub open spec fn config_candidates(config_dir: Seq<u8>, config_arg: Seq<u8>) -> Seq<Seq<u8>> {
    if has_ext(config_arg) {
        seq![joined(config_dir, config_arg)]
    } else {
        seq![
            with_ext(joined(config_dir, config_arg), char_bytes("yaml"@)),
            with_ext(joined(config_dir, config_arg), char_bytes("yml"@)),
        ]
    }
}

/// The first of `cs` that is a file, if any.
pub open spec fn first_file(fs: FsSnapshot, cs: Seq<Seq<u8>>) -> Result<Option<Seq<u8>>, HaltView>
    decreases cs.len(),
{
    if cs.len() == 0 {
        Ok(None)
    } else {
        match first_file(fs, cs.drop_last()) {
            Err(h) => Err(h),
            Ok(Some(c)) => Ok(Some(c)),
            Ok(None) => match fs.is_kind(cs.last(), PathKind::File) {
                Err(h) => Err(h),
                Ok(true) => Ok(Some(cs.last())),
                Ok(false) => Ok(None),
            },
        }
    }
}

/// The config file that `--config` names: the argument itself when it is a
/// file; else, for a relative argument, the first candidate under
/// `~/.config/seatbelt` that is a file.
pub open spec fn config_location(fs: FsSnapshot, home: Seq<u8>, config_arg: Seq<u8>) -> Result<
    Seq<u8>,
    HaltView,
> {
    match fs.is_kind(config_arg, PathKind::File) {
        Err(h) => Err(h),
        Ok(true) => fs.canonical(config_arg, ResolveContext::ConfigPath),
        Ok(false) => if has_root(config_arg) {
            Err(fail(ErrorOf::ConfigNotFound(config_arg)))
        } else {
            let cands = config_candidates(joined(home, configs_suffix()), config_arg);
            match first_file(fs, cands) {
                Err(h) => Err(h),
                Ok(Some(c)) => fs.canonical(c, ResolveContext::ConfigPath),
                Ok(None) => Err(fail(ErrorOf::ConfigNotFoundChecked(config_arg, cands))),
            }
        },
    }
}

/// The invocation for an explicit `--profile`: the profile file as it is
/// when no extra path is granted, else a profile that imports it and grants
/// the paths.
pub open spec fn invocation_from_profile(
    fs: FsSnapshot,
    home: Seq<u8>,
    profile_arg: Seq<u8>,
    cli_env: Seq<Seq<char>>,
    cli_read: Seq<Seq<u8>>,
    cli_write: Seq<Seq<u8>>,
) -> Result<InvocationView, HaltView> {
    match existing_file(fs, profile_arg, FileContext::SandboxProfile) {
        Err(h) => Err(h),
        Ok(profile) => match resolved_allow_paths(fs, home, cli_read, AllowAccess::Read) {
            Err(h) => Err(h),
            Ok(read) => match resolved_allow_paths(fs, home, cli_write, AllowAccess::Write) {
                Err(h) => Err(h),
                Ok(write) => if read.len() == 0 && write.len() == 0 {
                    Ok(
                        InvocationView {
                            allow_env: cli_env,
                            profile: ProfileOf::File(profile),
                            allow_read_paths: read,
                            allow_write_paths: write,
                        },
                    )
                } else {
                    match composed_profile(seq![profile], read, write) {
                        Err(e) => Err(fail(e)),
                        Ok(t) => Ok(
                            InvocationView {
                                allow_env: cli_env,
                                profile: ProfileOf::Text(t),
                                allow_read_paths: read,
                                allow_write_paths: write,
                            },
                        ),
                    }
                },
            },
        },
    }
}

/// The invocation for a config file: its entries come first, then those of
/// the command line; the profile imports the config's profiles and grants
/// the read and then the write paths.
pub open spec fn invocation_from_config(
    fs: FsSnapshot,
    home: Seq<u8>,
    config: SeatbeltConfig,
    cli_env: Seq<Seq<char>>,
    cli_read: Seq<Seq<u8>>,
    cli_write: Seq<Seq<u8>>,
) -> Result<InvocationView, HaltView> {
    let env = env_views(config.allow.env@) + cli_env;
    let read_paths = byte_views(config.allow.read@) + cli_read;
    let write_paths = byte_views(config.allow.write@) + cli_write;
    match resolved_allow_paths(fs, home, read_paths, AllowAccess::Read) {
        Err(h) => Err(h),
        Ok(read) => match resolved_allow_paths(fs, home, write_paths, AllowAccess::Write) {
            Err(h) => Err(h),
            Ok(write) => match config_profile(
                fs,
                joined(home, profiles_suffix()),
                byte_views(config.profiles@),
            ) {
                Err(h) => Err(h),
                Ok(t) => match allow_block(read, AllowAccess::Read) {
                    Err(e) => Err(fail(e)),
                    Ok(rb) => match allow_block(write, AllowAccess::Write) {
                        Err(e) => Err(fail(e)),
                        Ok(wb) => Ok(
                            InvocationView {
                                allow_env: env,
                                profile: ProfileOf::Text(t + rb + wb),
                                allow_read_paths: read,
                                allow_write_paths: write,
                            },
                        ),
                    },
                },
            },
        },
    }
}

/// The invocation of one run: `--profile` and `--config` exclude each other;
/// without `--profile` the config file is the one `--config` names, or
/// `~/.config/seatbelt/default.yaml`.
pub open spec fn invocation(
    fs: FsSnapshot,
    home: Seq<u8>,
    config_arg: Option<Seq<u8>>,
    profile_arg: Option<Seq<u8>>,
    cli_env: Seq<Seq<char>>,
    cli_read: Seq<Seq<u8>>,
    cli_write: Seq<Seq<u8>>,
) -> Result<InvocationView, HaltView> {
    if config_arg is Some && profile_arg is Some {
        Err(fail(ErrorOf::ProfileWithConfig))
    } else if profile_arg is Some {
        invocation_from_profile(fs, home, profile_arg->0, cli_env, cli_read, cli_write)
    } else {
        let location = match config_arg {
            Some(arg) => config_location(fs, home, arg),
            None => existing_file(
                fs,
                joined(home, default_config_suffix()),
                FileContext::DefaultConfig,
            ),
        };
        match location {
            Err(h) => Err(h),
            Ok(path) => match fs.config_file(path) {
                None => Err(HaltOf::NeedConfig(path)),
                Some(file) => match file.content {
                    ConfigRead::ReadFailed => Err(fail(ErrorOf::ConfigReadFailed(path))),
                    ConfigRead::ParseFailed => Err(fail(ErrorOf::ConfigParseFailed(path))),
                    ConfigRead::Parsed(config) => invocation_from_config(
                        fs,
                        home,
                        config,
                        cli_env,
                        cli_read,
                        cli_write,
                    ),
                },
            },
        }
    }
}

pub open spec fn opt_view(o: Option<Vec<u8>>) -> Option<Seq<u8>> {
    match o {
        Some(v) => Some(v@),
        None => None,
    }
}

/// The candidate config files for `config_arg` in `config_dir`.
pub fn config_path_candidates(config_dir: &[u8], config_arg: &[u8]) -> (r: Vec<Vec<u8>>)
    ensures
        byte_views(r@) == config_candidates(config_dir@, config_arg@),
{
    let mut r: Vec<Vec<u8>> = Vec::new();
    let joined_path = join(config_dir, config_arg);
    if has_extension(config_arg) {
        r.push(joined_path);
        assert(byte_views(r@) =~= seq![joined(config_dir@, config_arg@)]);
        return r;
    }
    let yaml = ascii_bytes("yaml");
    let yml = ascii_bytes("yml");
    r.push(with_extension(joined_path.as_slice(), yaml.as_slice()));
    r.push(with_extension(joined_path.as_slice(), yml.as_slice()));
    assert(byte_views(r@) =~= config_candidates(config_dir@, config_arg@));
    r
}

proof fn lemma_first_file_stop(fs: FsSnapshot, s: Seq<Seq<u8>>, k: int)
    requires
        0 <= k <= s.len(),
        !(first_file(fs, s.take(k)) matches Ok(None)),
    ensures
        first_file(fs, s) == first_file(fs, s.take(k)),
    decreases s.len() - k,
{
    if k < s.len() {
        assert(s.drop_last().take(k) == s.take(k));
        lemma_first_file_stop(fs, s.drop_last(), k);
    } else {
        assert(s.take(k) == s);
    }
}

/// Finds the config file that `--config` names.
pub fn resolve_config_path(home: &[u8], config_arg: &[u8], fs: &FsSnapshot) -> (r: Result<
    Vec<u8>,
    Halt,
>)
    ensures
        path_result(r) == config_location(*fs, home@, config_arg@),
{
    if is_kind(fs, config_arg, PathKind::File)? {
        return canonicalize(fs, config_arg, ResolveContext::ConfigPath);
    }
    if is_absolute(config_arg) {
        return Err(HaltOf::Error(ErrorOf::ConfigNotFound(slice_to_vec(config_arg))));
    }
    let suffix = ascii_bytes(".config/seatbelt");
    let config_dir = join(home, suffix.as_slice());
    let candidates = config_path_candidates(config_dir.as_slice(), config_arg);
    let ghost cands = byte_views(candidates@);
    let mut i: usize = 0;
    assert(cands.take(0) == Seq::<Seq<u8>>::empty());
    while i < candidates.len()
        invariant
            i <= candidates@.len(),
            cands == byte_views(candidates@),
            cands == config_candidates(joined(home@, configs_suffix()), config_arg@),
            fs.is_kind(config_arg@, PathKind::File) == Ok::<bool, HaltView>(false),
            !has_root(config_arg@),
            first_file(*fs, cands.take(i as int)) == Ok::<Option<Seq<u8>>, HaltView>(None),
        decreases candidates.len() - i,
    {
        proof {
            assert(cands.take(i + 1).drop_last() == cands.take(i as int));
            assert(cands.take(i + 1).last() == candidates@[i as int]@);
        }
        let found = match is_kind(fs, candidates[i].as_slice(), PathKind::File) {
            Ok(found) => found,
            Err(h) => {
                proof {
                    lemma_first_file_stop(*fs, cands, i + 1);
                }
                return Err(h);
            },
        };
        if found {
            proof {
                lemma_first_file_stop(*fs, cands, i + 1);
            }
            return canonicalize(fs, candidates[i].as_slice(), ResolveContext::ConfigPath);
        }
        i = i + 1;
    }
    assert(cands.take(candidates@.len() as int) == cands);
    Err(HaltOf::Error(ErrorOf::ConfigNotFoundChecked(slice_to_vec(config_arg), candidates)))
}

/// Appends copies of the paths of `src` to `v`.
fn extend_paths(v: &mut Vec<Vec<u8>>, src: &[Vec<u8>])
    ensures
        byte_views(final(v)@) == byte_views(old(v)@) + byte_views(src@),
{
    let ghost start = byte_views(v@);
    let mut i: usize = 0;
    while i < src.len()
        invariant
            i <= src@.len(),
            byte_views(v@) == start + byte_views(src@).take(i as int),
        decreases src.len() - i,
    {
        let ghost before = v@;
        v.push(slice_to_vec(src[i].as_slice()));
        assert(byte_views(v@) == byte_views(before).push(src@[i as int]@));
        assert(byte_views(src@).take(i + 1) == byte_views(src@).take(i as int).push(
            src@[i as int]@,
        ));
        i = i + 1;
    }
    assert(byte_views(src@).take(src@.len() as int) == byte_views(src@));
}

/// Appends copies of the names of `src` to `v`.
fn extend_env_names(v: &mut Vec<EnvName>, src: &[EnvName])
    ensures
        env_views(final(v)@) == env_views(old(v)@) + env_views(src@),
{
    let ghost start = env_views(v@);
    let mut i: usize = 0;
    while i < src.len()
        invariant
            i <= src@.len(),
            env_views(v@) == start + env_views(src@).take(i as int),
        decreases src.len() - i,
    {
        let ghost before = v@;
        v.push(src[i].clone());
        assert(env_views(v@) == env_views(before).push(src@[i as int]@));
        assert(env_views(src@).take(i + 1) == env_views(src@).take(i as int).push(
            src@[i as int]@,
        ));
        i = i + 1;
    }
    assert(env_views(src@).take(src@.len() as int) == env_views(src@));
}

pub open spec fn invocation_result(r: Result<InvocationConfig, Halt>) -> Result<
    InvocationView,
    HaltView,
> {
    match r {
        Ok(c) => Ok(c.deep_view()),
        Err(h) => Err(h@),
    }
}

fn load_from_profile(
    home: &[u8],
    profile_arg: &[u8],
    cli_allow_env: &[EnvName],
    cli_allow_read: &[Vec<u8>],
    cli_allow_write: &[Vec<u8>],
    fs: &FsSnapshot,
) -> (r: Result<InvocationConfig, Halt>)
    ensures
        invocation_result(r) == invocation_from_profile(
            *fs,
            home@,
            profile_arg@,
            env_views(cli_allow_env@),
            byte_views(cli_allow_read@),
            byte_views(cli_allow_write@),
        ),
{
    let profile = canonicalize_existing_file(fs, profile_arg, FileContext::SandboxProfile)?;
    let allow_read_paths = resolve_allow_paths(home, cli_allow_read, AllowAccess::Read, fs)?;
    let allow_write_paths = resolve_allow_paths(home, cli_allow_write, AllowAccess::Write, fs)?;
    let mut allow_env: Vec<EnvName> = Vec::new();
    extend_env_names(&mut allow_env, cli_allow_env);
    assert(env_views(allow_env@) =~= env_views(cli_allow_env@));
    if allow_read_paths.len() == 0 && allow_write_paths.len() == 0 {
        return Ok(
            InvocationConfig {
                allow_env,
                profile: ProfileOf::File(profile),
                allow_read_paths,
                allow_write_paths,
            },
        );
    }
    let ghost profile_view = profile@;
    let mut imports: Vec<Vec<u8>> = Vec::new();
    imports.push(profile);
    assert(byte_views(imports@) =~= seq![profile_view]);
    let text = match compose_import_profile(
        imports.as_slice(),
        allow_read_paths.as_slice(),
        allow_write_paths.as_slice(),
    ) {
        Ok(text) => text,
        Err(e) => {
            return Err(HaltOf::Error(e));
        },
    };
    Ok(
        InvocationConfig {
            allow_env,
            profile: ProfileOf::Text(text),
            allow_read_paths,
            allow_write_paths,
        },
    )
}

fn load_from_config(
    home: &[u8],
    config: &SeatbeltConfig,
    cli_allow_env: &[EnvName],
    cli_allow_read: &[Vec<u8>],
    cli_allow_write: &[Vec<u8>],
    fs: &FsSnapshot,
) -> (r: Result<InvocationConfig, Halt>)
    ensures
        invocation_result(r) == invocation_from_config(
            *fs,
            home@,
            *config,
            env_views(cli_allow_env@),
            byte_views(cli_allow_read@),
            byte_views(cli_allow_write@),
        ),
{
    let mut allow_env: Vec<EnvName> = Vec::new();
    extend_env_names(&mut allow_env, config.allow.env.as_slice());
    extend_env_names(&mut allow_env, cli_allow_env);
    assert(env_views(allow_env@) =~= env_views(config.allow.env@) + env_views(cli_allow_env@));
    let mut read_paths: Vec<Vec<u8>> = Vec::new();
    extend_paths(&mut read_paths, config.allow.read.as_slice());
    extend_paths(&mut read_paths, cli_allow_read);
    assert(byte_views(read_paths@) =~= byte_views(config.allow.read@) + byte_views(
        cli_allow_read@,
    ));
    let allow_read_paths = resolve_allow_paths(home, read_paths.as_slice(), AllowAccess::Read, fs)?;
    let mut write_paths: Vec<Vec<u8>> = Vec::new();
    extend_paths(&mut write_paths, config.allow.write.as_slice());
    extend_paths(&mut write_paths, cli_allow_write);
    assert(byte_views(write_paths@) =~= byte_views(config.allow.write@) + byte_views(
        cli_allow_write@,
    ));
    let allow_write_paths = resolve_allow_paths(
        home,
        write_paths.as_slice(),
        AllowAccess::Write,
        fs,
    )?;
    let suffix = ascii_bytes(".config/seatbelt/profiles");
    let profile_root = join(home, suffix.as_slice());
    let mut profile_text = compose_profile(
        profile_root.as_slice(),
        config.profiles.as_slice(),
        fs,
    )?;
    match append_allow_paths(&mut profile_text, allow_read_paths.as_slice(), AllowAccess::Read) {
        Ok(()) => {},
        Err(e) => {
            return Err(HaltOf::Error(e));
        },
    }
    match append_allow_paths(&mut profile_text, allow_write_paths.as_slice(), AllowAccess::Write) {
        Ok(()) => {},
        Err(e) => {
            return Err(HaltOf::Error(e));
        },
    }
    Ok(
        InvocationConfig {
            allow_env,
            profile: ProfileOf::Text(profile_text),
            allow_read_paths,
            allow_write_paths,
        },
    )
}

/// Decides the profile, the environment variables and the extra paths of an
/// invocation from the command line, the config file and the file system.
/// Where the snapshot `fs` lacks an answer that the decision needs, the
/// result names the path to look at (`NeedProbe`) or the config file to read
/// (`NeedConfig`).
pub fn load_invocation_config(
    home: &[u8],
    config_arg: &Option<Vec<u8>>,
    profile_arg: &Option<Vec<u8>>,
    cli_allow_env: &[EnvName],
    cli_allow_read: &[Vec<u8>],
    cli_allow_write: &[Vec<u8>],
    fs: &FsSnapshot,
) -> (r: Result<InvocationConfig, Halt>)
    ensures
        invocation_result(r) == invocation(
            *fs,
            home@,
            opt_view(*config_arg),
            opt_view(*profile_arg),
            env_views(cli_allow_env@),
            byte_views(cli_allow_read@),
            byte_views(cli_allow_write@),
        ),
{
    if config_arg.is_some() && profile_arg.is_some() {
        return Err(HaltOf::Error(ErrorOf::ProfileWithConfig));
    }
    if let Some(profile) = profile_arg {
        return load_from_profile(
            home,
            profile.as_slice(),
            cli_allow_env,
            cli_allow_read,
            cli_allow_write,
            fs,
        );
    }
    let config_path = match config_arg {
        Some(arg) => resolve_config_path(home, arg.as_slice(), fs)?,
        None => {
            let suffix = ascii_bytes(".config/seatbelt/default.yaml");
            let default_path = join(home, suffix.as_slice());
            canonicalize_existing_file(fs, default_path.as_slice(), FileContext::DefaultConfig)?
        },
    };
    match fs.lookup_config(config_path.as_slice()) {
        None => Err(HaltOf::NeedConfig(config_path)),
        Some(file) => match &file.content {
            ConfigRead::ReadFailed => Err(HaltOf::Error(ErrorOf::ConfigReadFailed(config_path))),
            ConfigRead::ParseFailed => Err(HaltOf::Error(ErrorOf::ConfigParseFailed(config_path))),
            ConfigRead::Parsed(config) => load_from_config(
                home,
                config,
                cli_allow_env,
                cli_allow_read,
                cli_allow_write,
                fs,
            ),
        },
    }
}


/// The granted paths of an invocation are not too broad.
pub open spec fn narrow_grants(fs: FsSnapshot, home: Seq<u8>, ps: Seq<AllowPathView>) -> bool {
    ps.len() > 0 ==> {
        &&& broad_directory_set(fs, home) is Ok
        &&& forall|i: int|
            0 <= i < ps.len() && (#[trigger] ps[i]).is_directory() ==> !overly_broad(
                ps[i].spec_path(),
                broad_directory_set(fs, home)->Ok_0,
            )
    }
}

/// The profile grants the read paths and then the write paths: an explicit
/// profile file is kept as it is only when no path is granted, and a
/// generated profile ends with the rule for the read paths and then the
/// rule for the write paths.
pub open spec fn profile_grants(inv: InvocationView) -> bool {
    match inv.profile {
        ProfileOf::File(_) => inv.allow_read_paths.len() == 0 && inv.allow_write_paths.len() == 0,
        ProfileOf::Text(t) => {
            &&& allow_block(inv.allow_read_paths, AllowAccess::Read) is Ok
            &&& allow_block(inv.allow_write_paths, AllowAccess::Write) is Ok
            &&& {
                let rules = allow_block(inv.allow_read_paths, AllowAccess::Read)->Ok_0 + allow_block(
                    inv.allow_write_paths,
                    AllowAccess::Write,
                )->Ok_0;
                t.len() >= rules.len() && t.skip(t.len() - rules.len()) == rules
            }
        },
    }
}

/// Whatever invocation is decided grants no directory that is too broad,
/// runs with a profile that grants exactly its read and write paths, and
/// passes the variables named on the command line last, after those of the
/// config (with `--profile`, only those of the command line).
pub proof fn lemma_invocation_grants(
    fs: FsSnapshot,
    home: Seq<u8>,
    config_arg: Option<Seq<u8>>,
    profile_arg: Option<Seq<u8>>,
    cli_env: Seq<Seq<char>>,
    cli_read: Seq<Seq<u8>>,
    cli_write: Seq<Seq<u8>>,
)
    requires
        invocation(fs, home, config_arg, profile_arg, cli_env, cli_read, cli_write) is Ok,
    ensures
        ({
            let inv = invocation(fs, home, config_arg, profile_arg, cli_env, cli_read, cli_write)->Ok_0;
            &&& narrow_grants(fs, home, inv.allow_read_paths)
            &&& narrow_grants(fs, home, inv.allow_write_paths)
            &&& profile_grants(inv)
            &&& inv.allow_env.len() >= cli_env.len()
            &&& inv.allow_env.skip(inv.allow_env.len() - cli_env.len()) == cli_env
            &&& profile_arg is Some ==> inv.allow_env == cli_env
        }),
{
    let inv = invocation(fs, home, config_arg, profile_arg, cli_env, cli_read, cli_write)->Ok_0;
    if profile_arg is Some {
        let p = profile_arg->0;
        lemma_granted_paths_exist_and_are_not_broad(fs, home, cli_read, AllowAccess::Read);
        lemma_granted_paths_exist_and_are_not_broad(fs, home, cli_write, AllowAccess::Write);
        let read = inv.allow_read_paths;
        let write = inv.allow_write_paths;
        if !(read.len() == 0 && write.len() == 0) {
            let profile = existing_file(fs, p, FileContext::SandboxProfile)->Ok_0;
            let imports = import_lines(seq![profile])->Ok_0;
            let rb = allow_block(read, AllowAccess::Read)->Ok_0;
            let wb = allow_block(write, AllowAccess::Write)->Ok_0;
            let t = "(version 1)\n\n"@ + imports + rb + wb;
            assert(inv.profile == ProfileOf::<Seq<u8>, Seq<char>>::Text(t));
            assert(t.skip(t.len() - (rb + wb).len()) =~= rb + wb);
        }
        assert(inv.allow_env.skip(0) == inv.allow_env);
    } else {
        let location = match config_arg {
            Some(arg) => config_location(fs, home, arg),
            None => existing_file(
                fs,
                joined(home, default_config_suffix()),
                FileContext::DefaultConfig,
            ),
        };
        let path = location->Ok_0;
        let config = fs.config_file(path)->0.content->Parsed_0;
        let read_paths = byte_views(config.allow.read@) + cli_read;
        let write_paths = byte_views(config.allow.write@) + cli_write;
        lemma_granted_paths_exist_and_are_not_broad(fs, home, read_paths, AllowAccess::Read);
        lemma_granted_paths_exist_and_are_not_broad(fs, home, write_paths, AllowAccess::Write);
        let rb = allow_block(inv.allow_read_paths, AllowAccess::Read)->Ok_0;
        let wb = allow_block(inv.allow_write_paths, AllowAccess::Write)->Ok_0;
        let base = config_profile(fs, joined(home, profiles_suffix()), byte_views(config.profiles@))->Ok_0;
        assert(inv.profile == ProfileOf::<Seq<u8>, Seq<char>>::Text(base + rb + wb));
        assert((base + rb + wb).skip((base + rb + wb).len() - (rb + wb).len()) =~= rb + wb);
        let env = env_views(config.allow.env@) + cli_env;
        assert(inv.allow_env == env);
        assert(env.skip(env.len() - cli_env.len()) =~= cli_env);
    }
}


/// `--config` names its file directly whenever that is an existing file,
/// absolute or relative: the result is that file, resolved. Only an
/// argument that is not a file is looked up further: an absolute one is
/// then not found, and a relative one is tried as `NAME.yaml` and then
/// `NAME.yml` (or as given, with an extension) under `~/.config/seatbelt`.
pub proof fn lemma_config_location_takes_an_existing_file(
    fs: FsSnapshot,
    home: Seq<u8>,
    config_arg: Seq<u8>,
)
    ensures
        fs.is_kind(config_arg, PathKind::File) == Ok::<bool, HaltView>(true) ==> config_location(
            fs,
            home,
            config_arg,
        ) == fs.canonical(config_arg, ResolveContext::ConfigPath),
        fs.is_kind(config_arg, PathKind::File) == Ok::<bool, HaltView>(false) && has_root(config_arg)
            ==> config_location(fs, home, config_arg) == Err::<Seq<u8>, HaltView>(
            fail(ErrorOf::ConfigNotFound(config_arg)),
        ),
        fs.is_kind(config_arg, PathKind::File) == Ok::<bool, HaltView>(false) && !has_root(
            config_arg,
        ) ==> config_location(fs, home, config_arg) == match first_file(
            fs,
            config_candidates(joined(home, configs_suffix()), config_arg),
        ) {
            Err(h) => Err(h),
            Ok(Some(c)) => fs.canonical(c, ResolveContext::ConfigPath),
            Ok(None) => Err(
                fail(
                    ErrorOf::ConfigNotFoundChecked(
                        config_arg,
                        config_candidates(joined(home, configs_suffix()), config_arg),
                    ),
                ),
            ),
        },
{
}

/// The extra paths of an invocation are exactly the requested ones,
/// resolved in order, none dropped: with `--profile` those of the command
/// line; with a config, the config's followed by the command line's. The
/// variables passed are likewise the config's (if any) and then the
/// command line's.
pub proof fn lemma_invocation_keeps_every_requested_path(
    fs: FsSnapshot,
    home: Seq<u8>,
    config_arg: Option<Seq<u8>>,
    profile_arg: Option<Seq<u8>>,
    cli_env: Seq<Seq<char>>,
    cli_read: Seq<Seq<u8>>,
    cli_write: Seq<Seq<u8>>,
)
    requires
        invocation(fs, home, config_arg, profile_arg, cli_env, cli_read, cli_write) is Ok,
    ensures
        ({
            let inv = invocation(fs, home, config_arg, profile_arg, cli_env, cli_read, cli_write)->Ok_0;
            &&& profile_arg is Some ==> {
                &&& resolved_allow_paths(fs, home, cli_read, AllowAccess::Read) == Ok::<
                    Seq<AllowPathView>,
                    HaltView,
                >(inv.allow_read_paths)
                &&& resolved_allow_paths(fs, home, cli_write, AllowAccess::Write) == Ok::<
                    Seq<AllowPathView>,
                    HaltView,
                >(inv.allow_write_paths)
                &&& inv.allow_read_paths.len() == cli_read.len()
                &&& inv.allow_write_paths.len() == cli_write.len()
                &&& inv.allow_env == cli_env
            }
            &&& profile_arg is None ==> exists|c: SeatbeltConfig|
                #![trigger c.allow]
                {
                    &&& resolved_allow_paths(
                        fs,
                        home,
                        byte_views(c.allow.read@) + cli_read,
                        AllowAccess::Read,
                    ) == Ok::<Seq<AllowPathView>, HaltView>(inv.allow_read_paths)
                    &&& resolved_allow_paths(
                        fs,
                        home,
                        byte_views(c.allow.write@) + cli_write,
                        AllowAccess::Write,
                    ) == Ok::<Seq<AllowPathView>, HaltView>(inv.allow_write_paths)
                    &&& inv.allow_read_paths.len() == c.allow.read@.len() + cli_read.len()
                    &&& inv.allow_write_paths.len() == c.allow.write@.len() + cli_write.len()
                    &&& inv.allow_env == env_views(c.allow.env@) + cli_env
                }
        }),
{
    let inv = invocation(fs, home, config_arg, profile_arg, cli_env, cli_read, cli_write)->Ok_0;
    if profile_arg is Some {
        lemma_granted_paths_exist_and_are_not_broad(fs, home, cli_read, AllowAccess::Read);
        lemma_granted_paths_exist_and_are_not_broad(fs, home, cli_write, AllowAccess::Write);
    } else {
        let location = match config_arg {
            Some(arg) => config_location(fs, home, arg),
            None => existing_file(
                fs,
                joined(home, default_config_suffix()),
                FileContext::DefaultConfig,
            ),
        };
        let path = location->Ok_0;
        let config = fs.config_file(path)->0.content->Parsed_0;
        let read_paths = byte_views(config.allow.read@) + cli_read;
        let write_paths = byte_views(config.allow.write@) + cli_write;
        lemma_granted_paths_exist_and_are_not_broad(fs, home, read_paths, AllowAccess::Read);
        lemma_granted_paths_exist_and_are_not_broad(fs, home, write_paths, AllowAccess::Write);
        let a = config.allow;
        assert(resolved_allow_paths(fs, home, byte_views(config.allow.read@) + cli_read, AllowAccess::Read)
            == Ok::<Seq<AllowPathView>, HaltView>(inv.allow_read_paths));
    }
}

} // verus!
