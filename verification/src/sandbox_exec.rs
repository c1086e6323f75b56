//! Building the `sandbox-exec` command line.
use vstd::prelude::*;
use vstd::slice::slice_to_vec;
use vstd::string::*;
use vstd::utf8::*;

use crate::config::byte_views;
use crate::env_name::EnvName;
use crate::error::{ErrorOf, ErrorView, SeatbeltError};
use crate::paths::CanonicalPathBuf;
use crate::profile::{ProfileOf, ProfileView, SandboxProfile};
use crate::text::{ascii_bytes, char_bytes};
use crate::unix_path::append_bytes;

verus! {

broadcast use vstd::string::group_string_axioms;

/// One environment variable and its value.
#[derive(Debug, Clone)]
pub struct EnvVar {
    pub name: String,
    pub value: Vec<u8>,
}

/// The environment variables that the command line may pass through, as
/// read from the process environment.
#[derive(Debug)]
pub struct EnvVars {
    pub vars: Vec<EnvVar>,
}

/// The value of the first variable called `name`.
pub open spec fn find_var(vars: Seq<EnvVar>, name: Seq<char>) -> Option<Seq<u8>>
    decreases vars.len(),
{
    if vars.len() == 0 {
        None
    } else if vars[0].name@ == name {
        Some(vars[0].value@)
    } else {
        find_var(vars.drop_first(), name)
    }
}

impl EnvVars {
    pub open spec fn lookup(self, name: Seq<char>) -> Option<Seq<u8>> {
        find_var(self.vars@, name)
    }

    /// No variables.
    pub fn new() -> (e: EnvVars)
        ensures
            e.vars@.len() == 0,
    {
        EnvVars { vars: Vec::new() }
    }

    /// Adds a variable; an earlier one of the same name takes precedence.
    pub fn insert(&mut self, name: String, value: Vec<u8>)
        ensures
            final(self).vars@ == old(self).vars@.push(EnvVar { name, value }),
    {
        self.vars.push(EnvVar { name, value });
    }

    /// The value of the variable `name`, as `env::var_os` gives it.
    pub fn var_os(&self, name: &str) -> (r: Option<Vec<u8>>)
        ensures
            match r {
                Some(v) => self.lookup(name@) == Some(v@),
                None => self.lookup(name@) is None,
            },
    {
        let wanted = name.to_owned();
        let mut i: usize = 0;
        assert(self.vars@.skip(0) == self.vars@);
        while i < self.vars.len()
            invariant
                i <= self.vars@.len(),
                wanted@ == name@,
                find_var(self.vars@.skip(i as int), name@) == self.lookup(name@),
            decreases self.vars.len() - i,
        {
            assert(self.vars@.skip(i as int).drop_first() == self.vars@.skip(i + 1));
            if self.vars[i].name == wanted {
                return Some(slice_to_vec(self.vars[i].value.as_slice()));
            }
            i = i + 1;
        }
        None
    }
}

/// The resolved directories and the profile that the sandbox runs with.
pub struct SandboxContext<'a> {
    pub profile: &'a SandboxProfile,
    pub resolved_users_dir: CanonicalPathBuf,
    pub resolved_home: CanonicalPathBuf,
    pub project_dir: CanonicalPathBuf,
    pub resolved_tmpdir: CanonicalPathBuf,
}

/// `NAME=value`, the name in UTF-8.
pub open spec fn var_pair(name: Seq<char>, value: Seq<u8>) -> Seq<u8> {
    encode_utf8(name) + seq![61u8] + value
}

pub open spec fn arg(s: Seq<char>) -> Seq<u8> {
    char_bytes(s)
}

/// How the profile is handed over: `-f path` or `-p text`.
pub open spec fn profile_args(p: ProfileView) -> Seq<Seq<u8>> {
    match p {
        ProfileOf::File(f) => seq![arg("-f"@), f],
        ProfileOf::Text(t) => seq![arg("-p"@), encode_utf8(t)],
    }
}

/// The value of `name`, or `default` when it is not set.
pub open spec fn value_or(env: EnvVars, name: Seq<char>, default: Seq<u8>) -> Seq<u8> {
    match env.lookup(name) {
        Some(v) => v,
        None => default,
    }
}

/// `NAME=value` when `name` is set, nothing otherwise.
pub open spec fn pair_if_set(env: EnvVars, name: Seq<char>) -> Seq<Seq<u8>> {
    match env.lookup(name) {
        Some(v) => seq![var_pair(name, v)],
        None => seq![],
    }
}

/// The variables of the sandboxed environment that every run gets.
pub open spec fn base_environment(env: EnvVars, home: Seq<u8>, tmpdir: Seq<u8>) -> Seq<Seq<u8>> {
    seq![
        var_pair("HOME"@, home),
        var_pair("USER"@, value_or(env, "USER"@, seq![])),
        var_pair("SHELL"@, value_or(env, "SHELL"@, arg("/bin/zsh"@))),
        var_pair("TERM"@, value_or(env, "TERM"@, arg("xterm-256color"@))),
        var_pair("LANG"@, value_or(env, "LANG"@, arg("en_US.UTF-8"@))),
        var_pair("PATH"@, value_or(env, "PATH"@, seq![])),
        var_pair("TMPDIR"@, tmpdir),
    ]
}

/// The variables that are passed through when they are set.
pub open spec fn optional_environment(env: EnvVars) -> Seq<Seq<u8>> {
    pair_if_set(env, "SSH_AUTH_SOCK"@) + pair_if_set(env, "EDITOR"@) + pair_if_set(env, "VISUAL"@)
        + pair_if_set(env, "XDG_CONFIG_HOME"@) + pair_if_set(env, "XDG_DATA_HOME"@) + pair_if_set(
        env,
        "XDG_CACHE_HOME"@,
    ) + pair_if_set(env, "XDG_RUNTIME_DIR"@)
}

/// The variables named by `--allow-env` and `allow.env`; each must be set.
pub open spec fn allowed_environment(env: EnvVars, names: Seq<Seq<char>>) -> Result<
    Seq<Seq<u8>>,
    ErrorView,
>
    decreases names.len(),
{
    if names.len() == 0 {
        Ok(seq![])
    } else {
        match allowed_environment(env, names.drop_last()) {
            Err(e) => Err(e),
            Ok(pairs) => match env.lookup(names.last()) {
                None => Err(ErrorOf::EnvNotSet(names.last())),
                Some(v) => Ok(pairs.push(var_pair(names.last(), v))),
            },
        }
    }
}

/// Everything before the variables: the sandbox, its profile and the
/// directory parameters, and `env -i`.
pub open spec fn sandbox_prefix(
    profile: ProfileView,
    users: Seq<u8>,
    home: Seq<u8>,
    project: Seq<u8>,
    tmpdir: Seq<u8>,
) -> Seq<Seq<u8>> {
    seq![arg("/usr/bin/sandbox-exec"@)] + profile_args(profile) + seq![
        arg("-D"@),
        var_pair("_USERS_DIR"@, users),
        arg("-D"@),
        var_pair("_HOME"@, home),
        arg("-D"@),
        var_pair("_PROJECT_DIR"@, project),
        arg("-D"@),
        var_pair("_TMPDIR"@, tmpdir),
        arg("/usr/bin/env"@),
        arg("-i"@),
    ]
}

/// The command that runs `command` in the sandbox with a fresh environment.
pub open spec fn sandbox_command(
    profile: ProfileView,
    users: Seq<u8>,
    home: Seq<u8>,
    project: Seq<u8>,
    tmpdir: Seq<u8>,
    env: EnvVars,
    allow_env: Seq<Seq<char>>,
    command: Seq<Seq<u8>>,
) -> Result<Seq<Seq<u8>>, ErrorView> {
    match allowed_environment(env, allow_env) {
        Err(e) => Err(e),
        Ok(allowed) => Ok(
            sandbox_prefix(profile, users, home, project, tmpdir) + base_environment(
                env,
                home,
                tmpdir,
            ) + optional_environment(env) + allowed + command,
        ),
    }
}

/// `NAME=value`.
pub fn env_pair(name: &str, value: &[u8]) -> (pair: Vec<u8>)
    ensures
        pair@ == var_pair(name@, value@),
{
    let mut pair = slice_to_vec(name.as_bytes());
    pair.push(61u8);
    append_bytes(&mut pair, value);
    pair
}

/// `NAME=path`.
pub fn env_pair_path(name: &str, value: &[u8]) -> (pair: Vec<u8>)
    ensures
        pair@ == var_pair(name@, value@),
{
    env_pair(name, value)
}

/// Appends `NAME=value` when the variable is set.
pub fn append_if_set(command: &mut Vec<Vec<u8>>, env_source: &EnvVars, name: &str)
    ensures
        byte_views(final(command)@) == byte_views(old(command)@) + pair_if_set(*env_source, name@),
{
    let ghost before = command@;
    match env_source.var_os(name) {
        Some(value) => {
            command.push(env_pair(name, value.as_slice()));
            assert(byte_views(command@) =~= byte_views(before) + pair_if_set(
                *env_source,
                name@,
            ));
        },
        None => {
            assert(byte_views(command@) =~= byte_views(before) + pair_if_set(
                *env_source,
                name@,
            ));
        },
    }
}

fn push_arg(command: &mut Vec<Vec<u8>>, a: &str)
    ensures
        byte_views(final(command)@) == byte_views(old(command)@).push(arg(a@)),
{
    let ghost before = command@;
    command.push(ascii_bytes(a));
    assert(byte_views(command@) =~= byte_views(before).push(arg(a@)));
}

fn push_bytes(command: &mut Vec<Vec<u8>>, b: Vec<u8>)
    ensures
        byte_views(final(command)@) == byte_views(old(command)@).push(b@),
{
    let ghost before = command@;
    command.push(b);
    assert(byte_views(command@) =~= byte_views(before).push(b@));
}

fn value_or_default(env_source: &EnvVars, name: &str, default: &str) -> (v: Vec<u8>)
    ensures
        v@ == value_or(*env_source, name@, arg(default@)),
{
    match env_source.var_os(name) {
        Some(v) => v,
        None => ascii_bytes(default),
    }
}

proof fn lemma_allowed_environment_stop(env: EnvVars, s: Seq<Seq<char>>, k: int)
    requires
        0 <= k <= s.len(),
        allowed_environment(env, s.take(k)) is Err,
    ensures
        allowed_environment(env, s) == allowed_environment(env, s.take(k)),
    decreases s.len() - k,
{
    if k < s.len() {
        assert(s.drop_last().take(k) == s.take(k));
        lemma_allowed_environment_stop(env, s.drop_last(), k);
    } else {
        assert(s.take(k) == s);
    }
}

pub open spec fn command_result(r: Result<Vec<Vec<u8>>, SeatbeltError>) -> Result<
    Seq<Seq<u8>>,
    ErrorView,
> {
    match r {
        Ok(v) => Ok(byte_views(v@)),
        Err(e) => Err(e@),
    }
}

fn sandbox_prefix_args(sandbox_context: &SandboxContext) -> (r: Vec<Vec<u8>>)
    ensures
        byte_views(r@) == sandbox_prefix(
            sandbox_context.profile.deep_view(),
            sandbox_context.resolved_users_dir@,
            sandbox_context.resolved_home@,
            sandbox_context.project_dir@,
            sandbox_context.resolved_tmpdir@,
        ),
{
    let mut final_command: Vec<Vec<u8>> = Vec::new();
    push_arg(&mut final_command, "/usr/bin/sandbox-exec");
    match sandbox_context.profile {
        ProfileOf::File(profile) => {
            push_arg(&mut final_command, "-f");
            push_bytes(&mut final_command, slice_to_vec(profile.as_slice()));
        },
        ProfileOf::Text(profile) => {
            push_arg(&mut final_command, "-p");
            push_bytes(&mut final_command, slice_to_vec(profile.as_str().as_bytes()));
        },
    }
    push_arg(&mut final_command, "-D");
    push_bytes(
        &mut final_command,
        env_pair_path("_USERS_DIR", sandbox_context.resolved_users_dir.as_path()),
    );
    push_arg(&mut final_command, "-D");
    push_bytes(&mut final_command, env_pair_path("_HOME", sandbox_context.resolved_home.as_path()));
    push_arg(&mut final_command, "-D");
    push_bytes(
        &mut final_command,
        env_pair_path("_PROJECT_DIR", sandbox_context.project_dir.as_path()),
    );
    push_arg(&mut final_command, "-D");
    push_bytes(
        &mut final_command,
        env_pair_path("_TMPDIR", sandbox_context.resolved_tmpdir.as_path()),
    );
    push_arg(&mut final_command, "/usr/bin/env");
    push_arg(&mut final_command, "-i");
    assert(byte_views(final_command@) =~= sandbox_prefix(
        sandbox_context.profile.deep_view(),
        sandbox_context.resolved_users_dir@,
        sandbox_context.resolved_home@,
        sandbox_context.project_dir@,
        sandbox_context.resolved_tmpdir@,
    ));
    final_command
}

fn append_base_environment(
    final_command: &mut Vec<Vec<u8>>,
    env_source: &EnvVars,
    home: &[u8],
    tmpdir: &[u8],
)
    ensures
        byte_views(final(final_command)@) == byte_views(old(final_command)@) + base_environment(
            *env_source,
            home@,
            tmpdir@,
        ),
{
    let ghost start = byte_views(final_command@);
    push_bytes(final_command, env_pair_path("HOME", home));
    let user = value_or_default(env_source, "USER", "");
    push_bytes(final_command, env_pair("USER", user.as_slice()));
    let shell = value_or_default(env_source, "SHELL", "/bin/zsh");
    push_bytes(final_command, env_pair("SHELL", shell.as_slice()));
    let term = value_or_default(env_source, "TERM", "xterm-256color");
    push_bytes(final_command, env_pair("TERM", term.as_slice()));
    let lang = value_or_default(env_source, "LANG", "en_US.UTF-8");
    push_bytes(final_command, env_pair("LANG", lang.as_slice()));
    let path = value_or_default(env_source, "PATH", "");
    push_bytes(final_command, env_pair("PATH", path.as_slice()));
    push_bytes(final_command, env_pair_path("TMPDIR", tmpdir));
    proof {
        reveal_strlit("");
        assert(arg(""@) =~= Seq::<u8>::empty());
    }
    assert(byte_views(final_command@) =~= start + base_environment(*env_source, home@, tmpdir@));
}

fn append_optional_environment(final_command: &mut Vec<Vec<u8>>, env_source: &EnvVars)
    ensures
        byte_views(final(final_command)@) == byte_views(old(final_command)@)
            + optional_environment(*env_source),
{
    let ghost start = byte_views(final_command@);
    append_if_set(final_command, env_source, "SSH_AUTH_SOCK");
    append_if_set(final_command, env_source, "EDITOR");
    append_if_set(final_command, env_source, "VISUAL");
    append_if_set(final_command, env_source, "XDG_CONFIG_HOME");
    append_if_set(final_command, env_source, "XDG_DATA_HOME");
    append_if_set(final_command, env_source, "XDG_CACHE_HOME");
    append_if_set(final_command, env_source, "XDG_RUNTIME_DIR");
    assert(byte_views(final_command@) =~= start + optional_environment(*env_source));
}

fn append_allowed_environment(
    final_command: &mut Vec<Vec<u8>>,
    env_source: &EnvVars,
    allow_env: &[EnvName],
) -> (r: Result<(), SeatbeltError>)
    ensures
        match allowed_environment(*env_source, allow_env@.map_values(|e: EnvName| e@)) {
            Ok(pairs) => r is Ok && byte_views(final(final_command)@) == byte_views(
                old(final_command)@,
            ) + pairs,
            Err(e) => r is Err && r->Err_0@ == e,
        },
{
    let ghost start = byte_views(final_command@);
    let ghost names = allow_env@.map_values(|e: EnvName| e@);
    let mut i: usize = 0;
    assert(names.take(0) == Seq::<Seq<char>>::empty());
    assert(byte_views(final_command@) =~= start + Seq::<Seq<u8>>::empty());
    while i < allow_env.len()
        invariant
            i <= allow_env@.len(),
            names == allow_env@.map_values(|e: EnvName| e@),
            allowed_environment(*env_source, names.take(i as int)) matches Ok(pairs)
                && byte_views(final_command@) == start + pairs,
        decreases allow_env.len() - i,
    {
        proof {
            assert(names.take(i + 1).drop_last() == names.take(i as int));
            assert(names.take(i + 1).last() == allow_env@[i as int]@);
        }
        let name = allow_env[i].as_str();
        match env_source.var_os(name) {
            Some(value) => {
                let ghost before = byte_views(final_command@);
                push_bytes(final_command, env_pair(name, value.as_slice()));
                assert(byte_views(final_command@) == before.push(var_pair(name@, value@)));
            },
            None => {
                proof {
                    lemma_allowed_environment_stop(*env_source, names, i + 1);
                }
                return Err(ErrorOf::EnvNotSet(name.to_owned()));
            },
        }
        i = i + 1;
    }
    assert(names.take(allow_env@.len() as int) == names);
    Ok(())
}

/// The full command: `sandbox-exec` with the profile and the directory
/// parameters, then `env -i` with the variables that the sandbox passes
/// through, then `command`. Every name in `allow_env` must be set.
pub fn build_final_command(
    sandbox_context: &SandboxContext,
    env_source: &EnvVars,
    allow_env: &[EnvName],
    command: &[Vec<u8>],
) -> (r: Result<Vec<Vec<u8>>, SeatbeltError>)
    ensures
        command_result(r) == sandbox_command(
            sandbox_context.profile.deep_view(),
            sandbox_context.resolved_users_dir@,
            sandbox_context.resolved_home@,
            sandbox_context.project_dir@,
            sandbox_context.resolved_tmpdir@,
            *env_source,
            allow_env@.map_values(|e: EnvName| e@),
            byte_views(command@),
        ),
{
    let mut final_command = sandbox_prefix_args(sandbox_context);
    append_base_environment(
        &mut final_command,
        env_source,
        sandbox_context.resolved_home.as_path(),
        sandbox_context.resolved_tmpdir.as_path(),
    );
    append_optional_environment(&mut final_command, env_source);
    append_allowed_environment(&mut final_command, env_source, allow_env)?;
    let ghost allowed = byte_views(final_command@);
    let mut k: usize = 0;
    assert(byte_views(final_command@) =~= allowed + byte_views(command@).take(0));
    while k < command.len()
        invariant
            k <= command@.len(),
            byte_views(final_command@) == allowed + byte_views(command@).take(k as int),
        decreases command.len() - k,
    {
        push_bytes(&mut final_command, slice_to_vec(command[k].as_slice()));
        assert(byte_views(command@).take(k + 1) == byte_views(command@).take(k as int).push(
            command@[k as int]@,
        ));
        k = k + 1;
    }
    assert(byte_views(command@).take(command@.len() as int) == byte_views(command@));
    Ok(final_command)
}


/// The variables named by `--allow-env` and `allow.env` are passed exactly
/// when every one of them is set: each then becomes `NAME=value`, in the
/// order given; otherwise the error names the first one that is not set.
pub proof fn lemma_allowed_environment(env: EnvVars, names: Seq<Seq<char>>)
    ensures
        allowed_environment(env, names) is Ok <==> forall|i: int|
            0 <= i < names.len() ==> (#[trigger] env.lookup(names[i])) is Some,
        allowed_environment(env, names) matches Ok(pairs) ==> pairs.len() == names.len()
            && forall|i: int|
            0 <= i < names.len() ==> #[trigger] pairs[i] == var_pair(
                names[i],
                env.lookup(names[i])->0,
            ),
        allowed_environment(env, names) matches Err(e) ==> exists|k: int|
            0 <= k < names.len() && (#[trigger] env.lookup(names[k])) is None && e
                == ErrorOf::<Seq<u8>, Seq<char>, Seq<Seq<u8>>>::EnvNotSet(names[k]) && forall|j: int|
                0 <= j < k ==> (#[trigger] env.lookup(names[j])) is Some,
    decreases names.len(),
{
    if names.len() > 0 {
        let q = names.drop_last();
        lemma_allowed_environment(env, q);
        assert forall|i: int| 0 <= i < q.len() implies #[trigger] q[i] == names[i] by {}
        let last = names.len() - 1;
        assert(names[last] == names.last());
        match allowed_environment(env, q) {
            Ok(pairs) => {
                if env.lookup(names.last()) is Some {
                    let all = pairs.push(var_pair(names.last(), env.lookup(names.last())->0));
                    assert forall|i: int| 0 <= i < names.len() implies #[trigger] all[i]
                        == var_pair(names[i], env.lookup(names[i])->0) by {
                        if i < q.len() {
                            assert(q[i] == names[i]);
                        }
                    }
                    assert forall|i: int| 0 <= i < names.len() implies (#[trigger] env.lookup(
                        names[i],
                    )) is Some by {
                        if i < q.len() {
                            assert(q[i] == names[i]);
                        }
                    }
                } else {
                    assert forall|j: int| 0 <= j < last implies (#[trigger] env.lookup(
                        names[j],
                    )) is Some by {
                        assert(q[j] == names[j]);
                        assert(env.lookup(q[j]) is Some);
                    }
                    assert(env.lookup(names[last]) is None);
                }
            },
            Err(e) => {
                let k = choose|k: int|
                    0 <= k < q.len() && (#[trigger] env.lookup(q[k])) is None && e
                        == ErrorOf::<Seq<u8>, Seq<char>, Seq<Seq<u8>>>::EnvNotSet(q[k])
                        && forall|j: int| 0 <= j < k ==> (#[trigger] env.lookup(q[j])) is Some;
                assert(q[k] == names[k]);
                assert(env.lookup(names[k]) is None);
                assert forall|j: int| 0 <= j < k implies (#[trigger] env.lookup(names[j])) is Some by {
                    assert(q[j] == names[j]);
                    assert(env.lookup(q[j]) is Some);
                }
            },
        }
    }
}

/// The shape of the command that runs in the sandbox: it starts
/// `sandbox-exec`, which starts `env -i`, so the command sees no variable
/// but those listed after it; HOME and TMPDIR are the resolved directories;
/// every variable named by `allow_env` is among them with its value; and
/// the user's command comes last, unchanged.
pub proof fn lemma_sandbox_command_shape(
    profile: ProfileView,
    users: Seq<u8>,
    home: Seq<u8>,
    project: Seq<u8>,
    tmpdir: Seq<u8>,
    env: EnvVars,
    allow_env: Seq<Seq<char>>,
    command: Seq<Seq<u8>>,
)
    requires
        sandbox_command(profile, users, home, project, tmpdir, env, allow_env, command) is Ok,
    ensures
        ({
            let c = sandbox_command(profile, users, home, project, tmpdir, env, allow_env, command)->Ok_0;
            &&& c.len() >= 20 + command.len()
            &&& c[0] == arg("/usr/bin/sandbox-exec"@)
            &&& c[11] == arg("/usr/bin/env"@)
            &&& c[12] == arg("-i"@)
            &&& c[13] == var_pair("HOME"@, home)
            &&& c[19] == var_pair("TMPDIR"@, tmpdir)
            &&& forall|i: int|
                0 <= i < allow_env.len() ==> c.contains(
                    var_pair(allow_env[i], (#[trigger] env.lookup(allow_env[i]))->0),
                )
            &&& c.skip(c.len() - command.len()) == command
        }),
{
    lemma_allowed_environment(env, allow_env);
    let allowed = allowed_environment(env, allow_env)->Ok_0;
    let prefix = sandbox_prefix(profile, users, home, project, tmpdir);
    let base = base_environment(env, home, tmpdir);
    let optional = optional_environment(env);
    let c = sandbox_command(profile, users, home, project, tmpdir, env, allow_env, command)->Ok_0;
    assert(prefix.len() == 13);
    assert(base.len() == 7);
    let head = prefix + base + optional;
    assert(c == head + allowed + command);
    assert(c[0] == prefix[0]);
    assert(c[11] == prefix[11]);
    assert(c[12] == prefix[12]);
    assert(c[13] == base[0]);
    assert(c[19] == base[6]);
    assert forall|i: int| 0 <= i < allow_env.len() implies c.contains(
        var_pair(allow_env[i], (#[trigger] env.lookup(allow_env[i]))->0),
    ) by {
        assert(allowed[i] == var_pair(allow_env[i], env.lookup(allow_env[i])->0));
        assert(c[head.len() + i] == allowed[i]);
    }
    assert(c.skip(c.len() - command.len()) == command);
}


/// The variables that every sandboxed command may see besides those named
/// by `--allow-env` and `allow.env`.
pub open spec fn passed_names() -> Seq<Seq<char>> {
    seq![
        "HOME"@,
        "USER"@,
        "SHELL"@,
        "TERM"@,
        "LANG"@,
        "PATH"@,
        "TMPDIR"@,
        "SSH_AUTH_SOCK"@,
        "EDITOR"@,
        "VISUAL"@,
        "XDG_CONFIG_HOME"@,
        "XDG_DATA_HOME"@,
        "XDG_CACHE_HOME"@,
        "XDG_RUNTIME_DIR"@,
    ]
}

/// `x` is `NAME=value` for one of `names`.
pub open spec fn is_var_of(x: Seq<u8>, names: Seq<Seq<char>>) -> bool {
    exists|i: int, v: Seq<u8>| 0 <= i < names.len() && x == #[trigger] var_pair(names[i], v)
}

proof fn lemma_all_concat(a: Seq<Seq<u8>>, b: Seq<Seq<u8>>, p: spec_fn(Seq<u8>) -> bool)
    requires
        forall|i: int| 0 <= i < a.len() ==> p(#[trigger] a[i]),
        forall|i: int| 0 <= i < b.len() ==> p(#[trigger] b[i]),
    ensures
        forall|i: int| 0 <= i < (a + b).len() ==> p(#[trigger] (a + b)[i]),
{
    assert forall|i: int| 0 <= i < (a + b).len() implies p(#[trigger] (a + b)[i]) by {
        if i < a.len() {
            assert((a + b)[i] == a[i]);
        } else {
            assert((a + b)[i] == b[i - a.len()]);
        }
    }
}

proof fn lemma_pair_if_set_named(env: EnvVars, k: int, allow_env: Seq<Seq<char>>)
    requires
        0 <= k < passed_names().len(),
    ensures
        forall|i: int|
            0 <= i < pair_if_set(env, passed_names()[k]).len() ==> is_var_of(
                #[trigger] pair_if_set(env, passed_names()[k])[i],
                passed_names() + allow_env,
            ),
{
    let names = passed_names() + allow_env;
    let n = passed_names()[k];
    assert(names[k] == n);
    if env.lookup(n) is Some {
        let v = env.lookup(n)->0;
        assert(pair_if_set(env, n)[0] == var_pair(names[k], v));
    }
}

/// The sandboxed command sees no variable but those listed after `env -i`,
/// and each of them is `NAME=value` for one of the variables that every
/// command may see or one named by `allow_env`.
pub proof fn lemma_sandbox_environment_is_listed(
    profile: ProfileView,
    users: Seq<u8>,
    home: Seq<u8>,
    project: Seq<u8>,
    tmpdir: Seq<u8>,
    env: EnvVars,
    allow_env: Seq<Seq<char>>,
    command: Seq<Seq<u8>>,
)
    requires
        sandbox_command(profile, users, home, project, tmpdir, env, allow_env, command) is Ok,
    ensures
        ({
            let c = sandbox_command(profile, users, home, project, tmpdir, env, allow_env, command)->Ok_0;
            &&& c.len() >= 13 + command.len()
            &&& c[12] == arg("-i"@)
            &&& forall|j: int|
                13 <= j < c.len() - command.len() ==> is_var_of(
                    #[trigger] c[j],
                    passed_names() + allow_env,
                )
        }),
{
    let names = passed_names() + allow_env;
    let p = |x: Seq<u8>| is_var_of(x, names);
    lemma_sandbox_command_shape(profile, users, home, project, tmpdir, env, allow_env, command);
    lemma_allowed_environment(env, allow_env);
    let allowed = allowed_environment(env, allow_env)->Ok_0;
    let prefix = sandbox_prefix(profile, users, home, project, tmpdir);
    let base = base_environment(env, home, tmpdir);
    let optional = optional_environment(env);
    let c = sandbox_command(profile, users, home, project, tmpdir, env, allow_env, command)->Ok_0;
    assert(prefix.len() == 13);
    assert forall|k: int| 0 <= k < base.len() implies p(#[trigger] base[k]) by {
        assert(names[k] == passed_names()[k]);
        if k == 0 {
            assert(base[k] == var_pair(names[k], home));
        } else if k == 1 {
            assert(base[k] == var_pair(names[k], value_or(env, "USER"@, seq![])));
        } else if k == 2 {
            assert(base[k] == var_pair(names[k], value_or(env, "SHELL"@, arg("/bin/zsh"@))));
        } else if k == 3 {
            assert(base[k] == var_pair(names[k], value_or(env, "TERM"@, arg("xterm-256color"@))));
        } else if k == 4 {
            assert(base[k] == var_pair(names[k], value_or(env, "LANG"@, arg("en_US.UTF-8"@))));
        } else if k == 5 {
            assert(base[k] == var_pair(names[k], value_or(env, "PATH"@, seq![])));
        } else {
            assert(base[k] == var_pair(names[k], tmpdir));
        }
    }
    let o = seq![
        pair_if_set(env, "SSH_AUTH_SOCK"@),
        pair_if_set(env, "EDITOR"@),
        pair_if_set(env, "VISUAL"@),
        pair_if_set(env, "XDG_CONFIG_HOME"@),
        pair_if_set(env, "XDG_DATA_HOME"@),
        pair_if_set(env, "XDG_CACHE_HOME"@),
        pair_if_set(env, "XDG_RUNTIME_DIR"@),
    ];
    assert forall|k: int| 0 <= k < 7 implies o[k] == pair_if_set(env, passed_names()[k + 7]) by {}
    lemma_pair_if_set_named(env, 7, allow_env);
    lemma_pair_if_set_named(env, 8, allow_env);
    lemma_pair_if_set_named(env, 9, allow_env);
    lemma_pair_if_set_named(env, 10, allow_env);
    lemma_pair_if_set_named(env, 11, allow_env);
    lemma_pair_if_set_named(env, 12, allow_env);
    lemma_pair_if_set_named(env, 13, allow_env);
    lemma_all_concat(o[0], o[1], p);
    lemma_all_concat(o[0] + o[1], o[2], p);
    lemma_all_concat(o[0] + o[1] + o[2], o[3], p);
    lemma_all_concat(o[0] + o[1] + o[2] + o[3], o[4], p);
    lemma_all_concat(o[0] + o[1] + o[2] + o[3] + o[4], o[5], p);
    lemma_all_concat(o[0] + o[1] + o[2] + o[3] + o[4] + o[5], o[6], p);
    assert(optional == o[0] + o[1] + o[2] + o[3] + o[4] + o[5] + o[6]);
    assert forall|i: int| 0 <= i < allowed.len() implies p(#[trigger] allowed[i]) by {
        assert(names[14 + i] == allow_env[i]);
        assert(allowed[i] == var_pair(names[14 + i], env.lookup(allow_env[i])->0));
    }
    lemma_all_concat(base, optional, p);
    lemma_all_concat(base + optional, allowed, p);
    let mid = base + optional + allowed;
    assert(c == prefix + mid + command);
    assert forall|j: int| 13 <= j < c.len() - command.len() implies is_var_of(
        #[trigger] c[j],
        names,
    ) by {
        assert(c[j] == mid[j - 13]);
        assert(p(mid[j - 13]));
    }
}

} // verus!
