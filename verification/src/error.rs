//! The errors that the library reports, and their messages.
use vstd::prelude::*;
use vstd::string::*;

use crate::allow_paths::AllowAccess;
use crate::text::{lossy_string, lossy_utf8};

verus! {

broadcast use vstd::string::group_string_axioms;

/// Which file a "not found" error is about.
#[derive(Debug, Clone, Copy, PartialEq, Eq)]
pub enum FileContext {
    SandboxProfile,
    DefaultConfig,
    ProfileFragment,
}

/// What a path was being resolved for when resolving it failed.
#[derive(Debug, Clone, Copy, PartialEq, Eq)]
pub enum ResolveContext {
    FilePath,
    ConfigPath,
    AllowPath(AllowAccess),
    Home,
    UsersDirectory,
    BroadDirectory,
    CurrentDirectory,
    GitRoot,
    Tmpdir,
}

/// An error of the library, over a type of paths `P`, of text `S` and of
/// lists of paths `L`.
#[derive(Debug, Clone, PartialEq, Eq)]
pub enum ErrorOf<P, S, L> {
    /// `--profile` and `--config` were both given.
    ProfileWithConfig,
    /// A file that must exist is not a file.
    NotAFile(FileContext, P),
    /// A path could not be resolved.
    ResolveFailed(ResolveContext, P),
    /// The resolved home directory has no parent.
    HomeHasNoParent(P),
    /// The type of a resolved allow path could not be read.
    InspectFailed(AllowAccess, P),
    /// An allow path is neither a file nor a directory.
    NotFileOrDirectory(AllowAccess, P),
    /// An allow path is a directory that is too broad to grant.
    BroadDirectory(AllowAccess, P),
    /// An absolute config path that is not a file.
    ConfigNotFound(P),
    /// A config name for which none of the candidate files exists.
    ConfigNotFoundChecked(P, L),
    /// The config file could not be read.
    ConfigReadFailed(P),
    /// The config file is not a valid config.
    ConfigParseFailed(P),
    /// The config lists no profile.
    NoProfiles,
    /// A profile entry of the config is absolute.
    AbsoluteProfileEntry(P, P),
    /// A path to be written into a profile is not UTF-8.
    ProfilePathNotUtf8(P),
    /// A path to be written into a profile holds control characters.
    ProfilePathControl(S),
    /// The project directory is the home directory.
    RunFromHome(P),
    /// TMPDIR does not resolve under the per-user temporary directories.
    TmpdirOutside(P),
    /// An environment variable to pass through is not set.
    EnvNotSet(S),
    /// The Git root that `git` printed is not UTF-8.
    GitRootNotUtf8,
    /// An environment variable that a run needs is not set.
    RequiredEnvNotSet(S),
    /// The current directory could not be read.
    CurrentDirFailed,
}

pub type SeatbeltError = ErrorOf<Vec<u8>, String, Vec<Vec<u8>>>;

pub type ErrorView = ErrorOf<Seq<u8>, Seq<char>, Seq<Seq<u8>>>;

pub open spec fn path_views(l: Seq<Vec<u8>>) -> Seq<Seq<u8>> {
    l.map_values(|v: Vec<u8>| v@)
}

impl View for ErrorOf<Vec<u8>, String, Vec<Vec<u8>>> {
    type V = ErrorView;

    open spec fn view(&self) -> ErrorView {
        match self {
            ErrorOf::ProfileWithConfig => ErrorOf::ProfileWithConfig,
            ErrorOf::NotAFile(c, p) => ErrorOf::NotAFile(*c, p@),
            ErrorOf::ResolveFailed(c, p) => ErrorOf::ResolveFailed(*c, p@),
            ErrorOf::HomeHasNoParent(p) => ErrorOf::HomeHasNoParent(p@),
            ErrorOf::InspectFailed(a, p) => ErrorOf::InspectFailed(*a, p@),
            ErrorOf::NotFileOrDirectory(a, p) => ErrorOf::NotFileOrDirectory(*a, p@),
            ErrorOf::BroadDirectory(a, p) => ErrorOf::BroadDirectory(*a, p@),
            ErrorOf::ConfigNotFound(p) => ErrorOf::ConfigNotFound(p@),
            ErrorOf::ConfigNotFoundChecked(p, l) => ErrorOf::ConfigNotFoundChecked(
                p@,
                path_views(l@),
            ),
            ErrorOf::ConfigReadFailed(p) => ErrorOf::ConfigReadFailed(p@),
            ErrorOf::ConfigParseFailed(p) => ErrorOf::ConfigParseFailed(p@),
            ErrorOf::NoProfiles => ErrorOf::NoProfiles,
            ErrorOf::AbsoluteProfileEntry(r, e) => ErrorOf::AbsoluteProfileEntry(r@, e@),
            ErrorOf::ProfilePathNotUtf8(p) => ErrorOf::ProfilePathNotUtf8(p@),
            ErrorOf::ProfilePathControl(s) => ErrorOf::ProfilePathControl(s@),
            ErrorOf::RunFromHome(p) => ErrorOf::RunFromHome(p@),
            ErrorOf::TmpdirOutside(p) => ErrorOf::TmpdirOutside(p@),
            ErrorOf::EnvNotSet(s) => ErrorOf::EnvNotSet(s@),
            ErrorOf::GitRootNotUtf8 => ErrorOf::GitRootNotUtf8,
            ErrorOf::RequiredEnvNotSet(s) => ErrorOf::RequiredEnvNotSet(s@),
            ErrorOf::CurrentDirFailed => ErrorOf::CurrentDirFailed,
        }
    }
}

pub open spec fn file_context_text(c: FileContext) -> Seq<char> {
    match c {
        FileContext::SandboxProfile => "sandbox profile not found"@,
        FileContext::DefaultConfig => "default config file not found"@,
        FileContext::ProfileFragment => "profile fragment not found"@,
    }
}

pub open spec fn resolve_context_text(c: ResolveContext) -> Seq<char> {
    match c {
        ResolveContext::FilePath => "failed to resolve file path"@,
        ResolveContext::ConfigPath => "failed to resolve config path"@,
        ResolveContext::AllowPath(a) => "failed to resolve "@ + a.spec_option_name() + " path"@,
        ResolveContext::Home => "failed to resolve HOME"@,
        ResolveContext::UsersDirectory => "failed to resolve users directory"@,
        ResolveContext::BroadDirectory => "failed to resolve broad directory"@,
        ResolveContext::CurrentDirectory => "failed to resolve current directory"@,
        ResolveContext::GitRoot => "failed to resolve Git root"@,
        ResolveContext::Tmpdir => "failed to resolve TMPDIR"@,
    }
}

/// Paths as they are displayed, separated by `, `.
pub open spec fn displayed_list(l: Seq<Seq<u8>>) -> Seq<char>
    decreases l.len(),
{
    if l.len() == 0 {
        seq![]
    } else if l.len() == 1 {
        lossy_utf8(l[0])
    } else {
        displayed_list(l.drop_last()) + ", "@ + lossy_utf8(l.last())
    }
}

pub open spec fn run_from_home_text(home: Seq<u8>) -> Seq<char> {
    "refusing to run from $HOME ("@ + lossy_utf8(home)
        + ")\n\nRunning from $HOME would grant write access to your entire home directory, defeating the purpose of the sandbox.\n\nInstead, cd into a project directory first:\n  cd ~/my-project && seatbelt run <command>"@
}

impl ErrorOf<Seq<u8>, Seq<char>, Seq<Seq<u8>>> {
    /// The message of the error, with paths displayed lossily as UTF-8.
    pub open spec fn message(self) -> Seq<char> {
        match self {
            ErrorOf::ProfileWithConfig => "--profile cannot be used together with --config"@,
            ErrorOf::NotAFile(c, p) => file_context_text(c) + ": "@ + lossy_utf8(p),
            ErrorOf::ResolveFailed(c, p) => resolve_context_text(c) + ": "@ + lossy_utf8(p),
            ErrorOf::HomeHasNoParent(p) => "resolved HOME has no parent: "@ + lossy_utf8(p),
            ErrorOf::InspectFailed(a, p) => "failed to inspect "@ + a.spec_option_name()
                + " path: "@ + lossy_utf8(p),
            ErrorOf::NotFileOrDirectory(a, p) => a.spec_option_name()
                + " path must be a file or directory: "@ + lossy_utf8(p),
            ErrorOf::BroadDirectory(a, p) => a.spec_option_name() + " directory is too broad: "@
                + lossy_utf8(p),
            ErrorOf::ConfigNotFound(p) => "config file not found: "@ + lossy_utf8(p),
            ErrorOf::ConfigNotFoundChecked(p, l) => "config file not found: "@ + lossy_utf8(p)
                + " (checked: "@ + displayed_list(l) + ")"@,
            ErrorOf::ConfigReadFailed(p) => "failed to read config file: "@ + lossy_utf8(p),
            ErrorOf::ConfigParseFailed(p) => "failed to parse config file: "@ + lossy_utf8(p),
            ErrorOf::NoProfiles => "config must contain at least one profile"@,
            ErrorOf::AbsoluteProfileEntry(r, e) => "profile entries must be relative to "@
                + lossy_utf8(r) + ": "@ + lossy_utf8(e),
            ErrorOf::ProfilePathNotUtf8(p) => "profile path is not valid UTF-8: "@ + lossy_utf8(
                p,
            ),
            ErrorOf::ProfilePathControl(s) => "profile path contains control characters: "@ + s,
            ErrorOf::RunFromHome(p) => run_from_home_text(p),
            ErrorOf::TmpdirOutside(p) => "TMPDIR must resolve under /private/var/folders: "@
                + lossy_utf8(p),
            ErrorOf::EnvNotSet(s) => "environment variable is not set: "@ + s,
            ErrorOf::GitRootNotUtf8 => "git root path was not valid UTF-8"@,
            ErrorOf::RequiredEnvNotSet(s) => "required environment variable is not set: "@ + s,
            ErrorOf::CurrentDirFailed => "failed to read current directory"@,
        }
    }
}

/// Appends a path as it is displayed.
pub fn push_display(s: &mut String, path: &[u8])
    ensures
        final(s)@ == old(s)@ + lossy_utf8(path@),
{
    let shown = lossy_string(path);
    s.append(shown.as_str());
}

fn file_context_str(c: FileContext) -> (s: &'static str)
    ensures
        s@ == file_context_text(c),
{
    match c {
        FileContext::SandboxProfile => "sandbox profile not found",
        FileContext::DefaultConfig => "default config file not found",
        FileContext::ProfileFragment => "profile fragment not found",
    }
}

fn push_resolve_context(s: &mut String, c: ResolveContext)
    ensures
        final(s)@ == old(s)@ + resolve_context_text(c),
{
    match c {
        ResolveContext::FilePath => s.append("failed to resolve file path"),
        ResolveContext::ConfigPath => s.append("failed to resolve config path"),
        ResolveContext::AllowPath(a) => {
            s.append("failed to resolve ");
            s.append(a.option_name());
            s.append(" path");
        },
        ResolveContext::Home => s.append("failed to resolve HOME"),
        ResolveContext::UsersDirectory => s.append("failed to resolve users directory"),
        ResolveContext::BroadDirectory => s.append("failed to resolve broad directory"),
        ResolveContext::CurrentDirectory => s.append("failed to resolve current directory"),
        ResolveContext::GitRoot => s.append("failed to resolve Git root"),
        ResolveContext::Tmpdir => s.append("failed to resolve TMPDIR"),
    }
}

fn push_display_list(s: &mut String, l: &Vec<Vec<u8>>)
    ensures
        final(s)@ == old(s)@ + displayed_list(path_views(l@)),
{
    let ghost start = s@;
    let ghost views = path_views(l@);
    let mut i: usize = 0;
    while i < l.len()
        invariant
            i <= l@.len(),
            views == path_views(l@),
            s@ == start + displayed_list(views.take(i as int)),
        decreases l.len() - i,
    {
        proof {
            assert(views.take(i + 1).drop_last() == views.take(i as int));
            assert(views.take(i + 1).last() == l@[i as int]@);
        }
        if i > 0 {
            s.append(", ");
        } else {
            assert(displayed_list(views.take(0)) == Seq::<char>::empty());
        }
        push_display(s, l[i].as_slice());
        i = i + 1;
    }
    assert(views.take(l@.len() as int) == views);
}

impl ErrorOf<Vec<u8>, String, Vec<Vec<u8>>> {
    /// The error message, as it is displayed.
    pub fn to_string(&self) -> (s: String)
        ensures
            s@ == self@.message(),
    {
        let mut s = String::new();
        match self {
            ErrorOf::ProfileWithConfig => s.append(
                "--profile cannot be used together with --config",
            ),
            ErrorOf::NotAFile(c, p) => {
                s.append(file_context_str(*c));
                s.append(": ");
                push_display(&mut s, p.as_slice());
            },
            ErrorOf::ResolveFailed(c, p) => {
                push_resolve_context(&mut s, *c);
                s.append(": ");
                push_display(&mut s, p.as_slice());
            },
            ErrorOf::HomeHasNoParent(p) => {
                s.append("resolved HOME has no parent: ");
                push_display(&mut s, p.as_slice());
            },
            ErrorOf::InspectFailed(a, p) => {
                s.append("failed to inspect ");
                s.append(a.option_name());
                s.append(" path: ");
                push_display(&mut s, p.as_slice());
            },
            ErrorOf::NotFileOrDirectory(a, p) => {
                s.append(a.option_name());
                s.append(" path must be a file or directory: ");
                push_display(&mut s, p.as_slice());
            },
            ErrorOf::BroadDirectory(a, p) => {
                s.append(a.option_name());
                s.append(" directory is too broad: ");
                push_display(&mut s, p.as_slice());
            },
            ErrorOf::ConfigNotFound(p) => {
                s.append("config file not found: ");
                push_display(&mut s, p.as_slice());
            },
            ErrorOf::ConfigNotFoundChecked(p, l) => {
                s.append("config file not found: ");
                push_display(&mut s, p.as_slice());
                s.append(" (checked: ");
                push_display_list(&mut s, l);
                s.append(")");
            },
            ErrorOf::ConfigReadFailed(p) => {
                s.append("failed to read config file: ");
                push_display(&mut s, p.as_slice());
            },
            ErrorOf::ConfigParseFailed(p) => {
                s.append("failed to parse config file: ");
                push_display(&mut s, p.as_slice());
            },
            ErrorOf::NoProfiles => s.append("config must contain at least one profile"),
            ErrorOf::AbsoluteProfileEntry(r, e) => {
                s.append("profile entries must be relative to ");
                push_display(&mut s, r.as_slice());
                s.append(": ");
                push_display(&mut s, e.as_slice());
            },
            ErrorOf::ProfilePathNotUtf8(p) => {
                s.append("profile path is not valid UTF-8: ");
                push_display(&mut s, p.as_slice());
            },
            ErrorOf::ProfilePathControl(t) => {
                s.append("profile path contains control characters: ");
                s.append(t.as_str());
            },
            ErrorOf::RunFromHome(p) => {
                s.append("refusing to run from $HOME (");
                push_display(&mut s, p.as_slice());
                s.append(
                    ")\n\nRunning from $HOME would grant write access to your entire home directory, defeating the purpose of the sandbox.\n\nInstead, cd into a project directory first:\n  cd ~/my-project && seatbelt run <command>",
                );
            },
            ErrorOf::TmpdirOutside(p) => {
                s.append("TMPDIR must resolve under /private/var/folders: ");
                push_display(&mut s, p.as_slice());
            },
            ErrorOf::EnvNotSet(t) => {
                s.append("environment variable is not set: ");
                s.append(t.as_str());
            },
            ErrorOf::GitRootNotUtf8 => s.append("git root path was not valid UTF-8"),
            ErrorOf::RequiredEnvNotSet(t) => {
                s.append("required environment variable is not set: ");
                s.append(t.as_str());
            },
            ErrorOf::CurrentDirFailed => s.append("failed to read current directory"),
        }
        s
    }
}

} // verus!
