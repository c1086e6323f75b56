//! Extra read and write paths granted to the sandbox.
use vstd::prelude::*;
use vstd::string::*;

use vstd::slice::slice_to_vec;

use crate::error::{ErrorOf, ErrorView, ResolveContext, SeatbeltError};
use crate::paths::{
    canonicalize, fail, is_kind, path_result, CanonicalPathBuf, FsSnapshot, Halt, HaltOf,
    HaltView, PathKind,
};
use crate::profile::allow_views;
use crate::text::lossy_utf8;
use crate::error::push_display;
use crate::unix_path::{expand_home, expand_home_path, join, joined, parent, parent_of, path_eq, path_starts_with, same_path, starts_with_path};

verus! {

broadcast use vstd::string::group_string_axioms;

/// Which kind of access an extra path is granted.
#[derive(Debug, Clone, Copy, PartialEq, Eq, Structural)]
pub enum AllowAccess {
    Read,
    Write,
}

impl AllowAccess {
    pub open spec fn spec_option_name(self) -> Seq<char> {
        match self {
            AllowAccess::Read => "--allow-read"@,
            AllowAccess::Write => "--allow-write"@,
        }
    }

    pub open spec fn spec_source_label(self) -> Seq<char> {
        match self {
            AllowAccess::Read => "allow.read/--allow-read"@,
            AllowAccess::Write => "allow.write/--allow-write"@,
        }
    }

    pub open spec fn spec_comment(self) -> Seq<char> {
        match self {
            AllowAccess::Read => "Additional read-only paths from allow.read/--allow-read"@,
            AllowAccess::Write => "Additional read/write paths from allow.write/--allow-write"@,
        }
    }

    pub open spec fn spec_sbpl_permissions(self) -> Seq<char> {
        match self {
            AllowAccess::Read => "file-read*"@,
            AllowAccess::Write => "file-read* file-write*"@,
        }
    }

    /// The command-line option that grants this access.
    pub fn option_name(self) -> (s: &'static str)
        ensures
            s@ == self.spec_option_name(),
    {
        match self {
            AllowAccess::Read => "--allow-read",
            AllowAccess::Write => "--allow-write",
        }
    }

    /// Where such paths come from: the config key and the option.
    pub fn source_label(self) -> (s: &'static str)
        ensures
            s@ == self.spec_source_label(),
    {
        match self {
            AllowAccess::Read => "allow.read/--allow-read",
            AllowAccess::Write => "allow.write/--allow-write",
        }
    }

    /// The comment written above the paths in the profile.
    pub fn comment(self) -> (s: &'static str)
        ensures
            s@ == self.spec_comment(),
    {
        match self {
            AllowAccess::Read => "Additional read-only paths from allow.read/--allow-read",
            AllowAccess::Write => "Additional read/write paths from allow.write/--allow-write",
        }
    }

    /// The SBPL operations that the access allows.
    pub fn sbpl_permissions(self) -> (s: &'static str)
        ensures
            s@ == self.spec_sbpl_permissions(),
    {
        match self {
            AllowAccess::Read => "file-read*",
            AllowAccess::Write => "file-read* file-write*",
        }
    }
}

/// A resolved extra path, over a type of paths `P`: a file, or a directory
/// whose whole subtree is granted.
#[derive(Debug, Clone, PartialEq, Eq)]
pub enum AllowPathOf<P> {
    File(P),
    Directory(P),
}

pub type ResolvedAllowPath = AllowPathOf<CanonicalPathBuf>;

/// Another name for a resolved extra path.
pub type AllowPath = AllowPathOf<CanonicalPathBuf>;

pub type AllowPathView = AllowPathOf<Seq<u8>>;

impl DeepView for AllowPathOf<CanonicalPathBuf> {
    type V = AllowPathView;

    open spec fn deep_view(&self) -> AllowPathView {
        match self {
            AllowPathOf::File(p) => AllowPathOf::File(p@),
            AllowPathOf::Directory(p) => AllowPathOf::Directory(p@),
        }
    }
}

impl AllowPathOf<Seq<u8>> {
    pub open spec fn spec_path(self) -> Seq<u8> {
        match self {
            AllowPathOf::File(p) => p,
            AllowPathOf::Directory(p) => p,
        }
    }

    pub open spec fn is_directory(self) -> bool {
        self is Directory
    }
}

impl AllowPathOf<CanonicalPathBuf> {
    /// The resolved path.
    pub fn path(&self) -> (p: &[u8])
        ensures
            p@ == self.deep_view().spec_path(),
    {
        match self {
            AllowPathOf::File(path) => path.as_path(),
            AllowPathOf::Directory(path) => path.as_path(),
        }
    }
}


/// What one requested path becomes: the resolved path, classified as a
/// file or a directory.
pub open spec fn allow_path_entry(fs: FsSnapshot, access: AllowAccess, expanded: Seq<u8>) -> Result<
    AllowPathView,
    HaltView,
> {
    match fs.probe(expanded) {
        None => Err(HaltOf::NeedProbe(expanded)),
        Some(pr) => match pr.resolved {
            None => Err(fail(ErrorOf::ResolveFailed(ResolveContext::AllowPath(access), expanded))),
            Some(r) => match pr.kind {
                None => Err(fail(ErrorOf::InspectFailed(access, r@))),
                Some(PathKind::File) => Ok(AllowPathOf::File(r@)),
                Some(PathKind::Directory) => Ok(AllowPathOf::Directory(r@)),
                Some(PathKind::Other) => Err(fail(ErrorOf::NotFileOrDirectory(access, r@))),
            },
        },
    }
}

/// The requested paths, each with `~` expanded and then resolved; the first
/// failure stops.
pub open spec fn allow_path_entries(
    fs: FsSnapshot,
    home: Seq<u8>,
    access: AllowAccess,
    paths: Seq<Seq<u8>>,
) -> Result<Seq<AllowPathView>, HaltView>
    decreases paths.len(),
{
    if paths.len() == 0 {
        Ok(seq![])
    } else {
        match allow_path_entries(fs, home, access, paths.drop_last()) {
            Err(h) => Err(h),
            Ok(v) => match allow_path_entry(fs, access, expand_home(home, paths.last())) {
                Err(h) => Err(h),
                Ok(e) => Ok(v.push(e)),
            },
        }
    }
}

/// An existing directory is added, resolved; a missing one is skipped.
pub open spec fn with_existing_directory(fs: FsSnapshot, dirs: Seq<Seq<u8>>, path: Seq<u8>) -> Result<
    Seq<Seq<u8>>,
    HaltView,
> {
    match fs.is_kind(path, PathKind::Directory) {
        Err(h) => Err(h),
        Ok(false) => Ok(dirs),
        Ok(true) => match fs.canonical(path, ResolveContext::BroadDirectory) {
            Err(h) => Err(h),
            Ok(r) => Ok(dirs.push(r)),
        },
    }
}

/// The directories too broad to grant: `/`, the directory that holds the
/// home directory, the home directory itself, and `~/Documents` and `~/src`
/// where they exist; all resolved.
pub open spec fn broad_directory_set(fs: FsSnapshot, home: Seq<u8>) -> Result<Seq<Seq<u8>>, HaltView> {
    match fs.canonical(home, ResolveContext::Home) {
        Err(h) => Err(h),
        Ok(resolved_home) => match parent_of(resolved_home) {
            None => Err(fail(ErrorOf::HomeHasNoParent(resolved_home))),
            Some(users) => match fs.canonical(users, ResolveContext::UsersDirectory) {
                Err(h) => Err(h),
                Ok(resolved_users) => {
                    let base = seq![seq![crate::unix_path::SLASH], resolved_users, resolved_home];
                    match with_existing_directory(
                        fs,
                        base,
                        joined(resolved_home, "Documents"@.map_values(|c: char| c as u8)),
                    ) {
                        Err(h) => Err(h),
                        Ok(d) => with_existing_directory(
                            fs,
                            d,
                            joined(resolved_home, "src"@.map_values(|c: char| c as u8)),
                        ),
                    }
                },
            },
        },
    }
}

/// `path` is one of the broad directories.
pub open spec fn overly_broad(path: Seq<u8>, broad: Seq<Seq<u8>>) -> bool {
    exists|i: int| 0 <= i < broad.len() && same_path(path, #[trigger] broad[i])
}

pub open spec fn broad_entry(p: AllowPathView, broad: Seq<Seq<u8>>) -> bool {
    p.is_directory() && overly_broad(p.spec_path(), broad)
}

/// The first directory among `ps` that is too broad, if any.
pub open spec fn first_broad(ps: Seq<AllowPathView>, broad: Seq<Seq<u8>>) -> Option<Seq<u8>>
    decreases ps.len(),
{
    if ps.len() == 0 {
        None
    } else {
        match first_broad(ps.drop_last(), broad) {
            Some(p) => Some(p),
            None => if broad_entry(ps.last(), broad) {
                Some(ps.last().spec_path())
            } else {
                None
            },
        }
    }
}

/// The requested paths resolved, refusing any directory that is too broad.
pub open spec fn resolved_allow_paths(
    fs: FsSnapshot,
    home: Seq<u8>,
    paths: Seq<Seq<u8>>,
    access: AllowAccess,
) -> Result<Seq<AllowPathView>, HaltView> {
    match allow_path_entries(fs, home, access, paths) {
        Err(h) => Err(h),
        Ok(ps) => if ps.len() == 0 {
            Ok(ps)
        } else {
            match broad_directory_set(fs, home) {
                Err(h) => Err(h),
                Ok(broad) => match first_broad(ps, broad) {
                    Some(p) => Err(fail(ErrorOf::BroadDirectory(access, p))),
                    None => Ok(ps),
                },
            }
        },
    }
}

pub open spec fn allow_result(r: Result<Vec<ResolvedAllowPath>, Halt>) -> Result<
    Seq<AllowPathView>,
    HaltView,
> {
    match r {
        Ok(v) => Ok(allow_views(v@)),
        Err(h) => Err(h@),
    }
}

pub open spec fn paths_result(r: Result<Vec<Vec<u8>>, Halt>) -> Result<Seq<Seq<u8>>, HaltView> {
    match r {
        Ok(v) => Ok(v@.map_values(|p: Vec<u8>| p@)),
        Err(h) => Err(h@),
    }
}

proof fn lemma_first_broad(ps: Seq<AllowPathView>, broad: Seq<Seq<u8>>)
    ensures
        first_broad(ps, broad) is None <==> forall|i: int|
            0 <= i < ps.len() ==> !broad_entry(#[trigger] ps[i], broad),
        first_broad(ps, broad) matches Some(p) ==> exists|k: int|
            0 <= k < ps.len() && broad_entry(#[trigger] ps[k], broad) && ps[k].spec_path() == p
                && forall|j: int| 0 <= j < k ==> !broad_entry(#[trigger] ps[j], broad),
    decreases ps.len(),
{
    if ps.len() > 0 {
        lemma_first_broad(ps.drop_last(), broad);
        let q = ps.drop_last();
        assert(forall|i: int| 0 <= i < q.len() ==> q[i] == ps[i]);
        if first_broad(q, broad) is None && broad_entry(ps.last(), broad) {
            let k = ps.len() - 1;
            assert(broad_entry(ps[k], broad));
        }
    }
}

proof fn lemma_allow_path_entries_stop(
    fs: FsSnapshot,
    home: Seq<u8>,
    access: AllowAccess,
    s: Seq<Seq<u8>>,
    k: int,
)
    requires
        0 <= k <= s.len(),
        allow_path_entries(fs, home, access, s.take(k)) is Err,
    ensures
        allow_path_entries(fs, home, access, s) == allow_path_entries(fs, home, access, s.take(k)),
    decreases s.len() - k,
{
    if k < s.len() {
        assert(s.drop_last().take(k) == s.take(k));
        lemma_allow_path_entries_stop(fs, home, access, s.drop_last(), k);
    } else {
        assert(s.take(k) == s);
    }
}

/// Resolves the requested extra paths: each is expanded for `~`, resolved,
/// and must be a file or a directory; then no directory may be too broad.
pub fn resolve_allow_paths(
    home: &[u8],
    paths: &[Vec<u8>],
    access: AllowAccess,
    fs: &FsSnapshot,
) -> (r: Result<Vec<ResolvedAllowPath>, Halt>)
    ensures
        allow_result(r) == resolved_allow_paths(
            *fs,
            home@,
            paths@.map_values(|p: Vec<u8>| p@),
            access,
        ),
{
    let ghost views = paths@.map_values(|p: Vec<u8>| p@);
    let mut resolved_paths: Vec<ResolvedAllowPath> = Vec::new();
    let mut i: usize = 0;
    assert(views.take(0) == Seq::<Seq<u8>>::empty());
    assert(allow_views(resolved_paths@) == Seq::<AllowPathView>::empty());
    while i < paths.len()
        invariant
            i <= paths@.len(),
            views == paths@.map_values(|p: Vec<u8>| p@),
            allow_path_entries(*fs, home@, access, views.take(i as int)) == Ok::<
                Seq<AllowPathView>,
                HaltView,
            >(allow_views(resolved_paths@)),
        decreases paths.len() - i,
    {
        proof {
            assert(views.take(i + 1).drop_last() == views.take(i as int));
            assert(views.take(i + 1).last() == paths@[i as int]@);
        }
        let expanded_path = expand_home_path(home, paths[i].as_slice());
        let entry = match allow_path_entry_of(fs, access, expanded_path.as_slice()) {
            Ok(entry) => entry,
            Err(h) => {
                proof {
                    lemma_allow_path_entries_stop(*fs, home@, access, views, i + 1);
                }
                return Err(h);
            },
        };
        let ghost before = resolved_paths@;
        resolved_paths.push(entry);
        assert(allow_views(resolved_paths@) == allow_views(before).push(entry.deep_view()));
        i = i + 1;
    }
    assert(views.take(paths@.len() as int) == views);
    if resolved_paths.len() > 0 {
        match reject_overly_broad_directories(home, resolved_paths.as_slice(), access, fs) {
            Ok(()) => {},
            Err(h) => {
                return Err(h);
            },
        }
    }
    Ok(resolved_paths)
}

/// Resolves and classifies one expanded path.
fn allow_path_entry_of(fs: &FsSnapshot, access: AllowAccess, expanded: &[u8]) -> (r: Result<
    ResolvedAllowPath,
    Halt,
>)
    ensures
        match r {
            Ok(e) => allow_path_entry(*fs, access, expanded@) == Ok::<AllowPathView, HaltView>(
                e.deep_view(),
            ),
            Err(h) => allow_path_entry(*fs, access, expanded@) == Err::<AllowPathView, HaltView>(
                h@,
            ),
        },
{
    match fs.lookup(expanded) {
        None => Err(HaltOf::NeedProbe(slice_to_vec(expanded))),
        Some(pr) => match &pr.resolved {
            None => Err(
                HaltOf::Error(
                    ErrorOf::ResolveFailed(ResolveContext::AllowPath(access), slice_to_vec(expanded)),
                ),
            ),
            Some(resolved) => {
                let resolved = slice_to_vec(resolved.as_slice());
                match pr.kind {
                    None => Err(HaltOf::Error(ErrorOf::InspectFailed(access, resolved))),
                    Some(PathKind::File) => Ok(
                        AllowPathOf::File(CanonicalPathBuf::from_resolved(resolved)),
                    ),
                    Some(PathKind::Directory) => Ok(
                        AllowPathOf::Directory(
                            CanonicalPathBuf::from_resolved(resolved),
                        ),
                    ),
                    Some(PathKind::Other) => Err(
                        HaltOf::Error(ErrorOf::NotFileOrDirectory(access, resolved)),
                    ),
                }
            },
        },
    }
}

/// Refuses the first directory among `paths` that is one of the broad
/// directories.
pub fn reject_overly_broad_directories(
    home: &[u8],
    paths: &[ResolvedAllowPath],
    access: AllowAccess,
    fs: &FsSnapshot,
) -> (r: Result<(), Halt>)
    ensures
        match broad_directory_set(*fs, home@) {
            Err(h) => r is Err && r->Err_0@ == h,
            Ok(broad) => match first_broad(allow_views(paths@), broad) {
                Some(p) => r is Err && r->Err_0@ == fail(ErrorOf::BroadDirectory(access, p)),
                None => r is Ok,
            },
        },
{
    let broad_directories = broad_directory_paths(home, fs)?;
    let ghost broad = broad_directories@.map_values(|p: Vec<u8>| p@);
    let ghost views = allow_views(paths@);
    let mut i: usize = 0;
    assert(views.take(0) == Seq::<AllowPathView>::empty());
    while i < paths.len()
        invariant
            i <= paths@.len(),
            views == allow_views(paths@),
            broad == broad_directories@.map_values(|p: Vec<u8>| p@),
            broad_directory_set(*fs, home@) == Ok::<Seq<Seq<u8>>, HaltView>(broad),
            first_broad(views.take(i as int), broad) is None,
        decreases paths.len() - i,
    {
        proof {
            assert(views.take(i + 1).drop_last() == views.take(i as int));
            assert(views.take(i + 1).last() == paths@[i as int].deep_view());
        }
        match &paths[i] {
            AllowPathOf::Directory(path) => {
                if is_overly_broad_directory(path.as_path(), &broad_directories) {
                    proof {
                        assert(views.take(i + 1).last() == AllowPathOf::Directory(path@));
                        assert(broad_entry(views.take(i + 1).last(), broad));
                        assert(first_broad(views.take(i + 1), broad) == Some(path@));
                        lemma_first_broad_stop(views, broad, i + 1);
                    }
                    return Err(
                        HaltOf::Error(
                            ErrorOf::BroadDirectory(access, slice_to_vec(path.as_path())),
                        ),
                    );
                }
            },
            AllowPathOf::File(_) => {},
        }
        i = i + 1;
    }
    assert(views.take(paths@.len() as int) == views);
    Ok(())
}

proof fn lemma_first_broad_stop(s: Seq<AllowPathView>, broad: Seq<Seq<u8>>, k: int)
    requires
        0 <= k <= s.len(),
        first_broad(s.take(k), broad) is Some,
    ensures
        first_broad(s, broad) == first_broad(s.take(k), broad),
    decreases s.len() - k,
{
    if k < s.len() {
        assert(s.drop_last().take(k) == s.take(k));
        lemma_first_broad_stop(s.drop_last(), broad, k);
    } else {
        assert(s.take(k) == s);
    }
}

/// The directories that may not be granted, resolved.
pub fn broad_directory_paths(home: &[u8], fs: &FsSnapshot) -> (r: Result<Vec<Vec<u8>>, Halt>)
    ensures
        paths_result(r) == broad_directory_set(*fs, home@),
{
    let resolved_home = canonicalize(fs, home, ResolveContext::Home)?;
    let users = match parent(resolved_home.as_slice()) {
        Some(users) => users,
        None => {
            return Err(HaltOf::Error(ErrorOf::HomeHasNoParent(resolved_home)));
        },
    };
    let resolved_users_dir = canonicalize(fs, users.as_slice(), ResolveContext::UsersDirectory)?;
    let mut paths: Vec<Vec<u8>> = Vec::new();
    let mut root: Vec<u8> = Vec::new();
    root.push(crate::unix_path::SLASH);
    paths.push(root);
    paths.push(resolved_users_dir);
    paths.push(slice_to_vec(resolved_home.as_slice()));
    let ghost base = paths@.map_values(|p: Vec<u8>| p@);
    assert(base =~= seq![seq![crate::unix_path::SLASH], paths@[1]@, resolved_home@]);
    let documents: [u8; 9] = [68, 111, 99, 117, 109, 101, 110, 116, 115];
    let src: [u8; 3] = [115, 114, 99];
    proof {
        reveal_strlit("Documents");
        reveal_strlit("src");
        assert(documents@ == "Documents"@.map_values(|c: char| c as u8));
        assert(src@ == "src"@.map_values(|c: char| c as u8));
    }
    push_existing_broad_directory(
        &mut paths,
        join(resolved_home.as_slice(), documents.as_slice()),
        fs,
    )?;
    push_existing_broad_directory(&mut paths, join(resolved_home.as_slice(), src.as_slice()), fs)?;
    Ok(paths)
}

/// Adds `path`, resolved, when it is an existing directory.
pub fn push_existing_broad_directory(paths: &mut Vec<Vec<u8>>, path: Vec<u8>, fs: &FsSnapshot) -> (r:
    Result<(), Halt>)
    ensures
        match with_existing_directory(
            *fs,
            old(paths)@.map_values(|p: Vec<u8>| p@),
            path@,
        ) {
            Ok(d) => r is Ok && final(paths)@.map_values(|p: Vec<u8>| p@) == d,
            Err(h) => r is Err && r->Err_0@ == h,
        },
{
    if is_kind(fs, path.as_slice(), PathKind::Directory)? {
        let resolved = canonicalize(fs, path.as_slice(), ResolveContext::BroadDirectory)?;
        let ghost before = paths@;
        paths.push(resolved);
        assert(paths@.map_values(|p: Vec<u8>| p@) == before.map_values(|p: Vec<u8>| p@).push(
            resolved@,
        ));
    }
    Ok(())
}

/// Whether `path` is one of `broad_directories`, compared as paths.
pub fn is_overly_broad_directory(path: &[u8], broad_directories: &Vec<Vec<u8>>) -> (b: bool)
    ensures
        b == overly_broad(path@, broad_directories@.map_values(|p: Vec<u8>| p@)),
{
    let ghost broad = broad_directories@.map_values(|p: Vec<u8>| p@);
    let mut i: usize = 0;
    while i < broad_directories.len()
        invariant
            i <= broad_directories@.len(),
            broad == broad_directories@.map_values(|p: Vec<u8>| p@),
            forall|j: int| 0 <= j < i ==> !same_path(path@, #[trigger] broad[j]),
        decreases broad_directories.len() - i,
    {
        if path_eq(path, broad_directories[i].as_slice()) {
            assert(same_path(path@, broad[i as int]));
            return true;
        }
        i = i + 1;
    }
    false
}


/// The warning for a granted path that the project directory already covers.
pub open spec fn redundancy_warning(access: AllowAccess, path: Seq<u8>) -> Seq<char> {
    "warning: "@ + access.spec_source_label() + " "@ + lossy_utf8(path)
        + " is already covered by $PROJECT_DIR"@
}

/// One warning for each of `ps` that lies inside `project_dir`, in order.
pub open spec fn redundancy_warnings(
    access: AllowAccess,
    ps: Seq<AllowPathView>,
    project_dir: Seq<u8>,
) -> Seq<Seq<char>>
    decreases ps.len(),
{
    if ps.len() == 0 {
        seq![]
    } else {
        let rest = redundancy_warnings(access, ps.drop_last(), project_dir);
        if starts_with_path(ps.last().spec_path(), project_dir) {
            rest.push(redundancy_warning(access, ps.last().spec_path()))
        } else {
            rest
        }
    }
}

/// Warnings for the granted paths that already lie inside the project
/// directory, which the sandbox grants anyway.
pub fn project_dir_redundancy_warnings(
    access: AllowAccess,
    paths: &[ResolvedAllowPath],
    project_dir: &[u8],
) -> (warnings: Vec<String>)
    ensures
        warnings@.map_values(|w: String| w@) == redundancy_warnings(
            access,
            allow_views(paths@),
            project_dir@,
        ),
{
    let ghost views = allow_views(paths@);
    let source_label = access.source_label();
    let mut warnings: Vec<String> = Vec::new();
    let mut i: usize = 0;
    assert(views.take(0) == Seq::<AllowPathView>::empty());
    while i < paths.len()
        invariant
            i <= paths@.len(),
            views == allow_views(paths@),
            source_label@ == access.spec_source_label(),
            warnings@.map_values(|w: String| w@) == redundancy_warnings(
                access,
                views.take(i as int),
                project_dir@,
            ),
        decreases paths.len() - i,
    {
        proof {
            assert(views.take(i + 1).drop_last() == views.take(i as int));
            assert(views.take(i + 1).last() == paths@[i as int].deep_view());
        }
        let path = paths[i].path();
        if path_starts_with(path, project_dir) {
            let mut warning = String::from_str("warning: ");
            warning.append(source_label);
            warning.append(" ");
            push_display(&mut warning, path);
            warning.append(" is already covered by $PROJECT_DIR");
            let ghost before = warnings@;
            warnings.push(warning);
            assert(warnings@.map_values(|w: String| w@) == before.map_values(|w: String| w@).push(
                warning@,
            ));
        }
        i = i + 1;
    }
    assert(views.take(paths@.len() as int) == views);
    warnings
}


/// What the set of broad directories holds: `/`, the resolved home
/// directory's parent, resolved, and the resolved home directory, in that
/// order, then `~/Documents` and `~/src`, resolved, where they are
/// directories.
pub open spec fn holds_broad_directories(fs: FsSnapshot, home: Seq<u8>, broad: Seq<Seq<u8>>) -> bool {
    let docs = joined(broad[2], "Documents"@.map_values(|c: char| c as u8));
    let src = joined(broad[2], "src"@.map_values(|c: char| c as u8));
    &&& broad.len() >= 3
    &&& broad[0] == seq![crate::unix_path::SLASH]
    &&& fs.canonical(home, ResolveContext::Home) == Ok::<Seq<u8>, HaltView>(broad[2])
    &&& parent_of(broad[2]) is Some
    &&& fs.canonical(parent_of(broad[2])->0, ResolveContext::UsersDirectory) == Ok::<
        Seq<u8>,
        HaltView,
    >(broad[1])
    &&& fs.is_kind(docs, PathKind::Directory) == Ok::<bool, HaltView>(true) ==> exists|k: int|
        0 <= k < broad.len() && fs.canonical(docs, ResolveContext::BroadDirectory) == Ok::<
            Seq<u8>,
            HaltView,
        >(#[trigger] broad[k])
    &&& fs.is_kind(src, PathKind::Directory) == Ok::<bool, HaltView>(true) ==> exists|k: int|
        0 <= k < broad.len() && fs.canonical(src, ResolveContext::BroadDirectory) == Ok::<
            Seq<u8>,
            HaltView,
        >(#[trigger] broad[k])
}

proof fn lemma_allow_path_entries_each(
    fs: FsSnapshot,
    home: Seq<u8>,
    access: AllowAccess,
    paths: Seq<Seq<u8>>,
)
    requires
        allow_path_entries(fs, home, access, paths) is Ok,
    ensures
        allow_path_entries(fs, home, access, paths)->Ok_0.len() == paths.len(),
        forall|i: int|
            0 <= i < paths.len() ==> allow_path_entry(fs, access, expand_home(home, #[trigger] paths[i]))
                == Ok::<AllowPathView, HaltView>(allow_path_entries(fs, home, access, paths)->Ok_0[i]),
    decreases paths.len(),
{
    if paths.len() > 0 {
        let q = paths.drop_last();
        lemma_allow_path_entries_each(fs, home, access, q);
        let v = allow_path_entries(fs, home, access, q)->Ok_0;
        let all = allow_path_entries(fs, home, access, paths)->Ok_0;
        assert(all == v.push(allow_path_entry(fs, access, expand_home(home, paths.last()))->Ok_0));
        assert forall|i: int| 0 <= i < paths.len() implies allow_path_entry(
            fs,
            access,
            expand_home(home, #[trigger] paths[i]),
        ) == Ok::<AllowPathView, HaltView>(all[i]) by {
            if i < q.len() {
                assert(q[i] == paths[i]);
                assert(all[i] == v[i]);
            }
        }
    }
}

proof fn lemma_with_existing_directory(fs: FsSnapshot, dirs: Seq<Seq<u8>>, path: Seq<u8>)
    requires
        with_existing_directory(fs, dirs, path) is Ok,
    ensures
        with_existing_directory(fs, dirs, path)->Ok_0.len() >= dirs.len(),
        with_existing_directory(fs, dirs, path)->Ok_0.take(dirs.len() as int) == dirs,
        fs.is_kind(path, PathKind::Directory) == Ok::<bool, HaltView>(true) ==> fs.canonical(
            path,
            ResolveContext::BroadDirectory,
        ) == Ok::<Seq<u8>, HaltView>(with_existing_directory(fs, dirs, path)->Ok_0.last())
            && with_existing_directory(fs, dirs, path)->Ok_0.len() == dirs.len() + 1,
{
    let d = with_existing_directory(fs, dirs, path)->Ok_0;
    if fs.is_kind(path, PathKind::Directory) == Ok::<bool, HaltView>(true) {
        assert(d.take(dirs.len() as int) == dirs);
    } else {
        assert(d == dirs);
        assert(d.take(dirs.len() as int) == dirs);
    }
}

proof fn lemma_broad_directory_set(fs: FsSnapshot, home: Seq<u8>)
    requires
        broad_directory_set(fs, home) is Ok,
    ensures
        holds_broad_directories(fs, home, broad_directory_set(fs, home)->Ok_0),
{
    let broad = broad_directory_set(fs, home)->Ok_0;
    let rh = fs.canonical(home, ResolveContext::Home)->Ok_0;
    let users = parent_of(rh)->0;
    let ru = fs.canonical(users, ResolveContext::UsersDirectory)->Ok_0;
    let base = seq![seq![crate::unix_path::SLASH], ru, rh];
    let docs = joined(rh, "Documents"@.map_values(|c: char| c as u8));
    let src = joined(rh, "src"@.map_values(|c: char| c as u8));
    lemma_with_existing_directory(fs, base, docs);
    let d1 = with_existing_directory(fs, base, docs)->Ok_0;
    lemma_with_existing_directory(fs, d1, src);
    assert(broad == with_existing_directory(fs, d1, src)->Ok_0);
    assert(broad.take(d1.len() as int) == d1);
    assert(d1.take(3) == base);
    assert(broad[0] == base[0] && broad[1] == base[1] && broad[2] == base[2]) by {
        assert(broad.take(d1.len() as int)[0] == broad[0]);
        assert(broad.take(d1.len() as int)[1] == broad[1]);
        assert(broad.take(d1.len() as int)[2] == broad[2]);
        assert(d1.take(3)[0] == d1[0]);
        assert(d1.take(3)[1] == d1[1]);
        assert(d1.take(3)[2] == d1[2]);
    }
    if fs.is_kind(docs, PathKind::Directory) == Ok::<bool, HaltView>(true) {
        let k = d1.len() - 1;
        assert(broad.take(d1.len() as int)[k] == broad[k]);
        assert(fs.canonical(docs, ResolveContext::BroadDirectory) == Ok::<Seq<u8>, HaltView>(
            broad[k],
        ));
    }
    if fs.is_kind(src, PathKind::Directory) == Ok::<bool, HaltView>(true) {
        let k = broad.len() - 1;
        assert(fs.canonical(src, ResolveContext::BroadDirectory) == Ok::<Seq<u8>, HaltView>(
            broad[k],
        ));
    }
}

/// Every granted path exists as a file or a directory: it is what the path
/// requested at the same position resolves to, with `~` expanded. And no
/// granted directory is, component by component, one of the broad
/// directories: `/`, the directory that holds the home directory, the home
/// directory itself, or `~/Documents` or `~/src` where they exist.
pub proof fn lemma_granted_paths_exist_and_are_not_broad(
    fs: FsSnapshot,
    home: Seq<u8>,
    paths: Seq<Seq<u8>>,
    access: AllowAccess,
)
    requires
        resolved_allow_paths(fs, home, paths, access) is Ok,
    ensures
        ({
            let ps = resolved_allow_paths(fs, home, paths, access)->Ok_0;
            &&& ps.len() == paths.len()
            &&& forall|i: int|
                0 <= i < paths.len() ==> allow_path_entry(
                    fs,
                    access,
                    expand_home(home, #[trigger] paths[i]),
                ) == Ok::<AllowPathView, HaltView>(ps[i])
            &&& ps.len() > 0 ==> {
                &&& broad_directory_set(fs, home) is Ok
                &&& holds_broad_directories(fs, home, broad_directory_set(fs, home)->Ok_0)
                &&& forall|i: int|
                    0 <= i < ps.len() && (#[trigger] ps[i]).is_directory() ==> !overly_broad(
                        ps[i].spec_path(),
                        broad_directory_set(fs, home)->Ok_0,
                    )
            }
        }),
{
    lemma_allow_path_entries_each(fs, home, access, paths);
    let ps = allow_path_entries(fs, home, access, paths)->Ok_0;
    if ps.len() > 0 {
        let broad = broad_directory_set(fs, home)->Ok_0;
        lemma_broad_directory_set(fs, home);
        lemma_first_broad(ps, broad);
        assert forall|i: int| 0 <= i < ps.len() && (#[trigger] ps[i]).is_directory() implies !overly_broad(
            ps[i].spec_path(),
            broad,
        ) by {
            assert(!broad_entry(ps[i], broad));
        }
    }
}


/// The granted paths that lie inside `project_dir`, component by component.
pub open spec fn lies_inside(project_dir: Seq<u8>) -> spec_fn(AllowPathView) -> bool {
    |p: AllowPathView| starts_with_path(p.spec_path(), project_dir)
}

/// The warning text for one granted path.
pub open spec fn warning_for(access: AllowAccess) -> spec_fn(AllowPathView) -> Seq<char> {
    |p: AllowPathView| redundancy_warning(access, p.spec_path())
}

/// The warnings are exactly one per granted path that lies inside the
/// project directory, in the order of the paths; a path outside it gets
/// none.
pub proof fn lemma_redundancy_warnings_are_for_inner_paths(
    access: AllowAccess,
    ps: Seq<AllowPathView>,
    project_dir: Seq<u8>,
)
    ensures
        redundancy_warnings(access, ps, project_dir) == ps.filter(lies_inside(project_dir)).map_values(
            warning_for(access),
        ),
    decreases ps.len(),
{
    let pred = lies_inside(project_dir);
    reveal(Seq::filter);
    if ps.len() == 0 {
        assert(ps.filter(pred).map_values(warning_for(access)) =~= Seq::<Seq<char>>::empty());
    } else {
        lemma_redundancy_warnings_are_for_inner_paths(access, ps.drop_last(), project_dir);
        let f = ps.drop_last().filter(pred);
        let rest = redundancy_warnings(access, ps.drop_last(), project_dir);
        assert(rest == f.map_values(warning_for(access)));
        if starts_with_path(ps.last().spec_path(), project_dir) {
            assert(pred(ps.last()));
            assert(ps.filter(pred) == f.push(ps.last()));
            assert(f.push(ps.last()).map_values(warning_for(access)) =~= f.map_values(
                warning_for(access),
            ).push(redundancy_warning(access, ps.last().spec_path())));
        } else {
            assert(!pred(ps.last()));
            assert(ps.filter(pred) == f);
        }
    }
}

} // verus!
