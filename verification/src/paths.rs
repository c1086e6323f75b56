//! Resolved paths, and the file-system lookups that the configuration code
//! makes, answered from a snapshot.
use vstd::prelude::*;
use vstd::slice::slice_to_vec;

use crate::config::ConfigFile;
use crate::error::{ErrorOf, ErrorView, FileContext, ResolveContext, SeatbeltError};
use crate::text::{lossy_string, lossy_utf8};
use crate::unix_path::bytes_eq;

verus! {

/// A path that `fs::canonicalize` produced.
#[derive(Debug, PartialEq, Eq)]
pub struct CanonicalPathBuf(Vec<u8>);

impl View for CanonicalPathBuf {
    type V = Seq<u8>;

    closed spec fn view(&self) -> Seq<u8> {
        self.0@
    }
}

impl DeepView for CanonicalPathBuf {
    type V = Seq<u8>;

    open spec fn deep_view(&self) -> Seq<u8> {
        self@
    }
}

impl Clone for CanonicalPathBuf {
    fn clone(&self) -> (r: Self)
        ensures
            r@ == self@,
    {
        CanonicalPathBuf(slice_to_vec(self.0.as_slice()))
    }
}

impl CanonicalPathBuf {
    /// Resolves `path` as `fs::canonicalize` does, failing with `context`.
    pub fn new(fs: &FsSnapshot, path: &[u8], context: ResolveContext) -> (r: Result<
        CanonicalPathBuf,
        Halt,
    >)
        ensures
            match r {
                Ok(c) => fs.canonical(path@, context) == Ok::<Seq<u8>, HaltView>(c@),
                Err(h) => fs.canonical(path@, context) == Err::<Seq<u8>, HaltView>(h@),
            },
    {
        let resolved = canonicalize(fs, path, context)?;
        Ok(CanonicalPathBuf(resolved))
    }

    /// Wraps a path that the file system has already resolved.
    pub(crate) fn from_resolved(path: Vec<u8>) -> (r: CanonicalPathBuf)
        ensures
            r@ == path@,
    {
        CanonicalPathBuf(path)
    }

    /// Takes a path as already resolved, for setting up tests.
    pub fn assume_canonical_for_test(path: Vec<u8>) -> (r: CanonicalPathBuf)
        ensures
            r@ == path@,
    {
        CanonicalPathBuf(path)
    }

    pub fn as_path(&self) -> (p: &[u8])
        ensures
            p@ == self@,
    {
        self.0.as_slice()
    }

    pub fn into_path_buf(self) -> (p: Vec<u8>)
        ensures
            p@ == self@,
    {
        self.0
    }

    /// The path as it is displayed.
    pub fn display(&self) -> (s: String)
        ensures
            s@ == lossy_utf8(self@),
    {
        lossy_string(self.0.as_slice())
    }
}

/// The type of a file-system entry.
#[derive(Debug, Clone, Copy, PartialEq, Eq, Structural)]
pub enum PathKind {
    File,
    Directory,
    Other,
}

/// What the file system answered about one path: what `fs::canonicalize`
/// gave for it, and the type that `fs::metadata` reported (both follow
/// symbolic links; `None` when the call failed).
#[derive(Debug)]
pub struct PathProbe {
    pub path: Vec<u8>,
    pub resolved: Option<Vec<u8>>,
    pub kind: Option<PathKind>,
}

/// The answers that the file system has given so far: one per path, and
/// the config files that have been read.
#[derive(Debug)]
pub struct FsSnapshot {
    pub probes: Vec<PathProbe>,
    pub configs: Vec<ConfigFile>,
}

/// Why a lookup stopped: an error of the library, or a question that the
/// snapshot has no answer for yet (the type of a path and what it resolves
/// to, the contents of a config file, or the Git root of a directory).
#[derive(Debug, PartialEq, Eq)]
pub enum HaltOf<E, P> {
    Error(E),
    NeedProbe(P),
    NeedConfig(P),
    NeedGitRoot(P),
}

pub type Halt = HaltOf<SeatbeltError, Vec<u8>>;

pub type HaltView = HaltOf<ErrorView, Seq<u8>>;

impl View for HaltOf<SeatbeltError, Vec<u8>> {
    type V = HaltView;

    open spec fn view(&self) -> HaltView {
        match self {
            HaltOf::Error(e) => HaltOf::Error(e@),
            HaltOf::NeedProbe(p) => HaltOf::NeedProbe(p@),
            HaltOf::NeedConfig(p) => HaltOf::NeedConfig(p@),
            HaltOf::NeedGitRoot(p) => HaltOf::NeedGitRoot(p@),
        }
    }
}

pub open spec fn fail(e: ErrorView) -> HaltView {
    HaltOf::Error(e)
}

/// The view of a lookup that yields a path.
pub open spec fn path_result(r: Result<Vec<u8>, Halt>) -> Result<Seq<u8>, HaltView> {
    match r {
        Ok(v) => Ok(v@),
        Err(h) => Err(h@),
    }
}

/// The first config file recorded for `p`.
pub open spec fn find_config(configs: Seq<ConfigFile>, p: Seq<u8>) -> Option<ConfigFile>
    decreases configs.len(),
{
    if configs.len() == 0 {
        None
    } else if configs[0].path@ == p {
        Some(configs[0])
    } else {
        find_config(configs.drop_first(), p)
    }
}

/// The first answer recorded for `p`.
pub open spec fn find_probe(probes: Seq<PathProbe>, p: Seq<u8>) -> Option<PathProbe>
    decreases probes.len(),
{
    if probes.len() == 0 {
        None
    } else if probes[0].path@ == p {
        Some(probes[0])
    } else {
        find_probe(probes.drop_first(), p)
    }
}

impl FsSnapshot {
    pub open spec fn probe(self, p: Seq<u8>) -> Option<PathProbe> {
        find_probe(self.probes@, p)
    }

    /// `fs::canonicalize(p)`, failing with the given context.
    pub open spec fn canonical(self, p: Seq<u8>, ctx: ResolveContext) -> Result<
        Seq<u8>,
        HaltView,
    > {
        match self.probe(p) {
            None => Err(HaltOf::NeedProbe(p)),
            Some(pr) => match pr.resolved {
                Some(r) => Ok(r@),
                None => Err(fail(ErrorOf::ResolveFailed(ctx, p))),
            },
        }
    }

    /// `p.is_file()` (or `p.is_dir()` for `Directory`).
    pub open spec fn is_kind(self, p: Seq<u8>, k: PathKind) -> Result<bool, HaltView> {
        match self.probe(p) {
            None => Err(HaltOf::NeedProbe(p)),
            Some(pr) => Ok(pr.kind == Some(k)),
        }
    }

    pub open spec fn config_file(self, p: Seq<u8>) -> Option<ConfigFile> {
        find_config(self.configs@, p)
    }

    /// A snapshot that has no answer yet.
    pub fn new() -> (s: FsSnapshot)
        ensures
            s.probes@.len() == 0,
            s.configs@.len() == 0,
    {
        FsSnapshot { probes: Vec::new(), configs: Vec::new() }
    }

    /// Records what reading one config file gave.
    pub fn record_config(&mut self, config: ConfigFile)
        ensures
            final(self).configs@ == old(self).configs@.push(config),
            final(self).probes@ == old(self).probes@,
    {
        self.configs.push(config);
    }

    /// The first config file recorded for `p`.
    pub fn lookup_config(&self, p: &[u8]) -> (r: Option<&ConfigFile>)
        ensures
            match r {
                Some(c) => self.config_file(p@) == Some(*c),
                None => self.config_file(p@) is None,
            },
    {
        let mut i: usize = 0;
        assert(self.configs@.skip(0) == self.configs@);
        while i < self.configs.len()
            invariant
                i <= self.configs@.len(),
                find_config(self.configs@.skip(i as int), p@) == self.config_file(p@),
            decreases self.configs.len() - i,
        {
            assert(self.configs@.skip(i as int).drop_first() == self.configs@.skip(i + 1));
            if bytes_eq(self.configs[i].path.as_slice(), p) {
                return Some(&self.configs[i]);
            }
            i = i + 1;
        }
        None
    }

    /// Records the answer for one more path.
    pub fn record(&mut self, probe: PathProbe)
        ensures
            final(self).probes@ == old(self).probes@.push(probe),
            final(self).configs@ == old(self).configs@,
    {
        self.probes.push(probe);
    }

    /// The first answer recorded for `p`.
    pub fn lookup(&self, p: &[u8]) -> (r: Option<&PathProbe>)
        ensures
            match r {
                Some(pr) => self.probe(p@) == Some(*pr),
                None => self.probe(p@) is None,
            },
    {
        let mut i: usize = 0;
        assert(self.probes@.skip(0) == self.probes@);
        while i < self.probes.len()
            invariant
                i <= self.probes@.len(),
                find_probe(self.probes@.skip(i as int), p@) == self.probe(p@),
            decreases self.probes.len() - i,
        {
            assert(self.probes@.skip(i as int).drop_first() == self.probes@.skip(i + 1));
            if bytes_eq(self.probes[i].path.as_slice(), p) {
                return Some(&self.probes[i]);
            }
            i = i + 1;
        }
        None
    }
}

/// Resolves `path` as `fs::canonicalize` does, failing with `context`.
pub fn canonicalize(fs: &FsSnapshot, path: &[u8], context: ResolveContext) -> (r: Result<
    Vec<u8>,
    Halt,
>)
    ensures
        path_result(r) == fs.canonical(path@, context),
{
    match fs.lookup(path) {
        None => Err(HaltOf::NeedProbe(slice_to_vec(path))),
        Some(pr) => match &pr.resolved {
            Some(r) => Ok(slice_to_vec(r.as_slice())),
            None => Err(HaltOf::Error(ErrorOf::ResolveFailed(context, slice_to_vec(path)))),
        },
    }
}

/// Whether `path` is an entry of the given type.
pub fn is_kind(fs: &FsSnapshot, path: &[u8], kind: PathKind) -> (r: Result<bool, Halt>)
    ensures
        match r {
            Ok(b) => fs.is_kind(path@, kind) == Ok::<bool, HaltView>(b),
            Err(h) => fs.is_kind(path@, kind) == Err::<bool, HaltView>(h@),
        },
{
    match fs.lookup(path) {
        None => Err(HaltOf::NeedProbe(slice_to_vec(path))),
        Some(pr) => Ok(pr.kind == Some(kind)),
    }
}

/// An existing file, resolved: not a file fails with `context`.
pub open spec fn existing_file(fs: FsSnapshot, path: Seq<u8>, context: FileContext) -> Result<
    Seq<u8>,
    HaltView,
> {
    match fs.is_kind(path, PathKind::File) {
        Err(h) => Err(h),
        Ok(false) => Err(fail(ErrorOf::NotAFile(context, path))),
        Ok(true) => fs.canonical(path, ResolveContext::FilePath),
    }
}

/// Resolves `path`, which must be an existing file.
pub fn canonicalize_existing_file(fs: &FsSnapshot, path: &[u8], context: FileContext) -> (r:
    Result<Vec<u8>, Halt>)
    ensures
        path_result(r) == existing_file(*fs, path@, context),
{
    let is_file = is_kind(fs, path, PathKind::File)?;
    if !is_file {
        return Err(HaltOf::Error(ErrorOf::NotAFile(context, slice_to_vec(path))));
    }
    canonicalize(fs, path, ResolveContext::FilePath)
}

} // verus!
