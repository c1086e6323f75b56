//! Helpers for setting up tests of the library.
use vstd::prelude::*;
use vstd::slice::slice_to_vec;
use vstd::string::*;

use crate::env_name::{valid_env_name, EnvName};
use crate::error::ResolveContext;
use crate::paths::{CanonicalPathBuf, FsSnapshot, HaltView};
use crate::profile::{ProfileOf, SandboxProfile};
use crate::text::{str_contains, text_contains};

verus! {

broadcast use vstd::string::group_string_axioms;

/// The value of a setup step that must succeed.
pub fn must<T, E: core::fmt::Debug>(result: Result<T, E>) -> (t: T)
    requires
        result is Ok,
    ensures
        t == result->Ok_0,
{
    result.expect("fallible test setup failed")
}

/// The environment variable name `value`, which must be valid.
pub fn env_name(value: &str) -> (name: EnvName)
    requires
        valid_env_name(value@),
    ensures
        name@ == value@,
{
    must(EnvName::try_from(value.to_owned()))
}

/// `path` resolved against the snapshot; resolving it must succeed.
pub fn canonicalized(fs: &FsSnapshot, path: &[u8], context: ResolveContext) -> (c:
    CanonicalPathBuf)
    requires
        fs.canonical(path@, context) is Ok,
    ensures
        fs.canonical(path@, context) == Ok::<Seq<u8>, HaltView>(c@),
{
    must(CanonicalPathBuf::new(fs, path, context))
}

/// A path taken as already resolved.
pub fn canonical_path(path: &str) -> (c: CanonicalPathBuf)
    ensures
        c@ == path.spec_bytes(),
{
    CanonicalPathBuf::assume_canonical_for_test(slice_to_vec(path.as_bytes()))
}

/// The profile is generated text that contains `needle`.
pub fn profile_text_contains(profile: &SandboxProfile, needle: &str) -> (b: bool)
    ensures
        b == (profile matches ProfileOf::Text(actual) && text_contains(actual@, needle@)),
{
    match profile {
        ProfileOf::Text(actual) => str_contains(actual.as_str(), needle),
        ProfileOf::File(_) => false,
    }
}

/// The profile is generated text that does not contain `needle`.
pub fn profile_text_excludes(profile: &SandboxProfile, needle: &str) -> (b: bool)
    ensures
        b == (profile matches ProfileOf::Text(actual) && !text_contains(actual@, needle@)),
{
    match profile {
        ProfileOf::Text(actual) => !str_contains(actual.as_str(), needle),
        ProfileOf::File(_) => false,
    }
}

} // verus!
