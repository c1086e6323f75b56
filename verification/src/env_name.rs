//! Environment variable names that may be passed through to the sandbox.
use vstd::prelude::*;
use vstd::string::*;

verus! {

/// `c` may start an environment variable name: an ASCII letter or `_`.
pub open spec fn is_name_start(c: char) -> bool {
    c == '_' || ('a' <= c && c <= 'z') || ('A' <= c && c <= 'Z')
}

/// `c` may continue an environment variable name: an ASCII letter, digit or `_`.
pub open spec fn is_name_continue(c: char) -> bool {
    is_name_start(c) || ('0' <= c && c <= '9')
}

/// A valid name is non-empty, starts with a letter or `_`, and continues with
/// letters, digits or `_` only.
pub open spec fn valid_env_name(s: Seq<char>) -> bool {
    &&& s.len() > 0
    &&& is_name_start(s[0])
    &&& forall|i: int| 1 <= i < s.len() ==> #[trigger] is_name_continue(s[i])
}

/// The message of an `InvalidEnvName` error for `name`.
pub open spec fn invalid_env_name_message(name: Seq<char>) -> Seq<char> {
    "invalid environment variable name: "@ + name
}

/// A validated environment variable name.
#[derive(Debug, PartialEq, Eq)]
pub struct EnvName(String);

impl Clone for EnvName {
    fn clone(&self) -> (r: Self)
        ensures
            r@ == self@,
    {
        proof {
            use_type_invariant(self);
        }
        EnvName(self.0.clone())
    }
}

impl View for EnvName {
    type V = Seq<char>;

    closed spec fn view(&self) -> Seq<char> {
        self.0@
    }
}

/// The error for a string that is not a valid environment variable name.
#[derive(Debug, PartialEq, Eq)]
pub struct InvalidEnvName {
    pub name: String,
}

impl EnvName {
    #[verifier::type_invariant]
    closed spec fn inv(self) -> bool {
        valid_env_name(self.0@)
    }

    /// The name as text; it is always a valid name.
    pub fn as_str(&self) -> (s: &str)
        ensures
            s@ == self@,
            valid_env_name(s@),
    {
        proof {
            use_type_invariant(self);
        }
        self.0.as_str()
    }

    /// Accepts `name` exactly when it is a valid environment variable name.
    pub fn try_from(name: String) -> (res: Result<EnvName, InvalidEnvName>)
        ensures
            valid_env_name(name@) <==> res is Ok,
            res matches Ok(n) ==> n@ == name@,
            res matches Err(e) ==> e.name@ == name@,
    {
        if is_valid_env_name(name.as_str()) {
            Ok(EnvName(name))
        } else {
            Err(InvalidEnvName { name })
        }
    }

    /// Parses a name from text, as `try_from` does.
    pub fn from_str(name: &str) -> (res: Result<EnvName, InvalidEnvName>)
        ensures
            valid_env_name(name@) <==> res is Ok,
            res matches Ok(n) ==> n@ == name@,
            res matches Err(e) ==> e.name@ == name@,
    {
        EnvName::try_from(name.to_owned())
    }

    /// The name as an owned string, as it is displayed.
    pub fn to_string(&self) -> (s: String)
        ensures
            s@ == self@,
    {
        self.0.clone()
    }
}

impl InvalidEnvName {
    /// The error message.
    pub fn to_string(&self) -> (s: String)
        ensures
            s@ == invalid_env_name_message(self.name@),
    {
        let mut s = String::from_str("invalid environment variable name: ");
        s.append(self.name.as_str());
        proof {
            reveal_strlit("invalid environment variable name: ");
        }
        s
    }
}

/// Decides whether `name` is a valid environment variable name.
pub fn is_valid_env_name(name: &str) -> (b: bool)
    ensures
        b == valid_env_name(name@),
{
    let len = name.unicode_len();
    if len == 0 {
        return false;
    }
    if !is_ascii_alpha_or_underscore(name.get_char(0)) {
        return false;
    }
    let mut i: usize = 1;
    while i < len
        invariant
            len == name@.len(),
            1 <= i <= len,
            forall|j: int| 1 <= j < i ==> #[trigger] is_name_continue(name@[j]),
        decreases len - i,
    {
        if !is_ascii_alnum_or_underscore(name.get_char(i)) {
            return false;
        }
        i = i + 1;
    }
    true
}

/// Decides `is_name_start`.
pub fn is_ascii_alpha_or_underscore(character: char) -> (b: bool)
    ensures
        b == is_name_start(character),
{
    character == '_' || ('a' <= character && character <= 'z') || ('A' <= character && character
        <= 'Z')
}

/// Decides `is_name_continue`.
pub fn is_ascii_alnum_or_underscore(character: char) -> (b: bool)
    ensures
        b == is_name_continue(character),
{
    is_ascii_alpha_or_underscore(character) || ('0' <= character && character <= '9')
}


/// A name is valid exactly when it is non-empty, starts with `_` or an ASCII
/// letter `a`-`z`, `A`-`Z`, and every later character is `_`, an ASCII
/// letter `a`-`z`, `A`-`Z`, or a digit `0`-`9`.
pub proof fn lemma_valid_env_name_characters(s: Seq<char>)
    ensures
        valid_env_name(s) <==> {
            &&& s.len() > 0
            &&& (s[0] == '_' || ('a' <= s[0] && s[0] <= 'z') || ('A' <= s[0] && s[0] <= 'Z'))
            &&& forall|i: int|
                1 <= i < s.len() ==> ((#[trigger] s[i]) == '_' || ('a' <= s[i] && s[i] <= 'z') || (
                'A' <= s[i] && s[i] <= 'Z') || ('0' <= s[i] && s[i] <= '9'))
        },
{
    if valid_env_name(s) {
        assert forall|i: int| 1 <= i < s.len() implies ((#[trigger] s[i]) == '_' || ('a' <= s[i]
            && s[i] <= 'z') || ('A' <= s[i] && s[i] <= 'Z') || ('0' <= s[i] && s[i] <= '9')) by {
            assert(is_name_continue(s[i]));
        }
    }
}

} // verus!
