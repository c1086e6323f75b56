//! Character and byte helpers shared by the profile, quoting and message code.
use vstd::prelude::*;
use vstd::string::*;
use vstd::utf8::*;

verus! {

/// Calls std's `String::push`, which appends one character to the string.
#[verifier::external_body]
pub(crate) fn push_char(s: &mut String, c: char)
    ensures
        final(s)@ == old(s)@.push(c),
{
    s.push(c)
}

/// Calls std's `str::from_utf8`: it succeeds exactly when the bytes are valid
/// UTF-8, and the string slice it returns holds those same bytes.
#[verifier::external_body]
pub(crate) fn utf8_str(bytes: &[u8]) -> (res: Option<&str>)
    ensures
        res is Some <==> valid_utf8(bytes@),
        res matches Some(s) ==> s.spec_bytes() == bytes@,
{
    std::str::from_utf8(bytes).ok()
}

/// What `String::from_utf8_lossy` makes of a byte string: invalid sequences
/// are replaced by U+FFFD.
pub uninterp spec fn lossy_utf8(bytes: Seq<u8>) -> Seq<char>;

/// Calls std's `String::from_utf8_lossy`. Its documentation promises that
/// valid UTF-8 comes back unchanged; what replaces invalid sequences is left
/// to the name `lossy_utf8`.
#[verifier::external_body]
pub(crate) fn lossy_string(bytes: &[u8]) -> (s: String)
    ensures
        s@ == lossy_utf8(bytes@),
        valid_utf8(bytes@) ==> s@ == decode_utf8(bytes@),
{
    String::from_utf8_lossy(bytes).into_owned()
}

/// The bytes of a string written one per character (its encoding when the
/// string is ASCII).
pub open spec fn char_bytes(s: Seq<char>) -> Seq<u8> {
    s.map_values(|c: char| c as u8)
}

/// The characters of `s`, each as one byte.
pub fn ascii_bytes(s: &str) -> (b: Vec<u8>)
    ensures
        b@ == char_bytes(s@),
{
    broadcast use vstd::string::group_string_axioms;

    let mut b: Vec<u8> = Vec::new();
    for c in it: s.chars()
        invariant
            it.seq() == s@,
            b@ == char_bytes(s@.take(it.index() as int)),
    {
        b.push(c as u8);
        assert(char_bytes(s@.take(it.index() + 1)) == char_bytes(s@.take(it.index() as int)).push(
            c as u8,
        ));
    }
    assert(s@.take(s@.len() as int) == s@);
    b
}


/// The characters of `s`, in order.
pub fn chars_of(s: &str) -> (v: Vec<char>)
    ensures
        v@ == s@,
{
    broadcast use vstd::string::group_string_axioms;

    let mut v: Vec<char> = Vec::new();
    for c in it: s.chars()
        invariant
            it.seq() == s@,
            v@ == s@.take(it.index() as int),
    {
        v.push(c);
        assert(s@.take(it.index() + 1) == s@.take(it.index() as int).push(c));
    }
    assert(s@.take(s@.len() as int) == s@);
    v
}

/// The characters `chars[lo..hi]` as a string.
pub fn string_from_chars(chars: &[char], lo: usize, hi: usize) -> (s: String)
    requires
        lo <= hi <= chars@.len(),
    ensures
        s@ == chars@.subrange(lo as int, hi as int),
{
    let mut s = String::new();
    let mut i: usize = lo;
    while i < hi
        invariant
            lo <= i <= hi <= chars@.len(),
            s@ == chars@.subrange(lo as int, i as int),
        decreases hi - i,
    {
        push_char(&mut s, chars[i]);
        assert(chars@.subrange(lo as int, i + 1) == chars@.subrange(lo as int, i as int).push(
            chars@[i as int],
        ));
        i = i + 1;
    }
    s
}

/// `needle` occurs in `hay` as a run of consecutive characters.
pub open spec fn text_contains(hay: Seq<char>, needle: Seq<char>) -> bool {
    exists|i: int|
        0 <= i && i + needle.len() <= hay.len() && #[trigger] hay.subrange(i, i + needle.len())
            == needle
}

/// Whether `needle` starts at `i` in `hay`.
fn matches_at(hay: &[char], needle: &[char], i: usize) -> (b: bool)
    requires
        i + needle@.len() <= hay@.len(),
    ensures
        b == (hay@.subrange(i as int, i + needle@.len()) == needle@),
{
    let hl = hay.len();
    let mut k: usize = 0;
    while k < needle.len()
        invariant
            hl == hay@.len(),
            i + needle@.len() <= hay@.len(),
            k <= needle@.len(),
            forall|j: int| 0 <= j < k ==> hay@[i + j] == needle@[j],
        decreases needle.len() - k,
    {
        if hay[i + k] != needle[k] {
            assert(hay@.subrange(i as int, i + needle@.len())[k as int] != needle@[k as int]);
            return false;
        }
        k = k + 1;
    }
    assert(hay@.subrange(i as int, i + needle@.len()) =~= needle@);
    true
}

/// Whether `needle` occurs in `hay`, as `str::contains` finds it.
pub fn str_contains(hay: &str, needle: &str) -> (b: bool)
    ensures
        b == text_contains(hay@, needle@),
{
    let h = chars_of(hay);
    let n = chars_of(needle);
    if n.len() == 0 {
        assert(hay@.subrange(0, 0int + needle@.len()) =~= needle@);
        return true;
    }
    if n.len() > h.len() {
        return false;
    }
    let hl = h.len();
    let last = hl - n.len();
    let mut i: usize = 0;
    while i <= last
        invariant
            hl == h@.len(),
            n@.len() > 0,
            last + n@.len() == h@.len(),
            h@ == hay@,
            n@ == needle@,
            forall|j: int| 0 <= j < i ==> #[trigger] h@.subrange(j, j + n@.len()) != n@,
        decreases last + 1 - i,
    {
        if matches_at(h.as_slice(), n.as_slice(), i) {
            return true;
        }
        i = i + 1;
    }
    false
}

} // verus!
