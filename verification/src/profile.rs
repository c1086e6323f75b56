//! Composing SBPL sandbox profiles.
use vstd::prelude::*;
use vstd::slice::slice_to_vec;
use vstd::string::*;
use vstd::utf8::*;

use crate::allow_paths::{AllowAccess, AllowPathOf, AllowPathView, ResolvedAllowPath};
use crate::error::{ErrorOf, ErrorView, FileContext, SeatbeltError};
use crate::paths::{canonicalize_existing_file, existing_file, fail, FsSnapshot, Halt, HaltOf, HaltView};
use crate::text::{push_char, text_contains, utf8_str};
use crate::unix_path::{has_root, is_absolute, join, joined};

verus! {

broadcast use vstd::string::group_string_axioms;

/// The profile handed to `sandbox-exec`: a file given with `-f`, or text
/// given with `-p`.
#[derive(Debug, Clone, PartialEq, Eq)]
pub enum ProfileOf<P, S> {
    File(P),
    Text(S),
}

pub type SandboxProfile = ProfileOf<Vec<u8>, String>;

pub type ProfileView = ProfileOf<Seq<u8>, Seq<char>>;

impl DeepView for ProfileOf<Vec<u8>, String> {
    type V = ProfileView;

    open spec fn deep_view(&self) -> ProfileView {
        match self {
            ProfileOf::File(p) => ProfileOf::File(p@),
            ProfileOf::Text(t) => ProfileOf::Text(t@),
        }
    }
}

/// A control character: general category Cc, U+0000 to U+001F and U+007F to
/// U+009F.
pub open spec fn is_control(c: char) -> bool {
    c <= '\u{1f}' || ('\u{7f}' <= c && c <= '\u{9f}')
}

pub open spec fn has_control(t: Seq<char>) -> bool {
    exists|i: int| 0 <= i < t.len() && #[trigger] is_control(t[i])
}

/// The inside of an SBPL string literal: `\` and `"` are escaped by a `\`.
pub open spec fn sbpl_escape(t: Seq<char>) -> Seq<char>
    decreases t.len(),
{
    if t.len() == 0 {
        seq![]
    } else {
        sbpl_escape(t.drop_last()) + if t.last() == '\\' {
            seq!['\\', '\\']
        } else if t.last() == '"' {
            seq!['\\', '"']
        } else {
            seq![t.last()]
        }
    }
}

/// A path as an SBPL string literal; it must be UTF-8 without control
/// characters.
pub open spec fn sbpl_literal(path: Seq<u8>) -> Result<Seq<char>, ErrorView> {
    if !valid_utf8(path) {
        Err(ErrorOf::ProfilePathNotUtf8(path))
    } else if has_control(decode_utf8(path)) {
        Err(ErrorOf::ProfilePathControl(decode_utf8(path)))
    } else {
        Ok(seq!['"'] + sbpl_escape(decode_utf8(path)) + seq!['"'])
    }
}

pub open spec fn text_result(r: Result<String, SeatbeltError>) -> Result<Seq<char>, ErrorView> {
    match r {
        Ok(s) => Ok(s@),
        Err(e) => Err(e@),
    }
}

pub open spec fn allow_views(s: Seq<ResolvedAllowPath>) -> Seq<AllowPathView> {
    s.map_values(|p: ResolvedAllowPath| p.deep_view())
}

/// The lines that grant one path: a `literal` filter, and a `subpath`
/// filter as well for a directory.
pub open spec fn allow_entry(p: AllowPathView, lit: Seq<char>) -> Seq<char> {
    "    (literal "@ + lit + ")\n"@ + if p.is_directory() {
        "    (subpath "@ + lit + ")\n"@
    } else {
        seq![]
    }
}

pub open spec fn allow_entries(ps: Seq<AllowPathView>) -> Result<Seq<char>, ErrorView>
    decreases ps.len(),
{
    if ps.len() == 0 {
        Ok(seq![])
    } else {
        match allow_entries(ps.drop_last()) {
            Err(e) => Err(e),
            Ok(t) => match sbpl_literal(ps.last().spec_path()) {
                Err(e) => Err(e),
                Ok(lit) => Ok(t + allow_entry(ps.last(), lit)),
            },
        }
    }
}

/// The block that grants `ps`: nothing when there are none, else a comment
/// and one `allow` rule with an entry per path.
pub open spec fn allow_block(ps: Seq<AllowPathView>, access: AllowAccess) -> Result<
    Seq<char>,
    ErrorView,
> {
    if ps.len() == 0 {
        Ok(seq![])
    } else {
        match allow_entries(ps) {
            Err(e) => Err(e),
            Ok(t) => Ok(
                "\n; "@ + access.spec_comment() + "\n(allow "@ + access.spec_sbpl_permissions()
                    + "\n"@ + t + ")\n"@,
            ),
        }
    }
}

pub open spec fn import_lines(imports: Seq<Seq<u8>>) -> Result<Seq<char>, ErrorView>
    decreases imports.len(),
{
    if imports.len() == 0 {
        Ok(seq![])
    } else {
        match import_lines(imports.drop_last()) {
            Err(e) => Err(e),
            Ok(t) => match sbpl_literal(imports.last()) {
                Err(e) => Err(e),
                Ok(lit) => Ok(t + "(import "@ + lit + ")\n"@),
            },
        }
    }
}

/// A profile that imports `imports` and then grants the read and the write
/// paths.
pub open spec fn composed_profile(
    imports: Seq<Seq<u8>>,
    read: Seq<AllowPathView>,
    write: Seq<AllowPathView>,
) -> Result<Seq<char>, ErrorView> {
    match import_lines(imports) {
        Err(e) => Err(e),
        Ok(i) => match allow_block(read, AllowAccess::Read) {
            Err(e) => Err(e),
            Ok(r) => match allow_block(write, AllowAccess::Write) {
                Err(e) => Err(e),
                Ok(w) => Ok("(version 1)\n\n"@ + i + r + w),
            },
        },
    }
}

proof fn lemma_allow_entries_stop(s: Seq<AllowPathView>, k: int)
    requires
        0 <= k <= s.len(),
        allow_entries(s.take(k)) is Err,
    ensures
        allow_entries(s) == allow_entries(s.take(k)),
    decreases s.len() - k,
{
    if k < s.len() {
        assert(s.drop_last().take(k) == s.take(k));
        lemma_allow_entries_stop(s.drop_last(), k);
    } else {
        assert(s.take(k) == s);
    }
}

proof fn lemma_import_lines_stop(s: Seq<Seq<u8>>, k: int)
    requires
        0 <= k <= s.len(),
        import_lines(s.take(k)) is Err,
    ensures
        import_lines(s) == import_lines(s.take(k)),
    decreases s.len() - k,
{
    if k < s.len() {
        assert(s.drop_last().take(k) == s.take(k));
        lemma_import_lines_stop(s.drop_last(), k);
    } else {
        assert(s.take(k) == s);
    }
}

proof fn lemma_profile_fragments_stop(fs: FsSnapshot, root: Seq<u8>, s: Seq<Seq<u8>>, k: int)
    requires
        0 <= k <= s.len(),
        profile_fragments(fs, root, s.take(k)) is Err,
    ensures
        profile_fragments(fs, root, s) == profile_fragments(fs, root, s.take(k)),
    decreases s.len() - k,
{
    if k < s.len() {
        assert(s.drop_last().take(k) == s.take(k));
        lemma_profile_fragments_stop(fs, root, s.drop_last(), k);
    } else {
        assert(s.take(k) == s);
    }
}

/// Decides `is_control`.
pub fn is_control_char(c: char) -> (b: bool)
    ensures
        b == is_control(c),
{
    c <= '\u{1f}' || ('\u{7f}' <= c && c <= '\u{9f}')
}

/// Writes a path as an SBPL string literal.
pub fn sbpl_string_literal(path: &[u8]) -> (r: Result<String, SeatbeltError>)
    ensures
        text_result(r) == sbpl_literal(path@),
{
    let text = match utf8_str(path) {
        Some(text) => text,
        None => {
            return Err(ErrorOf::ProfilePathNotUtf8(slice_to_vec(path)));
        },
    };
    proof {
        broadcast use encode_utf8_decode_utf8;

        assert(decode_utf8(text.spec_bytes()) == text@);
    }
    assert(valid_utf8(path@));
    let mut escaped = String::new();
    push_char(&mut escaped, '"');
    for character in it: text.chars()
        invariant
            it.seq() == text@,
            valid_utf8(path@),
            decode_utf8(path@) == text@,
            escaped@ == seq!['"'] + sbpl_escape(text@.take(it.index() as int)),
            forall|j: int| 0 <= j < it.index() ==> !#[trigger] is_control(text@[j]),
    {
        proof {
            assert(text@.take(it.index() + 1).drop_last() == text@.take(it.index() as int));
        }
        if is_control_char(character) {
            assert(is_control(text@[it.index() as int]));
            assert(has_control(text@));
            assert(valid_utf8(path@));
            assert(decode_utf8(path@) == text@);
            return Err(ErrorOf::ProfilePathControl(text.to_owned()));
        }
        if character == '\\' {
            push_char(&mut escaped, '\\');
            push_char(&mut escaped, '\\');
        } else if character == '"' {
            push_char(&mut escaped, '\\');
            push_char(&mut escaped, '"');
        } else {
            push_char(&mut escaped, character);
        }
    }
    assert(text@.take(text@.len() as int) == text@);
    assert(!has_control(text@));
    assert(valid_utf8(path@));
    assert(decode_utf8(path@) == text@);
    push_char(&mut escaped, '"');
    assert(escaped@ == seq!['"'] + sbpl_escape(text@) + seq!['"']);
    Ok(escaped)
}

/// The opening of the rule that grants paths with the given access.
pub open spec fn allow_header(access: AllowAccess) -> Seq<char> {
    "\n; "@ + access.spec_comment() + "\n(allow "@ + access.spec_sbpl_permissions() + "\n"@
}

/// The entries written for `ps` before the first path that cannot be
/// written as an SBPL string literal (all of them when there is none).
pub open spec fn written_entries(ps: Seq<AllowPathView>) -> Seq<char>
    decreases ps.len(),
{
    if ps.len() == 0 {
        seq![]
    } else {
        match allow_entries(ps.drop_last()) {
            Err(_) => written_entries(ps.drop_last()),
            Ok(t) => match sbpl_literal(ps.last().spec_path()) {
                Err(_) => t,
                Ok(lit) => t + allow_entry(ps.last(), lit),
            },
        }
    }
}

proof fn lemma_written_entries_stop(s: Seq<AllowPathView>, k: int)
    requires
        0 <= k <= s.len(),
        allow_entries(s.take(k)) is Err,
    ensures
        written_entries(s) == written_entries(s.take(k)),
    decreases s.len() - k,
{
    if k < s.len() {
        assert(s.drop_last().take(k) == s.take(k));
        lemma_allow_entries_stop(s.drop_last(), k);
        lemma_written_entries_stop(s.drop_last(), k);
    } else {
        assert(s.take(k) == s);
    }
}

/// Appends the entries for `allow_paths`; on an error, those written before
/// the path that failed stay.
fn append_allow_entries(profile: &mut String, allow_paths: &[ResolvedAllowPath]) -> (r: Result<
    (),
    SeatbeltError,
>)
    ensures
        match allow_entries(allow_views(allow_paths@)) {
            Ok(t) => r is Ok && final(profile)@ == old(profile)@ + t,
            Err(e) => r matches Err(x) && x@ == e && final(profile)@ == old(profile)@
                + written_entries(allow_views(allow_paths@)),
        },
{
    let ghost views = allow_views(allow_paths@);
    let ghost start = profile@;
    let ghost mut text: Seq<char> = seq![];
    let mut i: usize = 0;
    assert(profile@ == start + text);
    while i < allow_paths.len()
        invariant
            i <= allow_paths@.len(),
            views == allow_views(allow_paths@),
            allow_entries(views.take(i as int)) == Ok::<Seq<char>, ErrorView>(text),
            start == old(profile)@,
            profile@ == start + text,
        decreases allow_paths.len() - i,
    {
        let path = &allow_paths[i];
        proof {
            assert(views.take(i + 1).drop_last() == views.take(i as int));
            assert(views.take(i + 1).last() == path.deep_view());
        }
        let literal = match sbpl_string_literal(path.path()) {
            Ok(literal) => literal,
            Err(e) => {
                proof {
                    let prefix = views.take(i + 1);
                    assert(prefix.drop_last() == views.take(i as int));
                    assert(prefix.last() == path.deep_view());
                    assert(sbpl_literal(prefix.last().spec_path()) == Err::<Seq<char>, ErrorView>(
                        e@,
                    ));
                    assert(allow_entries(prefix) == Err::<Seq<char>, ErrorView>(e@));
                    lemma_allow_entries_stop(views, i + 1);
                    lemma_written_entries_stop(views, i + 1);
                    assert(written_entries(prefix) == text);
                }
                return Err(e);
            },
        };
        let ghost before = profile@;
        profile.append("    (literal ");
        profile.append(literal.as_str());
        profile.append(")\n");
        match path {
            AllowPathOf::Directory(_) => {
                profile.append("    (subpath ");
                profile.append(literal.as_str());
                profile.append(")\n");
                assert(profile@ =~= before + allow_entry(path.deep_view(), literal@));
            },
            AllowPathOf::File(_) => {
                assert(profile@ =~= before + allow_entry(path.deep_view(), literal@));
            },
        }
        proof {
            text = text + allow_entry(path.deep_view(), literal@);
        }
        i = i + 1;
    }
    assert(views.take(allow_paths@.len() as int) == views);
    Ok(())
}

/// Appends the rule that grants `allow_paths` with the given access; nothing
/// when there are none. On an error, the rule is left as far as it was
/// written: its opening and the entries before the path that failed.
pub fn append_allow_paths(
    profile: &mut String,
    allow_paths: &[ResolvedAllowPath],
    access: AllowAccess,
) -> (r: Result<(), SeatbeltError>)
    ensures
        match allow_block(allow_views(allow_paths@), access) {
            Ok(b) => r is Ok && final(profile)@ == old(profile)@ + b,
            Err(e) => r matches Err(x) && x@ == e && final(profile)@ == old(profile)@
                + allow_header(access) + written_entries(allow_views(allow_paths@)),
        },
{
    if allow_paths.len() == 0 {
        return Ok(());
    }
    let ghost start = profile@;
    profile.append("\n; ");
    profile.append(access.comment());
    profile.append("\n(allow ");
    profile.append(access.sbpl_permissions());
    profile.append("\n");
    assert(profile@ =~= start + allow_header(access));
    append_allow_entries(profile, allow_paths)?;
    profile.append(")\n");
    proof {
        let t = allow_entries(allow_views(allow_paths@))->Ok_0;
        assert(profile@ =~= start + ("\n; "@ + access.spec_comment() + "\n(allow "@
            + access.spec_sbpl_permissions() + "\n"@ + t + ")\n"@));
    }
    Ok(())
}

/// A profile that imports each of `imports` and then grants the read and the
/// write paths.
pub fn compose_import_profile(
    imports: &[Vec<u8>],
    allow_read_paths: &[ResolvedAllowPath],
    allow_write_paths: &[ResolvedAllowPath],
) -> (r: Result<String, SeatbeltError>)
    ensures
        text_result(r) == composed_profile(
            imports@.map_values(|v: Vec<u8>| v@),
            allow_views(allow_read_paths@),
            allow_views(allow_write_paths@),
        ),
{
    let ghost views = imports@.map_values(|v: Vec<u8>| v@);
    let mut lines = String::new();
    let mut i: usize = 0;
    while i < imports.len()
        invariant
            i <= imports@.len(),
            views == imports@.map_values(|v: Vec<u8>| v@),
            import_lines(views.take(i as int)) == Ok::<Seq<char>, ErrorView>(lines@),
        decreases imports.len() - i,
    {
        proof {
            assert(views.take(i + 1).drop_last() == views.take(i as int));
            assert(views.take(i + 1).last() == imports@[i as int]@);
        }
        let literal = match sbpl_string_literal(imports[i].as_slice()) {
            Ok(literal) => literal,
            Err(e) => {
                proof {
                    lemma_import_lines_stop(views, i + 1);
                }
                return Err(e);
            },
        };
        let ghost before = lines@;
        lines.append("(import ");
        lines.append(literal.as_str());
        lines.append(")\n");
        assert(lines@ =~= before + "(import "@ + literal@ + ")\n"@);
        i = i + 1;
    }
    assert(views.take(imports@.len() as int) == views);
    let mut profile = String::from_str("(version 1)\n\n");
    profile.append(lines.as_str());
    append_allow_paths(&mut profile, allow_read_paths, AllowAccess::Read)?;
    append_allow_paths(&mut profile, allow_write_paths, AllowAccess::Write)?;
    Ok(profile)
}

/// A profile entry of the config, resolved under `root`: it must be relative
/// and name an existing file.
pub open spec fn resolved_fragment(fs: FsSnapshot, root: Seq<u8>, fragment: Seq<u8>) -> Result<
    Seq<u8>,
    HaltView,
> {
    if has_root(fragment) {
        Err(fail(ErrorOf::AbsoluteProfileEntry(root, fragment)))
    } else {
        existing_file(fs, joined(root, fragment), FileContext::ProfileFragment)
    }
}

pub open spec fn profile_fragments(fs: FsSnapshot, root: Seq<u8>, fragments: Seq<Seq<u8>>) -> Result<
    Seq<Seq<u8>>,
    HaltView,
>
    decreases fragments.len(),
{
    if fragments.len() == 0 {
        Ok(seq![])
    } else {
        match profile_fragments(fs, root, fragments.drop_last()) {
            Err(h) => Err(h),
            Ok(v) => match resolved_fragment(fs, root, fragments.last()) {
                Err(h) => Err(h),
                Ok(p) => Ok(v.push(p)),
            },
        }
    }
}

/// The profile of a config: it must list at least one profile, and it
/// imports each of them.
pub open spec fn config_profile(fs: FsSnapshot, root: Seq<u8>, fragments: Seq<Seq<u8>>) -> Result<
    Seq<char>,
    HaltView,
> {
    if fragments.len() == 0 {
        Err(fail(ErrorOf::NoProfiles))
    } else {
        match profile_fragments(fs, root, fragments) {
            Err(h) => Err(h),
            Ok(imports) => match composed_profile(imports, seq![], seq![]) {
                Err(e) => Err(fail(e)),
                Ok(t) => Ok(t),
            },
        }
    }
}

/// Resolves one profile entry of the config under `profile_root`.
pub fn resolve_profile_fragment(
    profile_root: &[u8],
    profile_fragment: &[u8],
    fs: &FsSnapshot,
) -> (r: Result<Vec<u8>, Halt>)
    ensures
        crate::paths::path_result(r) == resolved_fragment(*fs, profile_root@, profile_fragment@),
{
    if is_absolute(profile_fragment) {
        return Err(
            HaltOf::Error(
                ErrorOf::AbsoluteProfileEntry(
                    slice_to_vec(profile_root),
                    slice_to_vec(profile_fragment),
                ),
            ),
        );
    }
    let path = join(profile_root, profile_fragment);
    canonicalize_existing_file(fs, path.as_slice(), FileContext::ProfileFragment)
}

/// The profile text for the profiles that a config lists.
pub fn compose_profile(profile_root: &[u8], profiles: &[Vec<u8>], fs: &FsSnapshot) -> (r: Result<
    String,
    Halt,
>)
    ensures
        match r {
            Ok(t) => config_profile(
                *fs,
                profile_root@,
                profiles@.map_values(|v: Vec<u8>| v@),
            ) == Ok::<Seq<char>, HaltView>(t@),
            Err(h) => config_profile(
                *fs,
                profile_root@,
                profiles@.map_values(|v: Vec<u8>| v@),
            ) == Err::<Seq<char>, HaltView>(h@),
        },
{
    if profiles.len() == 0 {
        return Err(HaltOf::Error(ErrorOf::NoProfiles));
    }
    let ghost views = profiles@.map_values(|v: Vec<u8>| v@);
    let mut imports: Vec<Vec<u8>> = Vec::new();
    let mut i: usize = 0;
    assert(views.take(0) == Seq::<Seq<u8>>::empty());
    assert(imports@.map_values(|v: Vec<u8>| v@) == Seq::<Seq<u8>>::empty());
    while i < profiles.len()
        invariant
            i <= profiles@.len(),
            views == profiles@.map_values(|v: Vec<u8>| v@),
            profile_fragments(*fs, profile_root@, views.take(i as int)) == Ok::<
                Seq<Seq<u8>>,
                HaltView,
            >(imports@.map_values(|v: Vec<u8>| v@)),
        decreases profiles.len() - i,
    {
        proof {
            assert(views.take(i + 1).drop_last() == views.take(i as int));
            assert(views.take(i + 1).last() == profiles@[i as int]@);
        }
        let import = match resolve_profile_fragment(profile_root, profiles[i].as_slice(), fs) {
            Ok(import) => import,
            Err(h) => {
                proof {
                    lemma_profile_fragments_stop(*fs, profile_root@, views, i + 1);
                }
                return Err(h);
            },
        };
        let ghost before = imports@;
        imports.push(import);
        assert(imports@.map_values(|v: Vec<u8>| v@) == before.map_values(|v: Vec<u8>| v@).push(
            imports@.last()@,
        ));
        i = i + 1;
    }
    assert(views.take(profiles@.len() as int) == views);
    let no_paths: Vec<ResolvedAllowPath> = Vec::new();
    assert(allow_views(no_paths@) == Seq::<AllowPathView>::empty());
    match compose_import_profile(imports.as_slice(), no_paths.as_slice(), no_paths.as_slice()) {
        Ok(t) => Ok(t),
        Err(e) => Err(HaltOf::Error(e)),
    }
}


/// Reads the inside of an SBPL string literal up to its closing `"`: a `\`
/// makes the character after it literal. Gives the text read and what
/// follows the closing quote, or `None` when the literal is not closed.
pub open spec fn read_sbpl_body(s: Seq<char>) -> Option<(Seq<char>, Seq<char>)>
    decreases s.len(),
{
    if s.len() == 0 {
        None
    } else if s[0] == '"' {
        Some((seq![], s.skip(1)))
    } else if s[0] == '\\' {
        if s.len() < 2 {
            None
        } else {
            match read_sbpl_body(s.skip(2)) {
                Some((t, rest)) => Some((seq![s[1]] + t, rest)),
                None => None,
            }
        }
    } else {
        match read_sbpl_body(s.skip(1)) {
            Some((t, rest)) => Some((seq![s[0]] + t, rest)),
            None => None,
        }
    }
}

/// Reads an SBPL string literal at the start of `s`.
pub open spec fn read_sbpl_string(s: Seq<char>) -> Option<(Seq<char>, Seq<char>)> {
    if s.len() > 0 && s[0] == '"' {
        read_sbpl_body(s.skip(1))
    } else {
        None
    }
}

proof fn lemma_sbpl_escape_concat(a: Seq<char>, b: Seq<char>)
    ensures
        sbpl_escape(a + b) == sbpl_escape(a) + sbpl_escape(b),
    decreases b.len(),
{
    if b.len() == 0 {
        assert(a + b == a);
    } else {
        lemma_sbpl_escape_concat(a, b.drop_last());
        assert((a + b).drop_last() == a + b.drop_last());
        assert((a + b).last() == b.last());
    }
}

proof fn lemma_read_sbpl_escaped(t: Seq<char>, rest: Seq<char>)
    ensures
        read_sbpl_body(sbpl_escape(t) + seq!['"'] + rest) == Some((t, rest)),
    decreases t.len(),
{
    let s = sbpl_escape(t) + seq!['"'] + rest;
    if t.len() == 0 {
        assert(s == seq!['"'] + rest);
        assert(s.skip(1) == rest);
    } else {
        let c = t[0];
        let tail = t.drop_first();
        lemma_sbpl_escape_concat(seq![c], tail);
        assert(seq![c] + tail == t);
        assert(seq![c].drop_last() == Seq::<char>::empty());
        assert(sbpl_escape(Seq::<char>::empty()) == Seq::<char>::empty());
        lemma_read_sbpl_escaped(tail, rest);
        let inner = sbpl_escape(tail) + seq!['"'] + rest;
        if c == '\\' {
            assert(sbpl_escape(seq![c]) == seq!['\\', '\\']);
            assert(s == seq!['\\', '\\'] + inner);
            assert(s.skip(2) == inner);
        } else if c == '"' {
            assert(sbpl_escape(seq![c]) == seq!['\\', '"']);
            assert(s == seq!['\\', '"'] + inner);
            assert(s.skip(2) == inner);
        } else {
            assert(sbpl_escape(seq![c]) == seq![c]);
            assert(s == seq![c] + inner);
            assert(s.skip(1) == inner);
        }
        assert(seq![c] + tail == t);
    }
}

/// A path written as an SBPL string literal reads back as exactly the path's
/// text, and the literal ends at its own closing quote whatever follows it:
/// no path can close the literal early or carry rules into the profile.
pub proof fn lemma_sbpl_literal_reads_back(path: Seq<u8>, rest: Seq<char>)
    requires
        sbpl_literal(path) is Ok,
    ensures
        read_sbpl_string(sbpl_literal(path)->Ok_0 + rest) == Some((decode_utf8(path), rest)),
{
    let t = decode_utf8(path);
    let lit = sbpl_literal(path)->Ok_0;
    lemma_read_sbpl_escaped(t, rest);
    assert((lit + rest).skip(1) == sbpl_escape(t) + seq!['"'] + rest);
}


/// Each path that a rule grants has its own entry in the rule: a `literal`
/// line, and for a directory a `subpath` line too, with the path written as
/// an SBPL string literal.
pub proof fn lemma_allow_entries_cover(ps: Seq<AllowPathView>)
    requires
        allow_entries(ps) is Ok,
    ensures
        forall|i: int|
            0 <= i < ps.len() ==> sbpl_literal((#[trigger] ps[i]).spec_path()) is Ok
                && text_contains(
                allow_entries(ps)->Ok_0,
                allow_entry(ps[i], sbpl_literal(ps[i].spec_path())->Ok_0),
            ),
    decreases ps.len(),
{
    if ps.len() > 0 {
        let q = ps.drop_last();
        lemma_allow_entries_cover(q);
        let t = allow_entries(q)->Ok_0;
        let all = allow_entries(ps)->Ok_0;
        let last = ps.len() - 1;
        let e = allow_entry(ps.last(), sbpl_literal(ps.last().spec_path())->Ok_0);
        assert(all == t + e);
        assert forall|i: int| 0 <= i < ps.len() implies sbpl_literal(
            (#[trigger] ps[i]).spec_path(),
        ) is Ok && text_contains(all, allow_entry(ps[i], sbpl_literal(ps[i].spec_path())->Ok_0)) by {
            if i < last {
                assert(q[i] == ps[i]);
                let ei = allow_entry(ps[i], sbpl_literal(ps[i].spec_path())->Ok_0);
                assert(text_contains(t, ei));
                let k = choose|k: int|
                    0 <= k && k + ei.len() <= t.len() && #[trigger] t.subrange(k, k + ei.len())
                        == ei;
                assert(all.subrange(k, k + ei.len()) == t.subrange(k, k + ei.len()));
            } else {
                assert(ps[i] == ps.last());
                assert(all.subrange(t.len() as int, t.len() as int + e.len()) == e);
            }
        }
    }
}

} // verus!
