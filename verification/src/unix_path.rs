//! Unix path semantics on raw bytes: components, comparison, joining and the
//! file-name operations that the configuration lookup uses. The definitions
//! follow how `std::path` reads a Unix path: a leading `/` is the root, a
//! leading `.` piece is the current directory, empty and `.` pieces inside the
//! path are skipped, and `..` is the parent directory.
use vstd::prelude::*;
use vstd::slice::{slice_subrange, slice_to_vec};

verus! {

pub const SLASH: u8 = 47;

pub const DOT: u8 = 46;

/// One component of a path, as a mathematical value.
pub enum Comp {
    Root,
    Cur,
    Parent,
    Normal(Seq<u8>),
}

/// One component of a path.
pub enum Component {
    RootDir,
    CurDir,
    ParentDir,
    Normal(Vec<u8>),
}

impl View for Component {
    type V = Comp;

    open spec fn view(&self) -> Comp {
        match self {
            Component::RootDir => Comp::Root,
            Component::CurDir => Comp::Cur,
            Component::ParentDir => Comp::Parent,
            Component::Normal(v) => Comp::Normal(v@),
        }
    }
}

pub open spec fn comp_views(v: Seq<Component>) -> Seq<Comp> {
    v.map_values(|c: Component| c@)
}

pub open spec fn has_root(p: Seq<u8>) -> bool {
    p.len() > 0 && p[0] == SLASH
}

/// A relative path that starts with the piece `.`.
pub open spec fn has_cur_dir(p: Seq<u8>) -> bool {
    &&& !has_root(p)
    &&& p.len() > 0
    &&& p[0] == DOT
    &&& (p.len() == 1 || p[1] == SLASH)
}

/// Where the pieces after the root or the leading `.` begin.
pub open spec fn body_start(p: Seq<u8>) -> int {
    if has_root(p) || has_cur_dir(p) {
        1
    } else {
        0
    }
}

/// Index of the last `/`, or -1.
pub open spec fn last_slash(s: Seq<u8>) -> int
    decreases s.len(),
{
    if s.len() == 0 {
        -1
    } else if s.last() == SLASH {
        s.len() - 1
    } else {
        last_slash(s.drop_last())
    }
}

pub proof fn lemma_last_slash_bounds(s: Seq<u8>)
    ensures
        -1 <= last_slash(s) < s.len(),
        last_slash(s) >= 0 ==> s[last_slash(s)] == SLASH,
        forall|j: int| last_slash(s) < j < s.len() ==> s[j] != SLASH,
    decreases s.len(),
{
    if s.len() > 0 && s.last() != SLASH {
        lemma_last_slash_bounds(s.drop_last());
        assert forall|j: int| last_slash(s) < j < s.len() implies s[j] != SLASH by {
            if j < s.len() - 1 {
                assert(s[j] == s.drop_last()[j]);
            }
        }
    }
}

/// The component that one piece between slashes stands for.
pub open spec fn piece_comp(piece: Seq<u8>) -> Seq<Comp> {
    if piece.len() == 0 || piece == seq![DOT] {
        seq![]
    } else if piece == seq![DOT, DOT] {
        seq![Comp::Parent]
    } else {
        seq![Comp::Normal(piece)]
    }
}

/// The components of the pieces of `s`, split at every `/`.
pub open spec fn body_comps(s: Seq<u8>) -> Seq<Comp>
    decreases s.len(),
{
    let k = last_slash(s);
    if k < 0 {
        piece_comp(s)
    } else {
        proof {
            lemma_last_slash_bounds(s);
        }
        body_comps(s.take(k)) + piece_comp(s.skip(k + 1))
    }
}

/// The components of a path, as `std::path::Path::components` yields them.
pub open spec fn path_components(p: Seq<u8>) -> Seq<Comp> {
    let lead = if has_root(p) {
        seq![Comp::Root]
    } else if has_cur_dir(p) {
        seq![Comp::Cur]
    } else {
        seq![]
    };
    lead + body_comps(p.skip(body_start(p)))
}

/// Two paths are equal when their components are.
pub open spec fn same_path(a: Seq<u8>, b: Seq<u8>) -> bool {
    path_components(a) == path_components(b)
}

/// `base` is a prefix of `p`, component by component.
pub open spec fn starts_with_path(p: Seq<u8>, base: Seq<u8>) -> bool {
    let pc = path_components(p);
    let bc = path_components(base);
    bc.len() <= pc.len() && pc.take(bc.len() as int) == bc
}

/// Joining `rel` onto `base`: an absolute `rel` replaces `base`; otherwise a
/// `/` is put between them unless `base` is empty or already ends in one.
pub open spec fn joined(base: Seq<u8>, rel: Seq<u8>) -> Seq<u8> {
    if has_root(rel) {
        rel
    } else if base.len() > 0 && base.last() != SLASH {
        base + seq![SLASH] + rel
    } else {
        base + rel
    }
}

/// Drops leading separators and `.` pieces.
pub open spec fn trim_left(s: Seq<u8>) -> Seq<u8>
    decreases s.len(),
{
    if s.len() == 0 {
        s
    } else if s[0] == SLASH {
        trim_left(s.drop_first())
    } else if s[0] == DOT && (s.len() == 1 || s[1] == SLASH) {
        trim_left(s.drop_first())
    } else {
        s
    }
}

/// Drops trailing separators and `.` pieces.
pub open spec fn trim_right(s: Seq<u8>) -> Seq<u8>
    decreases s.len(),
{
    if s.len() == 0 {
        s
    } else if s.last() == SLASH {
        trim_right(s.drop_last())
    } else if s.last() == DOT && (s.len() == 1 || s[s.len() - 2] == SLASH) {
        trim_right(s.drop_last())
    } else {
        s
    }
}

/// Where the last piece of `t` begins.
pub open spec fn last_piece_start(t: Seq<u8>) -> int {
    last_slash(t) + 1
}

/// The body of `p` with trailing separators and `.` pieces removed.
pub open spec fn trimmed_body(p: Seq<u8>) -> Seq<u8> {
    trim_right(p.skip(body_start(p)))
}

/// Where the file name of `p` starts and ends, if its last component is a
/// normal one.
pub open spec fn file_name_span(p: Seq<u8>) -> Option<(int, int)> {
    let t = trimmed_body(p);
    let start = last_piece_start(t);
    if t.len() == 0 || t.skip(start) == seq![DOT, DOT] {
        None
    } else {
        Some((body_start(p) + start, body_start(p) + t.len()))
    }
}

/// Index of the last `.`, or -1.
pub open spec fn last_dot(s: Seq<u8>) -> int
    decreases s.len(),
{
    if s.len() == 0 {
        -1
    } else if s.last() == DOT {
        s.len() - 1
    } else {
        last_dot(s.drop_last())
    }
}

/// `p` has a file name with a `.` after its first byte.
pub open spec fn has_ext(p: Seq<u8>) -> bool {
    match file_name_span(p) {
        Some((a, b)) => last_dot(p.subrange(a, b)) > 0,
        None => false,
    }
}

/// `p` with the extension of its file name replaced by `ext`; unchanged when
/// `p` has no file name.
pub open spec fn with_ext(p: Seq<u8>, ext: Seq<u8>) -> Seq<u8> {
    match file_name_span(p) {
        Some((a, b)) => {
            let name = p.subrange(a, b);
            let stem_end = if last_dot(name) > 0 {
                a + last_dot(name)
            } else {
                b
            };
            p.take(stem_end) + if ext.len() > 0 {
                seq![DOT] + ext
            } else {
                seq![]
            }
        },
        None => p,
    }
}

/// The parent of `p`: `p` without its last component, or `None` when `p` is
/// empty or only a root.
pub open spec fn parent_of(p: Seq<u8>) -> Option<Seq<u8>> {
    let t = trimmed_body(p);
    if t.len() == 0 {
        if has_cur_dir(p) {
            Some(seq![])
        } else {
            None
        }
    } else {
        Some(p.take(body_start(p) + trim_right(t.take(last_piece_start(t))).len()))
    }
}


pub proof fn lemma_last_slash_is(t: Seq<u8>, k: int)
    requires
        -1 <= k < t.len(),
        k >= 0 ==> t[k] == SLASH,
        forall|j: int| k < j < t.len() ==> t[j] != SLASH,
    ensures
        last_slash(t) == k,
    decreases t.len(),
{
    if t.len() > 0 && k < t.len() - 1 {
        lemma_last_slash_is(t.drop_last(), k);
    }
}

/// Byte-wise equality of two byte strings.
pub fn bytes_eq(a: &[u8], b: &[u8]) -> (r: bool)
    ensures
        r == (a@ == b@),
{
    if a.len() != b.len() {
        return false;
    }
    let mut i: usize = 0;
    while i < a.len()
        invariant
            a@.len() == b@.len(),
            i <= a@.len(),
            forall|j: int| 0 <= j < i ==> a@[j] == b@[j],
        decreases a.len() - i,
    {
        if a[i] != b[i] {
            return false;
        }
        i = i + 1;
    }
    assert(a@ == b@);
    true
}

/// Appends the bytes of `s` to `v`.
pub fn append_bytes(v: &mut Vec<u8>, s: &[u8])
    ensures
        final(v)@ == old(v)@ + s@,
{
    let ghost start = v@;
    let mut i: usize = 0;
    while i < s.len()
        invariant
            i <= s@.len(),
            v@ == start + s@.take(i as int),
        decreases s.len() - i,
    {
        v.push(s[i]);
        assert(s@.take(i + 1) == s@.take(i as int).push(s@[i as int]));
        i = i + 1;
    }
    assert(s@.take(s@.len() as int) == s@);
}

fn push_piece(out: &mut Vec<Component>, piece: &[u8])
    ensures
        comp_views(final(out)@) == comp_views(old(out)@) + piece_comp(piece@),
{
    let n = piece.len();
    if n == 0 || (n == 1 && piece[0] == DOT) {
        assert(n == 1 ==> piece@ == seq![DOT]);
        assert(comp_views(out@) == comp_views(out@) + Seq::<Comp>::empty());
    } else if n == 2 && piece[0] == DOT && piece[1] == DOT {
        assert(piece@ == seq![DOT, DOT]);
        out.push(Component::ParentDir);
        assert(comp_views(out@) == comp_views(old(out)@).push(Comp::Parent));
    } else {
        assert(piece@ != seq![DOT]) by {
            if piece@ == seq![DOT] {
                assert(n == 1 && piece@[0] == DOT);
            }
        }
        assert(piece@ != seq![DOT, DOT]) by {
            if piece@ == seq![DOT, DOT] {
                assert(n == 2 && piece@[0] == DOT && piece@[1] == DOT);
            }
        }
        out.push(Component::Normal(slice_to_vec(piece)));
        assert(comp_views(out@) == comp_views(old(out)@).push(Comp::Normal(piece@)));
    }
}

/// The components of a path.
pub fn components(p: &[u8]) -> (r: Vec<Component>)
    ensures
        comp_views(r@) == path_components(p@),
{
    let n = p.len();
    let mut out: Vec<Component> = Vec::new();
    let mut bs: usize = 0;
    if n > 0 && p[0] == SLASH {
        out.push(Component::RootDir);
        bs = 1;
    } else if n > 0 && p[0] == DOT && (n == 1 || p[1] == SLASH) {
        out.push(Component::CurDir);
        bs = 1;
    }
    let ghost lead = comp_views(out@);
    let ghost body = p@.skip(bs as int);
    assert(bs == body_start(p@));
    assert(lead == if has_root(p@) {
        seq![Comp::Root]
    } else if has_cur_dir(p@) {
        seq![Comp::Cur]
    } else {
        Seq::<Comp>::empty()
    });
    let mut st: usize = bs;
    let mut i: usize = bs;
    while i < n
        invariant
            n == p@.len(),
            bs <= st <= i <= n,
            body == p@.skip(bs as int),
            st == bs ==> comp_views(out@) == lead,
            st > bs ==> p@[st - 1] == SLASH && comp_views(out@) == lead + body_comps(
                body.take(st - bs - 1),
            ),
            forall|j: int| st <= j < i ==> p@[j] != SLASH,
        decreases n - i,
    {
        if p[i] == SLASH {
            let ghost t = body.take(i - bs);
            let ghost k = st - bs - 1;
            proof {
                assert forall|j: int| k < j < t.len() implies t[j] != SLASH by {
                    assert(t[j] == p@[bs + j]);
                }
                if k >= 0 {
                    assert(t[k] == p@[st - 1]);
                }
                lemma_last_slash_is(t, k);
                assert(t.skip(k + 1) == p@.subrange(st as int, i as int));
                if k >= 0 {
                    assert(t.take(k) == body.take(k));
                }
            }
            push_piece(&mut out, slice_subrange(p, st, i));
            proof {
                if k < 0 {
                    assert(t.skip(0) == t);
                    assert(body_comps(t) == piece_comp(t));
                    assert(comp_views(out@) == lead + body_comps(t));
                } else {
                    assert(comp_views(out@) == lead + body_comps(body.take(k)) + piece_comp(
                        t.skip(k + 1),
                    ));
                }
            }
            st = i + 1;
        }
        i = i + 1;
    }
    let ghost k = st - bs - 1;
    proof {
        assert forall|j: int| k < j < body.len() implies body[j] != SLASH by {
            assert(body[j] == p@[bs + j]);
        }
        if k >= 0 {
            assert(body[k] == p@[st - 1]);
        }
        lemma_last_slash_is(body, k);
        assert(body.skip(k + 1) == p@.subrange(st as int, n as int));
    }
    push_piece(&mut out, slice_subrange(p, st, n));
    proof {
        if k >= 0 {
            assert(comp_views(out@) == lead + body_comps(body.take(k)) + piece_comp(
                body.skip(k + 1),
            ));
        }
    }
    out
}

fn component_eq(a: &Component, b: &Component) -> (r: bool)
    ensures
        r == (a@ == b@),
{
    match (a, b) {
        (Component::RootDir, Component::RootDir) => true,
        (Component::CurDir, Component::CurDir) => true,
        (Component::ParentDir, Component::ParentDir) => true,
        (Component::Normal(x), Component::Normal(y)) => bytes_eq(x.as_slice(), y.as_slice()),
        _ => false,
    }
}

/// `prefix` is an initial part of `all`, component by component.
fn components_prefix(all: &Vec<Component>, prefix: &Vec<Component>) -> (r: bool)
    ensures
        r == (comp_views(prefix@).len() <= comp_views(all@).len() && comp_views(all@).take(
            comp_views(prefix@).len() as int,
        ) == comp_views(prefix@)),
{
    let ghost a = comp_views(all@);
    let ghost b = comp_views(prefix@);
    if prefix.len() > all.len() {
        return false;
    }
    let mut i: usize = 0;
    while i < prefix.len()
        invariant
            a == comp_views(all@),
            b == comp_views(prefix@),
            prefix@.len() <= all@.len(),
            i <= prefix@.len(),
            forall|j: int| 0 <= j < i ==> a[j] == b[j],
        decreases prefix.len() - i,
    {
        if !component_eq(&all[i], &prefix[i]) {
            assert(a.take(b.len() as int)[i as int] != b[i as int]);
            return false;
        }
        i = i + 1;
    }
    assert(a.take(b.len() as int) == b);
    true
}

/// Path equality, component by component, as `Path`'s `==` compares.
pub fn path_eq(a: &[u8], b: &[u8]) -> (r: bool)
    ensures
        r == same_path(a@, b@),
{
    let ca = components(a);
    let cb = components(b);
    if ca.len() != cb.len() {
        return false;
    }
    let r = components_prefix(&ca, &cb);
    proof {
        if r {
            assert(comp_views(ca@).take(comp_views(ca@).len() as int) == comp_views(ca@));
        } else {
            assert(comp_views(ca@).take(comp_views(cb@).len() as int) != comp_views(cb@));
            assert(comp_views(ca@).take(comp_views(ca@).len() as int) == comp_views(ca@));
        }
    }
    r
}

/// Whether `base` is a prefix of `p`, component by component, as
/// `Path::starts_with` decides.
pub fn path_starts_with(p: &[u8], base: &[u8]) -> (r: bool)
    ensures
        r == starts_with_path(p@, base@),
{
    let cp = components(p);
    let cb = components(base);
    components_prefix(&cp, &cb)
}

/// Whether the path is absolute: on Unix, whether it starts with `/`.
pub fn is_absolute(p: &[u8]) -> (r: bool)
    ensures
        r == has_root(p@),
{
    p.len() > 0 && p[0] == SLASH
}

/// `base` joined with `rel`, as `Path::join` builds it.
pub fn join(base: &[u8], rel: &[u8]) -> (r: Vec<u8>)
    ensures
        r@ == joined(base@, rel@),
{
    if is_absolute(rel) {
        return slice_to_vec(rel);
    }
    let mut r = slice_to_vec(base);
    if base.len() > 0 && base[base.len() - 1] != SLASH {
        r.push(SLASH);
    }
    append_bytes(&mut r, rel);
    r
}

/// Where `trim_left(s)` starts.
fn trim_left_start(s: &[u8]) -> (k: usize)
    ensures
        k <= s@.len(),
        s@.skip(k as int) == trim_left(s@),
{
    let mut k: usize = 0;
    assert(s@.skip(0) == s@);
    while k < s.len() && (s[k] == SLASH || (s[k] == DOT && (k + 1 == s.len() || s[k + 1]
        == SLASH)))
        invariant
            k <= s@.len(),
            trim_left(s@.skip(k as int)) == trim_left(s@),
        decreases s.len() - k,
    {
        assert(s@.skip(k as int).drop_first() == s@.skip(k + 1));
        k = k + 1;
    }
    k
}

/// Where `trim_right(s)` ends.
fn trim_right_end(s: &[u8]) -> (e: usize)
    ensures
        e <= s@.len(),
        s@.take(e as int) == trim_right(s@),
{
    let mut e: usize = s.len();
    assert(s@.take(e as int) == s@);
    while e > 0 && (s[e - 1] == SLASH || (s[e - 1] == DOT && (e == 1 || s[e - 2] == SLASH)))
        invariant
            e <= s@.len(),
            trim_right(s@.take(e as int)) == trim_right(s@),
        decreases e,
    {
        assert(s@.take(e as int).drop_last() == s@.take(e - 1));
        e = e - 1;
    }
    e
}

/// Index of the last `/`, if any.
fn find_last_slash(s: &[u8]) -> (r: Option<usize>)
    ensures
        match r {
            Some(k) => last_slash(s@) == k,
            None => last_slash(s@) == -1,
        },
{
    let mut e: usize = s.len();
    while e > 0 && s[e - 1] != SLASH
        invariant
            e <= s@.len(),
            forall|j: int| e <= j < s@.len() ==> s@[j] != SLASH,
        decreases e,
    {
        e = e - 1;
    }
    if e == 0 {
        proof {
            lemma_last_slash_is(s@, -1);
        }
        None
    } else {
        proof {
            lemma_last_slash_is(s@, e - 1);
        }
        Some(e - 1)
    }
}

/// Index of the last `.`, if any.
fn find_last_dot(s: &[u8]) -> (r: Option<usize>)
    ensures
        match r {
            Some(k) => last_dot(s@) == k && k < s@.len(),
            None => last_dot(s@) == -1,
        },
{
    let mut e: usize = s.len();
    assert(s@.take(e as int) == s@);
    while e > 0 && s[e - 1] != DOT
        invariant
            e <= s@.len(),
            last_dot(s@.take(e as int)) == last_dot(s@),
        decreases e,
    {
        assert(s@.take(e as int).drop_last() == s@.take(e - 1));
        e = e - 1;
    }
    if e == 0 {
        assert(s@.take(0) == Seq::<u8>::empty());
        None
    } else {
        Some(e - 1)
    }
}

fn body_start_of(p: &[u8]) -> (bs: usize)
    ensures
        bs == body_start(p@),
{
    let n = p.len();
    if n > 0 && p[0] == SLASH {
        1
    } else if n > 0 && p[0] == DOT && (n == 1 || p[1] == SLASH) {
        1
    } else {
        0
    }
}

/// Where the file name of `p` starts and ends.
pub fn file_name_range(p: &[u8]) -> (r: Option<(usize, usize)>)
    ensures
        match r {
            Some((a, b)) => file_name_span(p@) == Some((a as int, b as int)) && a <= b
                <= p@.len(),
            None => file_name_span(p@) is None,
        },
{
    let bs = body_start_of(p);
    let body = slice_subrange(p, bs, p.len());
    let e = trim_right_end(body);
    if e == 0 {
        return None;
    }
    let t = slice_subrange(body, 0, e);
    proof {
        lemma_last_slash_bounds(t@);
    }
    let start = match find_last_slash(t) {
        Some(k) => k + 1,
        None => 0,
    };
    let name = slice_subrange(t, start, e);
    assert(name@ == t@.skip(start as int));
    if name.len() == 2 && name[0] == DOT && name[1] == DOT {
        assert(name@ == seq![DOT, DOT]);
        None
    } else {
        assert(name@ != seq![DOT, DOT]) by {
            if name@ == seq![DOT, DOT] {
                assert(name@.len() == 2 && name@[0] == DOT && name@[1] == DOT);
            }
        }
        Some((bs + start, bs + e))
    }
}

/// Whether the file name of `p` has an extension, as
/// `Path::extension().is_some()` decides.
pub fn has_extension(p: &[u8]) -> (r: bool)
    ensures
        r == has_ext(p@),
{
    match file_name_range(p) {
        Some((a, b)) => match find_last_dot(slice_subrange(p, a, b)) {
            Some(k) => k > 0,
            None => false,
        },
        None => false,
    }
}

/// `p` with its extension set to `ext`, as `Path::with_extension` builds it.
pub fn with_extension(p: &[u8], ext: &[u8]) -> (r: Vec<u8>)
    ensures
        r@ == with_ext(p@, ext@),
{
    match file_name_range(p) {
        Some((a, b)) => {
            let name = slice_subrange(p, a, b);
            let stem_end = match find_last_dot(name) {
                Some(k) => if k > 0 {
                    a + k
                } else {
                    b
                },
                None => b,
            };
            let mut r = slice_to_vec(slice_subrange(p, 0, stem_end));
            if ext.len() > 0 {
                r.push(DOT);
                append_bytes(&mut r, ext);
                assert(r@ == p@.take(stem_end as int) + (seq![DOT] + ext@));
            } else {
                assert(r@ == p@.take(stem_end as int) + Seq::<u8>::empty());
            }
            r
        },
        None => slice_to_vec(p),
    }
}

/// The parent of `p`, as `Path::parent` finds it.
pub fn parent(p: &[u8]) -> (r: Option<Vec<u8>>)
    ensures
        match r {
            Some(v) => parent_of(p@) == Some(v@),
            None => parent_of(p@) is None,
        },
{
    let bs = body_start_of(p);
    let body = slice_subrange(p, bs, p.len());
    let e = trim_right_end(body);
    if e == 0 {
        if bs == 1 && p[0] == DOT {
            return Some(Vec::new());
        }
        return None;
    }
    let t = slice_subrange(body, 0, e);
    proof {
        lemma_last_slash_bounds(t@);
    }
    let start = match find_last_slash(t) {
        Some(k) => k + 1,
        None => 0,
    };
    let head = slice_subrange(t, 0, start);
    let he = trim_right_end(head);
    Some(slice_to_vec(slice_subrange(p, 0, bs + he)))
}

/// The user's home directory put in place of a leading `~`: `~` alone (with
/// trailing separators or `.` pieces) is the home directory, and `~/rest` is
/// the home directory joined with `rest` trimmed of separators and `.`
/// pieces at both ends. Any other path is returned as it is.
pub open spec fn expand_home(home: Seq<u8>, path: Seq<u8>) -> Seq<u8> {
    if same_path(path, seq![TILDE]) {
        home
    } else if path.len() >= 2 && path[0] == TILDE && path[1] == SLASH {
        joined(home, trim_right(trim_left(path.skip(2))))
    } else {
        path
    }
}

pub const TILDE: u8 = 126;

/// Expands a leading `~` in `path` to `home`.
pub fn expand_home_path(home: &[u8], path: &[u8]) -> (r: Vec<u8>)
    ensures
        r@ == expand_home(home@, path@),
{
    let tilde: [u8; 1] = [TILDE];
    assert(tilde@ == seq![TILDE]);
    if path_eq(path, tilde.as_slice()) {
        return slice_to_vec(home);
    }
    if path.len() >= 2 && path[0] == TILDE && path[1] == SLASH {
        let rest = slice_subrange(path, 2, path.len());
        let k = trim_left_start(rest);
        let left = slice_subrange(rest, k, rest.len());
        let e = trim_right_end(left);
        let trimmed = slice_subrange(left, 0, e);
        return join(home, trimmed);
    }
    slice_to_vec(path)
}

} // verus!
