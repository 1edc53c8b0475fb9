//! Paths inside `.ctgdaw` project archives (a ZIP with a fixed layout:
//! `project.json` and `assets/...`).
//!
//! Paths are `/`-separated strings, read as the Unix path rules read them.
//! Reading and writing the archive itself is the application's part; this
//! module decides which entry names and paths are acceptable and where they
//! land.
use vstd::prelude::*;
use crate::text::{chars_of, string_of, owned, concat};
use crate::project::ProjectError;

verus! {

broadcast use vstd::string::group_string_axioms;

pub const ARCHIVE_EXTENSION: &'static str = "ctgdaw";
pub const MANIFEST_NAME: &'static str = "project.json";

/// `p` cut at each `/`: the pieces between separators, in order (an
/// empty path is one empty piece).
pub open spec fn pieces(p: Seq<char>) -> Seq<Seq<char>>
    decreases p.len(),
{
    if p.len() == 0 {
        seq![Seq::<char>::empty()]
    } else {
        let rest = pieces(p.drop_last());
        if p.last() == '/' {
            rest.push(Seq::<char>::empty())
        } else {
            rest.update(rest.len() - 1, rest.last().push(p.last()))
        }
    }
}

pub proof fn lemma_pieces_len(p: Seq<char>)
    ensures
        pieces(p).len() >= 1,
    decreases p.len(),
{
    if p.len() > 0 {
        lemma_pieces_len(p.drop_last());
    }
}

pub open spec fn is_parent_piece(s: Seq<char>) -> bool {
    s == seq!['.', '.']
}

/// A piece that names something: not empty, `.` or `..`.
pub open spec fn is_name_piece(s: Seq<char>) -> bool {
    s.len() > 0 && s != seq!['.'] && s != seq!['.', '.']
}

/// Why `p` is refused as a path inside an archive (the error message), or
/// `None` when it is accepted: it must be non-empty and relative, with no
/// `..` piece and at least one piece that names something.
pub open spec fn archive_path_error(p: Seq<char>) -> Option<Seq<char>> {
    if p.len() == 0 {
        Some("empty archive path"@)
    } else if p[0] == '/' {
        Some("absolute path not allowed in archive: "@ + p)
    } else if exists|i: int| 0 <= i < pieces(p).len() && is_parent_piece(#[trigger] pieces(p)[i]) {
        Some("parent traversal not allowed in archive path: "@ + p)
    } else if !exists|i: int| 0 <= i < pieces(p).len() && is_name_piece(#[trigger] pieces(p)[i]) {
        Some("invalid archive path: "@ + p)
    } else {
        None
    }
}

/// The `Err` the path checks return for message `m`.
pub open spec fn invalid(r: Result<(), ProjectError>, m: Seq<char>) -> bool {
    r matches Err(ProjectError::Invalid(s)) && s@ == m
}

fn piece_kind(cur: &Vec<char>) -> (r: (bool, bool))
    ensures
        r.0 == is_parent_piece(cur@),
        r.1 == is_name_piece(cur@),
{
    let n = cur.len();
    let dot = n == 1 && cur[0] == '.';
    let dots = n == 2 && cur[0] == '.' && cur[1] == '.';
    proof {
        if n == 1 && !dot {
            assert(cur@ != seq!['.']) by {
                assert(cur@[0] != seq!['.'][0]);
            }
        }
        if n == 2 && !dots {
            assert(cur@ != seq!['.', '.']) by {
                if cur@[0] != '.' {
                    assert(cur@[0] != seq!['.', '.'][0]);
                } else {
                    assert(cur@[1] != seq!['.', '.'][1]);
                }
            }
        }
        if dot {
            assert(cur@ =~= seq!['.']);
        }
        if dots {
            assert(cur@ =~= seq!['.', '.']);
        }
    }
    (dots, n > 0 && !dot && !dots)
}

/// Check a relative path that will be stored in or extracted from an
/// archive: absolute paths, parent traversal and paths naming nothing are
/// refused.
pub fn validate_archive_path(path: &str) -> (r: Result<(), ProjectError>)
    ensures
        match archive_path_error(path@) {
            None => r is Ok,
            Some(m) => invalid(r, m),
        },
{
    let cs = chars_of(path);
    if cs.len() == 0 {
        proof {
            reveal_strlit("empty archive path");
        }
        return Err(ProjectError::Invalid(owned("empty archive path")));
    }
    if cs[0] == '/' {
        return Err(ProjectError::Invalid(concat("absolute path not allowed in archive: ", path)));
    }
    let ghost p = cs@;
    let ghost mut done: Seq<Seq<char>> = Seq::empty();
    let mut cur: Vec<char> = Vec::new();
    let mut parent = false;
    let mut named = false;
    let mut i: usize = 0;
    assert(p.take(0) =~= Seq::<char>::empty());
    while i < cs.len()
        invariant
            i <= cs.len(),
            p == cs@,
            pieces(p.take(i as int)) == done.push(cur@),
            parent == exists|j: int| 0 <= j < done.len() && is_parent_piece(#[trigger] done[j]),
            named == exists|j: int| 0 <= j < done.len() && is_name_piece(#[trigger] done[j]),
        decreases cs.len() - i,
    {
        let c = cs[i];
        proof {
            assert(p.take(i as int + 1).drop_last() =~= p.take(i as int));
            assert(p.take(i as int + 1).last() == c);
        }
        if c == '/' {
            let (pp, nn) = piece_kind(&cur);
            proof {
                let d0 = done;
                done = done.push(cur@);
                assert(pieces(p.take(i as int + 1)) =~= done.push(Seq::<char>::empty()));
                if pp {
                    assert(is_parent_piece(done[d0.len() as int]));
                }
                if nn {
                    assert(is_name_piece(done[d0.len() as int]));
                }
                if parent {
                    let j = choose|j: int| 0 <= j < d0.len() && is_parent_piece(#[trigger] d0[j]);
                    assert(done[j] == d0[j]);
                }
                if named {
                    let j = choose|j: int| 0 <= j < d0.len() && is_name_piece(#[trigger] d0[j]);
                    assert(done[j] == d0[j]);
                }
                assert forall|j: int| 0 <= j < done.len() && is_parent_piece(#[trigger] done[j]) implies parent || pp by {
                    if j < d0.len() {
                        assert(done[j] == d0[j]);
                    }
                }
                assert forall|j: int| 0 <= j < done.len() && is_name_piece(#[trigger] done[j]) implies named || nn by {
                    if j < d0.len() {
                        assert(done[j] == d0[j]);
                    }
                }
            }
            parent = parent || pp;
            named = named || nn;
            cur = Vec::new();
        } else {
            cur.push(c);
            proof {
                assert(pieces(p.take(i as int + 1)) =~= done.push(cur@));
            }
        }
        i = i + 1;
    }
    let (pp, nn) = piece_kind(&cur);
    proof {
        assert(p.take(p.len() as int) =~= p);
        let all = done.push(cur@);
        assert(pieces(path@) == all);
        if pp {
            assert(is_parent_piece(all[done.len() as int]));
        }
        if nn {
            assert(is_name_piece(all[done.len() as int]));
        }
        if parent {
            let j = choose|j: int| 0 <= j < done.len() && is_parent_piece(#[trigger] done[j]);
            assert(all[j] == done[j]);
        }
        if named {
            let j = choose|j: int| 0 <= j < done.len() && is_name_piece(#[trigger] done[j]);
            assert(all[j] == done[j]);
        }
        assert forall|j: int| 0 <= j < all.len() && is_parent_piece(#[trigger] all[j]) implies parent || pp by {
            if j < done.len() {
                assert(all[j] == done[j]);
            }
        }
        assert forall|j: int| 0 <= j < all.len() && is_name_piece(#[trigger] all[j]) implies named || nn by {
            if j < done.len() {
                assert(all[j] == done[j]);
            }
        }
    }
    if parent || pp {
        return Err(ProjectError::Invalid(concat("parent traversal not allowed in archive path: ", path)));
    }
    if !(named || nn) {
        return Err(ProjectError::Invalid(concat("invalid archive path: ", path)));
    }
    Ok(())
}


pub open spec fn is_sep(c: char) -> bool {
    c == '/' || c == '\\'
}

/// `p` without its leading `/` and `\` characters.
pub open spec fn trim_front(p: Seq<char>) -> Seq<char>
    decreases p.len(),
{
    if p.len() > 0 && is_sep(p[0]) {
        trim_front(p.drop_first())
    } else {
        p
    }
}

/// `p` without its trailing `/` and `\` characters.
pub open spec fn trim_back(p: Seq<char>) -> Seq<char>
    decreases p.len(),
{
    if p.len() > 0 && is_sep(p.last()) {
        trim_back(p.drop_last())
    } else {
        p
    }
}

/// `p` with each `\` turned into `/`.
pub open spec fn forward_slashes(p: Seq<char>) -> Seq<char> {
    p.map_values(|c: char| if c == '\\' { '/' } else { c })
}

/// A ZIP entry name that names an absolute or drive path.
pub open spec fn names_absolute(name: Seq<char>) -> bool {
    ||| name[0] == '/'
    ||| name[0] == '\\'
    ||| name.len() >= 2 && (name[0] as u32) < 128 && name[1] == ':'
}

/// The relative path a ZIP entry name stands for (`Ok`), or the message it
/// is refused with (`Err`).
pub open spec fn sanitized(name: Seq<char>) -> Result<Seq<char>, Seq<char>> {
    if name.len() == 0 {
        Err("empty zip entry name"@)
    } else if names_absolute(name) {
        Err("absolute path not allowed in archive: "@ + name)
    } else {
        let t = trim_back(trim_front(name));
        if t.len() == 0 {
            Err("empty zip entry name"@)
        } else {
            match archive_path_error(forward_slashes(t)) {
                Some(m) => Err(m),
                None => Ok(forward_slashes(t)),
            }
        }
    }
}

proof fn lemma_trim_front_id(p: Seq<char>)
    requires
        p.len() > 0 ==> !is_sep(p[0]),
    ensures
        trim_front(p) == p,
{
}

proof fn lemma_trim_back_id(p: Seq<char>)
    requires
        p.len() > 0 ==> !is_sep(p.last()),
    ensures
        trim_back(p) == p,
{
}

proof fn lemma_trim_back_shape(p: Seq<char>)
    ensures
        trim_back(p).len() <= p.len(),
        trim_back(p) == p.take(trim_back(p).len() as int),
        trim_back(p).len() > 0 ==> !is_sep(trim_back(p).last()),
    decreases p.len(),
{
    if p.len() > 0 && is_sep(p.last()) {
        lemma_trim_back_shape(p.drop_last());
        assert(p.drop_last().take(trim_back(p).len() as int) =~= p.take(trim_back(p).len() as int));
    }
}

/// A name the archive reader accepts is already in its final form: it is a
/// valid archive path, and sanitising it again gives it back unchanged.
pub proof fn law_sanitized_name_is_stable(name: Seq<char>)
    requires
        sanitized(name) is Ok,
    ensures
        archive_path_error(sanitized(name)->Ok_0) is None,
        sanitized(sanitized(name)->Ok_0) == sanitized(name),
{
    let q = sanitized(name)->Ok_0;
    lemma_trim_front_id(name);
    let t = trim_back(name);
    lemma_trim_back_shape(name);
    assert(trim_front(name) == name);
    assert(q == forward_slashes(t));
    assert(q.len() == t.len());
    assert(q[0] == t[0] && t[0] == name[0]);
    if q.len() >= 2 {
        assert(t[1] == name[1]);
        assert(q[1] == ':' ==> t[1] == ':');
    }
    assert(!names_absolute(q));
    assert(!is_sep(q[0]));
    assert(!is_sep(q.last())) by {
        assert(q.last() == forward_slashes(t)[t.len() - 1]);
    }
    lemma_trim_front_id(q);
    lemma_trim_back_id(q);
    assert(forward_slashes(q) =~= q);
}

/// Turn a ZIP entry name into a checked relative path: absolute and drive
/// names are refused, separators at either end are dropped, `\` becomes
/// `/`, and the result must pass `validate_archive_path`.
pub fn sanitize_zip_entry_name(name: &str) -> (r: Result<String, ProjectError>)
    ensures
        match sanitized(name@) {
            Ok(q) => r matches Ok(s) && s@ == q,
            Err(m) => r matches Err(ProjectError::Invalid(s)) && s@ == m,
        },
{
    let cs = chars_of(name);
    let n = cs.len();
    if n == 0 {
        proof {
            reveal_strlit("empty zip entry name");
        }
        return Err(ProjectError::Invalid(owned("empty zip entry name")));
    }
    if cs[0] == '/' || cs[0] == '\\' || (n >= 2 && (cs[0] as u32) < 128 && cs[1] == ':') {
        return Err(ProjectError::Invalid(concat("absolute path not allowed in archive: ", name)));
    }
    let ghost p = cs@;
    let mut a: usize = 0;
    while a < n && (cs[a] == '/' || cs[a] == '\\')
        invariant
            a <= n,
            n == p.len(),
            p == cs@,
            trim_front(p.skip(a as int)) == trim_front(p),
        decreases n - a,
    {
        proof {
            assert(p.skip(a as int).drop_first() =~= p.skip(a as int + 1));
        }
        a = a + 1;
    }
    let mut b: usize = n;
    proof {
        assert(p.skip(a as int).subrange(0, (b - a) as int) =~= p.skip(a as int));
    }
    while b > a && (cs[b - 1] == '/' || cs[b - 1] == '\\')
        invariant
            a <= b <= n,
            n == p.len(),
            p == cs@,
            trim_front(p) == p.skip(a as int),
            trim_back(p.subrange(a as int, b as int)) == trim_back(trim_front(p)),
        decreases b - a,
    {
        proof {
            assert(p.subrange(a as int, b as int).drop_last() =~= p.subrange(a as int, b as int - 1));
        }
        b = b - 1;
    }
    proof {
        assert(trim_back(p.subrange(a as int, b as int)) == p.subrange(a as int, b as int));
    }
    if b == a {
        proof {
            reveal_strlit("empty zip entry name");
        }
        return Err(ProjectError::Invalid(owned("empty zip entry name")));
    }
    let mut out: Vec<char> = Vec::new();
    let mut k: usize = a;
    while k < b
        invariant
            a <= k <= b <= n,
            n == p.len(),
            p == cs@,
            out@ == forward_slashes(p.subrange(a as int, k as int)),
        decreases b - k,
    {
        let c = cs[k];
        out.push(if c == '\\' { '/' } else { c });
        proof {
            assert(out@ =~= forward_slashes(p.subrange(a as int, k as int + 1)));
        }
        k = k + 1;
    }
    let path = string_of(&out);
    match validate_archive_path(path.as_str()) {
        Ok(()) => Ok(path),
        Err(e) => Err(e),
    }
}

/// `rel` appended to `root`, with a `/` between them unless `root` is
/// empty or already ends in one (`Path::join` for a relative `rel`).
pub open spec fn joined(root: Seq<char>, rel: Seq<char>) -> Seq<char> {
    if root.len() == 0 {
        rel
    } else if root.last() == '/' {
        root + rel
    } else {
        root + seq!['/'] + rel
    }
}

pub fn join_path(root: &str, relative: &str) -> (r: String)
    ensures
        r@ == joined(root@, relative@),
{
    let cs = chars_of(root);
    if cs.len() == 0 {
        owned(relative)
    } else if cs[cs.len() - 1] == '/' {
        concat(root, relative)
    } else {
        let with_sep = concat(root, "/");
        proof {
            reveal_strlit("/");
            assert("/"@ =~= seq!['/']);
        }
        concat(with_sep.as_str(), relative)
    }
}

/// `p` without trailing separators and trailing `.` pieces; a leading `/`
/// or a leading `.` stays.
pub open spec fn trim_right(p: Seq<char>) -> Seq<char>
    decreases p.len(),
{
    if p.len() >= 2 && p.last() == '/' {
        trim_right(p.drop_last())
    } else if p.len() >= 2 && p.last() == '.' && p[p.len() - 2] == '/' {
        trim_right(p.drop_last())
    } else {
        p
    }
}

/// Position of the last `/` in `p`, or -1.
pub open spec fn last_slash(p: Seq<char>) -> int
    decreases p.len(),
{
    if p.len() == 0 {
        -1
    } else if p.last() == '/' {
        p.len() - 1
    } else {
        last_slash(p.drop_last())
    }
}

/// `Path::parent`: the path without its last component (and the
/// separators and `.` pieces around it); `None` for an empty path and
/// for the root.
pub open spec fn parent_of(p: Seq<char>) -> Option<Seq<char>> {
    let q = trim_right(p);
    if q.len() == 0 || q == seq!['/'] {
        None
    } else {
        let k = last_slash(q);
        if k == -1 {
            Some(Seq::<char>::empty())
        } else {
            Some(trim_right(q.take(k + 1)))
        }
    }
}

proof fn lemma_trim_right(p: Seq<char>)
    ensures
        trim_right(p).len() <= p.len(),
        p.len() > 0 ==> trim_right(p).len() > 0,
        trim_right(p) == p.take(trim_right(p).len() as int),
    decreases p.len(),
{
    if p.len() >= 2 && (p.last() == '/' || (p.last() == '.' && p[p.len() - 2] == '/')) {
        lemma_trim_right(p.drop_last());
        assert(p.drop_last().take(trim_right(p).len() as int) =~= p.take(trim_right(p).len() as int));
    } else {
        assert(p.take(p.len() as int) =~= p);
    }
}

proof fn lemma_last_slash(p: Seq<char>)
    ensures
        -1 <= last_slash(p) < p.len(),
        last_slash(p) >= 0 ==> p[last_slash(p)] == '/',
        forall|j: int| last_slash(p) < j < p.len() ==> p[j] != '/',
    decreases p.len(),
{
    if p.len() > 0 && p.last() != '/' {
        lemma_last_slash(p.drop_last());
        assert forall|j: int| last_slash(p) < j < p.len() implies p[j] != '/' by {
            if j < p.len() - 1 {
                assert(p[j] == p.drop_last()[j]);
            }
        }
    }
}

/// Length of `trim_right` of the first `n` characters of `cs`.
fn trim_right_len(cs: &Vec<char>, n: usize) -> (m: usize)
    requires
        n <= cs@.len(),
    ensures
        m as int == trim_right(cs@.take(n as int)).len(),
        m <= n,
{
    let mut m = n;
    proof {
        lemma_trim_right(cs@.take(n as int));
    }
    while m >= 2 && (cs[m - 1] == '/' || (cs[m - 1] == '.' && cs[m - 2] == '/'))
        invariant
            m <= n <= cs@.len(),
            trim_right(cs@.take(m as int)) == trim_right(cs@.take(n as int)),
        decreases m,
    {
        proof {
            assert(cs@.take(m as int).drop_last() =~= cs@.take(m as int - 1));
        }
        m = m - 1;
    }
    m
}

pub fn parent_path(path: &str) -> (r: Option<String>)
    ensures
        match parent_of(path@) {
            None => r is None,
            Some(q) => r matches Some(s) && s@ == q,
        },
{
    let cs = chars_of(path);
    let ghost p = cs@;
    let m = trim_right_len(&cs, cs.len());
    proof {
        assert(p.take(p.len() as int) =~= p);
        lemma_trim_right(p);
    }
    let ghost q = p.take(m as int);
    if m == 0 || (m == 1 && cs[0] == '/') {
        proof {
            if m == 1 {
                assert(q =~= seq!['/']);
            }
        }
        return None;
    }
    proof {
        if q == seq!['/'] {
            assert(q[0] == '/');
        }
    }
    let mut k: usize = m;
    proof {
        assert(q.take(m as int) =~= q);
    }
    while k > 0 && cs[k - 1] != '/'
        invariant
            k <= m <= p.len(),
            p == cs@,
            q == p.take(m as int),
            last_slash(q.take(k as int)) == last_slash(q),
        decreases k,
    {
        proof {
            assert(q.take(k as int).drop_last() =~= q.take(k as int - 1));
        }
        k = k - 1;
    }
    proof {
        assert(q.take(m as int) =~= q);
    }
    if k == 0 {
        proof {
            assert(q.take(0) =~= Seq::<char>::empty());
        }
        return Some(String::new());
    }
    proof {
        assert(last_slash(q) == k - 1);
        assert(q.take(k as int) =~= p.take(k as int));
    }
    let h = trim_right_len(&cs, k);
    let mut out: Vec<char> = Vec::new();
    let mut i: usize = 0;
    while i < h
        invariant
            i <= h <= k <= p.len(),
            p == cs@,
            out@ == p.take(i as int),
        decreases h - i,
    {
        out.push(cs[i]);
        proof {
            assert(out@ =~= p.take(i as int + 1));
        }
        i = i + 1;
    }
    proof {
        lemma_trim_right(p.take(k as int));
        assert(p.take(k as int).take(h as int) =~= p.take(h as int));
    }
    Some(string_of(&out))
}

/// A piece that is a component: not empty and not `.`.
pub open spec fn kept_piece(s: Seq<char>) -> bool {
    s.len() > 0 && s != seq!['.']
}

pub open spec fn kept_piece_fn() -> spec_fn(Seq<char>) -> bool {
    |s: Seq<char>| kept_piece(s)
}

/// The leading component: the root `/`, or `.` for a path that starts with
/// a `.` piece.
pub open spec fn path_head(p: Seq<char>) -> Seq<Seq<char>> {
    if p.len() > 0 && p[0] == '/' {
        seq![seq!['/']]
    } else if (p.len() == 1 && p[0] == '.') || (p.len() >= 2 && p[0] == '.' && p[1] == '/') {
        seq![seq!['.']]
    } else {
        Seq::empty()
    }
}

/// `Path::components` on Unix: the leading root or `.`, then each piece
/// that is neither empty nor `.`.
pub open spec fn components(p: Seq<char>) -> Seq<Seq<char>> {
    path_head(p) + pieces(p).filter(kept_piece_fn())
}

/// `Path::starts_with`: the components of `base` begin those of `p`.
pub open spec fn starts_with_path(p: Seq<char>, base: Seq<char>) -> bool {
    let c = components(p);
    let b = components(base);
    b.len() <= c.len() && c.take(b.len() as int) == b
}

pub open spec fn char_views(v: Seq<Vec<char>>) -> Seq<Seq<char>> {
    v.map_values(|x: Vec<char>| x@)
}

fn same_chars(a: &Vec<char>, b: &Vec<char>) -> (r: bool)
    ensures
        r == (a@ == b@),
{
    if a.len() != b.len() {
        return false;
    }
    let mut i: usize = 0;
    while i < a.len()
        invariant
            i <= a.len(),
            a.len() == b.len(),
            forall|j: int| 0 <= j < i ==> a@[j] == b@[j],
        decreases a.len() - i,
    {
        if a[i] != b[i] {
            return false;
        }
        i = i + 1;
    }
    assert(a@ =~= b@);
    true
}

fn is_kept(cur: &Vec<char>) -> (r: bool)
    ensures
        r == kept_piece(cur@),
{
    let dot = cur.len() == 1 && cur[0] == '.';
    proof {
        if dot {
            assert(cur@ =~= seq!['.']);
        } else if cur@.len() == 1 {
            assert(cur@[0] != seq!['.'][0]);
        }
    }
    cur.len() > 0 && !dot
}

fn path_components(path: &str) -> (v: Vec<Vec<char>>)
    ensures
        char_views(v@) == components(path@),
{
    let cs = chars_of(path);
    let ghost p = cs@;
    let mut out: Vec<Vec<char>> = Vec::new();
    let n = cs.len();
    if n > 0 && cs[0] == '/' {
        let mut root: Vec<char> = Vec::new();
        root.push('/');
        out.push(root);
        proof {
            assert(char_views(out@) =~= seq![seq!['/']]);
        }
    } else if (n == 1 && cs[0] == '.') || (n >= 2 && cs[0] == '.' && cs[1] == '/') {
        let mut cur_dir: Vec<char> = Vec::new();
        cur_dir.push('.');
        out.push(cur_dir);
        proof {
            assert(char_views(out@) =~= seq![seq!['.']]);
        }
    } else {
        proof {
            assert(char_views(out@) =~= Seq::<Seq<char>>::empty());
        }
    }
    let ghost head = char_views(out@);
    proof {
        assert(head =~= path_head(p));
    }
    let ghost mut done: Seq<Seq<char>> = Seq::empty();
    let mut cur: Vec<char> = Vec::new();
    let mut i: usize = 0;
    proof {
        assert(p.take(0) =~= Seq::<char>::empty());
        reveal(Seq::filter);
        assert(done.filter(kept_piece_fn()) =~= Seq::<Seq<char>>::empty());
        assert(char_views(out@) =~= head + done.filter(kept_piece_fn()));
    }
    while i < n
        invariant
            i <= n,
            n == p.len(),
            p == cs@,
            pieces(p.take(i as int)) == done.push(cur@),
            char_views(out@) == head + done.filter(kept_piece_fn()),
        decreases n - i,
    {
        let c = cs[i];
        proof {
            assert(p.take(i as int + 1).drop_last() =~= p.take(i as int));
            assert(p.take(i as int + 1).last() == c);
        }
        if c == '/' {
            let keep = is_kept(&cur);
            let ghost finished = cur@;
            let ghost before = char_views(out@);
            proof {
                done.lemma_filter_push(finished, kept_piece_fn());
            }
            let piece = cur;
            cur = Vec::new();
            if keep {
                out.push(piece);
                proof {
                    assert(char_views(out@) =~= before.push(finished));
                }
            }
            proof {
                done = done.push(finished);
                assert(char_views(out@) =~= head + done.filter(kept_piece_fn()));
                assert(pieces(p.take(i as int + 1)) =~= done.push(cur@));
            }
        } else {
            cur.push(c);
            proof {
                assert(pieces(p.take(i as int + 1)) =~= done.push(cur@));
            }
        }
        i = i + 1;
    }
    let keep = is_kept(&cur);
    proof {
        assert(p.take(n as int) =~= p);
        done.lemma_filter_push(cur@, kept_piece_fn());
    }
    let ghost before = char_views(out@);
    let ghost last = cur@;
    if keep {
        out.push(cur);
        proof {
            assert(char_views(out@) =~= before.push(last));
        }
    }
    proof {
        assert(char_views(out@) =~= head + done.push(last).filter(kept_piece_fn()));
    }
    out
}

/// Whether `path` starts with `base`, component by component.
pub fn path_starts_with(path: &str, base: &str) -> (r: bool)
    ensures
        r == starts_with_path(path@, base@),
{
    let c = path_components(path);
    let b = path_components(base);
    proof {
        assert(char_views(c@).len() == c@.len());
        assert(char_views(b@).len() == b@.len());
    }
    if b.len() > c.len() {
        return false;
    }
    let mut i: usize = 0;
    while i < b.len()
        invariant
            i <= b.len() <= c.len(),
            char_views(c@) == components(path@),
            char_views(b@) == components(base@),
            forall|j: int| 0 <= j < i ==> c@[j]@ == b@[j]@,
        decreases b.len() - i,
    {
        if !same_chars(&c[i], &b[i]) {
            proof {
                assert(char_views(c@).take(b.len() as int)[i as int] != char_views(b@)[i as int]);
                assert(char_views(c@).take(b.len() as int) != char_views(b@));
            }
            return false;
        }
        i = i + 1;
    }
    proof {
        assert(char_views(c@).take(b.len() as int) =~= char_views(b@));
    }
    true
}

/// What the application found at the parent directory of a joined path.
pub enum ParentCheck {
    /// It does not exist yet.
    Missing,
    /// It exists; its canonical path.
    Resolved(String),
    /// It exists but could not be resolved; the error text.
    Failed(String),
}

/// What `safe_join` returns: the joined path, or the refusal message.
pub open spec fn safe_join_result(root: Seq<char>, rel: Seq<char>, root_canon: Seq<char>, parent: ParentCheck)
    -> Result<Seq<char>, Seq<char>>
{
    match archive_path_error(rel) {
        Some(m) => Err(m),
        None => match parent {
            ParentCheck::Missing => Ok(joined(root, rel)),
            ParentCheck::Failed(e) => Err("failed to resolve archive path "@ + rel + ": "@ + e@),
            ParentCheck::Resolved(pc) => if starts_with_path(pc@, root_canon) {
                Ok(joined(root, rel))
            } else {
                Err("archive path escapes workspace: "@ + rel)
            },
        },
    }
}

/// Resolve `relative` under `root`, making sure the result stays inside the
/// workspace: `root_canon` is the canonical root (or the root itself when it
/// cannot be resolved) and `parent` what was found at the parent directory
/// of `join_path(root, relative)`.
pub fn safe_join(root: &str, relative: &str, root_canon: &str, parent: ParentCheck) -> (r: Result<String, ProjectError>)
    ensures
        match safe_join_result(root@, relative@, root_canon@, parent) {
            Ok(q) => r matches Ok(s) && s@ == q,
            Err(m) => r matches Err(ProjectError::Invalid(s)) && s@ == m,
        },
{
    match validate_archive_path(relative) {
        Err(e) => return Err(e),
        Ok(()) => {},
    }
    let joined_path = join_path(root, relative);
    match parent {
        ParentCheck::Missing => Ok(joined_path),
        ParentCheck::Failed(e) => {
            let a = concat("failed to resolve archive path ", relative);
            let b = concat(a.as_str(), ": ");
            Err(ProjectError::Invalid(concat(b.as_str(), e.as_str())))
        },
        ParentCheck::Resolved(pc) => {
            if path_starts_with(pc.as_str(), root_canon) {
                Ok(joined_path)
            } else {
                Err(ProjectError::Invalid(concat("archive path escapes workspace: ", relative)))
            }
        },
    }
}

} // verus!
