//! Unix path strings: joining, and splitting into components with the
//! normalisation that `Path::components` documents.
use vstd::prelude::*;

use crate::text::{chars_of, concat2, owned, push_char};

verus! {

/// The path separator.
pub open spec fn sep() -> char {
    '/'
}

/// `name` appended to `base` as `PathBuf::push` does on Unix: an absolute
/// `name` replaces `base`; otherwise a separator goes between them unless
/// `base` is empty or already ends in one.
pub open spec fn join_path(base: Seq<char>, name: Seq<char>) -> Seq<char> {
    if name.len() > 0 && name[0] == sep() {
        name
    } else if base.len() == 0 || base.last() == sep() {
        base + name
    } else {
        base + seq![sep()] + name
    }
}

/// The pieces of `s` between separators (empty ones included), where `cur`
/// is the part of a piece already read before `s`.
pub open spec fn pieces_from(s: Seq<char>, cur: Seq<char>) -> Seq<Seq<char>>
    decreases s.len(),
{
    if s.len() == 0 {
        seq![cur]
    } else if s[0] == sep() {
        seq![cur] + pieces_from(s.drop_first(), seq![])
    } else {
        pieces_from(s.drop_first(), cur.push(s[0]))
    }
}

/// The pieces of `s` between separators, empty ones included.
pub open spec fn pieces(s: Seq<char>) -> Seq<Seq<char>> {
    pieces_from(s, seq![])
}

/// A piece that names a directory entry: not empty and not `.`.
pub open spec fn is_named(piece: Seq<char>) -> bool {
    piece.len() > 0 && piece != seq!['.']
}

/// The named pieces among `ps`, in order.
pub open spec fn named(ps: Seq<Seq<char>>) -> Seq<Seq<char>>
    decreases ps.len(),
{
    if ps.len() == 0 {
        ps
    } else if is_named(ps.last()) {
        named(ps.drop_last()).push(ps.last())
    } else {
        named(ps.drop_last())
    }
}

/// The path starts at the root.
pub open spec fn is_absolute(p: Seq<char>) -> bool {
    p.len() > 0 && p[0] == sep()
}

/// The path starts with a `.` piece that `Path::components` keeps.
pub open spec fn starts_with_cur_dir(p: Seq<char>) -> bool {
    p.len() > 0 && p[0] == '.' && (p.len() == 1 || p[1] == sep())
}

/// The components of `p` as `Path::components` yields them on Unix, each as
/// its text: `/` for the root, `.` for a leading current-directory component,
/// then every piece between separators that is neither empty nor `.`.
pub open spec fn components(p: Seq<char>) -> Seq<Seq<char>> {
    let root: Seq<Seq<char>> = if is_absolute(p) {
        seq![seq![sep()]]
    } else {
        seq![]
    };
    let cur: Seq<Seq<char>> = if starts_with_cur_dir(p) {
        seq![seq!['.']]
    } else {
        seq![]
    };
    root + cur + named(pieces(p))
}

/// `name` appended to `base` as `PathBuf::join` does on Unix.
pub fn join(base: &str, name: &str) -> (r: String)
    ensures
        r@ == join_path(base@, name@),
{
    let b = chars_of(base);
    let n = chars_of(name);
    if n.len() > 0 && n[0] == '/' {
        owned(name)
    } else if b.len() == 0 || b[b.len() - 1] == '/' {
        concat2(base, name)
    } else {
        let mut r = owned(base);
        push_char(&mut r, '/');
        let r2 = concat2(r.as_str(), name);
        r2
    }
}

proof fn lemma_pieces_step(s: Seq<char>, i: int, cur: Seq<char>)
    requires
        0 <= i < s.len(),
    ensures
        pieces_from(s.skip(i), cur) == if s[i] == sep() {
            seq![cur] + pieces_from(s.skip(i + 1), seq![])
        } else {
            pieces_from(s.skip(i + 1), cur.push(s[i]))
        },
{
    assert(s.skip(i).drop_first() =~= s.skip(i + 1));
    assert(s.skip(i)[0] == s[i]);
}

proof fn lemma_named_push(ps: Seq<Seq<char>>, q: Seq<char>)
    ensures
        named(ps.push(q)) == if is_named(q) {
            named(ps).push(q)
        } else {
            named(ps)
        },
{
    assert(ps.push(q).drop_last() =~= ps);
}

/// Whether the characters `v` are exactly `.`.
fn is_dot(v: &Vec<char>) -> (r: bool)
    ensures
        r == (v@ == seq!['.']),
{
    if v.len() == 1 && v[0] == '.' {
        assert(v@ =~= seq!['.']);
        true
    } else {
        false
    }
}

/// The components of `p` as `Path::components` yields them on Unix, each as
/// its text.
pub fn path_components(p: &str) -> (r: Vec<String>)
    ensures
        r@.map_values(|c: String| c@) == components(p@),
{
    let v = chars_of(p);
    let n = v.len();
    let mut out: Vec<String> = Vec::new();
    if n > 0 && v[0] == '/' {
        let mut root = String::new();
        push_char(&mut root, '/');
        out.push(root);
    }
    if n > 0 && v[0] == '.' && (n == 1 || v[1] == '/') {
        let mut dot = String::new();
        push_char(&mut dot, '.');
        out.push(dot);
    }
    let ghost head = out@.map_values(|c: String| c@);
    assert(head =~= (if is_absolute(p@) {
        seq![seq![sep()]]
    } else {
        Seq::<Seq<char>>::empty()
    }) + (if starts_with_cur_dir(p@) {
        seq![seq!['.']]
    } else {
        Seq::<Seq<char>>::empty()
    }));
    let mut cur: Vec<char> = Vec::new();
    let ghost mut done: Seq<Seq<char>> = Seq::empty();
    let mut i: usize = 0;
    assert(v@.skip(0) =~= v@);
    while i < n
        invariant
            i <= n == v@.len(),
            v@ == p@,
            pieces(p@) == done + pieces_from(v@.skip(i as int), cur@),
            out@.map_values(|c: String| c@) == head + named(done),
        decreases n - i,
    {
        proof {
            lemma_pieces_step(v@, i as int, cur@);
        }
        let c = v[i];
        if c == '/' {
            let ghost before = out@.map_values(|c: String| c@);
            proof {
                lemma_named_push(done, cur@);
                assert(done + (seq![cur@] + pieces_from(v@.skip(i + 1), seq![])) =~= done.push(
                    cur@,
                ) + pieces_from(v@.skip(i + 1), seq![]));
                done = done.push(cur@);
            }
            if cur.len() > 0 && !is_dot(&cur) {
                let len = cur.len();
                let s = crate::text::string_from(&cur, 0, len);
                assert(cur@.subrange(0, len as int) =~= cur@);
                out.push(s);
                assert(out@.map_values(|c: String| c@) =~= before.push(cur@));
            }
            cur = Vec::new();
        } else {
            cur.push(c);
        }
        i = i + 1;
    }
    assert(v@.skip(n as int) =~= Seq::<char>::empty());
    proof {
        lemma_named_push(done, cur@);
        assert(done + pieces_from(v@.skip(n as int), cur@) =~= done.push(cur@));
    }
    let ghost before = out@.map_values(|c: String| c@);
    if cur.len() > 0 && !is_dot(&cur) {
        let len = cur.len();
        let s = crate::text::string_from(&cur, 0, len);
        assert(cur@.subrange(0, len as int) =~= cur@);
        out.push(s);
        assert(out@.map_values(|c: String| c@) =~= before.push(cur@));
    }
    out
}

// ---------------------------------------------------------------------------
// Parent and final component

/// Where the body of `p` starts: after the root, or after a leading `.`
/// that `Path::components` keeps; at 0 otherwise.
pub open spec fn body_start(p: Seq<char>) -> int {
    if is_absolute(p) || starts_with_cur_dir(p) {
        1
    } else {
        0
    }
}

/// The position of the last separator of `s` at or after `b`, or -1 when
/// there is none.
pub open spec fn last_sep(s: Seq<char>, b: int) -> int
    decreases s.len(),
{
    if s.len() == 0 || s.len() <= b {
        -1
    } else if s.last() == sep() {
        s.len() - 1
    } else {
        last_sep(s.drop_last(), b)
    }
}

/// Where the last piece of `s` (after position `b`) begins.
pub open spec fn piece_start(s: Seq<char>, b: int) -> int {
    if last_sep(s, b) >= 0 {
        last_sep(s, b) + 1
    } else {
        b
    }
}

/// What is left of `s` once its last piece and the separator before it are
/// taken off.
pub open spec fn cut_point(s: Seq<char>, b: int) -> int {
    if last_sep(s, b) >= 0 {
        last_sep(s, b)
    } else {
        b
    }
}

/// `s` without its trailing pieces that name nothing (empty ones and `.`),
/// each taken off with the separator before it, never going below `b`.
pub open spec fn trim_back(s: Seq<char>, b: int) -> Seq<char>
    decreases s.len(),
{
    if 0 <= b < s.len() && !is_named(s.subrange(piece_start(s, b), s.len() as int)) {
        proof {
            lemma_last_sep_bounds(s, b);
        }
        trim_back(s.take(cut_point(s, b)), b)
    } else {
        s
    }
}

/// The parent of `p` as `Path::parent` gives it on Unix: `p` without its
/// final component and the separators and `.` pieces around that
/// component, or none when `p` is empty or ends in the root. A relative path
/// of one component has the empty path as its parent.
pub open spec fn parent_of(p: Seq<char>) -> Option<Seq<char>> {
    let b = body_start(p);
    let q = trim_back(p, b);
    if q.len() > b {
        Some(trim_back(q.take(cut_point(q, b)), b))
    } else if starts_with_cur_dir(p) {
        Some(seq![])
    } else {
        None
    }
}

/// The final component of `p` as `Path::file_name` gives it: the last
/// component when it names an entry (neither the root, `.` nor `..`).
pub open spec fn file_name_of(p: Seq<char>) -> Option<Seq<char>> {
    let cs = components(p);
    if cs.len() > 0 && cs.last() != seq![sep()] && cs.last() != seq!['.'] && cs.last() != seq![
        '.',
        '.',
    ] {
        Some(cs.last())
    } else {
        None
    }
}

/// The last separator, when there is one, stands at or after `b` and inside `s`.
pub proof fn lemma_last_sep_bounds(s: Seq<char>, b: int)
    ensures
        last_sep(s, b) == -1 || b <= last_sep(s, b) < s.len(),
        last_sep(s, b) >= 0 ==> s[last_sep(s, b)] == sep(),
    decreases s.len(),
{
    if s.len() > 0 && s.len() > b {
        if s.last() != sep() {
            lemma_last_sep_bounds(s.drop_last(), b);
            let j = last_sep(s.drop_last(), b);
            assert(last_sep(s, b) == j);
            if j >= 0 {
                assert(s.drop_last()[j] == s[j]);
                assert(s[j] == sep());
            }
        } else {
            assert(last_sep(s, b) == s.len() - 1);
            assert(s[s.len() - 1] == s.last());
            assert(s[last_sep(s, b)] == sep());
        }
    } else {
        assert(last_sep(s, b) == -1);
    }
}

proof fn lemma_trim_back_len(s: Seq<char>, b: int)
    ensures
        trim_back(s, b).len() <= s.len(),
        trim_back(s, b) == s.take(trim_back(s, b).len() as int),
        b >= 0 ==> trim_back(s, b).len() >= b || trim_back(s, b) == s,
    decreases s.len(),
{
    if 0 <= b < s.len() && !is_named(s.subrange(piece_start(s, b), s.len() as int)) {
        lemma_last_sep_bounds(s, b);
        let t = s.take(cut_point(s, b));
        lemma_trim_back_len(t, b);
        assert(t.take(trim_back(t, b).len() as int) =~= s.take(trim_back(t, b).len() as int));
    } else {
        assert(s.take(s.len() as int) =~= s);
    }
}

/// The position of the last separator of `v[..len]` at or after `b`.
fn find_last_sep(v: &Vec<char>, len: usize, b: usize) -> (r: Option<usize>)
    requires
        len <= v.len(),
    ensures
        match r {
            Some(j) => j < len && last_sep(v@.take(len as int), b as int) == j as int,
            None => last_sep(v@.take(len as int), b as int) == -1,
        },
{
    let mut i = len;
    while i > b && v[i - 1] != '/'
        invariant
            i <= len <= v.len(),
            last_sep(v@.take(len as int), b as int) == last_sep(v@.take(i as int), b as int),
        decreases i,
    {
        assert(v@.take(i as int).drop_last() =~= v@.take(i - 1));
        i = i - 1;
    }
    if i > b {
        assert(v@.take(i as int).last() == v@[i - 1]);
        assert(i > 0);
        Some(i - 1)
    } else {
        None
    }
}

/// Whether `v[from..to]` names an entry (see [`is_named`]).
fn piece_is_named(v: &Vec<char>, from: usize, to: usize) -> (r: bool)
    requires
        from <= to <= v.len(),
    ensures
        r == is_named(v@.subrange(from as int, to as int)),
{
    if from == to {
        false
    } else if to - from == 1 && v[from] == '.' {
        assert(v@.subrange(from as int, to as int) =~= seq!['.']);
        false
    } else {
        assert(v@.subrange(from as int, to as int).len() > 0);
        if to - from == 1 {
            assert(v@.subrange(from as int, to as int)[0] != '.');
        }
        true
    }
}

/// The length of `trim_back(v[..len], b)`.
fn trim_back_len(v: &Vec<char>, len: usize, b: usize) -> (r: usize)
    requires
        len <= v.len(),
    ensures
        r <= len,
        trim_back(v@.take(len as int), b as int) == v@.take(r as int),
{
    let mut n = len;
    while n > b
        invariant
            n <= len <= v.len(),
            trim_back(v@.take(len as int), b as int) == trim_back(v@.take(n as int), b as int),
        decreases n,
    {
        let sep_at = find_last_sep(v, n, b);
        let (start, cut) = match sep_at {
            Some(j) => (j + 1, j),
            None => (b, b),
        };
        proof {
            lemma_last_sep_bounds(v@.take(n as int), b as int);
        }
        let ghost s = v@.take(n as int);
        assert(s.subrange(start as int, n as int) =~= v@.subrange(start as int, n as int));
        if piece_is_named(v, start, n) {
            assert(trim_back(s, b as int) == s);
            return n;
        }
        assert(s.take(cut as int) =~= v@.take(cut as int));
        n = cut;
    }
    assert(trim_back(v@.take(n as int), b as int) == v@.take(n as int));
    n
}

/// The parent of `p` (see [`parent_of`]).
pub fn parent(p: &str) -> (r: Option<String>)
    ensures
        crate::text::opt_chars(r) == parent_of(p@),
{
    let v = chars_of(p);
    let n = v.len();
    let absolute = n > 0 && v[0] == '/';
    let cur_dir = n > 0 && v[0] == '.' && (n == 1 || v[1] == '/');
    let b: usize = if absolute || cur_dir {
        1
    } else {
        0
    };
    assert(v@.take(n as int) =~= p@);
    let q = trim_back_len(&v, n, b);
    if q > b {
        let cut = match find_last_sep(&v, q, b) {
            Some(j) => j,
            None => b,
        };
        proof {
            lemma_last_sep_bounds(v@.take(q as int), b as int);
            assert(v@.take(q as int).take(cut as int) =~= v@.take(cut as int));
        }
        let r = trim_back_len(&v, cut, b);
        Some(crate::text::string_from(&v, 0, r))
    } else if cur_dir {
        Some(String::new())
    } else {
        None
    }
}

/// The final component of `p` (see [`file_name_of`]).
pub fn file_name(p: &str) -> (r: Option<String>)
    ensures
        crate::text::opt_chars(r) == file_name_of(p@),
{
    let cs = path_components(p);
    let n = cs.len();
    proof {
        assert(cs@.map_values(|c: String| c@).len() == n);
    }
    if n == 0 {
        return None;
    }
    let last = cs[n - 1].as_str();
    assert(last@ == components(p@).last());
    let v = chars_of(last);
    let is_root = v.len() == 1 && v[0] == '/';
    let is_dot = v.len() == 1 && v[0] == '.';
    let is_dots = v.len() == 2 && v[0] == '.' && v[1] == '.';
    if is_root || is_dot || is_dots {
        proof {
            if is_root {
                assert(v@ =~= seq![sep()]);
            }
            if is_dot {
                assert(v@ =~= seq!['.']);
            }
            if is_dots {
                assert(v@ =~= seq!['.', '.']);
            }
        }
        None
    } else {
        proof {
            if v@ == seq![sep()] {
                assert(v@[0] == sep());
            }
            if v@ == seq!['.'] {
                assert(v@[0] == '.');
            }
            if v@ == seq!['.', '.'] {
                assert(v@[0] == '.' && v@[1] == '.');
            }
        }
        Some(owned(last))
    }
}

/// A parent is strictly shorter than its path, so walking up from a path
/// through its parents ends.
pub proof fn law_parent_is_shorter(p: Seq<char>)
    ensures
        parent_of(p) matches Some(q) ==> q.len() < p.len(),
{
    let b = body_start(p);
    lemma_trim_back_len(p, b);
    let q = trim_back(p, b);
    if q.len() > b {
        lemma_last_sep_bounds(q, b);
        lemma_trim_back_len(q.take(cut_point(q, b)), b);
    }
}

} // verus!
