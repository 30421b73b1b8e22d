//! Unix paths as std's `Path` reads them: the file name, stem and extension of a path, its
//! parent, and joining.
use vstd::prelude::*;
use crate::text::{chars_of, push_char, push_slice, string_all};

verus! {

/// The end of `s[..end]` once trailing `/` are dropped.
pub open spec fn trailing_stripped(s: Seq<char>, end: int) -> int
    decreases end,
{
    if end > 0 && end <= s.len() && s[end - 1] == '/' {
        trailing_stripped(s, end - 1)
    } else {
        end
    }
}

/// The position of the last `/` in `s[..end]`, or -1.
pub open spec fn slash_before(s: Seq<char>, end: int) -> int
    decreases end,
{
    if end <= 0 || end > s.len() {
        -1
    } else if s[end - 1] == '/' {
        end - 1
    } else {
        slash_before(s, end - 1)
    }
}

pub proof fn lemma_stripped_bounds(s: Seq<char>, end: int)
    requires
        0 <= end <= s.len(),
    ensures
        0 <= trailing_stripped(s, end) <= end,
        trailing_stripped(s, end) > 0 ==> s[trailing_stripped(s, end) - 1] != '/',
        forall|j: int| trailing_stripped(s, end) <= j < end ==> s[j] == '/',
    decreases end,
{
    if end > 0 && s[end - 1] == '/' {
        lemma_stripped_bounds(s, end - 1);
    }
}

pub proof fn lemma_slash_bounds(s: Seq<char>, end: int)
    requires
        0 <= end <= s.len(),
    ensures
        -1 <= slash_before(s, end) < end,
        slash_before(s, end) >= 0 ==> s[slash_before(s, end)] == '/',
        forall|j: int| slash_before(s, end) < j < end ==> s[j] != '/',
    decreases end,
{
    if end > 0 && s[end - 1] != '/' {
        lemma_slash_bounds(s, end - 1);
    }
}

/// The bounds of the last normal component of `s[..end]`: components are separated by
/// `/`, empty and `.` components are skipped, and nothing is found when the path is empty,
/// is the root, or is `.`.
pub open spec fn last_component(s: Seq<char>, end: int) -> Option<(int, int)>
    decreases end,
{
    if end <= 0 || end > s.len() {
        None
    } else {
        let e = trailing_stripped(s, end);
        if e == 0 {
            None
        } else {
            let k = slash_before(s, e);
            if e - k == 2 && s[k + 1] == '.' {
                if k < 0 {
                    None
                } else {
                    proof {
                        lemma_stripped_bounds(s, end);
                        lemma_slash_bounds(s, e);
                    }
                    last_component(s, k)
                }
            } else {
                Some((k + 1, e))
            }
        }
    }
}

/// `Path::file_name`: the last component of `path`, unless it is `..`.
pub open spec fn file_name(path: Seq<char>) -> Option<Seq<char>> {
    match last_component(path, path.len() as int) {
        None => None,
        Some((a, b)) => {
            let c = path.subrange(a, b);
            if c == seq!['.', '.'] {
                None
            } else {
                Some(c)
            }
        },
    }
}

/// The file name of `path`, or the empty text when it has none
/// (`file_name().and_then(to_str).unwrap_or("")`).
pub open spec fn file_name_or_empty(path: Seq<char>) -> Seq<char> {
    match file_name(path) {
        Some(n) => n,
        None => Seq::empty(),
    }
}

/// The bounds of the file name of `p` inside `p`, if it has one.
pub fn file_name_bounds(p: &[char]) -> (r: Option<(usize, usize)>)
    ensures
        match r {
            Some((a, b)) => a <= b <= p@.len() && file_name(p@) == Some(p@.subrange(a as int, b as int)),
            None => file_name(p@) is None,
        },
{
    let ghost s = p@;
    let mut end = p.len();
    loop
        invariant
            end <= p@.len(),
            s == p@,
            last_component(s, s.len() as int) == last_component(s, end as int),
        decreases end,
    {
        if end == 0 {
            return None;
        }
        let mut e = end;
        while e > 0 && p[e - 1] == '/'
            invariant
                e <= end <= p@.len(),
                s == p@,
                trailing_stripped(s, end as int) == trailing_stripped(s, e as int),
            decreases e,
        {
            e = e - 1;
        }
        if e == 0 {
            return None;
        }
        let mut k = e;
        while k > 0 && p[k - 1] != '/'
            invariant
                k <= e <= p@.len(),
                s == p@,
                slash_before(s, e as int) == slash_before(s, k as int),
            decreases k,
        {
            k = k - 1;
        }
        // `k` is one past the last slash (0 when there is none)
        if e - k == 1 && p[k] == '.' {
            if k == 0 {
                return None;
            }
            proof {
                lemma_stripped_bounds(s, end as int);
                lemma_slash_bounds(s, e as int);
            }
            end = k - 1;
        } else {
            proof {
                lemma_slash_bounds(s, e as int);
            }
            if e - k == 2 && p[k] == '.' && p[k + 1] == '.' {
                assert(p@.subrange(k as int, e as int) =~= seq!['.', '.']);
                return None;
            }
            proof {
                let c = p@.subrange(k as int, e as int);
                let dd = seq!['.', '.'];
                assert(dd.len() == 2 && dd[0] == '.' && dd[1] == '.');
                if c == dd {
                    assert(c[0] == p@[k as int]);
                    assert(c[1] == p@[k + 1]);
                }
            }
            return Some((k, e));
        }
    }
}


/// Whether `p` is read by `Path` component by component just as it is written: it is not
/// empty, does not end in `/` (unless it is `/`), holds no `//`, and has no `.` component.
pub open spec fn plain_path(p: Seq<char>) -> bool {
    &&& p.len() > 0
    &&& (p.len() > 1 ==> p.last() != '/')
    &&& forall|i: int| 0 <= i < p.len() - 1 ==> !(p[i] == '/' && #[trigger] p[i + 1] == '/')
    &&& forall|i: int|
        0 <= i < p.len() && #[trigger] p[i] == '.' ==> !((i == 0 || p[i - 1] == '/') && (i + 1 == p.len()
            || p[i + 1] == '/'))
}

/// The parent of a plain path: what stands before its last `/` (`/` itself where that is its
/// first character), the empty path for a single relative component, and none for `/`.
pub open spec fn plain_parent(p: Seq<char>) -> Option<Seq<char>> {
    let i = slash_before(p, p.len() as int);
    if p == seq!['/'] {
        None
    } else if i < 0 {
        Some(Seq::empty())
    } else if i == 0 {
        Some(seq!['/'])
    } else {
        Some(p.take(i))
    }
}

/// What `Path::parent` gives for `p`, as text.
pub uninterp spec fn path_parent(p: Seq<char>) -> Option<Seq<char>>;

/// `Path::parent`: the path without its last component. Claimed: the result is a fixed
/// function of the path's text (named `path_parent`); the empty path has none; and for a
/// plain path (see `plain_path`) it is what its documentation shows: the text before the
/// last `/`, `/` for a component right under the root, the empty path for one relative
/// component, none for `/`. How `Path` reads repeated `/`, a trailing `/` or `.`
/// components is not stated.
#[verifier::external_body]
pub(crate) fn parent_of(p: &str) -> (r: Option<String>)
    ensures
        match r {
            Some(q) => path_parent(p@) == Some(q@),
            None => path_parent(p@) is None,
        },
        p@.len() == 0 ==> r is None,
        plain_path(p@) ==> match r {
            Some(q) => plain_parent(p@) == Some(q@),
            None => plain_parent(p@) is None,
        },
{
    std::path::Path::new(p).parent().and_then(|d| d.to_str()).map(String::from)
}

/// `base` joined with the relative or absolute path `name` (`Path::join` on Unix: an
/// absolute `name` replaces `base`; a separator is added unless `base` is empty or ends
/// with one).
pub open spec fn joined_path(base: Seq<char>, name: Seq<char>) -> Seq<char> {
    if name.len() > 0 && name[0] == '/' {
        name
    } else if base.len() == 0 || base.last() == '/' {
        base + name
    } else {
        base + seq!['/'] + name
    }
}

/// Joins `name` onto `base` as `Path::join` does.
pub fn join_path(base: &str, name: &str) -> (r: String)
    ensures
        r@ == joined_path(base@, name@),
{
    let b = chars_of(base);
    let n = chars_of(name);
    if n.len() > 0 && n[0] == '/' {
        return string_all(&n);
    }
    let mut s = string_all(&b);
    if b.len() > 0 && b[b.len() - 1] != '/' {
        push_char(&mut s, '/');
    }
    push_slice(&mut s, &n, 0, n.len());
    assert(n@.subrange(0, n@.len() as int) =~= n@);
    s
}

/// The position of the last `.` in `n`.
pub open spec fn last_dot(n: Seq<char>) -> Option<int>
    decreases n.len(),
{
    if n.len() == 0 {
        None
    } else if n.last() == '.' {
        Some(n.len() - 1)
    } else {
        last_dot(n.drop_last())
    }
}

/// The stem of a file name: the part before its last `.`, unless the name starts with its
/// only `.` or has none (`Path::file_stem` on a name).
pub open spec fn stem_of(n: Seq<char>) -> Seq<char> {
    match last_dot(n) {
        Some(i) => if i == 0 {
            n
        } else {
            n.take(i)
        },
        None => n,
    }
}

/// The extension of a file name: the part after its last `.`, if that `.` is not its first
/// character (`Path::extension` on a name).
pub open spec fn extension_of(n: Seq<char>) -> Option<Seq<char>> {
    match last_dot(n) {
        Some(i) => if i == 0 {
            None
        } else {
            Some(n.skip(i + 1))
        },
        None => None,
    }
}

/// `Path::file_stem`.
pub open spec fn file_stem(path: Seq<char>) -> Option<Seq<char>> {
    match file_name(path) {
        Some(n) => Some(stem_of(n)),
        None => None,
    }
}

/// `Path::extension`.
pub open spec fn extension(path: Seq<char>) -> Option<Seq<char>> {
    match file_name(path) {
        Some(n) => extension_of(n),
        None => None,
    }
}

proof fn lemma_last_dot(n: Seq<char>, k: int)
    requires
        0 <= k <= n.len(),
        forall|j: int| k <= j < n.len() ==> n[j] != '.',
    ensures
        last_dot(n) == last_dot(n.take(k)),
    decreases n.len() - k,
{
    if k < n.len() {
        assert(n.drop_last().take(k) =~= n.take(k));
        lemma_last_dot(n.drop_last(), k);
    } else {
        assert(n.take(k) =~= n);
    }
}

/// The position of the last `.` in `v`.
pub fn last_dot_exec(v: &[char]) -> (r: Option<usize>)
    ensures
        match r {
            Some(i) => last_dot(v@) == Some(i as int) && i < v@.len() && v@[i as int] == '.',
            None => last_dot(v@) is None,
        },
{
    let mut k = v.len();
    while k > 0 && v[k - 1] != '.'
        invariant
            k <= v@.len(),
            forall|j: int| k <= j < v@.len() ==> v@[j] != '.',
        decreases k,
    {
        k = k - 1;
    }
    proof {
        lemma_last_dot(v@, k as int);
    }
    if k == 0 {
        assert(v@.take(0).len() == 0);
        None
    } else {
        assert(v@.take(k as int).last() == '.');
        Some(k - 1)
    }
}

proof fn lemma_last_component_shape(s: Seq<char>, end: int)
    ensures
        last_component(s, end) matches Some(ab) ==> {
            &&& 0 <= ab.0 < ab.1 <= end <= s.len()
            &&& forall|j: int| ab.0 <= j < ab.1 ==> s[j] != '/'
            &&& !(ab.1 - ab.0 == 1 && s[ab.0] == '.')
        },
    decreases end,
{
    if 0 < end <= s.len() {
        lemma_stripped_bounds(s, end);
        let e = trailing_stripped(s, end);
        if e > 0 {
            lemma_slash_bounds(s, e);
            let k = slash_before(s, e);
            if e - k == 2 && s[k + 1] == '.' {
                if k >= 0 {
                    lemma_last_component_shape(s, k);
                }
            }
        }
    }
}

/// A file name is not empty, holds no `/`, and is neither `.` nor `..`.
pub proof fn lemma_file_name_shape(path: Seq<char>)
    requires
        file_name(path) is Some,
    ensures
        ({
            let n = file_name(path)->0;
            &&& n.len() > 0
            &&& forall|j: int| 0 <= j < n.len() ==> n[j] != '/'
            &&& n != seq!['.']
            &&& n != seq!['.', '.']
        }),
{
    lemma_last_component_shape(path, path.len() as int);
    let ab = last_component(path, path.len() as int)->0;
    let n = path.subrange(ab.0, ab.1);
    assert forall|j: int| 0 <= j < n.len() implies n[j] != '/' by {
        assert(n[j] == path[ab.0 + j]);
    }
    if n == seq!['.'] {
        assert(n[0] == path[ab.0]);
    }
}

proof fn lemma_slash_before_at(s: Seq<char>, end: int, p: int)
    requires
        0 <= end <= s.len(),
        -1 <= p < end,
        p >= 0 ==> s[p] == '/',
        forall|j: int| p < j < end ==> s[j] != '/',
    ensures
        slash_before(s, end) == p,
{
    lemma_slash_bounds(s, end);
    let k = slash_before(s, end);
    if k < p {
        assert(s[p] != '/');
    }
}

/// Joining a file name onto a directory gives a path whose file name is that name.
pub proof fn lemma_file_name_of_joined(dir: Seq<char>, n: Seq<char>)
    requires
        n.len() > 0,
        forall|j: int| 0 <= j < n.len() ==> n[j] != '/',
        n != seq!['.'],
        n != seq!['.', '.'],
    ensures
        file_name(joined_path(dir, n)) == Some(n),
{
    let s = joined_path(dir, n);
    let len = s.len() as int;
    let start = len - n.len();
    assert(s.subrange(start, len) =~= n);
    assert forall|j: int| start <= j < len implies s[j] != '/' by {
        assert(s[j] == n[j - start]);
    }
    assert(s[len - 1] == n[n.len() - 1]);
    assert(trailing_stripped(s, len) == len);
    if start > 0 {
        assert(s[start - 1] == '/');
    }
    lemma_slash_before_at(s, len, start - 1);
    if n.len() == 1 && n[0] == '.' {
        assert(n =~= seq!['.']);
    }
    assert(last_component(s, len) == Some((start, len)));
}

} // verus!
