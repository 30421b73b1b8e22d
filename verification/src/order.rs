//! Orders used when listing things: the lexicographic order of strings, and what a stable
//! sort keeps (the items of each key, in their first order).
use vstd::prelude::*;

verus! {

/// `a` comes strictly before `b` in lexicographic order of code points (the order in which
/// `str` compares, since UTF-8 keeps the order of code points).
pub open spec fn lex_lt(a: Seq<char>, b: Seq<char>) -> bool
    decreases a.len(),
{
    if a.len() == 0 {
        b.len() > 0
    } else if b.len() == 0 {
        false
    } else if a[0] != b[0] {
        a[0] < b[0]
    } else {
        lex_lt(a.drop_first(), b.drop_first())
    }
}

/// No string comes before itself.
pub proof fn lemma_lex_irreflexive(a: Seq<char>)
    ensures
        !lex_lt(a, a),
    decreases a.len(),
{
    if a.len() > 0 {
        lemma_lex_irreflexive(a.drop_first());
    }
}

/// Lexicographic order is transitive.
pub proof fn lemma_lex_transitive(a: Seq<char>, b: Seq<char>, c: Seq<char>)
    requires
        lex_lt(a, b),
        lex_lt(b, c),
    ensures
        lex_lt(a, c),
    decreases a.len(),
{
    if a.len() > 0 && b.len() > 0 && c.len() > 0 && a[0] == b[0] && b[0] == c[0] {
        lemma_lex_transitive(a.drop_first(), b.drop_first(), c.drop_first());
    }
}

/// Of two different strings, one comes before the other.
pub proof fn lemma_lex_total(a: Seq<char>, b: Seq<char>)
    ensures
        a == b || lex_lt(a, b) || lex_lt(b, a),
    decreases a.len(),
{
    if a.len() > 0 && b.len() > 0 {
        if a[0] == b[0] {
            lemma_lex_total(a.drop_first(), b.drop_first());
            if a.drop_first() == b.drop_first() {
                assert(a.drop_first().len() == a.len() - 1);
                assert(b.drop_first().len() == b.len() - 1);
                assert forall|i: int| 0 <= i < a.len() implies a[i] == b[i] by {
                    if i > 0 {
                        assert(a[i] == a.drop_first()[i - 1]);
                        assert(b[i] == b.drop_first()[i - 1]);
                    }
                }
                assert(a.len() == b.len());
                assert(a =~= b);
            }
        }
    } else if a.len() == 0 && b.len() == 0 {
        assert(a =~= b);
    }
}

/// `a` before `b` excludes `b` before `a`.
pub proof fn lemma_lex_asymmetric(a: Seq<char>, b: Seq<char>)
    requires
        lex_lt(a, b),
    ensures
        !lex_lt(b, a),
{
    if lex_lt(b, a) {
        lemma_lex_transitive(a, b, a);
        lemma_lex_irreflexive(a);
    }
}

/// "Not after" is transitive: `a <= b <= c` gives `a <= c`.
pub proof fn lemma_lex_le_transitive(a: Seq<char>, b: Seq<char>, c: Seq<char>)
    requires
        !lex_lt(b, a),
        !lex_lt(c, b),
    ensures
        !lex_lt(c, a),
{
    lemma_lex_total(a, b);
    if lex_lt(c, a) && lex_lt(a, b) {
        lemma_lex_transitive(c, a, b);
    }
}

/// Whether `a` comes strictly before `b` in lexicographic order.
pub fn lex_less(a: &[char], b: &[char]) -> (r: bool)
    ensures
        r == lex_lt(a@, b@),
{
    let mut i: usize = 0;
    assert(a@.skip(0) =~= a@);
    assert(b@.skip(0) =~= b@);
    while i < a.len() && i < b.len()
        invariant
            i <= a@.len(),
            i <= b@.len(),
            lex_lt(a@, b@) == lex_lt(a@.skip(i as int), b@.skip(i as int)),
        decreases a@.len() - i,
    {
        if a[i] != b[i] {
            return a[i] < b[i];
        }
        assert(a@.skip(i as int).drop_first() =~= a@.skip(i + 1));
        assert(b@.skip(i as int).drop_first() =~= b@.skip(i + 1));
        i = i + 1;
    }
    a.len() < b.len()
}

/// The items of `s` whose key is `k`, in their order in `s`.
pub open spec fn with_key<A, K>(s: Seq<A>, key: spec_fn(A) -> K, k: K) -> Seq<A> {
    s.filter(|x: A| key(x) == k)
}

/// `b` holds the items of `a`, and the items that share a key come in the same order in
/// both: what a stable sort on that key makes of `a`.
pub open spec fn same_per_key<A, K>(a: Seq<A>, b: Seq<A>, key: spec_fn(A) -> K) -> bool {
    forall|k: K| #[trigger] with_key(b, key, k) == with_key(a, key, k)
}

proof fn lemma_no_key<A, K>(s: Seq<A>, key: spec_fn(A) -> K, k: K)
    requires
        forall|j: int| 0 <= j < s.len() ==> key(#[trigger] s[j]) != k,
    ensures
        with_key(s, key, k) == Seq::<A>::empty(),
    decreases s.len(),
{
    reveal(Seq::filter);
    if s.len() > 0 {
        lemma_no_key(s.drop_last(), key, k);
        assert(key(s[s.len() - 1]) != k);
    }
}

/// Inserting `x` in front of items whose keys all differ from its own key puts `x` last
/// among the items of its key and leaves the other keys' items as they were.
pub proof fn lemma_insert_keys<A, K>(s: Seq<A>, pos: int, x: A, key: spec_fn(A) -> K, k: K)
    requires
        0 <= pos <= s.len(),
        forall|j: int| pos <= j < s.len() ==> key(#[trigger] s[j]) != key(x),
    ensures
        with_key(s.insert(pos, x), key, k) == if key(x) == k {
            with_key(s, key, k).push(x)
        } else {
            with_key(s, key, k)
        },
{
    let pred = |y: A| key(y) == k;
    let front = s.subrange(0, pos);
    let back = s.subrange(pos, s.len() as int);
    assert(s =~= front + back);
    assert(s.insert(pos, x) =~= front.push(x) + back);
    Seq::filter_distributes_over_add(front, back, pred);
    Seq::filter_distributes_over_add(front.push(x), back, pred);
    front.lemma_filter_push(x, pred);
    if key(x) == k {
        assert forall|j: int| 0 <= j < back.len() implies key(#[trigger] back[j]) != k by {
            assert(back[j] == s[pos + j]);
        }
        lemma_no_key(back, key, k);
        assert(with_key(back, key, k) =~= Seq::<A>::empty());
        assert(front.filter(pred) + Seq::<A>::empty() =~= front.filter(pred));
        assert(front.filter(pred).push(x) + Seq::<A>::empty() =~= front.filter(pred).push(x));
    }
}

/// Appending `x` adds it last among the items of its key.
pub proof fn lemma_push_keys<A, K>(s: Seq<A>, x: A, key: spec_fn(A) -> K, k: K)
    ensures
        with_key(s.push(x), key, k) == if key(x) == k {
            with_key(s, key, k).push(x)
        } else {
            with_key(s, key, k)
        },
{
    s.lemma_filter_push(x, |y: A| key(y) == k);
}

/// The names in `names` sorted into lexicographic order (`Vec::sort` on strings).
pub fn sort_names(names: Vec<String>) -> (out: Vec<String>)
    ensures
        out@.len() == names@.len(),
        forall|i: int, j: int| 0 <= i < j < out@.len() ==> !lex_lt(out@[j]@, out@[i]@),
        same_per_key(names@, out@, |s: String| s@),
{
    let ghost key = |s: String| s@;
    let mut rest = names;
    let mut out: Vec<String> = Vec::new();
    let mut keys: Vec<Vec<char>> = Vec::new();
    let ghost done: Seq<String> = Seq::empty();
    while rest.len() > 0
        invariant
            names@ == done + rest@,
            keys@.len() == out@.len(),
            out@.len() == done.len(),
            forall|i: int| 0 <= i < out@.len() ==> (#[trigger] keys@[i])@ == out@[i]@,
            forall|i: int, j: int| 0 <= i < j < out@.len() ==> !lex_lt(out@[j]@, out@[i]@),
            same_per_key(done, out@, key),
            key == (|s: String| s@),
        decreases rest@.len(),
    {
        let x = rest.remove(0);
        let kx = crate::text::chars_of(x.as_str());
        let mut pos = out.len();
        while pos > 0 && lex_less(&kx, &keys[pos - 1])
            invariant
                pos <= out@.len(),
                keys@.len() == out@.len(),
                kx@ == x@,
                forall|i: int| 0 <= i < out@.len() ==> (#[trigger] keys@[i])@ == out@[i]@,
                forall|j: int| pos <= j < out@.len() ==> lex_lt(x@, (#[trigger] out@[j])@),
            decreases pos,
        {
            pos = pos - 1;
        }
        proof {
            assert forall|j: int| pos <= j < out@.len() implies key(#[trigger] out@[j]) != key(x) by {
                lemma_lex_irreflexive(x@);
            }
            assert forall|k: Seq<char>| #[trigger] with_key(out@.insert(pos as int, x), key, k)
                == with_key(done.push(x), key, k) by {
                lemma_insert_keys(out@, pos as int, x, key, k);
                lemma_push_keys(done, x, key, k);
            }
            let ghost new = out@.insert(pos as int, x);
            assert forall|i: int, j: int| 0 <= i < j < new.len() implies !lex_lt(new[j]@, new[i]@) by {
                if j < pos {
                } else if j == pos {
                    if i < pos - 1 {
                        lemma_lex_le_transitive(out@[i]@, out@[pos - 1]@, x@);
                    }
                } else if i < pos {
                    assert(new[j] == out@[j - 1]);
                    assert(new[i] == out@[i]);
                } else if i == pos {
                    lemma_lex_asymmetric(x@, out@[j - 1]@);
                } else {
                    assert(new[i] == out@[i - 1]);
                    assert(new[j] == out@[j - 1]);
                }
            }
        }
        out.insert(pos, x);
        keys.insert(pos, kx);
        proof {
            done = done.push(x);
            assert(names@ =~= done + rest@);
        }
    }
    assert(done =~= names@);
    out
}

/// A reordering that keeps the items of each key keeps every key: whatever key an item of `a`
/// has, an item of `b` has it too.
pub proof fn lemma_same_per_key_keeps<A, K>(a: Seq<A>, b: Seq<A>, key: spec_fn(A) -> K, j: int)
    requires
        same_per_key(a, b, key),
        0 <= j < a.len(),
    ensures
        exists|i: int| 0 <= i < b.len() && key(b[i]) == key(a[j]),
{
    let k = key(a[j]);
    a.lemma_filter_contains(|x: A| key(x) == k, j);
    assert(with_key(b, key, k) == with_key(a, key, k));
    if !(exists|i: int| 0 <= i < b.len() && key(b[i]) == k) {
        lemma_no_key(b, key, k);
        assert(with_key(a, key, k).len() == 0);
    }
}

} // verus!
