//! Sequence vocabulary for the contracts: order-preserving selection and
//! stable sorting by an integer key.

use vstd::prelude::*;

verus! {

/// The elements of `s` that satisfy `p`, in their original order.
pub open spec fn keep<T>(s: Seq<T>, p: spec_fn(T) -> bool) -> Seq<T>
    decreases s.len(),
{
    if s.len() == 0 {
        Seq::empty()
    } else {
        let r = keep(s.drop_last(), p);
        if p(s.last()) {
            r.push(s.last())
        } else {
            r
        }
    }
}

/// The elements of `s` whose key is `k`, in their original order.
pub open spec fn keyed<T>(s: Seq<T>, key: spec_fn(T) -> int, k: int) -> Seq<T>
    decreases s.len(),
{
    if s.len() == 0 {
        Seq::empty()
    } else {
        let r = keyed(s.drop_last(), key, k);
        if key(s.last()) == k {
            r.push(s.last())
        } else {
            r
        }
    }
}

/// `s` is ordered by `key`, smallest first.
pub open spec fn sorted_by<T>(s: Seq<T>, key: spec_fn(T) -> int) -> bool {
    forall|i: int, j: int| 0 <= i < j < s.len() ==> key(#[trigger] s[i]) <= key(#[trigger] s[j])
}

/// `out` is the stable sort of `inp` by `key`: ordered by key, and for every
/// key the elements that carry it appear in the same order as in `inp`.
/// Together these fix `out` completely.
pub open spec fn stable_sort_of<T>(out: Seq<T>, inp: Seq<T>, key: spec_fn(T) -> int) -> bool {
    &&& sorted_by(out, key)
    &&& forall|k: int| #[trigger] keyed(out, key, k) == keyed(inp, key, k)
}

pub proof fn lemma_keep_push<T>(s: Seq<T>, x: T, p: spec_fn(T) -> bool)
    ensures
        keep(s.push(x), p) == if p(x) {
            keep(s, p).push(x)
        } else {
            keep(s, p)
        },
{
    assert(s.push(x).drop_last() =~= s);
}

pub proof fn lemma_keep_all<T>(s: Seq<T>, p: spec_fn(T) -> bool)
    requires
        forall|i: int| 0 <= i < s.len() ==> p(#[trigger] s[i]),
    ensures
        keep(s, p) == s,
    decreases s.len(),
{
    if s.len() > 0 {
        assert(p(s[s.len() - 1]));
        assert forall|i: int| 0 <= i < s.drop_last().len() implies p(#[trigger] s.drop_last()[i]) by {
            assert(s.drop_last()[i] == s[i]);
        }
        lemma_keep_all(s.drop_last(), p);
        assert(s.drop_last().push(s.last()) =~= s);
    }
}

/// Keeping all but the one element at `i` that fails `p` is removing it.
pub proof fn lemma_keep_remove<T>(s: Seq<T>, p: spec_fn(T) -> bool, i: int)
    requires
        0 <= i < s.len(),
        !p(s[i]),
        forall|j: int| 0 <= j < s.len() && j != i ==> p(#[trigger] s[j]),
    ensures
        keep(s, p) == s.remove(i),
    decreases s.len(),
{
    let d = s.drop_last();
    if i == s.len() - 1 {
        assert forall|j: int| 0 <= j < d.len() implies p(#[trigger] d[j]) by {
            assert(d[j] == s[j]);
        }
        lemma_keep_all(d, p);
        assert(s.remove(i) =~= d);
    } else {
        assert(d[i] == s[i]);
        assert forall|j: int| 0 <= j < d.len() && j != i implies p(#[trigger] d[j]) by {
            assert(d[j] == s[j]);
        }
        lemma_keep_remove(d, p, i);
        assert(p(s[s.len() - 1]));
        assert(d.remove(i).push(s.last()) =~= s.remove(i));
    }
}

/// Keeping by `p` and then by `q` is keeping by both.
pub proof fn lemma_keep_keep<T>(s: Seq<T>, p: spec_fn(T) -> bool, q: spec_fn(T) -> bool)
    ensures
        keep(keep(s, p), q) == keep(s, |x: T| p(x) && q(x)),
    decreases s.len(),
{
    if s.len() > 0 {
        lemma_keep_keep(s.drop_last(), p, q);
        if p(s.last()) {
            lemma_keep_push(keep(s.drop_last(), p), s.last(), q);
        }
    }
}

pub proof fn lemma_keyed_push<T>(s: Seq<T>, x: T, key: spec_fn(T) -> int, k: int)
    ensures
        keyed(s.push(x), key, k) == if key(x) == k {
            keyed(s, key, k).push(x)
        } else {
            keyed(s, key, k)
        },
{
    assert(s.push(x).drop_last() =~= s);
}

pub proof fn lemma_keyed_add<T>(a: Seq<T>, b: Seq<T>, key: spec_fn(T) -> int, k: int)
    ensures
        keyed(a + b, key, k) == keyed(a, key, k) + keyed(b, key, k),
    decreases b.len(),
{
    if b.len() == 0 {
        assert(a + b =~= a);
        assert(keyed(a, key, k) + keyed(b, key, k) =~= keyed(a, key, k));
    } else {
        lemma_keyed_add(a, b.drop_last(), key, k);
        assert((a + b).drop_last() =~= a + b.drop_last());
        assert((a + b).last() == b.last());
        if key(b.last()) == k {
            assert(keyed(a, key, k) + keyed(b.drop_last(), key, k).push(b.last()) =~= (keyed(
                a,
                key,
                k,
            ) + keyed(b.drop_last(), key, k)).push(b.last()));
        }
    }
}

pub proof fn lemma_keyed_none<T>(s: Seq<T>, key: spec_fn(T) -> int, k: int)
    requires
        forall|i: int| 0 <= i < s.len() ==> key(#[trigger] s[i]) != k,
    ensures
        keyed(s, key, k) == Seq::<T>::empty(),
    decreases s.len(),
{
    if s.len() > 0 {
        assert(key(s[s.len() - 1]) != k);
        assert forall|i: int| 0 <= i < s.drop_last().len() implies key(
            #[trigger] s.drop_last()[i],
        ) != k by {
            assert(s.drop_last()[i] == s[i]);
        }
        lemma_keyed_none(s.drop_last(), key, k);
    }
}

/// Inserting `x` at `p` into a sorted sequence, where everything before `p`
/// has a key at most `key(x)` and everything from `p` on a larger key, keeps
/// it sorted and appends `x` to its key group.
pub proof fn lemma_sorted_insert<T>(s: Seq<T>, p: int, x: T, key: spec_fn(T) -> int)
    requires
        0 <= p <= s.len(),
        sorted_by(s, key),
        forall|i: int| 0 <= i < p ==> key(#[trigger] s[i]) <= key(x),
        forall|i: int| p <= i < s.len() ==> key(#[trigger] s[i]) > key(x),
    ensures
        sorted_by(s.insert(p, x), key),
        forall|k: int|
            #[trigger] keyed(s.insert(p, x), key, k) == if key(x) == k {
                keyed(s, key, k).push(x)
            } else {
                keyed(s, key, k)
            },
{
    let t = s.insert(p, x);
    let a = s.subrange(0, p);
    let b = s.subrange(p, s.len() as int);
    assert(t =~= a + seq![x] + b);
    assert(s =~= a + b);
    assert forall|i: int, j: int| 0 <= i < j < t.len() implies key(#[trigger] t[i]) <= key(
        #[trigger] t[j],
    ) by {
        if j < p {
        } else if j == p {
        } else if i < p {
            assert(t[i] == s[i]);
            assert(t[j] == s[j - 1]);
        } else if i == p {
            assert(t[j] == s[j - 1]);
        } else {
            assert(t[i] == s[i - 1]);
            assert(t[j] == s[j - 1]);
        }
    }
    assert forall|k: int|
        #[trigger] keyed(s.insert(p, x), key, k) == if key(x) == k {
            keyed(s, key, k).push(x)
        } else {
            keyed(s, key, k)
        } by {
        lemma_keyed_add(a + seq![x], b, key, k);
        lemma_keyed_add(a, seq![x], key, k);
        lemma_keyed_add(a, b, key, k);
        lemma_keyed_push(Seq::<T>::empty(), x, key, k);
        assert(Seq::<T>::empty().push(x) =~= seq![x]);
        if key(x) == k {
            assert forall|i: int| 0 <= i < b.len() implies key(#[trigger] b[i]) != k by {
                assert(b[i] == s[p + i]);
            }
            lemma_keyed_none(b, key, k);
            assert(keyed(a, key, k) + keyed(seq![x], key, k) + keyed(b, key, k) =~= (keyed(
                a,
                key,
                k,
            ) + keyed(b, key, k)).push(x));
        } else {
            assert(keyed(a, key, k) + keyed(seq![x], key, k) + keyed(b, key, k) =~= keyed(
                a,
                key,
                k,
            ) + keyed(b, key, k));
        }
    }
}

pub proof fn lemma_keep_concat<T>(a: Seq<T>, b: Seq<T>, p: spec_fn(T) -> bool)
    ensures
        keep(a + b, p) == keep(a, p) + keep(b, p),
    decreases b.len(),
{
    if b.len() == 0 {
        assert(a + b =~= a);
        assert(keep(a, p) + keep(b, p) =~= keep(a, p));
    } else {
        lemma_keep_concat(a, b.drop_last(), p);
        assert((a + b).drop_last() =~= a + b.drop_last());
        assert((a + b).last() == b.last());
        if p(b.last()) {
            assert(keep(a, p) + keep(b, p) =~= (keep(a, p) + keep(b.drop_last(), p)).push(b.last()));
        } else {
            assert(keep(a, p) + keep(b, p) =~= keep(a, p) + keep(b.drop_last(), p));
        }
    }
}

/// An element of `s` with key `k` is in its key group.
pub proof fn lemma_keyed_has<T>(s: Seq<T>, key: spec_fn(T) -> int, k: int, i: int)
    requires
        0 <= i < s.len(),
        key(s[i]) == k,
    ensures
        exists|j: int| 0 <= j < keyed(s, key, k).len() && keyed(s, key, k)[j] == s[i],
    decreases s.len(),
{
    let d = s.drop_last();
    let r = keyed(d, key, k);
    if i == s.len() - 1 {
        assert(keyed(s, key, k)[r.len() as int] == s[i]);
    } else {
        assert(d[i] == s[i]);
        lemma_keyed_has(d, key, k, i);
        let j = choose|j: int| 0 <= j < r.len() && r[j] == d[i];
        assert(keyed(s, key, k)[j] == s[i]);
    }
}

/// Every element of a key group comes from `s`.
pub proof fn lemma_keyed_from<T>(s: Seq<T>, key: spec_fn(T) -> int, k: int, j: int)
    requires
        0 <= j < keyed(s, key, k).len(),
    ensures
        exists|i: int| 0 <= i < s.len() && s[i] == keyed(s, key, k)[j] && key(s[i]) == k,
    decreases s.len(),
{
    let d = s.drop_last();
    let r = keyed(d, key, k);
    if j < r.len() {
        assert(keyed(s, key, k)[j] == r[j]);
        lemma_keyed_from(d, key, k, j);
        let i = choose|i: int| 0 <= i < d.len() && d[i] == r[j] && key(d[i]) == k;
        assert(s[i] == d[i]);
    } else {
        assert(keyed(s, key, k)[j] == s[s.len() - 1]);
    }
}

/// No element occurs twice in `s`.
pub open spec fn distinct<T>(s: Seq<T>) -> bool {
    forall|i: int, j: int| 0 <= i < j < s.len() ==> s[i] != s[j]
}

/// The key groups of a duplicate-free sequence are duplicate-free.
pub proof fn lemma_keyed_distinct<T>(s: Seq<T>, key: spec_fn(T) -> int, k: int)
    requires
        distinct(s),
    ensures
        distinct(keyed(s, key, k)),
    decreases s.len(),
{
    if s.len() > 0 {
        let d = s.drop_last();
        assert(distinct(d)) by {
            assert forall|i: int, j: int| 0 <= i < j < d.len() implies d[i] != d[j] by {
                assert(d[i] == s[i] && d[j] == s[j]);
            }
        }
        lemma_keyed_distinct(d, key, k);
        let r = keyed(d, key, k);
        if key(s.last()) == k {
            assert forall|a: int, b: int| 0 <= a < b < r.len() + 1 implies r.push(s.last())[a]
                != r.push(s.last())[b] by {
                if b == r.len() {
                    lemma_keyed_from(d, key, k, a);
                    let i = choose|i: int| 0 <= i < d.len() && d[i] == r[a] && key(d[i]) == k;
                    assert(s[i] == r[a]);
                    assert(s[i] != s[s.len() - 1]);
                }
            }
        }
    }
}

/// Two equal elements of `s` make their key group hold one element twice.
pub proof fn lemma_keyed_repeats<T>(s: Seq<T>, key: spec_fn(T) -> int, i: int, j: int)
    requires
        0 <= i < j < s.len(),
        s[i] == s[j],
    ensures
        !distinct(keyed(s, key, key(s[i]))),
    decreases s.len(),
{
    let k = key(s[i]);
    let d = s.drop_last();
    let r = keyed(d, key, k);
    if j == s.len() - 1 {
        assert(d[i] == s[i]);
        lemma_keyed_has(d, key, k, i);
        let a = choose|a: int| 0 <= a < r.len() && r[a] == d[i];
        assert(keyed(s, key, k)[a] == keyed(s, key, k)[r.len() as int]);
    } else {
        assert(d[i] == s[i] && d[j] == s[j]);
        lemma_keyed_repeats(d, key, i, j);
        let (a, b) = choose|a: int, b: int| 0 <= a < b < r.len() && r[a] == r[b];
        assert(keyed(s, key, k)[a] == r[a]);
        assert(keyed(s, key, k)[b] == r[b]);
    }
}

/// A stable sort keeps the elements: the same ones, each as often (for a
/// duplicate-free input, the output is duplicate-free and holds exactly the
/// input's elements).
pub proof fn lemma_stable_sort_elements<T>(out: Seq<T>, inp: Seq<T>, key: spec_fn(T) -> int)
    requires
        stable_sort_of(out, inp, key),
        distinct(inp),
    ensures
        distinct(out),
        forall|i: int| 0 <= i < inp.len() ==> out.contains(#[trigger] inp[i]),
        forall|j: int| 0 <= j < out.len() ==> inp.contains(#[trigger] out[j]),
{
    assert forall|i: int, j: int| 0 <= i < j < out.len() implies out[i] != out[j] by {
        if out[i] == out[j] {
            lemma_keyed_repeats(out, key, i, j);
            lemma_keyed_distinct(inp, key, key(out[i]));
            assert(keyed(out, key, key(out[i])) == keyed(inp, key, key(out[i])));
        }
    }
    assert forall|i: int| 0 <= i < inp.len() implies out.contains(#[trigger] inp[i]) by {
        let k = key(inp[i]);
        lemma_keyed_has(inp, key, k, i);
        let a = choose|a: int| 0 <= a < keyed(inp, key, k).len() && keyed(inp, key, k)[a] == inp[i];
        assert(keyed(out, key, k) == keyed(inp, key, k));
        lemma_keyed_from(out, key, k, a);
        let w = choose|w: int| 0 <= w < out.len() && out[w] == keyed(out, key, k)[a] && key(out[w]) == k;
        assert(out[w] == inp[i]);
    }
    assert forall|j: int| 0 <= j < out.len() implies inp.contains(#[trigger] out[j]) by {
        let k = key(out[j]);
        lemma_keyed_has(out, key, k, j);
        let a = choose|a: int| 0 <= a < keyed(out, key, k).len() && keyed(out, key, k)[a] == out[j];
        assert(keyed(out, key, k) == keyed(inp, key, k));
        lemma_keyed_from(inp, key, k, a);
        let w = choose|w: int| 0 <= w < inp.len() && inp[w] == keyed(inp, key, k)[a] && key(inp[w]) == k;
        assert(inp[w] == out[j]);
    }
}

/// An element of `s` that satisfies `p` is kept.
pub proof fn lemma_keep_contains<T>(s: Seq<T>, p: spec_fn(T) -> bool, i: int)
    requires
        0 <= i < s.len(),
        p(s[i]),
    ensures
        keep(s, p).contains(s[i]),
    decreases s.len(),
{
    let d = s.drop_last();
    if i == s.len() - 1 {
        assert(keep(s, p) == keep(d, p).push(s.last()));
        assert(keep(s, p)[keep(d, p).len() as int] == s[i]);
    } else {
        assert(d[i] == s[i]);
        lemma_keep_contains(d, p, i);
        let k = choose|k: int| 0 <= k < keep(d, p).len() && keep(d, p)[k] == s[i];
        if p(s.last()) {
            assert(keep(s, p)[k] == keep(d, p)[k]);
        }
    }
}

/// Keeping never lengthens a sequence.
pub proof fn lemma_keep_len<T>(s: Seq<T>, p: spec_fn(T) -> bool)
    ensures
        keep(s, p).len() <= s.len(),
    decreases s.len(),
{
    if s.len() > 0 {
        lemma_keep_len(s.drop_last(), p);
    }
}

} // verus!
