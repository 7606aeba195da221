//! The canonical order of declarations is insensitive to their written order:
//! the stable insertion order used for identities sorts every reordering of a
//! list into the same sequence, provided equally keyed entries are identical.
use crate::graph::identity::{insert_by, sort_by, str_lt};
use crate::record::strmap::{key_bytes, lemma_bytes_lt_irreflexive, lemma_bytes_lt_total, lemma_bytes_lt_transitive};
use vstd::prelude::*;
use vstd::relations::{sorted_by, total_ordering};

verus! {

broadcast use vstd::multiset::group_multiset_axioms, vstd::seq_lib::group_to_multiset_ensures;

/// Lexicographic order of three-part sort keys, each part in string order.
pub open spec fn key_lt(a: (Seq<char>, Seq<char>, Seq<char>), b: (Seq<char>, Seq<char>, Seq<char>)) -> bool {
    str_lt(a.0, b.0) || (a.0 == b.0 && (str_lt(a.1, b.1) || (a.1 == b.1 && str_lt(a.2, b.2))))
}

/// A total order on keyed texts: by key, then by text.
pub open spec fn keyed_leq(
    x: ((Seq<char>, Seq<char>, Seq<char>), Seq<char>),
    y: ((Seq<char>, Seq<char>, Seq<char>), Seq<char>),
) -> bool {
    key_lt(x.0, y.0) || (x.0 == y.0 && (str_lt(x.1, y.1) || x.1 == y.1))
}

/// String order is a strict total order.
pub proof fn lemma_str_lt_order(a: Seq<char>, b: Seq<char>, c: Seq<char>)
    ensures
        !str_lt(a, a),
        str_lt(a, b) && str_lt(b, c) ==> str_lt(a, c),
        a != b ==> str_lt(a, b) || str_lt(b, a),
        str_lt(a, b) ==> !str_lt(b, a),
{
    lemma_bytes_lt_irreflexive(key_bytes(a));
    if str_lt(a, b) && str_lt(b, c) {
        lemma_bytes_lt_transitive(key_bytes(a), key_bytes(b), key_bytes(c));
    }
    if str_lt(a, b) && str_lt(b, a) {
        lemma_bytes_lt_transitive(key_bytes(a), key_bytes(b), key_bytes(a));
    }
    if a != b {
        vstd::utf8::encode_utf8_decode_utf8(a);
        vstd::utf8::encode_utf8_decode_utf8(b);
        lemma_bytes_lt_total(key_bytes(a), key_bytes(b));
    }
}

/// Key order is a strict total order.
pub proof fn lemma_key_lt_order(
    a: (Seq<char>, Seq<char>, Seq<char>),
    b: (Seq<char>, Seq<char>, Seq<char>),
    c: (Seq<char>, Seq<char>, Seq<char>),
)
    ensures
        !key_lt(a, a),
        key_lt(a, b) && key_lt(b, c) ==> key_lt(a, c),
        a != b ==> key_lt(a, b) || key_lt(b, a),
        key_lt(a, b) ==> !key_lt(b, a),
{
    lemma_str_lt_order(a.0, b.0, c.0);
    lemma_str_lt_order(a.1, b.1, c.1);
    lemma_str_lt_order(a.2, b.2, c.2);
    lemma_str_lt_order(b.0, a.0, c.0);
    lemma_str_lt_order(b.1, a.1, c.1);
    lemma_str_lt_order(b.2, a.2, c.2);
    lemma_str_lt_order(a.0, c.0, b.0);
    lemma_str_lt_order(a.1, c.1, b.1);
    lemma_str_lt_order(a.2, c.2, b.2);
}

/// Keyed texts are totally ordered.
pub proof fn lemma_keyed_leq_total()
    ensures
        total_ordering(|x: ((Seq<char>, Seq<char>, Seq<char>), Seq<char>), y: ((Seq<char>, Seq<char>, Seq<char>), Seq<char>)|
            keyed_leq(x, y)),
{
    let r = |x: ((Seq<char>, Seq<char>, Seq<char>), Seq<char>), y: ((Seq<char>, Seq<char>, Seq<char>), Seq<char>)|
        keyed_leq(x, y);
    assert forall|x: ((Seq<char>, Seq<char>, Seq<char>), Seq<char>)| #[trigger] r(x, x) by {}
    assert forall|x: ((Seq<char>, Seq<char>, Seq<char>), Seq<char>), y: ((Seq<char>, Seq<char>, Seq<char>), Seq<char>)|
        #[trigger] r(x, y) && #[trigger] r(y, x) implies x == y by {
        lemma_key_lt_order(x.0, y.0, x.0);
        lemma_str_lt_order(x.1, y.1, x.1);
    }
    assert forall|
        x: ((Seq<char>, Seq<char>, Seq<char>), Seq<char>),
        y: ((Seq<char>, Seq<char>, Seq<char>), Seq<char>),
        z: ((Seq<char>, Seq<char>, Seq<char>), Seq<char>),
    | #[trigger] r(x, y) && #[trigger] r(y, z) implies r(x, z) by {
        lemma_key_lt_order(x.0, y.0, z.0);
        lemma_str_lt_order(x.1, y.1, z.1);
    }
    assert forall|x: ((Seq<char>, Seq<char>, Seq<char>), Seq<char>), y: ((Seq<char>, Seq<char>, Seq<char>), Seq<char>)|
        #[trigger] r(x, y) || #[trigger] r(y, x) by {
        lemma_key_lt_order(x.0, y.0, x.0);
        lemma_str_lt_order(x.1, y.1, x.1);
    }
}

/// Index order by the keys of a list.
pub open spec fn index_lt(keys: Seq<(Seq<char>, Seq<char>, Seq<char>)>) -> spec_fn(int, int) -> bool {
    |a: int, b: int| key_lt(keys[a], keys[b])
}

/// Inserting adds exactly the inserted index.
pub proof fn lemma_insert_by_multiset(less: spec_fn(int, int) -> bool, order: Seq<int>, j: int)
    ensures
        insert_by(less, order, j).to_multiset() == order.to_multiset().insert(j),
        insert_by(less, order, j).len() == order.len() + 1,
    decreases order.len(),
{
    if order.len() == 0 {
        assert(seq![j] =~= Seq::<int>::empty().push(j));
    } else if less(j, order[0]) {
        assert(seq![j] + order =~= order.insert(0, j));
    } else {
        let rest = insert_by(less, order.drop_first(), j);
        lemma_insert_by_multiset(less, order.drop_first(), j);
        assert(seq![order[0]] + rest =~= rest.insert(0, order[0]));
        assert(order.drop_first().insert(0, order[0]) =~= order);
        assert(order.drop_first().to_multiset().insert(j).insert(order[0]) =~= order.drop_first().to_multiset().insert(
            order[0],
        ).insert(j));
    }
}

/// A stably sorted index sequence: no later index sorts strictly before an earlier one.
pub open spec fn stably_sorted(less: spec_fn(int, int) -> bool, order: Seq<int>) -> bool {
    forall|p: int, q: int| 0 <= p < q < order.len() ==> !less(#[trigger] order[q], #[trigger] order[p])
}

/// Insertion keeps an index sequence stably sorted under a strict order.
pub proof fn lemma_insert_by_sorted(keys: Seq<(Seq<char>, Seq<char>, Seq<char>)>, order: Seq<int>, j: int)
    requires
        stably_sorted(index_lt(keys), order),
    ensures
        stably_sorted(index_lt(keys), insert_by(index_lt(keys), order, j)),
    decreases order.len(),
{
    let less = index_lt(keys);
    let r = insert_by(less, order, j);
    if order.len() == 0 {
    } else if less(j, order[0]) {
        assert forall|p: int, q: int| 0 <= p < q < r.len() implies !less(#[trigger] r[q], #[trigger] r[p]) by {
            if p == 0 {
                assert(r[q] == order[q - 1]);
                lemma_key_lt_order(keys[order[q - 1]], keys[j], keys[order[0]]);
                lemma_key_lt_order(keys[order[q - 1]], keys[order[0]], keys[order[0]]);
                if q - 1 > 0 {
                    assert(!less(order[q - 1], order[0]));
                }
            } else {
                assert(r[p] == order[p - 1] && r[q] == order[q - 1]);
            }
        }
    } else {
        let rest = insert_by(less, order.drop_first(), j);
        assert(stably_sorted(less, order.drop_first())) by {
            assert forall|p: int, q: int| 0 <= p < q < order.drop_first().len() implies !less(
                #[trigger] order.drop_first()[q],
                #[trigger] order.drop_first()[p],
            ) by {
                assert(order.drop_first()[q] == order[q + 1] && order.drop_first()[p] == order[p + 1]);
            }
        }
        lemma_insert_by_sorted(keys, order.drop_first(), j);
        lemma_insert_by_multiset(less, order.drop_first(), j);
        assert forall|p: int, q: int| 0 <= p < q < r.len() implies !less(#[trigger] r[q], #[trigger] r[p]) by {
            if p == 0 {
                assert(r[q] == rest[q - 1]);
                assert(rest.to_multiset().contains(rest[q - 1]));
                assert(order.drop_first().to_multiset().insert(j).contains(rest[q - 1]));
                if rest[q - 1] != j {
                    assert(order.drop_first().to_multiset().contains(rest[q - 1]));
                    let k = choose|k: int| 0 <= k < order.drop_first().len() && order.drop_first()[k] == rest[q - 1];
                    assert(order[k + 1] == rest[q - 1]);
                    assert(!less(order[k + 1], order[0]));
                }
            } else {
                assert(r[p] == rest[p - 1] && r[q] == rest[q - 1]);
            }
        }
    }
}

/// The first `n` indices.
pub open spec fn indices(n: nat) -> Seq<int> {
    Seq::new(n, |i: int| i)
}

/// Sorting the first `n` indices under any relation permutes them.
pub proof fn lemma_sort_by_indices(less: spec_fn(int, int) -> bool, n: nat)
    ensures
        sort_by(less, n).to_multiset() == indices(n).to_multiset(),
        sort_by(less, n).len() == n,
        forall|i: int| 0 <= i < n ==> 0 <= #[trigger] sort_by(less, n)[i] < n,
    decreases n,
{
    if n == 0 {
        assert(indices(0) =~= Seq::<int>::empty());
    } else {
        let prev = sort_by(less, (n - 1) as nat);
        lemma_sort_by_indices(less, (n - 1) as nat);
        lemma_insert_by_multiset(less, prev, n - 1);
        assert(indices(n) =~= indices((n - 1) as nat).push(n - 1));
    }
    let order = sort_by(less, n);
    assert forall|i: int| 0 <= i < n implies 0 <= #[trigger] sort_by(less, n)[i] < n by {
        assert(order.to_multiset().contains(order[i]));
        assert(indices(n).to_multiset().contains(order[i]));
    }
}

/// Two relations that agree on the indices in play insert alike.
proof fn lemma_insert_by_agree(l1: spec_fn(int, int) -> bool, l2: spec_fn(int, int) -> bool, order: Seq<int>, j: int, n: int)
    requires
        0 <= j < n,
        forall|i: int| 0 <= i < order.len() ==> 0 <= #[trigger] order[i] < n,
        forall|a: int, b: int| 0 <= a < n && 0 <= b < n ==> #[trigger] l1(a, b) == #[trigger] l2(a, b),
    ensures
        insert_by(l1, order, j) == insert_by(l2, order, j),
    decreases order.len(),
{
    if order.len() > 0 {
        assert(l1(j, order[0]) == l2(j, order[0]));
        assert forall|i: int| 0 <= i < order.drop_first().len() implies 0 <= #[trigger] order.drop_first()[i] < n by {
            assert(order.drop_first()[i] == order[i + 1]);
        }
        lemma_insert_by_agree(l1, l2, order.drop_first(), j, n);
    }
}

/// Two relations that agree on the first `n` indices sort them alike.
pub proof fn lemma_sort_by_agree(l1: spec_fn(int, int) -> bool, l2: spec_fn(int, int) -> bool, n: nat)
    requires
        forall|a: int, b: int| 0 <= a < n && 0 <= b < n ==> #[trigger] l1(a, b) == #[trigger] l2(a, b),
    ensures
        sort_by(l1, n) == sort_by(l2, n),
    decreases n,
{
    if n > 0 {
        lemma_sort_by_agree(l1, l2, (n - 1) as nat);
        lemma_sort_by_indices(l1, (n - 1) as nat);
        let prev = sort_by(l1, (n - 1) as nat);
        assert forall|i: int| 0 <= i < prev.len() implies 0 <= #[trigger] prev[i] < n by {}
        lemma_insert_by_agree(l1, l2, prev, n - 1, n as int);
    }
}

/// Sorting the first `n` indices gives a stably sorted permutation of them.
pub proof fn lemma_sort_by_permutes(keys: Seq<(Seq<char>, Seq<char>, Seq<char>)>, n: nat)
    ensures
        sort_by(index_lt(keys), n).to_multiset() == indices(n).to_multiset(),
        sort_by(index_lt(keys), n).len() == n,
        stably_sorted(index_lt(keys), sort_by(index_lt(keys), n)),
    decreases n,
{
    if n == 0 {
        assert(indices(0) =~= Seq::<int>::empty());
    } else {
        let prev = sort_by(index_lt(keys), (n - 1) as nat);
        lemma_sort_by_permutes(keys, (n - 1) as nat);
        lemma_insert_by_multiset(index_lt(keys), prev, n - 1);
        lemma_insert_by_sorted(keys, prev, n - 1);
        assert(indices(n) =~= indices((n - 1) as nat).push(n - 1));
    }
}

/// Mapping keeps multiset equality.
pub proof fn lemma_map_multiset<A, B>(xs: Seq<A>, ys: Seq<A>, f: spec_fn(A) -> B)
    requires
        xs.to_multiset() == ys.to_multiset(),
    ensures
        xs.map_values(f).to_multiset() == ys.map_values(f).to_multiset(),
    decreases xs.len(),
{
    if xs.len() == 0 {
        assert(ys.to_multiset().len() == 0);
        assert(ys.len() == 0);
        assert(xs.map_values(f) =~= ys.map_values(f));
    } else {
        assert(xs.to_multiset().contains(xs[0]));
        assert(ys.to_multiset().contains(xs[0]));
        let k = choose|k: int| 0 <= k < ys.len() && ys[k] == xs[0];
        assert(xs.drop_first() =~= xs.remove(0));
        assert(xs.remove(0).to_multiset() == xs.to_multiset().remove(xs[0]));
        assert(ys.remove(k).to_multiset() == ys.to_multiset().remove(ys[k]));
        lemma_map_multiset(xs.drop_first(), ys.remove(k), f);
        assert(xs.map_values(f) =~= xs.drop_first().map_values(f).insert(0, f(xs[0])));
        assert(ys.map_values(f) =~= ys.remove(k).map_values(f).insert(k, f(xs[0])));
    }
}

/// A list's texts in canonical order: by key, stably.
pub open spec fn canonical_texts(keys: Seq<(Seq<char>, Seq<char>, Seq<char>)>, texts: Seq<Seq<char>>) -> Seq<Seq<char>> {
    sort_by(index_lt(keys), keys.len()).map_values(|i: int| texts[i])
}

/// The keyed texts of a list.
pub open spec fn keyed(keys: Seq<(Seq<char>, Seq<char>, Seq<char>)>, texts: Seq<Seq<char>>) -> Seq<
    ((Seq<char>, Seq<char>, Seq<char>), Seq<char>),
> {
    Seq::new(keys.len(), |i: int| (keys[i], texts[i]))
}

/// Equally keyed entries have equal texts.
pub open spec fn ties_identical(keys: Seq<(Seq<char>, Seq<char>, Seq<char>)>, texts: Seq<Seq<char>>) -> bool {
    forall|i: int, j: int| 0 <= i < keys.len() && 0 <= j < keys.len() && keys[i] == keys[j] ==> texts[i] == texts[j]
}

proof fn lemma_canonical_sorted(keys: Seq<(Seq<char>, Seq<char>, Seq<char>)>, texts: Seq<Seq<char>>)
    requires
        keys.len() == texts.len(),
        ties_identical(keys, texts),
    ensures
        ({
            let order = sort_by(index_lt(keys), keys.len());
            let s = order.map_values(|i: int| (keys[i], texts[i]));
            &&& sorted_by(s, |x: ((Seq<char>, Seq<char>, Seq<char>), Seq<char>), y: ((Seq<char>, Seq<char>, Seq<char>), Seq<char>)|
                keyed_leq(x, y))
            &&& s.to_multiset() == keyed(keys, texts).to_multiset()
            &&& s.map_values(|x: ((Seq<char>, Seq<char>, Seq<char>), Seq<char>)| x.1) == canonical_texts(keys, texts)
        }),
{
    let n = keys.len();
    let less = index_lt(keys);
    let order = sort_by(less, n);
    lemma_sort_by_permutes(keys, n);
    let g = |i: int| (keys[i], texts[i]);
    let s = order.map_values(g);
    assert forall|i: int| 0 <= i < order.len() implies 0 <= #[trigger] order[i] < n by {
        assert(order.to_multiset().contains(order[i]));
        assert(indices(n).to_multiset().contains(order[i]));
    }
    let leq = |x: ((Seq<char>, Seq<char>, Seq<char>), Seq<char>), y: ((Seq<char>, Seq<char>, Seq<char>), Seq<char>)|
        keyed_leq(x, y);
    assert forall|p: int, q: int| 0 <= p < q < s.len() implies #[trigger] leq(s[p], s[q]) by {
        assert(!less(order[q], order[p]));
        lemma_key_lt_order(keys[order[p]], keys[order[q]], keys[order[p]]);
        if keys[order[p]] == keys[order[q]] {
            assert(texts[order[p]] == texts[order[q]]);
        }
    }
    lemma_map_multiset(order, indices(n), g);
    assert(indices(n).map_values(g) =~= keyed(keys, texts));
    assert(s.map_values(|x: ((Seq<char>, Seq<char>, Seq<char>), Seq<char>)| x.1) =~= canonical_texts(keys, texts));
}

/// Every reordering of a list has the same canonical texts, provided equally
/// keyed entries have equal texts.
pub proof fn lemma_canonical_texts_reorder(
    keys1: Seq<(Seq<char>, Seq<char>, Seq<char>)>,
    texts1: Seq<Seq<char>>,
    keys2: Seq<(Seq<char>, Seq<char>, Seq<char>)>,
    texts2: Seq<Seq<char>>,
)
    requires
        keys1.len() == texts1.len(),
        keys2.len() == texts2.len(),
        ties_identical(keys1, texts1),
        ties_identical(keys2, texts2),
        keyed(keys1, texts1).to_multiset() == keyed(keys2, texts2).to_multiset(),
    ensures
        canonical_texts(keys1, texts1) == canonical_texts(keys2, texts2),
{
    lemma_canonical_sorted(keys1, texts1);
    lemma_canonical_sorted(keys2, texts2);
    lemma_keyed_leq_total();
    let s1 = sort_by(index_lt(keys1), keys1.len()).map_values(|i: int| (keys1[i], texts1[i]));
    let s2 = sort_by(index_lt(keys2), keys2.len()).map_values(|i: int| (keys2[i], texts2[i]));
    vstd::seq_lib::lemma_sorted_unique(
        s1,
        s2,
        |x: ((Seq<char>, Seq<char>, Seq<char>), Seq<char>), y: ((Seq<char>, Seq<char>, Seq<char>), Seq<char>)|
            keyed_leq(x, y),
    );
}

} // verus!
