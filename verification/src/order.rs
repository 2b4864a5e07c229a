//! Stable ordering by optional text keys, as `slice::sort_by_key` orders with an
//! `Option<String>` key: `None` first, strings compared character by character.
use vstd::prelude::*;

verus! {

/// `a` sorts strictly before `b`, comparing characters by their code points and a proper
/// prefix before the longer text.
pub open spec fn chars_lt(a: Seq<char>, b: Seq<char>) -> bool
    decreases a.len(),
{
    if a.len() == 0 {
        b.len() > 0
    } else if b.len() == 0 {
        false
    } else if (a[0] as int) < (b[0] as int) {
        true
    } else if a[0] == b[0] {
        chars_lt(a.drop_first(), b.drop_first())
    } else {
        false
    }
}

/// The order of optional keys: no key first, then keys by `chars_lt`.
pub open spec fn key_lt(a: Option<Seq<char>>, b: Option<Seq<char>>) -> bool {
    match (a, b) {
        (None, Some(_)) => true,
        (Some(x), Some(y)) => chars_lt(x, y),
        _ => false,
    }
}

/// Entry `i` sorts strictly before entry `j`: by key, and by position among equal keys.
pub open spec fn entry_lt(keys: Seq<Option<Seq<char>>>, i: int, j: int) -> bool {
    key_lt(keys[i], keys[j]) || (keys[i] == keys[j] && i < j)
}

/// `order` holds the position `v`.
pub open spec fn lists(order: Seq<usize>, v: int) -> bool {
    exists|i: int| 0 <= i < order.len() && order[i] == v
}

/// `order` lists every position of `keys` once, sorted by key, equal keys in the order
/// they are given in.
pub open spec fn is_stable_order(keys: Seq<Option<Seq<char>>>, order: Seq<usize>) -> bool {
    &&& order.len() == keys.len()
    &&& forall|i: int| 0 <= i < order.len() ==> #[trigger] order[i] < keys.len()
    &&& forall|v: int| 0 <= v < keys.len() ==> #[trigger] lists(order, v)
    &&& forall|i: int, j: int|
        0 <= i < j < order.len() ==> entry_lt(keys, #[trigger] order[i] as int, #[trigger] order[j] as int)
}

/// The stable order of `keys` (unique, by `lemma_stable_order_unique`).
pub open spec fn stable_order(keys: Seq<Option<Seq<char>>>) -> Seq<usize> {
    choose|order: Seq<usize>| is_stable_order(keys, order)
}

/// The view of an optional key.
pub open spec fn key_view(k: Option<Vec<char>>) -> Option<Seq<char>> {
    match k {
        Some(v) => Some(v@),
        None => None,
    }
}

/// The views of a sequence of optional keys.
pub open spec fn keys_view(keys: Seq<Option<Vec<char>>>) -> Seq<Option<Seq<char>>> {
    keys.map_values(|k: Option<Vec<char>>| key_view(k))
}

/// No text sorts before itself.
pub proof fn lemma_chars_lt_irreflexive(a: Seq<char>)
    ensures
        !chars_lt(a, a),
    decreases a.len(),
{
    if a.len() > 0 {
        lemma_chars_lt_irreflexive(a.drop_first());
    }
}

/// The order of texts is transitive.
pub proof fn lemma_chars_lt_transitive(a: Seq<char>, b: Seq<char>, c: Seq<char>)
    requires
        chars_lt(a, b),
        chars_lt(b, c),
    ensures
        chars_lt(a, c),
    decreases a.len(),
{
    if a.len() > 0 && b.len() > 0 && c.len() > 0 && a[0] == b[0] && b[0] == c[0] {
        lemma_chars_lt_transitive(a.drop_first(), b.drop_first(), c.drop_first());
    }
}

/// Of two different texts, one sorts before the other.
pub proof fn lemma_chars_lt_total(a: Seq<char>, b: Seq<char>)
    ensures
        a == b || chars_lt(a, b) || chars_lt(b, a),
    decreases a.len(),
{
    if a.len() > 0 && b.len() > 0 && a[0] == b[0] {
        lemma_chars_lt_total(a.drop_first(), b.drop_first());
        if a.drop_first() == b.drop_first() {
            assert(a =~= seq![a[0]] + a.drop_first());
            assert(b =~= seq![b[0]] + b.drop_first());
        }
    } else if a.len() > 0 && b.len() > 0 {
        assert((a[0] as int) != (b[0] as int));
    } else if a.len() == 0 && b.len() == 0 {
        assert(a =~= b);
    }
}

/// No text sorts both before and after another.
pub proof fn lemma_chars_lt_asymmetric(a: Seq<char>, b: Seq<char>)
    ensures
        !(chars_lt(a, b) && chars_lt(b, a)),
{
    if chars_lt(a, b) && chars_lt(b, a) {
        lemma_chars_lt_transitive(a, b, a);
        lemma_chars_lt_irreflexive(a);
    }
}

proof fn lemma_key_lt_props(a: Option<Seq<char>>, b: Option<Seq<char>>, c: Option<Seq<char>>)
    ensures
        !key_lt(a, a),
        key_lt(a, b) && key_lt(b, c) ==> key_lt(a, c),
        a == b || key_lt(a, b) || key_lt(b, a),
        !(key_lt(a, b) && key_lt(b, a)),
{
    if let Some(x) = a {
        lemma_chars_lt_irreflexive(x);
        if let Some(y) = b {
            lemma_chars_lt_total(x, y);
            lemma_chars_lt_asymmetric(x, y);
            if let Some(z) = c {
                if chars_lt(x, y) && chars_lt(y, z) {
                    lemma_chars_lt_transitive(x, y, z);
                }
            }
        }
    }
}

proof fn lemma_entry_lt_props(keys: Seq<Option<Seq<char>>>, i: int, j: int, k: int)
    ensures
        !entry_lt(keys, i, i),
        entry_lt(keys, i, j) && entry_lt(keys, j, k) ==> entry_lt(keys, i, k),
        !(entry_lt(keys, i, j) && entry_lt(keys, j, i)),
{
    lemma_key_lt_props(keys[i], keys[j], keys[k]);
    lemma_key_lt_props(keys[j], keys[i], keys[k]);
    lemma_key_lt_props(keys[i], keys[k], keys[j]);
}

/// Two stable orders of the same keys are the same sequence.
pub proof fn lemma_stable_order_unique(
    keys: Seq<Option<Seq<char>>>,
    o1: Seq<usize>,
    o2: Seq<usize>,
)
    requires
        is_stable_order(keys, o1),
        is_stable_order(keys, o2),
    ensures
        o1 == o2,
{
    lemma_prefix_agrees(keys, o1, o2, o1.len() as int);
    assert(o1 =~= o2);
}

proof fn lemma_prefix_agrees(keys: Seq<Option<Seq<char>>>, o1: Seq<usize>, o2: Seq<usize>, k: int)
    requires
        is_stable_order(keys, o1),
        is_stable_order(keys, o2),
        0 <= k <= o1.len(),
    ensures
        forall|j: int| 0 <= j < k ==> o1[j] == o2[j],
    decreases k,
{
    if k > 0 {
        lemma_prefix_agrees(keys, o1, o2, k - 1);
        let j = k - 1;
        if o1[j] != o2[j] {
            let a = o1[j] as int;
            let b = o2[j] as int;
            assert(lists(o2, a));
            assert(lists(o1, b));
            let p = choose|p: int| 0 <= p < o2.len() && o2[p] == a;
            let q = choose|q: int| 0 <= q < o1.len() && o1[q] == b;
            if p < j {
                assert(o1[p] == o2[p]);
                lemma_entry_lt_props(keys, o1[p] as int, a, o1[p] as int);
                assert(entry_lt(keys, o1[p] as int, a));
            }
            if q < j {
                assert(o1[q] == o2[q]);
                lemma_entry_lt_props(keys, o2[q] as int, b, o2[q] as int);
                assert(entry_lt(keys, o2[q] as int, b));
            }
            assert(p != j);
            assert(q != j);
            assert(entry_lt(keys, b, a));
            assert(entry_lt(keys, a, b));
            lemma_entry_lt_props(keys, a, b, a);
        }
    }
}

/// A computed stable order is the stable order.
pub proof fn lemma_is_the_stable_order(keys: Seq<Option<Seq<char>>>, order: Seq<usize>)
    requires
        is_stable_order(keys, order),
    ensures
        stable_order(keys) == order,
{
    let o = stable_order(keys);
    assert(is_stable_order(keys, o));
    lemma_stable_order_unique(keys, o, order);
}

/// How many leading entries of `order` do not sort after the key of `x`.
pub open spec fn insert_position(keys: Seq<Option<Seq<char>>>, order: Seq<usize>, x: int) -> nat
    decreases order.len(),
{
    if order.len() == 0 {
        0
    } else if key_lt(keys[x], keys[order[0] as int]) {
        0
    } else {
        1 + insert_position(keys, order.drop_first(), x)
    }
}

proof fn lemma_insert_position(keys: Seq<Option<Seq<char>>>, order: Seq<usize>, x: int)
    ensures
        insert_position(keys, order, x) <= order.len(),
        forall|q: int|
            0 <= q < insert_position(keys, order, x) ==> !key_lt(keys[x], keys[order[q] as int]),
        insert_position(keys, order, x) < order.len() ==> key_lt(
            keys[x],
            keys[order[insert_position(keys, order, x) as int] as int],
        ),
    decreases order.len(),
{
    if order.len() > 0 && !key_lt(keys[x], keys[order[0] as int]) {
        lemma_insert_position(keys, order.drop_first(), x);
        assert forall|q: int| 0 <= q < insert_position(keys, order, x) implies !key_lt(
            keys[x],
            keys[order[q] as int],
        ) by {
            if q > 0 {
                assert(order[q] == order.drop_first()[q - 1]);
            }
        }
    }
}

/// Every sequence of keys has a stable order.
pub proof fn lemma_stable_order_exists(keys: Seq<Option<Seq<char>>>)
    requires
        keys.len() <= usize::MAX,
    ensures
        exists|order: Seq<usize>| is_stable_order(keys, order),
    decreases keys.len(),
{
    if keys.len() == 0 {
        let o = Seq::<usize>::empty();
        assert(is_stable_order(keys, o));
    } else {
        let n = keys.len() - 1;
        let prefix = keys.drop_last();
        lemma_stable_order_exists(prefix);
        let old_order = choose|o: Seq<usize>| is_stable_order(prefix, o);
        assert forall|a: int, b: int|
            0 <= a < b < old_order.len() implies entry_lt(keys, #[trigger] old_order[a] as int, #[trigger] old_order[b] as int) by {
            assert(entry_lt(prefix, old_order[a] as int, old_order[b] as int));
        }
        let p = insert_position(keys, old_order, n);
        lemma_insert_position(keys, old_order, n);
        assert forall|q: int| p <= q < old_order.len() implies key_lt(keys[n], keys[#[trigger] old_order[q] as int]) by {
            if q > p {
                let first = old_order[p as int] as int;
                assert(entry_lt(keys, first, old_order[q] as int));
                lemma_key_lt_props(keys[n], keys[first], keys[old_order[q] as int]);
            }
        }
        assert forall|q: int| 0 <= q < p implies entry_lt(keys, #[trigger] old_order[q] as int, n) by {
            let last = old_order[p - 1] as int;
            assert(old_order[p - 1] < n);
            lemma_key_lt_props(keys[n], keys[last], keys[last]);
            assert(entry_lt(keys, last, n));
            if q < p - 1 {
                assert(entry_lt(keys, old_order[q] as int, last));
                lemma_entry_lt_props(keys, old_order[q] as int, last, n);
            }
        }
        let order = old_order.insert(p as int, n as usize);
        assert forall|a: int, b: int|
            0 <= a < b < order.len() implies entry_lt(keys, #[trigger] order[a] as int, #[trigger] order[b] as int) by {
            if a < p && b < p {
                assert(order[a] == old_order[a] && order[b] == old_order[b]);
            } else if a < p && b == p {
                assert(order[a] == old_order[a]);
            } else if a < p {
                assert(order[a] == old_order[a] && order[b] == old_order[b - 1]);
            } else if a == p {
                assert(order[b] == old_order[b - 1]);
                assert(old_order[b - 1] < n);
            } else {
                assert(order[a] == old_order[a - 1] && order[b] == old_order[b - 1]);
            }
        }
        assert forall|v: int| 0 <= v < keys.len() implies #[trigger] lists(order, v) by {
            if v == n {
                assert(order[p as int] == v);
            } else {
                assert(lists(old_order, v));
                let q = choose|q: int| 0 <= q < old_order.len() && old_order[q] == v;
                if q < p {
                    assert(order[q] == v);
                } else {
                    assert(order[q + 1] == v);
                }
            }
        }
        assert forall|i: int| 0 <= i < order.len() implies #[trigger] order[i] < keys.len() by {
            if i < p {
                assert(order[i] == old_order[i]);
            } else if i > p {
                assert(order[i] == old_order[i - 1]);
            }
        }
        assert(is_stable_order(keys, order));
    }
}

/// The stable order of any keys lists every position once, sorted by key, equal keys in
/// the order they are given in.
pub proof fn lemma_stable_order(keys: Seq<Option<Seq<char>>>)
    requires
        keys.len() <= usize::MAX,
    ensures
        is_stable_order(keys, stable_order(keys)),
{
    lemma_stable_order_exists(keys);
}

/// Whether key `a` sorts strictly before key `b`.
pub fn key_less(a: &Option<Vec<char>>, b: &Option<Vec<char>>) -> (r: bool)
    ensures
        r == key_lt(key_view(*a), key_view(*b)),
{
    match (a, b) {
        (None, Some(_)) => true,
        (Some(x), Some(y)) => {
            let mut i: usize = 0;
            assert(x@.skip(0) =~= x@);
            assert(y@.skip(0) =~= y@);
            while i < x.len() && i < y.len() && x[i] == y[i]
                invariant
                    i <= x@.len(),
                    i <= y@.len(),
                    chars_lt(x@, y@) == chars_lt(x@.skip(i as int), y@.skip(i as int)),
                decreases x@.len() - i,
            {
                assert(x@.skip(i as int).drop_first() =~= x@.skip(i + 1));
                assert(y@.skip(i as int).drop_first() =~= y@.skip(i + 1));
                i = i + 1;
            }
            if i == x.len() {
                i < y.len()
            } else if i == y.len() {
                false
            } else {
                x[i] < y[i]
            }
        },
        _ => false,
    }
}

/// The positions of `keys`, sorted by key, equal keys keeping their order.
pub fn stable_order_of(keys: &Vec<Option<Vec<char>>>) -> (order: Vec<usize>)
    ensures
        is_stable_order(keys_view(keys@), order@),
        order@ == stable_order(keys_view(keys@)),
{
    let ghost kv = keys_view(keys@);
    let n = keys.len();
    let mut order: Vec<usize> = Vec::new();
    let mut i: usize = 0;
    while i < n
        invariant
            n == keys@.len(),
            kv == keys_view(keys@),
            i <= n,
            order@.len() == i,
            forall|q: int| 0 <= q < order@.len() ==> #[trigger] order@[q] < i,
            forall|v: int| 0 <= v < i ==> #[trigger] lists(order@, v),
            forall|a: int, b: int|
                0 <= a < b < order@.len() ==> entry_lt(kv, #[trigger] order@[a] as int, #[trigger] order@[b] as int),
        decreases n - i,
    {
        let mut p = order.len();
        while p > 0 && key_less(&keys[i], &keys[order[p - 1]])
            invariant
                n == keys@.len(),
                kv == keys_view(keys@),
                i < n,
                order@.len() == i,
                p <= order@.len(),
                forall|q: int| 0 <= q < order@.len() ==> #[trigger] order@[q] < i,
                forall|q: int| p <= q < order@.len() ==> key_lt(kv[i as int], kv[#[trigger] order@[q] as int]),
            decreases p,
        {
            p = p - 1;
        }
        let ghost old_order = order@;
        proof {
            assert forall|q: int| 0 <= q < p implies entry_lt(kv, #[trigger] old_order[q] as int, i as int) by {
                let last = old_order[p - 1] as int;
                lemma_key_lt_props(kv[i as int], kv[last], kv[last]);
                assert(entry_lt(kv, last, i as int));
                if q < p - 1 {
                    assert(entry_lt(kv, old_order[q] as int, last));
                    lemma_entry_lt_props(kv, old_order[q] as int, last, i as int);
                }
            }
        }
        order.insert(p, i);
        proof {
            assert forall|a: int, b: int|
                0 <= a < b < order@.len() implies entry_lt(kv, #[trigger] order@[a] as int, #[trigger] order@[b] as int) by {
                if a < p && b < p {
                    assert(order@[a] == old_order[a] && order@[b] == old_order[b]);
                } else if a < p && b == p {
                    assert(order@[a] == old_order[a]);
                } else if a < p {
                    assert(order@[a] == old_order[a] && order@[b] == old_order[b - 1]);
                } else if a == p {
                    assert(order@[b] == old_order[b - 1]);
                } else {
                    assert(order@[a] == old_order[a - 1] && order@[b] == old_order[b - 1]);
                }
            }
            assert forall|v: int| 0 <= v < i + 1 implies #[trigger] lists(order@, v) by {
                if v == i {
                    assert(order@[p as int] == v);
                } else {
                    assert(lists(old_order, v));
                    let q = choose|q: int| 0 <= q < old_order.len() && old_order[q] == v;
                    if q < p {
                        assert(order@[q] == v);
                    } else {
                        assert(order@[q + 1] == v);
                    }
                }
            }
        }
        i = i + 1;
    }
    proof {
        lemma_is_the_stable_order(kv, order@);
    }
    order
}

} // verus!
