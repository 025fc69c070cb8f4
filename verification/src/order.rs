//! Stable ordering of records by keys made of integers and texts, such as
//! the creation and update times of a record (what a stable `sort_by_key`
//! on such a key does).
use vstd::prelude::*;
use crate::text::{lemma_seq_lt_irreflexive, lemma_seq_lt_total, lemma_seq_lt_transitive, seq_lt, str_eq, str_lt};

verus! {

/// `a` orders strictly before `b`, comparing the first parts and then the
/// second.
pub open spec fn pair_lt(a: (i128, i128), b: (i128, i128)) -> bool {
    a.0 < b.0 || (a.0 == b.0 && a.1 < b.1)
}

/// Record `i` comes before record `j` in a stable sort by `keys`: its key
/// is smaller, or the keys are equal and it came first.
pub open spec fn stably_before(keys: Seq<(i128, i128)>, i: int, j: int) -> bool {
    pair_lt(keys[i], keys[j]) || (keys[i] == keys[j] && i < j)
}

/// `order` lists every record index once, in the order a stable sort by
/// `keys` puts the records in.
pub open spec fn is_stable_order(keys: Seq<(i128, i128)>, order: Seq<usize>) -> bool {
    &&& order.len() == keys.len()
    &&& forall|k: int| 0 <= k < order.len() ==> #[trigger] order[k] < keys.len()
    &&& forall|a: int, b: int|
        0 <= a < b < order.len() ==> stably_before(keys, #[trigger] order[a] as int, #[trigger] order[b] as int)
}

/// A stable order lists each index exactly once.
pub proof fn lemma_stable_order_distinct(keys: Seq<(i128, i128)>, order: Seq<usize>, a: int, b: int)
    requires
        is_stable_order(keys, order),
        0 <= a < order.len(),
        0 <= b < order.len(),
        a != b,
    ensures
        order[a] != order[b],
{
    if a < b {
        assert(stably_before(keys, order[a] as int, order[b] as int));
    } else {
        assert(stably_before(keys, order[b] as int, order[a] as int));
    }
}

/// A stable order lists every index.
pub proof fn lemma_stable_order_covers(keys: Seq<(i128, i128)>, order: Seq<usize>, q: int)
    requires
        is_stable_order(keys, order),
        0 <= q < keys.len(),
    ensures
        exists|k: int| 0 <= k < order.len() && order[k] == q,
{
    let s = order.map_values(|x: usize| x as int);
    assert forall|a: int, b: int| 0 <= a < s.len() && 0 <= b < s.len() && a != b implies s[a] != s[b] by {
        lemma_stable_order_distinct(keys, order, a, b);
    }
    assert(s.no_duplicates());
    s.unique_seq_to_set();
    let range = vstd::set_lib::set_int_range(0, keys.len() as int);
    vstd::set_lib::lemma_int_range(0, keys.len() as int);
    assert forall|x: int| s.to_set().contains(x) implies range.contains(x) by {
        let k = choose|k: int| 0 <= k < s.len() && s[k] == x;
        assert(order[k] < keys.len());
    }
    vstd::set_lib::lemma_subset_equality(s.to_set(), range);
    assert(range.contains(q));
    assert(s.to_set().contains(q));
    let k = choose|k: int| 0 <= k < s.len() && s[k] == q;
    assert(order[k] == q);
}

/// The indices of the records in the order a stable sort by `keys` puts
/// them in.
pub fn stable_order(keys: &Vec<(i128, i128)>) -> (order: Vec<usize>)
    ensures
        is_stable_order(keys@, order@),
{
    let n = keys.len();
    let mut order: Vec<usize> = Vec::new();
    let mut j: usize = 0;
    while j < n
        invariant
            n == keys@.len(),
            j <= n,
            order@.len() == j,
            forall|k: int| 0 <= k < order@.len() ==> #[trigger] order@[k] < j,
            forall|a: int, b: int|
                0 <= a < b < order@.len() ==> stably_before(
                    keys@,
                    #[trigger] order@[a] as int,
                    #[trigger] order@[b] as int,
                ),
        decreases n - j,
    {
        let kj = keys[j];
        let mut p: usize = order.len();
        while p > 0 && pair_lt_exec(kj, keys[order[p - 1]])
            invariant
                n == keys@.len(),
                j < n,
                kj == keys@[j as int],
                p <= order@.len(),
                order@.len() == j,
                forall|k: int| 0 <= k < order@.len() ==> #[trigger] order@[k] < j,
                forall|k: int| p <= k < order@.len() ==> pair_lt(kj, #[trigger] keys@[order@[k] as int]),
            decreases p,
        {
            p = p - 1;
        }
        let ghost old_order = order@;
        proof {
            if p > 0 {
                assert(!pair_lt(kj, keys@[old_order[p - 1] as int]));
                assert forall|k: int| 0 <= k < p implies stably_before(keys@, #[trigger] old_order[k] as int, j as int) by {
                    if k < p - 1 {
                        assert(stably_before(keys@, old_order[k] as int, old_order[p - 1] as int));
                    }
                    assert(old_order[k] < j);
                }
            }
        }
        order.insert(p, j);
        proof {
            assert forall|a: int, b: int|
                0 <= a < b < order@.len() implies stably_before(
                keys@,
                #[trigger] order@[a] as int,
                #[trigger] order@[b] as int,
            ) by {
                if a < p && b < p {
                    assert(order@[a] == old_order[a] && order@[b] == old_order[b]);
                } else if a < p && b == p {
                    assert(order@[b] == j);
                    assert(stably_before(keys@, old_order[a] as int, j as int));
                } else if a < p && b > p {
                    assert(order@[a] == old_order[a] && order@[b] == old_order[b - 1]);
                    assert(stably_before(keys@, old_order[a] as int, old_order[b - 1] as int));
                } else if a == p {
                    assert(order@[a] == j && order@[b] == old_order[b - 1]);
                    assert(pair_lt(kj, keys@[old_order[b - 1] as int]));
                } else {
                    assert(order@[a] == old_order[a - 1] && order@[b] == old_order[b - 1]);
                    assert(stably_before(keys@, old_order[a - 1] as int, old_order[b - 1] as int));
                }
            }
            assert forall|k: int| 0 <= k < order@.len() implies #[trigger] order@[k] < j + 1 by {
                if k < p {
                    assert(order@[k] == old_order[k]);
                } else if k > p {
                    assert(order@[k] == old_order[k - 1]);
                }
            }
        }
        j = j + 1;
    }
    order
}

/// `a` orders strictly before `b`: by the number, then the name, then the
/// id.
pub open spec fn named_lt(a: (i128, Seq<char>, u128), b: (i128, Seq<char>, u128)) -> bool {
    a.0 < b.0 || (a.0 == b.0 && (seq_lt(a.1, b.1) || (a.1 == b.1 && a.2 < b.2)))
}

/// Record `i` comes before record `j` in a stable sort by `keys`.
pub open spec fn named_before(keys: Seq<(i128, Seq<char>, u128)>, i: int, j: int) -> bool {
    named_lt(keys[i], keys[j]) || (keys[i] == keys[j] && i < j)
}

/// `order` lists every record index once, in the order a stable sort by
/// `keys` puts the records in.
pub open spec fn is_named_order(keys: Seq<(i128, Seq<char>, u128)>, order: Seq<usize>) -> bool {
    &&& order.len() == keys.len()
    &&& forall|k: int| 0 <= k < order.len() ==> #[trigger] order[k] < keys.len()
    &&& forall|a: int, b: int|
        0 <= a < b < order.len() ==> named_before(keys, #[trigger] order[a] as int, #[trigger] order[b] as int)
}

proof fn lemma_named_chain(a: (i128, Seq<char>, u128), b: (i128, Seq<char>, u128), c: (i128, Seq<char>, u128))
    requires
        named_lt(a, b) || a == b,
        named_lt(b, c) || b == c,
    ensures
        named_lt(a, c) || a == c,
{
    if named_lt(a, b) && named_lt(b, c) && a.0 == b.0 && b.0 == c.0 {
        if seq_lt(a.1, b.1) && seq_lt(b.1, c.1) {
            lemma_seq_lt_transitive(a.1, b.1, c.1);
        }
    }
}

proof fn lemma_named_total(a: (i128, Seq<char>, u128), b: (i128, Seq<char>, u128))
    ensures
        named_lt(a, b) || named_lt(b, a) || a == b,
{
    lemma_seq_lt_total(a.1, b.1);
    if a.0 == b.0 && a.1 == b.1 && a.2 == b.2 {
        assert(a == b);
    }
}

/// The keys as plain values.
pub open spec fn named_keys(keys: Seq<(i128, String, u128)>) -> Seq<(i128, Seq<char>, u128)> {
    keys.map_values(|k: (i128, String, u128)| (k.0, k.1@, k.2))
}

/// A stable order lists each index exactly once.
pub proof fn lemma_named_order_distinct(keys: Seq<(i128, Seq<char>, u128)>, order: Seq<usize>, a: int, b: int)
    requires
        is_named_order(keys, order),
        0 <= a < order.len(),
        0 <= b < order.len(),
        a != b,
    ensures
        order[a] != order[b],
{
    if a < b {
        assert(named_before(keys, order[a] as int, order[b] as int));
        if order[a] == order[b] {
            lemma_named_asym_self(keys[order[a] as int]);
        }
    } else {
        assert(named_before(keys, order[b] as int, order[a] as int));
        if order[a] == order[b] {
            lemma_named_asym_self(keys[order[a] as int]);
        }
    }
}

proof fn lemma_named_asym_self(a: (i128, Seq<char>, u128))
    ensures
        !named_lt(a, a),
{
    lemma_seq_lt_irreflexive(a.1);
}

/// A stable order by names lists every index.
pub proof fn lemma_named_order_covers(keys: Seq<(i128, Seq<char>, u128)>, order: Seq<usize>, q: int)
    requires
        is_named_order(keys, order),
        0 <= q < keys.len(),
    ensures
        exists|k: int| 0 <= k < order.len() && order[k] == q,
{
    let s = order.map_values(|x: usize| x as int);
    assert forall|a: int, b: int| 0 <= a < s.len() && 0 <= b < s.len() && a != b implies s[a] != s[b] by {
        lemma_named_order_distinct(keys, order, a, b);
    }
    assert(s.no_duplicates());
    s.unique_seq_to_set();
    let range = vstd::set_lib::set_int_range(0, keys.len() as int);
    vstd::set_lib::lemma_int_range(0, keys.len() as int);
    assert forall|x: int| s.to_set().contains(x) implies range.contains(x) by {
        let k = choose|k: int| 0 <= k < s.len() && s[k] == x;
        assert(order[k] < keys.len());
    }
    vstd::set_lib::lemma_subset_equality(s.to_set(), range);
    assert(range.contains(q));
    assert(s.to_set().contains(q));
    let k = choose|k: int| 0 <= k < s.len() && s[k] == q;
    assert(order[k] == q);
}

/// The indices of the records in the order a stable sort by `keys` puts
/// them in.
pub fn stable_named_order(keys: &Vec<(i128, String, u128)>) -> (order: Vec<usize>)
    ensures
        is_named_order(named_keys(keys@), order@),
{
    let ghost kv = named_keys(keys@);
    let n = keys.len();
    let mut order: Vec<usize> = Vec::new();
    let mut j: usize = 0;
    while j < n
        invariant
            n == keys@.len(),
            kv == named_keys(keys@),
            j <= n,
            order@.len() == j,
            forall|k: int| 0 <= k < order@.len() ==> #[trigger] order@[k] < j,
            forall|a: int, b: int|
                0 <= a < b < order@.len() ==> named_before(
                    kv,
                    #[trigger] order@[a] as int,
                    #[trigger] order@[b] as int,
                ),
        decreases n - j,
    {
        let mut p: usize = order.len();
        while p > 0 && named_lt_exec(&keys[j], &keys[order[p - 1]])
            invariant
                n == keys@.len(),
                kv == named_keys(keys@),
                j < n,
                p <= order@.len(),
                order@.len() == j,
                forall|k: int| 0 <= k < order@.len() ==> #[trigger] order@[k] < j,
                forall|k: int| p <= k < order@.len() ==> named_lt(kv[j as int], #[trigger] kv[order@[k] as int]),
            decreases p,
        {
            p = p - 1;
        }
        let ghost old_order = order@;
        proof {
            if p > 0 {
                let last = kv[old_order[p - 1] as int];
                lemma_named_total(kv[j as int], last);
                assert(named_lt(last, kv[j as int]) || last == kv[j as int]);
                assert forall|k: int| 0 <= k < p implies named_before(kv, #[trigger] old_order[k] as int, j as int) by {
                    assert(old_order[k] < j);
                    if k < p - 1 {
                        assert(named_before(kv, old_order[k] as int, old_order[p - 1] as int));
                        lemma_named_chain(kv[old_order[k] as int], last, kv[j as int]);
                    }
                }
            }
        }
        order.insert(p, j);
        proof {
            assert forall|a: int, b: int|
                0 <= a < b < order@.len() implies named_before(
                kv,
                #[trigger] order@[a] as int,
                #[trigger] order@[b] as int,
            ) by {
                if a < p && b < p {
                    assert(order@[a] == old_order[a] && order@[b] == old_order[b]);
                } else if a < p && b == p {
                    assert(order@[b] == j);
                    assert(named_before(kv, old_order[a] as int, j as int));
                } else if a < p && b > p {
                    assert(order@[a] == old_order[a] && order@[b] == old_order[b - 1]);
                    assert(named_before(kv, old_order[a] as int, old_order[b - 1] as int));
                } else if a == p {
                    assert(order@[a] == j && order@[b] == old_order[b - 1]);
                    assert(named_lt(kv[j as int], kv[old_order[b - 1] as int]));
                } else {
                    assert(order@[a] == old_order[a - 1] && order@[b] == old_order[b - 1]);
                    assert(named_before(kv, old_order[a - 1] as int, old_order[b - 1] as int));
                }
            }
            assert forall|k: int| 0 <= k < order@.len() implies #[trigger] order@[k] < j + 1 by {
                if k < p {
                    assert(order@[k] == old_order[k]);
                } else if k > p {
                    assert(order@[k] == old_order[k - 1]);
                }
            }
        }
        j = j + 1;
    }
    order
}

/// Whether key `a` orders strictly before key `b`.
pub fn named_lt_exec(a: &(i128, String, u128), b: &(i128, String, u128)) -> (r: bool)
    ensures
        r == named_lt((a.0, a.1@, a.2), (b.0, b.1@, b.2)),
{
    a.0 < b.0 || (a.0 == b.0 && (str_lt(a.1.as_str(), b.1.as_str()) || (str_eq(a.1.as_str(), b.1.as_str())
        && a.2 < b.2)))
}

/// `a` orders strictly before `b`: by the first number, then the second,
/// then the name.
pub open spec fn triple_lt(a: (i128, i128, Seq<char>), b: (i128, i128, Seq<char>)) -> bool {
    a.0 < b.0 || (a.0 == b.0 && (a.1 < b.1 || (a.1 == b.1 && seq_lt(a.2, b.2))))
}

/// Record `i` comes before record `j` in a stable sort by `keys`.
pub open spec fn triple_before(keys: Seq<(i128, i128, Seq<char>)>, i: int, j: int) -> bool {
    triple_lt(keys[i], keys[j]) || (keys[i] == keys[j] && i < j)
}

/// `order` lists every record index once, in the order a stable sort by
/// `keys` puts the records in.
pub open spec fn is_triple_order(keys: Seq<(i128, i128, Seq<char>)>, order: Seq<usize>) -> bool {
    &&& order.len() == keys.len()
    &&& forall|k: int| 0 <= k < order.len() ==> #[trigger] order[k] < keys.len()
    &&& forall|a: int, b: int|
        0 <= a < b < order.len() ==> triple_before(keys, #[trigger] order[a] as int, #[trigger] order[b] as int)
}

proof fn lemma_triple_chain(a: (i128, i128, Seq<char>), b: (i128, i128, Seq<char>), c: (i128, i128, Seq<char>))
    requires
        triple_lt(a, b) || a == b,
        triple_lt(b, c) || b == c,
    ensures
        triple_lt(a, c) || a == c,
{
    if triple_lt(a, b) && triple_lt(b, c) && a.0 == b.0 && b.0 == c.0 && a.1 == b.1 && b.1 == c.1 {
        if seq_lt(a.2, b.2) && seq_lt(b.2, c.2) {
            lemma_seq_lt_transitive(a.2, b.2, c.2);
        }
    }
}

proof fn lemma_triple_total(a: (i128, i128, Seq<char>), b: (i128, i128, Seq<char>))
    ensures
        triple_lt(a, b) || triple_lt(b, a) || a == b,
{
    lemma_seq_lt_total(a.2, b.2);
    if a.0 == b.0 && a.1 == b.1 && a.2 == b.2 {
        assert(a == b);
    }
}

/// The keys as plain values.
pub open spec fn triple_keys(keys: Seq<(i128, i128, String)>) -> Seq<(i128, i128, Seq<char>)> {
    keys.map_values(|k: (i128, i128, String)| (k.0, k.1, k.2@))
}

/// A stable order lists each index exactly once.
pub proof fn lemma_triple_order_distinct(keys: Seq<(i128, i128, Seq<char>)>, order: Seq<usize>, a: int, b: int)
    requires
        is_triple_order(keys, order),
        0 <= a < order.len(),
        0 <= b < order.len(),
        a != b,
    ensures
        order[a] != order[b],
{
    if a < b {
        assert(triple_before(keys, order[a] as int, order[b] as int));
        if order[a] == order[b] {
            lemma_triple_asym_self(keys[order[a] as int]);
        }
    } else {
        assert(triple_before(keys, order[b] as int, order[a] as int));
        if order[a] == order[b] {
            lemma_triple_asym_self(keys[order[a] as int]);
        }
    }
}

proof fn lemma_triple_asym_self(a: (i128, i128, Seq<char>))
    ensures
        !triple_lt(a, a),
{
    lemma_seq_lt_irreflexive(a.2);
}

/// The indices of the records in the order a stable sort by `keys` puts
/// them in.
pub fn stable_triple_order(keys: &Vec<(i128, i128, String)>) -> (order: Vec<usize>)
    ensures
        is_triple_order(triple_keys(keys@), order@),
{
    let ghost kv = triple_keys(keys@);
    let n = keys.len();
    let mut order: Vec<usize> = Vec::new();
    let mut j: usize = 0;
    while j < n
        invariant
            n == keys@.len(),
            kv == triple_keys(keys@),
            j <= n,
            order@.len() == j,
            forall|k: int| 0 <= k < order@.len() ==> #[trigger] order@[k] < j,
            forall|a: int, b: int|
                0 <= a < b < order@.len() ==> triple_before(
                    kv,
                    #[trigger] order@[a] as int,
                    #[trigger] order@[b] as int,
                ),
        decreases n - j,
    {
        let mut p: usize = order.len();
        while p > 0 && triple_lt_exec(&keys[j], &keys[order[p - 1]])
            invariant
                n == keys@.len(),
                kv == triple_keys(keys@),
                j < n,
                p <= order@.len(),
                order@.len() == j,
                forall|k: int| 0 <= k < order@.len() ==> #[trigger] order@[k] < j,
                forall|k: int| p <= k < order@.len() ==> triple_lt(kv[j as int], #[trigger] kv[order@[k] as int]),
            decreases p,
        {
            p = p - 1;
        }
        let ghost old_order = order@;
        proof {
            if p > 0 {
                let last = kv[old_order[p - 1] as int];
                lemma_triple_total(kv[j as int], last);
                assert(triple_lt(last, kv[j as int]) || last == kv[j as int]);
                assert forall|k: int| 0 <= k < p implies triple_before(kv, #[trigger] old_order[k] as int, j as int) by {
                    assert(old_order[k] < j);
                    if k < p - 1 {
                        assert(triple_before(kv, old_order[k] as int, old_order[p - 1] as int));
                        lemma_triple_chain(kv[old_order[k] as int], last, kv[j as int]);
                    }
                }
            }
        }
        order.insert(p, j);
        proof {
            assert forall|a: int, b: int|
                0 <= a < b < order@.len() implies triple_before(
                kv,
                #[trigger] order@[a] as int,
                #[trigger] order@[b] as int,
            ) by {
                if a < p && b < p {
                    assert(order@[a] == old_order[a] && order@[b] == old_order[b]);
                } else if a < p && b == p {
                    assert(order@[b] == j);
                    assert(triple_before(kv, old_order[a] as int, j as int));
                } else if a < p && b > p {
                    assert(order@[a] == old_order[a] && order@[b] == old_order[b - 1]);
                    assert(triple_before(kv, old_order[a] as int, old_order[b - 1] as int));
                } else if a == p {
                    assert(order@[a] == j && order@[b] == old_order[b - 1]);
                    assert(triple_lt(kv[j as int], kv[old_order[b - 1] as int]));
                } else {
                    assert(order@[a] == old_order[a - 1] && order@[b] == old_order[b - 1]);
                    assert(triple_before(kv, old_order[a - 1] as int, old_order[b - 1] as int));
                }
            }
            assert forall|k: int| 0 <= k < order@.len() implies #[trigger] order@[k] < j + 1 by {
                if k < p {
                    assert(order@[k] == old_order[k]);
                } else if k > p {
                    assert(order@[k] == old_order[k - 1]);
                }
            }
        }
        j = j + 1;
    }
    order
}

/// Whether key `a` orders strictly before key `b`.
pub fn triple_lt_exec(a: &(i128, i128, String), b: &(i128, i128, String)) -> (r: bool)
    ensures
        r == triple_lt((a.0, a.1, a.2@), (b.0, b.1, b.2@)),
{
    a.0 < b.0 || (a.0 == b.0 && (a.1 < b.1 || (a.1 == b.1 && str_lt(a.2.as_str(), b.2.as_str()))))
}

/// Whether `a` orders strictly before `b`.
pub fn pair_lt_exec(a: (i128, i128), b: (i128, i128)) -> (r: bool)
    ensures
        r == pair_lt(a, b),
{
    a.0 < b.0 || (a.0 == b.0 && a.1 < b.1)
}

} // verus!
