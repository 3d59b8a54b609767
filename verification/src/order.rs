//! Putting records in order.

use vstd::prelude::*;

verus! {

/// What records are ordered by: the first number, then the second.
pub type SortKey = (u128, i128);

/// Whether `a` comes before `b`.
pub open spec fn key_below(a: SortKey, b: SortKey) -> bool {
    a.0 < b.0 || (a.0 == b.0 && a.1 < b.1)
}

/// Whether number `i` comes before number `j`: by key, and where the keys are
/// equal by place.
pub open spec fn comes_before(keys: Seq<SortKey>, i: int, j: int) -> bool {
    key_below(keys[i], keys[j]) || (keys[i] == keys[j] && i < j)
}

/// Whether `order` lists each place of `keys` once, in order.
pub open spec fn in_order(keys: Seq<SortKey>, order: Seq<int>) -> bool {
    &&& order.len() == keys.len()
    &&& forall|a: int| 0 <= a < order.len() ==> 0 <= #[trigger] order[a] < keys.len()
    &&& forall|a: int, b: int|
        0 <= a < b < order.len() ==> comes_before(keys, #[trigger] order[a], #[trigger] order[b])
}

/// The records at the listed places.
pub open spec fn picked<M>(records: Seq<M>, order: Seq<int>) -> Seq<M> {
    order.map_values(|i: int| records[i])
}

/// Whether `sorted` holds the records in the order of their keys, records with
/// equal keys in the order in which they stood.
pub open spec fn sorted_by<M>(records: Seq<M>, keys: Seq<SortKey>, sorted: Seq<M>) -> bool {
    exists|order: Seq<int>| #[trigger] in_order(keys, order) && sorted == picked(records, order)
}

/// The places in a sequence of machine integers.
pub open spec fn places(order: Seq<usize>) -> Seq<int> {
    order.map_values(|i: usize| i as int)
}

/// There is only one order, so sorting has one result.
pub proof fn law_order_is_unique(keys: Seq<SortKey>, a: Seq<int>, b: Seq<int>)
    requires
        in_order(keys, a),
        in_order(keys, b),
    ensures
        a == b,
    decreases keys.len(),
{
    lemma_ranks(keys, a);
    lemma_ranks(keys, b);
    assert forall|i: int| 0 <= i < a.len() implies a[i] == b[i] by {
        lemma_same_prefix(keys, a, b, i);
    }
    assert(a =~= b);
}

proof fn lemma_ranks(keys: Seq<SortKey>, order: Seq<int>)
    requires
        in_order(keys, order),
    ensures
        order.no_duplicates(),
        forall|p: int| 0 <= p < keys.len() ==> #[trigger] order.contains(p),
{
    let n = keys.len() as int;
    assert(order.no_duplicates()) by {
        assert forall|x: int, y: int| 0 <= x < order.len() && 0 <= y < order.len() && x != y implies order[x]
            != order[y] by {
            if x < y {
                assert(comes_before(keys, order[x], order[y]));
            } else {
                assert(comes_before(keys, order[y], order[x]));
            }
        }
    }
    vstd::set_lib::lemma_int_range(0, n);
    let all = vstd::set_lib::set_int_range(0, n);
    order.unique_seq_to_set();
    assert(order.to_set().subset_of(all)) by {
        assert forall|p: int| order.to_set().contains(p) implies all.contains(p) by {
            let i = choose|i: int| 0 <= i < order.len() && order[i] == p;
            assert(0 <= order[i] < n);
        }
    }
    vstd::set_lib::lemma_subset_equality(order.to_set(), all);
    assert forall|p: int| 0 <= p < keys.len() implies #[trigger] order.contains(p) by {
        assert(all.contains(p));
        assert(order.to_set().contains(p));
    }
}

proof fn lemma_same_prefix(keys: Seq<SortKey>, a: Seq<int>, b: Seq<int>, i: int)
    requires
        in_order(keys, a),
        in_order(keys, b),
        a.no_duplicates(),
        b.no_duplicates(),
        forall|p: int| 0 <= p < keys.len() ==> #[trigger] a.contains(p),
        forall|p: int| 0 <= p < keys.len() ==> #[trigger] b.contains(p),
        0 <= i < a.len(),
    ensures
        a[i] == b[i],
    decreases i,
{
    assert forall|j: int| 0 <= j < i implies a[j] == b[j] by {
        lemma_same_prefix(keys, a, b, j);
    }
    if a[i] != b[i] {
        assert(b.contains(a[i]));
        assert(a.contains(b[i]));
        let x = choose|x: int| 0 <= x < b.len() && b[x] == a[i];
        let y = choose|y: int| 0 <= y < a.len() && a[y] == b[i];
        assert(x > i) by {
            if x < i {
                assert(a[x] == b[x]);
            }
        }
        assert(y > i) by {
            if y < i {
                assert(a[y] == b[y]);
            }
        }
        assert(comes_before(keys, b[i], b[x]));
        assert(comes_before(keys, a[i], a[y]));
    }
}

fn below(a: SortKey, b: SortKey) -> (yes: bool)
    ensures
        yes == key_below(a, b),
{
    a.0 < b.0 || (a.0 == b.0 && a.1 < b.1)
}

/// The places of the keys, in order; equal keys stay in the order in which they stand.
pub fn sort_order(keys: &Vec<SortKey>) -> (order: Vec<usize>)
    ensures
        in_order(keys@, places(order@)),
{
    let mut order: Vec<usize> = Vec::new();
    let mut next: usize = 0;
    while next < keys.len()
        invariant
            next <= keys@.len(),
            in_order(keys@.take(next as int), places(order@)),
        decreases keys@.len() - next,
    {
        let ghost before = order@;
        proof {
            assert forall|a: int| 0 <= a < order@.len() implies #[trigger] order@[a] < next by {
                assert(places(order@)[a] == order@[a]);
            }
        }
        let mut at: usize = order.len();
        while at > 0 && below(keys[next], keys[order[at - 1]])
            invariant
                next < keys@.len(),
                at <= order@.len(),
                order@.len() == next,
                forall|a: int| 0 <= a < order@.len() ==> #[trigger] order@[a] < next,
                forall|b: int|
                    at <= b < order@.len() ==> key_below(
                        keys@[next as int],
                        keys@[#[trigger] order@[b] as int],
                    ),
            decreases at,
        {
            at -= 1;
        }
        proof {
            let prefix = keys@.take(next as int);
            assert forall|a: int| 0 <= a < at implies !key_below(
                keys@[next as int],
                keys@[#[trigger] order@[a] as int],
            ) by {
                if a < at - 1 {
                    assert(comes_before(prefix, places(order@)[a], places(order@)[at - 1]));
                }
            }
        }
        order.insert(at, next);
        proof {
            let prefix = keys@.take(next as int);
            let longer = keys@.take(next as int + 1);
            let p = places(before);
            let q = places(order@);
            assert(order@ =~= before.insert(at as int, next));
            assert(q =~= p.insert(at as int, next as int));
            assert forall|a: int| 0 <= a < p.len() implies 0 <= #[trigger] p[a] < next
                && p[a] == before[a] by {}
            assert forall|a: int| 0 <= a < q.len() implies 0 <= #[trigger] q[a] < longer.len() by {
                if a < at {
                    assert(q[a] == p[a]);
                } else if a > at {
                    assert(q[a] == p[a - 1]);
                }
            }
            assert forall|a: int, b: int| 0 <= a < b < q.len() implies comes_before(
                longer,
                #[trigger] q[a],
                #[trigger] q[b],
            ) by {
                let old_a = if a < at { a } else { a - 1 };
                let old_b = if b < at { b } else { b - 1 };
                if a == at {
                    assert(q[b] == p[b - 1]);
                    assert(key_below(keys@[next as int], keys@[before[b - 1] as int]));
                } else if b == at {
                    assert(q[a] == p[a]);
                    assert(!key_below(keys@[next as int], keys@[before[a] as int]));
                } else {
                    assert(q[a] == p[old_a]);
                    assert(q[b] == p[old_b]);
                    assert(comes_before(prefix, p[old_a], p[old_b]));
                }
            }
        }
        next += 1;
    }
    proof {
        assert(keys@.take(next as int) =~= keys@);
    }
    order
}

/// Sorting keeps each record as often as it stood.
pub proof fn lemma_sorted_multiset<M>(records: Seq<M>, keys: Seq<SortKey>, sorted: Seq<M>)
    requires
        sorted_by(records, keys, sorted),
        records.len() == keys.len(),
    ensures
        sorted.to_multiset() == records.to_multiset(),
{
    let order = choose|order: Seq<int>|
        #[trigger] in_order(keys, order) && sorted == picked(records, order);
    lemma_ranks(keys, order);
    lemma_permuted(records, order);
}

proof fn lemma_permuted<M>(records: Seq<M>, order: Seq<int>)
    requires
        order.len() == records.len(),
        order.no_duplicates(),
        forall|a: int| 0 <= a < order.len() ==> 0 <= #[trigger] order[a] < records.len(),
        forall|p: int| 0 <= p < records.len() ==> #[trigger] order.contains(p),
    ensures
        picked(records, order).to_multiset() == records.to_multiset(),
    decreases records.len(),
{
    let sorted = picked(records, order);
    if records.len() == 0 {
        assert(sorted =~= records);
    } else {
        let last = records.len() - 1;
        assert(order.contains(last));
        let at = choose|at: int| 0 <= at < order.len() && order[at] == last;
        let shorter = records.drop_last();
        let rest = order.remove(at);
        assert forall|a: int| 0 <= a < rest.len() implies 0 <= #[trigger] rest[a] < shorter.len() by {
            let b = if a < at { a } else { a + 1 };
            assert(rest[a] == order[b]);
            assert(order[b] != order[at]);
        }
        assert(rest.no_duplicates()) by {
            assert forall|i: int, j: int| 0 <= i < rest.len() && 0 <= j < rest.len() && i != j implies rest[i]
                != rest[j] by {
                let x = if i < at { i } else { i + 1 };
                let y = if j < at { j } else { j + 1 };
                assert(rest[i] == order[x] && rest[j] == order[y]);
            }
        }
        assert forall|p: int| 0 <= p < shorter.len() implies #[trigger] rest.contains(p) by {
            assert(order.contains(p));
            let i = choose|i: int| 0 <= i < order.len() && order[i] == p;
            if i < at {
                assert(rest[i] == p);
            } else {
                assert(rest[i - 1] == p);
            }
        }
        lemma_permuted(shorter, rest);
        assert(picked(shorter, rest) =~= sorted.remove(at));
        assert(records =~= shorter.push(records[last]));
        broadcast use vstd::seq_lib::group_to_multiset_ensures;
        assert(sorted[at] == records[last]);
        assert(sorted.to_multiset().remove(sorted[at]) == sorted.remove(at).to_multiset());
        assert(sorted.to_multiset().count(sorted[at]) > 0) by {
            assert(sorted.contains(sorted[at]));
        }
        assert(sorted.to_multiset() =~= shorter.to_multiset().insert(records[last]));
    }
}

/// Sorting keeps how many records there are of a kind.
pub proof fn lemma_sorted_count<M>(
    records: Seq<M>,
    keys: Seq<SortKey>,
    sorted: Seq<M>,
    p: spec_fn(M) -> bool,
)
    requires
        sorted_by(records, keys, sorted),
        records.len() == keys.len(),
    ensures
        sorted.filter(p).len() == records.filter(p).len(),
        sorted.len() == records.len(),
{
    lemma_sorted_multiset(records, keys, sorted);
    lemma_filter_count(sorted, p);
    lemma_filter_count(records, p);
}

proof fn lemma_filter_count<M>(records: Seq<M>, p: spec_fn(M) -> bool)
    ensures
        records.filter(p).len() == records.to_multiset().filter(p).len(),
    decreases records.len(),
{
    broadcast use vstd::seq_lib::group_to_multiset_ensures;
    broadcast use vstd::multiset::group_multiset_axioms;
    reveal(Seq::filter);
    if records.len() == 0 {
        assert(records.to_multiset().filter(p) =~= vstd::multiset::Multiset::empty());
    } else {
        let shorter = records.drop_last();
        let last = records.last();
        lemma_filter_count(shorter, p);
        assert(records =~= shorter.push(last));
        let all = records.to_multiset();
        let before = shorter.to_multiset();
        assert(all =~= before.insert(last));
        if p(last) {
            assert(all.filter(p) =~= before.filter(p).insert(last));
        } else {
            assert(all.filter(p) =~= before.filter(p));
        }
    }
}

/// Sorting loses nothing and adds nothing: the same records are there, and where they were
/// all different they still are.
pub proof fn law_sorting_keeps_every_record<M>(records: Seq<M>, keys: Seq<SortKey>, sorted: Seq<M>)
    requires
        records.len() == keys.len(),
        sorted_by(records, keys, sorted),
    ensures
        sorted.len() == records.len(),
        forall|x: M| #[trigger] sorted.contains(x) <==> records.contains(x),
        records.no_duplicates() ==> sorted.no_duplicates(),
{
    let order = choose|order: Seq<int>|
        #[trigger] in_order(keys, order) && sorted == picked(records, order);
    lemma_ranks(keys, order);
    assert forall|x: M| #[trigger] sorted.contains(x) <==> records.contains(x) by {
        if sorted.contains(x) {
            let a = choose|a: int| 0 <= a < sorted.len() && sorted[a] == x;
            assert(0 <= order[a] < keys.len());
            assert(records[order[a]] == x);
        }
        if records.contains(x) {
            let i = choose|i: int| 0 <= i < records.len() && records[i] == x;
            assert(order.contains(i));
            let a = choose|a: int| 0 <= a < order.len() && order[a] == i;
            assert(sorted[a] == x);
        }
    }
    if records.no_duplicates() {
        assert forall|a: int, b: int|
            0 <= a < sorted.len() && 0 <= b < sorted.len() && a != b implies sorted[a]
            != sorted[b] by {
            assert(order[a] != order[b]);
            assert(0 <= order[a] < keys.len() && 0 <= order[b] < keys.len());
            assert(sorted[a] == records[order[a]] && sorted[b] == records[order[b]]);
        }
    }
}

/// A record stands before another where its first number is less, or where the first numbers
/// are equal and its second is less; records with equal numbers stay in the order in which
/// they stood.
pub proof fn law_sorting_follows_the_keys<M>(
    records: Seq<M>,
    keys: Seq<SortKey>,
    sorted: Seq<M>,
    i: int,
    j: int,
)
    requires
        records.len() == keys.len(),
        sorted_by(records, keys, sorted),
        0 <= i < records.len(),
        0 <= j < records.len(),
        keys[i].0 < keys[j].0 || keys[i].0 == keys[j].0 && (keys[i].1 < keys[j].1 || keys[i].1
            == keys[j].1 && i < j),
    ensures
        exists|a: int, b: int|
            0 <= a < b < sorted.len() && #[trigger] sorted[a] == records[i]
                && #[trigger] sorted[b] == records[j],
{
    let order = choose|order: Seq<int>|
        #[trigger] in_order(keys, order) && sorted == picked(records, order);
    lemma_ranks(keys, order);
    assert(order.contains(i) && order.contains(j));
    let a = choose|a: int| 0 <= a < order.len() && order[a] == i;
    let b = choose|b: int| 0 <= b < order.len() && order[b] == j;
    if b < a {
        assert(comes_before(keys, order[b], order[a]));
    }
    assert(a < b);
    assert(sorted[a] == records[i] && sorted[b] == records[j]);
}

/// In a sorted list the numbers never go down.
pub proof fn law_sorted_records_follow_each_other<M>(
    records: Seq<M>,
    key: spec_fn(M) -> SortKey,
    sorted: Seq<M>,
    a: int,
    b: int,
)
    requires
        sorted_by(records, records.map_values(key), sorted),
        0 <= a < b < sorted.len(),
    ensures
        key(sorted[a]).0 < key(sorted[b]).0 || key(sorted[a]).0 == key(sorted[b]).0 && key(
            sorted[a],
        ).1 <= key(sorted[b]).1,
{
    let keys = records.map_values(key);
    let order = choose|order: Seq<int>|
        #[trigger] in_order(keys, order) && sorted == picked(records, order);
    assert(comes_before(keys, order[a], order[b]));
    assert(sorted[a] == records[order[a]] && sorted[b] == records[order[b]]);
    assert(keys[order[a]] == key(sorted[a]) && keys[order[b]] == key(sorted[b]));
}

} // verus!
