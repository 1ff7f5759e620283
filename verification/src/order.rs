//! The order of pages: names are compared byte by byte, with no regard to
//! the numbers they may spell, and names that are equal keep the order in
//! which they were listed.

use vstd::prelude::*;
use vstd::relations::{sorted_by, total_ordering};
use vstd::seq_lib::{lemma_sorted_unique, to_multiset_build, to_multiset_insert};

verus! {

/// `a` and `b` agree on their first `k` bytes.
pub open spec fn agree_upto(a: Seq<u8>, b: Seq<u8>, k: int) -> bool {
    &&& 0 <= k <= a.len()
    &&& k <= b.len()
    &&& forall|j: int| 0 <= j < k ==> a[j] == b[j]
}

/// `a` and `b` agree on their first `k` bytes, and there `a` ends while `b`
/// goes on, or `a` has the smaller byte.
pub open spec fn parts_at(a: Seq<u8>, b: Seq<u8>, k: int) -> bool {
    &&& agree_upto(a, b, k)
    &&& k < b.len()
    &&& (k == a.len() || a[k] < b[k])
}

/// `a` stands before `b` in byte-wise order: `a` is a proper prefix of `b`,
/// or `a` has the smaller byte at the first place where the two differ.
pub open spec fn bytes_before(a: Seq<u8>, b: Seq<u8>) -> bool {
    exists|k: int| parts_at(a, b, k)
}

/// Among the names `keys`, the one at index `x` is listed before the one at
/// index `y`: its name stands before the other in byte-wise order, or the
/// names are equal and `x` is the smaller index.
pub open spec fn listed_before(keys: Seq<Seq<u8>>, x: int, y: int) -> bool {
    bytes_before(keys[x], keys[y]) || (keys[x] == keys[y] && x < y)
}

/// `order` holds the index `x`.
pub open spec fn lists(order: Seq<usize>, x: int) -> bool {
    exists|i: int| 0 <= i < order.len() && (#[trigger] order[i]) == x
}

/// `order` lists every index of `keys` once, each before the indices that
/// `listed_before` puts behind it.
pub open spec fn is_page_order(keys: Seq<Seq<u8>>, order: Seq<usize>) -> bool {
    &&& order.len() == keys.len()
    &&& forall|i: int| 0 <= i < order.len() ==> (#[trigger] order[i]) < keys.len()
    &&& forall|x: int| 0 <= x < keys.len() ==> #[trigger] lists(order, x)
    &&& forall|i: int, j: int|
        0 <= i < j < order.len() ==> listed_before(keys, order[i] as int, order[j] as int)
}

/// The page order of `keys`. There is one for every list of names that a
/// machine can index, and never a second.
pub open spec fn the_page_order(keys: Seq<Seq<u8>>) -> Seq<usize> {
    choose|order: Seq<usize>| is_page_order(keys, order)
}

/// The names `keys` as `order` arranges them.
pub open spec fn arranged(keys: Seq<Seq<u8>>, order: Seq<usize>) -> Seq<Seq<u8>> {
    Seq::new(order.len(), |k: int| keys[order[k] as int])
}

/// The names `keys` in page order.
pub open spec fn in_page_order(keys: Seq<Seq<u8>>) -> Seq<Seq<u8>> {
    arranged(keys, the_page_order(keys))
}

/// `a` does not stand after `b` in byte-wise order.
pub open spec fn not_after(a: Seq<u8>, b: Seq<u8>) -> bool {
    !bytes_before(b, a)
}

/// The byte strings of `keys`.
pub open spec fn key_bytes(keys: Seq<Vec<u8>>) -> Seq<Seq<u8>> {
    keys.map_values(|key: Vec<u8>| key@)
}

/// No name stands before itself.
pub proof fn lemma_before_irreflexive(a: Seq<u8>)
    ensures
        !bytes_before(a, a),
{
}

/// Of two names at most one stands before the other.
pub proof fn lemma_before_asymmetric(a: Seq<u8>, b: Seq<u8>)
    requires
        bytes_before(a, b),
    ensures
        !bytes_before(b, a),
{
    let k = choose|k: int| parts_at(a, b, k);
    assert forall|m: int| !parts_at(b, a, m) by {
        if parts_at(b, a, m) {
            if m < k {
                assert(a[m] == b[m]);
            } else if k < m {
                assert(b[k] == a[k]);
            }
        }
    }
}

/// Of two different names one stands before the other.
pub proof fn lemma_before_total(a: Seq<u8>, b: Seq<u8>)
    ensures
        a == b || bytes_before(a, b) || bytes_before(b, a),
{
    lemma_total_from(a, b, 0);
}

proof fn lemma_total_from(a: Seq<u8>, b: Seq<u8>, k: int)
    requires
        agree_upto(a, b, k),
    ensures
        a == b || bytes_before(a, b) || bytes_before(b, a),
    decreases a.len() - k,
{
    if k == a.len() && k == b.len() {
        assert(a =~= b);
    } else if k == a.len() {
        assert(parts_at(a, b, k));
    } else if k == b.len() {
        assert(agree_upto(b, a, k));
        assert(parts_at(b, a, k));
    } else if a[k] < b[k] {
        assert(parts_at(a, b, k));
    } else if b[k] < a[k] {
        assert(agree_upto(b, a, k));
        assert(parts_at(b, a, k));
    } else {
        lemma_total_from(a, b, k + 1);
    }
}

/// A name before a name that is before a third is before the third.
pub proof fn lemma_before_transitive(a: Seq<u8>, b: Seq<u8>, c: Seq<u8>)
    requires
        bytes_before(a, b),
        bytes_before(b, c),
    ensures
        bytes_before(a, c),
{
    let k = choose|k: int| parts_at(a, b, k);
    let m = choose|m: int| parts_at(b, c, m);
    if k <= m {
        assert(agree_upto(a, c, k));
        assert(parts_at(a, c, k));
    } else {
        assert(agree_upto(a, c, m));
        assert(a[m] == b[m]);
        assert(parts_at(a, c, m));
    }
}

/// Among the indices of `keys`, `listed_before` is a strict total order:
/// no index before itself, of two different indices exactly one before the
/// other, and the order carries through a middle index.
pub proof fn lemma_listed_before_is_strict_total(keys: Seq<Seq<u8>>, x: int, y: int, z: int)
    ensures
        !listed_before(keys, x, x),
        listed_before(keys, x, y) ==> !listed_before(keys, y, x),
        x != y ==> listed_before(keys, x, y) || listed_before(keys, y, x),
        listed_before(keys, x, y) && listed_before(keys, y, z) ==> listed_before(keys, x, z),
{
    lemma_before_irreflexive(keys[x]);
    lemma_before_irreflexive(keys[y]);
    lemma_before_total(keys[x], keys[y]);
    if bytes_before(keys[x], keys[y]) {
        lemma_before_asymmetric(keys[x], keys[y]);
    }
    if bytes_before(keys[y], keys[x]) {
        lemma_before_asymmetric(keys[y], keys[x]);
    }
    if listed_before(keys, x, y) && listed_before(keys, y, z) {
        if bytes_before(keys[x], keys[y]) && bytes_before(keys[y], keys[z]) {
            lemma_before_transitive(keys[x], keys[y], keys[z]);
        }
    }
}

/// Whether `a` stands before `b` in byte-wise order.
pub fn is_before(a: &[u8], b: &[u8]) -> (before: bool)
    ensures
        before == bytes_before(a@, b@),
{
    let mut i: usize = 0;
    while i < a.len() && i < b.len()
        invariant
            agree_upto(a@, b@, i as int),
        decreases a.len() - i,
    {
        if a[i] != b[i] {
            let smaller = a[i] < b[i];
            proof {
                if smaller {
                    assert(parts_at(a@, b@, i as int));
                } else {
                    assert forall|k: int| !parts_at(a@, b@, k) by {
                        if parts_at(a@, b@, k) && k > i {
                            assert(a@[i as int] == b@[i as int]);
                        }
                    }
                }
            }
            return smaller;
        }
        i = i + 1;
    }
    let shorter = a.len() < b.len();
    proof {
        if shorter {
            assert(parts_at(a@, b@, i as int));
        } else {
            assert forall|k: int| !parts_at(a@, b@, k) by {
                if parts_at(a@, b@, k) {
                    assert(a@[k] == b@[k]);
                }
            }
        }
    }
    shorter
}

/// The order in which the pages named `keys` are shown: the indices of
/// `keys`, sorted by name byte by byte, equal names in the order of their
/// indices.
pub fn page_order(keys: &Vec<Vec<u8>>) -> (order: Vec<usize>)
    ensures
        is_page_order(key_bytes(keys@), order@),
        order@ == the_page_order(key_bytes(keys@)),
{
    let n = keys.len();
    let ghost names = key_bytes(keys@);
    let mut order: Vec<usize> = Vec::new();
    let mut i: usize = 0;
    while i < n
        invariant
            n == keys.len(),
            names == key_bytes(keys@),
            i <= n,
            orders_first(names, order@, i as int),
        decreases n - i,
    {
        let mut pos: usize = i;
        while pos > 0 && is_before(keys[i].as_slice(), keys[order[pos - 1]].as_slice())
            invariant
                n == keys.len(),
                names == key_bytes(keys@),
                i < n,
                pos <= i,
                orders_first(names, order@, i as int),
                forall|q: int|
                    pos <= q < i ==> bytes_before(
                        names[i as int],
                        names[(#[trigger] order[q]) as int],
                    ),
            decreases pos,
        {
            pos = pos - 1;
        }
        proof {
            lemma_insert_keeps_order(names, order@, pos as int, i as int);
        }
        order.insert(pos, i);
        i = i + 1;
    }
    proof {
        assert(is_page_order(names, order@));
        lemma_page_order_unique(names, order@, the_page_order(names));
    }
    order
}

/// Where `order` is sorted and the name at index `x` does not stand before
/// the name that `order` has just before position `pos`, an index smaller
/// than `x` that `order` has before `pos` is listed before `x`.
proof fn lemma_stays_behind(names: Seq<Seq<u8>>, order: Seq<usize>, pos: int, x: int, p: int)
    requires
        0 <= p < pos <= order.len(),
        forall|a: int, b: int|
            0 <= a < b < order.len() ==> listed_before(names, order[a] as int, order[b] as int),
        !bytes_before(names[x], names[order[pos - 1] as int]),
        order[p] < x,
    ensures
        listed_before(names, order[p] as int, x),
{
    let y = order[p] as int;
    let z = order[pos - 1] as int;
    lemma_before_total(names[y], names[x]);
    if bytes_before(names[x], names[y]) {
        if p < pos - 1 {
            assert(listed_before(names, y, z));
            if bytes_before(names[y], names[z]) {
                lemma_before_transitive(names[x], names[y], names[z]);
            }
        }
    }
}

/// The names of the pages ascend along a page order: none stands before a
/// name that the order lists earlier.
pub proof fn lemma_page_order_ascends(keys: Seq<Seq<u8>>, order: Seq<usize>, i: int, j: int)
    requires
        is_page_order(keys, order),
        0 <= i <= j < order.len(),
    ensures
        !bytes_before(keys[order[j] as int], keys[order[i] as int]),
{
    lemma_before_irreflexive(keys[order[i] as int]);
    if i < j {
        assert(listed_before(keys, order[i] as int, order[j] as int));
        if bytes_before(keys[order[i] as int], keys[order[j] as int]) {
            lemma_before_asymmetric(keys[order[i] as int], keys[order[j] as int]);
        }
    }
}

/// A page order lists no index twice.
pub proof fn lemma_page_order_distinct(keys: Seq<Seq<u8>>, order: Seq<usize>, i: int, j: int)
    requires
        is_page_order(keys, order),
        0 <= i < j < order.len(),
    ensures
        order[i] != order[j],
{
    assert(listed_before(keys, order[i] as int, order[j] as int));
    lemma_before_irreflexive(keys[order[i] as int]);
}

/// The names alone decide the page order: two page orders of the same names
/// are equal.
pub proof fn lemma_page_order_unique(keys: Seq<Seq<u8>>, first: Seq<usize>, second: Seq<usize>)
    requires
        is_page_order(keys, first),
        is_page_order(keys, second),
    ensures
        first == second,
{
    lemma_orders_agree(keys, first, second, keys.len() as int);
    assert(first =~= second);
}

proof fn lemma_orders_agree(keys: Seq<Seq<u8>>, first: Seq<usize>, second: Seq<usize>, k: int)
    requires
        is_page_order(keys, first),
        is_page_order(keys, second),
        0 <= k <= keys.len(),
    ensures
        forall|i: int| 0 <= i < k ==> first[i] == second[i],
    decreases k,
{
    if k > 0 {
        lemma_orders_agree(keys, first, second, k - 1);
        let i = k - 1;
        let x = first[i] as int;
        let y = second[i] as int;
        if x != y {
            assert(lists(second, x));
            let j = choose|j: int| 0 <= j < second.len() && (#[trigger] second[j]) == x;
            assert(lists(first, y));
            let m = choose|m: int| 0 <= m < first.len() && (#[trigger] first[m]) == y;
            lemma_listed_before_is_strict_total(keys, x, y, x);
            if j < i {
                assert(first[j] == second[j]);
                assert(listed_before(keys, first[j] as int, first[i] as int));
            } else {
                assert(listed_before(keys, second[i] as int, second[j] as int));
            }
            if m < i {
                assert(first[m] == second[m]);
                assert(listed_before(keys, second[m] as int, second[i] as int));
                lemma_listed_before_is_strict_total(keys, y, x, y);
            } else {
                assert(listed_before(keys, first[i] as int, first[m] as int));
            }
        }
    }
}

/// `order` lists the first `n` indices of `keys` once each, each before the
/// indices that `listed_before` puts behind it.
spec fn orders_first(keys: Seq<Seq<u8>>, order: Seq<usize>, n: int) -> bool {
    &&& order.len() == n
    &&& forall|i: int| 0 <= i < n ==> (#[trigger] order[i]) < n
    &&& forall|x: int| 0 <= x < n ==> #[trigger] lists(order, x)
    &&& forall|i: int, j: int|
        0 <= i < j < n ==> listed_before(keys, order[i] as int, order[j] as int)
}

/// An order of the first `x` indices takes the index `x` at position `pos`
/// and stays an order, where the name at `x` stands before the names from
/// `pos` on and not before the name just before `pos`.
proof fn lemma_insert_keeps_order(keys: Seq<Seq<u8>>, before: Seq<usize>, pos: int, x: int)
    requires
        orders_first(keys, before, x),
        x <= usize::MAX,
        0 <= pos <= x,
        pos > 0 ==> !bytes_before(keys[x], keys[before[pos - 1] as int]),
        forall|q: int|
            pos <= q < x ==> bytes_before(keys[x], keys[(#[trigger] before[q]) as int]),
    ensures
        orders_first(keys, before.insert(pos, x as usize), x + 1),
{
    let after = before.insert(pos, x as usize);
    assert forall|p: int| 0 <= p < x + 1 implies (#[trigger] after[p]) < x + 1 by {
        if p < pos {
            assert(after[p] == before[p]);
        } else if p > pos {
            assert(after[p] == before[p - 1]);
        }
    }
    assert forall|y: int| 0 <= y < x + 1 implies #[trigger] lists(after, y) by {
        if y == x {
            assert(after[pos] == y);
        } else {
            assert(lists(before, y));
            let j = choose|j: int| 0 <= j < before.len() && (#[trigger] before[j]) == y;
            if j < pos {
                assert(after[j] == y);
            } else {
                assert(after[j + 1] == y);
            }
        }
    }
    assert forall|p: int, q: int| 0 <= p < q < x + 1 implies listed_before(
        keys,
        after[p] as int,
        after[q] as int,
    ) by {
        if q < pos {
            assert(after[p] == before[p] && after[q] == before[q]);
        } else if q == pos {
            assert(after[p] == before[p]);
            lemma_stays_behind(keys, before, pos, x, p);
        } else if p < pos {
            assert(after[p] == before[p] && after[q] == before[q - 1]);
        } else if p == pos {
            assert(after[q] == before[q - 1]);
        } else {
            assert(after[p] == before[p - 1] && after[q] == before[q - 1]);
        }
    }
}

/// The place of the index `x` among the indices that `order` lists before
/// position `upto`: behind every name that does not stand after its own.
proof fn lemma_place(keys: Seq<Seq<u8>>, order: Seq<usize>, x: int, upto: int) -> (pos: int)
    requires
        0 <= upto <= order.len(),
        forall|q: int|
            upto <= q < order.len() ==> bytes_before(keys[x], keys[(#[trigger] order[q]) as int]),
    ensures
        0 <= pos <= upto,
        pos > 0 ==> !bytes_before(keys[x], keys[order[pos - 1] as int]),
        forall|q: int|
            pos <= q < order.len() ==> bytes_before(keys[x], keys[(#[trigger] order[q]) as int]),
    decreases upto,
{
    if upto > 0 && bytes_before(keys[x], keys[order[upto - 1] as int]) {
        lemma_place(keys, order, x, upto - 1)
    } else {
        upto
    }
}

proof fn lemma_order_of_first(keys: Seq<Seq<u8>>, n: int) -> (order: Seq<usize>)
    requires
        0 <= n <= keys.len(),
        n <= usize::MAX,
    ensures
        orders_first(keys, order, n),
    decreases n,
{
    if n == 0 {
        Seq::empty()
    } else {
        let before = lemma_order_of_first(keys, n - 1);
        let pos = lemma_place(keys, before, n - 1, n - 1);
        lemma_insert_keeps_order(keys, before, pos, n - 1);
        before.insert(pos, (n - 1) as usize)
    }
}

/// Every list of names that a machine can index has a page order.
pub proof fn lemma_page_order_exists(keys: Seq<Seq<u8>>)
    requires
        keys.len() <= usize::MAX,
    ensures
        is_page_order(keys, the_page_order(keys)),
{
    let order = lemma_order_of_first(keys, keys.len() as int);
    assert(is_page_order(keys, order));
}

/// Byte-wise order is a total order of names.
pub proof fn lemma_not_after_is_total_order()
    ensures
        total_ordering(|a: Seq<u8>, b: Seq<u8>| not_after(a, b)),
{
    let leq = |a: Seq<u8>, b: Seq<u8>| not_after(a, b);
    assert forall|a: Seq<u8>| #[trigger] leq(a, a) by {
        lemma_before_irreflexive(a);
    }
    assert forall|a: Seq<u8>, b: Seq<u8>| #[trigger] leq(a, b) && #[trigger] leq(b, a) implies a
        == b by {
        lemma_before_total(a, b);
    }
    assert forall|a: Seq<u8>, b: Seq<u8>| #[trigger] leq(a, b) || #[trigger] leq(b, a) by {
        if bytes_before(b, a) {
            lemma_before_asymmetric(b, a);
        }
    }
    assert forall|a: Seq<u8>, b: Seq<u8>, c: Seq<u8>| #[trigger]
        leq(a, b) && #[trigger] leq(b, c) implies leq(a, c) by {
        if bytes_before(c, a) {
            lemma_before_total(a, b);
            if bytes_before(a, b) {
                lemma_before_transitive(c, a, b);
            }
        }
    }
}

/// A page order arranges the names without losing or adding one.
pub proof fn lemma_arranged_keeps_names(keys: Seq<Seq<u8>>, order: Seq<usize>)
    requires
        is_page_order(keys, order),
    ensures
        arranged(keys, order).to_multiset() == keys.to_multiset(),
    decreases keys.len(),
{
    if keys.len() == 0 {
        assert(arranged(keys, order) =~= keys);
    } else {
        let x = keys.len() - 1;
        assert(lists(order, x));
        let p = choose|p: int| 0 <= p < order.len() && (#[trigger] order[p]) == x;
        let fewer = keys.drop_last();
        let rest = order.remove(p);
        assert forall|i: int| 0 <= i < rest.len() implies (#[trigger] rest[i]) < fewer.len() by {
            if i < p {
                lemma_page_order_distinct(keys, order, i, p);
            } else {
                lemma_page_order_distinct(keys, order, p, i + 1);
            }
        }
        assert forall|y: int| 0 <= y < fewer.len() implies #[trigger] lists(rest, y) by {
            assert(lists(order, y));
            let j = choose|j: int| 0 <= j < order.len() && (#[trigger] order[j]) == y;
            if j < p {
                assert(rest[j] == y);
            } else {
                assert(rest[j - 1] == y);
            }
        }
        assert forall|i: int, j: int| 0 <= i < j < rest.len() implies listed_before(
            fewer,
            rest[i] as int,
            rest[j] as int,
        ) by {
            let a = if i < p {
                i
            } else {
                i + 1
            };
            let b = if j < p {
                j
            } else {
                j + 1
            };
            assert(rest[i] == order[a] && rest[j] == order[b]);
            assert(listed_before(keys, order[a] as int, order[b] as int));
            assert(rest[i] < fewer.len() && rest[j] < fewer.len());
        }
        lemma_arranged_keeps_names(fewer, rest);
        assert(arranged(keys, order) =~= arranged(fewer, rest).insert(p, keys[x])) by {
            assert forall|k: int| 0 <= k < order.len() implies arranged(keys, order)[k]
                == arranged(fewer, rest).insert(p, keys[x])[k] by {
                if k < p {
                    assert(rest[k] == order[k]);
                    assert(rest[k] < fewer.len());
                } else if k > p {
                    assert(rest[k - 1] == order[k]);
                    assert(rest[k - 1] < fewer.len());
                }
            }
        }
        to_multiset_insert(arranged(fewer, rest), p, keys[x]);
        assert(keys =~= fewer.push(keys[x]));
        to_multiset_build(fewer, keys[x]);
    }
}

/// The order in which a source lists its names does not matter: two
/// listings of the same names give the same names in page order.
pub proof fn lemma_listing_order_is_irrelevant(first: Seq<Seq<u8>>, second: Seq<Seq<u8>>)
    requires
        first.len() <= usize::MAX,
        second.len() <= usize::MAX,
        first.to_multiset() == second.to_multiset(),
    ensures
        in_page_order(first) == in_page_order(second),
{
    let leq = |a: Seq<u8>, b: Seq<u8>| not_after(a, b);
    lemma_not_after_is_total_order();
    lemma_in_page_order_is_sorted(first);
    lemma_in_page_order_is_sorted(second);
    lemma_sorted_unique(in_page_order(first), in_page_order(second), leq);
}

/// The names in page order are the names, sorted byte by byte.
pub proof fn lemma_in_page_order_is_sorted(keys: Seq<Seq<u8>>)
    requires
        keys.len() <= usize::MAX,
    ensures
        sorted_by(in_page_order(keys), |a: Seq<u8>, b: Seq<u8>| not_after(a, b)),
        in_page_order(keys).to_multiset() == keys.to_multiset(),
{
    let order = the_page_order(keys);
    let leq = |a: Seq<u8>, b: Seq<u8>| not_after(a, b);
    lemma_page_order_exists(keys);
    lemma_arranged_keeps_names(keys, order);
    assert forall|i: int, j: int| 0 <= i < j < in_page_order(keys).len() implies #[trigger] leq(
        in_page_order(keys)[i],
        in_page_order(keys)[j],
    ) by {
        lemma_page_order_ascends(keys, order, i, j);
    }
}

} // verus!
