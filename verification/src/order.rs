//! Sorting by a key, with equal keys left in the order in which they came.
use vstd::prelude::*;
use vstd::set_lib::{lemma_int_range, lemma_subset_equality, set_int_range};

use crate::text::{before, lemma_precedes_total, lemma_precedes_transitive, precedes, same_text};

verus! {

/// What a list is sorted by: a number first, then two texts.
#[derive(Debug, PartialEq, Eq)]
pub struct SortKey {
    pub number: i128,
    pub first: String,
    pub second: String,
}

pub struct SortKeyView {
    pub number: int,
    pub first: Seq<char>,
    pub second: Seq<char>,
}

impl View for SortKey {
    type V = SortKeyView;

    open spec fn view(&self) -> SortKeyView {
        SortKeyView { number: self.number as int, first: self.first@, second: self.second@ }
    }
}

impl SortKeyView {
    /// Whether this key sorts before another.
    pub open spec fn below(self, other: SortKeyView) -> bool {
        ||| self.number < other.number
        ||| self.number == other.number && precedes(self.first, other.first)
        ||| self.number == other.number && self.first == other.first && precedes(
            self.second,
            other.second,
        )
    }
}

impl SortKey {
    /// Whether this key sorts before another.
    pub fn below(&self, other: &SortKey) -> (yes: bool)
        ensures
            yes == self@.below(other@),
    {
        if self.number != other.number {
            self.number < other.number
        } else if same_text(self.first.as_str(), other.first.as_str()) {
            proof {
                lemma_precedes_total(self.first@, other.first@);
            }
            before(self.second.as_str(), other.second.as_str())
        } else {
            before(self.first.as_str(), other.first.as_str())
        }
    }
}

/// The keys of a list, as seen by the sort.
pub open spec fn key_views(keys: Seq<SortKey>) -> Seq<SortKeyView> {
    keys.map_values(|key: SortKey| key@)
}

/// Whether the item at index `a` comes out before the item at index `b`: it has
/// the lower key, or the same key and the lower index.
pub open spec fn comes_first(keys: Seq<SortKeyView>, a: int, b: int) -> bool {
    keys[a].below(keys[b]) || keys[a] == keys[b] && a < b
}

/// Whether `order` lists the indices of all keys in sorted order.
pub open spec fn is_order(keys: Seq<SortKeyView>, order: Seq<int>) -> bool {
    &&& order.len() == keys.len()
    &&& forall|i: int| 0 <= i < order.len() ==> 0 <= #[trigger] order[i] < keys.len()
    &&& forall|i: int, j: int|
        0 <= i < j < order.len() ==> comes_first(keys, #[trigger] order[i], #[trigger] order[j])
}

/// The indices of all keys in sorted order.
pub open spec fn stable_order(keys: Seq<SortKeyView>) -> Seq<int> {
    choose|order: Seq<int>| is_order(keys, order)
}

/// The items of a list in the order of their keys.
pub open spec fn sorted_by_key<T>(items: Seq<T>, keys: Seq<SortKeyView>) -> Seq<T> {
    stable_order(keys).map_values(|index: int| items[index])
}

pub open spec fn as_ints(order: Seq<usize>) -> Seq<int> {
    order.map_values(|index: usize| index as int)
}

proof fn lemma_below(a: SortKeyView, b: SortKeyView, c: SortKeyView)
    ensures
        !a.below(a),
        a.below(b) ==> !b.below(a),
        a != b ==> a.below(b) || b.below(a),
        a.below(b) && b.below(c) ==> a.below(c),
{
    lemma_precedes_total(a.first, a.first);
    lemma_precedes_total(a.second, a.second);
    lemma_precedes_total(a.first, b.first);
    lemma_precedes_total(a.second, b.second);
    if a.below(b) && b.below(c) {
        if precedes(a.first, b.first) && precedes(b.first, c.first) {
            lemma_precedes_transitive(a.first, b.first, c.first);
        }
        if precedes(a.second, b.second) && precedes(b.second, c.second) {
            lemma_precedes_transitive(a.second, b.second, c.second);
        }
    }
}

proof fn lemma_comes_first(keys: Seq<SortKeyView>, a: int, b: int, c: int)
    ensures
        !comes_first(keys, a, a),
        comes_first(keys, a, b) ==> !comes_first(keys, b, a),
        a != b ==> comes_first(keys, a, b) || comes_first(keys, b, a),
        comes_first(keys, a, b) && comes_first(keys, b, c) ==> comes_first(keys, a, c),
{
    lemma_below(keys[a], keys[b], keys[c]);
    lemma_below(keys[b], keys[a], keys[c]);
}

/// Every index occurs in a sorted order.
pub proof fn order_holds_every_index(keys: Seq<SortKeyView>, order: Seq<int>, index: int)
    requires
        is_order(keys, order),
        0 <= index < keys.len(),
    ensures
        order.contains(index),
        order.no_duplicates(),
{
    assert forall|i: int, j: int| 0 <= i < order.len() && 0 <= j < order.len() && i != j implies
        #[trigger] order[i] != #[trigger] order[j] by {
        lemma_comes_first(keys, order[i], order[j], order[i]);
        if i < j {
            assert(comes_first(keys, order[i], order[j]));
        } else {
            assert(comes_first(keys, order[j], order[i]));
        }
    }
    lemma_holds_every_index(order, index);
}

/// As many different indices as there are places hold each of them.
pub proof fn lemma_holds_every_index(order: Seq<int>, index: int)
    requires
        order.no_duplicates(),
        forall|i: int| 0 <= i < order.len() ==> 0 <= #[trigger] order[i] < order.len(),
        0 <= index < order.len(),
    ensures
        order.contains(index),
{
    order.unique_seq_to_set();
    let all = set_int_range(0, order.len() as int);
    lemma_int_range(0, order.len() as int);
    assert(order.to_set().subset_of(all));
    lemma_subset_equality(order.to_set(), all);
    assert(all.contains(index));
}

proof fn lemma_orders_agree(keys: Seq<SortKeyView>, left: Seq<int>, right: Seq<int>, count: int)
    requires
        is_order(keys, left),
        is_order(keys, right),
        0 <= count <= keys.len(),
    ensures
        left.take(count) == right.take(count),
    decreases count,
{
    if count > 0 {
        let at = count - 1;
        lemma_orders_agree(keys, left, right, at);
        order_holds_every_index(keys, right, left[at]);
        order_holds_every_index(keys, left, right[at]);
        let j = choose|j: int| 0 <= j < right.len() && right[j] == left[at];
        let i = choose|i: int| 0 <= i < left.len() && left[i] == right[at];
        lemma_comes_first(keys, left[at], right[at], left[at]);
        if j < at {
            assert(left.take(at)[j] == right.take(at)[j]);
            assert(comes_first(keys, left[j], left[at]));
            lemma_comes_first(keys, left[j], left[j], left[j]);
        }
        if i < at {
            assert(left.take(at)[i] == right.take(at)[i]);
            assert(comes_first(keys, right[i], right[at]));
            lemma_comes_first(keys, right[i], right[i], right[i]);
        }
        if left[at] != right[at] {
            assert(comes_first(keys, right[at], right[j]));
            assert(comes_first(keys, left[at], left[i]));
        }
        assert(left.take(count) =~= left.take(at).push(left[at]));
        assert(right.take(count) =~= right.take(at).push(right[at]));
    } else {
        assert(left.take(0) =~= right.take(0));
    }
}

/// There is one sorted order and no other.
pub proof fn order_is_unique(keys: Seq<SortKeyView>, order: Seq<int>)
    requires
        is_order(keys, order),
    ensures
        order == stable_order(keys),
        is_order(keys, stable_order(keys)),
{
    let count = keys.len() as int;
    lemma_orders_agree(keys, order, stable_order(keys), count);
    assert(order.take(count) =~= order);
    assert(stable_order(keys).take(count) =~= stable_order(keys));
}

/// Where the index `next` goes in an order of the indices below it, looking at
/// the first `limit` places.
spec fn place_of(keys: Seq<SortKeyView>, order: Seq<int>, next: int, limit: int) -> int
    decreases limit,
{
    if limit <= 0 {
        0
    } else if comes_first(keys, next, order[limit - 1]) {
        place_of(keys, order, next, limit - 1)
    } else {
        limit
    }
}

proof fn lemma_place_of(keys: Seq<SortKeyView>, order: Seq<int>, next: int, limit: int)
    requires
        0 <= limit <= order.len(),
        forall|i: int, j: int|
            0 <= i < j < order.len() ==> comes_first(keys, #[trigger] order[i], #[trigger] order[j]),
        forall|i: int| 0 <= i < order.len() ==> #[trigger] order[i] != next,
    ensures
        0 <= place_of(keys, order, next, limit) <= limit,
        forall|i: int|
            0 <= i < place_of(keys, order, next, limit) ==> comes_first(
                keys,
                #[trigger] order[i],
                next,
            ),
        forall|i: int|
            place_of(keys, order, next, limit) <= i < limit ==> comes_first(
                keys,
                next,
                #[trigger] order[i],
            ),
    decreases limit,
{
    if limit > 0 {
        if comes_first(keys, next, order[limit - 1]) {
            lemma_place_of(keys, order, next, limit - 1);
        } else {
            lemma_comes_first(keys, next, order[limit - 1], next);
            assert forall|i: int| 0 <= i < limit implies comes_first(
                keys,
                #[trigger] order[i],
                next,
            ) by {
                if i < limit - 1 {
                    lemma_comes_first(keys, order[i], order[limit - 1], next);
                }
            }
        }
    }
}

proof fn lemma_order_of_first(keys: Seq<SortKeyView>, count: int) -> (order: Seq<int>)
    requires
        0 <= count <= keys.len(),
    ensures
        order.len() == count,
        forall|i: int| 0 <= i < order.len() ==> 0 <= #[trigger] order[i] < count,
        forall|i: int, j: int|
            0 <= i < j < order.len() ==> comes_first(keys, #[trigger] order[i], #[trigger] order[j]),
    decreases count,
{
    if count == 0 {
        Seq::empty()
    } else {
        let next = count - 1;
        let fewer = lemma_order_of_first(keys, next);
        lemma_place_of(keys, fewer, next, next);
        fewer.insert(place_of(keys, fewer, next, next), next)
    }
}

/// Every list of keys has a sorted order.
pub proof fn order_exists(keys: Seq<SortKeyView>)
    ensures
        is_order(keys, stable_order(keys)),
{
    let order = lemma_order_of_first(keys, keys.len() as int);
    assert(is_order(keys, order));
}

/// A sorted list holds every item of the list as often as the list does, each
/// item with a key that is not above that of any later one.
pub proof fn sorted_list_holds_every_item<T>(items: Seq<T>, keys: Seq<SortKeyView>)
    requires
        items.len() == keys.len(),
    ensures
        sorted_by_key(items, keys).to_multiset() == items.to_multiset(),
        forall|i: int, j: int|
            0 <= i < j < items.len() ==> !keys[#[trigger] stable_order(keys)[j]].below(
                keys[#[trigger] stable_order(keys)[i]],
            ),
{
    broadcast use vstd::seq_lib::group_to_multiset_ensures;

    order_exists(keys);
    let order = stable_order(keys);
    let sorted = sorted_by_key(items, keys);
    if keys.len() > 0 {
        order_holds_every_index(keys, order, 0);
    }
    assert(order.no_duplicates());
    lemma_rearranged(items, order);
    assert forall|i: int, j: int| 0 <= i < j < items.len() implies !keys[#[trigger] order[j]].below(
        keys[#[trigger] order[i]],
    ) by {
        assert(comes_first(keys, order[i], order[j]));
        lemma_below(keys[order[i]], keys[order[j]], keys[order[i]]);
        lemma_below(keys[order[j]], keys[order[i]], keys[order[j]]);
    }
}

/// The indices of a list with one of them taken out, and those above it moved
/// down by one.
spec fn without_index(order: Seq<int>, index: int) -> Seq<int> {
    order.map_values(
        |other: int|
            if other > index {
                other - 1
            } else {
                other
            },
    )
}

/// A list that is read out by indices that are all different holds what it held.
proof fn lemma_rearranged<T>(items: Seq<T>, order: Seq<int>)
    requires
        order.len() == items.len(),
        order.no_duplicates(),
        forall|i: int| 0 <= i < order.len() ==> 0 <= #[trigger] order[i] < items.len(),
    ensures
        order.map_values(|index: int| items[index]).to_multiset() == items.to_multiset(),
    decreases items.len(),
{
    broadcast use vstd::seq_lib::group_to_multiset_ensures;

    let read = order.map_values(|index: int| items[index]);
    if items.len() == 0 {
        assert(read =~= items);
    } else {
        let index = order.last();
        let fewer = items.remove(index);
        let rest = without_index(order.drop_last(), index);
        assert forall|i: int| 0 <= i < rest.len() implies 0 <= #[trigger] rest[i] < fewer.len() by {
            assert(order[i] != order[order.len() - 1]);
        }
        assert forall|i: int, j: int| 0 <= i < rest.len() && 0 <= j < rest.len() && i != j implies
            #[trigger] rest[i] != #[trigger] rest[j] by {
            assert(order[i] != order[j]);
            assert(order[i] != order[order.len() - 1]);
            assert(order[j] != order[order.len() - 1]);
        }
        lemma_rearranged(fewer, rest);
        let shorter = rest.map_values(|other: int| fewer[other]);
        assert(shorter =~= read.drop_last()) by {
            assert forall|i: int| 0 <= i < shorter.len() implies shorter[i] == read[i] by {
                assert(order[i] != order[order.len() - 1]);
            }
        }
        assert(read =~= shorter.push(items[index]));
        assert(items =~= fewer.insert(index, items[index]));
        vstd::seq_lib::to_multiset_insert(fewer, index, items[index]);
    }
}

/// The indices of all keys in sorted order.
pub fn sort_indices(keys: &Vec<SortKey>) -> (order: Vec<usize>)
    ensures
        is_order(key_views(keys@), as_ints(order@)),
        as_ints(order@) == stable_order(key_views(keys@)),
{
    let ghost views = key_views(keys@);
    let mut order: Vec<usize> = Vec::new();
    for next in 0..keys.len()
        invariant
            views == key_views(keys@),
            order@.len() == next,
            forall|i: int| 0 <= i < next ==> #[trigger] order@[i] < next,
            forall|i: int, j: int|
                0 <= i < j < next ==> comes_first(
                    views,
                    #[trigger] order@[i] as int,
                    #[trigger] order@[j] as int,
                ),
    {
        let mut place: usize = next;
        while place > 0 && keys[next].below(&keys[order[place - 1]])
            invariant
                views == key_views(keys@),
                next < keys@.len(),
                order@.len() == next,
                place <= next,
                forall|i: int| 0 <= i < next ==> #[trigger] order@[i] < next,
                forall|i: int|
                    place <= i < next ==> comes_first(views, next as int, #[trigger] order@[i] as int),
            decreases place,
        {
            place = place - 1;
        }
        let ghost earlier = order@;
        proof {
            assert forall|i: int| 0 <= i < place implies comes_first(
                views,
                #[trigger] earlier[i] as int,
                next as int,
            ) by {
                let last = earlier[place - 1] as int;
                lemma_below(views[last], views[next as int], views[last]);
                assert(comes_first(views, last, next as int));
                if i < place - 1 {
                    lemma_comes_first(views, earlier[i] as int, last, next as int);
                }
            }
        }
        order.insert(place, next);
    }
    proof {
        order_is_unique(views, as_ints(order@));
    }
    order
}

/// Keys are told apart by their number first, then by the first text, then by
/// the second. Equal keys keep the order in which they came.
pub proof fn keys_are_compared_part_by_part(a: SortKeyView, b: SortKeyView)
    ensures
        a.number < b.number ==> a.below(b) && !b.below(a),
        a.number == b.number && a.first != b.first ==> (a.below(b) <==> precedes(a.first, b.first)),
        a.number == b.number && a.first == b.first ==> (a.below(b) <==> precedes(
            a.second,
            b.second,
        )),
        forall|keys: Seq<SortKeyView>, i: int, j: int|
            0 <= i < keys.len() && 0 <= j < keys.len() && keys[i] == keys[j] ==> (
            #[trigger] comes_first(keys, i, j) <==> i < j),
{
    crate::text::lemma_precedes_total(a.first, b.first);
    assert forall|keys: Seq<SortKeyView>, i: int, j: int|
        0 <= i < keys.len() && 0 <= j < keys.len() && keys[i] == keys[j] implies (
    #[trigger] comes_first(keys, i, j) <==> i < j) by {
        crate::text::lemma_precedes_total(keys[i].first, keys[i].first);
        crate::text::lemma_precedes_total(keys[i].second, keys[i].second);
    }
}

} // verus!
