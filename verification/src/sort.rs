//! Stable ordering by a pair of numbers.

use vstd::prelude::*;

verus! {

/// The lexicographic order of pairs.
pub open spec fn key_le(left: (int, int), right: (int, int)) -> bool {
    left.0 < right.0 || (left.0 == right.0 && left.1 <= right.1)
}

/// An ordered list with one more item, behind every item of the same key.
pub open spec fn insert_by<T>(ordered: Seq<T>, item: T, key: spec_fn(T) -> (int, int)) -> Seq<T>
    decreases ordered.len(),
{
    if ordered.len() == 0 || key_le(key(ordered.last()), key(item)) {
        ordered.push(item)
    } else {
        insert_by(ordered.drop_last(), item, key).push(ordered.last())
    }
}

/// A list in the order of its keys; items of one key keep their order.
pub open spec fn sort_by<T>(items: Seq<T>, key: spec_fn(T) -> (int, int)) -> Seq<T>
    decreases items.len(),
{
    if items.len() == 0 {
        Seq::empty()
    } else {
        insert_by(sort_by(items.drop_last(), key), items.last(), key)
    }
}

/// Whether the keys of a list never decrease.
pub open spec fn ordered_by<T>(items: Seq<T>, key: spec_fn(T) -> (int, int)) -> bool {
    forall|i: int, j: int|
        0 <= i <= j < items.len() ==> key_le(key(#[trigger] items[i]), key(#[trigger] items[j]))
}

proof fn lemma_insert_by<T>(ordered: Seq<T>, item: T, key: spec_fn(T) -> (int, int))
    requires
        ordered_by(ordered, key),
    ensures
        ordered_by(insert_by(ordered, item, key), key),
        insert_by(ordered, item, key).to_multiset() == ordered.to_multiset().insert(item),
        insert_by(ordered, item, key).len() == ordered.len() + 1,
        insert_by(ordered, item, key).last() == item || (ordered.len() > 0 && insert_by(
            ordered,
            item,
            key,
        ).last() == ordered.last()),
        forall|i: int|
            0 <= i < insert_by(ordered, item, key).len() ==> (#[trigger] insert_by(
                ordered,
                item,
                key,
            )[i]) == item || ordered.contains(insert_by(ordered, item, key)[i]),
    decreases ordered.len(),
{
    broadcast use vstd::seq_lib::group_to_multiset_ensures;

    let result = insert_by(ordered, item, key);
    if ordered.len() == 0 || key_le(key(ordered.last()), key(item)) {
        assert forall|i: int, j: int| 0 <= i <= j < result.len() implies key_le(
            key(#[trigger] result[i]),
            key(#[trigger] result[j]),
        ) by {
            if j == ordered.len() && i < ordered.len() {
                assert(key_le(key(ordered[i]), key(ordered[ordered.len() - 1])));
            }
        }
    } else {
        let shorter = ordered.drop_last();
        assert forall|i: int, j: int| 0 <= i <= j < shorter.len() implies key_le(
            key(#[trigger] shorter[i]),
            key(#[trigger] shorter[j]),
        ) by {
            assert(shorter[i] == ordered[i] && shorter[j] == ordered[j]);
        }
        lemma_insert_by(shorter, item, key);
        let inner = insert_by(shorter, item, key);
        let last = ordered.last();
        assert(result == inner.push(last));
        assert forall|i: int, j: int| 0 <= i <= j < result.len() implies key_le(
            key(#[trigger] result[i]),
            key(#[trigger] result[j]),
        ) by {
            if j == inner.len() && i < inner.len() {
                assert(result[i] == inner[i]);
                if inner[i] != item {
                    let k = choose|k: int| 0 <= k < shorter.len() && shorter[k] == inner[i];
                    assert(key_le(key(ordered[k]), key(ordered[ordered.len() - 1])));
                }
            } else if j < inner.len() {
                assert(result[i] == inner[i] && result[j] == inner[j]);
            }
        }
        assert(ordered =~= shorter.push(last));
        assert(inner.push(last).to_multiset() == inner.to_multiset().insert(last));
        assert(shorter.push(last).to_multiset() == shorter.to_multiset().insert(last));
        assert(result.to_multiset() =~= ordered.to_multiset().insert(item));
        assert forall|i: int| 0 <= i < result.len() implies (#[trigger] result[i]) == item
            || ordered.contains(result[i]) by {
            if i < inner.len() {
                assert(result[i] == inner[i]);
                if inner[i] != item {
                    let k = choose|k: int| 0 <= k < shorter.len() && shorter[k] == inner[i];
                    assert(ordered[k] == inner[i]);
                }
            } else {
                assert(ordered[ordered.len() - 1] == result[i]);
            }
        }
    }
}

/// Ordering a list keeps its items and puts their keys in order.
pub proof fn sorting_orders_and_keeps_items<T>(items: Seq<T>, key: spec_fn(T) -> (int, int))
    ensures
        ordered_by(sort_by(items, key), key),
        sort_by(items, key).to_multiset() == items.to_multiset(),
        sort_by(items, key).len() == items.len(),
        forall|i: int, j: int|
            0 <= i <= j < items.len() ==> key(#[trigger] sort_by(items, key)[i]).0 < key(
                #[trigger] sort_by(items, key)[j],
            ).0 || (key(sort_by(items, key)[i]).0 == key(sort_by(items, key)[j]).0 && key(
                sort_by(items, key)[i],
            ).1 <= key(sort_by(items, key)[j]).1),
    decreases items.len(),
{
    broadcast use vstd::seq_lib::group_to_multiset_ensures;

    if items.len() > 0 {
        sorting_orders_and_keeps_items(items.drop_last(), key);
        lemma_insert_by(sort_by(items.drop_last(), key), items.last(), key);
        assert(items =~= items.drop_last().push(items.last()));
    }
}

/// A list that is in order already stays unchanged.
pub proof fn sorting_keeps_an_ordered_list<T>(items: Seq<T>, key: spec_fn(T) -> (int, int))
    requires
        ordered_by(items, key),
    ensures
        sort_by(items, key) == items,
    decreases items.len(),
{
    if items.len() > 0 {
        let shorter = items.drop_last();
        assert forall|i: int, j: int| 0 <= i <= j < shorter.len() implies key_le(
            key(#[trigger] shorter[i]),
            key(#[trigger] shorter[j]),
        ) by {
            assert(shorter[i] == items[i] && shorter[j] == items[j]);
        }
        sorting_keeps_an_ordered_list(shorter, key);
        if shorter.len() > 0 {
            assert(key_le(key(items[shorter.len() - 1]), key(items[items.len() - 1])));
        }
        assert(shorter.push(items.last()) =~= items);
    } else {
        assert(items =~= Seq::<T>::empty());
    }
}

/// Ordering a second time changes nothing.
pub proof fn sorting_is_idempotent<T>(items: Seq<T>, key: spec_fn(T) -> (int, int))
    ensures
        sort_by(sort_by(items, key), key) == sort_by(items, key),
{
    sorting_orders_and_keeps_items(items, key);
    sorting_keeps_an_ordered_list(sort_by(items, key), key);
}

proof fn lemma_insert_position<T>(
    ordered: Seq<T>,
    item: T,
    key: spec_fn(T) -> (int, int),
    at: int,
)
    requires
        0 <= at <= ordered.len(),
        at > 0 ==> key_le(key(ordered[at - 1]), key(item)),
        forall|i: int| at <= i < ordered.len() ==> !key_le(key(#[trigger] ordered[i]), key(item)),
    ensures
        insert_by(ordered, item, key) == ordered.insert(at, item),
    decreases ordered.len(),
{
    if at == ordered.len() {
        assert(ordered.insert(at, item) =~= ordered.push(item));
    } else {
        assert(!key_le(key(ordered[ordered.len() - 1]), key(item)));
        let shorter = ordered.drop_last();
        assert forall|i: int| at <= i < shorter.len() implies !key_le(
            key(#[trigger] shorter[i]),
            key(item),
        ) by {
            assert(shorter[i] == ordered[i]);
        }
        lemma_insert_position(shorter, item, key, at);
        assert(shorter.insert(at, item).push(ordered.last()) =~= ordered.insert(at, item));
    }
}

/// The positions `0..count`.
pub open spec fn positions(count: nat) -> Seq<int> {
    Seq::new(count, |i: int| i)
}

/// Some items of a list, by their positions.
pub open spec fn picked<T>(items: Seq<T>, order: Seq<int>) -> Seq<T> {
    Seq::new(order.len(), |i: int| items[order[i]])
}

/// Positions as mathematical integers.
pub open spec fn order_view(order: Seq<usize>) -> Seq<int> {
    Seq::new(order.len(), |i: int| order[i] as int)
}

/// Keys as pairs of mathematical integers.
pub open spec fn pair_key(keys: Seq<(u64, u64)>) -> spec_fn(int) -> (int, int) {
    |i: int| (keys[i].0 as int, keys[i].1 as int)
}

proof fn lemma_insert_by_picks<T>(
    items: Seq<T>,
    order: Seq<int>,
    at: int,
    item_key: spec_fn(T) -> (int, int),
    position_key: spec_fn(int) -> (int, int),
)
    requires
        0 <= at < items.len(),
        forall|i: int| 0 <= i < order.len() ==> 0 <= #[trigger] order[i] < items.len(),
        forall|i: int| 0 <= i < items.len() ==> item_key(#[trigger] items[i]) == position_key(i),
    ensures
        picked(items, insert_by(order, at, position_key)) == insert_by(
            picked(items, order),
            items[at],
            item_key,
        ),
    decreases order.len(),
{
    let chosen = picked(items, order);
    if order.len() == 0 || key_le(position_key(order.last()), position_key(at)) {
        assert(picked(items, order.push(at)) =~= chosen.push(items[at]));
        if order.len() > 0 {
            assert(chosen.last() == items[order.last()]);
            assert(item_key(items[order.last()]) == position_key(order.last()));
        }
        assert(item_key(items[at]) == position_key(at));
    } else {
        assert(chosen.last() == items[order.last()]);
        assert(order[order.len() - 1] == order.last());
        assert(item_key(items[order.last()]) == position_key(order.last()));
        assert(item_key(items[at]) == position_key(at));
        lemma_insert_by_picks(items, order.drop_last(), at, item_key, position_key);
        assert(picked(items, order.drop_last()) =~= chosen.drop_last());
        let inner = insert_by(order.drop_last(), at, position_key);
        assert(picked(items, inner.push(order.last())) =~= picked(items, inner).push(
            items[order.last()],
        ));
    }
}

proof fn lemma_sorted_positions_bounded(count: nat, key: spec_fn(int) -> (int, int))
    ensures
        sort_by(positions(count), key).len() == count,
        forall|i: int|
            0 <= i < count ==> 0 <= #[trigger] sort_by(positions(count), key)[i] < count,
    decreases count,
{
    broadcast use vstd::seq_lib::group_to_multiset_ensures;

    sorting_orders_and_keeps_items(positions(count), key);
    let result = sort_by(positions(count), key);
    assert forall|i: int| 0 <= i < count implies 0 <= #[trigger] result[i] < count by {
        assert(result.contains(result[i]));
        assert(result.to_multiset().count(result[i]) > 0);
        assert(positions(count).to_multiset().count(result[i]) > 0);
        assert(positions(count).contains(result[i]));
    }
}

/// The items in order are those at the positions in order.
pub proof fn lemma_sort_by_picks<T>(
    items: Seq<T>,
    item_key: spec_fn(T) -> (int, int),
    position_key: spec_fn(int) -> (int, int),
)
    requires
        forall|i: int| 0 <= i < items.len() ==> item_key(#[trigger] items[i]) == position_key(i),
    ensures
        sort_by(items, item_key) == picked(items, sort_by(positions(items.len()), position_key)),
        forall|i: int|
            0 <= i < items.len() ==> 0 <= #[trigger] sort_by(
                positions(items.len()),
                position_key,
            )[i] < items.len(),
        sort_by(positions(items.len()), position_key).len() == items.len(),
    decreases items.len(),
{
    lemma_sorted_positions_bounded(items.len(), position_key);
    lemma_sort_prefix_picks(items, items.len() as int, item_key, position_key);
    assert(items.take(items.len() as int) =~= items);
}

proof fn lemma_sort_prefix_picks<T>(
    items: Seq<T>,
    count: int,
    item_key: spec_fn(T) -> (int, int),
    position_key: spec_fn(int) -> (int, int),
)
    requires
        0 <= count <= items.len(),
        forall|i: int| 0 <= i < items.len() ==> item_key(#[trigger] items[i]) == position_key(i),
    ensures
        sort_by(items.take(count), item_key) == picked(
            items,
            sort_by(positions(count as nat), position_key),
        ),
    decreases count,
{
    let front = items.take(count);
    let places = positions(count as nat);
    if count == 0 {
        assert(sort_by(front, item_key) =~= picked(items, sort_by(places, position_key)));
    } else {
        lemma_sort_prefix_picks(items, count - 1, item_key, position_key);
        lemma_sorted_positions_bounded((count - 1) as nat, position_key);
        assert(front.drop_last() =~= items.take(count - 1));
        assert(places.drop_last() =~= positions((count - 1) as nat));
        lemma_insert_by_picks(
            items,
            sort_by(positions((count - 1) as nat), position_key),
            count - 1,
            item_key,
            position_key,
        );
    }
}

/// Returns the positions of keys in the order of the keys.
pub fn sort_order(keys: &Vec<(u64, u64)>) -> (result: Vec<usize>)
    ensures
        order_view(result@) == sort_by(positions(keys@.len()), pair_key(keys@)),
        result@.len() == keys@.len(),
        forall|i: int| 0 <= i < result@.len() ==> (#[trigger] result@[i]) < keys@.len(),
{
    let mut order: Vec<usize> = Vec::new();
    let ghost key = pair_key(keys@);
    let mut index: usize = 0;
    proof {
        assert(order_view(order@) =~= sort_by(positions(0), key));
    }
    while index < keys.len()
        invariant
            index <= keys@.len(),
            key == pair_key(keys@),
            order@.len() == index,
            order_view(order@) == sort_by(positions(index as nat), key),
            forall|i: int| 0 <= i < order@.len() ==> (#[trigger] order@[i]) < keys@.len(),
        decreases keys.len() - index,
    {
        let (major, minor) = keys[index];
        let mut at: usize = order.len();
        let ghost view = order_view(order@);
        while at > 0 && (keys[order[at - 1]].0 > major || (keys[order[at - 1]].0 == major
            && keys[order[at - 1]].1 > minor))
            invariant
                at <= order@.len(),
                index < keys@.len(),
                (major, minor) == keys@[index as int],
                key == pair_key(keys@),
                view == order_view(order@),
                forall|i: int| 0 <= i < order@.len() ==> (#[trigger] order@[i]) < keys@.len(),
                forall|i: int|
                    at <= i < view.len() ==> !key_le(key(#[trigger] view[i]), key(index as int)),
            decreases at,
        {
            assert(view[at - 1] == order@[at - 1]);
            at -= 1;
        }
        proof {
            if at > 0 {
                assert(view[at - 1] == order@[at - 1]);
            }
            lemma_insert_position(view, index as int, key, at as int);
            assert(positions((index + 1) as nat).drop_last() =~= positions(index as nat));
        }
        order.insert(at, index);
        assert(order_view(order@) =~= view.insert(at as int, index as int));
        index += 1;
    }
    order
}

} // verus!
