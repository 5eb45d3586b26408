//! Putting the batches into the order in which they are packed.

use vstd::prelude::*;
use vstd::seq_lib::to_multiset_insert;
use crate::decimal::Decimal;
use crate::manifest::{item_views, ItemTemplate, ItemView};
use crate::sort_order::PackSortOrder;

verus! {

/// Whether an item of length `length` must stand before one of length
/// `other`: the shorter first when lengths rise, the longer first when they
/// fall. Items of equal length need no order, nor does any item in the
/// natural order.
pub open spec fn goes_first(order: PackSortOrder, length: int, other: int) -> bool {
    match order {
        PackSortOrder::ShortToLong => length < other,
        PackSortOrder::LongToShort => length > other,
        _ => false,
    }
}

/// Where an item of length `length` is put among the items `placed`:
/// behind the last item that it need not stand before.
pub open spec fn insertion_point(order: PackSortOrder, placed: Seq<ItemView>, length: int) -> int
    decreases placed.len(),
{
    if placed.len() > 0 && goes_first(order, length, placed.last().length) {
        insertion_point(order, placed.drop_last(), length)
    } else {
        placed.len() as int
    }
}

/// The items in order of length, each item put in its place in the order in
/// which the items came.
pub open spec fn sorted_by_length(order: PackSortOrder, items: Seq<ItemView>) -> Seq<ItemView>
    decreases items.len(),
{
    if items.len() == 0 {
        items
    } else {
        let placed = sorted_by_length(order, items.drop_last());
        placed.insert(insertion_point(order, placed, items.last().length), items.last())
    }
}

/// The items in the order `order`: as they came for the natural order, by
/// rising or by falling length for the two others.
pub open spec fn ordered_items(order: PackSortOrder, items: Seq<ItemView>) -> Seq<ItemView> {
    match order {
        PackSortOrder::ShortToLong | PackSortOrder::LongToShort => sorted_by_length(order, items),
        _ => items,
    }
}

/// Whether the lengths of `items` follow `order`: no item stands behind one
/// that it must stand before.
pub open spec fn in_order(order: PackSortOrder, items: Seq<ItemView>) -> bool {
    forall|i: int, j: int|
        0 <= i < j < items.len() ==> !goes_first(
            order,
            (#[trigger] items[j]).length,
            (#[trigger] items[i]).length,
        )
}

/// The items of `items` that have the length `length`, in their order.
pub open spec fn of_length(items: Seq<ItemView>, length: int) -> Seq<ItemView> {
    items.filter(|item: ItemView| item.length == length)
}

/// The insertion point lies within the items, every item from it on must
/// stand behind the new one, and the item before it need not.
pub proof fn lemma_insertion_point(order: PackSortOrder, placed: Seq<ItemView>, length: int)
    ensures
        0 <= insertion_point(order, placed, length) <= placed.len(),
        forall|i: int|
            insertion_point(order, placed, length) <= i < placed.len() ==> goes_first(
                order,
                length,
                (#[trigger] placed[i]).length,
            ),
        insertion_point(order, placed, length) > 0 ==> !goes_first(
            order,
            length,
            placed[insertion_point(order, placed, length) - 1].length,
        ),
    decreases placed.len(),
{
    if placed.len() > 0 && goes_first(order, length, placed.last().length) {
        lemma_insertion_point(order, placed.drop_last(), length);
        let point = insertion_point(order, placed, length);
        assert forall|i: int| point <= i < placed.len() implies goes_first(
            order,
            length,
            (#[trigger] placed[i]).length,
        ) by {
            if i < placed.len() - 1 {
                assert(placed.drop_last()[i] == placed[i]);
            }
        }
        if point > 0 {
            assert(placed.drop_last()[point - 1] == placed[point - 1]);
        }
    }
}

/// Ordering by length is a stable sort, part one: the lengths of the result
/// rise, or fall, as the order asks.
pub proof fn lemma_sorted_in_order(order: PackSortOrder, items: Seq<ItemView>)
    ensures
        in_order(order, sorted_by_length(order, items)),
        sorted_by_length(order, items).len() == items.len(),
    decreases items.len(),
{
    if items.len() > 0 {
        let placed = sorted_by_length(order, items.drop_last());
        let item = items.last();
        let point = insertion_point(order, placed, item.length);
        let result = placed.insert(point, item);
        lemma_sorted_in_order(order, items.drop_last());
        lemma_insertion_point(order, placed, item.length);
        assert forall|i: int, j: int| 0 <= i < j < result.len() implies !goes_first(
            order,
            (#[trigger] result[j]).length,
            (#[trigger] result[i]).length,
        ) by {
            if j == point {
                // The new item stands behind `i`: it need not stand before
                // the item at `point - 1`, which is in order behind `i`.
                if i < point - 1 {
                    assert(!goes_first(order, placed[point - 1].length, placed[i].length));
                }
            } else if i == point {
                assert(result[j] == placed[j - 1]);
            } else {
                // Both items stood in this order among the items placed before.
                let from_i = if i < point {
                    i
                } else {
                    i - 1
                };
                let from_j = if j < point {
                    j
                } else {
                    j - 1
                };
                assert(result[i] == placed[from_i]);
                assert(result[j] == placed[from_j]);
            }
        }
    }
}

/// Ordering by length is a stable sort, part two: the items of any one
/// length stand in the result in the order in which they came.
pub proof fn lemma_sorted_keeps_equal_lengths(
    order: PackSortOrder,
    items: Seq<ItemView>,
    length: int,
)
    ensures
        of_length(sorted_by_length(order, items), length) == of_length(items, length),
    decreases items.len(),
{
    reveal(Seq::filter);
    if items.len() > 0 {
        let keep = |item: ItemView| item.length == length;
        let placed = sorted_by_length(order, items.drop_last());
        let item = items.last();
        let point = insertion_point(order, placed, item.length);
        let result = placed.insert(point, item);
        lemma_sorted_keeps_equal_lengths(order, items.drop_last(), length);
        lemma_insertion_point(order, placed, item.length);
        let front = placed.take(point);
        let back = placed.skip(point);
        assert(placed =~= front + back);
        assert(result =~= front + seq![item] + back);
        Seq::filter_distributes_over_add(front, back, keep);
        Seq::filter_distributes_over_add(front + seq![item], back, keep);
        Seq::filter_distributes_over_add(front, seq![item], keep);
        assert(seq![item].drop_last() =~= Seq::<ItemView>::empty());
        assert(Seq::<ItemView>::empty().filter(keep) =~= Seq::<ItemView>::empty());
        if item.length == length {
            // No item behind the insertion point has this length.
            assert(back.filter(keep).len() == 0) by {
                if back.filter(keep).len() > 0 {
                    let found = back.filter(keep)[0];
                    back.lemma_filter_pred(keep, 0);
                    back.lemma_filter_contains_rev(keep, found);
                    let at = choose|at: int| 0 <= at < back.len() && back[at] == found;
                    assert(back[at] == placed[point + at]);
                    assert(goes_first(order, item.length, placed[point + at].length));
                }
            }
        } else {
            assert(seq![item].filter(keep) =~= Seq::<ItemView>::empty());
        }
    }
}

/// Ordering by length neither loses nor adds an item.
pub proof fn lemma_sorted_is_permutation(order: PackSortOrder, items: Seq<ItemView>)
    ensures
        sorted_by_length(order, items).to_multiset() == items.to_multiset(),
    decreases items.len(),
{
    if items.len() > 0 {
        let placed = sorted_by_length(order, items.drop_last());
        let item = items.last();
        lemma_sorted_is_permutation(order, items.drop_last());
        lemma_insertion_point(order, placed, item.length);
        to_multiset_insert(placed, insertion_point(order, placed, item.length), item);
        to_multiset_insert(items.drop_last(), items.len() - 1, item);
        assert(items.drop_last().insert(items.len() - 1, item) =~= items);
    }
}

/// Ordering is a stable sort: in every order the result holds the items
/// that came and no others, its lengths follow the order, and the items of
/// any one length stand in it as they came.
pub proof fn lemma_ordering_is_stable(order: PackSortOrder, items: Seq<ItemView>, length: int)
    ensures
        ordered_items(order, items).to_multiset() == items.to_multiset(),
        in_order(order, ordered_items(order, items)),
        of_length(ordered_items(order, items), length) == of_length(items, length),
{
    lemma_sorted_is_permutation(order, items);
    lemma_sorted_in_order(order, items);
    lemma_sorted_keeps_equal_lengths(order, items, length);
}

/// Whether an item of length `length` must stand before one of length `other`.
fn must_go_first(order: PackSortOrder, length: &Decimal, other: &Decimal) -> (first: bool)
    ensures
        first == goes_first(order, length@, other@),
{
    match order {
        PackSortOrder::ShortToLong => length.units() < other.units(),
        PackSortOrder::LongToShort => length.units() > other.units(),
        _ => false,
    }
}

/// Puts the batches into the order in which they are packed: unchanged for
/// the natural order, by rising length for `ShortToLong`, by falling length
/// for `LongToShort`. Batches of equal length keep the order in which they
/// came.
pub fn order_items(order: PackSortOrder, items: Vec<ItemTemplate>) -> (ordered: Vec<ItemTemplate>)
    requires
        order != PackSortOrder::NotSet,
    ensures
        item_views(ordered@) == ordered_items(order, item_views(items@)),
{
    if let PackSortOrder::Natural = order {
        return items;
    }
    let ghost given = item_views(items@);
    let mut ordered: Vec<ItemTemplate> = items;
    let mut done: usize = 0;
    assert(given.take(0) =~= Seq::<ItemView>::empty());
    while done < ordered.len()
        invariant
            done <= ordered.len(),
            ordered.len() == given.len(),
            item_views(ordered@) == sorted_by_length(order, given.take(done as int)) + given.skip(
                done as int,
            ),
            sorted_by_length(order, given.take(done as int)).len() == done,
        decreases ordered.len() - done,
    {
        let ghost placed = sorted_by_length(order, given.take(done as int));
        let ghost upto = given.take(done as int + 1);
        assert(upto.drop_last() =~= given.take(done as int));
        assert(item_views(ordered@)[done as int] == given[done as int]);
        let ghost with_item = ordered@;
        let item = ordered.remove(done);
        assert forall|k: int| 0 <= k < ordered@.len() implies item_views(ordered@)[k] == (placed
            + given.skip(done as int + 1))[k] by {
            if k < done {
                assert(item_views(with_item)[k] == placed[k]);
            } else {
                assert(item_views(with_item)[k + 1] == given.skip(done as int)[k + 1 - done]);
            }
        }
        let mut point: usize = done;
        assert(placed.take(point as int) =~= placed);
        while point > 0 && must_go_first(order, &item.length, &ordered[point - 1].length)
            invariant
                point <= done <= ordered.len(),
                placed.len() == done,
                item_views(ordered@) == placed + given.skip(done as int + 1),
                insertion_point(order, placed, item@.length) == insertion_point(
                    order,
                    placed.take(point as int),
                    item@.length,
                ),
            decreases point,
        {
            assert(item_views(ordered@)[point - 1] == placed[point - 1]);
            assert(placed.take(point as int).drop_last() =~= placed.take(point as int - 1));
            point = point - 1;
        }
        proof {
            if point > 0 {
                assert(item_views(ordered@)[point - 1] == placed[point - 1]);
            }
        }
        let ghost without_item = ordered@;
        ordered.insert(point, item);
        proof {
            lemma_sorted_in_order(order, upto);
            let result = placed.insert(point as int, item@) + given.skip(done as int + 1);
            assert forall|k: int| 0 <= k < ordered@.len() implies item_views(ordered@)[k]
                == result[k] by {
                if k < point {
                    assert(item_views(without_item)[k] == placed[k]);
                } else if k > point {
                    assert(item_views(without_item)[k - 1] == (placed + given.skip(
                        done as int + 1,
                    ))[k - 1]);
                }
            }
        }
        done = done + 1;
    }
    ordered
}

} // verus!
