//! Joining parsed items with the identifiers of their types.

use vstd::prelude::*;
use vstd::string::StringExecFns;
use crate::batch::{batch_text, parse, parse_text};
use crate::item::{Item, ItemView, ItemWithId, ItemWithIdView};
use crate::table::{lookup_type_name, TypeTable};

verus! {

/// `item` with the identifier that `ids` has for its name.
pub open spec fn with_id(item: ItemView, ids: Map<Seq<char>, u64>) -> ItemWithIdView {
    ItemWithIdView { name: item.name, type_id: ids[item.name], quantity: item.quantity }
}

/// Each of `items` with its identifier.
pub open spec fn with_ids(items: Seq<ItemView>, ids: Map<Seq<char>, u64>) -> Seq<ItemWithIdView> {
    Seq::new(items.len(), |i: int| with_id(items[i], ids))
}

/// The name of the first of `items` that `ids` does not know, if there is
/// one.
pub open spec fn first_unknown(items: Seq<ItemView>, ids: Map<Seq<char>, u64>) -> Option<
    Seq<char>,
>
    decreases items.len(),
{
    if items.len() == 0 {
        None
    } else {
        match first_unknown(items.drop_last(), ids) {
            Some(name) => Some(name),
            None => if ids.contains_key(items.last().name) {
                None
            } else {
                Some(items.last().name)
            },
        }
    }
}

/// The join of `items` with `ids`: every item with its identifier, or the
/// first name that has none.
pub open spec fn join_ids(items: Seq<ItemView>, ids: Map<Seq<char>, u64>) -> Result<
    Seq<ItemWithIdView>,
    Seq<char>,
> {
    match first_unknown(items, ids) {
        Some(name) => Err(name),
        None => Ok(with_ids(items, ids)),
    }
}

/// How a failed lookup reads.
pub open spec fn unknown_text(name: Seq<char>) -> Seq<char> {
    "failed to look up "@ + name
}

/// What parsing a text and joining its items with `ids` gives: the items
/// with their identifiers, or the report on what failed.
pub open spec fn parse_with_id_text(text: Seq<char>, ids: Map<Seq<char>, u64>) -> Result<
    Seq<ItemWithIdView>,
    Seq<char>,
> {
    match parse_text(text) {
        Err(errors) => Err(batch_text(errors)),
        Ok(items) => match join_ids(items, ids) {
            Ok(typed) => Ok(typed),
            Err(name) => Err(unknown_text(name)),
        },
    }
}

/// Every name is known exactly when none is the first unknown one.
pub proof fn lemma_first_unknown(items: Seq<ItemView>, ids: Map<Seq<char>, u64>)
    ensures
        first_unknown(items, ids) is None <==> forall|i: int|
            0 <= i < items.len() ==> ids.contains_key((#[trigger] items[i]).name),
        first_unknown(items, ids) matches Some(name) ==> exists|k: int|
            0 <= k < items.len() && (#[trigger] items[k]).name == name && !ids.contains_key(name)
                && forall|j: int| 0 <= j < k ==> ids.contains_key((#[trigger] items[j]).name),
    decreases items.len(),
{
    if items.len() > 0 {
        let before = items.drop_last();
        let last = items.len() - 1;
        lemma_first_unknown(before, ids);
        assert forall|j: int| 0 <= j < before.len() implies #[trigger] before[j] == items[j] by {}
        match first_unknown(before, ids) {
            Some(name) => {
                let k = choose|k: int|
                    0 <= k < before.len() && (#[trigger] before[k]).name == name
                        && !ids.contains_key(name) && forall|j: int|
                        0 <= j < k ==> ids.contains_key((#[trigger] before[j]).name);
                assert(items[k].name == name);
                assert forall|j: int| 0 <= j < k implies ids.contains_key(
                    (#[trigger] items[j]).name,
                ) by {
                    assert(before[j] == items[j]);
                }
            },
            None => {
                assert forall|j: int| 0 <= j < last implies ids.contains_key(
                    (#[trigger] items[j]).name,
                ) by {
                    assert(before[j] == items[j]);
                }
                if !ids.contains_key(items[last].name) {
                    assert(items[last].name == items.last().name);
                }
            },
        }
    }
}

/// Gives each of `items` the identifier of its type. Fails with the first
/// name that the table does not know.
pub fn attach_ids(items: &Vec<Item>, table: &TypeTable) -> (r: Result<Vec<ItemWithId>, String>)
    ensures
        match r {
            Ok(typed) => join_ids(items.deep_view(), table.ids()) == Ok::<
                Seq<ItemWithIdView>,
                Seq<char>,
            >(typed.deep_view()),
            Err(name) => join_ids(items.deep_view(), table.ids()) == Err::<
                Seq<ItemWithIdView>,
                Seq<char>,
            >(name@),
        },
{
    let ghost all = items.deep_view();
    let mut typed: Vec<ItemWithId> = Vec::new();
    let mut i: usize = 0;
    proof {
        assert(all.take(0) == Seq::<ItemView>::empty());
    }
    while i < items.len()
        invariant
            i <= items.len(),
            all == items.deep_view(),
            typed.len() == i,
            first_unknown(all.take(i as int), table.ids()) is None,
            forall|j: int| 0 <= j < i ==> (#[trigger] typed@[j])@ == with_id(all[j], table.ids()),
        decreases items.len() - i,
    {
        let item = &items[i];
        proof {
            assert(all[i as int] == item@);
            assert(all.take(i as int + 1).drop_last() == all.take(i as int));
            assert(all.take(i as int + 1).last() == item@);
        }
        match lookup_type_name(table, item.name.clone()) {
            Some(type_id) => {
                typed.push(
                    ItemWithId { name: item.name.clone(), type_id, quantity: item.quantity },
                );
            },
            None => {
                proof {
                    lemma_unknown_stays(all, table.ids(), i as int + 1);
                }
                return Err(item.name.clone());
            },
        }
        i += 1;
    }
    proof {
        assert(all.take(i as int) == all);
        assert(typed.deep_view() =~= with_ids(all, table.ids()));
    }
    Ok(typed)
}

/// The first unknown name among the first `k` items is the first unknown
/// name among all of them.
pub proof fn lemma_unknown_stays(items: Seq<ItemView>, ids: Map<Seq<char>, u64>, k: int)
    requires
        0 <= k <= items.len(),
        first_unknown(items.take(k), ids) is Some,
    ensures
        first_unknown(items, ids) == first_unknown(items.take(k), ids),
    decreases items.len() - k,
{
    if k == items.len() {
        assert(items.take(k) == items);
    } else {
        assert(items.take(k + 1).drop_last() == items.take(k));
        lemma_unknown_stays(items, ids, k + 1);
    }
}

/// Parses a text and gives each item the identifier of its type. Fails as
/// `parse` does, and on the first name that the table does not know.
pub fn parse_with_id(s: &str, table: &TypeTable) -> (r: Result<Vec<ItemWithId>, String>)
    ensures
        match r {
            Ok(typed) => parse_with_id_text(s@, table.ids()) == Ok::<
                Seq<ItemWithIdView>,
                Seq<char>,
            >(typed.deep_view()),
            Err(text) => parse_with_id_text(s@, table.ids()) == Err::<
                Seq<ItemWithIdView>,
                Seq<char>,
            >(text@),
        },
{
    let items = match parse(s) {
        Ok(items) => items,
        Err(text) => {
            return Err(text);
        },
    };
    match attach_ids(&items, table) {
        Ok(typed) => Ok(typed),
        Err(name) => {
            let mut text = String::from_str("failed to look up ");
            text.append(name.as_str());
            Err(text)
        },
    }
}

} // verus!
