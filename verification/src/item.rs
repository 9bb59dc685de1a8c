//! The records that parsing yields.

use vstd::prelude::*;
use vstd::string::StringExecFns;
use crate::number::{decimal, push_decimal, push_signed_decimal, signed_decimal};

verus! {

/// An item as contracts see it.
pub struct ItemView {
    pub name: Seq<char>,
    pub quantity: int,
}

/// A name and how many of it.
#[derive(Debug, PartialEq)]
pub struct Item {
    pub name: String,
    pub quantity: i64,
}

impl View for Item {
    type V = ItemView;

    open spec fn view(&self) -> ItemView {
        ItemView { name: self.name@, quantity: self.quantity as int }
    }
}

impl DeepView for Item {
    type V = ItemView;

    open spec fn deep_view(&self) -> ItemView {
        self@
    }
}

impl Clone for Item {
    fn clone(&self) -> (r: Self)
        ensures
            r@ == self@,
    {
        Item { name: self.name.clone(), quantity: self.quantity }
    }
}

/// An item with its type identifier, as contracts see it.
pub struct ItemWithIdView {
    pub name: Seq<char>,
    pub type_id: u64,
    pub quantity: int,
}

/// An item joined with the identifier of its type.
#[derive(Debug, PartialEq)]
pub struct ItemWithId {
    pub name: String,
    pub type_id: u64,
    pub quantity: i64,
}

impl View for ItemWithId {
    type V = ItemWithIdView;

    open spec fn view(&self) -> ItemWithIdView {
        ItemWithIdView { name: self.name@, type_id: self.type_id, quantity: self.quantity as int }
    }
}

impl DeepView for ItemWithId {
    type V = ItemWithIdView;

    open spec fn deep_view(&self) -> ItemWithIdView {
        self@
    }
}

impl Clone for ItemWithId {
    fn clone(&self) -> (r: Self)
        ensures
            r@ == self@,
    {
        ItemWithId { name: self.name.clone(), type_id: self.type_id, quantity: self.quantity }
    }
}

/// How an item reads: name and quantity in round brackets.
pub open spec fn item_text(item: ItemView) -> Seq<char> {
    "("@ + item.name + ", "@ + signed_decimal(item.quantity) + ")"@
}

/// How an item with its identifier reads: identifier, name and quantity in
/// round brackets.
pub open spec fn item_with_id_text(item: ItemWithIdView) -> Seq<char> {
    "("@ + decimal(item.type_id as nat) + ", "@ + item.name + ", "@ + signed_decimal(
        item.quantity,
    ) + ")"@
}

/// The line of an item in a multibuy list: the name, ` x`, the quantity
/// and a line feed.
pub open spec fn x_line(item: ItemWithIdView) -> Seq<char> {
    item.name + " x"@ + signed_decimal(item.quantity) + "\n"@
}

/// The lines of `items`, one after the other.
pub open spec fn x_lines(items: Seq<ItemWithIdView>) -> Seq<char>
    decreases items.len(),
{
    if items.len() == 0 {
        Seq::empty()
    } else {
        x_lines(items.drop_last()) + x_line(items.last())
    }
}

impl Item {
    /// The item as text.
    pub fn to_text(&self) -> (r: String)
        ensures
            r@ == item_text(self@),
    {
        let mut r = String::from_str("(");
        r.append(self.name.as_str());
        r.append(", ");
        push_signed_decimal(&mut r, self.quantity);
        r.append(")");
        r
    }
}

impl ItemWithId {
    /// The item as text.
    pub fn to_text(&self) -> (r: String)
        ensures
            r@ == item_with_id_text(self@),
    {
        let mut r = String::from_str("(");
        push_decimal(&mut r, self.type_id);
        r.append(", ");
        r.append(self.name.as_str());
        r.append(", ");
        push_signed_decimal(&mut r, self.quantity);
        r.append(")");
        r
    }
}

/// Writes `items` as a multibuy list, one `name xquantity` a line.
pub fn format_x(items: Vec<ItemWithId>) -> (r: String)
    ensures
        r@ == x_lines(items.deep_view()),
{
    let ghost all = items.deep_view();
    let mut r = String::new();
    let mut i: usize = 0;
    proof {
        assert(all.take(0) == Seq::<ItemWithIdView>::empty());
    }
    while i < items.len()
        invariant
            i <= items.len(),
            all == items.deep_view(),
            r@ == x_lines(all.take(i as int)),
        decreases items.len() - i,
    {
        proof {
            assert(all.take(i as int + 1).drop_last() == all.take(i as int));
            assert(all.take(i as int + 1).last() == items@[i as int]@);
        }
        let ghost before = r@;
        let item = &items[i];
        r.append(item.name.as_str());
        r.append(" x");
        push_signed_decimal(&mut r, item.quantity);
        r.append("\n");
        proof {
            assert(r@ == before + x_line(item@));
        }
        i += 1;
    }
    proof {
        assert(all.take(i as int) == all);
    }
    r
}

} // verus!
