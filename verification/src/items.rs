//! Items and homogeneous stacks of items.

use crate::text;
use vstd::prelude::*;
use vstd::string::StringExecFns;

verus! {

/// The mathematical content of an `Item`: its numeric identity and its
/// display name.
#[verifier::ext_equal]
pub struct ItemView {
    pub id: u64,
    pub name: Seq<char>,
}

/// An individual kind of item that an inventory can store, such as a potion,
/// a building material or a food: a numeric id together with a short name.
///
/// Two items are equal when both the id and the name agree; no uniqueness of
/// ids is enforced at construction time.
#[derive(Debug, Hash)]
pub struct Item {
    /// Unique numeric id.
    id: u64,
    /// Short title, e.g. "HP Potion".
    name: String,
}

impl View for Item {
    type V = ItemView;

    closed spec fn view(&self) -> ItemView {
        ItemView { id: self.id, name: self.name@ }
    }
}

impl DeepView for Item {
    type V = ItemView;

    open spec fn deep_view(&self) -> ItemView {
        self.view()
    }
}

impl Clone for Item {
    fn clone(&self) -> (r: Self)
        ensures
            r@ == self@,
    {
        let c = Item { id: self.id, name: self.name.clone() };
        proof {
            assert(c@ =~= self@);
        }
        c
    }
}

impl PartialEq for Item {
    fn eq(&self, other: &Self) -> (r: bool) {
        let r = self.id == other.id && self.name == other.name;
        proof {
            if r {
                assert(self@ =~= other@);
            }
        }
        r
    }
}

impl vstd::std_specs::cmp::PartialEqSpecImpl for Item {
    open spec fn obeys_eq_spec() -> bool {
        true
    }

    open spec fn eq_spec(&self, other: &Self) -> bool {
        self@ == other@
    }
}

impl Default for Item {
    /// The default item: id 0, named "Air".
    fn default() -> (r: Self)
        ensures
            r@.id == 0,
            r@.name == "Air"@,
    {
        Item::new(0, String::from_str("Air"))
    }
}

impl Item {
    /// Creates an item with the given identity and name.
    pub fn new(id: u64, nme: String) -> (r: Self)
        ensures
            r@ == (ItemView { id, name: nme@ }),
    {
        Item { id, name: nme }
    }

    /// Retrieves the id.
    pub fn get_id(&self) -> (r: u64)
        ensures
            r == self@.id,
    {
        self.id
    }

    /// Replaces the id.
    pub fn set_id(&mut self, id: u64)
        ensures
            final(self)@ == (ItemView { id, name: old(self)@.name }),
    {
        self.id = id;
    }

    /// Retrieves the name.
    pub fn get_name(&self) -> (r: &str)
        ensures
            r@ == self@.name,
    {
        self.name.as_str()
    }

    /// Replaces the name.
    pub fn set_name(&mut self, nme: String)
        ensures
            final(self)@ == (ItemView { id: old(self)@.id, name: nme@ }),
    {
        self.name = nme;
    }

    /// The display form of an item is its name.
    pub fn display_string(&self) -> (r: String)
        ensures
            r@ == self@.name,
    {
        self.name.clone()
    }
}

/// The mathematical content of an `ItemStack`. The quantity is kept as an
/// unbounded natural so that merged quantities can be spoken of even where
/// they would no longer fit a machine word.
#[verifier::ext_equal]
pub struct StackView {
    pub item: ItemView,
    pub quantity: nat,
}

/// What adding items to a stack does: the item kind is kept and the
/// quantity grows by the amount added.
pub open spec fn spec_stack_add(sv: StackView, qty: nat) -> StackView {
    StackView { item: sv.item, quantity: sv.quantity + qty }
}

/// Making a stack with quantity `a` and then adding `b` items gives the
/// same stack as making it with quantity `a + b` at once.
pub proof fn lemma_stack_round_trip(item: ItemView, a: nat, b: nat)
    ensures
        spec_stack_add(StackView { item, quantity: a }, b) == (StackView {
            item,
            quantity: a + b,
        }),
{
}

/// The display form of a stack: the quantity right-justified in a field of
/// width two, parenthesized, then a space and the item's name, e.g.
/// "( 1) Tomato".
pub open spec fn stack_render(sv: StackView) -> Seq<char> {
    seq!['('] + text::pad2(text::dec_digits(sv.quantity)) + seq![')', ' '] + sv.item.name
}

/// A homogeneous (uniform) stack of items: one item kind and a count.
#[derive(Debug, Hash, PartialEq)]
pub struct ItemStack {
    /// The specific kind of item out of which this stack is built.
    item: Item,
    /// The number of items in this stack.
    quantity: usize,
}

impl View for ItemStack {
    type V = StackView;

    closed spec fn view(&self) -> StackView {
        StackView { item: self.item@, quantity: self.quantity as nat }
    }
}

impl DeepView for ItemStack {
    type V = StackView;

    open spec fn deep_view(&self) -> StackView {
        self.view()
    }
}

impl Clone for ItemStack {
    fn clone(&self) -> (r: Self)
        ensures
            r@ == self@,
    {
        let c = ItemStack { item: self.item.clone(), quantity: self.quantity };
        proof {
            assert(c@ =~= self@);
        }
        c
    }
}

impl Default for ItemStack {
    /// The default stack: zero units of the default item.
    fn default() -> (r: Self)
        ensures
            r@.item.id == 0,
            r@.item.name == "Air"@,
            r@.quantity == 0,
    {
        ItemStack::new(Item::default(), 0)
    }
}

impl ItemStack {
    /// Creates a stack of the desired item kind and quantity; the quantity
    /// may be zero.
    pub fn new(base: Item, qty: usize) -> (r: Self)
        ensures
            r@ == (StackView { item: base@, quantity: qty as nat }),
    {
        ItemStack { item: base, quantity: qty }
    }

    /// Retrieves the item out of which the stack is composed.
    pub fn get_item(&self) -> (r: &Item)
        ensures
            r@ == self@.item,
    {
        &self.item
    }

    /// Retrieves the current number of items in the stack.
    pub fn size(&self) -> (r: usize)
        ensures
            r == self@.quantity,
    {
        self.quantity
    }

    /// Increases the size of the stack. The sum must fit a machine word.
    pub fn add_items(&mut self, qty: usize)
        requires
            old(self)@.quantity + qty <= usize::MAX,
        ensures
            final(self)@ == spec_stack_add(old(self)@, qty as nat),
    {
        self.quantity = self.quantity + qty;
    }

    /// Whether the contained item permits stacking. Today every item does;
    /// the method is the hook through which a future item kind could force a
    /// fresh slot per stack instead of merging.
    pub fn permits_stacking(&self) -> (r: bool)
        ensures
            r,
    {
        true
    }

    /// The display form of a stack, e.g. "( 1) Tomato".
    pub fn display_string(&self) -> (r: String)
        ensures
            r@ == stack_render(self@),
    {
        let mut r = String::from_str("(");
        let q = text::u64_string_width2(self.quantity as u64);
        r.append(q.as_str());
        r.append(") ");
        r.append(self.item.name.as_str());
        proof {
            reveal_strlit("(");
            reveal_strlit(") ");
            assert(r@ =~= stack_render(self@));
        }
        r
    }
}

} // verus!
