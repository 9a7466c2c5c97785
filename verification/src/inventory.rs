//! A bounded inventory: a sequence of slots in insertion order, each slot
//! holding one stack of a distinct item kind.

use crate::items::{stack_render, ItemStack, ItemView, StackView};
use crate::text;
use vstd::prelude::*;
use vstd::string::StringExecFns;

verus! {

/// The mathematical content of an `Inventory`: the stacks in slot order and
/// the fixed capacity.
#[verifier::ext_equal]
pub struct InvView {
    pub slots: Seq<StackView>,
    pub capacity: nat,
}

/// Index of the first slot whose stack holds the given item, or -1 when no
/// slot does. Matching is by item identity (id and name), never by quantity,
/// so that arriving quantities can merge into the slot already present.
pub open spec fn first_slot(slots: Seq<StackView>, item: ItemView) -> int
    decreases slots.len(),
{
    if slots.len() == 0 {
        -1
    } else if slots[0].item == item {
        0
    } else {
        let r = first_slot(slots.drop_first(), item);
        if r == -1 {
            -1
        } else {
            r + 1
        }
    }
}

/// Whether some slot holds the given item.
pub open spec fn has_slot(slots: Seq<StackView>, item: ItemView) -> bool {
    first_slot(slots, item) >= 0
}

/// What `first_slot` returns: the position of the first matching slot when
/// one exists, and -1 exactly when none does.
pub proof fn lemma_first_slot(slots: Seq<StackView>, item: ItemView)
    ensures
        first_slot(slots, item) == -1 ==> forall|j: int|
            0 <= j < slots.len() ==> slots[j].item != item,
        first_slot(slots, item) != -1 ==> {
            let i = first_slot(slots, item);
            &&& 0 <= i < slots.len()
            &&& slots[i].item == item
            &&& forall|j: int| 0 <= j < i ==> slots[j].item != item
        },
    decreases slots.len(),
{
    if slots.len() > 0 && slots[0].item != item {
        let tail = slots.drop_first();
        lemma_first_slot(tail, item);
        if first_slot(slots, item) == -1 {
            assert forall|j: int| 0 <= j < slots.len() implies slots[j].item != item by {
                if j >= 1 {
                    assert(slots[j] == tail[j - 1]);
                }
            }
        } else {
            let i = first_slot(slots, item);
            assert(slots[i] == tail[i - 1]);
            assert forall|j: int| 0 <= j < i implies slots[j].item != item by {
                if j >= 1 {
                    assert(slots[j] == tail[j - 1]);
                }
            }
        }
    }
}

/// A well-formed inventory view: never more stacks than capacity, and each
/// distinct item occupies at most one slot.
pub open spec fn inv_wf(v: InvView) -> bool {
    &&& v.slots.len() <= v.capacity
    &&& forall|i: int, j: int|
        0 <= i < j < v.slots.len() ==> v.slots[i].item != v.slots[j].item
}

/// The view of a freshly created inventory.
pub open spec fn fresh_inv(capacity: nat) -> InvView {
    InvView { slots: Seq::empty(), capacity }
}

/// Number of slots in use.
pub open spec fn spec_utilized(v: InvView) -> nat {
    v.slots.len()
}

/// Number of unused slots (meaningful under `inv_wf`).
pub open spec fn spec_empty_slots(v: InvView) -> int {
    v.capacity - v.slots.len()
}

/// Whether every slot is in use.
pub open spec fn spec_is_full(v: InvView) -> bool {
    spec_empty_slots(v) == 0
}

/// Whether no slot is in use.
pub open spec fn spec_is_empty(v: InvView) -> bool {
    v.slots.len() == 0
}

/// Whether merging the incoming stack into its matching slot would push that
/// slot's quantity past what a machine word holds. False when no slot
/// matches.
pub open spec fn add_overflows(v: InvView, st: StackView) -> bool {
    let i = first_slot(v.slots, st.item);
    i != -1 && v.slots[i].quantity + st.quantity > usize::MAX
}

/// Functional model of adding a stack: merge the whole incoming quantity
/// into the first slot holding the same item; otherwise take a free slot;
/// otherwise reject the whole stack. The first component says whether the
/// stack was stored.
pub open spec fn spec_add(v: InvView, st: StackView) -> (bool, InvView) {
    let i = first_slot(v.slots, st.item);
    if i != -1 {
        let merged = StackView {
            item: v.slots[i].item,
            quantity: (v.slots[i].quantity + st.quantity) as nat,
        };
        (true, InvView { slots: v.slots.update(i, merged), capacity: v.capacity })
    } else if v.slots.len() < v.capacity {
        (true, InvView { slots: v.slots.push(st), capacity: v.capacity })
    } else {
        (false, v)
    }
}

/// The display line for one occupied slot: the stack's rendering indented
/// by two spaces, ended by a newline.
pub open spec fn slot_line(sv: StackView) -> Seq<char> {
    "  "@ + stack_render(sv) + "\n"@
}

/// The display form of the occupied slots, one line per slot in insertion
/// order.
pub open spec fn slots_render(slots: Seq<StackView>) -> Seq<char>
    decreases slots.len(),
{
    if slots.len() == 0 {
        Seq::empty()
    } else {
        slots_render(slots.drop_last()) + slot_line(slots.last())
    }
}

/// The summary line of an inventory's display.
pub open spec fn inv_header(v: InvView) -> Seq<char> {
    " -Used "@ + text::dec_digits(spec_utilized(v)) + " of "@ + text::dec_digits(v.capacity)
        + " slots\n"@
}

/// The display form of an inventory: a summary line, then one line per
/// occupied slot.
pub open spec fn inv_render(v: InvView) -> Seq<char> {
    inv_header(v) + slots_render(v.slots)
}

/// A bounded set of slots, each holding one stack of a distinct item kind.
/// Once all slots are filled, no additional item kinds can be stored, though
/// a stack of an item already present still merges into its slot.
#[derive(Debug, Hash, PartialEq)]
pub struct Inventory {
    /// Individual item slots, in insertion order; each stack occupies one.
    slots: Vec<ItemStack>,
    /// Total number of distinct item kinds that can be stored.
    capacity: usize,
}

impl View for Inventory {
    type V = InvView;

    closed spec fn view(&self) -> InvView {
        InvView { slots: self.slots.deep_view(), capacity: self.capacity as nat }
    }
}

impl DeepView for Inventory {
    type V = InvView;

    open spec fn deep_view(&self) -> InvView {
        self.view()
    }
}

impl Clone for Inventory {
    fn clone(&self) -> (r: Self)
        ensures
            r@ == self@,
    {
        let c = Inventory { slots: self.slots.clone(), capacity: self.capacity };
        proof {
            assert forall|j: int|
                0 <= j < self.slots@.len() implies c.slots.deep_view()[j] == #[trigger] self
                .slots
                .deep_view()[j] by {
                assert(vstd::pervasive::cloned::<ItemStack>(self.slots@[j], c.slots@[j]));
            }
            assert(c.slots.deep_view() =~= self.slots.deep_view());
            assert(c@ =~= self@);
        }
        c
    }
}

impl Default for Inventory {
    /// The default inventory has ten slots.
    fn default() -> (r: Self)
        ensures
            r@ == fresh_inv(10),
            r.wf(),
    {
        Inventory::new(10)
    }
}

impl Inventory {
    /// A well-formed inventory; established by the constructor and preserved
    /// by `add_items`.
    pub open spec fn wf(&self) -> bool {
        inv_wf(self@)
    }

    /// Adds the number of items in the right-hand stack to the left-hand
    /// stack. The merged quantity must fit a machine word.
    pub fn merge_stacks(lhs: &mut ItemStack, rhs: ItemStack)
        requires
            old(lhs)@.quantity + rhs@.quantity <= usize::MAX,
        ensures
            final(lhs)@ == (StackView {
                item: old(lhs)@.item,
                quantity: (old(lhs)@.quantity + rhs@.quantity) as nat,
            }),
    {
        lhs.add_items(rhs.size());
    }

    /// Creates an inventory with the given number of slots, all empty.
    pub fn new(desired_capacity: usize) -> (r: Self)
        ensures
            r@ == fresh_inv(desired_capacity as nat),
            r.wf(),
    {
        let r = Inventory { slots: Vec::new(), capacity: desired_capacity };
        proof {
            assert(r@ =~= fresh_inv(desired_capacity as nat));
        }
        r
    }

    /// Number of slots currently in use.
    pub fn utilized_slots(&self) -> (r: usize)
        ensures
            r == spec_utilized(self@),
    {
        self.slots.len()
    }

    /// Number of empty (unused) slots.
    pub fn empty_slots(&self) -> (r: usize)
        requires
            self.wf(),
        ensures
            r == spec_empty_slots(self@),
    {
        self.total_slots() - self.utilized_slots()
    }

    /// The capacity: the number of distinct item kinds this inventory can
    /// store.
    pub fn total_slots(&self) -> (r: usize)
        ensures
            r == self@.capacity,
    {
        self.capacity
    }

    /// Whether the inventory is full: no empty slot is left.
    pub fn is_full(&self) -> (r: bool)
        requires
            self.wf(),
        ensures
            r == spec_is_full(self@),
    {
        self.empty_slots() == 0
    }

    /// Whether the inventory holds no stack at all.
    pub fn is_empty(&self) -> (r: bool)
        ensures
            r == spec_is_empty(self@),
    {
        self.slots.len() == 0
    }

    /// Searches the slots for one holding the same item as the given stack
    /// and returns its position. Matching is by item identity (id and name),
    /// never by quantity, so a stack of an item already stored finds that
    /// item's slot whatever quantity either holds.
    pub fn find_matching_item_stack(&self, key: &ItemStack) -> (r: Option<usize>)
        ensures
            match r {
                Some(i) => first_slot(self@.slots, key@.item) == i as int,
                None => first_slot(self@.slots, key@.item) == -1,
            },
    {
        let ghost slots = self@.slots;
        let ghost item = key@.item;
        let mut i: usize = 0;
        while i < self.slots.len()
            invariant
                i <= self.slots.len(),
                slots == self@.slots,
                item == key@.item,
                forall|j: int| 0 <= j < i ==> slots[j].item != item,
            decreases self.slots.len() - i,
        {
            if self.slots[i].get_item() == key.get_item() {
                proof {
                    assert(slots[i as int].item == item);
                    lemma_first_slot(slots, item);
                }
                return Some(i);
            }
            i = i + 1;
        }
        proof {
            lemma_first_slot(slots, item);
        }
        None
    }

    /// The stack occupying the given slot, counted in insertion order.
    pub fn stack_at(&self, i: usize) -> (r: &ItemStack)
        requires
            i < spec_utilized(self@),
        ensures
            r@ == self@.slots[i as int],
    {
        &self.slots[i]
    }

    /// Whether adding the given stack would merge into an existing slot and
    /// push that slot's quantity past what a machine word holds.
    pub fn would_overflow(&self, stack: &ItemStack) -> (r: bool)
        ensures
            r == add_overflows(self@, stack@),
    {
        match self.find_matching_item_stack(stack) {
            Some(i) => {
                proof {
                    lemma_first_slot(self@.slots, stack@.item);
                }
                self.slots[i].size() > usize::MAX - stack.size()
            },
            None => false,
        }
    }

    /// Appends a stack as a new slot at the end, without looking at the
    /// capacity or at the slots already present. The caller is responsible
    /// for keeping the inventory well formed.
    pub fn add_item_stack_no_check(&mut self, to_add: ItemStack)
        ensures
            final(self)@ == (InvView {
                slots: old(self)@.slots.push(to_add@),
                capacity: old(self)@.capacity,
            }),
    {
        self.slots.push(to_add);
        proof {
            assert(self@.slots =~= old(self)@.slots.push(to_add@));
            assert(self@ =~= (InvView {
                slots: old(self)@.slots.push(to_add@),
                capacity: old(self)@.capacity,
            }));
        }
    }

    /// Adds a stack of items to the inventory. When a slot already holds the
    /// same item and permits stacking, the whole incoming quantity merges
    /// into that slot, full or not; otherwise the stack takes a free slot.
    /// Returns true exactly when the stack was stored; a rejected stack
    /// leaves the inventory unchanged.
    pub fn add_items(&mut self, stack: ItemStack) -> (r: bool)
        requires
            old(self).wf(),
            !add_overflows(old(self)@, stack@),
        ensures
            final(self).wf(),
            r == spec_add(old(self)@, stack@).0,
            final(self)@ == spec_add(old(self)@, stack@).1,
            final(self)@.capacity == old(self)@.capacity,
    {
        proof {
            lemma_first_slot(old(self)@.slots, stack@.item);
        }
        if let Some(i) = self.find_matching_item_stack(&stack) {
            if self.slots[i].permits_stacking() {
                let qty = stack.size();
                let the_match = &mut self.slots[i];
                the_match.add_items(qty);
                proof {
                    assert(self@.slots =~= spec_add(old(self)@, stack@).1.slots);
                    assert(self@ =~= spec_add(old(self)@, stack@).1);
                }
                return true;
            }
        }
        if self.utilized_slots() < self.capacity {
            let ghost pre = self@;
            self.add_item_stack_no_check(stack);
            proof {
                assert(self@ =~= spec_add(old(self)@, stack@).1);
                assert forall|i: int, j: int|
                    0 <= i < j < self@.slots.len() implies self@.slots[i].item
                    != self@.slots[j].item by {
                    if j == pre.slots.len() as int {
                        assert(pre.slots[i].item != stack@.item);
                    }
                }
            }
            return true;
        }
        false
    }

    /// The display form of the inventory: a summary line "Used X of Y
    /// slots", then one line per occupied slot in insertion order.
    pub fn display_string(&self) -> (r: String)
        ensures
            r@ == inv_render(self@),
    {
        let mut r = String::from_str(" -Used ");
        let used = text::u64_string(self.slots.len() as u64);
        r.append(used.as_str());
        r.append(" of ");
        let cap = text::u64_string(self.capacity as u64);
        r.append(cap.as_str());
        r.append(" slots\n");
        let ghost header = r@;
        proof {
            assert(self@.slots.take(0) =~= Seq::<StackView>::empty());
        }
        let mut i: usize = 0;
        while i < self.slots.len()
            invariant
                i <= self.slots.len(),
                header == " -Used "@ + text::dec_digits(spec_utilized(self@)) + " of "@
                    + text::dec_digits(self@.capacity) + " slots\n"@,
                r@ == header + slots_render(self@.slots.take(i as int)),
            decreases self.slots.len() - i,
        {
            r.append("  ");
            let line = self.slots[i].display_string();
            r.append(line.as_str());
            r.append("\n");
            proof {
                let slots = self@.slots;
                assert(slots.take(i + 1).drop_last() =~= slots.take(i as int));
                assert(slots.take(i + 1).last() == slots[i as int]);
                assert(r@ =~= header + slots_render(slots.take(i + 1)));
            }
            i = i + 1;
        }
        proof {
            assert(self@.slots.take(self.slots.len() as int) =~= self@.slots);
        }
        r
    }
}

/// A freshly constructed inventory, of any capacity, has no slot in use,
/// all of its slots empty, is empty, and is full exactly when its capacity
/// is zero.
pub proof fn lemma_fresh_inventory(capacity: nat)
    ensures
        spec_utilized(fresh_inv(capacity)) == 0,
        spec_empty_slots(fresh_inv(capacity)) == capacity,
        spec_is_empty(fresh_inv(capacity)),
        spec_is_full(fresh_inv(capacity)) == (capacity == 0),
        inv_wf(fresh_inv(capacity)),
{
}

/// Adding a stack of an item not yet present while a slot is still free
/// succeeds, appends the stack as a new slot, and uses exactly one more
/// slot.
pub proof fn lemma_add_new_item_not_full(v: InvView, st: StackView)
    requires
        inv_wf(v),
        !has_slot(v.slots, st.item),
        v.slots.len() < v.capacity,
    ensures
        spec_add(v, st).0,
        spec_add(v, st).1.slots == v.slots.push(st),
        spec_utilized(spec_add(v, st).1) == spec_utilized(v) + 1,
        inv_wf(spec_add(v, st).1),
{
    lemma_first_slot(v.slots, st.item);
    let w = spec_add(v, st).1;
    assert forall|i: int, j: int|
        0 <= i < j < w.slots.len() implies w.slots[i].item != w.slots[j].item by {
        if j == v.slots.len() as int {
            assert(v.slots[i].item != st.item);
        }
    }
}

/// Adding a stack of an item not present while every slot is taken fails
/// and leaves the inventory exactly as it was.
pub proof fn lemma_add_new_item_full(v: InvView, st: StackView)
    requires
        inv_wf(v),
        !has_slot(v.slots, st.item),
        spec_is_full(v),
    ensures
        !spec_add(v, st).0,
        spec_add(v, st).1 == v,
{
    lemma_first_slot(v.slots, st.item);
}

/// Adding a stack whose item already occupies a slot succeeds whether or
/// not the inventory is full: the whole incoming quantity merges into that
/// slot, no free slot is needed, and every other slot is untouched.
pub proof fn lemma_add_merge(v: InvView, st: StackView)
    requires
        has_slot(v.slots, st.item),
    ensures
        spec_add(v, st).0,
        spec_utilized(spec_add(v, st).1) == spec_utilized(v),
        ({
            let i = first_slot(v.slots, st.item);
            let w = spec_add(v, st).1;
            &&& w.slots[i].item == v.slots[i].item
            &&& w.slots[i].quantity == v.slots[i].quantity + st.quantity
            &&& forall|j: int| 0 <= j < v.slots.len() && j != i ==> w.slots[j] == v.slots[j]
        }),
{
    lemma_first_slot(v.slots, st.item);
}

/// The phrase the display's summary line carries: the number of used slots,
/// " of ", the capacity, and " slots".
pub open spec fn header_phrase(v: InvView) -> Seq<char> {
    text::dec_digits(spec_utilized(v)) + " of "@ + text::dec_digits(v.capacity) + " slots"@
}

/// Offset of slot k's line inside the rendered slot lines.
pub open spec fn slot_line_offset(slots: Seq<StackView>, k: int) -> int {
    slots_render(slots.take(k)).len() as int
}

/// Slot k's line begins where the lines of the slots before it end.
proof fn lemma_slot_line_offset_step(slots: Seq<StackView>, k: int)
    requires
        0 <= k < slots.len(),
    ensures
        slot_line_offset(slots, k + 1) == slot_line_offset(slots, k) + slot_line(
            slots[k],
        ).len() as int,
{
    assert(slots.take(k + 1).drop_last() =~= slots.take(k));
    assert(slots.take(k + 1).last() == slots[k]);
}

/// Slot line offsets grow strictly along the slot order.
proof fn lemma_slot_line_offset_mono(slots: Seq<StackView>, k1: int, k2: int)
    requires
        0 <= k1 < k2 <= slots.len(),
    ensures
        slot_line_offset(slots, k1) < slot_line_offset(slots, k2),
    decreases k2 - k1,
{
    lemma_slot_line_offset_step(slots, k1);
    reveal_strlit("  ");
    reveal_strlit("\n");
    if k1 + 1 < k2 {
        lemma_slot_line_offset_mono(slots, k1 + 1, k2);
    }
}

/// Each slot's line appears in the rendered slot lines at its offset.
proof fn lemma_slots_render_at(slots: Seq<StackView>, k: int)
    requires
        0 <= k < slots.len(),
    ensures
        ({
            let off = slot_line_offset(slots, k);
            &&& 0 <= off
            &&& off + slot_line(slots[k]).len() <= slots_render(slots).len()
            &&& slots_render(slots).subrange(off, off + slot_line(slots[k]).len() as int)
                == slot_line(slots[k])
        }),
    decreases slots.len(),
{
    let off = slot_line_offset(slots, k);
    let line = slot_line(slots[k]);
    if k == slots.len() - 1 {
        assert(slots.take(k) =~= slots.drop_last());
        assert(slots_render(slots).subrange(off, off + line.len() as int) =~= line);
    } else {
        let front = slots.drop_last();
        lemma_slots_render_at(front, k);
        assert(front.take(k) =~= slots.take(k));
        assert(slots_render(slots).subrange(off, off + line.len() as int) =~= slots_render(
            front,
        ).subrange(off, off + line.len() as int));
    }
}

/// What the display of an inventory carries, and in what order: the summary
/// line holds the phrase "<used> of <capacity> slots" right after " -Used ",
/// and each stored stack's rendering appears after the summary line at a
/// fixed position, those positions growing strictly along the slot order.
pub proof fn lemma_display_order(v: InvView)
    ensures
        inv_render(v).subrange(7, 7 + header_phrase(v).len() as int) == header_phrase(v),
        forall|k: int|
            0 <= k < v.slots.len() ==> {
                let off = inv_header(v).len() + #[trigger] slot_line_offset(v.slots, k) + 2;
                &&& 0 <= off
                &&& off + stack_render(v.slots[k]).len() <= inv_render(v).len()
                &&& inv_render(v).subrange(off, off + stack_render(v.slots[k]).len() as int)
                    == stack_render(v.slots[k])
            },
        forall|k1: int, k2: int|
            0 <= k1 < k2 < v.slots.len() ==> #[trigger] slot_line_offset(v.slots, k1)
                < #[trigger] slot_line_offset(v.slots, k2),
{
    reveal_strlit(" -Used ");
    reveal_strlit(" of ");
    reveal_strlit(" slots");
    reveal_strlit(" slots\n");
    reveal_strlit("  ");
    reveal_strlit("\n");
    assert(" slots\n"@ =~= " slots"@ + "\n"@);
    assert(inv_render(v).subrange(7, 7 + header_phrase(v).len() as int) =~= header_phrase(v));
    assert forall|k: int| 0 <= k < v.slots.len() implies {
        let off = inv_header(v).len() + #[trigger] slot_line_offset(v.slots, k) + 2;
        &&& 0 <= off
        &&& off + stack_render(v.slots[k]).len() <= inv_render(v).len()
        &&& inv_render(v).subrange(off, off + stack_render(v.slots[k]).len() as int)
            == stack_render(v.slots[k])
    } by {
        lemma_slots_render_at(v.slots, k);
        let boff = slot_line_offset(v.slots, k);
        let line = slot_line(v.slots[k]);
        let render = stack_render(v.slots[k]);
        let off = inv_header(v).len() + boff + 2;
        assert(0 <= boff && boff + line.len() <= slots_render(v.slots).len());
        assert(line.subrange(2, 2 + render.len() as int) =~= render);
        assert(inv_render(v).subrange(off as int, off + render.len() as int) =~= render);
    }
    assert forall|k1: int, k2: int|
        0 <= k1 < k2 < v.slots.len() implies #[trigger] slot_line_offset(v.slots, k1)
        < #[trigger] slot_line_offset(v.slots, k2) by {
        lemma_slot_line_offset_mono(v.slots, k1, k2);
    }
}

} // verus!
