//! Replaying the directive stream: each inventory-start directive opens a
//! fresh inventory, each stack directive whose item id is in the catalog is
//! added to the latest inventory and logged as stored or discarded, and
//! everything else is skipped. Directives before the first inventory-start
//! directive are discarded.

use crate::inventory::{add_overflows, fresh_inv, spec_add, InvView, Inventory};
use crate::items::{Item, ItemStack, ItemView, StackView};
use crate::parser::{LineView, ParsedLine};
use crate::text;
use vstd::prelude::*;
use vstd::slice::slice_index_get;
use vstd::string::StringExecFns;

verus! {

/// Position of the first catalog item with the given id, or -1 when the id
/// is unknown.
pub open spec fn item_index(items: Seq<ItemView>, id: u64) -> int
    decreases items.len(),
{
    if items.len() == 0 {
        -1
    } else if items[0].id == id {
        0
    } else {
        let r = item_index(items.drop_first(), id);
        if r == -1 {
            -1
        } else {
            r + 1
        }
    }
}

/// The first catalog item with the given id, if any.
pub open spec fn find_item(items: Seq<ItemView>, id: u64) -> Option<ItemView> {
    let i = item_index(items, id);
    if i == -1 {
        None
    } else {
        Some(items[i])
    }
}

/// What `item_index` returns: the position of the first item with the id
/// when one exists, and -1 exactly when none does.
pub proof fn lemma_item_index(items: Seq<ItemView>, id: u64)
    ensures
        item_index(items, id) == -1 ==> forall|j: int|
            0 <= j < items.len() ==> items[j].id != id,
        item_index(items, id) != -1 ==> {
            let i = item_index(items, id);
            &&& 0 <= i < items.len()
            &&& items[i].id == id
            &&& forall|j: int| 0 <= j < i ==> items[j].id != id
        },
    decreases items.len(),
{
    if items.len() > 0 && items[0].id != id {
        let tail = items.drop_first();
        lemma_item_index(tail, id);
        if item_index(items, id) == -1 {
            assert forall|j: int| 0 <= j < items.len() implies items[j].id != id by {
                if j >= 1 {
                    assert(items[j] == tail[j - 1]);
                }
            }
        } else {
            let i = item_index(items, id);
            assert(items[i] == tail[i - 1]);
            assert forall|j: int| 0 <= j < i implies items[j].id != id by {
                if j >= 1 {
                    assert(items[j] == tail[j - 1]);
                }
            }
        }
    }
}

/// One processing-log line: the outcome padded to nine characters, then the
/// quantity right-justified in a field of width two in parentheses, then the
/// item's name, e.g. "Stored    ( 1) Tomato".
pub open spec fn log_line(stored: bool, quantity: nat, name: Seq<char>) -> Seq<char> {
    (if stored {
        "Stored    ("@
    } else {
        "Discarded ("@
    }) + text::pad2(text::dec_digits(quantity)) + ") "@ + name
}

/// The result of replaying a directive stream against a catalog: for each
/// inventory-start directive, in order, the log of its stack directives and
/// the final state of its inventory.
pub open spec fn process_spec(lines: Seq<LineView>, items: Seq<ItemView>) -> Seq<
    (Seq<Seq<char>>, InvView),
>
    decreases lines.len(),
{
    if lines.len() == 0 {
        Seq::empty()
    } else {
        let r = process_spec(lines.drop_last(), items);
        match lines.last() {
            LineView::InventoryLine { max_size } => r.push(
                (Seq::empty(), fresh_inv(max_size as nat)),
            ),
            LineView::ItemStackLine { id, quantity } => {
                if r.len() > 0 {
                    match find_item(items, id) {
                        Some(iv) => {
                            let st = StackView { item: iv, quantity: quantity as nat };
                            let last = r.last();
                            let step = spec_add(last.1, st);
                            r.update(
                                r.len() - 1,
                                (last.0.push(log_line(step.0, quantity as nat, iv.name)), step.1),
                            )
                        },
                        None => r,
                    }
                } else {
                    r
                }
            },
            _ => r,
        }
    }
}

/// Whether replaying the directive stream never pushes a slot's quantity
/// past what a machine word holds.
pub open spec fn process_ok(lines: Seq<LineView>, items: Seq<ItemView>) -> bool
    decreases lines.len(),
{
    if lines.len() == 0 {
        true
    } else {
        let r = process_spec(lines.drop_last(), items);
        &&& process_ok(lines.drop_last(), items)
        &&& match lines.last() {
            LineView::ItemStackLine { id, quantity } => {
                if r.len() > 0 {
                    match find_item(items, id) {
                        Some(iv) => !add_overflows(
                            r.last().1,
                            StackView { item: iv, quantity: quantity as nat },
                        ),
                        None => true,
                    }
                } else {
                    true
                }
            },
            _ => true,
        }
    }
}

/// A replay that stays within machine bounds does so on every prefix.
pub proof fn lemma_process_ok_prefix(lines: Seq<LineView>, items: Seq<ItemView>, m: int)
    requires
        0 <= m <= lines.len(),
        process_ok(lines, items),
    ensures
        process_ok(lines.take(m), items),
    decreases lines.len(),
{
    if m < lines.len() {
        assert(lines.drop_last().take(m) =~= lines.take(m));
        lemma_process_ok_prefix(lines.drop_last(), items, m);
    } else {
        assert(lines.take(m) =~= lines);
    }
}

/// Looks up the first catalog item with the given id.
fn find_known_item<'a>(items: &'a [Item], id: u64) -> (r: Option<&'a Item>)
    ensures
        match r {
            Some(it) => find_item(items.deep_view(), id) == Some(it@),
            None => find_item(items.deep_view(), id) is None,
        },
{
    let ghost itemsv = items.deep_view();
    let mut i: usize = 0;
    while i < items.len()
        invariant
            i <= itemsv.len(),
            itemsv == items.deep_view(),
            itemsv.len() == items@.len(),
            forall|j: int| 0 <= j < i ==> itemsv[j].id != id,
        decreases itemsv.len() - i,
    {
        let it = slice_index_get(items, i);
        if it.get_id() == id {
            proof {
                assert(itemsv[i as int].id == id);
                lemma_item_index(itemsv, id);
            }
            return Some(it);
        }
        i = i + 1;
    }
    proof {
        lemma_item_index(itemsv, id);
    }
    None
}

/// Renders one processing-log line.
fn render_log_entry(stored: bool, quantity: usize, name: &str) -> (r: String)
    ensures
        r@ == log_line(stored, quantity as nat, name@),
{
    let mut r = if stored {
        String::from_str("Stored    (")
    } else {
        String::from_str("Discarded (")
    };
    let q = text::u64_string_width2(quantity as u64);
    r.append(q.as_str());
    r.append(") ");
    r.append(name);
    proof {
        reveal_strlit("Stored    (");
        reveal_strlit("Discarded (");
        reveal_strlit(") ");
        assert(r@ =~= log_line(stored, quantity as nat, name@));
    }
    r
}

/// Replays the directive stream against the item catalog and returns, for
/// each inventory-start directive in order, the log of store and discard
/// outcomes and the final inventory — unless some stack directive would
/// push a slot's quantity past what a machine word holds, in which case the
/// whole replay is refused with `None`.
pub fn try_process_inventory_requests(
    all_inventory_lines: Vec<ParsedLine>,
    known_items: &[Item],
) -> (r: Option<Vec<(Vec<String>, Inventory)>>)
    ensures
        r is Some <==> process_ok(all_inventory_lines.deep_view(), known_items.deep_view()),
        match r {
            Some(v) => {
                let spec = process_spec(all_inventory_lines.deep_view(), known_items.deep_view());
                &&& v@.len() == spec.len()
                &&& forall|k: int|
                    0 <= k < spec.len() ==> v@[k].0.deep_view() == spec[k].0 && v@[k].1@
                        == spec[k].1
            },
            None => true,
        },
{
    let ghost linesv = all_inventory_lines.deep_view();
    let ghost itemsv = known_items.deep_view();
    let mut result: Vec<(Vec<String>, Inventory)> = Vec::new();
    let n = all_inventory_lines.len();
    proof {
        assert(linesv.take(0) =~= Seq::<LineView>::empty());
    }
    let mut i: usize = 0;
    while i < n
        invariant
            i <= n,
            n == linesv.len(),
            linesv == all_inventory_lines.deep_view(),
            linesv.len() == all_inventory_lines@.len(),
            itemsv == known_items.deep_view(),
            process_ok(linesv.take(i as int), itemsv),
            ({
                let spec = process_spec(linesv.take(i as int), itemsv);
                &&& result@.len() == spec.len()
                &&& forall|k: int|
                    0 <= k < spec.len() ==> result@[k].0.deep_view() == spec[k].0
                        && result@[k].1@ == spec[k].1
                &&& forall|k: int| 0 <= k < result@.len() ==> (#[trigger] result@[k].1).wf()
            }),
        decreases n - i,
    {
        let ghost prefix = linesv.take(i as int);
        let ghost spec_pre = process_spec(prefix, itemsv);
        proof {
            assert(linesv.take(i + 1).drop_last() =~= prefix);
            assert(linesv.take(i + 1).last() == linesv[i as int]);
        }
        let ghost spec_post = process_spec(linesv.take(i + 1), itemsv);
        let line = &all_inventory_lines[i];
        match line {
            ParsedLine::InventoryLine { max_size } => {
                let logs: Vec<String> = Vec::new();
                let inv = Inventory::new(*max_size);
                result.push((logs, inv));
                proof {
                    assert(logs.deep_view() =~= Seq::<Seq<char>>::empty());
                    assert forall|k: int| 0 <= k < spec_post.len() implies result@[k].0.deep_view()
                        == spec_post[k].0 && result@[k].1@ == spec_post[k].1 by {}
                }
            },
            ParsedLine::ItemStackLine { id, quantity } => {
                if result.len() > 0 {
                    if let Some(item) = find_known_item(known_items, *id) {
                        let ghost iv = item@;
                        let stack = ItemStack::new(item.clone(), *quantity);
                        let entry_name = item.get_name();
                        let (mut logs, mut inv) = match result.pop() {
                            Some(pair) => pair,
                            None => (Vec::new(), Inventory::new(0)),
                        };
                        proof {
                            assert((logs.deep_view(), inv@)
                                == (spec_pre.last().0, spec_pre.last().1));
                        }
                        if inv.would_overflow(&stack) {
                            proof {
                                assert(!process_ok(linesv.take(i + 1), itemsv));
                                if process_ok(linesv, itemsv) {
                                    lemma_process_ok_prefix(linesv, itemsv, i + 1);
                                }
                            }
                            return None;
                        }
                        let stored = inv.add_items(stack);
                        let entry = render_log_entry(stored, *quantity, entry_name);
                        logs.push(entry);
                        result.push((logs, inv));
                        proof {
                            let st = StackView { item: iv, quantity: *quantity as nat };
                            let step = spec_add(spec_pre.last().1, st);
                            assert(logs.deep_view() =~= spec_pre.last().0.push(
                                log_line(step.0, *quantity as nat, iv.name),
                            ));
                            assert(spec_post =~= spec_pre.update(
                                spec_pre.len() - 1,
                                (logs.deep_view(), inv@),
                            ));
                            assert forall|k: int|
                                0 <= k < spec_post.len() implies result@[k].0.deep_view()
                                == spec_post[k].0 && result@[k].1@ == spec_post[k].1 by {}
                        }
                    }
                }
            },
            ParsedLine::CommentLine { .. } => {
            },
            ParsedLine::InvalidLine { .. } => {
            },
        }
        i = i + 1;
    }
    proof {
        assert(linesv.take(n as int) =~= linesv);
    }
    Some(result)
}

/// Replays the directive stream against the item catalog. The caller must
/// know that no stack directive pushes a slot's quantity past a machine
/// word; `try_process_inventory_requests` performs the same replay and
/// instead refuses such a stream at run time.
pub fn process_inventory_requests(all_inventory_lines: Vec<ParsedLine>, known_items: &[Item]) -> (r:
    Vec<(Vec<String>, Inventory)>)
    requires
        process_ok(all_inventory_lines.deep_view(), known_items.deep_view()),
    ensures
        ({
            let spec = process_spec(all_inventory_lines.deep_view(), known_items.deep_view());
            &&& r@.len() == spec.len()
            &&& forall|k: int|
                0 <= k < spec.len() ==> r@[k].0.deep_view() == spec[k].0 && r@[k].1@ == spec[k].1
        }),
{
    match try_process_inventory_requests(all_inventory_lines, known_items) {
        Some(v) => v,
        None => vstd::pervasive::unreached(),
    }
}

} // verus!
