//! Summary statistics over a wanted list.
//!
//! A single left-to-right fold counts the records, sums the desired
//! quantities (an absent quantity counts as one), and counts the distinct
//! identity keys and the distinct present colors.  The fold never fails;
//! sums clamp at the largest representable value, which a list built from
//! wire input cannot reach.
use vstd::prelude::*;

use crate::errors::{DecodeError, DecodeErrorView};
use crate::merge::{key_of, key_pair_eq, opt_color_view, sat_add_u64, KeyView};
use crate::numbers::dec_digits;
use crate::wanted::{
    spec_items_of_serde, Color, Item, ItemID, ItemView, SerdeWantedList, WantedList,
};

verus! {

/// The identity key of an item, held as owned data for the seen-set.
#[derive(Debug, PartialEq, Eq, Hash, PartialOrd, Ord)]
pub struct OwnedItemColorHashKey {
    item_id: ItemID,
    color: Option<Color>,
}

impl View for OwnedItemColorHashKey {
    type V = KeyView;

    closed spec fn view(&self) -> KeyView {
        KeyView { id: self.item_id@, color: opt_color_view(self.color) }
    }
}

/// Running totals over a wanted list, together with the identity keys and
/// colors already counted.
#[derive(Debug, PartialEq)]
pub struct WantedListStatistics {
    pub total_items: u64,
    pub total_parts: u64,
    pub unique_item_color_count: u64,
    pub unique_color_count: u64,
    pub item_color_set: Vec<OwnedItemColorHashKey>,
    pub color_set: Vec<Color>,
}

/// Mathematical image of the statistics.
#[verifier::ext_equal]
pub struct StatsView {
    pub total_items: u64,
    pub total_parts: u64,
    pub unique_item_color_count: u64,
    pub unique_color_count: u64,
    pub item_colors: Seq<KeyView>,
    pub colors: Seq<i8>,
}

impl View for WantedListStatistics {
    type V = StatsView;

    open spec fn view(&self) -> StatsView {
        StatsView {
            total_items: self.total_items,
            total_parts: self.total_parts,
            unique_item_color_count: self.unique_item_color_count,
            unique_color_count: self.unique_color_count,
            item_colors: self.item_color_set@.map_values(|k: OwnedItemColorHashKey| k@),
            colors: self.color_set@.map_values(|c: Color| c.0),
        }
    }
}

/// Everything at zero, nothing seen.
pub open spec fn init_stats() -> StatsView {
    StatsView {
        total_items: 0,
        total_parts: 0,
        unique_item_color_count: 0,
        unique_color_count: 0,
        item_colors: Seq::empty(),
        colors: Seq::empty(),
    }
}

/// One fold step: count the record, add its quantity (one when absent),
/// and count its key and its color when not yet seen.
pub open spec fn spec_stat_step(st: StatsView, it: ItemView) -> StatsView {
    let qty_add = match it.min_qty {
        Some(q) => q,
        None => 1u64,
    };
    let k = key_of(it);
    let st1 = StatsView {
        total_items: sat_add_u64(st.total_items, 1),
        total_parts: sat_add_u64(st.total_parts, qty_add),
        ..st
    };
    let st2 = if st1.item_colors.contains(k) {
        st1
    } else {
        StatsView {
            unique_item_color_count: sat_add_u64(st1.unique_item_color_count, 1),
            item_colors: st1.item_colors.push(k),
            ..st1
        }
    };
    match it.color {
        None => st2,
        Some(c) => if st2.colors.contains(c) {
            st2
        } else {
            StatsView {
                unique_color_count: sat_add_u64(st2.unique_color_count, 1),
                colors: st2.colors.push(c),
                ..st2
            }
        },
    }
}

/// The whole fold, left to right.
pub open spec fn spec_aggregate(items: Seq<ItemView>) -> StatsView
    decreases items.len(),
{
    if items.len() == 0 {
        init_stats()
    } else {
        spec_stat_step(spec_aggregate(items.drop_last()), items.last())
    }
}

impl WantedListStatistics {
    /// Fresh statistics: everything at zero, nothing seen.
    pub fn init() -> (r: WantedListStatistics)
        ensures
            r@ == init_stats(),
    {
        let r = WantedListStatistics {
            total_items: 0,
            total_parts: 0,
            unique_item_color_count: 0,
            unique_color_count: 0,
            item_color_set: Vec::new(),
            color_set: Vec::new(),
        };
        proof {
            assert(r@ =~= init_stats());
        }
        r
    }
}

/// Whether the key (identifier, color) was counted already.
fn key_seen(set: &Vec<OwnedItemColorHashKey>, id: &ItemID, color: &Option<Color>) -> (r: bool)
    ensures
        r == set@.map_values(|k: OwnedItemColorHashKey| k@).contains(
            KeyView { id: id@, color: opt_color_view(*color) },
        ),
{
    let ghost k = KeyView { id: id@, color: opt_color_view(*color) };
    let ghost vs = set@.map_values(|x: OwnedItemColorHashKey| x@);
    let n = set.len();
    let mut i: usize = 0;
    while i < n
        invariant
            i <= n,
            n == set.len(),
            vs == set@.map_values(|x: OwnedItemColorHashKey| x@),
            k == (KeyView { id: id@, color: opt_color_view(*color) }),
            vs.len() == n,
            forall|j: int| 0 <= j < i ==> vs[j] != k,
        decreases n - i,
    {
        let e = &set[i];
        proof {
            assert(vs[i as int] == set@[i as int]@);
        }
        if key_pair_eq(&e.item_id, &e.color, id, color) {
            proof {
                assert(vs[i as int] == k);
            }
            return true;
        }
        proof {
            assert(vs[i as int] != k);
        }
        i = i + 1;
    }
    proof {
        if vs.contains(k) {
            let j = choose|j: int| 0 <= j < vs.len() && vs[j] == k;
            assert(false);
        }
    }
    false
}

/// Whether the color was counted already.
fn color_seen(set: &Vec<Color>, c: i8) -> (r: bool)
    ensures
        r == set@.map_values(|x: Color| x.0).contains(c),
{
    let ghost vs = set@.map_values(|x: Color| x.0);
    let n = set.len();
    let mut i: usize = 0;
    while i < n
        invariant
            i <= n,
            n == set.len(),
            vs == set@.map_values(|x: Color| x.0),
            vs.len() == n,
            forall|j: int| 0 <= j < i ==> vs[j] != c,
        decreases n - i,
    {
        proof {
            assert(vs[i as int] == set@[i as int].0);
        }
        if set[i].0 == c {
            proof {
                assert(vs[i as int] == c);
            }
            return true;
        }
        i = i + 1;
    }
    proof {
        if vs.contains(c) {
            let j = choose|j: int| 0 <= j < vs.len() && vs[j] == c;
            assert(false);
        }
    }
    false
}

/// Folds one record into the running statistics, exactly one step of the
/// aggregation.
pub fn update_wanted_list_statistic(item: &Item, aggregate: &mut WantedListStatistics)
    ensures
        final(aggregate)@ == spec_stat_step(old(aggregate)@, item@),
{
    aggregate.total_items = aggregate.total_items.saturating_add(1);
    let qty_add: u64 = match &item.min_qty {
        Some(q) => q.0,
        None => 1,
    };
    aggregate.total_parts = aggregate.total_parts.saturating_add(qty_add);
    if !key_seen(&aggregate.item_color_set, &item.item_id, &item.color) {
        aggregate.unique_item_color_count = aggregate.unique_item_color_count.saturating_add(1);
        let ghost s0 = aggregate.item_color_set@;
        aggregate.item_color_set.push(
            OwnedItemColorHashKey { item_id: ItemID(item.item_id.0.clone()), color: item.color },
        );
        proof {
            assert(aggregate.item_color_set@.map_values(|x: OwnedItemColorHashKey| x@)
                =~= s0.map_values(|x: OwnedItemColorHashKey| x@).push(key_of(item@)));
        }
    }
    match &item.color {
        Some(c) => {
            if !color_seen(&aggregate.color_set, c.0) {
                aggregate.unique_color_count = aggregate.unique_color_count.saturating_add(1);
                let ghost c0 = aggregate.color_set@;
                aggregate.color_set.push(Color(c.0));
                proof {
                    assert(aggregate.color_set@.map_values(|x: Color| x.0) =~= c0.map_values(
                        |x: Color| x.0,
                    ).push(c.0));
                }
            }
        },
        None => {},
    }
    proof {
        assert(aggregate@ =~= spec_stat_step(old(aggregate)@, item@));
    }
}

/// Folds a whole list into fresh statistics.
#[verifier::loop_isolation(false)]
pub fn gen_statistics(wanted_list: &WantedList) -> (r: WantedListStatistics)
    ensures
        r@ == spec_aggregate(wanted_list@),
{
    let mut statistics = WantedListStatistics::init();
    let n = wanted_list.items.len();
    let mut i: usize = 0;
    proof {
        assert(wanted_list@.take(0) =~= Seq::<ItemView>::empty());
    }
    while i < n
        invariant
            i <= n,
            n == wanted_list.items.len(),
            statistics@ == spec_aggregate(wanted_list@.take(i as int)),
        decreases n - i,
    {
        let item = &wanted_list.items[i];
        proof {
            assert(item@ == wanted_list@[i as int]) by {
                assert(wanted_list@[i as int] == wanted_list.items@.map_values(
                    |x: Item| x@,
                )[i as int]);
            }
            assert(wanted_list@.take(i + 1).drop_last() =~= wanted_list@.take(i as int));
            assert(wanted_list@.take(i + 1).last() == wanted_list@[i as int]);
        }
        update_wanted_list_statistic(item, &mut statistics);
        i = i + 1;
    }
    proof {
        assert(wanted_list@.take(n as int) =~= wanted_list@);
    }
    statistics
}

/// Types a whole untyped list and aggregates it in the same pass.
pub fn type_and_gen_statistics(serde_wanted_list: SerdeWantedList) -> (r: Result<
    (WantedList, WantedListStatistics),
    DecodeError,
>)
    ensures
        (match spec_items_of_serde(serde_wanted_list@) {
            Ok(ivs) => r is Ok && r->Ok_0.0@ == ivs && r->Ok_0.1@ == spec_aggregate(ivs),
            Err(e) => r is Err && r->Err_0@ == e,
        }),
{
    match WantedList::from_serde(serde_wanted_list) {
        Ok(list) => {
            let statistics = gen_statistics(&list);
            Ok((list, statistics))
        },
        Err(e) => Err(e),
    }
}

/// The invariants the fold maintains: the item count tracks the length, the
/// unique counts track the seen-sets, every counted color came from some
/// counted key, and the seen-sets cannot outgrow the list.
proof fn lemma_aggregate_invariant(items: Seq<ItemView>)
    requires
        items.len() <= u64::MAX,
    ensures
        spec_aggregate(items).total_items == items.len(),
        spec_aggregate(items).unique_item_color_count == spec_aggregate(items).item_colors.len(),
        spec_aggregate(items).unique_color_count == spec_aggregate(items).colors.len(),
        spec_aggregate(items).item_colors.len() <= items.len(),
        spec_aggregate(items).colors.len() <= spec_aggregate(items).item_colors.len(),
        forall|j: int, c: i8|
            0 <= j < spec_aggregate(items).item_colors.len() && spec_aggregate(
                items,
            ).item_colors[j].color == Some(c) ==> spec_aggregate(items).colors.contains(c),
    decreases items.len(),
{
    if items.len() > 0 {
        lemma_aggregate_invariant(items.drop_last());
        let st0 = spec_aggregate(items.drop_last());
        let st = spec_aggregate(items);
        let it = items.last();
        let k = key_of(it);
        assert(st == spec_stat_step(st0, it));
        if !st0.item_colors.contains(k) {
            match it.color {
                None => {},
                Some(c) => {
                    assert forall|j: int, cc: i8|
                        0 <= j < st.item_colors.len() && st.item_colors[j].color == Some(
                            cc,
                        ) implies st.colors.contains(cc) by {
                        if j < st0.item_colors.len() {
                            assert(st0.colors.contains(cc));
                            assert(st0.colors.len() <= st.colors.len());
                            let jj = choose|jj: int|
                                0 <= jj < st0.colors.len() && st0.colors[jj] == cc;
                            assert(st.colors[jj] == cc);
                        } else {
                            assert(st.item_colors[j] == k);
                            assert(cc == c);
                            if st0.colors.contains(c) {
                                let jj = choose|jj: int|
                                    0 <= jj < st0.colors.len() && st0.colors[jj] == c;
                                assert(st.colors[jj] == c);
                            } else {
                                assert(st.colors.last() == c);
                            }
                        }
                    }
                },
            }
        } else {
            // the key was seen: if its color is new, some seen key already
            // carried it, which contradicts the color being new
            match it.color {
                None => {},
                Some(c) => {
                    if !st0.colors.contains(c) {
                        let j = choose|j: int|
                            0 <= j < st0.item_colors.len() && st0.item_colors[j] == k;
                        assert(st0.item_colors[j].color == Some(c));
                        assert(false);
                    }
                },
            }
        }
    }
}

/// Sanity of the aggregate over any list a machine can hold: the item count
/// is the length, the distinct-key count cannot exceed it, and the
/// distinct-color count cannot exceed the distinct-key count.
pub proof fn lemma_statistics_sanity(items: Seq<ItemView>)
    requires
        items.len() <= u64::MAX,
    ensures
        spec_aggregate(items).total_items == items.len(),
        spec_aggregate(items).unique_item_color_count <= spec_aggregate(items).total_items,
        spec_aggregate(items).unique_color_count <= spec_aggregate(
            items,
        ).unique_item_color_count,
{
    lemma_aggregate_invariant(items);
}

/// The report rendered by the command line: each counter on its own line.
pub open spec fn spec_summary(st: StatsView) -> Seq<char> {
    "\nTotal Items: "@ + dec_digits(st.total_items as nat) + ", \nTotal Parts: "@ + dec_digits(
        st.total_parts as nat,
    ) + ", \nUnique Item/Color Count: "@ + dec_digits(st.unique_item_color_count as nat)
        + ", \nUnique Color Count: "@ + dec_digits(st.unique_color_count as nat)
}

impl WantedListStatistics {
    /// Renders the four counters as the report text.
    pub fn summary_string(&self) -> (r: String)
        ensures
            r@ == spec_summary(self@),
    {
        let mut out = String::new();
        out.append("\nTotal Items: ");
        crate::numbers::append_u64(&mut out, self.total_items);
        out.append(", \nTotal Parts: ");
        crate::numbers::append_u64(&mut out, self.total_parts);
        out.append(", \nUnique Item/Color Count: ");
        crate::numbers::append_u64(&mut out, self.unique_item_color_count);
        out.append(", \nUnique Color Count: ");
        crate::numbers::append_u64(&mut out, self.unique_color_count);
        proof {
            assert(out@ =~= spec_summary(self@));
        }
        out
    }
}

} // verus!
