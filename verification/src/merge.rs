//! Identity-keyed reconciliation of two wanted lists.
//!
//! Every item is keyed by its catalog identifier together with its optional
//! color; an absent color is a key of its own.  Reconciliation seeds a map
//! from the left list, folds the right list into it — accumulating the
//! desired quantity when a key is already present, inserting otherwise —
//! and returns the entries in strictly increasing key order.  The key order
//! is the identifier order first (character by character), with an absent
//! color sorting before every present one.
use vstd::prelude::*;

use crate::wanted::{Color, Item, ItemID, ItemView, MinQty, WantedList};

verus! {

// ---------------------------------------------------------------------------
// Identity keys and their order
// ---------------------------------------------------------------------------

/// The identity key of an item: catalog identifier and optional color.
#[verifier::ext_equal]
pub struct KeyView {
    pub id: Seq<char>,
    pub color: Option<i8>,
}

pub open spec fn key_of(iv: ItemView) -> KeyView {
    KeyView { id: iv.item_id, color: iv.color }
}

/// Strict lexicographic order on character sequences.
pub open spec fn seq_lt(a: Seq<char>, b: Seq<char>) -> bool
    decreases a.len(),
{
    if b.len() == 0 {
        false
    } else if a.len() == 0 {
        true
    } else if (a[0] as int) < (b[0] as int) {
        true
    } else if a[0] == b[0] {
        seq_lt(a.skip(1), b.skip(1))
    } else {
        false
    }
}

/// Exactly one of `a < b`, `b < a`, `a == b` holds for the text order.
pub proof fn lemma_seq_lt_trichotomy(a: Seq<char>, b: Seq<char>)
    ensures
        seq_lt(a, b) || seq_lt(b, a) || a == b,
        !(seq_lt(a, b) && seq_lt(b, a)),
        seq_lt(a, b) ==> a != b,
        seq_lt(b, a) ==> a != b,
    decreases a.len(),
{
    if a.len() == 0 && b.len() == 0 {
        assert(a =~= b);
    } else if a.len() == 0 || b.len() == 0 {
        if a.len() == 0 {
            assert(seq_lt(a, b));
            assert(a != b);
        } else {
            assert(seq_lt(b, a));
            assert(a != b);
        }
    } else if a[0] == b[0] {
        lemma_seq_lt_trichotomy(a.skip(1), b.skip(1));
        if a.skip(1) == b.skip(1) {
            assert forall|i: int| 0 <= i < a.len() implies a[i] == b[i] by {
                if i >= 1 {
                    assert(a[i] == a.skip(1)[i - 1]);
                    assert(b[i] == b.skip(1)[i - 1]);
                }
            }
            assert(a =~= b);
        }
        if a == b {
            assert(a.skip(1) == b.skip(1));
        }
    } else {
        assert(a[0] as int != b[0] as int);
        assert(a != b);
    }
}

/// The text order is transitive.
pub proof fn lemma_seq_lt_trans(a: Seq<char>, b: Seq<char>, c: Seq<char>)
    requires
        seq_lt(a, b),
        seq_lt(b, c),
    ensures
        seq_lt(a, c),
    decreases a.len(),
{
    if a.len() == 0 {
    } else {
        // b and c are nonempty, and a is nonempty here
        if (a[0] as int) < (b[0] as int) {
            if (b[0] as int) < (c[0] as int) {
            } else {
                assert(b[0] == c[0]);
            }
        } else {
            assert(a[0] == b[0]);
            if (b[0] as int) < (c[0] as int) {
            } else {
                assert(b[0] == c[0]);
                lemma_seq_lt_trans(a.skip(1), b.skip(1), c.skip(1));
            }
        }
    }
}

/// Order on optional colors: absent sorts before every present value.
pub open spec fn opt_color_lt(a: Option<i8>, b: Option<i8>) -> bool {
    match (a, b) {
        (Option::None, Option::Some(_)) => true,
        (Option::Some(x), Option::Some(y)) => x < y,
        _ => false,
    }
}

/// Strict order on identity keys: identifier first, then color.
pub open spec fn key_lt(k1: KeyView, k2: KeyView) -> bool {
    seq_lt(k1.id, k2.id) || (k1.id == k2.id && opt_color_lt(k1.color, k2.color))
}

/// Exactly one of `k1 < k2`, `k2 < k1`, `k1 == k2` holds for keys.
pub proof fn lemma_key_trichotomy(k1: KeyView, k2: KeyView)
    ensures
        key_lt(k1, k2) || key_lt(k2, k1) || k1 == k2,
        !(key_lt(k1, k2) && key_lt(k2, k1)),
        key_lt(k1, k2) ==> k1 != k2,
        key_lt(k2, k1) ==> k1 != k2,
{
    lemma_seq_lt_trichotomy(k1.id, k2.id);
    if !seq_lt(k1.id, k2.id) && !seq_lt(k2.id, k1.id) {
        if !opt_color_lt(k1.color, k2.color) && !opt_color_lt(k2.color, k1.color) {
            assert(k1.color == k2.color);
            assert(k1 =~= k2);
        }
    }
}

/// The key order is transitive.
pub proof fn lemma_key_trans(k1: KeyView, k2: KeyView, k3: KeyView)
    requires
        key_lt(k1, k2),
        key_lt(k2, k3),
    ensures
        key_lt(k1, k3),
{
    if seq_lt(k1.id, k2.id) && seq_lt(k2.id, k3.id) {
        lemma_seq_lt_trans(k1.id, k2.id, k3.id);
    }
}

// ---------------------------------------------------------------------------
// The association between an item sequence and its key map
// ---------------------------------------------------------------------------

/// The key-to-item map of a sequence; a later record with the same key
/// overwrites an earlier one.
pub open spec fn seq_key_map(s: Seq<ItemView>) -> Map<KeyView, ItemView>
    decreases s.len(),
{
    if s.len() == 0 {
        Map::empty()
    } else {
        seq_key_map(s.drop_last()).insert(key_of(s.last()), s.last())
    }
}

/// No two records share a key.
pub open spec fn distinct_keys(s: Seq<ItemView>) -> bool {
    forall|i: int, j: int|
        0 <= i < j < s.len() ==> key_of(s[i]) != key_of(s[j])
}

/// Strictly increasing key order.
pub open spec fn sorted_by_key(s: Seq<ItemView>) -> bool {
    forall|i: int, j: int|
        0 <= i < j < s.len() ==> key_lt(key_of(s[i]), key_of(s[j]))
}

/// A strictly sorted sequence has no repeated key.
pub proof fn lemma_sorted_distinct(s: Seq<ItemView>)
    requires
        sorted_by_key(s),
    ensures
        distinct_keys(s),
{
    assert forall|i: int, j: int| 0 <= i < j < s.len() implies key_of(s[i]) != key_of(s[j]) by {
        lemma_key_trichotomy(key_of(s[i]), key_of(s[j]));
    }
}

/// The map holds a key exactly when some record carries it.
pub proof fn lemma_seq_key_map_dom(s: Seq<ItemView>)
    ensures
        forall|k: KeyView|
            #[trigger] seq_key_map(s).dom().contains(k) <==> (exists|j: int|
                0 <= j < s.len() && key_of(s[j]) == k),
    decreases s.len(),
{
    if s.len() > 0 {
        lemma_seq_key_map_dom(s.drop_last());
        assert forall|k: KeyView| #[trigger]
            seq_key_map(s).dom().contains(k) implies (exists|j: int|
            0 <= j < s.len() && key_of(s[j]) == k) by {
            if k == key_of(s.last()) {
                assert(key_of(s[s.len() - 1]) == k);
            } else {
                assert(seq_key_map(s.drop_last()).dom().contains(k));
                let j = choose|j: int|
                    0 <= j < s.drop_last().len() && key_of(s.drop_last()[j]) == k;
                assert(key_of(s[j]) == k);
            }
        }
        assert forall|k: KeyView| (exists|j: int|
            0 <= j < s.len() && key_of(s[j]) == k) implies #[trigger]
            seq_key_map(s).dom().contains(k) by {
            let j = choose|j: int| 0 <= j < s.len() && key_of(s[j]) == k;
            if j == s.len() - 1 {
            } else {
                assert(key_of(s.drop_last()[j]) == k);
                assert(seq_key_map(s.drop_last()).dom().contains(k));
            }
        }
    }
}

/// With distinct keys, the map sends each record's key to that record.
pub proof fn lemma_seq_key_map_index(s: Seq<ItemView>, j: int)
    requires
        distinct_keys(s),
        0 <= j < s.len(),
    ensures
        seq_key_map(s).dom().contains(key_of(s[j])),
        seq_key_map(s)[key_of(s[j])] == s[j],
    decreases s.len(),
{
    if j == s.len() - 1 {
    } else {
        assert(distinct_keys(s.drop_last()));
        lemma_seq_key_map_index(s.drop_last(), j);
        assert(key_of(s[j]) != key_of(s[s.len() - 1]));
    }
}

/// Dropping the last record removes exactly its key from the map.
pub proof fn lemma_seq_key_map_drop_last(s: Seq<ItemView>)
    requires
        distinct_keys(s),
        s.len() > 0,
    ensures
        seq_key_map(s.drop_last()) == seq_key_map(s).remove(key_of(s.last())),
{
    let k = key_of(s.last());
    lemma_seq_key_map_dom(s.drop_last());
    assert(!seq_key_map(s.drop_last()).dom().contains(k)) by {
        if seq_key_map(s.drop_last()).dom().contains(k) {
            let j = choose|j: int|
                0 <= j < s.drop_last().len() && key_of(s.drop_last()[j]) == k;
            assert(key_of(s[j]) == key_of(s[s.len() - 1]));
        }
    }
    assert(seq_key_map(s.drop_last()) =~= seq_key_map(s).remove(k));
}

/// Inserting a record with a fresh key anywhere in the sequence inserts its
/// key into the map.
proof fn lemma_seq_key_map_insert_at(s: Seq<ItemView>, idx: int, x: ItemView)
    requires
        0 <= idx <= s.len(),
        forall|j: int| 0 <= j < s.len() ==> key_of(s[j]) != key_of(x),
    ensures
        seq_key_map(s.insert(idx, x)) == seq_key_map(s).insert(key_of(x), x),
    decreases s.len(),
{
    let s2 = s.insert(idx, x);
    if idx == s.len() {
        assert(s2.drop_last() =~= s);
        assert(s2.last() == x);
    } else {
        assert(s2.last() == s.last());
        assert(s2.drop_last() =~= s.drop_last().insert(idx, x));
        lemma_seq_key_map_insert_at(s.drop_last(), idx, x);
        assert(seq_key_map(s2) == seq_key_map(s.drop_last()).insert(key_of(x), x).insert(
            key_of(s.last()),
            s.last(),
        ));
        assert(key_of(s.last()) != key_of(x));
        assert(seq_key_map(s.drop_last()).insert(key_of(x), x).insert(key_of(s.last()), s.last())
            =~= seq_key_map(s.drop_last()).insert(key_of(s.last()), s.last()).insert(
            key_of(x),
            x,
        ));
    }
}

/// Replacing the record at a position by one with the same key updates the
/// map at that key.
proof fn lemma_seq_key_map_update_at(s: Seq<ItemView>, idx: int, x: ItemView)
    requires
        distinct_keys(s),
        0 <= idx < s.len(),
        key_of(s[idx]) == key_of(x),
    ensures
        seq_key_map(s.update(idx, x)) == seq_key_map(s).insert(key_of(x), x),
    decreases s.len(),
{
    let s2 = s.update(idx, x);
    if idx == s.len() - 1 {
        assert(s2.drop_last() =~= s.drop_last());
        assert(s2.last() == x);
        assert(seq_key_map(s2) == seq_key_map(s.drop_last()).insert(key_of(x), x));
        assert(seq_key_map(s.drop_last()).insert(key_of(x), x) =~= seq_key_map(s).insert(
            key_of(x),
            x,
        ));
    } else {
        assert(s2.last() == s.last());
        assert(s2.drop_last() =~= s.drop_last().update(idx, x));
        assert(distinct_keys(s.drop_last()));
        assert(key_of(s.drop_last()[idx]) == key_of(x));
        lemma_seq_key_map_update_at(s.drop_last(), idx, x);
        assert(key_of(s.last()) != key_of(x));
        assert(seq_key_map(s.drop_last()).insert(key_of(x), x).insert(key_of(s.last()), s.last())
            =~= seq_key_map(s.drop_last()).insert(key_of(s.last()), s.last()).insert(
            key_of(x),
            x,
        ));
    }
}

// ---------------------------------------------------------------------------
// Quantity accumulation
// ---------------------------------------------------------------------------

/// Addition on quantities, clamped at the largest representable value.
pub open spec fn sat_add_u64(a: u64, b: u64) -> u64 {
    if a + b > u64::MAX {
        u64::MAX
    } else {
        (a + b) as u64
    }
}

/// The accumulated quantity: the incoming side counts as one when it has no
/// explicit quantity, and so does the held side — even though the held
/// record keeps no other trace of that implicit one.
pub open spec fn spec_acc_qty(base: Option<u64>, inc: Option<u64>) -> u64 {
    let i = match inc {
        Some(q) => q,
        None => 1u64,
    };
    let b = match base {
        Some(q) => q,
        None => 1u64,
    };
    sat_add_u64(b, i)
}

/// The held record after accumulating an incoming one: only the quantity
/// changes; all other metadata stays with the held record.
pub open spec fn spec_bump(base: ItemView, inc: ItemView) -> ItemView {
    ItemView { min_qty: Some(spec_acc_qty(base.min_qty, inc.min_qty)), ..base }
}

/// Folds a sequence of records into a key map: accumulate on a present key,
/// insert on a fresh one.
pub open spec fn spec_merge(m: Map<KeyView, ItemView>, items: Seq<ItemView>) -> Map<
    KeyView,
    ItemView,
>
    decreases items.len(),
{
    if items.len() == 0 {
        m
    } else {
        let m1 = spec_merge(m, items.drop_last());
        let it = items.last();
        let k = key_of(it);
        if m1.dom().contains(k) {
            m1.insert(k, spec_bump(m1[k], it))
        } else {
            m1.insert(k, it)
        }
    }
}

/// The reconciled key map of two lists: the left list seeds the map, the
/// right list folds into it.
pub open spec fn spec_reconcile(a: Seq<ItemView>, b: Seq<ItemView>) -> Map<KeyView, ItemView> {
    spec_merge(seq_key_map(a), b)
}

/// The key of each record, in list order.
pub open spec fn keys_of(s: Seq<ItemView>) -> Seq<KeyView> {
    s.map_values(|iv: ItemView| key_of(iv))
}

/// The keys contained in a list.
pub open spec fn key_set(s: Seq<ItemView>) -> Set<KeyView> {
    Set::new(|k: KeyView| exists|j: int| 0 <= j < s.len() && key_of(s[j]) == k)
}

pub proof fn lemma_merge_dom(m: Map<KeyView, ItemView>, items: Seq<ItemView>)
    ensures
        spec_merge(m, items).dom() == m.dom().union(key_set(items)),
    decreases items.len(),
{
    if items.len() == 0 {
        assert(key_set(items) =~= Set::<KeyView>::empty()) by {
            assert forall|k: KeyView| !(#[trigger] key_set(items).contains(k)) by {
                if key_set(items).contains(k) {
                    let j = choose|j: int| 0 <= j < items.len() && key_of(items[j]) == k;
                    assert(false);
                }
            }
        }
        assert(spec_merge(m, items).dom() =~= m.dom().union(key_set(items)));
    } else {
        lemma_merge_dom(m, items.drop_last());
        assert(spec_merge(m, items).dom() =~= m.dom().union(key_set(items))) by {
            assert forall|k: KeyView| #[trigger] key_set(items).contains(k) implies key_set(
                items.drop_last(),
            ).contains(k) || k == key_of(items.last()) by {
                let j = choose|j: int| 0 <= j < items.len() && key_of(items[j]) == k;
                if j < items.len() - 1 {
                    assert(key_of(items.drop_last()[j]) == k);
                }
            }
            assert(forall|k: KeyView|
                key_set(items.drop_last()).contains(k) ==> #[trigger] key_set(items).contains(k));
            assert(key_set(items).contains(key_of(items.last()))) by {
                assert(key_of(items[items.len() - 1]) == key_of(items.last()));
            }
        }
    }
}

/// The reconciled key set is the union of both lists' key sets; neither the
/// argument order nor the list order can change it.
pub proof fn lemma_reconcile_dom(a: Seq<ItemView>, b: Seq<ItemView>)
    ensures
        spec_reconcile(a, b).dom() == key_set(a).union(key_set(b)),
{
    lemma_merge_dom(seq_key_map(a), b);
    lemma_seq_key_map_dom(a);
    assert(seq_key_map(a).dom() =~= key_set(a));
}

/// Two strictly key-sorted sequences with the same key map are the same
/// sequence: the reconciled output is determined by its key map alone.
pub proof fn lemma_sorted_unique_representation(r1: Seq<ItemView>, r2: Seq<ItemView>)
    requires
        sorted_by_key(r1),
        sorted_by_key(r2),
        seq_key_map(r1) == seq_key_map(r2),
    ensures
        r1 == r2,
    decreases r1.len(),
{
    lemma_sorted_distinct(r1);
    lemma_sorted_distinct(r2);
    lemma_seq_key_map_dom(r1);
    lemma_seq_key_map_dom(r2);
    if r1.len() == 0 {
        if r2.len() > 0 {
            assert(seq_key_map(r2).dom().contains(key_of(r2[0])));
        }
        assert(r1 =~= r2);
    } else {
        assert(r2.len() > 0) by {
            assert(seq_key_map(r1).dom().contains(key_of(r1[0])));
        }
        let k1 = key_of(r1.last());
        let k2 = key_of(r2.last());
        // each last key occurs in the other sequence, so each is bounded by
        // the other's last key
        assert(seq_key_map(r1).dom().contains(k1)) by {
            assert(key_of(r1[r1.len() - 1]) == k1);
        }
        assert(seq_key_map(r2).dom().contains(k2)) by {
            assert(key_of(r2[r2.len() - 1]) == k2);
        }
        let j1 = choose|j: int| 0 <= j < r2.len() && key_of(r2[j]) == k1;
        let j2 = choose|j: int| 0 <= j < r1.len() && key_of(r1[j]) == k2;
        lemma_key_trichotomy(k1, k2);
        if k1 != k2 {
            assert(j1 < r2.len() - 1);
            assert(key_lt(key_of(r2[j1]), k2));
            assert(j2 < r1.len() - 1);
            assert(key_lt(key_of(r1[j2]), k1));
            assert(false);
        }
        lemma_seq_key_map_index(r1, r1.len() - 1);
        lemma_seq_key_map_index(r2, r2.len() - 1);
        assert(r1.last() == r2.last());
        lemma_seq_key_map_drop_last(r1);
        lemma_seq_key_map_drop_last(r2);
        assert(sorted_by_key(r1.drop_last()));
        assert(sorted_by_key(r2.drop_last()));
        lemma_sorted_unique_representation(r1.drop_last(), r2.drop_last());
        assert(r1.len() == r2.len());
        assert forall|i: int| 0 <= i < r1.len() implies r1[i] == r2[i] by {
            if i < r1.len() - 1 {
                assert(r1[i] == r1.drop_last()[i]);
                assert(r2[i] == r2.drop_last()[i]);
            }
        }
        assert(r1 =~= r2);
    }
}

/// A strictly key-sorted sequence's key order is determined by its key set
/// alone: with the same keys, two sorted outputs list them identically.
pub proof fn lemma_sorted_same_key_order(r1: Seq<ItemView>, r2: Seq<ItemView>)
    requires
        sorted_by_key(r1),
        sorted_by_key(r2),
        key_set(r1) == key_set(r2),
    ensures
        keys_of(r1) == keys_of(r2),
    decreases r1.len(),
{
    lemma_sorted_distinct(r1);
    lemma_sorted_distinct(r2);
    if r1.len() == 0 {
        if r2.len() > 0 {
            assert(key_set(r2).contains(key_of(r2[0])));
            assert(key_set(r1).contains(key_of(r2[0])));
            assert(false);
        }
        assert(keys_of(r1) =~= keys_of(r2));
    } else {
        assert(r2.len() > 0) by {
            assert(key_set(r1).contains(key_of(r1[0])));
            if r2.len() == 0 {
                assert(key_set(r2).contains(key_of(r1[0])));
                assert(false);
            }
        }
        let k1 = key_of(r1.last());
        let k2 = key_of(r2.last());
        assert(key_set(r1).contains(k1)) by {
            assert(key_of(r1[r1.len() - 1]) == k1);
        }
        assert(key_set(r2).contains(k2)) by {
            assert(key_of(r2[r2.len() - 1]) == k2);
        }
        let j1 = choose|j: int| 0 <= j < r2.len() && key_of(r2[j]) == k1;
        let j2 = choose|j: int| 0 <= j < r1.len() && key_of(r1[j]) == k2;
        lemma_key_trichotomy(k1, k2);
        if k1 != k2 {
            assert(j1 < r2.len() - 1);
            assert(key_lt(key_of(r2[j1]), k2));
            assert(j2 < r1.len() - 1);
            assert(key_lt(key_of(r1[j2]), k1));
            assert(false);
        }
        assert(key_set(r1.drop_last()) =~= key_set(r2.drop_last())) by {
            assert forall|k: KeyView| #[trigger]
                key_set(r1.drop_last()).contains(k) implies key_set(r2.drop_last()).contains(
                k,
            ) by {
                let j = choose|j: int|
                    0 <= j < r1.drop_last().len() && key_of(r1.drop_last()[j]) == k;
                assert(key_of(r1[j]) == k);
                assert(key_lt(k, k1));
                assert(key_set(r1).contains(k));
                assert(key_set(r2).contains(k));
                let jj = choose|j: int| 0 <= j < r2.len() && key_of(r2[j]) == k;
                lemma_key_trichotomy(k, k2);
                assert(jj < r2.len() - 1);
                assert(key_of(r2.drop_last()[jj]) == k);
            }
            assert forall|k: KeyView| #[trigger]
                key_set(r2.drop_last()).contains(k) implies key_set(r1.drop_last()).contains(
                k,
            ) by {
                let j = choose|j: int|
                    0 <= j < r2.drop_last().len() && key_of(r2.drop_last()[j]) == k;
                assert(key_of(r2[j]) == k);
                assert(key_lt(k, k2));
                assert(key_set(r2).contains(k));
                assert(key_set(r1).contains(k));
                let jj = choose|j: int| 0 <= j < r1.len() && key_of(r1[j]) == k;
                lemma_key_trichotomy(k, k1);
                assert(jj < r1.len() - 1);
                assert(key_of(r1.drop_last()[jj]) == k);
            }
        }
        assert(sorted_by_key(r1.drop_last()));
        assert(sorted_by_key(r2.drop_last()));
        lemma_sorted_same_key_order(r1.drop_last(), r2.drop_last());
        assert(keys_of(r1) =~= keys_of(r2)) by {
            let m1 = keys_of(r1);
            let m2 = keys_of(r2);
            let d1 = keys_of(r1.drop_last());
            let d2 = keys_of(r2.drop_last());
            assert(d1 == d2);
            assert(d1.len() == r1.len() - 1);
            assert(d2.len() == r2.len() - 1);
            assert(m1.len() == m2.len());
            assert forall|i: int| 0 <= i < m1.len() implies m1[i] == m2[i] by {
                if i < r1.len() - 1 {
                    assert(m1[i] == key_of(r1[i]));
                    assert(r1[i] == r1.drop_last()[i]);
                    assert(d1[i] == key_of(r1.drop_last()[i]));
                    assert(r2[i] == r2.drop_last()[i]);
                    assert(d2[i] == key_of(r2.drop_last()[i]));
                    assert(m2[i] == key_of(r2[i]));
                } else {
                    assert(m1[i] == key_of(r1[i]));
                    assert(m2[i] == key_of(r2[i]));
                }
            }
        }
    }
}

// ---------------------------------------------------------------------------
// Executable key comparison
// ---------------------------------------------------------------------------

pub open spec fn opt_color_view(c: Option<Color>) -> Option<i8> {
    match c {
        Some(col) => Some(col.0),
        None => None,
    }
}

/// Character-by-character order on catalog identifiers.
#[verifier::loop_isolation(false)]
fn id_lt(a: &ItemID, b: &ItemID) -> (r: bool)
    ensures
        r == seq_lt(a@, b@),
{
    let sa = a.0.as_str();
    let sb = b.0.as_str();
    let la = sa.unicode_len();
    let lb = sb.unicode_len();
    let mut i: usize = 0;
    proof {
        assert(a@.skip(0) =~= a@);
        assert(b@.skip(0) =~= b@);
    }
    loop
        invariant
            i <= la,
            i <= lb,
            la == a@.len(),
            lb == b@.len(),
            sa@ == a@,
            sb@ == b@,
            seq_lt(a@, b@) == seq_lt(a@.skip(i as int), b@.skip(i as int)),
        decreases la - i,
    {
        if i < la && i < lb {
            let ca = sa.get_char(i);
            let cb = sb.get_char(i);
            if (ca as u32) < (cb as u32) {
                proof {
                    assert(a@.skip(i as int)[0] == ca);
                    assert(b@.skip(i as int)[0] == cb);
                    assert(seq_lt(a@.skip(i as int), b@.skip(i as int)));
                }
                return true;
            } else if ca == cb {
                proof {
                    assert(a@.skip(i as int)[0] == ca);
                    assert(b@.skip(i as int)[0] == cb);
                    assert(a@.skip(i as int).skip(1) =~= a@.skip(i as int + 1));
                    assert(b@.skip(i as int).skip(1) =~= b@.skip(i as int + 1));
                }
                i = i + 1;
            } else {
                proof {
                    assert(a@.skip(i as int)[0] == ca);
                    assert(b@.skip(i as int)[0] == cb);
                    assert(!seq_lt(a@.skip(i as int), b@.skip(i as int)));
                }
                return false;
            }
        } else {
            if i < lb {
                proof {
                    assert(a@.skip(i as int).len() == 0);
                    assert(b@.skip(i as int).len() > 0);
                }
                return true;
            } else {
                proof {
                    assert(b@.skip(i as int).len() == 0);
                }
                return false;
            }
        }
    }
}

fn opt_color_lt_exec(a: &Option<Color>, b: &Option<Color>) -> (r: bool)
    ensures
        r == opt_color_lt(opt_color_view(*a), opt_color_view(*b)),
{
    match a {
        None => match b {
            Some(_) => true,
            None => false,
        },
        Some(x) => match b {
            Some(y) => x.0 < y.0,
            None => false,
        },
    }
}

/// Strict identity-key order on (identifier, color) pairs.
fn key_pair_lt(aid: &ItemID, ac: &Option<Color>, bid: &ItemID, bc: &Option<Color>) -> (r: bool)
    ensures
        r == key_lt(
            KeyView { id: aid@, color: opt_color_view(*ac) },
            KeyView { id: bid@, color: opt_color_view(*bc) },
        ),
{
    if id_lt(aid, bid) {
        true
    } else if aid.0 == bid.0 {
        opt_color_lt_exec(ac, bc)
    } else {
        false
    }
}

/// Identity-key equality on (identifier, color) pairs.
pub(crate) fn key_pair_eq(aid: &ItemID, ac: &Option<Color>, bid: &ItemID, bc: &Option<Color>) -> (r: bool)
    ensures
        r == (KeyView { id: aid@, color: opt_color_view(*ac) } == KeyView {
            id: bid@,
            color: opt_color_view(*bc),
        }),
{
    let ghost k1 = KeyView { id: aid@, color: opt_color_view(*ac) };
    let ghost k2 = KeyView { id: bid@, color: opt_color_view(*bc) };
    if aid.0 == bid.0 {
        let same = match ac {
            None => match bc {
                None => true,
                Some(_) => false,
            },
            Some(x) => match bc {
                Some(y) => x.0 == y.0,
                None => false,
            },
        };
        proof {
            if same {
                assert(k1 =~= k2);
            } else {
                assert(k1.color != k2.color);
            }
        }
        same
    } else {
        proof {
            assert(k1.id != k2.id);
        }
        false
    }
}

// ---------------------------------------------------------------------------
// The identity-keyed map of items
// ---------------------------------------------------------------------------

/// The identity key of a wanted-list item, as owned data.
#[derive(Debug, PartialEq, Eq, Hash, PartialOrd, Ord)]
pub struct ItemColorHashKey {
    pub item_id: ItemID,
    pub color: Option<Color>,
}

impl View for ItemColorHashKey {
    type V = KeyView;

    open spec fn view(&self) -> KeyView {
        KeyView { id: self.item_id@, color: opt_color_view(self.color) }
    }
}

/// A key-to-item map held as a vector of items in strictly increasing key
/// order; replaces a tree map so that the key order itself is part of the
/// verified surface.
pub struct ItemColorMap {
    entries: Vec<Item>,
}

impl View for ItemColorMap {
    type V = Seq<ItemView>;

    closed spec fn view(&self) -> Seq<ItemView> {
        self.entries@.map_values(|x: Item| x@)
    }
}

impl ItemColorMap {
    /// Entries stand in strictly increasing key order.
    pub open spec fn wf(&self) -> bool {
        sorted_by_key(self@)
    }

    /// The empty map.
    pub fn new() -> (r: ItemColorMap)
        ensures
            r.wf(),
            r@ == Seq::<ItemView>::empty(),
    {
        let r = ItemColorMap { entries: Vec::new() };
        proof {
            assert(r@ =~= Seq::<ItemView>::empty());
        }
        r
    }

    /// How many keys the map holds.
    pub fn len(&self) -> (n: usize)
        ensures
            n == self@.len(),
    {
        self.entries.len()
    }

    /// The position of a key, if it is present.
    #[verifier::loop_isolation(false)]
fn find(&self, id: &ItemID, color: &Option<Color>) -> (r: Option<usize>)
        ensures
            (match r {
                Some(idx) => idx < self@.len() && key_of(self@[idx as int]) == (KeyView {
                    id: id@,
                    color: opt_color_view(*color),
                }),
                None => !seq_key_map(self@).dom().contains(
                    KeyView { id: id@, color: opt_color_view(*color) },
                ),
            }),
    {
        let ghost k = KeyView { id: id@, color: opt_color_view(*color) };
        let n = self.entries.len();
        let mut i: usize = 0;
        while i < n
            invariant
                i <= n,
                n == self@.len(),
                n == self.entries.len(),
                forall|j: int| 0 <= j < i ==> key_of(self@[j]) != k,
            decreases n - i,
        {
            let e = &self.entries[i];
            proof {
                assert(self@[i as int] == self.entries@[i as int]@);
                assert((KeyView { id: e.item_id@, color: opt_color_view(e.color) }) =~= key_of(
                    self@[i as int],
                ));
            }
            if key_pair_eq(&e.item_id, &e.color, id, color) {
                proof {
                    assert(key_of(self@[i as int]) == k);
                }
                return Some(i);
            }
            proof {
                assert(key_of(self@[i as int]) != k);
            }
            i = i + 1;
        }
        proof {
            lemma_seq_key_map_dom(self@);
            if seq_key_map(self@).dom().contains(k) {
                let j = choose|j: int| 0 <= j < self@.len() && key_of(self@[j]) == k;
                assert(false);
            }
        }
        None
    }

    /// Looks a key up.
    pub fn get(&self, key: &ItemColorHashKey) -> (r: Option<&Item>)
        requires
            self.wf(),
        ensures
            (match r {
                Some(item) => seq_key_map(self@).dom().contains(key@) && item@ == seq_key_map(
                    self@,
                )[key@],
                None => !seq_key_map(self@).dom().contains(key@),
            }),
    {
        match self.find(&key.item_id, &key.color) {
            Some(idx) => {
                proof {
                    lemma_sorted_distinct(self@);
                    lemma_seq_key_map_index(self@, idx as int);
                }
                Some(&self.entries[idx])
            },
            None => None,
        }
    }

    /// Inserts an item under its key, replacing any item the key held.
    fn insert_overwrite(&mut self, item: Item)
        requires
            old(self).wf(),
        ensures
            final(self).wf(),
            seq_key_map(final(self)@) == seq_key_map(old(self)@).insert(key_of(item@), item@),
    {
        let ghost k = key_of(item@);
        let ghost s0 = self@;
        let n = self.entries.len();
        let mut idx: usize = 0;
        loop
            invariant
                idx <= n,
                n == self@.len(),
                n == self.entries.len(),
                self@ == s0,
                k == key_of(item@),
                forall|j: int| 0 <= j < idx ==> key_lt(key_of(s0[j]), k),
            ensures
                idx <= n,
                self@ == s0,
                n == self.entries.len(),
                forall|j: int| 0 <= j < idx ==> key_lt(key_of(s0[j]), k),
                idx == n || !key_lt(key_of(s0[idx as int]), k),
            decreases n - idx,
        {
            if idx == n {
                break ;
            }
            let e = &self.entries[idx];
            proof {
                assert(s0[idx as int] == self.entries@[idx as int]@);
                assert((KeyView { id: e.item_id@, color: opt_color_view(e.color) }) =~= key_of(
                    s0[idx as int],
                ));
                assert((KeyView { id: item.item_id@, color: opt_color_view(item.color) }) =~= k);
            }
            if key_pair_lt(&e.item_id, &e.color, &item.item_id, &item.color) {
                proof {
                    assert(key_lt(key_of(s0[idx as int]), k));
                }
                idx = idx + 1;
            } else {
                proof {
                    assert(!key_lt(key_of(s0[idx as int]), k));
                }
                break ;
            }
        }
        let replace = if idx < n {
            let e = &self.entries[idx];
            proof {
                assert(s0[idx as int] == self.entries@[idx as int]@);
                assert((KeyView { id: e.item_id@, color: opt_color_view(e.color) }) =~= key_of(
                    s0[idx as int],
                ));
                assert((KeyView { id: item.item_id@, color: opt_color_view(item.color) }) =~= k);
            }
            key_pair_eq(&e.item_id, &e.color, &item.item_id, &item.color)
        } else {
            false
        };
        if replace {
            proof {
                assert(key_of(s0[idx as int]) == k);
                lemma_sorted_distinct(s0);
            }
            let ghost iv = item@;
            self.entries.set(idx, item);
            proof {
                assert(self@ =~= s0.update(idx as int, iv));
                lemma_seq_key_map_update_at(s0, idx as int, iv);
                assert forall|i: int, j: int|
                    0 <= i < j < self@.len() implies key_lt(
                    key_of(self@[i]),
                    key_of(self@[j]),
                ) by {
                    assert(key_of(self@[i]) == key_of(s0[i]));
                    assert(key_of(self@[j]) == key_of(s0[j]));
                }
            }
        } else {
            proof {
                // the new key differs from every present key
                if idx < n {
                    lemma_key_trichotomy(key_of(s0[idx as int]), k);
                }
                assert forall|j: int| idx <= j < n implies key_lt(k, key_of(s0[j])) by {
                    lemma_key_trichotomy(key_of(s0[idx as int]), k);
                    if j > idx {
                        assert(key_lt(key_of(s0[idx as int]), key_of(s0[j])));
                        lemma_key_trans(k, key_of(s0[idx as int]), key_of(s0[j]));
                    }
                }
                assert forall|j: int| 0 <= j < n implies key_of(s0[j]) != k by {
                    lemma_key_trichotomy(key_of(s0[j]), k);
                }
            }
            let ghost iv = item@;
            let ghost e0 = self.entries@;
            self.entries.insert(idx, item);
            proof {
                assert(self@ =~= s0.insert(idx as int, iv)) by {
                    assert forall|i: int| 0 <= i < self@.len() implies self@[i] == s0.insert(
                        idx as int,
                        iv,
                    )[i] by {
                        assert(self@[i] == self.entries@[i]@);
                        if i < idx {
                            assert(self.entries@[i] == e0[i]);
                            assert(s0[i] == e0[i]@);
                        } else if i > idx {
                            assert(self.entries@[i] == e0[i - 1]);
                            assert(s0[i - 1] == e0[i - 1]@);
                        }
                    }
                }
                lemma_seq_key_map_insert_at(s0, idx as int, iv);
                assert forall|i: int, j: int|
                    0 <= i < j < self@.len() implies key_lt(
                    key_of(self@[i]),
                    key_of(self@[j]),
                ) by {
                    let s2 = s0.insert(idx as int, iv);
                    if j < idx {
                        assert(key_lt(key_of(s0[i]), key_of(s0[j])));
                    } else if i > idx {
                        assert(key_lt(key_of(s0[i - 1]), key_of(s0[j - 1])));
                    } else if i == idx && j > idx {
                        assert(key_lt(k, key_of(s0[j - 1])));
                    } else if j == idx {
                        assert(key_lt(key_of(s0[i]), k));
                    } else if i < idx && j > idx {
                        assert(key_lt(key_of(s0[i]), k));
                        assert(key_lt(k, key_of(s0[j - 1])));
                        lemma_key_trans(key_of(s0[i]), k, key_of(s0[j - 1]));
                    }
                }
            }
        }
    }

    /// Accumulates an incoming item's quantity into the entry at `idx`.
    fn accumulate_at(&mut self, idx: usize, incoming: &Item)
        requires
            old(self).wf(),
            idx < old(self)@.len(),
        ensures
            final(self).wf(),
            final(self)@ == old(self)@.update(
                idx as int,
                spec_bump(old(self)@[idx as int], incoming@),
            ),
            seq_key_map(final(self)@) == seq_key_map(old(self)@).insert(
                key_of(old(self)@[idx as int]),
                spec_bump(old(self)@[idx as int], incoming@),
            ),
    {
        let ghost s0 = self@;
        increment_item(&mut self.entries[idx], incoming);
        proof {
            let b = spec_bump(s0[idx as int], incoming@);
            assert(self@ =~= s0.update(idx as int, b));
            assert(key_of(b) =~= key_of(s0[idx as int]));
            lemma_sorted_distinct(s0);
            lemma_seq_key_map_update_at(s0, idx as int, b);
            assert forall|i: int, j: int|
                0 <= i < j < self@.len() implies key_lt(key_of(self@[i]), key_of(self@[j])) by {
                assert(key_of(self@[i]) == key_of(s0[i]));
                assert(key_of(self@[j]) == key_of(s0[j]));
            }
        }
    }

    /// Hands the entries out, still in key order.
    fn into_items(self) -> (r: Vec<Item>)
        ensures
            r@.map_values(|x: Item| x@) == self@,
    {
        self.entries
    }
}

// ---------------------------------------------------------------------------
// The reconciliation entry points
// ---------------------------------------------------------------------------

/// Builds the identity-keyed map of a list; with a duplicated key, the later
/// record wins.
#[verifier::loop_isolation(false)]
pub fn build_item_color_hashmap(inventory: &WantedList) -> (r: ItemColorMap)
    ensures
        r.wf(),
        seq_key_map(r@) == seq_key_map(inventory@),
{
    let mut map = ItemColorMap::new();
    let n = inventory.items.len();
    let mut i: usize = 0;
    proof {
        assert(inventory@.take(0) =~= Seq::<ItemView>::empty());
    }
    while i < n
        invariant
            i <= n,
            n == inventory.items.len(),
            map.wf(),
            seq_key_map(map@) == seq_key_map(inventory@.take(i as int)),
        decreases n - i,
    {
        let item = inventory.items[i].duplicate();
        proof {
            assert(item@ == inventory@[i as int]) by {
                assert(inventory@[i as int] == inventory.items@.map_values(
                    |x: Item| x@,
                )[i as int]);
            }
            assert(inventory@.take(i + 1).drop_last() =~= inventory@.take(i as int));
            assert(inventory@.take(i + 1).last() == inventory@[i as int]);
        }
        map.insert_overwrite(item);
        i = i + 1;
    }
    proof {
        assert(inventory@.take(n as int) =~= inventory@);
    }
    map
}

/// Adds the incoming item's desired quantity to the held item's: an absent
/// quantity counts as one on either side, so accumulating onto a record
/// without one yields one more than the incoming count alone.  All other
/// fields of the held item stay untouched.
pub fn increment_item(item_to_increment: &mut Item, incrementing_item: &Item)
    ensures
        final(item_to_increment)@ == spec_bump(old(item_to_increment)@, incrementing_item@),
{
    let inc: u64 = match &incrementing_item.min_qty {
        Some(q) => q.0,
        None => 1,
    };
    let base: u64 = match &item_to_increment.min_qty {
        Some(q) => q.0,
        None => 1,
    };
    item_to_increment.min_qty = Some(MinQty(base.saturating_add(inc)));
    proof {
        assert(item_to_increment@ =~= spec_bump(old(item_to_increment)@, incrementing_item@));
    }
}

/// Joins the right list into the left one by identity key.
///
/// The left list seeds the map; each right record either accumulates its
/// quantity into the held record — whose other metadata stays as the left
/// list had it — or is inserted under its fresh key.  The result lists the
/// reconciled records in strictly increasing key order, each key exactly
/// once.
#[verifier::loop_isolation(false)]
pub fn join_inventories(left_inventory: &WantedList, right_inventory: &WantedList) -> (r:
    WantedList)
    ensures
        sorted_by_key(r@),
        distinct_keys(r@),
        seq_key_map(r@) == spec_reconcile(left_inventory@, right_inventory@),
{
    let mut map = build_item_color_hashmap(left_inventory);
    let n = right_inventory.items.len();
    let mut i: usize = 0;
    proof {
        assert(right_inventory@.take(0) =~= Seq::<ItemView>::empty());
    }
    while i < n
        invariant
            i <= n,
            n == right_inventory.items.len(),
            map.wf(),
            seq_key_map(map@) == spec_merge(
                seq_key_map(left_inventory@),
                right_inventory@.take(i as int),
            ),
        decreases n - i,
    {
        let right_item = &right_inventory.items[i];
        proof {
            assert(right_item@ == right_inventory@[i as int]) by {
                assert(right_inventory@[i as int] == right_inventory.items@.map_values(
                    |x: Item| x@,
                )[i as int]);
            }
            assert(right_inventory@.take(i + 1).drop_last() =~= right_inventory@.take(i as int));
            assert(right_inventory@.take(i + 1).last() == right_inventory@[i as int]);
        }
        let ghost k = KeyView {
            id: right_item.item_id@,
            color: opt_color_view(right_item.color),
        };
        proof {
            assert(k =~= key_of(right_inventory@[i as int]));
        }
        match map.find(&right_item.item_id, &right_item.color) {
            Some(idx) => {
                proof {
                    lemma_sorted_distinct(map@);
                    lemma_seq_key_map_index(map@, idx as int);
                }
                map.accumulate_at(idx, right_item);
            },
            None => {
                map.insert_overwrite(right_item.duplicate());
            },
        }
        i = i + 1;
    }
    proof {
        assert(right_inventory@.take(n as int) =~= right_inventory@);
    }
    let ghost mv = map@;
    proof {
        lemma_sorted_distinct(mv);
    }
    let r = WantedList { items: map.into_items() };
    proof {
        assert(r@ == mv);
    }
    r
}

/// Reconciliation is deterministic: whenever two reconciled outputs — from
/// any argument order or input order — contain the same identity keys,
/// they list those keys identically.
pub proof fn lemma_reconcile_order_depends_only_on_keys(
    a1: Seq<ItemView>,
    b1: Seq<ItemView>,
    a2: Seq<ItemView>,
    b2: Seq<ItemView>,
    r1: Seq<ItemView>,
    r2: Seq<ItemView>,
)
    requires
        sorted_by_key(r1),
        sorted_by_key(r2),
        seq_key_map(r1) == spec_reconcile(a1, b1),
        seq_key_map(r2) == spec_reconcile(a2, b2),
        key_set(a1).union(key_set(b1)) == key_set(a2).union(key_set(b2)),
    ensures
        keys_of(r1) == keys_of(r2),
{
    lemma_reconcile_dom(a1, b1);
    lemma_reconcile_dom(a2, b2);
    lemma_seq_key_map_dom(r1);
    lemma_seq_key_map_dom(r2);
    assert(key_set(r1) =~= seq_key_map(r1).dom()) by {
        assert forall|k: KeyView| #[trigger] key_set(r1).contains(k) implies seq_key_map(
            r1,
        ).dom().contains(k) by {
            let j = choose|j: int| 0 <= j < r1.len() && key_of(r1[j]) == k;
            assert(seq_key_map(r1).dom().contains(k));
        }
        assert(forall|k: KeyView| #[trigger]
            seq_key_map(r1).dom().contains(k) ==> key_set(r1).contains(k));
    }
    assert(key_set(r2) =~= seq_key_map(r2).dom()) by {
        assert forall|k: KeyView| #[trigger] key_set(r2).contains(k) implies seq_key_map(
            r2,
        ).dom().contains(k) by {
            let j = choose|j: int| 0 <= j < r2.len() && key_of(r2[j]) == k;
            assert(seq_key_map(r2).dom().contains(k));
        }
        assert(forall|k: KeyView| #[trigger]
            seq_key_map(r2).dom().contains(k) ==> key_set(r2).contains(k));
    }
    lemma_sorted_same_key_order(r1, r2);
}

} // verus!
