//! A verified in-memory host: the reference implementation of the
//! capability surface (`PluginApi`).
//!
//! Records live in named collections held as vectors; the specification
//! view of a collection is a map from record identifier to record.  A
//! well-formedness invariant — collection names unique, record identifiers
//! unique within a collection, state keys unique — is carried as a type
//! invariant, so callers never see it.
use vstd::prelude::*;

use crate::api::CalendarEventView;
use crate::api::EmailView;
use crate::api::PluginApi;
use crate::api::keys_in_range;
use crate::api::lists_exactly;
use crate::api::merged_view;
use crate::api::page_len;
use crate::api::page_of;
use crate::items::FieldValue;
use crate::items::FieldValueView;
use crate::items::Item;
use crate::items::ItemView;
use crate::items::ListResult;
use crate::items::field_views;
use crate::items::fields_map_of;
use crate::items::lemma_fields_map_contains;
use crate::items::lemma_fields_map_push;
use crate::items::opt_item_view;
use crate::items::str_eq;

verus! {

/// One named collection of records.
pub struct Collection {
    pub name: String,
    pub items: Vec<Item>,
}

/// One outbound email the host was asked to send.
pub struct EmailEntry {
    pub to: String,
    pub subject: String,
    pub body: String,
}

impl View for EmailEntry {
    type V = EmailView;

    open spec fn view(&self) -> EmailView {
        EmailView { to: self.to@, subject: self.subject@, body: self.body@ }
    }
}

/// One calendar synchronisation the host was asked to perform.
pub struct CalendarEntry {
    pub add: bool,
    pub name: String,
    pub date_time: String,
}

impl View for CalendarEntry {
    type V = CalendarEventView;

    open spec fn view(&self) -> CalendarEventView {
        CalendarEventView { add: self.add, name: self.name@, date_time: self.date_time@ }
    }
}

/// One per-plugin state slot.
pub struct StateSlot {
    pub key: String,
    pub value: Option<Item>,
}

/// No two records of the sequence share an identifier.
pub open spec fn distinct_ids(s: Seq<Item>) -> bool {
    forall|i: int, j: int| 0 <= i < j < s.len() ==> s[i].id != s[j].id
}

/// The map described by a sequence of records; the occurrence nearest the
/// front wins when an identifier repeats.
pub open spec fn items_map_of(s: Seq<Item>) -> Map<u64, ItemView>
    decreases s.len(),
{
    if s.len() == 0 {
        Map::empty()
    } else {
        let m0 = items_map_of(s.drop_last());
        if m0.dom().contains(s.last().id) {
            m0
        } else {
            m0.insert(s.last().id, s.last()@)
        }
    }
}

/// An identifier is in the record map exactly when some record carries
/// it, and the map is finite.
pub proof fn lemma_items_map_contains(s: Seq<Item>, k: u64)
    ensures
        items_map_of(s).dom().finite(),
        items_map_of(s).dom().contains(k) <==> exists|i: int| 0 <= i < s.len() && s[i].id == k,
    decreases s.len(),
{
    if s.len() > 0 {
        lemma_items_map_contains(s.drop_last(), k);
        if s.last().id == k {
            assert(s[s.len() - 1].id == k);
        } else if items_map_of(s).dom().contains(k) {
            lemma_items_map_contains(s.drop_last(), s.last().id);
        } else if exists|i: int| 0 <= i < s.len() && s[i].id == k {
            let i = choose|i: int| 0 <= i < s.len() && s[i].id == k;
            assert(s.drop_last()[i] == s[i]);
            lemma_items_map_contains(s.drop_last(), s.last().id);
        }
    }
}

/// With distinct identifiers, every record is bound to its identifier,
/// and the map has exactly one entry per record.
pub proof fn lemma_items_map_distinct(s: Seq<Item>)
    requires
        distinct_ids(s),
    ensures
        items_map_of(s).dom().finite(),
        items_map_of(s).len() == s.len(),
        forall|i: int| 0 <= i < s.len() ==> items_map_of(s).dom().contains(
            (#[trigger] s[i]).id,
        ) && items_map_of(s)[s[i].id] == s[i]@,
    decreases s.len(),
{
    lemma_items_map_contains(s, 0);
    if s.len() > 0 {
        let s0 = s.drop_last();
        let x = s.last();
        assert(distinct_ids(s0)) by {
            assert(forall|i: int, j: int| 0 <= i < j < s0.len() ==> s0[i] == s[i] && s0[j]
                == s[j]);
        }
        lemma_items_map_distinct(s0);
        lemma_items_map_contains(s0, x.id);
        assert(!items_map_of(s0).dom().contains(x.id)) by {
            if items_map_of(s0).dom().contains(x.id) {
                let i = choose|i: int| 0 <= i < s0.len() && s0[i].id == x.id;
                assert(s[i].id == s[s.len() - 1].id);
            }
        }
        assert(items_map_of(s) == items_map_of(s0).insert(x.id, x@));
        assert(items_map_of(s).dom() =~= items_map_of(s0).dom().insert(x.id));
        vstd::set::axiom_set_insert_len(items_map_of(s0).dom(), x.id);
        assert forall|i: int| 0 <= i < s.len() implies items_map_of(s).dom().contains(
            (#[trigger] s[i]).id,
        ) && items_map_of(s)[s[i].id] == s[i]@ by {
            if i < s.len() - 1 {
                assert(s0[i] == s[i]);
                assert(s[i].id != x.id);
            } else {
                assert(s[i] == x);
            }
        }
    }
}

/// Replacing the record that carries an identifier updates exactly that
/// identifier's binding.
pub proof fn lemma_items_map_update(s: Seq<Item>, k: int, x: Item)
    requires
        distinct_ids(s),
        0 <= k < s.len(),
        x.id == s[k].id,
    ensures
        items_map_of(s.update(k, x)) == items_map_of(s).insert(x.id, x@),
        distinct_ids(s.update(k, x)),
    decreases s.len(),
{
    let s2 = s.update(k, x);
    assert(distinct_ids(s2)) by {
        assert(forall|i: int| 0 <= i < s.len() && i != k ==> s2[i] == s[i]);
        assert(s2[k] == x);
    }
    let s0 = s.drop_last();
    assert(distinct_ids(s0)) by {
        assert(forall|i: int| 0 <= i < s0.len() ==> s0[i] == s[i]);
    }
    if k == s.len() - 1 {
        assert(s2.drop_last() =~= s0);
        assert(s2.last() == x);
        lemma_items_map_contains(s0, x.id);
        assert(!items_map_of(s0).dom().contains(x.id)) by {
            if items_map_of(s0).dom().contains(x.id) {
                let i = choose|i: int| 0 <= i < s0.len() && s0[i].id == x.id;
                assert(s[i].id == s[k].id);
            }
        }
        lemma_items_map_contains(s, x.id);
        assert(items_map_of(s) == items_map_of(s0).insert(x.id, s[k]@));
        assert(items_map_of(s2) =~= items_map_of(s).insert(x.id, x@));
    } else {
        assert(s2.drop_last() =~= s0.update(k, x));
        assert(s2.last() == s.last());
        lemma_items_map_update(s0, k, x);
        lemma_items_map_contains(s0, s.last().id);
        lemma_items_map_contains(s0.update(k, x), s.last().id);
        assert(s.last().id != x.id) by {
            assert(s[s.len() - 1].id != s[k].id);
        }
        assert(items_map_of(s0.update(k, x)).dom().contains(s.last().id)
            == items_map_of(s0).dom().contains(s.last().id)) by {
            assert(forall|i: int| 0 <= i < s0.len() && i != k ==> s0.update(k, x)[i] == s0[i]);
            assert(s0.update(k, x)[k] == x);
            if items_map_of(s0).dom().contains(s.last().id) {
                let i = choose|i: int| 0 <= i < s0.len() && s0[i].id == s.last().id;
                assert(i != k);
                assert(s0.update(k, x)[i].id == s.last().id);
            } else if items_map_of(s0.update(k, x)).dom().contains(s.last().id) {
                let i = choose|i: int|
                    0 <= i < s0.len() && s0.update(k, x)[i].id == s.last().id;
                assert(i != k);
                assert(s0[i].id == s.last().id);
            }
        }
        assert(!items_map_of(s0).dom().contains(s.last().id)) by {
            if items_map_of(s0).dom().contains(s.last().id) {
                let i = choose|i: int| 0 <= i < s0.len() && s0[i].id == s.last().id;
                assert(s[i].id == s[s.len() - 1].id);
            }
        }
        assert(items_map_of(s2) =~= items_map_of(s).insert(x.id, x@));
    }
}

/// Appending a record with a fresh identifier inserts exactly its
/// binding.
pub proof fn lemma_items_map_push(s: Seq<Item>, x: Item)
    requires
        distinct_ids(s),
        forall|i: int| 0 <= i < s.len() ==> (#[trigger] s[i]).id != x.id,
    ensures
        items_map_of(s.push(x)) == items_map_of(s).insert(x.id, x@),
        distinct_ids(s.push(x)),
{
    assert(s.push(x).drop_last() =~= s);
    assert(s.push(x).last() == x);
    lemma_items_map_contains(s, x.id);
    assert(distinct_ids(s.push(x))) by {
        assert(forall|i: int| 0 <= i < s.len() ==> s.push(x)[i] == s[i]);
        assert(s.push(x)[s.len() as int] == x);
    }
}

/// Removing the record that carries an identifier removes exactly that
/// identifier's binding.
pub proof fn lemma_items_map_remove(s: Seq<Item>, k: int)
    requires
        distinct_ids(s),
        0 <= k < s.len(),
    ensures
        items_map_of(s.remove(k)) == items_map_of(s).remove(s[k].id),
        distinct_ids(s.remove(k)),
    decreases s.len(),
{
    let s2 = s.remove(k);
    assert(distinct_ids(s2)) by {
        assert(forall|i: int| 0 <= i < k ==> s2[i] == s[i]);
        assert(forall|i: int| k <= i < s2.len() ==> s2[i] == s[i + 1]);
    }
    let s0 = s.drop_last();
    assert(distinct_ids(s0)) by {
        assert(forall|i: int| 0 <= i < s0.len() ==> s0[i] == s[i]);
    }
    lemma_items_map_contains(s0, s.last().id);
    assert(!items_map_of(s0).dom().contains(s.last().id)) by {
        if items_map_of(s0).dom().contains(s.last().id) {
            let i = choose|i: int| 0 <= i < s0.len() && s0[i].id == s.last().id;
            assert(s[i].id == s[s.len() - 1].id);
        }
    }
    if k == s.len() - 1 {
        assert(s2 =~= s0);
        assert(items_map_of(s) == items_map_of(s0).insert(s.last().id, s.last()@));
        assert(items_map_of(s2) =~= items_map_of(s).remove(s[k].id));
    } else {
        assert(s2.drop_last() =~= s0.remove(k));
        assert(s2.last() == s.last());
        lemma_items_map_remove(s0, k);
        lemma_items_map_contains(s0.remove(k), s.last().id);
        assert(!items_map_of(s0.remove(k)).dom().contains(s.last().id)) by {
            if items_map_of(s0.remove(k)).dom().contains(s.last().id) {
                let i = choose|i: int|
                    0 <= i < s0.remove(k).len() && s0.remove(k)[i].id == s.last().id;
                if i < k {
                    assert(s[i].id == s[s.len() - 1].id);
                } else {
                    assert(s[i + 1].id == s[s.len() - 1].id);
                }
            }
        }
        assert(s.last().id != s[k].id) by {
            assert(s[k].id != s[s.len() - 1].id);
        }
        assert(items_map_of(s2) =~= items_map_of(s).remove(s[k].id));
    }
}

/// The records of the named collection: those of the first collection
/// carrying the name, or the empty map when none does.
pub open spec fn cols_db_at(cols: Seq<Collection>, c: Seq<char>) -> Map<u64, ItemView>
    decreases cols.len(),
{
    if cols.len() == 0 {
        Map::empty()
    } else if cols[0].name@ == c {
        items_map_of(cols[0].items@)
    } else {
        cols_db_at(cols.skip(1), c)
    }
}

/// The named collection's records are those of the first collection
/// carrying the name.
pub proof fn lemma_cols_db_at_found(cols: Seq<Collection>, c: Seq<char>, k: int)
    requires
        0 <= k < cols.len(),
        cols[k].name@ == c,
        forall|j: int| 0 <= j < k ==> (#[trigger] cols[j]).name@ != c,
    ensures
        cols_db_at(cols, c) == items_map_of(cols[k].items@),
    decreases k,
{
    if k > 0 {
        assert(cols.skip(1)[k - 1] == cols[k]);
        assert forall|j: int| 0 <= j < k - 1 implies (#[trigger] cols.skip(1)[j]).name@
            != c by {
            assert(cols.skip(1)[j] == cols[j + 1]);
        }
        lemma_cols_db_at_found(cols.skip(1), c, k - 1);
    }
}

/// A name no collection carries is bound to the empty map.
pub proof fn lemma_cols_db_at_absent(cols: Seq<Collection>, c: Seq<char>)
    requires
        forall|j: int| 0 <= j < cols.len() ==> (#[trigger] cols[j]).name@ != c,
    ensures
        cols_db_at(cols, c) == Map::<u64, ItemView>::empty(),
    decreases cols.len(),
{
    if cols.len() > 0 {
        assert forall|j: int| 0 <= j < cols.skip(1).len() implies (#[trigger] cols.skip(
            1,
        )[j]).name@ != c by {
            assert(cols.skip(1)[j] == cols[j + 1]);
        }
        lemma_cols_db_at_absent(cols.skip(1), c);
    }
}

/// Replacing the first collection that carries a name rebinds exactly
/// that name.
pub proof fn lemma_cols_db_at_update(cols: Seq<Collection>, k: int, col: Collection)
    requires
        0 <= k < cols.len(),
        col.name@ == cols[k].name@,
        forall|j: int| 0 <= j < k ==> (#[trigger] cols[j]).name@ != cols[k].name@,
    ensures
        cols_db_at(cols.update(k, col), col.name@) == items_map_of(col.items@),
        forall|c: Seq<char>|
            c != col.name@ ==> cols_db_at(cols.update(k, col), c) == cols_db_at(cols, c),
    decreases cols.len(),
{
    let cols2 = cols.update(k, col);
    assert(cols2[k] == col);
    assert forall|j: int| 0 <= j < k implies (#[trigger] cols2[j]).name@ != col.name@ by {
        assert(cols2[j] == cols[j]);
    }
    lemma_cols_db_at_found(cols2, col.name@, k);
    assert forall|c: Seq<char>| c != col.name@ implies cols_db_at(cols2, c) == cols_db_at(
        cols,
        c,
    ) by {
        lemma_cols_db_at_other(cols, k, col, c);
    }
}

/// Helper for `lemma_cols_db_at_update`: names other than the replaced
/// collection's are untouched.
proof fn lemma_cols_db_at_other(cols: Seq<Collection>, k: int, col: Collection, c: Seq<char>)
    requires
        0 <= k < cols.len(),
        col.name@ == cols[k].name@,
        c != col.name@,
    ensures
        cols_db_at(cols.update(k, col), c) == cols_db_at(cols, c),
    decreases cols.len(),
{
    let cols2 = cols.update(k, col);
    if k == 0 {
        assert(cols2[0] == col);
        assert(cols2.skip(1) =~= cols.skip(1));
    } else {
        assert(cols2[0] == cols[0]);
        assert(cols2.skip(1) =~= cols.skip(1).update(k - 1, col));
        assert(cols.skip(1)[k - 1] == cols[k]);
        lemma_cols_db_at_other(cols.skip(1), k - 1, col, c);
    }
}

/// Appending a collection with a fresh name binds exactly that name.
pub proof fn lemma_cols_db_at_push(cols: Seq<Collection>, col: Collection)
    requires
        forall|j: int| 0 <= j < cols.len() ==> (#[trigger] cols[j]).name@ != col.name@,
    ensures
        cols_db_at(cols.push(col), col.name@) == items_map_of(col.items@),
        forall|c: Seq<char>|
            c != col.name@ ==> cols_db_at(cols.push(col), c) == cols_db_at(cols, c),
    decreases cols.len(),
{
    let cols2 = cols.push(col);
    lemma_cols_db_at_found(cols2, col.name@, cols.len() as int);
    assert forall|c: Seq<char>| c != col.name@ implies cols_db_at(cols2, c) == cols_db_at(
        cols,
        c,
    ) by {
        lemma_cols_db_at_push_other(cols, col, c);
    }
}

/// Helper for `lemma_cols_db_at_push`: other names are untouched.
proof fn lemma_cols_db_at_push_other(cols: Seq<Collection>, col: Collection, c: Seq<char>)
    requires
        c != col.name@,
    ensures
        cols_db_at(cols.push(col), c) == cols_db_at(cols, c),
    decreases cols.len(),
{
    let cols2 = cols.push(col);
    if cols.len() == 0 {
        assert(cols2[0] == col);
        assert(cols2.skip(1) =~= Seq::<Collection>::empty());
        assert(cols_db_at(Seq::<Collection>::empty(), c) =~= Map::<u64, ItemView>::empty());
        assert(cols_db_at(cols, c) =~= Map::<u64, ItemView>::empty());
    } else {
        assert(cols2[0] == cols[0]);
        assert(cols2.skip(1) =~= cols.skip(1).push(col));
        lemma_cols_db_at_push_other(cols.skip(1), col, c);
    }
}


/// The state value held under a key: that of the first slot carrying the
/// key, or absent when none does.
pub open spec fn states_at(slots: Seq<StateSlot>, k: Seq<char>) -> Option<ItemView>
    decreases slots.len(),
{
    if slots.len() == 0 {
        None
    } else if slots[0].key@ == k {
        opt_item_view(slots[0].value)
    } else {
        states_at(slots.skip(1), k)
    }
}

/// The key's value is that of the first slot carrying it.
pub proof fn lemma_states_at_found(slots: Seq<StateSlot>, k: Seq<char>, idx: int)
    requires
        0 <= idx < slots.len(),
        slots[idx].key@ == k,
        forall|j: int| 0 <= j < idx ==> (#[trigger] slots[j]).key@ != k,
    ensures
        states_at(slots, k) == opt_item_view(slots[idx].value),
    decreases idx,
{
    if idx > 0 {
        assert(slots.skip(1)[idx - 1] == slots[idx]);
        assert forall|j: int| 0 <= j < idx - 1 implies (#[trigger] slots.skip(1)[j]).key@
            != k by {
            assert(slots.skip(1)[j] == slots[j + 1]);
        }
        lemma_states_at_found(slots.skip(1), k, idx - 1);
    }
}

/// A key no slot carries has no value.
pub proof fn lemma_states_at_absent(slots: Seq<StateSlot>, k: Seq<char>)
    requires
        forall|j: int| 0 <= j < slots.len() ==> (#[trigger] slots[j]).key@ != k,
    ensures
        states_at(slots, k) == None::<ItemView>,
    decreases slots.len(),
{
    if slots.len() > 0 {
        assert forall|j: int| 0 <= j < slots.skip(1).len() implies (#[trigger] slots.skip(
            1,
        )[j]).key@ != k by {
            assert(slots.skip(1)[j] == slots[j + 1]);
        }
        lemma_states_at_absent(slots.skip(1), k);
    }
}

/// Replacing the first slot that carries a key rebinds exactly that key.
pub proof fn lemma_states_at_update(slots: Seq<StateSlot>, idx: int, slot: StateSlot)
    requires
        0 <= idx < slots.len(),
        slot.key@ == slots[idx].key@,
        forall|j: int| 0 <= j < idx ==> (#[trigger] slots[j]).key@ != slots[idx].key@,
    ensures
        states_at(slots.update(idx, slot), slot.key@) == opt_item_view(slot.value),
        forall|k: Seq<char>|
            k != slot.key@ ==> states_at(slots.update(idx, slot), k) == states_at(slots, k),
{
    let slots2 = slots.update(idx, slot);
    assert(slots2[idx] == slot);
    assert forall|j: int| 0 <= j < idx implies (#[trigger] slots2[j]).key@ != slot.key@ by {
        assert(slots2[j] == slots[j]);
    }
    lemma_states_at_found(slots2, slot.key@, idx);
    assert forall|k: Seq<char>| k != slot.key@ implies states_at(slots2, k) == states_at(
        slots,
        k,
    ) by {
        lemma_states_at_other(slots, idx, slot, k);
    }
}

/// Helper for `lemma_states_at_update`: other keys are untouched.
proof fn lemma_states_at_other(slots: Seq<StateSlot>, idx: int, slot: StateSlot, k: Seq<char>)
    requires
        0 <= idx < slots.len(),
        slot.key@ == slots[idx].key@,
        k != slot.key@,
    ensures
        states_at(slots.update(idx, slot), k) == states_at(slots, k),
    decreases slots.len(),
{
    let slots2 = slots.update(idx, slot);
    if idx == 0 {
        assert(slots2[0] == slot);
        assert(slots2.skip(1) =~= slots.skip(1));
    } else {
        assert(slots2[0] == slots[0]);
        assert(slots2.skip(1) =~= slots.skip(1).update(idx - 1, slot));
        assert(slots.skip(1)[idx - 1] == slots[idx]);
        lemma_states_at_other(slots.skip(1), idx - 1, slot, k);
    }
}

/// Appending a slot with a fresh key binds exactly that key.
pub proof fn lemma_states_at_push(slots: Seq<StateSlot>, slot: StateSlot)
    requires
        forall|j: int| 0 <= j < slots.len() ==> (#[trigger] slots[j]).key@ != slot.key@,
    ensures
        states_at(slots.push(slot), slot.key@) == opt_item_view(slot.value),
        forall|k: Seq<char>|
            k != slot.key@ ==> states_at(slots.push(slot), k) == states_at(slots, k),
{
    let slots2 = slots.push(slot);
    lemma_states_at_found(slots2, slot.key@, slots.len() as int);
    assert forall|k: Seq<char>| k != slot.key@ implies states_at(slots2, k) == states_at(
        slots,
        k,
    ) by {
        lemma_states_at_push_other(slots, slot, k);
    }
}

/// Helper for `lemma_states_at_push`: other keys are untouched.
proof fn lemma_states_at_push_other(slots: Seq<StateSlot>, slot: StateSlot, k: Seq<char>)
    requires
        k != slot.key@,
    ensures
        states_at(slots.push(slot), k) == states_at(slots, k),
    decreases slots.len(),
{
    let slots2 = slots.push(slot);
    if slots.len() == 0 {
        assert(slots2[0] == slot);
        assert(slots2.skip(1) =~= Seq::<StateSlot>::empty());
        assert(states_at(Seq::<StateSlot>::empty(), k) == None::<ItemView>);
        assert(states_at(slots, k) == None::<ItemView>);
    } else {
        assert(slots2[0] == slots[0]);
        assert(slots2.skip(1) =~= slots.skip(1).push(slot));
        lemma_states_at_push_other(slots.skip(1), slot, k);
    }
}

/// Find the first collection carrying a name.
fn find_collection(cols: &Vec<Collection>, collection: &str) -> (r: Option<usize>)
    ensures
        match r {
            Some(k) => k < cols@.len() && cols@[k as int].name@ == collection@ && forall|j: int|
                0 <= j < k ==> (#[trigger] cols@[j]).name@ != collection@,
            None => forall|j: int|
                0 <= j < cols@.len() ==> (#[trigger] cols@[j]).name@ != collection@,
        },
{
    let n = cols.len();
    let mut i: usize = 0;
    while i < n
        invariant
            n == cols@.len(),
            0 <= i <= n,
            forall|j: int| 0 <= j < i ==> (#[trigger] cols@[j]).name@ != collection@,
        decreases n - i,
    {
        if str_eq(cols[i].name.as_str(), collection) {
            return Some(i);
        }
        i = i + 1;
    }
    None
}

/// Find the first record carrying an identifier.
fn find_item(items: &Vec<Item>, id: u64) -> (r: Option<usize>)
    ensures
        match r {
            Some(k) => k < items@.len() && items@[k as int].id == id && forall|j: int|
                0 <= j < k ==> (#[trigger] items@[j]).id != id,
            None => forall|j: int| 0 <= j < items@.len() ==> (#[trigger] items@[j]).id != id,
        },
{
    let n = items.len();
    let mut i: usize = 0;
    while i < n
        invariant
            n == items@.len(),
            0 <= i <= n,
            forall|j: int| 0 <= j < i ==> (#[trigger] items@[j]).id != id,
        decreases n - i,
    {
        if items[i].id == id {
            return Some(i);
        }
        i = i + 1;
    }
    None
}

/// Find the first slot carrying a key.
fn find_state(slots: &Vec<StateSlot>, key: &str) -> (r: Option<usize>)
    ensures
        match r {
            Some(k) => k < slots@.len() && slots@[k as int].key@ == key@ && forall|j: int|
                0 <= j < k ==> (#[trigger] slots@[j]).key@ != key@,
            None => forall|j: int| 0 <= j < slots@.len() ==> (#[trigger] slots@[j]).key@ != key@,
        },
{
    let n = slots.len();
    let mut i: usize = 0;
    while i < n
        invariant
            n == slots@.len(),
            0 <= i <= n,
            forall|j: int| 0 <= j < i ==> (#[trigger] slots@[j]).key@ != key@,
        decreases n - i,
    {
        if str_eq(slots[i].key.as_str(), key) {
            return Some(i);
        }
        i = i + 1;
    }
    None
}

/// Clone every record of a page, keeping views and identifiers.
fn clone_items(items: &Vec<Item>) -> (r: Vec<Item>)
    ensures
        r@.len() == items@.len(),
        forall|i: int| 0 <= i < items@.len() ==> (#[trigger] r@[i])@ == items@[i]@ && r@[i].id
            == items@[i].id,
{
    let n = items.len();
    let mut r: Vec<Item> = Vec::new();
    let mut i: usize = 0;
    while i < n
        invariant
            n == items@.len(),
            0 <= i <= n,
            r@.len() == i,
            forall|i2: int| 0 <= i2 < i ==> (#[trigger] r@[i2])@ == items@[i2]@ && r@[i2].id
                == items@[i2].id,
        decreases n - i,
    {
        r.push(items[i].clone());
        i = i + 1;
    }
    r
}

/// The merge written by `set_item` under a field-level merge: the
/// proposed record's identifier, the old record's fields overridden by
/// the proposed ones.
fn merge_items(old_itm: &Item, new_itm: &Item) -> (r: Item)
    ensures
        r@.id == new_itm@.id,
        r@.fields == old_itm@.fields.union_prefer_right(new_itm@.fields),
{
    let mut acc = new_itm.clone();
    let ghost old_views = field_views(old_itm.fields@);
    let n = old_itm.fields.len();
    let mut i: usize = 0;
    proof {
        assert(old_views.take(0) =~= Seq::<crate::items::FieldView>::empty());
        assert(acc@.fields =~= fields_map_of(old_views.take(0)).union_prefer_right(
            new_itm@.fields,
        ));
    }
    while i < n
        invariant
            n == old_itm.fields@.len(),
            0 <= i <= n,
            old_views == field_views(old_itm.fields@),
            acc@.id == new_itm@.id,
            acc@.fields == fields_map_of(old_views.take(i as int)).union_prefer_right(
                new_itm@.fields,
            ),
        decreases n - i,
    {
        let present = acc.get_field(old_itm.fields[i].name.as_str()).is_some();
        let ghost acc_views = field_views(acc.fields@);
        let ghost acc_map = acc@.fields;
        let ghost fv = old_views[i as int];
        let ghost a_lo = fields_map_of(old_views.take(i as int));
        proof {
            assert(fv == old_itm.fields@[i as int]@);
            assert(old_views.take(i + 1) =~= old_views.take(i as int).push(fv));
            lemma_fields_map_push(old_views.take(i as int), fv);
            lemma_fields_map_contains(old_views.take(i as int), fv.name);
            assert(present == acc_map.dom().contains(fv.name));
            assert(acc_map.dom().contains(fv.name) == (a_lo.dom().contains(fv.name)
                || new_itm@.fields.dom().contains(fv.name)));
        }
        if !present {
            acc.fields.push(old_itm.fields[i].clone());
            proof {
                assert(field_views(acc.fields@) =~= acc_views.push(fv));
                lemma_fields_map_push(acc_views, fv);
                lemma_fields_map_contains(acc_views, fv.name);
                assert(acc@.fields == acc_map.insert(fv.name, fv.value));
                assert(fields_map_of(old_views.take(i + 1)) == a_lo.insert(fv.name, fv.value));
                assert(acc@.fields =~= fields_map_of(old_views.take(i + 1)).union_prefer_right(
                    new_itm@.fields,
                ));
            }
        } else {
            proof {
                if a_lo.dom().contains(fv.name) {
                    assert(fields_map_of(old_views.take(i + 1)) == a_lo);
                } else {
                    assert(fields_map_of(old_views.take(i + 1)) == a_lo.insert(
                        fv.name,
                        fv.value,
                    ));
                    assert(new_itm@.fields.dom().contains(fv.name));
                    assert(acc@.fields =~= fields_map_of(
                        old_views.take(i + 1),
                    ).union_prefer_right(new_itm@.fields));
                }
            }
        }
        i = i + 1;
    }
    proof {
        assert(old_views.take(n as int) =~= old_views);
    }
    acc
}


/// How many records of the sequence carry an identifier in the inclusive
/// range.
pub open spec fn count_in_range(s: Seq<Item>, id_min: u64, id_max: u64) -> nat
    decreases s.len(),
{
    if s.len() == 0 {
        0
    } else {
        count_in_range(s.drop_last(), id_min, id_max) + if id_min <= s.last().id && s.last().id
            <= id_max {
            1nat
        } else {
            0nat
        }
    }
}

/// With distinct identifiers, the identifiers of the record map that fall
/// in a range are as many as the records in that range.
pub proof fn lemma_range_count(s: Seq<Item>, id_min: u64, id_max: u64)
    requires
        distinct_ids(s),
    ensures
        keys_in_range(items_map_of(s), id_min, id_max).finite(),
        keys_in_range(items_map_of(s), id_min, id_max).len() == count_in_range(s, id_min, id_max),
    decreases s.len(),
{
    if s.len() == 0 {
        assert(items_map_of(s).dom() =~= Set::<u64>::empty());
        assert(keys_in_range(items_map_of(s), id_min, id_max) =~= Set::<u64>::empty());
        broadcast use vstd::set::axiom_set_empty_len;
    } else {
        let s0 = s.drop_last();
        let x = s.last();
        assert(distinct_ids(s0)) by {
            assert(forall|i: int| 0 <= i < s0.len() ==> s0[i] == s[i]);
        }
        lemma_range_count(s0, id_min, id_max);
        lemma_items_map_contains(s0, x.id);
        assert(!items_map_of(s0).dom().contains(x.id)) by {
            if items_map_of(s0).dom().contains(x.id) {
                let i = choose|i: int| 0 <= i < s0.len() && s0[i].id == x.id;
                assert(s[i].id == s[s.len() - 1].id);
            }
        }
        let f0 = keys_in_range(items_map_of(s0), id_min, id_max);
        let f1 = keys_in_range(items_map_of(s), id_min, id_max);
        assert(items_map_of(s).dom() =~= items_map_of(s0).dom().insert(x.id));
        if id_min <= x.id && x.id <= id_max {
            assert(f1 =~= f0.insert(x.id));
            assert(!f0.contains(x.id));
            vstd::set::axiom_set_insert_len(f0, x.id);
        } else {
            assert(f1 =~= f0);
        }
    }
}

/// The verified in-memory host.
pub struct MemoryHost {
    collections: Vec<Collection>,
    settings: Item,
    public_url: String,
    salt: String,
    token: String,
    emails: Vec<EmailEntry>,
    calendar: Vec<CalendarEntry>,
    states: Vec<StateSlot>,
}

impl MemoryHost {
    /// Collection names unique, record identifiers unique within each
    /// collection, state keys unique.
    #[verifier::type_invariant]
    spec fn wf(self) -> bool {
        &&& forall|i: int, j: int|
            0 <= i < j < self.collections@.len() ==> (#[trigger] self.collections@[i]).name@ != (
            #[trigger] self.collections@[j]).name@
        &&& forall|i: int|
            0 <= i < self.collections@.len() ==> distinct_ids(
                (#[trigger] self.collections@[i]).items@,
            )
        &&& forall|i: int, j: int|
            0 <= i < j < self.states@.len() ==> (#[trigger] self.states@[i]).key@ != (
            #[trigger] self.states@[j]).key@
    }

    /// An empty host: no collections, default settings record, empty
    /// globals, no state, nothing sent.
    pub fn new() -> (r: MemoryHost)
        ensures
            forall|c: Seq<char>| r.db_at(c) == Map::<u64, ItemView>::empty(),
            r.settings_view() == (ItemView { id: 0, fields: Map::empty() }),
            r.public_url_view() == Seq::<char>::empty(),
            forall|k: Seq<char>| r.state_at(k) == None::<ItemView>,
            r.emails() == Seq::<EmailView>::empty(),
            r.calendar() == Seq::<CalendarEventView>::empty(),
    {
        let r = MemoryHost {
            collections: Vec::new(),
            settings: Item::new(0),
            public_url: String::new(),
            salt: String::new(),
            token: String::new(),
            emails: Vec::new(),
            calendar: Vec::new(),
            states: Vec::new(),
        };
        proof {
            assert forall|c: Seq<char>| r.db_at(c) == Map::<u64, ItemView>::empty() by {
                lemma_cols_db_at_absent(r.collections@, c);
            }
            assert forall|k: Seq<char>| r.state_at(k) == None::<ItemView> by {
                lemma_states_at_absent(r.states@, k);
            }
            assert(r.emails() =~= Seq::<EmailView>::empty());
            assert(r.calendar() =~= Seq::<CalendarEventView>::empty());
        }
        r
    }

    /// Replace the process-wide settings record.
    pub fn set_settings(&mut self, itm: Item)
        ensures
            final(self).settings_view() == itm@,
            forall|c: Seq<char>| final(self).db_at(c) == old(self).db_at(c),
            final(self).public_url_view() == old(self).public_url_view(),
            forall|k: Seq<char>| final(self).state_at(k) == old(self).state_at(k),
            final(self).emails() == old(self).emails(),
            final(self).calendar() == old(self).calendar(),
    {
        proof {
            use_type_invariant(&*self);
        }
        self.settings = itm;
    }

    /// Set the public base URL.
    pub fn set_public_url(&mut self, url: String)
        ensures
            final(self).public_url_view() == url@,
            forall|c: Seq<char>| final(self).db_at(c) == old(self).db_at(c),
            final(self).settings_view() == old(self).settings_view(),
            forall|k: Seq<char>| final(self).state_at(k) == old(self).state_at(k),
            final(self).emails() == old(self).emails(),
            final(self).calendar() == old(self).calendar(),
    {
        proof {
            use_type_invariant(&*self);
        }
        self.public_url = url;
    }

    /// Set the salt that `auth_get_new_salt` hands out.
    pub fn set_salt(&mut self, salt: String)
        ensures
            forall|c: Seq<char>| final(self).db_at(c) == old(self).db_at(c),
            final(self).settings_view() == old(self).settings_view(),
            final(self).public_url_view() == old(self).public_url_view(),
            forall|k: Seq<char>| final(self).state_at(k) == old(self).state_at(k),
            final(self).emails() == old(self).emails(),
            final(self).calendar() == old(self).calendar(),
    {
        proof {
            use_type_invariant(&*self);
        }
        self.salt = salt;
    }

    /// How many emails the host has been asked to send.
    pub fn email_count(&self) -> (r: usize)
        ensures
            r == self.emails().len(),
    {
        self.emails.len()
    }

    /// How many calendar synchronisations have been requested.
    pub fn calendar_count(&self) -> (r: usize)
        ensures
            r == self.calendar().len(),
    {
        self.calendar.len()
    }

    /// Set the token that the calendar integration hands out.
    pub fn set_calendar_token(&mut self, token: String)
        ensures
            forall|c: Seq<char>| final(self).db_at(c) == old(self).db_at(c),
            final(self).settings_view() == old(self).settings_view(),
            final(self).public_url_view() == old(self).public_url_view(),
            forall|k: Seq<char>| final(self).state_at(k) == old(self).state_at(k),
            final(self).emails() == old(self).emails(),
            final(self).calendar() == old(self).calendar(),
    {
        proof {
            use_type_invariant(&*self);
        }
        self.token = token;
    }
}

impl PluginApi for MemoryHost {
    closed spec fn db_at(&self, collection: Seq<char>) -> Map<u64, ItemView> {
        cols_db_at(self.collections@, collection)
    }

    closed spec fn settings_view(&self) -> ItemView {
        self.settings@
    }

    closed spec fn public_url_view(&self) -> Seq<char> {
        self.public_url@
    }

    closed spec fn state_at(&self, hndl: Seq<char>) -> Option<ItemView> {
        states_at(self.states@, hndl)
    }

    closed spec fn emails(&self) -> Seq<EmailView> {
        self.emails@.map_values(|e: EmailEntry| e@)
    }

    closed spec fn calendar(&self) -> Seq<CalendarEventView> {
        self.calendar@.map_values(|e: CalendarEntry| e@)
    }

    closed spec fn check_role_spec(&self, user: Option<ItemView>, role: Seq<char>) -> bool {
        match user {
            Some(u) => u.fields.dom().contains(role) && u.fields[role] == FieldValueView::Flag(
                true,
            ),
            None => false,
        }
    }

    closed spec fn hash_spec(&self, pw: Seq<char>, salt: Seq<char>) -> Seq<char> {
        salt + pw
    }

    closed spec fn verify_spec(&self, pw: Seq<char>, hash: Seq<char>) -> bool {
        hash.len() >= pw.len() && hash.subrange(
            hash.len() - pw.len(),
            hash.len() as int,
        ) == pw
    }

    proof fn hash_verifies(&self, pw: Seq<char>, salt: Seq<char>) {
        assert((salt + pw).subrange(salt.len() as int, (salt + pw).len() as int) =~= pw);
    }

    fn db_get_all_items(&self, collection: &str, sort_key: &str, filter: &str) -> (r: ListResult) {
        proof {
            use_type_invariant(&*self);
        }
        match find_collection(&self.collections, collection) {
            Some(k) => {
                proof {
                    lemma_cols_db_at_found(self.collections@, collection@, k as int);
                    lemma_items_map_distinct(self.collections@[k as int].items@);
                }
                let items = clone_items(&self.collections[k].items);
                let total = items.len() as u64;
                proof {
                    let m = self.db_at(collection@);
                    let src = self.collections@[k as int].items@;
                    assert forall|k2: u64| #[trigger] m.dom().contains(k2) implies exists|i: int|
                        0 <= i < crate::items::item_views(items@).len()
                            && crate::items::item_views(items@)[i].id == k2 by {
                        lemma_items_map_contains(src, k2);
                        let i = choose|i: int| 0 <= i < src.len() && src[i].id == k2;
                        assert(crate::items::item_views(items@)[i].id == k2);
                    }
                    assert(lists_exactly(crate::items::item_views(items@), m));
                }
                ListResult { items, total_count: total }
            },
            None => {
                proof {
                    lemma_cols_db_at_absent(self.collections@, collection@);
                    assert(Map::<u64, ItemView>::empty().dom() =~= Set::<u64>::empty());
                    broadcast use vstd::set::axiom_set_empty_len;
                    assert(crate::items::item_views(Seq::<Item>::empty()) =~= Seq::<
                        ItemView,
                    >::empty());
                }
                ListResult { items: Vec::new(), total_count: 0 }
            },
        }
    }

    fn db_get_items(
        &self,
        collection: &str,
        id_min: u64,
        id_max: u64,
        sort_key: &str,
        filter: &str,
        skip: u64,
        limit: u64,
    ) -> (r: ListResult) {
        proof {
            use_type_invariant(&*self);
        }
        match find_collection(&self.collections, collection) {
            Some(k) => {
                proof {
                    lemma_cols_db_at_found(self.collections@, collection@, k as int);
                }
                let items = &self.collections[k].items;
                let ghost m = self.db_at(collection@);
                let n = items.len();
                let mut page: Vec<Item> = Vec::new();
                let mut total: u64 = 0;
                let mut i: usize = 0;
                proof {
                    assert(items@.take(0) =~= Seq::<Item>::empty());
                }
                while i < n
                    invariant
                        n == items@.len(),
                        0 <= i <= n,
                        total <= i,
                        m == items_map_of(items@),
                        distinct_ids(items@),
                        total == count_in_range(items@.take(i as int), id_min, id_max),
                        page@.len() == page_len(total as nat, skip, limit),
                        page_of(crate::items::item_views(page@), m, id_min, id_max),
                        forall|a: int| 0 <= a < page@.len() ==> exists|j: int|
                            0 <= j < i && (#[trigger] page@[a]).id == items@[j].id,
                    decreases n - i,
                {
                    let ghost page_pre = page@;
                    proof {
                        assert(items@.take(i + 1).drop_last() =~= items@.take(i as int));
                        assert(items@.take(i + 1).last() == items@[i as int]);
                    }
                    if id_min <= items[i].id && items[i].id <= id_max {
                        if total >= skip && (page.len() as u64) < limit {
                            page.push(items[i].clone());
                            proof {
                                lemma_items_map_distinct(items@);
                                assert(page@[page_pre.len() as int].id == items@[i as int].id);
                                assert forall|a: int| 0 <= a < page@.len() implies exists|j: int|
                                    0 <= j < i + 1 && (#[trigger] page@[a]).id
                                        == items@[j].id by {
                                    if a < page_pre.len() {
                                        assert(page@[a] == page_pre[a]);
                                        let j = choose|j: int|
                                            0 <= j < i && page_pre[a].id == items@[j].id;
                                        assert(page@[a].id == items@[j].id);
                                    } else {
                                        assert(page@[a].id == items@[i as int].id);
                                    }
                                }
                                assert forall|a: int, b: int|
                                    0 <= a < b < crate::items::item_views(page@).len() implies
                                    crate::items::item_views(page@)[a].id
                                        != crate::items::item_views(page@)[b].id by {
                                    assert(page@[a] == page_pre[a]);
                                    if b == page_pre.len() {
                                        let j = choose|j: int|
                                            0 <= j < i && page_pre[a].id == items@[j].id;
                                        assert(items@[j].id != items@[i as int].id);
                                        assert(page@[b].id == items@[i as int].id);
                                    } else {
                                        assert(page@[b] == page_pre[b]);
                                        assert(crate::items::item_views(page_pre)[a].id
                                            != crate::items::item_views(page_pre)[b].id);
                                    }
                                }
                                assert forall|a: int|
                                    0 <= a < crate::items::item_views(page@).len() implies {
                                    let pv = #[trigger] crate::items::item_views(page@)[a];
                                    &&& id_min <= pv.id && pv.id <= id_max
                                    &&& m.dom().contains(pv.id)
                                    &&& pv == m[pv.id]
                                } by {
                                    if a < page_pre.len() {
                                        assert(page@[a] == page_pre[a]);
                                        let pv0 = crate::items::item_views(page_pre)[a];
                                        assert(pv0 == page_pre[a]@);
                                        assert(id_min <= pv0.id && pv0.id <= id_max);
                                        assert(m.dom().contains(pv0.id) && pv0 == m[pv0.id]);
                                    } else {
                                        assert(page@[a]@ == items@[i as int]@);
                                        assert(m.dom().contains(items@[i as int].id));
                                        assert(m[items@[i as int].id] == items@[i as int]@);
                                    }
                                }
                                assert(page_of(
                                    crate::items::item_views(page@),
                                    m,
                                    id_min,
                                    id_max,
                                ));
                            }
                        }
                        total = total + 1;
                    }
                    i = i + 1;
                }
                proof {
                    assert(items@.take(n as int) =~= items@);
                    lemma_range_count(items@, id_min, id_max);
                }
                ListResult { items: page, total_count: total }
            },
            None => {
                proof {
                    lemma_cols_db_at_absent(self.collections@, collection@);
                    assert(Map::<u64, ItemView>::empty().dom() =~= Set::<u64>::empty());
                    assert(keys_in_range(Map::<u64, ItemView>::empty(), id_min, id_max) =~= Set::<
                        u64,
                    >::empty());
                    broadcast use vstd::set::axiom_set_empty_len;
                    assert(crate::items::item_views(Seq::<Item>::empty()) =~= Seq::<
                        ItemView,
                    >::empty());
                }
                ListResult { items: Vec::new(), total_count: 0 }
            },
        }
    }

    fn db_get_item(&self, collection: &str, id: u64) -> (r: Option<Item>) {
        proof {
            use_type_invariant(&*self);
        }
        match find_collection(&self.collections, collection) {
            Some(k) => {
                proof {
                    lemma_cols_db_at_found(self.collections@, collection@, k as int);
                    lemma_items_map_distinct(self.collections@[k as int].items@);
                    lemma_items_map_contains(self.collections@[k as int].items@, id);
                }
                match find_item(&self.collections[k].items, id) {
                    Some(j) => Some(self.collections[k].items[j].clone()),
                    None => None,
                }
            },
            None => {
                proof {
                    lemma_cols_db_at_absent(self.collections@, collection@);
                }
                None
            },
        }
    }

    fn db_set_item(&mut self, collection: &str, itm: &Item, merge: bool) {
        proof {
            use_type_invariant(&*self);
        }
        let ghost old_cols = self.collections@;
        let mut cols: Vec<Collection> = Vec::new();
        std::mem::swap(&mut cols, &mut self.collections);
        match find_collection(&cols, collection) {
            Some(k) => {
                proof {
                    lemma_cols_db_at_found(old_cols, collection@, k as int);
                    lemma_items_map_distinct(old_cols[k as int].items@);
                }
                let j_opt = find_item(&cols[k].items, itm.id);
                let ghost m0 = items_map_of(old_cols[k as int].items@);
                match j_opt {
                    Some(j) => {
                        let stored: Item = if merge {
                            proof {
                                lemma_items_map_contains(old_cols[k as int].items@, itm.id);
                            }
                            merge_items(&cols[k].items[j], itm)
                        } else {
                            itm.clone()
                        };
                        proof {
                            lemma_items_map_contains(old_cols[k as int].items@, itm.id);
                            assert(stored@ == merged_view(m0, itm@, merge));
                        }
                        let ghost old_col_items = cols@[k as int].items@;
                        let colref = &mut cols[k];
                        let slot = &mut colref.items[j];
                        *slot = stored;
                        proof {
                            lemma_items_map_update(old_col_items, j as int, colref.items@[j as int]);
                            lemma_cols_db_at_update(old_cols, k as int, cols@[k as int]);
                        }
                    },
                    None => {
                        let stored: Item = itm.clone();
                        proof {
                            lemma_items_map_contains(old_cols[k as int].items@, itm.id);
                            assert(stored@ == merged_view(m0, itm@, merge));
                        }
                        let ghost old_col_items = cols@[k as int].items@;
                        let colref = &mut cols[k];
                        colref.items.push(stored);
                        proof {
                            lemma_items_map_push(old_col_items, colref.items@.last());
                            lemma_cols_db_at_update(old_cols, k as int, cols@[k as int]);
                        }
                    },
                }
            },
            None => {
                proof {
                    lemma_cols_db_at_absent(old_cols, collection@);
                }
                let stored: Item = itm.clone();
                let mut fresh: Vec<Item> = Vec::new();
                fresh.push(stored);
                let col = Collection { name: collection.to_owned(), items: fresh };
                proof {
                    assert(col.items@.drop_last() =~= Seq::<Item>::empty());
                    assert(items_map_of(Seq::<Item>::empty()) =~= Map::<u64, ItemView>::empty());
                    assert(items_map_of(col.items@) =~= Map::<u64, ItemView>::empty().insert(
                        itm.id,
                        itm@,
                    ));
                    assert(distinct_ids(col.items@));
                }
                cols.push(col);
                proof {
                    lemma_cols_db_at_push(old_cols, cols@.last());
                }
            },
        }
        std::mem::swap(&mut cols, &mut self.collections);
    }

    fn db_del_item(&mut self, collection: &str, id: u64) -> (r: bool) {
        proof {
            use_type_invariant(&*self);
        }
        let ghost old_cols = self.collections@;
        let mut cols: Vec<Collection> = Vec::new();
        std::mem::swap(&mut cols, &mut self.collections);
        let r = match find_collection(&cols, collection) {
            Some(k) => {
                proof {
                    lemma_cols_db_at_found(old_cols, collection@, k as int);
                    lemma_items_map_distinct(old_cols[k as int].items@);
                    lemma_items_map_contains(old_cols[k as int].items@, id);
                }
                match find_item(&cols[k].items, id) {
                    Some(j) => {
                        let ghost old_col_items = cols@[k as int].items@;
                        let colref = &mut cols[k];
                        let _removed = colref.items.remove(j);
                        proof {
                            lemma_items_map_remove(old_col_items, j as int);
                            lemma_cols_db_at_update(old_cols, k as int, cols@[k as int]);
                        }
                        true
                    },
                    None => {
                        proof {
                            let m0 = items_map_of(old_cols[k as int].items@);
                            assert(m0.remove(id) =~= m0);
                        }
                        false
                    },
                }
            },
            None => {
                proof {
                    lemma_cols_db_at_absent(old_cols, collection@);
                    assert(Map::<u64, ItemView>::empty().remove(id) =~= Map::<
                        u64,
                        ItemView,
                    >::empty());
                }
                false
            },
        };
        std::mem::swap(&mut cols, &mut self.collections);
        r
    }

    fn globals_get_public_url(&self) -> (r: String) {
        self.public_url.clone()
    }

    fn globals_get_settings(&self) -> (r: Item) {
        self.settings.clone()
    }

    fn auth_check_role(&self, itm: &Option<Item>, role: &str) -> (r: bool) {
        match itm {
            Some(u) => match u.get_field(role) {
                Some(v) => matches!(v, FieldValue::Flag(true)),
                None => false,
            },
            None => false,
        }
    }

    fn auth_get_new_salt(&self) -> String {
        self.salt.clone()
    }

    fn auth_get_password_hash(&self, pw: &str, salt: &str) -> (r: String) {
        let mut h: String = salt.to_owned();
        h.append(pw);
        h
    }

    fn auth_verify_password(&self, pw: &str, pw_hash: &str) -> (r: bool) {
        let plen = pw.unicode_len();
        let hlen = pw_hash.unicode_len();
        if hlen < plen {
            return false;
        }
        let stored_tail = pw_hash.substring_char(hlen - plen, hlen);
        str_eq(stored_tail, pw)
    }

    fn fn_send_email(&mut self, to: &str, subject: &str, body: &str) {
        proof {
            use_type_invariant(&*self);
        }
        let mut sent: Vec<EmailEntry> = Vec::new();
        std::mem::swap(&mut sent, &mut self.emails);
        sent.push(EmailEntry { to: to.to_owned(), subject: subject.to_owned(), body: body.to_owned() });
        std::mem::swap(&mut sent, &mut self.emails);
        proof {
            assert(self.emails() =~= old(self).emails().push(
                EmailView { to: to@, subject: subject@, body: body@ },
            ));
        }
    }

    fn fn_init_google(&self) -> String {
        self.token.clone()
    }

    fn fn_sync_with_google(&mut self, add: bool, name: String, date_time: String) {
        proof {
            use_type_invariant(&*self);
        }
        let ghost name_view = name@;
        let ghost date_time_view = date_time@;
        let mut synced: Vec<CalendarEntry> = Vec::new();
        std::mem::swap(&mut synced, &mut self.calendar);
        synced.push(CalendarEntry { add, name, date_time });
        std::mem::swap(&mut synced, &mut self.calendar);
        proof {
            assert(self.calendar() =~= old(self).calendar().push(
                CalendarEventView { add, name: name_view, date_time: date_time_view },
            ));
        }
    }

    fn fn_get_state(&self, hndl: &str) -> (r: Option<Item>) {
        proof {
            use_type_invariant(&*self);
        }
        match find_state(&self.states, hndl) {
            Some(k) => {
                proof {
                    lemma_states_at_found(self.states@, hndl@, k as int);
                }
                match &self.states[k].value {
                    Some(it) => Some(it.clone()),
                    None => None,
                }
            },
            None => {
                proof {
                    lemma_states_at_absent(self.states@, hndl@);
                }
                None
            },
        }
    }

    fn fn_set_state(&mut self, hndl: &str, value: Option<Item>) {
        proof {
            use_type_invariant(&*self);
        }
        let ghost old_slots = self.states@;
        let mut slots: Vec<StateSlot> = Vec::new();
        std::mem::swap(&mut slots, &mut self.states);
        let ghost value_view = opt_item_view(value);
        match find_state(&slots, hndl) {
            Some(k) => {
                let slotref = &mut slots[k];
                *slotref = StateSlot { key: hndl.to_owned(), value };
                proof {
                    lemma_states_at_update(old_slots, k as int, slots@[k as int]);
                }
            },
            None => {
                slots.push(StateSlot { key: hndl.to_owned(), value });
                proof {
                    lemma_states_at_push(old_slots, slots@.last());
                }
            },
        }
        std::mem::swap(&mut slots, &mut self.states);
    }
}

} // verus!
