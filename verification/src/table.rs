//! Vectors of items kept in ascending key order, each key at most once: the library's ordered
//! maps and sets.
use vstd::prelude::*;

use crate::order::{
    byte_less, compare_bytes, lemma_byte_less_asym, lemma_byte_less_trans, ByteOrder,
};

verus! {

/// An item that is ordered and found by a byte string.
pub trait Keyed {
    /// The key.
    spec fn key(&self) -> Seq<u8>;

    /// Borrows the key.
    fn key_bytes(&self) -> (bytes: &[u8])
        ensures
            bytes@ == self.key(),
    ;
}

/// The items are in strictly ascending key order.
pub open spec fn ascending<T: Keyed>(items: Seq<T>) -> bool {
    forall|i: int, j: int|
        0 <= i < j < items.len() ==> byte_less(#[trigger] items[i].key(), #[trigger] items[j].key())
}

/// Some item has this key.
pub open spec fn has_key<T: Keyed>(items: Seq<T>, key: Seq<u8>) -> bool {
    exists|i: int| 0 <= i < items.len() && #[trigger] items[i].key() == key
}

/// The position of a key that is there.
pub open spec fn rank_of<T: Keyed>(items: Seq<T>, key: Seq<u8>) -> int {
    choose|i: int| 0 <= i < items.len() && #[trigger] items[i].key() == key
}

/// The items as a map from key to item.
pub open spec fn table<T: Keyed>(items: Seq<T>) -> Map<Seq<u8>, T> {
    Map::new(|key: Seq<u8>| has_key(items, key), |key: Seq<u8>| items[rank_of(items, key)])
}

/// In an ascending sequence a key fixes its position.
pub proof fn lemma_rank_unique<T: Keyed>(items: Seq<T>, i: int)
    requires
        ascending(items),
        0 <= i < items.len(),
    ensures
        has_key(items, items[i].key()),
        rank_of(items, items[i].key()) == i,
        table(items).contains_key(items[i].key()),
        table(items)[items[i].key()] == items[i],
{
    let key = items[i].key();
    let r = rank_of(items, key);
    assert(0 <= i < items.len() && items[i].key() == key);
    assert(0 <= r < items.len() && items[r].key() == key);
    lemma_byte_less_asym(key, key);
    if r < i {
        assert(byte_less(items[r].key(), items[i].key()));
    } else if i < r {
        assert(byte_less(items[i].key(), items[r].key()));
    }
}

/// The keys of an ascending sequence are as many as its items.
pub proof fn lemma_table_size<T: Keyed>(items: Seq<T>)
    requires
        ascending(items),
    ensures
        table(items).dom().finite(),
        table(items).dom().len() == items.len(),
    decreases items.len(),
{
    if items.len() == 0 {
        assert(table(items).dom() =~= Set::empty());
    } else {
        let init = items.drop_last();
        let last = items.last().key();
        assert(ascending(init)) by {
            assert forall|i: int, j: int| 0 <= i < j < init.len() implies byte_less(
                #[trigger] init[i].key(),
                #[trigger] init[j].key(),
            ) by {
                assert(byte_less(items[i].key(), items[j].key()));
            }
        }
        lemma_table_size(init);
        assert(!table(init).contains_key(last)) by {
            if has_key(init, last) {
                let r = rank_of(init, last);
                assert(byte_less(items[r].key(), items[items.len() - 1].key()));
                lemma_byte_less_asym(last, last);
            }
        }
        assert(table(items).dom() =~= table(init).dom().insert(last)) by {
            assert forall|k: Seq<u8>| table(items).dom().contains(k) == table(init).dom().insert(
                last,
            ).contains(k) by {
                if has_key(items, k) {
                    let r = rank_of(items, k);
                    if r < init.len() {
                        assert(init[r].key() == k);
                    }
                }
                if has_key(init, k) {
                    let r = rank_of(init, k);
                    assert(items[r].key() == k);
                }
                if k == last {
                    assert(items[items.len() - 1].key() == k);
                }
            }
        }
    }
}

/// The map fixes the sequence: two ascending sequences with the same map are the same.
pub proof fn lemma_table_canonical<T: Keyed>(a: Seq<T>, b: Seq<T>)
    requires
        ascending(a),
        ascending(b),
        table(a) == table(b),
    ensures
        a == b,
    decreases a.len(),
{
    lemma_table_size(a);
    lemma_table_size(b);
    assert forall|i: int| 0 <= i < a.len() implies a[i] == b[i] by {
        lemma_same_keys_same_rank(a, b, i);
        lemma_rank_unique(a, i);
        lemma_rank_unique(b, i);
    }
    assert(a =~= b);
}

/// Two ascending sequences with the same keys have each key at the same position.
pub proof fn lemma_same_keys_same_rank<T: Keyed, U: Keyed>(a: Seq<T>, b: Seq<U>, i: int)
    requires
        ascending(a),
        ascending(b),
        table(a).dom() == table(b).dom(),
        0 <= i < a.len(),
    ensures
        a.len() == b.len(),
        a[i].key() == b[i].key(),
    decreases i,
{
    lemma_table_size(a);
    lemma_table_size(b);
    lemma_rank_unique(a, i);
    lemma_rank_unique(b, i);
    let ka = a[i].key();
    let kb = b[i].key();
    assert(table(b).dom().contains(ka));
    assert(table(a).dom().contains(kb));
    let rb = rank_of(b, ka);
    let ra = rank_of(a, kb);
    assert(b[rb].key() == ka);
    assert(a[ra].key() == kb);
    if rb < i {
        lemma_same_keys_same_rank(a, b, rb);
        assert(byte_less(a[rb].key(), a[i].key()));
        lemma_byte_less_asym(ka, ka);
    } else if ra < i {
        lemma_same_keys_same_rank(a, b, ra);
        assert(byte_less(b[ra].key(), b[i].key()));
        lemma_byte_less_asym(kb, kb);
    } else if rb > i && ra > i {
        assert(byte_less(b[i].key(), b[rb].key()));
        assert(byte_less(a[i].key(), a[ra].key()));
        lemma_byte_less_asym(ka, kb);
    }
}

/// Where a key stands, or where it would go.
pub struct Place {
    /// The key is there.
    pub found: bool,
    /// Its position, or the position at which it would be put in.
    pub at: usize,
}

/// What a search for a key in ascending items finds.
pub open spec fn placed<T: Keyed>(items: Seq<T>, key: Seq<u8>, place: Place) -> bool {
    &&& place.at <= items.len()
    &&& place.found == has_key(items, key)
    &&& place.found ==> place.at < items.len() && items[place.at as int].key() == key
    &&& forall|i: int| 0 <= i < place.at ==> byte_less(#[trigger] items[i].key(), key)
    &&& !place.found ==> forall|i: int|
        place.at <= i < items.len() ==> byte_less(key, #[trigger] items[i].key())
}

/// Finds a key by binary search.
pub fn locate<T: Keyed>(items: &Vec<T>, key: &[u8]) -> (place: Place)
    requires
        ascending(items@),
    ensures
        placed(items@, key@, place),
{
    let mut low: usize = 0;
    let mut high: usize = items.len();
    while low < high
        invariant
            low <= high <= items@.len(),
            ascending(items@),
            forall|i: int| 0 <= i < low ==> byte_less(#[trigger] items@[i].key(), key@),
            forall|i: int| high <= i < items@.len() ==> byte_less(key@, #[trigger] items@[i].key()),
        decreases high - low,
    {
        let middle: usize = low + (high - low) / 2;
        match compare_bytes(items[middle].key_bytes(), key) {
            ByteOrder::Same => {
                assert(items@[middle as int].key() == key@);
                return Place { found: true, at: middle };
            },
            ByteOrder::Less => {
                assert forall|i: int| 0 <= i < middle + 1 implies byte_less(
                    #[trigger] items@[i].key(),
                    key@,
                ) by {
                    if i < middle {
                        lemma_byte_less_trans(items@[i].key(), items@[middle as int].key(), key@);
                    }
                }
                low = middle + 1;
            },
            ByteOrder::Greater => {
                assert forall|i: int| middle <= i < items@.len() implies byte_less(
                    key@,
                    #[trigger] items@[i].key(),
                ) by {
                    if middle < i {
                        lemma_byte_less_trans(key@, items@[middle as int].key(), items@[i].key());
                    }
                }
                high = middle;
            },
        }
    }
    proof {
        if has_key(items@, key@) {
            let r = rank_of(items@, key@);
            lemma_byte_less_asym(key@, key@);
            assert(r < low || high <= r);
        }
    }
    Place { found: false, at: low }
}

/// Puts an item in under its key. An item that had the key before comes back.
pub fn put<T: Keyed>(items: &mut Vec<T>, item: T) -> (replaced: Option<T>)
    requires
        ascending(old(items)@),
    ensures
        ascending(final(items)@),
        table(final(items)@) == table(old(items)@).insert(item.key(), item),
        replaced == (if table(old(items)@).contains_key(item.key()) {
            Some(table(old(items)@)[item.key()])
        } else {
            None
        }),
        final(items)@.len() == old(items)@.len() + (if replaced is Some {
            0int
        } else {
            1
        }),
{
    let ghost before = items@;
    let place = locate(items, item.key_bytes());
    let ghost key = item.key();
    if place.found {
        proof {
            lemma_rank_unique(before, place.at as int);
        }
        let mut slot = item;
        std::mem::swap(&mut items[place.at], &mut slot);
        proof {
            lemma_put(before, place, item, items@);
        }
        Some(slot)
    } else {
        items.insert(place.at, item);
        proof {
            lemma_put(before, place, item, items@);
        }
        None
    }
}

/// What putting an item in does to the map.
pub proof fn lemma_put<T: Keyed>(before: Seq<T>, place: Place, item: T, after: Seq<T>)
    requires
        ascending(before),
        placed(before, item.key(), place),
        place.found ==> after == before.update(place.at as int, item),
        !place.found ==> after == before.insert(place.at as int, item),
    ensures
        ascending(after),
        table(after) == table(before).insert(item.key(), item),
{
    let key = item.key();
    let at = place.at as int;
    assert forall|i: int, j: int| 0 <= i < j < after.len() implies byte_less(
        #[trigger] after[i].key(),
        #[trigger] after[j].key(),
    ) by {
        if place.found {
            assert(byte_less(before[i].key(), before[j].key()));
        } else {
            let bi = if i < at { i } else { i - 1 };
            let bj = if j < at { j } else { j - 1 };
            if i != at {
                assert(after[i] == before[bi]);
            }
            if j != at {
                assert(after[j] == before[bj]);
            }
            if i != at && j != at {
                assert(byte_less(before[bi].key(), before[bj].key()));
            }
        }
    }
    assert(after[at] == item);
    lemma_rank_unique(after, at);
    let goal = table(before).insert(key, item);
    assert forall|k: Seq<u8>| table(after).contains_key(k) == goal.contains_key(k) by {
        if has_key(after, k) && k != key {
            let r = rank_of(after, k);
            let b = if place.found || r < at { r } else { r - 1 };
            assert(after[r] == before[b]);
            assert(before[b].key() == k);
        }
        if has_key(before, k) {
            let r = rank_of(before, k);
            let a = if place.found || r < at { r } else { r + 1 };
            if k != key {
                assert(after[a] == before[r]);
            }
        }
    }
    assert forall|k: Seq<u8>| table(after).contains_key(k) implies #[trigger] table(after)[k]
        == goal[k] by {
        if k != key {
            let r = rank_of(after, k);
            let b = if place.found || r < at { r } else { r - 1 };
            assert(after[r] == before[b]);
            lemma_rank_unique(before, b);
        }
    }
    assert(table(after) =~= goal);
}

/// A prefix of ascending items is ascending, and one more item is one more entry of the map.
pub proof fn lemma_table_take<T: Keyed>(items: Seq<T>, i: int)
    requires
        ascending(items),
        0 <= i < items.len(),
    ensures
        ascending(items.take(i)),
        ascending(items.take(i + 1)),
        !table(items.take(i)).contains_key(items[i].key()),
        table(items.take(i + 1)) == table(items.take(i)).insert(items[i].key(), items[i]),
{
    let a = items.take(i);
    let b = items.take(i + 1);
    let key = items[i].key();
    assert forall|x: int, y: int| 0 <= x < y < b.len() implies byte_less(
        #[trigger] b[x].key(),
        #[trigger] b[y].key(),
    ) by {
        assert(byte_less(items[x].key(), items[y].key()));
    }
    assert forall|x: int, y: int| 0 <= x < y < a.len() implies byte_less(
        #[trigger] a[x].key(),
        #[trigger] a[y].key(),
    ) by {
        assert(byte_less(items[x].key(), items[y].key()));
    }
    if has_key(a, key) {
        let r = rank_of(a, key);
        assert(byte_less(items[r].key(), items[i].key()));
        lemma_byte_less_asym(key, key);
    }
    let goal = table(a).insert(key, items[i]);
    assert(b[i] == items[i]);
    lemma_rank_unique(b, i);
    assert forall|k: Seq<u8>| #[trigger] table(b).dom().contains(k) == goal.dom().contains(k) by {
        if has_key(b, k) {
            let r = rank_of(b, k);
            if r < i {
                assert(a[r].key() == k);
            }
        }
        if has_key(a, k) {
            let r = rank_of(a, k);
            assert(b[r].key() == k);
        }
    }
    assert(table(b).dom() =~= goal.dom());
    assert forall|k: Seq<u8>| table(b).dom().contains(k) implies #[trigger] table(b)[k]
        == goal[k] by {
        let r = rank_of(b, k);
        lemma_rank_unique(b, r);
        if k != key {
            assert(a[r].key() == k);
            lemma_rank_unique(a, r);
        }
    }
    assert(table(b) =~= goal);
}

/// What taking the item at a position out does to the map.
pub proof fn lemma_remove<T: Keyed>(before: Seq<T>, at: int)
    requires
        ascending(before),
        0 <= at < before.len(),
    ensures
        ascending(before.remove(at)),
        table(before.remove(at)) == table(before).remove(before[at].key()),
{
    let after = before.remove(at);
    let key = before[at].key();
    lemma_rank_unique(before, at);
    assert forall|i: int, j: int| 0 <= i < j < after.len() implies byte_less(
        #[trigger] after[i].key(),
        #[trigger] after[j].key(),
    ) by {
        let bi = if i < at { i } else { i + 1 };
        let bj = if j < at { j } else { j + 1 };
        assert(byte_less(before[bi].key(), before[bj].key()));
    }
    let goal = table(before).remove(key);
    assert forall|k: Seq<u8>| table(after).contains_key(k) == goal.contains_key(k) by {
        if has_key(after, k) {
            let r = rank_of(after, k);
            let b = if r < at { r } else { r + 1 };
            assert(before[b].key() == k);
            lemma_rank_unique(before, b);
        }
        if has_key(before, k) && k != key {
            let r = rank_of(before, k);
            let a = if r < at { r } else { r - 1 };
            assert(after[a].key() == k);
        }
    }
    assert forall|k: Seq<u8>| table(after).contains_key(k) implies #[trigger] table(after)[k]
        == goal[k] by {
        let r = rank_of(after, k);
        let b = if r < at { r } else { r + 1 };
        assert(after[r] == before[b]);
        lemma_rank_unique(before, b);
    }
    assert(table(after) =~= goal);
}

/// Takes the item with a key out, if it is there.
pub fn take<T: Keyed>(items: &mut Vec<T>, key: &[u8]) -> (taken: Option<T>)
    requires
        ascending(old(items)@),
    ensures
        ascending(final(items)@),
        table(final(items)@) == table(old(items)@).remove(key@),
        taken == (if table(old(items)@).contains_key(key@) {
            Some(table(old(items)@)[key@])
        } else {
            None
        }),
{
    let ghost before = items@;
    let place = locate(items, key);
    if place.found {
        proof {
            lemma_remove(before, place.at as int);
            lemma_rank_unique(before, place.at as int);
        }
        Some(items.remove(place.at))
    } else {
        proof {
            assert(table(before).remove(key@) =~= table(before));
        }
        None
    }
}

/// Borrows the item with a key.
pub fn find<'a, T: Keyed>(items: &'a Vec<T>, key: &[u8]) -> (item: Option<&'a T>)
    requires
        ascending(items@),
    ensures
        item == (if table(items@).contains_key(key@) {
            Some(&table(items@)[key@])
        } else {
            None
        }),
{
    let place = locate(items, key);
    if place.found {
        proof {
            lemma_rank_unique(items@, place.at as int);
        }
        Some(&items[place.at])
    } else {
        None
    }
}

/// Whether some item has the key.
pub fn holds<T: Keyed>(items: &Vec<T>, key: &[u8]) -> (there: bool)
    requires
        ascending(items@),
    ensures
        there == table(items@).contains_key(key@),
{
    locate(items, key).found
}

/// An empty table has no key.
pub proof fn lemma_table_empty<T: Keyed>()
    ensures
        ascending(Seq::<T>::empty()),
        table(Seq::<T>::empty()) == Map::<Seq<u8>, T>::empty(),
{
    assert(table(Seq::<T>::empty()) =~= Map::<Seq<u8>, T>::empty());
}

/// The items as a map from key to what each item says.
pub open spec fn view_table<T: Keyed + View>(items: Seq<T>) -> Map<Seq<u8>, T::V> {
    Map::new(|key: Seq<u8>| has_key(items, key), |key: Seq<u8>| table(items)[key]@)
}

/// What putting an item in does to the map of what the items say.
pub proof fn lemma_view_put<T: Keyed + View>(before: Seq<T>, item: T, after: Seq<T>)
    requires
        table(after) == table(before).insert(item.key(), item),
    ensures
        view_table(after) == view_table(before).insert(item.key(), item@),
{
    let goal = view_table(before).insert(item.key(), item@);
    assert forall|k: Seq<u8>| #![trigger view_table(after).dom().contains(k)]
        view_table(after).dom().contains(k) == goal.dom().contains(k) && (goal.dom().contains(k)
            ==> view_table(after)[k] == goal[k]) by {
        assert(table(after).dom().contains(k) == has_key(after, k));
        assert(table(before).dom().contains(k) == has_key(before, k));
    }
    assert(view_table(after) =~= goal);
}

/// What taking an item out does to the map of what the items say.
pub proof fn lemma_view_take<T: Keyed + View>(before: Seq<T>, key: Seq<u8>, after: Seq<T>)
    requires
        table(after) == table(before).remove(key),
    ensures
        view_table(after) == view_table(before).remove(key),
{
    let goal = view_table(before).remove(key);
    assert forall|k: Seq<u8>| #![trigger view_table(after).dom().contains(k)]
        view_table(after).dom().contains(k) == goal.dom().contains(k) && (goal.dom().contains(k)
            ==> view_table(after)[k] == goal[k]) by {
        assert(table(after).dom().contains(k) == has_key(after, k));
        assert(table(before).dom().contains(k) == has_key(before, k));
    }
    assert(view_table(after) =~= goal);
}

/// What changing an item in place, but for its key, does to the maps.
pub proof fn lemma_update<T: Keyed>(before: Seq<T>, at: int, item: T)
    requires
        ascending(before),
        0 <= at < before.len(),
        at <= usize::MAX,
        item.key() == before[at].key(),
    ensures
        ascending(before.update(at, item)),
        table(before.update(at, item)) == table(before).insert(item.key(), item),
{
    let place = Place { found: true, at: at as usize };
    assert(placed(before, item.key(), place));
    lemma_put(before, place, item, before.update(at, item));
}

/// An empty table says nothing.
pub proof fn lemma_view_empty<T: Keyed + View>()
    ensures
        ascending(Seq::<T>::empty()),
        view_table(Seq::<T>::empty()) == Map::<Seq<u8>, T::V>::empty(),
{
    assert(view_table(Seq::<T>::empty()) =~= Map::<Seq<u8>, T::V>::empty());
}

/// The two maps of a table have the same keys, and each key its item's view.
pub proof fn lemma_view_of<T: Keyed + View>(items: Seq<T>)
    requires
        ascending(items),
    ensures
        view_table(items).dom() == table(items).dom(),
        view_table(items).dom().len() == items.len(),
        forall|k: Seq<u8>|
            #![trigger table(items).dom().contains(k)]
            table(items).dom().contains(k) ==> view_table(items)[k] == table(items)[k]@,
        forall|i: int|
            0 <= i < items.len() ==> view_table(items).contains_key(#[trigger] items[i].key())
                && view_table(items)[items[i].key()] == items[i]@,
{
    lemma_table_size(items);
    assert(view_table(items).dom() =~= table(items).dom());
    assert forall|i: int| 0 <= i < items.len() implies view_table(items).contains_key(
        #[trigger] items[i].key(),
    ) && view_table(items)[items[i].key()] == items[i]@ by {
        lemma_rank_unique(items, i);
    }
}

/// What changing every item, but for its key, does to the map.
pub proof fn lemma_table_map<T: Keyed>(before: Seq<T>, change: spec_fn(T) -> T, after: Seq<T>)
    requires
        ascending(before),
        after.len() == before.len(),
        forall|i: int|
            0 <= i < before.len() ==> (#[trigger] after[i]) == change(before[i]) && after[i].key()
                == before[i].key(),
    ensures
        ascending(after),
        table(after) == table(before).map_values(change),
{
    assert forall|i: int, j: int| 0 <= i < j < after.len() implies byte_less(
        #[trigger] after[i].key(),
        #[trigger] after[j].key(),
    ) by {
        assert(byte_less(before[i].key(), before[j].key()));
    }
    let goal = table(before).map_values(change);
    assert forall|k: Seq<u8>| #![trigger table(after).dom().contains(k)]
        table(after).dom().contains(k) == goal.dom().contains(k) && (goal.dom().contains(k)
            ==> table(after)[k] == goal[k]) by {
        if has_key(before, k) {
            let r = rank_of(before, k);
            assert(after[r].key() == k);
            lemma_rank_unique(before, r);
            lemma_rank_unique(after, r);
        }
        if has_key(after, k) {
            let r = rank_of(after, k);
            assert(before[r].key() == k);
        }
    }
    assert(table(after) =~= goal);
}

/// The entries of a map whose values are wanted.
pub open spec fn filtered<T>(all: Map<Seq<u8>, T>, wanted: spec_fn(T) -> bool) -> Map<
    Seq<u8>,
    T,
> {
    Map::new(
        |key: Seq<u8>| all.contains_key(key) && wanted(all[key]),
        |key: Seq<u8>| all[key],
    )
}

/// Keeps the items that are marked.
pub(crate) fn keep_marked<T: Keyed>(items: &mut Vec<T>, keep: &Vec<bool>, wanted: Ghost<
    spec_fn(T) -> bool,
>)
    requires
        ascending(old(items)@),
        keep@.len() == old(items)@.len(),
        forall|i: int|
            0 <= i < keep@.len() ==> #[trigger] keep@[i] == wanted@(old(items)@[i]),
    ensures
        ascending(final(items)@),
        table(final(items)@) == filtered(table(old(items)@), wanted@),
{
    let ghost all = items@;
    let ghost w = wanted@;
    let mut i: usize = items.len();
    assert(items@.take(i as int) =~= all.take(i as int));
    assert(table(items@) =~= left_over(all, w, i as int));
    while i > 0
        invariant
            i <= all.len(),
            i <= items@.len(),
            ascending(all),
            ascending(items@),
            keep@.len() == all.len(),
            forall|k: int| 0 <= k < keep@.len() ==> #[trigger] keep@[k] == w(all[k]),
            items@.take(i as int) == all.take(i as int),
            table(items@) == left_over(all, w, i as int),
        decreases i,
    {
        i = i - 1;
        let ghost before = items@;
        proof {
            assert(before.take(i + 1)[i as int] == all.take(i + 1)[i as int]);
            lemma_rank_unique(all, i as int);
            lemma_left_over(all, w, i as int);
            assert(items@.take(i as int) =~= before.take(i + 1).take(i as int));
            assert(all.take(i as int) =~= all.take(i + 1).take(i as int));
        }
        if !keep[i] {
            proof {
                lemma_remove(before, i as int);
            }
            items.remove(i);
            assert(items@.take(i as int) =~= before.take(i as int));
        }
    }
    assert(left_over(all, w, 0) =~= filtered(table(all), w));
}

/// What is left when the items from a position on have been looked at.
spec fn left_over<T: Keyed>(all: Seq<T>, wanted: spec_fn(T) -> bool, from: int) -> Map<
    Seq<u8>,
    T,
> {
    Map::new(
        |key: Seq<u8>| has_key(all, key) && (rank_of(all, key) < from || wanted(table(all)[key])),
        |key: Seq<u8>| table(all)[key],
    )
}

proof fn lemma_left_over<T: Keyed>(all: Seq<T>, wanted: spec_fn(T) -> bool, i: int)
    requires
        ascending(all),
        0 <= i < all.len(),
    ensures
        left_over(all, wanted, i) == (if wanted(all[i]) {
            left_over(all, wanted, i + 1)
        } else {
            left_over(all, wanted, i + 1).remove(all[i].key())
        }),
{
    lemma_rank_unique(all, i);
    let goal = if wanted(all[i]) {
        left_over(all, wanted, i + 1)
    } else {
        left_over(all, wanted, i + 1).remove(all[i].key())
    };
    let got = left_over(all, wanted, i);
    assert forall|k: Seq<u8>| #![trigger got.dom().contains(k)]
        got.dom().contains(k) == goal.dom().contains(k) && (goal.dom().contains(k) ==> got[k]
            == goal[k]) by {
        if has_key(all, k) {
            let r = rank_of(all, k);
            lemma_rank_unique(all, r);
            if r == i {
                assert(k == all[i].key());
            }
        }
    }
    assert(got =~= goal);
}

/// The items of a map in ascending key order.
pub open spec fn listing<T: Keyed>(all: Map<Seq<u8>, T>) -> Seq<T> {
    choose|items: Seq<T>| ascending(items) && #[trigger] table(items) == all
}

/// Ascending items are the listing of their map.
pub proof fn lemma_listing<T: Keyed>(items: Seq<T>)
    requires
        ascending(items),
    ensures
        listing(table(items)) == items,
{
    let other = listing(table(items));
    assert(ascending(other) && table(other) == table(items));
    lemma_table_canonical(other, items);
}

/// Whether items are in strictly ascending key order.
pub fn in_order<T: Keyed>(items: &Vec<T>) -> (holds: bool)
    ensures
        holds == ascending(items@),
{
    if items.len() == 0 {
        return true;
    }
    let mut i: usize = 1;
    while i < items.len()
        invariant
            1 <= i <= items@.len(),
            forall|x: int, y: int|
                0 <= x < y < i
                    ==> byte_less(#[trigger] items@[x].key(), #[trigger] items@[y].key()),
        decreases items@.len() - i,
    {
        match compare_bytes(items[i - 1].key_bytes(), items[i].key_bytes()) {
            ByteOrder::Less => {},
            _ => {
                proof {
                    lemma_byte_less_asym(items@[i - 1].key(), items@[i as int].key());
                    assert(!byte_less(items@[i - 1].key(), items@[i as int].key()));
                }
                return false;
            },
        }
        proof {
            assert forall|x: int, y: int| 0 <= x < y < i + 1 implies byte_less(
                #[trigger] items@[x].key(),
                #[trigger] items@[y].key(),
            ) by {
                if y == i && x < i - 1 {
                    lemma_byte_less_trans(
                        items@[x].key(),
                        items@[i - 1].key(),
                        items@[i as int].key(),
                    );
                }
            }
        }
        i = i + 1;
    }
    true
}

/// What keeping some items does to the map of what the items say.
pub proof fn lemma_view_filtered<T: Keyed + View>(
    before: Seq<T>,
    wanted: spec_fn(T) -> bool,
    after: Seq<T>,
    said: spec_fn(T::V) -> bool,
)
    requires
        table(after) == filtered(table(before), wanted),
        forall|item: T| #[trigger] wanted(item) == said(item@),
    ensures
        view_table(after) == filtered(view_table(before), said),
{
    let goal = filtered(view_table(before), said);
    assert forall|k: Seq<u8>| #![trigger view_table(after).dom().contains(k)]
        view_table(after).dom().contains(k) == goal.dom().contains(k) && (goal.dom().contains(k)
            ==> view_table(after)[k] == goal[k]) by {
        assert(table(after).dom().contains(k) == has_key(after, k));
        assert(table(before).dom().contains(k) == has_key(before, k));
        assert(wanted(table(before)[k]) == said(table(before)[k]@));
    }
    assert(view_table(after) =~= goal);
}

/// A rule by which items are changed, but for their keys.
pub trait Change<T: Keyed> {
    /// The changed item.
    spec fn changed(&self, item: T) -> T;

    /// Changes an item.
    fn change(&self, item: &T) -> (r: T)
        ensures
            r == self.changed(*item),
            r.key() == item.key(),
    ;
}

/// Changes every item by a rule.
pub fn change_all<T: Keyed, R: Change<T>>(items: &mut Vec<T>, rule: &R)
    requires
        ascending(old(items)@),
    ensures
        ascending(final(items)@),
        table(final(items)@) == table(old(items)@).map_values(|item: T| rule.changed(item)),
        final(items)@.len() == old(items)@.len(),
        forall|i: int|
            0 <= i < final(items)@.len() ==> #[trigger] final(items)@[i] == rule.changed(
                old(items)@[i],
            ),
{
    let ghost before = items@;
    let mut i: usize = 0;
    while i < items.len()
        invariant
            i <= items@.len(),
            items@.len() == before.len(),
            forall|k: int|
                0 <= k < i ==> (#[trigger] items@[k]) == rule.changed(before[k])
                    && items@[k].key() == before[k].key(),
            forall|k: int| i <= k < before.len() ==> #[trigger] items@[k] == before[k],
        decreases before.len() - i,
    {
        let item = rule.change(&items[i]);
        items.set(i, item);
        i = i + 1;
    }
    proof {
        lemma_table_map(before, |item: T| rule.changed(item), items@);
    }
}

/// A rule by which items are kept.
pub trait Choice<T: Keyed> {
    /// The item is kept.
    spec fn keeps(&self, item: T) -> bool;

    /// Whether an item is kept.
    fn keep(&self, item: &T) -> (r: bool)
        ensures
            r == self.keeps(*item),
    ;
}

/// Keeps the items that a rule keeps.
pub fn keep_by<T: Keyed, R: Choice<T>>(items: &mut Vec<T>, rule: &R)
    requires
        ascending(old(items)@),
    ensures
        ascending(final(items)@),
        table(final(items)@) == filtered(table(old(items)@), |item: T| rule.keeps(item)),
{
    let mut keep: Vec<bool> = Vec::new();
    let mut i: usize = 0;
    while i < items.len()
        invariant
            i <= items@.len(),
            keep@.len() == i,
            items@ == old(items)@,
            forall|k: int| 0 <= k < i ==> #[trigger] keep@[k] == rule.keeps(items@[k]),
        decreases items@.len() - i,
    {
        keep.push(rule.keep(&items[i]));
        i = i + 1;
    }
    keep_marked(items, &keep, Ghost(|item: T| rule.keeps(item)));
}

/// A size as it is counted: the largest number stands for what does not fit.
pub open spec fn capped(size: nat) -> usize {
    if size > usize::MAX {
        usize::MAX
    } else {
        size as usize
    }
}

/// An item with a size.
pub trait Measured {
    /// The size.
    spec fn measure(&self) -> nat;

    /// Measures an item.
    fn size_of(&self) -> (size: usize)
        ensures
            size == capped(self.measure()),
    ;
}

/// The sizes of all items together.
pub open spec fn total<T: Measured>(items: Seq<T>) -> nat
    decreases items.len(),
{
    if items.len() == 0 {
        0
    } else {
        total(items.drop_last()) + items.last().measure()
    }
}

/// The sizes of all items together, or the largest number where they do not fit.
pub fn total_size<T: Measured>(items: &Vec<T>) -> (size: usize)
    ensures
        size == capped(total(items@)),
{
    let mut size: usize = 0;
    let mut i: usize = 0;
    while i < items.len()
        invariant
            i <= items@.len(),
            size == capped(total(items@.take(i as int))),
        decreases items@.len() - i,
    {
        size = size.saturating_add(items[i].size_of());
        i = i + 1;
        assert(items@.take(i as int).drop_last() =~= items@.take(i - 1));
    }
    assert(items@.take(i as int) =~= items@);
    size
}

/// The sizes of all values of a map together.
pub open spec fn weight<V>(all: Map<Seq<u8>, V>, size: spec_fn(V) -> nat) -> nat
    decreases all.dom().len(),
    when all.dom().finite()
{
    if all.dom().len() == 0 {
        0
    } else {
        let key = all.dom().choose();
        size(all[key]) + weight(all.remove(key), size)
    }
}

/// Any value can be counted first.
pub proof fn lemma_weight<V>(all: Map<Seq<u8>, V>, size: spec_fn(V) -> nat, key: Seq<u8>)
    requires
        all.dom().finite(),
        all.contains_key(key),
    ensures
        weight(all, size) == size(all[key]) + weight(all.remove(key), size),
    decreases all.dom().len(),
{
    let first = all.dom().choose();
    assert(all.dom().contains(first));
    if first != key {
        lemma_weight(all.remove(first), size, key);
        lemma_weight(all.remove(key), size, first);
        assert(all.remove(first).remove(key) =~= all.remove(key).remove(first));
    }
}

/// The sizes of the items of a table together are those of the values of its map together.
pub proof fn lemma_total<T: Keyed + Measured, V>(
    items: Seq<T>,
    all: Map<Seq<u8>, V>,
    size: spec_fn(V) -> nat,
)
    requires
        ascending(items),
        all.dom() == table(items).dom(),
        forall|i: int|
            0 <= i < items.len() ==> size(all[#[trigger] items[i].key()]) == items[i].measure(),
    ensures
        total(items) == weight(all, size),
    decreases items.len(),
{
    lemma_table_size(items);
    if items.len() > 0 {
        let last = items.len() - 1;
        let key = items[last].key();
        let rest = items.drop_last();
        lemma_rank_unique(items, last);
        lemma_remove(items, last);
        assert(items.remove(last) =~= rest);
        assert forall|i: int| 0 <= i < rest.len() implies size(
            all.remove(key)[#[trigger] rest[i].key()],
        ) == rest[i].measure() by {
            assert(byte_less(items[i].key(), items[last].key()));
            lemma_byte_less_asym(key, key);
            assert(size(all[items[i].key()]) == items[i].measure());
        }
        assert(all.remove(key).dom() =~= table(rest).dom());
        lemma_total(rest, all.remove(key), size);
        lemma_weight(all, size, key);
    }
}

/// What a table holds under a key has that key.
pub proof fn lemma_table_key<T: Keyed>(items: Seq<T>, key: Seq<u8>)
    requires
        table(items).contains_key(key),
    ensures
        table(items)[key].key() == key,
{
    let r = rank_of(items, key);
    assert(0 <= r < items.len() && items[r].key() == key);
}

} // verus!
