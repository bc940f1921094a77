//! The entries of a mapping: finding one by its key, setting one, and setting several.

use vstd::prelude::*;

use crate::value::YamlTree;

verus! {

/// The first entry of `entries` with the key `key` is the one at `i`.
pub open spec fn key_at(entries: Seq<(YamlTree, YamlTree)>, key: Seq<char>, i: int) -> bool {
    &&& 0 <= i < entries.len()
    &&& entries[i].0 == YamlTree::Str(key)
    &&& forall|j: int| 0 <= j < i ==> entries[j].0 != YamlTree::Str(key)
}

/// Where `entries` has the key `key`.
pub open spec fn position(entries: Seq<(YamlTree, YamlTree)>, key: Seq<char>) -> Option<int> {
    if exists|i: int| key_at(entries, key, i) {
        Some(choose|i: int| key_at(entries, key, i))
    } else {
        None
    }
}

/// The value of `key`.
pub open spec fn lookup(entries: Seq<(YamlTree, YamlTree)>, key: Seq<char>) -> Option<YamlTree> {
    match position(entries, key) {
        Some(i) => Some(entries[i].1),
        None => None,
    }
}

/// `entries` after `key` was set to `value`: an entry with that key keeps its place, and a new
/// one is appended.
pub open spec fn put(
    entries: Seq<(YamlTree, YamlTree)>,
    key: Seq<char>,
    value: YamlTree,
) -> Seq<(YamlTree, YamlTree)> {
    match position(entries, key) {
        Some(i) => entries.update(i, (YamlTree::Str(key), value)),
        None => entries.push((YamlTree::Str(key), value)),
    }
}

/// `entries` after all of `updates` were set, in their order.
pub open spec fn patch(
    entries: Seq<(YamlTree, YamlTree)>,
    updates: Seq<(Seq<char>, YamlTree)>,
) -> Seq<(YamlTree, YamlTree)>
    decreases updates.len(),
{
    if updates.len() == 0 {
        entries
    } else {
        put(patch(entries, updates.drop_last()), updates.last().0, updates.last().1)
    }
}

/// The keys of `entries`, in their order.
pub open spec fn keys(entries: Seq<(YamlTree, YamlTree)>) -> Seq<YamlTree> {
    entries.map_values(|e: (YamlTree, YamlTree)| e.0)
}

/// No two entries have the same string as their key.
pub open spec fn distinct_keys(entries: Seq<(YamlTree, YamlTree)>) -> bool {
    forall|i: int, j: int|
        0 <= i < j < entries.len() && #[trigger] entries[i].0 is Str ==> entries[i].0
            != #[trigger] entries[j].0
}

/// One of `updates` sets `key`.
pub open spec fn updated(updates: Seq<(Seq<char>, YamlTree)>, key: Seq<char>) -> bool {
    exists|i: int| 0 <= i < updates.len() && #[trigger] updates[i].0 == key
}

/// What the last of `updates` that sets `key` sets it to.
pub open spec fn update_of(updates: Seq<(Seq<char>, YamlTree)>, key: Seq<char>) -> Option<YamlTree>
    decreases updates.len(),
{
    if updates.len() == 0 {
        None
    } else if updates.last().0 == key {
        Some(updates.last().1)
    } else {
        update_of(updates.drop_last(), key)
    }
}

/// The place of a key is the one that was found.
pub proof fn lemma_position(entries: Seq<(YamlTree, YamlTree)>, key: Seq<char>)
    ensures
        position(entries, key) matches Some(i) ==> key_at(entries, key, i),
        forall|i: int| key_at(entries, key, i) ==> position(entries, key) == Some(i),
        position(entries, key) is None <==> forall|i: int|
            0 <= i < entries.len() ==> entries[i].0 != YamlTree::Str(key),
{
    assert forall|i: int| key_at(entries, key, i) implies position(entries, key) == Some(i) by {
        let p = position(entries, key)->0;
        assert(key_at(entries, key, p));
    }
    if position(entries, key) is None {
        if exists|i: int| 0 <= i < entries.len() && entries[i].0 == YamlTree::Str(key) {
            let i = choose|i: int| 0 <= i < entries.len() && entries[i].0 == YamlTree::Str(key);
            lemma_first(entries, key, i);
        }
    }
}

proof fn lemma_first(entries: Seq<(YamlTree, YamlTree)>, key: Seq<char>, i: int)
    requires
        0 <= i < entries.len(),
        entries[i].0 == YamlTree::Str(key),
    ensures
        exists|f: int| key_at(entries, key, f),
    decreases i,
{
    if exists|j: int| 0 <= j < i && entries[j].0 == YamlTree::Str(key) {
        let j = choose|j: int| 0 <= j < i && entries[j].0 == YamlTree::Str(key);
        lemma_first(entries, key, j);
    } else {
        assert(key_at(entries, key, i));
    }
}

/// Setting a key changes no key that is there already, nor the order of those keys.
pub proof fn put_keeps_key_order(
    entries: Seq<(YamlTree, YamlTree)>,
    key: Seq<char>,
    value: YamlTree,
)
    ensures
        lookup(entries, key) is Some ==> keys(put(entries, key, value)) == keys(entries),
        lookup(entries, key) is None ==> keys(put(entries, key, value)) == keys(entries).push(
            YamlTree::Str(key),
        ),
{
    lemma_position(entries, key);
    if lookup(entries, key) is Some {
        assert(keys(put(entries, key, value)) =~= keys(entries));
    } else {
        assert(keys(put(entries, key, value)) =~= keys(entries).push(YamlTree::Str(key)));
    }
}

/// After a key was set, it has the value that it was set to, and every other key has the value
/// that it had.
pub proof fn put_sets_one_key(
    entries: Seq<(YamlTree, YamlTree)>,
    key: Seq<char>,
    value: YamlTree,
    other: Seq<char>,
)
    ensures
        lookup(put(entries, key, value), key) == Some(value),
        other != key ==> lookup(put(entries, key, value), other) == lookup(entries, other),
{
    let after = put(entries, key, value);
    lemma_position(entries, key);
    lemma_position(after, key);
    lemma_position(entries, other);
    lemma_position(after, other);
    match position(entries, key) {
        Some(i) => {
            assert(key_at(after, key, i));
        },
        None => {
            assert(key_at(after, key, entries.len() as int));
        },
    }
    if other != key {
        match position(entries, other) {
            Some(i) => {
                assert(key_at(after, other, i));
            },
            None => {
                assert forall|i: int| 0 <= i < after.len() implies after[i].0 != YamlTree::Str(other) by {
                    if i < entries.len() && position(entries, key) != Some(i) {
                        assert(after[i] == entries[i]);
                    }
                }
            },
        }
    }
}

/// Setting a key leaves keys distinct that were so.
pub proof fn put_keeps_keys_distinct(
    entries: Seq<(YamlTree, YamlTree)>,
    key: Seq<char>,
    value: YamlTree,
)
    requires
        distinct_keys(entries),
    ensures
        distinct_keys(put(entries, key, value)),
{
    let after = put(entries, key, value);
    lemma_position(entries, key);
    assert forall|i: int, j: int|
        0 <= i < j < after.len() && #[trigger] after[i].0 is Str implies after[i].0
        != #[trigger] after[j].0 by {
        if j < entries.len() {
            assert(after[i].0 == entries[i].0);
            assert(after[j].0 == entries[j].0);
        } else {
            assert(after[i].0 == entries[i].0);
        }
    }
}

/// The keys that a mapping had keep their places and their order whatever is set; all keys that
/// come to it are appended behind them.
pub proof fn patch_keeps_key_order(
    entries: Seq<(YamlTree, YamlTree)>,
    updates: Seq<(Seq<char>, YamlTree)>,
)
    ensures
        entries.len() <= patch(entries, updates).len(),
        keys(patch(entries, updates)).take(entries.len() as int) == keys(entries),
        forall|i: int|
            entries.len() <= i < patch(entries, updates).len() ==> {
                &&& (#[trigger] patch(entries, updates)[i]).0 is Str
                &&& updated(updates, patch(entries, updates)[i].0->Str_0)
                &&& lookup(entries, patch(entries, updates)[i].0->Str_0) is None
            },
        (forall|i: int| 0 <= i < updates.len() ==> lookup(entries, #[trigger] updates[i].0) is Some)
            ==> keys(patch(entries, updates)) == keys(entries),
    decreases updates.len(),
{
    let after = patch(entries, updates);
    if updates.len() == 0 {
        assert(keys(after).take(entries.len() as int) =~= keys(entries));
    } else {
        let less = updates.drop_last();
        let before = patch(entries, less);
        let key = updates.last().0;
        patch_keeps_key_order(entries, less);
        put_keeps_key_order(before, key, updates.last().1);
        lemma_position(before, key);
        lemma_position(entries, key);
        assert(keys(before).len() == before.len());
        assert(keys(after).take(entries.len() as int) =~= keys(before).take(entries.len() as int));
        assert(updates[updates.len() - 1].0 == key);
        assert forall|i: int| entries.len() <= i < after.len() implies {
            &&& (#[trigger] after[i]).0 is Str
            &&& updated(updates, after[i].0->Str_0)
            &&& lookup(entries, after[i].0->Str_0) is None
        } by {
            if i < before.len() {
                assert(after[i].0 == before[i].0);
                let u = choose|u: int| 0 <= u < less.len() && #[trigger] less[u].0 == before[i].0->Str_0;
                assert(updates[u].0 == before[i].0->Str_0);
            } else {
                assert forall|j: int| 0 <= j < entries.len() implies entries[j].0 != YamlTree::Str(key) by {
                    assert(keys(before).take(entries.len() as int)[j] == keys(entries)[j]);
                    assert(before[j].0 == entries[j].0);
                }
            }
        }
        if forall|i: int| 0 <= i < updates.len() ==> lookup(entries, #[trigger] updates[i].0) is Some {
            assert forall|i: int| 0 <= i < less.len() implies lookup(entries, #[trigger] less[i].0) is Some by {
                assert(less[i] == updates[i]);
            }
            let p = position(entries, key)->0;
            assert(keys(before)[p] == keys(entries)[p]);
            assert(before[p].0 == YamlTree::Str(key));
        }
    }
}

/// After updates, a key that one of them sets has the value that the last of these sets it to,
/// and every other key has the value that it had.
pub proof fn patch_sets_the_updates(
    entries: Seq<(YamlTree, YamlTree)>,
    updates: Seq<(Seq<char>, YamlTree)>,
    key: Seq<char>,
)
    ensures
        update_of(updates, key) is Some <==> updated(updates, key),
        lookup(patch(entries, updates), key) == match update_of(updates, key) {
            Some(value) => Some(value),
            None => lookup(entries, key),
        },
    decreases updates.len(),
{
    if updates.len() > 0 {
        let less = updates.drop_last();
        patch_sets_the_updates(entries, less, key);
        put_sets_one_key(patch(entries, less), updates.last().0, updates.last().1, key);
        if updated(less, key) {
            let i = choose|i: int| 0 <= i < less.len() && #[trigger] less[i].0 == key;
            assert(updates[i].0 == key);
        }
        if updated(updates, key) && updates.last().0 != key {
            let i = choose|i: int| 0 <= i < updates.len() && #[trigger] updates[i].0 == key;
            assert(less[i].0 == key);
        }
        if updates.last().0 == key {
            assert(updates[updates.len() - 1].0 == key);
        }
    }
}

/// Updates leave keys distinct that were so.
pub proof fn patch_keeps_keys_distinct(
    entries: Seq<(YamlTree, YamlTree)>,
    updates: Seq<(Seq<char>, YamlTree)>,
)
    requires
        distinct_keys(entries),
    ensures
        distinct_keys(patch(entries, updates)),
    decreases updates.len(),
{
    if updates.len() > 0 {
        patch_keeps_keys_distinct(entries, updates.drop_last());
        put_keeps_keys_distinct(
            patch(entries, updates.drop_last()),
            updates.last().0,
            updates.last().1,
        );
    }
}

/// What updates make of the entry at `i` whose keys are all there.
spec fn entry_after(
    entries: Seq<(YamlTree, YamlTree)>,
    updates: Seq<(Seq<char>, YamlTree)>,
    i: int,
) -> (YamlTree, YamlTree) {
    match entries[i].0 {
        YamlTree::Str(key) if position(entries, key) == Some(i) && update_of(updates, key) is Some => (
            entries[i].0,
            update_of(updates, key)->0,
        ),
        _ => entries[i],
    }
}

proof fn lemma_patch_in_place(
    entries: Seq<(YamlTree, YamlTree)>,
    updates: Seq<(Seq<char>, YamlTree)>,
)
    requires
        forall|i: int| 0 <= i < updates.len() ==> lookup(entries, #[trigger] updates[i].0) is Some,
    ensures
        patch(entries, updates).len() == entries.len(),
        forall|i: int|
            0 <= i < entries.len() ==> #[trigger] patch(entries, updates)[i] == entry_after(
                entries,
                updates,
                i,
            ),
    decreases updates.len(),
{
    if updates.len() > 0 {
        let less = updates.drop_last();
        assert forall|i: int| 0 <= i < less.len() implies lookup(entries, #[trigger] less[i].0) is Some by {
            assert(less[i] == updates[i]);
        }
        lemma_patch_in_place(entries, less);
        let before = patch(entries, less);
        let (key, value) = updates.last();
        assert(updates[updates.len() - 1].0 == key);
        lemma_position(entries, key);
        lemma_position(before, key);
        let p = position(entries, key)->0;
        assert(forall|j: int| 0 <= j < entries.len() ==> (#[trigger] before[j]).0 == entries[j].0);
        assert(key_at(before, key, p));
    }
}

/// Updates that are made a second time change nothing.
pub proof fn patching_again_changes_nothing(
    entries: Seq<(YamlTree, YamlTree)>,
    updates: Seq<(Seq<char>, YamlTree)>,
)
    ensures
        patch(patch(entries, updates), updates) == patch(entries, updates),
{
    let once = patch(entries, updates);
    assert forall|i: int| 0 <= i < updates.len() implies lookup(once, #[trigger] updates[i].0) is Some by {
        patch_sets_the_updates(entries, updates, updates[i].0);
    }
    lemma_patch_in_place(once, updates);
    assert forall|i: int| 0 <= i < once.len() implies #[trigger] patch(once, updates)[i] == once[i] by {
        if let YamlTree::Str(key) = once[i].0 {
            patch_sets_the_updates(entries, updates, key);
        }
    }
    assert(patch(once, updates) =~= once);
}

/// The value of a key is that of the first entry with that string as its key, and there is none
/// exactly where no entry has it.
pub proof fn lookup_finds_the_first(
    entries: Seq<(YamlTree, YamlTree)>,
    key: Seq<char>,
    value: YamlTree,
)
    ensures
        lookup(entries, key) == Some(value) <==> exists|i: int|
            0 <= i < entries.len() && #[trigger] entries[i] == (YamlTree::Str(key), value) && forall|
                j: int,
            |
                0 <= j < i ==> (#[trigger] entries[j]).0 != YamlTree::Str(key),
        lookup(entries, key) is None <==> forall|i: int|
            0 <= i < entries.len() ==> (#[trigger] entries[i]).0 != YamlTree::Str(key),
{
    lemma_position(entries, key);
    if lookup(entries, key) == Some(value) {
        let i = position(entries, key)->0;
        assert(entries[i] == (YamlTree::Str(key), value));
    }
    if exists|i: int|
        0 <= i < entries.len() && #[trigger] entries[i] == (YamlTree::Str(key), value) && forall|
            j: int,
        |
            0 <= j < i ==> (#[trigger] entries[j]).0 != YamlTree::Str(key) {
        let i = choose|i: int|
            0 <= i < entries.len() && #[trigger] entries[i] == (YamlTree::Str(key), value) && forall|
                j: int,
            |
                0 <= j < i ==> (#[trigger] entries[j]).0 != YamlTree::Str(key);
        assert(key_at(entries, key, i));
    }
}

/// Setting a key changes the value of the first entry with that key and nothing else, or appends an
/// entry where there is none.
pub proof fn put_changes_one_entry(
    entries: Seq<(YamlTree, YamlTree)>,
    key: Seq<char>,
    value: YamlTree,
)
    ensures
        forall|i: int|
            0 <= i < entries.len() && (#[trigger] entries[i]).0 == YamlTree::Str(key) && (forall|
                j: int,
            |
                0 <= j < i ==> (#[trigger] entries[j]).0 != YamlTree::Str(key)) ==> put(
                entries,
                key,
                value,
            ) == entries.update(i, (YamlTree::Str(key), value)),
        (forall|i: int| 0 <= i < entries.len() ==> (#[trigger] entries[i]).0 != YamlTree::Str(key))
            ==> put(entries, key, value) == entries.push((YamlTree::Str(key), value)),
{
    lemma_position(entries, key);
    assert forall|i: int|
        0 <= i < entries.len() && (#[trigger] entries[i]).0 == YamlTree::Str(key) && (forall|j: int|
            0 <= j < i ==> (#[trigger] entries[j]).0 != YamlTree::Str(key)) implies put(
        entries,
        key,
        value,
    ) == entries.update(i, (YamlTree::Str(key), value)) by {
        assert(key_at(entries, key, i));
    }
}

/// New keys are appended in the order in which the updates first set them.
pub proof fn new_keys_come_in_order(
    entries: Seq<(YamlTree, YamlTree)>,
    updates: Seq<(Seq<char>, YamlTree)>,
    p: int,
    q: int,
)
    requires
        entries.len() <= p < q < patch(entries, updates).len(),
    ensures
        exists|a: int|
            0 <= a < updates.len() && YamlTree::Str((#[trigger] updates[a]).0) == patch(
                entries,
                updates,
            )[p].0 && forall|b: int|
                0 <= b <= a ==> YamlTree::Str((#[trigger] updates[b]).0) != patch(entries, updates)[q].0,
    decreases updates.len(),
{
    let less = updates.drop_last();
    let before = patch(entries, less);
    let after = patch(entries, updates);
    let key = updates.last().0;
    patch_keeps_key_order(entries, less);
    patch_keeps_key_order(entries, updates);
    lemma_position(before, key);
    if q < before.len() {
        new_keys_come_in_order(entries, less, p, q);
        assert(after[p].0 == before[p].0 && after[q].0 == before[q].0);
        let a = choose|a: int|
            0 <= a < less.len() && YamlTree::Str((#[trigger] less[a]).0) == before[p].0 && forall|
                b: int,
            |
                0 <= b <= a ==> YamlTree::Str((#[trigger] less[b]).0) != before[q].0;
        assert(updates[a] == less[a]);
        assert forall|b: int| 0 <= b <= a implies YamlTree::Str((#[trigger] updates[b]).0)
            != after[q].0 by {
            assert(updates[b] == less[b]);
        }
    } else {
        assert(after == before.push((YamlTree::Str(key), updates.last().1)));
        assert(after[p] == before[p]);
        let name = before[p].0->Str_0;
        assert(updated(less, name));
        let a = choose|a: int| 0 <= a < less.len() && #[trigger] less[a].0 == name;
        assert(updates[a] == less[a]);
        assert forall|b: int| 0 <= b <= a implies YamlTree::Str((#[trigger] updates[b]).0)
            != after[q].0 by {
            if updates[b].0 == key {
                assert(less[b].0 == key);
                patch_sets_the_updates(entries, less, key);
            }
        }
    }
}

/// Updates of distinct keys that are made to nothing are the entries, in their order.
pub proof fn distinct_updates_are_the_entries(updates: Seq<(Seq<char>, YamlTree)>)
    requires
        forall|i: int, j: int|
            0 <= i < j < updates.len() ==> (#[trigger] updates[i]).0 != (#[trigger] updates[j]).0,
    ensures
        patch(Seq::empty(), updates).len() == updates.len(),
        forall|i: int|
            0 <= i < updates.len() ==> #[trigger] patch(Seq::empty(), updates)[i] == (
                YamlTree::Str(updates[i].0),
                updates[i].1,
            ),
    decreases updates.len(),
{
    if updates.len() > 0 {
        let less = updates.drop_last();
        let last = updates.len() - 1;
        assert forall|i: int, j: int| 0 <= i < j < less.len() implies (#[trigger] less[i]).0 != (
        #[trigger] less[j]).0 by {
            assert(updates[i].0 != updates[j].0);
        }
        distinct_updates_are_the_entries(less);
        let before = patch(Seq::empty(), less);
        lemma_position(before, updates.last().0);
        assert forall|i: int| 0 <= i < before.len() implies before[i].0 != YamlTree::Str(
            updates.last().0,
        ) by {
            assert(before[i] == (YamlTree::Str(less[i].0), less[i].1));
            assert(updates[i].0 != updates[last].0);
        }
    }
}

} // verus!
