//! A set of dispatch entries that answers whether an entry is in it.

use std::collections::BTreeSet;
use vstd::prelude::*;
use crate::command::CommandType;
use crate::event_queue::Item;
use crate::time::Duration;

verus! {

/// The integers by which an entry is found again: its time, and kind and id
/// of its identity.
pub closed spec fn entry_key(item: Item) -> (u64, u8, usize) {
    (item.time.ticks() as u64, item.cmd_type.slot().0, item.cmd_type.slot().1)
}

/// Different entries have different keys.
proof fn lemma_entry_key_determines(a: Item, b: Item)
    requires
        entry_key(a) == entry_key(b),
    ensures
        a == b,
{
    a.time.lemma_ticks_bounded();
    b.time.lemma_ticks_bounded();
    Duration::lemma_ticks_injective(a.time, b.time);
    CommandType::lemma_key_determines(a.cmd_type, b.cmd_type);
}

fn key_of(item: &Item) -> (k: (u64, u8, usize))
    ensures
        k == entry_key(*item),
{
    let id = item.cmd_type.key();
    proof {
        item.time.lemma_ticks_bounded();
    }
    (item.time.to_ticks(), id.0, id.1)
}

pub struct EntrySet {
    keys: BTreeSet<(u64, u8, usize)>,
}

impl View for EntrySet {
    type V = Set<Item>;

    closed spec fn view(&self) -> Set<Item> {
        Set::new(|item: Item| self.keys@.contains(entry_key(item)))
    }
}

impl EntrySet {
    pub fn new() -> (s: EntrySet)
        ensures
            s@ == Set::<Item>::empty(),
    {
        let s = EntrySet { keys: BTreeSet::new() };
        assert(s@ =~= Set::<Item>::empty());
        s
    }

    pub fn insert(&mut self, item: Item)
        ensures
            final(self)@ == old(self)@.insert(item),
    {
        broadcast use vstd::std_specs::btree::group_btree_axioms;
        broadcast use vstd::laws_cmp::group_laws_cmp;

        let k = key_of(&item);
        let _ = self.keys.insert(k);
        proof {
            assert forall|other: Item| #[trigger]
                final(self)@.contains(other) == old(self)@.insert(item).contains(other) by {
                if entry_key(other) == entry_key(item) {
                    lemma_entry_key_determines(other, item);
                }
            }
            assert(final(self)@ =~= old(self)@.insert(item));
        }
    }

    pub fn contains(&self, item: &Item) -> (b: bool)
        ensures
            b == self@.contains(*item),
    {
        broadcast use vstd::std_specs::btree::group_btree_axioms;
        broadcast use vstd::laws_cmp::group_laws_cmp;

        let k = key_of(item);
        self.keys.contains(&k)
    }
}

} // verus!
