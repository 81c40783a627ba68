//! The table of scheduled commands: for each identity at most one command,
//! with the time at which it is to be dispatched.

use std::collections::BTreeMap;
use vstd::prelude::*;
use vstd::std_specs::cmp::OrdSpec;
use vstd::std_specs::iter::IteratorSpec;
use crate::command::{Command, CommandType};
use crate::time::Duration;

verus! {

/// The table that a list of scheduled commands stands for: each command
/// under its identity; of two with the same identity, the later one.
pub open spec fn table_of(commands: Seq<(Command, Duration)>) -> Map<
    CommandType,
    (Command, Duration),
>
    decreases commands.len(),
{
    if commands.len() == 0 {
        Map::empty()
    } else {
        table_of(commands.drop_last()).insert(commands.last().0.identity(), commands.last())
    }
}

/// `a` is less than `b` in the order of their type.
spec fn comes_first<K: Ord>(a: K, b: K) -> bool {
    a.cmp_spec(&b) is Less
}

/// The commands of the list stand in the order of their identities.
pub open spec fn ascending_identities(commands: Seq<(Command, Duration)>) -> bool {
    forall|i: int, j: int|
        0 <= i < j < commands.len() ==> (#[trigger] commands[i]).0.identity().precedes(
            (#[trigger] commands[j]).0.identity(),
        )
}

/// No two commands of the list have the same identity.
pub open spec fn distinct_identities(commands: Seq<(Command, Duration)>) -> bool {
    forall|i: int, j: int|
        0 <= i < j < commands.len() ==> (#[trigger] commands[i]).0.identity()
            != (#[trigger] commands[j]).0.identity()
}

/// What `table_of` holds: the identities of the list's commands, and for
/// each the last command that has it.
pub proof fn lemma_table_of(commands: Seq<(Command, Duration)>)
    ensures
        forall|id: CommandType| #[trigger]
            table_of(commands).contains_key(id) <==> exists|i: int|
                0 <= i < commands.len() && (#[trigger] commands[i]).0.identity() == id,
        forall|i: int|
            0 <= i < commands.len() && (forall|j: int|
                i < j < commands.len() ==> (#[trigger] commands[j]).0.identity()
                    != commands[i].0.identity()) ==> table_of(commands)[(
            #[trigger] commands[i]).0.identity()] == commands[i],
    decreases commands.len(),
{
    if commands.len() > 0 {
        let rest = commands.drop_last();
        lemma_table_of(rest);
        assert forall|id: CommandType| #[trigger]
            table_of(commands).contains_key(id) <==> exists|i: int|
                0 <= i < commands.len() && (#[trigger] commands[i]).0.identity() == id by {
            if table_of(commands).contains_key(id) {
                if id == commands.last().0.identity() {
                    assert(commands[commands.len() - 1].0.identity() == id);
                } else {
                    assert(table_of(rest).contains_key(id));
                    let i = choose|i: int|
                        0 <= i < rest.len() && (#[trigger] rest[i]).0.identity() == id;
                    assert(commands[i].0.identity() == id);
                }
            }
            if exists|i: int| 0 <= i < commands.len() && (#[trigger] commands[i]).0.identity() == id {
                let i = choose|i: int|
                    0 <= i < commands.len() && (#[trigger] commands[i]).0.identity() == id;
                if i < rest.len() {
                    assert(rest[i].0.identity() == id);
                }
            }
        }
        assert forall|i: int|
            0 <= i < commands.len() && (forall|j: int|
                i < j < commands.len() ==> (#[trigger] commands[j]).0.identity()
                    != commands[i].0.identity()) implies table_of(commands)[(
        #[trigger] commands[i]).0.identity()] == commands[i] by {
            if i < rest.len() {
                assert(rest[i] == commands[i]);
                assert(commands[commands.len() - 1].0.identity() != commands[i].0.identity());
                assert forall|j: int| i < j < rest.len() implies (#[trigger] rest[j]).0.identity()
                    != rest[i].0.identity() by {
                    assert(commands[j].0.identity() != commands[i].0.identity());
                }
            }
        }
    }
}

/// The scheduled commands, by identity. An identity is filed under its kind
/// and id as a pair of integers, which the map orders as the identities are
/// ordered.
pub struct Registry {
    slots: BTreeMap<(u8, usize), (Command, Duration)>,
}

impl View for Registry {
    type V = Map<CommandType, (Command, Duration)>;

    closed spec fn view(&self) -> Map<CommandType, (Command, Duration)> {
        Map::new(
            |id: CommandType| self.slots@.contains_key(id.slot()),
            |id: CommandType| self.slots@[id.slot()],
        )
    }
}

impl Registry {
    /// Every command is filed under its own identity.
    pub closed spec fn wf(&self) -> bool {
        forall|k: (u8, usize)| #[trigger]
            self.slots@.contains_key(k) ==> self.slots@[k].0.identity().slot() == k
    }

    /// What the invariant says of the view.
    pub proof fn lemma_filed_by_identity(&self)
        requires
            self.wf(),
        ensures
            forall|id: CommandType| #[trigger]
                self@.contains_key(id) ==> self@[id].0.identity() == id,
    {
        assert forall|id: CommandType| #[trigger] self@.contains_key(id) implies self@[id].0.identity()
            == id by {
            let k = id.slot();
            assert(self.slots@.contains_key(k));
        }
    }

    pub fn new() -> (r: Registry)
        ensures
            r.wf(),
            r@ == Map::<CommandType, (Command, Duration)>::empty(),
    {
        let r = Registry { slots: BTreeMap::new() };
        assert(r@ =~= Map::<CommandType, (Command, Duration)>::empty());
        r
    }

    /// The command scheduled under `id`, with its time.
    pub fn get(&self, id: &CommandType) -> (r: Option<(Command, Duration)>)
        requires
            self.wf(),
        ensures
            r == (if self@.contains_key(*id) {
                Some(self@[*id])
            } else {
                None
            }),
    {
        broadcast use vstd::std_specs::btree::group_btree_axioms;
        broadcast use vstd::laws_cmp::group_laws_cmp;

        let k = id.key();
        assert(k == (*id).slot());
        match self.slots.get(&k) {
            Some(entry) => Some(*entry),
            None => None,
        }
    }

    /// Files `cmd` under its identity, in place of what was there.
    pub fn insert(&mut self, cmd: Command, time: Duration)
        requires
            old(self).wf(),
        ensures
            final(self).wf(),
            final(self)@ == old(self)@.insert(cmd.identity(), (cmd, time)),
    {
        broadcast use vstd::std_specs::btree::group_btree_axioms;
        broadcast use vstd::laws_cmp::group_laws_cmp;

        let id = cmd.to_type();
        let k = id.key();
        assert(k == id.slot());
        self.slots.insert(k, (cmd, time));
        assert(final(self)@ =~= old(self)@.insert(cmd.identity(), (cmd, time)));
    }

    /// Takes out what is filed under `id`, if anything.
    pub fn remove(&mut self, id: &CommandType) -> (r: Option<(Command, Duration)>)
        requires
            old(self).wf(),
        ensures
            final(self).wf(),
            final(self)@ == old(self)@.remove(*id),
            r == (if old(self)@.contains_key(*id) {
                Some(old(self)@[*id])
            } else {
                None
            }),
    {
        broadcast use vstd::std_specs::btree::group_btree_axioms;
        broadcast use vstd::laws_cmp::group_laws_cmp;

        let k = id.key();
        assert(k == (*id).slot());
        let r = self.slots.remove(&k);
        assert(final(self)@ =~= old(self)@.remove(*id));
        r
    }

    /// Whether the same commands are scheduled here and there, for the same
    /// times.
    pub fn same_as(&self, other: &Registry) -> (b: bool)
        requires
            self.wf(),
            other.wf(),
        ensures
            b == (self@ == other@),
    {
        broadcast use vstd::std_specs::btree::group_btree_axioms;
        broadcast use vstd::laws_cmp::group_laws_cmp;

        if self.slots.len() != other.slots.len() {
            proof {
                if self@ == other@ {
                    self.lemma_same_view_same_slots(other);
                }
            }
            return false;
        }
        let ghost keys = vstd::std_specs::btree::spec_keys_iter(&self.slots).remaining();
        let ghost mut seen: int = 0;
        for k in iter: self.slots.keys()
            invariant
                self.wf(),
                other.wf(),
                iter.seq() == keys,
                seen == iter.index(),
                keys.unref().to_set() == self.slots@.dom(),
                forall|i: int|
                    0 <= i < seen ==> other.slots@.contains_key(*#[trigger] keys[i])
                        && other.slots@[*keys[i]] == self.slots@[*keys[i]],
        {
            assert(keys.unref()[seen] == *k);
            assert(keys.unref().to_set().contains(*k));
            proof {
                seen = seen + 1;
            }
            let same = match (self.slots.get(k), other.slots.get(k)) {
                (Some(a), Some(b)) => a.0 == b.0 && a.1 == b.1,
                _ => false,
            };
            if !same {
                proof {
                    if self@ == other@ {
                        self.lemma_same_view_same_slots(other);
                    }
                }
                return false;
            }
        }
        proof {
            assert forall|key: (u8, usize)| self.slots@.contains_key(key) implies other.slots@.contains_key(key)
                && other.slots@[key] == self.slots@[key] by {
                assert(keys.unref().to_set().contains(key));
                let i = choose|i: int| 0 <= i < keys.unref().len() && keys.unref()[i] == key;
                assert(*keys[i] == key);
            }
            vstd::set_lib::lemma_subset_equality(self.slots@.dom(), other.slots@.dom());
            assert(self.slots@ =~= other.slots@);
            assert(self@ =~= other@);
        }
        true
    }

    /// Two registries that stand for the same table hold the same slots.
    proof fn lemma_same_view_same_slots(&self, other: &Registry)
        requires
            self.wf(),
            other.wf(),
            self@ == other@,
        ensures
            self.slots@ == other.slots@,
    {
        assert forall|k: (u8, usize)| self.slots@.contains_key(k) implies other.slots@.contains_key(k)
            && other.slots@[k] == self.slots@[k] by {
            let id = self.slots@[k].0.identity();
            assert(self@.contains_key(id));
            assert(other@.contains_key(id));
            assert(other@[id] == self@[id]);
        }
        assert forall|k: (u8, usize)| other.slots@.contains_key(k) implies self.slots@.contains_key(k) by {
            let id = other.slots@[k].0.identity();
            assert(other@.contains_key(id));
            assert(self@.contains_key(id));
        }
        assert(self.slots@ =~= other.slots@);
    }

    /// The scheduled commands with their times, one for each identity.
    pub fn entries(&self) -> (commands: Vec<(Command, Duration)>)
        requires
            self.wf(),
        ensures
            distinct_identities(commands@),
            ascending_identities(commands@),
            table_of(commands@) == self@,
    {
        broadcast use vstd::std_specs::btree::group_btree_axioms;
        broadcast use vstd::laws_cmp::group_laws_cmp;

        let mut commands: Vec<(Command, Duration)> = Vec::new();
        let ghost keys = vstd::std_specs::btree::spec_keys_iter(&self.slots).remaining();
        let ghost mut seen: int = 0;
        for k in iter: self.slots.keys()
            invariant
                self.wf(),
                iter.seq() == keys,
                seen == iter.index(),
                keys.unref().to_set() == self.slots@.dom(),
                keys.no_duplicates(),
                vstd::std_specs::btree::increasing_seq(keys),
                commands@.len() == seen,
                forall|i: int|
                    #![trigger keys[i]]
                    0 <= i < seen ==> self.slots@.contains_key(*keys[i]) && commands@[i]
                        == self.slots@[*keys[i]],
        {
            assert(keys.unref()[seen] == *k);
            assert(keys.unref().to_set().contains(*k));
            let ghost before = commands@;
            match self.slots.get(k) {
                Some(entry) => {
                    commands.push(*entry);
                },
                None => {},
            }
            proof {
                assert(commands@ == before.push(self.slots@[*k]));
                assert forall|i: int|
                    #![trigger keys[i]]
                    0 <= i < seen + 1 implies self.slots@.contains_key(*keys[i]) && commands@[i]
                    == self.slots@[*keys[i]] by {
                    if i < seen {
                        assert(before[i] == self.slots@[*keys[i]]);
                    } else {
                        assert(*keys[i] == *k);
                    }
                }
                seen = seen + 1;
            }
        }
        proof {
            self.lemma_entries(keys, commands@);
        }
        commands
    }

    /// A list that holds the slots' values in the order of a list of all
    /// keys stands for the registry.
    proof fn lemma_entries(&self, keys: Seq<&(u8, usize)>, commands: Seq<(Command, Duration)>)
        requires
            self.wf(),
            keys.unref().to_set() == self.slots@.dom(),
            keys.no_duplicates(),
            vstd::std_specs::btree::increasing_seq(keys),
            commands.len() == keys.len(),
            forall|i: int|
                #![trigger keys[i]]
                0 <= i < keys.len() ==> self.slots@.contains_key(*keys[i]) && commands[i]
                    == self.slots@[*keys[i]],
        ensures
            distinct_identities(commands),
            ascending_identities(commands),
            table_of(commands) == self@,
    {
        broadcast use vstd::std_specs::btree::group_btree_axioms;
        broadcast use vstd::laws_cmp::group_laws_cmp;

        assert(vstd::laws_cmp::obeys_cmp::<(u8, usize)>());
        assert(vstd::laws_cmp::obeys_cmp::<&(u8, usize)>());
        vstd::std_specs::btree::axiom_increasing_seq_meaning(keys);
        assert forall|i: int, j: int| 0 <= i < j < commands.len() implies (
        #[trigger] commands[i]).0.identity().precedes((#[trigger] commands[j]).0.identity()) by {
            assert(self.slots@.contains_key(*keys[i]));
            assert(self.slots@.contains_key(*keys[j]));
            assert(commands[i].0.identity().slot() == *keys[i]);
            assert(commands[j].0.identity().slot() == *keys[j]);
            assert(comes_first(keys[i], keys[j]));
        }
        assert forall|i: int| 0 <= i < commands.len() implies (
        #[trigger] commands[i]).0.identity().slot() == *keys[i] by {
            assert(self.slots@.contains_key(*keys[i]));
        }
        assert forall|i: int, j: int| 0 <= i < j < commands.len() implies (
        #[trigger] commands[i]).0.identity() != (#[trigger] commands[j]).0.identity() by {
            assert(commands[i].0.identity().slot() == *keys[i]);
            assert(commands[j].0.identity().slot() == *keys[j]);
            assert(keys[i] != keys[j]);
        }
        lemma_table_of(commands);
        assert forall|id: CommandType| table_of(commands).contains_key(id) implies #[trigger]
            self@.contains_key(id) && self@[id] == table_of(commands)[id] by {
            let i = choose|i: int|
                0 <= i < commands.len() && (#[trigger] commands[i]).0.identity() == id;
            assert(commands[i].0.identity().slot() == *keys[i]);
            assert(table_of(commands)[commands[i].0.identity()] == commands[i]);
        }
        assert forall|id: CommandType| #[trigger] self@.contains_key(id) implies table_of(
            commands,
        ).contains_key(id) by {
            let k = id.slot();
            assert(keys.unref().to_set().contains(k));
            let i = choose|i: int| 0 <= i < keys.unref().len() && keys.unref()[i] == k;
            assert(*keys[i] == k);
            assert(commands[i] == self.slots@[k]);
            assert(commands[i].0.identity() == id);
        }
        assert(table_of(commands) =~= self@);
    }
}

} // verus!
