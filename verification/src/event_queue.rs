//! The queue of dispatch entries: a binary min-heap in the order of dispatch.
//!
//! An entry is never removed or moved on behalf of a cancellation or a
//! reschedule. The queue only hands out its earliest entry; whether that entry
//! still stands for a scheduled command is for the caller to decide.

use std::cmp::Ordering;
use vstd::prelude::*;
use vstd::multiset::Multiset;
use vstd::seq_lib::{to_multiset_build, to_multiset_remove, to_multiset_update};
use crate::command::CommandType;
use crate::time::Duration;

verus! {

/// One entry of the queue: dispatch the command in slot `cmd_type` at `time`.
#[derive(Clone, Copy, Debug, PartialEq, Eq, Structural)]
pub struct Item {
    pub time: Duration,
    pub cmd_type: CommandType,
}

impl Item {
    /// The order of dispatch: earlier times first; of two entries for the same
    /// time, the one whose identity is the greater comes first.
    pub open spec fn comes_before(self, other: Item) -> bool {
        self.time.ticks() < other.time.ticks() || (self.time.ticks() == other.time.ticks()
            && other.cmd_type.precedes(self.cmd_type))
    }

    pub open spec fn not_after(self, other: Item) -> bool {
        self.comes_before(other) || self == other
    }

    pub fn is_before(&self, other: &Item) -> (b: bool)
        ensures
            b == self.comes_before(*other),
    {
        let a: u64 = self.time.to_ticks();
        let c: u64 = other.time.to_ticks();
        a < c || (a == c && other.cmd_type.is_before(&self.cmd_type))
    }

    /// Compares two entries as a max-heap would have them: `Greater` is the
    /// entry that is dispatched first.
    pub fn cmp(&self, other: &Item) -> (o: Ordering)
        ensures
            (o is Greater) == self.comes_before(*other),
            (o is Less) == other.comes_before(*self),
            (o is Equal) == (*self == *other),
    {
        proof {
            Item::lemma_total(*self, *other);
        }
        if self.is_before(other) {
            Ordering::Greater
        } else if other.is_before(self) {
            Ordering::Less
        } else {
            Ordering::Equal
        }
    }

    /// Of two different entries exactly one comes before the other.
    pub proof fn lemma_total(a: Item, b: Item)
        ensures
            a.comes_before(b) || b.comes_before(a) || a == b,
            !(a.comes_before(b) && b.comes_before(a)),
            !a.comes_before(a),
            a.not_after(b) <==> !b.comes_before(a),
    {
        if a.time.ticks() == b.time.ticks() {
            Duration::lemma_ticks_injective(a.time, b.time);
            if !a.cmd_type.precedes(b.cmd_type) && !b.cmd_type.precedes(a.cmd_type) {
                CommandType::lemma_key_determines(a.cmd_type, b.cmd_type);
            }
        }
    }

    pub proof fn lemma_transitive(a: Item, b: Item, c: Item)
        ensures
            a.not_after(b) && b.not_after(c) ==> a.not_after(c),
            a.comes_before(b) && b.not_after(c) ==> a.comes_before(c),
            a.not_after(b) && b.comes_before(c) ==> a.comes_before(c),
    {
    }
}

/// Index of the parent of heap position `i`.
pub open spec fn parent(i: int) -> int {
    (i - 1) / 2
}

/// Every position but the root holds an entry that does not come before its
/// parent's.
pub open spec fn heap_ordered(s: Seq<Item>) -> bool {
    forall|i: int| 0 < i < s.len() ==> s[parent(i)].not_after(#[trigger] s[i])
}

/// As `heap_ordered`, but nothing is said of position `hole` against its
/// parent; instead the children of `hole` are in order with its parent.
spec fn ordered_above(s: Seq<Item>, hole: int) -> bool {
    &&& forall|i: int| 0 < i < s.len() && i != hole ==> s[parent(i)].not_after(#[trigger] s[i])
    &&& forall|i: int|
        0 < i < s.len() && parent(i) == hole && hole > 0 ==> s[parent(hole)].not_after(
            #[trigger] s[i],
        )
}

/// As `heap_ordered`, but nothing is said of the children of position `hole`
/// against it; instead they are in order with the parent of `hole`.
spec fn ordered_below(s: Seq<Item>, hole: int) -> bool {
    &&& forall|i: int|
        0 < i < s.len() && parent(i) != hole ==> s[parent(i)].not_after(#[trigger] s[i])
    &&& forall|i: int|
        0 < i < s.len() && parent(i) == hole && hole > 0 ==> s[parent(hole)].not_after(
            #[trigger] s[i],
        )
}

/// In an ordered heap the root comes before everything else.
proof fn lemma_root_is_least(s: Seq<Item>, i: int)
    requires
        heap_ordered(s),
        0 <= i < s.len(),
    ensures
        s[0].not_after(s[i]),
    decreases i,
{
    if i > 0 {
        lemma_root_is_least(s, parent(i));
        Item::lemma_transitive(s[0], s[parent(i)], s[i]);
    }
}

/// Exchanging two positions leaves the multiset of entries as it was.
proof fn lemma_swap_keeps_entries(s: Seq<Item>, i: int, j: int)
    requires
        0 <= i < s.len(),
        0 <= j < s.len(),
    ensures
        s.update(i, s[j]).update(j, s[i]).to_multiset() == s.to_multiset(),
{
    broadcast use vstd::multiset::group_multiset_axioms;

    let mid = s.update(i, s[j]);
    to_multiset_update(s, i, s[j]);
    to_multiset_update(mid, j, s[i]);
    s.to_multiset_ensures();
    assert(s.contains(s[i]));
    assert(s.contains(s[j]));
    assert(mid.update(j, s[i]).to_multiset() =~= s.to_multiset());
}

/// A multiset of dispatch entries from which the earliest can be taken.
pub struct EventQueue {
    heap: Vec<Item>,
}

impl View for EventQueue {
    type V = Multiset<Item>;

    /// The entries held, each as often as it was pushed and not yet popped.
    closed spec fn view(&self) -> Multiset<Item> {
        self.heap@.to_multiset()
    }
}

impl EventQueue {
    pub closed spec fn wf(&self) -> bool {
        heap_ordered(self.heap@)
    }

    /// `m` is held, and nothing held comes before it.
    pub open spec fn is_earliest(entries: Multiset<Item>, m: Item) -> bool {
        &&& entries.count(m) > 0
        &&& forall|e: Item| #[trigger] entries.count(e) > 0 ==> m.not_after(e)
    }

    pub fn new() -> (q: EventQueue)
        ensures
            q.wf(),
            q@ == Multiset::<Item>::empty(),
    {
        let q = EventQueue { heap: Vec::new() };
        assert(q.heap@.to_multiset() =~= Multiset::<Item>::empty()) by {
            broadcast use vstd::seq_lib::group_to_multiset_ensures;
            q.heap@.to_multiset_ensures();
            assert(q.heap@.to_multiset().len() == 0);
        }
        q
    }

    pub fn len(&self) -> (n: usize)
        ensures
            n == self@.len(),
    {
        proof {
            self.heap@.to_multiset_ensures();
        }
        self.heap.len()
    }

    pub fn is_empty(&self) -> (b: bool)
        ensures
            b == (self@.len() == 0),
    {
        proof {
            self.heap@.to_multiset_ensures();
        }
        self.heap.len() == 0
    }

    /// The entries held, in no particular order.
    pub fn entries(&self) -> (items: Vec<Item>)
        ensures
            items@.to_multiset() == self@,
    {
        let mut items: Vec<Item> = Vec::new();
        let n: usize = self.heap.len();
        let mut i: usize = 0;
        while i < n
            invariant
                n == self.heap@.len(),
                i <= n,
                items@ == self.heap@.take(i as int),
            decreases n - i,
        {
            items.push(self.heap[i]);
            assert(self.heap@.take(i + 1) =~= self.heap@.take(i as int).push(self.heap@[i as int]));
            i += 1;
        }
        assert(self.heap@.take(n as int) =~= self.heap@);
        items
    }

    /// Adds one entry.
    pub fn push(&mut self, item: Item)
        requires
            old(self).wf(),
        ensures
            final(self).wf(),
            final(self)@ == old(self)@.insert(item),
    {
        proof {
            to_multiset_build(self.heap@, item);
        }
        self.heap.push(item);
        let ghost target = self.heap@.to_multiset();
        let mut i: usize = self.heap.len() - 1;
        while i > 0
            invariant
                i < self.heap.len(),
                self.heap@.to_multiset() == target,
                ordered_above(self.heap@, i as int),
            ensures
                heap_ordered(self.heap@),
                self.heap@.to_multiset() == target,
            decreases i,
        {
            let p: usize = (i - 1) / 2;
            let child = self.heap[i];
            let above = self.heap[p];
            if !child.is_before(&above) {
                proof {
                    Item::lemma_total(above, child);
                }
                break;
            }
            let ghost before = self.heap@;
            proof {
                lemma_swap_keeps_entries(before, i as int, p as int);
            }
            self.heap.set(i, above);
            self.heap.set(p, child);
            proof {
                let after = self.heap@;
                assert forall|j: int| 0 < j < after.len() && j != p implies after[parent(
                    j,
                )].not_after(#[trigger] after[j]) by {
                    if j != i && parent(j) == p {
                        Item::lemma_transitive(child, above, before[j]);
                    }
                }
                assert forall|j: int|
                    0 < j < after.len() && parent(j) == p && p > 0 implies after[parent(
                    p as int,
                )].not_after(#[trigger] after[j]) by {
                    if j != i {
                        Item::lemma_transitive(before[parent(p as int)], above, before[j]);
                    }
                }
            }
            i = p;
        }
    }

    /// The entry that `pop` would take, if there is any.
    pub fn peek(&self) -> (r: Option<Item>)
        requires
            self.wf(),
        ensures
            match r {
                None => self@.len() == 0,
                Some(m) => Self::is_earliest(self@, m),
            },
    {
        proof {
            self.heap@.to_multiset_ensures();
        }
        if self.heap.len() == 0 {
            None
        } else {
            let m = self.heap[0];
            proof {
                self.lemma_root_is_earliest();
            }
            Some(m)
        }
    }

    proof fn lemma_root_is_earliest(&self)
        requires
            self.wf(),
            self.heap@.len() > 0,
        ensures
            Self::is_earliest(self@, self.heap@[0]),
    {
        let s = self.heap@;
        s.to_multiset_ensures();
        assert(s.contains(s[0]));
        assert forall|e: Item| s.to_multiset().count(e) > 0 implies s[0].not_after(e) by {
            assert(s.contains(e));
            let i = choose|i: int| 0 <= i < s.len() && s[i] == e;
            lemma_root_is_least(s, i);
        }
    }

    /// Takes the earliest entry out, if there is any.
    pub fn pop(&mut self) -> (r: Option<Item>)
        requires
            old(self).wf(),
        ensures
            final(self).wf(),
            match r {
                None => old(self)@.len() == 0 && final(self)@ == old(self)@,
                Some(m) => Self::is_earliest(old(self)@, m) && final(self)@ == old(self)@.remove(
                    m,
                ),
            },
    {
        proof {
            self.heap@.to_multiset_ensures();
        }
        if self.heap.len() == 0 {
            return None;
        }
        let ghost start = self.heap@;
        let top = self.heap[0];
        proof {
            self.lemma_root_is_earliest();
        }
        let last = self.heap.pop().unwrap();
        proof {
            assert(self.heap@ =~= start.remove(start.len() - 1));
            to_multiset_remove(start, start.len() - 1);
        }
        if self.heap.len() == 0 {
            assert(self.heap@.to_multiset() =~= start.to_multiset().remove(top));
            return Some(top);
        }
        proof {
            to_multiset_update(self.heap@, 0, last);
            assert(self.heap@.update(0, last).to_multiset() =~= start.to_multiset().remove(top));
        }
        self.heap.set(0, last);
        let ghost target = self.heap@.to_multiset();
        let n: usize = self.heap.len();
        let mut i: usize = 0;
        loop
            invariant
                n == self.heap.len(),
                i < n,
                self.heap@.to_multiset() == target,
                ordered_below(self.heap@, i as int),
            ensures
                heap_ordered(self.heap@),
                self.heap@.to_multiset() == target,
            decreases n - i,
        {
            if n < 2 || i > (n - 2) / 2 {
                assert forall|j: int| 0 < j < n implies parent(j) != i by {}
                break;
            }
            let left: usize = 2 * i + 1;
            let right: usize = left + 1;
            let mut c: usize = left;
            if right < n {
                let l = self.heap[left];
                let r = self.heap[right];
                if r.is_before(&l) {
                    c = right;
                } else {
                    proof {
                        Item::lemma_total(l, r);
                    }
                }
            }
            let below = self.heap[c];
            let here = self.heap[i];
            let ghost before = self.heap@;
            assert forall|j: int| 0 < j < n && parent(j) == i implies below.not_after(
                #[trigger] before[j],
            ) by {
                assert(j == left || j == right);
            }
            if !below.is_before(&here) {
                proof {
                    assert forall|j: int| 0 < j < n implies before[parent(j)].not_after(
                        #[trigger] before[j],
                    ) by {
                        if parent(j) == i {
                            Item::lemma_total(here, below);
                            Item::lemma_transitive(here, below, before[j]);
                        }
                    }
                }
                break;
            }
            proof {
                lemma_swap_keeps_entries(before, i as int, c as int);
            }
            self.heap.set(i, below);
            self.heap.set(c, here);
            assert(parent(c as int) == i);
            i = c;
        }
        Some(top)
    }
}

} // verus!
