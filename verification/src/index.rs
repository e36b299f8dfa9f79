//! The enumeration index: an ordered, countable family of item listings
//! keyed by an owner-like key, with constant-time append and
//! swap-with-last-element removal.
//!
//! Conceptually it maintains the triple `forward[(key, position)] -> item`,
//! `reverse[item] -> position`, `count[key] -> length`. Here `forward` and
//! `count` are realized as one dense vector per key, and `reverse` as the
//! position map. The registry instantiates it five times: tokens per
//! account, sets per account, tokens per set, ask offers per account and
//! bid offers per account.

use vstd::prelude::*;
use std::collections::HashMap;

use crate::types::Error;

verus! {

broadcast use vstd::std_specs::hash::group_hash_axioms;

/// The listing that `remove` leaves behind: the removed item's position is
/// overwritten with the last item, then the last position is dropped. When
/// the removed item is the last one, nothing is relocated.
pub open spec fn swap_removed(s: Seq<u32>, item: u32) -> Seq<u32> {
    s.update(s.index_of(item), s.last()).drop_last()
}

/// Appending an item that is not yet listed and then removing it restores
/// the listing exactly as it was: the count returns to its prior value and
/// the item is left at no position. Together with well-formedness, which
/// ties every reverse entry to an occupied position, no dangling reverse
/// entry can remain.
pub proof fn lemma_append_then_remove(s: Seq<u32>, item: u32)
    requires
        !s.contains(item),
    ensures
        swap_removed(s.push(item), item) == s,
        !swap_removed(s.push(item), item).contains(item),
        swap_removed(s.push(item), item).len() == s.len(),
{
    let s2 = s.push(item);
    assert(s2[s.len() as int] == item);
    assert(s2.contains(item));
    let p = s2.index_of(item);
    assert(0 <= p < s2.len() && s2[p] == item);
    if p < s.len() {
        assert(s[p] == item);
        assert(s.contains(item));
    }
    assert(p == s.len());
    assert(s2.update(p, s2.last()) =~= s2);
    assert(swap_removed(s2, item) =~= s);
}

/// Removing the last-positioned item never relocates anything: the result
/// is the listing with its last position dropped. Removing any other item
/// relocates exactly one item — the one that stood last — into the removed
/// item's position, and leaves every other position unchanged. (That the
/// relocated item's reverse pointer is updated consistently is part of
/// `EnumIndex::remove`'s well-formedness guarantee.)
pub proof fn lemma_swap_remove_positions(s: Seq<u32>, item: u32)
    requires
        s.no_duplicates(),
        s.contains(item),
    ensures
        s.index_of(item) == s.len() - 1 ==> swap_removed(s, item) == s.drop_last(),
        s.index_of(item) < s.len() - 1 ==> {
            let out = swap_removed(s, item);
            &&& out.len() == s.len() - 1
            &&& out[s.index_of(item)] == s.last()
            &&& forall|i: int| 0 <= i < out.len() && i != s.index_of(item) ==> out[i] == s[i]
        },
{
    let p = s.index_of(item);
    assert(0 <= p < s.len() && s[p] == item);
    if p == s.len() - 1 {
        assert(s.update(p, s.last()) =~= s);
        assert(swap_removed(s, item) =~= s.drop_last());
    }
}

pub struct EnumIndex {
    /// Per-key dense listings: the items of `key` stand at positions
    /// `0 .. count(key)` of `slots[key]`.
    slots: HashMap<u64, Vec<u32>>,
    /// Reverse map: the position at which an item stands within the one
    /// key that lists it.
    positions: HashMap<u32, u32>,
}

impl EnumIndex {
    /// The items listed under `key`, in position order.
    pub closed spec fn seq_of(self, key: u64) -> Seq<u32> {
        if self.slots@.contains_key(key) {
            self.slots@[key]@
        } else {
            Seq::<u32>::empty()
        }
    }

    /// Whether `item` is listed under `key`.
    pub open spec fn contains_item(self, key: u64, item: u32) -> bool {
        self.seq_of(key).contains(item)
    }

    /// Structural invariant: every listed item has exactly one recorded
    /// position, the position points back at the item's slot, every
    /// listing is short enough for 32-bit positions, and no item is listed
    /// twice, neither under one key nor across keys.
    pub closed spec fn wf(self) -> bool {
        &&& forall|k: u64| #[trigger] self.slots@.contains_key(k) ==> self.slots@[k]@.len()
            <= u32::MAX
        &&& forall|k: u64, i: int|
            self.slots@.contains_key(k) && 0 <= i < self.slots@[k]@.len()
                ==> self.positions@.contains_key(#[trigger] self.slots@[k]@[i])
                && self.positions@[self.slots@[k]@[i]] == i as u32
        &&& forall|k1: u64, i1: int, k2: u64, i2: int|
            #![trigger self.slots@[k1]@[i1], self.slots@[k2]@[i2]]
            self.slots@.contains_key(k1) && 0 <= i1 < self.slots@[k1]@.len()
                && self.slots@.contains_key(k2) && 0 <= i2 < self.slots@[k2]@.len()
                && self.slots@[k1]@[i1] == self.slots@[k2]@[i2] ==> k1 == k2 && i1 == i2
    }

    /// A well-formed index never lists an item twice under one key.
    pub proof fn lemma_distinct(self, key: u64)
        requires
            self.wf(),
        ensures
            self.seq_of(key).no_duplicates(),
    {
        if self.slots@.contains_key(key) {
            assert forall|i: int, j: int|
                0 <= i < self.seq_of(key).len() && 0 <= j < self.seq_of(key).len() && i != j
                implies self.seq_of(key)[i] != self.seq_of(key)[j] by {
                if self.seq_of(key)[i] == self.seq_of(key)[j] {
                    assert(self.slots@[key]@[i] == self.slots@[key]@[j]);
                }
            }
        }
    }

    /// An empty index.
    pub fn new() -> (r: EnumIndex)
        ensures
            r.wf(),
            forall|k: u64| r.seq_of(k) == Seq::<u32>::empty(),
    {
        EnumIndex { slots: HashMap::new(), positions: HashMap::new() }
    }

    /// How many items are listed under `key` (0 if none).
    pub fn count(&self, key: u64) -> (c: u32)
        requires
            self.wf(),
        ensures
            c == self.seq_of(key).len(),
    {
        match self.slots.get(&key) {
            None => 0,
            Some(v) => {
                proof {
                    assert(self.slots@.contains_key(key));
                }
                v.len() as u32
            },
        }
    }

    /// Adds `item` at position `count(key)`, growing the listing by one.
    /// The caller must know that the item is not listed anywhere yet; every
    /// legitimate use appends only items it has just checked to be absent.
    pub fn append(&mut self, key: u64, item: u32)
        requires
            old(self).wf(),
            forall|k: u64| !old(self).contains_item(k, item),
            old(self).seq_of(key).len() < u32::MAX,
        ensures
            final(self).wf(),
            final(self).seq_of(key) == old(self).seq_of(key).push(item),
            forall|k: u64| k != key ==> final(self).seq_of(k) == old(self).seq_of(k),
            forall|k: u64, t: u32|
                #![trigger final(self).contains_item(k, t)]
                #![trigger old(self).contains_item(k, t)]
                final(self).contains_item(k, t) <==> (old(self).contains_item(k, t) || (k == key
                    && t == item)),
    {
        let ghost pre = *self;
        let mut v: Vec<u32> = match self.slots.remove(&key) {
            None => Vec::new(),
            Some(v0) => v0,
        };
        proof {
            assert(v@ == pre.seq_of(key));
        }
        let pos: u32 = v.len() as u32;
        v.push(item);
        self.positions.insert(item, pos);
        self.slots.insert(key, v);
        proof {
            let post = *self;
            let s2 = post.seq_of(key);
            let s1 = pre.seq_of(key);
            assert(s2 =~= s1.push(item));
            assert forall|k: u64| k != key implies post.seq_of(k) == pre.seq_of(k) by {
                assert(post.slots@.contains_key(k) == pre.slots@.contains_key(k));
                if pre.slots@.contains_key(k) {
                    assert(post.slots@[k] == pre.slots@[k]);
                }
            }
            // item was listed nowhere, so no old slot entry equals it
            assert forall|k: u64, i: int|
                pre.slots@.contains_key(k) && 0 <= i < pre.slots@[k]@.len() implies pre.slots@[k]@[i]
                != item by {
                if pre.slots@[k]@[i] == item {
                    assert(pre.seq_of(k)[i] == item);
                    assert(pre.contains_item(k, item));
                }
            }
            assert(post.wf()) by {
                assert forall|k: u64, i: int|
                    post.slots@.contains_key(k) && 0 <= i < post.slots@[k]@.len()
                    implies post.positions@.contains_key(#[trigger] post.slots@[k]@[i])
                        && post.positions@[post.slots@[k]@[i]] == i as u32 by {
                    if k == key {
                        if i < s1.len() {
                            assert(post.slots@[k]@[i] == pre.slots@[k]@[i]);
                        } else {
                            assert(post.slots@[k]@[i] == item);
                        }
                    } else {
                        assert(post.slots@[k]@[i] == pre.slots@[k]@[i]);
                        assert(pre.slots@[k]@[i] != item);
                    }
                }
                assert forall|k1: u64, i1: int, k2: u64, i2: int|
                    #![trigger post.slots@[k1]@[i1], post.slots@[k2]@[i2]]
                    post.slots@.contains_key(k1) && 0 <= i1 < post.slots@[k1]@.len()
                        && post.slots@.contains_key(k2) && 0 <= i2 < post.slots@[k2]@.len()
                        && post.slots@[k1]@[i1] == post.slots@[k2]@[i2] implies k1 == k2 && i1
                    == i2 by {
                    let t1 = post.slots@[k1]@[i1];
                    let new1 = (k1 == key && i1 == s1.len());
                    let new2 = (k2 == key && i2 == s1.len());
                    if !new1 && !new2 {
                        assert(pre.slots@.contains_key(k1) || k1 == key);
                        assert(post.slots@[k1]@[i1] == pre.slots@[k1]@[i1]);
                        assert(post.slots@[k2]@[i2] == pre.slots@[k2]@[i2]);
                    } else if new1 && !new2 {
                        assert(post.slots@[k2]@[i2] == pre.slots@[k2]@[i2]);
                        assert(pre.slots@[k2]@[i2] != item);
                        assert(t1 == item);
                    } else if !new1 && new2 {
                        assert(post.slots@[k1]@[i1] == pre.slots@[k1]@[i1]);
                        assert(pre.slots@[k1]@[i1] != item);
                    }
                }
            }
            assert forall|k: u64, t: u32|
                #![trigger post.contains_item(k, t)]
                #![trigger pre.contains_item(k, t)]
                post.contains_item(k, t) <==> (pre.contains_item(k, t) || (k == key && t
                == item)) by {
                if k == key {
                    if post.contains_item(k, t) {
                        let i = choose|i: int| 0 <= i < s2.len() && s2[i] == t;
                        if i < s1.len() {
                            assert(s1[i] == t);
                        }
                    }
                    if pre.contains_item(k, t) {
                        let i = choose|i: int| 0 <= i < s1.len() && s1[i] == t;
                        assert(s2[i] == t);
                    }
                    if t == item {
                        assert(s2[s1.len() as int] == item);
                    }
                }
            }
        }
    }

    /// Removes `item` from `key`'s listing by moving the last item into its
    /// position, keeping the listing dense. Fails with `CannotRemove` on an
    /// empty listing and with `CannotFetchValue` when the item is not
    /// listed under `key`; a failing call changes nothing.
    pub fn remove(&mut self, key: u64, item: u32) -> (r: Result<(), Error>)
        requires
            old(self).wf(),
        ensures
            final(self).wf(),
            old(self).seq_of(key).len() == 0 ==> r == Err::<(), Error>(Error::CannotRemove)
                && *final(self) == *old(self),
            old(self).seq_of(key).len() > 0 && !old(self).contains_item(key, item) ==> r
                == Err::<(), Error>(Error::CannotFetchValue) && *final(self) == *old(self),
            old(self).contains_item(key, item) ==> {
                &&& r == Ok::<(), Error>(())
                &&& final(self).seq_of(key) == swap_removed(old(self).seq_of(key), item)
                &&& final(self).seq_of(key).len() == old(self).seq_of(key).len() - 1
            },
            forall|k: u64| k != key ==> final(self).seq_of(k) == old(self).seq_of(k),
            forall|t: u32|
                #![trigger final(self).contains_item(key, t)]
                #![trigger old(self).contains_item(key, t)]
                r is Ok ==> (final(self).contains_item(key, t) <==> (old(self).contains_item(
                    key,
                    t,
                ) && t != item)),
    {
        let cnt: u32 = self.count(key);
        if cnt == 0 {
            return Err(Error::CannotRemove);
        }
        let ghost pre = *self;
        let ghost s1 = pre.seq_of(key);
        proof {
            pre.lemma_distinct(key);
            assert(pre.slots@.contains_key(key));
        }
        let pos: u32 = match self.positions.get(&item) {
            None => {
                proof {
                    if pre.contains_item(key, item) {
                        let i = choose|i: int| 0 <= i < s1.len() && s1[i] == item;
                        assert(pre.slots@[key]@[i] == item);
                    }
                }
                return Err(Error::CannotFetchValue);
            },
            Some(p) => *p,
        };
        let pu = pos as usize;
        let in_place: bool = match self.slots.get(&key) {
            None => false,
            Some(v) => pu < v.len() && v[pu] == item,
        };
        if !in_place {
            proof {
                if pre.contains_item(key, item) {
                    let i = choose|i: int| 0 <= i < s1.len() && s1[i] == item;
                    assert(pre.slots@[key]@[i] == item);
                    assert(pre.positions@[item] == i as u32);
                }
            }
            return Err(Error::CannotFetchValue);
        }
        proof {
            assert(s1[pos as int] == item);
            assert(pre.contains_item(key, item));
            assert(pre.positions@[item] == pos);
        }
        let mut v: Vec<u32> = match self.slots.remove(&key) {
            Some(v) => v,
            None => {
                proof {
                    assert(false);
                }
                return Err(Error::CannotFetchValue);
            },
        };
        let _removed: u32 = v.swap_remove(pu);
        if pu < v.len() {
            let moved: u32 = v[pu];
            proof {
                assert(moved == s1.last());
                assert(s1[s1.len() - 1] == moved && s1[pos as int] == item);
            }
            self.positions.insert(moved, pos);
        }
        self.positions.remove(&item);
        self.slots.insert(key, v);
        proof {
            let post = *self;
            let s2 = post.seq_of(key);
            let relocated = pos < s1.len() - 1;
            assert(s2 =~= s1.update(pos as int, s1.last()).drop_last());
            // index_of picks the one position that holds the item
            let ip = s1.index_of(item);
            assert(s1[ip] == item);
            assert(pre.slots@[key]@[ip] == pre.slots@[key]@[pos as int]);
            assert(ip == pos as int);
            assert(s2 == swap_removed(s1, item));
            assert forall|k: u64| k != key implies post.seq_of(k) == pre.seq_of(k) by {
                assert(post.slots@.contains_key(k) == pre.slots@.contains_key(k));
                if pre.slots@.contains_key(k) {
                    assert(post.slots@[k] == pre.slots@[k]);
                }
            }
            // the new listing, pointwise over the old one
            assert(forall|i: int|
                0 <= i < s2.len() ==> s2[i] == (if i == pos as int {
                    s1[s1.len() - 1]
                } else {
                    s1[i]
                }));
            // no old entry other than (key, pos) holds `item`
            assert forall|k: u64, i: int|
                pre.slots@.contains_key(k) && 0 <= i < pre.slots@[k]@.len() && !(k == key && i
                    == pos as int) implies pre.slots@[k]@[i] != item by {
                if pre.slots@[k]@[i] == item {
                    assert(pre.slots@[k]@[i] == pre.slots@[key]@[pos as int]);
                }
            }
            let moved_item = s1[s1.len() - 1];
            assert(post.wf()) by {
                assert forall|k: u64, i: int|
                    post.slots@.contains_key(k) && 0 <= i < post.slots@[k]@.len()
                    implies post.positions@.contains_key(#[trigger] post.slots@[k]@[i])
                        && post.positions@[post.slots@[k]@[i]] == i as u32 by {
                    let t = post.slots@[k]@[i];
                    if k == key {
                        if relocated && i == pos as int {
                            assert(t == moved_item);
                        } else {
                            assert(t == s1[i]);
                            assert(pre.positions@[t] == i as u32);
                            assert(t != item);
                            if t == moved_item {
                                assert(pre.slots@[key]@[i] == pre.slots@[key]@[s1.len() - 1]);
                                assert(i == s1.len() - 1);
                                assert(false);
                            }
                        }
                    } else {
                        assert(t == pre.slots@[k]@[i]);
                        assert(t != item);
                        if t == moved_item {
                            assert(pre.slots@[k]@[i] == pre.slots@[key]@[s1.len() - 1]);
                            assert(false);
                        }
                        assert(pre.positions@[t] == i as u32);
                    }
                }
                assert forall|k1: u64, i1: int, k2: u64, i2: int|
                    #![trigger post.slots@[k1]@[i1], post.slots@[k2]@[i2]]
                    post.slots@.contains_key(k1) && 0 <= i1 < post.slots@[k1]@.len()
                        && post.slots@.contains_key(k2) && 0 <= i2 < post.slots@[k2]@.len()
                        && post.slots@[k1]@[i1] == post.slots@[k2]@[i2] implies k1 == k2 && i1
                    == i2 by {
                    // map each new slot back to the old slot holding the same item
                    let o1 = if k1 == key && i1 == pos as int && relocated {
                        s1.len() - 1
                    } else {
                        i1
                    };
                    let o2 = if k2 == key && i2 == pos as int && relocated {
                        s1.len() - 1
                    } else {
                        i2
                    };
                    assert(post.slots@[k1]@[i1] == pre.slots@[k1]@[o1]);
                    assert(post.slots@[k2]@[i2] == pre.slots@[k2]@[o2]);
                    assert(k1 == k2 && o1 == o2);
                }
            }
            assert forall|t: u32|
                #![trigger post.contains_item(key, t)]
                #![trigger pre.contains_item(key, t)]
                post.contains_item(key, t) <==> (pre.contains_item(key, t) && t != item) by {
                if post.contains_item(key, t) {
                    let i = choose|i: int| 0 <= i < s2.len() && s2[i] == t;
                    if i == pos as int && relocated {
                        assert(s1[s1.len() - 1] == t);
                    } else {
                        assert(s1[i] == t);
                    }
                    assert(pre.contains_item(key, t));
                    if t == item {
                        let j = choose|j: int| 0 <= j < s2.len() && s2[j] == item;
                        if j == pos as int && relocated {
                            assert(s1[s1.len() - 1] == item);
                            assert(pre.slots@[key]@[s1.len() - 1] == pre.slots@[key]@[pos as int]);
                        } else {
                            assert(s1[j] == item);
                            assert(pre.slots@[key]@[j] == pre.slots@[key]@[pos as int]);
                        }
                        assert(false);
                    }
                }
                if pre.contains_item(key, t) && t != item {
                    let j = choose|j: int| 0 <= j < s1.len() && s1[j] == t;
                    assert(j != pos as int);
                    if j == s1.len() - 1 {
                        if relocated {
                            assert(s2[pos as int] == t);
                        } else {
                            assert(pre.slots@[key]@[j] == pre.slots@[key]@[pos as int]);
                            assert(false);
                        }
                    } else {
                        assert(s2[j] == t);
                    }
                    assert(post.contains_item(key, t));
                }
            }
        }
        Ok(())
    }

    /// The item at `position` under `key`, if that position is occupied.
    pub fn item_at(&self, key: u64, position: u32) -> (r: Option<u32>)
        requires
            self.wf(),
        ensures
            position < self.seq_of(key).len() ==> r == Some(self.seq_of(key)[position as int]),
            position >= self.seq_of(key).len() ==> r is None,
    {
        match self.slots.get(&key) {
            None => None,
            Some(v) => {
                if (position as usize) < v.len() {
                    Some(v[position as usize])
                } else {
                    None
                }
            },
        }
    }
}

} // verus!
