//! Which bind groups exist on the device, and in which slot each of them is kept.
//!
//! A bind group belongs to the device. The library keeps for each the number of a slot, which is
//! given out once and never again: whoever makes the bind group keeps it under that number.
use bevy_utils::HashMap;
use vstd::prelude::*;

verus! {

/// A `HashMap` from keys to slots.
#[verifier::external_body]
pub struct GroupSlots {
    values: HashMap<u64, u64>,
}

/// The slot of each key.
pub uninterp spec fn slots_of(groups: GroupSlots) -> Map<u64, u64>;

impl GroupSlots {
    /// Calls `HashMap::default`: the new map is empty.
    #[verifier::external_body]
    pub(crate) fn new() -> (r: GroupSlots)
        ensures
            (slots_of(r) == Map::<u64, u64>::empty()),
    {
        GroupSlots { values: HashMap::default() }
    }

    /// Calls `HashMap::get`: the slot of the key, if it has one.
    #[verifier::external_body]
    pub(crate) fn get(&self, key: u64) -> (r: Option<u64>)
        ensures
            r == (if slots_of(*self).contains_key(key) {
                Some(slots_of(*self)[key])
            } else {
                None
            }),
    {
        self.values.get(&key).copied()
    }

    /// Calls `HashMap::entry` and `Entry::or_insert`: a key without a slot gets the one given,
    /// nothing else changes, and the slot that the key then has is returned.
    #[verifier::external_body]
    pub(crate) fn or_insert(&mut self, key: u64, slot: u64) -> (r: u64)
        ensures
            slots_of(*final(self)) == (if slots_of(*old(self)).contains_key(key) {
                slots_of(*old(self))
            } else {
                slots_of(*old(self)).insert(key, slot)
            }),
            r == slots_of(*final(self))[key],
    {
        *self.values.entry(key).or_insert(slot)
    }

    /// Calls `HashMap::remove`: the key loses its slot, which is returned, and nothing else
    /// changes.
    #[verifier::external_body]
    pub(crate) fn remove(&mut self, key: u64) -> (r: Option<u64>)
        ensures
            slots_of(*final(self)) == slots_of(*old(self)).remove(key),
            r == (if slots_of(*old(self)).contains_key(key) {
                Some(slots_of(*old(self))[key])
            } else {
                None
            }),
    {
        self.values.remove(&key)
    }
}

/// The slots in use, and the first one that has never been given out.
pub struct BindGroupTable {
    groups: GroupSlots,
    next_slot: u64,
}

/// The bind groups of the images, by the keys of the images.
pub struct UiImageBindGroups {
    pub values: BindGroupTable,
}

/// The bind groups of the parameters of each kind of node, by its number.
pub struct UiParamsBindGroups {
    pub values: BindGroupTable,
}

impl Default for UiImageBindGroups {
    fn default() -> (r: Self)
        ensures
            r.values.wf(),
            r.values@ == Map::<u64, u64>::empty(),
            r.values.next() == 0,
    {
        UiImageBindGroups { values: BindGroupTable::new() }
    }
}

impl Default for UiParamsBindGroups {
    fn default() -> (r: Self)
        ensures
            r.values.wf(),
            r.values@ == Map::<u64, u64>::empty(),
            r.values.next() == 0,
    {
        UiParamsBindGroups { values: BindGroupTable::new() }
    }
}

impl View for BindGroupTable {
    type V = Map<u64, u64>;

    closed spec fn view(&self) -> Map<u64, u64> {
        slots_of(self.groups)
    }
}

/// Whether all slots lie below `next`, and no two keys share one.
pub open spec fn are_slots_below(slots: Map<u64, u64>, next: int) -> bool {
    &&& forall|key: u64| #[trigger] slots.contains_key(key) ==> slots[key] < next
    &&& forall|a: u64, b: u64|
        #[trigger] slots.contains_key(a) && #[trigger] slots.contains_key(b) && a != b ==> slots[a]
            != slots[b]
}

/// The slots once every key in turn that has none has got the next, and the keys that got one, in
/// their order, each with its slot.
pub open spec fn bound(slots: Map<u64, u64>, next: int, keys: Seq<u64>) -> (
    Map<u64, u64>,
    Seq<(u64, u64)>,
)
    decreases keys.len(),
{
    if keys.len() == 0 {
        (slots, Seq::empty())
    } else {
        let (earlier, new) = bound(slots, next, keys.drop_last());
        let key = keys.last();
        let slot = (next + new.len()) as u64;
        if earlier.contains_key(key) {
            (earlier, new)
        } else {
            (earlier.insert(key, slot), new.push((key, slot)))
        }
    }
}

/// Whether there are slots left for the keys that have none.
pub open spec fn has_room(slots: Map<u64, u64>, next: int, keys: Seq<u64>) -> bool {
    next + bound(slots, next, keys).1.len() <= u64::MAX
}

impl BindGroupTable {
    /// The first slot that has never been given out.
    pub closed spec fn next(self) -> int {
        self.next_slot as int
    }

    /// Whether the slots in use have been given out, each to one key.
    pub open spec fn wf(self) -> bool {
        are_slots_below(self@, self.next())
    }

    /// The first slot that has never been given out.
    pub fn next_slot(&self) -> (r: u64)
        ensures
            r == self.next(),
    {
        self.next_slot
    }

    /// A table of no bind groups.
    pub fn new() -> (r: BindGroupTable)
        ensures
            r.wf(),
            r@ == Map::<u64, u64>::empty(),
            r.next() == 0,
    {
        BindGroupTable { groups: GroupSlots::new(), next_slot: 0 }
    }

    /// The slot of the bind group for a key, if there is one.
    pub fn slot(&self, key: u64) -> (r: Option<u64>)
        ensures
            r == (if self@.contains_key(key) {
                Some(self@[key])
            } else {
                None
            }),
    {
        self.groups.get(key)
    }

    /// Gives the key a slot if it has none, and returns the slot if it is new.
    pub fn bind(&mut self, key: u64) -> (r: Option<u64>)
        requires
            old(self).wf(),
            old(self)@.contains_key(key) || old(self).next() < u64::MAX,
        ensures
            final(self).wf(),
            r is None == old(self)@.contains_key(key),
            r is None ==> final(self)@ == old(self)@ && final(self).next() == old(self).next(),
            r is Some ==> r->0 == old(self).next() && final(self)@ == old(self)@.insert(key, r->0)
                && final(self).next() == old(self).next() + 1,
    {
        let next: u64 = self.next_slot;
        let slot: u64 = self.groups.or_insert(key, next);
        if slot == next {
            self.next_slot = next + 1;
            Some(slot)
        } else {
            None
        }
    }

    /// Takes its slot from the key, and returns it.
    pub fn release(&mut self, key: u64) -> (r: Option<u64>)
        requires
            old(self).wf(),
        ensures
            final(self).wf(),
            final(self)@ == old(self)@.remove(key),
            final(self).next() == old(self).next(),
            r == (if old(self)@.contains_key(key) {
                Some(old(self)@[key])
            } else {
                None
            }),
    {
        self.groups.remove(key)
    }
}

/// Binding gives a slot to every key that is asked for, and it takes none from any key. The slots
/// that it gives out are the next ones in turn, one for each key that had none.
pub proof fn law_binding_serves_every_key(slots: Map<u64, u64>, next: int, keys: Seq<u64>)
    requires
        0 <= next,
        has_room(slots, next, keys),
    ensures
        ({
            let (after, new) = bound(slots, next, keys);
            &&& forall|i: int| 0 <= i < keys.len() ==> after.contains_key(#[trigger] keys[i])
            &&& forall|key: u64| #[trigger]
                slots.contains_key(key) ==> after.contains_key(key) && after[key] == slots[key]
            &&& forall|key: u64| #[trigger]
                after.contains_key(key) ==> slots.contains_key(key) || keys.contains(key)
            &&& new.len() <= keys.len()
            &&& forall|i: int|
                #![trigger new[i]]
                0 <= i < new.len() ==> new[i].1 == next + i && !slots.contains_key(new[i].0)
                    && keys.contains(new[i].0) && after.contains_key(new[i].0)
                    && after[new[i].0] == new[i].1
        }),
    decreases keys.len(),
{
    if keys.len() > 0 {
        let rest = keys.drop_last();
        assert(keys.take(keys.len() - 1) =~= rest);
        lemma_bound_grows(slots, next, keys, keys.len() - 1);
        law_binding_serves_every_key(slots, next, rest);
        let (earlier, old_new) = bound(slots, next, rest);
        let (after, new) = bound(slots, next, keys);
        assert forall|key: u64| rest.contains(key) implies #[trigger] keys.contains(key) by {
            let i = choose|i: int| 0 <= i < rest.len() && rest[i] == key;
            assert(keys[i] == key);
        }
        assert(keys[keys.len() - 1] == keys.last());
        assert(keys.contains(keys.last()));
        assert forall|i: int| 0 <= i < keys.len() implies after.contains_key(
            #[trigger] keys[i],
        ) by {
            if i < rest.len() {
                assert(rest[i] == keys[i]);
            }
        }
        assert forall|i: int|
            #![trigger new[i]]
            0 <= i < new.len() implies new[i].1 == next + i && !slots.contains_key(new[i].0)
            && keys.contains(new[i].0) && after.contains_key(new[i].0) && after[new[i].0]
            == new[i].1 by {
            if i < old_new.len() {
                assert(new[i] == old_new[i]);
            }
        }
    }
}

/// A key without a slot that is asked for is among those that get one.
pub proof fn law_missing_keys_get_new_slots(
    slots: Map<u64, u64>,
    next: int,
    keys: Seq<u64>,
    key: u64,
)
    requires
        0 <= next,
        has_room(slots, next, keys),
        !slots.contains_key(key),
        keys.contains(key),
    ensures
        exists|i: int|
            #![trigger bound(slots, next, keys).1[i]]
            0 <= i < bound(slots, next, keys).1.len() && bound(slots, next, keys).1[i] == (
                key,
                (next + i) as u64,
            ),
    decreases keys.len(),
{
    let rest = keys.drop_last();
    let (earlier, old_new) = bound(slots, next, rest);
    let (after, new) = bound(slots, next, keys);
    assert(keys.take(keys.len() - 1) =~= rest);
    lemma_bound_grows(slots, next, keys, keys.len() - 1);
    law_binding_serves_every_key(slots, next, rest);
    if rest.contains(key) {
        law_missing_keys_get_new_slots(slots, next, rest, key);
        let i = choose|i: int|
            #![trigger old_new[i]]
            0 <= i < old_new.len() && old_new[i] == (key, (next + i) as u64);
        assert(new[i] == old_new[i]);
    } else {
        let k = choose|k: int| 0 <= k < keys.len() && keys[k] == key;
        if k < rest.len() {
            assert(rest[k] == key);
        }
        assert(keys.last() == key);
        assert(!earlier.contains_key(key));
        assert(new[new.len() - 1] == (key, (next + old_new.len()) as u64));
    }
}

/// The next slot is a number that a slot can have.
pub(crate) proof fn lemma_next_is_a_slot(table: BindGroupTable)
    ensures
        0 <= table.next() <= u64::MAX,
{
}

/// Binding gives a slot to every key that is asked for.
pub(crate) proof fn lemma_bound_keys(slots: Map<u64, u64>, next: int, keys: Seq<u64>)
    ensures
        forall|i: int|
            0 <= i < keys.len() ==> bound(slots, next, keys).0.contains_key(#[trigger] keys[i]),
    decreases keys.len(),
{
    if keys.len() > 0 {
        let rest = keys.drop_last();
        lemma_bound_keys(slots, next, rest);
        assert forall|i: int| 0 <= i < keys.len() implies bound(slots, next, keys).0.contains_key(
            #[trigger] keys[i],
        ) by {
            if i < rest.len() {
                assert(rest[i] == keys[i]);
            }
        }
    }
}

/// A part of the keys takes no more slots than all of them.
pub(crate) proof fn lemma_bound_grows(slots: Map<u64, u64>, next: int, keys: Seq<u64>, n: int)
    requires
        0 <= n <= keys.len(),
    ensures
        bound(slots, next, keys.take(n)).1.len() <= bound(slots, next, keys).1.len(),
        bound(slots, next, keys).1.len() <= keys.len(),
    decreases keys.len(),
{
    if n == keys.len() {
        assert(keys.take(n) =~= keys);
        if keys.len() > 0 {
            lemma_bound_grows(slots, next, keys.drop_last(), 0);
        }
    } else {
        lemma_bound_grows(slots, next, keys.drop_last(), n);
        assert(keys.drop_last().take(n) =~= keys.take(n));
    }
}

/// There is room for the keys that have no slot if there is room for all keys.
pub proof fn law_room_for_all_keys_is_enough(slots: Map<u64, u64>, next: int, keys: Seq<u64>)
    requires
        next + keys.len() <= u64::MAX,
    ensures
        has_room(slots, next, keys),
{
    lemma_bound_grows(slots, next, keys, 0);
}

/// Bind groups are made once: where every key has a slot, binding changes nothing.
pub proof fn law_binding_again_changes_nothing(slots: Map<u64, u64>, next: int, keys: Seq<u64>)
    requires
        forall|i: int| 0 <= i < keys.len() ==> slots.contains_key(#[trigger] keys[i]),
    ensures
        bound(slots, next, keys).0 == slots,
        bound(slots, next, keys).1.len() == 0,
    decreases keys.len(),
{
    if keys.len() > 0 {
        let rest = keys.drop_last();
        assert(forall|i: int| 0 <= i < rest.len() ==> rest[i] == keys[i]);
        assert(keys[keys.len() - 1] == keys.last());
        law_binding_again_changes_nothing(slots, next, rest);
    }
}

/// One more key changes what is bound only if it has no slot yet: it then gets the next slot, after those
/// that the keys before it got. Without keys nothing is bound.
pub proof fn law_one_more_key_gets_the_next_slot(
    slots: Map<u64, u64>,
    next: int,
    keys: Seq<u64>,
    key: u64,
)
    ensures
        ({
            let (first, given) = bound(slots, next, keys);
            let (second, given_then) = bound(slots, next, keys.push(key));
            &&& bound(slots, next, Seq::empty()) == (slots, Seq::<(u64, u64)>::empty())
            &&& first.contains_key(key) ==> second == first && given_then == given
            &&& !first.contains_key(key) ==> {
                &&& given_then.len() == given.len() + 1
                &&& given.is_prefix_of(given_then)
                &&& given_then.last() == (key, (next + given.len()) as u64)
                &&& second.dom() == first.dom().insert(key)
                &&& second[key] == (next + given.len()) as u64
                &&& forall|other: u64| other != key ==> #[trigger] second[other] == first[other]
            }
        }),
{
    assert(keys.push(key).drop_last() =~= keys);
}

/// The keys get their slots in the order in which they are first asked for.
pub proof fn law_slots_follow_the_keys(
    slots: Map<u64, u64>,
    next: int,
    keys: Seq<u64>,
    i: int,
    j: int,
)
    requires
        0 <= next,
        has_room(slots, next, keys),
        0 <= i < j < bound(slots, next, keys).1.len(),
    ensures
        exists|x: int|
            0 <= x < keys.len() && #[trigger] keys[x] == bound(slots, next, keys).1[i].0 && forall|
                y: int,
            |
                0 <= y <= x ==> #[trigger] keys[y] != bound(slots, next, keys).1[j].0,
    decreases keys.len(),
{
    let rest = keys.drop_last();
    let (earlier, old_new) = bound(slots, next, rest);
    let (after, new) = bound(slots, next, keys);
    assert(keys.take(keys.len() - 1) =~= rest);
    lemma_bound_grows(slots, next, keys, keys.len() - 1);
    law_binding_serves_every_key(slots, next, rest);
    if j < old_new.len() {
        law_slots_follow_the_keys(slots, next, rest, i, j);
        let x = choose|x: int|
            0 <= x < rest.len() && #[trigger] rest[x] == old_new[i].0 && forall|y: int|
                0 <= y <= x ==> #[trigger] rest[y] != old_new[j].0;
        assert(keys[x] == new[i].0);
        assert forall|y: int| 0 <= y <= x implies #[trigger] keys[y] != new[j].0 by {
            assert(rest[y] != old_new[j].0);
        }
    } else {
        assert(new[i] == old_new[i] && rest.contains(old_new[i].0));
        let x = choose|x: int| 0 <= x < rest.len() && rest[x] == old_new[i].0;
        assert(keys[x] == new[i].0);
        assert forall|y: int| 0 <= y <= x implies #[trigger] keys[y] != new[j].0 by {
            assert(earlier.contains_key(rest[y]));
        }
    }
}

} // verus!
