//! A bounded cache whose entries expire, and of which the least recently used makes room.
use crate::text;
use vstd::prelude::*;

verus! {

/// An entry of the cache, with the time at which it was made in nanoseconds.
#[derive(Debug)]
pub struct Slot<T> {
    pub key: String,
    pub value: T,
    pub created_at: u128,
}

/// A bounded cache. The entries are in the order of their last use, and no key occurs twice.
#[derive(Debug)]
pub struct Cache<T> {
    pub slots: Vec<Slot<T>>,
}

/// What an entry holds.
#[verifier::reject_recursive_types(T)]
pub ghost struct SlotView<T> {
    pub key: Seq<char>,
    pub value: T,
    pub created_at: nat,
}

/// What the entries of a cache hold.
pub open spec fn slots_view<T>(slots: Seq<Slot<T>>) -> Seq<SlotView<T>> {
    slots.map_values(
        |s: Slot<T>|
            SlotView { key: s.key@, value: s.value, created_at: s.created_at as nat },
    )
}

/// Whether an entry with a key exists.
pub open spec fn has_key<T>(slots: Seq<SlotView<T>>, key: Seq<char>) -> bool {
    exists|i: int| 0 <= i < slots.len() && (#[trigger] slots[i]).key == key
}

/// Whether no key occurs twice.
pub open spec fn unique_keys<T>(slots: Seq<SlotView<T>>) -> bool {
    forall|i: int, j: int|
        0 <= i < j < slots.len() ==> (#[trigger] slots[i]).key != (#[trigger] slots[j]).key
}

/// The entry with a key.
pub open spec fn entry_of<T>(slots: Seq<SlotView<T>>, key: Seq<char>) -> Option<SlotView<T>>
    decreases slots.len(),
{
    if slots.len() == 0 {
        None
    } else if slots.last().key == key {
        Some(slots.last())
    } else {
        entry_of(slots.drop_last(), key)
    }
}

/// The entries that remain when the cache has to make room: all but the least recently used.
pub open spec fn evicted<T>(slots: Seq<SlotView<T>>, max: nat) -> Seq<SlotView<T>> {
    if slots.len() >= max && slots.len() > 0 {
        slots.remove(0)
    } else {
        slots
    }
}

/// The entries without the one with a key.
pub open spec fn without_key<T>(slots: Seq<SlotView<T>>, key: Seq<char>) -> Seq<SlotView<T>> {
    slots.filter(|s: SlotView<T>| s.key != key)
}

/// The entries after one was stored: the least recently used makes room if the cache is full, and
/// an entry under the same key is replaced.
pub open spec fn stored<T>(
    slots: Seq<SlotView<T>>,
    max: nat,
    key: Seq<char>,
    value: T,
    now: nat,
) -> Seq<SlotView<T>> {
    without_key(evicted(slots, max), key).push(SlotView { key, value, created_at: now })
}

/// Whether an entry is still good at a time.
pub open spec fn is_fresh<T>(slot: SlotView<T>, now: nat, ttl: nat) -> bool {
    (if now >= slot.created_at { now - slot.created_at } else { 0 }) < ttl
}

/// What the cache answers for a key at a time.
pub open spec fn answer<T>(slots: Seq<SlotView<T>>, key: Seq<char>, now: nat, ttl: nat) -> Option<
    T,
> {
    match entry_of(slots, key) {
        Some(slot) => if is_fresh(slot, now, ttl) {
            Some(slot.value)
        } else {
            None
        },
        None => None,
    }
}

/// The entries after one was asked for: one that was answered is the most recently used.
pub open spec fn used<T>(slots: Seq<SlotView<T>>, key: Seq<char>, now: nat, ttl: nat) -> Seq<
    SlotView<T>,
> {
    if answer(slots, key, now, ttl) is Some {
        without_key(slots, key).push(entry_of(slots, key)->0)
    } else {
        slots
    }
}

pub proof fn lemma_entry_none<T>(slots: Seq<SlotView<T>>, key: Seq<char>)
    requires
        !has_key(slots, key),
    ensures
        entry_of(slots, key) is None,
    decreases slots.len(),
{
    if slots.len() > 0 {
        assert(slots[slots.len() - 1].key != key);
        let front = slots.drop_last();
        assert forall|i: int| 0 <= i < front.len() implies (#[trigger] front[i]).key != key by {
            assert(slots[i].key != key);
        }
        lemma_entry_none(front, key);
    }
}

pub proof fn lemma_entry_at<T>(slots: Seq<SlotView<T>>, i: int)
    requires
        0 <= i < slots.len(),
        unique_keys(slots),
    ensures
        entry_of(slots, slots[i].key) == Some(slots[i]),
    decreases slots.len(),
{
    if i < slots.len() - 1 {
        assert(slots[i].key != slots[slots.len() - 1].key);
        let front = slots.drop_last();
        assert(unique_keys(front)) by {
            assert forall|a: int, b: int| 0 <= a < b < front.len() implies (
            #[trigger] front[a]).key != (#[trigger] front[b]).key by {
                assert(slots[a].key != slots[b].key);
            }
        }
        lemma_entry_at(front, i);
    }
}

proof fn lemma_remove_unique<T>(slots: Seq<SlotView<T>>, at: int)
    requires
        unique_keys(slots),
        0 <= at < slots.len(),
    ensures
        unique_keys(slots.remove(at)),
{
    let less = slots.remove(at);
    assert forall|a: int, b: int| 0 <= a < b < less.len() implies (#[trigger] less[a]).key != (
    #[trigger] less[b]).key by {
        let x = if a < at { a } else { a + 1 };
        let y = if b < at { b } else { b + 1 };
        assert(less[a] == slots[x] && less[b] == slots[y]);
    }
}

/// Leaving out the only entry with a key is removing it.
proof fn lemma_without_key<T>(slots: Seq<SlotView<T>>, key: Seq<char>)
    requires
        unique_keys(slots),
    ensures
        !has_key(slots, key) ==> without_key(slots, key) == slots,
        forall|i: int|
            0 <= i < slots.len() && (#[trigger] slots[i]).key == key ==> without_key(slots, key)
                == slots.remove(i),
    decreases slots.len(),
{
    let keep = |s: SlotView<T>| s.key != key;
    reveal(Seq::filter);
    if slots.len() > 0 {
        let front = slots.drop_last();
        assert(unique_keys(front)) by {
            assert forall|a: int, b: int| 0 <= a < b < front.len() implies (
            #[trigger] front[a]).key != (#[trigger] front[b]).key by {
                assert(slots[a].key != slots[b].key);
            }
        }
        lemma_without_key(front, key);
        if !has_key(slots, key) {
            assert(slots[slots.len() - 1].key != key);
            assert(!has_key(front, key)) by {
                if has_key(front, key) {
                    let i = choose|i: int| 0 <= i < front.len() && (#[trigger] front[i]).key == key;
                    assert(slots[i].key == key);
                }
            }
            assert(front.push(slots.last()) =~= slots);
        }
        assert forall|i: int| 0 <= i < slots.len() && (#[trigger] slots[i]).key
            == key implies without_key(slots, key) == slots.remove(i) by {
            if i < front.len() {
                assert(front[i].key == key);
                assert(slots[i].key != slots[slots.len() - 1].key);
                assert(front.remove(i).push(slots.last()) =~= slots.remove(i));
            } else {
                assert(!has_key(front, key)) by {
                    if has_key(front, key) {
                        let k = choose|k: int|
                            0 <= k < front.len() && (#[trigger] front[k]).key == key;
                        assert(slots[k].key != slots[i].key);
                    }
                }
                assert(slots.remove(i) =~= front);
            }
        }
    }
}

/// Storing keeps keys unique and the cache within its bound, which is at least one entry.
pub proof fn law_cache_is_bounded<T>(
    slots: Seq<SlotView<T>>,
    max: nat,
    key: Seq<char>,
    value: T,
    now: nat,
)
    requires
        unique_keys(slots),
        slots.len() <= max || slots.len() <= 1,
    ensures
        unique_keys(stored(slots, max, key, value, now)),
        stored(slots, max, key, value, now).len() <= max || stored(
            slots,
            max,
            key,
            value,
            now,
        ).len() == 1,
{
    let room = evicted(slots, max);
    if slots.len() > 0 {
        lemma_remove_unique(slots, 0);
    }
    lemma_without_key(room, key);
    lemma_stored_unique(room, key, SlotView { key, value, created_at: now });
}

proof fn lemma_stored_unique<T>(room: Seq<SlotView<T>>, key: Seq<char>, slot: SlotView<T>)
    requires
        unique_keys(room),
        slot.key == key,
    ensures
        unique_keys(without_key(room, key).push(slot)),
        without_key(room, key).len() <= room.len(),
        !has_key(without_key(room, key), key),
{
    lemma_without_key(room, key);
    let kept = without_key(room, key);
    if has_key(room, key) {
        let i = choose|i: int| 0 <= i < room.len() && (#[trigger] room[i]).key == key;
        assert(kept == room.remove(i));
        lemma_remove_unique(room, i);
    }
    let keep = |s: SlotView<T>| s.key != key;
    assert forall|i: int| 0 <= i < kept.len() implies (#[trigger] kept[i]).key != key by {
        room.lemma_filter_pred(keep, i);
    }
    let out = kept.push(slot);
    assert forall|a: int, b: int| 0 <= a < b < out.len() implies (#[trigger] out[a]).key != (
    #[trigger] out[b]).key by {
        assert(out[a] == kept[a]);
        if b < kept.len() {
            assert(out[b] == kept[b]);
        }
    }
}

/// Storing keeps keys unique.
pub proof fn lemma_stored_keeps_unique<T>(
    slots: Seq<SlotView<T>>,
    max: nat,
    key: Seq<char>,
    value: T,
    now: nat,
)
    requires
        unique_keys(slots),
    ensures
        unique_keys(stored(slots, max, key, value, now)),
{
    if slots.len() > 0 {
        lemma_remove_unique(slots, 0);
    }
    lemma_stored_unique(evicted(slots, max), key, SlotView { key, value, created_at: now });
}

/// What was stored is answered until its time is up, and not any longer.
pub proof fn law_stored_is_answered<T>(
    slots: Seq<SlotView<T>>,
    max: nat,
    key: Seq<char>,
    value: T,
    now: nat,
    later: nat,
    ttl: nat,
)
    requires
        now <= later,
    ensures
        answer(stored(slots, max, key, value, now), key, later, ttl) == if later - now < ttl {
            Some(value)
        } else {
            None
        },
{
}

proof fn lemma_entry_key<T>(slots: Seq<SlotView<T>>, key: Seq<char>)
    ensures
        entry_of(slots, key) matches Some(slot) ==> slot.key == key && slots.contains(slot),
    decreases slots.len(),
{
    if slots.len() > 0 {
        lemma_entry_key(slots.drop_last(), key);
        assert(slots.contains(slots[slots.len() - 1]));
        if slots.last().key != key && entry_of(slots.drop_last(), key) is Some {
            let slot = entry_of(slots.drop_last(), key)->0;
            let i = choose|i: int|
                0 <= i < slots.drop_last().len() && slots.drop_last()[i] == slot;
            assert(slots[i] == slot);
        }
    }
}

/// Leaving out one key leaves the entries of the others.
pub proof fn lemma_entry_without_other<T>(slots: Seq<SlotView<T>>, other: Seq<char>, key: Seq<char>)
    requires
        other != key,
    ensures
        entry_of(without_key(slots, other), key) == entry_of(slots, key),
    decreases slots.len(),
{
    reveal(Seq::filter);
    if slots.len() > 0 {
        let front = slots.drop_last();
        lemma_entry_without_other(front, other, key);
        let kept = without_key(front, other);
        assert(kept.push(slots.last()).drop_last() =~= kept);
    }
}

proof fn lemma_used_unique<T>(slots: Seq<SlotView<T>>, key: Seq<char>, now: nat, ttl: nat)
    requires
        unique_keys(slots),
    ensures
        unique_keys(used(slots, key, now, ttl)),
        used(slots, key, now, ttl).len() == slots.len(),
{
    if answer(slots, key, now, ttl) is Some {
        lemma_entry_key(slots, key);
        let slot = entry_of(slots, key)->0;
        lemma_stored_unique(slots, key, slot);
        lemma_without_key(slots, key);
        let i = choose|i: int| 0 <= i < slots.len() && slots[i] == slot;
        assert(slots[i].key == key);
    }
}

/// Asking for an entry changes no answer, and keeps keys unique and the number of entries.
pub proof fn law_use_changes_no_answer<T>(
    slots: Seq<SlotView<T>>,
    asked: Seq<char>,
    now: nat,
    ttl: nat,
    key: Seq<char>,
    later: nat,
)
    requires
        unique_keys(slots),
    ensures
        answer(used(slots, asked, now, ttl), key, later, ttl) == answer(slots, key, later, ttl),
        unique_keys(used(slots, asked, now, ttl)),
        used(slots, asked, now, ttl).len() == slots.len(),
{
    lemma_used_unique(slots, asked, now, ttl);
    if answer(slots, asked, now, ttl) is Some {
        lemma_entry_key(slots, asked);
        let kept = without_key(slots, asked);
        let out = used(slots, asked, now, ttl);
        assert(out.drop_last() =~= kept);
        if key != asked {
            lemma_entry_without_other(slots, asked, key);
        }
    }
}

/// What makes room is the least recently used: an entry that was just answered stays when another
/// is stored, as long as the cache holds more than that entry or is not full.
pub proof fn law_used_entry_is_spared<T>(
    slots: Seq<SlotView<T>>,
    max: nat,
    key: Seq<char>,
    now: nat,
    ttl: nat,
    other: Seq<char>,
    value: T,
    later: nat,
    time: nat,
)
    requires
        unique_keys(slots),
        answer(slots, key, now, ttl) is Some,
        other != key,
        slots.len() > 1 || slots.len() < max,
    ensures
        answer(stored(used(slots, key, now, ttl), max, other, value, later), key, time, ttl)
            == answer(slots, key, time, ttl),
{
    law_use_changes_no_answer(slots, key, now, ttl, key, time);
    let fresh = used(slots, key, now, ttl);
    let slot = entry_of(slots, key)->0;
    assert(fresh.last() == slot);
    lemma_entry_key(slots, key);
    let room = evicted(fresh, max);
    assert(room.len() > 0 && room.last() == slot);
    assert(entry_of(room, key) == Some(slot));
    lemma_entry_without_other(room, other, key);
    let kept = without_key(room, other);
    let out = stored(fresh, max, other, value, later);
    assert(out.drop_last() =~= kept);
}

/// A full cache loses the entry that was used before all others.
pub proof fn law_least_recently_used_makes_room<T>(
    slots: Seq<SlotView<T>>,
    max: nat,
    key: Seq<char>,
    value: T,
    now: nat,
    time: nat,
    ttl: nat,
)
    requires
        unique_keys(slots),
        slots.len() >= max,
        slots.len() > 0,
        slots[0].key != key,
    ensures
        answer(stored(slots, max, key, value, now), slots[0].key, time, ttl) is None,
{
    let first = slots[0].key;
    let room = evicted(slots, max);
    assert forall|i: int| 0 <= i < room.len() implies (#[trigger] room[i]).key != first by {
        assert(room[i] == slots[i + 1]);
        assert(slots[0].key != slots[i + 1].key);
    }
    lemma_entry_none(room, first);
    lemma_entry_without_other(room, key, first);
    let out = stored(slots, max, key, value, now);
    assert(out.drop_last() =~= without_key(room, key));
}

/// Something that is done with a cache.
#[verifier::reject_recursive_types(T)]
pub ghost enum Use<T> {
    Ask { key: Seq<char>, now: nat },
    Store { key: Seq<char>, value: T, now: nat },
}

/// The entries after uses of the cache, one after another.
pub open spec fn after_uses<T>(
    slots: Seq<SlotView<T>>,
    max: nat,
    ttl: nat,
    uses: Seq<Use<T>>,
) -> Seq<SlotView<T>>
    decreases uses.len(),
{
    if uses.len() == 0 {
        slots
    } else {
        let before = after_uses(slots, max, ttl, uses.drop_last());
        match uses.last() {
            Use::Ask { key, now } => used(before, key, now, ttl),
            Use::Store { key, value, now } => stored(before, max, key, value, now),
        }
    }
}

/// Whether uses leave the entry of a key alone: nothing else is stored under it, and nothing has
/// to make room.
pub open spec fn leave_alone<T>(
    slots: Seq<SlotView<T>>,
    max: nat,
    ttl: nat,
    uses: Seq<Use<T>>,
    key: Seq<char>,
) -> bool
    decreases uses.len(),
{
    uses.len() == 0 || (leave_alone(slots, max, ttl, uses.drop_last(), key) && match uses.last() {
        Use::Ask { key: asked, now } => true,
        Use::Store { key: other, value, now } => other != key && after_uses(
            slots,
            max,
            ttl,
            uses.drop_last(),
        ).len() < max,
    })
}

/// Whatever is asked for and stored in the meantime, an entry is answered as before, unless it is
/// replaced or something has to make room.
pub proof fn law_answers_last<T>(
    slots: Seq<SlotView<T>>,
    max: nat,
    ttl: nat,
    uses: Seq<Use<T>>,
    key: Seq<char>,
    time: nat,
)
    requires
        unique_keys(slots),
        leave_alone(slots, max, ttl, uses, key),
    ensures
        unique_keys(after_uses(slots, max, ttl, uses)),
        answer(after_uses(slots, max, ttl, uses), key, time, ttl) == answer(slots, key, time, ttl),
    decreases uses.len(),
{
    if uses.len() > 0 {
        law_answers_last(slots, max, ttl, uses.drop_last(), key, time);
        let before = after_uses(slots, max, ttl, uses.drop_last());
        match uses.last() {
            Use::Ask { key: asked, now } => {
                law_use_changes_no_answer(before, asked, now, ttl, key, time);
            },
            Use::Store { key: other, value, now } => {
                lemma_stored_unique(
                    before,
                    other,
                    SlotView { key: other, value, created_at: now },
                );
                lemma_entry_without_other(before, other, key);
                let out = stored(before, max, other, value, now);
                assert(out.drop_last() =~= without_key(before, other));
            },
        }
    }
}

/// An emptied cache answers nothing.
pub proof fn law_empty_cache_answers_nothing<T>(key: Seq<char>, now: nat, ttl: nat)
    ensures
        answer(Seq::<SlotView<T>>::empty(), key, now, ttl) is None,
{
}

impl<T> Cache<T> {
    /// The entries.
    pub open spec fn view(&self) -> Seq<SlotView<T>> {
        slots_view(self.slots@)
    }

    /// An empty cache.
    pub fn new() -> (r: Cache<T>)
        ensures
            r@ == Seq::<SlotView<T>>::empty(),
            unique_keys(r@),
    {
        let r = Cache { slots: Vec::new() };
        assert(r@ =~= Seq::empty());
        r
    }

    /// The number of entries.
    pub fn len(&self) -> (r: usize)
        ensures
            r == self@.len(),
    {
        self.slots.len()
    }

    /// Remove all entries.
    pub fn clear(&mut self)
        ensures
            final(self)@ == Seq::<SlotView<T>>::empty(),
            unique_keys(final(self)@),
    {
        self.slots.clear();
        assert(self@ =~= Seq::empty());
    }

    /// Where the entry with a key stands.
    fn position_of(&self, key: &str) -> (r: Option<usize>)
        requires
            unique_keys(self@),
        ensures
            match r {
                Some(i) => i < self.slots@.len() && self@[i as int].key == key@ && entry_of(
                    self@,
                    key@,
                ) == Some(self@[i as int]),
                None => !has_key(self@, key@) && entry_of(self@, key@) is None,
            },
    {
        let ghost all = self@;
        let mut i: usize = 0;
        while i < self.slots.len()
            invariant
                i <= self.slots@.len(),
                all == self@,
                unique_keys(all),
                forall|k: int| 0 <= k < i ==> (#[trigger] all[k]).key != key@,
            decreases self.slots@.len() - i,
        {
            assert(all[i as int].key == self.slots@[i as int].key@);
            if text::same(self.slots[i].key.as_str(), key) {
                proof {
                    lemma_entry_at(all, i as int);
                }
                return Some(i);
            }
            i += 1;
        }
        proof {
            lemma_entry_none(all, key@);
        }
        None
    }

    /// Whether the cache has an answer for a key at a time.
    pub fn answers(&self, key: &str, now: u128, ttl: u128) -> (r: bool)
        requires
            unique_keys(self@),
        ensures
            r == answer(self@, key@, now as nat, ttl as nat) is Some,
    {
        match self.position_of(key) {
            Some(i) => {
                let made: u128 = self.slots[i].created_at;
                let age: u128 = if now >= made { now - made } else { 0 };
                age < ttl
            },
            None => false,
        }
    }

    /// Where the entry stands that the cache answers with for a key at a time. It is the most
    /// recently used one from then on.
    pub fn check(&mut self, key: &str, now: u128, ttl: u128) -> (r: Option<usize>)
        requires
            unique_keys(old(self)@),
        ensures
            final(self)@ == used(old(self)@, key@, now as nat, ttl as nat),
            unique_keys(final(self)@),
            match r {
                Some(i) => i < final(self).slots@.len() && answer(
                    old(self)@,
                    key@,
                    now as nat,
                    ttl as nat,
                ) == Some(final(self).slots@[i as int].value),
                None => answer(old(self)@, key@, now as nat, ttl as nat) is None,
            },
    {
        let ghost before = self@;
        proof {
            lemma_used_unique(before, key@, now as nat, ttl as nat);
        }
        match self.position_of(key) {
            Some(i) => {
                let made: u128 = self.slots[i].created_at;
                let age: u128 = if now >= made { now - made } else { 0 };
                if age >= ttl {
                    return None;
                }
                proof {
                    lemma_without_key(before, key@);
                }
                let ghost entry = before[i as int];
                let slot = self.slots.remove(i);
                assert(self@ =~= before.remove(i as int));
                let at: usize = self.slots.len();
                let ghost kept = self@;
                self.slots.push(slot);
                assert(self@ =~= kept.push(entry));
                Some(at)
            },
            None => None,
        }
    }

    /// Store a value under a key: if the cache is full the least recently used entry makes room,
    /// and an entry under the same key is replaced.
    pub fn store(&mut self, max: usize, key: String, value: T, now: u128)
        requires
            unique_keys(old(self)@),
        ensures
            final(self)@ == stored(old(self)@, max as nat, key@, value, now as nat),
            unique_keys(final(self)@),
    {
        let ghost before = self@;
        if self.slots.len() >= max && self.slots.len() > 0 {
            proof {
                lemma_remove_unique(before, 0);
            }
            let _ = self.slots.remove(0);
            assert(self@ =~= before.remove(0));
        }
        let ghost room = self@;
        assert(room == evicted(before, max as nat));
        proof {
            lemma_without_key(room, key@);
            lemma_stored_unique(
                room,
                key@,
                SlotView { key: key@, value, created_at: now as nat },
            );
        }
        match self.position_of(key.as_str()) {
            Some(i) => {
                let _ = self.slots.remove(i);
                assert(self@ =~= room.remove(i as int));
            },
            None => {},
        }
        let ghost kept = self@;
        assert(kept == without_key(room, key@));
        let ghost slot = SlotView { key: key@, value, created_at: now as nat };
        self.slots.push(Slot { key, value, created_at: now });
        assert(self@ =~= kept.push(slot));
    }
}

} // verus!
