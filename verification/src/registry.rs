//! The channels that have been uploaded to, each with its lock.
//!
//! A channel enters the registry with its first upload and stays. Its lock is
//! free or held; whoever runs the indexer on a channel holds that channel's
//! lock while the indexer runs.

use vstd::prelude::*;

verus! {

/// Each registered channel, mapped to whether its lock is held.
pub type Locks = Map<Seq<char>, bool>;

/// The locks after `channel` has been registered: a channel that is new gets a
/// free lock, one that was there keeps what it had.
pub open spec fn registered(locks: Locks, channel: Seq<char>) -> Locks {
    if locks.contains_key(channel) {
        locks
    } else {
        locks.insert(channel, false)
    }
}

/// Whether the lock of `channel` can be taken: the channel is registered and
/// its lock is free.
pub open spec fn free(locks: Locks, channel: Seq<char>) -> bool {
    locks.contains_key(channel) && !locks[channel]
}

/// Whether the lock of `channel` is held.
pub open spec fn held(locks: Locks, channel: Seq<char>) -> bool {
    locks.contains_key(channel) && locks[channel]
}

/// The locks after an attempt to take the lock of `channel`.
pub open spec fn acquired(locks: Locks, channel: Seq<char>) -> Locks {
    if free(locks, channel) {
        locks.insert(channel, true)
    } else {
        locks
    }
}

/// The locks after the lock of `channel` has been freed.
pub open spec fn released(locks: Locks, channel: Seq<char>) -> Locks {
    if locks.contains_key(channel) {
        locks.insert(channel, false)
    } else {
        locks
    }
}

/// A channel is registered once: after its registration it is there, with the
/// lock it had, and registering it again changes nothing.
pub proof fn lemma_registration_happens_once(locks: Locks, channel: Seq<char>)
    ensures
        registered(locks, channel).contains_key(channel),
        registered(registered(locks, channel), channel) == registered(locks, channel),
        locks.contains_key(channel) ==> registered(locks, channel) == locks,
{
}

/// A registered channel stays registered, whatever is registered, taken or
/// freed afterwards, and only its own lock changes its state.
pub proof fn lemma_channels_stay_registered(
    locks: Locks,
    channel: Seq<char>,
    other: Seq<char>,
)
    requires
        locks.contains_key(other),
    ensures
        registered(locks, channel).contains_key(other),
        acquired(locks, channel).contains_key(other),
        released(locks, channel).contains_key(other),
        registered(locks, channel)[other] == locks[other],
        other != channel ==> acquired(locks, channel)[other] == locks[other],
        other != channel ==> released(locks, channel)[other] == locks[other],
{
}

struct Entry {
    name: String,
    held: bool,
}

/// The registered channels and the state of their locks.
pub struct ChannelRegistry {
    entries: Vec<Entry>,
}

spec fn named(entries: Seq<Entry>, i: int, channel: Seq<char>) -> bool {
    0 <= i < entries.len() && entries[i].name@ == channel
}

spec fn distinct(entries: Seq<Entry>) -> bool {
    forall|i: int, j: int|
        0 <= i < j < entries.len() ==> (#[trigger] entries[i]).name@ != (
        #[trigger] entries[j]).name@
}

spec fn table(entries: Seq<Entry>) -> Locks {
    Map::new(
        |channel: Seq<char>| exists|i: int| named(entries, i, channel),
        |channel: Seq<char>| entries[choose|i: int| named(entries, i, channel)].held,
    )
}

proof fn lemma_entry_in_table(entries: Seq<Entry>, i: int)
    requires
        distinct(entries),
        0 <= i < entries.len(),
    ensures
        table(entries).contains_key(entries[i].name@),
        table(entries)[entries[i].name@] == entries[i].held,
{
    let channel = entries[i].name@;
    assert(named(entries, i, channel));
    let k = choose|k: int| named(entries, k, channel);
    assert(k == i);
}

proof fn lemma_table_with(before: Seq<Entry>, after: Seq<Entry>, i: int)
    requires
        distinct(before),
        0 <= i < after.len(),
        i <= before.len(),
        after.len() == if i == before.len() {
            before.len() + 1
        } else {
            before.len()
        },
        forall|k: int|
            0 <= k < before.len() && k != i ==> (#[trigger] after[k]).name@ == before[k].name@
                && after[k].held == before[k].held,
        i < before.len() ==> before[i].name@ == after[i].name@,
        i == before.len() ==> forall|k: int|
            0 <= k < before.len() ==> (#[trigger] before[k]).name@ != after[i].name@,
    ensures
        distinct(after),
        table(after) == table(before).insert(after[i].name@, after[i].held),
{
    let channel = after[i].name@;
    let changed = table(before).insert(channel, after[i].held);
    assert forall|k: int| 0 <= k < after.len() && k < before.len() implies (
    #[trigger] after[k]).name@ == before[k].name@ by {}
    assert forall|k: int, l: int| 0 <= k < l < after.len() implies (#[trigger] after[k]).name@ != (
    #[trigger] after[l]).name@ by {
        if l < before.len() {
            assert(before[k].name@ != before[l].name@);
        } else {
            assert(before[k].name@ != after[i].name@);
        }
    }
    assert forall|c: Seq<char>| #[trigger] table(after).contains_key(c) <==> changed.contains_key(
        c,
    ) by {
        if table(after).contains_key(c) {
            let k = choose|k: int| named(after, k, c);
            if k < before.len() {
                assert(named(before, k, c));
            }
        }
        if table(before).contains_key(c) {
            let k = choose|k: int| named(before, k, c);
            assert(named(after, k, c));
        }
        if c == channel {
            assert(named(after, i, c));
        }
    }
    assert forall|c: Seq<char>| #[trigger] table(after).contains_key(c) implies table(after)[c]
        == changed[c] by {
        let k = choose|k: int| named(after, k, c);
        lemma_entry_in_table(after, k);
        if k != i {
            assert(named(before, k, c));
            lemma_entry_in_table(before, k);
        }
    }
    assert(table(after) =~= changed);
}

impl View for ChannelRegistry {
    type V = Locks;

    /// Each registered channel, mapped to whether its lock is held.
    closed spec fn view(&self) -> Locks {
        table(self.entries@)
    }
}

impl ChannelRegistry {
    #[verifier::type_invariant]
    spec fn names_differ(&self) -> bool {
        distinct(self.entries@)
    }

    /// A registry without channels.
    pub fn new() -> (registry: ChannelRegistry)
        ensures
            registry@ == Locks::empty(),
    {
        let registry = ChannelRegistry { entries: Vec::new() };
        assert(registry@ =~= Locks::empty());
        registry
    }

    fn position(&self, channel: &String) -> (found: Option<usize>)
        ensures
            match found {
                Some(i) => named(self.entries@, i as int, channel@),
                None => !self@.contains_key(channel@),
            },
    {
        let mut i: usize = 0;
        while i < self.entries.len()
            invariant
                i <= self.entries.len(),
                forall|j: int| 0 <= j < i ==> !named(self.entries@, j, channel@),
            decreases self.entries.len() - i,
        {
            if self.entries[i].name == *channel {
                return Some(i);
            }
            i += 1;
        }
        None
    }

    /// Whether `channel` is registered.
    pub fn contains(&self, channel: &str) -> (found: bool)
        ensures
            found == self@.contains_key(channel@),
    {
        let wanted = String::from_str(channel);
        let found = self.position(&wanted);
        proof {
            use_type_invariant(self);
            if let Some(i) = found {
                lemma_entry_in_table(self.entries@, i as int);
            }
        }
        found.is_some()
    }

    /// Whether `channel` is registered and its lock is held.
    pub fn is_held(&self, channel: &str) -> (held: bool)
        ensures
            held == self::held(self@, channel@),
    {
        let wanted = String::from_str(channel);
        match self.position(&wanted) {
            Some(i) => {
                proof {
                    use_type_invariant(self);
                    lemma_entry_in_table(self.entries@, i as int);
                }
                self.entries[i].held
            },
            None => false,
        }
    }

    /// Registers `channel` unless it is registered already, with its lock
    /// free, and says whether this call was the one that registered it.
    pub fn get_or_create(&mut self, channel: &str) -> (first: bool)
        ensures
            first == !old(self)@.contains_key(channel@),
            final(self)@ == registered(old(self)@, channel@),
    {
        let wanted = String::from_str(channel);
        proof {
            use_type_invariant(&*self);
        }
        if let Some(i) = self.position(&wanted) {
            proof {
                lemma_entry_in_table(self.entries@, i as int);
            }
            return false;
        }
        let ghost before = self.entries@;
        let mut entries: Vec<Entry> = Vec::new();
        core::mem::swap(&mut self.entries, &mut entries);
        entries.push(Entry { name: wanted, held: false });
        let ghost after = entries@;
        proof {
            assert forall|k: int| 0 <= k < before.len() implies (#[trigger] before[k]).name@
                != channel@ by {
                if before[k].name@ == channel@ {
                    assert(named(before, k, channel@));
                }
            }
            lemma_table_with(before, after, before.len() as int);
        }
        core::mem::swap(&mut self.entries, &mut entries);
        true
    }

    /// Takes the lock of `channel` where the channel is registered and its
    /// lock is free, and says whether it did.
    pub fn try_acquire(&mut self, channel: &str) -> (granted: bool)
        ensures
            granted == free(old(self)@, channel@),
            final(self)@ == acquired(old(self)@, channel@),
    {
        let wanted = String::from_str(channel);
        proof {
            use_type_invariant(&*self);
        }
        match self.position(&wanted) {
            Some(i) => {
                proof {
                    lemma_entry_in_table(self.entries@, i as int);
                }
                if self.entries[i].held {
                    false
                } else {
                    self.set_held(i, true);
                    true
                }
            },
            None => false,
        }
    }

    /// Frees the lock of `channel`. An unregistered channel has no lock, and
    /// nothing changes.
    pub fn release(&mut self, channel: &str)
        ensures
            final(self)@ == released(old(self)@, channel@),
    {
        let wanted = String::from_str(channel);
        if let Some(i) = self.position(&wanted) {
            proof {
                use_type_invariant(&*self);
                lemma_entry_in_table(self.entries@, i as int);
            }
            self.set_held(i, false);
        }
    }

    fn set_held(&mut self, i: usize, held: bool)
        requires
            i < old(self).entries@.len(),
        ensures
            final(self)@ == old(self)@.insert(old(self).entries@[i as int].name@, held),
    {
        proof {
            use_type_invariant(&*self);
        }
        let ghost before = self.entries@;
        let mut entries: Vec<Entry> = Vec::new();
        core::mem::swap(&mut self.entries, &mut entries);
        entries[i].held = held;
        let ghost after = entries@;
        proof {
            lemma_table_with(before, after, i as int);
        }
        core::mem::swap(&mut self.entries, &mut entries);
    }
}

} // verus!
