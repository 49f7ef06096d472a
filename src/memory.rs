//! The memory ledger: a beast's decaying record of the entities it has seen.
//!
//! Each entry pairs a snapshot of a sighting with the number of ticks it is
//! still remembered. Entries are keyed by entity identity, never by value.
use vstd::prelude::*;

verus! {

/// What kind of entity a sighting is of.
#[derive(Clone, Copy, Debug, PartialEq, Eq, Structural)]
pub enum EntityKind {
    Plant,
    Herbivore,
    Carnivore,
}

/// A point-in-time snapshot of an entity: its identity, kind and position.
#[derive(Clone, Copy, Debug, PartialEq, Eq, Structural)]
pub struct Sighting {
    pub id: u64,
    pub kind: EntityKind,
    pub x: i32,
    pub y: i32,
}

/// One ledger entry: a sighting and the ticks it is still remembered.
#[derive(Clone, Copy, Debug, PartialEq, Eq, Structural)]
pub struct MemoryEntry {
    pub seen: Sighting,
    pub remaining: u32,
}

/// The ledger with every entry for `id` removed.
pub open spec fn without(s: Seq<MemoryEntry>, id: u64) -> Seq<MemoryEntry>
    decreases s.len(),
{
    if s.len() == 0 {
        s
    } else {
        let rest = without(s.drop_last(), id);
        if s.last().seen.id == id {
            rest
        } else {
            rest.push(s.last())
        }
    }
}

/// The ledger after one tick: every count drops by one and the entries that
/// reach zero are gone.
pub open spec fn aged(s: Seq<MemoryEntry>) -> Seq<MemoryEntry>
    decreases s.len(),
{
    if s.len() == 0 {
        s
    } else {
        let rest = aged(s.drop_last());
        let e = s.last();
        if e.remaining as int - 1 > 0 {
            rest.push(MemoryEntry { seen: e.seen, remaining: (e.remaining - 1) as u32 })
        } else {
            rest
        }
    }
}

/// The ledger after `k` ticks.
pub open spec fn aged_times(s: Seq<MemoryEntry>, k: nat) -> Seq<MemoryEntry>
    decreases k,
{
    if k == 0 {
        s
    } else {
        aged(aged_times(s, (k - 1) as nat))
    }
}

/// The ledger after perceiving `seen`: any earlier entry for the same entity
/// is replaced by a fresh one that lasts `duration` ticks.
pub open spec fn remembered(s: Seq<MemoryEntry>, seen: Sighting, duration: u32) -> Seq<
    MemoryEntry,
> {
    without(s, seen.id).push(MemoryEntry { seen, remaining: duration })
}

/// The last entry for `id`, if any.
pub open spec fn lookup(s: Seq<MemoryEntry>, id: u64) -> Option<MemoryEntry>
    decreases s.len(),
{
    if s.len() == 0 {
        None
    } else if s.last().seen.id == id {
        Some(s.last())
    } else {
        lookup(s.drop_last(), id)
    }
}

/// How many entries there are for `id`.
pub open spec fn count(s: Seq<MemoryEntry>, id: u64) -> nat
    decreases s.len(),
{
    if s.len() == 0 {
        0
    } else {
        count(s.drop_last(), id) + if s.last().seen.id == id {
            1nat
        } else {
            0nat
        }
    }
}

/// At most one entry per entity.
pub open spec fn unique_ids(s: Seq<MemoryEntry>) -> bool {
    forall|id: u64| #[trigger] count(s, id) <= 1
}

/// A beast's memory: the entries and how long a fresh sighting lasts.
pub struct Memory {
    pub entries: Vec<MemoryEntry>,
    pub duration: u32,
}

impl View for Memory {
    type V = Seq<MemoryEntry>;

    open spec fn view(&self) -> Seq<MemoryEntry> {
        self.entries@
    }
}

impl Memory {
    pub open spec fn wf(&self) -> bool {
        unique_ids(self@)
    }

    /// An empty memory whose sightings last `duration` ticks.
    pub fn new(duration: u32) -> (m: Self)
        ensures
            m.wf(),
            m@ == Seq::<MemoryEntry>::empty(),
            m.duration == duration,
    {
        Memory { entries: Vec::new(), duration }
    }

    pub fn len(&self) -> (n: usize)
        ensures
            n == self@.len(),
    {
        self.entries.len()
    }

    pub fn entries(&self) -> (r: &Vec<MemoryEntry>)
        ensures
            r@ == self@,
    {
        &self.entries
    }

    /// The entry for `id`, if it is remembered.
    pub fn recall(&self, id: u64) -> (r: Option<MemoryEntry>)
        ensures
            r == lookup(self@, id),
    {
        let mut found: Option<MemoryEntry> = None;
        let n = self.entries.len();
        let mut i: usize = 0;
        while i < n
            invariant
                n == self@.len(),
                i <= n,
                found == lookup(self@.subrange(0, i as int), id),
            decreases n - i,
        {
            let e = self.entries[i];
            proof {
                assert(self@.subrange(0, i + 1).drop_last() == self@.subrange(0, i as int));
            }
            if e.seen.id == id {
                found = Some(e);
            }
            i += 1;
        }
        proof {
            assert(self@.subrange(0, n as int) == self@);
        }
        found
    }

    /// Whether `id` is remembered.
    pub fn contains(&self, id: u64) -> (r: bool)
        ensures
            r == lookup(self@, id).is_some(),
    {
        self.recall(id).is_some()
    }

    /// Drops every entry for `id`, whatever its remaining ticks.
    pub fn forget(&mut self, id: u64)
        requires
            old(self).wf(),
        ensures
            final(self).wf(),
            final(self)@ == without(old(self)@, id),
            final(self).duration == old(self).duration,
            lookup(final(self)@, id).is_none(),
    {
        let mut kept: Vec<MemoryEntry> = Vec::new();
        let n = self.entries.len();
        let mut i: usize = 0;
        while i < n
            invariant
                n == self@.len(),
                i <= n,
                kept@ == without(self@.subrange(0, i as int), id),
            decreases n - i,
        {
            let e = self.entries[i];
            proof {
                assert(self@.subrange(0, i + 1).drop_last() == self@.subrange(0, i as int));
            }
            if e.seen.id != id {
                kept.push(e);
            }
            i += 1;
        }
        proof {
            assert(self@.subrange(0, n as int) == self@);
            lemma_without_unique(self@, id);
            lemma_without_counts(self@, id, id);
            lemma_count_zero_lookup(kept@, id);
        }
        self.entries = kept;
    }

    /// Records a perception of `seen`: refreshes its entry to the full
    /// duration, or adds one.
    pub fn remember(&mut self, seen: Sighting)
        requires
            old(self).wf(),
        ensures
            final(self).wf(),
            final(self)@ == remembered(old(self)@, seen, old(self).duration),
            final(self).duration == old(self).duration,
    {
        self.forget(seen.id);
        self.entries.push(MemoryEntry { seen, remaining: self.duration });
        proof {
            lemma_remembered_counts(old(self)@, seen, self.duration);
            assert(self@ == remembered(old(self)@, seen, self.duration));
            assert forall|other: u64| #[trigger] count(self@, other) <= 1 by {
                assert(count(old(self)@, other) <= 1);
                assert(count(remembered(old(self)@, seen, self.duration), other) <= 1);
            }
        }
    }

    /// One tick passes: every entry's count drops by one and those that reach
    /// zero are purged.
    pub fn age(&mut self)
        requires
            old(self).wf(),
        ensures
            final(self).wf(),
            final(self)@ == aged(old(self)@),
            final(self).duration == old(self).duration,
            forall|i: int| 0 <= i < final(self)@.len() ==> final(self)@[i].remaining > 0,
    {
        let mut kept: Vec<MemoryEntry> = Vec::new();
        let n = self.entries.len();
        let mut i: usize = 0;
        while i < n
            invariant
                n == self@.len(),
                i <= n,
                kept@ == aged(self@.subrange(0, i as int)),
            decreases n - i,
        {
            let e = self.entries[i];
            proof {
                assert(self@.subrange(0, i + 1).drop_last() == self@.subrange(0, i as int));
            }
            if e.remaining > 1 {
                kept.push(MemoryEntry { seen: e.seen, remaining: e.remaining - 1 });
            }
            i += 1;
        }
        proof {
            assert(self@.subrange(0, n as int) == self@);
            lemma_aged_unique(self@);
            lemma_aged_positive(self@);
        }
        self.entries = kept;
    }
}

/// Perceiving an entity leaves exactly one entry for it, lasting the full
/// duration, whatever the ledger held before; perceiving it again at once
/// changes nothing.
pub proof fn lemma_remember_keeps_one_entry(s: Seq<MemoryEntry>, seen: Sighting, duration: u32)
    ensures
        count(remembered(s, seen, duration), seen.id) == 1,
        lookup(remembered(s, seen, duration), seen.id) == Some(
            MemoryEntry { seen, remaining: duration },
        ),
        remembered(remembered(s, seen, duration), seen, duration) == remembered(
            s,
            seen,
            duration,
        ),
{
    lemma_remembered_counts(s, seen, duration);
    let w = without(s, seen.id);
    let e = MemoryEntry { seen, remaining: duration };
    assert(w.push(e).drop_last() == w);
    lemma_without_idempotent(s, seen.id);
}

/// An entity perceived once and not again stays in the ledger through the
/// first `duration - 1` ticks, with its count going down by one each tick,
/// and is purged by tick `duration`.
pub proof fn lemma_forgotten_after_duration(
    s: Seq<MemoryEntry>,
    seen: Sighting,
    duration: u32,
    k: nat,
)
    requires
        duration >= 1,
    ensures
        lookup(aged_times(remembered(s, seen, duration), k), seen.id) == if k < duration {
            Some(MemoryEntry { seen, remaining: (duration - k) as u32 })
        } else {
            None
        },
        lookup(aged_times(remembered(s, seen, duration), k), seen.id).is_some() == (k
            < duration),
    decreases k,
{
    let r = remembered(s, seen, duration);
    if k == 0 {
        lemma_remember_keeps_one_entry(s, seen, duration);
    } else {
        lemma_forgotten_after_duration(s, seen, duration, (k - 1) as nat);
        lemma_aged_times_count(r, seen.id, (k - 1) as nat);
        lemma_remember_keeps_one_entry(s, seen, duration);
        lemma_lookup_aged(aged_times(r, (k - 1) as nat), seen.id);
    }
}

proof fn lemma_without_idempotent(s: Seq<MemoryEntry>, id: u64)
    ensures
        without(without(s, id), id) == without(s, id),
    decreases s.len(),
{
    if s.len() > 0 {
        lemma_without_idempotent(s.drop_last(), id);
        let rest = without(s.drop_last(), id);
        assert(rest.push(s.last()).drop_last() == rest);
    }
}

proof fn lemma_count_zero_lookup(s: Seq<MemoryEntry>, id: u64)
    requires
        count(s, id) == 0,
    ensures
        lookup(s, id).is_none(),
    decreases s.len(),
{
    if s.len() > 0 {
        lemma_count_zero_lookup(s.drop_last(), id);
    }
}

proof fn lemma_aged_times_count(s: Seq<MemoryEntry>, id: u64, k: nat)
    ensures
        count(aged_times(s, k), id) <= count(s, id),
    decreases k,
{
    if k > 0 {
        lemma_aged_times_count(s, id, (k - 1) as nat);
        lemma_aged_count(aged_times(s, (k - 1) as nat), id);
    }
}

proof fn lemma_lookup_aged(s: Seq<MemoryEntry>, id: u64)
    requires
        count(s, id) <= 1,
    ensures
        lookup(aged(s), id) == match lookup(s, id) {
            Some(e) => if e.remaining > 1 {
                Some(MemoryEntry { seen: e.seen, remaining: (e.remaining - 1) as u32 })
            } else {
                None
            },
            None => None,
        },
    decreases s.len(),
{
    if s.len() > 0 {
        let p = s.drop_last();
        let e = s.last();
        let rest = aged(p);
        let e1 = MemoryEntry { seen: e.seen, remaining: (e.remaining - 1) as u32 };
        assert(rest.push(e1).drop_last() == rest);
        if e.seen.id == id {
            assert(count(p, id) == 0);
            lemma_count_zero_lookup(p, id);
            lemma_aged_count(p, id);
            lemma_count_zero_lookup(rest, id);
        } else {
            lemma_lookup_aged(p, id);
        }
    }
}

proof fn lemma_without_counts(s: Seq<MemoryEntry>, id: u64, other: u64)
    ensures
        count(without(s, id), other) == if other == id {
            0
        } else {
            count(s, other)
        },
    decreases s.len(),
{
    if s.len() > 0 {
        lemma_without_counts(s.drop_last(), id, other);
        let rest = without(s.drop_last(), id);
        assert(rest.push(s.last()).drop_last() == rest);
    }
}

proof fn lemma_without_unique(s: Seq<MemoryEntry>, id: u64)
    requires
        unique_ids(s),
    ensures
        unique_ids(without(s, id)),
{
    assert forall|other: u64| #[trigger] count(without(s, id), other) <= 1 by {
        lemma_without_counts(s, id, other);
    }
}

proof fn lemma_remembered_counts(s: Seq<MemoryEntry>, seen: Sighting, duration: u32)
    ensures
        forall|other: u64| #[trigger]
            count(remembered(s, seen, duration), other) == if other == seen.id {
                1
            } else {
                count(s, other)
            },
{
    assert forall|other: u64| #[trigger]
        count(remembered(s, seen, duration), other) == if other == seen.id {
            1
        } else {
            count(s, other)
        } by {
        lemma_without_counts(s, seen.id, other);
        let w = without(s, seen.id);
        assert(w.push(MemoryEntry { seen, remaining: duration }).drop_last() == w);
    }
}

proof fn lemma_aged_count(s: Seq<MemoryEntry>, id: u64)
    ensures
        count(aged(s), id) <= count(s, id),
    decreases s.len(),
{
    if s.len() > 0 {
        lemma_aged_count(s.drop_last(), id);
        let rest = aged(s.drop_last());
        let e = s.last();
        assert(rest.push(MemoryEntry { seen: e.seen, remaining: (e.remaining - 1) as u32 }).drop_last()
            == rest);
    }
}

proof fn lemma_aged_unique(s: Seq<MemoryEntry>)
    requires
        unique_ids(s),
    ensures
        unique_ids(aged(s)),
{
    assert forall|id: u64| #[trigger] count(aged(s), id) <= 1 by {
        lemma_aged_count(s, id);
    }
}

proof fn lemma_aged_positive(s: Seq<MemoryEntry>)
    ensures
        forall|i: int| 0 <= i < aged(s).len() ==> aged(s)[i].remaining > 0,
    decreases s.len(),
{
    if s.len() > 0 {
        lemma_aged_positive(s.drop_last());
    }
}

} // verus!
