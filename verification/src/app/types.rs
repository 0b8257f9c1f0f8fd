//! Identities of tabs and profiles.
use vstd::prelude::*;

verus! {

/// How many identities there are before they come round again.
pub open spec fn id_count() -> int {
    0x1_0000_0000_0000_0000int
}

/// Gives out identities, from 1 on.
pub struct IdCounter {
    next: u64,
}

impl IdCounter {
    /// The identity that comes next.
    pub closed spec fn upcoming(&self) -> u64 {
        self.next
    }

    pub fn new() -> (counter: IdCounter)
        ensures
            counter.upcoming() == 1,
    {
        IdCounter { next: 1 }
    }

    fn issue(&mut self) -> (id: u64)
        ensures
            id == old(self).upcoming(),
            final(self).upcoming() == (old(self).upcoming() + 1) % id_count(),
    {
        let id: u64 = self.next;
        self.next = if id == u64::MAX {
            0
        } else {
            id + 1
        };
        id
    }
}

impl Default for IdCounter {
    fn default() -> (counter: IdCounter)
        ensures
            counter.upcoming() == 1,
    {
        IdCounter::new()
    }
}

/// The identity that a counter gives out after `n` others.
pub open spec fn issued_after(first: u64, n: int) -> u64
    recommends
        0 <= n,
{
    ((first + n) % id_count()) as u64
}

/// Identities from one counter are distinct, as long as it has not come round.
pub proof fn law_ids_are_distinct(first: u64, i: int, j: int)
    requires
        0 <= i < j < id_count(),
    ensures
        issued_after(first, i) != issued_after(first, j),
{
    let n = id_count();
    assert(0 <= (first + i) % n < n && 0 <= (first + j) % n < n);
    if (first + i) % n == (first + j) % n {
        assert((first + i) / n <= (first + j) / n <= (first + i) / n + 1);
    }
}

/// Each identity that a counter gives out is the next one in its line.
pub proof fn law_counter_steps(first: u64, n: int)
    requires
        0 <= n,
    ensures
        issued_after(first, n + 1) == (issued_after(first, n) + 1) % id_count(),
        issued_after(first, 0) == first,
{
}

/// Identity of a tab.
#[derive(Clone, Copy, PartialEq, Eq, Hash, Debug, Structural)]
pub struct TabId(u64);

impl TabId {
    /// The number of the identity.
    pub closed spec fn number(self) -> u64 {
        self.0
    }

    /// Takes the next identity.
    pub fn new(ids: &mut IdCounter) -> (id: TabId)
        ensures
            id.number() == old(ids).upcoming(),
            final(ids).upcoming() == (old(ids).upcoming() + 1) % id_count(),
    {
        TabId(ids.issue())
    }

    pub fn as_u64(self) -> (number: u64)
        ensures
            number == self.number(),
    {
        self.0
    }
}

/// Identity of a profile.
#[derive(Clone, Copy, PartialEq, Eq, Hash, Debug, Structural)]
pub struct ProfileId(u64);

impl ProfileId {
    /// The number of the identity.
    pub closed spec fn number(self) -> u64 {
        self.0
    }

    /// Takes the next identity.
    pub fn new(ids: &mut IdCounter) -> (id: ProfileId)
        ensures
            id.number() == old(ids).upcoming(),
            final(ids).upcoming() == (old(ids).upcoming() + 1) % id_count(),
    {
        ProfileId(ids.issue())
    }

    pub fn as_u64(self) -> (number: u64)
        ensures
            number == self.number(),
    {
        self.0
    }
}

/// A counter counts up by one, and after the largest number comes 0.
pub proof fn law_counter_counts_up(first: u64)
    ensures
        first < u64::MAX ==> issued_after(first, 1) == first + 1,
        issued_after(u64::MAX, 1) == 0,
        id_count() == u64::MAX + 1,
{
}

} // verus!
