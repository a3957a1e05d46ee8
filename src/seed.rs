use vstd::prelude::*;

verus! {

/// Issues strictly increasing identifiers.
#[derive(Debug)]
pub struct Seed {
    next: u64,
}

impl Seed {
    /// The smallest identifier that the next call of `generate` may return.
    pub closed spec fn next_id(&self) -> u64 {
        self.next
    }

    pub fn new() -> (r: Seed)
        ensures
            r.next_id() == 1,
    {
        Seed { next: 1 }
    }

    /// A seed that continues after `last`: every identifier it issues is
    /// greater than `last`.
    pub fn starting_after(last: u64) -> (r: Seed)
        requires
            last < u64::MAX,
        ensures
            r.next_id() == last + 1,
    {
        Seed { next: last + 1 }
    }

    /// Returns a fresh identifier, greater than every one issued before.
    pub fn generate(&mut self) -> (r: u64)
        requires
            old(self).next_id() < u64::MAX,
        ensures
            r == old(self).next_id(),
            final(self).next_id() == r + 1,
    {
        let r = self.next;
        self.next = self.next + 1;
        r
    }
}

} // verus!
