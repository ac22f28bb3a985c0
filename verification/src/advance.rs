//! What a stat's ranks cost.

use vstd::prelude::*;

verus! {

/// A stat on its way up: what each of its ranks has cost by then in all, the
/// rank it stands at, and the experience spent on it.
#[derive(Clone, Copy, Debug, PartialEq, Eq)]
pub struct Ladder<'a> {
    pub table: &'a Vec<u32>,
    pub ranks: u32,
    pub spent: u32,
}

impl<'a> Ladder<'a> {
    /// A ladder as the game has it: dearer as it goes up, and the experience
    /// spent on it between what its rank costs and what the next one does.
    pub open spec fn wf(self) -> bool {
        &&& self.ranks < self.table@.len() <= u32::MAX
        &&& forall|i: int, j: int|
            0 <= i <= j < self.table@.len() ==> (#[trigger] self.table@[i]) <= (
            #[trigger] self.table@[j])
        &&& self.table@[self.ranks as int] <= self.spent
        &&& self.ranks + 1 < self.table@.len() ==> self.spent <= self.table@[self.ranks + 1]
    }

    /// What the rank above `rank` costs: what it has cost by then in all, less
    /// what is spent.
    pub open spec fn spec_step(self, rank: u32) -> Option<u32> {
        if rank + 1 < self.table@.len() && rank < u32::MAX {
            let paid = if self.table@[rank as int] < self.spent {
                self.spent
            } else {
                self.table@[rank as int]
            };
            Some(
                if self.table@[rank + 1] > paid {
                    (self.table@[rank + 1] - paid) as u32
                } else {
                    0
                },
            )
        } else {
            None
        }
    }

    /// What it takes to stand at rank `to`.
    pub open spec fn spec_cost_to(self, to: u32) -> Option<u32> {
        if to < self.table@.len() {
            Some(
                if self.table@[to as int] > self.spent {
                    (self.table@[to as int] - self.spent) as u32
                } else {
                    0
                },
            )
        } else {
            None
        }
    }

    /// What the rank above `rank` costs, none where there is none.
    pub fn step(&self, rank: u32) -> (r: Option<u32>)
        ensures
            r == self.spec_step(rank),
    {
        if rank < u32::MAX && (rank as usize) < self.table.len() && (rank as usize)
            < self.table.len() - 1 {
            let at: u32 = self.table[rank as usize];
            let paid: u32 = if at < self.spent {
                self.spent
            } else {
                at
            };
            let next: u32 = self.table[rank as usize + 1];
            if next > paid {
                Some(next - paid)
            } else {
                Some(0)
            }
        } else {
            None
        }
    }

    /// What it takes to stand at rank `to`, none where there is no such rank.
    pub fn cost_to(&self, to: u32) -> (r: Option<u32>)
        ensures
            r == self.spec_cost_to(to),
    {
        if (to as usize) < self.table.len() {
            let all: u32 = self.table[to as usize];
            if all > self.spent {
                Some(all - self.spent)
            } else {
                Some(0)
            }
        } else {
            None
        }
    }

    /// What the next rank costs, none at the top.
    pub fn next_cost(&self) -> (r: Option<u32>)
        ensures
            r == self.spec_step(self.ranks),
    {
        self.step(self.ranks)
    }

    /// The last rank there is.
    pub fn top(&self) -> (r: u32)
        requires
            0 < self.table@.len() <= u32::MAX,
        ensures
            r == self.table@.len() - 1,
    {
        (self.table.len() - 1) as u32
    }

    /// The rank that `xp` more brings it to: the last one paid for.
    pub open spec fn is_rank_after(self, xp: u32, r: u32) -> bool {
        &&& self.ranks <= r < self.table@.len()
        &&& r > self.ranks ==> self.table@[r as int] <= self.spent + xp
        &&& r + 1 < self.table@.len() ==> self.spent + xp < self.table@[r + 1]
    }

    /// The rank that `xp` more brings it to.
    pub fn rank_after(&self, xp: u32) -> (r: u32)
        requires
            self.wf(),
        ensures
            self.is_rank_after(xp, r),
    {
        let have: u64 = self.spent as u64 + xp as u64;
        let mut r: u32 = self.ranks;
        while (r as usize) + 1 < self.table.len() && self.table[r as usize + 1] as u64 <= have
            invariant
                self.wf(),
                have == self.spent + xp,
                self.ranks <= r < self.table@.len(),
                r > self.ranks ==> self.table@[r as int] <= have,
            decreases self.table@.len() - r,
        {
            r = r + 1;
        }
        r
    }
}

} // verus!
