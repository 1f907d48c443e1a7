//! The grouping-cardinality guard: lets new groups in up to a configured maximum.
use vstd::prelude::*;
use crate::errors::{max_groups_reached, Error, ErrorView};

verus! {

/// The groups admitted so far, in the order they came, and the most that may be let in.
pub struct GroupGuard {
    pub max: u64,
    pub groups: Vec<String>,
}

/// The position of the first of the first `i` groups equal to `g`.
pub open spec fn group_upto(groups: Seq<String>, g: Seq<char>, i: int) -> Option<int>
    decreases i,
{
    if i <= 0 {
        None
    } else {
        match group_upto(groups, g, i - 1) {
            Some(k) => Some(k),
            None => if groups[i - 1]@ == g {
                Some(i - 1)
            } else {
                None
            },
        }
    }
}

proof fn lemma_group_stable(groups: Seq<String>, g: Seq<char>, i: int, j: int)
    requires
        i <= j,
        group_upto(groups, g, i) is Some,
    ensures
        group_upto(groups, g, j) == group_upto(groups, g, i),
    decreases j - i,
{
    if i < j {
        lemma_group_stable(groups, g, i, j - 1);
    }
}

impl GroupGuard {
    /// A guard that lets in at most `max` groups.
    pub fn new(max: u64) -> (r: GroupGuard)
        ensures
            r.max == max,
            r.groups@.len() == 0,
    {
        GroupGuard { max, groups: Vec::new() }
    }

    /// Lets `group` in: a known group keeps its position; a new one is added while fewer than
    /// `max` groups exist, and refused with `MaxGroups` once `max` exist, leaving the guard unchanged.
    pub fn enter(&mut self, group: &str) -> (r: Result<usize, Error>)
        ensures
            final(self).max == old(self).max,
            match group_upto(old(self).groups@, group@, old(self).groups@.len() as int) {
                Some(k) => r == Ok::<usize, Error>(k as usize) && final(self).groups@ == old(self).groups@,
                None => if old(self).groups@.len() < old(self).max {
                    r == Ok::<usize, Error>(old(self).groups@.len() as usize)
                        && final(self).groups@.len() == old(self).groups@.len() + 1
                        && final(self).groups@.subrange(0, old(self).groups@.len() as int) == old(self).groups@
                        && final(self).groups@[old(self).groups@.len() as int]@ == group@
                } else {
                    r matches Err(e) && e@ == ErrorView::MaxGroups(old(self).max, group@)
                        && final(self).groups@ == old(self).groups@
                },
            },
    {
        let g = group.to_owned();
        let mut i: usize = 0;
        while i < self.groups.len()
            invariant
                i <= self.groups@.len(),
                self.groups@ == old(self).groups@,
                self.max == old(self).max,
                g@ == group@,
                group_upto(self.groups@, group@, i as int) is None,
            decreases self.groups@.len() - i,
        {
            if self.groups[i] == g {
                proof {
                    lemma_group_stable(self.groups@, group@, i as int + 1, self.groups@.len() as int);
                }
                return Ok(i);
            }
            i += 1;
        }
        if (self.groups.len() as u64) < self.max {
            let n = self.groups.len();
            let ghost before = self.groups@;
            self.groups.push(g);
            assert(self.groups@.subrange(0, n as int) =~= before);
            Ok(n)
        } else {
            Err(max_groups_reached(self.max, group))
        }
    }
}

} // verus!
