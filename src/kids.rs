//! The children of a pop, kept as yearly cohorts until they come of age.
use vstd::prelude::*;

use std::collections::VecDeque;

verus! {

/// How many yearly cohorts are kept; an older cohort comes of age.
pub const COHORTS: usize = 12;

/// The largest cohort that can be added: a buffer briefly holds one more than
/// `COHORTS` cohorts, and their total must fit in `isize`.
pub open spec fn max_cohort() -> int {
    isize::MAX as int / 13
}

/// The sum of the cohorts.
pub open spec fn total(s: Seq<isize>) -> int
    decreases s.len(),
{
    if s.len() == 0 {
        0
    } else {
        total(s.drop_last()) + s.last()
    }
}

/// Children by age: the youngest cohort first.
#[derive(Debug)]
pub struct KidBuffer(VecDeque<isize>);

impl KidBuffer {
    pub closed spec fn cohorts(&self) -> Seq<isize> {
        self.0@
    }

    /// At most `COHORTS` cohorts, none negative nor above `max_cohort()`.
    pub open spec fn wf(&self) -> bool {
        &&& self.cohorts().len() <= COHORTS
        &&& forall|i: int|
            0 <= i < self.cohorts().len() ==> 0 <= #[trigger] self.cohorts()[i] <= max_cohort()
    }

    pub fn new() -> (r: Self)
        ensures
            r.wf(),
            r.cohorts() == Seq::<isize>::empty(),
    {
        KidBuffer(VecDeque::new())
    }

    /// The number of children in all cohorts.
    pub fn size(&self) -> (r: isize)
        requires
            self.wf(),
        ensures
            r == total(self.cohorts()),
    {
        let mut acc: isize = 0;
        let mut i: usize = 0;
        while i < self.0.len()
            invariant
                self.wf(),
                i <= self.cohorts().len(),
                acc == total(self.cohorts().subrange(0, i as int)),
                0 <= acc <= i * max_cohort(),
            decreases self.cohorts().len() - i,
        {
            proof {
                assert(self.cohorts().subrange(0, i + 1).drop_last() =~= self.cohorts().subrange(0, i as int));
                let m = max_cohort();
                let c = self.cohorts()[i as int] as int;
                let a = acc as int;
                let n = i as int;
                assert(0 <= c <= m);
                assert(a + c <= (n + 1) * m) by (nonlinear_arith)
                    requires
                        a <= n * m,
                        c <= m,
                ;
                assert((n + 1) * m <= 12 * m) by (nonlinear_arith)
                    requires
                        n + 1 <= 12,
                        m >= 0,
                ;
            }
            acc = acc + self.0[i];
            i += 1;
        }
        proof {
            assert(self.cohorts().subrange(0, i as int) =~= self.cohorts());
        }
        acc
    }

    /// Adds this year's cohort of `babies`. When that makes more than
    /// `COHORTS` cohorts, the oldest comes of age: it leaves the buffer and its
    /// size is returned. Otherwise `babies` is returned.
    pub fn spawn(&mut self, babies: isize) -> (r: isize)
        requires
            old(self).wf(),
            0 <= babies <= max_cohort(),
        ensures
            final(self).wf(),
            old(self).cohorts().len() < COHORTS ==> r == babies && final(self).cohorts() == seq![babies]
                + old(self).cohorts(),
            old(self).cohorts().len() == COHORTS ==> r == old(self).cohorts().last()
                && final(self).cohorts() == (seq![babies] + old(self).cohorts()).drop_last(),
    {
        self.0.push_front(babies);
        proof {
            assert(self.0@ =~= seq![babies] + old(self).0@);
        }
        if self.0.len() > COHORTS {
            let oldest = self.0.pop_back();
            match oldest {
                Some(v) => v,
                None => babies,
            }
        } else {
            babies
        }
    }

    /// The size of cohort `i`, if there is one.
    pub fn cohort(&self, i: usize) -> (r: Option<isize>)
        ensures
            i < self.cohorts().len() ==> r == Some(self.cohorts()[i as int]),
            i >= self.cohorts().len() ==> r is None,
    {
        if i < self.0.len() {
            Some(self.0[i])
        } else {
            None
        }
    }

    /// Up to `dead_kids` children of cohort `cohort` die; the cohort never
    /// drops below zero. Returns how many died: none when there is no such
    /// cohort or when `dead_kids` is not positive.
    pub fn starve(&mut self, cohort: usize, dead_kids: isize) -> (r: isize)
        requires
            old(self).wf(),
        ensures
            final(self).wf(),
            cohort >= old(self).cohorts().len() ==> r == 0 && final(self).cohorts() == old(self).cohorts(),
            cohort < old(self).cohorts().len() ==> {
                let size = old(self).cohorts()[cohort as int];
                let left = if dead_kids <= 0 {
                    size as int
                } else if size - dead_kids < 0 {
                    0
                } else {
                    size - dead_kids
                };
                &&& final(self).cohorts() == old(self).cohorts().update(cohort as int, left as isize)
                &&& r == size - left
            },
    {
        if cohort < self.0.len() {
            let size = self.0[cohort];
            let left = if dead_kids <= 0 {
                size
            } else if dead_kids > size {
                0
            } else {
                size - dead_kids
            };
            let ghost before = self.0@;
            let _ = self.0.remove(cohort);
            self.0.insert(cohort, left);
            proof {
                assert(self.0@ =~= before.update(cohort as int, left));
            }
            size - left
        } else {
            0
        }
    }
}

} // verus!
