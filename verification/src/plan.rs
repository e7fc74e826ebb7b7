//! Committed multi-turn plans, one per unit: an ordered queue of
//! already-decided future actions, consumed one entry per turn, truncated
//! when the world diverges from prediction.

use vstd::prelude::*;
use std::collections::VecDeque;
use crate::action::Action;
use crate::ids::ShipId;

verus! {

/// The set of committed plans, at most one per unit.
pub struct PlanBook {
    pub plans: Vec<(ShipId, VecDeque<Action>)>,
}

impl PlanBook {
    /// Unit ids are unique.
    pub open spec fn wf(self) -> bool {
        forall|i: int, j: int|
            0 <= i < j < self.plans@.len() ==> (#[trigger] self.plans@[i]).0 != (
            #[trigger] self.plans@[j]).0
    }

    pub open spec fn has_plan(self, id: ShipId) -> bool {
        exists|i: int| 0 <= i < self.plans@.len() && (#[trigger] self.plans@[i]).0 == id
    }

    pub open spec fn plan_index(self, id: ShipId) -> int {
        choose|i: int| 0 <= i < self.plans@.len() && (#[trigger] self.plans@[i]).0 == id
    }

    pub open spec fn plan_of(self, id: ShipId) -> Seq<Action> {
        self.plans@[self.plan_index(id)].1@
    }

    pub fn new() -> (r: PlanBook)
        ensures
            r.wf(),
            r.plans@.len() == 0,
    {
        PlanBook { plans: Vec::new() }
    }

    pub fn len(&self) -> (r: usize)
        ensures
            r == self.plans@.len(),
    {
        self.plans.len()
    }

    /// Find the plan filed for a unit.
    pub fn index_of(&self, id: ShipId) -> (r: Option<usize>)
        ensures
            match r {
                Some(i) => i < self.plans@.len() && self.plans@[i as int].0 == id,
                None => !self.has_plan(id),
            },
    {
        let mut i: usize = 0;
        while i < self.plans.len()
            invariant
                i <= self.plans@.len(),
                forall|j: int| 0 <= j < i ==> (#[trigger] self.plans@[j]).0 != id,
            decreases self.plans@.len() - i,
        {
            if self.plans[i].0.0 == id.0 {
                return Some(i);
            }
            i = i + 1;
        }
        None
    }

    pub fn contains(&self, id: ShipId) -> (r: bool)
        ensures
            r == self.has_plan(id),
    {
        proof {
            if self.has_plan(id) {
                let w = self.plan_index(id);
            }
        }
        self.index_of(id).is_some()
    }

    /// File a plan for a unit that has none.
    pub fn insert(&mut self, id: ShipId, plan: VecDeque<Action>)
        requires
            old(self).wf(),
            !old(self).has_plan(id),
        ensures
            final(self).wf(),
            final(self).plans@ == old(self).plans@.push((id, plan)),
            final(self).has_plan(id),
    {
        self.plans.push((id, plan));
        proof {
            let n = self.plans@.len() - 1;
            assert(self.plans@[n].0 == id);
            assert forall|i: int, j: int|
                0 <= i < j < self.plans@.len() implies (#[trigger] self.plans@[i]).0 != (
            #[trigger] self.plans@[j]).0 by {
                if j < n {
                    assert(old(self).plans@[i].0 != old(self).plans@[j].0);
                } else {
                    if old(self).plans@[i].0 == id {
                        assert(old(self).has_plan(id));
                    }
                }
            }
        }
    }

    /// Keep only the nonempty plans of listed units.
    pub fn retain_live(&mut self, ids: &Vec<ShipId>)
        requires
            old(self).wf(),
        ensures
            final(self).wf(),
            forall|k: int|
                0 <= k < final(self).plans@.len() ==> (#[trigger] final(self).plans@[k]).1@.len()
                    > 0 && (exists|j: int|
                    0 <= j < ids@.len() && ids@[j] == final(self).plans@[k].0),
    {
        let ghost m0 = self.plans@;
        let ghost n0 = m0.len();
        let mut kept: Vec<(ShipId, VecDeque<Action>)> = Vec::new();
        let ghost mut taken_count: int = 0;
        while self.plans.len() > 0
            invariant
                0 <= taken_count <= n0,
                self.plans@.len() + taken_count == n0,
                forall|j: int|
                    0 <= j < self.plans@.len() ==> #[trigger] self.plans@[j] == m0[taken_count
                        + j],
                forall|a: int, b: int|
                    0 <= a < b < n0 ==> (#[trigger] m0[a]).0 != (#[trigger] m0[b]).0,
                forall|k: int|
                    0 <= k < kept@.len() ==> exists|k0: int|
                        0 <= k0 < taken_count && (#[trigger] kept@[k]) == m0[k0],
                forall|a: int, b: int|
                    0 <= a < b < kept@.len() ==> (#[trigger] kept@[a]).0 != (
                    #[trigger] kept@[b]).0,
                forall|k: int|
                    0 <= k < kept@.len() ==> (#[trigger] kept@[k]).1@.len() > 0 && (exists|j: int|
                        0 <= j < ids@.len() && ids@[j] == kept@[k].0),
            decreases self.plans@.len(),
        {
            let ghost pre2 = self.plans@;
            let entry = self.plans.remove(0);
            proof {
                assert(pre2[0] == m0[taken_count]);
                assert(entry == pre2[0]);
                assert(self.plans@ == pre2.remove(0));
                assert forall|j: int|
                    0 <= j < self.plans@.len() implies #[trigger] self.plans@[j] == m0[
                    taken_count + 1 + j
                ] by {
                    assert(pre2.remove(0)[j] == pre2[j + 1]);
                    assert(pre2[j + 1] == m0[taken_count + j + 1]);
                }
                taken_count = taken_count + 1;
            }
            let nonempty = entry.1.len() > 0;
            if nonempty && id_in(ids, entry.0) {
                let ghost pre = kept@;
                kept.push(entry);
                proof {
                    assert forall|k: int|
                        0 <= k < kept@.len() implies exists|k0: int|
                        0 <= k0 < taken_count && (#[trigger] kept@[k]) == m0[k0] by {
                        if k < kept@.len() - 1 {
                            assert(kept@[k] == pre[k]);
                            let k0 = choose|k0: int|
                                0 <= k0 < taken_count - 1 && (#[trigger] pre[k]) == m0[k0];
                            assert(kept@[k] == m0[k0]);
                        } else {
                            assert(kept@[k] == m0[taken_count - 1]);
                        }
                    }
                    assert forall|a: int, b: int|
                        0 <= a < b < kept@.len() implies (#[trigger] kept@[a]).0 != (
                    #[trigger] kept@[b]).0 by {
                        if b < kept@.len() - 1 {
                            assert(kept@[a] == pre[a] && kept@[b] == pre[b]);
                            assert(pre[a].0 != pre[b].0);
                        } else {
                            let k0 = choose|k0: int|
                                0 <= k0 < taken_count - 1 && (#[trigger] pre[a]) == m0[k0];
                            assert(kept@[a] == m0[k0]);
                            assert(kept@[b] == m0[taken_count - 1]);
                            assert(m0[k0].0 != m0[taken_count - 1].0);
                        }
                    }
                }
            }
        }
        self.plans = kept;
    }

    /// Truncate a unit's plan to its first `n` actions; without a filed
    /// plan nothing changes.
    pub fn truncate_plan(&mut self, id: ShipId, n: usize)
        requires
            old(self).wf(),
        ensures
            final(self).wf(),
            final(self).plans@.len() == old(self).plans@.len(),
            forall|k: int|
                0 <= k < final(self).plans@.len() ==> (#[trigger] final(self).plans@[k]).0 == old(
                    self,
                ).plans@[k].0,
            forall|k: int|
                0 <= k < final(self).plans@.len() && old(self).plans@[k].0 != id
                    ==> #[trigger] final(self).plans@[k] == old(self).plans@[k],
            old(self).has_plan(id) ==> ({
                let i = old(self).plan_index(id);
                let q = old(self).plans@[i].1@;
                final(self).plans@[i].1@ == (if n <= q.len() {
                    q.subrange(0, n as int)
                } else {
                    q
                })
            }),
    {
        let idx = self.index_of(id);
        match idx {
            Some(i) => {
                let ghost m0 = self.plans@;
                proof {
                    let ic = old(self).plan_index(id);
                    assert(0 <= ic < m0.len() && m0[ic].0 == id);
                    if ic < i as int {
                        assert(m0[ic].0 != m0[i as int].0);
                    } else if (i as int) < ic {
                        assert(m0[i as int].0 != m0[ic].0);
                    }
                    assert(ic == i as int);
                }
                let entry = &mut self.plans[i];
                entry.1.truncate(n);
                proof {
                    assert forall|a: int, b: int|
                        0 <= a < b < self.plans@.len() implies (#[trigger] self.plans@[a]).0 != (
                    #[trigger] self.plans@[b]).0 by {
                        assert(self.plans@[a].0 == m0[a].0 && self.plans@[b].0 == m0[b].0);
                        assert(m0[a].0 != m0[b].0);
                    }
                }
            },
            None => {
                proof {
                    if old(self).has_plan(id) {
                        let ic = old(self).plan_index(id);
                        assert(old(self).plans@[ic].0 == id);
                        assert(false);
                    }
                }
            },
        }
    }

    /// Append actions to a unit's plan, or file them as its plan.
    pub fn extend_plan(&mut self, id: ShipId, mut more: VecDeque<Action>)
        requires
            old(self).wf(),
        ensures
            final(self).wf(),
            final(self).has_plan(id),
            old(self).has_plan(id) ==> final(self).plans@.len() == old(self).plans@.len() && ({
                let i = old(self).plan_index(id);
                &&& final(self).plans@[i].1@ == old(self).plans@[i].1@ + more@
                &&& final(self).plans@[i].0 == id
                &&& forall|k: int|
                    0 <= k < final(self).plans@.len() && k != i
                        ==> #[trigger] final(self).plans@[k] == old(self).plans@[k]
            }),
            !old(self).has_plan(id) ==> final(self).plans@.len() == old(self).plans@.len() + 1
                && final(self).plans@.last().0 == id && final(self).plans@.last().1@ == more@
                && (forall|k: int|
                0 <= k < old(self).plans@.len() ==> #[trigger] final(self).plans@[k] == old(
                    self,
                ).plans@[k]),
    {
        let idx = self.index_of(id);
        match idx {
            Some(i) => {
                let ghost m0 = self.plans@;
                proof {
                    let ic = old(self).plan_index(id);
                    assert(0 <= ic < m0.len() && m0[ic].0 == id);
                    if ic < i as int {
                        assert(m0[ic].0 != m0[i as int].0);
                    } else if (i as int) < ic {
                        assert(m0[i as int].0 != m0[ic].0);
                    }
                    assert(ic == i as int);
                }
                let entry = &mut self.plans[i];
                entry.1.append(&mut more);
                proof {
                    assert forall|a: int, b: int|
                        0 <= a < b < self.plans@.len() implies (#[trigger] self.plans@[a]).0 != (
                    #[trigger] self.plans@[b]).0 by {
                        assert(self.plans@[a].0 == m0[a].0 && self.plans@[b].0 == m0[b].0);
                        assert(m0[a].0 != m0[b].0);
                    }
                }
            },
            None => {
                self.insert(id, more);
            },
        }
    }

    /// Take the next action of the plan at an index.
    pub fn pop_front_at(&mut self, i: usize) -> (r: Option<Action>)
        requires
            old(self).wf(),
            i < old(self).plans@.len(),
        ensures
            final(self).wf(),
            final(self).plans@.len() == old(self).plans@.len(),
            forall|k: int|
                0 <= k < final(self).plans@.len() ==> (#[trigger] final(self).plans@[k]).0 == old(
                    self,
                ).plans@[k].0,
            forall|k: int|
                0 <= k < final(self).plans@.len() && k != i
                    ==> #[trigger] final(self).plans@[k] == old(self).plans@[k],
            old(self).plans@[i as int].1@.len() > 0 ==> r == Some(
                old(self).plans@[i as int].1@[0],
            ) && final(self).plans@[i as int].1@ == old(self).plans@[i as int].1@.subrange(
                1,
                old(self).plans@[i as int].1@.len() as int,
            ),
            old(self).plans@[i as int].1@.len() == 0 ==> (r is None) && final(self).plans@[
                i as int
            ].1@ == old(self).plans@[i as int].1@,
    {
        let ghost m0 = self.plans@;
        let entry = &mut self.plans[i];
        let r = entry.1.pop_front();
        proof {
            assert forall|a: int, b: int|
                0 <= a < b < self.plans@.len() implies (#[trigger] self.plans@[a]).0 != (
            #[trigger] self.plans@[b]).0 by {
                assert(self.plans@[a].0 == m0[a].0 && self.plans@[b].0 == m0[b].0);
                assert(m0[a].0 != m0[b].0);
            }
        }
        r
    }

    /// Drop a unit's plan, if any.
    pub fn remove_plan(&mut self, id: ShipId)
        requires
            old(self).wf(),
        ensures
            final(self).wf(),
            !final(self).has_plan(id),
            forall|id2: ShipId|
                id2 != id ==> #[trigger] final(self).has_plan(id2) == old(self).has_plan(id2),
    {
        let idx = self.index_of(id);
        match idx {
            Some(i) => {
                let ghost m0 = self.plans@;
                self.plans.remove(i);
                proof {
                    assert forall|a: int, b: int|
                        0 <= a < b < self.plans@.len() implies (#[trigger] self.plans@[a]).0 != (
                    #[trigger] self.plans@[b]).0 by {
                        let a0 = if a < i as int {
                            a
                        } else {
                            a + 1
                        };
                        let b0 = if b < i as int {
                            b
                        } else {
                            b + 1
                        };
                        assert(self.plans@[a] == m0[a0] && self.plans@[b] == m0[b0]);
                        assert(m0[a0].0 != m0[b0].0);
                    }
                    if final(self).has_plan(id) {
                        let k = choose|k: int|
                            0 <= k < self.plans@.len() && (#[trigger] self.plans@[k]).0 == id;
                        let k0 = if k < i as int {
                            k
                        } else {
                            k + 1
                        };
                        assert(m0[k0].0 == id);
                        assert(m0[i as int].0 == id);
                        if k0 < i as int {
                            assert(m0[k0].0 != m0[i as int].0);
                        } else {
                            assert(m0[i as int].0 != m0[k0].0);
                        }
                        assert(false);
                    }
                    assert forall|id2: ShipId|
                        id2 != id implies #[trigger] final(self).has_plan(id2) == old(
                        self,
                    ).has_plan(id2) by {
                        if old(self).has_plan(id2) {
                            let k0 = choose|k0: int|
                                0 <= k0 < m0.len() && (#[trigger] m0[k0]).0 == id2;
                            assert(k0 != i as int);
                            let k = if k0 < i as int {
                                k0
                            } else {
                                k0 - 1
                            };
                            assert(self.plans@[k] == m0[k0]);
                        }
                        if final(self).has_plan(id2) {
                            let k = choose|k: int|
                                0 <= k < self.plans@.len() && (#[trigger] self.plans@[k]).0 == id2;
                            let k0 = if k < i as int {
                                k
                            } else {
                                k + 1
                            };
                            assert(m0[k0].0 == id2);
                        }
                    }
                }
            },
            None => {},
        }
    }
}

/// Whether a unit id appears in a list.
fn id_in(v: &Vec<ShipId>, id: ShipId) -> (r: bool)
    ensures
        r == exists|k: int| 0 <= k < v@.len() && (#[trigger] v@[k]) == id,
{
    let mut k: usize = 0;
    while k < v.len()
        invariant
            k <= v@.len(),
            forall|j: int| 0 <= j < k ==> (#[trigger] v@[j]) != id,
        decreases v@.len() - k,
    {
        if v[k].0 == id.0 {
            return true;
        }
        k = k + 1;
    }
    false
}

} // verus!
