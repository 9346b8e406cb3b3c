//! The process table of one sampling instant: samples keyed uniquely by
//! pid, in ascending pid order, with map-style lookup contracts, a
//! view-preserving clone, and the owner filter that yields the displayed
//! view.

use vstd::prelude::*;

use crate::sample::{owner_root, ProcessSample, SampleView};

verus! {

/// The views of a sequence of samples.
pub open spec fn sample_views(v: Seq<ProcessSample>) -> Seq<SampleView> {
    v.map_values(|s: ProcessSample| s@)
}

fn clone_bytes(v: &Vec<u8>) -> (r: Vec<u8>)
    ensures
        r@ == v@,
{
    let r = v.clone();
    proof {
        assert(r@ =~= v@);
    }
    r
}

fn clone_pids(v: &Vec<u32>) -> (r: Vec<u32>)
    ensures
        r@ == v@,
{
    let r = v.clone();
    proof {
        assert(r@ =~= v@);
    }
    r
}

impl Clone for ProcessSample {
    /// A clone observes the same state: the views agree exactly.
    fn clone(&self) -> (r: Self)
        ensures
            r@ == self@,
    {
        ProcessSample {
            pid: self.pid,
            name: clone_bytes(&self.name),
            status: clone_bytes(&self.status),
            owner: clone_bytes(&self.owner),
            cpu_centi_percent: self.cpu_centi_percent,
            memory_kb: self.memory_kb,
            executable_path: clone_bytes(&self.executable_path),
            parent_pid: self.parent_pid,
            children_pids: clone_pids(&self.children_pids),
        }
    }
}

/// The process table: one sample per pid, ascending by pid.
pub struct ProcessSnapshot {
    pub samples: Vec<ProcessSample>,
}

impl Clone for ProcessSnapshot {
    /// A cloned table observes the same state: the views agree exactly.
    fn clone(&self) -> (r: Self)
        ensures
            r@ == self@,
    {
        let samples = self.samples.clone();
        proof {
            assert forall|i: int| 0 <= i < samples@.len() implies samples@[i]@
                == self.samples@[i]@ by {
                assert(vstd::pervasive::cloned::<ProcessSample>(self.samples@[i], samples@[i]));
            }
            assert(sample_views(samples@) =~= sample_views(self.samples@));
        }
        ProcessSnapshot { samples }
    }
}

impl View for ProcessSnapshot {
    type V = Seq<SampleView>;

    open spec fn view(&self) -> Seq<SampleView> {
        sample_views(self.samples@)
    }
}

impl ProcessSnapshot {
    /// Well-formed: strictly ascending pids, hence unique keys.
    pub open spec fn wf(self) -> bool {
        forall|i: int, j: int|
            0 <= i < j < self@.len() ==> self@[i].pid < self@[j].pid
    }

    pub open spec fn spec_contains(self, pid: u32) -> bool {
        exists|i: int| 0 <= i < self@.len() && self@[i].pid == pid
    }

    /// The index a pid's sample stands at (unique under `wf`).
    pub open spec fn idx_of(self, pid: u32) -> int {
        choose|i: int| 0 <= i < self@.len() && self@[i].pid == pid
    }

    /// The sample published under a pid, when there is one.
    pub open spec fn spec_get(self, pid: u32) -> Option<SampleView> {
        if self.spec_contains(pid) {
            Some(self@[self.idx_of(pid)])
        } else {
            None
        }
    }

    /// Under well-formedness a pid occurs at one index only.
    pub proof fn lemma_unique_index(self, i: int, j: int)
        requires
            self.wf(),
            0 <= i < self@.len(),
            0 <= j < self@.len(),
            self@[i].pid == self@[j].pid,
        ensures
            i == j,
    {
    }

    pub fn new() -> (r: Self)
        ensures
            r.wf(),
            r@.len() == 0,
            forall|p: u32| !r.spec_contains(p),
    {
        ProcessSnapshot { samples: Vec::new() }
    }

    pub fn len(&self) -> (n: usize)
        ensures
            n == self@.len(),
    {
        self.samples.len()
    }

    /// Puts a sample into the table under its pid, replacing any earlier
    /// sample of the same pid and leaving every other entry as it was.
    pub fn insert(&mut self, s: ProcessSample)
        requires
            old(self).wf(),
        ensures
            final(self).wf(),
            forall|p: u32|
                final(self).spec_contains(p) <==> (old(self).spec_contains(p) || p == s.pid),
            final(self).spec_get(s.pid) == Some(s@),
            forall|p: u32| p != s.pid ==> final(self).spec_get(p) == old(self).spec_get(p),
    {
        let mut k: usize = 0;
        while k < self.samples.len() && self.samples[k].pid < s.pid
            invariant
                0 <= k <= self.samples@.len(),
                forall|i: int| 0 <= i < k ==> self@[i].pid < s.pid,
                *self == *old(self),
            decreases self.samples@.len() - k,
        {
            proof {
                assert(self@[k as int].pid == self.samples@[k as int].pid);
            }
            k = k + 1;
        }
        proof {
            assert(k < self.samples@.len() ==> self@[k as int].pid
                == self.samples@[k as int].pid);
        }
        let ghost o = old(self)@;
        if k < self.samples.len() && self.samples[k].pid == s.pid {
            self.samples.set(k, s);
            proof {
                let n = self@;
                assert(n =~= o.update(k as int, s@));
                self.lemma_insert_post_replace(*old(self), s, k as int);
            }
        } else {
            self.samples.insert(k, s);
            proof {
                let n = self@;
                assert(n =~= o.insert(k as int, s@));
                self.lemma_insert_post_fresh(*old(self), s, k as int);
            }
        }
    }

    /// What replacing the sample at the pid's own slot guarantees.
    proof fn lemma_insert_post_replace(self, prev: Self, s: ProcessSample, k: int)
        requires
            prev.wf(),
            0 <= k < prev@.len(),
            prev@[k].pid == s.pid,
            forall|i: int| 0 <= i < k ==> prev@[i].pid < s.pid,
            self@ == prev@.update(k, s@),
        ensures
            self.wf(),
            forall|p: u32| self.spec_contains(p) <==> (prev.spec_contains(p) || p == s.pid),
            self.spec_get(s.pid) == Some(s@),
            forall|p: u32| p != s.pid ==> self.spec_get(p) == prev.spec_get(p),
    {
        assert forall|p: u32| self.spec_contains(p) implies (prev.spec_contains(p) || p
            == s.pid) by {
            let i = choose|i: int| 0 <= i < self@.len() && self@[i].pid == p;
            if i != k {
                assert(prev@[i].pid == p);
            }
        }
        assert forall|p: u32| (prev.spec_contains(p) || p == s.pid) implies self.spec_contains(
            p,
        ) by {
            if p == s.pid {
                assert(self@[k].pid == p);
            } else {
                let i = choose|i: int| 0 <= i < prev@.len() && prev@[i].pid == p;
                assert(i != k);
                assert(self@[i].pid == p);
            }
        }
        assert(self@[k].pid == s.pid);
        let i = self.idx_of(s.pid);
        self.lemma_unique_index(i, k);
        assert forall|p: u32| p != s.pid implies self.spec_get(p) == prev.spec_get(p) by {
            if prev.spec_contains(p) {
                let ip = prev.idx_of(p);
                assert(prev@[ip].pid == p);
                assert(ip != k);
                assert(self@[ip].pid == p);
                let jn = self.idx_of(p);
                self.lemma_unique_index(jn, ip);
            }
        }
    }

    /// What inserting a fresh pid at its sorted slot guarantees.
    proof fn lemma_insert_post_fresh(self, prev: Self, s: ProcessSample, k: int)
        requires
            prev.wf(),
            0 <= k <= prev@.len(),
            k < prev@.len() ==> prev@[k].pid > s.pid,
            forall|i: int| 0 <= i < k ==> prev@[i].pid < s.pid,
            self@ == prev@.insert(k, s@),
        ensures
            self.wf(),
            forall|p: u32| self.spec_contains(p) <==> (prev.spec_contains(p) || p == s.pid),
            self.spec_get(s.pid) == Some(s@),
            forall|p: u32| p != s.pid ==> self.spec_get(p) == prev.spec_get(p),
    {
        assert(self@.len() == prev@.len() + 1);
        assert forall|i: int| 0 <= i < self@.len() implies self@[i] == (if i < k {
            prev@[i]
        } else if i == k {
            s@
        } else {
            prev@[i - 1]
        }) by {
            assert(self@ == prev@.insert(k, s@));
        }
        assert(self.wf());
        assert forall|p: u32| self.spec_contains(p) implies (prev.spec_contains(p) || p
            == s.pid) by {
            let i = choose|i: int| 0 <= i < self@.len() && self@[i].pid == p;
            if i < k {
                assert(prev@[i].pid == p);
            } else if i > k {
                assert(prev@[i - 1].pid == p);
            }
        }
        assert forall|p: u32| (prev.spec_contains(p) || p == s.pid) implies self.spec_contains(
            p,
        ) by {
            if p == s.pid {
                assert(self@[k].pid == p);
            } else {
                let i = choose|i: int| 0 <= i < prev@.len() && prev@[i].pid == p;
                if i < k {
                    assert(self@[i].pid == p);
                } else {
                    assert(self@[i + 1].pid == p);
                }
            }
        }
        assert(self@[k].pid == s.pid);
        let i = self.idx_of(s.pid);
        self.lemma_unique_index(i, k);
        assert forall|p: u32| p != s.pid implies self.spec_get(p) == prev.spec_get(p) by {
            if prev.spec_contains(p) {
                let ip = prev.idx_of(p);
                assert(prev@[ip].pid == p);
                let jn = if ip < k {
                    ip
                } else {
                    ip + 1
                };
                assert(self@[jn].pid == p);
                self.lemma_unique_index(self.idx_of(p), jn);
            }
        }
    }

    /// Looks a pid up, yielding its sample exactly when the pid is in the
    /// table.
    pub fn get(&self, pid: u32) -> (r: Option<&ProcessSample>)
        requires
            self.wf(),
        ensures
            match r {
                Some(smp) => self.spec_get(pid) == Some(smp@) && smp.pid == pid,
                None => !self.spec_contains(pid),
            },
    {
        let mut k: usize = 0;
        while k < self.samples.len()
            invariant
                self.wf(),
                0 <= k <= self.samples@.len(),
                forall|i: int| 0 <= i < k ==> self@[i].pid != pid,
            decreases self.samples@.len() - k,
        {
            proof {
                assert(self@[k as int] == self.samples@[k as int]@);
            }
            if self.samples[k].pid == pid {
                proof {
                    assert(self@[k as int].pid == pid);
                    self.lemma_unique_index(self.idx_of(pid), k as int);
                }
                return Some(&self.samples[k]);
            }
            k = k + 1;
        }
        None
    }
}

/// Whether a view shows a sample: every sample when everything is shown,
/// otherwise only those not owned by root.
pub open spec fn spec_show(s: SampleView, show_all: bool) -> bool {
    show_all || s.owner != owner_root()
}

/// The subsequence of samples a view shows, in table order.
pub open spec fn visible_of(ss: Seq<SampleView>, show_all: bool) -> Seq<SampleView>
    decreases ss.len(),
{
    if ss.len() == 0 {
        Seq::<SampleView>::empty()
    } else {
        let rest = visible_of(ss.drop_last(), show_all);
        if spec_show(ss.last(), show_all) {
            rest.push(ss.last())
        } else {
            rest
        }
    }
}

/// Every shown sample is one of the table's samples.
pub proof fn lemma_visible_membership(ss: Seq<SampleView>, show_all: bool, k: int)
    requires
        0 <= k < visible_of(ss, show_all).len(),
    ensures
        exists|i: int|
            0 <= i < ss.len() && ss[i] == visible_of(ss, show_all)[k] && spec_show(
                #[trigger] ss[i],
                show_all,
            ),
    decreases ss.len(),
{
    let rest = visible_of(ss.drop_last(), show_all);
    if k < rest.len() {
        lemma_visible_membership(ss.drop_last(), show_all, k);
        let i = choose|i: int|
            0 <= i < ss.drop_last().len() && ss.drop_last()[i] == rest[k] && spec_show(
                #[trigger] ss.drop_last()[i],
                show_all,
            );
        assert(ss[i] == ss.drop_last()[i]);
    } else {
        assert(ss[ss.len() - 1] == visible_of(ss, show_all)[k]);
    }
}

/// A view keeps the table's strict pid order, and so its uniqueness.
pub proof fn lemma_visible_sorted(ss: Seq<SampleView>, show_all: bool)
    requires
        forall|i: int, j: int| 0 <= i < j < ss.len() ==> ss[i].pid < ss[j].pid,
    ensures
        forall|i: int, j: int|
            0 <= i < j < visible_of(ss, show_all).len() ==> visible_of(ss, show_all)[i].pid
                < visible_of(ss, show_all)[j].pid,
    decreases ss.len(),
{
    if ss.len() > 0 {
        let rest = visible_of(ss.drop_last(), show_all);
        lemma_visible_sorted(ss.drop_last(), show_all);
        if spec_show(ss.last(), show_all) {
            assert forall|k: int| 0 <= k < rest.len() implies rest[k].pid < ss.last().pid by {
                lemma_visible_membership(ss.drop_last(), show_all, k);
            }
        }
    }
}

fn is_root_owner(v: &Vec<u8>) -> (r: bool)
    ensures
        r == (v@ == owner_root()),
{
    if v.len() == 4 && v[0] == 114 && v[1] == 111 && v[2] == 111 && v[3] == 116 {
        proof {
            assert(v@ =~= owner_root());
        }
        true
    } else {
        proof {
            assert(v@ != owner_root());
        }
        false
    }
}

impl ProcessSnapshot {
    /// The displayed view of the table: every sample, or every sample not
    /// owned by root, in table order.
    pub fn visible_samples(&self, show_all: bool) -> (r: Vec<ProcessSample>)
        ensures
            sample_views(r@) == visible_of(self@, show_all),
    {
        let mut r: Vec<ProcessSample> = Vec::new();
        let mut i: usize = 0;
        while i < self.samples.len()
            invariant
                0 <= i <= self.samples@.len(),
                sample_views(r@) == visible_of(self@.subrange(0, i as int), show_all),
            decreases self.samples@.len() - i,
        {
            proof {
                let pre = self@.subrange(0, i as int);
                let ext = self@.subrange(0, i as int + 1);
                assert(ext.drop_last() =~= pre);
                assert(ext.last() == self@[i as int]);
                assert(self@[i as int] == self.samples@[i as int]@);
            }
            let shown = show_all || !is_root_owner(&self.samples[i].owner);
            if shown {
                let ghost old_r = r@;
                r.push(self.samples[i].clone());
                proof {
                    assert(sample_views(r@) =~= sample_views(old_r).push(self@[i as int]));
                }
            }
            i = i + 1;
        }
        proof {
            assert(self@.subrange(0, self@.len() as int) =~= self@);
        }
        r
    }
}

} // verus!
