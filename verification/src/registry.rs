//! The job registry: the one piece of shared state of the runner.  It maps a
//! job id to the phase that job is in, so that a cancellation request can
//! find a job started by an earlier, still-running call.  The embedding
//! program guards a registry (inside the runner core) with a lock; every
//! operation here is a single short lookup or update, fit to run under one.
use vstd::prelude::*;

verus! {

/// The phase of a job while it occupies the registry.  `Pending` is entered
/// on acceptance, before the child process exists; `Running` once the child
/// was spawned; `Cancelled` once a cancellation was signalled but the exit
/// has not yet been observed.  Terminal jobs leave the registry.
#[derive(Debug, Clone, Copy, PartialEq, Eq, Structural)]
pub enum JobPhase {
    Pending,
    Running,
    Cancelled,
}

#[derive(Debug, Clone)]
struct JobEntry {
    id: String,
    phase: JobPhase,
}

/// A map from job id to [`JobPhase`], holding exactly the active jobs.
#[derive(Debug)]
pub struct JobRegistry {
    entries: Vec<JobEntry>,
}

spec fn entries_map(s: Seq<JobEntry>) -> Map<Seq<char>, JobPhase>
    decreases s.len(),
{
    if s.len() == 0 {
        Map::empty()
    } else {
        entries_map(s.drop_last()).insert(s.last().id@, s.last().phase)
    }
}

spec fn distinct_ids(s: Seq<JobEntry>) -> bool {
    forall|i: int, j: int| 0 <= i < j < s.len() ==> s[i].id@ != s[j].id@
}

proof fn lemma_map_domain(s: Seq<JobEntry>, k: Seq<char>)
    ensures
        entries_map(s).contains_key(k) <==> exists|i: int| 0 <= i < s.len() && s[i].id@ == k,
    decreases s.len(),
{
    if s.len() > 0 {
        lemma_map_domain(s.drop_last(), k);
        if s.last().id@ == k {
            assert(s[s.len() - 1].id@ == k);
        } else {
            if exists|i: int| 0 <= i < s.len() && s[i].id@ == k {
                let i = choose|i: int| 0 <= i < s.len() && s[i].id@ == k;
                assert(s.drop_last()[i].id@ == k);
            }
        }
    }
}

proof fn lemma_map_lookup(s: Seq<JobEntry>, i: int)
    requires
        distinct_ids(s),
        0 <= i < s.len(),
    ensures
        entries_map(s).contains_key(s[i].id@),
        entries_map(s)[s[i].id@] == s[i].phase,
    decreases s.len(),
{
    if i == s.len() - 1 {
    } else {
        assert(distinct_ids(s.drop_last()));
        lemma_map_lookup(s.drop_last(), i);
        assert(s.drop_last()[i] == s[i]);
        assert(s[i].id@ != s.last().id@);
    }
}

proof fn lemma_map_remove_at(s: Seq<JobEntry>, i: int)
    requires
        distinct_ids(s),
        0 <= i < s.len(),
    ensures
        entries_map(s.remove(i)) =~= entries_map(s).remove(s[i].id@),
    decreases s.len(),
{
    if i == s.len() - 1 {
        assert(s.remove(i) =~= s.drop_last());
        lemma_map_domain(s.drop_last(), s[i].id@);
        assert(!entries_map(s.drop_last()).contains_key(s[i].id@)) by {
            if exists|j: int| 0 <= j < s.drop_last().len() && s.drop_last()[j].id@ == s[i].id@ {
                let j = choose|j: int|
                    0 <= j < s.drop_last().len() && s.drop_last()[j].id@ == s[i].id@;
                assert(s[j].id@ == s[i].id@);
            }
        }
    } else {
        let t = s.drop_last();
        assert(distinct_ids(t));
        lemma_map_remove_at(t, i);
        assert(s.remove(i).drop_last() =~= t.remove(i));
        assert(s.remove(i).last() == s.last());
        assert(s[i].id@ != s.last().id@);
    }
}

impl JobRegistry {
    /// The registry seen as a map from job id to phase.
    pub closed spec fn view(&self) -> Map<Seq<char>, JobPhase> {
        entries_map(self.entries@)
    }

    /// Internal well-formedness: no job id occupies two entries.
    pub closed spec fn wf(&self) -> bool {
        distinct_ids(self.entries@)
    }

    /// An empty registry.
    pub fn new() -> (r: JobRegistry)
        ensures
            r.wf(),
            r@ =~= Map::<Seq<char>, JobPhase>::empty(),
    {
        JobRegistry { entries: Vec::new() }
    }

    fn find_index(&self, key: &String) -> (r: Option<usize>)
        ensures
            match r {
                Some(i) => i < self.entries@.len() && self.entries@[i as int].id@ == key@,
                None => forall|i: int|
                    0 <= i < self.entries@.len() ==> self.entries@[i].id@ != key@,
            },
    {
        let n = self.entries.len();
        let mut i: usize = 0;
        while i < n
            invariant
                n == self.entries@.len(),
                i <= n,
                forall|j: int| 0 <= j < i ==> self.entries@[j].id@ != key@,
            decreases n - i,
        {
            if self.entries[i].id == *key {
                return Some(i);
            }
            i = i + 1;
        }
        None
    }

    /// The phase of the job `id`, or `None` when no such job is active.
    pub fn phase_of(&self, id: &str) -> (r: Option<JobPhase>)
        requires
            self.wf(),
        ensures
            r == (if self@.contains_key(id@) {
                Some(self@[id@])
            } else {
                None::<JobPhase>
            }),
    {
        let key = id.to_owned();
        let found = self.find_index(&key);
        proof {
            lemma_map_domain(self.entries@, id@);
        }
        match found {
            Some(i) => {
                proof {
                    lemma_map_lookup(self.entries@, i as int);
                }
                Some(self.entries[i].phase)
            },
            None => None,
        }
    }

    /// Adds a newly accepted job in phase `Pending`.  The caller has ruled
    /// out a duplicate id beforehand.
    pub fn insert_pending(&mut self, id: String)
        requires
            old(self).wf(),
            !old(self)@.contains_key(id@),
        ensures
            final(self).wf(),
            final(self)@ =~= old(self)@.insert(id@, JobPhase::Pending),
    {
        proof {
            lemma_map_domain(self.entries@, id@);
            assert(forall|i: int| 0 <= i < self.entries@.len() ==> self.entries@[i].id@ != id@);
        }
        let ghost s0 = self.entries@;
        self.entries.push(JobEntry { id, phase: JobPhase::Pending });
        proof {
            assert(self.entries@.drop_last() =~= s0);
        }
    }

    /// Moves the job `id` to `phase`.  The job must be active.
    pub fn set_phase(&mut self, id: &str, phase: JobPhase)
        requires
            old(self).wf(),
            old(self)@.contains_key(id@),
        ensures
            final(self).wf(),
            final(self)@ =~= old(self)@.insert(id@, phase),
    {
        let key = id.to_owned();
        let found = self.find_index(&key);
        proof {
            lemma_map_domain(self.entries@, id@);
        }
        match found {
            Some(i) => {
                let ghost s0 = self.entries@;
                proof {
                    lemma_map_remove_at(s0, i as int);
                }
                let e = self.entries.remove(i);
                let ghost s1 = self.entries@;
                self.entries.push(JobEntry { id: e.id, phase });
                proof {
                    assert(self.entries@.drop_last() =~= s1);
                    s0.remove_ensures(i as int);
                    assert forall|p: int, q: int| 0 <= p < q < s1.len() implies s1[p].id@
                        != s1[q].id@ by {
                        let p0 = if p < i as int { p } else { p + 1 };
                        let q0 = if q < i as int { q } else { q + 1 };
                        assert(s1[p] == s0[p0]);
                        assert(s1[q] == s0[q0]);
                    }
                    assert(!entries_map(s1).contains_key(id@)) by {
                        lemma_map_domain(s1, id@);
                        if exists|j: int| 0 <= j < s1.len() && s1[j].id@ == id@ {
                            let j = choose|j: int| 0 <= j < s1.len() && s1[j].id@ == id@;
                            if j < i as int {
                                assert(s0[j].id@ == id@);
                            } else {
                                assert(s0[j + 1].id@ == id@);
                            }
                        }
                    }
                    lemma_map_domain(s1, id@);
                    assert(forall|j: int| 0 <= j < s1.len() ==> s1[j].id@ != id@);
                    assert(final(self)@ =~= old(self)@.insert(id@, phase));
                }
            },
            None => {
                proof {
                    assert(false);
                }
            },
        }
    }

    /// Removes the job `id` from the registry as it reaches a terminal state.
    pub fn remove(&mut self, id: &str)
        requires
            old(self).wf(),
            old(self)@.contains_key(id@),
        ensures
            final(self).wf(),
            final(self)@ =~= old(self)@.remove(id@),
    {
        let key = id.to_owned();
        let found = self.find_index(&key);
        proof {
            lemma_map_domain(self.entries@, id@);
        }
        match found {
            Some(i) => {
                let ghost s0 = self.entries@;
                proof {
                    lemma_map_remove_at(s0, i as int);
                }
                let _ = self.entries.remove(i);
                proof {
                    let s1 = self.entries@;
                    s0.remove_ensures(i as int);
                    assert forall|p: int, q: int| 0 <= p < q < s1.len() implies s1[p].id@
                        != s1[q].id@ by {
                        let p0 = if p < i as int { p } else { p + 1 };
                        let q0 = if q < i as int { q } else { q + 1 };
                        assert(s1[p] == s0[p0]);
                        assert(s1[q] == s0[q0]);
                    }
                }
            },
            None => {
                proof {
                    assert(false);
                }
            },
        }
    }
}

} // verus!
