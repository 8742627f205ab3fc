//! The pastes that are running, and when the user hears of them.

use super::progress::{Meter, Progress, State, CADENCE, QUIET};
use super::transfer::id_after;
use std::collections::HashMap;
use vstd::prelude::*;

verus! {

broadcast use vstd::std_specs::hash::group_hash_axioms;

/// A paste under way.
#[derive(Debug, Clone)]
pub struct Running {
    pub label: String,
    pub total: Option<u64>,
    pub meter: Meter,
    /// Whether a report went out, so a final state is only sent for a job
    /// the user has seen (a failure is always sent).
    pub shown: bool,
    /// When the next report is due.
    pub next: u64,
}

/// The state of a [`Running`].
#[verifier::ext_equal]
pub struct RunningView {
    pub label: Seq<char>,
    pub total: Option<u64>,
    pub done: u64,
    pub shown: bool,
    pub next: u64,
}

impl View for Running {
    type V = RunningView;

    open spec fn view(&self) -> RunningView {
        RunningView {
            label: self.label@,
            total: self.total,
            done: self.meter.done,
            shown: self.shown,
            next: self.next,
        }
    }
}

impl RunningView {
    /// Whether a report tells this of the job.
    pub open spec fn told(self, p: Progress, state: State, rate: Option<u64>) -> bool {
        &&& p.label@ == self.label
        &&& p.done == self.done
        &&& p.total == self.total
        &&& p.rate == rate
        &&& p.state == state
    }
}

impl Running {
    fn progress(&self, state: State, rate: Option<u64>) -> (p: Progress)
        ensures
            self@.told(p, state, rate),
    {
        Progress { label: self.label.clone(), done: self.meter.get(), total: self.total, rate, state }
    }
}

/// The state of [`Jobs`].
#[verifier::ext_equal]
pub struct JobsView {
    pub next_id: u32,
    pub running: Map<u32, RunningView>,
}

/// The jobs of one bridge.
#[derive(Debug)]
pub struct Jobs {
    next_id: u32,
    running: HashMap<u32, Running>,
}

impl View for Jobs {
    type V = JobsView;

    closed spec fn view(&self) -> JobsView {
        JobsView { next_id: self.next_id, running: self.running@.map_values(|r: Running| r@) }
    }
}

proof fn lemma_maps(m: Map<u32, Running>, id: u32, r: Running)
    ensures
        m.insert(id, r).map_values(|r: Running| r@) == m.map_values(|r: Running| r@).insert(id, r@),
        m.remove(id).map_values(|r: Running| r@) == m.map_values(|r: Running| r@).remove(id),
        m.remove(id).insert(id, r).map_values(|r: Running| r@) == m.map_values(|r: Running| r@).insert(id, r@),
{
    let f = |r: Running| r@;
    assert(m.insert(id, r).map_values(f) =~= m.map_values(f).insert(id, r@));
    assert(m.remove(id).map_values(f) =~= m.map_values(f).remove(id));
    assert(m.remove(id).insert(id, r).map_values(f) =~= m.map_values(f).insert(id, r@));
}

impl Jobs {
    pub fn new() -> (j: Jobs)
        ensures
            j@ == (JobsView { next_id: 1, running: Map::empty() }),
    {
        let j: Jobs = Jobs { next_id: 1, running: HashMap::new() };
        assert(j@.running =~= Map::empty());
        j
    }

    /// Begin a job. Its first report is due after [`QUIET`].
    pub fn run(&mut self, now: u64, label: String, total: Option<u64>) -> (id: u32)
        requires
            now + QUIET <= u64::MAX,
        ensures
            id == old(self)@.next_id,
            final(self)@ == (JobsView {
                next_id: id_after(id),
                running: old(self)@.running.insert(
                    id,
                    RunningView { label: label@, total, done: 0, shown: false, next: (now + QUIET) as u64 },
                ),
            }),
    {
        let id: u32 = self.next_id;
        self.next_id = if id == u32::MAX {
            1
        } else {
            id + 1
        };
        let ghost before = self.running@;
        let r: Running = Running { label, total, meter: Meter::default(), shown: false, next: now + QUIET };
        self.running.insert(id, r);
        proof {
            lemma_maps(before, id, r);
        }
        id
    }

    /// Bytes of a job are done.
    pub fn add(&mut self, id: u32, n: u64)
        requires
            old(self)@.running.dom().contains(id) ==> old(self)@.running[id].done + n <= u64::MAX,
        ensures
            final(self)@ == if old(self)@.running.dom().contains(id) {
                JobsView {
                    running: old(self)@.running.insert(
                        id,
                        RunningView {
                            done: (old(self)@.running[id].done + n) as u64,
                            ..old(self)@.running[id]
                        },
                    ),
                    ..old(self)@
                }
            } else {
                old(self)@
            },
    {
        let ghost before = self.running@;
        match self.running.remove(&id) {
            Some(mut r) => {
                let ghost was = r;
                proof {
                    assert(old(self)@.running.dom().contains(id));
                }
                r.meter.add(n);
                self.running.insert(id, r);
                proof {
                    lemma_maps(before, id, r);
                    assert(r@ =~= (RunningView { done: (was@.done + n) as u64, ..was@ }));
                }
            },
            None => {
                proof {
                    assert(self.running@ =~= before);
                }
            },
        }
    }

    /// When the next report of a job is due.
    pub fn due(&self, id: u32) -> (at: Option<u64>)
        ensures
            at == if self@.running.dom().contains(id) {
                Some(self@.running[id].next)
            } else {
                None
            },
    {
        match self.running.get(&id) {
            Some(r) => Some(r.next),
            None => None,
        }
    }

    /// The report of a job that is due; from now on the user knows of it.
    pub fn report(&mut self, id: u32, rate: Option<u64>) -> (p: Option<Progress>)
        requires
            old(self)@.running.dom().contains(id) ==> old(self)@.running[id].next + CADENCE <= u64::MAX,
        ensures
            if old(self)@.running.dom().contains(id) {
                let job = old(self)@.running[id];
                &&& p matches Some(x) && job.told(x, State::Running, rate)
                &&& final(self)@ == (JobsView {
                    running: old(self)@.running.insert(
                        id,
                        RunningView { shown: true, next: (job.next + CADENCE) as u64, ..job },
                    ),
                    ..old(self)@
                })
            } else {
                p is None && final(self)@ == old(self)@
            },
    {
        let ghost before = self.running@;
        match self.running.remove(&id) {
            Some(mut r) => {
                let ghost was = r;
                proof {
                    assert(old(self)@.running.dom().contains(id));
                }
                r.shown = true;
                r.next = r.next + CADENCE;
                let p: Progress = r.progress(State::Running, rate);
                self.running.insert(id, r);
                proof {
                    lemma_maps(before, id, r);
                    assert(r@ =~= (RunningView { shown: true, next: (was@.next + CADENCE) as u64, ..was@ }));
                }
                Some(p)
            },
            None => {
                proof {
                    assert(self.running@ =~= before);
                }
                None
            },
        }
    }

    /// Stop a job. The user hears of it if they know of the job.
    pub fn cancel(&mut self, id: u32) -> (p: Option<Progress>)
        ensures
            final(self)@ == (JobsView { running: old(self)@.running.remove(id), ..old(self)@ }),
            old(self)@.running.dom().contains(id) && old(self)@.running[id].shown ==> (p matches Some(x)
                && old(self)@.running[id].told(x, State::Cancelled, None)),
            !(old(self)@.running.dom().contains(id) && old(self)@.running[id].shown) ==> p is None,
    {
        let ghost before = self.running@;
        match self.running.remove(&id) {
            Some(r) => {
                proof {
                    lemma_maps(before, id, r);
                    assert(old(self)@.running.dom().contains(id));
                }
                if r.shown {
                    Some(r.progress(State::Cancelled, None))
                } else {
                    None
                }
            },
            None => {
                proof {
                    assert(self@.running =~= old(self)@.running.remove(id));
                }
                None
            },
        }
    }

    /// A job is over. A failure is always told; an end only to a user who
    /// knows of the job.
    pub fn finish(&mut self, id: u32, failure: Option<String>) -> (p: Option<Progress>)
        ensures
            final(self)@ == (JobsView { running: old(self)@.running.remove(id), ..old(self)@ }),
            !old(self)@.running.dom().contains(id) ==> p is None,
            old(self)@.running.dom().contains(id) ==> match failure {
                Some(e) => p matches Some(x) && old(self)@.running[id].told(x, State::Failed(e), None),
                None => if old(self)@.running[id].shown {
                    p matches Some(x) && old(self)@.running[id].told(x, State::Done, None)
                } else {
                    p is None
                },
            },
    {
        let ghost before = self.running@;
        match self.running.remove(&id) {
            Some(r) => {
                proof {
                    lemma_maps(before, id, r);
                    assert(old(self)@.running.dom().contains(id));
                }
                match failure {
                    Some(e) => Some(r.progress(State::Failed(e), None)),
                    None => if r.shown {
                        Some(r.progress(State::Done, None))
                    } else {
                        None
                    },
                }
            },
            None => {
                proof {
                    assert(self@.running =~= old(self)@.running.remove(id));
                    assert(!old(self)@.running.dom().contains(id));
                }
                None
            },
        }
    }
}

} // verus!
