//! Desktop notifications for pastes from the client that take a while. The
//! remote side has no window of its own, so a notification is where progress
//! and cancel live.

use crate::clipboard::progress::{describe, figure, human_bytes, line, percent_of, Progress, State};
use std::collections::HashMap;
use vstd::prelude::*;
use vstd::string::StringExecFns;

verus! {

broadcast use vstd::std_specs::hash::group_hash_axioms;

/// The key of the action that cancels a paste.
pub const CANCEL: &'static str = "cancel";

/// Which notification shows which job. A notification the user closed stays
/// closed: its job is not shown again unless it fails.
#[derive(Debug)]
pub struct Notes {
    by_job: HashMap<u32, u32>,
    by_note: HashMap<u32, u32>,
    silenced: Vec<u32>,
}

/// The state of [`Notes`].
#[verifier::ext_equal]
pub struct NotesView {
    pub by_job: Map<u32, u32>,
    pub by_note: Map<u32, u32>,
    pub silenced: Seq<u32>,
}

impl View for Notes {
    type V = NotesView;

    closed spec fn view(&self) -> NotesView {
        NotesView { by_job: self.by_job@, by_note: self.by_note@, silenced: self.silenced@ }
    }
}

/// These without every `job`.
pub open spec fn without(list: Seq<u32>, job: u32) -> Seq<u32>
    decreases list.len(),
{
    if list.len() == 0 {
        list
    } else if list.last() == job {
        without(list.drop_last(), job)
    } else {
        without(list.drop_last(), job).push(list.last())
    }
}

proof fn lemma_without(list: Seq<u32>, job: u32, x: u32)
    ensures
        without(list, job).contains(x) <==> list.contains(x) && x != job,
    decreases list.len(),
{
    if list.len() > 0 {
        let init = list.drop_last();
        lemma_without(init, job, x);
        assert(list =~= init.push(list.last()));
        assert(list.contains(x) <==> init.contains(x) || list.last() == x) by {
            if init.contains(x) {
                let i = choose|i: int| 0 <= i < init.len() && init[i] == x;
                assert(list[i] == x);
            }
            if list.contains(x) {
                let i = choose|i: int| 0 <= i < list.len() && list[i] == x;
                if i < init.len() {
                    assert(init[i] == x);
                }
            }
            assert(list[list.len() - 1] == list.last());
        }
        let w = without(init, job);
        if list.last() != job {
            let v = w.push(list.last());
            assert(v.contains(x) <==> w.contains(x) || list.last() == x) by {
                if w.contains(x) {
                    let i = choose|i: int| 0 <= i < w.len() && w[i] == x;
                    assert(v[i] == x);
                }
                assert(v[v.len() - 1] == list.last());
            }
        }
    }
}

impl NotesView {
    /// The notification to replace for a report, or none to skip it.
    pub open spec fn slot(self, job: u32, failed: bool) -> Option<u32> {
        if self.silenced.contains(job) {
            if failed {
                Some(0u32)
            } else {
                None
            }
        } else if self.by_job.dom().contains(job) {
            Some(self.by_job[job])
        } else {
            Some(0u32)
        }
    }

    /// After a report of a job: a failure is heard even of a silenced one.
    pub open spec fn reported(self, job: u32, failed: bool) -> NotesView {
        if failed && self.silenced.contains(job) {
            NotesView { silenced: without(self.silenced, job), ..self }
        } else {
            self
        }
    }

    /// After a notification was shown.
    pub open spec fn after_shown(self, job: u32, note: u32, done: bool) -> NotesView {
        if !done {
            NotesView {
                by_job: self.by_job.insert(job, note),
                by_note: self.by_note.insert(note, job),
                ..self
            }
        } else if self.by_job.dom().contains(job) {
            NotesView {
                by_job: self.by_job.remove(job),
                by_note: self.by_note.remove(self.by_job[job]),
                ..self
            }
        } else {
            self
        }
    }

    /// After the user closed a notification.
    pub open spec fn after_dismissed(self, note: u32) -> NotesView {
        if self.by_note.dom().contains(note) {
            NotesView {
                by_job: self.by_job.remove(self.by_note[note]),
                by_note: self.by_note.remove(note),
                silenced: self.silenced.push(self.by_note[note]),
            }
        } else {
            self
        }
    }
}

fn is_listed(list: &Vec<u32>, job: u32) -> (yes: bool)
    ensures
        yes == list@.contains(job),
{
    for i in 0..list.len()
        invariant
            forall|k: int| 0 <= k < i ==> list@[k] != job,
    {
        if list[i] == job {
            return true;
        }
    }
    false
}

fn removed(list: &Vec<u32>, job: u32) -> (rest: Vec<u32>)
    ensures
        rest@ == without(list@, job),
{
    let mut rest: Vec<u32> = Vec::new();
    let n: usize = list.len();
    for i in 0..n
        invariant
            n == list@.len(),
            rest@ == without(list@.take(i as int), job),
    {
        proof {
            assert(list@.take(i + 1).drop_last() =~= list@.take(i as int));
        }
        if list[i] != job {
            rest.push(list[i]);
        }
    }
    proof {
        assert(list@.take(n as int) =~= list@);
    }
    rest
}

impl Default for Notes {
    fn default() -> (n: Notes)
        ensures
            n@ == (NotesView { by_job: Map::empty(), by_note: Map::empty(), silenced: Seq::empty() }),
    {
        let n: Notes = Notes { by_job: HashMap::new(), by_note: HashMap::new(), silenced: Vec::new() };
        assert(n@.by_job =~= Map::empty());
        assert(n@.by_note =~= Map::empty());
        n
    }
}

impl Notes {
    /// The notification id to replace for this report, or `None` to skip it.
    pub fn slot_for(&mut self, job: u32, p: &Progress) -> (slot: Option<u32>)
        ensures
            slot == old(self)@.slot(job, p.state is Failed),
            final(self)@ == old(self)@.reported(job, p.state is Failed),
    {
        let failed: bool = match p.state {
            State::Failed(_) => true,
            _ => false,
        };
        if is_listed(&self.silenced, job) {
            if failed {
                self.silenced = removed(&self.silenced, job);
                return Some(0);
            }
            return None;
        }
        match self.by_job.get(&job) {
            Some(note) => Some(*note),
            None => Some(0),
        }
    }

    /// A report became the notification `note`.
    pub fn shown(&mut self, job: u32, note: u32, done: bool)
        ensures
            final(self)@ == old(self)@.after_shown(job, note, done),
    {
        if done {
            let ghost before = self.by_job@;
            match self.by_job.remove(&job) {
                Some(shown) => {
                    self.by_note.remove(&shown);
                },
                None => {
                    proof {
                        assert(self.by_job@ =~= before);
                    }
                },
            }
        } else {
            self.by_job.insert(job, note);
            self.by_note.insert(note, job);
        }
    }

    /// The job that a notification shows.
    pub fn job_of(&self, note: u32) -> (job: Option<u32>)
        ensures
            job == if self@.by_note.dom().contains(note) {
                Some(self@.by_note[note])
            } else {
                None
            },
    {
        match self.by_note.get(&note) {
            Some(job) => Some(*job),
            None => None,
        }
    }

    /// The user closed a notification.
    pub fn dismissed(&mut self, note: u32)
        ensures
            final(self)@ == old(self)@.after_dismissed(note),
    {
        let ghost before = self.by_note@;
        match self.by_note.remove(&note) {
            Some(job) => {
                self.by_job.remove(&job);
                self.silenced.push(job);
            },
            None => {
                proof {
                    assert(self.by_note@ =~= before);
                }
            },
        }
    }
}

/// A job whose notification the user closed is not shown again until it
/// fails, and then as a new notification.
pub proof fn law_dismissed_jobs_stay_silent(n: NotesView, note: u32, job: u32)
    requires
        n.by_note.dom().contains(note),
        n.by_note[note] == job,
    ensures
        ({
            let d = n.after_dismissed(note);
            &&& d.slot(job, false) is None
            &&& d.reported(job, false) == d
            &&& d.slot(job, true) == Some(0u32)
            &&& !d.reported(job, true).silenced.contains(job)
        }),
{
    let d = n.after_dismissed(note);
    assert(d.silenced[d.silenced.len() - 1] == job);
    assert(d.silenced.contains(job));
    lemma_without(d.silenced, job, job);
}

/// A notification.
#[derive(Debug, Clone, PartialEq, Eq)]
pub struct Note {
    pub summary: String,
    pub body: String,
    /// Keys and labels, in turn.
    pub actions: Vec<&'static str>,
    /// Completion in percent, drawn as a bar.
    pub value: Option<i32>,
    /// Shown until the user has seen it.
    pub critical: bool,
    /// Milliseconds; 0 never expires, -1 is the daemon's default.
    pub timeout: i32,
}

/// What a report looks like.
pub open spec fn rendered(p: Progress, n: Note) -> bool {
    match p.state {
        State::Running => {
            &&& n.summary@ == "Pasting "@ + p.label@
            &&& n.body@ == line(p)
            &&& n.actions@ == seq![CANCEL, "Cancel"]
            &&& n.value == match p.total {
                Some(t) => if t > 0 {
                    Some(percent_of(p.done as int, t as int) as i32)
                } else {
                    None
                },
                None => None,
            }
            &&& !n.critical
            &&& n.timeout == 0
        },
        State::Done => {
            &&& n.summary@ == "Pasted "@ + p.label@
            &&& n.body@ == figure(p.done as nat)
            &&& n.actions@.len() == 0
            &&& n.value is None
            &&& !n.critical
            &&& n.timeout == -1
        },
        State::Cancelled => {
            &&& n.summary@ == "Paste of "@ + p.label@ + " cancelled"@
            &&& n.body@.len() == 0
            &&& n.actions@.len() == 0
            &&& n.value is None
            &&& !n.critical
            &&& n.timeout == -1
        },
        State::Failed(e) => {
            &&& n.summary@ == "Paste of "@ + p.label@ + " failed"@
            &&& n.body@ == e@
            &&& n.actions@.len() == 0
            &&& n.value is None
            &&& n.critical
            &&& n.timeout == -1
        },
    }
}

pub fn render(p: &Progress) -> (n: Note)
    ensures
        rendered(*p, n),
{
    match &p.state {
        State::Running => {
            let mut summary: String = "Pasting ".to_string();
            summary.append(p.label.as_str());
            let value: Option<i32> = match p.percent() {
                Some(x) => Some(x as i32),
                None => None,
            };
            Note {
                summary,
                body: describe(p),
                actions: vec![CANCEL, "Cancel"],
                value,
                critical: false,
                timeout: 0,
            }
        },
        State::Done => {
            let mut summary: String = "Pasted ".to_string();
            summary.append(p.label.as_str());
            Note {
                summary,
                body: human_bytes(p.done),
                actions: Vec::new(),
                value: None,
                critical: false,
                timeout: -1,
            }
        },
        State::Cancelled => {
            let mut summary: String = "Paste of ".to_string();
            summary.append(p.label.as_str());
            summary.append(" cancelled");
            Note {
                summary,
                body: String::new(),
                actions: Vec::new(),
                value: None,
                critical: false,
                timeout: -1,
            }
        },
        State::Failed(e) => {
            let mut summary: String = "Paste of ".to_string();
            summary.append(p.label.as_str());
            summary.append(" failed");
            Note {
                summary,
                body: e.clone(),
                actions: Vec::new(),
                value: None,
                critical: true,
                timeout: -1,
            }
        },
    }
}

proof fn lemma_without_filters(list: Seq<u32>, job: u32)
    ensures
        without(list, job) == list.filter(|j: u32| j != job),
    decreases list.len(),
{
    reveal(Seq::filter);
    if list.len() > 0 {
        lemma_without_filters(list.drop_last(), job);
    } else {
        assert(list.filter(|j: u32| j != job) =~= list);
    }
}

/// A job's report replaces the note it has, or makes one; a job whose note was
/// dismissed makes none but to say that it failed, and is heard again then.
pub proof fn law_reports_go_to_their_note(n: NotesView, job: u32, failed: bool)
    ensures
        !n.silenced.contains(job) && n.by_job.dom().contains(job) ==> n.slot(job, failed) == Some(n.by_job[job]),
        !n.silenced.contains(job) && !n.by_job.dom().contains(job) ==> n.slot(job, failed) == Some(0u32),
        n.silenced.contains(job) ==> n.slot(job, failed) == (if failed {
            Some(0u32)
        } else {
            None
        }),
        n.reported(job, failed).by_job == n.by_job && n.reported(job, failed).by_note == n.by_note,
        failed ==> n.reported(job, failed).silenced == n.silenced.filter(|j: u32| j != job),
        !failed ==> n.reported(job, failed) == n,
{
    lemma_without_filters(n.silenced, job);
    if failed && !n.silenced.contains(job) {
        lemma_nothing_filtered(n.silenced, job);
    }
}

proof fn lemma_nothing_filtered(list: Seq<u32>, job: u32)
    requires
        !list.contains(job),
    ensures
        list.filter(|j: u32| j != job) == list,
    decreases list.len(),
{
    reveal(Seq::filter);
    if list.len() > 0 {
        assert(list[list.len() - 1] != job);
        assert forall|i: int| 0 <= i < list.drop_last().len() implies list.drop_last()[i] != job by {
            assert(list[i] != job);
        }
        lemma_nothing_filtered(list.drop_last(), job);
        assert(list.filter(|j: u32| j != job) =~= list);
    } else {
        assert(list.filter(|j: u32| j != job) =~= list);
    }
}

/// A note that is shown belongs to its job until the job is over; dismissing
/// it parts the two and silences the job. Other jobs are not touched.
pub proof fn law_notes_belong_to_their_job(n: NotesView, job: u32, note: u32, other: u32)
    requires
        other != job,
    ensures
        ({
            let a = n.after_shown(job, note, false);
            &&& a.by_job.dom().contains(job) && a.by_job[job] == note
            &&& a.by_note.dom().contains(note) && a.by_note[note] == job
            &&& a.silenced == n.silenced
            &&& n.by_job.dom().contains(other) ==> a.by_job.dom().contains(other) && a.by_job[other] == n.by_job[other]
            &&& a.by_job.dom().contains(other) ==> n.by_job.dom().contains(other)
        }),
        ({
            let d = n.after_shown(job, note, true);
            &&& !d.by_job.dom().contains(job)
            &&& n.by_job.dom().contains(job) ==> !d.by_note.dom().contains(n.by_job[job])
            &&& n.by_job.dom().contains(other) ==> d.by_job.dom().contains(other) && d.by_job[other] == n.by_job[other]
            &&& d.silenced == n.silenced
        }),
        n.by_note.dom().contains(note) && n.by_note[note] == job ==> ({
            let d = n.after_dismissed(note);
            &&& d.silenced == n.silenced.push(job)
            &&& !d.by_job.dom().contains(job) && !d.by_note.dom().contains(note)
            &&& n.by_job.dom().contains(other) ==> d.by_job.dom().contains(other) && d.by_job[other] == n.by_job[other]
        }),
        !n.by_note.dom().contains(note) ==> n.after_dismissed(note) == n,
{
}

/// A note says what its job is doing: it can be cancelled while it runs, and
/// stays until it is over; only a failure is critical, and says why.
pub proof fn law_notes_say_what_the_job_does(p: Progress, n: Note)
    requires
        rendered(p, n),
    ensures
        p.state is Running ==> n.summary@ == "Pasting "@ + p.label@ && n.actions@ == seq!["cancel", "Cancel"] && n.timeout
            == 0,
        !(p.state is Running) ==> n.actions@.len() == 0 && n.timeout == -1 && n.value is None,
        p.state is Done ==> n.summary@ == "Pasted "@ + p.label@,
        p.state is Cancelled ==> n.summary@ == "Paste of "@ + p.label@ + " cancelled"@,
        p.state matches State::Failed(e) ==> n.summary@ == "Paste of "@ + p.label@ + " failed"@ && n.body@ == e@,
        n.critical <==> p.state is Failed,
        p.state is Running ==> n.body@ == line(p),
        p.state is Running && p.total is Some && p.total->0 > 0 ==> n.value is Some && n.value->0 == percent_of(
            p.done as int,
            p.total->0 as int,
        ) as i32,
        p.state is Running && !(p.total is Some && p.total->0 > 0) ==> n.value is None,
        p.state is Done ==> n.body@ == figure(p.done as nat),
        p.state is Cancelled ==> n.body@ == Seq::<char>::empty(),
{
    if p.state is Cancelled {
        assert(n.body@ =~= Seq::<char>::empty());
    }
}

} // verus!
