//! Which batch cycle tasks run, and what a running task does next.
use vstd::prelude::*;
use crate::text::text_eq;

verus! {

/// A task that processes the payments of one owner on one platform.
#[derive(Debug)]
pub struct TaskKey {
    pub owner_id: String,
    pub platform: String,
}

/// The owners and platforms the payment service works for, and the tasks started for them.
#[derive(Debug)]
pub struct BatchCycleTaskManager {
    pub platforms: Vec<String>,
    pub owners: Vec<String>,
    pub tasks: Vec<TaskKey>,
}

pub open spec fn task_is(t: TaskKey, owner: Seq<char>, platform: Seq<char>) -> bool {
    t.owner_id@ == owner && t.platform@ == platform
}

pub open spec fn has_task(tasks: Seq<TaskKey>, owner: Seq<char>, platform: Seq<char>) -> bool {
    exists|i: int| 0 <= i < tasks.len() && #[trigger] task_is(tasks[i], owner, platform)
}

/// `s` is one of `v`.
pub open spec fn known(v: Seq<String>, s: Seq<char>) -> bool {
    exists|x: int| 0 <= x < v.len() && v[x]@ == s
}

proof fn lemma_known_push(v: Seq<String>, a: String, s: Seq<char>)
    requires
        known(v, s),
    ensures
        known(v.push(a), s),
{
    let x = choose|x: int| 0 <= x < v.len() && v[x]@ == s;
    assert(v.push(a)[x] == v[x]);
}

impl BatchCycleTaskManager {
    /// Every owner has a task on every platform, no task is started twice, and each task
    /// is for a known owner and platform.
    pub open spec fn wf(&self) -> bool {
        &&& forall|o: int, p: int|
            0 <= o < self.owners@.len() && 0 <= p < self.platforms@.len() ==> has_task(
                self.tasks@,
                #[trigger] self.owners@[o]@,
                #[trigger] self.platforms@[p]@,
            )
        &&& forall|a: int, b: int|
            0 <= a < b < self.tasks@.len() ==> !task_is(
                #[trigger] self.tasks@[a],
                (#[trigger] self.tasks@[b]).owner_id@,
                self.tasks@[b].platform@,
            )
        &&& forall|t: int|
            0 <= t < self.tasks@.len() ==> known(self.owners@, (#[trigger] self.tasks@[t]).owner_id@)
                && known(self.platforms@, self.tasks@[t].platform@)
    }

    pub fn new() -> (r: Self)
        ensures
            r.wf(),
            r.platforms@.len() == 0,
            r.owners@.len() == 0,
            r.tasks@.len() == 0,
    {
        BatchCycleTaskManager { platforms: Vec::new(), owners: Vec::new(), tasks: Vec::new() }
    }

    fn task_exists(&self, owner: &str, platform: &str) -> (r: bool)
        ensures
            r == has_task(self.tasks@, owner@, platform@),
    {
        let mut i: usize = 0;
        while i < self.tasks.len()
            invariant
                0 <= i <= self.tasks@.len(),
                forall|k: int| 0 <= k < i ==> !#[trigger] task_is(self.tasks@[k], owner@, platform@),
            decreases self.tasks@.len() - i,
        {
            if text_eq(self.tasks[i].owner_id.as_str(), owner) && text_eq(
                self.tasks[i].platform.as_str(),
                platform,
            ) {
                proof {
                    assert(task_is(self.tasks@[i as int], owner@, platform@));
                }
                return true;
            }
            i = i + 1;
        }
        false
    }

    /// Starts a task for every owner and platform that has none; gives back the tasks
    /// started, in the order they were added.
    fn start_tasks_if_not_started(&mut self) -> (started: Vec<TaskKey>)
        requires
            forall|a: int, b: int|
                0 <= a < b < old(self).tasks@.len() ==> !task_is(
                    #[trigger] old(self).tasks@[a],
                    (#[trigger] old(self).tasks@[b]).owner_id@,
                    old(self).tasks@[b].platform@,
                ),
            forall|t: int|
                0 <= t < old(self).tasks@.len() ==> known(old(self).owners@, (#[trigger] old(self).tasks@[t]).owner_id@)
                    && known(old(self).platforms@, old(self).tasks@[t].platform@),
        ensures
            final(self).wf(),
            final(self).owners == old(self).owners,
            final(self).platforms == old(self).platforms,
            final(self).tasks@ == old(self).tasks@ + started@,
    {
        let mut started: Vec<TaskKey> = Vec::new();
        let ghost tasks0 = self.tasks@;
        let mut o: usize = 0;
        while o < self.owners.len()
            invariant
                0 <= o <= self.owners@.len(),
                self.owners == old(self).owners,
                self.platforms == old(self).platforms,
                tasks0 == old(self).tasks@,
                self.tasks@ == tasks0 + started@,
                forall|a: int, b: int|
                    0 <= a < b < self.tasks@.len() ==> !task_is(
                        #[trigger] self.tasks@[a],
                        (#[trigger] self.tasks@[b]).owner_id@,
                        self.tasks@[b].platform@,
                    ),
                forall|t: int|
                    0 <= t < self.tasks@.len() ==> known(self.owners@, (#[trigger] self.tasks@[t]).owner_id@)
                        && known(self.platforms@, self.tasks@[t].platform@),
                forall|x: int, p: int|
                    0 <= x < o && 0 <= p < self.platforms@.len() ==> has_task(
                        self.tasks@,
                        #[trigger] self.owners@[x]@,
                        #[trigger] self.platforms@[p]@,
                    ),
            decreases self.owners@.len() - o,
        {
            let mut p: usize = 0;
            while p < self.platforms.len()
                invariant
                    0 <= o < self.owners@.len(),
                    0 <= p <= self.platforms@.len(),
                    self.owners == old(self).owners,
                    self.platforms == old(self).platforms,
                    tasks0 == old(self).tasks@,
                    self.tasks@ == tasks0 + started@,
                    forall|a: int, b: int|
                        0 <= a < b < self.tasks@.len() ==> !task_is(
                            #[trigger] self.tasks@[a],
                            (#[trigger] self.tasks@[b]).owner_id@,
                            self.tasks@[b].platform@,
                        ),
                    forall|t: int|
                        0 <= t < self.tasks@.len() ==> known(self.owners@, (#[trigger] self.tasks@[t]).owner_id@)
                            && known(self.platforms@, self.tasks@[t].platform@),
                    forall|x: int, q: int|
                        0 <= x < o && 0 <= q < self.platforms@.len() ==> has_task(
                            self.tasks@,
                            #[trigger] self.owners@[x]@,
                            #[trigger] self.platforms@[q]@,
                        ),
                    forall|q: int|
                        0 <= q < p ==> has_task(self.tasks@, self.owners@[o as int]@, #[trigger] self.platforms@[q]@),
                decreases self.platforms@.len() - p,
            {
                let exists = self.task_exists(self.owners[o].as_str(), self.platforms[p].as_str());
                if !exists {
                    let t = TaskKey { owner_id: self.owners[o].clone(), platform: self.platforms[p].clone() };
                    let t2 = TaskKey { owner_id: self.owners[o].clone(), platform: self.platforms[p].clone() };
                    let ghost before = self.tasks@;
                    self.tasks.push(t);
                    started.push(t2);
                    proof {
                        assert(self.tasks@ =~= tasks0 + started@);
                        let n = self.tasks@;
                        assert(task_is(n[before.len() as int], self.owners@[o as int]@, self.platforms@[p as int]@));
                        assert forall|a: int, b: int| 0 <= a < b < n.len() implies !task_is(
                            #[trigger] n[a],
                            (#[trigger] n[b]).owner_id@,
                            n[b].platform@,
                        ) by {
                            if b == before.len() as int {
                                if task_is(n[a], n[b].owner_id@, n[b].platform@) {
                                    assert(task_is(before[a], self.owners@[o as int]@, self.platforms@[p as int]@));
                                }
                            } else {
                                assert(n[a] == before[a] && n[b] == before[b]);
                            }
                        }
                        assert forall|t: int| 0 <= t < n.len() implies known(self.owners@, (#[trigger] n[t]).owner_id@)
                            && known(self.platforms@, n[t].platform@) by {
                            if t == before.len() as int {
                                assert(self.owners@[o as int]@ == n[t].owner_id@);
                                assert(self.platforms@[p as int]@ == n[t].platform@);
                            } else {
                                assert(n[t] == before[t]);
                            }
                        }
                        assert forall|x: int, q: int| 0 <= x < o && 0 <= q < self.platforms@.len() implies has_task(
                            n,
                            #[trigger] self.owners@[x]@,
                            #[trigger] self.platforms@[q]@,
                        ) by {
                            assert(has_task(before, self.owners@[x]@, self.platforms@[q]@));
                            let i = choose|i: int| 0 <= i < before.len() && #[trigger] task_is(before[i], self.owners@[x]@, self.platforms@[q]@);
                            assert(n[i] == before[i]);
                        }
                        assert forall|q: int| 0 <= q < p + 1 implies has_task(n, self.owners@[o as int]@, #[trigger] self.platforms@[q]@) by {
                            if q < p {
                                assert(has_task(before, self.owners@[o as int]@, self.platforms@[q]@));
                                let i = choose|i: int| 0 <= i < before.len() && #[trigger] task_is(before[i], self.owners@[o as int]@, self.platforms@[q]@);
                                assert(n[i] == before[i]);
                            } else {
                                assert(task_is(n[before.len() as int], self.owners@[o as int]@, self.platforms@[q]@));
                            }
                        }
                    }
                }
                p = p + 1;
            }
            o = o + 1;
        }
        started
    }

    /// Adds an owner and starts its tasks; gives back the tasks started.
    pub fn add_owner(&mut self, owner_id: String) -> (started: Vec<TaskKey>)
        requires
            old(self).wf(),
        ensures
            final(self).wf(),
            final(self).owners@ == old(self).owners@.push(owner_id),
            final(self).platforms == old(self).platforms,
            final(self).tasks@ == old(self).tasks@ + started@,
    {
        let ghost new_owner = owner_id;
        self.owners.push(owner_id);
        proof {
            assert forall|t: int| 0 <= t < self.tasks@.len() implies known(self.owners@, (#[trigger] self.tasks@[t]).owner_id@) by {
                lemma_known_push(old(self).owners@, new_owner, self.tasks@[t].owner_id@);
            }
        }
        self.start_tasks_if_not_started()
    }

    /// Adds a platform and starts its tasks; gives back the tasks started.
    pub fn add_platform(&mut self, platform: String) -> (started: Vec<TaskKey>)
        requires
            old(self).wf(),
        ensures
            final(self).wf(),
            final(self).platforms@ == old(self).platforms@.push(platform),
            final(self).owners == old(self).owners,
            final(self).tasks@ == old(self).tasks@ + started@,
    {
        let ghost new_platform = platform;
        self.platforms.push(platform);
        proof {
            assert forall|t: int| 0 <= t < self.tasks@.len() implies known(self.platforms@, (#[trigger] self.tasks@[t]).platform@) by {
                lemma_known_push(old(self).platforms@, new_platform, self.tasks@[t].platform@);
            }
        }
        self.start_tasks_if_not_started()
    }

    /// The positions of the tasks to wake for `owner_id` on `platform`.
    pub fn wake_owner_platform(&self, owner_id: &str, platform: &str) -> (r: Vec<usize>)
        ensures
            forall|i: int| 0 <= i < r@.len() ==> #[trigger] r@[i] < self.tasks@.len() && task_is(self.tasks@[r@[i] as int], owner_id@, platform@),
            forall|t: int| 0 <= t < self.tasks@.len() && task_is(#[trigger] self.tasks@[t], owner_id@, platform@) ==> r@.contains(t as usize),
    {
        let mut r: Vec<usize> = Vec::new();
        let mut i: usize = 0;
        while i < self.tasks.len()
            invariant
                0 <= i <= self.tasks@.len(),
                forall|k: int| 0 <= k < r@.len() ==> #[trigger] r@[k] < i && task_is(self.tasks@[r@[k] as int], owner_id@, platform@),
                forall|t: int| 0 <= t < i && task_is(#[trigger] self.tasks@[t], owner_id@, platform@) ==> r@.contains(t as usize),
            decreases self.tasks@.len() - i,
        {
            if text_eq(self.tasks[i].owner_id.as_str(), owner_id) && text_eq(self.tasks[i].platform.as_str(), platform) {
                let ghost before = r@;
                r.push(i);
                proof {
                    assert(r@[r@.len() - 1] == i);
                    assert forall|t: int| 0 <= t < i + 1 && task_is(#[trigger] self.tasks@[t], owner_id@, platform@) implies r@.contains(t as usize) by {
                        if t < i {
                            let k = choose|k: int| 0 <= k < before.len() && before[k] == t as usize;
                            assert(r@[k] == before[k]);
                        } else {
                            assert(r@[before.len() as int] == t as usize);
                        }
                    }
                }
            }
            i = i + 1;
        }
        r
    }
}

/// What a batch cycle task does next.
#[derive(Debug)]
pub enum CycleAction {
    /// Wait this many milliseconds, or until woken.
    Sleep(i64),
    /// Process the payments now.
    ProcessNow,
    /// Nothing is scheduled yet: ask when the next processing is due.
    AskNextProcess,
}

/// The task's next step at time `now` (milliseconds), given when processing is next due.
pub fn next_cycle_action(next_process: Option<i64>, now: i64) -> (r: CycleAction)
    requires
        next_process matches Some(n) ==> n - now <= i64::MAX,
    ensures
        match next_process {
            None => r is AskNextProcess,
            Some(n) => if n > now {
                r matches CycleAction::Sleep(d) && d == n - now
            } else {
                r is ProcessNow
            },
        },
{
    match next_process {
        None => CycleAction::AskNextProcess,
        Some(n) => if n > now {
            CycleAction::Sleep(n - now)
        } else {
            CycleAction::ProcessNow
        },
    }
}

/// Milliseconds a task waits after a failed call before trying again.
pub const SLEEP_AFTER_ERROR_MS: u64 = 5000;

/// Where a batch cycle task stands in its loop.
#[derive(Clone, Copy, Debug, PartialEq, Eq, Structural)]
pub enum CyclePhase {
    /// At the top of the loop.
    Top,
    /// Waiting until processing is due, or after a failed processing.
    Waiting,
    /// Processing the payments.
    Processing,
    /// Asking when processing is next due.
    Asking,
    /// Waiting after that question failed.
    Retrying,
}

/// A batch cycle task: when processing is next due, where it is known, and where it stands.
#[derive(Clone, Copy, Debug)]
pub struct CycleTask {
    pub next_process: Option<i64>,
    pub phase: CyclePhase,
}

/// What a batch cycle task learns from the world.
#[derive(Debug)]
pub enum CycleEvent {
    /// The task is at the top of its loop at time `now` (milliseconds); `finish` tells
    /// whether it was told to stop.
    Tick { now: i64, finish: bool },
    /// A wait ended, by its time or by a wake-up; `finish` tells whether the task was told
    /// to stop.
    Woken { finish: bool },
    /// Processing the payments ended, well or not; `finish` as above.
    Processed { ok: bool, finish: bool },
    /// When processing is next due, or none where the question failed.
    NextProcess(Option<i64>),
}

/// What a batch cycle task does next.
#[derive(Debug)]
pub enum CycleStep {
    /// Wait this many milliseconds, or until woken.
    Sleep(i64),
    /// Process the payments now.
    ProcessNow,
    /// Wait this many milliseconds after a failure.
    SleepAfterError(u64),
    /// Ask when processing is next due.
    AskNextProcess,
    /// Go back to the top of the loop.
    Continue,
    /// End the task.
    Stop,
}

/// Whether `event` is one that the task can meet in its phase.
pub open spec fn event_fits(phase: CyclePhase, event: CycleEvent) -> bool {
    match phase {
        CyclePhase::Top => event is Tick,
        CyclePhase::Waiting | CyclePhase::Retrying => event is Woken,
        CyclePhase::Processing => event is Processed,
        CyclePhase::Asking => event is NextProcess,
    }
}

/// The end of a loop round: stop where the task was told to, else ask when processing is
/// next due.
pub open spec fn round_end(next: Option<i64>, finish: bool) -> (CycleTask, CycleStep) {
    if finish {
        (CycleTask { next_process: next, phase: CyclePhase::Top }, CycleStep::Stop)
    } else {
        (CycleTask { next_process: next, phase: CyclePhase::Asking }, CycleStep::AskNextProcess)
    }
}

/// One step of a batch cycle task: at the top of the loop it waits until processing is due,
/// processes the payments once it is, or goes straight on where no time is known yet; after
/// the wait or the processing it stops where told to, else asks when processing is next
/// due and goes round again. A failed processing or question is followed by a wait of
/// `SLEEP_AFTER_ERROR_MS`.
pub open spec fn cycle_step_spec(task: CycleTask, event: CycleEvent) -> (CycleTask, CycleStep) {
    let next = task.next_process;
    match event {
        CycleEvent::Tick { now, finish } => match next {
            None => round_end(next, finish),
            Some(n) => if n > now {
                (CycleTask { next_process: next, phase: CyclePhase::Waiting }, CycleStep::Sleep((n - now) as i64))
            } else {
                (CycleTask { next_process: next, phase: CyclePhase::Processing }, CycleStep::ProcessNow)
            },
        },
        CycleEvent::Woken { finish } => if task.phase == CyclePhase::Retrying {
            (CycleTask { next_process: next, phase: CyclePhase::Top }, CycleStep::Continue)
        } else {
            round_end(next, finish)
        },
        CycleEvent::Processed { ok, finish } => if ok {
            round_end(next, finish)
        } else {
            (
                CycleTask { next_process: next, phase: CyclePhase::Waiting },
                CycleStep::SleepAfterError(SLEEP_AFTER_ERROR_MS),
            )
        },
        CycleEvent::NextProcess(answer) => match answer {
            Some(t) => (CycleTask { next_process: Some(t), phase: CyclePhase::Top }, CycleStep::Continue),
            None => (
                CycleTask { next_process: next, phase: CyclePhase::Retrying },
                CycleStep::SleepAfterError(SLEEP_AFTER_ERROR_MS),
            ),
        },
    }
}

/// A new task: no time known, at the top of its loop.
pub fn new_cycle_task() -> (r: CycleTask)
    ensures
        r.next_process is None,
        r.phase == CyclePhase::Top,
{
    CycleTask { next_process: None, phase: CyclePhase::Top }
}

fn round_end_exec(next: Option<i64>, finish: bool) -> (r: (CycleTask, CycleStep))
    ensures
        r == round_end(next, finish),
{
    if finish {
        (CycleTask { next_process: next, phase: CyclePhase::Top }, CycleStep::Stop)
    } else {
        (CycleTask { next_process: next, phase: CyclePhase::Asking }, CycleStep::AskNextProcess)
    }
}

/// The task's next state and what it does next, after `event` (`cycle_step_spec`).
pub fn cycle_task_step(task: CycleTask, event: CycleEvent) -> (r: (CycleTask, CycleStep))
    requires
        event_fits(task.phase, event),
        event matches CycleEvent::Tick { now, .. } ==> (task.next_process matches Some(n) ==> n - now
            <= i64::MAX),
    ensures
        r == cycle_step_spec(task, event),
{
    let next = task.next_process;
    match event {
        CycleEvent::Tick { now, finish } => match next_cycle_action(next, now) {
            CycleAction::AskNextProcess => round_end_exec(next, finish),
            CycleAction::Sleep(d) => (CycleTask { next_process: next, phase: CyclePhase::Waiting }, CycleStep::Sleep(d)),
            CycleAction::ProcessNow => (
                CycleTask { next_process: next, phase: CyclePhase::Processing },
                CycleStep::ProcessNow,
            ),
        },
        CycleEvent::Woken { finish } => if task.phase == CyclePhase::Retrying {
            (CycleTask { next_process: next, phase: CyclePhase::Top }, CycleStep::Continue)
        } else {
            round_end_exec(next, finish)
        },
        CycleEvent::Processed { ok, finish } => if ok {
            round_end_exec(next, finish)
        } else {
            (
                CycleTask { next_process: next, phase: CyclePhase::Waiting },
                CycleStep::SleepAfterError(SLEEP_AFTER_ERROR_MS),
            )
        },
        CycleEvent::NextProcess(answer) => match answer {
            Some(t) => (CycleTask { next_process: Some(t), phase: CyclePhase::Top }, CycleStep::Continue),
            None => (
                CycleTask { next_process: next, phase: CyclePhase::Retrying },
                CycleStep::SleepAfterError(SLEEP_AFTER_ERROR_MS),
            ),
        },
    }
}

} // verus!
