//! Worker pool model: tasks, round-robin dispatch over a fixed number of
//! worker queues, the shutdown protocol, and the per-worker state machine.
//!
//! The pool manager is the verified model of the fan-out: it owns the
//! round-robin cursor and records, per worker, the queue of tasks handed to
//! that worker, in order. The surrounding program mirrors each queue with a
//! real channel: whenever `dispatch` returns index `i`, the task is sent on
//! channel `i`, and `shutdown` is mirrored by sending one terminate task per
//! channel and joining every worker.

use crate::search::{
    display_file_name, log_line, report_matches, room_of, BattleSearcher, MatchReport,
};
use vstd::arithmetic::div_mod::{
    lemma_add_mod_noop, lemma_mod_multiples_vanish, lemma_mod_self_0, lemma_small_mod,
};
use vstd::prelude::*;

verus! {

/// A task handed to a worker: a file to examine (path and context label),
/// or the signal to terminate.
pub enum ToSend {
    File(String, String),
    Done,
}

/// The mathematical image of a task: the path and label as character
/// sequences.
pub enum TaskView {
    File(Seq<char>, Seq<char>),
    Done,
}

impl View for ToSend {
    type V = TaskView;

    open spec fn view(&self) -> TaskView {
        match self {
            ToSend::File(p, d) => TaskView::File(p@, d@),
            ToSend::Done => TaskView::Done,
        }
    }
}

/// The worker index that round-robin dispatch assigns to the t-th task
/// (0-indexed) among w workers.
pub open spec fn round_robin_worker(t: nat, w: nat) -> nat
    recommends
        w >= 1,
{
    t % w
}

/// The subsequence of `ts` that round robin hands to worker `i` among `w`
/// workers: the tasks at indices congruent to `i` modulo `w`, in order.
pub open spec fn tasks_for_worker(ts: Seq<TaskView>, i: nat, w: nat) -> Seq<TaskView>
    recommends
        w >= 1,
        i < w,
    decreases ts.len(),
{
    if ts.len() == 0 {
        Seq::empty()
    } else if round_robin_worker((ts.len() - 1) as nat, w) == i {
        tasks_for_worker(ts.drop_last(), i, w).push(ts.last())
    } else {
        tasks_for_worker(ts.drop_last(), i, w)
    }
}

/// Worker `i` receives exactly the tasks at indices `i`, `i + w`, `i + 2w`,
/// and so on: every such index is assigned to worker `i` by round robin.
pub proof fn lemma_round_robin_strides(i: nat, k: nat, w: nat)
    requires
        w >= 1,
        i < w,
    ensures
        round_robin_worker((i + k * w) as nat, w) == i,
{
    let ii = i as int;
    let kk = k as int;
    let ww = w as int;
    lemma_mod_multiples_vanish(kk, ii, ww);
    lemma_small_mod(i, w);
    assert(ww * kk + ii == ii + kk * ww);
    assert((ii + kk * ww) % ww == ii);
    assert((i + k * w) as int == ii + kk * ww);
}

/// Only indices of the form `i + k * w` are assigned to worker `i`: an index
/// assigned to worker `i` is `i` plus a multiple of `w`.
pub proof fn lemma_round_robin_strides_only(t: nat, i: nat, w: nat)
    requires
        w >= 1,
        i < w,
        round_robin_worker(t, w) == i,
    ensures
        t == i + (t / w) * w,
{
    vstd::arithmetic::div_mod::lemma_fundamental_div_mod(t as int, w as int);
}

/// How many of the first `n` task indices round robin assigns to worker `i`.
pub open spec fn count_assigned(n: nat, i: nat, w: nat) -> nat
    recommends
        w >= 1,
        i < w,
    decreases n,
{
    if n == 0 {
        0
    } else if round_robin_worker((n - 1) as nat, w) == i {
        count_assigned((n - 1) as nat, i, w) + 1
    } else {
        count_assigned((n - 1) as nat, i, w)
    }
}

proof fn lemma_count_below(m: nat, i: nat, w: nat)
    requires
        w >= 1,
        i < w,
        m <= i,
    ensures
        count_assigned(m, i, w) == 0,
    decreases m,
{
    if m > 0 {
        lemma_small_mod((m - 1) as nat, w);
        lemma_count_below((m - 1) as nat, i, w);
    }
}

proof fn lemma_mod_in_stride(i: nat, k: nat, w: nat, r: nat)
    requires
        w >= 1,
        i < w,
        1 <= r < w,
    ensures
        ((i + k * w + r) as nat) % w != i,
{
    let ww = w as int;
    lemma_mod_multiples_vanish(k as int, (i + r) as int, ww);
    assert(ww * (k as int) + ((i + r) as int) == (i + k * w + r) as int);
    if i + r < w {
        lemma_small_mod((i + r) as nat, w);
    } else {
        lemma_mod_multiples_vanish(-1, (i + r) as int, ww);
        assert(ww * (-1) + ((i + r) as int) == (i + r - w) as int);
        lemma_small_mod((i + r - w) as nat, w);
    }
}

proof fn lemma_count_stretch(i: nat, k: nat, w: nat, r: nat)
    requires
        w >= 1,
        i < w,
        1 <= r <= w,
    ensures
        count_assigned((i + k * w + r) as nat, i, w) == count_assigned((i + k * w) as nat, i, w)
            + 1,
    decreases r,
{
    if r == 1 {
        lemma_round_robin_strides(i, k, w);
    } else {
        lemma_mod_in_stride(i, k, w, (r - 1) as nat);
        lemma_count_stretch(i, k, w, (r - 1) as nat);
    }
}

proof fn lemma_count_at_stride(i: nat, k: nat, w: nat)
    requires
        w >= 1,
        i < w,
    ensures
        count_assigned((i + k * w) as nat, i, w) == k,
    decreases k,
{
    if k == 0 {
        lemma_count_below(i, i, w);
    } else {
        lemma_count_at_stride(i, (k - 1) as nat, w);
        lemma_count_stretch(i, (k - 1) as nat, w, w);
        assert((k - 1) as nat * w + w == k * w) by (nonlinear_arith)
            requires
                k >= 1,
        ;
    }
}

/// Round robin hands worker `i` as many of the first `n` tasks as there are
/// assigned indices below `n`.
pub proof fn lemma_tasks_for_worker_len(ts: Seq<TaskView>, i: nat, w: nat)
    requires
        w >= 1,
        i < w,
    ensures
        tasks_for_worker(ts, i, w).len() == count_assigned(ts.len(), i, w),
    decreases ts.len(),
{
    if ts.len() != 0 {
        lemma_tasks_for_worker_len(ts.drop_last(), i, w);
    }
}

/// The full round-robin distribution law: among `w` workers, worker `i`
/// receives exactly the tasks at indices `i`, `i + w`, `i + 2w`, ... of the
/// dispatch order, in that order — the k-th task handed to worker `i` is the
/// task dispatched `i + k * w`-th overall.
pub proof fn lemma_round_robin_distribution(ts: Seq<TaskView>, i: nat, w: nat, k: nat)
    requires
        w >= 1,
        i < w,
        i + k * w < ts.len(),
    ensures
        k < tasks_for_worker(ts, i, w).len(),
        tasks_for_worker(ts, i, w)[k as int] == ts[(i + k * w) as int],
    decreases ts.len(),
{
    let n = ts.len();
    let prefix = tasks_for_worker(ts.drop_last(), i, w);
    assert(ts.drop_last() =~= ts.subrange(0, n - 1));
    if i + k * w == n - 1 {
        lemma_round_robin_strides(i, k, w);
        lemma_tasks_for_worker_len(ts.drop_last(), i, w);
        lemma_count_at_stride(i, k, w);
        assert(prefix.len() == k);
        assert(tasks_for_worker(ts, i, w) == prefix.push(ts.last()));
    } else {
        lemma_round_robin_distribution(ts.drop_last(), i, w, k);
        assert(ts.drop_last()[(i + k * w) as int] == ts[(i + k * w) as int]);
    }
}

/// If every task in `ts` is a `File` task, so is every task that round robin
/// hands to any single worker.
pub proof fn lemma_tasks_for_worker_all_files(ts: Seq<TaskView>, i: nat, w: nat)
    requires
        w >= 1,
        forall|j: int| 0 <= j < ts.len() ==> (#[trigger] ts[j]) is File,
    ensures
        forall|j: int|
            0 <= j < tasks_for_worker(ts, i, w).len() ==> (#[trigger] tasks_for_worker(ts, i, w)[j]) is File,
    decreases ts.len(),
{
    if ts.len() != 0 {
        assert(forall|j: int| 0 <= j < ts.drop_last().len() ==> (#[trigger] ts.drop_last()[j]) is File);
        lemma_tasks_for_worker_all_files(ts.drop_last(), i, w);
        assert(ts.last() == ts[ts.len() - 1]);
    }
}

/// What a worker processes when it consumes a queue in order: every task up
/// to, and not including, the first task that is not a `File` task. The
/// worker stops consuming there.
pub open spec fn processed_before_termination(q: Seq<TaskView>) -> Seq<TaskView>
    decreases q.len(),
{
    if q.len() == 0 {
        Seq::empty()
    } else if !(q[0] is File) {
        Seq::empty()
    } else {
        seq![q[0]] + processed_before_termination(q.drop_first())
    }
}

/// Whether a worker consuming the queue in order reaches a terminate signal,
/// and so stops running, rather than running out of queue.
pub open spec fn terminates_on(q: Seq<TaskView>) -> bool
    decreases q.len(),
{
    if q.len() == 0 {
        false
    } else if !(q[0] is File) {
        true
    } else {
        terminates_on(q.drop_first())
    }
}

/// A worker whose queue holds only `File` tasks followed by one terminate
/// signal processes every one of those tasks and then terminates: the
/// terminate signal, queued behind the tasks, drops none of them.
pub proof fn lemma_terminate_drains(q: Seq<TaskView>)
    requires
        forall|j: int| 0 <= j < q.len() ==> (#[trigger] q[j]) is File,
    ensures
        processed_before_termination(q.push(TaskView::Done)) == q,
        terminates_on(q.push(TaskView::Done)),
    decreases q.len(),
{
    let qd = q.push(TaskView::Done);
    if q.len() == 0 {
        assert(qd[0] == TaskView::Done);
        assert(processed_before_termination(qd) =~= q);
    } else {
        assert(forall|j: int| 0 <= j < q.drop_first().len() ==> (#[trigger] q.drop_first()[j]) is File);
        lemma_terminate_drains(q.drop_first());
        assert(qd[0] == q[0]);
        assert(q[0] is File);
        assert(qd.drop_first() =~= q.drop_first().push(TaskView::Done));
        assert(processed_before_termination(qd) =~= q);
    }
}

/// The worker pool manager: a fixed number of workers, a single shared
/// round-robin cursor, and (as the model of the real channels) the queue of
/// tasks handed to each worker.
pub struct WorkerPoolManager {
    /// How many workers the pool was built with; at least one.
    pub num_workers: usize,
    /// The shared round-robin cursor: the index the next task goes to.
    pub cursor: usize,
    /// Whether `shutdown` has run; dispatch is over by then.
    pub shut_down: bool,
    /// Every `File` task dispatched so far, in dispatch order.
    pub log: Ghost<Seq<TaskView>>,
    /// Per worker, the tasks handed to it, in order.
    pub queues: Ghost<Seq<Seq<TaskView>>>,
}

impl WorkerPoolManager {
    /// The pool's invariant: the cursor tracks the dispatch count modulo the
    /// worker count, only `File` tasks are ever dispatched, and each queue
    /// holds exactly the dispatched tasks round robin assigns to that worker
    /// (with one terminate signal behind them once `shutdown` has run).
    pub open spec fn wf(&self) -> bool {
        &&& self.num_workers >= 1
        &&& self.queues@.len() == self.num_workers as nat
        &&& self.cursor < self.num_workers
        &&& (!self.shut_down ==> self.cursor as nat == self.log@.len() % (self.num_workers as nat))
        &&& (forall|j: int| 0 <= j < self.log@.len() ==> (#[trigger] self.log@[j]) is File)
        &&& (forall|i: int|
            0 <= i < self.num_workers ==> #[trigger] self.queues@[i] == if self.shut_down {
                tasks_for_worker(self.log@, i as nat, self.num_workers as nat).push(TaskView::Done)
            } else {
                tasks_for_worker(self.log@, i as nat, self.num_workers as nat)
            })
    }

    /// Builds a pool of `num_workers` workers with empty queues and the
    /// cursor at worker 0.
    pub fn new(num_workers: usize) -> (r: Self)
        requires
            num_workers >= 1,
        ensures
            r.wf(),
            !r.shut_down,
            r.num_workers == num_workers,
            r.log@ == Seq::<TaskView>::empty(),
            forall|i: int| 0 <= i < num_workers ==> #[trigger] r.queues@[i] == Seq::<TaskView>::empty(),
    {
        let ghost queues = Seq::new(num_workers as nat, |i: int| Seq::<TaskView>::empty());
        let r = WorkerPoolManager {
            num_workers,
            cursor: 0,
            shut_down: false,
            log: Ghost(Seq::empty()),
            queues: Ghost(queues),
        };
        proof {
            lemma_small_mod(0, num_workers as nat);
            assert(forall|i: int|
                0 <= i < num_workers ==> #[trigger] r.queues@[i] == tasks_for_worker(
                    r.log@,
                    i as nat,
                    num_workers as nat,
                ));
        }
        r
    }

    /// Selects the queue for one `File` task by round robin, advancing the
    /// shared cursor: the t-th dispatched task (0-indexed) goes to worker
    /// `t % num_workers`. Returns that worker's index; the caller sends the
    /// task on that worker's channel.
    pub fn dispatch(&mut self, task: &ToSend) -> (i: usize)
        requires
            old(self).wf(),
            !old(self).shut_down,
            task@ is File,
        ensures
            final(self).wf(),
            !final(self).shut_down,
            final(self).num_workers == old(self).num_workers,
            i < old(self).num_workers,
            i as nat == round_robin_worker(old(self).log@.len(), old(self).num_workers as nat),
            final(self).log@ == old(self).log@.push(task@),
            final(self).queues@ == old(self).queues@.update(
                i as int,
                old(self).queues@[i as int].push(task@),
            ),
    {
        let i = self.cursor;
        self.cursor = if self.cursor + 1 == self.num_workers {
            0
        } else {
            self.cursor + 1
        };
        let ghost new_log = self.log@.push(task@);
        let ghost new_queues = self.queues@.update(i as int, self.queues@[i as int].push(task@));
        proof {
            let w = self.num_workers as int;
            let l = old(self).log@.len() as int;
            lemma_add_mod_noop(l, 1, w);
            if w == 1 {
                lemma_small_mod(0, 1);
                lemma_mod_self_0(1);
            } else {
                lemma_small_mod(1, w as nat);
            }
            if i + 1 == self.num_workers {
                lemma_mod_self_0(w);
            } else {
                lemma_small_mod((i + 1) as nat, w as nat);
            }
            assert(new_log.drop_last() =~= old(self).log@);
            assert(new_log.last() == task@);
            assert forall|j: int| 0 <= j < self.num_workers implies #[trigger] new_queues[j]
                == tasks_for_worker(new_log, j as nat, self.num_workers as nat) by {
                if j == i {
                    assert(round_robin_worker((new_log.len() - 1) as nat, self.num_workers as nat)
                        == i as nat);
                } else {
                    assert(round_robin_worker((new_log.len() - 1) as nat, self.num_workers as nat)
                        != j as nat);
                }
            }
        }
        self.log = Ghost(new_log);
        self.queues = Ghost(new_queues);
        i
    }

    /// Ends dispatch: queues exactly one terminate signal behind the tasks
    /// already handed to each worker. Called exactly once, after all
    /// dispatch calls have completed; the caller then sends one terminate
    /// task per channel and waits for every worker to exit.
    pub fn shutdown(&mut self)
        requires
            old(self).wf(),
            !old(self).shut_down,
        ensures
            final(self).wf(),
            final(self).shut_down,
            final(self).num_workers == old(self).num_workers,
            final(self).log@ == old(self).log@,
            forall|i: int|
                0 <= i < old(self).num_workers ==> #[trigger] final(self).queues@[i] == old(
                    self,
                ).queues@[i].push(TaskView::Done),
    {
        self.shut_down = true;
        let ghost new_queues = Seq::new(
            self.queues@.len(),
            |i: int| self.queues@[i].push(TaskView::Done),
        );
        self.queues = Ghost(new_queues);
    }
}

/// A worker's two states: it consumes tasks while `Running`, and `Terminated`
/// is its one final state.
pub enum WorkerState {
    Running,
    Terminated,
}

/// One worker: its own searcher (with this worker's exclusively-owned
/// extraction engine) and its state. While running, it consumes the tasks of
/// its queue in order; the terminate signal, or a broken queue, moves it to
/// `Terminated`, the only exits.
pub struct Worker {
    /// This worker's own searcher.
    pub searcher: BattleSearcher,
    /// The worker's current state.
    pub state: WorkerState,
}

impl Worker {
    /// The worker's invariant: its searcher's searched id stays normalized.
    pub open spec fn wf(&self) -> bool {
        self.searcher.wf()
    }

    /// The searched player's normalized id, as this worker compares it.
    pub open spec fn spec_user_id(&self) -> Seq<char> {
        self.searcher.spec_user_id()
    }

    /// Builds one worker in the `Running` state, with its own searcher.
    pub fn new(
        username: &str,
        pikkr_training_rounds: usize,
        wins_only: bool,
        forfeits_only: bool,
    ) -> (r: Self)
        ensures
            r.wf(),
            r.state is Running,
            r.spec_user_id() == crate::ids::normalized_of(username@),
            r.searcher.spec_wins_only() == wins_only,
            r.searcher.spec_forfeits_only() == forfeits_only,
    {
        Worker {
            searcher: BattleSearcher::new(username, pikkr_training_rounds, wins_only, forfeits_only),
            state: WorkerState::Running,
        }
    }

    /// Processes one `File` task whose bytes were already read: examines the
    /// record and prints the report line if one is produced; a per-file
    /// error is logged to diagnostics. Either way the worker stays
    /// `Running`: one bad file never stops it.
    pub fn process_file(&mut self, data: &[u8], path: &str, date: &str) -> (r: Option<MatchReport>)
        requires
            old(self).wf(),
            old(self).state is Running,
        ensures
            final(self).wf(),
            final(self).state is Running,
            final(self).spec_user_id() == old(self).spec_user_id(),
            final(self).searcher.spec_wins_only() == old(self).searcher.spec_wins_only(),
            final(self).searcher.spec_forfeits_only() == old(self).searcher.spec_forfeits_only(),
            final(self).searcher.spec_options() == old(self).searcher.spec_options(),
            r matches Some(rep) ==> rep.context_label@ == date@ && rep.room_name@ == room_of(
                display_file_name(path@),
            ),
            r matches Some(rep) ==> (exists|p1: Seq<u8>, p2: Seq<u8>, w: Option<Seq<u8>>, et: Option<Seq<u8>>|
                {
                    &&& #[trigger] crate::search::spec_should_report(
                        p1,
                        p2,
                        w,
                        et,
                        old(self).searcher.spec_options(),
                    )
                    &&& report_matches(rep, p1, p2, w, et, display_file_name(path@), date@)
                }),
    {
        match self.searcher.check_log(data, path, date) {
            Result::Ok(rep) => rep,
            Result::Err(e) => {
                let mut msg = "error processing ".to_owned();
                msg.append(path);
                msg.append(": ");
                let d = e.describe();
                msg.append(d.as_str());
                log_line(msg.as_str());
                Option::None
            },
        }
    }

    /// A `File` task whose bytes could not be read: logs the failure; the
    /// worker remains `Running`.
    pub fn file_read_failed(&self, path: &str, reason: &str) {
        let mut msg = "error reading ".to_owned();
        msg.append(path);
        msg.append(": ");
        msg.append(reason);
        log_line(msg.as_str());
    }

    /// Receives the terminate signal, or finds its queue closed without one:
    /// moves to `Terminated` and stops consuming.
    pub fn on_terminate(&mut self)
        requires
            old(self).wf(),
        ensures
            final(self).wf(),
            final(self).state is Terminated,
            final(self).searcher == old(self).searcher,
    {
        self.state = WorkerState::Terminated;
    }
}

/// After `shutdown`, every worker that consumes its queue in order processes
/// every `File` task dispatched to it before the terminate signal, and then
/// terminates: no worker is left running and no dispatched task is dropped.
pub proof fn lemma_shutdown_drains_all(pool: WorkerPoolManager)
    requires
        pool.wf(),
        pool.shut_down,
    ensures
        forall|i: int|
            0 <= i < pool.num_workers ==> processed_before_termination(#[trigger] pool.queues@[i])
                == tasks_for_worker(pool.log@, i as nat, pool.num_workers as nat) && terminates_on(
                pool.queues@[i],
            ),
{
    assert forall|i: int| 0 <= i < pool.num_workers implies processed_before_termination(
        #[trigger] pool.queues@[i],
    ) == tasks_for_worker(pool.log@, i as nat, pool.num_workers as nat) && terminates_on(
        pool.queues@[i],
    ) by {
        let assigned = tasks_for_worker(pool.log@, i as nat, pool.num_workers as nat);
        lemma_tasks_for_worker_all_files(pool.log@, i as nat, pool.num_workers as nat);
        lemma_terminate_drains(assigned);
    }
}

} // verus!
