//! The in-memory process registry and its transitions.
//!
//! Every control-plane operation and every supervision event is a
//! transition on a `Registry`. Each transition preserves the registry
//! invariant `wf`: at most one record per id, and per record at most one
//! live spawn (child or periodic task) with a monitor only while a child
//! of an auto-restart definition is live.

use vstd::prelude::*;

use crate::backoff::calculate_restart_delay;
use crate::backoff::delay_spec;
use crate::config::strings_equal;
use crate::config::ProcessConfig;
use crate::status::ProcessStatus;

verus! {

/// The in-memory bundle tracking one supervised process.
///
/// `child_live` and `periodic_live` model whether the surrounding binary
/// currently owns a spawned child, respectively a running periodic task,
/// for this record; `monitor_live` models a running auto-restart waiter.
pub struct SupervisionRecord {
    /// The definition this record supervises.
    pub config: ProcessConfig,
    /// A spawned child belongs to this record.
    pub child_live: bool,
    /// Lines queued for the child's stdin; absent for periodic or
    /// not-running processes.
    pub stdin_queue: Option<Vec<String>>,
    /// Number of spawn attempts for this id in this supervisor's lifetime.
    pub run_count: u64,
    /// Timestamp of the most recent spawn attempt.
    pub last_run: Option<u64>,
    /// Timestamp of the most recent observed exit.
    pub last_exit: Option<u64>,
    /// Lifecycle state.
    pub status: ProcessStatus,
    /// A periodic scheduler task belongs to this record.
    pub periodic_live: bool,
    /// An auto-restart monitor is waiting on this record's child.
    pub monitor_live: bool,
}

/// Number of live spawns (children plus periodic tasks) of one record.
pub open spec fn live_spawns(r: SupervisionRecord) -> int {
    (if r.child_live {
        1int
    } else {
        0int
    }) + (if r.periodic_live {
        1int
    } else {
        0int
    })
}

/// Well-formedness of one record: at most one live spawn, a monitor only
/// while a child of an auto-restart definition is live, and a periodic
/// task only for a periodic definition.
pub open spec fn rec_wf(r: SupervisionRecord) -> bool {
    &&& live_spawns(r) <= 1
    &&& (r.monitor_live ==> r.child_live && r.config.auto_restart)
    &&& (r.periodic_live ==> r.config.periodic)
}

/// At most one record per id.
pub open spec fn ids_unique(s: Seq<SupervisionRecord>) -> bool {
    forall|i: int, j: int|
        0 <= i < j < s.len() ==> s[i].config.id@ != s[j].config.id@
}

/// Some record carries this id.
pub open spec fn has_id(s: Seq<SupervisionRecord>, id: Seq<char>) -> bool {
    exists|i: int| 0 <= i < s.len() && s[i].config.id@ == id
}

/// The registry: one record per supervised id.
pub struct Registry {
    /// The records, in insertion order.
    pub records: Vec<SupervisionRecord>,
}

impl View for Registry {
    type V = Seq<SupervisionRecord>;

    open spec fn view(&self) -> Seq<SupervisionRecord> {
        self.records@
    }
}

proof fn lemma_remove_insert<T>(s: Seq<T>, i: int, x: T)
    requires
        0 <= i < s.len(),
    ensures
        s.remove(i).insert(i, x) =~= s.update(i, x),
{
}

impl Registry {
    /// The registry invariant: unique ids, each record well formed.
    pub open spec fn wf(&self) -> bool {
        &&& ids_unique(self@)
        &&& forall|i: int| 0 <= i < self@.len() ==> rec_wf(#[trigger] self@[i])
    }

    /// An empty registry.
    pub fn new() -> (r: Self)
        ensures
            r.wf(),
            r@.len() == 0,
    {
        Registry { records: Vec::new() }
    }

    /// Index of the record with this id, if any.
    pub fn find_index(&self, id: &String) -> (r: Option<usize>)
        ensures
            match r {
                Option::Some(i) => i < self@.len() && self@[i as int].config.id@ == id@,
                Option::None => !has_id(self@, id@),
            },
    {
        let mut i: usize = 0;
        while i < self.records.len()
            invariant
                i <= self.records.len(),
                forall|j: int| 0 <= j < i ==> self.records@[j].config.id@ != id@,
            decreases self.records.len() - i,
        {
            if strings_equal(&self.records[i].config.id, id) {
                return Option::Some(i);
            }
            i = i + 1;
        }
        Option::None
    }

    /// Whether a record with this id exists (duplicate check for add).
    pub fn contains_id(&self, id: &String) -> (r: bool)
        ensures
            r == has_id(self@, id@),
    {
        self.find_index(id).is_some()
    }

    /// The run count the next spawn of this id reports: the record's
    /// current count, or one for a first spawn.
    pub fn begin_spawn_run_count(&self, id: &String) -> (n: u64)
        requires
            self.wf(),
        ensures
            !has_id(self@, id@) ==> n == 1,
            forall|j: int|
                0 <= j < self@.len() && self@[j].config.id@ == id@ ==> n == self@[j].run_count,
    {
        match self.find_index(id) {
            Option::Some(i) => {
                proof {
                    assert forall|j: int|
                        0 <= j < self@.len() && self@[j].config.id@ == id@ implies self@[j].run_count
                        == self@[i as int].run_count by {
                        if j < i as int {
                            assert(self@[j].config.id@ != self@[i as int].config.id@);
                        } else if j > i as int {
                            assert(self@[i as int].config.id@ != self@[j].config.id@);
                        }
                    }
                }
                self.records[i].run_count
            },
            Option::None => 1,
        }
    }

    /// A copy of the definition stored under this id, for the restart
    /// dispatcher and the spawn path.
    pub fn get_config(&self, id: &String) -> (r: Option<ProcessConfig>)
        requires
            self.wf(),
        ensures
            match r {
                Option::Some(c) => has_id(self@, id@) && forall|j: int|
                    0 <= j < self@.len() && self@[j].config.id@ == id@ ==> c@ == self@[j].config@,
                Option::None => !has_id(self@, id@),
            },
    {
        match self.find_index(id) {
            Option::Some(i) => Option::Some(self.records[i].config.clone()),
            Option::None => Option::None,
        }
    }

    /// Installs the record for a successfully spawned child: running,
    /// child and stdin queue live, monitor live iff requested. An
    /// existing record under the same id is replaced, keeping only its
    /// last observed exit time (for the rapid-flap penalty).
    pub fn install_running(
        &mut self,
        config: ProcessConfig,
        run_count: u64,
        now: u64,
        with_monitor: bool,
    )
        requires
            old(self).wf(),
            with_monitor ==> config.auto_restart,
        ensures
            final(self).wf(),
            has_id(final(self)@, config@.id),
            final(self)@.len() == if has_id(old(self)@, config@.id) {
                old(self)@.len()
            } else {
                old(self)@.len() + 1
            },
            forall|j: int|
                0 <= j < old(self)@.len() && old(self)@[j].config.id@ != config@.id ==> final(self)@[j] == old(self)@[j],
            forall|j: int|
                0 <= j < final(self)@.len() && final(self)@[j].config.id@ == config@.id ==> {
                    let n = final(self)@[j];
                    &&& n.config@ == config@
                    &&& n.child_live
                    &&& n.stdin_queue matches Option::Some(q) && q@.len() == 0
                    &&& n.run_count == run_count
                    &&& n.last_run == Option::Some(now)
                    &&& n.last_exit == prev_exit_spec(old(self)@, config@.id)
                    &&& n.status == ProcessStatus::Running
                    &&& !n.periodic_live
                    &&& n.monitor_live == with_monitor
                },
    {
        let idx = self.find_index(&config.id);
        let prev_exit: Option<u64> = match idx {
            Option::Some(i) => self.records[i].last_exit,
            Option::None => Option::None,
        };
        proof {
            lemma_prev_exit(self@, config@.id);
        }
        let rec = SupervisionRecord {
            config,
            child_live: true,
            stdin_queue: Option::Some(Vec::new()),
            run_count,
            last_run: Option::Some(now),
            last_exit: prev_exit,
            status: ProcessStatus::Running,
            periodic_live: false,
            monitor_live: with_monitor,
        };
        match idx {
            Option::Some(i) => {
                self.records[i] = rec;
                proof {
                    assert(self@[i as int].config.id@ == config@.id);
                }
            },
            Option::None => {
                self.records.push(rec);
                proof {
                    assert(self@[self@.len() - 1].config.id@ == config@.id);
                }
            },
        }
    }

    /// Installs the record for a spawn that failed: no child, status
    /// `Failed`. Returns the restart request the dispatcher must receive
    /// when the definition asks for auto-restart: a five-second delay.
    pub fn install_failed(&mut self, config: ProcessConfig, run_count: u64, now: u64) -> (r:
        Option<RestartRequest>)
        requires
            old(self).wf(),
        ensures
            final(self).wf(),
            has_id(final(self)@, config@.id),
            final(self)@.len() == if has_id(old(self)@, config@.id) {
                old(self)@.len()
            } else {
                old(self)@.len() + 1
            },
            forall|j: int|
                0 <= j < old(self)@.len() && old(self)@[j].config.id@ != config@.id ==> final(self)@[j] == old(self)@[j],
            forall|j: int|
                0 <= j < final(self)@.len() && final(self)@[j].config.id@ == config@.id ==> {
                    let n = final(self)@[j];
                    &&& n.config@ == config@
                    &&& !n.child_live
                    &&& n.stdin_queue is None
                    &&& n.run_count == run_count
                    &&& n.last_run == Option::Some(now)
                    &&& n.last_exit == prev_exit_spec(old(self)@, config@.id)
                    &&& n.status == ProcessStatus::Failed
                    &&& !n.periodic_live
                    &&& !n.monitor_live
                },
            config.auto_restart ==> (r matches Option::Some(req) && req.process_id@ == config@.id
                && req.delay_seconds == 5 && req.reason == RestartReason::FailedStart),
            !config.auto_restart ==> r is None,
    {
        let idx = self.find_index(&config.id);
        let prev_exit: Option<u64> = match idx {
            Option::Some(i) => self.records[i].last_exit,
            Option::None => Option::None,
        };
        proof {
            lemma_prev_exit(self@, config@.id);
        }
        let ticket: Option<RestartRequest> = if config.auto_restart {
            Option::Some(
                RestartRequest {
                    process_id: config.id.clone(),
                    delay_seconds: 5,
                    reason: RestartReason::FailedStart,
                },
            )
        } else {
            Option::None
        };
        let rec = SupervisionRecord {
            config,
            child_live: false,
            stdin_queue: Option::None,
            run_count,
            last_run: Option::Some(now),
            last_exit: prev_exit,
            status: ProcessStatus::Failed,
            periodic_live: false,
            monitor_live: false,
        };
        match idx {
            Option::Some(i) => {
                self.records[i] = rec;
                proof {
                    assert(self@[i as int].config.id@ == config@.id);
                }
            },
            Option::None => {
                self.records.push(rec);
                proof {
                    assert(self@[self@.len() - 1].config.id@ == config@.id);
                }
            },
        }
        ticket
    }

    /// Installs the record for a periodic definition: the periodic task
    /// is live, no child, no stdin queue, waiting for its first run.
    pub fn install_periodic(&mut self, config: ProcessConfig)
        requires
            old(self).wf(),
            config.periodic,
        ensures
            final(self).wf(),
            has_id(final(self)@, config@.id),
            final(self)@.len() == if has_id(old(self)@, config@.id) {
                old(self)@.len()
            } else {
                old(self)@.len() + 1
            },
            forall|j: int|
                0 <= j < old(self)@.len() && old(self)@[j].config.id@ != config@.id ==> final(self)@[j] == old(self)@[j],
            forall|j: int|
                0 <= j < final(self)@.len() && final(self)@[j].config.id@ == config@.id ==> {
                    let n = final(self)@[j];
                    &&& n.config@ == config@
                    &&& !n.child_live
                    &&& n.stdin_queue is None
                    &&& n.run_count == 0
                    &&& n.last_run is None
                    &&& n.last_exit is None
                    &&& n.status == ProcessStatus::WaitingForPeriod
                    &&& n.periodic_live
                    &&& !n.monitor_live
                },
    {
        let idx = self.find_index(&config.id);
        let rec = SupervisionRecord {
            config,
            child_live: false,
            stdin_queue: Option::None,
            run_count: 0,
            last_run: Option::None,
            last_exit: Option::None,
            status: ProcessStatus::WaitingForPeriod,
            periodic_live: true,
            monitor_live: false,
        };
        match idx {
            Option::Some(i) => {
                self.records[i] = rec;
                proof {
                    assert(self@[i as int].config.id@ == config@.id);
                }
            },
            Option::None => {
                self.records.push(rec);
                proof {
                    assert(self@[self@.len() - 1].config.id@ == config@.id);
                }
            },
        }
    }

    /// Manual stop: cancels the monitor and the periodic task, drops the
    /// child and the stdin queue, and marks the record `ManuallyStopped`,
    /// which suppresses any later auto-restart. Returns the record's log
    /// path for the manual-stop log line.
    pub fn stop_process(&mut self, id: &String) -> (r: Option<String>)
        requires
            old(self).wf(),
        ensures
            final(self).wf(),
            final(self)@.len() == old(self)@.len(),
            r is Some <==> has_id(old(self)@, id@),
            !has_id(old(self)@, id@) ==> final(self)@ == old(self)@,
            forall|j: int|
                0 <= j < old(self)@.len() && old(self)@[j].config.id@ != id@ ==> final(self)@[j]
                    == old(self)@[j],
            forall|j: int|
                0 <= j < old(self)@.len() && old(self)@[j].config.id@ == id@ ==> {
                    let o = old(self)@[j];
                    let n = final(self)@[j];
                    &&& n.config == o.config
                    &&& !n.child_live
                    &&& !n.periodic_live
                    &&& !n.monitor_live
                    &&& n.stdin_queue is None
                    &&& n.status == ProcessStatus::ManuallyStopped
                    &&& n.run_count == o.run_count
                    &&& n.last_run == o.last_run
                    &&& n.last_exit == o.last_exit
                    &&& (r matches Option::Some(f) && f@ == o.config.log_file@)
                },
    {
        match self.find_index(id) {
            Option::Some(i) => {
                proof {
                    lemma_unique_id_index(self@, id@, i as int);
                }
                let mut rec = self.records.remove(i);
                rec.child_live = false;
                rec.periodic_live = false;
                rec.monitor_live = false;
                rec.stdin_queue = Option::None;
                rec.status = ProcessStatus::ManuallyStopped;
                let log = rec.config.log_file.clone();
                let ghost recg = rec;
                self.records.insert(i, rec);
                proof {
                    lemma_remove_insert(old(self)@, i as int, recg);
                }
                Option::Some(log)
            },
            Option::None => Option::None,
        }
    }

    /// Removes the record entirely (after a stop): no record with this
    /// id remains. Returns the removed definition, whose id must also be
    /// deleted from the configuration store.
    pub fn remove_process(&mut self, id: &String) -> (r: Option<ProcessConfig>)
        requires
            old(self).wf(),
        ensures
            final(self).wf(),
            !has_id(final(self)@, id@),
            r is Some <==> has_id(old(self)@, id@),
            !has_id(old(self)@, id@) ==> final(self)@ == old(self)@,
            r matches Option::Some(c) ==> exists|i: int|
                0 <= i < old(self)@.len() && old(self)@[i].config.id@ == id@ && c == old(
                    self,
                )@[i].config && final(self)@ == old(self)@.remove(i),
    {
        match self.find_index(id) {
            Option::Some(i) => {
                proof {
                    lemma_unique_id_index(self@, id@, i as int);
                }
                let rec = self.records.remove(i);
                proof {
                    assert forall|j: int| 0 <= j < self@.len() implies self@[j].config.id@
                        != id@ by {
                        if j < i as int {
                            assert(self@[j] == old(self)@[j]);
                        } else {
                            assert(self@[j] == old(self)@[j + 1]);
                        }
                    }
                }
                Option::Some(rec.config)
            },
            Option::None => Option::None,
        }
    }

    /// Control-plane restart, first half: cancels the monitor and the
    /// periodic task, drops child and stdin queue, marks the record
    /// `Stopped`, and counts the upcoming spawn attempt. Returns a copy
    /// of the definition for the spawn path.
    pub fn prepare_restart(&mut self, id: &String) -> (r: Option<ProcessConfig>)
        requires
            old(self).wf(),
        ensures
            final(self).wf(),
            final(self)@.len() == old(self)@.len(),
            r is Some <==> has_id(old(self)@, id@),
            !has_id(old(self)@, id@) ==> final(self)@ == old(self)@,
            forall|j: int|
                0 <= j < old(self)@.len() && old(self)@[j].config.id@ != id@ ==> final(self)@[j]
                    == old(self)@[j],
            forall|j: int|
                0 <= j < old(self)@.len() && old(self)@[j].config.id@ == id@ ==> {
                    let o = old(self)@[j];
                    let n = final(self)@[j];
                    &&& n.config == o.config
                    &&& !n.child_live
                    &&& !n.periodic_live
                    &&& !n.monitor_live
                    &&& n.stdin_queue is None
                    &&& n.status == ProcessStatus::Stopped
                    &&& n.run_count == sat_inc(o.run_count)
                    &&& n.last_run == o.last_run
                    &&& n.last_exit == o.last_exit
                    &&& (r matches Option::Some(c) && c@ == o.config@)
                },
    {
        match self.find_index(id) {
            Option::Some(i) => {
                proof {
                    lemma_unique_id_index(self@, id@, i as int);
                }
                let mut rec = self.records.remove(i);
                rec.child_live = false;
                rec.periodic_live = false;
                rec.monitor_live = false;
                rec.stdin_queue = Option::None;
                rec.status = ProcessStatus::Stopped;
                rec.run_count = inc_run_count(rec.run_count);
                let c = rec.config.clone();
                let ghost recg = rec;
                self.records.insert(i, rec);
                proof {
                    lemma_remove_insert(old(self)@, i as int, recg);
                }
                Option::Some(c)
            },
            Option::None => Option::None,
        }
    }

    /// Queues one line for the child's stdin.
    pub fn send_input(&mut self, id: &String, input: String) -> (r: InputOutcome)
        requires
            old(self).wf(),
        ensures
            final(self).wf(),
            final(self)@.len() == old(self)@.len(),
            (r == InputOutcome::NotFound) <==> !has_id(old(self)@, id@),
            !has_id(old(self)@, id@) ==> final(self)@ == old(self)@,
            forall|j: int|
                0 <= j < old(self)@.len() && old(self)@[j].config.id@ != id@ ==> final(self)@[j]
                    == old(self)@[j],
            forall|j: int|
                0 <= j < old(self)@.len() && old(self)@[j].config.id@ == id@ ==> {
                    let o = old(self)@[j];
                    let n = final(self)@[j];
                    &&& (o.stdin_queue is None ==> r == InputOutcome::NoChannel && n == o)
                    &&& (o.stdin_queue matches Option::Some(q) ==> r == InputOutcome::Queued && (
                    n.stdin_queue matches Option::Some(nq) && nq.deep_view() == q.deep_view().push(
                        input@,
                    )) && n.config == o.config && n.child_live == o.child_live && n.run_count
                        == o.run_count && n.last_run == o.last_run && n.last_exit == o.last_exit
                        && n.status == o.status && n.periodic_live == o.periodic_live
                        && n.monitor_live == o.monitor_live)
                },
    {
        match self.find_index(id) {
            Option::Some(i) => {
                proof {
                    lemma_unique_id_index(self@, id@, i as int);
                }
                let mut rec = self.records.remove(i);
                let out: InputOutcome;
                match rec.stdin_queue {
                    Option::Some(mut q) => {
                        let ghost q0 = q.deep_view();
                        q.push(input);
                        proof {
                            assert(q.deep_view() =~= q0.push(input@));
                        }
                        rec.stdin_queue = Option::Some(q);
                        out = InputOutcome::Queued;
                    },
                    Option::None => {
                        rec.stdin_queue = Option::None;
                        out = InputOutcome::NoChannel;
                    },
                }
                let ghost recg = rec;
                self.records.insert(i, rec);
                proof {
                    lemma_remove_insert(old(self)@, i as int, recg);
                    if recg == old(self)@[i as int] {
                        assert(self@ =~= old(self)@);
                    }
                }
                out
            },
            Option::None => InputOutcome::NotFound,
        }
    }

    /// Hands the stdin pump the next queued line, if any.
    pub fn take_next_input(&mut self, id: &String) -> (r: Option<String>)
        requires
            old(self).wf(),
        ensures
            final(self).wf(),
            final(self)@.len() == old(self)@.len(),
            !has_id(old(self)@, id@) ==> final(self)@ == old(self)@ && r is None,
            forall|j: int|
                0 <= j < old(self)@.len() && old(self)@[j].config.id@ != id@ ==> final(self)@[j]
                    == old(self)@[j],
            forall|j: int|
                0 <= j < old(self)@.len() && old(self)@[j].config.id@ == id@ ==> {
                    let o = old(self)@[j];
                    let n = final(self)@[j];
                    &&& (o.stdin_queue matches Option::Some(q) ==> (if q.deep_view().len() > 0 {
                        &&& r matches Option::Some(line) && line@ == q.deep_view()[0]
                        &&& n.stdin_queue matches Option::Some(nq) && nq.deep_view()
                            == q.deep_view().drop_first()
                        &&& n.config == o.config
                        &&& n.child_live == o.child_live
                        &&& n.run_count == o.run_count
                        &&& n.last_run == o.last_run
                        &&& n.last_exit == o.last_exit
                        &&& n.status == o.status
                        &&& n.periodic_live == o.periodic_live
                        &&& n.monitor_live == o.monitor_live
                    } else {
                        r is None && n == o
                    }))
                    &&& (o.stdin_queue is None ==> r is None && n == o)
                },
    {
        match self.find_index(id) {
            Option::Some(i) => {
                proof {
                    lemma_unique_id_index(self@, id@, i as int);
                }
                let mut rec = self.records.remove(i);
                let out: Option<String>;
                match rec.stdin_queue {
                    Option::Some(mut q) => {
                        if q.len() > 0 {
                            let ghost q0 = q.deep_view();
                            let line = q.remove(0);
                            proof {
                                assert(q.deep_view() =~= q0.drop_first());
                            }
                            out = Option::Some(line);
                        } else {
                            out = Option::None;
                        }
                        rec.stdin_queue = Option::Some(q);
                    },
                    Option::None => {
                        rec.stdin_queue = Option::None;
                        out = Option::None;
                    },
                }
                let ghost recg = rec;
                self.records.insert(i, rec);
                proof {
                    lemma_remove_insert(old(self)@, i as int, recg);
                    if recg == old(self)@[i as int] {
                        assert(self@ =~= old(self)@);
                    }
                }
                out
            },
            Option::None => Option::None,
        }
    }

    /// The auto-restart monitor's reaction to an observed child exit.
    ///
    /// Records the exit time and clears child, stdin queue and monitor.
    /// A record still `Running` whose definition asks for auto-restart
    /// becomes `Failed` and yields a restart request whose delay follows
    /// the backoff policy, computed against the previous observed exit;
    /// a record the operator stopped stays `ManuallyStopped` and never
    /// yields a restart; anything else becomes `Stopped`.
    pub fn on_child_exit(&mut self, id: &String, exit_code: i32, now: u64) -> (r: Option<
        RestartRequest,
    >)
        requires
            old(self).wf(),
        ensures
            final(self).wf(),
            final(self)@.len() == old(self)@.len(),
            !has_id(old(self)@, id@) ==> final(self)@ == old(self)@ && r is None,
            forall|j: int|
                0 <= j < old(self)@.len() && old(self)@[j].config.id@ != id@ ==> final(self)@[j]
                    == old(self)@[j],
            forall|j: int|
                0 <= j < old(self)@.len() && old(self)@[j].config.id@ == id@ ==> {
                    let o = old(self)@[j];
                    let n = final(self)@[j];
                    &&& n.config == o.config
                    &&& n.last_exit == Option::Some(now)
                    &&& !n.child_live
                    &&& n.stdin_queue is None
                    &&& !n.monitor_live
                    &&& n.periodic_live == o.periodic_live
                    &&& n.last_run == o.last_run
                    &&& (o.status == ProcessStatus::ManuallyStopped ==> n.status
                        == ProcessStatus::ManuallyStopped && r is None && n.run_count
                        == o.run_count)
                    &&& (o.status == ProcessStatus::Running && o.config.auto_restart ==> {
                        &&& n.status == ProcessStatus::Failed
                        &&& n.run_count == sat_inc(o.run_count)
                        &&& r matches Option::Some(req) && req.process_id@ == id@
                            && req.delay_seconds == delay_spec(o.run_count, o.last_exit, now)
                            && req.reason == classify_exit_spec(exit_code)
                    })
                    &&& (o.status != ProcessStatus::ManuallyStopped && !(o.status
                        == ProcessStatus::Running && o.config.auto_restart) ==> n.status
                        == ProcessStatus::Stopped && r is None && n.run_count == o.run_count)
                },
    {
        match self.find_index(id) {
            Option::Some(i) => {
                proof {
                    lemma_unique_id_index(self@, id@, i as int);
                }
                let mut rec = self.records.remove(i);
                let prev_exit = rec.last_exit;
                rec.last_exit = Option::Some(now);
                rec.child_live = false;
                rec.stdin_queue = Option::None;
                rec.monitor_live = false;
                let out: Option<RestartRequest>;
                if rec.status == ProcessStatus::ManuallyStopped {
                    out = Option::None;
                } else if rec.status == ProcessStatus::Running && rec.config.auto_restart {
                    let delay = calculate_restart_delay(rec.run_count, prev_exit, now);
                    rec.status = ProcessStatus::Failed;
                    out = Option::Some(
                        RestartRequest {
                            process_id: rec.config.id.clone(),
                            delay_seconds: delay,
                            reason: classify_exit(exit_code),
                        },
                    );
                    rec.run_count = inc_run_count(rec.run_count);
                } else {
                    rec.status = ProcessStatus::Stopped;
                    out = Option::None;
                }
                let ghost recg = rec;
                self.records.insert(i, rec);
                proof {
                    lemma_remove_insert(old(self)@, i as int, recg);
                }
                out
            },
            Option::None => Option::None,
        }
    }

    /// Start of one periodic run: counts the attempt, marks the record
    /// running and stamps the attempt time. Returns the new run number.
    pub fn periodic_run_started(&mut self, id: &String, now: u64) -> (r: Option<u64>)
        requires
            old(self).wf(),
        ensures
            final(self).wf(),
            final(self)@.len() == old(self)@.len(),
            !has_id(old(self)@, id@) ==> final(self)@ == old(self)@ && r is None,
            forall|j: int|
                0 <= j < old(self)@.len() && old(self)@[j].config.id@ != id@ ==> final(self)@[j]
                    == old(self)@[j],
            forall|j: int|
                0 <= j < old(self)@.len() && old(self)@[j].config.id@ == id@ ==> {
                    let o = old(self)@[j];
                    let n = final(self)@[j];
                    &&& n.config == o.config
                    &&& n.run_count == sat_inc(o.run_count)
                    &&& n.status == ProcessStatus::Running
                    &&& n.last_run == Option::Some(now)
                    &&& n.child_live == o.child_live
                    &&& n.stdin_queue == o.stdin_queue
                    &&& n.last_exit == o.last_exit
                    &&& n.periodic_live == o.periodic_live
                    &&& n.monitor_live == o.monitor_live
                    &&& r == Option::Some(sat_inc(o.run_count))
                },
    {
        match self.find_index(id) {
            Option::Some(i) => {
                proof {
                    lemma_unique_id_index(self@, id@, i as int);
                }
                let mut rec = self.records.remove(i);
                rec.run_count = inc_run_count(rec.run_count);
                rec.status = ProcessStatus::Running;
                rec.last_run = Option::Some(now);
                let n = rec.run_count;
                let ghost recg = rec;
                self.records.insert(i, rec);
                proof {
                    lemma_remove_insert(old(self)@, i as int, recg);
                }
                Option::Some(n)
            },
            Option::None => Option::None,
        }
    }

    /// End of one periodic run: the record waits for the next period.
    pub fn periodic_run_finished(&mut self, id: &String)
        requires
            old(self).wf(),
        ensures
            final(self).wf(),
            final(self)@.len() == old(self)@.len(),
            !has_id(old(self)@, id@) ==> final(self)@ == old(self)@,
            forall|j: int|
                0 <= j < old(self)@.len() && old(self)@[j].config.id@ != id@ ==> final(self)@[j]
                    == old(self)@[j],
            forall|j: int|
                0 <= j < old(self)@.len() && old(self)@[j].config.id@ == id@ ==> {
                    let o = old(self)@[j];
                    let n = final(self)@[j];
                    &&& n.config == o.config
                    &&& n.status == ProcessStatus::WaitingForPeriod
                    &&& n.run_count == o.run_count
                    &&& n.last_run == o.last_run
                    &&& n.last_exit == o.last_exit
                    &&& n.child_live == o.child_live
                    &&& n.stdin_queue == o.stdin_queue
                    &&& n.periodic_live == o.periodic_live
                    &&& n.monitor_live == o.monitor_live
                },
    {
        match self.find_index(id) {
            Option::Some(i) => {
                proof {
                    lemma_unique_id_index(self@, id@, i as int);
                }
                let mut rec = self.records.remove(i);
                rec.status = ProcessStatus::WaitingForPeriod;
                let ghost recg = rec;
                self.records.insert(i, rec);
                proof {
                    lemma_remove_insert(old(self)@, i as int, recg);
                }
            },
            Option::None => {},
        }
    }

    /// Bulk manual stop: every record is cleared and marked
    /// `ManuallyStopped`, suppressing all auto-restarts.
    pub fn stop_all(&mut self)
        requires
            old(self).wf(),
        ensures
            final(self).wf(),
            final(self)@.len() == old(self)@.len(),
            forall|j: int|
                0 <= j < old(self)@.len() ==> cleared_as(
                    #[trigger] final(self)@[j],
                    old(self)@[j],
                    ProcessStatus::ManuallyStopped,
                ),
    {
        let len = self.records.len();
        let mut i: usize = 0;
        while i < len
            invariant
                i <= len,
                len == self.records@.len(),
                forall|j: int| i <= j < len ==> self.records@[j] == old(self)@[j],
                forall|j: int|
                    0 <= j < i ==> cleared_as(
                        #[trigger] self.records@[j],
                        old(self)@[j],
                        ProcessStatus::ManuallyStopped,
                    ),
            decreases len - i,
        {
            let ghost pre = self.records@;
            let mut rec = self.records.remove(i);
            rec.child_live = false;
            rec.periodic_live = false;
            rec.monitor_live = false;
            rec.stdin_queue = Option::None;
            rec.status = ProcessStatus::ManuallyStopped;
            let ghost recg = rec;
            self.records.insert(i, rec);
            proof {
                lemma_remove_insert(pre, i as int, recg);
            }
            i = i + 1;
        }
    }

    /// Bulk restart, first half: every record is cleared, marked
    /// `Stopped`, and counts its upcoming spawn attempt; the definitions
    /// are returned in order for respawning.
    pub fn prepare_restart_all(&mut self) -> (configs: Vec<ProcessConfig>)
        requires
            old(self).wf(),
        ensures
            final(self).wf(),
            final(self)@.len() == old(self)@.len(),
            configs.deep_view().len() == old(self)@.len(),
            forall|j: int|
                0 <= j < old(self)@.len() ==> configs.deep_view()[j] == old(self)@[j].config@,
            forall|j: int|
                0 <= j < old(self)@.len() ==> {
                    let o = old(self)@[j];
                    let n = #[trigger] final(self)@[j];
                    &&& n.config == o.config
                    &&& !n.child_live
                    &&& !n.periodic_live
                    &&& !n.monitor_live
                    &&& n.stdin_queue is None
                    &&& n.status == ProcessStatus::Stopped
                    &&& n.run_count == sat_inc(o.run_count)
                    &&& n.last_run == o.last_run
                    &&& n.last_exit == o.last_exit
                },
    {
        let len = self.records.len();
        let mut configs: Vec<ProcessConfig> = Vec::new();
        let mut i: usize = 0;
        while i < len
            invariant
                i <= len,
                len == self.records@.len(),
                configs.deep_view().len() == i,
                forall|j: int| 0 <= j < i ==> configs.deep_view()[j] == old(self)@[j].config@,
                forall|j: int| i <= j < len ==> self.records@[j] == old(self)@[j],
                forall|j: int|
                    0 <= j < i ==> {
                        let o = old(self)@[j];
                        let n = #[trigger] self.records@[j];
                        &&& n.config == o.config
                        &&& !n.child_live
                        &&& !n.periodic_live
                        &&& !n.monitor_live
                        &&& n.stdin_queue is None
                        &&& n.status == ProcessStatus::Stopped
                        &&& n.run_count == sat_inc(o.run_count)
                        &&& n.last_run == o.last_run
                        &&& n.last_exit == o.last_exit
                    },
            decreases len - i,
        {
            let ghost pre = self.records@;
            let ghost configs0 = configs.deep_view();
            let mut rec = self.records.remove(i);
            rec.child_live = false;
            rec.periodic_live = false;
            rec.monitor_live = false;
            rec.stdin_queue = Option::None;
            rec.status = ProcessStatus::Stopped;
            rec.run_count = inc_run_count(rec.run_count);
            let c = rec.config.clone();
            configs.push(c);
            let ghost recg = rec;
            self.records.insert(i, rec);
            proof {
                lemma_remove_insert(pre, i as int, recg);
                assert(configs.deep_view() =~= configs0.push(old(self)@[i as int].config@));
            }
            i = i + 1;
        }
        configs
    }

    /// Graceful shutdown: every record is cleared and marked `Stopped`.
    pub fn shutdown_all(&mut self)
        requires
            old(self).wf(),
        ensures
            final(self).wf(),
            final(self)@.len() == old(self)@.len(),
            forall|j: int|
                0 <= j < old(self)@.len() ==> cleared_as(
                    #[trigger] final(self)@[j],
                    old(self)@[j],
                    ProcessStatus::Stopped,
                ),
    {
        let len = self.records.len();
        let mut i: usize = 0;
        while i < len
            invariant
                i <= len,
                len == self.records@.len(),
                forall|j: int| i <= j < len ==> self.records@[j] == old(self)@[j],
                forall|j: int|
                    0 <= j < i ==> cleared_as(
                        #[trigger] self.records@[j],
                        old(self)@[j],
                        ProcessStatus::Stopped,
                    ),
            decreases len - i,
        {
            let ghost pre = self.records@;
            let mut rec = self.records.remove(i);
            rec.child_live = false;
            rec.periodic_live = false;
            rec.monitor_live = false;
            rec.stdin_queue = Option::None;
            rec.status = ProcessStatus::Stopped;
            let ghost recg = rec;
            self.records.insert(i, rec);
            proof {
                lemma_remove_insert(pre, i as int, recg);
            }
            i = i + 1;
        }
    }

    /// A snapshot of every record, in registry order, for the list
    /// endpoint.
    pub fn list_snapshot(&self) -> (v: Vec<ProcessSummary>)
        ensures
            v@.len() == self@.len(),
            forall|j: int| 0 <= j < self@.len() ==> summary_matches(v@[j], self@[j]),
    {
        let mut v: Vec<ProcessSummary> = Vec::new();
        let mut i: usize = 0;
        while i < self.records.len()
            invariant
                i <= self.records.len(),
                v@.len() == i,
                forall|j: int| 0 <= j < i ==> summary_matches(v@[j], self.records@[j]),
            decreases self.records.len() - i,
        {
            let rec = &self.records[i];
            let is_running = rec.child_live || rec.periodic_live;
            let sm = ProcessSummary {
                id: rec.config.id.clone(),
                command: rec.config.command.clone(),
                args: rec.config.args.clone(),
                status: rec.status,
                is_running,
                log_file: rec.config.log_file.clone(),
                auto_restart: rec.config.auto_restart,
                periodic: rec.config.periodic,
                period_seconds: rec.config.period_seconds,
                run_count: rec.run_count,
                last_run: rec.last_run,
            };
            proof {
                assert(sm.args.deep_view() =~= rec.config.args.deep_view());
            }
            v.push(sm);
            i = i + 1;
        }
        v
    }
}

/// The shape every record takes after a bulk stop: cleared handles, no
/// stdin queue, the given status, counters kept.
pub open spec fn cleared_as(n: SupervisionRecord, o: SupervisionRecord, st: ProcessStatus) -> bool {
    &&& n.config == o.config
    &&& !n.child_live
    &&& !n.periodic_live
    &&& !n.monitor_live
    &&& n.stdin_queue is None
    &&& n.status == st
    &&& n.run_count == o.run_count
    &&& n.last_run == o.last_run
    &&& n.last_exit == o.last_exit
}

/// One row of the list snapshot.
pub struct ProcessSummary {
    /// The process id.
    pub id: String,
    /// The executable.
    pub command: String,
    /// The arguments.
    pub args: Vec<String>,
    /// Current lifecycle state.
    pub status: ProcessStatus,
    /// A child or a periodic task is live.
    pub is_running: bool,
    /// The record's log path.
    pub log_file: String,
    /// Whether the definition asks for auto-restart.
    pub auto_restart: bool,
    /// Whether the definition is periodic.
    pub periodic: bool,
    /// The period, for periodic definitions.
    pub period_seconds: Option<u64>,
    /// Spawn attempts so far.
    pub run_count: u64,
    /// Timestamp of the most recent spawn attempt.
    pub last_run: Option<u64>,
}

/// A summary row faithfully reflects a record.
pub open spec fn summary_matches(sm: ProcessSummary, rec: SupervisionRecord) -> bool {
    &&& sm.id@ == rec.config.id@
    &&& sm.command@ == rec.config.command@
    &&& sm.args.deep_view() == rec.config.args.deep_view()
    &&& sm.status == rec.status
    &&& sm.is_running == (rec.child_live || rec.periodic_live)
    &&& sm.log_file@ == rec.config.log_file@
    &&& sm.auto_restart == rec.config.auto_restart
    &&& sm.periodic == rec.config.periodic
    &&& sm.period_seconds == rec.config.period_seconds
    &&& sm.run_count == rec.run_count
    &&& sm.last_run == rec.last_run
}

/// Registry uniqueness: in a well-formed registry two records carrying
/// the same id are the same record.
pub proof fn lemma_single_entry_per_id(r: &Registry, i: int, j: int)
    requires
        r.wf(),
        0 <= i < r@.len(),
        0 <= j < r@.len(),
        r@[i].config.id@ == r@[j].config.id@,
    ensures
        i == j,
{
    if i < j {
        assert(r@[i].config.id@ != r@[j].config.id@);
    } else if j < i {
        assert(r@[j].config.id@ != r@[i].config.id@);
    }
}

/// At most one concurrent spawn per id: in a well-formed registry the
/// live children plus live periodic tasks of any record total at most
/// one.
pub proof fn lemma_at_most_one_spawn_per_id(r: &Registry, i: int)
    requires
        r.wf(),
        0 <= i < r@.len(),
    ensures
        live_spawns(r@[i]) <= 1,
{
    assert(rec_wf(r@[i]));
}

/// The last observed exit time stored under this id, if any record
/// carries it.
pub open spec fn prev_exit_spec(s: Seq<SupervisionRecord>, id: Seq<char>) -> Option<u64> {
    if has_id(s, id) {
        s[choose|i: int| 0 <= i < s.len() && s[i].config.id@ == id].last_exit
    } else {
        Option::None
    }
}

/// With unique ids, every record carrying the id agrees with
/// `prev_exit_spec`.
proof fn lemma_prev_exit(s: Seq<SupervisionRecord>, id: Seq<char>)
    requires
        ids_unique(s),
    ensures
        forall|j: int|
            0 <= j < s.len() && s[j].config.id@ == id ==> prev_exit_spec(s, id) == s[j].last_exit,
{
    assert forall|j: int|
        0 <= j < s.len() && s[j].config.id@ == id implies prev_exit_spec(s, id)
        == s[j].last_exit by {
        assert(has_id(s, id));
        let i = choose|i: int| 0 <= i < s.len() && s[i].config.id@ == id;
        if i != j {
            assert(s[i].config.id@ != s[j].config.id@);
        }
    }
}

/// A run count one higher, stopping at the largest representable count.
pub open spec fn sat_inc(n: u64) -> u64 {
    if n == u64::MAX {
        n
    } else {
        (n + 1) as u64
    }
}

fn inc_run_count(n: u64) -> (r: u64)
    ensures
        r == sat_inc(n),
{
    if n == u64::MAX {
        n
    } else {
        n + 1
    }
}

/// With unique ids, the record carrying an id sits at exactly one index.
proof fn lemma_unique_id_index(s: Seq<SupervisionRecord>, id: Seq<char>, i: int)
    requires
        ids_unique(s),
        0 <= i < s.len(),
        s[i].config.id@ == id,
    ensures
        forall|j: int| 0 <= j < s.len() && s[j].config.id@ == id ==> j == i,
{
    assert forall|j: int| 0 <= j < s.len() && s[j].config.id@ == id implies j == i by {
        if j < i {
            assert(s[j].config.id@ != s[i].config.id@);
        } else if j > i {
            assert(s[i].config.id@ != s[j].config.id@);
        }
    }
}

/// What became of one stdin line handed to the control plane.
#[derive(Clone, Copy, PartialEq, Eq, Structural, Debug)]
pub enum InputOutcome {
    /// The line was queued for the child's stdin.
    Queued,
    /// The record has no stdin queue (periodic or not running).
    NoChannel,
    /// No record carries this id.
    NotFound,
}

/// A deferred-respawn request handed to the restart dispatcher.
pub struct RestartRequest {
    /// The id to respawn.
    pub process_id: String,
    /// Seconds the dispatcher sleeps before respawning.
    pub delay_seconds: u64,
    /// Why the respawn was requested.
    pub reason: RestartReason,
}

/// Why a restart was requested, distinguishing a normal exit, an
/// external kill signal, any other non-zero exit, and a failed spawn.
#[derive(Clone, Copy, PartialEq, Eq, Structural, Debug)]
pub enum RestartReason {
    /// The child exited with code zero.
    NormalExit,
    /// The child exited with code nine or fifteen (kill signal).
    KilledBySignal(i32),
    /// The child exited with any other non-zero code.
    Crashed(i32),
    /// The spawn itself failed.
    FailedStart,
}

/// Classification of an exit code for the restart reason.
pub open spec fn classify_exit_spec(code: i32) -> RestartReason {
    if code == 0 {
        RestartReason::NormalExit
    } else if code == 9 || code == 15 {
        RestartReason::KilledBySignal(code)
    } else {
        RestartReason::Crashed(code)
    }
}

/// Classifies an exit code as a normal exit, a kill signal, or a crash.
pub fn classify_exit(code: i32) -> (r: RestartReason)
    ensures
        r == classify_exit_spec(code),
{
    if code == 0 {
        RestartReason::NormalExit
    } else if code == 9 || code == 15 {
        RestartReason::KilledBySignal(code)
    } else {
        RestartReason::Crashed(code)
    }
}

} // verus!
