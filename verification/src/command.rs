//! The command server: owner of the worker fleet and of the authoritative
//! `ConfigState`. It translates client messages into per-worker orders,
//! keeps each worker's outbound queue in submission order, aggregates worker
//! replies by correlation id, and drives the per-worker run-state machine.
//!
//! The event loop, the sockets and the serialization of messages live outside
//! the library; they hand plain values in and take plain values out.

use vstd::prelude::*;
use crate::channel::Channel;
use crate::state::ConfigState;
use crate::state::ConfigStateView;
use crate::state::Order;
use crate::state::OrderView;
use crate::state::spec_apply;
use crate::state::spec_replay;
use crate::state::lemma_filter_step;
use crate::state::lemma_replay_snoc;

verus! {

/// The command server's picture of a worker's life.
#[derive(Clone, Copy, Debug, PartialEq, Eq, Structural)]
pub enum RunState {
    Running,
    Stopping,
    Stopped,
    NotAnswering,
}

/// What the event loop observed about a worker.
#[derive(Clone, Copy, Debug, PartialEq, Eq, Structural)]
pub enum WorkerEvent {
    /// The operator asked the worker to stop.
    StopRequest,
    /// The worker missed its reply deadline and a liveness probe.
    ProbeTimeout,
    /// A probe of a silent worker answered after all.
    ProbeOk,
    /// The child process exited.
    Exit,
    /// A silent worker was force-killed.
    ForceKill,
}

/// The worker state an event leads to, when the event applies at all.
pub open spec fn spec_worker_step(s: RunState, e: WorkerEvent) -> Option<RunState> {
    match (s, e) {
        (RunState::Running, WorkerEvent::StopRequest) => Some(RunState::Stopping),
        (RunState::Running, WorkerEvent::ProbeTimeout) => Some(RunState::NotAnswering),
        (RunState::Running, WorkerEvent::Exit) => Some(RunState::Stopped),
        (RunState::Stopping, WorkerEvent::Exit) => Some(RunState::Stopped),
        (RunState::NotAnswering, WorkerEvent::ProbeOk) => Some(RunState::Running),
        (RunState::NotAnswering, WorkerEvent::Exit) => Some(RunState::Stopped),
        (RunState::NotAnswering, WorkerEvent::ForceKill) => Some(RunState::Stopped),
        _ => None,
    }
}

/// A single control directive with its correlation id.
pub struct OrderMessage {
    pub id: String,
    pub order: Order,
}

#[verifier::ext_equal]
pub ghost struct OrderMessageView {
    pub id: Seq<char>,
    pub order: OrderView,
}

impl View for OrderMessage {
    type V = OrderMessageView;

    open spec fn view(&self) -> OrderMessageView {
        OrderMessageView { id: self.id@, order: self.order@ }
    }
}

impl Clone for OrderMessage {
    fn clone(&self) -> (r: Self)
        ensures
            r@ == self@,
    {
        OrderMessage { id: self.id.clone(), order: self.order.clone() }
    }
}

/// A supervised worker process. The file descriptor of its control socket is
/// carried numerically so that an upgrade can hand it to a successor.
pub struct Worker {
    pub id: u32,
    pub pid: i32,
    pub fd: i32,
    pub run_state: RunState,
    pub token: Option<usize>,
    pub queue: Vec<OrderMessage>,
    pub channel: Channel,
}

impl Worker {
    /// The queue as its mathematical picture.
    pub open spec fn queue_view(&self) -> Seq<OrderMessageView> {
        self.queue@.map_values(|m: OrderMessage| m@)
    }
}

/// A message a client sends the master.
pub enum ConfigCommand {
    /// An order to replicate to the workers.
    Proxy(Order),
    /// Serialize the configuration state to the given path.
    SaveState(String),
    /// Replay a saved state file order by order.
    LoadState(String),
    /// Hand the configuration state back to the client.
    DumpState,
    /// Replace the running master by a fresh binary.
    Upgrade,
}

/// A client message: a correlation id chosen by the client, and a command.
pub struct ConfigMessage {
    pub id: String,
    pub data: ConfigCommand,
}

/// The outcome of a client message.
#[derive(Clone, Copy, Debug, PartialEq, Eq, Structural)]
pub enum AnswerStatus {
    Okay,
    Processing,
    Error,
}

/// Which part of an upgrade went wrong.
#[derive(Clone, Copy, Debug, PartialEq, Eq, Structural)]
pub enum UpgradeStage {
    Snapshot,
    Fork,
    Exec,
    Ready,
}

/// Structured detail of an answer; the process around the library renders it.
pub enum AnswerDetail {
    NoDetail,
    /// Workers that missed the order's deadline.
    WorkerTimeouts(Vec<u32>),
    /// Workers that answered with an error.
    WorkerErrors(Vec<u32>),
    /// The stage at which an upgrade was abandoned.
    UpgradeFailed(UpgradeStage),
}

/// The reply to a client message, correlated by its id.
pub struct ConfigMessageAnswer {
    pub id: String,
    pub status: AnswerStatus,
    pub detail: AnswerDetail,
}

/// One outstanding order: which workers still owe an answer, which answered
/// how, and the deadline after which silence becomes a timeout.
pub struct OrderInFlight {
    pub msg_id: String,
    pub awaiting: Vec<u32>,
    pub answered_ok: Vec<u32>,
    pub answered_error: Vec<u32>,
    pub deadline: u64,
}

/// The worker ids other than the given one.
pub open spec fn not_worker(x: u32) -> spec_fn(u32) -> bool {
    |w: u32| w != x
}

/// Removes every occurrence of a worker id; reports whether it was there.
fn remove_worker_id(v: &mut Vec<u32>, x: u32) -> (found: bool)
    ensures
        final(v)@ == old(v)@.filter(not_worker(x)),
        found == old(v)@.contains(x),
{
    let ghost pred = not_worker(x);
    let ghost s = v@;
    let mut out: Vec<u32> = Vec::new();
    let mut found = false;
    let mut i: usize = 0;
    let n = v.len();
    proof {
        reveal_with_fuel(Seq::filter, 1);
        assert(s.take(0) =~= Seq::<u32>::empty());
        assert(out@ =~= s.take(0).filter(pred));
    }
    while i < n
        invariant
            i <= n,
            n == v@.len(),
            s == v@,
            pred == not_worker(x),
            out@ == s.take(i as int).filter(pred),
            found == s.take(i as int).contains(x),
        decreases n - i,
    {
        proof {
            lemma_filter_step(s, pred, i as int);
            assert(s.take(i as int + 1) =~= s.take(i as int).push(s[i as int]));
        }
        if v[i] == x {
            found = true;
            proof {
                assert(s.take(i as int + 1)[i as int] == x);
                assert(s.take(i as int + 1).contains(x));
            }
        } else {
            out.push(v[i]);
            proof {
                if s.take(i as int + 1).contains(x) {
                    let k = choose|k: int|
                        0 <= k < s.take(i as int + 1).len() && #[trigger] s.take(i as int + 1)[k]
                            == x;
                    assert(k < i as int + 1);
                    if k < i as int {
                        assert(s.take(i as int)[k] == x);
                        assert(s.take(i as int).contains(x));
                    }
                }
            }
        }
        i += 1;
    }
    proof {
        assert(s.take(n as int) =~= s);
    }
    *v = out;
    found
}

/// The first in-flight record carrying the given correlation id, or the
/// list's length when none does.
pub open spec fn spec_first_match(s: Seq<OrderInFlight>, id: Seq<char>) -> int
    decreases s.len(),
{
    if s.len() == 0 {
        0
    } else if s[0].msg_id@ == id {
        0
    } else {
        1 + spec_first_match(s.drop_first(), id)
    }
}

proof fn lemma_first_match(s: Seq<OrderInFlight>, id: Seq<char>, k: int)
    requires
        0 <= k <= s.len(),
        forall|j: int| 0 <= j < k ==> (#[trigger] s[j]).msg_id@ != id,
        k < s.len() ==> s[k].msg_id@ == id,
    ensures
        spec_first_match(s, id) == k,
    decreases s.len(),
{
    if s.len() > 0 && k > 0 {
        assert(s[0].msg_id@ != id);
        assert forall|j: int| 0 <= j < k - 1 implies (#[trigger] s.drop_first()[j]).msg_id@
            != id by {
            assert(s.drop_first()[j] == s[j + 1]);
        }
        assert(k - 1 < s.drop_first().len() ==> s.drop_first()[k - 1].msg_id@ == id);
        lemma_first_match(s.drop_first(), id, k - 1);
    }
}

impl OrderInFlight {
    /// Records one worker's answer: the worker stops being awaited, its
    /// outcome is kept, and the order is complete when no answer is owed any
    /// more. An answer from a worker not awaited — a duplicate or a
    /// misbehaving worker — changes nothing.
    pub fn record_answer(&mut self, worker_id: u32, success: bool) -> (done: bool)
        ensures
            final(self).msg_id == old(self).msg_id,
            final(self).deadline == old(self).deadline,
            final(self).awaiting@ == old(self).awaiting@.filter(not_worker(worker_id)),
            old(self).awaiting@.contains(worker_id) ==> {
                &&& success ==> final(self).answered_ok@ == old(self).answered_ok@.push(worker_id)
                    && final(self).answered_error == old(self).answered_error
                &&& !success ==> final(self).answered_error@ == old(self).answered_error@.push(
                    worker_id,
                ) && final(self).answered_ok == old(self).answered_ok
            },
            !old(self).awaiting@.contains(worker_id) ==> final(self).answered_ok == old(self).answered_ok && final(self).answered_error == old(self).answered_error,
            done == (old(self).awaiting@.contains(worker_id) && final(self).awaiting@.len() == 0),
    {
        let found = remove_worker_id(&mut self.awaiting, worker_id);
        if found {
            if success {
                self.answered_ok.push(worker_id);
            } else {
                self.answered_error.push(worker_id);
            }
            found && self.awaiting.len() == 0
        } else {
            false
        }
    }
}

/// The deadline an order gets, saturating at the top of the clock.
pub open spec fn spec_deadline(now: u64, timeout: u64) -> u64 {
    if now + timeout > u64::MAX {
        u64::MAX
    } else {
        (now + timeout) as u64
    }
}

/// The event-loop owner: the worker fleet, the authoritative configuration,
/// the outstanding orders, and the allocators whose cursors survive upgrades.
pub struct CommandServer {
    pub workers: Vec<Worker>,
    pub next_id: u32,
    pub token_count: usize,
    pub state: ConfigState,
    pub in_flight: Vec<OrderInFlight>,
    pub upgrading: bool,
    /// Every worker id ever allocated; ids are never reused.
    pub used_ids: Ghost<Set<u32>>,
    /// The configuration the server started from.
    pub initial_state: Ghost<ConfigStateView>,
    /// The orders accepted so far, in order.
    pub history: Ghost<Seq<OrderView>>,
}

impl CommandServer {
    /// The server's standing invariant: the configuration equals the replay
    /// of the accepted orders onto the initial state; worker ids are unique,
    /// below the allocator cursor, and drawn from the allocated set; every
    /// allocated id is below the cursor, so a fresh id was never seen before.
    pub open spec fn wf(&self) -> bool {
        &&& self.state@ == spec_replay(self.initial_state@, self.history@)
        &&& forall|i: int| 0 <= i < self.workers@.len() ==> (#[trigger] self.workers@[i]).id
            < self.next_id
        &&& forall|i: int, j: int| 0 <= i < j < self.workers@.len() ==> (
        #[trigger] self.workers@[i]).id != (#[trigger] self.workers@[j]).id
        &&& forall|i: int| 0 <= i < self.workers@.len() ==> self.used_ids@.contains(
            (#[trigger] self.workers@[i]).id,
        )
        &&& forall|id: u32| self.used_ids@.contains(id) ==> id < self.next_id
    }

    /// A fresh server with no workers and an empty configuration.
    pub fn new() -> (r: CommandServer)
        ensures
            r.wf(),
            r.workers@.len() == 0,
            r.next_id == 0,
            r.token_count == 0,
            r.in_flight@.len() == 0,
            !r.upgrading,
            r.used_ids@ == Set::<u32>::empty(),
            r.history@ == Seq::<OrderView>::empty(),
            r.state@ == r.initial_state@,
    {
        let state = ConfigState::new();
        let r = CommandServer {
            workers: Vec::new(),
            next_id: 0,
            token_count: 0,
            initial_state: Ghost(state@),
            state,
            in_flight: Vec::new(),
            upgrading: false,
            used_ids: Ghost(Set::empty()),
            history: Ghost(Seq::empty()),
        };
        r
    }

    /// Adopts a freshly spawned worker process under a never-before-seen id.
    ///
    /// The returned id is the allocator cursor, and the cursor only moves
    /// forward, so no id is ever handed out twice — not to this fleet and
    /// not to any fleet a snapshot of it is restored into.
    pub fn spawn_worker(&mut self, pid: i32, fd: i32, channel: Channel) -> (id: u32)
        requires
            old(self).wf(),
            old(self).next_id < u32::MAX,
            old(self).token_count < usize::MAX,
        ensures
            final(self).wf(),
            id == old(self).next_id,
            !old(self).used_ids@.contains(id),
            final(self).used_ids@ == old(self).used_ids@.insert(id),
            final(self).next_id == old(self).next_id + 1,
            final(self).token_count == old(self).token_count + 1,
            final(self).workers@.len() == old(self).workers@.len() + 1,
            forall|i: int| 0 <= i < old(self).workers@.len() ==> final(self).workers@[i] == old(self).workers@[i],
            final(self).workers@.last().id == id,
            final(self).workers@.last().pid == pid,
            final(self).workers@.last().fd == fd,
            final(self).workers@.last().run_state == RunState::Running,
            final(self).workers@.last().token == Some(old(self).token_count),
            final(self).workers@.last().queue_view() == Seq::<OrderMessageView>::empty(),
            final(self).state == old(self).state,
            final(self).history == old(self).history,
            final(self).initial_state == old(self).initial_state,
            final(self).in_flight == old(self).in_flight,
            final(self).upgrading == old(self).upgrading,
    {
        let id = self.next_id;
        let token = self.token_count;
        self.next_id = id + 1;
        self.token_count = token + 1;
        let worker = Worker {
            id,
            pid,
            fd,
            run_state: RunState::Running,
            token: Some(token),
            queue: Vec::new(),
            channel,
        };
        self.workers.push(worker);
        proof {
            self.used_ids@ = self.used_ids@.insert(id);
            assert(self.workers@.last().queue_view() =~= Seq::<OrderMessageView>::empty());
        }
        id
    }

    /// Applies an event to the worker of the given id, as the run-state
    /// machine allows. Returns whether a transition happened; an event that
    /// does not apply, or an unknown id, changes nothing. A worker that
    /// reaches `Stopped` gives up its token and its descriptor is recorded
    /// closed.
    pub fn transition_worker(&mut self, id: u32, event: WorkerEvent) -> (changed: bool)
        requires
            old(self).wf(),
        ensures
            final(self).wf(),
            final(self).workers@.len() == old(self).workers@.len(),
            forall|i: int| 0 <= i < old(self).workers@.len() && old(self).workers@[i].id != id
                ==> final(self).workers@[i] == old(self).workers@[i],
            forall|i: int|
                0 <= i < old(self).workers@.len() && old(self).workers@[i].id == id ==> {
                    let w = old(self).workers@[i];
                    let f = final(self).workers@[i];
                    match spec_worker_step(w.run_state, event) {
                        Some(next) => {
                            &&& f.run_state == next
                            &&& f.id == w.id && f.pid == w.pid && f.queue == w.queue && f.channel
                                == w.channel
                            &&& next == RunState::Stopped ==> f.token is None && f.fd == -1
                            &&& next != RunState::Stopped ==> f.token == w.token && f.fd == w.fd
                        },
                        None => f == w,
                    }
                },
            changed == (exists|i: int|
                0 <= i < old(self).workers@.len() && (#[trigger] old(self).workers@[i]).id == id
                    && spec_worker_step(old(self).workers@[i].run_state, event) is Some),
            final(self).state == old(self).state,
            final(self).history == old(self).history,
            final(self).initial_state == old(self).initial_state,
            final(self).next_id == old(self).next_id,
            final(self).used_ids == old(self).used_ids,
            final(self).token_count == old(self).token_count,
            final(self).in_flight == old(self).in_flight,
            final(self).upgrading == old(self).upgrading,
    {
        let n = self.workers.len();
        let mut i: usize = 0;
        while i < n
            invariant
                old(self).wf(),
                i <= n,
                n == self.workers@.len(),
                *self == *old(self),
                forall|j: int| 0 <= j < i ==> (#[trigger] old(self).workers@[j]).id != id,
            decreases n - i,
        {
            if self.workers[i].id == id {
                let current = self.workers[i].run_state;
                let next = match (current, event) {
                    (RunState::Running, WorkerEvent::StopRequest) => Some(RunState::Stopping),
                    (RunState::Running, WorkerEvent::ProbeTimeout) => Some(
                        RunState::NotAnswering,
                    ),
                    (RunState::Running, WorkerEvent::Exit) => Some(RunState::Stopped),
                    (RunState::Stopping, WorkerEvent::Exit) => Some(RunState::Stopped),
                    (RunState::NotAnswering, WorkerEvent::ProbeOk) => Some(RunState::Running),
                    (RunState::NotAnswering, WorkerEvent::Exit) => Some(RunState::Stopped),
                    (RunState::NotAnswering, WorkerEvent::ForceKill) => Some(RunState::Stopped),
                    _ => None,
                };
                match next {
                    Some(next_state) => {
                        let mut w = self.workers.remove(i);
                        w.run_state = next_state;
                        if matches!(next_state, RunState::Stopped) {
                            w.token = None;
                            w.fd = -1;
                        }
                        self.workers.insert(i, w);
                        proof {
                            assert(self.workers@ =~= old(self).workers@.update(
                                i as int,
                                self.workers@[i as int],
                            ));
                            assert(forall|j: int|
                                0 <= j < old(self).workers@.len() && j != i as int
                                    ==> final(self).workers@[j] == old(self).workers@[j]);
                            assert(old(self).workers@[i as int].id == id);
                            assert forall|j: int|
                                0 <= j < old(self).workers@.len() && old(self).workers@[j].id
                                    == id implies j == i as int by {
                                if j < i as int {
                                    assert(old(self).workers@[j].id != old(self).workers@[i as int].id);
                                } else if j > i as int {
                                    assert(old(self).workers@[i as int].id != old(self).workers@[j].id);
                                }
                            }
                            assert(forall|j: int|
                                0 <= j < self.workers@.len() ==> (
                                #[trigger] self.workers@[j]).id == old(self).workers@[j].id);
                        }
                        return true;
                    },
                    None => {
                        return false;
                    },
                }
            }
            i += 1;
        }
        false
    }
}

/// The workers currently running, the targets of a broadcast.
pub open spec fn is_running() -> spec_fn(Worker) -> bool {
    |w: Worker| w.run_state is Running
}

/// The ids of the running workers, in fleet order.
pub open spec fn spec_running_ids(ws: Seq<Worker>) -> Seq<u32> {
    ws.filter(is_running()).map_values(|w: Worker| w.id)
}

/// The orders that outlived the given instant.
pub open spec fn not_expired(now: u64) -> spec_fn(OrderInFlight) -> bool {
    |e: OrderInFlight| e.deadline > now
}

/// The orders whose deadline passed.
pub open spec fn is_expired(now: u64) -> spec_fn(OrderInFlight) -> bool {
    |e: OrderInFlight| e.deadline <= now
}

impl CommandServer {
    /// Translates one client message and fans a proxy order out to every
    /// running worker: the configuration is mutated transactionally, the
    /// order is appended to each running worker's queue — so each queue keeps
    /// submission order — and one in-flight record awaits exactly those
    /// workers under a deadline. Workers not running receive nothing. During
    /// an upgrade window a mutating order is refused outright.
    pub fn dispatch(&mut self, message: &ConfigMessage, now: u64, timeout: u64) -> (r:
        ConfigMessageAnswer)
        requires
            old(self).wf(),
        ensures
            final(self).wf(),
            r.id@ == message.id@,
            final(self).next_id == old(self).next_id,
            final(self).used_ids == old(self).used_ids,
            final(self).token_count == old(self).token_count,
            final(self).initial_state == old(self).initial_state,
            match message.data {
                ConfigCommand::Proxy(order) => {
                    if old(self).upgrading && order@.is_mutating() {
                        &&& *final(self) == *old(self)
                        &&& r.status is Error
                    } else {
                        &&& final(self).state@ == spec_apply(old(self).state@, order@)
                        &&& final(self).history@ == old(self).history@.push(order@)
                        &&& final(self).upgrading == old(self).upgrading
                        &&& final(self).workers@.len() == old(self).workers@.len()
                        &&& forall|i: int|
                            0 <= i < old(self).workers@.len() ==> {
                                let w = #[trigger] old(self).workers@[i];
                                let f = final(self).workers@[i];
                                &&& f.id == w.id
                                &&& f.pid == w.pid
                                &&& f.fd == w.fd
                                &&& f.run_state == w.run_state
                                &&& f.token == w.token
                                &&& f.channel == w.channel
                                &&& (w.run_state is Running ==> f.queue_view() == w.queue_view().push(
                                    OrderMessageView { id: message.id@, order: order@ },
                                ))
                                &&& (!(w.run_state is Running) ==> f.queue == w.queue)
                            }
                        &&& final(self).in_flight@.len() == old(self).in_flight@.len() + 1
                        &&& forall|k: int|
                            0 <= k < old(self).in_flight@.len() ==> final(self).in_flight@[k]
                                == old(self).in_flight@[k]
                        &&& final(self).in_flight@.last().msg_id@ == message.id@
                        &&& final(self).in_flight@.last().awaiting@ == spec_running_ids(
                            old(self).workers@,
                        )
                        &&& final(self).in_flight@.last().answered_ok@.len() == 0
                        &&& final(self).in_flight@.last().answered_error@.len() == 0
                        &&& final(self).in_flight@.last().deadline == spec_deadline(now, timeout)
                        &&& r.status is Processing
                    }
                },
                ConfigCommand::Upgrade => {
                    &&& final(self).upgrading
                    &&& final(self).state == old(self).state
                    &&& final(self).history == old(self).history
                    &&& final(self).workers == old(self).workers
                    &&& final(self).in_flight == old(self).in_flight
                    &&& r.status is Processing
                },
                _ => *final(self) == *old(self) && r.status is Okay,
            },
    {
        match &message.data {
            ConfigCommand::Proxy(order) => {
                if self.upgrading && order_is_mutating(order) {
                    return ConfigMessageAnswer {
                        id: message.id.clone(),
                        status: AnswerStatus::Error,
                        detail: AnswerDetail::NoDetail,
                    };
                }
                self.state.handle_order(order);
                proof {
                    lemma_replay_snoc(self.initial_state@, self.history@, order@);
                    self.history@ = self.history@.push(order@);
                }
                let ghost ws0 = self.workers@;
                let mut awaiting: Vec<u32> = Vec::new();
                let mut i: usize = 0;
                let n = self.workers.len();
                proof {
                    reveal_with_fuel(Seq::filter, 1);
                    assert(ws0.take(0) =~= Seq::<Worker>::empty());
                    assert(awaiting@ =~= spec_running_ids(ws0.take(0)));
                }
                while i < n
                    invariant
                        old(self).wf(),
                        i <= n,
                        n == self.workers@.len() == ws0.len(),
                        self.state@ == spec_apply(old(self).state@, order@),
                        self.history@ == old(self).history@.push(order@),
                        self.initial_state == old(self).initial_state,
                        self.next_id == old(self).next_id,
                        self.used_ids == old(self).used_ids,
                        self.token_count == old(self).token_count,
                        self.in_flight == old(self).in_flight,
                        self.upgrading == old(self).upgrading,
                        forall|j: int| 0 <= j < ws0.len() ==> (#[trigger] ws0[j]).id == old(self).workers@[j].id,
                        ws0.len() == old(self).workers@.len(),
                        awaiting@ == spec_running_ids(ws0.take(i as int)),
                        forall|j: int| i <= j < n ==> self.workers@[j] == ws0[j],
                        forall|j: int|
                            0 <= j < i ==> {
                                let w = #[trigger] ws0[j];
                                let f = self.workers@[j];
                                &&& f.id == w.id
                                &&& f.pid == w.pid
                                &&& f.fd == w.fd
                                &&& f.run_state == w.run_state
                                &&& f.token == w.token
                                &&& f.channel == w.channel
                                &&& (w.run_state is Running ==> f.queue_view()
                                    == w.queue_view().push(
                                    OrderMessageView { id: message.id@, order: order@ },
                                ))
                                &&& (!(w.run_state is Running) ==> f.queue == w.queue)
                            },
                    decreases n - i,
                {
                    proof {
                        lemma_filter_step(ws0, is_running(), i as int);
                    }
                    let running = matches!(self.workers[i].run_state, RunState::Running);
                    if running {
                        awaiting.push(self.workers[i].id);
                        let mut w = self.workers.remove(i);
                        let ghost qv0 = w.queue_view();
                        w.queue.push(
                            OrderMessage { id: message.id.clone(), order: order.clone() },
                        );
                        proof {
                            assert(w.queue_view() =~= qv0.push(
                                OrderMessageView { id: message.id@, order: order@ },
                            ));
                        }
                        self.workers.insert(i, w);
                        proof {
                            assert(ws0.take(i as int + 1).filter(is_running())
                                =~= ws0.take(i as int).filter(is_running()).push(ws0[i as int]));
                            assert(awaiting@ =~= spec_running_ids(ws0.take(i as int + 1)));
                        }
                    } else {
                        proof {
                            assert(ws0.take(i as int + 1).filter(is_running()) =~= ws0.take(
                                i as int,
                            ).filter(is_running()));
                            assert(awaiting@ =~= spec_running_ids(ws0.take(i as int + 1)));
                        }
                    }
                    i += 1;
                }
                proof {
                    assert(ws0.take(n as int) =~= ws0);
                }
                let deadline = if now > u64::MAX - timeout {
                    u64::MAX
                } else {
                    now + timeout
                };
                let entry = OrderInFlight {
                    msg_id: message.id.clone(),
                    awaiting,
                    answered_ok: Vec::new(),
                    answered_error: Vec::new(),
                    deadline,
                };
                self.in_flight.push(entry);
                proof {
                    assert forall|j: int|
                        0 <= j < self.workers@.len() implies (#[trigger] self.workers@[j]).id
                        == old(self).workers@[j].id by {
                        assert(ws0[j].id == old(self).workers@[j].id);
                    }
                    assert(self.in_flight@.last().answered_ok@ =~= Seq::<u32>::empty());
                    assert(self.in_flight@.last().answered_error@ =~= Seq::<u32>::empty());
                }
                ConfigMessageAnswer {
                    id: message.id.clone(),
                    status: AnswerStatus::Processing,
                    detail: AnswerDetail::NoDetail,
                }
            },
            ConfigCommand::Upgrade => {
                self.upgrading = true;
                ConfigMessageAnswer {
                    id: message.id.clone(),
                    status: AnswerStatus::Processing,
                    detail: AnswerDetail::NoDetail,
                }
            },
            _ => ConfigMessageAnswer {
                id: message.id.clone(),
                status: AnswerStatus::Okay,
                detail: AnswerDetail::NoDetail,
            },
        }
    }

    /// Takes one worker's answer to an order. The worker's queue drops its
    /// head when the head carries this correlation id — acknowledged orders
    /// leave the queue in submission order. The first in-flight record of the
    /// id stops awaiting the worker, and once no worker is owed, the record
    /// closes into the aggregated client answer: `Okay` when every worker
    /// succeeded, otherwise `Error` naming the workers that failed. Answers
    /// from workers not awaited are ignored.
    pub fn handle_worker_answer(
        &mut self,
        worker_id: u32,
        msg_id: &String,
        success: bool,
    ) -> (r: Option<ConfigMessageAnswer>)
        requires
            old(self).wf(),
        ensures
            final(self).wf(),
            final(self).state == old(self).state,
            final(self).history == old(self).history,
            final(self).initial_state == old(self).initial_state,
            final(self).next_id == old(self).next_id,
            final(self).used_ids == old(self).used_ids,
            final(self).token_count == old(self).token_count,
            final(self).upgrading == old(self).upgrading,
            final(self).workers@.len() == old(self).workers@.len(),
            forall|i: int|
                0 <= i < old(self).workers@.len() ==> {
                    let w = #[trigger] old(self).workers@[i];
                    let f = final(self).workers@[i];
                    if w.id == worker_id {
                        &&& f.id == w.id
                        &&& f.pid == w.pid
                        &&& f.fd == w.fd
                        &&& f.run_state == w.run_state
                        &&& f.token == w.token
                        &&& f.channel == w.channel
                        &&& (w.queue_view().len() > 0 && w.queue_view()[0].id == msg_id@
                            ==> f.queue_view() == w.queue_view().drop_first())
                        &&& (!(w.queue_view().len() > 0 && w.queue_view()[0].id == msg_id@)
                            ==> f.queue == w.queue)
                    } else {
                        f == w
                    }
                },
            ({
                let s0 = old(self).in_flight@;
                let k = spec_first_match(s0, msg_id@);
                if k == s0.len() {
                    // no record carries the id: a stale or unknown answer
                    // changes nothing and closes nothing
                    &&& r is None
                    &&& final(self).in_flight == old(self).in_flight
                } else {
                    let e = s0[k];
                    let still = e.awaiting@.filter(not_worker(worker_id));
                    if e.awaiting@.contains(worker_id) && still.len() == 0 {
                        // the last owed answer closes the record into the reply
                        &&& 0 <= k < s0.len()
                        &&& r matches Some(ans)
                        &&& r->0.id@ == msg_id@
                        &&& (r->0.status == AnswerStatus::Okay <==> e.answered_error@.len() == 0
                            && success)
                        &&& r->0.detail matches AnswerDetail::WorkerErrors(v) && v@ == (
                        if success {
                            e.answered_error@
                        } else {
                            e.answered_error@.push(worker_id)
                        })
                        &&& final(self).in_flight@ == s0.remove(k)
                    } else {
                        // answers are still owed, or the worker was never
                        // awaited: the record waits on with the outcome booked
                        &&& 0 <= k < s0.len()
                        &&& r is None
                        &&& final(self).in_flight@.len() == s0.len()
                        &&& forall|j: int| 0 <= j < s0.len() && j != k ==> final(self).in_flight@[j] == s0[j]
                        &&& final(self).in_flight@[k].msg_id == e.msg_id
                        &&& final(self).in_flight@[k].deadline == e.deadline
                        &&& final(self).in_flight@[k].awaiting@ == still
                        &&& (e.awaiting@.contains(worker_id) && success ==> final(self).in_flight@[k].answered_ok@ == e.answered_ok@.push(worker_id) && final(self).in_flight@[k].answered_error == e.answered_error)
                        &&& (e.awaiting@.contains(worker_id) && !success ==> final(self).in_flight@[k].answered_error@ == e.answered_error@.push(worker_id)
                            && final(self).in_flight@[k].answered_ok == e.answered_ok)
                        &&& (!e.awaiting@.contains(worker_id) ==> final(self).in_flight@[k].answered_ok == e.answered_ok && final(self).in_flight@[k].answered_error == e.answered_error)
                    }
                }
            }),
    {
        self.ack_queue_head(worker_id, msg_id);
        self.settle_answer(worker_id, msg_id, success)
    }

    /// Drops the head of the given worker's queue when it carries this
    /// correlation id: the oldest unacknowledged order is now acknowledged.
    fn ack_queue_head(&mut self, worker_id: u32, msg_id: &String)
        requires
            old(self).wf(),
        ensures
            final(self).wf(),
            final(self).state == old(self).state,
            final(self).history == old(self).history,
            final(self).initial_state == old(self).initial_state,
            final(self).next_id == old(self).next_id,
            final(self).used_ids == old(self).used_ids,
            final(self).token_count == old(self).token_count,
            final(self).upgrading == old(self).upgrading,
            final(self).in_flight == old(self).in_flight,
            final(self).workers@.len() == old(self).workers@.len(),
            forall|i: int|
                0 <= i < old(self).workers@.len() ==> {
                    let w = #[trigger] old(self).workers@[i];
                    let f = final(self).workers@[i];
                    if w.id == worker_id {
                        &&& f.id == w.id
                        &&& f.pid == w.pid
                        &&& f.fd == w.fd
                        &&& f.run_state == w.run_state
                        &&& f.token == w.token
                        &&& f.channel == w.channel
                        &&& (w.queue_view().len() > 0 && w.queue_view()[0].id == msg_id@
                            ==> f.queue_view() == w.queue_view().drop_first())
                        &&& (!(w.queue_view().len() > 0 && w.queue_view()[0].id == msg_id@)
                            ==> f.queue == w.queue)
                    } else {
                        f == w
                    }
                },
    {
        let n = self.workers.len();
        let mut i: usize = 0;
        while i < n
            invariant
                old(self).wf(),
                i <= n,
                n == self.workers@.len(),
                *self == *old(self),
                forall|j: int| 0 <= j < i ==> (#[trigger] old(self).workers@[j]).id != worker_id,
            decreases n - i,
        {
            if self.workers[i].id == worker_id {
                let head_matches = self.workers[i].queue.len() > 0 && self.workers[i].queue[0].id
                    == *msg_id;
                if head_matches {
                    let mut w = self.workers.remove(i);
                    let ghost qv0 = w.queue_view();
                    let _acked = w.queue.remove(0);
                    proof {
                        assert(w.queue_view() =~= qv0.drop_first());
                    }
                    self.workers.insert(i, w);
                    proof {
                        assert(self.workers@ =~= old(self).workers@.update(
                            i as int,
                            self.workers@[i as int],
                        ));
                        assert(forall|j: int|
                            0 <= j < self.workers@.len() ==> (
                            #[trigger] self.workers@[j]).id == old(self).workers@[j].id);
                        assert forall|j: int|
                            0 <= j < old(self).workers@.len() && old(self).workers@[j].id
                                == worker_id implies j == i as int by {
                            if j < i as int {
                                assert(old(self).workers@[j].id != old(self).workers@[i as int].id);
                            } else if j > i as int {
                                assert(old(self).workers@[i as int].id != old(self).workers@[j].id);
                            }
                        }
                    }
                }
                return ;
            }
            i += 1;
        }
    }

    /// Updates the first in-flight record of the given correlation id with
    /// one worker's outcome, closing it into the aggregated answer when no
    /// worker is owed any more.
    fn settle_answer(&mut self, worker_id: u32, msg_id: &String, success: bool) -> (r: Option<
        ConfigMessageAnswer,
    >)
        requires
            old(self).wf(),
        ensures
            final(self).wf(),
            final(self).state == old(self).state,
            final(self).history == old(self).history,
            final(self).initial_state == old(self).initial_state,
            final(self).next_id == old(self).next_id,
            final(self).used_ids == old(self).used_ids,
            final(self).token_count == old(self).token_count,
            final(self).upgrading == old(self).upgrading,
            final(self).workers == old(self).workers,
            ({
                let s0 = old(self).in_flight@;
                let k = spec_first_match(s0, msg_id@);
                if k == s0.len() {
                    // no record carries the id: a stale or unknown answer
                    // changes nothing and closes nothing
                    &&& r is None
                    &&& final(self).in_flight == old(self).in_flight
                } else {
                    let e = s0[k];
                    let still = e.awaiting@.filter(not_worker(worker_id));
                    if e.awaiting@.contains(worker_id) && still.len() == 0 {
                        // the last owed answer closes the record into the reply
                        &&& 0 <= k < s0.len()
                        &&& r matches Some(ans)
                        &&& r->0.id@ == msg_id@
                        &&& (r->0.status == AnswerStatus::Okay <==> e.answered_error@.len() == 0
                            && success)
                        &&& r->0.detail matches AnswerDetail::WorkerErrors(v) && v@ == (
                        if success {
                            e.answered_error@
                        } else {
                            e.answered_error@.push(worker_id)
                        })
                        &&& final(self).in_flight@ == s0.remove(k)
                    } else {
                        // answers are still owed, or the worker was never
                        // awaited: the record waits on with the outcome booked
                        &&& 0 <= k < s0.len()
                        &&& r is None
                        &&& final(self).in_flight@.len() == s0.len()
                        &&& forall|j: int| 0 <= j < s0.len() && j != k ==> final(self).in_flight@[j] == s0[j]
                        &&& final(self).in_flight@[k].msg_id == e.msg_id
                        &&& final(self).in_flight@[k].deadline == e.deadline
                        &&& final(self).in_flight@[k].awaiting@ == still
                        &&& (e.awaiting@.contains(worker_id) && success ==> final(self).in_flight@[k].answered_ok@ == e.answered_ok@.push(worker_id) && final(self).in_flight@[k].answered_error == e.answered_error)
                        &&& (e.awaiting@.contains(worker_id) && !success ==> final(self).in_flight@[k].answered_error@ == e.answered_error@.push(worker_id)
                            && final(self).in_flight@[k].answered_ok == e.answered_ok)
                        &&& (!e.awaiting@.contains(worker_id) ==> final(self).in_flight@[k].answered_ok == e.answered_ok && final(self).in_flight@[k].answered_error == e.answered_error)
                    }
                }
            }),
    {
        let n = self.in_flight.len();
        let mut k: usize = 0;
        while k < n
            invariant
                old(self).wf(),
                k <= n,
                n == self.in_flight@.len(),
                *self == *old(self),
                forall|j: int| 0 <= j < k ==> (#[trigger] old(self).in_flight@[j]).msg_id@
                    != msg_id@,
            decreases n - k,
        {
            if self.in_flight[k].msg_id == *msg_id {
                proof {
                    lemma_first_match(old(self).in_flight@, msg_id@, k as int);
                }
                let mut entry = self.in_flight.remove(k);
                let done = entry.record_answer(worker_id, success);
                if done {
                    let status = if entry.answered_error.len() == 0 {
                        AnswerStatus::Okay
                    } else {
                        AnswerStatus::Error
                    };
                    let ans = ConfigMessageAnswer {
                        id: entry.msg_id,
                        status,
                        detail: AnswerDetail::WorkerErrors(entry.answered_error),
                    };
                    return Some(ans);
                } else {
                    self.in_flight.insert(k, entry);
                    proof {
                        assert(self.in_flight@ =~= old(self).in_flight@.update(
                            k as int,
                            self.in_flight@[k as int],
                        ));
                    }
                    return None;
                }
            }
            k += 1;
        }
        proof {
            lemma_first_match(old(self).in_flight@, msg_id@, n as int);
        }
        None
    }

    /// Closes every in-flight order whose deadline has passed: each produces
    /// an `Error` answer naming the workers that never replied; orders still
    /// inside their deadline stay. The master keeps serving.
    pub fn check_timeouts(&mut self, now: u64) -> (r: Vec<ConfigMessageAnswer>)
        requires
            old(self).wf(),
        ensures
            final(self).wf(),
            final(self).state == old(self).state,
            final(self).history == old(self).history,
            final(self).initial_state == old(self).initial_state,
            final(self).next_id == old(self).next_id,
            final(self).used_ids == old(self).used_ids,
            final(self).token_count == old(self).token_count,
            final(self).upgrading == old(self).upgrading,
            final(self).workers == old(self).workers,
            final(self).in_flight@ == old(self).in_flight@.filter(not_expired(now)),
            r@.len() == old(self).in_flight@.filter(is_expired(now)).len(),
            forall|k: int|
                0 <= k < r@.len() ==> {
                    let e = old(self).in_flight@.filter(is_expired(now))[k];
                    &&& (#[trigger] r@[k]).id@ == e.msg_id@
                    &&& r@[k].status is Error
                    &&& r@[k].detail matches AnswerDetail::WorkerTimeouts(ids) && ids@
                        == e.awaiting@
                },
    {
        let ghost s = self.in_flight@;
        let n = self.in_flight.len();
        let mut kept: Vec<OrderInFlight> = Vec::new();
        let mut answers: Vec<ConfigMessageAnswer> = Vec::new();
        let mut i: usize = 0;
        proof {
            reveal_with_fuel(Seq::filter, 1);
            assert(s.take(0) =~= Seq::<OrderInFlight>::empty());
            assert(self.in_flight@ =~= s.skip(0));
            assert(kept@ =~= s.take(0).filter(not_expired(now)));
            assert(answers@.len() == s.take(0).filter(is_expired(now)).len());
        }
        while i < n
            invariant
                old(self).wf(),
                i <= n,
                n == s.len(),
                self.state == old(self).state,
                self.history == old(self).history,
                self.initial_state == old(self).initial_state,
                self.next_id == old(self).next_id,
                self.used_ids == old(self).used_ids,
                self.token_count == old(self).token_count,
                self.upgrading == old(self).upgrading,
                self.workers == old(self).workers,
                s == old(self).in_flight@,
                self.in_flight@ == s.skip(i as int),
                kept@ == s.take(i as int).filter(not_expired(now)),
                answers@.len() == s.take(i as int).filter(is_expired(now)).len(),
                forall|k: int|
                    0 <= k < answers@.len() ==> {
                        let e = s.take(i as int).filter(is_expired(now))[k];
                        &&& (#[trigger] answers@[k]).id@ == e.msg_id@
                        &&& answers@[k].status is Error
                        &&& answers@[k].detail matches AnswerDetail::WorkerTimeouts(ids) && ids@
                            == e.awaiting@
                    },
            decreases n - i,
        {
            proof {
                lemma_filter_step(s, not_expired(now), i as int);
                lemma_filter_step(s, is_expired(now), i as int);
                assert(s.skip(i as int)[0] == s[i as int]);
                assert(s.skip(i as int).remove(0) =~= s.skip(i as int + 1));
            }
            let entry = self.in_flight.remove(0);
            if entry.deadline <= now {
                answers.push(
                    ConfigMessageAnswer {
                        id: entry.msg_id,
                        status: AnswerStatus::Error,
                        detail: AnswerDetail::WorkerTimeouts(entry.awaiting),
                    },
                );
                proof {
                    let expired_now = s.take(i as int + 1).filter(is_expired(now));
                    assert(expired_now =~= s.take(i as int).filter(is_expired(now)).push(
                        s[i as int],
                    ));
                    assert(answers@.last().id@ == expired_now.last().msg_id@);
                }
            } else {
                kept.push(entry);
                proof {
                    assert(kept@ =~= s.take(i as int + 1).filter(not_expired(now)));
                }
            }
            i += 1;
        }
        proof {
            assert(s.take(n as int) =~= s);
            assert(s.skip(n as int) =~= Seq::<OrderInFlight>::empty());
        }
        self.in_flight = kept;
        answers
    }

    /// Abandons a pending upgrade at the given stage — a failed fork, a
    /// child that died before `exec`, a snapshot the successor refused, or a
    /// readiness deadline that passed. The master stays authoritative and
    /// keeps serving; the upgrade order is answered with the failure.
    pub fn upgrade_failed(&mut self, msg_id: String, stage: UpgradeStage) -> (r:
        ConfigMessageAnswer)
        requires
            old(self).wf(),
        ensures
            final(self).wf(),
            *final(self) == (CommandServer { upgrading: false, ..*old(self) }),
            r.id == msg_id,
            r.status is Error,
            r.detail matches AnswerDetail::UpgradeFailed(s) && s == stage,
    {
        self.upgrading = false;
        ConfigMessageAnswer { id: msg_id, status: AnswerStatus::Error, detail: AnswerDetail::UpgradeFailed(stage) }
    }
}

/// Whether the order mutates the configuration, decided in executable code.
pub fn order_is_mutating(order: &Order) -> (r: bool)
    ensures
        r == order@.is_mutating(),
{
    match order {
        Order::Logging(_) => false,
        Order::SoftStop => false,
        Order::HardStop => false,
        Order::Status => false,
        _ => true,
    }
}


/// No worker id is ever reused: under the server's invariant the next id to
/// be handed out was never allocated before — not to any live worker and not
/// to any worker that has since stopped — and it stays that way across
/// snapshots, because the allocator cursor rides the upgrade envelope.
pub proof fn lemma_worker_id_fresh(s: CommandServer)
    requires
        s.wf(),
    ensures
        !s.used_ids@.contains(s.next_id),
        forall|i: int| 0 <= i < s.workers@.len() ==> (#[trigger] s.workers@[i]).id != s.next_id,
{
}


/// Whether some buffered answer carries the given correlation id.
pub open spec fn spec_has_answer(ready: Seq<ConfigMessageAnswer>, id: Seq<char>) -> bool {
    exists|j: int| 0 <= j < ready.len() && (#[trigger] ready[j]).id@ == id
}

/// The first buffered answer carrying the given correlation id, or the
/// buffer's length when none does.
pub open spec fn spec_first_answer(s: Seq<ConfigMessageAnswer>, id: Seq<char>) -> int
    decreases s.len(),
{
    if s.len() == 0 {
        0
    } else if s[0].id@ == id {
        0
    } else {
        1 + spec_first_answer(s.drop_first(), id)
    }
}

proof fn lemma_first_answer(s: Seq<ConfigMessageAnswer>, id: Seq<char>, k: int)
    requires
        0 <= k <= s.len(),
        forall|j: int| 0 <= j < k ==> (#[trigger] s[j]).id@ != id,
        k < s.len() ==> s[k].id@ == id,
    ensures
        spec_first_answer(s, id) == k,
    decreases s.len(),
{
    if s.len() > 0 && k > 0 {
        assert(s[0].id@ != id);
        assert forall|j: int| 0 <= j < k - 1 implies (#[trigger] s.drop_first()[j]).id@ != id by {
            assert(s.drop_first()[j] == s[j + 1]);
        }
        assert(k - 1 < s.drop_first().len() ==> s.drop_first()[k - 1].id@ == id);
        lemma_first_answer(s.drop_first(), id, k - 1);
    }
}

/// Removes and returns the first buffered answer of the given id, if any.
fn take_answer(v: &mut Vec<ConfigMessageAnswer>, id: &String) -> (r: Option<ConfigMessageAnswer>)
    ensures
        ({
            let k = spec_first_answer(old(v)@, id@);
            match r {
                Some(a) => 0 <= k < old(v)@.len() && a == old(v)@[k] && a.id@ == id@
                    && final(v)@ == old(v)@.remove(k),
                None => *final(v) == *old(v) && !spec_has_answer(old(v)@, id@),
            }
        }),
{
    let n = v.len();
    let mut k: usize = 0;
    while k < n
        invariant
            k <= n,
            n == v@.len(),
            *v == *old(v),
            forall|j: int| 0 <= j < k ==> (#[trigger] old(v)@[j]).id@ != id@,
        decreases n - k,
    {
        if v[k].id == *id {
            proof {
                lemma_first_answer(old(v)@, id@, k as int);
            }
            let a = v.remove(k);
            return Some(a);
        }
        k += 1;
    }
    proof {
        lemma_first_answer(old(v)@, id@, n as int);
        if spec_has_answer(old(v)@, id@) {
            let j = choose|j: int| 0 <= j < old(v)@.len() && (#[trigger] old(v)@[j]).id@ == id@;
            assert(old(v)@[j].id@ != id@);
        }
    }
    None
}

/// Keeps one client's replies in the order its requests were accepted:
/// answers for a client leave in acceptance order, and an answer that
/// completes out of order waits in the buffer until the answers of all
/// earlier requests have left.
pub struct ClientReplyQueue {
    /// Correlation ids of accepted requests whose answers have not left yet,
    /// oldest first.
    pub pending: Vec<String>,
    /// Completed answers waiting for their turn.
    pub ready: Vec<ConfigMessageAnswer>,
}

impl ClientReplyQueue {
    /// A queue with nothing accepted and nothing buffered.
    pub fn new() -> (r: ClientReplyQueue)
        ensures
            r.pending@.len() == 0,
            r.ready@.len() == 0,
    {
        ClientReplyQueue { pending: Vec::new(), ready: Vec::new() }
    }

    /// Records an accepted request; its answer will be emitted only after
    /// the answers of every request accepted before it.
    pub fn accept(&mut self, id: String)
        ensures
            final(self).pending@ == old(self).pending@.push(id),
            final(self).ready == old(self).ready,
    {
        self.pending.push(id);
    }

    /// Books a completed answer and hands back every answer now due: the
    /// emitted answers are those of the oldest accepted requests, in
    /// acceptance order, and emission stops exactly at the first request
    /// whose answer has not yet completed. The booked answer is never lost:
    /// it leaves with the emitted ones or waits in the buffer.
    pub fn complete(&mut self, answer: ConfigMessageAnswer) -> (r: Vec<ConfigMessageAnswer>)
        ensures
            r@.len() <= old(self).pending@.len(),
            final(self).pending@ == old(self).pending@.skip(r@.len() as int),
            forall|j: int| 0 <= j < r@.len() ==> (#[trigger] r@[j]).id@ == old(self).pending@[j]@,
            final(self).pending@.len() > 0 ==> !spec_has_answer(
                final(self).ready@,
                final(self).pending@[0]@,
            ),
            final(self).ready@.contains(answer) || exists|j: int|
                0 <= j < r@.len() && #[trigger] r@[j] == answer,
    {
        let ghost p0 = self.pending@;
        self.ready.push(answer);
        proof {
            assert(self.ready@[self.ready@.len() - 1] == answer);
            assert(self.ready@.contains(answer));
        }
        let mut out: Vec<ConfigMessageAnswer> = Vec::new();
        let mut blocked = false;
        proof {
            assert(self.pending@ =~= p0.skip(0));
        }
        while !blocked && self.pending.len() > 0
            invariant
                out@.len() <= p0.len(),
                p0 == old(self).pending@,
                self.pending@ == p0.skip(out@.len() as int),
                forall|j: int| 0 <= j < out@.len() ==> (#[trigger] out@[j]).id@ == p0[j]@,
                blocked ==> self.pending@.len() > 0 && !spec_has_answer(
                    self.ready@,
                    self.pending@[0]@,
                ),
                self.ready@.contains(answer) || exists|j: int|
                    0 <= j < out@.len() && #[trigger] out@[j] == answer,
            decreases self.pending@.len(), (if blocked { 0int } else { 1int }),
        {
            let ghost ready0 = self.ready@;
            let ghost had_answer = self.ready@.contains(answer);
            let head = self.pending[0].clone();
            match take_answer(&mut self.ready, &head) {
                Some(a) => {
                    proof {
                        assert(a.id@ == head@);
                        let k = spec_first_answer(ready0, head@);
                        assert(head@ == self.pending@[0]@);
                        assert(0 <= k < ready0.len());
                        assert(self.ready@ == ready0.remove(k));
                        assert(self.ready@ =~= ready0.subrange(0, k) + ready0.subrange(
                            k + 1,
                            ready0.len() as int,
                        ));
                        if had_answer {
                            let m = choose|m: int|
                                0 <= m < ready0.len() && #[trigger] ready0[m] == answer;
                            if m == k {
                                assert(a == answer);
                            } else if m < k {
                                assert(self.ready@[m] == ready0[m]);
                                assert(self.ready@.contains(answer));
                            } else {
                                assert(self.ready@[m - 1] == ready0[m]);
                                assert(self.ready@.contains(answer));
                            }
                        }
                    }
                    let ghost out0 = out@;
                    out.push(a);
                    let _first = self.pending.remove(0);
                    proof {
                        assert(self.pending@ =~= p0.skip(out@.len() as int));
                        assert(out@.last().id@ == p0[out@.len() - 1]@);
                        if out@.last() == answer {
                            assert(exists|j: int|
                                0 <= j < out@.len() && #[trigger] out@[j] == answer);
                        }
                        // an answer already emitted stays emitted
                        if exists|j: int| 0 <= j < out0.len() && #[trigger] out0[j] == answer {
                            let j = choose|j: int|
                                0 <= j < out0.len() && #[trigger] out0[j] == answer;
                            assert(out@[j] == answer);
                            assert(exists|j: int|
                                0 <= j < out@.len() && #[trigger] out@[j] == answer);
                        }
                    }
                },
                None => {
                    blocked = true;
                },
            }
        }
        out
    }
}

} // verus!
