//! The upgrade handoff: the serializable envelope a retiring master hands its
//! successor — workers by numeric descriptor, the configuration state, and
//! the allocator cursors — together with the close-on-exec bookkeeping that
//! decides which descriptors survive the exec. The fork, the exec and the
//! snapshot file live outside the library; the library decides what goes into
//! the envelope, what comes back out, and which descriptors to transfer.

use vstd::prelude::*;
use crate::channel::Channel;
use crate::command::CommandServer;
use crate::command::OrderMessage;
use crate::command::OrderMessageView;
use crate::command::RunState;
use crate::command::Worker;
use crate::state::ConfigState;

verus! {

/// The startup configuration a master carries across an upgrade.
pub struct Config {
    pub command_socket_path: String,
    pub command_buffer_size: usize,
    pub max_command_buffer_size: usize,
    pub log_level: String,
    pub log_target: String,
}

pub ghost struct ConfigView {
    pub command_socket_path: Seq<char>,
    pub command_buffer_size: usize,
    pub max_command_buffer_size: usize,
    pub log_level: Seq<char>,
    pub log_target: Seq<char>,
}

impl View for Config {
    type V = ConfigView;

    open spec fn view(&self) -> ConfigView {
        ConfigView {
            command_socket_path: self.command_socket_path@,
            command_buffer_size: self.command_buffer_size,
            max_command_buffer_size: self.max_command_buffer_size,
            log_level: self.log_level@,
            log_target: self.log_target@,
        }
    }
}

impl Clone for Config {
    fn clone(&self) -> (r: Self)
        ensures
            r@ == self@,
    {
        Config {
            command_socket_path: self.command_socket_path.clone(),
            command_buffer_size: self.command_buffer_size,
            max_command_buffer_size: self.max_command_buffer_size,
            log_level: self.log_level.clone(),
            log_target: self.log_target.clone(),
        }
    }
}

/// A worker as it rides the snapshot: the numeric descriptor the successor
/// will inherit, and everything needed to re-adopt the process.
pub struct SerializedWorker {
    pub fd: i32,
    pub pid: i32,
    pub id: u32,
    pub run_state: RunState,
    pub token: Option<usize>,
    pub queue: Vec<OrderMessage>,
}

impl SerializedWorker {
    /// The queue as its mathematical picture.
    pub open spec fn queue_view(&self) -> Seq<OrderMessageView> {
        self.queue@.map_values(|m: OrderMessage| m@)
    }
}

/// A snapshot entry corresponds to a live worker when every supervised
/// attribute, the descriptor number included, agrees.
pub open spec fn spec_matches_worker(sw: SerializedWorker, w: Worker) -> bool {
    &&& sw.fd == w.fd
    &&& sw.pid == w.pid
    &&& sw.id == w.id
    &&& sw.run_state == w.run_state
    &&& sw.token == w.token
    &&& sw.queue_view() == w.queue_view()
}

fn clone_queue(q: &Vec<OrderMessage>) -> (r: Vec<OrderMessage>)
    ensures
        r@.map_values(|m: OrderMessage| m@) == q@.map_values(|m: OrderMessage| m@),
{
    let mut r: Vec<OrderMessage> = Vec::new();
    let mut i: usize = 0;
    while i < q.len()
        invariant
            i <= q@.len(),
            r@.map_values(|m: OrderMessage| m@) =~= q@.map_values(|m: OrderMessage| m@).take(
                i as int,
            ),
        decreases q@.len() - i,
    {
        r.push(q[i].clone());
        proof {
            assert(r@.map_values(|m: OrderMessage| m@) =~= q@.map_values(
                |m: OrderMessage| m@,
            ).take(i as int).push(q@[i as int]@));
            assert(q@.map_values(|m: OrderMessage| m@).take(i as int + 1) =~= q@.map_values(
                |m: OrderMessage| m@,
            ).take(i as int).push(q@[i as int]@));
        }
        i += 1;
    }
    proof {
        assert(q@.map_values(|m: OrderMessage| m@).take(q@.len() as int) =~= q@.map_values(
            |m: OrderMessage| m@,
        ));
    }
    r
}

impl SerializedWorker {
    /// Captures a live worker for the snapshot: its channel's descriptor
    /// number, its identity and its unacknowledged queue, unchanged.
    pub fn from_proxy(proxy: &Worker) -> (r: SerializedWorker)
        ensures
            spec_matches_worker(r, *proxy),
    {
        SerializedWorker {
            fd: proxy.fd,
            pid: proxy.pid,
            id: proxy.id,
            run_state: proxy.run_state,
            token: proxy.token,
            queue: clone_queue(&proxy.queue),
        }
    }
}

/// The serializable handoff envelope a retiring master writes for its
/// successor: the control socket and worker descriptors by number, the
/// configuration, the authoritative state, and the allocator cursors.
pub struct UpgradeData {
    pub command: i32,
    pub config: Config,
    pub workers: Vec<SerializedWorker>,
    pub state: ConfigState,
    pub next_id: u32,
    pub token_count: usize,
}

impl UpgradeData {
    /// A healthy envelope: worker ids unique and below the preserved cursor,
    /// so the successor's allocator can never reuse one.
    pub open spec fn wf(&self) -> bool {
        &&& forall|i: int| 0 <= i < self.workers@.len() ==> (#[trigger] self.workers@[i]).id
            < self.next_id
        &&& forall|i: int, j: int| 0 <= i < j < self.workers@.len() ==> (
        #[trigger] self.workers@[i]).id != (#[trigger] self.workers@[j]).id
    }

    /// Decides the envelope's validity in executable code, so that a process
    /// reading an inherited snapshot can refuse a malformed one instead of
    /// assuming it healthy.
    pub fn is_well_formed(&self) -> (r: bool)
        ensures
            r == self.wf(),
    {
        let n = self.workers.len();
        let mut i: usize = 0;
        while i < n
            invariant
                i <= n,
                n == self.workers@.len(),
                forall|j: int| 0 <= j < i ==> (#[trigger] self.workers@[j]).id < self.next_id,
                forall|j: int, k: int| 0 <= j < k < i ==> (#[trigger] self.workers@[j]).id != (
                #[trigger] self.workers@[k]).id,
            decreases n - i,
        {
            if self.workers[i].id >= self.next_id {
                return false;
            }
            let mut j: usize = 0;
            while j < i
                invariant
                    j <= i < n,
                    n == self.workers@.len(),
                    forall|l: int| 0 <= l < j ==> (#[trigger] self.workers@[l]).id
                        != self.workers@[i as int].id,
                decreases i - j,
            {
                if self.workers[j].id == self.workers[i].id {
                    return false;
                }
                j += 1;
            }
            i += 1;
        }
        true
    }
}

impl CommandServer {
    /// Snapshots the live state into the handoff envelope: every worker is
    /// captured bit for bit — descriptor, identity, queue — and the
    /// allocator cursors ride along so the successor continues where the
    /// predecessor stopped.
    pub fn to_upgrade_data(&self, command_fd: i32, config: &Config) -> (r: UpgradeData)
        requires
            self.wf(),
        ensures
            r.wf(),
            r.command == command_fd,
            r.config@ == config@,
            r.next_id == self.next_id,
            r.token_count == self.token_count,
            r.state@ == self.state@,
            r.workers@.len() == self.workers@.len(),
            forall|i: int| 0 <= i < self.workers@.len() ==> spec_matches_worker(
                #[trigger] r.workers@[i],
                self.workers@[i],
            ),
    {
        let mut workers: Vec<SerializedWorker> = Vec::new();
        let mut i: usize = 0;
        let n = self.workers.len();
        while i < n
            invariant
                self.wf(),
                i <= n,
                n == self.workers@.len(),
                workers@.len() == i,
                forall|j: int| 0 <= j < i ==> spec_matches_worker(
                    #[trigger] workers@[j],
                    self.workers@[j],
                ),
            decreases n - i,
        {
            workers.push(SerializedWorker::from_proxy(&self.workers[i]));
            i += 1;
        }
        UpgradeData {
            command: command_fd,
            config: config.clone(),
            workers,
            state: self.state.clone(),
            next_id: self.next_id,
            token_count: self.token_count,
        }
    }

    /// Reconstructs a command server from an inherited envelope: the same
    /// workers under the same ids, pids, run states, tokens and queues, the
    /// same configuration state, and the allocator cursors exactly where the
    /// predecessor left them. Each worker gets a fresh channel around its
    /// inherited descriptor.
    pub fn from_upgrade_data(data: UpgradeData) -> (r: CommandServer)
        requires
            data.wf(),
        ensures
            r.wf(),
            r.state@ == data.state@,
            r.next_id == data.next_id,
            r.token_count == data.token_count,
            !r.upgrading,
            r.in_flight@.len() == 0,
            r.workers@.len() == data.workers@.len(),
            forall|i: int| 0 <= i < data.workers@.len() ==> spec_matches_worker(
                #[trigger] data.workers@[i],
                r.workers@[i],
            ),
            // each restored worker's channel starts fresh: empty buffers,
            // healthy, bounded by the inherited configuration
            forall|i: int|
                0 <= i < r.workers@.len() ==> {
                    let c = (#[trigger] r.workers@[i]).channel;
                    &&& c.send_buf@.len() == 0
                    &&& c.recv_buf@.len() == 0
                    &&& !c.poisoned
                    &&& c.max_buf_size == data.config.max_command_buffer_size
                },
    {
        let UpgradeData { command: _, config, mut workers, state, next_id, token_count } = data;
        let ghost dws = workers@;
        let mut live: Vec<Worker> = Vec::new();
        let ghost mut used: Set<u32> = Set::empty();
        let max_buf = config.max_command_buffer_size;
        let mut i: usize = 0;
        let n = workers.len();
        while i < n
            invariant
                i <= n,
                n == dws.len(),
                workers@ == dws.skip(i as int),
                live@.len() == i,
                forall|j: int| 0 <= j < i ==> spec_matches_worker(
                    #[trigger] dws[j],
                    live@[j],
                ),
                max_buf == data.config.max_command_buffer_size,
                forall|j: int|
                    0 <= j < i ==> {
                        let c = (#[trigger] live@[j]).channel;
                        &&& c.send_buf@.len() == 0
                        &&& c.recv_buf@.len() == 0
                        &&& !c.poisoned
                        &&& c.max_buf_size == max_buf
                    },
                forall|j: int| 0 <= j < i ==> used.contains((#[trigger] live@[j]).id),
                forall|id: u32| used.contains(id) ==> exists|j: int|
                    0 <= j < i && (#[trigger] dws[j]).id == id,
                forall|j: int| 0 <= j < dws.len() ==> (#[trigger] dws[j]).id < next_id,
                forall|j: int, k: int| 0 <= j < k < dws.len() ==> (#[trigger] dws[j]).id != (
                #[trigger] dws[k]).id,
            decreases n - i,
        {
            proof {
                assert(workers@[0] == dws[i as int]);
                assert(workers@.remove(0) =~= dws.skip(i as int + 1));
            }
            let sw = workers.remove(0);
            let worker = Worker {
                id: sw.id,
                pid: sw.pid,
                fd: sw.fd,
                run_state: sw.run_state,
                token: sw.token,
                queue: sw.queue,
                channel: Channel::new(max_buf),
            };
            live.push(worker);
            proof {
                used = used.insert(sw.id);
            }
            i += 1;
        }
        let restored = CommandServer {
            workers: live,
            next_id,
            token_count,
            initial_state: Ghost(state@),
            state,
            in_flight: Vec::new(),
            upgrading: false,
            used_ids: Ghost(used),
            history: Ghost(Seq::empty()),
        };
        proof {
            assert(crate::state::spec_replay(restored.initial_state@, restored.history@)
                == restored.state@);
            assert forall|j: int, k: int|
                0 <= j < k < restored.workers@.len() implies (
            #[trigger] restored.workers@[j]).id != (#[trigger] restored.workers@[k]).id by {
                assert(restored.workers@[j].id == dws[j].id);
                assert(restored.workers@[k].id == dws[k].id);
            }
            assert forall|id: u32| restored.used_ids@.contains(id) implies id < restored.next_id
                by {
                let j = choose|j: int| 0 <= j < dws.len() && (#[trigger] dws[j]).id == id;
                assert(dws[j].id < next_id);
            }
        }
        restored
    }
}

/// The round trip of an upgrade loses nothing: a command server restored
/// from the envelope a predecessor snapshotted carries the predecessor's
/// configuration state, worker set — ids, pids, descriptors, run states,
/// tokens — and per-worker queues, and both allocator cursors, unchanged.
pub proof fn lemma_upgrade_roundtrip(
    server: CommandServer,
    data: UpgradeData,
    restored: CommandServer,
)
    requires
        // what `to_upgrade_data` ensures of the snapshot
        data.state@ == server.state@,
        data.next_id == server.next_id,
        data.token_count == server.token_count,
        data.workers@.len() == server.workers@.len(),
        forall|i: int| 0 <= i < server.workers@.len() ==> spec_matches_worker(
            #[trigger] data.workers@[i],
            server.workers@[i],
        ),
        // what `from_upgrade_data` ensures of the restored server
        restored.state@ == data.state@,
        restored.next_id == data.next_id,
        restored.token_count == data.token_count,
        restored.workers@.len() == data.workers@.len(),
        forall|i: int| 0 <= i < data.workers@.len() ==> spec_matches_worker(
            #[trigger] data.workers@[i],
            restored.workers@[i],
        ),
    ensures
        restored.state@ == server.state@,
        restored.next_id == server.next_id,
        restored.token_count == server.token_count,
        restored.workers@.len() == server.workers@.len(),
        forall|i: int|
            0 <= i < server.workers@.len() ==> {
                let w = #[trigger] server.workers@[i];
                let f = restored.workers@[i];
                &&& f.id == w.id
                &&& f.pid == w.pid
                &&& f.fd == w.fd
                &&& f.run_state == w.run_state
                &&& f.token == w.token
                &&& f.queue_view() == w.queue_view()
            },
{
    assert forall|i: int| 0 <= i < server.workers@.len() implies {
        let w = #[trigger] server.workers@[i];
        let f = restored.workers@[i];
        &&& f.id == w.id
        &&& f.pid == w.pid
        &&& f.fd == w.fd
        &&& f.run_state == w.run_state
        &&& f.token == w.token
        &&& f.queue_view() == w.queue_view()
    } by {
        assert(spec_matches_worker(data.workers@[i], server.workers@[i]));
        assert(spec_matches_worker(data.workers@[i], restored.workers@[i]));
    }
}

/// The master's descriptor table as the orchestrator sees it: each owned
/// descriptor with its close-on-exec flag. The orchestrator is the only
/// component that flips the flag, in one pass over an explicit transfer set.
pub struct FdTable {
    pub entries: Vec<(i32, bool)>,
}

/// Whether a descriptor is in the transfer set.
fn fd_in(transfer: &Vec<i32>, fd: i32) -> (r: bool)
    ensures
        r == transfer@.contains(fd),
{
    let mut i: usize = 0;
    while i < transfer.len()
        invariant
            i <= transfer@.len(),
            forall|j: int| 0 <= j < i ==> transfer@[j] != fd,
        decreases transfer@.len() - i,
    {
        if transfer[i] == fd {
            return true;
        }
        i += 1;
    }
    false
}

impl FdTable {
    /// Clears close-on-exec on exactly the descriptors of the transfer set;
    /// every other descriptor keeps its flag. This opens the exec window: the
    /// transferred descriptors, and only those, will survive the exec.
    pub fn clear_for_transfer(&mut self, transfer: &Vec<i32>)
        ensures
            final(self).entries@.len() == old(self).entries@.len(),
            forall|k: int|
                0 <= k < old(self).entries@.len() ==> {
                    let e = #[trigger] old(self).entries@[k];
                    let f = final(self).entries@[k];
                    &&& f.0 == e.0
                    &&& f.1 == (e.1 && !transfer@.contains(e.0))
                },
    {
        let ghost s = self.entries@;
        let n = self.entries.len();
        let mut out: Vec<(i32, bool)> = Vec::new();
        let mut i: usize = 0;
        while i < n
            invariant
                i <= n,
                n == s.len(),
                s == self.entries@,
                out@.len() == i,
                forall|k: int|
                    0 <= k < i ==> {
                        let e = #[trigger] s[k];
                        let f = out@[k];
                        &&& f.0 == e.0
                        &&& f.1 == (e.1 && !transfer@.contains(e.0))
                    },
            decreases n - i,
        {
            let (fd, flag) = self.entries[i];
            let keep = flag && !fd_in(transfer, fd);
            out.push((fd, keep));
            i += 1;
        }
        self.entries = out;
    }

    /// Restores close-on-exec on every owned descriptor: the successor's
    /// first act after the handoff, closing the exec window.
    pub fn restore_cloexec(&mut self)
        ensures
            final(self).entries@.len() == old(self).entries@.len(),
            forall|k: int|
                0 <= k < old(self).entries@.len() ==> {
                    let e = #[trigger] old(self).entries@[k];
                    let f = final(self).entries@[k];
                    &&& f.0 == e.0
                    &&& f.1
                },
    {
        let ghost s = self.entries@;
        let n = self.entries.len();
        let mut out: Vec<(i32, bool)> = Vec::new();
        let mut i: usize = 0;
        while i < n
            invariant
                i <= n,
                n == s.len(),
                s == self.entries@,
                out@.len() == i,
                forall|k: int|
                    0 <= k < i ==> (#[trigger] out@[k]).0 == s[k].0 && out@[k].1,
            decreases n - i,
        {
            let (fd, _) = self.entries[i];
            out.push((fd, true));
            i += 1;
        }
        self.entries = out;
    }
}

/// The descriptors an upgrade must carry across the exec: the master control
/// socket, the snapshot file, the child end of the handoff pair, and every
/// worker channel, in that order.
pub fn transfer_set(data: &UpgradeData, snapshot_fd: i32, handoff_child_fd: i32) -> (r: Vec<i32>)
    ensures
        r@ == seq![data.command, snapshot_fd, handoff_child_fd] + data.workers@.map_values(
            |sw: SerializedWorker| sw.fd,
        ),
{
    let mut r: Vec<i32> = Vec::new();
    r.push(data.command);
    r.push(snapshot_fd);
    r.push(handoff_child_fd);
    let ghost prefix = seq![data.command, snapshot_fd, handoff_child_fd];
    let mut i: usize = 0;
    let n = data.workers.len();
    proof {
        assert(r@ =~= prefix + data.workers@.map_values(|sw: SerializedWorker| sw.fd).take(0));
    }
    while i < n
        invariant
            i <= n,
            n == data.workers@.len(),
            r@ == prefix + data.workers@.map_values(|sw: SerializedWorker| sw.fd).take(i as int),
            prefix == seq![data.command, snapshot_fd, handoff_child_fd],
        decreases n - i,
    {
        r.push(data.workers[i].fd);
        proof {
            assert(r@ =~= prefix + data.workers@.map_values(|sw: SerializedWorker| sw.fd).take(
                i as int + 1,
            ));
        }
        i += 1;
    }
    proof {
        assert(data.workers@.map_values(|sw: SerializedWorker| sw.fd).take(n as int)
            =~= data.workers@.map_values(|sw: SerializedWorker| sw.fd));
    }
    r
}

/// Outside the exec window every master-owned descriptor is close-on-exec:
/// starting from a table with every flag set, opening the window clears the
/// flag on the transfer set alone — every other descriptor keeps it — and
/// the successor's restoring pass sets every flag again.
pub proof fn lemma_transfer_window(
    before: FdTable,
    during: FdTable,
    after_restore: FdTable,
    transfer: Seq<i32>,
)
    requires
        forall|k: int| 0 <= k < before.entries@.len() ==> (#[trigger] before.entries@[k]).1,
        during.entries@.len() == before.entries@.len(),
        forall|k: int|
            0 <= k < before.entries@.len() ==> {
                let e = #[trigger] before.entries@[k];
                let f = during.entries@[k];
                &&& f.0 == e.0
                &&& f.1 == (e.1 && !transfer.contains(e.0))
            },
        after_restore.entries@.len() == during.entries@.len(),
        forall|k: int|
            0 <= k < during.entries@.len() ==> {
                let e = #[trigger] during.entries@[k];
                let f = after_restore.entries@[k];
                &&& f.0 == e.0
                &&& f.1
            },
    ensures
        // inside the window, exactly the descriptors outside the transfer set
        // keep close-on-exec
        forall|k: int|
            0 <= k < during.entries@.len() ==> (#[trigger] during.entries@[k]).1 == !transfer.contains(
                during.entries@[k].0,
            ),
        // after the restore, every descriptor is close-on-exec again
        forall|k: int| 0 <= k < after_restore.entries@.len() ==> (
        #[trigger] after_restore.entries@[k]).1,
{
    assert forall|k: int| 0 <= k < during.entries@.len() implies (
    #[trigger] during.entries@[k]).1 == !transfer.contains(during.entries@[k].0) by {
        assert(before.entries@[k].1);
        assert(during.entries@[k].0 == before.entries@[k].0);
    }
    assert forall|k: int| 0 <= k < after_restore.entries@.len() implies (
    #[trigger] after_restore.entries@[k]).1 by {
        assert(during.entries@[k].0 == after_restore.entries@[k].0);
    }
}

} // verus!
