//! The daemon's state, and the steps that many handlers share.
use crate::atoms::Atoms;
use crate::bytes::zeros;
use crate::names::NameTable;
use crate::objects::{
    allocated, bare_entry, entry_in, handles_changed, HandleEntry, Process, Thread, FD_TYPE_FILE,
};
use crate::session::Session;
use crate::side_tables::HandleSideTables;
use crate::table::Table;
use vstd::prelude::*;

verus! {

/// A kernel synchronisation object: its descriptor, and what it is.
#[derive(Clone, Copy, Debug, PartialEq, Eq)]
pub struct SyncObject {
    pub fd: i32,
    pub kind: u32,
}

/// An event of the daemon's own making behind a handle.
pub const SYNC_INTERNAL: u32 = 1;

pub const SYNC_EVENT: u32 = 2;

pub const SYNC_MUTEX: u32 = 3;

pub const SYNC_SEMAPHORE: u32 = 4;

/// Work for the outside world, in the order in which it is to be done. All of it is done before the
/// reply of the request that ordered it is written.
#[derive(Clone, Copy, Debug, PartialEq, Eq)]
pub enum Action {
    /// Set the event.
    SetEvent { object: i32 },
    /// Reset the event.
    ResetEvent { object: i32 },
    /// Set the event, and reset it at once.
    PulseEvent { object: i32 },
    /// Abandon the mutex on behalf of a thread that is gone.
    KillMutex { object: i32, owner: u32 },
    /// Close the descriptor.
    Close { fd: i32 },
    /// The table that held the object holds it no longer.
    Release { object: i32 },
    /// Write a wake-up to a client that waits.
    WakeUp { wait_fd: i32, cookie: u64, signaled: i32 },
    /// Have the thread look for system calls of its own.
    Interrupt { unix_pid: i32, unix_tid: i32 },
    /// Raise the flag that keeps a client's wait worker from writing.
    RaiseApcFlag { client_fd: i32 },
    /// Lower that flag.
    LowerApcFlag { client_fd: i32 },
    /// Set the timer to fire after so many nanoseconds; 0 stops it.
    ArmTimer { after_ns: u64 },
    /// Set bits in the message queue that stands at an offset of the session memory.
    QueueBits { offset: u64, bits: u32 },
    /// Clear bits in the message queue that stands at an offset of the session memory.
    ClearQueueBits { offset: u64, bits: u32 },
    /// Free the shared queue slot of a thread.
    FreeSlot { tid: u32 },
    /// Forget the registry notifications of a process.
    DropNotifications { pid: u32 },
    /// Write the registry to the prefix.
    SaveRegistry,
    /// Cut or extend the file to a length.
    Truncate { fd: i32, len: u64 },
}

/// Somebody waits for the end of a process or thread through a handle.
#[derive(Clone, Copy, Debug, PartialEq, Eq)]
pub struct ExitEvent {
    pub pid: u32,
    pub handle: u32,
    pub object: i32,
}

#[derive(Clone, Copy, Debug, PartialEq, Eq)]
pub struct CompletionMsg {
    pub ckey: u64,
    pub cvalue: u64,
    pub information: u64,
    pub status: u32,
}

/// A thread that waits for a message on a completion port.
#[derive(Clone, Copy, Debug, PartialEq, Eq)]
pub struct CompletionWaiter {
    pub client_fd: i32,
    pub pid: u32,
    pub wait_handle: u32,
}

pub struct Job {
    pub processes: Vec<u32>,
    pub num_processes: u32,
    pub total_processes: u32,
    pub limit_flags: u32,
    pub completion_port_handle: Option<u32>,
    pub completion_key: u64,
}

/// A kernel timer. The deadline is in nanoseconds of the monotonic clock.
#[derive(Clone, Copy, Debug, PartialEq, Eq)]
pub struct NtTimer {
    pub pid: u32,
    pub handle: u32,
    pub deadline: u64,
    pub period_ms: u32,
}

/// A read that found no data.
#[derive(Clone, Copy, Debug, PartialEq, Eq)]
pub struct PendingRead {
    pub fd: i32,
    pub max_bytes: usize,
    /// Where the caller wants to be told the outcome.
    pub iosb: u64,
    /// The thread that reads.
    pub tid: u32,
}

/// A read that a poll of the pipe completes.
#[derive(Clone, Copy, Debug, PartialEq, Eq)]
pub struct AsyncPipeRead {
    pub pipe_fd: i32,
    pub max_bytes: usize,
    pub pid: u32,
    pub wait_handle: u32,
    pub client_fd: i32,
}

/// The data of a completed read; no data means that the other end is closed.
pub struct CompletedPipeRead {
    pub client_fd: i32,
    pub data: Vec<u8>,
    pub pid: u32,
}

/// What a listening server wants to hear of a connection.
#[derive(Clone, Copy, Debug, PartialEq, Eq)]
pub struct PipeListenAsync {
    pub server_client_fd: i32,
    pub cookie: u64,
    pub user: u64,
    pub sb: u64,
    pub async_event: u32,
    pub user_arg: u64,
}

#[derive(Clone, Copy, Debug, PartialEq, Eq, Structural)]
pub enum PipeState {
    Listening,
    Connected,
}

/// One instance of a named pipe.
#[derive(Clone, Copy, Debug, PartialEq, Eq)]
pub struct NamedPipeInfo {
    pub server_pid: u32,
    pub server_handle: u32,
    pub client_data_fd: i32,
    pub state: PipeState,
    pub listen_event: Option<(u32, u32)>,
    pub listen_async: Option<PipeListenAsync>,
}

/// A wait that ends by its deadline alone.
#[derive(Clone, Copy, Debug, PartialEq, Eq)]
pub struct PendingWait {
    pub deadline: u64,
    pub client_fd: i32,
    pub cookie: u64,
}

/// A mapping that has a name.
#[derive(Clone, Copy, Debug, PartialEq, Eq)]
pub struct NamedObject {
    pub object_id: u64,
    pub fd: i32,
}

pub struct MappingInfo {
    pub fd: i32,
    pub size: u64,
    pub flags: u32,
    pub pe_image_info: Option<Vec<u8>>,
    pub nt_name: Option<Vec<u8>>,
    pub shared_fd: Option<i32>,
}

/// A handle through which a parent follows the start of a child.
#[derive(Clone, Copy, Debug, PartialEq, Eq)]
pub struct InfoHandle {
    pub target_pid: u32,
    pub parent_pid: u32,
    pub object_fd: i32,
}

/// A connected thread.
pub struct Client {
    pub process_id: u32,
    pub thread_id: u32,
    pub msg_fd: i32,
    pub reply_fd: Option<i32>,
    pub wait_fd: Option<i32>,
    pub pending_fd: Option<(i32, u32)>,
    pub is_phantom: bool,
    pub is_msg_primary: bool,
    pub current_wait_cookie: u64,
    pub suspend_cookie: u64,
    pub unix_pid: i32,
    pub unix_tid: i32,
    pub queue_locator: [u8; 16],
    pub queue_handle: u32,
    pub inflight_fds: Vec<(u32, i32, i32)>,
}

impl Client {
    /// A client that has just connected.
    pub fn new(msg_fd: i32) -> (c: Client)
        ensures
            c.process_id == 0,
            c.thread_id == 0,
            c.msg_fd == msg_fd,
            c.reply_fd is None,
            c.wait_fd is None,
            c.pending_fd is None,
            !c.is_phantom,
            c.is_msg_primary,
            c.current_wait_cookie == 0,
            c.suspend_cookie == 0,
            c.unix_pid == 0,
            c.unix_tid == 0,
            c.queue_locator@ == zeros(16),
            c.queue_handle == 0,
            c.inflight_fds@.len() == 0,
    {
        let queue_locator: [u8; 16] = [0u8; 16];
        assert(queue_locator@ =~= zeros(16));
        Client {
            process_id: 0,
            thread_id: 0,
            msg_fd,
            reply_fd: None,
            wait_fd: None,
            pending_fd: None,
            is_phantom: false,
            is_msg_primary: true,
            current_wait_cookie: 0,
            suspend_cookie: 0,
            unix_pid: 0,
            unix_tid: 0,
            queue_locator,
            queue_handle: 0,
            inflight_fds: Vec::new(),
        }
    }
}

/// Processes, threads, and the objects that handles stand for.
pub struct Objects {
    pub processes: Table<u32, Process>,
    pub threads: Table<u32, Thread>,
    pub next_object_id: u64,
    pub mappings: Table<u64, MappingInfo>,
    pub named_objects: NameTable<NamedObject>,
    pub image_views: Table<(u32, u64), u64>,
    pub info_handles: Table<u32, InfoHandle>,
    /// What drivers keep for objects: by process, manager and object handle.
    pub kernel_objects: Table<(u32, u32, u32), u64>,
}

impl Objects {
    pub open spec fn wf(&self) -> bool {
        &&& self.processes.wf()
        &&& self.threads.wf()
        &&& self.mappings.wf()
        &&& self.named_objects.wf()
        &&& self.image_views.wf()
        &&& self.info_handles.wf()
        &&& self.kernel_objects.wf()
    }
}

/// Synchronisation objects and all that waits through them.
///
/// Kernel objects that no argument shapes come from a stock that is filled up between requests: fresh
/// events by kind, fresh event counters, fresh socket pairs. An empty stock is a kernel that gave none.
pub struct Sync {
    /// The kernel has synchronisation objects.
    pub available: bool,
    pub auto_events: Vec<i32>,
    pub auto_set_events: Vec<i32>,
    pub manual_events: Vec<i32>,
    pub manual_set_events: Vec<i32>,
    pub eventfds: Vec<i32>,
    pub objects: Table<(u32, u32), SyncObject>,
    pub recyclable: Table<(u32, u32), ()>,
    pub created: u64,
    pub named: NameTable<SyncObject>,
    pub process_exit: Table<u32, Vec<ExitEvent>>,
    pub thread_exit: Table<i32, Vec<ExitEvent>>,
    /// The events by which clients cancel their own waits. The daemon never sets one.
    pub alerts: Table<i32, i32>,
    /// The events by which the daemon ends a wait that it makes for a client.
    pub interrupts: Table<i32, i32>,
    /// The clients that have a flag which keeps their wait worker from writing.
    pub apc_flags: Table<i32, ()>,
    /// Events to set once a client has acknowledged its system call.
    pub deferred: Table<i32, Vec<(u32, u32)>>,
    /// System calls that a client is still to be told of.
    pub kernel_apcs: Table<i32, Vec<[u8; 28]>>,
    pub idle_events: Table<u32, i32>,
    pub pending_wakes: Table<i32, Vec<(u64, i32)>>,
    pub shutdown_event: Option<i32>,
    /// Waits that end by deadline, the nearest first.
    pub waits: Vec<PendingWait>,
}

impl Sync {
    pub open spec fn wf(&self) -> bool {
        &&& self.objects.wf()
        &&& self.recyclable.wf()
        &&& self.named.wf()
        &&& self.process_exit.wf()
        &&& self.thread_exit.wf()
        &&& self.alerts.wf()
        &&& self.interrupts.wf()
        &&& self.apc_flags.wf()
        &&& self.deferred.wf()
        &&& self.kernel_apcs.wf()
        &&& self.idle_events.wf()
        &&& self.pending_wakes.wf()
        &&& by_deadline(self.waits@)
    }

    /// The stock of fresh events of one kind.
    pub open spec fn stock(&self, manual: bool, signaled: bool) -> Seq<i32> {
        if manual {
            if signaled {
                self.manual_set_events@
            } else {
                self.manual_events@
            }
        } else {
            if signaled {
                self.auto_set_events@
            } else {
                self.auto_events@
            }
        }
    }
}

/// Waits stand in the order of their deadlines.
pub open spec fn by_deadline(w: Seq<PendingWait>) -> bool {
    forall|i: int, j: int| 0 <= i < j < w.len() ==> #[trigger] w[i].deadline <= #[trigger] w[j].deadline
}

/// Completion ports, jobs and timers.
pub struct Ports {
    pub queues: Table<u32, Vec<CompletionMsg>>,
    pub waiters: Table<u32, Vec<CompletionWaiter>>,
    pub cache: Table<i32, CompletionMsg>,
    pub jobs: Table<u64, Job>,
    pub process_job: Table<u32, u64>,
    pub timers: Vec<NtTimer>,
}

impl Ports {
    pub open spec fn wf(&self) -> bool {
        &&& self.queues.wf()
        &&& self.waiters.wf()
        &&& self.cache.wf()
        &&& self.jobs.wf()
        &&& self.process_job.wf()
    }
}

/// Named pipes, and reads that wait for data.
pub struct Pipes {
    pub named: NameTable<Vec<NamedPipeInfo>>,
    /// The processes and handles through which clients wait for a pipe to listen.
    pub waiters: NameTable<Vec<(u32, u32)>>,
    pub unnamed_clients: Table<u32, u32>,
    /// The stock of fresh socket pairs.
    pub socket_pairs: Vec<(i32, i32)>,
    pub pending_reads: Table<(u32, u64), PendingRead>,
    pub completed_ioctls: Table<(u32, u64), u32>,
    pub reads: Vec<AsyncPipeRead>,
    pub completed_reads: Vec<CompletedPipeRead>,
}

impl Pipes {
    pub open spec fn wf(&self) -> bool {
        &&& self.named.wf()
        &&& self.waiters.wf()
        &&& self.unnamed_clients.wf()
        &&& self.pending_reads.wf()
        &&& self.completed_ioctls.wf()
    }
}

/// What one thread's windows and input hold.
pub struct WindowState {
    pub style: u32,
    pub ex_style: u32,
    /// As the client sent it.
    pub is_unicode: u16,
    pub owner: u32,
    pub parent: u32,
    pub tid: u32,
    pub id: u64,
    pub instance: u64,
    pub user_data: u64,
    pub dpi_context: u32,
    pub window_rect: [u8; 16],
    pub client_rect: [u8; 16],
    pub visible_rect: [u8; 16],
    pub surface_rect: [u8; 16],
    pub paint_flags: u16,
    pub needs_paint: bool,
    pub window_text: Vec<u8>,
    pub extra_bytes: Vec<u8>,
}

/// Windows, and what threads and windows keep beside them.
pub struct Desktop {
    pub window_states: Table<u32, WindowState>,
    pub window_properties: Table<(u32, u32), u64>,
    pub clipboard_listeners: Table<u32, ()>,
    pub timers_pending: Table<u32, ()>,
    pub timers_expired: Table<u32, ()>,
    pub caret_state: Table<u32, ()>,
    pub next_timer_ids: Table<u32, u64>,
    pub thread_quit_state: Table<u32, (i32, bool)>,
    pub winstation_names: Table<u32, Vec<u8>>,
    pub process_winstations: Table<u32, u32>,
    pub default_winstation: u32,
    pub desktop_top_window: u32,
    pub desktop_msg_window: u32,
    pub desktop_ready: bool,
    pub monitor_serial: u64,
    pub monitor_rect: [u8; 16],
}

impl Desktop {
    pub open spec fn wf(&self) -> bool {
        &&& self.window_states.wf()
        &&& self.window_properties.wf()
        &&& self.clipboard_listeners.wf()
        &&& self.timers_pending.wf()
        &&& self.timers_expired.wf()
        &&& self.caret_state.wf()
        &&& self.next_timer_ids.wf()
        &&& self.thread_quit_state.wf()
        &&& self.winstation_names.wf()
        &&& self.process_winstations.wf()
    }
}

/// Connections.
pub struct Clients {
    pub clients: Table<i32, Client>,
    pub msg_fd_map: Table<i32, i32>,
    /// Descriptors that a process has sent and no request has taken yet.
    pub inflight: Table<u32, Vec<(u32, i32, i32)>>,
    pub pipe_watches: Vec<(i32, i32)>,
    pub queue_watches: Vec<(i32, u64, u32, i32)>,
    pub queue_rearms: Vec<i32>,
    pub system_pids: Table<u32, ()>,
    pub peak: usize,
    pub total_requests: u64,
    pub linger_deadline: Option<u64>,
    pub linger_secs: u64,
}

impl Clients {
    pub open spec fn wf(&self) -> bool {
        &&& self.clients.wf()
        &&& self.msg_fd_map.wf()
        &&& self.inflight.wf()
        &&& self.system_pids.wf()
    }
}

/// The daemon.
pub struct EventLoop {
    pub objects: Objects,
    pub sync: Sync,
    pub ports: Ports,
    pub pipes: Pipes,
    pub side_tables: HandleSideTables,
    pub desktop: Desktop,
    pub clients: Clients,
    pub atoms: Atoms,
    pub session: Session,
    pub user_sid: Vec<u8>,
    pub outbox: Vec<Action>,
}

/// The process of a client, or 0.
pub open spec fn pid_of(c: Map<i32, Client>, fd: i32) -> u32 {
    if c.contains_key(fd) {
        c[fd].process_id
    } else {
        0
    }
}

/// The thread of a client, or 0.
pub open spec fn tid_of(c: Map<i32, Client>, fd: i32) -> u32 {
    if c.contains_key(fd) {
        c[fd].thread_id
    } else {
        0
    }
}

/// The counter's next value; it starts again behind the last.
pub open spec fn bumped(n: u64) -> u64 {
    if n == u64::MAX {
        0
    } else {
        (n + 1) as u64
    }
}

pub fn bump(n: u64) -> (r: u64)
    ensures
        r == bumped(n),
{
    if n == u64::MAX {
        0
    } else {
        n + 1
    }
}

/// The actions after the object behind a handle was set, where there is one.
pub open spec fn with_signal(
    objects: Map<(u32, u32), SyncObject>,
    out: Seq<Action>,
    pid: u32,
    handle: u32,
) -> Seq<Action> {
    if objects.contains_key((pid, handle)) {
        out.push(Action::SetEvent { object: objects[(pid, handle)].fd })
    } else {
        out
    }
}

/// The entry of a handle that is backed by an event counter.
pub open spec fn waitable_entry(object_id: u64, efd: i32) -> HandleEntry {
    HandleEntry {
        object_id,
        fd: Some(efd),
        obj_type: FD_TYPE_FILE,
        access: 0x001F_0003,
        options: 0x20,
    }
}

/// The object number that was taken, and nothing of the objects but processes changed.
pub open spec fn took_number(before: Objects, after: Objects) -> bool {
    after == (Objects {
        processes: after.processes,
        next_object_id: bumped(before.next_object_id),
        ..before
    })
}

/// A client's process was given a handle backed by an event counter; 0 where that failed.
pub open spec fn waitable(before: EventLoop, after: EventLoop, client_fd: i32, handle: u32) -> bool {
    let pid = pid_of(before.clients.clients@, client_fd);
    let stock = before.sync.eventfds@;
    let oid = before.objects.next_object_id;
    &&& took_number(before.objects, after.objects)
    &&& after == (EventLoop {
        objects: after.objects,
        sync: Sync { eventfds: after.sync.eventfds, ..before.sync },
        outbox: after.outbox,
        ..before
    })
    &&& if stock.len() == 0 {
        &&& handle == 0
        &&& after.sync.eventfds@ == stock
        &&& after.objects.processes@ == before.objects.processes@
        &&& after.outbox@ == before.outbox@
    } else {
        &&& after.sync.eventfds@ == stock.drop_last()
        &&& if pid != 0 && before.objects.processes@.contains_key(pid) {
            &&& allocated(
                before.objects.processes@,
                after.objects.processes@,
                pid,
                waitable_entry(oid, stock.last()),
                handle,
            )
            &&& after.outbox@ == before.outbox@
        } else {
            &&& handle == 0
            &&& after.objects.processes@ == before.objects.processes@
            &&& after.outbox@ == before.outbox@.push(Action::Close { fd: stock.last() })
        }
    }
}

/// A client's process was given a handle to a new object without a descriptor; 0 where that failed.
pub open spec fn new_object(before: EventLoop, after: EventLoop, client_fd: i32, handle: u32) -> bool {
    let pid = pid_of(before.clients.clients@, client_fd);
    &&& took_number(before.objects, after.objects)
    &&& after == (EventLoop { objects: after.objects, ..before })
    &&& if pid != 0 {
        allocated(
            before.objects.processes@,
            after.objects.processes@,
            pid,
            bare_entry(before.objects.next_object_id),
            handle,
        )
    } else {
        handle == 0 && after.objects.processes@ == before.objects.processes@
    }
}

/// Only the sync tables may differ, and of them the stocks, the objects and their count.
pub open spec fn only_sync(before: EventLoop, after: EventLoop) -> bool {
    after == (EventLoop { sync: after.sync, ..before })
}

/// A stock that may have lost its last.
pub open spec fn less(s: Seq<i32>, taken: bool) -> Seq<i32> {
    if taken {
        s.drop_last()
    } else {
        s
    }
}

/// The four stocks of events, one of which may have lost its last.
pub open spec fn stocks_after(before: Sync, after: Sync, manual: bool, signaled: bool, taken: bool) -> bool {
    &&& after.auto_events@ == less(before.auto_events@, taken && !manual && !signaled)
    &&& after.auto_set_events@ == less(before.auto_set_events@, taken && !manual && signaled)
    &&& after.manual_events@ == less(before.manual_events@, taken && manual && !signaled)
    &&& after.manual_set_events@ == less(before.manual_set_events@, taken && manual && signaled)
}

/// A fresh event was taken from the stock, where it held one.
pub open spec fn took_event(before: Sync, after: Sync, manual: bool, signaled: bool, r: Option<i32>) -> bool {
    let stock = before.stock(manual, signaled);
    let given = before.available && stock.len() > 0;
    &&& after == (Sync {
        auto_events: after.auto_events,
        auto_set_events: after.auto_set_events,
        manual_events: after.manual_events,
        manual_set_events: after.manual_set_events,
        ..before
    })
    &&& r == (if given {
        Some(stock.last())
    } else {
        None
    })
    &&& stocks_after(before, after, manual, signaled, given)
}

/// A handle was taken out of a process.
pub open spec fn handle_closed(
    before: Map<u32, Process>,
    after: Map<u32, Process>,
    pid: u32,
    handle: u32,
) -> bool {
    if before.contains_key(pid) {
        &&& handles_changed(before, after, pid)
        &&& after[pid].handles@ == before[pid].handles@.remove(handle / 4)
        &&& after[pid].handles.used() == before[pid].handles.used()
    } else {
        after == before
    }
}

/// The actions after the objects behind several handles were set, one after the other.
pub open spec fn with_signals(
    objects: Map<(u32, u32), SyncObject>,
    out: Seq<Action>,
    events: Seq<(u32, u32)>,
) -> Seq<Action>
    decreases events.len(),
{
    if events.len() == 0 {
        out
    } else {
        with_signal(
            objects,
            with_signals(objects, out, events.drop_last()),
            events.last().0,
            events.last().1,
        )
    }
}

/// A client's thread waits under a cookie from now on.
pub open spec fn with_cookie(c: Map<i32, Client>, fd: i32, cookie: u64) -> Map<i32, Client> {
    if c.contains_key(fd) {
        c.insert(fd, Client { current_wait_cookie: cookie, ..c[fd] })
    } else {
        c
    }
}

/// The last event of a stock, where the kernel has given one.
pub open spec fn next_event(s: Sync, manual: bool, signaled: bool) -> Option<i32> {
    if s.available && s.stock(manual, signaled).len() > 0 {
        Some(s.stock(manual, signaled).last())
    } else {
        None
    }
}

/// A client's event of a table: the one that it has, a fresh one, or -1.
pub open spec fn client_event(held: Map<i32, i32>, fd: i32, fresh: Option<i32>) -> i32 {
    if held.contains_key(fd) {
        held[fd]
    } else {
        match fresh {
            Some(e) => e,
            None => -1i32,
        }
    }
}

/// The table after a client's event was asked for.
pub open spec fn with_client_event(held: Map<i32, i32>, fd: i32, fresh: Option<i32>) -> Map<i32, i32> {
    match fresh {
        Some(e) => if held.contains_key(fd) {
            held
        } else {
            held.insert(fd, e)
        },
        None => held,
    }
}

impl EventLoop {
    pub open spec fn wf(&self) -> bool {
        &&& self.objects.wf()
        &&& self.sync.wf()
        &&& self.ports.wf()
        &&& self.pipes.wf()
        &&& self.side_tables.wf()
        &&& self.desktop.wf()
        &&& self.clients.wf()
        &&& self.atoms.wf()
    }

    /// The process of a client, or 0.
    pub fn client_pid(&self, client_fd: i32) -> (r: u32)
        requires
            self.wf(),
        ensures
            r == pid_of(self.clients.clients@, client_fd),
    {
        match self.clients.clients.get(client_fd) {
            Some(c) => c.process_id,
            None => 0,
        }
    }

    /// The thread of a client that has one.
    pub fn client_thread_id(&self, client_fd: i32) -> (r: Option<u32>)
        requires
            self.wf(),
        ensures
            r == (if tid_of(self.clients.clients@, client_fd) != 0 {
                Some(tid_of(self.clients.clients@, client_fd))
            } else {
                None
            }),
    {
        match self.clients.clients.get(client_fd) {
            Some(c) => if c.thread_id != 0 {
                Some(c.thread_id)
            } else {
                None
            },
            None => None,
        }
    }

    /// Takes the next object number.
    pub fn alloc_object_id(&mut self) -> (r: u64)
        ensures
            r == old(self).objects.next_object_id,
            *final(self) == (EventLoop {
                objects: Objects { next_object_id: bumped(r), ..old(self).objects },
                ..*old(self)
            }),
    {
        let r: u64 = self.objects.next_object_id;
        self.objects.next_object_id = bump(r);
        r
    }

    /// The entry of a handle in a process.
    pub fn handle_entry(&self, pid: u32, handle: u32) -> (r: Option<HandleEntry>)
        requires
            self.wf(),
        ensures
            r == entry_in(self.objects.processes@, pid, handle),
    {
        match self.objects.processes.get(pid) {
            Some(p) => p.handles.get(handle),
            None => None,
        }
    }

    /// Takes a fresh event from the stock. Events are never used twice: a client may still hold a
    /// descriptor of one that is gone from the tables.
    pub fn get_or_create_event(&mut self, manual: bool, signaled: bool) -> (r: Option<i32>)
        requires
            old(self).wf(),
        ensures
            final(self).wf(),
            only_sync(*old(self), *final(self)),
            took_event(old(self).sync, final(self).sync, manual, signaled, r),
    {
        if !self.sync.available {
            return None;
        }
        if manual {
            if signaled {
                self.sync.manual_set_events.pop()
            } else {
                self.sync.manual_events.pop()
            }
        } else {
            if signaled {
                self.sync.auto_set_events.pop()
            } else {
                self.sync.auto_events.pop()
            }
        }
    }

    /// Puts an event of the daemon's own behind a handle.
    pub fn insert_recyclable_event(&mut self, pid: u32, handle: u32, fd: i32, kind: u32)
        requires
            old(self).wf(),
        ensures
            final(self).wf(),
            only_sync(*old(self), *final(self)),
            final(self).sync == (Sync {
                objects: final(self).sync.objects,
                recyclable: final(self).sync.recyclable,
                created: bumped(old(self).sync.created),
                ..old(self).sync
            }),
            final(self).sync.objects@ == old(self).sync.objects@.insert(
                (pid, handle),
                SyncObject { fd, kind },
            ),
            final(self).sync.recyclable@ == old(self).sync.recyclable@.insert((pid, handle), ()),
    {
        self.sync.objects.insert((pid, handle), SyncObject { fd, kind });
        self.sync.recyclable.insert((pid, handle), ());
        self.sync.created = bump(self.sync.created);
    }

    /// Sets the object behind a handle, where there is one.
    pub fn signal(&mut self, pid: u32, handle: u32)
        requires
            old(self).wf(),
        ensures
            final(self).wf(),
            *final(self) == (EventLoop { outbox: final(self).outbox, ..*old(self) }),
            final(self).outbox@ == with_signal(
                old(self).sync.objects@,
                old(self).outbox@,
                pid,
                handle,
            ),
    {
        match self.sync.objects.get((pid, handle)) {
            Some(o) => {
                let object: i32 = o.fd;
                self.outbox.push(Action::SetEvent { object });
            },
            None => {},
        }
    }

    /// The event by which a client cancels its own waits.
    pub fn get_or_create_alert(&mut self, client_fd: i32) -> (r: i32)
        requires
            old(self).wf(),
        ensures
            final(self).wf(),
            *final(self) == (EventLoop {
                sync: Sync {
                    alerts: final(self).sync.alerts,
                    auto_events: final(self).sync.auto_events,
                    auto_set_events: final(self).sync.auto_set_events,
                    manual_events: final(self).sync.manual_events,
                    manual_set_events: final(self).sync.manual_set_events,
                    ..old(self).sync
                },
                ..*old(self)
            }),
            ({
                let held = old(self).sync.alerts@;
                let fresh = next_event(old(self).sync, true, false);
                &&& r == client_event(held, client_fd, fresh)
                &&& final(self).sync.alerts@ == with_client_event(held, client_fd, fresh)
                &&& stocks_after(
                    old(self).sync,
                    final(self).sync,
                    true,
                    false,
                    !held.contains_key(client_fd) && fresh is Some,
                )
            }),
    {
        match self.sync.alerts.get(client_fd) {
            Some(e) => {
                return *e;
            },
            None => {},
        }
        match self.get_or_create_event(true, false) {
            Some(e) => {
                self.sync.alerts.insert(client_fd, e);
                e
            },
            None => -1,
        }
    }

    /// The event by which the daemon ends a wait that it makes for a client.
    pub fn get_or_create_worker_interrupt(&mut self, client_fd: i32) -> (r: i32)
        requires
            old(self).wf(),
        ensures
            final(self).wf(),
            *final(self) == (EventLoop {
                sync: Sync {
                    interrupts: final(self).sync.interrupts,
                    auto_events: final(self).sync.auto_events,
                    auto_set_events: final(self).sync.auto_set_events,
                    manual_events: final(self).sync.manual_events,
                    manual_set_events: final(self).sync.manual_set_events,
                    ..old(self).sync
                },
                ..*old(self)
            }),
            ({
                let held = old(self).sync.interrupts@;
                let fresh = next_event(old(self).sync, false, false);
                &&& r == client_event(held, client_fd, fresh)
                &&& final(self).sync.interrupts@ == with_client_event(held, client_fd, fresh)
                &&& stocks_after(
                    old(self).sync,
                    final(self).sync,
                    false,
                    false,
                    !held.contains_key(client_fd) && fresh is Some,
                )
            }),
    {
        match self.sync.interrupts.get(client_fd) {
            Some(e) => {
                return *e;
            },
            None => {},
        }
        match self.get_or_create_event(false, false) {
            Some(e) => {
                self.sync.interrupts.insert(client_fd, e);
                e
            },
            None => -1,
        }
    }

    /// Sets the objects behind several handles, in order.
    pub fn signal_all(&mut self, events: &Vec<(u32, u32)>)
        requires
            old(self).wf(),
        ensures
            final(self).wf(),
            *final(self) == (EventLoop { outbox: final(self).outbox, ..*old(self) }),
            final(self).outbox@ == with_signals(old(self).sync.objects@, old(self).outbox@, events@),
    {
        let mut i: usize = 0;
        while i < events.len()
            invariant
                i <= events@.len(),
                self.wf(),
                *self == (EventLoop { outbox: self.outbox, ..*old(self) }),
                self.outbox@ == with_signals(
                    old(self).sync.objects@,
                    old(self).outbox@,
                    events@.take(i as int),
                ),
            decreases events@.len() - i,
        {
            let (pid, handle) = events[i];
            self.signal(pid, handle);
            i = i + 1;
            assert(events@.take(i as int).drop_last() =~= events@.take(i - 1));
        }
        assert(events@.take(i as int) =~= events@);
    }

    /// Takes a handle out of a process.
    pub fn close_in(&mut self, pid: u32, handle: u32)
        requires
            old(self).wf(),
        ensures
            final(self).wf(),
            *final(self) == (EventLoop {
                objects: Objects { processes: final(self).objects.processes, ..old(self).objects },
                ..*old(self)
            }),
            handle_closed(
                old(self).objects.processes@,
                final(self).objects.processes@,
                pid,
                handle,
            ),
    {
        match self.objects.processes.get_mut(pid) {
            Some(p) => {
                let _ = p.handles.close(handle);
            },
            None => {},
        }
    }

    /// Notes the cookie under which a client's thread waits.
    pub fn note_cookie(&mut self, client_fd: i32, cookie: u64)
        requires
            old(self).wf(),
        ensures
            final(self).wf(),
            *final(self) == (EventLoop {
                clients: Clients { clients: final(self).clients.clients, ..old(self).clients },
                ..*old(self)
            }),
            final(self).clients.clients@ == with_cookie(old(self).clients.clients@, client_fd, cookie),
    {
        match self.clients.clients.get_mut(client_fd) {
            Some(c) => {
                c.current_wait_cookie = cookie;
            },
            None => {},
        }
    }

    /// Gives an entry a handle in a process; 0 where there is no such process or no room.
    pub fn allocate_in(&mut self, pid: u32, e: HandleEntry) -> (handle: u32)
        requires
            old(self).wf(),
        ensures
            final(self).wf(),
            *final(self) == (EventLoop {
                objects: Objects { processes: final(self).objects.processes, ..old(self).objects },
                ..*old(self)
            }),
            allocated(
                old(self).objects.processes@,
                final(self).objects.processes@,
                pid,
                e,
                handle,
            ),
    {
        match self.objects.processes.get_mut(pid) {
            Some(p) => p.handles.allocate_full(e),
            None => 0,
        }
    }

    /// Gives a client's process a handle backed by an event counter.
    pub fn alloc_waitable_handle_for_client(&mut self, client_fd: i32) -> (handle: u32)
        requires
            old(self).wf(),
        ensures
            final(self).wf(),
            waitable(*old(self), *final(self), client_fd, handle),
    {
        let oid: u64 = self.alloc_object_id();
        let efd: i32 = match self.sync.eventfds.pop() {
            Some(fd) => fd,
            None => {
                return 0;
            },
        };
        let pid: u32 = self.client_pid(client_fd);
        if pid != 0 && self.objects.processes.contains_key(pid) {
            let e = HandleEntry::with_fd(oid, efd, FD_TYPE_FILE, 0x001F_0003, 0x20);
            return self.allocate_in(pid, e);
        }
        self.outbox.push(Action::Close { fd: efd });
        0
    }

    /// Gives a client's process a handle to an object without a descriptor.
    pub fn alloc_handle_for_client(&mut self, client_fd: i32, object_id: u64) -> (handle: u32)
        requires
            old(self).wf(),
        ensures
            final(self).wf(),
            *final(self) == (EventLoop {
                objects: Objects { processes: final(self).objects.processes, ..old(self).objects },
                ..*old(self)
            }),
            ({
                let pid = pid_of(old(self).clients.clients@, client_fd);
                if pid != 0 {
                    allocated(
                        old(self).objects.processes@,
                        final(self).objects.processes@,
                        pid,
                        bare_entry(object_id),
                        handle,
                    )
                } else {
                    handle == 0 && final(self).objects.processes@ == old(self).objects.processes@
                }
            }),
    {
        let pid: u32 = self.client_pid(client_fd);
        if pid != 0 {
            let e = HandleEntry::bare(object_id);
            self.allocate_in(pid, e)
        } else {
            0
        }
    }

    /// Gives a client's process a handle to a new object without a descriptor.
    pub fn new_object_for_client(&mut self, client_fd: i32) -> (handle: u32)
        requires
            old(self).wf(),
        ensures
            final(self).wf(),
            new_object(*old(self), *final(self), client_fd, handle),
    {
        let oid: u64 = self.alloc_object_id();
        self.alloc_handle_for_client(client_fd, oid)
    }
}

/// The numbers of the kinds of objects that can be waited for.
pub proof fn lemma_kinds_of_objects()
    ensures
        SYNC_INTERNAL == 1 && SYNC_EVENT == 2 && SYNC_MUTEX == 3 && SYNC_SEMAPHORE == 4,
{
}

/// A handle that is backed by an event counter stands for a new object; the counter is the latest of the
/// stock, and it is closed where the client has no process.
pub proof fn lemma_waitable_handle(before: EventLoop, after: EventLoop, client_fd: i32, handle: u32)
    requires
        waitable(before, after, client_fd, handle),
    ensures
        ({
            let pid = pid_of(before.clients.clients@, client_fd);
            let stock = before.sync.eventfds@;
            &&& stock.len() == 0 ==> handle == 0
            &&& stock.len() > 0 ==> after.sync.eventfds@ == stock.drop_last()
            &&& handle != 0 ==> (entry_in(after.objects.processes@, pid, handle) matches Some(e) && e.fd == Some(
                stock.last(),
            ) && e.object_id == before.objects.next_object_id && e.obj_type == 1 && e.access == 0x1F_0003
                && e.options == 0x20)
            &&& stock.len() > 0 && (pid == 0 || !before.objects.processes@.contains_key(pid)) ==> handle == 0
                && after.outbox@ == before.outbox@.push(Action::Close { fd: stock.last() })
            &&& after.objects.next_object_id == bumped(before.objects.next_object_id)
        }),
{
}

/// A new object without a descriptor has the next number, and its handle stands for it.
pub proof fn lemma_object_handle(before: EventLoop, after: EventLoop, client_fd: i32, handle: u32)
    requires
        new_object(before, after, client_fd, handle),
    ensures
        ({
            let pid = pid_of(before.clients.clients@, client_fd);
            &&& pid == 0 ==> handle == 0
            &&& handle != 0 ==> (entry_in(after.objects.processes@, pid, handle) matches Some(e) && e.fd is None
                && e.object_id == before.objects.next_object_id)
            &&& before.objects.next_object_id < u64::MAX ==> after.objects.next_object_id
                == before.objects.next_object_id + 1
        }),
{
}

/// An event is taken from the stock of its kind, the latest first, and from no other; none is given where the
/// kernel has no such things.
pub proof fn lemma_event_from_stock(before: Sync, after: Sync, r: Option<i32>)
    ensures
        took_event(before, after, false, false, r) ==> (r matches Some(e) ==> before.available && e
            == before.auto_events@.last() && after.auto_events@ == before.auto_events@.drop_last()
            && after.auto_set_events@ == before.auto_set_events@ && after.manual_events@ == before.manual_events@
            && after.manual_set_events@ == before.manual_set_events@),
        took_event(before, after, false, true, r) ==> (r matches Some(e) ==> before.available && e
            == before.auto_set_events@.last() && after.auto_set_events@ == before.auto_set_events@.drop_last()
            && after.auto_events@ == before.auto_events@),
        took_event(before, after, true, false, r) ==> (r matches Some(e) ==> before.available && e
            == before.manual_events@.last() && after.manual_events@ == before.manual_events@.drop_last()
            && after.manual_set_events@ == before.manual_set_events@),
        took_event(before, after, true, true, r) ==> (r matches Some(e) ==> before.available && e
            == before.manual_set_events@.last() && after.manual_set_events@
            == before.manual_set_events@.drop_last() && after.manual_events@ == before.manual_events@),
        took_event(before, after, true, false, None) ==> !before.available || before.manual_events@.len() == 0,
{
}

/// A client keeps the event that it has; one that it is given is its own from then on; without one to be had
/// the answer is -1.
pub proof fn lemma_event_of_client(held: Map<i32, i32>, fd: i32, fresh: Option<i32>)
    ensures
        held.contains_key(fd) ==> client_event(held, fd, fresh) == held[fd] && with_client_event(held, fd, fresh)
            == held,
        !held.contains_key(fd) ==> (fresh matches Some(e) ==> client_event(held, fd, fresh) == e
            && with_client_event(held, fd, fresh) == held.insert(fd, e)),
        !held.contains_key(fd) && fresh is None ==> client_event(held, fd, fresh) == -1 && with_client_event(
            held,
            fd,
            fresh,
        ) == held,
{
}

/// Setting the object behind a handle sets that object and no other; without an object nothing happens.
pub proof fn lemma_object_is_set(objects: Map<(u32, u32), SyncObject>, out: Seq<Action>, pid: u32, handle: u32)
    ensures
        objects.contains_key((pid, handle)) ==> with_signal(objects, out, pid, handle).len() == out.len() + 1
            && with_signal(objects, out, pid, handle).last() == (Action::SetEvent {
            object: objects[(pid, handle)].fd,
        }),
        !objects.contains_key((pid, handle)) ==> with_signal(objects, out, pid, handle) == out,
{
}

/// Numbers count up by one and start again behind the last; a client that is not connected has no process
/// and no thread.
pub proof fn lemma_numbers_count_up(n: u64, c: Map<i32, Client>, fd: i32)
    ensures
        n < u64::MAX ==> bumped(n) == n + 1,
        bumped(u64::MAX) == 0,
        c.contains_key(fd) ==> pid_of(c, fd) == c[fd].process_id && tid_of(c, fd) == c[fd].thread_id,
        !c.contains_key(fd) ==> pid_of(c, fd) == 0 && tid_of(c, fd) == 0,
{
}

} // verus!
