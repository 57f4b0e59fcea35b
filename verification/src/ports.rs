//! Completion ports, jobs, timers, and what drivers keep for objects.
use crate::bytes::{lemma_read_back_u32, lemma_read_back_u64, u64_at, push_u32, push_u64, read_u16, read_u32, u16_at, u32_at, u32_bytes, u64_bytes, zeros};
use crate::prefix::str_views;
use crate::protocol::one_of;
use crate::objects::{allocated, entry_in, holds, lemma_handle_given, HandleEntry, FD_TYPE_FILE};
use crate::select::capped;
use crate::state::{
    bump, bumped, next_event, pid_of, stocks_after, took_number, with_signal, with_signals, Action, CompletionMsg,
    CompletionWaiter, Desktop, EventLoop, Job, NtTimer, Objects, Ports, Sync, SyncObject, WindowState,
    SYNC_INTERNAL,
};
use crate::side_tables::HandleSideTables;
use crate::sync::{internal_created, new_handle_answer, number_answer};
use crate::text::same;
use crate::table::{enumerates, list_of, pop_under, popped, push_under, pushed, rest, wanted, Picks};
use crate::wire::{
    block, handle_answer, head, header, reply_fixed, reply_handle, reply_status, reply_vararg, status,
    Reply, STATUS_INVALID_HANDLE, STATUS_INVALID_PARAMETER, STATUS_NO_MEMORY,
    STATUS_OBJECT_NAME_NOT_FOUND, STATUS_PENDING, STATUS_PROCESS_IS_TERMINATING, STATUS_NO_MORE_ENTRIES,
    STATUS_INVALID_ADDRESS,
};
use vstd::prelude::*;

verus! {

#[derive(Clone, Copy, Debug, PartialEq, Eq)]
pub struct SetTimerRequest {
    pub handle: u32,
    /// Negative: so many units of 100 ns from now. Positive: a date. 0: now.
    pub expire: i64,
    /// Milliseconds between firings; not positive for a single one.
    pub period: i32,
}

#[derive(Clone, Copy, Debug, PartialEq, Eq)]
pub struct AddCompletionRequest {
    pub handle: u32,
    pub msg: CompletionMsg,
}

#[derive(Clone, Copy, Debug, PartialEq, Eq)]
pub struct SetCompletionInfoRequest {
    pub handle: u32,
    pub chandle: u32,
    pub ckey: u64,
}

#[derive(Clone, Copy, Debug, PartialEq, Eq)]
pub struct AssignJobRequest {
    pub job: u32,
    pub process: u32,
}

#[derive(Clone, Copy, Debug, PartialEq, Eq)]
pub struct SetJobLimitsRequest {
    pub handle: u32,
    pub limit_flags: u32,
}

#[derive(Clone, Copy, Debug, PartialEq, Eq)]
pub struct SetJobCompletionPortRequest {
    pub job: u32,
    pub port: u32,
    pub key: u64,
}

/// An object of a driver: the manager, the object's handle, and what is kept for it.
#[derive(Clone, Copy, Debug, PartialEq, Eq)]
pub struct KernelObjectRequest {
    pub manager: u32,
    pub handle: u32,
    pub user_ptr: u64,
}

/// The message that a job sends when a process joins it.
pub const JOB_OBJECT_MSG_NEW_PROCESS: u32 = 1;

/// A message was posted to a port: a thread that waits takes it, the latest first; without one it
/// queues behind the others.
pub open spec fn posted(before: EventLoop, after: EventLoop, port: u32, msg: CompletionMsg) -> bool {
    let w = list_of(before.ports.waiters@, port);
    &&& after == (EventLoop {
        ports: Ports {
            queues: after.ports.queues,
            waiters: after.ports.waiters,
            cache: after.ports.cache,
            ..before.ports
        },
        outbox: after.outbox,
        ..before
    })
    &&& popped(before.ports.waiters@, after.ports.waiters@, port)
    &&& if w.len() > 0 {
        &&& after.ports.cache@ == before.ports.cache@.insert(w.last().client_fd, msg)
        &&& after.ports.queues@ == before.ports.queues@
        &&& after.outbox@ == with_signal(
            before.sync.objects@,
            before.outbox@,
            w.last().pid,
            w.last().wait_handle,
        )
    } else {
        &&& after.ports.cache@ == before.ports.cache@
        &&& pushed(before.ports.queues@, after.ports.queues@, port, msg)
        &&& after.outbox@ == before.outbox@
    }
}

/// The reply that holds a message, and the handle to wait through.
pub open spec fn message_answer(error: u32, m: CompletionMsg, wait_handle: u32) -> Seq<u8> {
    block(
        head(error, 0) + u64_bytes(m.ckey) + u64_bytes(m.cvalue) + u64_bytes(m.information) + u32_bytes(
            m.status,
        ) + u32_bytes(wait_handle),
    )
}

pub open spec fn no_message() -> CompletionMsg {
    CompletionMsg { ckey: 0, cvalue: 0, information: 0, status: 0 }
}

/// The first message of a port was taken, and with the last one its queue.
pub open spec fn message_taken(before: EventLoop, after: EventLoop, port: u32) -> bool {
    let q = list_of(before.ports.queues@, port);
    &&& after == (EventLoop {
        ports: Ports { queues: after.ports.queues, ..before.ports },
        ..before
    })
    &&& if q.len() == 1 {
        after.ports.queues@ == before.ports.queues@.remove(port)
    } else {
        &&& after.ports.queues@ == before.ports.queues@.insert(port, after.ports.queues@[port])
        &&& after.ports.queues@[port]@ == q.skip(1)
    }
}

/// A thread waits on a port that has no message. The port's handle has an event to wait through.
pub open spec fn waits_for_message(before: EventLoop, after: EventLoop, fd: i32, port: u32) -> bool {
    let pid = pid_of(before.clients.clients@, fd);
    let fresh = next_event(before.sync, true, false);
    let made = !before.sync.objects@.contains_key((pid, port)) && fresh is Some;
    &&& after == (EventLoop {
        ports: Ports { waiters: after.ports.waiters, ..before.ports },
        sync: Sync {
            objects: after.sync.objects,
            recyclable: after.sync.recyclable,
            created: after.sync.created,
            auto_events: after.sync.auto_events,
            auto_set_events: after.sync.auto_set_events,
            manual_events: after.sync.manual_events,
            manual_set_events: after.sync.manual_set_events,
            ..before.sync
        },
        ..before
    })
    &&& stocks_after(before.sync, after.sync, true, false, made)
    &&& if made {
        &&& after.sync.objects@ == before.sync.objects@.insert(
            (pid, port),
            SyncObject { fd: fresh->Some_0, kind: SYNC_INTERNAL },
        )
        &&& after.sync.recyclable@ == before.sync.recyclable@.insert((pid, port), ())
        &&& after.sync.created == bumped(before.sync.created)
    } else {
        &&& after.sync.objects@ == before.sync.objects@
        &&& after.sync.recyclable@ == before.sync.recyclable@
        &&& after.sync.created == before.sync.created
    }
    &&& pushed(
        before.ports.waiters@,
        after.ports.waiters@,
        port,
        CompletionWaiter { client_fd: fd, pid, wait_handle: port },
    )
}

/// Messages leave a port in the order in which they came: of two that are posted to a port without
/// messages and waiting threads, the first is taken first, and nothing is left behind the second.
pub proof fn lemma_messages_in_order(
    s0: EventLoop,
    s1: EventLoop,
    s2: EventLoop,
    s3: EventLoop,
    s4: EventLoop,
    port: u32,
    m1: CompletionMsg,
    m2: CompletionMsg,
)
    requires
        list_of(s0.ports.queues@, port).len() == 0,
        list_of(s0.ports.waiters@, port).len() == 0,
        posted(s0, s1, port, m1),
        posted(s1, s2, port, m2),
        message_taken(s2, s3, port),
        message_taken(s3, s4, port),
    ensures
        list_of(s2.ports.queues@, port) == seq![m1, m2],
        list_of(s3.ports.queues@, port) == seq![m2],
        list_of(s4.ports.queues@, port) == Seq::<CompletionMsg>::empty(),
{
    assert(list_of(s1.ports.queues@, port) =~= seq![m1]);
    assert(list_of(s2.ports.queues@, port) =~= seq![m1, m2]);
    assert(list_of(s3.ports.queues@, port) =~= seq![m2]);
}

/// A thread that waits on a port is given the next message without it ever being queued: the message
/// is kept for that thread and the event that it waits through is set.
pub proof fn lemma_waiter_is_served(
    s0: EventLoop,
    s1: EventLoop,
    s2: EventLoop,
    fd: i32,
    port: u32,
    msg: CompletionMsg,
)
    requires
        waits_for_message(s0, s1, fd, port),
        posted(s1, s2, port, msg),
    ensures
        s2.ports.cache@.contains_key(fd),
        s2.ports.cache@[fd] == msg,
        s2.ports.queues@ == s0.ports.queues@,
        list_of(s2.ports.waiters@, port) == list_of(s0.ports.waiters@, port),
        s1.sync.objects@.contains_key((pid_of(s0.clients.clients@, fd), port)) ==> s2.outbox@.last()
            == (Action::SetEvent {
            object: s1.sync.objects@[(pid_of(s0.clients.clients@, fd), port)].fd,
        }),
{
    assert(list_of(s1.ports.waiters@, port).drop_last() =~= list_of(s0.ports.waiters@, port));
    assert(list_of(s2.ports.waiters@, port) =~= list_of(s0.ports.waiters@, port));
}

/// A job counts each of its processes once.
pub open spec fn job_counts(j: Job) -> bool {
    &&& j.processes@.no_duplicates()
    &&& j.num_processes == j.processes@.len()
}

/// The next count; it starts again behind the last.
pub open spec fn counted(n: u32) -> u32 {
    if n == u32::MAX {
        0
    } else {
        (n + 1) as u32
    }
}

/// A process belongs to a job from now on.
pub open spec fn joined(before: Job, after: Job, pid: u32) -> bool {
    if before.processes@.contains(pid) {
        after == before
    } else {
        &&& after == (Job {
            processes: after.processes,
            num_processes: counted(before.num_processes),
            total_processes: counted(before.total_processes),
            ..before
        })
        &&& after.processes@ == before.processes@.push(pid)
    }
}

/// A job's count is right after a process has joined it.
pub proof fn lemma_join_keeps_count(before: Job, after: Job, pid: u32)
    requires
        job_counts(before),
        before.processes@.len() < u32::MAX,
        joined(before, after, pid),
    ensures
        job_counts(after),
        after.processes@.contains(pid),
{
    if !before.processes@.contains(pid) {
        assert(after.processes@.last() == pid);
    }
}

/// A process was put into a job, and the job's port told of it.
pub open spec fn job_assigned(before: EventLoop, after: EventLoop, oid: u64, pid: u32) -> bool {
    exists|mid: EventLoop|
        #![trigger job_joined(before, mid, oid, pid)]
        job_joined(before, mid, oid, pid) && if before.ports.jobs@.contains_key(oid)
            && before.ports.jobs@[oid].completion_port_handle is Some {
            posted(
                mid,
                after,
                before.ports.jobs@[oid].completion_port_handle->Some_0,
                CompletionMsg {
                    ckey: before.ports.jobs@[oid].completion_key,
                    cvalue: pid as u64,
                    information: 0,
                    status: JOB_OBJECT_MSG_NEW_PROCESS,
                },
            )
        } else {
            after == mid
        }
}

pub open spec fn job_joined(before: EventLoop, mid: EventLoop, oid: u64, pid: u32) -> bool {
    &&& mid == (EventLoop {
        ports: Ports { jobs: mid.ports.jobs, process_job: mid.ports.process_job, ..before.ports },
        ..before
    })
    &&& mid.ports.process_job@ == before.ports.process_job@.insert(pid, oid)
    &&& if before.ports.jobs@.contains_key(oid) {
        &&& mid.ports.jobs@ == before.ports.jobs@.insert(oid, mid.ports.jobs@[oid])
        &&& mid.ports.jobs@.contains_key(oid)
        &&& joined(before.ports.jobs@[oid], mid.ports.jobs@[oid], pid)
    } else {
        mid.ports.jobs@ == before.ports.jobs@
    }
}

/// The object that a handle of a client stands for.
pub open spec fn object_id_of(s: EventLoop, fd: i32, handle: u32) -> Option<u64> {
    match entry_in(s.objects.processes@, pid_of(s.clients.clients@, fd), handle) {
        Some(e) => Some(e.object_id),
        None => None,
    }
}

/// When a timer fires, in nanoseconds of the monotonic clock.
pub open spec fn timer_end(expire: i64, now: u64, real_100ns: i64) -> u64 {
    if expire < 0 {
        capped(now + -expire * 100)
    } else if expire > real_100ns && expire > 0 {
        capped(now + (expire - real_100ns) * 100)
    } else {
        now
    }
}

/// The timers but those of one handle.
pub open spec fn other_timers(t: Seq<NtTimer>, pid: u32, handle: u32) -> Seq<NtTimer>
    decreases t.len(),
{
    if t.len() == 0 {
        t
    } else {
        let before = other_timers(t.drop_last(), pid, handle);
        if t.last().pid == pid && t.last().handle == handle {
            before
        } else {
            before.push(t.last())
        }
    }
}

/// The timers after those that are due have fired: single ones are gone, the others start again.
pub open spec fn ticked(t: Seq<NtTimer>, now: u64) -> Seq<NtTimer>
    decreases t.len(),
{
    if t.len() == 0 {
        t
    } else {
        let before = ticked(t.drop_last(), now);
        let x = t.last();
        if x.deadline > now {
            before.push(x)
        } else if x.period_ms > 0 {
            before.push(NtTimer { deadline: capped(now + x.period_ms * 1_000_000), ..x })
        } else {
            before
        }
    }
}

/// The handles of the timers that are due.
pub open spec fn due(t: Seq<NtTimer>, now: u64) -> Seq<(u32, u32)>
    decreases t.len(),
{
    if t.len() == 0 {
        Seq::empty()
    } else {
        let before = due(t.drop_last(), now);
        if t.last().deadline > now {
            before
        } else {
            before.push((t.last().pid, t.last().handle))
        }
    }
}

/// No timer that is left is due, as long as the clock has not run out.
pub proof fn lemma_nothing_due(t: Seq<NtTimer>, now: u64)
    requires
        now < u64::MAX,
    ensures
        forall|i: int| 0 <= i < ticked(t, now).len() ==> #[trigger] ticked(t, now)[i].deadline > now,
    decreases t.len(),
{
    if t.len() > 0 {
        lemma_nothing_due(t.drop_last(), now);
        let b = ticked(t.drop_last(), now);
        assert forall|i: int| 0 <= i < ticked(t, now).len() implies #[trigger] ticked(t, now)[i].deadline
            > now by {
            if i < b.len() {
                assert(ticked(t, now)[i] == b[i]);
            }
        }
    }
}

/// Objects of one manager of one process for which one thing is kept.
pub struct KeptFor {
    pub pid: u32,
    pub manager: u32,
    pub user_ptr: u64,
}

impl Picks<(u32, u32, u32), u64> for KeptFor {
    open spec fn wants(&self, k: (u32, u32, u32), v: u64) -> bool {
        k.0 == self.pid && k.1 == self.manager && v == self.user_ptr
    }

    fn pick(&self, k: &(u32, u32, u32), v: &u64) -> (r: bool) {
        k.0 == self.pid && k.1 == self.manager && *v == self.user_ptr
    }
}

/// Requests that always succeed, and whose answer is zero otherwise.
pub open spec fn granted_requests() -> Seq<Seq<char>> {
    seq![
        "add_fd_completion"@,
        "get_exception_status"@,
        "send_socket"@,
        "recv_socket"@,
        "socket_get_events"@,
        "map_builtin_view"@,
        "set_irp_result"@,
        "flush"@,
        "lock_file"@,
        "unlock_file"@,
        "get_volume_info"@,
        "read_directory_changes"@,
        "read_change"@,
        "set_fd_completion_mode"@,
        "set_fd_disp_info"@,
        "set_fd_name_info"@,
        "is_same_mapping"@,
        "get_object_type"@,
        "get_token_default_dacl"@,
        "get_token_groups"@,
        "get_token_privileges"@,
        "get_security_object"@,
        "set_security_object"@,
        "load_registry"@,
        "flush_key"@,
        "unload_registry"@,
        "save_registry"@,
        "add_mapping_committed_range"@,
    ]
}

/// The status of a request whose answer depends on nothing, by its name. Nothing is queued for a driver;
/// there is no cache of directories, so that the client reads them itself; views of images are not
/// tracked, so that the client loads an image itself; and timers and ports have no names.
pub open spec fn fixed_status(name: Seq<char>) -> Option<u32> {
    if name == "get_next_device_request"@ {
        Some(STATUS_PENDING)
    } else if name == "get_directory_cache_entry"@ {
        Some(STATUS_NO_MORE_ENTRIES)
    } else if name == "get_image_view_info"@ {
        Some(STATUS_INVALID_ADDRESS)
    } else if name == "open_timer"@ || name == "open_completion"@ {
        Some(STATUS_OBJECT_NAME_NOT_FOUND)
    } else if granted_requests().contains(name) {
        Some(0)
    } else {
        None
    }
}

/// The answer to a request whose answer depends on nothing; none for any other.
pub fn fixed_reply(name: &str) -> (r: Option<Reply>)
    ensures
        match fixed_status(name@) {
            Some(code) => r matches Some(x) && x@ == status(code),
            None => r is None,
        },
{
    if same(name, "get_next_device_request") {
        return Some(reply_status(STATUS_PENDING));
    }
    if same(name, "get_directory_cache_entry") {
        return Some(reply_status(STATUS_NO_MORE_ENTRIES));
    }
    if same(name, "get_image_view_info") {
        return Some(reply_status(STATUS_INVALID_ADDRESS));
    }
    if same(name, "open_timer") || same(name, "open_completion") {
        return Some(reply_status(STATUS_OBJECT_NAME_NOT_FOUND));
    }
    let granted = [
        "add_fd_completion",
        "get_exception_status",
        "send_socket",
        "recv_socket",
        "socket_get_events",
        "map_builtin_view",
        "set_irp_result",
        "flush",
        "lock_file",
        "unlock_file",
        "get_volume_info",
        "read_directory_changes",
        "read_change",
        "set_fd_completion_mode",
        "set_fd_disp_info",
        "set_fd_name_info",
        "is_same_mapping",
        "get_object_type",
        "get_token_default_dacl",
        "get_token_groups",
        "get_token_privileges",
        "get_security_object",
        "set_security_object",
        "load_registry",
        "flush_key",
        "unload_registry",
        "save_registry",
        "add_mapping_committed_range",
    ];
    assert(str_views(granted@) =~= granted_requests());
    if one_of(name, &granted) {
        return Some(reply_status(0));
    }
    None
}

/// Keeps a kernel object for a driver. Every object that is known is kept, so that nothing is to be done.
pub fn handle_grab_kernel_object(complete: bool) -> (r: Reply)
    ensures
        r@ == status(
            if complete {
                0
            } else {
                STATUS_INVALID_PARAMETER
            },
        ),
{
    if complete {
        reply_status(0)
    } else {
        reply_status(STATUS_INVALID_PARAMETER)
    }
}

/// Attaching a debugger succeeds; no event will ever come.
pub fn handle_debug_process(complete: bool) -> (r: Reply)
    ensures
        r@ == status(
            if complete {
                0
            } else {
                STATUS_INVALID_PARAMETER
            },
        ),
{
    reply_status(
        if complete {
            0
        } else {
            STATUS_INVALID_PARAMETER
        },
    )
}

/// A debugger is told that nothing has happened.
pub fn handle_wait_debug_event(complete: bool) -> (r: Reply)
    ensures
        r@ == (if complete {
            block(head(0, 4) + u32_bytes(0) + u32_bytes(0)) + zeros(4)
        } else {
            status(STATUS_INVALID_PARAMETER)
        }),
{
    if !complete {
        return reply_status(STATUS_INVALID_PARAMETER);
    }
    let mut body: Vec<u8> = header(0, 4);
    push_u32(&mut body, 0);
    push_u32(&mut body, 0);
    let idle = crate::bytes::zero_bytes(4);
    reply_vararg(body.as_slice(), idle.as_slice())
}

/// The ways in which a debugger may let a process go on.
pub open spec fn continue_known(status: u32) -> bool {
    status == 0x8001_0001 || status == 0x0001_0001 || status == 0x0001_0002 || status == 0x4001_0001
}

/// A debugger lets a process go on.
pub fn handle_continue_debug_event(req: Option<u32>) -> (r: Reply)
    ensures
        r@ == status(
            match req {
                Some(s) => if continue_known(s) {
                    0
                } else {
                    STATUS_INVALID_PARAMETER
                },
                None => STATUS_INVALID_PARAMETER,
            },
        ),
{
    match req {
        Some(s) => if s == 0x8001_0001 || s == 0x0001_0001 || s == 0x0001_0002 || s == 0x4001_0001 {
            reply_status(0)
        } else {
            reply_status(STATUS_INVALID_PARAMETER)
        },
        None => reply_status(STATUS_INVALID_PARAMETER),
    }
}

/// The reply that tells whether a timer had fired.
pub open spec fn fired_answer(error: u32, prev: Option<u32>) -> Seq<u8> {
    number_answer(
        error,
        match prev {
            Some(p) => p,
            None => 0,
        },
    )
}

/// A process was given a handle whose descriptor is a fresh event.
pub open spec fn event_handle(before: EventLoop, after: EventLoop, pid: u32, r: u32) -> bool {
    match next_event(before.sync, true, false) {
        None => r == 4 && after == (EventLoop {
            sync: Sync {
                auto_events: after.sync.auto_events,
                auto_set_events: after.sync.auto_set_events,
                manual_events: after.sync.manual_events,
                manual_set_events: after.sync.manual_set_events,
                ..before.sync
            },
            ..before
        }) && stocks_after(before.sync, after.sync, true, false, false),
        Some(fd) => {
            let e = HandleEntry {
                object_id: before.objects.next_object_id,
                fd: Some(fd),
                obj_type: FD_TYPE_FILE,
                access: 0x001F_000F,
                options: 0x20,
            };
            let h = if before.objects.processes@.contains_key(pid) {
                before.objects.processes@[pid].handles.next()
            } else {
                0
            };
            &&& after == (EventLoop {
                objects: after.objects,
                sync: Sync {
                    objects: after.sync.objects,
                    created: after.sync.created,
                    auto_events: after.sync.auto_events,
                    auto_set_events: after.sync.auto_set_events,
                    manual_events: after.sync.manual_events,
                    manual_set_events: after.sync.manual_set_events,
                    ..before.sync
                },
                outbox: after.outbox,
                ..before
            })
            &&& took_number(before.objects, after.objects)
            &&& allocated(before.objects.processes@, after.objects.processes@, pid, e, h)
            &&& stocks_after(before.sync, after.sync, true, false, true)
            &&& if h != 0 {
                &&& r == h
                &&& after.sync.objects@ == before.sync.objects@.insert(
                    (pid, h),
                    SyncObject { fd, kind: SYNC_INTERNAL },
                )
                &&& after.sync.created == bumped(before.sync.created)
                &&& after.outbox@ == before.outbox@
            } else {
                &&& r == 4
                &&& after.sync.objects@ == before.sync.objects@
                &&& after.sync.created == before.sync.created
                &&& after.outbox@ == before.outbox@.push(Action::Close { fd })
            }
        },
    }
}

impl EventLoop {
    /// Posts a message to a port.
    pub fn post(&mut self, port: u32, msg: CompletionMsg)
        requires
            old(self).wf(),
        ensures
            final(self).wf(),
            posted(*old(self), *final(self), port, msg),
    {
        match pop_under(&mut self.ports.waiters, port) {
            Some(w) => {
                self.ports.cache.insert(w.client_fd, msg);
                self.signal(w.pid, w.wait_handle);
            },
            None => {
                push_under(&mut self.ports.queues, port, msg);
            },
        }
    }

    /// The object that a handle of a client stands for.
    pub fn object_id(&self, client_fd: i32, handle: u32) -> (r: Option<u64>)
        requires
            self.wf(),
        ensures
            r == object_id_of(*self, client_fd, handle),
    {
        let pid: u32 = self.client_pid(client_fd);
        match self.handle_entry(pid, handle) {
            Some(e) => Some(e.object_id),
            None => None,
        }
    }

    /// Posts a message on behalf of a client.
    pub fn handle_add_completion(&mut self, req: Option<AddCompletionRequest>) -> (r: Reply)
        requires
            old(self).wf(),
        ensures
            final(self).wf(),
            match req {
                Some(q) => posted(*old(self), *final(self), q.handle, q.msg) && r@ == status(0),
                None => *final(self) == *old(self) && r@ == status(STATUS_INVALID_PARAMETER),
            },
    {
        match req {
            Some(q) => {
                self.post(q.handle, q.msg);
                reply_status(0)
            },
            None => reply_status(STATUS_INVALID_PARAMETER),
        }
    }

    /// Takes the first message of a port; without one the caller waits for the next.
    pub fn handle_remove_completion(&mut self, client_fd: i32, req: Option<u32>) -> (r: Reply)
        requires
            old(self).wf(),
        ensures
            final(self).wf(),
            match req {
                None => *final(self) == *old(self) && r@ == status(STATUS_INVALID_PARAMETER),
                Some(port) => {
                    let q = list_of(old(self).ports.queues@, port);
                    if q.len() > 0 {
                        &&& message_taken(*old(self), *final(self), port)
                        &&& r@ == message_answer(0, q[0], 0)
                    } else {
                        &&& waits_for_message(*old(self), *final(self), client_fd, port)
                        &&& r@ == message_answer(STATUS_PENDING, no_message(), port)
                    }
                },
            },
    {
        let port: u32 = match req {
            Some(p) => p,
            None => {
                return reply_status(STATUS_INVALID_PARAMETER);
            },
        };
        let n: usize = match self.ports.queues.get(port) {
            Some(q) => q.len(),
            None => 0,
        };
        if n == 1 {
            match self.ports.queues.remove(port) {
                Some(q) => {
                    return reply_message(0, q[0], 0);
                },
                None => {},
            }
        } else if n > 1 {
            match self.ports.queues.get_mut(port) {
                Some(q) => {
                    let m = q.remove(0);
                    assert(q@ =~= list_of(old(self).ports.queues@, port).skip(1));
                    return reply_message(0, m, 0);
                },
                None => {},
            }
        }
        let pid: u32 = self.client_pid(client_fd);
        if !self.sync.objects.contains_key((pid, port)) {
            match self.get_or_create_event(true, false) {
                Some(fd) => {
                    self.insert_recyclable_event(pid, port, fd, SYNC_INTERNAL);
                },
                None => {},
            }
        }
        push_under(
            &mut self.ports.waiters,
            port,
            CompletionWaiter { client_fd, pid, wait_handle: port },
        );
        reply_message(
            STATUS_PENDING,
            CompletionMsg { ckey: 0, cvalue: 0, information: 0, status: 0 },
            port,
        )
    }

    /// Fetches the message that a thread was given while it waited.
    pub fn handle_get_thread_completion(&mut self, client_fd: i32) -> (r: Reply)
        requires
            old(self).wf(),
        ensures
            final(self).wf(),
            *final(self) == (EventLoop {
                ports: Ports { cache: final(self).ports.cache, ..old(self).ports },
                ..*old(self)
            }),
            final(self).ports.cache@ == old(self).ports.cache@.remove(client_fd),
            r@ == (if old(self).ports.cache@.contains_key(client_fd) {
                message_answer(0, old(self).ports.cache@[client_fd], 0)
            } else {
                message_answer(STATUS_PENDING, no_message(), 0)
            }),
    {
        match self.ports.cache.remove(client_fd) {
            Some(m) => reply_message(0, m, 0),
            None => reply_message(
                STATUS_PENDING,
                CompletionMsg { ckey: 0, cvalue: 0, information: 0, status: 0 },
                0,
            ),
        }
    }

    /// How many messages a port has.
    pub fn handle_query_completion(&self, req: Option<u32>) -> (r: Reply)
        requires
            self.wf(),
        ensures
            r@ == number_answer(
                0,
                list_of(
                    self.ports.queues@,
                    match req {
                        Some(p) => p,
                        None => 0,
                    },
                ).len() as u32,
            ),
    {
        let port: u32 = match req {
            Some(p) => p,
            None => 0,
        };
        let depth: u32 = match self.ports.queues.get(port) {
            Some(q) => q.len() as u32,
            None => 0,
        };
        reply_handle(0, depth)
    }

    /// Binds a handle to a port: what completes on it is posted there under the key.
    pub fn handle_set_completion_info(&mut self, client_fd: i32, req: Option<SetCompletionInfoRequest>) -> (r:
        Reply)
        requires
            old(self).wf(),
        ensures
            final(self).wf(),
            match req {
                None => *final(self) == *old(self) && r@ == status(STATUS_INVALID_PARAMETER),
                Some(q) => {
                    &&& *final(self) == (EventLoop {
                        side_tables: HandleSideTables {
                            completion_bindings: final(self).side_tables.completion_bindings,
                            ..old(self).side_tables
                        },
                        ..*old(self)
                    })
                    &&& final(self).side_tables.completion_bindings@
                        == old(self).side_tables.completion_bindings@.insert(
                        (pid_of(old(self).clients.clients@, client_fd), q.handle),
                        (q.chandle, q.ckey),
                    )
                    &&& r@ == status(0)
                },
            },
    {
        match req {
            Some(q) => {
                let pid: u32 = self.client_pid(client_fd);
                self.side_tables.completion_bindings.insert((pid, q.handle), (q.chandle, q.ckey));
                reply_status(0)
            },
            None => reply_status(STATUS_INVALID_PARAMETER),
        }
    }

    /// Creates a completion port or a timer: a handle with an event that is not set.
    pub fn handle_create_completion(&mut self, client_fd: i32) -> (r: Reply)
        requires
            old(self).wf(),
        ensures
            final(self).wf(),
            exists|h: u32| #[trigger]
                internal_created(*old(self), *final(self), client_fd, h) && r@ == new_handle_answer(h),
    {
        let handle: u32 = self.create_internal(client_fd);
        if handle == 0 {
            return reply_status(STATUS_NO_MEMORY);
        }
        reply_handle(0, handle)
    }

    /// Creates a timer.
    pub fn handle_create_timer(&mut self, client_fd: i32) -> (r: Reply)
        requires
            old(self).wf(),
        ensures
            final(self).wf(),
            exists|h: u32| #[trigger]
                internal_created(*old(self), *final(self), client_fd, h) && r@ == new_handle_answer(h),
    {
        self.handle_create_completion(client_fd)
    }

    /// Creates a job without processes.
    pub fn handle_create_job(&mut self, client_fd: i32) -> (r: Reply)
        requires
            old(self).wf(),
        ensures
            final(self).wf(),
            exists|h: u32, mid: EventLoop|
                #![trigger internal_created(*old(self), mid, client_fd, h)]
                internal_created(*old(self), mid, client_fd, h) && r@ == new_handle_answer(h)
                    && job_created(mid, *final(self), old(self).objects.next_object_id, h),
    {
        let handle: u32 = self.create_internal(client_fd);
        let ghost mid = *self;
        if handle == 0 {
            return reply_status(STATUS_NO_MEMORY);
        }
        let oid: u64 = match self.object_id(client_fd, handle) {
            Some(o) => o,
            None => 0,
        };
        assert(oid == old(self).objects.next_object_id);
        self.ports.jobs.insert(
            oid,
            Job {
                processes: Vec::new(),
                num_processes: 0,
                total_processes: 0,
                limit_flags: 0,
                completion_port_handle: None,
                completion_key: 0,
            },
        );
        assert(internal_created(*old(self), mid, client_fd, handle));
        reply_handle(0, handle)
    }

    /// Sets the limits of a job.
    pub fn handle_set_job_limits(&mut self, client_fd: i32, req: Option<SetJobLimitsRequest>) -> (r: Reply)
        requires
            old(self).wf(),
        ensures
            final(self).wf(),
            r@ == status(0),
            *final(self) == (EventLoop {
                ports: Ports { jobs: final(self).ports.jobs, ..old(self).ports },
                ..*old(self)
            }),
            match req {
                Some(q) => final(self).ports.jobs@ == with_job(
                    old(self).ports.jobs@,
                    object_id_of(*old(self), client_fd, q.handle),
                    |j: Job| Job { limit_flags: q.limit_flags, ..j },
                ),
                None => final(self).ports.jobs@ == old(self).ports.jobs@,
            },
    {
        match req {
            Some(q) => match self.object_id(client_fd, q.handle) {
                Some(oid) => match self.ports.jobs.get_mut(oid) {
                    Some(job) => {
                        job.limit_flags = q.limit_flags;
                    },
                    None => {},
                },
                None => {},
            },
            None => {},
        }
        reply_status(0)
    }

    /// Has a job post its messages to a port.
    pub fn handle_set_job_completion_port(
        &mut self,
        client_fd: i32,
        req: Option<SetJobCompletionPortRequest>,
    ) -> (r: Reply)
        requires
            old(self).wf(),
        ensures
            final(self).wf(),
            *final(self) == (EventLoop {
                ports: Ports { jobs: final(self).ports.jobs, ..old(self).ports },
                ..*old(self)
            }),
            match req {
                Some(q) => final(self).ports.jobs@ == with_job(
                    old(self).ports.jobs@,
                    object_id_of(*old(self), client_fd, q.job),
                    |j: Job| Job { completion_port_handle: Some(q.port), completion_key: q.key, ..j },
                ) && r@ == status(0),
                None => final(self).ports.jobs@ == old(self).ports.jobs@ && r@ == status(
                    STATUS_INVALID_PARAMETER,
                ),
            },
    {
        match req {
            Some(q) => {
                match self.object_id(client_fd, q.job) {
                    Some(oid) => match self.ports.jobs.get_mut(oid) {
                        Some(job) => {
                            job.completion_port_handle = Some(q.port);
                            job.completion_key = q.key;
                        },
                        None => {},
                    },
                    None => {},
                }
                reply_status(0)
            },
            None => reply_status(STATUS_INVALID_PARAMETER),
        }
    }

    /// Puts a process into a job and tells the job's port.
    pub fn handle_assign_job(&mut self, client_fd: i32, req: Option<AssignJobRequest>) -> (r: Reply)
        requires
            old(self).wf(),
        ensures
            final(self).wf(),
            match assign_error(*old(self), client_fd, req) {
                Some(error) => *final(self) == *old(self) && r@ == status(error),
                None => r@ == status(0) && job_assigned(
                    *old(self),
                    *final(self),
                    object_id_of(*old(self), client_fd, req->Some_0.job)->Some_0,
                    object_id_of(*old(self), client_fd, req->Some_0.process)->Some_0 as u32,
                ),
            },
    {
        let q = match req {
            Some(q) => q,
            None => {
                return reply_status(STATUS_INVALID_PARAMETER);
            },
        };
        let (oid, target): (u64, u32) = match (
            self.object_id(client_fd, q.job),
            self.object_id(client_fd, q.process),
        ) {
            (Some(j), Some(p)) => (j, p as u32),
            _ => {
                return reply_status(STATUS_INVALID_HANDLE);
            },
        };
        let alive: bool = match self.objects.processes.get(target) {
            Some(p) => p.threads.len() > 0,
            None => false,
        };
        if !alive {
            return reply_status(STATUS_PROCESS_IS_TERMINATING);
        }
        let port: Option<(u32, u64)> = match self.ports.jobs.get(oid) {
            Some(j) => match j.completion_port_handle {
                Some(p) => Some((p, j.completion_key)),
                None => None,
            },
            None => None,
        };
        match self.ports.jobs.get_mut(oid) {
            Some(job) => {
                if !holds(&job.processes, target) {
                    job.processes.push(target);
                    job.num_processes = count_on(job.num_processes);
                    job.total_processes = count_on(job.total_processes);
                }
            },
            None => {},
        }
        self.ports.process_job.insert(target, oid);
        let ghost mid = *self;
        assert(job_joined(*old(self), mid, oid, target));
        match port {
            Some((p, ckey)) => {
                self.post(
                    p,
                    CompletionMsg {
                        ckey,
                        cvalue: target as u64,
                        information: 0,
                        status: JOB_OBJECT_MSG_NEW_PROCESS,
                    },
                );
            },
            None => {},
        }
        reply_status(0)
    }
}

fn count_on(n: u32) -> (r: u32)
    ensures
        r == counted(n),
{
    if n == u32::MAX {
        0
    } else {
        n + 1
    }
}

/// Why a process is not put into a job.
pub open spec fn assign_error(s: EventLoop, fd: i32, req: Option<AssignJobRequest>) -> Option<u32> {
    match req {
        None => Some(STATUS_INVALID_PARAMETER),
        Some(q) => match (object_id_of(s, fd, q.job), object_id_of(s, fd, q.process)) {
            (Some(_), Some(p)) => if s.objects.processes@.contains_key(p as u32)
                && s.objects.processes@[p as u32].threads@.len() > 0 {
                None
            } else {
                Some(STATUS_PROCESS_IS_TERMINATING)
            },
            _ => Some(STATUS_INVALID_HANDLE),
        },
    }
}

/// The jobs after one was changed, where there is such a job.
pub open spec fn with_job(jobs: Map<u64, Job>, oid: Option<u64>, f: spec_fn(Job) -> Job) -> Map<u64, Job> {
    match oid {
        Some(o) => if jobs.contains_key(o) {
            jobs.insert(o, f(jobs[o]))
        } else {
            jobs
        },
        None => jobs,
    }
}

/// A job was created for a handle.
pub open spec fn job_created(mid: EventLoop, after: EventLoop, oid: u64, handle: u32) -> bool {
    if handle == 0 {
        after == mid
    } else {
        &&& after == (EventLoop { ports: Ports { jobs: after.ports.jobs, ..mid.ports }, ..mid })
        &&& after.ports.jobs@.contains_key(oid)
        &&& after.ports.jobs@ == mid.ports.jobs@.insert(oid, after.ports.jobs@[oid])
        &&& after.ports.jobs@[oid].processes@ == Seq::<u32>::empty()
        &&& after.ports.jobs@[oid] == (Job {
            processes: after.ports.jobs@[oid].processes,
            num_processes: 0,
            total_processes: 0,
            limit_flags: 0,
            completion_port_handle: None,
            completion_key: 0,
        })
        &&& job_counts(after.ports.jobs@[oid])
    }
}

fn reply_message(error: u32, m: CompletionMsg, wait_handle: u32) -> (r: Reply)
    ensures
        r@ == message_answer(error, m, wait_handle),
{
    let mut body: Vec<u8> = header(error, 0);
    push_u64(&mut body, m.ckey);
    push_u64(&mut body, m.cvalue);
    push_u64(&mut body, m.information);
    push_u32(&mut body, m.status);
    push_u32(&mut body, wait_handle);
    reply_fixed(body.as_slice())
}

/// Computes when a timer fires.
pub fn timer_deadline(expire: i64, now: u64, real_100ns: i64) -> (r: u64)
    requires
        real_100ns >= 0,
    ensures
        r == timer_end(expire, now, real_100ns),
{
    let ticks: u128 = if expire < 0 {
        (-(expire as i128)) as u128
    } else if expire > real_100ns && expire > 0 {
        (expire - real_100ns) as u128
    } else {
        return now;
    };
    let end: u128 = now as u128 + ticks * 100;
    if end > u64::MAX as u128 {
        u64::MAX
    } else {
        end as u64
    }
}

/// The timers but those of one handle.
fn keep_others(t: &Vec<NtTimer>, pid: u32, handle: u32) -> (r: Vec<NtTimer>)
    ensures
        r@ == other_timers(t@, pid, handle),
{
    let mut r: Vec<NtTimer> = Vec::new();
    let mut i: usize = 0;
    while i < t.len()
        invariant
            i <= t@.len(),
            r@ == other_timers(t@.take(i as int), pid, handle),
        decreases t@.len() - i,
    {
        let x: NtTimer = t[i];
        if !(x.pid == pid && x.handle == handle) {
            r.push(x);
        }
        i = i + 1;
        assert(t@.take(i as int).drop_last() =~= t@.take(i - 1));
    }
    assert(t@.take(i as int) =~= t@);
    r
}

/// The period of a timer in milliseconds, 0 for a single firing.
pub open spec fn period_of(period: i32) -> u32 {
    if period > 0 {
        period as u32
    } else {
        0
    }
}

impl EventLoop {
    /// Sets a timer, in place of one that its handle may have. One that is due at once fires at once.
    /// `prev` is whether it had fired, as the kernel says.
    pub fn handle_set_timer(
        &mut self,
        client_fd: i32,
        req: Option<SetTimerRequest>,
        prev: Option<u32>,
        now: u64,
        real_100ns: i64,
    ) -> (r: Reply)
        requires
            old(self).wf(),
            real_100ns >= 0,
        ensures
            final(self).wf(),
            match req {
                None => *final(self) == *old(self) && r@ == number_answer(STATUS_INVALID_PARAMETER, 0),
                Some(q) => {
                    let pid = pid_of(old(self).clients.clients@, client_fd);
                    let end = timer_end(q.expire, now, real_100ns);
                    let others = other_timers(old(self).ports.timers@, pid, q.handle);
                    &&& *final(self) == (EventLoop {
                        ports: Ports { timers: final(self).ports.timers, ..old(self).ports },
                        outbox: final(self).outbox,
                        ..*old(self)
                    })
                    &&& if end <= now {
                        &&& final(self).ports.timers@ == others
                        &&& final(self).outbox@ == with_signal(
                            old(self).sync.objects@,
                            old(self).outbox@,
                            pid,
                            q.handle,
                        )
                    } else {
                        &&& final(self).ports.timers@ == others.push(
                            NtTimer {
                                pid,
                                handle: q.handle,
                                deadline: end,
                                period_ms: period_of(q.period),
                            },
                        )
                        &&& final(self).outbox@ == old(self).outbox@
                    }
                    &&& r@ == fired_answer(0, prev)
                },
            },
    {
        let q = match req {
            Some(q) => q,
            None => {
                return reply_handle(STATUS_INVALID_PARAMETER, 0);
            },
        };
        let pid: u32 = self.client_pid(client_fd);
        let deadline: u64 = timer_deadline(q.expire, now, real_100ns);
        self.ports.timers = keep_others(&self.ports.timers, pid, q.handle);
        if deadline <= now {
            self.signal(pid, q.handle);
        } else {
            let period_ms: u32 = if q.period > 0 {
                q.period as u32
            } else {
                0
            };
            self.ports.timers.push(NtTimer { pid, handle: q.handle, deadline, period_ms });
        }
        let p: u32 = match prev {
            Some(p) => p,
            None => 0,
        };
        reply_handle(0, p)
    }

    /// Stops a timer and resets its event.
    pub fn handle_cancel_timer(&mut self, client_fd: i32, req: Option<u32>, prev: Option<u32>) -> (r: Reply)
        requires
            old(self).wf(),
        ensures
            final(self).wf(),
            match req {
                None => *final(self) == *old(self) && r@ == number_answer(STATUS_INVALID_PARAMETER, 0),
                Some(handle) => {
                    let key = (pid_of(old(self).clients.clients@, client_fd), handle);
                    &&& *final(self) == (EventLoop {
                        ports: Ports { timers: final(self).ports.timers, ..old(self).ports },
                        outbox: final(self).outbox,
                        ..*old(self)
                    })
                    &&& final(self).ports.timers@ == other_timers(
                        old(self).ports.timers@,
                        key.0,
                        handle,
                    )
                    &&& final(self).outbox@ == (if old(self).sync.objects@.contains_key(key) {
                        old(self).outbox@.push(
                            Action::ResetEvent { object: old(self).sync.objects@[key].fd },
                        )
                    } else {
                        old(self).outbox@
                    })
                    &&& r@ == fired_answer(0, prev)
                },
            },
    {
        let handle: u32 = match req {
            Some(h) => h,
            None => {
                return reply_handle(STATUS_INVALID_PARAMETER, 0);
            },
        };
        let pid: u32 = self.client_pid(client_fd);
        self.ports.timers = keep_others(&self.ports.timers, pid, handle);
        match self.sync.objects.get((pid, handle)) {
            Some(o) => {
                let object: i32 = o.fd;
                self.outbox.push(Action::ResetEvent { object });
            },
            None => {},
        }
        let p: u32 = match prev {
            Some(p) => p,
            None => 0,
        };
        reply_handle(0, p)
    }

    /// Whether a timer has fired.
    pub fn handle_get_timer_info(complete: bool, prev: Option<u32>) -> (r: Reply)
        ensures
            r@ == (if complete {
                block(
                    head(0, 0) + u64_bytes(0) + u32_bytes(
                        match prev {
                            Some(p) => p,
                            None => 0,
                        },
                    ),
                )
            } else {
                status(STATUS_INVALID_PARAMETER)
            }),
    {
        if !complete {
            return reply_status(STATUS_INVALID_PARAMETER);
        }
        let p: u32 = match prev {
            Some(p) => p,
            None => 0,
        };
        let mut body: Vec<u8> = header(0, 0);
        push_u64(&mut body, 0);
        push_u32(&mut body, p);
        reply_fixed(body.as_slice())
    }

    /// Fires the timers that are due.
    pub fn check_nt_timers(&mut self, now: u64)
        requires
            old(self).wf(),
        ensures
            final(self).wf(),
            *final(self) == (EventLoop {
                ports: Ports { timers: final(self).ports.timers, ..old(self).ports },
                outbox: final(self).outbox,
                ..*old(self)
            }),
            final(self).ports.timers@ == ticked(old(self).ports.timers@, now),
            final(self).outbox@ == with_signals(
                old(self).sync.objects@,
                old(self).outbox@,
                due(old(self).ports.timers@, now),
            ),
    {
        let ghost t = self.ports.timers@;
        let mut left: Vec<NtTimer> = Vec::new();
        let mut i: usize = 0;
        while i < self.ports.timers.len()
            invariant
                i <= t.len(),
                t == old(self).ports.timers@,
                self.wf(),
                *self == (EventLoop { outbox: self.outbox, ..*old(self) }),
                left@ == ticked(t.take(i as int), now),
                self.outbox@ == with_signals(
                    old(self).sync.objects@,
                    old(self).outbox@,
                    due(t.take(i as int), now),
                ),
            decreases t.len() - i,
        {
            let x: NtTimer = self.ports.timers[i];
            proof {
                assert(t.take(i + 1).drop_last() =~= t.take(i as int));
                let d = due(t.take(i as int), now);
                assert(d.push((x.pid, x.handle)).drop_last() =~= d);
            }
            if x.deadline > now {
                left.push(x);
            } else {
                self.signal(x.pid, x.handle);
                if x.period_ms > 0 {
                    let period: u64 = x.period_ms as u64 * 1_000_000;
                    let deadline: u64 = if now > u64::MAX - period {
                        u64::MAX
                    } else {
                        now + period
                    };
                    left.push(NtTimer { deadline, ..x });
                }
            }
            i = i + 1;
        }
        assert(t.take(i as int) =~= t);
        self.ports.timers = left;
    }

    /// Gives a client's process a handle whose descriptor is a fresh event, so that the client can
    /// hold the descriptor. Without one the answer is a handle that stands for nothing.
    pub fn create_event_handle(&mut self, client_fd: i32) -> (r: u32)
        requires
            old(self).wf(),
        ensures
            final(self).wf(),
            event_handle(
                *old(self),
                *final(self),
                pid_of(old(self).clients.clients@, client_fd),
                r,
            ),
    {
        let pid: u32 = self.client_pid(client_fd);
        match self.get_or_create_event(true, false) {
            Some(fd) => {
                let oid: u64 = self.alloc_object_id();
                let e = HandleEntry::with_fd(oid, fd, FD_TYPE_FILE, 0x001F_000F, 0x20);
                let h: u32 = self.allocate_in(pid, e);
                if h != 0 {
                    self.sync.objects.insert((pid, h), SyncObject { fd, kind: SYNC_INTERNAL });
                    self.sync.created = bump(self.sync.created);
                    h
                } else {
                    self.outbox.push(Action::Close { fd });
                    4
                }
            },
            None => 4,
        }
    }

    /// Creates the object through which a debugger would learn of events.
    pub fn handle_create_debug_obj(&mut self, client_fd: i32) -> (r: Reply)
        requires
            old(self).wf(),
        ensures
            final(self).wf(),
            exists|h: u32| #[trigger]
                event_handle(
                    *old(self),
                    *final(self),
                    pid_of(old(self).clients.clients@, client_fd),
                    h,
                ) && r@ == handle_answer(0, h),
    {
        let h: u32 = self.create_event_handle(client_fd);
        reply_handle(0, h)
    }

    /// Creates the object through which a driver takes its requests.
    pub fn handle_create_device_manager(&mut self, client_fd: i32) -> (r: Reply)
        requires
            old(self).wf(),
        ensures
            final(self).wf(),
            exists|h: u32| #[trigger]
                event_handle(
                    *old(self),
                    *final(self),
                    pid_of(old(self).clients.clients@, client_fd),
                    h,
                ) && r@ == handle_answer(0, h),
    {
        let h: u32 = self.create_event_handle(client_fd);
        reply_handle(0, h)
    }

    /// Keeps something for an object of a driver.
    pub fn handle_set_kernel_object_ptr(&mut self, client_fd: i32, req: Option<KernelObjectRequest>) -> (r:
        Reply)
        requires
            old(self).wf(),
        ensures
            final(self).wf(),
            *final(self) == (EventLoop {
                objects: Objects {
                    kernel_objects: final(self).objects.kernel_objects,
                    ..old(self).objects
                },
                ..*old(self)
            }),
            match req {
                Some(q) => final(self).objects.kernel_objects@ == old(self).objects.kernel_objects@.insert(
                    (pid_of(old(self).clients.clients@, client_fd), q.manager, q.handle),
                    q.user_ptr,
                ) && r@ == status(0),
                None => final(self).objects.kernel_objects@ == old(self).objects.kernel_objects@ && r@
                    == status(STATUS_INVALID_PARAMETER),
            },
    {
        match req {
            Some(q) => {
                let pid: u32 = self.client_pid(client_fd);
                self.objects.kernel_objects.insert((pid, q.manager, q.handle), q.user_ptr);
                reply_status(0)
            },
            None => reply_status(STATUS_INVALID_PARAMETER),
        }
    }

    /// What is kept for an object of a driver, or 0.
    pub fn handle_get_kernel_object_ptr(&self, client_fd: i32, req: Option<(u32, u32)>) -> (r: Reply)
        requires
            self.wf(),
        ensures
            match req {
                Some((manager, handle)) => {
                    let key = (pid_of(self.clients.clients@, client_fd), manager, handle);
                    r@ == block(
                        head(0, 0) + u64_bytes(
                            if self.objects.kernel_objects@.contains_key(key) {
                                self.objects.kernel_objects@[key]
                            } else {
                                0
                            },
                        ),
                    )
                },
                None => r@ == block(head(STATUS_INVALID_PARAMETER, 0) + u64_bytes(0)),
            },
    {
        let (error, ptr): (u32, u64) = match req {
            Some((manager, handle)) => {
                let pid: u32 = self.client_pid(client_fd);
                match self.objects.kernel_objects.get((pid, manager, handle)) {
                    Some(p) => (0, *p),
                    None => (0, 0),
                }
            },
            None => (STATUS_INVALID_PARAMETER, 0),
        };
        let mut body: Vec<u8> = header(error, 0);
        push_u64(&mut body, ptr);
        reply_fixed(body.as_slice())
    }

    /// Forgets the objects of a driver for which one thing is kept.
    pub fn handle_release_kernel_object(&mut self, client_fd: i32, req: Option<(u32, u64)>) -> (r: Reply)
        requires
            old(self).wf(),
        ensures
            final(self).wf(),
            *final(self) == (EventLoop {
                objects: Objects {
                    kernel_objects: final(self).objects.kernel_objects,
                    ..old(self).objects
                },
                ..*old(self)
            }),
            match req {
                Some((manager, user_ptr)) => final(self).objects.kernel_objects@ == rest(
                    old(self).objects.kernel_objects@,
                    wanted::<(u32, u32, u32), u64, KeptFor>(
                        KeptFor {
                            pid: pid_of(old(self).clients.clients@, client_fd),
                            manager,
                            user_ptr,
                        },
                    ),
                ) && r@ == status(0),
                None => final(self).objects.kernel_objects@ == old(self).objects.kernel_objects@ && r@
                    == status(STATUS_INVALID_PARAMETER),
            },
    {
        match req {
            Some((manager, user_ptr)) => {
                let pid: u32 = self.client_pid(client_fd);
                let _ = self.objects.kernel_objects.extract(&KeptFor { pid, manager, user_ptr });
                reply_status(0)
            },
            None => reply_status(STATUS_INVALID_PARAMETER),
        }
    }

    /// An object of a driver for which one thing is kept. Of several, any.
    pub fn handle_get_kernel_object_handle(&self, client_fd: i32, req: Option<(u32, u64)>) -> (r: Reply)
        requires
            self.wf(),
        ensures
            match req {
                Some((manager, user_ptr)) => exists|h: u32| #[trigger]
                    kept_handle(
                        self.objects.kernel_objects@,
                        pid_of(self.clients.clients@, client_fd),
                        manager,
                        user_ptr,
                        h,
                    ) && r@ == (if h != 0 {
                        handle_answer(0, h)
                    } else {
                        handle_answer(STATUS_OBJECT_NAME_NOT_FOUND, 0)
                    }),
                None => r@ == handle_answer(STATUS_INVALID_PARAMETER, 0),
            },
    {
        let (manager, user_ptr): (u32, u64) = match req {
            Some((m, p)) => (m, p),
            None => {
                return reply_handle(STATUS_INVALID_PARAMETER, 0);
            },
        };
        let pid: u32 = self.client_pid(client_fd);
        let h: u32 = self.find_kept(pid, manager, user_ptr);
        if h != 0 {
            reply_handle(0, h)
        } else {
            reply_handle(STATUS_OBJECT_NAME_NOT_FOUND, 0)
        }
    }

    /// A handle under which something is kept, or 0.
    fn find_kept(&self, pid: u32, manager: u32, user_ptr: u64) -> (h: u32)
        requires
            self.wf(),
        ensures
            kept_handle(self.objects.kernel_objects@, pid, manager, user_ptr, h),
    {
        let ghost w = self.objects.kernel_objects.walk();
        let ghost m = self.objects.kernel_objects@;
        proof {
            self.objects.kernel_objects.lemma_walk();
        }
        let mut i: usize = 0;
        while i < self.objects.kernel_objects.len()
            invariant
                self.wf(),
                i <= w.len(),
                w == self.objects.kernel_objects.walk(),
                m == self.objects.kernel_objects@,
                enumerates(w, m),
                forall|j: int|
                    #![trigger w[j]]
                    0 <= j < i ==> !(w[j].0.0 == pid && w[j].0.1 == manager && w[j].1 == user_ptr),
            decreases w.len() - i,
        {
            let (k, v) = self.objects.kernel_objects.at(i);
            if k.0 == pid && k.1 == manager && *v == user_ptr {
                assert(m.contains_key(w[i as int].0));
                return k.2;
            }
            i = i + 1;
        }
        assert forall|h2: u32| #[trigger] m.contains_key((pid, manager, h2)) implies m[(pid, manager, h2)]
            != user_ptr by {
            let j = choose|j: int| 0 <= j < w.len() && #[trigger] w[j].0 == (pid, manager, h2);
            assert(m[w[j].0] == w[j].1);
        }
        0
    }

    /// Takes over the style of a window that was created.
    pub fn handle_init_window_info(&mut self, buf: &[u8]) -> (r: Reply)
        requires
            old(self).wf(),
        ensures
            final(self).wf(),
            r@ == status(0),
            *final(self) == (EventLoop {
                desktop: Desktop {
                    window_states: final(self).desktop.window_states,
                    ..old(self).desktop
                },
                ..*old(self)
            }),
            final(self).desktop.window_states@ == ({
                let w = old(self).desktop.window_states@;
                let handle = u32_at(buf@, 12);
                if buf@.len() >= 26 && w.contains_key(handle) {
                    w.insert(
                        handle,
                        WindowState {
                            style: u32_at(buf@, 16),
                            ex_style: u32_at(buf@, 20),
                            is_unicode: u16_at(buf@, 24),
                            paint_flags: w[handle].paint_flags | 0x40,
                            ..w[handle]
                        },
                    )
                } else {
                    w
                }
            }),
    {
        if buf.len() >= 26 {
            let handle: u32 = read_u32(buf, 12);
            match self.desktop.window_states.get_mut(handle) {
                Some(w) => {
                    w.style = read_u32(buf, 16);
                    w.ex_style = read_u32(buf, 20);
                    w.is_unicode = read_u16(buf, 24);
                    w.paint_flags = w.paint_flags | 0x40;
                },
                None => {},
            }
        }
        reply_status(0)
    }
}

/// A handle under which something is kept, or 0 where it is kept nowhere.
pub open spec fn kept_handle(m: Map<(u32, u32, u32), u64>, pid: u32, manager: u32, user_ptr: u64, h: u32) -> bool {
    ||| m.contains_key((pid, manager, h)) && m[(pid, manager, h)] == user_ptr
    ||| h == 0 && forall|h2: u32| #[trigger]
        m.contains_key((pid, manager, h2)) ==> m[(pid, manager, h2)] != user_ptr
}

/// A timer fires so many times 100 ns from now as its negative number says, or with its date; a date that
/// has passed, and 0, fire now.
pub proof fn lemma_when_timers_fire(expire: i64, now: u64, date: i64)
    requires
        date >= 0,
    ensures
        expire < 0 && now - 100 * expire <= 0xFFFF_FFFF_FFFF_FFFF ==> timer_end(expire, now, date) - now
            == -100 * expire,
        expire > date && now + 100 * (expire - date) <= 0xFFFF_FFFF_FFFF_FFFF ==> timer_end(
            expire,
            now,
            date,
        ) - now == 100 * (expire - date),
        0 <= expire <= date ==> timer_end(expire, now, date) == now,
{
}

/// Every timer whose time has come fires, and no other does. One with a period starts again, so many
/// milliseconds from now; one without is gone; one whose time has not come is as it was.
pub proof fn lemma_timers_fire_when_due(t: Seq<NtTimer>, now: u64, i: int)
    requires
        0 <= i < t.len(),
    ensures
        t[i].deadline <= now ==> due(t, now).contains((t[i].pid, t[i].handle)),
        t[i].deadline > now ==> ticked(t, now).contains(t[i]),
        t[i].deadline <= now && t[i].period_ms > 0 && now + 1_000_000 * t[i].period_ms <= u64::MAX ==> ticked(
            t,
            now,
        ).contains(NtTimer { deadline: (now + 1_000_000 * t[i].period_ms) as u64, ..t[i] }),
    decreases t.len(),
{
    let d = t.drop_last();
    let (all, before) = (ticked(t, now), ticked(d, now));
    let (fired, fired_before) = (due(t, now), due(d, now));
    let again = NtTimer { deadline: capped(now + t[i].period_ms * 1_000_000), ..t[i] };
    if i == t.len() - 1 {
        if t[i].deadline <= now {
            assert(fired[fired.len() - 1] == (t[i].pid, t[i].handle));
            if t[i].period_ms > 0 {
                assert(all[all.len() - 1] == again);
            }
        } else {
            assert(all[all.len() - 1] == t[i]);
        }
    } else {
        assert(d[i] == t[i]);
        lemma_timers_fire_when_due(d, now, i);
        if t[i].deadline <= now {
            let k = choose|k: int| 0 <= k < fired_before.len() && fired_before[k] == (t[i].pid, t[i].handle);
            assert(fired[k] == fired_before[k]);
            if t[i].period_ms > 0 && now + 1_000_000 * t[i].period_ms <= u64::MAX {
                let m = choose|m: int| 0 <= m < before.len() && before[m] == again;
                assert(all[m] == before[m]);
            }
        } else {
            let m = choose|m: int| 0 <= m < before.len() && before[m] == t[i];
            assert(all[m] == before[m]);
        }
    }
}

/// What fires was due, and what is left was there before or starts again.
pub proof fn lemma_only_due_timers_fire(t: Seq<NtTimer>, now: u64, j: int)
    requires
        0 <= j < due(t, now).len(),
    ensures
        exists|i: int|
            0 <= i < t.len() && (#[trigger] t[i]).deadline <= now && due(t, now)[j] == (t[i].pid, t[i].handle),
        due(t, now).len() <= t.len(),
    decreases t.len(),
{
    let d = t.drop_last();
    if t.len() > 0 {
        let before = due(d, now);
        if j < before.len() {
            assert(due(t, now)[j] == before[j]);
            lemma_only_due_timers_fire(d, now, j);
            let i = choose|i: int|
                0 <= i < d.len() && (#[trigger] d[i]).deadline <= now && before[j] == (d[i].pid, d[i].handle);
            assert(t[i] == d[i]);
        } else {
            assert(t[t.len() - 1].deadline <= now);
            if before.len() > 0 {
                lemma_only_due_timers_fire(d, now, 0);
            }
        }
    }
}

/// Setting or stopping a timer takes away the one that its handle had, and no other.
pub proof fn lemma_other_timers_stay(t: Seq<NtTimer>, pid: u32, handle: u32, x: NtTimer)
    ensures
        other_timers(t, pid, handle).contains(x) <==> t.contains(x) && !(x.pid == pid && x.handle == handle),
    decreases t.len(),
{
    let all = other_timers(t, pid, handle);
    if t.len() > 0 {
        let d = t.drop_last();
        let before = other_timers(d, pid, handle);
        lemma_other_timers_stay(d, pid, handle, x);
        if t.contains(x) && x != t.last() {
            let i = choose|i: int| 0 <= i < t.len() && t[i] == x;
            assert(d[i] == x);
        }
        if d.contains(x) {
            let i = choose|i: int| 0 <= i < d.len() && d[i] == x;
            assert(t[i] == x);
        }
        if before.contains(x) {
            let i = choose|i: int| 0 <= i < before.len() && before[i] == x;
            assert(all[i] == x);
        }
        if !(t.last().pid == pid && t.last().handle == handle) {
            assert(all[all.len() - 1] == t.last());
            if all.contains(x) && x != t.last() {
                let i = choose|i: int| 0 <= i < all.len() && all[i] == x;
                assert(before[i] == x);
            }
        }
        assert(t[t.len() - 1] == t.last());
    }
}

/// A period of so many milliseconds; one that is not positive means a single firing.
pub proof fn lemma_periods(period: i32)
    ensures
        period > 0 ==> period_of(period) == period,
        period <= 0 ==> period_of(period) == 0,
{
}

/// A message as a client reads it: its key at 8, its value at 16, its information at 24, its status at 32,
/// and at 36 the handle to wait through.
#[verifier::spinoff_prover]
#[verifier::rlimit(40)]
pub proof fn lemma_message_told(error: u32, m: CompletionMsg, wait_handle: u32)
    ensures
        ({
            let r = message_answer(error, m, wait_handle);
            &&& r.len() == 64
            &&& u32_at(r, 0) == error
            &&& u64_at(r, 8) == m.ckey
            &&& u64_at(r, 16) == m.cvalue
            &&& u64_at(r, 24) == m.information
            &&& u32_at(r, 32) == m.status
            &&& u32_at(r, 36) == wait_handle
        }),
{
    let body = head(error, 0) + u64_bytes(m.ckey) + u64_bytes(m.cvalue) + u64_bytes(m.information)
        + u32_bytes(m.status) + u32_bytes(wait_handle);
    let r = block(body);
    assert(body.len() == 40);
    assert(r.subrange(0, 4) =~= u32_bytes(error));
    lemma_read_back_u32(r, 0, error);
    assert(r.subrange(8, 16) =~= u64_bytes(m.ckey));
    lemma_read_back_u64(r, 8, m.ckey);
    assert(r.subrange(16, 24) =~= u64_bytes(m.cvalue));
    lemma_read_back_u64(r, 16, m.cvalue);
    assert(r.subrange(24, 32) =~= u64_bytes(m.information));
    lemma_read_back_u64(r, 24, m.information);
    assert(r.subrange(32, 36) =~= u32_bytes(m.status));
    lemma_read_back_u32(r, 32, m.status);
    assert(r.subrange(36, 40) =~= u32_bytes(wait_handle));
    lemma_read_back_u32(r, 36, wait_handle);
}

/// No message is lost and none is made up: a message that is posted is either kept for the thread that has
/// waited on the port the shortest, whose event is set, or it is the last in the port's queue.
pub proof fn lemma_message_arrives(before: EventLoop, after: EventLoop, port: u32, msg: CompletionMsg)
    requires
        posted(before, after, port, msg),
    ensures
        list_of(before.ports.waiters@, port).len() == 0 ==> list_of(after.ports.queues@, port) == list_of(
            before.ports.queues@,
            port,
        ).push(msg) && after.ports.cache@ == before.ports.cache@,
        list_of(before.ports.waiters@, port).len() > 0 ==> after.ports.queues@ == before.ports.queues@
            && after.ports.cache@[list_of(before.ports.waiters@, port).last().client_fd] == msg && list_of(
            after.ports.waiters@,
            port,
        ) == list_of(before.ports.waiters@, port).drop_last(),
        forall|p: u32|
            p != port ==> list_of(after.ports.queues@, p) == #[trigger] list_of(before.ports.queues@, p),
{
}

/// Taking a message takes the first that the port has, and leaves the others in their order.
pub proof fn lemma_first_message_taken(before: EventLoop, after: EventLoop, port: u32)
    requires
        message_taken(before, after, port),
        list_of(before.ports.queues@, port).len() > 0,
    ensures
        list_of(after.ports.queues@, port) == list_of(before.ports.queues@, port).skip(1),
        forall|p: u32|
            p != port ==> list_of(after.ports.queues@, p) == #[trigger] list_of(before.ports.queues@, p),
{
    assert(list_of(after.ports.queues@, port) =~= list_of(before.ports.queues@, port).skip(1));
}

/// A process that is put into a job is one of its processes, once, and the job is found by the process; a
/// job that reports to a port tells it of the process under its own key.
pub proof fn lemma_process_joins_job(before: EventLoop, after: EventLoop, oid: u64, pid: u32)
    requires
        job_assigned(before, after, oid, pid),
        before.ports.jobs@.contains_key(oid),
    ensures
        after.ports.process_job@[pid] == oid,
        after.ports.jobs@[oid].processes@.contains(pid),
        after.ports.jobs@[oid].completion_key == before.ports.jobs@[oid].completion_key,
        before.ports.jobs@[oid].processes@.contains(pid) ==> after.ports.jobs@[oid].num_processes
            == before.ports.jobs@[oid].num_processes,
        !before.ports.jobs@[oid].processes@.contains(pid) && before.ports.jobs@[oid].num_processes < u32::MAX
            ==> after.ports.jobs@[oid].num_processes == before.ports.jobs@[oid].num_processes + 1,
        before.ports.jobs@[oid].completion_port_handle matches Some(port) ==> (list_of(
            before.ports.waiters@,
            port,
        ).len() == 0 ==> {
            let m = list_of(after.ports.queues@, port).last();
            m.ckey == before.ports.jobs@[oid].completion_key && m.cvalue == pid && m.status
                == 1 && m.information == 0
        }),
{
    let mid = choose|mid: EventLoop|
        #![trigger job_joined(before, mid, oid, pid)]
        job_joined(before, mid, oid, pid) && if before.ports.jobs@.contains_key(oid)
            && before.ports.jobs@[oid].completion_port_handle is Some {
            posted(
                mid,
                after,
                before.ports.jobs@[oid].completion_port_handle->Some_0,
                CompletionMsg {
                    ckey: before.ports.jobs@[oid].completion_key,
                    cvalue: pid as u64,
                    information: 0,
                    status: JOB_OBJECT_MSG_NEW_PROCESS,
                },
            )
        } else {
            after == mid
        };
    let (a, b) = (before.ports.jobs@[oid], mid.ports.jobs@[oid]);
    if !a.processes@.contains(pid) {
        assert(b.processes@[b.processes@.len() - 1] == pid);
    }
}

/// A process is refused where a handle stands for nothing, and where it has no thread left.
pub proof fn lemma_who_joins_no_job(s: EventLoop, fd: i32, q: AssignJobRequest)
    ensures
        object_id_of(s, fd, q.job) is None || object_id_of(s, fd, q.process) is None ==> assign_error(
            s,
            fd,
            Some(q),
        ) == Some(0xC000_0008u32),
        object_id_of(s, fd, q.job) is Some ==> (object_id_of(s, fd, q.process) matches Some(p)
            ==> !s.objects.processes@.contains_key(p as u32) ==> assign_error(s, fd, Some(q)) == Some(
            0xC000_010Au32,
        )),
        object_id_of(s, fd, q.job) is Some ==> (object_id_of(s, fd, q.process) matches Some(p)
            ==> s.objects.processes@.contains_key(p as u32) && s.objects.processes@[p as u32].threads@.len() > 0
            ==> assign_error(s, fd, Some(q)) is None),
{
}

/// The answers that depend on nothing: a driver has nothing to do, directories are not kept, images are not
/// tracked, timers and ports have no names, and all else of this kind is granted.
#[verifier::spinoff_prover]
#[verifier::rlimit(40)]
pub proof fn lemma_fixed_answers()
    ensures
        fixed_status("get_next_device_request"@) == Some(0x0000_0103u32),
        fixed_status("get_directory_cache_entry"@) == Some(0x8000_001Au32),
        fixed_status("get_image_view_info"@) == Some(0xC000_0141u32),
        fixed_status("open_timer"@) == Some(0xC000_0034u32),
        fixed_status("open_completion"@) == Some(0xC000_0034u32),
        fixed_status("add_fd_completion"@) == Some(0u32),
        fixed_status("get_exception_status"@) == Some(0u32),
        fixed_status("send_socket"@) == Some(0u32),
        fixed_status("recv_socket"@) == Some(0u32),
        fixed_status("socket_get_events"@) == Some(0u32),
        fixed_status("map_builtin_view"@) == Some(0u32),
        fixed_status("set_irp_result"@) == Some(0u32),
        fixed_status("flush"@) == Some(0u32),
        fixed_status("lock_file"@) == Some(0u32),
        fixed_status("unlock_file"@) == Some(0u32),
        fixed_status("get_volume_info"@) == Some(0u32),
        fixed_status("read_directory_changes"@) == Some(0u32),
        fixed_status("read_change"@) == Some(0u32),
        fixed_status("set_fd_completion_mode"@) == Some(0u32),
        fixed_status("set_fd_disp_info"@) == Some(0u32),
        fixed_status("set_fd_name_info"@) == Some(0u32),
        fixed_status("is_same_mapping"@) == Some(0u32),
        fixed_status("get_object_type"@) == Some(0u32),
        fixed_status("get_token_default_dacl"@) == Some(0u32),
        fixed_status("get_token_groups"@) == Some(0u32),
        fixed_status("get_token_privileges"@) == Some(0u32),
        fixed_status("get_security_object"@) == Some(0u32),
        fixed_status("set_security_object"@) == Some(0u32),
        fixed_status("load_registry"@) == Some(0u32),
        fixed_status("flush_key"@) == Some(0u32),
        fixed_status("unload_registry"@) == Some(0u32),
        fixed_status("save_registry"@) == Some(0u32),
        fixed_status("add_mapping_committed_range"@) == Some(0u32),
        granted_requests().len() == 28,
{
    reveal_strlit("get_next_device_request");
    reveal_strlit("get_directory_cache_entry");
    reveal_strlit("get_image_view_info");
    reveal_strlit("open_timer");
    reveal_strlit("open_completion");
    reveal_strlit("add_fd_completion");
    reveal_strlit("get_exception_status");
    reveal_strlit("send_socket");
    reveal_strlit("recv_socket");
    reveal_strlit("socket_get_events");
    reveal_strlit("map_builtin_view");
    reveal_strlit("set_irp_result");
    reveal_strlit("flush");
    reveal_strlit("lock_file");
    reveal_strlit("unlock_file");
    reveal_strlit("get_volume_info");
    reveal_strlit("read_directory_changes");
    reveal_strlit("read_change");
    reveal_strlit("set_fd_completion_mode");
    reveal_strlit("set_fd_disp_info");
    reveal_strlit("set_fd_name_info");
    reveal_strlit("is_same_mapping");
    reveal_strlit("get_object_type");
    reveal_strlit("get_token_default_dacl");
    reveal_strlit("get_token_groups");
    reveal_strlit("get_token_privileges");
    reveal_strlit("get_security_object");
    reveal_strlit("set_security_object");
    reveal_strlit("load_registry");
    reveal_strlit("flush_key");
    reveal_strlit("unload_registry");
    reveal_strlit("save_registry");
    reveal_strlit("add_mapping_committed_range");
    assert("get_next_device_request"@.len() == 23);
    assert("get_directory_cache_entry"@.len() == 25);
    assert("get_image_view_info"@.len() == 19);
    assert("open_timer"@.len() == 10);
    assert("open_completion"@.len() == 15);
    assert("add_fd_completion"@.len() == 17);
    assert("get_exception_status"@.len() == 20);
    assert("send_socket"@.len() == 11);
    assert("recv_socket"@.len() == 11);
    assert("socket_get_events"@.len() == 17);
    assert("map_builtin_view"@.len() == 16);
    assert("set_irp_result"@.len() == 14);
    assert("flush"@.len() == 5);
    assert("lock_file"@.len() == 9);
    assert("unlock_file"@.len() == 11);
    assert("get_volume_info"@.len() == 15);
    assert("read_directory_changes"@.len() == 22);
    assert("read_change"@.len() == 11);
    assert("set_fd_completion_mode"@.len() == 22);
    assert("set_fd_disp_info"@.len() == 16);
    assert("set_fd_name_info"@.len() == 16);
    assert("is_same_mapping"@.len() == 15);
    assert("get_object_type"@.len() == 15);
    assert("get_token_default_dacl"@.len() == 22);
    assert("get_token_groups"@.len() == 16);
    assert("get_token_privileges"@.len() == 20);
    assert("get_security_object"@.len() == 19);
    assert("set_security_object"@.len() == 19);
    assert("load_registry"@.len() == 13);
    assert("flush_key"@.len() == 9);
    assert("unload_registry"@.len() == 15);
    assert("save_registry"@.len() == 13);
    assert("add_mapping_committed_range"@.len() == 27);
    assert("get_volume_info"@[0] == 'g');
    assert("open_completion"@[0] == 'o');
    assert("is_same_mapping"@[0] == 'i');
    assert("get_object_type"@[0] == 'g');
    assert("get_security_object"@[4] == 's');
    assert("get_image_view_info"@[4] == 'i');
    assert("set_security_object"@[0] == 's');
    assert("get_image_view_info"@[0] == 'g');
    assert("unload_registry"@[0] == 'u');
    assert(granted_requests()[0] == "add_fd_completion"@);
    assert(granted_requests()[1] == "get_exception_status"@);
    assert(granted_requests()[2] == "send_socket"@);
    assert(granted_requests()[3] == "recv_socket"@);
    assert(granted_requests()[4] == "socket_get_events"@);
    assert(granted_requests()[5] == "map_builtin_view"@);
    assert(granted_requests()[6] == "set_irp_result"@);
    assert(granted_requests()[7] == "flush"@);
    assert(granted_requests()[8] == "lock_file"@);
    assert(granted_requests()[9] == "unlock_file"@);
    assert(granted_requests()[10] == "get_volume_info"@);
    assert(granted_requests()[11] == "read_directory_changes"@);
    assert(granted_requests()[12] == "read_change"@);
    assert(granted_requests()[13] == "set_fd_completion_mode"@);
    assert(granted_requests()[14] == "set_fd_disp_info"@);
    assert(granted_requests()[15] == "set_fd_name_info"@);
    assert(granted_requests()[16] == "is_same_mapping"@);
    assert(granted_requests()[17] == "get_object_type"@);
    assert(granted_requests()[18] == "get_token_default_dacl"@);
    assert(granted_requests()[19] == "get_token_groups"@);
    assert(granted_requests()[20] == "get_token_privileges"@);
    assert(granted_requests()[21] == "get_security_object"@);
    assert(granted_requests()[22] == "set_security_object"@);
    assert(granted_requests()[23] == "load_registry"@);
    assert(granted_requests()[24] == "flush_key"@);
    assert(granted_requests()[25] == "unload_registry"@);
    assert(granted_requests()[26] == "save_registry"@);
    assert(granted_requests()[27] == "add_mapping_committed_range"@);
}

/// A debugger may let a process go on in four ways.
pub proof fn lemma_ways_to_go_on(s: u32)
    ensures
        continue_known(0x0001_0001) && continue_known(0x0001_0002) && continue_known(0x4001_0001)
            && continue_known(0x8001_0001),
        s != 0x0001_0001 && s != 0x0001_0002 && s != 0x4001_0001 && s != 0x8001_0001 ==> !continue_known(s),
{
}

/// A thread that finds no message waits through the port itself, behind those that wait already; the port has
/// an event from then on, where there is one to be had.
pub proof fn lemma_waits_through_port(before: EventLoop, after: EventLoop, fd: i32, port: u32)
    requires
        waits_for_message(before, after, fd, port),
    ensures
        ({
            let pid = pid_of(before.clients.clients@, fd);
            let w = list_of(after.ports.waiters@, port);
            &&& w.len() == list_of(before.ports.waiters@, port).len() + 1
            &&& w.last().client_fd == fd && w.last().pid == pid && w.last().wait_handle == port
            &&& after.ports.queues == before.ports.queues
            &&& before.sync.objects@.contains_key((pid, port)) ==> after.sync.objects@ == before.sync.objects@
            &&& !before.sync.objects@.contains_key((pid, port)) && before.sync.available
                && before.sync.manual_events@.len() > 0 ==> after.sync.objects@.contains_key((pid, port))
                && after.sync.objects@[(pid, port)].fd == before.sync.manual_events@.last()
                && after.sync.objects@[(pid, port)].kind == 1
        }),
{
}

/// A job starts without processes, limits and port; what is changed of a job is changed of no other.
pub proof fn lemma_job_starts_empty(mid: EventLoop, after: EventLoop, oid: u64, handle: u32, other: u64)
    requires
        job_created(mid, after, oid, handle),
        handle != 0,
    ensures
        after.ports.jobs@.contains_key(oid),
        ({
            let j = after.ports.jobs@[oid];
            j.processes@.len() == 0 && j.num_processes == 0 && j.total_processes == 0 && j.limit_flags == 0
                && j.completion_port_handle is None && j.completion_key == 0
        }),
        other != oid ==> (after.ports.jobs@.contains_key(other) <==> mid.ports.jobs@.contains_key(other)),
{
}

/// A handle that is an event: the process may do all that can be done with one, and waits for it through its
/// descriptor. Without an event to be had the answer is 4.
pub proof fn lemma_event_behind_handle(before: EventLoop, after: EventLoop, pid: u32, r: u32)
    requires
        event_handle(before, after, pid, r),
    ensures
        !before.sync.available || before.sync.manual_events@.len() == 0 ==> r == 4 && after.objects
            == before.objects,
        before.sync.available && before.sync.manual_events@.len() > 0 && before.objects.processes@.contains_key(pid)
            && before.objects.processes@[pid].handles.next() != 0 ==> ({
            let fd = before.sync.manual_events@.last();
            &&& entry_in(after.objects.processes@, pid, r) matches Some(e) && e.fd == Some(fd) && e.obj_type == 1
                && e.access == 0x1F_000F && e.options == 0x20 && e.object_id == before.objects.next_object_id
            &&& after.sync.objects@.contains_key((pid, r)) && after.sync.objects@[(pid, r)].fd == fd
            &&& after.sync.manual_events@ == before.sync.manual_events@.drop_last()
        }),
        before.sync.available && before.sync.manual_events@.len() > 0 && !before.objects.processes@.contains_key(pid)
            ==> r == 4 && after.outbox@.last() == (Action::Close { fd: before.sync.manual_events@.last() }),
{
    if before.sync.available && before.sync.manual_events@.len() > 0 && before.objects.processes@.contains_key(pid) {
        let e = HandleEntry {
            object_id: before.objects.next_object_id,
            fd: Some(before.sync.manual_events@.last()),
            obj_type: FD_TYPE_FILE,
            access: 0x001F_000F,
            options: 0x20,
        };
        lemma_handle_given(
            before.objects.processes@,
            after.objects.processes@,
            pid,
            e,
            before.objects.processes@[pid].handles.next(),
        );
    }
}

/// What is forgotten for a driver is what its process keeps under the one thing for the one manager.
pub proof fn lemma_kept_for_driver(k: KeptFor, key: (u32, u32, u32), v: u64)
    ensures
        k.wants(key, v) <==> key.0 == k.pid && key.1 == k.manager && v == k.user_ptr,
{
}

} // verus!
