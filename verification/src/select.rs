//! The selection: one request by which a thread waits, sleeps, takes system calls and suspends itself.
use crate::bytes::{lemma_read_back_u32, read_u32, u32_at, u32_bytes};
use crate::names::{lemma_places, named, place};
use crate::objects::{allocated, bare_entry, holds, HandleEntry, Process};
use crate::pipes::io_call;
use crate::state::{
    bumped, by_deadline, client_event, handle_closed, next_event, pid_of, stocks_after, tid_of, took_number,
    with_client_event, with_cookie, with_signals, Action, Client, Clients, EventLoop, NamedPipeInfo, Objects,
    PendingWait, PipeListenAsync, Pipes, Sync, SyncObject, SYNC_EVENT,
};
use crate::wire::{
    block, head, header, lemma_fields_told, reply_status, reply_two, reply_vararg, status, Reply, STATUS_INVALID_PARAMETER,
    STATUS_KERNEL_APC, STATUS_PENDING, STATUS_TIMEOUT, STATUS_USER_APC,
};
use crate::table::{list_of, pop_under, popped};
use vstd::prelude::*;

verus! {

/// The fields of a selection that count here.
#[derive(Clone, Copy, Debug, PartialEq, Eq)]
pub struct SelectRequest {
    /// Under which the thread waits.
    pub cookie: u64,
    /// Negative: so many units of 100 ns from now. Positive: a date. 0: look and return.
    pub timeout: i64,
    /// How many bytes the operation takes.
    pub size: u32,
    /// The system call that the thread has done, or 0.
    pub prev_apc: u32,
}

/// What a thread waits for.
pub struct SelectPlan {
    pub objects: Vec<i32>,
    pub wait_all: bool,
    pub owner: u32,
}

/// How a selection goes on.
pub enum SelectStep {
    /// This is the answer.
    Done(Reply),
    /// Look at these objects; without objects there is nothing to look at.
    Poll(SelectPlan),
}

/// A wait for a worker to make on behalf of a client.
pub struct WaitJob {
    pub plan: SelectPlan,
    pub timeout_ns: u64,
    /// The event that ends the wait early, or -1.
    pub interrupt: i32,
    /// Where the outcome is written, and closed behind it.
    pub wait_fd: i32,
    pub cookie: u64,
}

/// How a wait ended.
#[derive(Clone, Copy, Debug, PartialEq, Eq)]
pub enum WaitResult {
    Signaled(u32),
    Timeout,
    Alerted,
    Error,
}

/// 100 ns units between the starts of 1601 and 1970.
pub const TICKS_1601_TO_1970: i64 = 116_444_736_000_000_000;

/// An operation that waits for one of its objects.
pub const SELECT_WAIT: u32 = 1;

/// An operation that waits for all of its objects.
pub const SELECT_WAIT_ALL: u32 = 2;

/// The reply to a selection.
pub open spec fn select_answer(error: u32, signaled: u32) -> Seq<u8> {
    block(head(error, 0) + u32_bytes(0) + u32_bytes(signaled))
}

/// The status in a reply to a selection.
pub open spec fn told_status(reply: Seq<u8>) -> u32 {
    u32_at(reply, 0)
}

/// Whether a reply to a selection says that the wait is over, as a number.
pub open spec fn told_signaled(reply: Seq<u8>) -> u32 {
    u32_at(reply, 12)
}

/// The reply to a selection tells the client to listen for the outcome exactly where that is still to
/// come.
pub open spec fn tells_truly(reply: Seq<u8>) -> bool {
    told_signaled(reply) <= 1 && (told_signaled(reply) == 0 <==> told_status(reply) == STATUS_PENDING)
}

/// How many objects the kernel looks at together.
pub const MAX_WAIT_OBJECTS: usize = 64;

proof fn lemma_told(error: u32, size: u32, handle: u32, signaled: u32, more: Seq<u8>)
    ensures
        told_status(block(head(error, size) + u32_bytes(handle) + u32_bytes(signaled)) + more) == error,
        told_signaled(block(head(error, size) + u32_bytes(handle) + u32_bytes(signaled)) + more)
            == signaled,
{
    let r = block(head(error, size) + u32_bytes(handle) + u32_bytes(signaled)) + more;
    assert(r.subrange(0, 4) =~= u32_bytes(error));
    lemma_read_back_u32(r, 0, error);
    assert(r.subrange(12, 16) =~= u32_bytes(signaled));
    lemma_read_back_u32(r, 12, signaled);
}

proof fn lemma_answer_told(error: u32, signaled: u32)
    ensures
        told_status(select_answer(error, signaled)) == error,
        told_signaled(select_answer(error, signaled)) == signaled,
{
    lemma_told(error, 0, 0, signaled, Seq::empty());
    assert(select_answer(error, signaled) + Seq::<u8>::empty() =~= select_answer(error, signaled));
}

/// A look at nothing that does not wait is over at once, with a timeout: the operation names no handle,
/// and the time to wait is 0.
pub proof fn lemma_empty_look_times_out(
    before: EventLoop,
    after: EventLoop,
    fd: i32,
    buf: Seq<u8>,
    req: SelectRequest,
    plan: SelectPlan,
)
    requires
        gathered(before, after, fd, buf, req, plan),
        req.size < 8,
        req.timeout == 0,
    ensures
        plan.objects@.len() == 0,
        settled(false, None, req.timeout) == Some(STATUS_TIMEOUT),
        told_status(select_answer(STATUS_TIMEOUT, 1)) == STATUS_TIMEOUT,
        told_signaled(select_answer(STATUS_TIMEOUT, 1)) == 1,
{
    lemma_answer_told(STATUS_TIMEOUT, 1);
}

/// The absolute monotonic time, in nanoseconds, at which a wait ends. It is never 0, which would mean
/// no end; a look without waiting gives 1.
pub open spec fn wait_end(timeout: i64, mono_ns: u64, real_100ns: i64) -> u64 {
    if timeout == i64::MAX {
        u64::MAX
    } else if timeout < 0 {
        capped(mono_ns + -timeout * 100)
    } else if timeout > real_100ns && timeout > 0 {
        capped(mono_ns + (timeout - real_100ns) * 100)
    } else {
        1
    }
}

/// A number, or the largest that fits.
pub open spec fn capped(n: int) -> u64 {
    if n > u64::MAX {
        u64::MAX
    } else {
        n as u64
    }
}

/// A time of day in 100 ns units since the start of 1601, from its seconds and nanoseconds since 1970.
pub fn file_time(sec: u64, ns: u32) -> (r: i64)
    requires
        sec * 10_000_000 + ns / 100 + TICKS_1601_TO_1970 <= i64::MAX,
    ensures
        r == sec * 10_000_000 + ns / 100 + TICKS_1601_TO_1970,
{
    (sec * 10_000_000 + (ns / 100) as u64) as i64 + TICKS_1601_TO_1970
}

/// Computes when a wait ends. The time of day is in 100 ns units since 1601, as `timeout` is where it is
/// not a length of time.
pub fn compute_ntsync_timeout(timeout: i64, mono_ns: u64, real_100ns: i64) -> (r: u64)
    requires
        real_100ns >= 0,
    ensures
        r == wait_end(timeout, mono_ns, real_100ns),
{
    if timeout == i64::MAX {
        return u64::MAX;
    }
    let ticks: u128 = if timeout < 0 {
        (-(timeout as i128)) as u128
    } else if timeout > real_100ns && timeout > 0 {
        (timeout - real_100ns) as u128
    } else {
        return 1;
    };
    let end: u128 = mono_ns as u128 + ticks * 100;
    if end > u64::MAX as u128 {
        u64::MAX
    } else {
        end as u64
    }
}

/// What a worker writes to the client when its wait has ended. Nothing where the daemon has already
/// written for it.
pub fn wait_outcome(result: WaitResult, apc_flag: bool) -> (r: Option<u32>)
    ensures
        r == (if apc_flag {
            None
        } else {
            match result {
                WaitResult::Signaled(index) => Some(index),
                WaitResult::Timeout => Some(STATUS_TIMEOUT),
                WaitResult::Alerted => Some(STATUS_KERNEL_APC),
                WaitResult::Error => Some(STATUS_TIMEOUT),
            }
        }),
        apc_flag ==> r is None,
        !apc_flag && (result is Timeout || result is Error) ==> r == Some(0x102u32),
        !apc_flag && result is Alerted ==> r == Some(0x100u32),
        !apc_flag ==> (result matches WaitResult::Signaled(i) ==> r == Some(i)),
{
    if apc_flag {
        return None;
    }
    match result {
        WaitResult::Signaled(index) => Some(index),
        WaitResult::Timeout => Some(STATUS_TIMEOUT),
        WaitResult::Alerted => Some(STATUS_KERNEL_APC),
        WaitResult::Error => Some(STATUS_TIMEOUT),
    }
}

/// The system call that a client is told of next: the latest.
pub open spec fn pending_apc(s: Sync, fd: i32) -> Option<[u8; 28]> {
    let list = list_of(s.kernel_apcs@, fd);
    if list.len() > 0 {
        Some(list.last())
    } else {
        None
    }
}

/// The status under which a system call is handed over, by its kind.
pub open spec fn apc_status(apc: [u8; 28]) -> u32 {
    if u32_at(apc@, 0) >= 2 {
        STATUS_KERNEL_APC
    } else {
        STATUS_USER_APC
    }
}

/// The reply that hands a system call over.
pub open spec fn apc_answer(apc: [u8; 28], handle: u32) -> Seq<u8> {
    block(head(apc_status(apc), 28) + u32_bytes(handle) + u32_bytes(1)) + apc@
}

/// A system call was handed to a client under a handle. No event of its request is set yet.
pub open spec fn apc_delivered(before: EventLoop, after: EventLoop, fd: i32, handle: u32) -> bool {
    &&& after == (EventLoop {
        objects: after.objects,
        sync: Sync { kernel_apcs: after.sync.kernel_apcs, ..before.sync },
        clients: Clients { clients: after.clients.clients, ..before.clients },
        outbox: after.outbox,
        ..before
    })
    &&& took_number(before.objects, after.objects)
    &&& allocated(
        before.objects.processes@,
        after.objects.processes@,
        pid_of(before.clients.clients@, fd),
        bare_entry(before.objects.next_object_id),
        handle,
    )
    &&& popped(before.sync.kernel_apcs@, after.sync.kernel_apcs@, fd)
    &&& after.clients.clients@ == with_cookie(before.clients.clients@, fd, 0)
    &&& after.outbox@ == (if before.sync.apc_flags@.contains_key(fd) {
        before.outbox@.push(Action::LowerApcFlag { client_fd: fd })
    } else {
        before.outbox@
    })
}

/// A client has done its system call: the events that waited for that are set, in order, and the
/// call's handle is gone.
pub open spec fn apc_acknowledged(before: EventLoop, after: EventLoop, fd: i32, prev: u32) -> bool {
    &&& after == (EventLoop {
        objects: Objects { processes: after.objects.processes, ..before.objects },
        sync: Sync { deferred: after.sync.deferred, ..before.sync },
        outbox: after.outbox,
        ..before
    })
    &&& after.sync.deferred@ == before.sync.deferred@.remove(fd)
    &&& after.outbox@ == with_signals(
        before.sync.objects@,
        before.outbox@,
        list_of(before.sync.deferred@, fd),
    )
    &&& handle_closed(
        before.objects.processes@,
        after.objects.processes@,
        pid_of(before.clients.clients@, fd),
        prev,
    )
}

/// The state after the acknowledgement that a selection may carry.
pub open spec fn acknowledged(before: EventLoop, after: EventLoop, fd: i32, prev: u32) -> bool {
    if prev == 0 {
        after == before
    } else {
        apc_acknowledged(before, after, fd, prev)
    }
}

/// The thread suspends itself: it sent its context, waits for nothing, and nobody has resumed it.
pub open spec fn suspends(s: EventLoop, fd: i32, buf: Seq<u8>, req: SelectRequest) -> bool {
    let tid = tid_of(s.clients.clients@, fd);
    &&& req.size == 0
    &&& buf.len() > 104
    &&& s.objects.threads@.contains_key(tid)
    &&& s.objects.threads@[tid].suspend_count > 0
}

/// The client's thread is suspended under a cookie.
pub open spec fn suspended(c: Map<i32, Client>, fd: i32, cookie: u64) -> Map<i32, Client> {
    if c.contains_key(fd) {
        c.insert(fd, Client { suspend_cookie: cookie, ..c[fd] })
    } else {
        c
    }
}

/// The request waits for objects.
pub open spec fn names_objects(s: EventLoop, buf: Seq<u8>, req: SelectRequest) -> bool {
    &&& s.sync.available
    &&& req.size >= 4
    &&& buf.len() >= 108
    &&& u32_at(buf, 104) == SELECT_WAIT || u32_at(buf, 104) == SELECT_WAIT_ALL
}

/// How many handles the operation announces.
pub open spec fn announced(req: SelectRequest) -> int {
    (req.size - 4) / 4
}

/// The handles that the request holds.
pub open spec fn held_handles(buf: Seq<u8>, req: SelectRequest) -> Seq<u32> {
    let room = (buf.len() - 108) / 4;
    Seq::new(
        if announced(req) < room {
            announced(req) as nat
        } else {
            room as nat
        },
        |i: int| u32_at(buf, 108 + 4 * i),
    )
}

/// The sync tables in the course of a search for objects, and what it has found.
pub struct Gathered {
    pub objects: Map<(u32, u32), SyncObject>,
    pub recyclable: Map<(u32, u32), ()>,
    pub created: u64,
    pub stock: Seq<i32>,
    pub fds: Seq<i32>,
    pub complete: bool,
}

/// Before the search.
pub open spec fn nothing_gathered(s: Sync) -> Gathered {
    Gathered {
        objects: s.objects@,
        recyclable: s.recyclable@,
        created: s.created,
        stock: s.auto_set_events@,
        fds: Seq::empty(),
        complete: true,
    }
}

/// One handle more. A handle without an object is given a fresh event that is set, so that the wait
/// for it ends; without such an event the search is over.
pub open spec fn gather_one(g: Gathered, pid: u32, handle: u32) -> Gathered {
    if !g.complete {
        g
    } else if g.objects.contains_key((pid, handle)) {
        Gathered { fds: g.fds.push(g.objects[(pid, handle)].fd), ..g }
    } else if g.stock.len() > 0 {
        Gathered {
            objects: g.objects.insert(
                (pid, handle),
                SyncObject { fd: g.stock.last(), kind: SYNC_EVENT },
            ),
            recyclable: g.recyclable.insert((pid, handle), ()),
            created: bumped(g.created),
            stock: g.stock.drop_last(),
            fds: g.fds.push(g.stock.last()),
            complete: true,
        }
    } else {
        Gathered { complete: false, ..g }
    }
}

/// The search through handles, in order.
pub open spec fn gather(g: Gathered, pid: u32, handles: Seq<u32>) -> Gathered
    decreases handles.len(),
{
    if handles.len() == 0 {
        g
    } else {
        gather_one(gather(g, pid, handles.drop_last()), pid, handles.last())
    }
}

/// A listening pipe learns under which cookie its server waits for it.
pub open spec fn noted(i: NamedPipeInfo, pid: u32, handles: Seq<u32>, cookie: u64) -> NamedPipeInfo {
    match (i.listen_event, i.listen_async) {
        (Some((p, h)), Some(la)) => if p == pid && handles.contains(h) {
            NamedPipeInfo { listen_async: Some(PipeListenAsync { cookie, ..la }), ..i }
        } else {
            i
        },
        _ => i,
    }
}

/// Every instance of every pipe has taken note.
pub open spec fn all_noted(
    before: Map<Seq<char>, Vec<NamedPipeInfo>>,
    after: Map<Seq<char>, Vec<NamedPipeInfo>>,
    pid: u32,
    handles: Seq<u32>,
    cookie: u64,
) -> bool {
    &&& after.dom() == before.dom()
    &&& forall|n: Seq<char>| #[trigger]
        before.contains_key(n) ==> after[n]@ == before[n]@.map_values(
            |i: NamedPipeInfo| noted(i, pid, handles, cookie),
        )
}

/// The objects of a selection were looked up.
pub open spec fn gathered(
    before: EventLoop,
    after: EventLoop,
    fd: i32,
    buf: Seq<u8>,
    req: SelectRequest,
    plan: SelectPlan,
) -> bool {
    let pid = pid_of(before.clients.clients@, fd);
    let hs = held_handles(buf, req);
    let g = gather(nothing_gathered(before.sync), pid, hs);
    if names_objects(before, buf, req) {
        &&& after == (EventLoop {
            sync: Sync {
                objects: after.sync.objects,
                recyclable: after.sync.recyclable,
                created: g.created,
                auto_events: after.sync.auto_events,
                auto_set_events: after.sync.auto_set_events,
                manual_events: after.sync.manual_events,
                manual_set_events: after.sync.manual_set_events,
                ..before.sync
            },
            pipes: Pipes { named: after.pipes.named, ..before.pipes },
            ..before
        })
        &&& after.sync.objects@ == g.objects
        &&& after.sync.recyclable@ == g.recyclable
        &&& after.sync.auto_set_events@ == g.stock
        &&& after.sync.auto_events@ == before.sync.auto_events@
        &&& after.sync.manual_events@ == before.sync.manual_events@
        &&& after.sync.manual_set_events@ == before.sync.manual_set_events@
        &&& all_noted(before.pipes.named@, after.pipes.named@, pid, hs, req.cookie)
        &&& plan.objects@ == (if g.complete && hs.len() == announced(req) {
            g.fds
        } else {
            Seq::empty()
        })
        &&& plan.wait_all == (u32_at(buf, 104) == SELECT_WAIT_ALL)
        &&& plan.owner == tid_of(before.clients.clients@, fd)
    } else {
        after == before && plan.objects@ == Seq::<i32>::empty()
    }
}

/// The events of a client's own requests are set when it has acknowledged a system call, and only
/// then: handing a call over orders nothing but that the flag is lowered.
pub proof fn lemma_completion_after_acknowledgement(
    before: EventLoop,
    delivered: EventLoop,
    acked: EventLoop,
    fd: i32,
    handle: u32,
    event: (u32, u32),
)
    requires
        apc_delivered(before, delivered, fd, handle),
        apc_acknowledged(delivered, acked, fd, handle),
        before.sync.deferred@.contains_key(fd),
        before.sync.deferred@[fd]@.contains(event),
        before.sync.objects@.contains_key(event),
    ensures
        delivered.sync.deferred@ == before.sync.deferred@,
        delivered.outbox@ == before.outbox@ || delivered.outbox@ == before.outbox@.push(
            Action::LowerApcFlag { client_fd: fd },
        ),
        acked.outbox@.contains(Action::SetEvent { object: before.sync.objects@[event].fd }),
        !acked.sync.deferred@.contains_key(fd),
{
    lemma_signalled(
        delivered.sync.objects@,
        delivered.outbox@,
        delivered.sync.deferred@[fd]@,
        event,
    );
}

proof fn lemma_signalled(
    objects: Map<(u32, u32), SyncObject>,
    out: Seq<Action>,
    events: Seq<(u32, u32)>,
    event: (u32, u32),
)
    requires
        events.contains(event),
        objects.contains_key(event),
    ensures
        with_signals(objects, out, events).contains(
            Action::SetEvent { object: objects[event].fd },
        ),
    decreases events.len(),
{
    let a = Action::SetEvent { object: objects[event].fd };
    let before = with_signals(objects, out, events.drop_last());
    let after = with_signals(objects, out, events);
    if events.last() == event {
        assert(after.last() == a);
        assert(after[after.len() - 1] == a);
    } else {
        let i = choose|i: int| 0 <= i < events.len() && events[i] == event;
        assert(events.drop_last()[i] == event);
        lemma_signalled(objects, out, events.drop_last(), event);
        let k = choose|k: int| 0 <= k < before.len() && before[k] == a;
        assert(after[k] == a);
    }
}

impl EventLoop {
    /// Hands the latest system call of a client over, where there is one.
    pub fn deliver_apc(&mut self, client_fd: i32) -> (r: Option<Reply>)
        requires
            old(self).wf(),
        ensures
            final(self).wf(),
            match pending_apc(old(self).sync, client_fd) {
                None => r is None && *final(self) == *old(self),
                Some(apc) => exists|h: u32|
                    #![trigger apc_delivered(*old(self), *final(self), client_fd, h)]
                    apc_delivered(*old(self), *final(self), client_fd, h) && r is Some
                        && r->Some_0@ == apc_answer(apc, h),
            },
    {
        let apc: [u8; 28] = match pop_under(&mut self.sync.kernel_apcs, client_fd) {
            Some(a) => a,
            None => {
                return None;
            },
        };
        let pid: u32 = self.client_pid(client_fd);
        let oid: u64 = self.alloc_object_id();
        let handle: u32 = self.allocate_in(pid, HandleEntry::bare(oid));
        if self.sync.apc_flags.contains_key(client_fd) {
            self.outbox.push(Action::LowerApcFlag { client_fd });
        }
        self.note_cookie(client_fd, 0);
        let kind: u32 = read_u32(&apc, 0);
        let error: u32 = if kind >= 2 {
            STATUS_KERNEL_APC
        } else {
            STATUS_USER_APC
        };
        let mut body: Vec<u8> = header(error, 28);
        crate::bytes::push_u32(&mut body, handle);
        crate::bytes::push_u32(&mut body, 1);
        let reply = reply_vararg(body.as_slice(), &apc);
        assert(apc_delivered(*old(self), *self, client_fd, handle));
        Some(reply)
    }

    /// Takes note that a client has done a system call.
    pub fn acknowledge_apc(&mut self, client_fd: i32, prev_apc: u32)
        requires
            old(self).wf(),
        ensures
            final(self).wf(),
            apc_acknowledged(*old(self), *final(self), client_fd, prev_apc),
    {
        let pid: u32 = self.client_pid(client_fd);
        match self.sync.deferred.remove(client_fd) {
            Some(events) => {
                self.signal_all(&events);
            },
            None => {
                assert(with_signals(self.sync.objects@, self.outbox@, Seq::empty()) == self.outbox@);
            },
        }
        self.close_in(pid, prev_apc);
    }

    /// Tells every listening pipe that waits through one of the handles under which cookie.
    fn note_listeners(&mut self, pid: u32, handles: &Vec<u32>, cookie: u64)
        requires
            old(self).wf(),
        ensures
            final(self).wf(),
            *final(self) == (EventLoop {
                pipes: Pipes { named: final(self).pipes.named, ..old(self).pipes },
                ..*old(self)
            }),
            all_noted(
                old(self).pipes.named@,
                final(self).pipes.named@,
                pid,
                handles@,
                cookie,
            ),
    {
        let ghost f = |i: NamedPipeInfo| noted(i, pid, handles@, cookie);
        let ghost e = self.pipes.named.walk();
        let mut i: usize = 0;
        while i < self.pipes.named.len()
            invariant
                i <= e.len(),
                e.len() == self.pipes.named.walk().len(),
                e == old(self).pipes.named.walk(),
                f == (|i: NamedPipeInfo| noted(i, pid, handles@, cookie)),
                self.wf(),
                *self == (EventLoop {
                    pipes: Pipes { named: self.pipes.named, ..old(self).pipes },
                    ..*old(self)
                }),
                forall|k: int|
                    #![trigger self.pipes.named.walk()[k]]
                    0 <= k < e.len() ==> self.pipes.named.walk()[k].0 == e[k].0,
                forall|k: int|
                    #![trigger self.pipes.named.walk()[k]]
                    0 <= k < i ==> self.pipes.named.walk()[k].1@ == e[k].1@.map_values(f),
                forall|k: int|
                    #![trigger self.pipes.named.walk()[k]]
                    i <= k < e.len() ==> self.pipes.named.walk()[k].1 == e[k].1,
            decreases e.len() - i,
        {
            let list = self.pipes.named.at_mut(i);
            note_instances(list, pid, handles, cookie);
            i = i + 1;
        }
        proof {
            let w = self.pipes.named.walk();
            old(self).pipes.named.lemma_walk();
            self.pipes.named.lemma_walk();
            assert forall|n: Seq<char>| true implies named(w, n) == named(e, n) && (named(e, n)
                ==> place(w, n) == place(e, n)) by {
                lemma_places(e, w, n);
            }
            assert(self.pipes.named@.dom() =~= old(self).pipes.named@.dom());
            assert forall|n: Seq<char>| #[trigger] old(self).pipes.named@.contains_key(n) implies self.pipes.named@[n]@
                == old(self).pipes.named@[n]@.map_values(f) by {
                let p = place(e, n);
                assert(0 <= p < e.len() && e[p].0@ == n);
                assert(w[p].1@ == e[p].1@.map_values(f));
            }
        }
    }

    /// Looks up the objects that a selection waits for.
    #[verifier::rlimit(40)]
    pub fn gather_objects(&mut self, client_fd: i32, buf: &[u8], req: SelectRequest) -> (plan: SelectPlan)
        requires
            old(self).wf(),
        ensures
            final(self).wf(),
            gathered(*old(self), *final(self), client_fd, buf@, req, plan),
    {
        let mut objects: Vec<i32> = Vec::new();
        if !self.sync.available || req.size < 4 || buf.len() < 108 {
            return SelectPlan { objects, wait_all: false, owner: 0 };
        }
        let opcode: u32 = read_u32(buf, 104);
        if opcode != SELECT_WAIT && opcode != SELECT_WAIT_ALL {
            return SelectPlan { objects, wait_all: false, owner: 0 };
        }
        let pid: u32 = self.client_pid(client_fd);
        let owner: u32 = match self.client_thread_id(client_fd) {
            Some(t) => t,
            None => 0,
        };
        let count: usize = ((req.size - 4) / 4) as usize;
        let room: usize = (buf.len() - 108) / 4;
        let n: usize = if count < room {
            count
        } else {
            room
        };
        let handles: Vec<u32> = read_handles(buf, n);
        let ghost hs = held_handles(buf@, req);
        assert(handles@ =~= hs);
        let ghost g0 = nothing_gathered(self.sync);
        let mut complete: bool = true;
        let mut i: usize = 0;
        while i < n
            invariant
                i <= n,
                n == handles@.len(),
                handles@ == hs,
                g0 == nothing_gathered(old(self).sync),
                self.wf(),
                old(self).sync.available,
                *self == (EventLoop {
                    sync: Sync {
                        objects: self.sync.objects,
                        recyclable: self.sync.recyclable,
                        created: self.sync.created,
                        auto_events: self.sync.auto_events,
                        auto_set_events: self.sync.auto_set_events,
                        manual_events: self.sync.manual_events,
                        manual_set_events: self.sync.manual_set_events,
                        ..old(self).sync
                    },
                    ..*old(self)
                }),
                self.sync.auto_events@ == old(self).sync.auto_events@,
                self.sync.manual_events@ == old(self).sync.manual_events@,
                self.sync.manual_set_events@ == old(self).sync.manual_set_events@,
                ({
                    let g = gather(g0, pid, hs.take(i as int));
                    &&& self.sync.objects@ == g.objects
                    &&& self.sync.recyclable@ == g.recyclable
                    &&& self.sync.created == g.created
                    &&& self.sync.auto_set_events@ == g.stock
                    &&& objects@ == g.fds
                    &&& complete == g.complete
                }),
            decreases n - i,
        {
            let handle: u32 = handles[i];
            proof {
                assert(hs.take(i + 1).drop_last() =~= hs.take(i as int));
                assert(hs.take(i + 1).last() == handle);
            }
            if complete {
                let found: Option<i32> = match self.sync.objects.get((pid, handle)) {
                    Some(o) => Some(o.fd),
                    None => None,
                };
                match found {
                    Some(fd) => {
                        objects.push(fd);
                    },
                    None => {
                        match self.get_or_create_event(false, true) {
                            Some(fd) => {
                                objects.push(fd);
                                self.insert_recyclable_event(pid, handle, fd, SYNC_EVENT);
                            },
                            None => {
                                complete = false;
                            },
                        }
                    },
                }
            }
            i = i + 1;
        }
        assert(hs.take(n as int) =~= hs);
        self.note_listeners(pid, &handles, req.cookie);
        if !complete || n < count {
            objects = Vec::new();
        }
        SelectPlan { objects, wait_all: opcode == SELECT_WAIT_ALL, owner }
    }

    /// Starts a selection: hands over a system call that is due, takes note of one that is done,
    /// suspends a thread that asks for it, and otherwise says which objects to look at.
    pub fn handle_select(&mut self, client_fd: i32, buf: &[u8], req: Option<SelectRequest>) -> (step:
        SelectStep)
        requires
            old(self).wf(),
        ensures
            final(self).wf(),
            req is Some && step is Done ==> tells_truly(step->Done_0@),
            match req {
                None => step is Done && step->Done_0@ == status(STATUS_INVALID_PARAMETER)
                    && *final(self) == *old(self),
                Some(req) => match pending_apc(old(self).sync, client_fd) {
                    Some(apc) => exists|h: u32|
                        #![trigger apc_delivered(*old(self), *final(self), client_fd, h)]
                        apc_delivered(*old(self), *final(self), client_fd, h) && step is Done
                            && step->Done_0@ == apc_answer(apc, h),
                    None => exists|mid: EventLoop|
                        #![trigger acknowledged(*old(self), mid, client_fd, req.prev_apc)]
                        acknowledged(*old(self), mid, client_fd, req.prev_apc) && select_goes_on(
                            mid,
                            *final(self),
                            client_fd,
                            buf@,
                            req,
                            step,
                        ),
                },
            },
    {
        let req = match req {
            Some(r) => r,
            None => {
                return SelectStep::Done(reply_status(STATUS_INVALID_PARAMETER));
            },
        };
        match self.deliver_apc(client_fd) {
            Some(reply) => {
                proof {
                    let apc = pending_apc(old(self).sync, client_fd)->Some_0;
                    let h = choose|h: u32|
                        #![trigger apc_delivered(*old(self), *self, client_fd, h)]
                        apc_delivered(*old(self), *self, client_fd, h) && reply@ == apc_answer(apc, h);
                    lemma_told(apc_status(apc), 28, h, 1, apc@);
                }
                return SelectStep::Done(reply);
            },
            None => {},
        }
        if req.prev_apc != 0 {
            self.acknowledge_apc(client_fd, req.prev_apc);
        }
        let ghost mid = *self;
        assert(acknowledged(*old(self), mid, client_fd, req.prev_apc));
        if req.size == 0 && buf.len() > 104 {
            let tid: u32 = match self.client_thread_id(client_fd) {
                Some(t) => t,
                None => 0,
            };
            let still: bool = match self.objects.threads.get(tid) {
                Some(t) => t.suspend_count > 0,
                None => false,
            };
            if still {
                match self.clients.clients.get_mut(client_fd) {
                    Some(c) => {
                        c.suspend_cookie = req.cookie;
                    },
                    None => {},
                }
                proof {
                    lemma_answer_told(STATUS_PENDING, 0);
                }
                return SelectStep::Done(reply_two(STATUS_PENDING, 0, 0));
            }
        }
        let plan = self.gather_objects(client_fd, buf, req);
        SelectStep::Poll(plan)
    }
}

/// After the acknowledgement: the thread suspends itself, or its objects were looked up.
pub open spec fn select_goes_on(
    mid: EventLoop,
    after: EventLoop,
    fd: i32,
    buf: Seq<u8>,
    req: SelectRequest,
    step: SelectStep,
) -> bool {
    if suspends(mid, fd, buf, req) {
        &&& step is Done
        &&& step->Done_0@ == select_answer(STATUS_PENDING, 0)
        &&& after == (EventLoop {
            clients: Clients { clients: after.clients.clients, ..mid.clients },
            ..mid
        })
        &&& after.clients.clients@ == suspended(mid.clients.clients@, fd, req.cookie)
    } else {
        step is Poll && gathered(mid, after, fd, buf, req, step->Poll_0)
    }
}

/// Tells the instances of one pipe.
fn note_instances(list: &mut Vec<NamedPipeInfo>, pid: u32, handles: &Vec<u32>, cookie: u64)
    ensures
        final(list)@ == old(list)@.map_values(|i: NamedPipeInfo| noted(i, pid, handles@, cookie)),
{
    let ghost f = |i: NamedPipeInfo| noted(i, pid, handles@, cookie);
    let mut k: usize = 0;
    while k < list.len()
        invariant
            k <= list@.len(),
            list@.len() == old(list)@.len(),
            f == (|i: NamedPipeInfo| noted(i, pid, handles@, cookie)),
            forall|j: int| 0 <= j < k ==> list@[j] == f(old(list)@[j]),
            forall|j: int| k <= j < list@.len() ==> list@[j] == old(list)@[j],
        decreases list@.len() - k,
    {
        let info: NamedPipeInfo = list[k];
        match (info.listen_event, info.listen_async) {
            (Some((p, h)), Some(la)) => {
                if p == pid && holds(handles, h) {
                    list[k] = NamedPipeInfo {
                        listen_async: Some(PipeListenAsync { cookie, ..la }),
                        ..info
                    };
                }
            },
            _ => {},
        }
        k = k + 1;
    }
    assert(list@ =~= old(list)@.map_values(f));
}

/// Reads so many handles of a selection.
fn read_handles(buf: &[u8], n: usize) -> (r: Vec<u32>)
    requires
        108 + 4 * n <= buf@.len(),
    ensures
        r@ == Seq::new(n as nat, |i: int| u32_at(buf@, 108 + 4 * i)),
{
    let mut r: Vec<u32> = Vec::new();
    let len: usize = buf.len();
    let mut i: usize = 0;
    while i < n
        invariant
            i <= n,
            len == buf@.len(),
            108 + 4 * n <= len,
            r@ == Seq::new(i as nat, |i: int| u32_at(buf@, 108 + 4 * i)),
        decreases n - i,
    {
        r.push(read_u32(buf, 108 + 4 * i));
        i = i + 1;
        assert(r@ =~= Seq::new(i as nat, |i: int| u32_at(buf@, 108 + 4 * i)));
    }
    r
}

/// A wait takes its place behind all that end no later.
pub open spec fn queued(w: Seq<PendingWait>, x: PendingWait) -> Seq<PendingWait>
    decreases w.len(),
{
    if w.len() == 0 || w.last().deadline <= x.deadline {
        w.push(x)
    } else {
        queued(w.drop_last(), x).push(w.last())
    }
}

/// When the timer fires: with the nearest deadline, at once where that has passed, and never without
/// waits.
pub open spec fn timer_after(w: Seq<PendingWait>, now: u64) -> u64 {
    if w.len() == 0 {
        0
    } else if w[0].deadline > now {
        (w[0].deadline - now) as u64
    } else {
        1
    }
}

/// How many waits at the front are over, by their deadline or with their client.
pub open spec fn over(w: Seq<PendingWait>, c: Map<i32, Client>, now: u64) -> nat
    decreases w.len(),
{
    if w.len() > 0 && (!c.contains_key(w[0].client_fd) || now >= w[0].deadline) {
        1 + over(w.skip(1), c, now)
    } else {
        0
    }
}

/// The wake-ups of waits that have timed out, for the clients that are still there.
pub open spec fn timed_out(out: Seq<Action>, c: Map<i32, Client>, w: Seq<PendingWait>) -> Seq<Action>
    decreases w.len(),
{
    if w.len() == 0 {
        out
    } else {
        let before = timed_out(out, c, w.drop_last());
        let x = w.last();
        if c.contains_key(x.client_fd) && c[x.client_fd].wait_fd is Some {
            before.push(
                Action::WakeUp {
                    wait_fd: c[x.client_fd].wait_fd->Some_0,
                    cookie: x.cookie,
                    signaled: 0x102,
                },
            )
        } else {
            before
        }
    }
}

proof fn lemma_queued(w: Seq<PendingWait>, x: PendingWait, at: int)
    requires
        by_deadline(w),
        0 <= at <= w.len(),
        at > 0 ==> w[at - 1].deadline <= x.deadline,
        forall|k: int| at <= k < w.len() ==> #[trigger] w[k].deadline > x.deadline,
    ensures
        queued(w, x) == w.insert(at, x),
        by_deadline(queued(w, x)),
    decreases w.len(),
{
    if w.len() == 0 || w.last().deadline <= x.deadline {
        assert(at == w.len()) by {
            if at < w.len() {
                assert(w[w.len() - 1].deadline > x.deadline);
            }
        }
        assert(w.push(x) =~= w.insert(at, x));
    } else {
        let d = w.drop_last();
        assert forall|k: int| at <= k < d.len() implies #[trigger] d[k].deadline > x.deadline by {
            assert(w[k].deadline > x.deadline);
        }
        lemma_queued(d, x, at);
        assert(queued(w, x) =~= w.insert(at, x));
    }
    let q = w.insert(at, x);
    assert forall|i: int, j: int| 0 <= i < j < q.len() implies #[trigger] q[i].deadline <= #[trigger] q[j].deadline by {
        let a = if i < at {
            i
        } else {
            i - 1
        };
        let b = if j < at {
            j
        } else {
            j - 1
        };
        if i != at && j != at {
            assert(q[i] == w[a] && q[j] == w[b]);
        } else if i == at {
            assert(q[j] == w[b]);
            assert(w[b].deadline > x.deadline);
        } else {
            assert(q[i] == w[i]);
            if i < at - 1 {
                assert(w[i].deadline <= w[at - 1].deadline);
            }
        }
    }
}

/// What a look at the objects settles at once.
pub open spec fn settled(waits: bool, polled: Option<u32>, timeout: i64) -> Option<u32> {
    if waits && polled is Some {
        polled
    } else if timeout == 0 {
        Some(STATUS_TIMEOUT)
    } else {
        None
    }
}

/// The process that starts to wait is idle for the first time.
pub open spec fn becomes_idle(s: EventLoop, pid: u32, waits: bool, end: u64) -> bool {
    &&& waits || end > 1_000_000
    &&& s.objects.processes@.contains_key(pid)
    &&& !s.objects.processes@[pid].idle_signaled
}

/// The end of a wait that nothing but the timer ends. Without an end it is a day.
pub open spec fn timer_deadline(end: u64, now: u64) -> u64 {
    if end == u64::MAX {
        capped(now + 86_400_000_000_000)
    } else if end > now {
        end
    } else {
        now
    }
}

/// The thread waits: a worker waits for its objects, or the timer wakes it.
pub open spec fn waits_on(
    before: EventLoop,
    after: EventLoop,
    fd: i32,
    req: SelectRequest,
    plan: SelectPlan,
    dup_fd: Option<i32>,
    now: u64,
    end: u64,
    job: Option<WaitJob>,
) -> bool {
    let pid = pid_of(before.clients.clients@, fd);
    let waits = plan.objects@.len() > 0;
    let idle = becomes_idle(before, pid, waits, end);
    let listens = before.clients.clients@.contains_key(fd) && before.clients.clients@[fd].wait_fd is Some;
    let fresh = next_event(before.sync, false, false);
    let out = if idle && before.sync.idle_events@.contains_key(pid) {
        before.outbox@.push(Action::SetEvent { object: before.sync.idle_events@[pid] })
    } else {
        before.outbox@
    };
    &&& after == (EventLoop {
        objects: Objects { processes: after.objects.processes, ..before.objects },
        sync: Sync {
            interrupts: after.sync.interrupts,
            apc_flags: after.sync.apc_flags,
            auto_events: after.sync.auto_events,
            auto_set_events: after.sync.auto_set_events,
            manual_events: after.sync.manual_events,
            manual_set_events: after.sync.manual_set_events,
            waits: after.sync.waits,
            ..before.sync
        },
        clients: Clients { clients: after.clients.clients, ..before.clients },
        outbox: after.outbox,
        ..before
    })
    &&& after.objects.processes@ == (if idle {
        before.objects.processes@.insert(
            pid,
            Process { idle_signaled: true, ..before.objects.processes@[pid] },
        )
    } else {
        before.objects.processes@
    })
    &&& after.sync.interrupts@ == (if waits {
        with_client_event(before.sync.interrupts@, fd, fresh)
    } else {
        before.sync.interrupts@
    })
    &&& stocks_after(
        before.sync,
        after.sync,
        false,
        false,
        waits && !before.sync.interrupts@.contains_key(fd) && fresh is Some,
    )
    &&& after.sync.apc_flags@ == (if waits {
        before.sync.apc_flags@.insert(fd, ())
    } else {
        before.sync.apc_flags@
    })
    &&& after.clients.clients@ == (if waits && listens {
        with_cookie(before.clients.clients@, fd, req.cookie)
    } else {
        before.clients.clients@
    })
    &&& if waits && listens && dup_fd is Some {
        &&& job is Some
        &&& job->Some_0.plan == plan
        &&& job->Some_0.timeout_ns == end
        &&& job->Some_0.interrupt == client_event(before.sync.interrupts@, fd, fresh)
        &&& job->Some_0.wait_fd == dup_fd->Some_0
        &&& job->Some_0.cookie == req.cookie
        &&& after.sync.waits@ == before.sync.waits@
        &&& after.outbox@ == out
    } else {
        let x = PendingWait {
            deadline: timer_deadline(end, now),
            client_fd: fd,
            cookie: req.cookie,
        };
        &&& job is None
        &&& after.sync.waits@ == queued(before.sync.waits@, x)
        &&& after.outbox@ == out.push(
            Action::ArmTimer { after_ns: timer_after(after.sync.waits@, now) },
        )
    }
}

impl EventLoop {
    /// Sets the timer to the nearest deadline, or stops it.
    pub fn arm_timer(&mut self, now: u64)
        requires
            old(self).wf(),
        ensures
            final(self).wf(),
            *final(self) == (EventLoop { outbox: final(self).outbox, ..*old(self) }),
            final(self).outbox@ == old(self).outbox@.push(
                Action::ArmTimer { after_ns: timer_after(old(self).sync.waits@, now) },
            ),
    {
        let after_ns: u64 = if self.sync.waits.len() == 0 {
            0
        } else if self.sync.waits[0].deadline > now {
            self.sync.waits[0].deadline - now
        } else {
            1
        };
        self.outbox.push(Action::ArmTimer { after_ns });
    }

    /// Adds a wait that its deadline ends.
    pub fn queue_wait(&mut self, x: PendingWait)
        requires
            old(self).wf(),
        ensures
            final(self).wf(),
            *final(self) == (EventLoop {
                sync: Sync { waits: final(self).sync.waits, ..old(self).sync },
                ..*old(self)
            }),
            final(self).sync.waits@ == queued(old(self).sync.waits@, x),
    {
        let mut at: usize = self.sync.waits.len();
        while at > 0 && self.sync.waits[at - 1].deadline > x.deadline
            invariant
                at <= self.sync.waits@.len(),
                forall|k: int| at <= k < self.sync.waits@.len() ==> #[trigger] self.sync.waits@[k].deadline
                    > x.deadline,
            decreases at,
        {
            at = at - 1;
        }
        proof {
            lemma_queued(self.sync.waits@, x, at as int);
        }
        self.sync.waits.insert(at, x);
    }

    /// Ends a selection, once its objects were looked at. `polled` is the object that was signalled, which
    /// the kernel tells of no more than 64; `dup_fd` is a duplicate of the descriptor on which the client listens.
    #[verifier::rlimit(40)]
    pub fn select_polled(
        &mut self,
        client_fd: i32,
        req: SelectRequest,
        plan: SelectPlan,
        polled: Option<u32>,
        dup_fd: Option<i32>,
        now: u64,
        real_100ns: i64,
    ) -> (r: (Reply, Option<WaitJob>))
        requires
            old(self).wf(),
            real_100ns >= 0,
            polled matches Some(i) ==> i < plan.objects@.len() <= MAX_WAIT_OBJECTS,
        ensures
            final(self).wf(),
            tells_truly(r.0@),
            match settled(plan.objects@.len() > 0, polled, req.timeout) {
                Some(error) => r.0@ == select_answer(error, 1) && r.1 is None && *final(self) == *old(self),
                None => r.0@ == select_answer(STATUS_PENDING, 0) && waits_on(
                    *old(self),
                    *final(self),
                    client_fd,
                    req,
                    plan,
                    dup_fd,
                    now,
                    wait_end(req.timeout, now, real_100ns),
                    r.1,
                ),
            },
    {
        let waits: bool = plan.objects.len() > 0;
        proof {
            lemma_answer_told(STATUS_PENDING, 0);
            lemma_answer_told(STATUS_TIMEOUT, 1);
        }
        if waits {
            match polled {
                Some(index) => {
                    proof {
                        lemma_answer_told(index, 1);
                    }
                    return (reply_two(index, 0, 1), None);
                },
                None => {},
            }
        }
        if req.timeout == 0 {
            return (reply_two(STATUS_TIMEOUT, 0, 1), None);
        }
        let end: u64 = compute_ntsync_timeout(req.timeout, now, real_100ns);
        if waits || end > 1_000_000 {
            let pid: u32 = self.client_pid(client_fd);
            let fresh: bool = match self.objects.processes.get(pid) {
                Some(p) => !p.idle_signaled,
                None => false,
            };
            if fresh {
                match self.sync.idle_events.get(pid) {
                    Some(e) => {
                        let object: i32 = *e;
                        self.outbox.push(Action::SetEvent { object });
                    },
                    None => {},
                }
                match self.objects.processes.get_mut(pid) {
                    Some(p) => {
                        p.idle_signaled = true;
                    },
                    None => {},
                }
            }
        }
        if waits {
            let interrupt: i32 = self.get_or_create_worker_interrupt(client_fd);
            self.sync.apc_flags.insert(client_fd, ());
            let wait_fd: Option<i32> = match self.clients.clients.get(client_fd) {
                Some(c) => c.wait_fd,
                None => None,
            };
            if wait_fd.is_some() {
                self.note_cookie(client_fd, req.cookie);
                match dup_fd {
                    Some(wait_fd) => {
                        let job = WaitJob {
                            plan,
                            timeout_ns: end,
                            interrupt,
                            wait_fd,
                            cookie: req.cookie,
                        };
                        return (reply_two(STATUS_PENDING, 0, 0), Some(job));
                    },
                    None => {},
                }
            }
        }
        let day: u64 = 86_400_000_000_000;
        let deadline: u64 = if end == u64::MAX {
            if now > u64::MAX - day {
                u64::MAX
            } else {
                now + day
            }
        } else if end > now {
            end
        } else {
            now
        };
        self.queue_wait(PendingWait { deadline, client_fd, cookie: req.cookie });
        self.arm_timer(now);
        (reply_two(STATUS_PENDING, 0, 0), None)
    }

    /// Wakes the clients whose waits have timed out, and sets the timer again. No wait is left whose
    /// deadline has passed.
    #[verifier::rlimit(60)]
    pub fn check_pending_waits(&mut self, now: u64)
        requires
            old(self).wf(),
        ensures
            final(self).wf(),
            *final(self) == (EventLoop {
                sync: Sync { waits: final(self).sync.waits, ..old(self).sync },
                outbox: final(self).outbox,
                ..*old(self)
            }),
            ({
                let w = old(self).sync.waits@;
                let c = old(self).clients.clients@;
                let n = over(w, c, now) as int;
                &&& 0 <= n <= w.len()
                &&& final(self).sync.waits@ == w.skip(n)
                &&& final(self).outbox@ == (if w.len() == 0 {
                    old(self).outbox@
                } else {
                    timed_out(old(self).outbox@, c, w.take(n)).push(
                        Action::ArmTimer { after_ns: timer_after(w.skip(n), now) },
                    )
                })
            }),
            forall|i: int|
                0 <= i < final(self).sync.waits@.len() ==> #[trigger] final(self).sync.waits@[i].deadline > now,
    {
        if self.sync.waits.len() == 0 {
            return;
        }
        let ghost w = self.sync.waits@;
        let ghost c = self.clients.clients@;
        let mut n: usize = 0;
        assert(w.skip(0) =~= w);
        while n < self.sync.waits.len()
            invariant_except_break
                self.sync.waits@ == w,
            invariant
                n <= w.len(),
                w == old(self).sync.waits@,
                c == old(self).clients.clients@,
                self.wf(),
                *self == (EventLoop { outbox: self.outbox, ..*old(self) }),
                n + over(w.skip(n as int), c, now) == over(w, c, now),
                self.outbox@ == timed_out(old(self).outbox@, c, w.take(n as int)),
            ensures
                over(w.skip(n as int), c, now) == 0,
            decreases w.len() - n,
        {
            let x: PendingWait = self.sync.waits[n];
            proof {
                assert(w.skip(n as int)[0] == x);
                assert(w.skip(n as int).skip(1) =~= w.skip(n + 1));
                assert(w.take(n + 1).drop_last() =~= w.take(n as int));
            }
            match self.clients.clients.get(x.client_fd) {
                Some(client) => {
                    if now < x.deadline {
                        break;
                    }
                    match client.wait_fd {
                        Some(wait_fd) => {
                            self.outbox.push(
                                Action::WakeUp { wait_fd, cookie: x.cookie, signaled: 0x102 },
                            );
                        },
                        None => {},
                    }
                },
                None => {},
            }
            n = n + 1;
        }
        let rest = self.sync.waits.split_off(n);
        assert(rest@ =~= w.skip(n as int));
        self.sync.waits = rest;
        proof {
            assert forall|i: int| 0 <= i < rest@.len() implies #[trigger] rest@[i].deadline > now by {
                assert(rest@[0].deadline > now);
                assert(rest@[0] == w[n as int] && rest@[i] == w[n + i]);
                if i > 0 {
                    assert(w[n as int].deadline <= w[n + i].deadline);
                }
            }
            assert(by_deadline(rest@)) by {
                assert forall|i: int, j: int| 0 <= i < j < rest@.len() implies #[trigger] rest@[i].deadline
                    <= #[trigger] rest@[j].deadline by {
                    assert(rest@[i] == w[n + i] && rest@[j] == w[n + j]);
                }
            }
        }
        self.arm_timer(now);
    }
}

/// A client that is handed a call of the system (of a kind from 2 on: an asynchronous request has kind 2)
/// is told 0x100 and runs it; one that is handed a call of its user (kind 1) or an empty one (kind 0) is
/// told 0xC0. The call follows the block, its handle stands at 8, and the wait is over.
pub proof fn lemma_call_told(apc: [u8; 28], handle: u32)
    ensures
        ({
            let r = apc_answer(apc, handle);
            let kind = apc@[0] + 256 * apc@[1] + 65536 * apc@[2] + 16777216 * apc@[3];
            &&& kind >= 2 ==> u32_at(r, 0) == 0x100
            &&& kind == 0 || kind == 1 ==> u32_at(r, 0) == 0xC0
            &&& u32_at(r, 4) == 28
            &&& u32_at(r, 8) == handle
            &&& u32_at(r, 12) == 1
            &&& r.len() == 92
            &&& r.skip(64) == apc@
        }),
{
    lemma_fields_told(apc_status(apc), 28, handle, 1, apc@);
}

/// The call that a connection makes to a server that listens is one of the system: whoever is handed it is
/// told 0x100.
pub proof fn lemma_connection_is_system_call(la: PipeListenAsync, apc: [u8; 28], handle: u32)
    requires
        apc@ == io_call(la),
    ensures
        told_status(apc_answer(apc, handle)) == 0x100,
{
    assert(u32_bytes(2) =~= seq![2u8, 0u8, 0u8, 0u8]);
    assert(apc@[0] == 2 && apc@[1] == 0 && apc@[2] == 0 && apc@[3] == 0);
    lemma_call_told(apc, handle);
}

/// A call that is due comes before anything else: it is the one that was queued last, it is queued no
/// more, and the others stay.
pub proof fn lemma_latest_call_first(before: EventLoop, after: EventLoop, fd: i32, handle: u32, apc: [u8; 28])
    requires
        apc_delivered(before, after, fd, handle),
        pending_apc(before.sync, fd) == Some(apc),
    ensures
        before.sync.kernel_apcs@.contains_key(fd),
        before.sync.kernel_apcs@[fd]@.last() == apc,
        list_of(after.sync.kernel_apcs@, fd) == before.sync.kernel_apcs@[fd]@.drop_last(),
        forall|other: i32|
            other != fd ==> list_of(after.sync.kernel_apcs@, other) == #[trigger] list_of(
                before.sync.kernel_apcs@,
                other,
            ),
        after.clients.clients@.contains_key(fd) ==> after.clients.clients@[fd].current_wait_cookie == 0,
{
}

/// A length of time of so many units of 100 ns ends so many times 100 ns from now; a date ends as long from
/// now as it lies ahead; a date that has passed, and 0, are over at once; and the largest number never
/// ends.
pub proof fn lemma_when_waits_end(timeout: i64, now: u64, date: i64)
    requires
        date >= 0,
    ensures
        timeout == 0x7FFF_FFFF_FFFF_FFFF ==> wait_end(timeout, now, date) == 0xFFFF_FFFF_FFFF_FFFF,
        timeout < 0 && now - 100 * timeout <= 0xFFFF_FFFF_FFFF_FFFF ==> wait_end(timeout, now, date) - now
            == -100 * timeout,
        date < timeout < 0x7FFF_FFFF_FFFF_FFFF && now + 100 * (timeout - date) <= 0xFFFF_FFFF_FFFF_FFFF
            ==> wait_end(timeout, now, date) - now == 100 * (timeout - date),
        0 <= timeout <= date && timeout < 0x7FFF_FFFF_FFFF_FFFF ==> wait_end(timeout, now, date) == 1,
        wait_end(timeout, now, date) != 0,
{
}

/// A length of time does not depend on the date, and ends later by as much as it starts later.
pub proof fn lemma_lengths_of_time(timeout: i64, now: u64, later: u64, date: i64, other: i64)
    requires
        timeout < 0,
        now <= later,
        later - 100 * timeout <= 0xFFFF_FFFF_FFFF_FFFF,
    ensures
        wait_end(timeout, now, date) == wait_end(timeout, now, other),
        wait_end(timeout, later, date) - wait_end(timeout, now, date) == later - now,
{
}

proof fn lemma_all_gathered(g: Gathered, pid: u32, handles: Seq<u32>)
    requires
        g.complete,
        forall|i: int| 0 <= i < handles.len() ==> g.objects.contains_key((pid, #[trigger] handles[i])),
    ensures
        ({
            let r = gather(g, pid, handles);
            &&& r == (Gathered { fds: r.fds, ..g })
            &&& r.fds == g.fds + Seq::new(handles.len(), |i: int| g.objects[(pid, handles[i])].fd)
        }),
    decreases handles.len(),
{
    if handles.len() > 0 {
        let d = handles.drop_last();
        assert forall|i: int| 0 <= i < d.len() implies g.objects.contains_key((pid, #[trigger] d[i])) by {
            assert(d[i] == handles[i]);
        }
        lemma_all_gathered(g, pid, d);
        assert(g.objects.contains_key((pid, handles[handles.len() - 1])));
        assert(gather(g, pid, handles).fds =~= g.fds + Seq::new(
            handles.len(),
            |i: int| g.objects[(pid, handles[i])].fd,
        ));
    } else {
        assert(g.fds + Seq::new(handles.len(), |i: int| g.objects[(pid, handles[i])].fd) =~= g.fds);
    }
}

/// A thread waits for exactly the objects behind the handles that it names, in their order: the handles
/// stand from 108 on, four bytes each, behind the kind of wait at 104, of which 1 waits for one of them
/// and 2 for all. Where all of them have objects, no table changes.
pub proof fn lemma_waits_for_what_it_names(
    before: EventLoop,
    after: EventLoop,
    fd: i32,
    buf: Seq<u8>,
    req: SelectRequest,
    plan: SelectPlan,
    n: int,
)
    requires
        gathered(before, after, fd, buf, req, plan),
        before.sync.available,
        req.size == 4 + 4 * n,
        buf.len() >= 108 + 4 * n,
        n >= 0,
        u32_at(buf, 104) == 1 || u32_at(buf, 104) == 2,
        forall|i: int|
            0 <= i < n ==> before.sync.objects@.contains_key(
                (pid_of(before.clients.clients@, fd), #[trigger] u32_at(buf, 108 + 4 * i)),
            ),
    ensures
        plan.objects@.len() == n,
        forall|i: int|
            0 <= i < n ==> #[trigger] plan.objects@[i] == before.sync.objects@[(
                pid_of(before.clients.clients@, fd),
                u32_at(buf, 108 + 4 * i),
            )].fd,
        plan.wait_all == (u32_at(buf, 104) == 2),
        plan.owner == tid_of(before.clients.clients@, fd),
        after.sync.objects@ == before.sync.objects@,
{
    let pid = pid_of(before.clients.clients@, fd);
    let hs = held_handles(buf, req);
    assert(announced(req) == n);
    assert(hs.len() == n);
    assert forall|i: int| 0 <= i < hs.len() implies before.sync.objects@.contains_key(
        (pid, #[trigger] hs[i]),
    ) by {
        assert(hs[i] == u32_at(buf, 108 + 4 * i));
    }
    lemma_all_gathered(nothing_gathered(before.sync), pid, hs);
    assert forall|i: int| 0 <= i < n implies #[trigger] plan.objects@[i] == before.sync.objects@[(
        pid,
        u32_at(buf, 108 + 4 * i),
    )].fd by {
        assert(hs[i] == u32_at(buf, 108 + 4 * i));
    }
}

/// A handle without an object is given the last event of the stock of those that are set, so that nobody
/// waits for it in vain; it stands behind the handle from then on.
pub proof fn lemma_unknown_handle_is_set(g: Gathered, pid: u32, handle: u32)
    requires
        g.complete,
        !g.objects.contains_key((pid, handle)),
        g.stock.len() > 0,
    ensures
        gather(g, pid, seq![handle]).complete,
        gather(g, pid, seq![handle]).fds == g.fds.push(g.stock.last()),
        gather(g, pid, seq![handle]).stock == g.stock.drop_last(),
        gather(g, pid, seq![handle]).objects == g.objects.insert(
            (pid, handle),
            SyncObject { fd: g.stock.last(), kind: 2 },
        ),
        gather(g, pid, seq![handle, handle]).fds == g.fds.push(g.stock.last()).push(g.stock.last()),
{
    reveal_with_fuel(gather, 3);
    assert(seq![handle].drop_last() =~= Seq::<u32>::empty());
    assert(seq![handle, handle].drop_last() =~= seq![handle]);
}

proof fn lemma_over_front(w: Seq<PendingWait>, c: Map<i32, Client>, now: u64)
    ensures
        over(w, c, now) <= w.len(),
        forall|i: int|
            0 <= i < over(w, c, now) ==> !c.contains_key((#[trigger] w[i]).client_fd) || w[i].deadline <= now,
    decreases w.len(),
{
    if w.len() > 0 && (!c.contains_key(w[0].client_fd) || now >= w[0].deadline) {
        lemma_over_front(w.skip(1), c, now);
        assert forall|i: int| 0 <= i < over(w, c, now) implies !c.contains_key(
            (#[trigger] w[i]).client_fd,
        ) || w[i].deadline <= now by {
            if i > 0 {
                assert(w.skip(1)[i - 1] == w[i]);
            }
        }
    }
}

proof fn lemma_wakes(out: Seq<Action>, c: Map<i32, Client>, w: Seq<PendingWait>, i: int, wait_fd: i32)
    requires
        0 <= i < w.len(),
        c.contains_key(w[i].client_fd),
        c[w[i].client_fd].wait_fd == Some(wait_fd),
    ensures
        timed_out(out, c, w).contains(
            Action::WakeUp { wait_fd, cookie: w[i].cookie, signaled: 0x102 },
        ),
    decreases w.len(),
{
    let a = Action::WakeUp { wait_fd, cookie: w[i].cookie, signaled: 0x102 };
    let all = timed_out(out, c, w);
    let before = timed_out(out, c, w.drop_last());
    if i == w.len() - 1 {
        assert(all[all.len() - 1] == a);
    } else {
        assert(w.drop_last()[i] == w[i]);
        lemma_wakes(out, c, w.drop_last(), i, wait_fd);
        let k = choose|k: int| 0 <= k < before.len() && before[k] == a;
        assert(all[k] == a);
    }
}

/// A wait ends by its deadline and not before: what is taken off the list either has no client any more or
/// its time has come, and a client that is there and listens is told under its own cookie that the time is
/// up, which is 0x102.
pub proof fn lemma_waits_time_out(
    w: Seq<PendingWait>,
    c: Map<i32, Client>,
    now: u64,
    out: Seq<Action>,
    i: int,
)
    requires
        0 <= i < over(w, c, now),
    ensures
        i < w.len(),
        c.contains_key(w[i].client_fd) ==> w[i].deadline <= now,
        c.contains_key(w[i].client_fd) && c[w[i].client_fd].wait_fd is Some ==> timed_out(
            out,
            c,
            w.take(over(w, c, now) as int),
        ).contains(
            Action::WakeUp {
                wait_fd: c[w[i].client_fd].wait_fd->Some_0,
                cookie: w[i].cookie,
                signaled: 0x102,
            },
        ),
{
    lemma_over_front(w, c, now);
    let t = w.take(over(w, c, now) as int);
    assert(t[i] == w[i]);
    if c.contains_key(w[i].client_fd) && c[w[i].client_fd].wait_fd is Some {
        lemma_wakes(out, c, t, i, c[w[i].client_fd].wait_fd->Some_0);
    }
}

/// The timer fires with the nearest deadline, however the waits came: at once where that has passed, and
/// not at all without waits.
pub proof fn lemma_timer_meets_nearest(w: Seq<PendingWait>, now: u64, i: int)
    requires
        by_deadline(w),
        0 <= i < w.len(),
    ensures
        timer_after(w, now) > 0,
        w[i].deadline > now && timer_after(w, now) > 1 ==> now + timer_after(w, now) <= w[i].deadline,
        w[0].deadline > now ==> now + timer_after(w, now) == w[0].deadline,
        w[0].deadline <= now ==> timer_after(w, now) == 1,
        timer_after(Seq::empty(), now) == 0,
{
    if i > 0 {
        assert(w[0].deadline <= w[i].deadline);
    }
}

/// What is answered after a look at the objects, by what the client reads: the object's place where one was
/// signalled, 0x102 where there is no time to wait, both with the wait over, and otherwise 0x103 with the
/// wait to come.
pub proof fn lemma_look_told(waits: bool, polled: Option<u32>, timeout: i64)
    ensures
        waits && polled is Some ==> settled(waits, polled, timeout) == polled,
        !(waits && polled is Some) && timeout == 0 ==> settled(waits, polled, timeout) == Some(0x102u32),
        !(waits && polled is Some) && timeout != 0 ==> settled(waits, polled, timeout) is None,
        forall|error: u32, signaled: u32|
            #![trigger select_answer(error, signaled)]
            u32_at(select_answer(error, signaled), 0) == error && u32_at(
                select_answer(error, signaled),
                12,
            ) == signaled && u32_at(select_answer(error, signaled), 4) == 0 && u32_at(
                select_answer(error, signaled),
                8,
            ) == 0,
{
    assert forall|error: u32, signaled: u32|
        #![trigger select_answer(error, signaled)]
        u32_at(select_answer(error, signaled), 0) == error && u32_at(
            select_answer(error, signaled),
            12,
        ) == signaled && u32_at(select_answer(error, signaled), 4) == 0 && u32_at(
            select_answer(error, signaled),
            8,
        ) == 0 by {
        lemma_fields_told(error, 0, 0, signaled, Seq::empty());
        assert(select_answer(error, signaled) + Seq::<u8>::empty() =~= select_answer(error, signaled));
    }
}

/// A thread that waits listens under its own cookie. With objects, a worker waits for them as long as was
/// asked and can be interrupted; without, the timer wakes the thread, after a day at the latest where it
/// waits without an end.
pub proof fn lemma_wait_is_made(
    before: EventLoop,
    after: EventLoop,
    fd: i32,
    req: SelectRequest,
    plan: SelectPlan,
    dup_fd: Option<i32>,
    now: u64,
    end: u64,
    job: Option<WaitJob>,
)
    requires
        waits_on(before, after, fd, req, plan, dup_fd, now, end, job),
    ensures
        job is Some <==> plan.objects@.len() > 0 && dup_fd is Some && before.clients.clients@.contains_key(fd)
            && before.clients.clients@[fd].wait_fd is Some,
        job matches Some(j) ==> j.plan == plan && j.timeout_ns == end && Some(j.wait_fd) == dup_fd && j.cookie
            == req.cookie && after.clients.clients@[fd].current_wait_cookie == req.cookie
            && after.sync.apc_flags@.contains_key(fd) && after.sync.waits@ == before.sync.waits@,
        job is None && by_deadline(before.sync.waits@) ==> exists|x: PendingWait| #[trigger]
            after.sync.waits@.contains(x) && x.client_fd == fd && x.cookie == req.cookie && x.deadline >= now
                && (end == u64::MAX && now + 86_400_000_000_000 <= u64::MAX ==> x.deadline - now
                == 86_400_000_000_000) && (now < end < u64::MAX ==> x.deadline == end),
{
    if job is None && by_deadline(before.sync.waits@) {
        let x = PendingWait { deadline: timer_deadline(end, now), client_fd: fd, cookie: req.cookie };
        lemma_queued_has(before.sync.waits@, x);
        assert(after.sync.waits@.contains(x));
    }
}

proof fn lemma_queued_has(w: Seq<PendingWait>, x: PendingWait)
    ensures
        queued(w, x).contains(x),
        queued(w, x).len() == w.len() + 1,
    decreases w.len(),
{
    if w.len() == 0 || w.last().deadline <= x.deadline {
        assert(queued(w, x)[w.len() as int] == x);
    } else {
        lemma_queued_has(w.drop_last(), x);
        let q = queued(w.drop_last(), x);
        let k = choose|k: int| 0 <= k < q.len() && q[k] == x;
        assert(queued(w, x)[k] == x);
    }
}

} // verus!
