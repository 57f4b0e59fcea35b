//! Events, mutexes and semaphores behind handles, and requests that complete later.
use crate::bytes::{push_u32, u32_at, u32_bytes, zero_bytes, zeros};
use crate::objects::entry_in;
use crate::state::{
    bump, bumped, client_event, new_object, next_event, pid_of, stocks_after, tid_of, waitable,
    with_client_event, Action, Client, Clients, CompletedPipeRead, EventLoop, ExitEvent, PendingRead,
    Pipes, Sync, SyncObject, SYNC_INTERNAL, SYNC_MUTEX, SYNC_SEMAPHORE, SYNC_EVENT,
};
use crate::table::{rest, Picks};
use crate::wire::{
    block, extract_objattr_name, extract_open_name, handle_answer, head, header, objattr_name, open_name, opt_view,
    lemma_answer_told, lemma_fields_told, lemma_word_told, reply_fixed, reply_handle, reply_status, reply_two, reply_vararg, status, Reply,
    STATUS_INVALID_HANDLE, STATUS_INVALID_PARAMETER, STATUS_NO_MEMORY, STATUS_OBJECT_NAME_EXISTS,
    STATUS_OBJECT_NAME_NOT_FOUND, STATUS_PENDING, STATUS_PIPE_BROKEN, STATUS_PORT_NOT_SET,
};
use vstd::prelude::*;

verus! {

/// What the kernel made for a request that creates an object.
#[derive(Clone, Copy, Debug, PartialEq, Eq)]
pub enum MadeObject {
    Nothing,
    /// A duplicate of the object that the name already stands for.
    Duplicate { fd: i32 },
    /// A new object, and a duplicate of it to be kept under its name.
    Fresh { fd: i32, copy: Option<i32> },
}

/// What to make for a request that creates an object.
#[derive(Clone, Copy, Debug, PartialEq, Eq)]
pub enum MakeObject {
    /// A duplicate of this object.
    Duplicate { fd: i32 },
    /// A new object; with a duplicate if it has a name.
    Fresh { named: bool },
}

#[derive(Clone, Copy, Debug, PartialEq, Eq)]
pub struct CreateEventRequest {
    pub manual_reset: i32,
    pub initial_state: i32,
}

#[derive(Clone, Copy, Debug, PartialEq, Eq)]
pub struct EventOpRequest {
    pub handle: u32,
    pub op: i32,
}

#[derive(Clone, Copy, Debug, PartialEq, Eq)]
pub struct CreateSemaphoreRequest {
    pub initial: u32,
    pub max: u32,
}

#[derive(Clone, Copy, Debug, PartialEq, Eq)]
pub struct SetAsyncDirectResultRequest {
    pub handle: u32,
    pub mark_pending: i32,
}

/// Which reads are to be cancelled: those on the descriptor of a handle, or all if that is 0; of these
/// only the one with an outcome in one place, if that is not 0; and of these only those of the caller's
/// own thread, if it says so.
#[derive(Clone, Copy, Debug, PartialEq, Eq)]
pub struct CancelAsyncRequest {
    pub handle: u32,
    pub iosb: u64,
    pub only_thread: i32,
}

/// An operation on a kernel object.
#[derive(Clone, Copy, Debug, PartialEq, Eq)]
pub enum Operation {
    /// Set an event.
    Raise,
    /// Reset an event.
    Lower,
    /// Wake those who wait for an event, without setting it for others.
    Pulse,
    /// None: the state before counts as 0.
    Nothing,
    /// Release a semaphore so many times.
    Release { count: u32 },
    /// Unlock a mutex for its owner.
    Unlock { owner: u32 },
    /// Read the state.
    Read,
}

/// How a request that needs a kernel object goes on.
pub enum ObjectStep {
    /// This is the answer.
    Done(Reply),
    /// Work on this object.
    Operate { object: i32, what: Operation },
}

/// The operation on an event that a number stands for.
pub open spec fn event_operation(op: i32) -> Operation {
    if op == 0 {
        Operation::Pulse
    } else if op == 1 {
        Operation::Raise
    } else if op == 2 {
        Operation::Lower
    } else {
        Operation::Nothing
    }
}

fn operation_of(op: i32) -> (r: Operation)
    ensures
        r == event_operation(op),
{
    if op == 0 {
        Operation::Pulse
    } else if op == 1 {
        Operation::Raise
    } else if op == 2 {
        Operation::Lower
    } else {
        Operation::Nothing
    }
}

/// The object of a client's handle.
pub open spec fn object_behind(s: EventLoop, client_fd: i32, handle: u32) -> Option<i32> {
    let key = (pid_of(s.clients.clients@, client_fd), handle);
    if s.sync.objects@.contains_key(key) {
        Some(s.sync.objects@[key].fd)
    } else {
        None
    }
}

/// A request works on the object of a handle; without one there is only an answer.
pub open spec fn operates(
    s: EventLoop,
    client_fd: i32,
    handle: Option<u32>,
    what: Operation,
    otherwise: Seq<u8>,
    step: ObjectStep,
) -> bool {
    match handle {
        Some(h) => match object_behind(s, client_fd, h) {
            Some(object) => step == (ObjectStep::Operate { object, what }),
            None => step is Done && step->Done_0@ == otherwise,
        },
        None => step is Done && step->Done_0@ == otherwise,
    }
}

/// The descriptors that were made in vain are closed.
pub open spec fn abandoned(out: Seq<Action>, made: MadeObject) -> Seq<Action> {
    match made {
        MadeObject::Nothing => out,
        MadeObject::Duplicate { fd } => out.push(Action::Close { fd }),
        MadeObject::Fresh { fd, copy: None } => out.push(Action::Close { fd }),
        MadeObject::Fresh { fd, copy: Some(c) } => out.push(Action::Close { fd }).push(
            Action::Close { fd: c },
        ),
    }
}

/// The name stands for an object already.
pub open spec fn name_known(s: Sync, name: Option<Seq<char>>) -> bool {
    name is Some && s.named@.contains_key(name->Some_0)
}

/// A new handle was given its object. A name that is known gives a duplicate of its object, of that
/// object's kind; otherwise the new object is taken, and kept under its name.
pub open spec fn object_attached(
    mid: EventLoop,
    after: EventLoop,
    pid: u32,
    name: Option<Seq<char>>,
    kind: u32,
    recyclable: bool,
    made: MadeObject,
    handle: u32,
) -> bool {
    let known = name_known(mid.sync, name);
    let m = mid.sync;
    let a = after.sync;
    &&& after == (EventLoop {
        sync: Sync {
            objects: a.objects,
            recyclable: a.recyclable,
            created: a.created,
            named: a.named,
            ..m
        },
        outbox: after.outbox,
        ..mid
    })
    &&& match made {
        MadeObject::Duplicate { fd } if handle != 0 && known => {
            &&& a.objects@ == m.objects@.insert(
                (pid, handle),
                SyncObject { fd, kind: m.named@[name->Some_0].kind },
            )
            &&& a.recyclable@ == m.recyclable@
            &&& a.created == m.created
            &&& a.named@ == m.named@
            &&& after.outbox@ == mid.outbox@
        },
        MadeObject::Fresh { fd, copy } if handle != 0 && !known => {
            &&& a.objects@ == m.objects@.insert((pid, handle), SyncObject { fd, kind })
            &&& a.recyclable@ == (if recyclable && name is None {
                m.recyclable@.insert((pid, handle), ())
            } else {
                m.recyclable@
            })
            &&& a.created == bumped(m.created)
            &&& a.named@ == (match (name, copy) {
                (Some(n), Some(c)) => m.named@.insert(n, SyncObject { fd: c, kind }),
                _ => m.named@,
            })
            &&& after.outbox@ == (match (name, copy) {
                (None, Some(c)) => mid.outbox@.push(Action::Close { fd: c }),
                _ => mid.outbox@,
            })
        },
        _ => {
            &&& a.objects@ == m.objects@
            &&& a.recyclable@ == m.recyclable@
            &&& a.created == m.created
            &&& a.named@ == m.named@
            &&& after.outbox@ == abandoned(mid.outbox@, made)
        },
    }
}

/// A request created an object under a name, or opened the one that is there.
pub open spec fn sync_created(
    before: EventLoop,
    after: EventLoop,
    fd: i32,
    name: Option<Seq<char>>,
    kind: u32,
    recyclable: bool,
    made: MadeObject,
    handle: u32,
) -> bool {
    exists|mid: EventLoop| #[trigger]
        waitable(before, mid, fd, handle) && object_attached(
            mid,
            after,
            pid_of(before.clients.clients@, fd),
            name,
            kind,
            recyclable,
            made,
            handle,
        )
}

/// The answer to a request that creates an object.
pub open spec fn created_answer(before: Sync, name: Option<Seq<char>>, handle: u32) -> Seq<u8> {
    handle_answer(
        if handle != 0 && name_known(before, name) {
            STATUS_OBJECT_NAME_EXISTS
        } else {
            0
        },
        handle,
    )
}

/// The entry of an opened object: the duplicate, or a fresh event in its place.
pub open spec fn opened(
    mid: EventLoop,
    after: EventLoop,
    pid: u32,
    kind: u32,
    manual: bool,
    dup_fd: Option<i32>,
    handle: u32,
) -> bool {
    let fresh = next_event(mid.sync, manual, false);
    let fallback = handle != 0 && dup_fd is None && fresh is Some;
    &&& after == (EventLoop {
        sync: Sync {
            objects: after.sync.objects,
            auto_events: after.sync.auto_events,
            auto_set_events: after.sync.auto_set_events,
            manual_events: after.sync.manual_events,
            manual_set_events: after.sync.manual_set_events,
            ..mid.sync
        },
        outbox: after.outbox,
        ..mid
    })
    &&& stocks_after(mid.sync, after.sync, manual, false, fallback)
    &&& after.sync.objects@ == (if handle != 0 && dup_fd is Some {
        mid.sync.objects@.insert((pid, handle), SyncObject { fd: dup_fd->Some_0, kind })
    } else if fallback {
        mid.sync.objects@.insert((pid, handle), SyncObject { fd: fresh->Some_0, kind })
    } else {
        mid.sync.objects@
    })
    &&& after.outbox@ == (match dup_fd {
        Some(fd) => if handle == 0 {
            mid.outbox@.push(Action::Close { fd })
        } else {
            mid.outbox@
        },
        None => mid.outbox@,
    })
}

pub open spec fn is_semaphore(kind: u32) -> bool {
    kind == SYNC_SEMAPHORE
}

/// An object was opened by name.
pub open spec fn sync_opened(
    before: EventLoop,
    after: EventLoop,
    fd: i32,
    kind: u32,
    manual: bool,
    dup_fd: Option<i32>,
    handle: u32,
) -> bool {
    exists|mid: EventLoop| #[trigger]
        waitable(before, mid, fd, handle) && opened(
            mid,
            after,
            pid_of(before.clients.clients@, fd),
            kind,
            manual,
            dup_fd,
            handle,
        )
}

/// The kernel parameters of a new event: whether it is reset by hand, and whether it starts set.
pub fn event_args(req: Option<CreateEventRequest>) -> (r: (bool, bool))
    ensures
        r == (match req {
            Some(q) => (q.manual_reset != 0, q.initial_state != 0),
            None => (false, false),
        }),
{
    match req {
        Some(q) => (q.manual_reset != 0, q.initial_state != 0),
        None => (false, false),
    }
}

/// The kernel parameters of a new semaphore: its count, and its largest count.
pub fn semaphore_args(req: Option<CreateSemaphoreRequest>) -> (r: (u32, u32))
    ensures
        r == (match req {
            Some(q) => (q.initial, q.max),
            None => (0u32, 1u32),
        }),
{
    match req {
        Some(q) => (q.initial, q.max),
        None => (0, 1),
    }
}

/// The answer to an operation on an object that gives a number back.
pub open spec fn number_answer(error: u32, n: u32) -> Seq<u8> {
    block(head(error, 0) + u32_bytes(n))
}

/// The reply after an operation on an event: its state before, or 0 where the kernel told none.
pub fn event_op_reply(prev: Option<u32>) -> (r: Reply)
    ensures
        r@ == number_answer(
            0,
            match prev {
                Some(p) => p,
                None => 0,
            },
        ),
{
    let p: u32 = match prev {
        Some(p) => p,
        None => 0,
    };
    reply_handle(0, p)
}

/// The reply after a semaphore or a mutex was released: the count before. The kernel refuses what
/// the caller may not release.
pub fn release_reply(prev: Option<u32>) -> (r: Reply)
    ensures
        r@ == (match prev {
            Some(p) => number_answer(0, p),
            None => number_answer(STATUS_INVALID_HANDLE, 0),
        }),
{
    match prev {
        Some(p) => reply_handle(0, p),
        None => reply_handle(STATUS_INVALID_HANDLE, 0),
    }
}

/// The reply to a query of an event.
pub fn query_event_reply(read: Option<(u32, u32)>) -> (r: Reply)
    ensures
        r@ == (match read {
            Some((manual, state)) => block(head(0, 0) + u32_bytes(manual) + u32_bytes(state)),
            None => block(head(0, 0) + u32_bytes(0) + u32_bytes(0)),
        }),
        read matches Some(x) ==> u32_at(r@, 0) == 0 && u32_at(r@, 8) == x.0 && u32_at(r@, 12) == x.1,
{
    proof {
        let (a, b) = match read {
            Some(x) => x,
            None => (0, 0),
        };
        lemma_fields_told(0, 0, a, b, Seq::empty());
        assert(block(head(0, 0) + u32_bytes(a) + u32_bytes(b)) + Seq::<u8>::empty() =~= block(
            head(0, 0) + u32_bytes(a) + u32_bytes(b),
        ));
    }
    match read {
        Some((manual, state)) => reply_two(0, manual, state),
        None => reply_two(0, 0, 0),
    }
}

/// The reply to a query of a mutex: its count, and whether anybody owns it. It is never abandoned.
pub fn query_mutex_reply(read: Option<(u32, u32)>) -> (r: Reply)
    ensures
        r@ == (match read {
            Some((owner, count)) => block(
                head(0, 0) + u32_bytes(count) + u32_bytes(
                    if owner != 0 {
                        1
                    } else {
                        0
                    },
                ) + u32_bytes(0),
            ),
            None => block(head(0, 0) + u32_bytes(0) + u32_bytes(0) + u32_bytes(0)),
        }),
{
    let (count, owned): (u32, u32) = match read {
        Some((owner, count)) => (
            count,
            if owner != 0 {
                1
            } else {
                0
            },
        ),
        None => (0, 0),
    };
    let mut body: Vec<u8> = header(0, 0);
    push_u32(&mut body, count);
    push_u32(&mut body, owned);
    push_u32(&mut body, 0);
    reply_fixed(body.as_slice())
}

/// The reply to a query of a semaphore: its count and its largest count.
pub fn query_semaphore_reply(read: Option<(u32, u32)>) -> (r: Reply)
    ensures
        r@ == (match read {
            Some((current, max)) => block(head(0, 0) + u32_bytes(current) + u32_bytes(max)),
            None => block(head(0, 0) + u32_bytes(0) + u32_bytes(1)),
        }),
        read matches Some(x) ==> u32_at(r@, 0) == 0 && u32_at(r@, 8) == x.0 && u32_at(r@, 12) == x.1,
{
    proof {
        let (a, b) = match read {
            Some(x) => x,
            None => (0, 0),
        };
        lemma_fields_told(0, 0, a, b, Seq::empty());
        assert(block(head(0, 0) + u32_bytes(a) + u32_bytes(b)) + Seq::<u8>::empty() =~= block(
            head(0, 0) + u32_bytes(a) + u32_bytes(b),
        ));
    }
    match read {
        Some((current, max)) => reply_two(0, current, max),
        None => reply_two(0, 0, 1),
    }
}

/// Requests that have no effect and succeed: a registration for later, and a cancelled wait.
pub fn handle_register_async() -> (r: Reply)
    ensures
        r@ == status(0),
{
    reply_status(0)
}

pub fn handle_cancel_sync() -> (r: Reply)
    ensures
        r@ == status(0),
{
    reply_status(0)
}

/// No debugger is attached: the exception goes to the handlers of the thread.
pub fn handle_queue_exception_event() -> (r: Reply)
    ensures
        r@ == handle_answer(STATUS_PORT_NOT_SET, 0),
{
    reply_handle(STATUS_PORT_NOT_SET, 0)
}

/// The caller runs the call itself.
pub fn handle_queue_apc() -> (r: Reply)
    ensures
        r@ == block(head(0, 0) + u32_bytes(0) + u32_bytes(1)),
{
    reply_two(0, 0, 1)
}

/// The result of a call is empty.
pub fn handle_get_apc_result() -> (r: Reply)
    ensures
        r@ == block(head(0, 0) + zeros(40)),
{
    let mut body: Vec<u8> = header(0, 0);
    let empty = zero_bytes(40);
    crate::bytes::push_all(&mut body, empty.as_slice());
    reply_fixed(body.as_slice())
}

/// A call that is marked pending keeps its handle.
pub fn handle_set_async_direct_result(req: Option<SetAsyncDirectResultRequest>) -> (r: Reply)
    ensures
        r@ == handle_answer(
            0,
            match req {
                Some(q) => if q.mark_pending != 0 {
                    q.handle
                } else {
                    0
                },
                None => 0,
            },
        ),
{
    let handle: u32 = match req {
        Some(q) => if q.mark_pending != 0 {
            q.handle
        } else {
            0
        },
        None => 0,
    };
    reply_handle(0, handle)
}

/// The reads of one process; of these those on one descriptor, with one place for the outcome, and of
/// one thread.
pub struct ReadsOf {
    pub pid: u32,
    pub fd: Option<i32>,
    pub iosb: Option<u64>,
    pub tid: Option<u32>,
}

impl Picks<(u32, u64), PendingRead> for ReadsOf {
    open spec fn wants(&self, k: (u32, u64), v: PendingRead) -> bool {
        &&& k.0 == self.pid
        &&& self.fd is None || self.fd == Some(v.fd)
        &&& self.iosb is None || self.iosb == Some(v.iosb)
        &&& self.tid is None || self.tid == Some(v.tid)
    }

    fn pick(&self, k: &(u32, u64), v: &PendingRead) -> (r: bool) {
        let fd: bool = match self.fd {
            Some(fd) => fd == v.fd,
            None => true,
        };
        let iosb: bool = match self.iosb {
            Some(iosb) => iosb == v.iosb,
            None => true,
        };
        let tid: bool = match self.tid {
            Some(tid) => tid == v.tid,
            None => true,
        };
        k.0 == self.pid && fd && iosb && tid
    }
}

/// A read is one that a request cancels. `fd` is the descriptor of the request's handle.
pub open spec fn is_cancelled(
    q: CancelAsyncRequest,
    pid: u32,
    tid: u32,
    fd: Option<i32>,
    k: (u32, u64),
    v: PendingRead,
) -> bool {
    &&& k.0 == pid
    &&& q.handle != 0 ==> fd == Some(v.fd)
    &&& q.iosb != 0 ==> v.iosb == q.iosb
    &&& q.only_thread != 0 ==> v.tid == tid
}

/// The reads that are left after some were cancelled.
pub open spec fn reads_left(s: EventLoop, client_fd: i32, q: CancelAsyncRequest) -> Map<
    (u32, u64),
    PendingRead,
> {
    let pid = pid_of(s.clients.clients@, client_fd);
    let tid = tid_of(s.clients.clients@, client_fd);
    let fd = match entry_in(s.objects.processes@, pid, q.handle) {
        Some(e) => e.fd,
        None => None,
    };
    rest(
        s.pipes.pending_reads@,
        |k: (u32, u64), v: PendingRead| is_cancelled(q, pid, tid, fd, k, v),
    )
}

/// The position of the first completed read of a client.
pub open spec fn first_read(s: Seq<CompletedPipeRead>, pid: u32, client_fd: i32) -> Option<int>
    decreases s.len(),
{
    if s.len() == 0 {
        None
    } else {
        match first_read(s.drop_last(), pid, client_fd) {
            Some(i) => Some(i),
            None => if s.last().pid == pid && s.last().client_fd == client_fd {
                Some(s.len() - 1)
            } else {
                None
            },
        }
    }
}

/// How a request for the result of an earlier call goes on.
pub enum AsyncStep {
    /// This is the answer.
    Done(Reply),
    /// Try to read so many bytes from this descriptor.
    Receive { fd: i32, max: usize },
}

/// The answer that holds what a completed read gave.
pub open spec fn read_answer(data: Seq<u8>) -> Seq<u8> {
    if data.len() == 0 {
        status(STATUS_PIPE_BROKEN)
    } else {
        block(head(0, data.len() as u32)) + data
    }
}

/// Where an object that is shared with a client comes from.
#[derive(Clone, Copy, Debug, PartialEq, Eq, Structural)]
pub enum SharedFrom {
    /// It stands behind the handle.
    Known,
    /// It tells the end of the process or thread that the handle stands for.
    Exit,
    /// It was made for the request.
    Fresh,
}

/// An object that is to be shared with a client.
#[derive(Clone, Copy, Debug, PartialEq, Eq)]
pub struct SharedObject {
    pub object: i32,
    pub kind: u32,
    pub access: u32,
    pub from: SharedFrom,
    /// The pipe whose data the event is to announce.
    pub pipe_fd: Option<i32>,
}

/// How a request to share an object goes on.
pub enum ShareStep {
    /// This is the answer.
    Done(Reply),
    /// Share this object.
    Share(SharedObject),
}

/// The access of a handle; full access where it is not known.
pub open spec fn access_of(s: EventLoop, pid: u32, handle: u32) -> u32 {
    match entry_in(s.objects.processes@, pid, handle) {
        Some(e) => e.access,
        None => 0x001F_0003,
    }
}

/// The first event in a list that one handle of one process waits through.
pub open spec fn exit_for(s: Seq<ExitEvent>, pid: u32, handle: u32) -> Option<i32>
    decreases s.len(),
{
    if s.len() == 0 {
        None
    } else {
        match exit_for(s.drop_last(), pid, handle) {
            Some(o) => Some(o),
            None => if s.last().pid == pid && s.last().handle == handle {
                Some(s.last().object)
            } else {
                None
            },
        }
    }
}

/// The event of the process or thread that a handle stands for.
pub open spec fn exit_of(s: EventLoop, pid: u32, handle: u32) -> Option<i32> {
    match entry_in(s.objects.processes@, pid, handle) {
        Some(e) => {
            let target = e.object_id as u32;
            if s.sync.process_exit@.contains_key(target) {
                exit_for(s.sync.process_exit@[target]@, pid, handle)
            } else {
                None
            }
        },
        None => None,
    }
}

/// The pipe behind a handle.
pub open spec fn pipe_of(s: EventLoop, pid: u32, handle: u32) -> Option<i32> {
    if s.side_tables.pipe_handles@.contains_key((pid, handle)) {
        Some(s.side_tables.pipe_handles@[(pid, handle)].data_fd)
    } else {
        None
    }
}

/// The object that a client is given for a handle. A handle without any is given a fresh event: set,
/// so that waits end, but for the end of a pipe, where data sets it.
pub open spec fn share_found(before: EventLoop, after: EventLoop, pid: u32, handle: u32, step: ShareStep) -> bool {
    let pipe_fd = pipe_of(before, pid, handle);
    let fresh = next_event(before.sync, true, pipe_fd is None);
    let access = access_of(before, pid, handle);
    if before.sync.objects@.contains_key((pid, handle)) {
        let o = before.sync.objects@[(pid, handle)];
        &&& after == before
        &&& step is Share
        &&& step->Share_0 == (SharedObject {
            object: o.fd,
            kind: o.kind,
            access,
            from: SharedFrom::Known,
            pipe_fd: None,
        })
    } else if exit_of(before, pid, handle) is Some {
        &&& after == before
        &&& step is Share
        &&& step->Share_0 == (SharedObject {
            object: exit_of(before, pid, handle)->Some_0,
            kind: SYNC_INTERNAL,
            access,
            from: SharedFrom::Exit,
            pipe_fd: None,
        })
    } else {
        &&& after == (EventLoop {
            sync: Sync {
                objects: after.sync.objects,
                auto_events: after.sync.auto_events,
                auto_set_events: after.sync.auto_set_events,
                manual_events: after.sync.manual_events,
                manual_set_events: after.sync.manual_set_events,
                ..before.sync
            },
            ..before
        })
        &&& stocks_after(before.sync, after.sync, true, pipe_fd is None, fresh is Some)
        &&& match fresh {
            Some(object) => {
                &&& after.sync.objects@ == before.sync.objects@.insert(
                    (pid, handle),
                    SyncObject { fd: object, kind: SYNC_INTERNAL },
                )
                &&& step is Share
                &&& step->Share_0 == (SharedObject {
                    object,
                    kind: SYNC_INTERNAL,
                    access,
                    from: SharedFrom::Fresh,
                    pipe_fd,
                })
            },
            None => {
                &&& after.sync.objects@ == before.sync.objects@
                &&& step is Done
                &&& step->Done_0@ == block(
                    head(STATUS_INVALID_HANDLE, 0) + u32_bytes(0) + u32_bytes(0),
                )
            },
        }
    }
}

/// A descriptor goes out with the next reply to a client, under a handle.
pub open spec fn with_pending_fd(c: Map<i32, Client>, fd: i32, sent: i32, handle: u32) -> Map<i32, Client> {
    if c.contains_key(fd) {
        c.insert(fd, Client { pending_fd: Some((sent, handle)), ..c[fd] })
    } else {
        c
    }
}

/// What the kernel is to make for an object that is created under a name, or without one.
pub open spec fn make_under(named: Map<Seq<char>, SyncObject>, name: Option<Seq<char>>) -> MakeObject {
    match name {
        Some(n) => if named.contains_key(n) {
            MakeObject::Duplicate { fd: named[n].fd }
        } else {
            MakeObject::Fresh { named: true }
        },
        None => MakeObject::Fresh { named: false },
    }
}

/// The object that a name stands for.
pub open spec fn fd_under(named: Map<Seq<char>, SyncObject>, name: Option<Seq<char>>) -> Option<i32> {
    match name {
        Some(n) => if named.contains_key(n) {
            Some(named[n].fd)
        } else {
            None
        },
        None => None,
    }
}

impl EventLoop {
    /// Sends a descriptor along with the next reply to a client.
    pub fn send_fd(&mut self, client_fd: i32, sent: i32, handle: u32)
        requires
            old(self).wf(),
        ensures
            final(self).wf(),
            *final(self) == (EventLoop {
                clients: Clients { clients: final(self).clients.clients, ..old(self).clients },
                ..*old(self)
            }),
            final(self).clients.clients@ == with_pending_fd(
                old(self).clients.clients@,
                client_fd,
                sent,
                handle,
            ),
    {
        match self.clients.clients.get_mut(client_fd) {
            Some(c) => {
                c.pending_fd = Some((sent, handle));
            },
            None => {},
        }
    }

    /// What the kernel is to make for a request that creates an object.
    pub fn object_to_make(&self, buf: &[u8]) -> (r: MakeObject)
        requires
            self.wf(),
        ensures
            r == make_under(self.sync.named@, objattr_name(buf@)),
    {
        let name = extract_objattr_name(buf);
        self.object_under(&name)
    }

    /// What the kernel is to make for an object that is created under a name, or without one.
    pub fn object_under(&self, name: &Option<String>) -> (r: MakeObject)
        requires
            self.wf(),
        ensures
            r == make_under(self.sync.named@, opt_view(*name)),
    {
        match name {
            Some(n) => match self.sync.named.get(n.as_str()) {
                Some(o) => MakeObject::Duplicate { fd: o.fd },
                None => MakeObject::Fresh { named: true },
            },
            None => MakeObject::Fresh { named: false },
        }
    }

    /// Closes what was made in vain.
    fn abandon(&mut self, made: MadeObject)
        requires
            old(self).wf(),
        ensures
            final(self).wf(),
            *final(self) == (EventLoop { outbox: final(self).outbox, ..*old(self) }),
            final(self).outbox@ == abandoned(old(self).outbox@, made),
    {
        match made {
            MadeObject::Nothing => {},
            MadeObject::Duplicate { fd } => {
                self.outbox.push(Action::Close { fd });
            },
            MadeObject::Fresh { fd, copy } => {
                self.outbox.push(Action::Close { fd });
                match copy {
                    Some(c) => {
                        self.outbox.push(Action::Close { fd: c });
                    },
                    None => {},
                }
            },
        }
    }

    /// Creates an object under a name, or without one; one that has the name already is opened. The reply
    /// comes with the handle.
    pub fn create_object(
        &mut self,
        client_fd: i32,
        name: Option<String>,
        kind: u32,
        recyclable: bool,
        made: MadeObject,
    ) -> (r: (Reply, u32))
        requires
            old(self).wf(),
        ensures
            final(self).wf(),
            sync_created(
                *old(self),
                *final(self),
                client_fd,
                opt_view(name),
                kind,
                recyclable,
                made,
                r.1,
            ),
            r.0@ == created_answer(old(self).sync, opt_view(name), r.1),
    {
        let ghost n = opt_view(name);
        let pid: u32 = self.client_pid(client_fd);
        let handle: u32 = self.alloc_waitable_handle_for_client(client_fd);
        let ghost mid = *self;
        assert(waitable(*old(self), mid, client_fd, handle));
        let known: Option<u32> = match &name {
            Some(s) => match self.sync.named.get(s.as_str()) {
                Some(o) => Some(o.kind),
                None => None,
            },
            None => None,
        };
        if handle != 0 {
            match (known, made) {
                (Some(k), MadeObject::Duplicate { fd }) => {
                    self.sync.objects.insert((pid, handle), SyncObject { fd, kind: k });
                },
                (None, MadeObject::Fresh { fd, copy }) => {
                    self.sync.objects.insert((pid, handle), SyncObject { fd, kind });
                    self.sync.created = bump(self.sync.created);
                    if recyclable && name.is_none() {
                        self.sync.recyclable.insert((pid, handle), ());
                    }
                    match copy {
                        Some(c) => match name {
                            Some(s) => {
                                self.sync.named.insert(s, SyncObject { fd: c, kind });
                            },
                            None => {
                                self.outbox.push(Action::Close { fd: c });
                            },
                        },
                        None => {},
                    }
                },
                _ => {
                    self.abandon(made);
                },
            }
        } else {
            self.abandon(made);
        }
        assert(object_attached(mid, *self, pid, n, kind, recyclable, made, handle));
        let error: u32 = if handle != 0 && known.is_some() {
            STATUS_OBJECT_NAME_EXISTS
        } else {
            0
        };
        (reply_handle(error, handle), handle)
    }

    /// Creates an event, or opens the one that has its name.
    pub fn handle_create_event(&mut self, client_fd: i32, buf: &[u8], made: MadeObject) -> (r: Reply)
        requires
            old(self).wf(),
        ensures
            final(self).wf(),
            exists|h: u32| #[trigger]
                sync_created(
                    *old(self),
                    *final(self),
                    client_fd,
                    objattr_name(buf@),
                    SYNC_EVENT,
                    true,
                    made,
                    h,
                ) && r@ == created_answer(old(self).sync, objattr_name(buf@), h),
            made is Fresh ==> forall|p: u32, h: u32| #[trigger]
                final(self).sync.objects@.contains_key((p, h)) && !old(self).sync.objects@.contains_key(
                    (p, h),
                ) ==> final(self).sync.objects@[(p, h)].kind == 2,
    {
        let name = extract_objattr_name(buf);
        let (r, _) = self.create_object(client_fd, name, SYNC_EVENT, true, made);
        r
    }

    /// The kernel parameters of a new mutex: its owner and its count.
    pub fn mutex_args(&self, client_fd: i32, owned: Option<i32>) -> (r: (u32, u32))
        requires
            self.wf(),
        ensures
            r == (match owned {
                Some(o) => if o != 0 {
                    (tid_of(self.clients.clients@, client_fd), 1u32)
                } else {
                    (0u32, 0u32)
                },
                None => (0u32, 0u32),
            }),
    {
        let tid: u32 = match self.client_thread_id(client_fd) {
            Some(t) => t,
            None => 0,
        };
        match owned {
            Some(o) => if o != 0 {
                (tid, 1)
            } else {
                (0, 0)
            },
            None => (0, 0),
        }
    }

    /// Creates a mutex, or opens the object that has its name.
    pub fn handle_create_mutex(&mut self, client_fd: i32, buf: &[u8], made: MadeObject) -> (r: Reply)
        requires
            old(self).wf(),
        ensures
            final(self).wf(),
            exists|h: u32| #[trigger]
                sync_created(
                    *old(self),
                    *final(self),
                    client_fd,
                    objattr_name(buf@),
                    SYNC_MUTEX,
                    false,
                    made,
                    h,
                ) && r@ == created_answer(old(self).sync, objattr_name(buf@), h),
            made is Fresh ==> forall|p: u32, h: u32| #[trigger]
                final(self).sync.objects@.contains_key((p, h)) && !old(self).sync.objects@.contains_key(
                    (p, h),
                ) ==> final(self).sync.objects@[(p, h)].kind == 3,
    {
        let name = extract_objattr_name(buf);
        let (r, _) = self.create_object(client_fd, name, SYNC_MUTEX, false, made);
        r
    }

    /// Creates a semaphore, or opens the object that has its name.
    pub fn handle_create_semaphore(&mut self, client_fd: i32, buf: &[u8], made: MadeObject) -> (r: Reply)
        requires
            old(self).wf(),
        ensures
            final(self).wf(),
            exists|h: u32| #[trigger]
                sync_created(
                    *old(self),
                    *final(self),
                    client_fd,
                    objattr_name(buf@),
                    SYNC_SEMAPHORE,
                    false,
                    made,
                    h,
                ) && r@ == created_answer(old(self).sync, objattr_name(buf@), h),
            made is Fresh ==> forall|p: u32, h: u32| #[trigger]
                final(self).sync.objects@.contains_key((p, h)) && !old(self).sync.objects@.contains_key(
                    (p, h),
                ) ==> final(self).sync.objects@[(p, h)].kind == 4,
    {
        let name = extract_objattr_name(buf);
        let (r, _) = self.create_object(client_fd, name, SYNC_SEMAPHORE, false, made);
        r
    }

    /// The object behind a handle of a client.
    pub fn object_of(&self, client_fd: i32, handle: u32) -> (r: Option<i32>)
        requires
            self.wf(),
        ensures
            r == (if self.sync.objects@.contains_key(
                (pid_of(self.clients.clients@, client_fd), handle),
            ) {
                Some(self.sync.objects@[(pid_of(self.clients.clients@, client_fd), handle)].fd)
            } else {
                None
            }),
    {
        let pid: u32 = self.client_pid(client_fd);
        match self.sync.objects.get((pid, handle)) {
            Some(o) => Some(o.fd),
            None => None,
        }
    }

    /// Starts an operation on an event. A handle without an object is given a fresh event.
    pub fn handle_event_op(&mut self, client_fd: i32, req: Option<EventOpRequest>) -> (step: ObjectStep)
        requires
            old(self).wf(),
        ensures
            final(self).wf(),
            match req {
                None => *final(self) == *old(self) && step is Done && step->Done_0@ == number_answer(
                    STATUS_INVALID_HANDLE,
                    0,
                ),
                Some(req) => {
                    let key = (pid_of(old(self).clients.clients@, client_fd), req.handle);
                    let fresh = next_event(old(self).sync, true, false);
                    if old(self).sync.objects@.contains_key(key) {
                        *final(self) == *old(self) && step == (ObjectStep::Operate {
                            object: old(self).sync.objects@[key].fd,
                            what: event_operation(req.op),
                        })
                    } else {
                        &&& *final(self) == (EventLoop {
                            sync: Sync {
                                objects: final(self).sync.objects,
                                auto_events: final(self).sync.auto_events,
                                auto_set_events: final(self).sync.auto_set_events,
                                manual_events: final(self).sync.manual_events,
                                manual_set_events: final(self).sync.manual_set_events,
                                ..old(self).sync
                            },
                            ..*old(self)
                        })
                        &&& stocks_after(old(self).sync, final(self).sync, true, false, fresh is Some)
                        &&& match fresh {
                            Some(object) => {
                                &&& final(self).sync.objects@ == old(self).sync.objects@.insert(
                                    key,
                                    SyncObject { fd: object, kind: SYNC_EVENT },
                                )
                                &&& step == (ObjectStep::Operate { object, what: event_operation(req.op) })
                            },
                            None => {
                                &&& final(self).sync.objects@ == old(self).sync.objects@
                                &&& step is Done
                                &&& step->Done_0@ == number_answer(STATUS_INVALID_HANDLE, 0)
                            },
                        }
                    }
                },
            },
    {
        let req = match req {
            Some(q) => q,
            None => {
                return ObjectStep::Done(reply_handle(STATUS_INVALID_HANDLE, 0));
            },
        };
        let what: Operation = operation_of(req.op);
        match self.object_of(client_fd, req.handle) {
            Some(object) => {
                return ObjectStep::Operate { object, what };
            },
            None => {},
        }
        let pid: u32 = self.client_pid(client_fd);
        match self.get_or_create_event(true, false) {
            Some(object) => {
                self.sync.objects.insert(
                    (pid, req.handle),
                    SyncObject { fd: object, kind: SYNC_EVENT },
                );
                ObjectStep::Operate { object, what }
            },
            None => ObjectStep::Done(reply_handle(STATUS_INVALID_HANDLE, 0)),
        }
    }

    fn operate(&self, client_fd: i32, handle: u32, what: Operation) -> (r: Option<ObjectStep>)
        requires
            self.wf(),
        ensures
            match object_behind(*self, client_fd, handle) {
                Some(object) => r == Some(ObjectStep::Operate { object, what }),
                None => r is None,
            },
    {
        match self.object_of(client_fd, handle) {
            Some(object) => Some(ObjectStep::Operate { object, what }),
            None => None,
        }
    }

    /// Releases a semaphore so many times.
    pub fn handle_release_semaphore(&self, client_fd: i32, req: Option<(u32, u32)>) -> (step: ObjectStep)
        requires
            self.wf(),
        ensures
            match req {
                Some((h, count)) => operates(
                    *self,
                    client_fd,
                    Some(h),
                    Operation::Release { count },
                    number_answer(STATUS_INVALID_HANDLE, 0),
                    step,
                ),
                None => step is Done && step->Done_0@ == number_answer(STATUS_INVALID_HANDLE, 0),
            },
    {
        match req {
            Some((h, count)) => match self.operate(client_fd, h, Operation::Release { count }) {
                Some(step) => step,
                None => ObjectStep::Done(release_reply(None)),
            },
            None => ObjectStep::Done(release_reply(None)),
        }
    }

    /// Unlocks a mutex for the client's thread.
    pub fn handle_release_mutex(&self, client_fd: i32, handle: Option<u32>) -> (step: ObjectStep)
        requires
            self.wf(),
        ensures
            operates(
                *self,
                client_fd,
                handle,
                Operation::Unlock { owner: tid_of(self.clients.clients@, client_fd) },
                number_answer(STATUS_INVALID_HANDLE, 0),
                step,
            ),
    {
        let owner: u32 = match self.client_thread_id(client_fd) {
            Some(t) => t,
            None => 0,
        };
        match handle {
            Some(h) => match self.operate(client_fd, h, Operation::Unlock { owner }) {
                Some(step) => step,
                None => ObjectStep::Done(release_reply(None)),
            },
            None => ObjectStep::Done(release_reply(None)),
        }
    }

    /// Reads an event.
    pub fn handle_query_event(&self, client_fd: i32, handle: Option<u32>) -> (step: ObjectStep)
        requires
            self.wf(),
        ensures
            operates(
                *self,
                client_fd,
                handle,
                Operation::Read,
                block(head(0, 0) + u32_bytes(0) + u32_bytes(0)),
                step,
            ),
    {
        match handle {
            Some(h) => match self.operate(client_fd, h, Operation::Read) {
                Some(step) => step,
                None => ObjectStep::Done(query_event_reply(None)),
            },
            None => ObjectStep::Done(query_event_reply(None)),
        }
    }

    /// Reads a mutex.
    pub fn handle_query_mutex(&self, client_fd: i32, handle: Option<u32>) -> (step: ObjectStep)
        requires
            self.wf(),
        ensures
            operates(
                *self,
                client_fd,
                handle,
                Operation::Read,
                block(head(0, 0) + u32_bytes(0) + u32_bytes(0) + u32_bytes(0)),
                step,
            ),
    {
        match handle {
            Some(h) => match self.operate(client_fd, h, Operation::Read) {
                Some(step) => step,
                None => ObjectStep::Done(query_mutex_reply(None)),
            },
            None => ObjectStep::Done(query_mutex_reply(None)),
        }
    }

    /// Reads a semaphore.
    pub fn handle_query_semaphore(&self, client_fd: i32, handle: Option<u32>) -> (step: ObjectStep)
        requires
            self.wf(),
        ensures
            operates(
                *self,
                client_fd,
                handle,
                Operation::Read,
                block(head(0, 0) + u32_bytes(0) + u32_bytes(1)),
                step,
            ),
    {
        match handle {
            Some(h) => match self.operate(client_fd, h, Operation::Read) {
                Some(step) => step,
                None => ObjectStep::Done(query_semaphore_reply(None)),
            },
            None => ObjectStep::Done(query_semaphore_reply(None)),
        }
    }

    /// The object that the name of an open request stands for.
    pub fn object_to_open(&self, buf: &[u8]) -> (r: Option<i32>)
        requires
            self.wf(),
        ensures
            r == fd_under(self.sync.named@, open_name(buf@)),
    {
        let name = extract_open_name(buf);
        self.object_named(&name)
    }

    /// The object that a name stands for.
    pub fn object_named(&self, name: &Option<String>) -> (r: Option<i32>)
        requires
            self.wf(),
        ensures
            r == fd_under(self.sync.named@, opt_view(*name)),
    {
        match name {
            Some(n) => match self.sync.named.get(n.as_str()) {
                Some(o) => Some(o.fd),
                None => None,
            },
            None => None,
        }
    }

    /// Opens an object by name. Where no duplicate of it could be made, a fresh event takes its
    /// place; it is reset by hand if the object is of the kind `manual_kind`. The reply comes with the
    /// handle.
    pub fn open_object(
        &mut self,
        client_fd: i32,
        name: Option<String>,
        manual_kind: Option<u32>,
        dup_fd: Option<i32>,
    ) -> (r: (Reply, u32))
        requires
            old(self).wf(),
        ensures
            final(self).wf(),
            name_known(old(self).sync, opt_view(name)) ==> ({
                let kind = old(self).sync.named@[opt_view(name)->Some_0].kind;
                &&& sync_opened(
                    *old(self),
                    *final(self),
                    client_fd,
                    kind,
                    manual_kind == Some(kind),
                    dup_fd,
                    r.1,
                )
                &&& r.0@ == handle_answer(0, r.1)
            }),
            !name_known(old(self).sync, opt_view(name)) ==> *final(self) == *old(self) && r.0@
                == handle_answer(STATUS_OBJECT_NAME_NOT_FOUND, 0),
    {
        let kind: u32 = match &name {
            Some(n) => match self.sync.named.get(n.as_str()) {
                Some(o) => o.kind,
                None => {
                    return (reply_handle(STATUS_OBJECT_NAME_NOT_FOUND, 0), 0);
                },
            },
            None => {
                return (reply_handle(STATUS_OBJECT_NAME_NOT_FOUND, 0), 0);
            },
        };
        let pid: u32 = self.client_pid(client_fd);
        let handle: u32 = self.alloc_waitable_handle_for_client(client_fd);
        let ghost mid = *self;
        assert(waitable(*old(self), mid, client_fd, handle));
        let manual: bool = match manual_kind {
            Some(k) => k == kind,
            None => false,
        };
        match dup_fd {
            Some(fd) => {
                if handle != 0 {
                    self.sync.objects.insert((pid, handle), SyncObject { fd, kind });
                } else {
                    self.outbox.push(Action::Close { fd });
                }
            },
            None => {
                if handle != 0 {
                    match self.get_or_create_event(manual, false) {
                        Some(fd) => {
                            self.sync.objects.insert((pid, handle), SyncObject { fd, kind });
                        },
                        None => {},
                    }
                }
            },
        }
        assert(opened(mid, *self, pid, kind, manual, dup_fd, handle));
        (reply_handle(0, handle), handle)
    }

    /// Opens an event by name.
    pub fn handle_open_event(&mut self, client_fd: i32, buf: &[u8], dup_fd: Option<i32>) -> (r: Reply)
        requires
            old(self).wf(),
        ensures
            final(self).wf(),
            if name_known(old(self).sync, open_name(buf@)) {
                let kind = old(self).sync.named@[open_name(buf@)->Some_0].kind;
                exists|h: u32| #[trigger]
                    sync_opened(
                        *old(self),
                        *final(self),
                        client_fd,
                        kind,
                        is_semaphore(kind),
                        dup_fd,
                        h,
                    ) && r@ == handle_answer(0, h)
            } else {
                *final(self) == *old(self) && r@ == handle_answer(STATUS_OBJECT_NAME_NOT_FOUND, 0)
            },
    {
        let name = extract_open_name(buf);
        let (r, h) = self.open_object(client_fd, name, Some(SYNC_SEMAPHORE), dup_fd);
        proof {
            let kind = old(self).sync.named@[open_name(buf@)->Some_0].kind;
            let manual = is_semaphore(kind);
            assert((Some(SYNC_SEMAPHORE) == Some(kind)) == manual);
            assert(name_known(old(self).sync, open_name(buf@)) ==> sync_opened(
                *old(self),
                *self,
                client_fd,
                kind,
                manual,
                dup_fd,
                h,
            ));
        }
        r
    }

    /// Opens a mutex by name.
    pub fn handle_open_mutex(&mut self, client_fd: i32, buf: &[u8], dup_fd: Option<i32>) -> (r: Reply)
        requires
            old(self).wf(),
        ensures
            final(self).wf(),
            if name_known(old(self).sync, open_name(buf@)) {
                exists|h: u32| #[trigger]
                    sync_opened(
                        *old(self),
                        *final(self),
                        client_fd,
                        old(self).sync.named@[open_name(buf@)->Some_0].kind,
                        false,
                        dup_fd,
                        h,
                    ) && r@ == handle_answer(0, h)
            } else {
                *final(self) == *old(self) && r@ == handle_answer(STATUS_OBJECT_NAME_NOT_FOUND, 0)
            },
    {
        self.handle_open_semaphore(client_fd, buf, dup_fd)
    }

    /// Opens a semaphore by name.
    pub fn handle_open_semaphore(&mut self, client_fd: i32, buf: &[u8], dup_fd: Option<i32>) -> (r: Reply)
        requires
            old(self).wf(),
        ensures
            final(self).wf(),
            if name_known(old(self).sync, open_name(buf@)) {
                exists|h: u32| #[trigger]
                    sync_opened(
                        *old(self),
                        *final(self),
                        client_fd,
                        old(self).sync.named@[open_name(buf@)->Some_0].kind,
                        false,
                        dup_fd,
                        h,
                    ) && r@ == handle_answer(0, h)
            } else {
                *final(self) == *old(self) && r@ == handle_answer(STATUS_OBJECT_NAME_NOT_FOUND, 0)
            },
    {
        let name = extract_open_name(buf);
        let (r, _) = self.open_object(client_fd, name, None, dup_fd);
        r
    }
}

/// A new handle was given an event of the daemon's own, reset by hand.
pub open spec fn internal_attached(mid: EventLoop, after: EventLoop, pid: u32, handle: u32) -> bool {
    let fresh = next_event(mid.sync, true, false);
    let made = handle != 0 && fresh is Some;
    &&& after == (EventLoop {
        sync: Sync {
            objects: after.sync.objects,
            auto_events: after.sync.auto_events,
            auto_set_events: after.sync.auto_set_events,
            manual_events: after.sync.manual_events,
            manual_set_events: after.sync.manual_set_events,
            ..mid.sync
        },
        ..mid
    })
    &&& stocks_after(mid.sync, after.sync, true, false, made)
    &&& after.sync.objects@ == (if made {
        mid.sync.objects@.insert(
            (pid, handle),
            SyncObject { fd: fresh->Some_0, kind: SYNC_INTERNAL },
        )
    } else {
        mid.sync.objects@
    })
}

/// A client's process was given a handle with an event of the daemon's own; 0 where that failed.
pub open spec fn internal_created(before: EventLoop, after: EventLoop, fd: i32, handle: u32) -> bool {
    exists|mid: EventLoop| #[trigger]
        waitable(before, mid, fd, handle) && internal_attached(
            mid,
            after,
            pid_of(before.clients.clients@, fd),
            handle,
        )
}

/// The reply that holds a new handle, or says that there was no memory for it.
pub open spec fn new_handle_answer(handle: u32) -> Seq<u8> {
    if handle == 0 {
        status(STATUS_NO_MEMORY)
    } else {
        handle_answer(0, handle)
    }
}

/// The answer to a request for the result of an earlier call.
pub open spec fn async_answer(before: EventLoop, after: EventLoop, pid: u32, client_fd: i32, user_arg: u64, step: AsyncStep) -> bool {
    let key = (pid, user_arg);
    let done = before.pipes.completed_ioctls@;
    let reads = before.pipes.completed_reads@;
    if done.contains_key(key) {
        &&& after == (EventLoop {
            pipes: Pipes { completed_ioctls: after.pipes.completed_ioctls, ..before.pipes },
            ..before
        })
        &&& after.pipes.completed_ioctls@ == done.remove(key)
        &&& step is Done
        &&& step->Done_0@ == status(done[key])
    } else {
        match first_read(reads, pid, client_fd) {
            Some(i) => {
                &&& after == (EventLoop {
                    pipes: Pipes {
                        completed_ioctls: after.pipes.completed_ioctls,
                        completed_reads: after.pipes.completed_reads,
                        ..before.pipes
                    },
                    ..before
                })
                &&& after.pipes.completed_ioctls@ == done
                &&& after.pipes.completed_reads@ == reads.remove(i)
                &&& step is Done
                &&& step->Done_0@ == read_answer(reads[i].data@)
            },
            None => {
                &&& after == (EventLoop {
                    pipes: Pipes { completed_ioctls: after.pipes.completed_ioctls, ..before.pipes },
                    ..before
                })
                &&& after.pipes.completed_ioctls@ == done
                &&& if before.pipes.pending_reads@.contains_key(key) {
                    let p = before.pipes.pending_reads@[key];
                    step == (AsyncStep::Receive { fd: p.fd, max: p.max_bytes })
                } else {
                    step is Done && step->Done_0@ == status(STATUS_PENDING)
                }
            },
        }
    }
}

impl EventLoop {
    /// Gives a client's process a handle with an event of the daemon's own, reset by hand.
    pub fn create_internal(&mut self, client_fd: i32) -> (handle: u32)
        requires
            old(self).wf(),
        ensures
            final(self).wf(),
            internal_created(*old(self), *final(self), client_fd, handle),
    {
        let handle: u32 = self.alloc_waitable_handle_for_client(client_fd);
        let ghost mid = *self;
        assert(waitable(*old(self), mid, client_fd, handle));
        let pid: u32 = self.client_pid(client_fd);
        if handle != 0 {
            match self.get_or_create_event(true, false) {
                Some(fd) => {
                    self.sync.objects.insert((pid, handle), SyncObject { fd, kind: SYNC_INTERNAL });
                },
                None => {},
            }
        }
        assert(internal_attached(mid, *self, pid, handle));
        handle
    }

    /// Creates a keyed event.
    pub fn handle_create_keyed_event(&mut self, client_fd: i32) -> (r: Reply)
        requires
            old(self).wf(),
        ensures
            final(self).wf(),
            exists|h: u32| #[trigger]
                internal_created(*old(self), *final(self), client_fd, h) && r@ == new_handle_answer(h),
    {
        let handle: u32 = self.create_internal(client_fd);
        if handle == 0 {
            return reply_status(STATUS_NO_MEMORY);
        }
        reply_handle(0, handle)
    }

    /// Opens a keyed event: a new handle to an object of its own.
    pub fn handle_open_keyed_event(&mut self, client_fd: i32) -> (r: Reply)
        requires
            old(self).wf(),
        ensures
            final(self).wf(),
            exists|h: u32| #[trigger]
                new_object(*old(self), *final(self), client_fd, h) && r@ == new_handle_answer(h),
    {
        let handle: u32 = self.new_object_for_client(client_fd);
        if handle == 0 {
            return reply_status(STATUS_NO_MEMORY);
        }
        reply_handle(0, handle)
    }

    /// Cancels reads of a client's process.
    pub fn handle_cancel_async(&mut self, client_fd: i32, req: Option<CancelAsyncRequest>) -> (r: Reply)
        requires
            old(self).wf(),
        ensures
            final(self).wf(),
            match req {
                None => *final(self) == *old(self) && r@ == status(STATUS_INVALID_PARAMETER),
                Some(q) => {
                    &&& *final(self) == (EventLoop {
                        pipes: Pipes {
                            pending_reads: final(self).pipes.pending_reads,
                            ..old(self).pipes
                        },
                        ..*old(self)
                    })
                    &&& final(self).pipes.pending_reads@ == reads_left(*old(self), client_fd, q)
                    &&& r@ == handle_answer(0, 0)
                },
            },
    {
        let q = match req {
            Some(q) => q,
            None => {
                return reply_status(STATUS_INVALID_PARAMETER);
            },
        };
        let pid: u32 = self.client_pid(client_fd);
        let tid: u32 = match self.client_thread_id(client_fd) {
            Some(t) => t,
            None => 0,
        };
        let fd: Option<i32> = match self.handle_entry(pid, q.handle) {
            Some(e) => e.fd,
            None => None,
        };
        if q.handle == 0 || fd.is_some() {
            let which = ReadsOf {
                pid,
                fd: if q.handle == 0 {
                    None
                } else {
                    fd
                },
                iosb: if q.iosb == 0 {
                    None
                } else {
                    Some(q.iosb)
                },
                tid: if q.only_thread == 0 {
                    None
                } else {
                    Some(tid)
                },
            };
            let _ = self.pipes.pending_reads.extract(&which);
        }
        assert(self.pipes.pending_reads@ =~= reads_left(*old(self), client_fd, q));
        reply_handle(0, 0)
    }

    /// The position of the first completed read of a client.
    fn find_completed(&self, pid: u32, client_fd: i32) -> (r: Option<usize>)
        ensures
            match first_read(self.pipes.completed_reads@, pid, client_fd) {
                Some(i) => r is Some && r->Some_0 == i && 0 <= i < self.pipes.completed_reads@.len(),
                None => r is None,
            },
    {
        let ghost s = self.pipes.completed_reads@;
        let mut i: usize = 0;
        while i < self.pipes.completed_reads.len()
            invariant
                i <= s.len(),
                s == self.pipes.completed_reads@,
                first_read(s.take(i as int), pid, client_fd) is None,
            decreases s.len() - i,
        {
            let x = &self.pipes.completed_reads[i];
            proof {
                assert(s.take(i + 1).drop_last() =~= s.take(i as int));
                assert(s.take(i + 1).last() == s[i as int]);
            }
            if x.pid == pid && x.client_fd == client_fd {
                proof {
                    assert(first_read(s.take(i + 1), pid, client_fd) == Some(i as int));
                    lemma_first_read(s, pid, client_fd, i + 1);
                }
                return Some(i);
            }
            i = i + 1;
        }
        assert(s.take(i as int) =~= s);
        None
    }

    /// Starts a request for the result of an earlier call: the status of a completed control call, or
    /// the data of a completed read; else the descriptor is to be read now.
    pub fn handle_get_async_result(&mut self, client_fd: i32, req: Option<u64>) -> (step: AsyncStep)
        requires
            old(self).wf(),
        ensures
            final(self).wf(),
            match req {
                None => *final(self) == *old(self) && step is Done && step->Done_0@ == status(
                    STATUS_INVALID_PARAMETER,
                ),
                Some(user_arg) => async_answer(
                    *old(self),
                    *final(self),
                    pid_of(old(self).clients.clients@, client_fd),
                    client_fd,
                    user_arg,
                    step,
                ),
            },
    {
        let user_arg: u64 = match req {
            Some(u) => u,
            None => {
                return AsyncStep::Done(reply_status(STATUS_INVALID_PARAMETER));
            },
        };
        let pid: u32 = self.client_pid(client_fd);
        match self.pipes.completed_ioctls.remove((pid, user_arg)) {
            Some(s) => {
                return AsyncStep::Done(reply_status(s));
            },
            None => {
                assert(self.pipes.completed_ioctls@ =~= old(self).pipes.completed_ioctls@);
            },
        }
        match self.find_completed(pid, client_fd) {
            Some(i) => {
                let x = self.pipes.completed_reads.remove(i);
                if x.data.len() == 0 {
                    return AsyncStep::Done(reply_status(STATUS_PIPE_BROKEN));
                }
                let body: Vec<u8> = header(0, x.data.len() as u32);
                return AsyncStep::Done(reply_vararg(body.as_slice(), x.data.as_slice()));
            },
            None => {},
        }
        match self.pipes.pending_reads.get((pid, user_arg)) {
            Some(p) => AsyncStep::Receive { fd: p.fd, max: p.max_bytes },
            None => AsyncStep::Done(reply_status(STATUS_PENDING)),
        }
    }

    /// Ends a request for the result of a read, with what the descriptor gave; nothing if there was
    /// no data.
    pub fn async_received(&mut self, client_fd: i32, user_arg: u64, data: &Vec<u8>) -> (r: Reply)
        requires
            old(self).wf(),
        ensures
            final(self).wf(),
            *final(self) == (EventLoop {
                pipes: Pipes { pending_reads: final(self).pipes.pending_reads, ..old(self).pipes },
                ..*old(self)
            }),
            final(self).pipes.pending_reads@ == (if data@.len() == 0 {
                old(self).pipes.pending_reads@
            } else {
                old(self).pipes.pending_reads@.remove(
                    (pid_of(old(self).clients.clients@, client_fd), user_arg),
                )
            }),
            r@ == (if data@.len() == 0 {
                status(STATUS_PENDING)
            } else {
                read_answer(data@)
            }),
    {
        if data.len() == 0 {
            return reply_status(STATUS_PENDING);
        }
        let pid: u32 = self.client_pid(client_fd);
        let _ = self.pipes.pending_reads.remove((pid, user_arg));
        let body: Vec<u8> = header(0, data.len() as u32);
        reply_vararg(body.as_slice(), data.as_slice())
    }

    /// Finds the object that a client wants to wait for by itself.
    pub fn handle_get_inproc_sync_fd(&mut self, client_fd: i32, req: Option<u32>) -> (step: ShareStep)
        requires
            old(self).wf(),
        ensures
            final(self).wf(),
            match req {
                None => *final(self) == *old(self) && step is Done && step->Done_0@ == status(
                    STATUS_INVALID_PARAMETER,
                ),
                Some(handle) => share_found(
                    *old(self),
                    *final(self),
                    pid_of(old(self).clients.clients@, client_fd),
                    handle,
                    step,
                ),
            },
    {
        let handle: u32 = match req {
            Some(h) => h,
            None => {
                return ShareStep::Done(reply_status(STATUS_INVALID_PARAMETER));
            },
        };
        let pid: u32 = self.client_pid(client_fd);
        let entry = self.handle_entry(pid, handle);
        let access: u32 = match entry {
            Some(e) => e.access,
            None => 0x001F_0003,
        };
        match self.sync.objects.get((pid, handle)) {
            Some(o) => {
                return ShareStep::Share(
                    SharedObject {
                        object: o.fd,
                        kind: o.kind,
                        access,
                        from: SharedFrom::Known,
                        pipe_fd: None,
                    },
                );
            },
            None => {},
        }
        match entry {
            Some(e) => {
                let target: u32 = e.object_id as u32;
                match self.sync.process_exit.get(target) {
                    Some(list) => match find_exit(list, pid, handle) {
                        Some(object) => {
                            return ShareStep::Share(
                                SharedObject {
                                    object,
                                    kind: SYNC_INTERNAL,
                                    access,
                                    from: SharedFrom::Exit,
                                    pipe_fd: None,
                                },
                            );
                        },
                        None => {},
                    },
                    None => {},
                }
            },
            None => {},
        }
        let pipe_fd: Option<i32> = match self.side_tables.pipe_handles.get((pid, handle)) {
            Some(p) => Some(p.data_fd),
            None => None,
        };
        match self.get_or_create_event(true, pipe_fd.is_none()) {
            Some(object) => {
                self.sync.objects.insert(
                    (pid, handle),
                    SyncObject { fd: object, kind: SYNC_INTERNAL },
                );
                ShareStep::Share(
                    SharedObject {
                        object,
                        kind: SYNC_INTERNAL,
                        access,
                        from: SharedFrom::Fresh,
                        pipe_fd,
                    },
                )
            },
            None => ShareStep::Done(reply_two(STATUS_INVALID_HANDLE, 0, 0)),
        }
    }

    /// Shares an object with a client. `dup_fd` is a duplicate for the client, `watch_fd` one for the
    /// thread that watches the pipe. Without a duplicate the request fails where the object stood behind
    /// the handle before; otherwise the answer is the same and no descriptor is sent.
    pub fn share_object(
        &mut self,
        client_fd: i32,
        handle: u32,
        shared: SharedObject,
        dup_fd: Option<i32>,
        watch_fd: Option<i32>,
    ) -> (r: Reply)
        requires
            old(self).wf(),
        ensures
            final(self).wf(),
            *final(self) == (EventLoop {
                clients: Clients {
                    clients: final(self).clients.clients,
                    pipe_watches: final(self).clients.pipe_watches,
                    ..old(self).clients
                },
                ..*old(self)
            }),
            final(self).clients.clients@ == (match dup_fd {
                Some(fd) => with_pending_fd(old(self).clients.clients@, client_fd, fd, handle),
                None => old(self).clients.clients@,
            }),
            final(self).clients.pipe_watches@ == (match (shared.pipe_fd, watch_fd) {
                (Some(p), Some(w)) => old(self).clients.pipe_watches@.push((p, w)),
                _ => old(self).clients.pipe_watches@,
            }),
            r@ == (if shared.from == SharedFrom::Known && dup_fd is None {
                status(STATUS_NO_MEMORY)
            } else {
                block(head(0, 0) + u32_bytes(shared.kind) + u32_bytes(shared.access))
            }),
    {
        match (shared.pipe_fd, watch_fd) {
            (Some(p), Some(w)) => {
                self.clients.pipe_watches.push((p, w));
            },
            _ => {},
        }
        match dup_fd {
            Some(fd) => {
                self.send_fd(client_fd, fd, handle);
            },
            None => {
                if shared.from == SharedFrom::Known {
                    return reply_status(STATUS_NO_MEMORY);
                }
            },
        }
        reply_two(0, shared.kind, shared.access)
    }

    /// Gives a client the event by which it cancels its own waits: the event, and the token under
    /// which a duplicate of it is sent.
    pub fn handle_get_inproc_alert_fd(&mut self, client_fd: i32) -> (r: (i32, u32))
        requires
            old(self).wf(),
        ensures
            final(self).wf(),
            *final(self) == (EventLoop {
                sync: Sync {
                    alerts: final(self).sync.alerts,
                    auto_events: final(self).sync.auto_events,
                    auto_set_events: final(self).sync.auto_set_events,
                    manual_events: final(self).sync.manual_events,
                    manual_set_events: final(self).sync.manual_set_events,
                    ..old(self).sync
                },
                ..*old(self)
            }),
            ({
                let held = old(self).sync.alerts@;
                let fresh = next_event(old(self).sync, true, false);
                &&& r.0 == client_event(held, client_fd, fresh)
                &&& r.1 == tid_of(old(self).clients.clients@, client_fd) | 1
                &&& final(self).sync.alerts@ == with_client_event(held, client_fd, fresh)
                &&& stocks_after(
                    old(self).sync,
                    final(self).sync,
                    true,
                    false,
                    !held.contains_key(client_fd) && fresh is Some,
                )
            }),
    {
        let tid: u32 = match self.client_thread_id(client_fd) {
            Some(t) => t,
            None => 0,
        };
        let token: u32 = tid | 1;
        (self.get_or_create_alert(client_fd), token)
    }

    /// Sends the duplicate of the event by which a client cancels its own waits. The answer is
    /// the token, whether or not there is a duplicate.
    pub fn share_alert(&mut self, client_fd: i32, token: u32, dup_fd: Option<i32>) -> (r: Reply)
        requires
            old(self).wf(),
        ensures
            final(self).wf(),
            *final(self) == (EventLoop {
                clients: Clients { clients: final(self).clients.clients, ..old(self).clients },
                ..*old(self)
            }),
            final(self).clients.clients@ == (match dup_fd {
                Some(fd) => with_pending_fd(old(self).clients.clients@, client_fd, fd, token),
                None => old(self).clients.clients@,
            }),
            r@ == handle_answer(0, token),
    {
        match dup_fd {
            Some(fd) => {
                self.send_fd(client_fd, fd, token);
            },
            None => {},
        }
        reply_handle(0, token)
    }

    /// Forgets that an event may be used again. The object itself stays: a client may hold a
    /// descriptor of it, and asks for it again.
    pub fn remove_ntsync_obj(&mut self, pid: u32, handle: u32)
        requires
            old(self).wf(),
        ensures
            final(self).wf(),
            *final(self) == (EventLoop {
                sync: Sync { recyclable: final(self).sync.recyclable, ..old(self).sync },
                ..*old(self)
            }),
            final(self).sync.recyclable@ == old(self).sync.recyclable@.remove((pid, handle)),
    {
        let _ = self.sync.recyclable.remove((pid, handle));
    }
}

proof fn lemma_first_read(s: Seq<CompletedPipeRead>, pid: u32, client_fd: i32, n: int)
    requires
        0 <= n <= s.len(),
        first_read(s.take(n), pid, client_fd) is Some,
    ensures
        first_read(s, pid, client_fd) == first_read(s.take(n), pid, client_fd),
    decreases s.len(),
{
    if n == s.len() {
        assert(s.take(n) =~= s);
    } else {
        assert(s.drop_last().take(n) =~= s.take(n));
        lemma_first_read(s.drop_last(), pid, client_fd, n);
    }
}

proof fn lemma_exit_for(s: Seq<ExitEvent>, pid: u32, handle: u32, n: int)
    requires
        0 <= n <= s.len(),
        exit_for(s.take(n), pid, handle) is Some,
    ensures
        exit_for(s, pid, handle) == exit_for(s.take(n), pid, handle),
    decreases s.len(),
{
    if n == s.len() {
        assert(s.take(n) =~= s);
    } else {
        assert(s.drop_last().take(n) =~= s.take(n));
        lemma_exit_for(s.drop_last(), pid, handle, n);
    }
}

/// The first event in a list that one handle of one process waits through.
pub fn find_exit(list: &Vec<ExitEvent>, pid: u32, handle: u32) -> (r: Option<i32>)
    ensures
        r == exit_for(list@, pid, handle),
{
    let ghost s = list@;
    let mut i: usize = 0;
    while i < list.len()
        invariant
            i <= s.len(),
            s == list@,
            exit_for(s.take(i as int), pid, handle) is None,
        decreases s.len() - i,
    {
        let x: ExitEvent = list[i];
        proof {
            assert(s.take(i + 1).drop_last() =~= s.take(i as int));
            assert(s.take(i + 1).last() == s[i as int]);
        }
        if x.pid == pid && x.handle == handle {
            proof {
                assert(exit_for(s.take(i + 1), pid, handle) == Some(x.object));
                lemma_exit_for(s, pid, handle, i + 1);
            }
            return Some(x.object);
        }
        i = i + 1;
    }
    assert(s.take(i as int) =~= s);
    None
}

/// What is done with an event, by the number in the request: 0 wakes those who wait, 1 sets it, 2 resets
/// it, and any other number does nothing.
pub proof fn lemma_event_numbers(op: i32)
    ensures
        op == 0 <==> event_operation(op) is Pulse,
        op == 1 <==> event_operation(op) is Raise,
        op == 2 <==> event_operation(op) is Lower,
        op < 0 || op > 2 <==> event_operation(op) is Nothing,
{
}

/// An answer with one number has the status at 0 and the number at 8.
pub proof fn lemma_number_told(error: u32, n: u32)
    ensures
        u32_at(number_answer(error, n), 0) == error,
        u32_at(number_answer(error, n), 8) == n,
        number_answer(error, n).len() == 64,
{
    lemma_answer_told(error, n);
}

/// A new object stands behind the new handle, of the kind that was asked for. With a name it is kept under
/// that name too, through a descriptor of its own; and the client is told that it is new.
pub proof fn lemma_new_object_is_kept(
    before: EventLoop,
    after: EventLoop,
    fd: i32,
    name: Option<Seq<char>>,
    kind: u32,
    recyclable: bool,
    object: i32,
    copy: Option<i32>,
    handle: u32,
)
    requires
        sync_created(
            before,
            after,
            fd,
            name,
            kind,
            recyclable,
            MadeObject::Fresh { fd: object, copy },
            handle,
        ),
        handle != 0,
        name matches Some(n) ==> !before.sync.named@.contains_key(n),
    ensures
        after.sync.objects@.contains_key((pid_of(before.clients.clients@, fd), handle)),
        after.sync.objects@[(pid_of(before.clients.clients@, fd), handle)].fd == object,
        after.sync.objects@[(pid_of(before.clients.clients@, fd), handle)].kind == kind,
        name is Some && copy is Some ==> after.sync.named@ == before.sync.named@.insert(
            name->Some_0,
            SyncObject { fd: copy->Some_0, kind },
        ),
        name is None ==> after.sync.named@ == before.sync.named@,
        u32_at(created_answer(before.sync, name, handle), 0) == 0,
        u32_at(created_answer(before.sync, name, handle), 8) == handle,
        forall|p: u32, h: u32|
            (p, h) != (pid_of(before.clients.clients@, fd), handle) ==> after.sync.objects@.contains_key(
                (p, h),
            ) == #[trigger] before.sync.objects@.contains_key((p, h)),
{
    let mid = choose|mid: EventLoop| #[trigger]
        waitable(before, mid, fd, handle) && object_attached(
            mid,
            after,
            pid_of(before.clients.clients@, fd),
            name,
            kind,
            recyclable,
            MadeObject::Fresh { fd: object, copy },
            handle,
        );
    assert(mid.sync.objects == before.sync.objects && mid.sync.named == before.sync.named);
    lemma_answer_told(0, handle);
}

/// A name stands for one object: whoever creates it again is given the object that is there, of its own
/// kind whatever was asked for, and is told 0x40000000; the name stands for it as before.
pub proof fn lemma_name_stands_for_one_object(
    before: EventLoop,
    after: EventLoop,
    fd: i32,
    name: Seq<char>,
    kind: u32,
    recyclable: bool,
    dup: i32,
    handle: u32,
)
    requires
        sync_created(
            before,
            after,
            fd,
            Some(name),
            kind,
            recyclable,
            MadeObject::Duplicate { fd: dup },
            handle,
        ),
        handle != 0,
        before.sync.named@.contains_key(name),
    ensures
        make_under(before.sync.named@, Some(name)) == (MakeObject::Duplicate {
            fd: before.sync.named@[name].fd,
        }),
        fd_under(before.sync.named@, Some(name)) == Some(before.sync.named@[name].fd),
        after.sync.objects@[(pid_of(before.clients.clients@, fd), handle)].fd == dup,
        after.sync.objects@[(pid_of(before.clients.clients@, fd), handle)].kind
            == before.sync.named@[name].kind,
        after.sync.named@ == before.sync.named@,
        u32_at(created_answer(before.sync, Some(name), handle), 0) == 0x4000_0000,
        u32_at(created_answer(before.sync, Some(name), handle), 8) == handle,
{
    let mid = choose|mid: EventLoop| #[trigger]
        waitable(before, mid, fd, handle) && object_attached(
            mid,
            after,
            pid_of(before.clients.clients@, fd),
            Some(name),
            kind,
            recyclable,
            MadeObject::Duplicate { fd: dup },
            handle,
        );
    assert(mid.sync.objects == before.sync.objects && mid.sync.named == before.sync.named);
    lemma_answer_told(STATUS_OBJECT_NAME_EXISTS, handle);
}

/// An object that is opened by its name stands behind the new handle through the duplicate that was made of
/// it; where none could be made, a fresh event does.
pub proof fn lemma_opened_object(
    before: EventLoop,
    after: EventLoop,
    fd: i32,
    kind: u32,
    manual: bool,
    dup_fd: Option<i32>,
    handle: u32,
)
    requires
        sync_opened(before, after, fd, kind, manual, dup_fd, handle),
    ensures
        handle != 0 && dup_fd is Some ==> after.sync.objects@[(
            pid_of(before.clients.clients@, fd),
            handle,
        )] == (SyncObject { fd: dup_fd->Some_0, kind }),
        handle == 0 && dup_fd is Some ==> after.outbox@.last() == (Action::Close { fd: dup_fd->Some_0 }),
        handle == 0 ==> after.sync.objects@ == before.sync.objects@,
        after.sync.named@ == before.sync.named@,
{
    let mid = choose|mid: EventLoop| #[trigger]
        waitable(before, mid, fd, handle) && opened(
            mid,
            after,
            pid_of(before.clients.clients@, fd),
            kind,
            manual,
            dup_fd,
            handle,
        );
    assert(mid.sync.objects == before.sync.objects);
}

/// What is cancelled and what is left: a pending read goes exactly where it belongs to the caller's process
/// and nothing in the request speaks against it: another handle, another status block, another thread.
pub proof fn lemma_what_is_cancelled(s: EventLoop, client_fd: i32, q: CancelAsyncRequest, key: (u32, u64))
    requires
        s.pipes.pending_reads@.contains_key(key),
    ensures
        ({
            let read = s.pipes.pending_reads@[key];
            let pid = pid_of(s.clients.clients@, client_fd);
            let e = entry_in(s.objects.processes@, pid, q.handle);
            let goes = key.0 == pid && (q.handle == 0 || (e is Some && e->Some_0.fd == Some(read.fd))) && (
            q.iosb == 0 || q.iosb == read.iosb) && (q.only_thread == 0 || read.tid == tid_of(
                s.clients.clients@,
                client_fd,
            ));
            reads_left(s, client_fd, q).contains_key(key) <==> !goes
        }),
{
}

/// The result of a read that is complete goes to the client that made it, the earliest first.
pub proof fn lemma_first_result(s: Seq<CompletedPipeRead>, pid: u32, client_fd: i32)
    ensures
        match first_read(s, pid, client_fd) {
            Some(i) => 0 <= i < s.len() && s[i].pid == pid && s[i].client_fd == client_fd && forall|j: int|
                0 <= j < i ==> !((#[trigger] s[j]).pid == pid && s[j].client_fd == client_fd),
            None => forall|j: int|
                0 <= j < s.len() ==> !((#[trigger] s[j]).pid == pid && s[j].client_fd == client_fd),
        },
    decreases s.len(),
{
    if s.len() > 0 {
        let d = s.drop_last();
        lemma_first_result(d, pid, client_fd);
        match first_read(d, pid, client_fd) {
            Some(i) => {
                assert forall|j: int| 0 <= j < i implies !((#[trigger] s[j]).pid == pid && s[j].client_fd
                    == client_fd) by {
                    assert(d[j] == s[j]);
                }
            },
            None => {
                assert forall|j: int| 0 <= j < s.len() - 1 implies !((#[trigger] s[j]).pid == pid
                    && s[j].client_fd == client_fd) by {
                    assert(d[j] == s[j]);
                }
            },
        }
    }
}

/// A client that asks for the result of an earlier call is given it once: the status of a control call that
/// is complete, else the data of a read that is; else the read is tried again where it was left, and a call
/// that nothing is known of is still under way, which is 0x103.
pub proof fn lemma_result_is_given_once(
    before: EventLoop,
    after: EventLoop,
    pid: u32,
    client_fd: i32,
    user_arg: u64,
    step: AsyncStep,
)
    requires
        async_answer(before, after, pid, client_fd, user_arg, step),
    ensures
        before.pipes.completed_ioctls@.contains_key((pid, user_arg)) ==> step is Done && u32_at(
            step->Done_0@,
            0,
        ) == before.pipes.completed_ioctls@[(pid, user_arg)]
            && !after.pipes.completed_ioctls@.contains_key((pid, user_arg)),
        !before.pipes.completed_ioctls@.contains_key((pid, user_arg)) && (exists|i: int|
            0 <= i < before.pipes.completed_reads@.len() && (#[trigger] before.pipes.completed_reads@[i]).pid
                == pid && before.pipes.completed_reads@[i].client_fd == client_fd) ==> step is Done
            && after.pipes.completed_reads@.len() == before.pipes.completed_reads@.len() - 1,
        !before.pipes.completed_ioctls@.contains_key((pid, user_arg)) && (forall|i: int|
            0 <= i < before.pipes.completed_reads@.len() ==> !(
            (#[trigger] before.pipes.completed_reads@[i]).pid == pid
                && before.pipes.completed_reads@[i].client_fd == client_fd)) ==> (if before.pipes.pending_reads@.contains_key(
            (pid, user_arg),
        ) {
            step matches AsyncStep::Receive { fd, max } && fd == before.pipes.pending_reads@[(
                pid,
                user_arg,
            )].fd && max == before.pipes.pending_reads@[(pid, user_arg)].max_bytes
        } else {
            step is Done && u32_at(step->Done_0@, 0) == 0x103
        }),
{
    lemma_first_result(before.pipes.completed_reads@, pid, client_fd);
    lemma_answer_told(STATUS_PENDING, 0);
    if before.pipes.completed_ioctls@.contains_key((pid, user_arg)) {
        lemma_answer_told(before.pipes.completed_ioctls@[(pid, user_arg)], 0);
    }
}

/// Data that a read gave follow the block; no data mean that the other end is gone.
pub proof fn lemma_read_result_told(data: Seq<u8>)
    requires
        data.len() <= u32::MAX,
    ensures
        data.len() == 0 ==> u32_at(read_answer(data), 0) == 0xC000_014B,
        data.len() > 0 ==> u32_at(read_answer(data), 0) == 0 && u32_at(read_answer(data), 4) == data.len()
            && read_answer(data).skip(64) == data,
{
    lemma_answer_told(STATUS_PIPE_BROKEN, 0);
    let body = head(0, data.len() as u32);
    assert(body.subrange(0, 4) =~= u32_bytes(0));
    assert(body.subrange(4, 8) =~= u32_bytes(data.len() as u32));
    lemma_word_told(body, data, 0, 0);
    lemma_word_told(body, data, 4, data.len() as u32);
}

/// The object that a client is given to wait for by itself is the one behind its handle; else the one that
/// tells the end of what the handle stands for; else one of its own that stands behind the handle from then
/// on. An event that is made for a pipe waits for data, any other is set.
pub proof fn lemma_object_is_shared(
    before: EventLoop,
    after: EventLoop,
    pid: u32,
    handle: u32,
    step: ShareStep,
)
    requires
        share_found(before, after, pid, handle, step),
    ensures
        before.sync.objects@.contains_key((pid, handle)) ==> after == before && (step matches ShareStep::Share(
            s,
        ) && s.object == before.sync.objects@[(pid, handle)].fd && s.kind == before.sync.objects@[(
            pid,
            handle,
        )].kind),
        !before.sync.objects@.contains_key((pid, handle)) ==> (step matches ShareStep::Share(s) ==> s.kind == 1
            && (after == before || (after.sync.objects@.contains_key((pid, handle))
            && after.sync.objects@[(pid, handle)].fd == s.object))),
        step matches ShareStep::Share(s) ==> s.access == (match entry_in(
            before.objects.processes@,
            pid,
            handle,
        ) {
            Some(e) => e.access,
            None => 0x001F_0003,
        }),
        step matches ShareStep::Share(s) ==> (s.pipe_fd is Some
            ==> before.side_tables.pipe_handles@.contains_key((pid, handle)) && s.pipe_fd == Some(
            before.side_tables.pipe_handles@[(pid, handle)].data_fd,
        )),
{
}

} // verus!
