//! Named pipes: their instances, those that listen and those that wait, and the control calls on them.
use crate::access::{file_access, map_file_access};
use crate::bytes::{
    lemma_read_back_u32, lemma_read_back_u64, push_u32, read_u32, read_u64, u32_at, u32_bytes, u64_at, u64_bytes,
};
use crate::names::push_named;
use crate::objects::{allocated, entry_in, handles_changed, HandleEntry, Process, FD_TYPE_DEVICE, FD_TYPE_FILE};
use crate::ports::posted;
use crate::side_tables::{HandleSideTables, PipeHandle};
use crate::state::{
    bumped, next_event, pid_of, stocks_after, took_number, with_signal, with_signals, Action, AsyncPipeRead,
    CompletedPipeRead, CompletionMsg, EventLoop, NamedPipeInfo, Objects, PipeListenAsync, PipeState, Pipes, Sync, SyncObject,
    SYNC_INTERNAL,
};
use crate::table::{list_of, push_under, pushed};
use crate::text::{byte_units, lowercase, to_lowercase, utf16_text, utf16le_to_string};
use crate::wire::{
    block, extract_objattr_name, head, header, lemma_fields_told, max_reply_vararg, objattr_name, opt_view, reply_handle, reply_room,
    reply_status, reply_two, reply_vararg, status, vararg, vararg_of, Reply, STATUS_INVALID_HANDLE,
    STATUS_INVALID_PARAMETER, STATUS_IO_TIMEOUT, STATUS_NO_MEMORY, STATUS_OBJECT_NAME_NOT_FOUND,
    STATUS_PENDING, STATUS_PIPE_BROKEN, STATUS_PIPE_BUSY, handle_answer,
};
use vstd::prelude::*;

verus! {

pub const FSCTL_PIPE_DISCONNECT: u32 = 0x0011_0004;

pub const FSCTL_PIPE_LISTEN: u32 = 0x0011_0008;

pub const FSCTL_PIPE_WAIT: u32 = 0x0011_0018;

pub const FSCTL_PIPE_TRANSCEIVE: u32 = 0x0011_C017;

/// What a call that may complete later carries along.
#[derive(Clone, Copy, Debug, PartialEq, Eq)]
pub struct AsyncData {
    pub handle: u32,
    pub event: u32,
    pub iosb: u64,
    pub user: u64,
}

/// A control call, and the 40 bytes that describe how it completes.
#[derive(Clone, Copy)]
pub struct IoctlRequest {
    pub code: u32,
    pub async_data: [u8; 40],
}

/// How a control call goes on.
pub enum IoctlStep {
    /// This is the answer.
    Done(Reply),
    /// Send the variable part of the request on the descriptor, then read at most `max` bytes.
    Transceive { fd: i32, options: u32, max: usize },
}

/// What came of sending and reading on a pipe.
pub enum Transceived {
    NotSent,
    Data(Vec<u8>),
    Closed,
    /// There is no data yet.
    Empty,
}

/// How a call that found no data goes on.
pub enum TransceiveStep {
    Done(Reply),
    /// Wait for data for a second, then read once more.
    Poll,
}

/// The reply to a control call.
pub open spec fn ioctl_answer(error: u32, wait: u32, options: u32) -> Seq<u8> {
    block(head(error, 0) + u32_bytes(wait) + u32_bytes(options))
}

/// The reply to a control call that gives data back.
pub open spec fn ioctl_data(options: u32, data: Seq<u8>) -> Seq<u8> {
    block(head(0, data.len() as u32) + u32_bytes(0) + u32_bytes(options)) + data
}

/// What the 40 bytes say.
pub open spec fn async_of(raw: [u8; 40]) -> AsyncData {
    AsyncData {
        handle: u32_at(raw@, 0),
        event: u32_at(raw@, 4),
        iosb: u64_at(raw@, 8),
        user: u64_at(raw@, 16),
    }
}

pub fn read_async(raw: &[u8; 40]) -> (r: AsyncData)
    ensures
        r == async_of(*raw),
{
    AsyncData {
        handle: read_u32(raw, 0),
        event: read_u32(raw, 4),
        iosb: read_u64(raw, 8),
        user: read_u64(raw, 16),
    }
}

/// The first instance that belongs to a handle of a process.
pub open spec fn instance_of(s: Seq<NamedPipeInfo>, pid: u32, handle: u32) -> Option<int>
    decreases s.len(),
{
    if s.len() == 0 {
        None
    } else {
        match instance_of(s.drop_last(), pid, handle) {
            Some(i) => Some(i),
            None => if s.last().server_pid == pid && s.last().server_handle == handle {
                Some(s.len() - 1)
            } else {
                None
            },
        }
    }
}

/// The first instance in a state.
pub open spec fn instance_in(s: Seq<NamedPipeInfo>, state: PipeState) -> Option<int>
    decreases s.len(),
{
    if s.len() == 0 {
        None
    } else {
        match instance_in(s.drop_last(), state) {
            Some(i) => Some(i),
            None => if s.last().state == state {
                Some(s.len() - 1)
            } else {
                None
            },
        }
    }
}

/// The first connected instance of a process.
pub open spec fn connected_of(s: Seq<NamedPipeInfo>, pid: u32) -> Option<int>
    decreases s.len(),
{
    if s.len() == 0 {
        None
    } else {
        match connected_of(s.drop_last(), pid) {
            Some(i) => Some(i),
            None => if s.last().server_pid == pid && s.last().state == PipeState::Connected {
                Some(s.len() - 1)
            } else {
                None
            },
        }
    }
}

/// A pipe has an instance that belongs to a handle of a process.
pub open spec fn serves(m: Map<Seq<char>, Vec<NamedPipeInfo>>, name: Seq<char>, pid: u32, handle: u32) -> bool {
    m.contains_key(name) && instance_of(m[name]@, pid, handle) is Some
}

/// A pipe has a connected instance of a process.
pub open spec fn connects(m: Map<Seq<char>, Vec<NamedPipeInfo>>, name: Seq<char>, pid: u32) -> bool {
    m.contains_key(name) && connected_of(m[name]@, pid) is Some
}

proof fn lemma_instance_of(s: Seq<NamedPipeInfo>, pid: u32, handle: u32, n: int)
    requires
        0 <= n <= s.len(),
        instance_of(s.take(n), pid, handle) is Some,
    ensures
        instance_of(s, pid, handle) == instance_of(s.take(n), pid, handle),
    decreases s.len(),
{
    if n == s.len() {
        assert(s.take(n) =~= s);
    } else {
        assert(s.drop_last().take(n) =~= s.take(n));
        lemma_instance_of(s.drop_last(), pid, handle, n);
    }
}

proof fn lemma_instance_in(s: Seq<NamedPipeInfo>, state: PipeState, n: int)
    requires
        0 <= n <= s.len(),
        instance_in(s.take(n), state) is Some,
    ensures
        instance_in(s, state) == instance_in(s.take(n), state),
    decreases s.len(),
{
    if n == s.len() {
        assert(s.take(n) =~= s);
    } else {
        assert(s.drop_last().take(n) =~= s.take(n));
        lemma_instance_in(s.drop_last(), state, n);
    }
}

proof fn lemma_connected_of(s: Seq<NamedPipeInfo>, pid: u32, n: int)
    requires
        0 <= n <= s.len(),
        connected_of(s.take(n), pid) is Some,
    ensures
        connected_of(s, pid) == connected_of(s.take(n), pid),
    decreases s.len(),
{
    if n == s.len() {
        assert(s.take(n) =~= s);
    } else {
        assert(s.drop_last().take(n) =~= s.take(n));
        lemma_connected_of(s.drop_last(), pid, n);
    }
}

/// A client that connects is given the first instance that listens, and none that listens is passed
/// over.
pub proof fn lemma_first_listener(s: Seq<NamedPipeInfo>)
    ensures
        match instance_in(s, PipeState::Listening) {
            Some(i) => 0 <= i < s.len() && s[i].state == PipeState::Listening && forall|j: int|
                0 <= j < i ==> #[trigger] s[j].state != PipeState::Listening,
            None => forall|j: int| 0 <= j < s.len() ==> #[trigger] s[j].state != PipeState::Listening,
        },
    decreases s.len(),
{
    if s.len() > 0 {
        lemma_first_listener(s.drop_last());
        let d = s.drop_last();
        assert forall|j: int| 0 <= j < d.len() implies #[trigger] s[j] == d[j] by {}
    }
}

fn find_instance(s: &Vec<NamedPipeInfo>, pid: u32, handle: u32) -> (r: Option<usize>)
    ensures
        match instance_of(s@, pid, handle) {
            Some(i) => r is Some && r->Some_0 == i && 0 <= i < s@.len(),
            None => r is None,
        },
{
    let ghost q = s@;
    let mut i: usize = 0;
    while i < s.len()
        invariant
            i <= q.len(),
            q == s@,
            instance_of(q.take(i as int), pid, handle) is None,
        decreases q.len() - i,
    {
        let x: NamedPipeInfo = s[i];
        proof {
            assert(q.take(i + 1).drop_last() =~= q.take(i as int));
            assert(q.take(i + 1).last() == q[i as int]);
        }
        if x.server_pid == pid && x.server_handle == handle {
            proof {
                assert(instance_of(q.take(i + 1), pid, handle) == Some(i as int));
                lemma_instance_of(q, pid, handle, i + 1);
            }
            return Some(i);
        }
        i = i + 1;
    }
    assert(q.take(i as int) =~= q);
    None
}

fn find_listening(s: &Vec<NamedPipeInfo>) -> (r: Option<usize>)
    ensures
        match instance_in(s@, PipeState::Listening) {
            Some(i) => r is Some && r->Some_0 == i && 0 <= i < s@.len(),
            None => r is None,
        },
{
    let ghost q = s@;
    let mut i: usize = 0;
    while i < s.len()
        invariant
            i <= q.len(),
            q == s@,
            instance_in(q.take(i as int), PipeState::Listening) is None,
        decreases q.len() - i,
    {
        let x: NamedPipeInfo = s[i];
        proof {
            assert(q.take(i + 1).drop_last() =~= q.take(i as int));
            assert(q.take(i + 1).last() == q[i as int]);
        }
        if x.state == PipeState::Listening {
            proof {
                assert(instance_in(q.take(i + 1), PipeState::Listening) == Some(i as int));
                lemma_instance_in(q, PipeState::Listening, i + 1);
            }
            return Some(i);
        }
        i = i + 1;
    }
    assert(q.take(i as int) =~= q);
    None
}

fn find_connected(s: &Vec<NamedPipeInfo>, pid: u32) -> (r: Option<usize>)
    ensures
        match connected_of(s@, pid) {
            Some(i) => r is Some && r->Some_0 == i && 0 <= i < s@.len(),
            None => r is None,
        },
{
    let ghost q = s@;
    let mut i: usize = 0;
    while i < s.len()
        invariant
            i <= q.len(),
            q == s@,
            connected_of(q.take(i as int), pid) is None,
        decreases q.len() - i,
    {
        let x: NamedPipeInfo = s[i];
        proof {
            assert(q.take(i + 1).drop_last() =~= q.take(i as int));
            assert(q.take(i + 1).last() == q[i as int]);
        }
        if x.server_pid == pid && x.state == PipeState::Connected {
            proof {
                assert(connected_of(q.take(i + 1), pid) == Some(i as int));
                lemma_connected_of(q, pid, i + 1);
            }
            return Some(i);
        }
        i = i + 1;
    }
    assert(q.take(i as int) =~= q);
    None
}

/// A process was given a handle to wait through, with a fresh event behind it; 0 where that failed.
pub open spec fn wait_handle_made(before: EventLoop, after: EventLoop, pid: u32, h: u32) -> bool {
    let fresh = next_event(before.sync, false, false);
    let e = HandleEntry {
        object_id: before.objects.next_object_id,
        fd: Some(-1i32),
        obj_type: FD_TYPE_FILE,
        access: 0x001F_0003,
        options: 0x20,
    };
    &&& after == (EventLoop {
        objects: after.objects,
        sync: Sync {
            objects: after.sync.objects,
            recyclable: after.sync.recyclable,
            created: after.sync.created,
            auto_events: after.sync.auto_events,
            auto_set_events: after.sync.auto_set_events,
            manual_events: after.sync.manual_events,
            manual_set_events: after.sync.manual_set_events,
            ..before.sync
        },
        outbox: after.outbox,
        ..before
    })
    &&& stocks_after(before.sync, after.sync, false, false, fresh is Some)
    &&& match fresh {
        None => {
            &&& h == 0
            &&& after.objects == before.objects
        },
        Some(_) => {
            &&& took_number(before.objects, after.objects)
            &&& allocated(before.objects.processes@, after.objects.processes@, pid, e, h)
        },
    }
    &&& if h != 0 {
        &&& after.sync.objects@ == before.sync.objects@.insert(
            (pid, h),
            SyncObject { fd: fresh->Some_0, kind: SYNC_INTERNAL },
        )
        &&& after.sync.recyclable@ == before.sync.recyclable@.insert((pid, h), ())
        &&& after.sync.created == bumped(before.sync.created)
        &&& after.outbox@ == before.outbox@
    } else {
        &&& after.sync.objects@ == before.sync.objects@
        &&& after.sync.recyclable@ == before.sync.recyclable@
        &&& after.sync.created == before.sync.created
        &&& after.outbox@ == (match fresh {
            Some(fd) => before.outbox@.push(Action::Close { fd }),
            None => before.outbox@,
        })
    }
}

/// The handle through which a caller waits for a pipe handle: the one that it has, or a new one.
pub open spec fn pipe_wait(before: EventLoop, after: EventLoop, pid: u32, handle: u32, h: u32) -> bool {
    let held = before.side_tables.io_wait_handles@;
    if held.contains_key((pid, handle)) {
        h == held[(pid, handle)] && after == before
    } else {
        exists|mid: EventLoop| #[trigger]
            wait_handle_made(before, mid, pid, h) && (if h == 0 {
                after == mid
            } else {
                &&& after == (EventLoop {
                    side_tables: HandleSideTables {
                        io_wait_handles: after.side_tables.io_wait_handles,
                        ..mid.side_tables
                    },
                    ..mid
                })
                &&& after.side_tables.io_wait_handles@ == held.insert((pid, handle), h)
            })
    }
}

/// One instance of one pipe changed.
pub open spec fn instance_changed(
    before: Map<Seq<char>, Vec<NamedPipeInfo>>,
    after: Map<Seq<char>, Vec<NamedPipeInfo>>,
    name: Seq<char>,
    i: int,
    x: NamedPipeInfo,
) -> bool {
    &&& after.contains_key(name)
    &&& after == before.insert(name, after[name])
    &&& after[name]@ == before[name]@.update(i, x)
}

/// A handle of a process stands for another descriptor.
pub open spec fn server_end_set(
    before: Map<u32, Process>,
    after: Map<u32, Process>,
    pid: u32,
    handle: u32,
    fd: i32,
) -> bool {
    match entry_in(before, pid, handle) {
        Some(e) => {
            &&& handles_changed(before, after, pid)
            &&& after[pid].handles@ == before[pid].handles@.insert(
                handle / 4,
                HandleEntry { fd: Some(fd), ..e },
            )
            &&& after[pid].handles.used() == before[pid].handles.used()
        },
        None => after == before,
    }
}

/// The descriptors that a fresh socket pair replaces are closed.
pub open spec fn old_ends_closed(s: EventLoop, pid: u32, handle: u32, client_end: i32) -> Seq<Action> {
    let out = match entry_in(s.objects.processes@, pid, handle) {
        Some(HandleEntry { fd: Some(fd), .. }) => s.outbox@.push(Action::Close { fd }),
        _ => s.outbox@,
    };
    if client_end >= 0 {
        out.push(Action::Close { fd: client_end })
    } else {
        out
    }
}

/// An instance listens again. With `renew` it is given a fresh socket pair, where there is one: the
/// other end of the old one is gone.
pub open spec fn rearmed(
    before: EventLoop,
    after: EventLoop,
    name: Seq<char>,
    pid: u32,
    handle: u32,
    renew: bool,
    event: Option<(u32, u32)>,
    la: Option<PipeListenAsync>,
) -> bool {
    let list = before.pipes.named@[name]@;
    let i = instance_of(list, pid, handle)->Some_0;
    let pairs = before.pipes.socket_pairs@;
    let fresh = renew && pairs.len() > 0;
    &&& after == (EventLoop {
        objects: Objects { processes: after.objects.processes, ..before.objects },
        pipes: Pipes {
            named: after.pipes.named,
            socket_pairs: after.pipes.socket_pairs,
            ..before.pipes
        },
        outbox: after.outbox,
        ..before
    })
    &&& instance_changed(
        before.pipes.named@,
        after.pipes.named@,
        name,
        i,
        NamedPipeInfo {
            state: PipeState::Listening,
            listen_event: event,
            listen_async: la,
            client_data_fd: if fresh {
                pairs.last().1
            } else {
                list[i].client_data_fd
            },
            ..list[i]
        },
    )
    &&& if fresh {
        &&& after.pipes.socket_pairs@ == pairs.drop_last()
        &&& server_end_set(
            before.objects.processes@,
            after.objects.processes@,
            pid,
            handle,
            pairs.last().0,
        )
        &&& after.outbox@ == old_ends_closed(before, pid, handle, list[i].client_data_fd)
    } else {
        &&& after.pipes.socket_pairs@ == pairs
        &&& after.objects.processes@ == before.objects.processes@
        &&& after.outbox@ == before.outbox@
    }
}

/// The clients that waited for a pipe to listen are woken.
pub open spec fn waiters_woken(before: EventLoop, after: EventLoop, name: Seq<char>) -> bool {
    &&& after == (EventLoop {
        pipes: Pipes { waiters: after.pipes.waiters, ..before.pipes },
        outbox: after.outbox,
        ..before
    })
    &&& after.pipes.waiters@ == before.pipes.waiters@.remove(name)
    &&& after.outbox@ == with_signals(
        before.sync.objects@,
        before.outbox@,
        list_of(before.pipes.waiters@, name),
    )
}

/// An instance listens and its waiting clients are woken. A connected one is renewed first: its
/// client has left.
pub open spec fn listening(
    before: EventLoop,
    after: EventLoop,
    name: Seq<char>,
    pid: u32,
    handle: u32,
    event: (u32, u32),
    la: PipeListenAsync,
) -> bool {
    let list = before.pipes.named@[name]@;
    let i = instance_of(list, pid, handle)->Some_0;
    exists|mid: EventLoop|
        #![trigger waiters_woken(mid, after, name)]
        rearmed(
            before,
            mid,
            name,
            pid,
            handle,
            list[i].state == PipeState::Connected,
            Some(event),
            Some(la),
        ) && waiters_woken(mid, after, name)
}

/// What a listening server wants to hear.
pub open spec fn listen_data(fd: i32, a: AsyncData, event: u32) -> PipeListenAsync {
    PipeListenAsync {
        server_client_fd: fd,
        cookie: 0,
        user: a.user,
        sb: a.iosb,
        async_event: event,
        user_arg: a.user,
    }
}

/// The event of an overlapped call is reset: it must not hold an earlier completion.
pub open spec fn event_reset(before: EventLoop, after: EventLoop, pid: u32, event: u32) -> bool {
    &&& after == (EventLoop { outbox: after.outbox, ..before })
    &&& after.outbox@ == (if before.sync.objects@.contains_key((pid, event)) {
        before.outbox@.push(Action::ResetEvent { object: before.sync.objects@[(pid, event)].fd })
    } else {
        before.outbox@
    })
}

/// A server listens on its pipe. An overlapped call completes through the caller's event; otherwise
/// the caller waits through a handle of its own.
pub open spec fn pipe_listened(before: EventLoop, after: EventLoop, fd: i32, a: AsyncData, r: Seq<u8>) -> bool {
    let pid = pid_of(before.clients.clients@, fd);
    if forall|n: Seq<char>| !#[trigger] serves(before.pipes.named@, n, pid, a.handle) {
        after == before && r == ioctl_answer(0, 0, 0)
    } else {
        exists|n: Seq<char>| #[trigger]
            serves(before.pipes.named@, n, pid, a.handle) && if a.event != 0 {
                &&& r == ioctl_answer(STATUS_PENDING, 0, 0)
                &&& exists|mid: EventLoop| #[trigger]
                    event_reset(before, mid, pid, a.event) && listening(
                        mid,
                        after,
                        n,
                        pid,
                        a.handle,
                        (pid, a.event),
                        listen_data(fd, a, a.event),
                    )
            } else {
                exists|mid: EventLoop, h: u32| #[trigger]
                    wait_handle_made(before, mid, pid, h) && if h != 0 {
                        &&& r == ioctl_answer(STATUS_PENDING, h, 0)
                        &&& listening(
                            mid,
                            after,
                            n,
                            pid,
                            a.handle,
                            (pid, h),
                            listen_data(fd, a, 0),
                        )
                    } else {
                        r == ioctl_answer(0, 0, 0) && after == mid
                    }
            }
    }
}

/// A server disconnects its client: the instance listens again, with a fresh socket pair.
pub open spec fn pipe_disconnected(before: EventLoop, after: EventLoop, fd: i32, a: AsyncData) -> bool {
    let pid = pid_of(before.clients.clients@, fd);
    if forall|n: Seq<char>| !#[trigger] serves(before.pipes.named@, n, pid, a.handle) {
        after == before
    } else {
        exists|n: Seq<char>|
            #![trigger serves(before.pipes.named@, n, pid, a.handle)]
            {
                let list = before.pipes.named@[n]@;
                let i = instance_of(list, pid, a.handle)->Some_0;
                &&& serves(before.pipes.named@, n, pid, a.handle)
                &&& rearmed(
                    before,
                    after,
                    n,
                    pid,
                    a.handle,
                    true,
                    None,
                    list[i].listen_async,
                )
            }
    }
}

/// The name in a request to wait for a pipe, in lower case.
pub open spec fn wait_name(v: Seq<u8>) -> Option<Seq<char>> {
    if v.len() < 14 || v.len() < 14 + u32_at(v, 8) {
        None
    } else {
        Some(lowercase(utf16_text(byte_units(v.subrange(14, 14 + u32_at(v, 8))))))
    }
}

/// A client waits for a pipe to listen. It need not exist yet.
pub open spec fn pipe_awaited(before: EventLoop, after: EventLoop, fd: i32, buf: Seq<u8>, r: Seq<u8>) -> bool {
    match wait_name(vararg_of(buf)) {
        None => after == before && r == ioctl_answer(STATUS_OBJECT_NAME_NOT_FOUND, 0, 0),
        Some(n) => awaited_under(before, after, fd, n, r),
    }
}

/// A client waits for a pipe with a name, unless an instance of it listens already.
pub open spec fn awaited_under(before: EventLoop, after: EventLoop, fd: i32, n: Seq<char>, r: Seq<u8>) -> bool {
    let pid = pid_of(before.clients.clients@, fd);
    if instance_in(list_of(before.pipes.named@, n), PipeState::Listening) is Some {
        after == before && r == ioctl_answer(0, 0, 0)
    } else {
        exists|mid: EventLoop, h: u32| #[trigger]
            wait_handle_made(before, mid, pid, h) && if h != 0 {
                &&& r == ioctl_answer(STATUS_PENDING, h, 0)
                &&& after == (EventLoop {
                    pipes: Pipes { waiters: after.pipes.waiters, ..mid.pipes },
                    ..mid
                })
                &&& pushed(mid.pipes.waiters@, after.pipes.waiters@, n, (pid, h))
            } else {
                after == mid && r == ioctl_answer(STATUS_OBJECT_NAME_NOT_FOUND, 0, 0)
            }
    }
}

/// How many bytes a call reads at most.
pub open spec fn read_room(buf: Seq<u8>) -> u32 {
    if reply_room(buf) > 0 {
        reply_room(buf)
    } else {
        65536
    }
}

/// What comes of a control call.
pub open spec fn ioctl_done(
    before: EventLoop,
    after: EventLoop,
    fd: i32,
    buf: Seq<u8>,
    req: IoctlRequest,
    step: IoctlStep,
) -> bool {
    let a = async_of(req.async_data);
    let pid = pid_of(before.clients.clients@, fd);
    if req.code == FSCTL_PIPE_LISTEN {
        step is Done && pipe_listened(before, after, fd, a, step->Done_0@)
    } else if req.code == FSCTL_PIPE_DISCONNECT {
        step is Done && step->Done_0@ == ioctl_answer(0, 0, 0) && pipe_disconnected(
            before,
            after,
            fd,
            a,
        )
    } else if req.code == FSCTL_PIPE_WAIT {
        step is Done && pipe_awaited(before, after, fd, buf, step->Done_0@)
    } else if req.code == FSCTL_PIPE_TRANSCEIVE {
        &&& after == before
        &&& match entry_in(before.objects.processes@, pid, a.handle) {
            Some(HandleEntry { fd: Some(pfd), options, .. }) => step == (IoctlStep::Transceive {
                fd: pfd,
                options,
                max: read_room(buf) as usize,
            }),
            _ => step is Done && step->Done_0@ == ioctl_answer(STATUS_INVALID_HANDLE, 0, 0),
        }
    } else {
        after == before && step is Done && step->Done_0@ == ioctl_answer(0, 0, 0)
    }
}

impl EventLoop {
    /// Gives a process a handle to wait through, with a fresh event behind it.
    pub fn make_wait_handle(&mut self, pid: u32) -> (h: u32)
        requires
            old(self).wf(),
        ensures
            final(self).wf(),
            wait_handle_made(*old(self), *final(self), pid, h),
    {
        match self.get_or_create_event(false, false) {
            Some(fd) => {
                let oid: u64 = self.alloc_object_id();
                let e = HandleEntry::with_fd(oid, -1, FD_TYPE_FILE, 0x001F_0003, 0x20);
                let h: u32 = self.allocate_in(pid, e);
                if h != 0 {
                    self.insert_recyclable_event(pid, h, fd, SYNC_INTERNAL);
                } else {
                    self.outbox.push(Action::Close { fd });
                }
                h
            },
            None => 0,
        }
    }

    /// The handle through which a caller waits for a pipe handle. It is kept for the next time.
    pub fn get_pipe_wait_handle(&mut self, pid: u32, pipe_handle: u32) -> (h: u32)
        requires
            old(self).wf(),
        ensures
            final(self).wf(),
            pipe_wait(*old(self), *final(self), pid, pipe_handle, h),
    {
        match self.side_tables.io_wait_handles.get((pid, pipe_handle)) {
            Some(h) => {
                return *h;
            },
            None => {},
        }
        let h: u32 = self.make_wait_handle(pid);
        let ghost mid = *self;
        assert(wait_handle_made(*old(self), mid, pid, h));
        if h != 0 {
            self.side_tables.io_wait_handles.insert((pid, pipe_handle), h);
        }
        h
    }

    /// Wakes the clients that wait for a pipe to listen.
    pub fn wake_pipe_waiters(&mut self, name: &str)
        requires
            old(self).wf(),
        ensures
            final(self).wf(),
            waiters_woken(*old(self), *final(self), name@),
    {
        match self.pipes.waiters.remove(name) {
            Some(events) => {
                self.signal_all(&events);
            },
            None => {
                assert(with_signals(self.sync.objects@, self.outbox@, Seq::empty()) == self.outbox@);
            },
        }
    }

    /// The name of the pipe that a handle of a process serves.
    fn find_pipe(&self, pid: u32, handle: u32) -> (r: Option<String>)
        requires
            self.wf(),
        ensures
            match r {
                Some(n) => serves(self.pipes.named@, n@, pid, handle),
                None => forall|n: Seq<char>| !#[trigger] serves(self.pipes.named@, n, pid, handle),
            },
    {
        let ghost w = self.pipes.named.walk();
        proof {
            self.pipes.named.lemma_walk();
        }
        let mut i: usize = 0;
        while i < self.pipes.named.len()
            invariant
                self.wf(),
                i <= w.len(),
                w == self.pipes.named.walk(),
                forall|j: int|
                    #![trigger w[j]]
                    0 <= j < i ==> instance_of(w[j].1@, pid, handle) is None,
            decreases w.len() - i,
        {
            let (name, list) = self.pipes.named.at(i);
            if find_instance(list, pid, handle).is_some() {
                let n = name.clone();
                proof {
                    self.pipes.named.lemma_walk();
                    assert(w[i as int].0@ == n@);
                }
                return Some(n);
            }
            i = i + 1;
        }
        assert forall|n: Seq<char>| !#[trigger] serves(self.pipes.named@, n, pid, handle) by {
            if self.pipes.named@.contains_key(n) {
                let j = choose|j: int| 0 <= j < w.len() && #[trigger] w[j].0@ == n;
                assert(self.pipes.named@[n] == w[j].1);
            }
        }
        None
    }

    /// Has an instance listen again.
    #[verifier::rlimit(30)]
    fn rearm(
        &mut self,
        name: &str,
        pid: u32,
        handle: u32,
        renew: bool,
        event: Option<(u32, u32)>,
        la: Option<PipeListenAsync>,
    )
        requires
            old(self).wf(),
            serves(old(self).pipes.named@, name@, pid, handle),
        ensures
            final(self).wf(),
            rearmed(*old(self), *final(self), name@, pid, handle, renew, event, la),
    {
        let (i, info): (usize, NamedPipeInfo) = match self.pipes.named.get(name) {
            Some(list) => match find_instance(list, pid, handle) {
                Some(i) => (i, list[i]),
                None => {
                    return;
                },
            },
            None => {
                return;
            },
        };
        let mut client_data_fd: i32 = info.client_data_fd;
        if renew {
            match self.pipes.socket_pairs.pop() {
                Some((server_end, client_end)) => {
                    match self.handle_entry(pid, handle) {
                        Some(e) => {
                            match e.fd {
                                Some(fd) => {
                                    self.outbox.push(Action::Close { fd });
                                },
                                None => {},
                            }
                            match self.objects.processes.get_mut(pid) {
                                Some(p) => {
                                    p.handles.set(handle, HandleEntry { fd: Some(server_end), ..e });
                                },
                                None => {},
                            }
                        },
                        None => {},
                    }
                    if client_data_fd >= 0 {
                        self.outbox.push(Action::Close { fd: client_data_fd });
                    }
                    client_data_fd = client_end;
                },
                None => {},
            }
        }
        match self.pipes.named.get_mut(name) {
            Some(list) => {
                list[i] = NamedPipeInfo {
                    state: PipeState::Listening,
                    listen_event: event,
                    listen_async: la,
                    client_data_fd,
                    ..info
                };
            },
            None => {},
        }
    }

    fn listen(&mut self, name: &str, pid: u32, handle: u32, event: (u32, u32), la: PipeListenAsync)
        requires
            old(self).wf(),
            serves(old(self).pipes.named@, name@, pid, handle),
        ensures
            final(self).wf(),
            listening(*old(self), *final(self), name@, pid, handle, event, la),
    {
        let connected: bool = match self.pipes.named.get(name) {
            Some(list) => match find_instance(list, pid, handle) {
                Some(i) => list[i].state == PipeState::Connected,
                None => false,
            },
            None => false,
        };
        self.rearm(name, pid, handle, connected, Some(event), Some(la));
        self.wake_pipe_waiters(name);
    }

    fn pipe_listen(&mut self, client_fd: i32, a: AsyncData) -> (r: Reply)
        requires
            old(self).wf(),
        ensures
            final(self).wf(),
            pipe_listened(*old(self), *final(self), client_fd, a, r@),
    {
        let pid: u32 = self.client_pid(client_fd);
        let name = match self.find_pipe(pid, a.handle) {
            Some(n) => n,
            None => {
                return reply_two(0, 0, 0);
            },
        };
        assert(serves(old(self).pipes.named@, name@, pid, a.handle));
        let mut la = PipeListenAsync {
            server_client_fd: client_fd,
            cookie: 0,
            user: a.user,
            sb: a.iosb,
            async_event: a.event,
            user_arg: a.user,
        };
        if a.event != 0 {
            match self.sync.objects.get((pid, a.event)) {
                Some(o) => {
                    let object: i32 = o.fd;
                    self.outbox.push(Action::ResetEvent { object });
                },
                None => {},
            }
            let ghost mid = *self;
            assert(event_reset(*old(self), mid, pid, a.event));
            self.listen(name.as_str(), pid, a.handle, (pid, a.event), la);
            reply_two(STATUS_PENDING, 0, 0)
        } else {
            let h: u32 = self.make_wait_handle(pid);
            let ghost mid = *self;
            assert(wait_handle_made(*old(self), mid, pid, h));
            if h != 0 {
                self.listen(name.as_str(), pid, a.handle, (pid, h), la);
                reply_two(STATUS_PENDING, h, 0)
            } else {
                reply_two(0, 0, 0)
            }
        }
    }

    fn pipe_disconnect(&mut self, client_fd: i32, a: AsyncData)
        requires
            old(self).wf(),
        ensures
            final(self).wf(),
            pipe_disconnected(*old(self), *final(self), client_fd, a),
    {
        let pid: u32 = self.client_pid(client_fd);
        let name = match self.find_pipe(pid, a.handle) {
            Some(n) => n,
            None => {
                return;
            },
        };
        assert(serves(old(self).pipes.named@, name@, pid, a.handle));
        let la: Option<PipeListenAsync> = match self.pipes.named.get(name.as_str()) {
            Some(list) => match find_instance(list, pid, a.handle) {
                Some(i) => list[i].listen_async,
                None => None,
            },
            None => None,
        };
        self.rearm(name.as_str(), pid, a.handle, true, None, la);
    }

    fn pipe_await(&mut self, client_fd: i32, buf: &[u8]) -> (r: Reply)
        requires
            old(self).wf(),
        ensures
            final(self).wf(),
            pipe_awaited(*old(self), *final(self), client_fd, buf@, r@),
    {
        let v: Vec<u8> = vararg(buf);
        let n: usize = v.len();
        if n < 14 {
            return reply_two(STATUS_OBJECT_NAME_NOT_FOUND, 0, 0);
        }
        let len: u32 = read_u32(v.as_slice(), 8);
        if ((n - 14) as u64) < len as u64 {
            return reply_two(STATUS_OBJECT_NAME_NOT_FOUND, 0, 0);
        }
        let raw: Vec<u8> = crate::bytes::copy_range(v.as_slice(), 14, 14 + len as usize);
        let text = utf16le_to_string(raw.as_slice());
        let name = to_lowercase(text.as_str());
        self.await_pipe(client_fd, name)
    }

    /// Lets a client wait for a pipe, unless an instance of it listens already.
    pub fn await_pipe(&mut self, client_fd: i32, name: String) -> (r: Reply)
        requires
            old(self).wf(),
        ensures
            final(self).wf(),
            awaited_under(*old(self), *final(self), client_fd, name@, r@),
    {
        let listens: bool = match self.pipes.named.get(name.as_str()) {
            Some(list) => find_listening(list).is_some(),
            None => false,
        };
        if listens {
            return reply_two(0, 0, 0);
        }
        assert(instance_in(list_of(self.pipes.named@, name@), PipeState::Listening) is None);
        let pid: u32 = self.client_pid(client_fd);
        let h: u32 = self.make_wait_handle(pid);
        let ghost mid = *self;
        assert(wait_handle_made(*old(self), mid, pid, h));
        if h != 0 {
            push_named(&mut self.pipes.waiters, name, (pid, h));
            return reply_two(STATUS_PENDING, h, 0);
        }
        reply_two(STATUS_OBJECT_NAME_NOT_FOUND, 0, 0)
    }

    /// A control call on a pipe. All others succeed without an effect.
    pub fn handle_ioctl(&mut self, client_fd: i32, buf: &[u8], req: Option<IoctlRequest>) -> (step: IoctlStep)
        requires
            old(self).wf(),
        ensures
            final(self).wf(),
            match req {
                None => *final(self) == *old(self) && step is Done && step->Done_0@ == status(
                    STATUS_INVALID_PARAMETER,
                ),
                Some(q) => ioctl_done(*old(self), *final(self), client_fd, buf@, q, step),
            },
    {
        let q = match req {
            Some(q) => q,
            None => {
                return IoctlStep::Done(reply_status(STATUS_INVALID_PARAMETER));
            },
        };
        let a = read_async(&q.async_data);
        if q.code == FSCTL_PIPE_LISTEN {
            return IoctlStep::Done(self.pipe_listen(client_fd, a));
        }
        if q.code == FSCTL_PIPE_DISCONNECT {
            self.pipe_disconnect(client_fd, a);
            return IoctlStep::Done(reply_two(0, 0, 0));
        }
        if q.code == FSCTL_PIPE_WAIT {
            return IoctlStep::Done(self.pipe_await(client_fd, buf));
        }
        if q.code == FSCTL_PIPE_TRANSCEIVE {
            let pid: u32 = self.client_pid(client_fd);
            match self.handle_entry(pid, a.handle) {
                Some(e) => match e.fd {
                    Some(fd) => {
                        let room: u32 = max_reply_vararg(buf);
                        let max: usize = if room > 0 {
                            room as usize
                        } else {
                            65536
                        };
                        return IoctlStep::Transceive { fd, options: e.options, max };
                    },
                    None => {},
                },
                None => {},
            }
            return IoctlStep::Done(reply_two(STATUS_INVALID_HANDLE, 0, 0));
        }
        IoctlStep::Done(reply_two(0, 0, 0))
    }

    /// Ends a call that sends and reads. Without data yet, a read is left to be completed later, if
    /// the caller can wait for it.
    pub fn transceived(
        &mut self,
        client_fd: i32,
        handle: u32,
        fd: i32,
        options: u32,
        max: usize,
        got: Transceived,
    ) -> (step: TransceiveStep)
        requires
            old(self).wf(),
        ensures
            final(self).wf(),
            match got {
                Transceived::NotSent => *final(self) == *old(self) && step is Done && step->Done_0@
                    == ioctl_answer(STATUS_PIPE_BROKEN, 0, 0),
                Transceived::Closed => *final(self) == *old(self) && step is Done && step->Done_0@
                    == ioctl_answer(STATUS_PIPE_BROKEN, 0, 0),
                Transceived::Data(d) => *final(self) == *old(self) && step is Done && step->Done_0@
                    == ioctl_data(options, d@),
                Transceived::Empty => read_left(
                    *old(self),
                    *final(self),
                    client_fd,
                    handle,
                    fd,
                    options,
                    max,
                    step,
                ),
            },
    {
        match got {
            Transceived::NotSent => TransceiveStep::Done(reply_two(STATUS_PIPE_BROKEN, 0, 0)),
            Transceived::Closed => TransceiveStep::Done(reply_two(STATUS_PIPE_BROKEN, 0, 0)),
            Transceived::Data(d) => TransceiveStep::Done(reply_ioctl_data(options, &d)),
            Transceived::Empty => {
                let pid: u32 = self.client_pid(client_fd);
                let wait: u32 = self.get_pipe_wait_handle(pid, handle);
                let ghost mid = *self;
                assert(pipe_wait(*old(self), mid, pid, handle, wait));
                if wait != 0 {
                    self.pipes.reads.push(
                        AsyncPipeRead { pipe_fd: fd, max_bytes: max, pid, wait_handle: wait, client_fd },
                    );
                    TransceiveStep::Done(reply_two(STATUS_PENDING, wait, options))
                } else {
                    TransceiveStep::Poll
                }
            },
        }
    }
}

/// A read is left to be completed later; without a handle to wait through it is done at once.
pub open spec fn read_left(
    before: EventLoop,
    after: EventLoop,
    client_fd: i32,
    handle: u32,
    fd: i32,
    options: u32,
    max: usize,
    step: TransceiveStep,
) -> bool {
    let pid = pid_of(before.clients.clients@, client_fd);
    exists|mid: EventLoop, wait: u32| #[trigger]
        pipe_wait(before, mid, pid, handle, wait) && if wait != 0 {
            &&& after == (EventLoop { pipes: Pipes { reads: after.pipes.reads, ..mid.pipes }, ..mid })
            &&& after.pipes.reads@ == mid.pipes.reads@.push(
                AsyncPipeRead { pipe_fd: fd, max_bytes: max, pid, wait_handle: wait, client_fd },
            )
            &&& step is Done
            &&& step->Done_0@ == ioctl_answer(STATUS_PENDING, wait, options)
        } else {
            after == mid && step is Poll
        }
}

fn reply_ioctl_data(options: u32, data: &Vec<u8>) -> (r: Reply)
    ensures
        r@ == ioctl_data(options, data@),
{
    let mut body: Vec<u8> = header(0, data.len() as u32);
    push_u32(&mut body, 0);
    push_u32(&mut body, options);
    reply_vararg(body.as_slice(), data.as_slice())
}

/// Ends a call that sends and reads, after data was waited for.
pub fn transceive_polled(options: u32, data: &Vec<u8>) -> (r: Reply)
    ensures
        r@ == (if data@.len() > 0 {
            ioctl_data(options, data@)
        } else {
            ioctl_answer(STATUS_IO_TIMEOUT, 0, 0)
        }),
{
    if data.len() > 0 {
        reply_ioctl_data(options, data)
    } else {
        reply_two(STATUS_IO_TIMEOUT, 0, 0)
    }
}

/// The flags of a pipe are accepted; nothing depends on them.
pub fn handle_set_named_pipe_info(complete: bool) -> (r: Reply)
    ensures
        r@ == status(
            if complete {
                0
            } else {
                STATUS_INVALID_PARAMETER
            },
        ),
{
    reply_status(
        if complete {
            0
        } else {
            STATUS_INVALID_PARAMETER
        },
    )
}

/// A new pipe of a process: its server end has a handle.
pub open spec fn server_end_made(before: EventLoop, after: EventLoop, pid: u32, handle: u32) -> bool {
    let pair = before.pipes.socket_pairs@.last();
    &&& after == (EventLoop {
        objects: after.objects,
        pipes: Pipes { socket_pairs: after.pipes.socket_pairs, ..before.pipes },
        side_tables: HandleSideTables {
            pipe_handles: after.side_tables.pipe_handles,
            ..before.side_tables
        },
        ..before
    })
    &&& took_number(before.objects, after.objects)
    &&& allocated(
        before.objects.processes@,
        after.objects.processes@,
        pid,
        HandleEntry {
            object_id: before.objects.next_object_id,
            fd: Some(pair.0),
            obj_type: FD_TYPE_DEVICE,
            access: 0x001F_01FF,
            options: 0x20,
        },
        handle,
    )
    &&& after.pipes.socket_pairs@ == before.pipes.socket_pairs@.drop_last()
    &&& after.side_tables.pipe_handles@ == before.side_tables.pipe_handles@.insert(
        (pid, handle),
        PipeHandle { data_fd: pair.0 },
    )
}

/// The instance of a new named pipe, which listens.
pub open spec fn new_instance(pid: u32, handle: u32, client_end: i32) -> NamedPipeInfo {
    NamedPipeInfo {
        server_pid: pid,
        server_handle: handle,
        client_data_fd: client_end,
        state: PipeState::Listening,
        listen_event: None,
        listen_async: None,
    }
}

/// The client end of a new pipe: a listening instance under the pipe's name, or a handle of the
/// process itself.
pub open spec fn client_end_placed(
    mid: EventLoop,
    after: EventLoop,
    name: Option<Seq<char>>,
    pid: u32,
    handle: u32,
    client_end: i32,
    created: u32,
) -> bool {
    if name is Some && name->Some_0.len() > 0 {
        let n = name->Some_0;
        &&& created == (if list_of(mid.pipes.named@, n).len() == 0 {
            1u32
        } else {
            0u32
        })
        &&& exists|s: EventLoop|
            #![trigger waiters_woken(s, after, n)]
            s == (EventLoop { pipes: Pipes { named: s.pipes.named, ..mid.pipes }, ..mid }) && pushed(
                mid.pipes.named@,
                s.pipes.named@,
                n,
                new_instance(pid, handle, client_end),
            ) && waiters_woken(s, after, n)
    } else {
        &&& created == 1
        &&& took_number(mid.objects, after.objects)
        &&& after == (EventLoop {
            objects: after.objects,
            pipes: Pipes { unnamed_clients: after.pipes.unnamed_clients, ..mid.pipes },
            ..mid
        })
        &&& exists|h: u32| #[trigger]
            allocated(
                mid.objects.processes@,
                after.objects.processes@,
                pid,
                HandleEntry {
                    object_id: mid.objects.next_object_id,
                    fd: Some(client_end),
                    obj_type: FD_TYPE_DEVICE,
                    access: 0x0012_019F,
                    options: 0,
                },
                h,
            ) && after.pipes.unnamed_clients@ == (if mid.objects.processes@.contains_key(pid) {
                mid.pipes.unnamed_clients@.insert(handle, h)
            } else {
                mid.pipes.unnamed_clients@
            })
    }
}

/// A client's process has a new pipe.
pub open spec fn pipe_created(
    before: EventLoop,
    after: EventLoop,
    fd: i32,
    name: Option<Seq<char>>,
    handle: u32,
    created: u32,
) -> bool {
    let pid = pid_of(before.clients.clients@, fd);
    exists|mid: EventLoop| #[trigger]
        server_end_made(before, mid, pid, handle) && client_end_placed(
            mid,
            after,
            name,
            pid,
            handle,
            before.pipes.socket_pairs@.last().1,
            created,
        )
}

/// The system call that tells a server of its new client.
pub open spec fn io_call(la: PipeListenAsync) -> Seq<u8> {
    u32_bytes(2) + u32_bytes(0) + u64_bytes(la.user) + u64_bytes(la.sb) + u32_bytes(0)
}

/// A connection completes the call of a listening server: the server is to be told of it first, and
/// only then is its event set.
pub open spec fn listen_completed(
    before: EventLoop,
    after: EventLoop,
    la: PipeListenAsync,
    event: Option<(u32, u32)>,
) -> bool {
    let fd = la.server_client_fd;
    &&& after == (EventLoop {
        sync: Sync {
            kernel_apcs: after.sync.kernel_apcs,
            deferred: after.sync.deferred,
            ..before.sync
        },
        pipes: Pipes { completed_ioctls: after.pipes.completed_ioctls, ..before.pipes },
        ..before
    })
    &&& exists|apc: [u8; 28]|
        #![trigger pushed(before.sync.kernel_apcs@, after.sync.kernel_apcs@, fd, apc)]
        apc@ == io_call(la) && pushed(before.sync.kernel_apcs@, after.sync.kernel_apcs@, fd, apc)
    &&& match event {
        Some(e) => pushed(before.sync.deferred@, after.sync.deferred@, fd, e),
        None => after.sync.deferred@ == before.sync.deferred@,
    }
    &&& after.pipes.completed_ioctls@ == before.pipes.completed_ioctls@.insert(
        (pid_of(before.clients.clients@, fd), la.user_arg),
        0u32,
    )
}

/// The port that a connected pipe handle of the server reports to is told. Of several connected
/// pipes, any.
pub open spec fn port_told(before: EventLoop, after: EventLoop, server_pid: u32, user: u64) -> bool {
    let m = before.pipes.named@;
    if forall|n: Seq<char>| !#[trigger] connects(m, n, server_pid) {
        after == before
    } else {
        exists|n: Seq<char>|
            #![trigger connects(m, n, server_pid)]
            {
                let h = m[n]@[connected_of(m[n]@, server_pid)->Some_0].server_handle;
                let b = before.side_tables.completion_bindings@;
                &&& connects(m, n, server_pid)
                &&& if b.contains_key((server_pid, h)) {
                    posted(
                        before,
                        after,
                        b[(server_pid, h)].0,
                        CompletionMsg {
                            ckey: b[(server_pid, h)].1,
                            cvalue: user,
                            information: 0,
                            status: 0,
                        },
                    )
                } else {
                    after == before
                }
            }
    }
}

/// The actions that wake a server's thread, wherever it waits.
pub open spec fn server_woken(s: EventLoop, fd: i32) -> Seq<Action> {
    let out = if s.sync.interrupts@.contains_key(fd) {
        s.outbox@.push(Action::SetEvent { object: s.sync.interrupts@[fd] })
    } else {
        s.outbox@
    };
    let c = s.clients.clients@;
    if c.contains_key(fd) && c[fd].unix_tid != 0 {
        out.push(Action::Interrupt { unix_pid: c[fd].unix_pid, unix_tid: c[fd].unix_tid })
    } else {
        out
    }
}

/// A server that listens is told of a connection.
pub open spec fn server_told(
    before: EventLoop,
    after: EventLoop,
    la: Option<PipeListenAsync>,
    event: Option<(u32, u32)>,
) -> bool {
    match la {
        None => after == before,
        Some(la) => exists|s1: EventLoop, s2: EventLoop|
            #![trigger listen_completed(before, s1, la, event), port_told(s1, s2, pid_of(before.clients.clients@, la.server_client_fd), la.user)]
            listen_completed(before, s1, la, event) && port_told(
                s1,
                s2,
                pid_of(before.clients.clients@, la.server_client_fd),
                la.user,
            ) && after == (EventLoop { outbox: after.outbox, ..s2 }) && after.outbox@ == server_woken(
                s2,
                la.server_client_fd,
            ),
    }
}

/// The client's process has a handle to its end of a pipe.
pub open spec fn client_end_given(
    before: EventLoop,
    after: EventLoop,
    fd: i32,
    dup_fd: i32,
    access: u32,
    options: u32,
    handle: u32,
) -> bool {
    let pid = pid_of(before.clients.clients@, fd);
    let given = pid != 0 && before.objects.processes@.contains_key(pid);
    &&& after == (EventLoop {
        objects: after.objects,
        side_tables: HandleSideTables {
            pipe_handles: after.side_tables.pipe_handles,
            ..before.side_tables
        },
        ..before
    })
    &&& took_number(before.objects, after.objects)
    &&& if given {
        &&& allocated(
            before.objects.processes@,
            after.objects.processes@,
            pid,
            HandleEntry {
                object_id: before.objects.next_object_id,
                fd: Some(dup_fd),
                obj_type: FD_TYPE_DEVICE,
                access: file_access(access),
                options: options | 0x20,
            },
            handle,
        )
        &&& after.side_tables.pipe_handles@ == before.side_tables.pipe_handles@.insert(
            (pid, handle),
            PipeHandle { data_fd: dup_fd },
        )
    } else {
        &&& handle == 0
        &&& after.objects.processes@ == before.objects.processes@
        &&& after.side_tables.pipe_handles@ == before.side_tables.pipe_handles@
    }
}

/// A client connected to the instance `i` of a pipe.
pub open spec fn pipe_connected(
    before: EventLoop,
    after: EventLoop,
    fd: i32,
    name: Seq<char>,
    i: int,
    dup_fd: i32,
    access: u32,
    options: u32,
    handle: u32,
) -> bool {
    let info = before.pipes.named@[name]@[i];
    exists|s1: EventLoop, s2: EventLoop|
        #![trigger server_told(s1, s2, info.listen_async, info.listen_event)]
        s1 == (EventLoop { pipes: Pipes { named: s1.pipes.named, ..before.pipes }, ..before })
            && instance_changed(
            before.pipes.named@,
            s1.pipes.named@,
            name,
            i,
            NamedPipeInfo { state: PipeState::Connected, listen_async: None, ..info },
        ) && server_told(s1, s2, info.listen_async, info.listen_event) && client_end_given(
            s2,
            after,
            fd,
            dup_fd,
            access,
            options,
            handle,
        )
}

fn io_call_bytes(la: PipeListenAsync) -> (r: [u8; 28])
    ensures
        r@ == io_call(la),
{
    let mut v: Vec<u8> = Vec::new();
    push_u32(&mut v, 2);
    push_u32(&mut v, 0);
    crate::bytes::push_u64(&mut v, la.user);
    crate::bytes::push_u64(&mut v, la.sb);
    push_u32(&mut v, 0);
    assert(v@ == io_call(la));
    let mut r: [u8; 28] = [0u8; 28];
    let mut i: usize = 0;
    while i < 28
        invariant
            i <= 28,
            v@.len() == 28,
            forall|j: int| 0 <= j < i ==> r@[j] == v@[j],
        decreases 28 - i,
    {
        r[i] = v[i];
        i = i + 1;
    }
    assert(r@ =~= v@);
    r
}

impl EventLoop {
    /// Creates a pipe. A pipe without a name keeps both of its ends in the process.
    pub fn handle_create_named_pipe(&mut self, client_fd: i32, buf: &[u8], complete: bool) -> (r: Reply)
        requires
            old(self).wf(),
        ensures
            final(self).wf(),
            if !complete {
                *final(self) == *old(self) && r@ == status(STATUS_INVALID_PARAMETER)
            } else if old(self).pipes.socket_pairs@.len() == 0 {
                *final(self) == *old(self) && r@ == status(STATUS_NO_MEMORY)
            } else {
                exists|h: u32, created: u32| #[trigger]
                    pipe_created(
                        *old(self),
                        *final(self),
                        client_fd,
                        objattr_name(buf@),
                        h,
                        created,
                    ) && r@ == block(head(0, 0) + u32_bytes(h) + u32_bytes(created))
            },
    {
        if !complete {
            return reply_status(STATUS_INVALID_PARAMETER);
        }
        let name = extract_objattr_name(buf);
        self.create_pipe(client_fd, name)
    }

    /// Creates a pipe under a name. One without a name keeps both of its ends in the process.
    pub fn create_pipe(&mut self, client_fd: i32, name: Option<String>) -> (r: Reply)
        requires
            old(self).wf(),
        ensures
            final(self).wf(),
            if old(self).pipes.socket_pairs@.len() == 0 {
                *final(self) == *old(self) && r@ == status(STATUS_NO_MEMORY)
            } else {
                exists|h: u32, created: u32| #[trigger]
                    pipe_created(*old(self), *final(self), client_fd, opt_view(name), h, created) && r@
                        == block(head(0, 0) + u32_bytes(h) + u32_bytes(created))
            },
    {
        if self.pipes.socket_pairs.len() == 0 {
            return reply_status(STATUS_NO_MEMORY);
        }
        let ghost nm = opt_view(name);
        let (server_end, client_end): (i32, i32) = match self.pipes.socket_pairs.pop() {
            Some(p) => p,
            None => (-1, -1),
        };
        let oid: u64 = self.alloc_object_id();
        let pid: u32 = self.client_pid(client_fd);
        let handle: u32 = self.allocate_in(
            pid,
            HandleEntry::with_fd(oid, server_end, FD_TYPE_DEVICE, 0x001F_01FF, 0x20),
        );
        self.side_tables.pipe_handles.insert((pid, handle), PipeHandle { data_fd: server_end });
        let ghost mid = *self;
        assert(server_end_made(*old(self), mid, pid, handle));
        let named = match name {
            Some(n) => if n.as_str().is_empty() {
                None
            } else {
                Some(n)
            },
            None => None,
        };
        match named {
            Some(n) => {
                let fresh: bool = match self.pipes.named.get(n.as_str()) {
                    Some(list) => list.len() == 0,
                    None => true,
                };
                let key = n.clone();
                push_named(
                    &mut self.pipes.named,
                    n,
                    NamedPipeInfo {
                        server_pid: pid,
                        server_handle: handle,
                        client_data_fd: client_end,
                        state: PipeState::Listening,
                        listen_event: None,
                        listen_async: None,
                    },
                );
                let ghost s = *self;
                self.wake_pipe_waiters(key.as_str());
                assert(waiters_woken(s, *self, key@));
                let created: u32 = if fresh {
                    1
                } else {
                    0
                };
                assert(client_end_placed(mid, *self, nm, pid, handle, client_end, created));
                assert(pipe_created(*old(self), *self, client_fd, nm, handle, created));
                reply_two(0, handle, created)
            },
            None => {
                let client_oid: u64 = self.alloc_object_id();
                let known: bool = self.objects.processes.contains_key(pid);
                let h: u32 = self.allocate_in(
                    pid,
                    HandleEntry::with_fd(client_oid, client_end, FD_TYPE_DEVICE, 0x0012_019F, 0),
                );
                if known {
                    self.pipes.unnamed_clients.insert(handle, h);
                }
                assert(client_end_placed(mid, *self, nm, pid, handle, client_end, 1));
                assert(pipe_created(*old(self), *self, client_fd, nm, handle, 1));
                reply_two(0, handle, 1)
            },
        }
    }

    /// The client end of the instance to which the next client of a pipe connects.
    pub fn listening_fd(&self, basename: &str) -> (r: Option<i32>)
        requires
            self.wf(),
        ensures
            r == (match instance_in(
                list_of(self.pipes.named@, basename@),
                PipeState::Listening,
            ) {
                Some(i) => Some(self.pipes.named@[basename@]@[i].client_data_fd),
                None => None,
            }),
    {
        match self.pipes.named.get(basename) {
            Some(list) => match find_listening(list) {
                Some(i) => Some(list[i].client_data_fd),
                None => None,
            },
            None => None,
        }
    }

    /// Tells the port of a server that a pipe is connected.
    fn tell_port(&mut self, server_pid: u32, user: u64)
        requires
            old(self).wf(),
        ensures
            final(self).wf(),
            port_told(*old(self), *final(self), server_pid, user),
    {
        let ghost m = self.pipes.named@;
        let h: u32 = match self.find_connected_handle(server_pid) {
            Some(h) => h,
            None => {
                return;
            },
        };
        let binding: Option<(u32, u64)> = match self.side_tables.completion_bindings.get(
            (server_pid, h),
        ) {
            Some(b) => Some(*b),
            None => None,
        };
        match binding {
            Some((port, ckey)) => {
                self.post(port, CompletionMsg { ckey, cvalue: user, information: 0, status: 0 });
            },
            None => {},
        }
        proof {
            let n = choose|n: Seq<char>| #[trigger]
                connects(m, n, server_pid) && m[n]@[connected_of(m[n]@, server_pid)->Some_0].server_handle
                    == h;
            assert(connects(m, n, server_pid));
        }
    }

    /// The handle of a connected instance of a process.
    fn find_connected_handle(&self, pid: u32) -> (r: Option<u32>)
        requires
            self.wf(),
        ensures
            match r {
                Some(h) => exists|n: Seq<char>| #[trigger]
                    connects(self.pipes.named@, n, pid)
                        && self.pipes.named@[n]@[connected_of(
                        self.pipes.named@[n]@,
                        pid,
                    )->Some_0].server_handle == h,
                None => forall|n: Seq<char>| !#[trigger] connects(self.pipes.named@, n, pid),
            },
    {
        let ghost w = self.pipes.named.walk();
        proof {
            self.pipes.named.lemma_walk();
        }
        let mut i: usize = 0;
        while i < self.pipes.named.len()
            invariant
                self.wf(),
                i <= w.len(),
                w == self.pipes.named.walk(),
                forall|j: int|
                    #![trigger w[j]]
                    0 <= j < i ==> connected_of(w[j].1@, pid) is None,
            decreases w.len() - i,
        {
            let (name, list) = self.pipes.named.at(i);
            match find_connected(list, pid) {
                Some(k) => {
                    proof {
                        self.pipes.named.lemma_walk();
                        assert(connects(self.pipes.named@, w[i as int].0@, pid));
                    }
                    return Some(list[k].server_handle);
                },
                None => {},
            }
            i = i + 1;
        }
        assert forall|n: Seq<char>| !#[trigger] connects(self.pipes.named@, n, pid) by {
            if self.pipes.named@.contains_key(n) {
                let j = choose|j: int| 0 <= j < w.len() && #[trigger] w[j].0@ == n;
                assert(self.pipes.named@[n] == w[j].1);
            }
        }
        None
    }

    /// Tells a server that listens of a connection.
    #[verifier::rlimit(30)]
    fn tell_server(&mut self, la: Option<PipeListenAsync>, event: Option<(u32, u32)>)
        requires
            old(self).wf(),
        ensures
            final(self).wf(),
            server_told(*old(self), *final(self), la, event),
    {
        let la = match la {
            Some(la) => la,
            None => {
                return;
            },
        };
        let fd: i32 = la.server_client_fd;
        let server_pid: u32 = self.client_pid(fd);
        let apc = io_call_bytes(la);
        push_under(&mut self.sync.kernel_apcs, fd, apc);
        match event {
            Some(e) => {
                push_under(&mut self.sync.deferred, fd, e);
            },
            None => {},
        }
        self.pipes.completed_ioctls.insert((server_pid, la.user_arg), 0);
        let ghost s1 = *self;
        assert(pushed(old(self).sync.kernel_apcs@, s1.sync.kernel_apcs@, fd, apc));
        assert(listen_completed(*old(self), s1, la, event));
        self.tell_port(server_pid, la.user);
        let ghost s2 = *self;
        assert(port_told(s1, s2, server_pid, la.user));
        assert(s2.wf());
        match self.sync.interrupts.get(fd) {
            Some(e) => {
                let object: i32 = *e;
                self.outbox.push(Action::SetEvent { object });
            },
            None => {},
        }
        match self.clients.clients.get(fd) {
            Some(c) => {
                let (unix_pid, unix_tid): (i32, i32) = (c.unix_pid, c.unix_tid);
                if unix_tid != 0 {
                    self.outbox.push(Action::Interrupt { unix_pid, unix_tid });
                }
            },
            None => {},
        }
    }

    /// Connects a client to a pipe, where there is a pipe of that name: to the first instance that
    /// listens. `dup_fd` is a duplicate of that instance's client end.
    pub fn try_connect_named_pipe(
        &mut self,
        client_fd: i32,
        basename: &str,
        access: u32,
        options: u32,
        dup_fd: Option<i32>,
    ) -> (r: Option<Reply>)
        requires
            old(self).wf(),
        ensures
            final(self).wf(),
            if !old(self).pipes.named@.contains_key(basename@) {
                r is None && *final(self) == *old(self)
            } else {
                &&& r is Some
                &&& match (
                    instance_in(old(self).pipes.named@[basename@]@, PipeState::Listening),
                    dup_fd,
                ) {
                    (None, _) => *final(self) == *old(self) && r->Some_0@ == status(STATUS_PIPE_BUSY),
                    (Some(_), None) => *final(self) == *old(self) && r->Some_0@ == status(
                        STATUS_NO_MEMORY,
                    ),
                    (Some(i), Some(d)) => exists|h: u32| #[trigger]
                        pipe_connected(
                            *old(self),
                            *final(self),
                            client_fd,
                            basename@,
                            i,
                            d,
                            access,
                            options,
                            h,
                        ) && r->Some_0@ == handle_answer(0, h),
                }
            },
    {
        let (i, info): (usize, NamedPipeInfo) = match self.pipes.named.get(basename) {
            Some(list) => match find_listening(list) {
                Some(i) => (i, list[i]),
                None => {
                    return Some(reply_status(STATUS_PIPE_BUSY));
                },
            },
            None => {
                return None;
            },
        };
        let d: i32 = match dup_fd {
            Some(d) => d,
            None => {
                return Some(reply_status(STATUS_NO_MEMORY));
            },
        };
        match self.pipes.named.get_mut(basename) {
            Some(list) => {
                list[i] = NamedPipeInfo { state: PipeState::Connected, listen_async: None, ..info };
            },
            None => {},
        }
        let ghost s1 = *self;
        self.tell_server(info.listen_async, info.listen_event);
        let ghost s2 = *self;
        assert(server_told(s1, s2, info.listen_async, info.listen_event));
        let handle: u32 = self.give_client_end(client_fd, d, access, options);
        assert(pipe_connected(
            *old(self),
            *self,
            client_fd,
            basename@,
            i as int,
            d,
            access,
            options,
            handle,
        ));
        Some(reply_handle(0, handle))
    }

    fn give_client_end(&mut self, client_fd: i32, dup_fd: i32, access: u32, options: u32) -> (handle: u32)
        requires
            old(self).wf(),
        ensures
            final(self).wf(),
            client_end_given(*old(self), *final(self), client_fd, dup_fd, access, options, handle),
    {
        let oid: u64 = self.alloc_object_id();
        let pid: u32 = self.client_pid(client_fd);
        if pid != 0 && self.objects.processes.contains_key(pid) {
            let mapped: u32 = map_file_access(access);
            let h: u32 = self.allocate_in(
                pid,
                HandleEntry::with_fd(oid, dup_fd, FD_TYPE_DEVICE, mapped, options | 0x20),
            );
            self.side_tables.pipe_handles.insert((pid, h), PipeHandle { data_fd: dup_fd });
            h
        } else {
            0
        }
    }

    /// Takes the read at position `i` off the list, with what the pipe gave: nothing, or data, which
    /// is empty where the other end is closed. With data the caller is woken to fetch it.
    pub fn complete_read(&mut self, i: usize, got: Option<Vec<u8>>)
        requires
            old(self).wf(),
            i < old(self).pipes.reads@.len(),
        ensures
            final(self).wf(),
            *final(self) == (EventLoop {
                pipes: Pipes {
                    reads: final(self).pipes.reads,
                    completed_reads: final(self).pipes.completed_reads,
                    ..old(self).pipes
                },
                outbox: final(self).outbox,
                ..*old(self)
            }),
            final(self).pipes.reads@ == old(self).pipes.reads@.remove(i as int),
            ({
                let x = old(self).pipes.reads@[i as int];
                match got {
                    Some(data) => {
                        &&& final(self).pipes.completed_reads@ == old(self).pipes.completed_reads@.push(
                            CompletedPipeRead { client_fd: x.client_fd, data, pid: x.pid },
                        )
                        &&& final(self).outbox@ == with_signal(
                            old(self).sync.objects@,
                            old(self).outbox@,
                            x.pid,
                            x.wait_handle,
                        )
                    },
                    None => {
                        &&& final(self).pipes.completed_reads@ == old(self).pipes.completed_reads@
                        &&& final(self).outbox@ == old(self).outbox@
                    },
                }
            }),
    {
        let x = self.pipes.reads.remove(i);
        match got {
            Some(data) => {
                self.signal(x.pid, x.wait_handle);
                self.pipes.completed_reads.push(
                    CompletedPipeRead { client_fd: x.client_fd, data, pid: x.pid },
                );
            },
            None => {},
        }
    }
}

/// An event that no handle stands for, and by which the daemon ends no wait of its own: a thread's alert
/// is one.
pub open spec fn is_apart(s: Sync, event: i32) -> bool {
    &&& forall|k: (u32, u32)| #[trigger] s.objects@.contains_key(k) ==> s.objects@[k].fd != event
    &&& forall|fd: i32| #[trigger] s.interrupts@.contains_key(fd) ==> s.interrupts@[fd] != event
}

/// Actions were only added, and none of them sets an event.
pub open spec fn leaves_unset(before: Seq<Action>, after: Seq<Action>, event: i32) -> bool {
    &&& before.len() <= after.len()
    &&& after.take(before.len() as int) == before
    &&& forall|i: int|
        before.len() <= i < after.len() ==> #[trigger] after[i] != (Action::SetEvent { object: event })
}

/// A connection reaches the server as a call and through the events of its own handles: the alert of a
/// thread is never set for it, for a thread that waits by itself would take that for a call of its user.
pub proof fn lemma_alert_stays_unset(
    before: EventLoop,
    after: EventLoop,
    fd: i32,
    name: Seq<char>,
    i: int,
    dup_fd: i32,
    access: u32,
    options: u32,
    handle: u32,
    alert: i32,
)
    requires
        pipe_connected(before, after, fd, name, i, dup_fd, access, options, handle),
        is_apart(before.sync, alert),
    ensures
        leaves_unset(before.outbox@, after.outbox@, alert),
        after.sync.alerts@ == before.sync.alerts@,
{
    let info = before.pipes.named@[name]@[i];
    let (s1, s2) = choose|s1: EventLoop, s2: EventLoop|
        #![trigger server_told(s1, s2, info.listen_async, info.listen_event)]
        s1 == (EventLoop { pipes: Pipes { named: s1.pipes.named, ..before.pipes }, ..before })
            && instance_changed(
            before.pipes.named@,
            s1.pipes.named@,
            name,
            i,
            NamedPipeInfo { state: PipeState::Connected, listen_async: None, ..info },
        ) && server_told(s1, s2, info.listen_async, info.listen_event) && client_end_given(
            s2,
            after,
            fd,
            dup_fd,
            access,
            options,
            handle,
        );
    lemma_told_apart(s1, s2, info.listen_async, info.listen_event, alert);
}

proof fn lemma_told_apart(
    before: EventLoop,
    after: EventLoop,
    la: Option<PipeListenAsync>,
    event: Option<(u32, u32)>,
    alert: i32,
)
    requires
        server_told(before, after, la, event),
        is_apart(before.sync, alert),
    ensures
        leaves_unset(before.outbox@, after.outbox@, alert),
        after.sync.alerts@ == before.sync.alerts@,
{
    match la {
        None => {
            assert(after.outbox@.take(before.outbox@.len() as int) =~= before.outbox@);
        },
        Some(la) => {
            let pid = pid_of(before.clients.clients@, la.server_client_fd);
            let (s1, s2) = choose|s1: EventLoop, s2: EventLoop|
                #![trigger listen_completed(before, s1, la, event), port_told(s1, s2, pid, la.user)]
                listen_completed(before, s1, la, event) && port_told(s1, s2, pid, la.user) && after
                    == (EventLoop { outbox: after.outbox, ..s2 }) && after.outbox@ == server_woken(
                    s2,
                    la.server_client_fd,
                );
            lemma_port_apart(s1, s2, pid, la.user, alert);
            let n = before.outbox@.len() as int;
            assert(after.outbox@.take(n) =~= s2.outbox@.take(n));
            assert forall|j: int| n <= j < after.outbox@.len() implies #[trigger] after.outbox@[j] != (
            Action::SetEvent { object: alert }) by {
                if j < s2.outbox@.len() {
                    assert(after.outbox@[j] == s2.outbox@[j]);
                }
            }
        },
    }
}

proof fn lemma_port_apart(before: EventLoop, after: EventLoop, pid: u32, user: u64, alert: i32)
    requires
        port_told(before, after, pid, user),
        is_apart(before.sync, alert),
    ensures
        leaves_unset(before.outbox@, after.outbox@, alert),
        after.sync == before.sync,
{
    assert(before.outbox@.take(before.outbox@.len() as int) =~= before.outbox@);
    if after.outbox@ != before.outbox@ {
        assert(after.outbox@.len() == before.outbox@.len() + 1);
        assert(after.outbox@.take(before.outbox@.len() as int) =~= before.outbox@);
    }
}

/// What a look at the pipe of a pending read gave.
pub enum PolledRead {
    /// There is no data yet.
    Waiting,
    /// The pipe had something, and it could not be read.
    Failed,
    /// Data, which is empty where the other end is closed.
    Data(Vec<u8>),
}

/// The reads that are still pending.
pub open spec fn reads_left(reads: Seq<AsyncPipeRead>, got: Seq<PolledRead>) -> Seq<AsyncPipeRead>
    decreases reads.len(),
{
    if reads.len() == 0 {
        Seq::empty()
    } else {
        (if got[0] is Waiting {
            seq![reads[0]]
        } else {
            Seq::empty()
        }) + reads_left(reads.skip(1), got.skip(1))
    }
}

/// What was read, the last first.
pub open spec fn reads_done(reads: Seq<AsyncPipeRead>, got: Seq<PolledRead>) -> Seq<CompletedPipeRead>
    decreases reads.len(),
{
    if reads.len() == 0 {
        Seq::empty()
    } else {
        reads_done(reads.skip(1), got.skip(1)) + (match got[0] {
            PolledRead::Data(data) => seq![
                CompletedPipeRead { client_fd: reads[0].client_fd, data, pid: reads[0].pid },
            ],
            _ => Seq::empty(),
        })
    }
}

/// The callers whose reads have data are woken, the last first.
pub open spec fn readers_woken(
    objects: Map<(u32, u32), SyncObject>,
    out: Seq<Action>,
    reads: Seq<AsyncPipeRead>,
    got: Seq<PolledRead>,
) -> Seq<Action>
    decreases reads.len(),
{
    if reads.len() == 0 {
        out
    } else {
        let later = readers_woken(objects, out, reads.skip(1), got.skip(1));
        if got[0] is Data {
            with_signal(objects, later, reads[0].pid, reads[0].wait_handle)
        } else {
            later
        }
    }
}

impl EventLoop {
    /// Ends the pending reads whose pipes had something. `got` is what a look at each of them gave.
    pub fn check_pending_pipe_reads(&mut self, got: Vec<PolledRead>)
        requires
            old(self).wf(),
            got@.len() == old(self).pipes.reads@.len(),
        ensures
            final(self).wf(),
            *final(self) == (EventLoop {
                pipes: Pipes {
                    reads: final(self).pipes.reads,
                    completed_reads: final(self).pipes.completed_reads,
                    ..old(self).pipes
                },
                outbox: final(self).outbox,
                ..*old(self)
            }),
            final(self).pipes.reads@ == reads_left(old(self).pipes.reads@, got@),
            final(self).pipes.completed_reads@ == old(self).pipes.completed_reads@ + reads_done(
                old(self).pipes.reads@,
                got@,
            ),
            final(self).outbox@ == readers_woken(
                old(self).sync.objects@,
                old(self).outbox@,
                old(self).pipes.reads@,
                got@,
            ),
    {
        let ghost reads = self.pipes.reads@;
        let ghost all = got@;
        let mut rest = got;
        let mut i: usize = rest.len();
        assert(reads.take(i as int) + reads_left(reads.skip(i as int), all.skip(i as int)) =~= reads);
        assert(self.pipes.completed_reads@ + reads_done(reads.skip(i as int), all.skip(i as int))
            =~= self.pipes.completed_reads@);
        while i > 0
            invariant
                self.wf(),
                reads == old(self).pipes.reads@,
                all.len() == reads.len(),
                i <= reads.len(),
                rest@ == all.take(i as int),
                *self == (EventLoop {
                    pipes: Pipes {
                        reads: self.pipes.reads,
                        completed_reads: self.pipes.completed_reads,
                        ..old(self).pipes
                    },
                    outbox: self.outbox,
                    ..*old(self)
                }),
                self.pipes.reads@ == reads.take(i as int) + reads_left(
                    reads.skip(i as int),
                    all.skip(i as int),
                ),
                self.pipes.completed_reads@ == old(self).pipes.completed_reads@ + reads_done(
                    reads.skip(i as int),
                    all.skip(i as int),
                ),
                self.outbox@ == readers_woken(
                    old(self).sync.objects@,
                    old(self).outbox@,
                    reads.skip(i as int),
                    all.skip(i as int),
                ),
            decreases i,
        {
            let ghost k = i - 1;
            let ghost before = *self;
            proof {
                assert(reads.skip(k).skip(1) =~= reads.skip(i as int));
                assert(all.skip(k).skip(1) =~= all.skip(i as int));
                assert(reads.skip(k)[0] == reads[k] && all.skip(k)[0] == all[k]);
                assert(before.pipes.reads@[k] == reads[k]);
                assert(rest@.last() == all[k]);
            }
            let g = rest.pop();
            i = i - 1;
            match g {
                Some(PolledRead::Data(data)) => {
                    self.complete_read(i, Some(data));
                },
                Some(PolledRead::Failed) => {
                    self.complete_read(i, None);
                },
                _ => {},
            }
            proof {
                let left = reads_left(reads.skip(k + 1), all.skip(k + 1));
                if all[k] is Waiting {
                    assert(reads.take(k + 1) + left =~= reads.take(k) + (seq![reads[k]] + left));
                } else {
                    assert((reads.take(k + 1) + left).remove(k) =~= reads.take(k) + left);
                    assert(Seq::<AsyncPipeRead>::empty() + left =~= left);
                }
                assert(self.pipes.reads@ =~= reads.take(k) + reads_left(reads.skip(k), all.skip(k)));
                assert(self.pipes.completed_reads@ =~= old(self).pipes.completed_reads@ + reads_done(
                    reads.skip(k),
                    all.skip(k),
                ));
                assert(rest@ =~= all.take(k));
            }
        }
        assert(reads.skip(0) =~= reads && all.skip(0) =~= all);
        assert(self.pipes.reads@ =~= reads_left(reads, all));
    }
}

/// The call that a connection makes to a server reads back what the server's own request to listen
/// carried: its kind is 2, its user stands at 8 and was at 16 of the 40 bytes of the request, its status
/// block at 16 and was at 8.
pub proof fn lemma_listener_reads_back(raw: [u8; 40], fd: i32, event: u32, apc: Seq<u8>)
    requires
        apc == io_call(listen_data(fd, async_of(raw), event)),
    ensures
        apc.len() == 28,
        u32_at(apc, 0) == 2,
        u32_at(apc, 4) == 0,
        u64_at(apc, 8) == u64_at(raw@, 16),
        u64_at(apc, 16) == u64_at(raw@, 8),
        u32_at(apc, 24) == 0,
{
    let la = listen_data(fd, async_of(raw), event);
    assert(apc.subrange(0, 4) =~= u32_bytes(2));
    lemma_read_back_u32(apc, 0, 2);
    assert(apc.subrange(4, 8) =~= u32_bytes(0));
    lemma_read_back_u32(apc, 4, 0);
    assert(apc.subrange(8, 16) =~= u64_bytes(la.user));
    lemma_read_back_u64(apc, 8, la.user);
    assert(apc.subrange(16, 24) =~= u64_bytes(la.sb));
    lemma_read_back_u64(apc, 16, la.sb);
    assert(apc.subrange(24, 28) =~= u32_bytes(0));
    lemma_read_back_u32(apc, 24, 0);
}

/// The 40 bytes of a request that may complete later: its handle at 0, its event at 4, its status block at
/// 8, its user at 16.
pub proof fn lemma_async_places(raw: [u8; 40])
    ensures
        async_of(raw).handle == raw@[0] + 256 * raw@[1] + 65536 * raw@[2] + 16777216 * raw@[3],
        async_of(raw).event == raw@[4] + 256 * raw@[5] + 65536 * raw@[6] + 16777216 * raw@[7],
        async_of(raw).iosb == u64_at(raw@, 8),
        async_of(raw).user == u64_at(raw@, 16),
{
}

/// A listening server learns that a client has connected: the call with its own user and status block is
/// the last that is queued for its thread, the event that it listens through is set only after that, and
/// its request is complete with 0. The instance is connected and listens no more; the others are as they
/// were.
pub proof fn lemma_connection_is_told(
    before: EventLoop,
    after: EventLoop,
    fd: i32,
    name: Seq<char>,
    i: int,
    dup_fd: i32,
    access: u32,
    options: u32,
    handle: u32,
    la: PipeListenAsync,
)
    requires
        pipe_connected(before, after, fd, name, i, dup_fd, access, options, handle),
        before.pipes.named@.contains_key(name),
        0 <= i < before.pipes.named@[name]@.len(),
        before.pipes.named@[name]@[i].listen_async == Some(la),
    ensures
        ({
            let server = la.server_client_fd;
            let calls = list_of(after.sync.kernel_apcs@, server);
            &&& calls.len() == list_of(before.sync.kernel_apcs@, server).len() + 1
            &&& u32_at(calls.last()@, 0) == 2
            &&& u64_at(calls.last()@, 8) == la.user
            &&& u64_at(calls.last()@, 16) == la.sb
            &&& before.pipes.named@[name]@[i].listen_event matches Some(e) ==> list_of(
                after.sync.deferred@,
                server,
            ) == list_of(before.sync.deferred@, server).push(e)
            &&& after.pipes.completed_ioctls@.contains_key(
                (pid_of(before.clients.clients@, server), la.user_arg),
            )
            &&& after.pipes.completed_ioctls@[(pid_of(before.clients.clients@, server), la.user_arg)] == 0
        }),
        after.pipes.named@[name]@.len() == before.pipes.named@[name]@.len(),
        after.pipes.named@[name]@[i].state == PipeState::Connected,
        after.pipes.named@[name]@[i].listen_async is None,
        after.pipes.named@[name]@[i].server_handle == before.pipes.named@[name]@[i].server_handle,
        forall|j: int|
            0 <= j < before.pipes.named@[name]@.len() && j != i ==> #[trigger] after.pipes.named@[name]@[j]
                == before.pipes.named@[name]@[j],
{
    let info = before.pipes.named@[name]@[i];
    let (t1, t2) = choose|s1: EventLoop, s2: EventLoop|
        #![trigger server_told(s1, s2, info.listen_async, info.listen_event)]
        s1 == (EventLoop { pipes: Pipes { named: s1.pipes.named, ..before.pipes }, ..before })
            && instance_changed(
            before.pipes.named@,
            s1.pipes.named@,
            name,
            i,
            NamedPipeInfo { state: PipeState::Connected, listen_async: None, ..info },
        ) && server_told(s1, s2, info.listen_async, info.listen_event) && client_end_given(
            s2,
            after,
            fd,
            dup_fd,
            access,
            options,
            handle,
        );
    let pid = pid_of(t1.clients.clients@, la.server_client_fd);
    let (s1, s2) = choose|s1: EventLoop, s2: EventLoop|
        #![trigger listen_completed(t1, s1, la, info.listen_event), port_told(s1, s2, pid, la.user)]
        listen_completed(t1, s1, la, info.listen_event) && port_told(s1, s2, pid, la.user) && t2 == (
        EventLoop { outbox: t2.outbox, ..s2 }) && t2.outbox@ == server_woken(s2, la.server_client_fd);
    let apc = choose|apc: [u8; 28]|
        #![trigger pushed(t1.sync.kernel_apcs@, s1.sync.kernel_apcs@, la.server_client_fd, apc)]
        apc@ == io_call(la) && pushed(
            t1.sync.kernel_apcs@,
            s1.sync.kernel_apcs@,
            la.server_client_fd,
            apc,
        );
    assert(apc@.subrange(0, 4) =~= u32_bytes(2));
    lemma_read_back_u32(apc@, 0, 2);
    assert(apc@.subrange(8, 16) =~= u64_bytes(la.user));
    lemma_read_back_u64(apc@, 8, la.user);
    assert(apc@.subrange(16, 24) =~= u64_bytes(la.sb));
    lemma_read_back_u64(apc@, 16, la.sb);
    assert(after.sync == s1.sync);
    assert(after.pipes == s1.pipes);
}

/// A client that connects is given a handle to its own end of the pipe, of which it is told.
pub proof fn lemma_client_gets_its_end(
    before: EventLoop,
    after: EventLoop,
    fd: i32,
    dup_fd: i32,
    access: u32,
    options: u32,
    handle: u32,
)
    requires
        client_end_given(before, after, fd, dup_fd, access, options, handle),
        handle != 0,
    ensures
        ({
            let pid = pid_of(before.clients.clients@, fd);
            &&& entry_in(after.objects.processes@, pid, handle) matches Some(e) && e.fd == Some(dup_fd)
                && e.obj_type == 8 && e.options == options | 0x20 && e.object_id == before.objects.next_object_id
            &&& entry_in(before.objects.processes@, pid, handle) is None
            &&& after.side_tables.pipe_handles@[(pid, handle)].data_fd == dup_fd
        }),
{
    let pid = pid_of(before.clients.clients@, fd);
    before.objects.processes@[pid].handles.lemma_slots_used();
}

/// A server that listens waits for a client under what its request said: its own thread, its user and its
/// status block. A request with an event completes through that event; and whoever waited for the pipe is
/// woken and waits no more.
pub proof fn lemma_server_listens(
    before: EventLoop,
    after: EventLoop,
    name: Seq<char>,
    pid: u32,
    handle: u32,
    event: (u32, u32),
    la: PipeListenAsync,
    k: int,
)
    requires
        listening(before, after, name, pid, handle, event, la),
        serves(before.pipes.named@, name, pid, handle),
        0 <= k < list_of(before.pipes.waiters@, name).len(),
        before.sync.objects@.contains_key(list_of(before.pipes.waiters@, name)[k]),
    ensures
        exists|i: int|
            0 <= i < after.pipes.named@[name]@.len() && {
                let x = #[trigger] after.pipes.named@[name]@[i];
                x.server_pid == pid && x.server_handle == handle && x.state == PipeState::Listening
                    && x.listen_event == Some(event) && x.listen_async == Some(la)
            },
        !after.pipes.waiters@.contains_key(name),
        after.outbox@.contains(
            Action::SetEvent {
                object: before.sync.objects@[list_of(before.pipes.waiters@, name)[k]].fd,
            },
        ),
{
    let list = before.pipes.named@[name]@;
    let i = instance_of(list, pid, handle)->Some_0;
    lemma_instance_found(list, pid, handle);
    let mid = choose|mid: EventLoop|
        #![trigger waiters_woken(mid, after, name)]
        rearmed(
            before,
            mid,
            name,
            pid,
            handle,
            list[i].state == PipeState::Connected,
            Some(event),
            Some(la),
        ) && waiters_woken(mid, after, name);
    assert(after.pipes.named@[name]@[i].listen_async == Some(la));
    let w = list_of(mid.pipes.waiters@, name);
    assert(w == list_of(before.pipes.waiters@, name));
    lemma_signal_sent(mid.sync.objects@, mid.outbox@, w, k);
}

proof fn lemma_instance_found(s: Seq<NamedPipeInfo>, pid: u32, handle: u32)
    requires
        instance_of(s, pid, handle) is Some,
    ensures
        ({
            let i = instance_of(s, pid, handle)->Some_0;
            0 <= i < s.len() && s[i].server_pid == pid && s[i].server_handle == handle
        }),
    decreases s.len(),
{
    if instance_of(s.drop_last(), pid, handle) is Some {
        lemma_instance_found(s.drop_last(), pid, handle);
    }
}

/// Setting the objects behind handles sets each of them that there is.
pub proof fn lemma_signal_sent(
    objects: Map<(u32, u32), SyncObject>,
    out: Seq<Action>,
    events: Seq<(u32, u32)>,
    k: int,
)
    requires
        0 <= k < events.len(),
        objects.contains_key(events[k]),
    ensures
        with_signals(objects, out, events).contains(Action::SetEvent { object: objects[events[k]].fd }),
    decreases events.len(),
{
    let a = Action::SetEvent { object: objects[events[k]].fd };
    let all = with_signals(objects, out, events);
    let before = with_signals(objects, out, events.drop_last());
    if k == events.len() - 1 {
        assert(all[all.len() - 1] == a);
    } else {
        lemma_signal_sent(objects, out, events.drop_last(), k);
        let j = choose|j: int| 0 <= j < before.len() && before[j] == a;
        assert(all[j] == a);
    }
}

/// The control calls on pipes, by the numbers under which clients make them. Any other call succeeds and
/// does nothing.
pub proof fn lemma_control_calls(
    before: EventLoop,
    after: EventLoop,
    fd: i32,
    buf: Seq<u8>,
    req: IoctlRequest,
    step: IoctlStep,
)
    requires
        ioctl_done(before, after, fd, buf, req, step),
    ensures
        req.code == 1114120 ==> step is Done && pipe_listened(
            before,
            after,
            fd,
            async_of(req.async_data),
            step->Done_0@,
        ),
        req.code == 1114116 ==> step is Done && pipe_disconnected(
            before,
            after,
            fd,
            async_of(req.async_data),
        ),
        req.code == 1114136 ==> step is Done && pipe_awaited(before, after, fd, buf, step->Done_0@),
        req.code == 1163287 ==> after == before && (step matches IoctlStep::Transceive {
            fd: end,
            options,
            max,
        } ==> entry_in(
            before.objects.processes@,
            pid_of(before.clients.clients@, fd),
            u32_at(req.async_data@, 0),
        ) matches Some(e) && e.fd == Some(end) && e.options == options && max > 0),
        req.code != 1114120 && req.code != 1114116 && req.code != 1114136 && req.code != 1163287
            ==> after == before && step is Done && u32_at(step->Done_0@, 0) == 0,
{
    lemma_ioctl_told(0, 0, 0);
}

/// The answer to a control call: the status at 0, the handle to wait through at 8, the options of the handle
/// at 12.
pub proof fn lemma_ioctl_told(error: u32, wait: u32, options: u32)
    ensures
        u32_at(ioctl_answer(error, wait, options), 0) == error,
        u32_at(ioctl_answer(error, wait, options), 8) == wait,
        u32_at(ioctl_answer(error, wait, options), 12) == options,
        ioctl_answer(error, wait, options).len() == 64,
{
    lemma_fields_told(error, 0, wait, options, Seq::empty());
    assert(ioctl_answer(error, wait, options) + Seq::<u8>::empty() =~= ioctl_answer(error, wait, options));
}

/// Data that a call gives back follows the block, and the header announces as much.
pub proof fn lemma_ioctl_data_told(options: u32, data: Seq<u8>)
    requires
        data.len() <= u32::MAX,
    ensures
        u32_at(ioctl_data(options, data), 0) == 0,
        u32_at(ioctl_data(options, data), 4) == data.len(),
        u32_at(ioctl_data(options, data), 8) == 0,
        u32_at(ioctl_data(options, data), 12) == options,
        ioctl_data(options, data).skip(64) == data,
{
    lemma_fields_told(0, data.len() as u32, 0, options, data);
}

/// Where a pipe listens, who waits for it is told at once that it is there; where none does, the client
/// waits through a handle that is listed under the pipe's name, and the status is 0x103.
pub proof fn lemma_waits_for_listener(
    before: EventLoop,
    after: EventLoop,
    fd: i32,
    n: Seq<char>,
    r: Seq<u8>,
)
    requires
        awaited_under(before, after, fd, n, r),
    ensures
        (exists|i: int|
            0 <= i < list_of(before.pipes.named@, n).len() && (#[trigger] list_of(
                before.pipes.named@,
                n,
            )[i]).state == PipeState::Listening) ==> u32_at(r, 0) == 0 && after == before,
        (forall|i: int|
            0 <= i < list_of(before.pipes.named@, n).len() ==> (#[trigger] list_of(
                before.pipes.named@,
                n,
            )[i]).state == PipeState::Connected) ==> (u32_at(r, 0) == 0x103 && u32_at(r, 8) != 0 && list_of(
            after.pipes.waiters@,
            n,
        ).last() == (pid_of(before.clients.clients@, fd), u32_at(r, 8)) && after.sync.objects@.contains_key(
            (pid_of(before.clients.clients@, fd), u32_at(r, 8)),
        )) || u32_at(r, 0) == 0xC000_0034,
{
    let list = list_of(before.pipes.named@, n);
    lemma_listener_known(list);
    lemma_ioctl_told(0, 0, 0);
    lemma_ioctl_told(STATUS_OBJECT_NAME_NOT_FOUND, 0, 0);
    if instance_in(list, PipeState::Listening) is None {
        let pid = pid_of(before.clients.clients@, fd);
        let (mid, h) = choose|mid: EventLoop, h: u32| #[trigger]
            wait_handle_made(before, mid, pid, h) && if h != 0 {
                &&& r == ioctl_answer(STATUS_PENDING, h, 0)
                &&& after == (EventLoop {
                    pipes: Pipes { waiters: after.pipes.waiters, ..mid.pipes },
                    ..mid
                })
                &&& pushed(mid.pipes.waiters@, after.pipes.waiters@, n, (pid, h))
            } else {
                after == mid && r == ioctl_answer(STATUS_OBJECT_NAME_NOT_FOUND, 0, 0)
            };
        lemma_ioctl_told(STATUS_PENDING, h, 0);
    }
}

proof fn lemma_listener_known(s: Seq<NamedPipeInfo>)
    ensures
        instance_in(s, PipeState::Listening) is Some <==> exists|i: int|
            0 <= i < s.len() && (#[trigger] s[i]).state == PipeState::Listening,
    decreases s.len(),
{
    if s.len() > 0 {
        let d = s.drop_last();
        lemma_listener_known(d);
        if instance_in(d, PipeState::Listening) is Some {
            let i = choose|i: int| 0 <= i < d.len() && (#[trigger] d[i]).state == PipeState::Listening;
            assert(s[i].state == PipeState::Listening);
        } else {
            assert forall|i: int| 0 <= i < s.len() - 1 implies (#[trigger] s[i]).state
                != PipeState::Listening by {
                assert(d[i] == s[i]);
            }
            if s.last().state == PipeState::Listening {
                assert(s[s.len() - 1].state == PipeState::Listening);
            }
        }
    }
}

/// A disconnected instance listens again for whoever comes next, with a fresh pair of ends where there is
/// one, and both old ends are closed.
pub proof fn lemma_disconnected_listens(
    before: EventLoop,
    after: EventLoop,
    name: Seq<char>,
    pid: u32,
    handle: u32,
    la: Option<PipeListenAsync>,
)
    requires
        rearmed(before, after, name, pid, handle, true, None, la),
        serves(before.pipes.named@, name, pid, handle),
        before.pipes.socket_pairs@.len() > 0,
    ensures
        exists|i: int|
            0 <= i < after.pipes.named@[name]@.len() && {
                let x = #[trigger] after.pipes.named@[name]@[i];
                &&& x.server_pid == pid
                &&& x.server_handle == handle
                &&& x.state == PipeState::Listening
                &&& x.client_data_fd == before.pipes.socket_pairs@.last().1
                &&& before.pipes.named@[name]@[i].client_data_fd >= 0 ==> after.outbox@.contains(
                    Action::Close { fd: before.pipes.named@[name]@[i].client_data_fd },
                )
            },
        entry_in(before.objects.processes@, pid, handle) is Some ==> (entry_in(
            after.objects.processes@,
            pid,
            handle,
        ) matches Some(e) && e.fd == Some(before.pipes.socket_pairs@.last().0)),
        after.pipes.socket_pairs@ == before.pipes.socket_pairs@.drop_last(),
{
    let list = before.pipes.named@[name]@;
    let i = instance_of(list, pid, handle)->Some_0;
    lemma_instance_found(list, pid, handle);
    assert(after.pipes.named@[name]@[i].state == PipeState::Listening);
    if list[i].client_data_fd >= 0 {
        let a = Action::Close { fd: list[i].client_data_fd };
        assert(after.outbox@[after.outbox@.len() - 1] == a);
    }
}

/// A new pipe with a name listens under it, with the other end of its handle ready for a client; it is the
/// first of its name exactly where the client is told 1.
pub proof fn lemma_new_pipe_listens(
    before: EventLoop,
    after: EventLoop,
    fd: i32,
    name: Seq<char>,
    handle: u32,
    created: u32,
)
    requires
        pipe_created(before, after, fd, Some(name), handle, created),
        name.len() > 0,
        before.pipes.socket_pairs@.len() > 0,
    ensures
        created == 1 <==> list_of(before.pipes.named@, name).len() == 0,
        created <= 1,
        ({
            let x = list_of(after.pipes.named@, name).last();
            &&& x.server_pid == pid_of(before.clients.clients@, fd)
            &&& x.server_handle == handle
            &&& x.state == PipeState::Listening
            &&& x.client_data_fd == before.pipes.socket_pairs@.last().1
            &&& x.listen_async is None
        }),
        handle != 0 ==> (entry_in(
            after.objects.processes@,
            pid_of(before.clients.clients@, fd),
            handle,
        ) matches Some(e) && e.fd == Some(before.pipes.socket_pairs@.last().0)),
        !after.pipes.waiters@.contains_key(name),
{
    let pid = pid_of(before.clients.clients@, fd);
    let mid = choose|mid: EventLoop| #[trigger]
        server_end_made(before, mid, pid, handle) && client_end_placed(
            mid,
            after,
            Some(name),
            pid,
            handle,
            before.pipes.socket_pairs@.last().1,
            created,
        );
    let s = choose|s: EventLoop|
        #![trigger waiters_woken(s, after, name)]
        s == (EventLoop { pipes: Pipes { named: s.pipes.named, ..mid.pipes }, ..mid }) && pushed(
            mid.pipes.named@,
            s.pipes.named@,
            name,
            new_instance(pid, handle, before.pipes.socket_pairs@.last().1),
        ) && waiters_woken(s, after, name);
    assert(waiters_woken(s, after, name));
}

/// Every pending read is still pending, or its data are kept for its own client, or its pipe failed; and
/// none is both.
pub proof fn lemma_reads_accounted_for(reads: Seq<AsyncPipeRead>, got: Seq<PolledRead>, i: int)
    requires
        reads.len() == got.len(),
        0 <= i < reads.len(),
    ensures
        got[i] is Waiting ==> reads_left(reads, got).contains(reads[i]),
        got[i] matches PolledRead::Data(d) ==> reads_done(reads, got).contains(
            CompletedPipeRead { client_fd: reads[i].client_fd, data: d, pid: reads[i].pid },
        ),
        reads_left(reads, got).len() + reads_done(reads, got).len() <= reads.len(),
    decreases reads.len(),
{
    let (r, g) = (reads.skip(1), got.skip(1));
    let left = reads_left(r, g);
    let done = reads_done(r, g);
    let all_left = reads_left(reads, got);
    let all_done = reads_done(reads, got);
    if r.len() > 0 {
        lemma_reads_accounted_for(r, g, if i > 0 {
            i - 1
        } else {
            0
        });
    }
    if i == 0 {
        if got[0] is Waiting {
            assert(all_left[0] == reads[0]);
        }
        if got[0] is Data {
            assert(all_done[done.len() as int] == all_done.last());
        }
    } else {
        assert(r[i - 1] == reads[i] && g[i - 1] == got[i]);
        if got[i] is Waiting {
            let k = choose|k: int| 0 <= k < left.len() && left[k] == reads[i];
            assert(all_left[k + (all_left.len() - left.len())] == reads[i]);
        }
        if got[i] is Data {
            let x = CompletedPipeRead {
                client_fd: reads[i].client_fd,
                data: got[i]->Data_0,
                pid: reads[i].pid,
            };
            let k = choose|k: int| 0 <= k < done.len() && done[k] == x;
            assert(all_done[k] == x);
        }
    }
}

} // verus!
