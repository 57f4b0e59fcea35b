//! The thread that owns the descriptors: which one is ready for what, how requests are put together, and
//! what is done before a reply is written.
use crate::bytes::{i32_from_bits, i32_of_bits, lemma_read_back_u32, push_all, read_u32, u32_at, u32_bytes};
use crate::framing::{frame_len, header_of, next_request, whole_frame, RequestHeader};
use crate::lists::{keep_in, keeping, kept, lemma_kept, Keeps};
use crate::table::{enumerates, list_of, push_under, pushed, Table};
use vstd::prelude::*;

verus! {

/// A connection as this thread sees it.
pub struct IoClient {
    pub msg_fd: i32,
    /// What has arrived and is no whole request yet.
    pub recv_buf: Vec<u8>,
}

/// What this thread knows.
pub struct IoState {
    /// Connections by the descriptor of their requests.
    pub clients: Table<i32, IoClient>,
    /// The connections that share a socket for descriptors.
    pub msg_clients: Table<i32, Vec<i32>>,
    /// Descriptors that have arrived on such a socket: the sender, the number there, and the one here.
    pub pending: Table<i32, Vec<(u32, i32, i32)>>,
    /// Where the replies of a connection go.
    pub reply_fds: Table<i32, i32>,
    /// The event that is set when a pipe has data.
    pub pipe_watchers: Table<i32, i32>,
    /// The queue, by its place in memory, and the event for which a display's descriptor is watched.
    pub queue_watchers: Table<i32, (u64, i32)>,
}

/// The descriptors that are watched for themselves.
#[derive(Clone, Copy, Debug, PartialEq, Eq)]
pub struct FixedFds {
    pub listener: i32,
    pub signal: i32,
    pub shutdown: i32,
    pub wake: i32,
    /// Closed at the other end when the launcher ends; negative where there is none.
    pub death: i32,
}

/// What a descriptor is ready for.
#[derive(Clone, Copy, Debug, PartialEq, Eq)]
pub enum Ready {
    Accept,
    /// A signal asks for the end.
    Signal,
    /// The other thread asks for the end.
    Shutdown,
    /// The other thread has replies.
    Wake,
    /// The launcher has ended.
    Death,
    /// Descriptors have arrived.
    Descriptors,
    /// A part of a request has arrived.
    Request,
    /// A display has events: set the driver's bit in the queue, and the event.
    Display { shm: u64, event_fd: i32 },
    /// A pipe has data: set the event.
    Pipe { event_fd: i32 },
    Unknown,
}

/// Work that a request of the other thread asks of this one.
#[derive(Clone, Copy, Debug, PartialEq, Eq)]
pub enum Effect {
    RegisterClient { request_fd: i32, msg_fd: i32, is_msg_primary: bool },
    SendFd { target_fd: i32, fd_to_send: i32, version: u32 },
    WatchPipeFd { pipe_fd: i32, event_fd: i32 },
    WatchQueueFd { queue_fd: i32, shm: u64, event_fd: i32 },
    RearmQueueFd { queue_fd: i32 },
}

/// A call into the system.
#[derive(Clone, Copy, Debug, PartialEq, Eq)]
pub enum IoAct {
    NonBlocking { fd: i32 },
    Watch { fd: i32 },
    /// Watch until it is ready once.
    WatchOnce { fd: i32 },
    /// Watch again until it is ready once.
    RewatchOnce { fd: i32 },
    Unwatch { fd: i32 },
    Close { fd: i32 },
    /// Send a descriptor over a socket.
    SendFd { target_fd: i32, fd: i32, version: u32 },
    /// Take the driver's bit out of a queue.
    ClearDriverBit { shm: u64 },
    /// Write the reply.
    Write { fd: i32 },
}

impl IoState {
    pub open spec fn wf(&self) -> bool {
        &&& self.clients.wf()
        &&& self.msg_clients.wf()
        &&& self.pending.wf()
        &&& self.reply_fds.wf()
        &&& self.pipe_watchers.wf()
        &&& self.queue_watchers.wf()
    }
}

/// What a descriptor is ready for.
pub open spec fn ready_for(s: IoState, f: FixedFds, fd: i32) -> Ready {
    if fd == f.listener {
        Ready::Accept
    } else if fd == f.signal {
        Ready::Signal
    } else if fd == f.shutdown {
        Ready::Shutdown
    } else if fd == f.wake {
        Ready::Wake
    } else if f.death >= 0 && fd == f.death {
        Ready::Death
    } else if s.msg_clients@.contains_key(fd) {
        Ready::Descriptors
    } else if s.clients@.contains_key(fd) {
        Ready::Request
    } else if s.queue_watchers@.contains_key(fd) {
        Ready::Display { shm: s.queue_watchers@[fd].0, event_fd: s.queue_watchers@[fd].1 }
    } else if s.pipe_watchers@.contains_key(fd) {
        Ready::Pipe { event_fd: s.pipe_watchers@[fd] }
    } else {
        Ready::Unknown
    }
}

/// A connection became known.
pub open spec fn joined_io(before: IoState, after: IoState, request_fd: i32, msg_fd: i32) -> bool {
    &&& after == (IoState {
        clients: after.clients,
        msg_clients: after.msg_clients,
        ..before
    })
    &&& after.clients@.contains_key(request_fd)
    &&& after.clients@ == before.clients@.insert(request_fd, after.clients@[request_fd])
    &&& after.clients@[request_fd].msg_fd == msg_fd
    &&& after.clients@[request_fd].recv_buf@.len() == 0
    &&& pushed(before.msg_clients@, after.msg_clients@, msg_fd, request_fd)
}

/// What an effect asks of the system.
pub open spec fn effect_acts(s: IoState, e: Effect) -> Seq<IoAct> {
    match e {
        Effect::RegisterClient { request_fd, msg_fd, is_msg_primary } => if s.clients@.contains_key(
            request_fd,
        ) {
            Seq::empty()
        } else {
            seq![IoAct::NonBlocking { fd: request_fd }, IoAct::Watch { fd: request_fd }] + (
            if is_msg_primary && !s.msg_clients@.contains_key(msg_fd) {
                seq![IoAct::NonBlocking { fd: msg_fd }, IoAct::Watch { fd: msg_fd }]
            } else {
                Seq::empty()
            })
        },
        Effect::SendFd { target_fd, fd_to_send, version } => seq![
            IoAct::SendFd { target_fd, fd: fd_to_send, version },
            IoAct::Close { fd: fd_to_send },
        ],
        Effect::WatchPipeFd { pipe_fd, event_fd } => if !s.pipe_watchers@.contains_key(pipe_fd) {
            seq![IoAct::Watch { fd: pipe_fd }]
        } else if s.pipe_watchers@[pipe_fd] != event_fd {
            seq![IoAct::Close { fd: s.pipe_watchers@[pipe_fd] }]
        } else {
            Seq::empty()
        },
        Effect::WatchQueueFd { queue_fd, shm: _, event_fd: _ } => if s.queue_watchers@.contains_key(
            queue_fd,
        ) {
            Seq::empty()
        } else {
            seq![IoAct::WatchOnce { fd: queue_fd }]
        },
        Effect::RearmQueueFd { queue_fd } => if s.queue_watchers@.contains_key(queue_fd) {
            seq![
                IoAct::ClearDriverBit { shm: s.queue_watchers@[queue_fd].0 },
                IoAct::RewatchOnce { fd: queue_fd },
            ]
        } else {
            Seq::empty()
        },
    }
}

/// What an effect changes here.
pub open spec fn effect_done(before: IoState, after: IoState, e: Effect) -> bool {
    match e {
        Effect::RegisterClient { request_fd, msg_fd, is_msg_primary: _ } => if before.clients@.contains_key(
            request_fd,
        ) {
            after == before
        } else {
            joined_io(before, after, request_fd, msg_fd)
        },
        Effect::WatchPipeFd { pipe_fd, event_fd } => {
            &&& after == (IoState { pipe_watchers: after.pipe_watchers, ..before })
            &&& after.pipe_watchers@ == before.pipe_watchers@.insert(pipe_fd, event_fd)
        },
        Effect::WatchQueueFd { queue_fd, shm, event_fd } => if before.queue_watchers@.contains_key(
            queue_fd,
        ) {
            after == before
        } else {
            &&& after == (IoState { queue_watchers: after.queue_watchers, ..before })
            &&& after.queue_watchers@ == before.queue_watchers@.insert(queue_fd, (shm, event_fd))
        },
        _ => after == before,
    }
}

/// What effects ask of the system, one after the other.
pub open spec fn all_acts(parts: Seq<Seq<IoAct>>) -> Seq<IoAct>
    decreases parts.len(),
{
    if parts.len() == 0 {
        Seq::empty()
    } else {
        all_acts(parts.drop_last()) + parts.last()
    }
}

/// The states between effects, and what each of them asks of the system.
pub open spec fn effect_steps(
    states: Seq<IoState>,
    parts: Seq<Seq<IoAct>>,
    effects: Seq<Effect>,
) -> bool {
    &&& states.len() == effects.len() + 1
    &&& parts.len() == effects.len()
    &&& forall|i: int|
        #![trigger effects[i]]
        0 <= i < effects.len() ==> effect_done(states[i], states[i + 1], effects[i]) && parts[i]
            == effect_acts(states[i], effects[i])
}

/// Effects one after the other, and what they ask of the system.
pub open spec fn effects_done(
    before: IoState,
    after: IoState,
    effects: Seq<Effect>,
    acts: Seq<IoAct>,
) -> bool {
    exists|states: Seq<IoState>, parts: Seq<Seq<IoAct>>| #[trigger]
        effect_steps(states, parts, effects) && states[0] == before && states.last() == after
            && acts == all_acts(parts)
}

/// Where the reply of a connection goes: to the descriptor that it has for that, or back on its own.
pub open spec fn reply_target(reply_fds: Map<i32, i32>, fd: i32) -> i32 {
    if reply_fds.contains_key(fd) {
        reply_fds[fd]
    } else {
        fd
    }
}

/// A reply with its effects: first the effects, then the reply.
pub open spec fn reply_done(
    before: IoState,
    after: IoState,
    fd: i32,
    effects: Seq<Effect>,
    reply_fd: Option<i32>,
    empty: bool,
    acts: Seq<IoAct>,
) -> bool {
    exists|mid: IoState, first: Seq<IoAct>| #[trigger]
        effects_done(before, mid, effects, first) && {
            &&& after == (IoState { reply_fds: after.reply_fds, ..mid })
            &&& after.reply_fds@ == (match reply_fd {
                Some(r) => mid.reply_fds@.insert(fd, r),
                None => mid.reply_fds@,
            })
            &&& acts == first + (if empty {
                Seq::empty()
            } else {
                seq![IoAct::Write { fd: reply_target(after.reply_fds@, fd) }]
            })
        }
}

proof fn lemma_parts_write_nothing(parts: Seq<Seq<IoAct>>)
    requires
        forall|i: int, j: int|
            0 <= i < parts.len() && 0 <= j < parts[i].len() ==> !(#[trigger] parts[i][j] is Write),
    ensures
        forall|i: int| 0 <= i < all_acts(parts).len() ==> !(#[trigger] all_acts(parts)[i] is Write),
    decreases parts.len(),
{
    if parts.len() > 0 {
        let p = parts.drop_last();
        assert forall|i: int, j: int| 0 <= i < p.len() && 0 <= j < p[i].len() implies !(
        #[trigger] p[i][j] is Write) by {
            assert(p[i] == parts[i]);
            assert(!(parts[i][j] is Write));
        }
        lemma_parts_write_nothing(p);
        let first = all_acts(p);
        let all = all_acts(parts);
        assert forall|i: int| 0 <= i < all.len() implies !(#[trigger] all[i] is Write) by {
            if i < first.len() {
                assert(all[i] == first[i]);
            } else {
                assert(all[i] == parts[parts.len() - 1][i - first.len()]);
            }
        }
    }
}

proof fn lemma_effects_write_nothing(
    before: IoState,
    after: IoState,
    effects: Seq<Effect>,
    acts: Seq<IoAct>,
)
    requires
        effects_done(before, after, effects, acts),
    ensures
        forall|i: int| 0 <= i < acts.len() ==> !(#[trigger] acts[i] is Write),
{
    let (states, parts) = choose|states: Seq<IoState>, parts: Seq<Seq<IoAct>>| #[trigger]
        effect_steps(states, parts, effects) && states[0] == before && states.last() == after
            && acts == all_acts(parts);
    assert forall|i: int, j: int| 0 <= i < parts.len() && 0 <= j < parts[i].len() implies !(
    #[trigger] parts[i][j] is Write) by {
        let e = effects[i];
        assert(parts[i] == effect_acts(states[i], e));
    }
    lemma_parts_write_nothing(parts);
}

/// All effects of a request are done before its reply is written: descriptors that a reply speaks of have
/// been sent by then.
pub proof fn lemma_effects_before_reply(
    before: IoState,
    after: IoState,
    fd: i32,
    effects: Seq<Effect>,
    reply_fd: Option<i32>,
    empty: bool,
    acts: Seq<IoAct>,
)
    requires
        reply_done(before, after, fd, effects, reply_fd, empty, acts),
    ensures
        forall|i: int| 0 <= i < acts.len() && acts[i] is Write ==> i == acts.len() - 1,
        !empty ==> acts.len() > 0 && acts.last() is Write,
{
    let (mid, first) = choose|mid: IoState, first: Seq<IoAct>| #[trigger]
        effects_done(before, mid, effects, first) && {
            &&& after == (IoState { reply_fds: after.reply_fds, ..mid })
            &&& after.reply_fds@ == (match reply_fd {
                Some(r) => mid.reply_fds@.insert(fd, r),
                None => mid.reply_fds@,
            })
            &&& acts == first + (if empty {
                Seq::empty()
            } else {
                seq![IoAct::Write { fd: reply_target(after.reply_fds@, fd) }]
            })
        };
    lemma_effects_write_nothing(before, mid, effects, first);
    assert forall|i: int| 0 <= i < acts.len() && acts[i] is Write implies i == acts.len() - 1 by {
        if i < first.len() {
            assert(acts[i] == first[i]);
        }
    }
}

/// All connections but one.
pub struct NotFd {
    pub fd: i32,
}

impl Keeps<i32> for NotFd {
    open spec fn keeps(&self, v: i32) -> bool {
        v != self.fd
    }

    fn keep(&self, v: &i32) -> (r: bool) {
        *v != self.fd
    }
}

/// All connections but one, as a predicate.
pub open spec fn not_fd(fd: i32) -> spec_fn(i32) -> bool {
    |v: i32| v != fd
}

/// A connection is gone; with the last one of a process goes the socket that they shared.
pub open spec fn left_io(before: IoState, after: IoState, fd: i32, acts: Seq<IoAct>) -> bool {
    let known = before.clients@.contains_key(fd);
    let msg_fd = before.clients@[fd].msg_fd;
    let others = kept(list_of(before.msg_clients@, msg_fd), not_fd(fd));
    &&& after == (IoState {
        clients: after.clients,
        msg_clients: after.msg_clients,
        pending: after.pending,
        reply_fds: after.reply_fds,
        ..before
    })
    &&& after.clients@ == before.clients@.remove(fd)
    &&& after.reply_fds@ == before.reply_fds@.remove(fd)
    &&& if known && before.msg_clients@.contains_key(msg_fd) && others.len() == 0 {
        &&& after.msg_clients@ == before.msg_clients@.remove(msg_fd)
        &&& after.pending@ == before.pending@.remove(msg_fd)
        &&& acts == seq![
            IoAct::Unwatch { fd },
            IoAct::Unwatch { fd: msg_fd },
            IoAct::Close { fd: msg_fd },
            IoAct::Close { fd },
        ]
    } else {
        &&& after.pending@ == before.pending@
        &&& acts == seq![IoAct::Unwatch { fd }, IoAct::Close { fd }]
        &&& if known && before.msg_clients@.contains_key(msg_fd) {
            &&& after.msg_clients@ == before.msg_clients@.insert(msg_fd, after.msg_clients@[msg_fd])
            &&& after.msg_clients@[msg_fd]@ == others
        } else {
            after.msg_clients@ == before.msg_clients@
        }
    }
}

/// The sender's thread and number of descriptors that come with some bytes; without them the descriptor
/// stands for itself.
pub open spec fn sent_as(data: Seq<u8>, fd: i32) -> (u32, i32, i32) {
    if data.len() >= 8 {
        (u32_at(data, 0), i32_of_bits(u32_at(data, 4)), fd)
    } else {
        (0, fd, fd)
    }
}

/// The descriptors that a walk over connections meets.
pub open spec fn keys_of<V>(s: Seq<(i32, V)>) -> Seq<i32> {
    s.map_values(|e: (i32, V)| e.0)
}

/// The descriptors that a walk over watched displays meets.
pub open spec fn queue_fds(s: Seq<(i32, (u64, i32))>) -> Seq<i32>
    decreases s.len(),
{
    if s.len() == 0 {
        Seq::empty()
    } else {
        let before = queue_fds(s.drop_last()).push(s.last().0);
        if s.last().1.1 >= 0 {
            before.push(s.last().1.1)
        } else {
            before
        }
    }
}

fn push_keys<V>(out: &mut Vec<i32>, t: &Table<i32, V>)
    requires
        t.wf(),
    ensures
        final(out)@ == old(out)@ + keys_of(t.walk()),
{
    let ghost w = t.walk();
    let mut i: usize = 0;
    assert(out@ =~= old(out)@ + keys_of(w.take(0)));
    while i < t.len()
        invariant
            i <= w.len(),
            w == t.walk(),
            t.wf(),
            out@ == old(out)@ + keys_of(w.take(i as int)),
        decreases w.len() - i,
    {
        let (k, _) = t.at(i);
        out.push(*k);
        i = i + 1;
        assert(keys_of(w.take(i as int)) =~= keys_of(w.take(i - 1)).push(w[i - 1].0));
        assert(out@ =~= old(out)@ + keys_of(w.take(i as int)));
    }
    assert(w.take(w.len() as int) =~= w);
}

impl IoState {
    pub fn new() -> (r: IoState)
        ensures
            r.wf(),
            r.clients@ == Map::<i32, IoClient>::empty(),
            r.msg_clients@ == Map::<i32, Vec<i32>>::empty(),
            r.pending@ == Map::<i32, Vec<(u32, i32, i32)>>::empty(),
            r.reply_fds@ == Map::<i32, i32>::empty(),
            r.pipe_watchers@ == Map::<i32, i32>::empty(),
            r.queue_watchers@ == Map::<i32, (u64, i32)>::empty(),
    {
        IoState {
            clients: Table::new(),
            msg_clients: Table::new(),
            pending: Table::new(),
            reply_fds: Table::new(),
            pipe_watchers: Table::new(),
            queue_watchers: Table::new(),
        }
    }

    /// What a descriptor is ready for.
    pub fn ready(&self, f: FixedFds, fd: i32) -> (r: Ready)
        requires
            self.wf(),
        ensures
            r == ready_for(*self, f, fd),
    {
        if fd == f.listener {
            return Ready::Accept;
        }
        if fd == f.signal {
            return Ready::Signal;
        }
        if fd == f.shutdown {
            return Ready::Shutdown;
        }
        if fd == f.wake {
            return Ready::Wake;
        }
        if f.death >= 0 && fd == f.death {
            return Ready::Death;
        }
        if self.msg_clients.contains_key(fd) {
            return Ready::Descriptors;
        }
        if self.clients.contains_key(fd) {
            return Ready::Request;
        }
        match self.queue_watchers.get(fd) {
            Some(q) => {
                return Ready::Display { shm: q.0, event_fd: q.1 };
            },
            None => {},
        }
        match self.pipe_watchers.get(fd) {
            Some(e) => Ready::Pipe { event_fd: *e },
            None => Ready::Unknown,
        }
    }

    /// A connection was accepted.
    pub fn accepted(&mut self, request_fd: i32, msg_fd: i32)
        requires
            old(self).wf(),
        ensures
            final(self).wf(),
            joined_io(*old(self), *final(self), request_fd, msg_fd),
    {
        self.clients.insert(request_fd, IoClient { msg_fd, recv_buf: Vec::new() });
        push_under(&mut self.msg_clients, msg_fd, request_fd);
    }

    /// A descriptor has arrived on a socket, with the bytes `data`.
    pub fn fd_arrived(&mut self, msg_fd: i32, data: &[u8], fd: i32)
        requires
            old(self).wf(),
        ensures
            final(self).wf(),
            *final(self) == (IoState { pending: final(self).pending, ..*old(self) }),
            pushed(old(self).pending@, final(self).pending@, msg_fd, sent_as(data@, fd)),
    {
        let sent: (u32, i32, i32) = if data.len() >= 8 {
            (read_u32(data, 0), i32_from_bits(read_u32(data, 4)), fd)
        } else {
            (0, fd, fd)
        };
        push_under(&mut self.pending, msg_fd, sent);
    }

    /// Bytes have arrived on a connection.
    pub fn received(&mut self, fd: i32, data: &[u8])
        requires
            old(self).wf(),
        ensures
            final(self).wf(),
            *final(self) == (IoState { clients: final(self).clients, ..*old(self) }),
            if old(self).clients@.contains_key(fd) {
                &&& final(self).clients@ == old(self).clients@.insert(
                    fd,
                    final(self).clients@[fd],
                )
                &&& final(self).clients@[fd].msg_fd == old(self).clients@[fd].msg_fd
                &&& final(self).clients@[fd].recv_buf@ == old(self).clients@[fd].recv_buf@ + data@
            } else {
                final(self).clients@ == old(self).clients@
            },
    {
        match self.clients.get_mut(fd) {
            Some(c) => {
                push_all(&mut c.recv_buf, data);
            },
            None => {},
        }
    }

    /// The next request of a connection that has arrived in full, and the socket on which descriptors for
    /// it arrive.
    pub fn next(&mut self, fd: i32) -> (r: Option<(RequestHeader, Vec<u8>, i32)>)
        requires
            old(self).wf(),
        ensures
            final(self).wf(),
            *final(self) == (IoState { clients: final(self).clients, ..*old(self) }),
            if old(self).clients@.contains_key(fd) && whole_frame(
                old(self).clients@[fd].recv_buf@,
            ) {
                let b = old(self).clients@[fd].recv_buf@;
                &&& r matches Some((h, req, msg_fd)) && h == header_of(b) && req@ == b.take(
                    frame_len(b),
                ) && msg_fd == old(self).clients@[fd].msg_fd
                &&& final(self).clients@ == old(self).clients@.insert(
                    fd,
                    final(self).clients@[fd],
                )
                &&& final(self).clients@[fd].msg_fd == old(self).clients@[fd].msg_fd
                &&& final(self).clients@[fd].recv_buf@ == b.skip(frame_len(b))
            } else {
                &&& r is None
                &&& final(self).clients@.dom() == old(self).clients@.dom()
                &&& forall|k: i32| #[trigger]
                    old(self).clients@.contains_key(k) ==> final(self).clients@[k].msg_fd
                        == old(self).clients@[k].msg_fd && final(self).clients@[k].recv_buf@
                        == old(self).clients@[k].recv_buf@
            },
    {
        match self.clients.get_mut(fd) {
            Some(c) => {
                let msg_fd: i32 = c.msg_fd;
                match next_request(&mut c.recv_buf) {
                    Some((h, req)) => Some((h, req, msg_fd)),
                    None => None,
                }
            },
            None => None,
        }
    }

    /// The descriptors that have arrived on a socket: the next request takes all of them along.
    pub fn take_pending(&mut self, msg_fd: i32) -> (r: Vec<(u32, i32, i32)>)
        requires
            old(self).wf(),
        ensures
            final(self).wf(),
            *final(self) == (IoState { pending: final(self).pending, ..*old(self) }),
            r@ == list_of(old(self).pending@, msg_fd),
            list_of(final(self).pending@, msg_fd).len() == 0,
            final(self).pending@ == old(self).pending@.remove(msg_fd),
    {
        match self.pending.remove(msg_fd) {
            Some(list) => list,
            None => {
                assert(self.pending@ =~= old(self).pending@);
                Vec::new()
            },
        }
    }

    /// A connection is gone.
    pub fn left(&mut self, fd: i32) -> (acts: Vec<IoAct>)
        requires
            old(self).wf(),
        ensures
            final(self).wf(),
            left_io(*old(self), *final(self), fd, acts@),
    {
        let mut acts: Vec<IoAct> = Vec::new();
        acts.push(IoAct::Unwatch { fd });
        let ghost p = not_fd(fd);
        match self.clients.remove(fd) {
            Some(c) => {
                let msg_fd: i32 = c.msg_fd;
                let mut last: bool = false;
                match self.msg_clients.get_mut(msg_fd) {
                    Some(list) => {
                        let choice = NotFd { fd };
                        assert(keeping::<i32, NotFd>(choice) =~= p);
                        keep_in(list, &choice);
                        last = list.len() == 0;
                    },
                    None => {},
                }
                if last {
                    let _ = self.msg_clients.remove(msg_fd);
                    let _ = self.pending.remove(msg_fd);
                    acts.push(IoAct::Unwatch { fd: msg_fd });
                    acts.push(IoAct::Close { fd: msg_fd });
                    assert(self.msg_clients@ =~= old(self).msg_clients@.remove(msg_fd));
                }
            },
            None => {
                assert(self.clients@ =~= old(self).clients@.remove(fd));
            },
        }
        let _ = self.reply_fds.remove(fd);
        acts.push(IoAct::Close { fd });
        proof {
            assert(self.reply_fds@ =~= old(self).reply_fds@.remove(fd));
            let m = old(self).clients@[fd].msg_fd;
            if old(self).clients@.contains_key(fd) && old(self).msg_clients@.contains_key(m) && kept(
                list_of(old(self).msg_clients@, m),
                p,
            ).len() == 0 {
                assert(acts@ =~= seq![
                    IoAct::Unwatch { fd },
                    IoAct::Unwatch { fd: m },
                    IoAct::Close { fd: m },
                    IoAct::Close { fd },
                ]);
            } else {
                assert(acts@ =~= seq![IoAct::Unwatch { fd }, IoAct::Close { fd }]);
            }
        }
        acts
    }

    fn apply(&mut self, e: Effect, acts: &mut Vec<IoAct>)
        requires
            old(self).wf(),
        ensures
            final(self).wf(),
            effect_done(*old(self), *final(self), e),
            final(acts)@ == old(acts)@ + effect_acts(*old(self), e),
    {
        match e {
            Effect::RegisterClient { request_fd, msg_fd, is_msg_primary } => {
                if !self.clients.contains_key(request_fd) {
                    acts.push(IoAct::NonBlocking { fd: request_fd });
                    acts.push(IoAct::Watch { fd: request_fd });
                    if is_msg_primary && !self.msg_clients.contains_key(msg_fd) {
                        acts.push(IoAct::NonBlocking { fd: msg_fd });
                        acts.push(IoAct::Watch { fd: msg_fd });
                    }
                    self.accepted(request_fd, msg_fd);
                }
            },
            Effect::SendFd { target_fd, fd_to_send, version } => {
                acts.push(IoAct::SendFd { target_fd, fd: fd_to_send, version });
                acts.push(IoAct::Close { fd: fd_to_send });
            },
            Effect::WatchPipeFd { pipe_fd, event_fd } => {
                match self.pipe_watchers.get(pipe_fd) {
                    Some(known) => {
                        if *known != event_fd {
                            acts.push(IoAct::Close { fd: *known });
                        }
                    },
                    None => {
                        acts.push(IoAct::Watch { fd: pipe_fd });
                    },
                }
                self.pipe_watchers.insert(pipe_fd, event_fd);
            },
            Effect::WatchQueueFd { queue_fd, shm, event_fd } => {
                if !self.queue_watchers.contains_key(queue_fd) {
                    acts.push(IoAct::WatchOnce { fd: queue_fd });
                    self.queue_watchers.insert(queue_fd, (shm, event_fd));
                }
            },
            Effect::RearmQueueFd { queue_fd } => {
                match self.queue_watchers.get(queue_fd) {
                    Some(q) => {
                        acts.push(IoAct::ClearDriverBit { shm: q.0 });
                        acts.push(IoAct::RewatchOnce { fd: queue_fd });
                    },
                    None => {},
                }
            },
        }
        assert(acts@ =~= old(acts)@ + effect_acts(*old(self), e));
    }

    /// What is to be done for a reply: its effects, and then the reply itself, unless it is empty.
    pub fn execute_reply(
        &mut self,
        fd: i32,
        effects: &Vec<Effect>,
        reply_fd: Option<i32>,
        empty: bool,
    ) -> (acts: Vec<IoAct>)
        requires
            old(self).wf(),
        ensures
            final(self).wf(),
            reply_done(*old(self), *final(self), fd, effects@, reply_fd, empty, acts@),
    {
        let mut acts: Vec<IoAct> = Vec::new();
        let mut i: usize = 0;
        let ghost mut states: Seq<IoState> = seq![*self];
        let ghost mut parts: Seq<Seq<IoAct>> = Seq::empty();
        assert(acts@ =~= all_acts(parts));
        while i < effects.len()
            invariant
                self.wf(),
                i <= effects@.len(),
                effect_steps(states, parts, effects@.take(i as int)),
                states[0] == *old(self),
                states.last() == *self,
                acts@ == all_acts(parts),
            decreases effects@.len() - i,
        {
            let ghost mid = *self;
            self.apply(effects[i], &mut acts);
            proof {
                let more = effect_acts(mid, effects@[i as int]);
                let (s0, p0) = (states, parts);
                states = s0.push(*self);
                parts = p0.push(more);
                assert(parts.drop_last() =~= p0);
                assert forall|j: int|
                    #![trigger effects@.take(i + 1)[j]]
                    0 <= j < i + 1 implies effect_done(
                    states[j],
                    states[j + 1],
                    effects@.take(i + 1)[j],
                ) && parts[j] == effect_acts(states[j], effects@.take(i + 1)[j]) by {
                    if j < i {
                        assert(effects@.take(i as int)[j] == effects@.take(i + 1)[j]);
                    }
                }
            }
            i = i + 1;
        }
        assert(effects@.take(effects@.len() as int) =~= effects@);
        let ghost (mid, first) = (*self, acts@);
        assert(effects_done(*old(self), mid, effects@, first));
        match reply_fd {
            Some(r) => {
                self.reply_fds.insert(fd, r);
            },
            None => {},
        }
        if !empty {
            let target: i32 = match self.reply_fds.get(fd) {
                Some(t) => *t,
                None => fd,
            };
            acts.push(IoAct::Write { fd: target });
            assert(acts@ =~= first + seq![
                IoAct::Write { fd: reply_target(self.reply_fds@, fd) },
            ]);
        } else {
            assert(acts@ =~= first + Seq::<IoAct>::empty());
        }
        acts
    }

    /// All descriptors that are closed at the end.
    pub fn all_fds(&self) -> (r: Vec<i32>)
        requires
            self.wf(),
        ensures
            exists|
                a: Seq<(i32, IoClient)>,
                b: Seq<(i32, Vec<i32>)>,
                c: Seq<(i32, i32)>,
                d: Seq<(i32, (u64, i32))>,
            |
                #![trigger enumerates(a, self.clients@), enumerates(b, self.msg_clients@), enumerates(c, self.pipe_watchers@), enumerates(d, self.queue_watchers@)]
                enumerates(a, self.clients@) && enumerates(b, self.msg_clients@) && enumerates(
                    c,
                    self.pipe_watchers@,
                ) && enumerates(d, self.queue_watchers@) && r@ == keys_of(a) + keys_of(b) + keys_of(
                    c,
                ) + queue_fds(d),
    {
        let mut out: Vec<i32> = Vec::new();
        push_keys(&mut out, &self.clients);
        push_keys(&mut out, &self.msg_clients);
        push_keys(&mut out, &self.pipe_watchers);
        let ghost before = out@;
        let ghost w = self.queue_watchers.walk();
        let mut i: usize = 0;
        assert(out@ =~= before + queue_fds(w.take(0)));
        while i < self.queue_watchers.len()
            invariant
                self.wf(),
                i <= w.len(),
                w == self.queue_watchers.walk(),
                out@ == before + queue_fds(w.take(i as int)),
            decreases w.len() - i,
        {
            assert(w.take(i + 1).drop_last() =~= w.take(i as int));
            let (k, q) = self.queue_watchers.at(i);
            out.push(*k);
            if q.1 >= 0 {
                out.push(q.1);
            }
            i = i + 1;
            assert(out@ =~= before + queue_fds(w.take(i as int)));
        }
        proof {
            assert(w.take(w.len() as int) =~= w);
            self.clients.lemma_walk();
            self.msg_clients.lemma_walk();
            self.pipe_watchers.lemma_walk();
            self.queue_watchers.lemma_walk();
            assert(Seq::<i32>::empty() + keys_of(self.clients.walk()) =~= keys_of(
                self.clients.walk(),
            ));
        }
        out
    }
}

/// The descriptors that are watched for themselves are told apart before all others, and each other one by
/// the table that holds it: a socket for descriptors before a connection, a display before a pipe.
pub proof fn lemma_what_is_ready(s: IoState, f: FixedFds, fd: i32)
    requires
        f.listener != f.signal && f.listener != f.shutdown && f.listener != f.wake && f.listener != f.death,
        f.signal != f.shutdown && f.signal != f.wake && f.signal != f.death,
        f.shutdown != f.wake && f.shutdown != f.death && f.wake != f.death,
    ensures
        ready_for(s, f, f.listener) == Ready::Accept,
        ready_for(s, f, f.signal) == Ready::Signal,
        ready_for(s, f, f.shutdown) == Ready::Shutdown,
        ready_for(s, f, f.wake) == Ready::Wake,
        f.death >= 0 ==> ready_for(s, f, f.death) == Ready::Death,
        fd != f.listener && fd != f.signal && fd != f.shutdown && fd != f.wake && fd != f.death ==> {
            &&& s.msg_clients@.contains_key(fd) ==> ready_for(s, f, fd) == Ready::Descriptors
            &&& !s.msg_clients@.contains_key(fd) && s.clients@.contains_key(fd) ==> ready_for(s, f, fd)
                == Ready::Request
            &&& !s.msg_clients@.contains_key(fd) && !s.clients@.contains_key(fd) && s.queue_watchers@.contains_key(
                fd,
            ) ==> ready_for(s, f, fd) == (Ready::Display {
                shm: s.queue_watchers@[fd].0,
                event_fd: s.queue_watchers@[fd].1,
            })
            &&& !s.msg_clients@.contains_key(fd) && !s.clients@.contains_key(fd)
                && !s.queue_watchers@.contains_key(fd) && s.pipe_watchers@.contains_key(fd) ==> ready_for(s, f, fd)
                == (Ready::Pipe { event_fd: s.pipe_watchers@[fd] })
        },
{
}

/// A connection that becomes known is made not to block and is watched, and so is the socket for its
/// descriptors where it is the first to have it; one that is known already is left alone.
pub proof fn lemma_connection_is_watched(s: IoState, request_fd: i32, msg_fd: i32, primary: bool)
    ensures
        ({
            let a = effect_acts(s, Effect::RegisterClient { request_fd, msg_fd, is_msg_primary: primary });
            &&& s.clients@.contains_key(request_fd) ==> a.len() == 0
            &&& !s.clients@.contains_key(request_fd) ==> a[0] == (IoAct::NonBlocking { fd: request_fd }) && a[1]
                == (IoAct::Watch { fd: request_fd })
            &&& !s.clients@.contains_key(request_fd) && primary && !s.msg_clients@.contains_key(msg_fd)
                ==> a.len() == 4 && a[2] == (IoAct::NonBlocking { fd: msg_fd }) && a[3] == (IoAct::Watch {
                fd: msg_fd,
            })
            &&& !s.clients@.contains_key(request_fd) && (!primary || s.msg_clients@.contains_key(msg_fd))
                ==> a.len() == 2
        }),
{
}

/// A descriptor is sent and then closed here. A pipe is watched once; where it gets another event the former
/// one is closed. A display is watched until it is ready once, and again after its driver's bit was cleared.
pub proof fn lemma_what_effects_do(
    s: IoState,
    target_fd: i32,
    sent: i32,
    version: u32,
    pipe_fd: i32,
    event_fd: i32,
    shm: u64,
)
    ensures
        effect_acts(s, Effect::SendFd { target_fd, fd_to_send: sent, version }) == seq![
            IoAct::SendFd { target_fd, fd: sent, version },
            IoAct::Close { fd: sent },
        ],
        !s.pipe_watchers@.contains_key(pipe_fd) ==> effect_acts(s, Effect::WatchPipeFd { pipe_fd, event_fd })
            == seq![IoAct::Watch { fd: pipe_fd }],
        s.pipe_watchers@.contains_key(pipe_fd) && s.pipe_watchers@[pipe_fd] != event_fd ==> effect_acts(
            s,
            Effect::WatchPipeFd { pipe_fd, event_fd },
        ) == seq![IoAct::Close { fd: s.pipe_watchers@[pipe_fd] }],
        s.pipe_watchers@.contains_key(pipe_fd) && s.pipe_watchers@[pipe_fd] == event_fd ==> effect_acts(
            s,
            Effect::WatchPipeFd { pipe_fd, event_fd },
        ).len() == 0,
        !s.queue_watchers@.contains_key(pipe_fd) ==> effect_acts(
            s,
            Effect::WatchQueueFd { queue_fd: pipe_fd, shm, event_fd },
        ) == seq![IoAct::WatchOnce { fd: pipe_fd }],
        s.queue_watchers@.contains_key(pipe_fd) ==> effect_acts(
            s,
            Effect::WatchQueueFd { queue_fd: pipe_fd, shm, event_fd },
        ).len() == 0,
        s.queue_watchers@.contains_key(pipe_fd) ==> effect_acts(s, Effect::RearmQueueFd { queue_fd: pipe_fd })
            == seq![
            IoAct::ClearDriverBit { shm: s.queue_watchers@[pipe_fd].0 },
            IoAct::RewatchOnce { fd: pipe_fd },
        ],
        !s.queue_watchers@.contains_key(pipe_fd) ==> effect_acts(s, Effect::RearmQueueFd { queue_fd: pipe_fd }).len()
            == 0,
{
}

/// What is watched is known afterwards: a pipe with its newest event, a display with its first queue.
pub proof fn lemma_watched_is_known(before: IoState, after: IoState, fd: i32, event_fd: i32, shm: u64)
    ensures
        effect_done(before, after, Effect::WatchPipeFd { pipe_fd: fd, event_fd }) ==> after.pipe_watchers@.contains_key(
            fd,
        ) && after.pipe_watchers@[fd] == event_fd,
        effect_done(before, after, Effect::WatchQueueFd { queue_fd: fd, shm, event_fd })
            ==> after.queue_watchers@.contains_key(fd),
        effect_done(before, after, Effect::WatchQueueFd { queue_fd: fd, shm, event_fd })
            && !before.queue_watchers@.contains_key(fd) ==> after.queue_watchers@[fd] == (shm, event_fd),
        effect_done(before, after, Effect::RearmQueueFd { queue_fd: fd }) ==> after == before,
{
}

/// Replies go where the connection wants them, and back on the connection itself where it does not say.
pub proof fn lemma_where_replies_go(reply_fds: Map<i32, i32>, fd: i32, r: i32)
    ensures
        reply_target(reply_fds.insert(fd, r), fd) == r,
        reply_target(reply_fds.remove(fd), fd) == fd,
{
}

/// A connection that is gone is watched no longer and is closed. The socket for descriptors goes with the
/// last connection that shares it, and not before.
pub proof fn lemma_gone_connection_is_closed(before: IoState, after: IoState, fd: i32, acts: Seq<IoAct>, other: i32)
    requires
        left_io(before, after, fd, acts),
    ensures
        !after.clients@.contains_key(fd) && !after.reply_fds@.contains_key(fd),
        acts[0] == (IoAct::Unwatch { fd }),
        acts.last() == (IoAct::Close { fd }),
        before.clients@.contains_key(fd) && before.msg_clients@.contains_key(before.clients@[fd].msg_fd) && other
            != fd && before.msg_clients@[before.clients@[fd].msg_fd]@.contains(other) ==> acts.len() == 2
            && after.msg_clients@.contains_key(before.clients@[fd].msg_fd)
            && after.msg_clients@[before.clients@[fd].msg_fd]@.contains(other),
        before.clients@.contains_key(fd) && before.msg_clients@.contains_key(before.clients@[fd].msg_fd)
            && before.msg_clients@[before.clients@[fd].msg_fd]@ == seq![fd] ==> acts.len() == 4 && acts[1] == (
        IoAct::Unwatch { fd: before.clients@[fd].msg_fd }) && acts[2] == (IoAct::Close {
            fd: before.clients@[fd].msg_fd,
        }) && !after.msg_clients@.contains_key(before.clients@[fd].msg_fd)
            && !after.pending@.contains_key(before.clients@[fd].msg_fd),
{
    let msg_fd = before.clients@[fd].msg_fd;
    let list = list_of(before.msg_clients@, msg_fd);
    let others = kept(list, not_fd(fd));
    lemma_kept(list, not_fd(fd), other);
    if list == seq![fd] && others.len() > 0 {
        lemma_kept(list, not_fd(fd), others[0]);
        assert(others.contains(others[0]));
    }
}

/// A descriptor that arrives with eight bytes or more stands for the sender's thread and number that these
/// hold; with fewer it stands for itself.
pub proof fn lemma_sender_reads_back(tid: u32, number: u32, more: Seq<u8>, fd: i32)
    ensures
        sent_as(u32_bytes(tid) + u32_bytes(number) + more, fd) == (tid, i32_of_bits(number), fd),
        forall|data: Seq<u8>| data.len() < 8 ==> #[trigger] sent_as(data, fd) == (0u32, fd, fd),
{
    let d = u32_bytes(tid) + u32_bytes(number) + more;
    assert(d.subrange(0, 4) =~= u32_bytes(tid));
    lemma_read_back_u32(d, 0, tid);
    assert(d.subrange(4, 8) =~= u32_bytes(number));
    lemma_read_back_u32(d, 4, number);
}

/// At the end each watched display is closed, and its event with it where it has one.
pub proof fn lemma_displays_are_closed(s: Seq<(i32, (u64, i32))>, k: int)
    requires
        0 <= k < s.len(),
    ensures
        queue_fds(s).contains(s[k].0),
        s[k].1.1 >= 0 ==> queue_fds(s).contains(s[k].1.1),
    decreases s.len(),
{
    let all = queue_fds(s);
    let before = queue_fds(s.drop_last());
    if k == s.len() - 1 {
        assert(all[before.len() as int] == s[k].0);
        if s[k].1.1 >= 0 {
            assert(all[before.len() as int + 1] == s[k].1.1);
        }
    } else {
        lemma_displays_are_closed(s.drop_last(), k);
        let j = choose|j: int| 0 <= j < before.len() && before[j] == s[k].0;
        assert(all[j] == before[j]);
        if s[k].1.1 >= 0 {
            let i = choose|i: int| 0 <= i < before.len() && before[i] == s[k].1.1;
            assert(all[i] == before[i]);
        }
    }
}

} // verus!
