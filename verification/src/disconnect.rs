//! The end of a thread, and of a process with its last thread.
use crate::bytes::{read_u64, u64_at};
use crate::lists::{keep_in, keeping, kept, lemma_kept, lemma_without_one, other_than, Keeps};
use crate::names::{by_name, distinct, filter_named, lists_kept};
use crate::objects::{holds, Process, Thread};
use crate::pipes::lemma_signal_sent;
use crate::ports::job_counts;
use crate::select::capped;
use crate::side_tables::{data_fds, PipeHandle};
use crate::state::{
    pid_of, tid_of, waitable, with_signal, with_signals, Action, AsyncPipeRead, Client, Clients,
    CompletedPipeRead, CompletionMsg, CompletionWaiter, Desktop, EventLoop, ExitEvent, InfoHandle, Job,
    NamedPipeInfo, NtTimer, Objects, Pipes, Ports, Sync, SyncObject, WindowState, SYNC_MUTEX,
};
use crate::table::{enumerates, filter_under, list_of, owned, part, push_under, pushed, rest, wanted, Picks};
use vstd::prelude::*;

verus! {

/// The message that a job sends when a process leaves it.
pub const JOB_OBJECT_MSG_EXIT_PROCESS: u32 = 4;

/// The message that a job sends when its last process has left.
pub const JOB_OBJECT_MSG_ACTIVE_PROCESS_ZERO: u32 = 8;

/// A sent message has its result.
pub const QS_SMRESULT: u32 = 0x8000;

/// How long the daemon waits for new processes when the last one of a user is gone.
pub const LINGER_NS: u64 = 5_000_000_000;

/// The object of a client is let go, where it has one.
pub open spec fn with_release(out: Seq<Action>, held: Map<i32, i32>, fd: i32) -> Seq<Action> {
    if held.contains_key(fd) {
        out.push(Action::Release { object: held[fd] })
    } else {
        out
    }
}

/// The mutexes of a process are abandoned on behalf of one of its threads.
pub open spec fn with_kills(
    out: Seq<Action>,
    w: Seq<((u32, u32), SyncObject)>,
    pid: u32,
    tid: u32,
) -> Seq<Action>
    decreases w.len(),
{
    if w.len() == 0 {
        out
    } else {
        let before = with_kills(out, w.drop_last(), pid, tid);
        let x = w.last();
        if x.0.0 == pid && x.1.kind == SYNC_MUTEX {
            before.push(Action::KillMutex { object: x.1.fd, owner: tid })
        } else {
            before
        }
    }
}

/// A client is gone: its events are let go, the mutexes that its thread may own are abandoned, and the
/// thread's queue slot is free.
pub open spec fn client_dropped(before: EventLoop, after: EventLoop, fd: i32) -> bool {
    let pid = pid_of(before.clients.clients@, fd);
    let tid = tid_of(before.clients.clients@, fd);
    let out = with_release(
        with_release(before.outbox@, before.sync.alerts@, fd),
        before.sync.interrupts@,
        fd,
    );
    &&& after == (EventLoop {
        sync: Sync {
            alerts: after.sync.alerts,
            interrupts: after.sync.interrupts,
            apc_flags: after.sync.apc_flags,
            ..before.sync
        },
        clients: Clients { clients: after.clients.clients, ..before.clients },
        outbox: after.outbox,
        ..before
    })
    &&& after.sync.alerts@ == before.sync.alerts@.remove(fd)
    &&& after.sync.interrupts@ == before.sync.interrupts@.remove(fd)
    &&& after.sync.apc_flags@ == before.sync.apc_flags@.remove(fd)
    &&& after.clients.clients@ == before.clients.clients@.remove(fd)
    &&& if tid != 0 {
        exists|w: Seq<((u32, u32), SyncObject)>| #[trigger]
            enumerates(w, before.sync.objects@) && after.outbox@ == with_kills(
                out,
                w,
                pid,
                tid,
            ).push(Action::FreeSlot { tid })
    } else {
        after.outbox@ == out
    }
}

/// A thread of a process is connected.
pub open spec fn connected(c: Map<i32, Client>, pid: u32, tid: u32) -> bool {
    &&& tid != 0
    &&& exists|fd: i32| #[trigger]
        c.contains_key(fd) && c[fd].process_id == pid && c[fd].thread_id == tid
}

/// The threads that stay: those that are connected, but for one.
pub open spec fn staying(c: Map<i32, Client>, pid: u32, gone: u32) -> spec_fn(u32) -> bool {
    |t: u32| t != gone && connected(c, pid, t)
}

/// The waits for pipes that stay when a process has a thread less.
pub open spec fn not_of(pid: u32) -> spec_fn((u32, u32)) -> bool {
    |w: (u32, u32)| w.0 != pid
}

/// A thread is gone from its process. Threads that never connected go with it.
pub open spec fn thread_dropped(before: EventLoop, after: EventLoop, pid: u32, tid: u32) -> bool {
    &&& after == (EventLoop {
        objects: Objects { processes: after.objects.processes, ..before.objects },
        pipes: Pipes { waiters: after.pipes.waiters, ..before.pipes },
        ..before
    })
    &&& if pid != 0 {
        lists_kept(before.pipes.waiters@, after.pipes.waiters@, not_of(pid))
    } else {
        after.pipes.waiters@ == before.pipes.waiters@
    }
    &&& if pid != 0 && tid != 0 && before.objects.processes@.contains_key(pid) {
        let p = before.objects.processes@[pid];
        let q = after.objects.processes@[pid];
        &&& after.objects.processes@ == before.objects.processes@.insert(pid, q)
        &&& q == (Process { threads: q.threads, ..p })
        &&& q.threads@ == kept(p.threads@, staying(before.clients.clients@, pid, tid))
    } else {
        after.objects.processes@ == before.objects.processes@
    }
}

/// The clients after one of them was given a queue handle.
pub open spec fn with_queue_handle(c: Map<i32, Client>, fd: i32, h: u32) -> Map<i32, Client> {
    if c.contains_key(fd) && h != 0 {
        c.insert(fd, Client { queue_handle: h, ..c[fd] })
    } else {
        c
    }
}

/// Bits were set in the message queue of a client's thread, and the event of the queue with them. A
/// queue without a handle is given one.
pub open spec fn queue_of_client(before: EventLoop, after: EventLoop, fd: i32, bits: u32) -> bool {
    let c = before.clients.clients@[fd];
    exists|s1: EventLoop, s2: EventLoop, h: u32|
        #![trigger queue_written(before, s1, c, bits), queue_handle_given(s1, s2, fd, c, h)]
        queue_written(before, s1, c, bits) && queue_handle_given(s1, s2, fd, c, h) && after == (EventLoop {
            outbox: after.outbox,
            ..s2
        }) && after.outbox@ == (if h != 0 {
            with_signal(s2.sync.objects@, s2.outbox@, c.process_id, h)
        } else {
            s2.outbox@
        })
}

pub open spec fn queue_written(before: EventLoop, after: EventLoop, c: Client, bits: u32) -> bool {
    &&& after == (EventLoop { outbox: after.outbox, ..before })
    &&& after.outbox@ == before.outbox@.push(
        Action::QueueBits { offset: u64_at(c.queue_locator@, 8), bits },
    )
}

/// The handle of a client's queue: the one that it has, or a new one.
pub open spec fn queue_handle_given(before: EventLoop, after: EventLoop, fd: i32, c: Client, h: u32) -> bool {
    if c.queue_handle != 0 {
        h == c.queue_handle && after == before
    } else {
        exists|mid: EventLoop| #[trigger]
            waitable(before, mid, fd, h) && after == (EventLoop {
                clients: Clients { clients: after.clients.clients, ..mid.clients },
                ..mid
            }) && after.clients.clients@ == with_queue_handle(mid.clients.clients@, fd, h)
    }
}

/// Bits were set in the message queue of a thread, where it is connected. Of several clients with its
/// number, any.
pub open spec fn queue_signalled(before: EventLoop, after: EventLoop, tid: u32, bits: u32) -> bool {
    let c = before.clients.clients@;
    if forall|fd: i32| #[trigger] c.contains_key(fd) ==> c[fd].thread_id != tid {
        after == before
    } else {
        exists|fd: i32|
            #![trigger c.contains_key(fd)]
            c.contains_key(fd) && c[fd].thread_id == tid && queue_of_client(before, after, fd, bits)
    }
}

/// Bits were cleared in the message queue of a client's thread. Nobody is woken for that.
pub open spec fn queue_cleared_of(before: EventLoop, after: EventLoop, c: Client, bits: u32) -> bool {
    &&& after == (EventLoop { outbox: after.outbox, ..before })
    &&& after.outbox@ == before.outbox@.push(
        Action::ClearQueueBits { offset: u64_at(c.queue_locator@, 8), bits },
    )
}

/// Bits were cleared in the message queue of a thread, where it is connected. Of several clients with
/// its number, any.
pub open spec fn queue_cleared(before: EventLoop, after: EventLoop, tid: u32, bits: u32) -> bool {
    let c = before.clients.clients@;
    if forall|fd: i32| #[trigger] c.contains_key(fd) ==> c[fd].thread_id != tid {
        after == before
    } else {
        exists|fd: i32|
            #![trigger c.contains_key(fd)]
            c.contains_key(fd) && c[fd].thread_id == tid && queue_cleared_of(before, after, c[fd], bits)
    }
}

/// The senders of messages that will never be answered are told so, one after the other.
pub open spec fn senders_told(before: EventLoop, after: EventLoop, s: Seq<u32>) -> bool
    decreases s.len(),
{
    if s.len() == 0 {
        after == before
    } else {
        exists|mid: EventLoop|
            #![trigger queue_signalled(mid, after, s.last(), QS_SMRESULT)]
            senders_told(before, mid, s.drop_last()) && queue_signalled(
                mid,
                after,
                s.last(),
                QS_SMRESULT,
            )
    }
}

/// The events of something that has ended are set and let go.
pub open spec fn ends_signalled(out: Seq<Action>, s: Seq<ExitEvent>) -> Seq<Action>
    decreases s.len(),
{
    if s.len() == 0 {
        out
    } else {
        ends_signalled(out, s.drop_last()).push(Action::SetEvent { object: s.last().object }).push(
            Action::Release { object: s.last().object },
        )
    }
}

/// The waits on ports that stay when a client is gone.
pub open spec fn waits_of_others(fd: i32) -> spec_fn(CompletionWaiter) -> bool {
    |w: CompletionWaiter| w.client_fd != fd
}

/// Nothing is kept for a thread any more, and those that wait for its end are told.
pub open spec fn thread_forgotten(before: EventLoop, after: EventLoop, fd: i32, tid: u32) -> bool {
    &&& after == (EventLoop {
        sync: Sync {
            deferred: after.sync.deferred,
            pending_wakes: after.sync.pending_wakes,
            kernel_apcs: after.sync.kernel_apcs,
            thread_exit: after.sync.thread_exit,
            ..before.sync
        },
        ports: Ports {
            cache: after.ports.cache,
            waiters: after.ports.waiters,
            ..before.ports
        },
        desktop: Desktop {
            caret_state: after.desktop.caret_state,
            next_timer_ids: after.desktop.next_timer_ids,
            thread_quit_state: after.desktop.thread_quit_state,
            ..before.desktop
        },
        outbox: after.outbox,
        ..before
    })
    &&& after.sync.deferred@ == before.sync.deferred@.remove(fd)
    &&& after.sync.pending_wakes@ == before.sync.pending_wakes@.remove(fd)
    &&& after.sync.kernel_apcs@ == before.sync.kernel_apcs@.remove(fd)
    &&& after.sync.thread_exit@ == before.sync.thread_exit@.remove(fd)
    &&& after.ports.cache@ == before.ports.cache@.remove(fd)
    &&& after.ports.waiters@.dom() == before.ports.waiters@.dom()
    &&& forall|k: u32| #[trigger]
        before.ports.waiters@.contains_key(k) ==> after.ports.waiters@[k]@ == kept(
            before.ports.waiters@[k]@,
            waits_of_others(fd),
        )
    &&& if tid != 0 {
        &&& after.desktop.caret_state@ == before.desktop.caret_state@.remove(tid)
        &&& after.desktop.next_timer_ids@ == before.desktop.next_timer_ids@.remove(tid)
        &&& after.desktop.thread_quit_state@ == before.desktop.thread_quit_state@.remove(tid)
    } else {
        after.desktop == before.desktop
    }
    &&& after.outbox@ == ends_signalled(before.outbox@, list_of(before.sync.thread_exit@, fd))
}

/// Threads that stay in a list: those of `tids`, but for one.
pub struct StayingThreads {
    pub gone: u32,
    pub tids: Vec<u32>,
}

impl Keeps<u32> for StayingThreads {
    open spec fn keeps(&self, v: u32) -> bool {
        v != self.gone && self.tids@.contains(v)
    }

    fn keep(&self, v: &u32) -> (r: bool) {
        *v != self.gone && holds(&self.tids, *v)
    }
}

/// Waits for pipes of other processes.
pub struct NotOf {
    pub pid: u32,
}

impl Keeps<(u32, u32)> for NotOf {
    open spec fn keeps(&self, v: (u32, u32)) -> bool {
        v.0 != self.pid
    }

    fn keep(&self, v: &(u32, u32)) -> (r: bool) {
        v.0 != self.pid
    }
}

/// Waits on ports of other clients.
pub struct NotFrom {
    pub fd: i32,
}

impl Keeps<CompletionWaiter> for NotFrom {
    open spec fn keeps(&self, v: CompletionWaiter) -> bool {
        v.client_fd != self.fd
    }

    fn keep(&self, v: &CompletionWaiter) -> (r: bool) {
        v.client_fd != self.fd
    }
}

impl EventLoop {
    /// Drops a client and what only it uses. What the client holds is handed back, to be closed.
    pub fn drop_client(&mut self, fd: i32) -> (r: Option<Client>)
        requires
            old(self).wf(),
        ensures
            final(self).wf(),
            client_dropped(*old(self), *final(self), fd),
            r == (if old(self).clients.clients@.contains_key(fd) {
                Some(old(self).clients.clients@[fd])
            } else {
                None
            }),
    {
        let pid: u32 = self.client_pid(fd);
        let tid: u32 = match self.client_thread_id(fd) {
            Some(t) => t,
            None => 0,
        };
        match self.sync.alerts.remove(fd) {
            Some(object) => {
                self.outbox.push(Action::Release { object });
            },
            None => {},
        }
        match self.sync.interrupts.remove(fd) {
            Some(object) => {
                self.outbox.push(Action::Release { object });
            },
            None => {},
        }
        let _ = self.sync.apc_flags.remove(fd);
        let r = self.clients.clients.remove(fd);
        if tid != 0 {
            self.kill_mutexes(pid, tid);
            self.outbox.push(Action::FreeSlot { tid });
        }
        r
    }

    /// Abandons the mutexes of a process on behalf of one of its threads.
    fn kill_mutexes(&mut self, pid: u32, tid: u32)
        requires
            old(self).wf(),
        ensures
            final(self).wf(),
            *final(self) == (EventLoop { outbox: final(self).outbox, ..*old(self) }),
            exists|w: Seq<((u32, u32), SyncObject)>| #[trigger]
                enumerates(w, old(self).sync.objects@) && final(self).outbox@ == with_kills(
                    old(self).outbox@,
                    w,
                    pid,
                    tid,
                ),
    {
        let ghost w = self.sync.objects.walk();
        proof {
            self.sync.objects.lemma_walk();
        }
        let mut i: usize = 0;
        while i < self.sync.objects.len()
            invariant
                i <= w.len(),
                w == old(self).sync.objects.walk(),
                self.wf(),
                *self == (EventLoop { outbox: self.outbox, ..*old(self) }),
                self.outbox@ == with_kills(old(self).outbox@, w.take(i as int), pid, tid),
            decreases w.len() - i,
        {
            let (k, o) = self.sync.objects.at(i);
            let (mine, object): (bool, i32) = (k.0 == pid && o.kind == SYNC_MUTEX, o.fd);
            if mine {
                self.outbox.push(Action::KillMutex { object, owner: tid });
            }
            proof {
                assert(w.take(i + 1).drop_last() =~= w.take(i as int));
            }
            i = i + 1;
        }
        assert(w.take(i as int) =~= w);
    }

    /// The threads of a process that are connected.
    fn connected_threads(&self, pid: u32) -> (r: Vec<u32>)
        requires
            self.wf(),
        ensures
            forall|t: u32| #[trigger] r@.contains(t) <==> connected(self.clients.clients@, pid, t),
    {
        let ghost w = self.clients.clients.walk();
        let ghost m = self.clients.clients@;
        proof {
            self.clients.clients.lemma_walk();
        }
        let mut r: Vec<u32> = Vec::new();
        let mut i: usize = 0;
        while i < self.clients.clients.len()
            invariant
                self.wf(),
                i <= w.len(),
                w == self.clients.clients.walk(),
                forall|t: u32| #[trigger]
                    r@.contains(t) <==> exists|j: int|
                        0 <= j < i && (#[trigger] w[j]).1.process_id == pid && w[j].1.thread_id == t && t
                            != 0,
            decreases w.len() - i,
        {
            let (_, c) = self.clients.clients.at(i);
            let ghost r0 = r@;
            if c.process_id == pid && c.thread_id != 0 {
                r.push(c.thread_id);
                proof {
                    assert forall|t: u32| #[trigger] r@.contains(t) <==> r0.contains(t) || t
                        == c.thread_id by {
                        if r0.contains(t) {
                            let k = choose|k: int| 0 <= k < r0.len() && r0[k] == t;
                            assert(r@[k] == t);
                        }
                        if t == c.thread_id {
                            assert(r@[r0.len() as int] == t);
                        }
                        if r@.contains(t) {
                            let k = choose|k: int| 0 <= k < r@.len() && r@[k] == t;
                            if k < r0.len() {
                                assert(r0[k] == t);
                            }
                        }
                    }
                    assert(w[i as int].1.thread_id == c.thread_id);
                }
            }
            i = i + 1;
        }
        assert forall|t: u32| #[trigger] r@.contains(t) <==> connected(m, pid, t) by {
            if r@.contains(t) {
                let j = choose|j: int|
                    0 <= j < w.len() && (#[trigger] w[j]).1.process_id == pid && w[j].1.thread_id == t && t
                        != 0;
                assert(m.contains_key(w[j].0));
            }
            if connected(m, pid, t) {
                let fd = choose|fd: i32| #[trigger]
                    m.contains_key(fd) && m[fd].process_id == pid && m[fd].thread_id == t;
                let j = choose|j: int| 0 <= j < w.len() && #[trigger] w[j].0 == fd;
                assert(m[w[j].0] == w[j].1);
                assert(w[j].1.process_id == pid);
            }
        }
        r
    }

    /// Takes a thread out of its process, with those that never connected.
    pub fn drop_thread(&mut self, pid: u32, tid: u32)
        requires
            old(self).wf(),
        ensures
            final(self).wf(),
            thread_dropped(*old(self), *final(self), pid, tid),
    {
        if pid == 0 {
            return;
        }
        let choice = NotOf { pid };
        filter_named(&mut self.pipes.waiters, &choice);
        assert(keeping::<(u32, u32), NotOf>(choice) =~= not_of(pid));
        if tid != 0 {
            let tids = self.connected_threads(pid);
            let stay = StayingThreads { gone: tid, tids };
            proof {
                assert(keeping::<u32, StayingThreads>(stay) =~= staying(
                    old(self).clients.clients@,
                    pid,
                    tid,
                ));
            }
            match self.objects.processes.get_mut(pid) {
                Some(p) => {
                    keep_in(&mut p.threads, &stay);
                },
                None => {},
            }
        }
    }

    /// A client whose thread has a number.
    fn client_of_thread(&self, tid: u32) -> (r: Option<i32>)
        requires
            self.wf(),
        ensures
            match r {
                Some(fd) => self.clients.clients@.contains_key(fd) && self.clients.clients@[fd].thread_id
                    == tid,
                None => forall|fd: i32| #[trigger]
                    self.clients.clients@.contains_key(fd) ==> self.clients.clients@[fd].thread_id
                        != tid,
            },
    {
        let ghost w = self.clients.clients.walk();
        proof {
            self.clients.clients.lemma_walk();
        }
        let mut i: usize = 0;
        while i < self.clients.clients.len()
            invariant
                self.wf(),
                i <= w.len(),
                w == self.clients.clients.walk(),
                enumerates(w, self.clients.clients@),
                forall|j: int| #![trigger w[j]] 0 <= j < i ==> w[j].1.thread_id != tid,
            decreases w.len() - i,
        {
            let (fd, c) = self.clients.clients.at(i);
            if c.thread_id == tid {
                assert(self.clients.clients@.contains_key(w[i as int].0));
                return Some(*fd);
            }
            i = i + 1;
        }
        assert forall|fd: i32| #[trigger] self.clients.clients@.contains_key(fd) implies self.clients.clients@[fd].thread_id
            != tid by {
            let j = choose|j: int| 0 <= j < w.len() && #[trigger] w[j].0 == fd;
            assert(self.clients.clients@[w[j].0] == w[j].1);
        }
        None
    }

    /// Sets bits in the message queue of a thread, and wakes it.
    pub fn set_queue_bits_for_tid(&mut self, tid: u32, bits: u32)
        requires
            old(self).wf(),
        ensures
            final(self).wf(),
            queue_signalled(*old(self), *final(self), tid, bits),
    {
        let fd: i32 = match self.client_of_thread(tid) {
            Some(fd) => fd,
            None => {
                return;
            },
        };
        let ghost c = self.clients.clients@[fd];
        assert(old(self).clients.clients@.contains_key(fd));
        let (offset, pid, held): (u64, u32, u32) = match self.clients.clients.get(fd) {
            Some(c) => (read_u64(&c.queue_locator, 8), c.process_id, c.queue_handle),
            None => {
                return;
            },
        };
        self.outbox.push(Action::QueueBits { offset, bits });
        let ghost s1 = *self;
        assert(queue_written(*old(self), s1, c, bits));
        let mut h: u32 = held;
        if held == 0 {
            h = self.alloc_waitable_handle_for_client(fd);
            let ghost mid = *self;
            assert(waitable(s1, mid, fd, h));
            if h != 0 {
                match self.clients.clients.get_mut(fd) {
                    Some(c) => {
                        c.queue_handle = h;
                    },
                    None => {},
                }
            }
        }
        let ghost s2 = *self;
        assert(queue_handle_given(s1, s2, fd, c, h));
        if h != 0 {
            self.signal(pid, h);
        }
        assert(queue_of_client(*old(self), *self, fd, bits));
    }

    /// Clears bits in the message queue of a thread, so that it does not wake for what is gone.
    pub fn clear_queue_bits_for_tid(&mut self, tid: u32, bits: u32)
        requires
            old(self).wf(),
        ensures
            final(self).wf(),
            queue_cleared(*old(self), *final(self), tid, bits),
    {
        let fd: i32 = match self.client_of_thread(tid) {
            Some(fd) => fd,
            None => {
                return;
            },
        };
        assert(old(self).clients.clients@.contains_key(fd));
        let offset: u64 = match self.clients.clients.get(fd) {
            Some(c) => read_u64(&c.queue_locator, 8),
            None => {
                return;
            },
        };
        self.outbox.push(Action::ClearQueueBits { offset, bits });
    }

    /// Tells the senders of messages that a thread will never answer.
    pub fn tell_senders(&mut self, senders: &Vec<u32>)
        requires
            old(self).wf(),
        ensures
            final(self).wf(),
            senders_told(*old(self), *final(self), senders@),
    {
        let mut i: usize = 0;
        while i < senders.len()
            invariant
                i <= senders@.len(),
                self.wf(),
                senders_told(*old(self), *self, senders@.take(i as int)),
            decreases senders@.len() - i,
        {
            let ghost mid = *self;
            self.set_queue_bits_for_tid(senders[i], QS_SMRESULT);
            proof {
                assert(senders@.take(i + 1).drop_last() =~= senders@.take(i as int));
                assert(senders@.take(i + 1).last() == senders@[i as int]);
                assert(queue_signalled(mid, *self, senders@.take(i + 1).last(), QS_SMRESULT));
            }
            i = i + 1;
        }
        assert(senders@.take(i as int) =~= senders@);
    }

    /// Sets the events of something that has ended, and lets them go.
    fn signal_ends(&mut self, events: &Vec<ExitEvent>)
        requires
            old(self).wf(),
        ensures
            final(self).wf(),
            *final(self) == (EventLoop { outbox: final(self).outbox, ..*old(self) }),
            final(self).outbox@ == ends_signalled(old(self).outbox@, events@),
    {
        let mut i: usize = 0;
        while i < events.len()
            invariant
                i <= events@.len(),
                self.wf(),
                *self == (EventLoop { outbox: self.outbox, ..*old(self) }),
                self.outbox@ == ends_signalled(old(self).outbox@, events@.take(i as int)),
            decreases events@.len() - i,
        {
            let object: i32 = events[i].object;
            self.outbox.push(Action::SetEvent { object });
            self.outbox.push(Action::Release { object });
            proof {
                assert(events@.take(i + 1).drop_last() =~= events@.take(i as int));
            }
            i = i + 1;
        }
        assert(events@.take(i as int) =~= events@);
    }

    /// Forgets what is kept for a thread, and tells those that wait for its end.
    pub fn forget_thread(&mut self, fd: i32, tid: u32)
        requires
            old(self).wf(),
        ensures
            final(self).wf(),
            thread_forgotten(*old(self), *final(self), fd, tid),
    {
        if tid != 0 {
            let _ = self.desktop.caret_state.remove(tid);
            let _ = self.desktop.next_timer_ids.remove(tid);
            let _ = self.desktop.thread_quit_state.remove(tid);
        }
        let _ = self.sync.deferred.remove(fd);
        let _ = self.sync.pending_wakes.remove(fd);
        let _ = self.sync.kernel_apcs.remove(fd);
        let _ = self.ports.cache.remove(fd);
        let choice = NotFrom { fd };
        filter_under(&mut self.ports.waiters, &choice);
        assert(keeping::<CompletionWaiter, NotFrom>(choice) =~= waits_of_others(fd));
        match self.sync.thread_exit.remove(fd) {
            Some(events) => {
                self.signal_ends(&events);
            },
            None => {
                assert(ends_signalled(self.outbox@, Seq::empty()) == self.outbox@);
            },
        }
    }
}

/// The descriptors of a list are closed.
pub open spec fn with_closes(out: Seq<Action>, fds: Seq<i32>) -> Seq<Action> {
    out + fds.map_values(|fd: i32| Action::Close { fd })
}

/// The objects of a list are let go.
pub open spec fn with_releases(out: Seq<Action>, s: Seq<((u32, u32), SyncObject)>) -> Seq<Action> {
    out + s.map_values(|e: ((u32, u32), SyncObject)| Action::Release { object: e.1.fd })
}

/// The descriptors that a process has sent and no request has taken.
pub open spec fn inflight_fds(s: Seq<(u32, i32, i32)>) -> Seq<i32> {
    s.map_values(|e: (u32, i32, i32)| e.2)
}

/// The objects of a process are let go, and the descriptors that nobody has taken are closed.
pub open spec fn objects_dropped(before: EventLoop, after: EventLoop, pid: u32, msg_fd: i32) -> bool {
    &&& after == (EventLoop {
        sync: Sync {
            objects: after.sync.objects,
            recyclable: after.sync.recyclable,
            ..before.sync
        },
        clients: Clients {
            msg_fd_map: after.clients.msg_fd_map,
            inflight: after.clients.inflight,
            ..before.clients
        },
        outbox: after.outbox,
        ..before
    })
    &&& after.clients.msg_fd_map@ == before.clients.msg_fd_map@.remove(msg_fd)
    &&& after.clients.inflight@ == before.clients.inflight@.remove(pid)
    &&& after.sync.objects@ == rest(before.sync.objects@, owned(pid))
    &&& after.sync.recyclable@ == rest(before.sync.recyclable@, owned(pid))
    &&& exists|s: Seq<((u32, u32), SyncObject)>| #[trigger]
        enumerates(s, part(before.sync.objects@, owned(pid))) && after.outbox@ == with_releases(
            with_closes(before.outbox@, inflight_fds(list_of(before.clients.inflight@, pid))),
            s,
        )
}

/// What is kept by handle for a process is gone, and its ends of pipes are closed.
pub open spec fn handles_forgotten(before: EventLoop, after: EventLoop, pid: u32) -> bool {
    let b = before.side_tables;
    let a = after.side_tables;
    &&& after == (EventLoop {
        objects: Objects { kernel_objects: after.objects.kernel_objects, ..before.objects },
        side_tables: a,
        pipes: Pipes {
            pending_reads: after.pipes.pending_reads,
            completed_ioctls: after.pipes.completed_ioctls,
            ..before.pipes
        },
        desktop: Desktop {
            process_winstations: after.desktop.process_winstations,
            ..before.desktop
        },
        outbox: after.outbox,
        ..before
    })
    &&& a.pipe_handles@ == rest(b.pipe_handles@, owned(pid))
    &&& a.io_wait_handles@ == rest(b.io_wait_handles@, owned(pid))
    &&& a.fd_sent@ == rest(b.fd_sent@, owned(pid))
    &&& a.completion_bindings@ == rest(b.completion_bindings@, owned(pid))
    &&& after.objects.kernel_objects@ == rest(before.objects.kernel_objects@, owned(pid))
    &&& after.pipes.pending_reads@ == rest(before.pipes.pending_reads@, owned(pid))
    &&& after.pipes.completed_ioctls@ == rest(before.pipes.completed_ioctls@, owned(pid))
    &&& after.desktop.process_winstations@ == before.desktop.process_winstations@.remove(pid)
    &&& exists|s: Seq<((u32, u32), PipeHandle)>| #[trigger]
        enumerates(s, part(b.pipe_handles@, owned(pid))) && after.outbox@ == with_closes(
            before.outbox@,
            data_fds(s),
        )
}

/// Timers of other processes.
pub open spec fn timers_of_others(pid: u32) -> spec_fn(NtTimer) -> bool {
    |t: NtTimer| t.pid != pid
}

pub open spec fn reads_of_others(pid: u32) -> spec_fn(AsyncPipeRead) -> bool {
    |r: AsyncPipeRead| r.pid != pid
}

pub open spec fn reads_of(pid: u32) -> spec_fn(AsyncPipeRead) -> bool {
    |r: AsyncPipeRead| r.pid == pid
}

pub open spec fn results_of_others(pid: u32) -> spec_fn(CompletedPipeRead) -> bool {
    |r: CompletedPipeRead| r.pid != pid
}

pub open spec fn instances_of_others(pid: u32) -> spec_fn(NamedPipeInfo) -> bool {
    |i: NamedPipeInfo| i.server_pid != pid
}

pub open spec fn instances_of(pid: u32) -> spec_fn(NamedPipeInfo) -> bool {
    |i: NamedPipeInfo| i.server_pid == pid
}

/// The pipes on which the process has reads pending.
pub open spec fn read_fds(s: Seq<AsyncPipeRead>, pid: u32) -> Seq<i32> {
    kept(s, reads_of(pid)).map_values(|r: AsyncPipeRead| r.pipe_fd)
}

/// The client ends of the instances of a process, pipe by pipe.
pub open spec fn client_ends(w: Seq<(String, Vec<NamedPipeInfo>)>, pid: u32) -> Seq<i32>
    decreases w.len(),
{
    if w.len() == 0 {
        Seq::empty()
    } else {
        client_ends(w.drop_last(), pid) + kept(w.last().1@, instances_of(pid)).map_values(
            |i: NamedPipeInfo| i.client_data_fd,
        )
    }
}

/// The timers, reads and pipes of a process are gone.
pub open spec fn pipes_dropped(before: EventLoop, after: EventLoop, pid: u32) -> bool {
    &&& after == (EventLoop {
        ports: Ports { timers: after.ports.timers, ..before.ports },
        pipes: Pipes {
            reads: after.pipes.reads,
            completed_reads: after.pipes.completed_reads,
            named: after.pipes.named,
            ..before.pipes
        },
        outbox: after.outbox,
        ..before
    })
    &&& after.ports.timers@ == kept(before.ports.timers@, timers_of_others(pid))
    &&& after.pipes.reads@ == kept(before.pipes.reads@, reads_of_others(pid))
    &&& after.pipes.completed_reads@ == kept(before.pipes.completed_reads@, results_of_others(pid))
    &&& lists_kept(before.pipes.named@, after.pipes.named@, instances_of_others(pid))
    &&& exists|w: Seq<(String, Vec<NamedPipeInfo>)>|
        #![trigger by_name(w)]
        distinct(w) && by_name(w) == before.pipes.named@ && after.outbox@ == with_closes(
            with_closes(before.outbox@, read_fds(before.pipes.reads@, pid)),
            client_ends(w, pid),
        )
}

/// A thread belongs to a process.
pub open spec fn thread_of(s: EventLoop, tid: u32, pid: u32) -> bool {
    s.objects.threads@.contains_key(tid) && s.objects.threads@[tid].pid == pid
}

/// A window belongs to a thread of a process.
pub open spec fn window_of(s: EventLoop, h: u32, pid: u32) -> bool {
    s.desktop.window_states@.contains_key(h) && thread_of(s, s.desktop.window_states@[h].tid, pid)
}

/// The windows and threads of a process are gone, and with the windows all that was kept for them.
pub open spec fn windows_dropped(before: EventLoop, after: EventLoop, pid: u32) -> bool {
    let b = before.desktop;
    let a = after.desktop;
    &&& after == (EventLoop {
        objects: Objects { threads: after.objects.threads, ..before.objects },
        desktop: Desktop {
            window_states: a.window_states,
            window_properties: a.window_properties,
            clipboard_listeners: a.clipboard_listeners,
            timers_pending: a.timers_pending,
            timers_expired: a.timers_expired,
            ..b
        },
        outbox: after.outbox,
        ..before
    })
    &&& after.objects.threads@ == rest(
        before.objects.threads@,
        |t: u32, x: Thread| x.pid == pid,
    )
    &&& a.window_states@ == rest(
        b.window_states@,
        |h: u32, w: WindowState| thread_of(before, w.tid, pid),
    )
    &&& a.window_properties@ == rest(
        b.window_properties@,
        |k: (u32, u32), v: u64| window_of(before, k.0, pid),
    )
    &&& a.clipboard_listeners@ == rest(
        b.clipboard_listeners@,
        |h: u32, v: ()| window_of(before, h, pid),
    )
    &&& a.timers_pending@ == rest(b.timers_pending@, |h: u32, v: ()| window_of(before, h, pid))
    &&& a.timers_expired@ == rest(b.timers_expired@, |h: u32, v: ()| window_of(before, h, pid))
    &&& after.outbox@ == before.outbox@.push(Action::DropNotifications { pid })
}

pub struct TimersNotOf {
    pub pid: u32,
}

impl Keeps<NtTimer> for TimersNotOf {
    open spec fn keeps(&self, v: NtTimer) -> bool {
        v.pid != self.pid
    }

    fn keep(&self, v: &NtTimer) -> (r: bool) {
        v.pid != self.pid
    }
}

pub struct ReadsNotOf {
    pub pid: u32,
}

impl Keeps<AsyncPipeRead> for ReadsNotOf {
    open spec fn keeps(&self, v: AsyncPipeRead) -> bool {
        v.pid != self.pid
    }

    fn keep(&self, v: &AsyncPipeRead) -> (r: bool) {
        v.pid != self.pid
    }
}

pub struct ResultsNotOf {
    pub pid: u32,
}

impl Keeps<CompletedPipeRead> for ResultsNotOf {
    open spec fn keeps(&self, v: CompletedPipeRead) -> bool {
        v.pid != self.pid
    }

    fn keep(&self, v: &CompletedPipeRead) -> (r: bool) {
        v.pid != self.pid
    }
}

pub struct InstancesNotOf {
    pub pid: u32,
}

impl Keeps<NamedPipeInfo> for InstancesNotOf {
    open spec fn keeps(&self, v: NamedPipeInfo) -> bool {
        v.server_pid != self.pid
    }

    fn keep(&self, v: &NamedPipeInfo) -> (r: bool) {
        v.server_pid != self.pid
    }
}

/// Numbers other than one.
pub struct NotThis {
    pub x: u32,
}

impl Keeps<u32> for NotThis {
    open spec fn keeps(&self, v: u32) -> bool {
        v != self.x
    }

    fn keep(&self, v: &u32) -> (r: bool) {
        *v != self.x
    }
}

/// The threads of a process.
pub struct ThreadsOf {
    pub pid: u32,
}

impl Picks<u32, Thread> for ThreadsOf {
    open spec fn wants(&self, k: u32, v: Thread) -> bool {
        v.pid == self.pid
    }

    fn pick(&self, k: &u32, v: &Thread) -> (r: bool) {
        v.pid == self.pid
    }
}

/// The windows of some threads.
pub struct WindowsOf {
    pub tids: Vec<u32>,
}

impl Picks<u32, WindowState> for WindowsOf {
    open spec fn wants(&self, k: u32, v: WindowState) -> bool {
        self.tids@.contains(v.tid)
    }

    fn pick(&self, k: &u32, v: &WindowState) -> (r: bool) {
        holds(&self.tids, v.tid)
    }
}

/// What is kept for some windows.
pub struct KeptForWindows {
    pub handles: Vec<u32>,
}

impl Picks<u32, ()> for KeptForWindows {
    open spec fn wants(&self, k: u32, v: ()) -> bool {
        self.handles@.contains(k)
    }

    fn pick(&self, k: &u32, v: &()) -> (r: bool) {
        holds(&self.handles, *k)
    }
}

impl Picks<(u32, u32), u64> for KeptForWindows {
    open spec fn wants(&self, k: (u32, u32), v: u64) -> bool {
        self.handles@.contains(k.0)
    }

    fn pick(&self, k: &(u32, u32), v: &u64) -> (r: bool) {
        holds(&self.handles, k.0)
    }
}

/// The keys of pairs.
fn keys_of<V>(s: &Vec<(u32, V)>) -> (r: Vec<u32>)
    ensures
        r@ == s@.map_values(|e: (u32, V)| e.0),
{
    let mut r: Vec<u32> = Vec::new();
    let mut i: usize = 0;
    while i < s.len()
        invariant
            i <= s@.len(),
            r@ == s@.take(i as int).map_values(|e: (u32, V)| e.0),
        decreases s@.len() - i,
    {
        r.push(s[i].0);
        proof {
            assert(s@.take(i + 1).map_values(|e: (u32, V)| e.0) =~= s@.take(i as int).map_values(
                |e: (u32, V)| e.0,
            ).push(s@[i as int].0));
        }
        i = i + 1;
    }
    assert(s@.take(i as int) =~= s@);
    r
}

/// A list of the keys of pairs holds the keys of the map that they enumerate.
proof fn lemma_keys<V>(s: Seq<(u32, V)>, m: Map<u32, V>, k: u32)
    requires
        enumerates(s, m),
    ensures
        s.map_values(|e: (u32, V)| e.0).contains(k) <==> m.contains_key(k),
{
    let r = s.map_values(|e: (u32, V)| e.0);
    if r.contains(k) {
        let i = choose|i: int| 0 <= i < r.len() && r[i] == k;
        assert(m.contains_key(s[i].0));
    }
    if m.contains_key(k) {
        let i = choose|i: int| 0 <= i < s.len() && #[trigger] s[i].0 == k;
        assert(r[i] == k);
    }
}

impl EventLoop {
    /// Closes the descriptors of a list.
    fn close_all(&mut self, fds: &Vec<i32>)
        requires
            old(self).wf(),
        ensures
            final(self).wf(),
            *final(self) == (EventLoop { outbox: final(self).outbox, ..*old(self) }),
            final(self).outbox@ == with_closes(old(self).outbox@, fds@),
    {
        let mut i: usize = 0;
        while i < fds.len()
            invariant
                i <= fds@.len(),
                self.wf(),
                *self == (EventLoop { outbox: self.outbox, ..*old(self) }),
                self.outbox@ == with_closes(old(self).outbox@, fds@.take(i as int)),
            decreases fds@.len() - i,
        {
            self.outbox.push(Action::Close { fd: fds[i] });
            proof {
                assert(with_closes(old(self).outbox@, fds@.take(i + 1)) =~= with_closes(
                    old(self).outbox@,
                    fds@.take(i as int),
                ).push(Action::Close { fd: fds@[i as int] }));
            }
            i = i + 1;
        }
        assert(fds@.take(i as int) =~= fds@);
    }

    /// Lets the objects of a process go.
    fn drop_objects(&mut self, pid: u32, msg_fd: i32)
        requires
            old(self).wf(),
        ensures
            final(self).wf(),
            objects_dropped(*old(self), *final(self), pid, msg_fd),
    {
        let _ = self.clients.msg_fd_map.remove(msg_fd);
        let mut fds: Vec<i32> = Vec::new();
        let ghost pool = list_of(self.clients.inflight@, pid);
        match self.clients.inflight.remove(pid) {
            Some(list) => {
                let mut i: usize = 0;
                while i < list.len()
                    invariant
                        i <= list@.len(),
                        fds@ == inflight_fds(list@.take(i as int)),
                    decreases list@.len() - i,
                {
                    fds.push(list[i].2);
                    proof {
                        assert(inflight_fds(list@.take(i + 1)) =~= inflight_fds(
                            list@.take(i as int),
                        ).push(list@[i as int].2));
                    }
                    i = i + 1;
                }
                assert(list@.take(i as int) =~= list@);
            },
            None => {
                assert(inflight_fds(Seq::empty()) =~= Seq::empty());
            },
        }
        assert(fds@ == inflight_fds(pool));
        self.close_all(&fds);
        let _ = self.sync.recyclable.extract_owner(pid);
        let gone = self.sync.objects.extract_owner(pid);
        let ghost s1 = *self;
        let mut i: usize = 0;
        while i < gone.len()
            invariant
                i <= gone@.len(),
                self.wf(),
                *self == (EventLoop { outbox: self.outbox, ..s1 }),
                self.outbox@ == with_releases(s1.outbox@, gone@.take(i as int)),
            decreases gone@.len() - i,
        {
            self.outbox.push(Action::Release { object: gone[i].1.fd });
            proof {
                assert(with_releases(s1.outbox@, gone@.take(i + 1)) =~= with_releases(
                    s1.outbox@,
                    gone@.take(i as int),
                ).push(Action::Release { object: gone@[i as int].1.fd }));
            }
            i = i + 1;
        }
        assert(gone@.take(i as int) =~= gone@);
    }

    /// Forgets what is kept by handle for a process.
    fn forget_handles(&mut self, pid: u32)
        requires
            old(self).wf(),
        ensures
            final(self).wf(),
            handles_forgotten(*old(self), *final(self), pid),
    {
        let _ = self.pipes.pending_reads.extract_owner(pid);
        let _ = self.pipes.completed_ioctls.extract_owner(pid);
        let _ = self.objects.kernel_objects.extract_owner(pid);
        let _ = self.desktop.process_winstations.remove(pid);
        let mut fds: Vec<i32> = Vec::new();
        self.side_tables.purge_pid(pid, &mut fds);
        let ghost b = old(self).side_tables.pipe_handles@;
        let ghost s = choose|s: Seq<((u32, u32), PipeHandle)>| #[trigger]
            enumerates(s, part(b, owned(pid))) && fds@ == Seq::<i32>::empty() + data_fds(s);
        assert(fds@ =~= data_fds(s));
        self.close_all(&fds);
    }

    /// Drops the timers, reads and pipes of a process.
    #[verifier::rlimit(40)]
    fn drop_pipes(&mut self, pid: u32)
        requires
            old(self).wf(),
        ensures
            final(self).wf(),
            pipes_dropped(*old(self), *final(self), pid),
    {
        let timers = TimersNotOf { pid };
        keep_in(&mut self.ports.timers, &timers);
        assert(keeping::<NtTimer, TimersNotOf>(timers) =~= timers_of_others(pid));
        let fds = pending_fds(&self.pipes.reads, pid);
        self.close_all(&fds);
        let reads = ReadsNotOf { pid };
        keep_in(&mut self.pipes.reads, &reads);
        assert(keeping::<AsyncPipeRead, ReadsNotOf>(reads) =~= reads_of_others(pid));
        let results = ResultsNotOf { pid };
        keep_in(&mut self.pipes.completed_reads, &results);
        assert(keeping::<CompletedPipeRead, ResultsNotOf>(results) =~= results_of_others(pid));
        let ends = self.collect_client_ends(pid);
        let ghost w = self.pipes.named.walk();
        proof {
            self.pipes.named.lemma_walk();
            assert(by_name(w) == old(self).pipes.named@);
        }
        self.close_all(&ends);
        let instances = InstancesNotOf { pid };
        filter_named(&mut self.pipes.named, &instances);
        assert(keeping::<NamedPipeInfo, InstancesNotOf>(instances) =~= instances_of_others(pid));
    }

    /// The client ends of the instances of a process.
    fn collect_client_ends(&self, pid: u32) -> (r: Vec<i32>)
        requires
            self.wf(),
        ensures
            r@ == client_ends(self.pipes.named.walk(), pid),
    {
        let ghost w = self.pipes.named.walk();
        let mut r: Vec<i32> = Vec::new();
        let mut i: usize = 0;
        while i < self.pipes.named.len()
            invariant
                self.wf(),
                i <= w.len(),
                w == self.pipes.named.walk(),
                r@ == client_ends(w.take(i as int), pid),
            decreases w.len() - i,
        {
            let (_, list) = self.pipes.named.at(i);
            let ghost r0 = r@;
            let ghost q = list@;
            let mut j: usize = 0;
            while j < list.len()
                invariant
                    j <= q.len(),
                    q == list@,
                    r@ == r0 + kept(q.take(j as int), instances_of(pid)).map_values(
                        |i: NamedPipeInfo| i.client_data_fd,
                    ),
                decreases q.len() - j,
            {
                let x: NamedPipeInfo = list[j];
                if x.server_pid == pid {
                    r.push(x.client_data_fd);
                }
                proof {
                    assert(q.take(j + 1).drop_last() =~= q.take(j as int));
                    assert(r@ =~= r0 + kept(q.take(j + 1), instances_of(pid)).map_values(
                        |i: NamedPipeInfo| i.client_data_fd,
                    ));
                }
                j = j + 1;
            }
            proof {
                assert(q.take(j as int) =~= q);
                assert(w.take(i + 1).drop_last() =~= w.take(i as int));
                assert(w.take(i + 1).last() == w[i as int]);
            }
            i = i + 1;
        }
        assert(w.take(i as int) =~= w);
        r
    }

    /// Drops the windows and threads of a process.
    #[verifier::rlimit(40)]
    fn drop_windows(&mut self, pid: u32)
        requires
            old(self).wf(),
        ensures
            final(self).wf(),
            windows_dropped(*old(self), *final(self), pid),
    {
        let ghost s0 = *self;
        let dead = ThreadsOf { pid };
        let threads = self.objects.threads.extract(&dead);
        let tids = keys_of(&threads);
        proof {
            assert(wanted::<u32, Thread, ThreadsOf>(dead) =~= |t: u32, x: Thread| x.pid == pid);
            assert forall|t: u32| #[trigger] tids@.contains(t) <==> thread_of(s0, t, pid) by {
                lemma_keys(
                    threads@,
                    part(s0.objects.threads@, wanted::<u32, Thread, ThreadsOf>(dead)),
                    t,
                );
            }
        }
        let choice = WindowsOf { tids };
        let windows = self.desktop.window_states.extract(&choice);
        let handles = keys_of(&windows);
        proof {
            assert(wanted::<u32, WindowState, WindowsOf>(choice) =~= |h: u32, w: WindowState|
                thread_of(s0, w.tid, pid));
            assert forall|h: u32| #[trigger] handles@.contains(h) <==> window_of(s0, h, pid) by {
                lemma_keys(
                    windows@,
                    part(
                        s0.desktop.window_states@,
                        wanted::<u32, WindowState, WindowsOf>(choice),
                    ),
                    h,
                );
            }
        }
        let kept_for = KeptForWindows { handles };
        proof {
            assert(wanted::<u32, (), KeptForWindows>(kept_for) =~= |h: u32, v: ()|
                window_of(s0, h, pid));
            assert(wanted::<(u32, u32), u64, KeptForWindows>(kept_for) =~= |k: (u32, u32), v: u64|
                window_of(s0, k.0, pid));
        }
        let _ = self.desktop.clipboard_listeners.extract(&kept_for);
        let _ = self.desktop.window_properties.extract(&kept_for);
        let _ = self.desktop.timers_pending.extract(&kept_for);
        let _ = self.desktop.timers_expired.extract(&kept_for);
        self.outbox.push(Action::DropNotifications { pid });
    }
}

/// The pipes on which a process has reads pending.
fn pending_fds(s: &Vec<AsyncPipeRead>, pid: u32) -> (r: Vec<i32>)
    ensures
        r@ == read_fds(s@, pid),
{
    let mut r: Vec<i32> = Vec::new();
    let ghost q = s@;
    let mut i: usize = 0;
    while i < s.len()
        invariant
            i <= q.len(),
            q == s@,
            r@ == read_fds(q.take(i as int), pid),
        decreases q.len() - i,
    {
        let x: AsyncPipeRead = s[i];
        if x.pid == pid {
            r.push(x.pipe_fd);
        }
        proof {
            assert(q.take(i + 1).drop_last() =~= q.take(i as int));
            assert(r@ =~= read_fds(q.take(i + 1), pid));
        }
        i = i + 1;
    }
    assert(q.take(i as int) =~= q);
    r
}

/// The handles through which parents follow the start of a process.
pub open spec fn infos_of(pid: u32) -> spec_fn(u32, InfoHandle) -> bool {
    |h: u32, i: InfoHandle| i.target_pid == pid
}

/// The events of the parents that wait for a process to start.
pub open spec fn info_events(s: Seq<(u32, InfoHandle)>, pid: u32) -> Seq<(u32, u32)>
    decreases s.len(),
{
    if s.len() == 0 {
        Seq::empty()
    } else {
        let before = info_events(s.drop_last(), pid);
        if s.last().1.target_pid == pid {
            before.push((s.last().1.parent_pid, s.last().0))
        } else {
            before
        }
    }
}

/// Those that wait for a process are told of its end: for its start, if it never finished that; for
/// it to be idle; and for its end.
pub open spec fn end_signalled(before: EventLoop, after: EventLoop, pid: u32) -> bool {
    let started = before.objects.processes@.contains_key(pid)
        && before.objects.processes@[pid].startup_done;
    let idle = before.sync.idle_events@;
    &&& after == (EventLoop {
        sync: Sync {
            idle_events: after.sync.idle_events,
            process_exit: after.sync.process_exit,
            ..before.sync
        },
        outbox: after.outbox,
        ..before
    })
    &&& after.sync.idle_events@ == idle.remove(pid)
    &&& after.sync.process_exit@ == before.sync.process_exit@.remove(pid)
    &&& exists|s: Seq<(u32, InfoHandle)>| #[trigger]
        enumerates(s, before.objects.info_handles@) && after.outbox@ == ends_signalled(
            with_idle(
                with_signals(
                    before.sync.objects@,
                    before.outbox@,
                    if started {
                        Seq::empty()
                    } else {
                        info_events(s, pid)
                    },
                ),
                idle,
                pid,
            ),
            list_of(before.sync.process_exit@, pid),
        )
}

/// The event of a process that has become idle, or will never, is set and let go.
pub open spec fn with_idle(out: Seq<Action>, idle: Map<u32, i32>, pid: u32) -> Seq<Action> {
    if idle.contains_key(pid) {
        out.push(Action::SetEvent { object: idle[pid] }).push(Action::Release { object: idle[pid] })
    } else {
        out
    }
}

/// What threads that wait on a port are given of its messages.
pub struct Served {
    pub cache: Map<i32, CompletionMsg>,
    pub queue: Seq<CompletionMsg>,
    pub out: Seq<Action>,
}

/// The threads that wait on a port, the latest first, are given its messages, the first first. A
/// thread for which there is none is no longer waiting.
pub open spec fn served(s: Served, objects: Map<(u32, u32), SyncObject>, w: Seq<CompletionWaiter>) -> Served
    decreases w.len(),
{
    if w.len() == 0 {
        s
    } else if s.queue.len() == 0 {
        served(s, objects, w.drop_last())
    } else {
        served(
            Served {
                cache: s.cache.insert(w.last().client_fd, s.queue[0]),
                queue: s.queue.skip(1),
                out: with_signal(objects, s.out, w.last().pid, w.last().wait_handle),
            },
            objects,
            w.drop_last(),
        )
    }
}

/// All threads that wait on a port were served.
pub open spec fn port_served(before: EventLoop, after: EventLoop, port: u32) -> bool {
    let r = served(
        Served {
            cache: before.ports.cache@,
            queue: list_of(before.ports.queues@, port),
            out: before.outbox@,
        },
        before.sync.objects@,
        list_of(before.ports.waiters@, port),
    );
    &&& after == (EventLoop {
        ports: Ports {
            queues: after.ports.queues,
            waiters: after.ports.waiters,
            cache: after.ports.cache,
            ..before.ports
        },
        outbox: after.outbox,
        ..before
    })
    &&& after.ports.waiters@ == before.ports.waiters@.remove(port)
    &&& after.ports.cache@ == r.cache
    &&& after.outbox@ == r.out
    &&& if before.ports.queues@.contains_key(port) {
        &&& after.ports.queues@ == before.ports.queues@.insert(port, after.ports.queues@[port])
        &&& after.ports.queues@[port]@ == r.queue
    } else {
        after.ports.queues@ == before.ports.queues@
    }
}

/// A job has a process less.
pub open spec fn left(before: Job, after: Job, pid: u32) -> bool {
    &&& after == (Job {
        processes: after.processes,
        num_processes: if before.num_processes == 0 {
            0
        } else {
            (before.num_processes - 1) as u32
        },
        ..before
    })
    &&& after.processes@ == kept(before.processes@, other_than(pid))
}

/// A job's count is right after one of its processes has left.
pub proof fn lemma_leave_keeps_count(before: Job, after: Job, pid: u32)
    requires
        job_counts(before),
        before.processes@.contains(pid),
        left(before, after, pid),
    ensures
        job_counts(after),
        !after.processes@.contains(pid),
{
    lemma_without_one(before.processes@, pid);
    lemma_kept(before.processes@, other_than(pid), pid);
}

/// The process is gone from its job.
pub open spec fn job_left(before: EventLoop, after: EventLoop, pid: u32, oid: u64) -> bool {
    &&& after == (EventLoop {
        ports: Ports {
            jobs: after.ports.jobs,
            process_job: after.ports.process_job,
            ..before.ports
        },
        ..before
    })
    &&& after.ports.process_job@ == before.ports.process_job@.remove(pid)
    &&& if before.ports.jobs@.contains_key(oid) {
        &&& after.ports.jobs@.contains_key(oid)
        &&& after.ports.jobs@ == before.ports.jobs@.insert(oid, after.ports.jobs@[oid])
        &&& left(before.ports.jobs@[oid], after.ports.jobs@[oid], pid)
    } else {
        after.ports.jobs@ == before.ports.jobs@
    }
}

/// A message stands at the end of a port's queue.
pub open spec fn queued_message(before: EventLoop, after: EventLoop, port: u32, m: CompletionMsg) -> bool {
    &&& after == (EventLoop { ports: Ports { queues: after.ports.queues, ..before.ports }, ..before })
    &&& pushed(before.ports.queues@, after.ports.queues@, port, m)
}

/// The port of a job is told that a process has left, and that the job is empty, if it is.
pub open spec fn exit_posted(before: EventLoop, after: EventLoop, pid: u32, job: Job) -> bool {
    match job.completion_port_handle {
        None => after == before,
        Some(port) => {
            let m1 = CompletionMsg {
                ckey: job.completion_key,
                cvalue: pid as u64,
                information: 0,
                status: JOB_OBJECT_MSG_EXIT_PROCESS,
            };
            let m2 = CompletionMsg {
                ckey: job.completion_key,
                cvalue: 0,
                information: 0,
                status: JOB_OBJECT_MSG_ACTIVE_PROCESS_ZERO,
            };
            exists|s1: EventLoop, s2: EventLoop|
                #![trigger queued_message(before, s1, port, m1), port_served(s2, after, port)]
                queued_message(before, s1, port, m1) && (if job.num_processes == 0 {
                    queued_message(s1, s2, port, m2)
                } else {
                    s2 == s1
                }) && port_served(s2, after, port)
        },
    }
}

/// A process leaves its job, if it is in one.
pub open spec fn left_job(before: EventLoop, after: EventLoop, pid: u32) -> bool {
    let jobs = before.ports.process_job@;
    if jobs.contains_key(pid) {
        let oid = jobs[pid];
        exists|mid: EventLoop| #[trigger]
            job_left(before, mid, pid, oid) && if mid.ports.jobs@.contains_key(oid) {
                exit_posted(mid, after, pid, mid.ports.jobs@[oid])
            } else {
                after == mid
            }
    } else {
        after == (EventLoop {
            ports: Ports { process_job: after.ports.process_job, ..before.ports },
            ..before
        }) && after.ports.process_job@ == jobs
    }
}

/// A process of a user still runs.
pub open spec fn user_runs(s: EventLoop) -> bool {
    exists|p: u32| #[trigger]
        s.objects.processes@.contains_key(p) && !s.clients.system_pids@.contains_key(p)
            && s.objects.processes@[p].threads@.len() > 0
}

/// With the last process of a user the system's processes are told to stop, the registry is saved,
/// and the daemon waits for new processes for a while.
pub open spec fn last_user_noted(before: EventLoop, after: EventLoop, pid: u32, now: u64) -> bool {
    if before.clients.system_pids@.contains_key(pid) || user_runs(before) {
        after == before
    } else {
        &&& after == (EventLoop {
            clients: Clients { linger_deadline: after.clients.linger_deadline, ..before.clients },
            outbox: after.outbox,
            ..before
        })
        &&& after.clients.linger_deadline == Some(capped(now + LINGER_NS))
        &&& after.outbox@ == (match before.sync.shutdown_event {
            Some(object) => before.outbox@.push(Action::SetEvent { object }),
            None => before.outbox@,
        }).push(Action::SaveRegistry)
    }
}

/// The descriptors through which parents followed the start of a process.
pub open spec fn info_fds(s: Seq<(u32, InfoHandle)>) -> Seq<i32>
    decreases s.len(),
{
    if s.len() == 0 {
        Seq::empty()
    } else if s.last().1.object_fd >= 0 {
        info_fds(s.drop_last()).push(s.last().1.object_fd)
    } else {
        info_fds(s.drop_last())
    }
}

/// The process is gone.
pub open spec fn process_forgotten(before: EventLoop, after: EventLoop, pid: u32) -> bool {
    &&& after == (EventLoop {
        objects: Objects {
            processes: after.objects.processes,
            image_views: after.objects.image_views,
            info_handles: after.objects.info_handles,
            ..before.objects
        },
        clients: Clients { system_pids: after.clients.system_pids, ..before.clients },
        outbox: after.outbox,
        ..before
    })
    &&& after.clients.system_pids@ == before.clients.system_pids@.remove(pid)
    &&& after.objects.image_views@ == rest(before.objects.image_views@, owned(pid))
    &&& after.objects.info_handles@ == rest(before.objects.info_handles@, infos_of(pid))
    &&& after.objects.processes@ == before.objects.processes@.remove(pid)
    &&& exists|s: Seq<(u32, InfoHandle)>| #[trigger]
        enumerates(s, part(before.objects.info_handles@, infos_of(pid))) && after.outbox@ == with_closes(
            before.outbox@,
            info_fds(s),
        )
}

/// The parents' handles for one process.
pub struct InfosOf {
    pub pid: u32,
}

impl Picks<u32, InfoHandle> for InfosOf {
    open spec fn wants(&self, k: u32, v: InfoHandle) -> bool {
        v.target_pid == self.pid
    }

    fn pick(&self, k: &u32, v: &InfoHandle) -> (r: bool) {
        v.target_pid == self.pid
    }
}

/// A process has ended: its state is gone step by step.
pub open spec fn process_ended(before: EventLoop, after: EventLoop, pid: u32, msg_fd: i32, now: u64) -> bool {
    exists|
        s1: EventLoop,
        s2: EventLoop,
        s3: EventLoop,
        s4: EventLoop,
        s5: EventLoop,
        s6: EventLoop,
        s7: EventLoop,
    |
        #![trigger objects_dropped(before, s1, pid, msg_fd), handles_forgotten(s1, s2, pid), pipes_dropped(s2, s3, pid), windows_dropped(s3, s4, pid), end_signalled(s4, s5, pid), left_job(s5, s6, pid), last_user_noted(s6, s7, pid, now)]
        objects_dropped(before, s1, pid, msg_fd) && handles_forgotten(s1, s2, pid) && pipes_dropped(
            s2,
            s3,
            pid,
        ) && windows_dropped(s3, s4, pid) && end_signalled(s4, s5, pid) && left_job(s5, s6, pid)
            && last_user_noted(s6, s7, pid, now) && process_forgotten(s7, after, pid)
}

/// A client is disconnected: its thread is gone, and with its last thread the process.
pub open spec fn disconnected(before: EventLoop, after: EventLoop, fd: i32, senders: Seq<u32>, now: u64) -> bool {
    let c = before.clients.clients@;
    let pid = pid_of(c, fd);
    let tid = tid_of(c, fd);
    let msg_fd = if c.contains_key(fd) {
        c[fd].msg_fd
    } else {
        -1i32
    };
    exists|s1: EventLoop, s2: EventLoop, s3: EventLoop, s4: EventLoop|
        #![trigger client_dropped(before, s1, fd), thread_dropped(s1, s2, pid, tid), senders_told(s2, s3, senders), thread_forgotten(s3, s4, fd, tid)]
        client_dropped(before, s1, fd) && thread_dropped(s1, s2, pid, tid) && (if tid != 0 {
            senders_told(s2, s3, senders)
        } else {
            s3 == s2
        }) && thread_forgotten(s3, s4, fd, tid) && (if last_thread(s4, pid, tid) {
            process_ended(s4, after, pid, msg_fd, now)
        } else {
            after == s4
        })
}

/// The thread that is gone was the last of its process.
pub open spec fn last_thread(s: EventLoop, pid: u32, tid: u32) -> bool {
    &&& pid != 0
    &&& tid != 0
    &&& s.objects.processes@.contains_key(pid) ==> s.objects.processes@[pid].threads@.len() == 0
}

impl EventLoop {
    /// The events of the parents that wait for a process to start.
    fn collect_infos(&self, pid: u32) -> (r: Vec<(u32, u32)>)
        requires
            self.wf(),
        ensures
            r@ == info_events(self.objects.info_handles.walk(), pid),
    {
        let ghost w = self.objects.info_handles.walk();
        let mut r: Vec<(u32, u32)> = Vec::new();
        let mut i: usize = 0;
        while i < self.objects.info_handles.len()
            invariant
                self.wf(),
                i <= w.len(),
                w == self.objects.info_handles.walk(),
                r@ == info_events(w.take(i as int), pid),
            decreases w.len() - i,
        {
            let (h, x) = self.objects.info_handles.at(i);
            if x.target_pid == pid {
                r.push((x.parent_pid, *h));
            }
            proof {
                assert(w.take(i + 1).drop_last() =~= w.take(i as int));
            }
            i = i + 1;
        }
        assert(w.take(i as int) =~= w);
        r
    }

    /// Tells those that wait for a process of its end.
    fn signal_end(&mut self, pid: u32)
        requires
            old(self).wf(),
        ensures
            final(self).wf(),
            end_signalled(*old(self), *final(self), pid),
    {
        let started: bool = match self.objects.processes.get(pid) {
            Some(p) => p.startup_done,
            None => false,
        };
        let ghost w = self.objects.info_handles.walk();
        proof {
            self.objects.info_handles.lemma_walk();
        }
        if !started {
            let events = self.collect_infos(pid);
            self.signal_all(&events);
        }
        match self.sync.idle_events.remove(pid) {
            Some(object) => {
                self.outbox.push(Action::SetEvent { object });
                self.outbox.push(Action::Release { object });
            },
            None => {},
        }
        match self.sync.process_exit.remove(pid) {
            Some(events) => {
                self.signal_ends(&events);
            },
            None => {},
        }
        assert(enumerates(w, old(self).objects.info_handles@));
    }

    /// Gives the threads that wait on a port its messages.
    #[verifier::rlimit(40)]
    fn serve_port(&mut self, port: u32)
        requires
            old(self).wf(),
        ensures
            final(self).wf(),
            port_served(*old(self), *final(self), port),
    {
        let ghost s0 = Served {
            cache: self.ports.cache@,
            queue: list_of(self.ports.queues@, port),
            out: self.outbox@,
        };
        let ghost all = list_of(self.ports.waiters@, port);
        let ghost goal = served(s0, self.sync.objects@, all);
        let mut waiters: Vec<CompletionWaiter> = match self.ports.waiters.remove(port) {
            Some(w) => w,
            None => Vec::new(),
        };
        let known: bool = self.ports.queues.contains_key(port);
        let mut queue: Vec<CompletionMsg> = match self.ports.queues.remove(port) {
            Some(q) => q,
            None => Vec::new(),
        };
        let ghost s1 = *self;
        assert(waiters@ =~= all);
        assert(queue@ =~= s0.queue);
        while waiters.len() > 0
            invariant
                self.wf(),
                *self == (EventLoop {
                    ports: Ports { cache: self.ports.cache, ..s1.ports },
                    outbox: self.outbox,
                    ..s1
                }),
                s1.sync == old(self).sync,
                served(
                    Served { cache: self.ports.cache@, queue: queue@, out: self.outbox@ },
                    old(self).sync.objects@,
                    waiters@,
                ) == goal,
            decreases waiters@.len(),
        {
            let ghost w = waiters@;
            match waiters.pop() {
                Some(x) => {
                    assert(waiters@ =~= w.drop_last());
                    if queue.len() > 0 {
                        let ghost q = queue@;
                        let m = queue.remove(0);
                        assert(queue@ =~= q.skip(1));
                        self.ports.cache.insert(x.client_fd, m);
                        self.signal(x.pid, x.wait_handle);
                    }
                },
                None => {},
            }
        }
        if known {
            self.ports.queues.insert(port, queue);
        }
        assert(self.ports.queues@ =~= (if known {
            old(self).ports.queues@.insert(port, queue)
        } else {
            old(self).ports.queues@
        }));
    }

    /// Takes a process out of its job, and tells the job's port.
    #[verifier::rlimit(40)]
    fn leave_job(&mut self, pid: u32)
        requires
            old(self).wf(),
        ensures
            final(self).wf(),
            left_job(*old(self), *final(self), pid),
    {
        let oid: u64 = match self.ports.process_job.remove(pid) {
            Some(o) => o,
            None => {
                assert(self.ports.process_job@ =~= old(self).ports.process_job@);
                return;
            },
        };
        let choice = NotThis { x: pid };
        assert(keeping::<u32, NotThis>(choice) =~= other_than(pid));
        let (port, ckey, count): (Option<u32>, u64, u32) = match self.ports.jobs.get_mut(oid) {
            Some(job) => {
                keep_in(&mut job.processes, &choice);
                if job.num_processes > 0 {
                    job.num_processes = job.num_processes - 1;
                }
                (job.completion_port_handle, job.completion_key, job.num_processes)
            },
            None => (None, 0, 0),
        };
        let ghost mid = *self;
        assert(job_left(*old(self), mid, pid, oid));
        match port {
            Some(p) => {
                push_under(
                    &mut self.ports.queues,
                    p,
                    CompletionMsg {
                        ckey,
                        cvalue: pid as u64,
                        information: 0,
                        status: JOB_OBJECT_MSG_EXIT_PROCESS,
                    },
                );
                let ghost s1 = *self;
                assert(queued_message(
                    mid,
                    s1,
                    p,
                    CompletionMsg {
                        ckey,
                        cvalue: pid as u64,
                        information: 0,
                        status: JOB_OBJECT_MSG_EXIT_PROCESS,
                    },
                ));
                if count == 0 {
                    push_under(
                        &mut self.ports.queues,
                        p,
                        CompletionMsg {
                            ckey,
                            cvalue: 0,
                            information: 0,
                            status: JOB_OBJECT_MSG_ACTIVE_PROCESS_ZERO,
                        },
                    );
                }
                let ghost s2 = *self;
                self.serve_port(p);
                assert(port_served(s2, *self, p));
            },
            None => {},
        }
    }

    /// Whether a process of a user still runs.
    fn any_user_runs(&self) -> (r: bool)
        requires
            self.wf(),
        ensures
            r == user_runs(*self),
    {
        let ghost w = self.objects.processes.walk();
        proof {
            self.objects.processes.lemma_walk();
        }
        let mut i: usize = 0;
        while i < self.objects.processes.len()
            invariant
                self.wf(),
                i <= w.len(),
                w == self.objects.processes.walk(),
                enumerates(w, self.objects.processes@),
                forall|j: int|
                    #![trigger w[j]]
                    0 <= j < i ==> self.clients.system_pids@.contains_key(w[j].0)
                        || w[j].1.threads@.len() == 0,
            decreases w.len() - i,
        {
            let (p, x) = self.objects.processes.at(i);
            if x.threads.len() > 0 && !self.clients.system_pids.contains_key(*p) {
                assert(self.objects.processes@.contains_key(w[i as int].0));
                return true;
            }
            i = i + 1;
        }
        assert forall|p: u32| #[trigger] self.objects.processes@.contains_key(p) implies self.clients.system_pids@.contains_key(p)
            || self.objects.processes@[p].threads@.len() == 0 by {
            let j = choose|j: int| 0 <= j < w.len() && #[trigger] w[j].0 == p;
            assert(self.objects.processes@[w[j].0] == w[j].1);
        }
        false
    }

    /// Takes note that a process of a user may have been the last.
    fn note_last_user(&mut self, pid: u32, now: u64)
        requires
            old(self).wf(),
        ensures
            final(self).wf(),
            last_user_noted(*old(self), *final(self), pid, now),
    {
        if self.clients.system_pids.contains_key(pid) || self.any_user_runs() {
            return;
        }
        match self.sync.shutdown_event {
            Some(object) => {
                self.outbox.push(Action::SetEvent { object });
            },
            None => {},
        }
        self.outbox.push(Action::SaveRegistry);
        let deadline: u64 = if now > u64::MAX - LINGER_NS {
            u64::MAX
        } else {
            now + LINGER_NS
        };
        self.clients.linger_deadline = Some(deadline);
    }

    /// Forgets a process.
    fn forget_process(&mut self, pid: u32)
        requires
            old(self).wf(),
        ensures
            final(self).wf(),
            process_forgotten(*old(self), *final(self), pid),
    {
        let _ = self.clients.system_pids.remove(pid);
        let _ = self.objects.image_views.extract_owner(pid);
        let choice = InfosOf { pid };
        let gone = self.objects.info_handles.extract(&choice);
        assert(wanted::<u32, InfoHandle, InfosOf>(choice) =~= infos_of(pid));
        let mut fds: Vec<i32> = Vec::new();
        let mut i: usize = 0;
        while i < gone.len()
            invariant
                i <= gone@.len(),
                fds@ == info_fds(gone@.take(i as int)),
            decreases gone@.len() - i,
        {
            if gone[i].1.object_fd >= 0 {
                fds.push(gone[i].1.object_fd);
            }
            proof {
                assert(gone@.take(i + 1).drop_last() =~= gone@.take(i as int));
            }
            i = i + 1;
        }
        assert(gone@.take(i as int) =~= gone@);
        self.close_all(&fds);
        let _ = self.objects.processes.remove(pid);
    }

    /// Ends a process.
    fn end_process(&mut self, pid: u32, msg_fd: i32, now: u64)
        requires
            old(self).wf(),
        ensures
            final(self).wf(),
            process_ended(*old(self), *final(self), pid, msg_fd, now),
    {
        self.drop_objects(pid, msg_fd);
        self.forget_handles(pid);
        self.drop_pipes(pid);
        self.drop_windows(pid);
        self.signal_end(pid);
        self.leave_job(pid);
        self.note_last_user(pid, now);
        self.forget_process(pid);
    }

    /// Disconnects a client. `senders` are the threads whose messages to the client's thread will never
    /// be answered. What the client holds is handed back, to be closed.
    pub fn disconnect_client(&mut self, fd: i32, senders: &Vec<u32>, now: u64) -> (r: Option<Client>)
        requires
            old(self).wf(),
        ensures
            final(self).wf(),
            disconnected(*old(self), *final(self), fd, senders@, now),
            r == (if old(self).clients.clients@.contains_key(fd) {
                Some(old(self).clients.clients@[fd])
            } else {
                None
            }),
    {
        let pid: u32 = self.client_pid(fd);
        let tid: u32 = match self.client_thread_id(fd) {
            Some(t) => t,
            None => 0,
        };
        let msg_fd: i32 = match self.clients.clients.get(fd) {
            Some(c) => c.msg_fd,
            None => -1,
        };
        let r = self.drop_client(fd);
        let ghost s1 = *self;
        self.drop_thread(pid, tid);
        let ghost s2 = *self;
        if tid != 0 {
            self.tell_senders(senders);
        }
        let ghost s3 = *self;
        self.forget_thread(fd, tid);
        let ghost s4 = *self;
        proof {
            assert(client_dropped(*old(self), s1, fd));
            assert(thread_dropped(s1, s2, pid, tid));
            assert(thread_forgotten(s3, s4, fd, tid));
            let told = senders_told(s2, s3, senders@);
        }
        let left: usize = match self.objects.processes.get(pid) {
            Some(p) => p.threads.len(),
            None => 0,
        };
        if pid != 0 && tid != 0 && left == 0 {
            self.end_process(pid, msg_fd, now);
        }
        r
    }
}

/// Nothing of a client is left once it is disconnected.
pub proof fn lemma_client_gone(before: EventLoop, after: EventLoop, fd: i32)
    requires
        client_dropped(before, after, fd),
    ensures
        !after.clients.clients@.contains_key(fd),
        !after.sync.alerts@.contains_key(fd),
        !after.sync.interrupts@.contains_key(fd),
        !after.sync.apc_flags@.contains_key(fd),
        pid_of(after.clients.clients@, fd) == 0,
{
}

/// Nothing that is kept by process is left of a process that has ended.
pub proof fn lemma_process_gone(before: EventLoop, after: EventLoop, pid: u32, msg_fd: i32, now: u64)
    requires
        process_ended(before, after, pid, msg_fd, now),
    ensures
        !after.objects.processes@.contains_key(pid),
        !after.ports.process_job@.contains_key(pid),
        !after.sync.process_exit@.contains_key(pid),
        !after.clients.inflight@.contains_key(pid),
        !after.clients.system_pids@.contains_key(pid),
        !after.desktop.process_winstations@.contains_key(pid),
        forall|h: u32| !#[trigger] after.sync.objects@.contains_key((pid, h)),
        forall|h: u32| !#[trigger] after.sync.recyclable@.contains_key((pid, h)),
        forall|h: u32, k: u32| !#[trigger] after.objects.kernel_objects@.contains_key((pid, h, k)),
        forall|a: u64| !#[trigger] after.objects.image_views@.contains_key((pid, a)),
        forall|h: u32| !#[trigger] after.side_tables.pipe_handles@.contains_key((pid, h)),
        forall|h: u32| !#[trigger] after.side_tables.io_wait_handles@.contains_key((pid, h)),
        forall|h: u32| !#[trigger] after.side_tables.fd_sent@.contains_key((pid, h)),
        forall|h: u32| !#[trigger] after.side_tables.completion_bindings@.contains_key((pid, h)),
        forall|u: u64| !#[trigger] after.pipes.pending_reads@.contains_key((pid, u)),
        forall|u: u64| !#[trigger] after.pipes.completed_ioctls@.contains_key((pid, u)),
        forall|i: int|
            #![trigger after.ports.timers@[i]]
            0 <= i < after.ports.timers@.len() ==> after.ports.timers@[i].pid != pid,
        forall|i: int|
            #![trigger after.pipes.reads@[i]]
            0 <= i < after.pipes.reads@.len() ==> after.pipes.reads@[i].pid != pid,
        forall|t: u32| #[trigger]
            after.objects.threads@.contains_key(t) ==> after.objects.threads@[t].pid != pid,
        forall|n: Seq<char>, i: int|
            #![trigger after.pipes.named@[n]@[i]]
            after.pipes.named@.contains_key(n) && 0 <= i < after.pipes.named@[n]@.len()
                ==> after.pipes.named@[n]@[i].server_pid != pid,
{
    let (s1, s2, s3, s4, s5, s6, s7) = choose|
        s1: EventLoop,
        s2: EventLoop,
        s3: EventLoop,
        s4: EventLoop,
        s5: EventLoop,
        s6: EventLoop,
        s7: EventLoop,
    |
        #![trigger objects_dropped(before, s1, pid, msg_fd), handles_forgotten(s1, s2, pid), pipes_dropped(s2, s3, pid), windows_dropped(s3, s4, pid), end_signalled(s4, s5, pid), left_job(s5, s6, pid), last_user_noted(s6, s7, pid, now)]
        objects_dropped(before, s1, pid, msg_fd) && handles_forgotten(s1, s2, pid) && pipes_dropped(
            s2,
            s3,
            pid,
        ) && windows_dropped(s3, s4, pid) && end_signalled(s4, s5, pid) && left_job(s5, s6, pid)
            && last_user_noted(s6, s7, pid, now) && process_forgotten(s7, after, pid);
    assert(process_forgotten(s7, after, pid));
    lemma_job_left_frame(s5, s6, pid);
    assert forall|i: int|
        #![trigger after.ports.timers@[i]]
        0 <= i < after.ports.timers@.len() implies after.ports.timers@[i].pid != pid by {
        let k = after.ports.timers@;
        assert(k == kept(s2.ports.timers@, timers_of_others(pid)));
        assert(k.contains(k[i]));
        lemma_kept(s2.ports.timers@, timers_of_others(pid), k[i]);
    }
    assert forall|i: int|
        #![trigger after.pipes.reads@[i]]
        0 <= i < after.pipes.reads@.len() implies after.pipes.reads@[i].pid != pid by {
        let k = after.pipes.reads@;
        assert(k == kept(s2.pipes.reads@, reads_of_others(pid)));
        assert(k.contains(k[i]));
        lemma_kept(s2.pipes.reads@, reads_of_others(pid), k[i]);
    }
    assert forall|n: Seq<char>, i: int|
        #![trigger after.pipes.named@[n]@[i]]
        after.pipes.named@.contains_key(n) && 0 <= i < after.pipes.named@[n]@.len() implies after.pipes.named@[n]@[i].server_pid
        != pid by {
        let l = s2.pipes.named@[n]@;
        let k = kept(l, instances_of_others(pid));
        assert(s3.pipes.named@.contains_key(n));
        assert(after.pipes.named@[n]@ == k);
        assert(k.contains(k[i]));
        lemma_kept(l, instances_of_others(pid), k[i]);
    }
}

proof fn lemma_job_left_frame(before: EventLoop, after: EventLoop, pid: u32)
    requires
        left_job(before, after, pid),
    ensures
        !after.ports.process_job@.contains_key(pid),
        after.ports.timers == before.ports.timers,
        after.sync == before.sync,
        after.pipes == before.pipes,
        after.desktop == before.desktop,
        after.clients == before.clients,
        after.objects == before.objects,
        after.side_tables == before.side_tables,
{
}

/// The numbers of a job's messages, the bit of a queue that says that a sent message has its result, and how
/// long the daemon waits for a new process: five seconds.
pub proof fn lemma_numbers_at_the_end()
    ensures
        JOB_OBJECT_MSG_EXIT_PROCESS == 4,
        JOB_OBJECT_MSG_ACTIVE_PROCESS_ZERO == 8,
        QS_SMRESULT == 0x8000,
        LINGER_NS == 5 * 1000 * 1000 * 1000,
{
}

proof fn lemma_kills(out: Seq<Action>, w: Seq<((u32, u32), SyncObject)>, pid: u32, tid: u32)
    ensures
        with_kills(out, w, pid, tid).len() >= out.len(),
        with_kills(out, w, pid, tid).take(out.len() as int) == out,
        forall|k: int|
            0 <= k < w.len() && (#[trigger] w[k]).0.0 == pid && w[k].1.kind == 3 ==> with_kills(
                out,
                w,
                pid,
                tid,
            ).contains(Action::KillMutex { object: w[k].1.fd, owner: tid }),
        forall|i: int|
            out.len() <= i < with_kills(out, w, pid, tid).len() ==> exists|k: int|
                0 <= k < w.len() && (#[trigger] w[k]).0.0 == pid && w[k].1.kind == 3 && #[trigger] with_kills(
                    out,
                    w,
                    pid,
                    tid,
                )[i] == (Action::KillMutex { object: w[k].1.fd, owner: tid }),
    decreases w.len(),
{
    let all = with_kills(out, w, pid, tid);
    if w.len() > 0 {
        let d = w.drop_last();
        let before = with_kills(out, d, pid, tid);
        lemma_kills(out, d, pid, tid);
        assert(all.take(out.len() as int) =~= before.take(out.len() as int));
        assert forall|k: int|
            0 <= k < w.len() && (#[trigger] w[k]).0.0 == pid && w[k].1.kind == 3 implies all.contains(
            Action::KillMutex { object: w[k].1.fd, owner: tid },
        ) by {
            if k == w.len() - 1 {
                assert(all[all.len() - 1] == Action::KillMutex { object: w[k].1.fd, owner: tid });
            } else {
                assert(d[k] == w[k]);
                let j = choose|j: int|
                    0 <= j < before.len() && before[j] == (Action::KillMutex {
                        object: d[k].1.fd,
                        owner: tid,
                    });
                assert(all[j] == before[j]);
            }
        }
        assert forall|i: int| out.len() <= i < all.len() implies exists|k: int|
            0 <= k < w.len() && (#[trigger] w[k]).0.0 == pid && w[k].1.kind == 3 && #[trigger] all[i] == (
            Action::KillMutex { object: w[k].1.fd, owner: tid }) by {
            if i < before.len() {
                assert(all[i] == before[i]);
                let k = choose|k: int|
                    0 <= k < d.len() && (#[trigger] d[k]).0.0 == pid && d[k].1.kind == 3 && before[i] == (
                    Action::KillMutex { object: d[k].1.fd, owner: tid });
                assert(w[k] == d[k]);
            } else {
                assert(w[w.len() - 1].0.0 == pid);
            }
        }
    } else {
        assert(all.take(out.len() as int) =~= out);
    }
}

/// When a thread goes, each mutex of its process is abandoned on its behalf, its slot of the queues is freed
/// last, and the objects through which it was woken are let go.
pub proof fn lemma_mutexes_are_abandoned(before: EventLoop, after: EventLoop, fd: i32, handle: u32)
    requires
        client_dropped(before, after, fd),
        tid_of(before.clients.clients@, fd) != 0,
    ensures
        ({
            let pid = pid_of(before.clients.clients@, fd);
            let tid = tid_of(before.clients.clients@, fd);
            &&& before.sync.objects@.contains_key((pid, handle)) && before.sync.objects@[(pid, handle)].kind == 3
                ==> after.outbox@.contains(
                Action::KillMutex { object: before.sync.objects@[(pid, handle)].fd, owner: tid },
            )
            &&& after.outbox@.last() == (Action::FreeSlot { tid })
            &&& before.sync.alerts@.contains_key(fd) ==> after.outbox@.contains(
                Action::Release { object: before.sync.alerts@[fd] },
            )
            &&& before.sync.interrupts@.contains_key(fd) ==> after.outbox@.contains(
                Action::Release { object: before.sync.interrupts@[fd] },
            )
        }),
{
    let pid = pid_of(before.clients.clients@, fd);
    let tid = tid_of(before.clients.clients@, fd);
    let out1 = with_release(before.outbox@, before.sync.alerts@, fd);
    let out = with_release(out1, before.sync.interrupts@, fd);
    let w = choose|w: Seq<((u32, u32), SyncObject)>| #[trigger]
        enumerates(w, before.sync.objects@) && after.outbox@ == with_kills(out, w, pid, tid).push(
            Action::FreeSlot { tid },
        );
    lemma_kills(out, w, pid, tid);
    let k = with_kills(out, w, pid, tid);
    if before.sync.objects@.contains_key((pid, handle)) && before.sync.objects@[(pid, handle)].kind == 3 {
        let i = choose|i: int| 0 <= i < w.len() && #[trigger] w[i].0 == (pid, handle);
        assert(w[i].1 == before.sync.objects@[(pid, handle)]);
        let a = Action::KillMutex { object: w[i].1.fd, owner: tid };
        let j = choose|j: int| 0 <= j < k.len() && k[j] == a;
        assert(after.outbox@[j] == a);
    }
    if before.sync.alerts@.contains_key(fd) {
        let n = out1.len() - 1;
        assert(out[n] == out1[n]);
        assert(k[n] == k.take(out.len() as int)[n]);
        assert(after.outbox@[n] == out1[n]);
    }
    if before.sync.interrupts@.contains_key(fd) {
        let n = out.len() - 1;
        assert(k[n] == k.take(out.len() as int)[n]);
        assert(after.outbox@[n] == out[n]);
    }
}

/// A process keeps exactly those of its threads that are connected, but for the one that is gone.
pub proof fn lemma_threads_that_stay(before: EventLoop, after: EventLoop, pid: u32, tid: u32, t: u32)
    requires
        thread_dropped(before, after, pid, tid),
        pid != 0,
        tid != 0,
        before.objects.processes@.contains_key(pid),
    ensures
        after.objects.processes@.contains_key(pid),
        after.objects.processes@[pid].threads@.contains(t) <==> before.objects.processes@[pid].threads@.contains(t)
            && t != tid && t != 0 && exists|fd: i32| #[trigger]
            before.clients.clients@.contains_key(fd) && before.clients.clients@[fd].process_id == pid
                && before.clients.clients@[fd].thread_id == t,
        after.objects.processes@[pid].handles == before.objects.processes@[pid].handles,
{
    lemma_kept(
        before.objects.processes@[pid].threads@,
        staying(before.clients.clients@, pid, tid),
        t,
    );
}

/// The bits of a thread's queue are set where the queue stands: the place is the second word of its locator.
pub proof fn lemma_queue_bits_written(before: EventLoop, after: EventLoop, c: Client, bits: u32)
    ensures
        queue_written(before, after, c, bits) ==> after.outbox@.len() == before.outbox@.len() + 1
            && after.outbox@.last() == (Action::QueueBits { offset: u64_at(c.queue_locator@, 8), bits }),
        queue_cleared_of(before, after, c, bits) ==> after.outbox@.len() == before.outbox@.len() + 1
            && after.outbox@.last() == (Action::ClearQueueBits { offset: u64_at(c.queue_locator@, 8), bits }),
{
}

/// Everyone who waits for an end is told of it, and only then are the events let go.
pub proof fn lemma_ends_are_told(out: Seq<Action>, s: Seq<ExitEvent>, k: int)
    requires
        0 <= k < s.len(),
    ensures
        ends_signalled(out, s).len() == out.len() + 2 * s.len(),
        ends_signalled(out, s)[out.len() + 2 * k] == (Action::SetEvent { object: s[k].object }),
        ends_signalled(out, s)[out.len() + 2 * k + 1] == (Action::Release { object: s[k].object }),
    decreases s.len(),
{
    let d = s.drop_last();
    if d.len() == 0 {
        assert(ends_signalled(out, d) == out);
    } else {
        lemma_ends_are_told(
            out,
            d,
            if k < d.len() {
                k
            } else {
                0
            },
        );
    }
}

/// A thread that is gone waits on no port any more; the others wait as they did.
pub proof fn lemma_gone_waits_on_no_port(
    before: EventLoop,
    after: EventLoop,
    fd: i32,
    tid: u32,
    port: u32,
    w: CompletionWaiter,
)
    requires
        thread_forgotten(before, after, fd, tid),
    ensures
        list_of(after.ports.waiters@, port).contains(w) <==> list_of(before.ports.waiters@, port).contains(w)
            && w.client_fd != fd,
        !after.ports.cache@.contains_key(fd),
        !after.sync.deferred@.contains_key(fd) && !after.sync.pending_wakes@.contains_key(fd)
            && !after.sync.kernel_apcs@.contains_key(fd) && !after.sync.thread_exit@.contains_key(fd),
        tid != 0 ==> !after.desktop.caret_state@.contains_key(tid) && !after.desktop.next_timer_ids@.contains_key(
            tid,
        ) && !after.desktop.thread_quit_state@.contains_key(tid),
        forall|k: int|
            0 <= k < list_of(before.sync.thread_exit@, fd).len() ==> after.outbox@.contains(
                Action::SetEvent { object: (#[trigger] list_of(before.sync.thread_exit@, fd)[k]).object },
            ),
{
    if before.ports.waiters@.contains_key(port) {
        assert(after.ports.waiters@.dom().contains(port));
        lemma_kept(before.ports.waiters@[port]@, waits_of_others(fd), w);
    } else {
        assert(!after.ports.waiters@.dom().contains(port));
    }
    let s = list_of(before.sync.thread_exit@, fd);
    assert forall|k: int| 0 <= k < s.len() implies after.outbox@.contains(
        Action::SetEvent { object: (#[trigger] s[k]).object },
    ) by {
        lemma_ends_are_told(before.outbox@, s, k);
    }
}

/// With a process each of its objects is let go, and each descriptor that nobody took is closed.
pub proof fn lemma_objects_are_let_go(before: EventLoop, after: EventLoop, pid: u32, msg_fd: i32, handle: u32, k: int)
    requires
        objects_dropped(before, after, pid, msg_fd),
    ensures
        before.sync.objects@.contains_key((pid, handle)) ==> after.outbox@.contains(
            Action::Release { object: before.sync.objects@[(pid, handle)].fd },
        ),
        0 <= k < list_of(before.clients.inflight@, pid).len() ==> after.outbox@.contains(
            Action::Close { fd: list_of(before.clients.inflight@, pid)[k].2 },
        ),
        forall|key: (u32, u32)|
            key.0 != pid ==> (#[trigger] after.sync.objects@.contains_key(key)
                <==> before.sync.objects@.contains_key(key)),
        !after.clients.msg_fd_map@.contains_key(msg_fd) && !after.clients.inflight@.contains_key(pid),
{
    let fds = inflight_fds(list_of(before.clients.inflight@, pid));
    let out = with_closes(before.outbox@, fds);
    let s = choose|s: Seq<((u32, u32), SyncObject)>| #[trigger]
        enumerates(s, part(before.sync.objects@, owned(pid))) && after.outbox@ == with_releases(out, s);
    if before.sync.objects@.contains_key((pid, handle)) {
        assert(part(before.sync.objects@, owned(pid)).contains_key((pid, handle)));
        let i = choose|i: int| 0 <= i < s.len() && #[trigger] s[i].0 == (pid, handle);
        assert(after.outbox@[out.len() + i] == Action::Release { object: s[i].1.fd });
    }
    if 0 <= k < fds.len() {
        assert(out[before.outbox@.len() + k] == Action::Close { fd: fds[k] });
        assert(after.outbox@[before.outbox@.len() + k] == Action::Close { fd: fds[k] });
    }
}

/// With a process its timers, reads and results go, and no others; the pipes of its reads are closed.
pub proof fn lemma_timers_and_reads_go(
    before: EventLoop,
    after: EventLoop,
    pid: u32,
    t: NtTimer,
    r: AsyncPipeRead,
    c: CompletedPipeRead,
)
    requires
        pipes_dropped(before, after, pid),
    ensures
        after.ports.timers@.contains(t) <==> before.ports.timers@.contains(t) && t.pid != pid,
        after.pipes.reads@.contains(r) <==> before.pipes.reads@.contains(r) && r.pid != pid,
        after.pipes.completed_reads@.contains(c) <==> before.pipes.completed_reads@.contains(c) && c.pid != pid,
        before.pipes.reads@.contains(r) && r.pid == pid ==> after.outbox@.contains(
            Action::Close { fd: r.pipe_fd },
        ),
{
    lemma_kept(before.ports.timers@, timers_of_others(pid), t);
    lemma_kept(before.pipes.reads@, reads_of_others(pid), r);
    lemma_kept(before.pipes.completed_reads@, results_of_others(pid), c);
    lemma_kept(before.pipes.reads@, reads_of(pid), r);
    let w = choose|w: Seq<(String, Vec<NamedPipeInfo>)>|
        #![trigger by_name(w)]
        distinct(w) && by_name(w) == before.pipes.named@ && after.outbox@ == with_closes(
            with_closes(before.outbox@, read_fds(before.pipes.reads@, pid)),
            client_ends(w, pid),
        );
    if before.pipes.reads@.contains(r) && r.pid == pid {
        let own = kept(before.pipes.reads@, reads_of(pid));
        let i = choose|i: int| 0 <= i < own.len() && own[i] == r;
        assert(read_fds(before.pipes.reads@, pid)[i] == r.pipe_fd);
        assert(after.outbox@[before.outbox@.len() + i] == Action::Close { fd: r.pipe_fd });
    }
}

/// With a process its threads go, and the windows of those threads with what was kept for them; nothing of
/// another process goes.
pub proof fn lemma_windows_go(before: EventLoop, after: EventLoop, pid: u32, h: u32, tid: u32, p: u32)
    requires
        windows_dropped(before, after, pid),
    ensures
        after.objects.threads@.contains_key(tid) <==> before.objects.threads@.contains_key(tid)
            && before.objects.threads@[tid].pid != pid,
        before.desktop.window_states@.contains_key(h) && before.desktop.window_states@[h].tid == tid
            && before.objects.threads@.contains_key(tid) && before.objects.threads@[tid].pid == pid
            ==> !after.desktop.window_states@.contains_key(h) && !after.desktop.window_properties@.contains_key(
            (h, p),
        ) && !after.desktop.clipboard_listeners@.contains_key(h) && !after.desktop.timers_pending@.contains_key(h)
            && !after.desktop.timers_expired@.contains_key(h),
        before.desktop.window_states@.contains_key(h) && before.desktop.window_states@[h].tid == tid && !(
        before.objects.threads@.contains_key(tid) && before.objects.threads@[tid].pid == pid)
            ==> after.desktop.window_states@.contains_key(h) && after.desktop.window_states@[h]
            == before.desktop.window_states@[h] && (before.desktop.window_properties@.contains_key((h, p))
            ==> after.desktop.window_properties@.contains_key((h, p))),
        after.outbox@ == before.outbox@.push(Action::DropNotifications { pid }),
{
}

proof fn lemma_info_told(s: Seq<(u32, InfoHandle)>, pid: u32, k: int)
    requires
        0 <= k < s.len(),
        s[k].1.target_pid == pid,
    ensures
        info_events(s, pid).contains((s[k].1.parent_pid, s[k].0)),
    decreases s.len(),
{
    let all = info_events(s, pid);
    let before = info_events(s.drop_last(), pid);
    if k == s.len() - 1 {
        assert(all[all.len() - 1] == (s[k].1.parent_pid, s[k].0));
    } else {
        lemma_info_told(s.drop_last(), pid, k);
        let j = choose|j: int| 0 <= j < before.len() && before[j] == (s[k].1.parent_pid, s[k].0);
        assert(all[j] == before[j]);
    }
}

/// Those that wait for a process to end, or to be idle, are told when it ends; so are, where it never finished
/// its start, the parents that wait for that.
pub proof fn lemma_process_end_is_told(before: EventLoop, after: EventLoop, pid: u32, k: int, info: u32)
    requires
        end_signalled(before, after, pid),
    ensures
        0 <= k < list_of(before.sync.process_exit@, pid).len() ==> after.outbox@.contains(
            Action::SetEvent { object: list_of(before.sync.process_exit@, pid)[k].object },
        ),
        before.sync.idle_events@.contains_key(pid) ==> after.outbox@.contains(
            Action::SetEvent { object: before.sync.idle_events@[pid] },
        ),
        !after.sync.idle_events@.contains_key(pid) && !after.sync.process_exit@.contains_key(pid),
        !(before.objects.processes@.contains_key(pid) && before.objects.processes@[pid].startup_done)
            && before.objects.info_handles@.contains_key(info)
            && before.objects.info_handles@[info].target_pid == pid && before.sync.objects@.contains_key(
            (before.objects.info_handles@[info].parent_pid, info),
        ) ==> after.outbox@.contains(
            Action::SetEvent {
                object: before.sync.objects@[(before.objects.info_handles@[info].parent_pid, info)].fd,
            },
        ),
{
    let started = before.objects.processes@.contains_key(pid) && before.objects.processes@[pid].startup_done;
    let idle = before.sync.idle_events@;
    let exits = list_of(before.sync.process_exit@, pid);
    let s = choose|s: Seq<(u32, InfoHandle)>| #[trigger]
        enumerates(s, before.objects.info_handles@) && after.outbox@ == ends_signalled(
            with_idle(
                with_signals(
                    before.sync.objects@,
                    before.outbox@,
                    if started {
                        Seq::empty()
                    } else {
                        info_events(s, pid)
                    },
                ),
                idle,
                pid,
            ),
            exits,
        );
    let events = if started {
        Seq::empty()
    } else {
        info_events(s, pid)
    };
    let o1 = with_signals(before.sync.objects@, before.outbox@, events);
    let o2 = with_idle(o1, idle, pid);
    if 0 <= k < exits.len() {
        lemma_ends_are_told(o2, exits, k);
    }
    lemma_ends_keep(o2, exits);
    if idle.contains_key(pid) {
        assert(o2[o1.len() as int] == Action::SetEvent { object: idle[pid] });
        assert(after.outbox@[o1.len() as int] == o2[o1.len() as int]);
    }
    if !started && before.objects.info_handles@.contains_key(info)
        && before.objects.info_handles@[info].target_pid == pid {
        let i = choose|i: int| 0 <= i < s.len() && #[trigger] s[i].0 == info;
        lemma_info_told(s, pid, i);
        let parent = before.objects.info_handles@[info].parent_pid;
        let j = choose|j: int| 0 <= j < events.len() && events[j] == (parent, info);
        if before.sync.objects@.contains_key((parent, info)) {
            lemma_signal_sent(before.sync.objects@, before.outbox@, events, j);
            let a = Action::SetEvent { object: before.sync.objects@[(parent, info)].fd };
            let n = choose|n: int| 0 <= n < o1.len() && o1[n] == a;
            assert(o2[n] == a);
            assert(after.outbox@[n] == a);
        }
    }
}

proof fn lemma_ends_keep(out: Seq<Action>, s: Seq<ExitEvent>)
    ensures
        ends_signalled(out, s).len() >= out.len(),
        forall|i: int| 0 <= i < out.len() ==> ends_signalled(out, s)[i] == out[i],
    decreases s.len(),
{
    if s.len() > 0 {
        lemma_ends_keep(out, s.drop_last());
    }
}

/// The port of a job is told of a process that leaves it, with message 4, and behind that, where it was the
/// last, that the job is empty, with message 8. Nobody waiting, both are kept in that order.
pub proof fn lemma_leaving_is_told(before: EventLoop, after: EventLoop, pid: u32, job: Job, port: u32)
    requires
        exit_posted(before, after, pid, job),
        job.completion_port_handle == Some(port),
        list_of(before.ports.waiters@, port).len() == 0,
    ensures
        ({
            let q = list_of(after.ports.queues@, port);
            let n = list_of(before.ports.queues@, port).len() as int;
            &&& q.len() == n + (if job.num_processes == 0 {
                2int
            } else {
                1int
            })
            &&& q[n].ckey == job.completion_key && q[n].cvalue == pid && q[n].status == 4
            &&& job.num_processes == 0 ==> q[n + 1].ckey == job.completion_key && q[n + 1].cvalue == 0 && q[n
                + 1].status == 8
        }),
{
    let m1 = CompletionMsg { ckey: job.completion_key, cvalue: pid as u64, information: 0, status: 4 };
    let m2 = CompletionMsg { ckey: job.completion_key, cvalue: 0, information: 0, status: 8 };
    let (s1, s2) = choose|s1: EventLoop, s2: EventLoop|
        #![trigger queued_message(before, s1, port, m1), port_served(s2, after, port)]
        queued_message(before, s1, port, m1) && (if job.num_processes == 0 {
            queued_message(s1, s2, port, m2)
        } else {
            s2 == s1
        }) && port_served(s2, after, port);
    assert(list_of(s1.ports.queues@, port) == list_of(before.ports.queues@, port).push(m1));
    assert(list_of(after.ports.queues@, port) == list_of(s2.ports.queues@, port));
}

/// Of the threads that wait on a port the one that waits the shortest is given the first message.
pub proof fn lemma_latest_waiter_first(s: Served, objects: Map<(u32, u32), SyncObject>, w: Seq<CompletionWaiter>)
    requires
        w.len() > 0,
        s.queue.len() > 0,
        forall|i: int| 0 <= i < w.len() - 1 ==> (#[trigger] w[i]).client_fd != w.last().client_fd,
    ensures
        served(s, objects, w).cache[w.last().client_fd] == s.queue[0],
        served(s, objects, w).cache.contains_key(w.last().client_fd),
{
    let next = Served {
        cache: s.cache.insert(w.last().client_fd, s.queue[0]),
        queue: s.queue.skip(1),
        out: with_signal(objects, s.out, w.last().pid, w.last().wait_handle),
    };
    assert(served(s, objects, w) == served(next, objects, w.drop_last()));
    assert forall|i: int| 0 <= i < w.drop_last().len() implies (#[trigger] w.drop_last()[i]).client_fd
        != w.last().client_fd by {
        assert(w.drop_last()[i] == w[i]);
    }
    lemma_served_keeps(next, objects, w.drop_last(), w.last().client_fd);
}

proof fn lemma_served_keeps(s: Served, objects: Map<(u32, u32), SyncObject>, w: Seq<CompletionWaiter>, fd: i32)
    requires
        s.cache.contains_key(fd),
        forall|i: int| 0 <= i < w.len() ==> (#[trigger] w[i]).client_fd != fd,
    ensures
        served(s, objects, w).cache.contains_key(fd),
        served(s, objects, w).cache[fd] == s.cache[fd],
    decreases w.len(),
{
    if w.len() > 0 {
        let d = w.drop_last();
        assert forall|i: int| 0 <= i < d.len() implies (#[trigger] d[i]).client_fd != fd by {
            assert(d[i] == w[i]);
        }
        assert(w[w.len() - 1].client_fd != fd);
        if s.queue.len() == 0 {
            lemma_served_keeps(s, objects, d, fd);
        } else {
            lemma_served_keeps(
                Served {
                    cache: s.cache.insert(w.last().client_fd, s.queue[0]),
                    queue: s.queue.skip(1),
                    out: with_signal(objects, s.out, w.last().pid, w.last().wait_handle),
                },
                objects,
                d,
                fd,
            );
        }
    }
}

/// No message of a port is lost when its waiting threads are served: each thread is given one, as long as
/// there are any, and the rest stays.
pub proof fn lemma_served_in_order(s: Served, objects: Map<(u32, u32), SyncObject>, w: Seq<CompletionWaiter>)
    ensures
        w.len() <= s.queue.len() ==> served(s, objects, w).queue == s.queue.skip(w.len() as int),
        w.len() > s.queue.len() ==> served(s, objects, w).queue.len() == 0,
    decreases w.len(),
{
    if w.len() > 0 {
        let d = w.drop_last();
        if s.queue.len() == 0 {
            lemma_served_in_order(s, objects, d);
        } else {
            let next = Served {
                cache: s.cache.insert(w.last().client_fd, s.queue[0]),
                queue: s.queue.skip(1),
                out: with_signal(objects, s.out, w.last().pid, w.last().wait_handle),
            };
            lemma_served_in_order(next, objects, d);
            if w.len() <= s.queue.len() {
                assert(s.queue.skip(1).skip(d.len() as int) =~= s.queue.skip(w.len() as int));
            }
        }
    } else {
        assert(s.queue.skip(0) =~= s.queue);
    }
}

/// A process that leaves a job is none of its processes any more; the others stay.
pub proof fn lemma_others_stay_in_job(before: Job, after: Job, pid: u32, p: u32)
    requires
        left(before, after, pid),
    ensures
        after.processes@.contains(p) <==> before.processes@.contains(p) && p != pid,
        before.num_processes > 0 ==> after.num_processes == before.num_processes - 1,
        after.total_processes == before.total_processes && after.completion_key == before.completion_key,
{
    lemma_kept(before.processes@, other_than(pid), p);
}

/// While a process of a user has a thread nothing happens. With the last one the daemon gives itself five
/// seconds, sets the event that stops the system's processes, and has the registry saved.
pub proof fn lemma_last_user_is_noted(before: EventLoop, after: EventLoop, pid: u32, now: u64, p: u32)
    requires
        last_user_noted(before, after, pid, now),
        now < 0x8000_0000_0000_0000,
    ensures
        before.objects.processes@.contains_key(p) && !before.clients.system_pids@.contains_key(p)
            && before.objects.processes@[p].threads@.len() > 0 ==> after == before,
        before.clients.system_pids@.contains_key(pid) ==> after == before,
        !before.clients.system_pids@.contains_key(pid) && (forall|u: u32| #[trigger]
            before.objects.processes@.contains_key(u) && before.objects.processes@[u].threads@.len() > 0
                ==> before.clients.system_pids@.contains_key(u)) ==> after.clients.linger_deadline == Some(
            (now + 5_000_000_000) as u64,
        ) && after.outbox@.last() == Action::SaveRegistry && (before.sync.shutdown_event matches Some(object)
            ==> after.outbox@.contains(Action::SetEvent { object })),
{
    if !before.clients.system_pids@.contains_key(pid) && !user_runs(before) {
        if before.sync.shutdown_event is Some {
            let n = before.outbox@.len();
            assert(after.outbox@[n as int] == Action::SetEvent { object: before.sync.shutdown_event->Some_0 });
        }
    }
}

/// A process ends with its last thread, and not before.
pub proof fn lemma_ends_with_last_thread(s: EventLoop, pid: u32, tid: u32)
    ensures
        pid != 0 && tid != 0 && s.objects.processes@.contains_key(pid) ==> (last_thread(s, pid, tid)
            <==> s.objects.processes@[pid].threads@.len() == 0),
        pid == 0 || tid == 0 ==> !last_thread(s, pid, tid),
{
}

/// With a process the descriptors through which parents followed its start are closed.
pub proof fn lemma_infos_are_closed(s: Seq<(u32, InfoHandle)>, k: int)
    requires
        0 <= k < s.len(),
    ensures
        s[k].1.object_fd >= 0 ==> info_fds(s).contains(s[k].1.object_fd),
    decreases s.len(),
{
    let all = info_fds(s);
    let before = info_fds(s.drop_last());
    if k == s.len() - 1 {
        if s[k].1.object_fd >= 0 {
            assert(all[all.len() - 1] == s[k].1.object_fd);
        }
    } else {
        lemma_infos_are_closed(s.drop_last(), k);
        if s[k].1.object_fd >= 0 {
            let j = choose|j: int| 0 <= j < before.len() && before[j] == s[k].1.object_fd;
            assert(all[j] == before[j]);
        }
    }
}

} // verus!
