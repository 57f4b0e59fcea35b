//! The thread that owns the state: connections that come and go, what a request leaves for the other thread
//! to do, and when the daemon ends.
use crate::bytes::zeros;
use crate::io::Effect;
use crate::select::capped;
use crate::state::{bump, bumped, Action, Client, Clients, EventLoop};
use crate::table::{enumerates, lemma_enumerates_len, list_of, Table};
use vstd::prelude::*;

verus! {

/// How often the state is looked after, in nanoseconds.
pub const TICK_NS: u64 = 50_000_000;

/// A connection became known to this thread.
pub open spec fn client_known(
    before: EventLoop,
    after: EventLoop,
    fd: i32,
    msg_fd: i32,
) -> bool {
    let c = before.clients;
    if c.clients@.contains_key(fd) {
        after == before
    } else {
        &&& after == (EventLoop {
            clients: Clients { clients: after.clients.clients, peak: after.clients.peak, ..c },
            ..before
        })
        &&& after.clients.clients@.contains_key(fd)
        &&& after.clients.clients@ == c.clients@.insert(fd, after.clients.clients@[fd])
        &&& fresh_client(after.clients.clients@[fd], msg_fd)
        &&& after.clients.peak >= c.peak
        &&& after.clients.peak >= after.clients.clients@.dom().len()
        &&& after.clients.peak == c.peak || after.clients.peak
            == after.clients.clients@.dom().len()
    }
}

/// A client that has only connected.
pub open spec fn fresh_client(c: Client, msg_fd: i32) -> bool {
    &&& c.process_id == 0
    &&& c.thread_id == 0
    &&& c.msg_fd == msg_fd
    &&& c.reply_fd is None
    &&& c.wait_fd is None
    &&& c.pending_fd is None
    &&& !c.is_phantom
    &&& c.is_msg_primary
    &&& c.current_wait_cookie == 0
    &&& c.suspend_cookie == 0
    &&& c.unix_pid == 0
    &&& c.unix_tid == 0
    &&& c.queue_locator@ == zeros(16)
    &&& c.queue_handle == 0
    &&& c.inflight_fds@.len() == 0
}

/// How long the daemon waits for another client after the last one has left.
pub open spec fn linger_after(c: Clients, now: u64) -> Option<u64> {
    if c.clients@.dom().len() == 0 {
        if c.linger_deadline is None && c.total_requests > 0 {
            Some(capped(now + c.linger_secs * 1_000_000_000))
        } else {
            c.linger_deadline
        }
    } else {
        None
    }
}

/// Descriptors that came with a request were put where its handler finds them.
pub open spec fn deposited(
    before: EventLoop,
    after: EventLoop,
    fd: i32,
    sent: Seq<(u32, i32, i32)>,
) -> bool {
    let c = before.clients.clients@;
    if sent.len() == 0 || !c.contains_key(fd) {
        after == before
    } else if c[fd].process_id != 0 {
        let pid = c[fd].process_id;
        &&& after == (EventLoop {
            clients: Clients { inflight: after.clients.inflight, ..before.clients },
            ..before
        })
        &&& after.clients.inflight@.contains_key(pid)
        &&& after.clients.inflight@ == before.clients.inflight@.insert(
            pid,
            after.clients.inflight@[pid],
        )
        &&& after.clients.inflight@[pid]@ == list_of(before.clients.inflight@, pid) + sent
    } else {
        &&& after == (EventLoop {
            clients: Clients { clients: after.clients.clients, ..before.clients },
            ..before
        })
        &&& after.clients.clients@ == c.insert(fd, after.clients.clients@[fd])
        &&& after.clients.clients@[fd] == (Client {
            inflight_fds: after.clients.clients@[fd].inflight_fds,
            ..c[fd]
        })
        &&& after.clients.clients@[fd].inflight_fds@ == c[fd].inflight_fds@ + sent
    }
}

/// A connection that a handler made and the other thread does not know.
pub open spec fn is_new(c: (i32, Client), known: Map<i32, ()>) -> bool {
    !c.1.is_phantom && !known.contains_key(c.0)
}

/// The effects that make new connections known to the other thread, in the order of a walk.
pub open spec fn new_clients(w: Seq<(i32, Client)>, known: Map<i32, ()>) -> Seq<Effect>
    decreases w.len(),
{
    if w.len() == 0 {
        Seq::empty()
    } else {
        let before = new_clients(w.drop_last(), known);
        if is_new(w.last(), known) {
            before.push(
                Effect::RegisterClient {
                    request_fd: w.last().0,
                    msg_fd: w.last().1.msg_fd,
                    is_msg_primary: w.last().1.is_msg_primary,
                },
            )
        } else {
            before
        }
    }
}

/// The connections that are known to the other thread after that.
pub open spec fn known_after(w: Seq<(i32, Client)>, known: Map<i32, ()>) -> Map<i32, ()>
    decreases w.len(),
{
    if w.len() == 0 {
        known
    } else {
        let before = known_after(w.drop_last(), known);
        if is_new(w.last(), known) {
            before.insert(w.last().0, ())
        } else {
            before
        }
    }
}

/// The descriptor that goes to a client with its reply.
pub open spec fn send_effect(c: Map<i32, Client>, fd: i32) -> Seq<Effect> {
    if c.contains_key(fd) && c[fd].msg_fd >= 0 {
        match c[fd].pending_fd {
            Some((sent, version)) => seq![
                Effect::SendFd { target_fd: c[fd].msg_fd, fd_to_send: sent, version },
            ],
            None => Seq::empty(),
        }
    } else {
        Seq::empty()
    }
}

/// The actions after a descriptor that cannot be sent was given up.
pub open spec fn unsent_closed(c: Map<i32, Client>, fd: i32, out: Seq<Action>) -> Seq<Action> {
    if c.contains_key(fd) && c[fd].msg_fd < 0 {
        match c[fd].pending_fd {
            Some((sent, _)) => out.push(Action::Close { fd: sent }),
            None => out,
        }
    } else {
        out
    }
}

/// The pipes that are to be watched.
pub open spec fn pipe_effects(s: Seq<(i32, i32)>) -> Seq<Effect> {
    s.map_values(|p: (i32, i32)| Effect::WatchPipeFd { pipe_fd: p.0, event_fd: p.1 })
}

/// The displays that are to be watched.
pub open spec fn queue_effects(s: Seq<(i32, u64, u32, i32)>) -> Seq<Effect> {
    s.map_values(
        |q: (i32, u64, u32, i32)|
            Effect::WatchQueueFd { queue_fd: q.0, shm: q.1, event_fd: q.3 },
    )
}

/// The displays that are to be watched again.
pub open spec fn rearm_effects(s: Seq<i32>) -> Seq<Effect> {
    s.map_values(|q: i32| Effect::RearmQueueFd { queue_fd: q })
}

/// Nothing is left over for the other thread.
pub open spec fn effects_collected(before: EventLoop, after: EventLoop, fd: i32) -> bool {
    let c = before.clients.clients@;
    &&& after == (EventLoop {
        clients: Clients {
            clients: after.clients.clients,
            pipe_watches: after.clients.pipe_watches,
            queue_watches: after.clients.queue_watches,
            queue_rearms: after.clients.queue_rearms,
            ..before.clients
        },
        outbox: after.outbox,
        ..before
    })
    &&& after.clients.clients@ == (if c.contains_key(fd) {
        c.insert(fd, Client { pending_fd: None, ..c[fd] })
    } else {
        c
    })
    &&& after.clients.pipe_watches@.len() == 0
    &&& after.clients.queue_watches@.len() == 0
    &&& after.clients.queue_rearms@.len() == 0
    &&& after.outbox@ == unsent_closed(c, fd, before.outbox@)
}

fn push_pipe_effects(out: &mut Vec<Effect>, s: &Vec<(i32, i32)>)
    ensures
        final(out)@ == old(out)@ + pipe_effects(s@),
{
    let mut i: usize = 0;
    assert(out@ =~= old(out)@ + pipe_effects(s@.take(0)));
    while i < s.len()
        invariant
            i <= s@.len(),
            out@ == old(out)@ + pipe_effects(s@.take(i as int)),
        decreases s@.len() - i,
    {
        out.push(Effect::WatchPipeFd { pipe_fd: s[i].0, event_fd: s[i].1 });
        i = i + 1;
        assert(out@ =~= old(out)@ + pipe_effects(s@.take(i as int)));
    }
    assert(s@.take(s@.len() as int) =~= s@);
}

fn push_queue_effects(out: &mut Vec<Effect>, s: &Vec<(i32, u64, u32, i32)>)
    ensures
        final(out)@ == old(out)@ + queue_effects(s@),
{
    let mut i: usize = 0;
    assert(out@ =~= old(out)@ + queue_effects(s@.take(0)));
    while i < s.len()
        invariant
            i <= s@.len(),
            out@ == old(out)@ + queue_effects(s@.take(i as int)),
        decreases s@.len() - i,
    {
        out.push(Effect::WatchQueueFd { queue_fd: s[i].0, shm: s[i].1, event_fd: s[i].3 });
        i = i + 1;
        assert(out@ =~= old(out)@ + queue_effects(s@.take(i as int)));
    }
    assert(s@.take(s@.len() as int) =~= s@);
}

fn push_rearm_effects(out: &mut Vec<Effect>, s: &Vec<i32>)
    ensures
        final(out)@ == old(out)@ + rearm_effects(s@),
{
    let mut i: usize = 0;
    assert(out@ =~= old(out)@ + rearm_effects(s@.take(0)));
    while i < s.len()
        invariant
            i <= s@.len(),
            out@ == old(out)@ + rearm_effects(s@.take(i as int)),
        decreases s@.len() - i,
    {
        out.push(Effect::RearmQueueFd { queue_fd: s[i] });
        i = i + 1;
        assert(out@ =~= old(out)@ + rearm_effects(s@.take(i as int)));
    }
    assert(s@.take(s@.len() as int) =~= s@);
}

/// Whether it is time to look after the state.
pub fn housekeeping_due(now: u64, last: u64) -> (r: bool)
    ensures
        r == (now - last >= TICK_NS),
{
    now >= last && now - last >= TICK_NS
}

/// Whether the state of all objects is reported at a tick.
pub fn report_due(tick: u64, total_requests: u64) -> (r: bool)
    ensures
        r == (tick % 200 == 0 && total_requests > 0),
{
    tick % 200 == 0 && total_requests > 0
}

impl EventLoop {
    /// A connection became known.
    pub fn client_joined(&mut self, fd: i32, msg_fd: i32, known: &mut Table<i32, ()>)
        requires
            old(self).wf(),
            old(known).wf(),
        ensures
            final(self).wf(),
            final(known).wf(),
            client_known(*old(self), *final(self), fd, msg_fd),
            final(known)@ == (if old(self).clients.clients@.contains_key(fd) {
                old(known)@
            } else {
                old(known)@.insert(fd, ())
            }),
    {
        if !self.clients.clients.contains_key(fd) {
            self.clients.clients.insert(fd, Client::new(msg_fd));
            known.insert(fd, ());
            self.track_peak_clients();
        }
    }

    /// How many connections there are.
    pub fn count_clients(&self) -> (n: usize)
        requires
            self.wf(),
        ensures
            n == self.clients.clients@.dom().len(),
    {
        proof {
            self.clients.clients.lemma_walk();
            lemma_enumerates_len(self.clients.clients.walk(), self.clients.clients@);
        }
        self.clients.clients.len()
    }

    /// Keeps the largest number of connections that there were at a time.
    pub fn track_peak_clients(&mut self)
        requires
            old(self).wf(),
        ensures
            final(self).wf(),
            *final(self) == (EventLoop {
                clients: Clients { peak: final(self).clients.peak, ..old(self).clients },
                ..*old(self)
            }),
            final(self).clients.peak == (if old(self).clients.clients@.dom().len()
                > old(self).clients.peak {
                old(self).clients.clients@.dom().len()
            } else {
                old(self).clients.peak as nat
            }),
    {
        let n: usize = self.count_clients();
        if n > self.clients.peak {
            self.clients.peak = n;
        }
    }

    /// After a connection has gone: the daemon lingers where it was the last.
    pub fn note_left(&mut self, fd: i32, known: &mut Table<i32, ()>, now: u64)
        requires
            old(self).wf(),
            old(known).wf(),
        ensures
            final(self).wf(),
            final(known).wf(),
            final(known)@ == old(known)@.remove(fd),
            *final(self) == (EventLoop {
                clients: Clients {
                    linger_deadline: linger_after(old(self).clients, now),
                    ..old(self).clients
                },
                ..*old(self)
            }),
    {
        let _ = known.remove(fd);
        assert(known@ =~= old(known)@.remove(fd));
        if self.count_clients() == 0 {
            if self.clients.linger_deadline.is_none() && self.clients.total_requests > 0 {
                let end: u128 = now as u128 + self.clients.linger_secs as u128 * 1_000_000_000;
                let end: u64 = if end <= u64::MAX as u128 {
                    end as u64
                } else {
                    u64::MAX
                };
                self.clients.linger_deadline = Some(end);
            }
        } else {
            self.clients.linger_deadline = None;
        }
    }

    /// Whether the daemon has waited long enough for another client.
    pub fn linger_over(&self, now: u64) -> (r: bool)
        ensures
            r == (self.clients.linger_deadline matches Some(d) && now >= d),
    {
        match self.clients.linger_deadline {
            Some(d) => now >= d,
            None => false,
        }
    }

    /// Counts a request.
    pub fn count_request(&mut self)
        requires
            old(self).wf(),
        ensures
            final(self).wf(),
            *final(self) == (EventLoop {
                clients: Clients {
                    total_requests: bumped(old(self).clients.total_requests),
                    ..old(self).clients
                },
                ..*old(self)
            }),
    {
        self.clients.total_requests = bump(self.clients.total_requests);
    }

    /// Puts the descriptors that came with a request where its handler finds them: into the pool of the
    /// client's process, or with the client itself where it has none yet.
    pub fn deposit_fds(&mut self, fd: i32, sent: Vec<(u32, i32, i32)>)
        requires
            old(self).wf(),
        ensures
            final(self).wf(),
            deposited(*old(self), *final(self), fd, sent@),
    {
        let ghost s = sent@;
        let mut sent = sent;
        if sent.len() == 0 {
            return;
        }
        let pid: u32 = match self.clients.clients.get(fd) {
            Some(c) => c.process_id,
            None => {
                return;
            },
        };
        if pid != 0 {
            match self.clients.inflight.get_mut(pid) {
                Some(pool) => {
                    pool.append(&mut sent);
                    return;
                },
                None => {},
            }
            self.clients.inflight.insert(pid, sent);
            assert(self.clients.inflight@[pid]@ =~= Seq::<(u32, i32, i32)>::empty() + s);
        } else {
            match self.clients.clients.get_mut(fd) {
                Some(c) => {
                    c.inflight_fds.append(&mut sent);
                },
                None => {},
            }
        }
    }

    /// What a request leaves for the other thread to do before the reply is written. `clients_before` is
    /// how many connections there were before the request, and `known` holds those that the other thread
    /// knows.
    pub fn collect_effects(
        &mut self,
        fd: i32,
        clients_before: usize,
        known: &mut Table<i32, ()>,
    ) -> (effects: Vec<Effect>)
        requires
            old(self).wf(),
            old(known).wf(),
        ensures
            final(self).wf(),
            final(known).wf(),
            effects_collected(*old(self), *final(self), fd),
            ({
                let c = old(self).clients;
                let rest = send_effect(c.clients@, fd) + pipe_effects(c.pipe_watches@)
                    + queue_effects(c.queue_watches@) + rearm_effects(c.queue_rearms@);
                if c.clients@.dom().len() > clients_before {
                    exists|w: Seq<(i32, Client)>| #[trigger]
                        enumerates(w, c.clients@) && effects@ == new_clients(w, old(known)@) + rest
                            && final(known)@ == known_after(w, old(known)@)
                } else {
                    effects@ == rest && final(known)@ == old(known)@
                }
            }),
    {
        let mut effects: Vec<Effect> = Vec::new();
        let ghost c = self.clients;
        let ghost k0 = known@;
        let ghost w = self.clients.clients.walk();
        let ghost grew = c.clients@.dom().len() > clients_before;
        if self.count_clients() > clients_before {
            self.register_new(&mut effects, known);
            proof {
                self.clients.clients.lemma_walk();
            }
        }
        let ghost first = effects@;
        match self.clients.clients.get_mut(fd) {
            Some(x) => {
                let pending = x.pending_fd;
                let target: i32 = x.msg_fd;
                x.pending_fd = None;
                match pending {
                    Some((sent, version)) => {
                        if target >= 0 {
                            effects.push(
                                Effect::SendFd { target_fd: target, fd_to_send: sent, version },
                            );
                        } else {
                            self.outbox.push(Action::Close { fd: sent });
                        }
                    },
                    None => {},
                }
            },
            None => {},
        }
        assert(effects@ =~= first + send_effect(c.clients@, fd));
        push_pipe_effects(&mut effects, &self.clients.pipe_watches);
        push_queue_effects(&mut effects, &self.clients.queue_watches);
        push_rearm_effects(&mut effects, &self.clients.queue_rearms);
        self.clients.pipe_watches = Vec::new();
        self.clients.queue_watches = Vec::new();
        self.clients.queue_rearms = Vec::new();
        proof {
            let rest = send_effect(c.clients@, fd) + pipe_effects(c.pipe_watches@) + queue_effects(
                c.queue_watches@,
            ) + rearm_effects(c.queue_rearms@);
            assert(effects@ =~= first + rest);
            if !grew {
                assert(first =~= Seq::<Effect>::empty());
                assert(first + rest =~= rest);
            }
        }
        effects
    }

    fn register_new(&self, effects: &mut Vec<Effect>, known: &mut Table<i32, ()>)
        requires
            self.wf(),
            old(known).wf(),
            old(effects)@.len() == 0,
        ensures
            final(known).wf(),
            final(effects)@ == new_clients(self.clients.clients.walk(), old(known)@),
            final(known)@ == known_after(self.clients.clients.walk(), old(known)@),
    {
        let ghost w = self.clients.clients.walk();
        let ghost k0 = known@;
        let mut i: usize = 0;
        proof {
            self.clients.clients.lemma_walk();
        }
        assert(effects@ =~= new_clients(w.take(0), k0));
        assert(known@ =~= known_after(w.take(0), k0));
        while i < self.clients.clients.len()
            invariant
                self.wf(),
                known.wf(),
                i <= w.len(),
                w == self.clients.clients.walk(),
                enumerates(w, self.clients.clients@),
                effects@ == new_clients(w.take(i as int), k0),
                known@ == known_after(w.take(i as int), k0),
                forall|j: int|
                    i <= j < w.len() ==> known@.contains_key((#[trigger] w[j]).0) == k0.contains_key(
                        w[j].0,
                    ),
            decreases w.len() - i,
        {
            assert(w.take(i + 1).drop_last() =~= w.take(i as int));
            let (k, x) = self.clients.clients.at(i);
            assert(known@.contains_key(w[i as int].0) == k0.contains_key(w[i as int].0));
            if !x.is_phantom && !known.contains_key(*k) {
                effects.push(
                    Effect::RegisterClient {
                        request_fd: *k,
                        msg_fd: x.msg_fd,
                        is_msg_primary: x.is_msg_primary,
                    },
                );
                known.insert(*k, ());
            }
            i = i + 1;
        }
        assert(w.take(w.len() as int) =~= w);
    }
}

/// The state is looked after twenty times a second.
pub proof fn lemma_ticks()
    ensures
        20 * TICK_NS == 1_000_000_000,
{
}

/// While there are clients there is no end in sight. With the last one the daemon gives itself its seconds,
/// where it has served anyone at all, and what was agreed on before is not put off.
pub proof fn lemma_how_long_daemon_lingers(c: Clients, now: u64)
    requires
        now < 0x4000_0000_0000_0000,
        c.linger_secs <= 1_000_000_000,
    ensures
        c.clients@.dom().len() > 0 ==> linger_after(c, now) is None,
        c.clients@.dom().len() == 0 && c.linger_deadline is None && c.total_requests > 0 ==> linger_after(c, now)
            == Some((now + 1_000_000_000 * c.linger_secs) as u64),
        c.clients@.dom().len() == 0 && c.linger_deadline is None && c.total_requests == 0 ==> linger_after(c, now)
            is None,
        c.clients@.dom().len() == 0 && c.linger_deadline is Some ==> linger_after(c, now) == c.linger_deadline,
{
}

/// Descriptors that arrive are found in the pool of the client's process, behind those that were there, or
/// with the client itself as long as it has no process.
pub proof fn lemma_descriptors_are_found(before: EventLoop, after: EventLoop, fd: i32, sent: Seq<(u32, i32, i32)>)
    requires
        deposited(before, after, fd, sent),
        before.clients.clients@.contains_key(fd),
        sent.len() > 0,
    ensures
        ({
            let c = before.clients.clients@[fd];
            &&& c.process_id != 0 ==> list_of(after.clients.inflight@, c.process_id) == list_of(
                before.clients.inflight@,
                c.process_id,
            ) + sent && after.clients.clients == before.clients.clients
            &&& c.process_id == 0 ==> after.clients.clients@[fd].inflight_fds@ == c.inflight_fds@ + sent
                && after.clients.inflight == before.clients.inflight
        }),
{
}

/// Each connection that the other thread does not know, and that is no phantom, is made known to it, and is
/// known from then on; no other is.
pub proof fn lemma_new_connections_are_told(w: Seq<(i32, Client)>, known: Map<i32, ()>, k: int)
    requires
        0 <= k < w.len(),
    ensures
        !w[k].1.is_phantom && !known.contains_key(w[k].0) ==> new_clients(w, known).contains(
            Effect::RegisterClient {
                request_fd: w[k].0,
                msg_fd: w[k].1.msg_fd,
                is_msg_primary: w[k].1.is_msg_primary,
            },
        ) && known_after(w, known).contains_key(w[k].0),
        (forall|i: int| 0 <= i < w.len() ==> (#[trigger] w[i]).1.is_phantom || known.contains_key(w[i].0))
            ==> new_clients(w, known).len() == 0 && known_after(w, known) == known,
        forall|fd: i32| #[trigger] known.contains_key(fd) ==> known_after(w, known).contains_key(fd),
    decreases w.len(),
{
    let all = new_clients(w, known);
    let d = w.drop_last();
    let before = new_clients(d, known);
    let n = w.len() - 1;
    let e = Effect::RegisterClient {
        request_fd: w[k].0,
        msg_fd: w[k].1.msg_fd,
        is_msg_primary: w[k].1.is_msg_primary,
    };
    if d.len() > 0 {
        lemma_new_connections_are_told(
            d,
            known,
            if k < n {
                k
            } else {
                0
            },
        );
    } else {
        assert(known_after(d, known) == known);
    }
    if forall|i: int| 0 <= i < w.len() ==> (#[trigger] w[i]).1.is_phantom || known.contains_key(w[i].0) {
        assert forall|i: int| 0 <= i < d.len() implies (#[trigger] d[i]).1.is_phantom || known.contains_key(
            d[i].0,
        ) by {
            assert(w[i] == d[i]);
        }
        assert(w[n].1.is_phantom || known.contains_key(w[n].0));
    }
    if k < n {
        assert(d[k] == w[k]);
        if before.contains(e) {
            let j = choose|j: int| 0 <= j < before.len() && before[j] == e;
            assert(all[j] == e);
        }
    } else if is_new(w[k], known) {
        assert(all[all.len() - 1] == e);
    }
}

/// A descriptor that waits for a client goes to it over its socket, with its number; where the client has no
/// socket it is closed instead.
pub proof fn lemma_waiting_descriptor_goes(c: Map<i32, Client>, fd: i32, out: Seq<Action>, sent: i32, version: u32)
    requires
        c.contains_key(fd),
        c[fd].pending_fd == Some((sent, version)),
    ensures
        c[fd].msg_fd >= 0 ==> send_effect(c, fd) == seq![
            Effect::SendFd { target_fd: c[fd].msg_fd, fd_to_send: sent, version },
        ] && unsent_closed(c, fd, out) == out,
        c[fd].msg_fd < 0 ==> send_effect(c, fd).len() == 0 && unsent_closed(c, fd, out) == out.push(
            Action::Close { fd: sent },
        ),
{
}

/// What is to be watched is watched: each pipe with its event, each display with its queue and its event.
pub proof fn lemma_watches_are_asked_for(p: Seq<(i32, i32)>, q: Seq<(i32, u64, u32, i32)>, r: Seq<i32>, k: int)
    ensures
        pipe_effects(p).len() == p.len() && queue_effects(q).len() == q.len() && rearm_effects(r).len() == r.len(),
        0 <= k < p.len() ==> pipe_effects(p)[k] == (Effect::WatchPipeFd { pipe_fd: p[k].0, event_fd: p[k].1 }),
        0 <= k < q.len() ==> queue_effects(q)[k] == (Effect::WatchQueueFd {
            queue_fd: q[k].0,
            shm: q[k].1,
            event_fd: q[k].3,
        }),
        0 <= k < r.len() ==> rearm_effects(r)[k] == (Effect::RearmQueueFd { queue_fd: r[k] }),
{
}

/// After a request nothing waits for its client, and nothing is left to be watched.
pub proof fn lemma_nothing_is_left_over(before: EventLoop, after: EventLoop, fd: i32)
    requires
        effects_collected(before, after, fd),
    ensures
        before.clients.clients@.contains_key(fd) ==> after.clients.clients@.contains_key(fd)
            && after.clients.clients@[fd].pending_fd is None && after.clients.clients@[fd].msg_fd
            == before.clients.clients@[fd].msg_fd,
        after.clients.pipe_watches@.len() == 0 && after.clients.queue_watches@.len() == 0
            && after.clients.queue_rearms@.len() == 0,
{
}

/// A client that has only connected has no process, no thread and nothing that waits for it.
pub proof fn lemma_new_client_is_bare(before: EventLoop, after: EventLoop, fd: i32, msg_fd: i32)
    requires
        client_known(before, after, fd, msg_fd),
        !before.clients.clients@.contains_key(fd),
    ensures
        after.clients.clients@.contains_key(fd),
        after.clients.clients@[fd].process_id == 0 && after.clients.clients@[fd].thread_id == 0,
        after.clients.clients@[fd].msg_fd == msg_fd,
        after.clients.clients@[fd].pending_fd is None && after.clients.clients@[fd].reply_fd is None,
        forall|k: i32|
            k != fd ==> (#[trigger] after.clients.clients@.contains_key(k)
                <==> before.clients.clients@.contains_key(k)),
{
}

} // verus!
