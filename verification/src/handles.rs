//! Handles: closing and duplicating them, the descriptors behind them, and what is told of their objects.
use crate::bytes::{clipped, copy_clipped, push_u32, u32_at, u32_bytes};
use crate::mappings::entry_of;
use crate::objects::{allocated, entry_in, handles_changed, lemma_handle_given, HandleEntry};
use crate::paths::{nt_path, to_nt_path};
use crate::ports::object_id_of;
use crate::side_tables::HandleSideTables;
use crate::state::{
    bumped, handle_closed, pid_of, tid_of, took_event, waitable, Action, Clients, EventLoop, Objects,
    Sync, SyncObject, SYNC_INTERNAL,
};
use crate::sync::with_pending_fd;
use crate::text::{text_wire, wire_of};
use crate::wire::{
    block, handle_answer, head, header, lemma_answer_told, lemma_word_told, max_reply_vararg, reply_fixed, reply_four, reply_handle,
    reply_room, reply_status, reply_vararg, status, Reply, STATUS_BUFFER_TOO_SMALL,
    STATUS_INVALID_HANDLE, STATUS_INVALID_PARAMETER, STATUS_NOT_SAME_OBJECT, STATUS_NO_MEMORY,
    STATUS_OBJECT_TYPE_MISMATCH,
};
use vstd::prelude::*;

verus! {

/// The flag of an entry whose handle child processes inherit.
pub const OBJ_INHERIT: u32 = 2;

/// All that is kept for a handle beside its entry is gone.
pub open spec fn kept_purged(before: EventLoop, after: EventLoop, pid: u32, handle: u32) -> bool {
    let key = (pid, handle);
    let b = before.side_tables;
    let a = after.side_tables;
    let recyclable = before.sync.recyclable@.remove(key);
    &&& after == (EventLoop {
        sync: Sync { recyclable: after.sync.recyclable, ..before.sync },
        side_tables: a,
        outbox: after.outbox,
        ..before
    })
    &&& a.pipe_handles@ == b.pipe_handles@.remove(key)
    &&& a.io_wait_handles@ == b.io_wait_handles@.remove(key)
    &&& a.fd_sent@ == b.fd_sent@.remove(key)
    &&& a.completion_bindings@ == b.completion_bindings@.remove(key)
    &&& after.sync.recyclable@ == (if b.io_wait_handles@.contains_key(key) {
        recyclable.remove((pid, b.io_wait_handles@[key]))
    } else {
        recyclable
    })
    &&& after.outbox@ == (if b.pipe_handles@.contains_key(key) {
        before.outbox@.push(Action::Close { fd: b.pipe_handles@[key].data_fd })
    } else {
        before.outbox@
    })
}

/// A handle of a process was closed.
pub open spec fn handle_gone(before: EventLoop, after: EventLoop, pid: u32, handle: u32) -> bool {
    exists|mid: EventLoop| #[trigger]
        kept_purged(before, mid, pid, handle) && after == (EventLoop {
            objects: Objects { processes: after.objects.processes, ..mid.objects },
            ..mid
        }) && handle_closed(mid.objects.processes@, after.objects.processes@, pid, handle)
}

/// The process of a client's thread.
pub open spec fn thread_process(s: EventLoop, client_fd: i32) -> Option<u32> {
    let tid = tid_of(s.clients.clients@, client_fd);
    if tid != 0 && s.objects.threads@.contains_key(tid) {
        Some(s.objects.threads@[tid].pid)
    } else {
        None
    }
}

/// A handle that was closed stands for nothing any more.
pub proof fn lemma_closed_stands_for_nothing(
    before: EventLoop,
    after: EventLoop,
    pid: u32,
    handle: u32,
)
    requires
        handle_gone(before, after, pid, handle),
    ensures
        entry_in(after.objects.processes@, pid, handle) is None,
        after.side_tables.clear_of(pid, handle),
        forall|h: u32|
            h / 4 != handle / 4 ==> #[trigger] entry_in(after.objects.processes@, pid, h)
                == entry_in(before.objects.processes@, pid, h),
{
}

/// What a handle that is to be told the descriptor of stands for.
pub enum FdStep {
    Done(Reply),
    /// Duplicate the descriptor.
    Duplicate { fd: i32 },
}

/// Handles that every process has without an entry: itself, its thread, their tokens, and what a wider
/// number is cut to.
pub open spec fn is_pseudo(handle: u32) -> bool {
    handle == 0x7FFF_FFFF || handle >= 0xFFFF_FFF0
}

/// The answer about a descriptor.
pub open spec fn fd_answer(error: u32, kind: u32, cacheable: u32, access: u32, options: u32) -> Seq<u8> {
    block(
        head(error, 0) + u32_bytes(kind) + u32_bytes(cacheable) + u32_bytes(access) + u32_bytes(
            options,
        ),
    )
}

/// A handle without a descriptor: the client may keep that answer.
pub open spec fn no_descriptor() -> Seq<u8> {
    fd_answer(STATUS_OBJECT_TYPE_MISMATCH, 0, 1, 0, 0)
}

/// What comes of a request for the descriptor behind a handle.
pub open spec fn fd_step(s: EventLoop, client_fd: i32, handle: u32, step: FdStep) -> bool {
    let pid = pid_of(s.clients.clients@, client_fd);
    if is_pseudo(handle) {
        step matches FdStep::Done(r) && r@ == no_descriptor()
    } else if handle == 0 {
        step matches FdStep::Done(r) && r@ == fd_answer(STATUS_INVALID_HANDLE, 0, 0, 0, 0)
    } else {
        match entry_of(s, client_fd, handle) {
            Some(HandleEntry { fd: Some(fd), .. }) => step == (FdStep::Duplicate { fd }),
            Some(_) => step matches FdStep::Done(r) && r@ == no_descriptor(),
            None => if pid != 0 && s.sync.objects@.contains_key((pid, handle)) {
                step matches FdStep::Done(r) && r@ == no_descriptor()
            } else {
                step matches FdStep::Done(r) && r@ == fd_answer(STATUS_INVALID_HANDLE, 0, 0, 0, 0)
            },
        }
    }
}

/// The descriptor behind a handle is sent to the client before the answer is.
pub open spec fn descriptor_sent(
    before: EventLoop,
    after: EventLoop,
    client_fd: i32,
    handle: u32,
    dup_fd: i32,
) -> bool {
    let c = before.clients.clients@;
    let key = (pid_of(c, client_fd), handle);
    &&& after == (EventLoop {
        clients: Clients { clients: after.clients.clients, ..before.clients },
        side_tables: HandleSideTables {
            fd_sent: after.side_tables.fd_sent,
            ..before.side_tables
        },
        ..before
    })
    &&& after.clients.clients@ == with_pending_fd(c, client_fd, dup_fd, handle)
    &&& after.side_tables.fd_sent@ == (if c.contains_key(client_fd) {
        before.side_tables.fd_sent@.insert(key, ())
    } else {
        before.side_tables.fd_sent@.remove(key)
    })
}

#[derive(Clone, Copy, Debug, PartialEq, Eq)]
pub struct DupHandleRequest {
    pub src_process: u32,
    pub src_handle: u32,
    pub dst_process: u32,
    pub access: u32,
    pub options: u32,
}

/// The client's process, where it has one.
pub open spec fn caller_of(s: EventLoop, client_fd: i32) -> Option<u32> {
    let pid = pid_of(s.clients.clients@, client_fd);
    if pid != 0 {
        Some(pid)
    } else {
        None
    }
}

/// The process that a handle stands for; the caller itself where it stands for none.
pub open spec fn process_of(s: EventLoop, caller: Option<u32>, handle: u32) -> Option<u32> {
    match caller {
        None => None,
        Some(c) => if handle == 0xFFFF_FFFF || handle == 0x7FFF_FFFF {
            caller
        } else {
            match entry_in(s.objects.processes@, c, handle) {
                Some(e) => Some(e.object_id as u32),
                None => caller,
            }
        },
    }
}

pub open spec fn made_up(object_id: u64, obj_type: u32, access: u32) -> Option<HandleEntry> {
    Some(HandleEntry { object_id, fd: None, obj_type, access, options: 0 })
}

/// What a handle that is duplicated stands for.
pub open spec fn source_entry(s: EventLoop, client_fd: i32, q: DupHandleRequest) -> Option<HandleEntry> {
    let caller = caller_of(s, client_fd);
    let h = q.src_handle;
    if h == 0xFFFF_FFFE {
        made_up(tid_of(s.clients.clients@, client_fd) as u64, 2, 0x1F_FFFF)
    } else if h == 0xFFFF_FFFF || h == 0x7FFF_FFFF {
        made_up(pid_of(s.clients.clients@, client_fd) as u64, 1, 0x1F_FFFF)
    } else if h == 0xFFFF_FFFC {
        made_up(0, 5, 0xF_01FF)
    } else {
        match process_of(s, caller, q.src_process) {
            Some(p) => entry_in(s.objects.processes@, p, h),
            None => None,
        }
    }
}

/// The object that stands behind a handle that is duplicated.
pub open spec fn source_object(s: EventLoop, client_fd: i32, q: DupHandleRequest) -> Option<SyncObject> {
    match process_of(s, caller_of(s, client_fd), q.src_process) {
        Some(p) => if s.sync.objects@.contains_key((p, q.src_handle)) {
            Some(s.sync.objects@[(p, q.src_handle)])
        } else {
            None
        },
        None => None,
    }
}

/// What a duplicate needs from outside.
#[derive(Clone, Copy, Debug, PartialEq, Eq)]
pub struct DupNeeds {
    /// The descriptor to be duplicated.
    pub fd: Option<i32>,
    /// The object to be duplicated.
    pub object: Option<i32>,
}

/// Whether a duplicate can be given a handle: its process is there and has room.
pub open spec fn can_place_dup(s: EventLoop, client_fd: i32, q: DupHandleRequest) -> bool {
    match process_of(s, caller_of(s, client_fd), q.dst_process) {
        Some(p) => s.objects.processes@.contains_key(p) && s.objects.processes@[p].handles.next() != 0,
        None => false,
    }
}

/// What a duplicate needs from outside: the descriptor in any case, the object only where the
/// duplicate can be given a handle.
pub open spec fn dup_needs(s: EventLoop, client_fd: i32, q: DupHandleRequest) -> Option<DupNeeds> {
    match source_entry(s, client_fd, q) {
        Some(e) => Some(
            DupNeeds {
                fd: e.fd,
                object: match source_object(s, client_fd, q) {
                    Some(o) if can_place_dup(s, client_fd, q) => Some(o.fd),
                    _ => None,
                },
            },
        ),
        None => None,
    }
}

/// The entry of a duplicate: with the same access where that is asked for.
pub open spec fn dup_entry(e: HandleEntry, q: DupHandleRequest, dup_fd: i32) -> HandleEntry {
    HandleEntry {
        fd: match e.fd {
            Some(_) => Some(dup_fd),
            None => None,
        },
        access: if q.options & 2 != 0 {
            e.access
        } else {
            q.access
        },
        ..e
    }
}

/// The object behind a duplicate: a duplicate too, or a fresh event where there is none.
pub open spec fn dup_object_placed(
    before: Sync,
    after: Sync,
    key: (u32, u32),
    source: Option<SyncObject>,
    dup_object: Option<i32>,
) -> bool {
    match (source, dup_object) {
        (Some(o), Some(fd)) => {
            &&& after == (Sync { objects: after.objects, ..before })
            &&& after.objects@ == before.objects@.insert(key, SyncObject { fd, kind: o.kind })
        },
        _ => exists|s: Sync, e: Option<i32>| #[trigger]
            took_event(before, s, true, false, e) && match e {
                Some(fd) => {
                    &&& after == (Sync { objects: after.objects, ..s })
                    &&& after.objects@ == s.objects@.insert(
                        key,
                        SyncObject { fd, kind: SYNC_INTERNAL },
                    )
                },
                None => after == s,
            },
    }
}

/// A handle was duplicated from one process to another; 0 where that failed. A duplicate of a
/// descriptor that no handle was given for stays open.
pub open spec fn handle_duplicated(
    before: EventLoop,
    after: EventLoop,
    client_fd: i32,
    q: DupHandleRequest,
    e: HandleEntry,
    dup_fd: i32,
    dup_object: Option<i32>,
    h: u32,
) -> bool {
    let dst = process_of(before, caller_of(before, client_fd), q.dst_process);
    match dst {
        Some(p) => {
            &&& allocated(
                before.objects.processes@,
                after.objects.processes@,
                p,
                dup_entry(e, q, dup_fd),
                h,
            )
            &&& after == (EventLoop {
                objects: Objects { processes: after.objects.processes, ..before.objects },
                sync: after.sync,
                ..before
            })
            &&& if h != 0 {
                dup_object_placed(
                    before.sync,
                    after.sync,
                    (p, h),
                    source_object(before, client_fd, q),
                    dup_object,
                )
            } else {
                after.sync == before.sync
            }
        },
        None => h == 0 && after == before,
    }
}

/// The answer that gives the path of a file as the client's system writes it.
pub open spec fn name_answer(path: Option<Seq<char>>, room: u32) -> Seq<u8> {
    match path {
        Some(p) => {
            let all = text_wire(nt_path(p));
            let v = clipped(all, room as int);
            block(head(0, v.len() as u32) + u32_bytes(all.len() as u32)) + v
        },
        None => status(0),
    }
}

/// The path of the file behind a handle, where there is one.
pub open spec fn path_behind(e: Option<HandleEntry>, path: Option<Seq<char>>) -> Option<Seq<char>> {
    match e {
        Some(HandleEntry { fd: Some(_), .. }) => path,
        _ => None,
    }
}

impl EventLoop {
    /// Closes a handle of the process of a client's thread.
    pub fn handle_close_handle(&mut self, client_fd: i32, handle: Option<u32>) -> (r: Reply)
        requires
            old(self).wf(),
        ensures
            final(self).wf(),
            r@ == status(0),
            match (thread_process(*old(self), client_fd), handle) {
                (Some(pid), Some(h)) => handle_gone(*old(self), *final(self), pid, h),
                _ => *final(self) == *old(self),
            },
    {
        let tid: u32 = match self.client_thread_id(client_fd) {
            Some(t) => t,
            None => {
                return reply_status(0);
            },
        };
        let pid: u32 = match self.objects.threads.get(tid) {
            Some(t) => t.pid,
            None => {
                return reply_status(0);
            },
        };
        let h: u32 = match handle {
            Some(h) => h,
            None => {
                return reply_status(0);
            },
        };
        self.remove_ntsync_obj(pid, h);
        let mut closed: Vec<i32> = Vec::new();
        match self.side_tables.purge(pid, h, &mut closed) {
            Some(wait) => {
                self.remove_ntsync_obj(pid, wait);
            },
            None => {},
        }
        match closed.pop() {
            Some(fd) => {
                self.outbox.push(Action::Close { fd });
            },
            None => {},
        }
        let ghost mid = *self;
        assert(kept_purged(*old(self), mid, pid, h));
        self.close_in(pid, h);
        reply_status(0)
    }

    /// Sets whether child processes inherit a handle, and tells whether they did.
    pub fn handle_set_handle_info(
        &mut self,
        client_fd: i32,
        req: Option<(u32, i32, i32)>,
    ) -> (r: Reply)
        requires
            old(self).wf(),
        ensures
            final(self).wf(),
            match req {
                None => *final(self) == *old(self) && r@ == status(STATUS_INVALID_PARAMETER),
                Some((handle, flags, mask)) => {
                    let pid = pid_of(old(self).clients.clients@, client_fd);
                    let p = old(self).objects.processes@;
                    match entry_in(p, pid, handle) {
                        Some(e) => {
                            let options = if mask & 1 == 0 {
                                e.options
                            } else if flags & 1 != 0 {
                                e.options | OBJ_INHERIT
                            } else {
                                e.options & !OBJ_INHERIT
                            };
                            &&& *final(self) == (EventLoop {
                                objects: Objects {
                                    processes: final(self).objects.processes,
                                    ..old(self).objects
                                },
                                ..*old(self)
                            })
                            &&& handles_changed(p, final(self).objects.processes@, pid)
                            &&& final(self).objects.processes@[pid].handles@
                                == p[pid].handles@.insert(
                                handle / 4,
                                HandleEntry { options, ..e },
                            )
                            &&& final(self).objects.processes@[pid].handles.used()
                                == p[pid].handles.used()
                            &&& r@ == block(
                                head(0, 0) + u32_bytes(
                                    if e.options & OBJ_INHERIT != 0 {
                                        1
                                    } else {
                                        0
                                    },
                                ),
                            )
                        },
                        None => *final(self) == *old(self) && r@ == block(
                            head(0, 0) + u32_bytes(0),
                        ),
                    }
                },
            },
    {
        let (handle, flags, mask): (u32, i32, i32) = match req {
            Some(q) => q,
            None => {
                return reply_status(STATUS_INVALID_PARAMETER);
            },
        };
        let pid: u32 = self.client_pid(client_fd);
        let e = match self.handle_entry(pid, handle) {
            Some(e) => e,
            None => {
                return reply_handle(0, 0);
            },
        };
        let options: u32 = if mask & 1 == 0 {
            e.options
        } else if flags & 1 != 0 {
            e.options | OBJ_INHERIT
        } else {
            e.options & !OBJ_INHERIT
        };
        match self.objects.processes.get_mut(pid) {
            Some(p) => {
                p.handles.set(handle, HandleEntry { options, ..e });
            },
            None => {},
        }
        let flag: u32 = if e.options & OBJ_INHERIT != 0 {
            1
        } else {
            0
        };
        reply_handle(0, flag)
    }

    /// What comes of a request for the descriptor behind a handle.
    pub fn handle_get_handle_fd(&self, client_fd: i32, handle: Option<u32>) -> (r: FdStep)
        requires
            self.wf(),
        ensures
            match handle {
                None => r matches FdStep::Done(a) && a@ == status(STATUS_INVALID_PARAMETER),
                Some(h) => fd_step(*self, client_fd, h, r),
            },
    {
        let h: u32 = match handle {
            Some(h) => h,
            None => {
                return FdStep::Done(reply_status(STATUS_INVALID_PARAMETER));
            },
        };
        if h == 0x7FFF_FFFF || h >= 0xFFFF_FFF0 {
            return FdStep::Done(reply_four(STATUS_OBJECT_TYPE_MISMATCH, 0, 1, 0, 0));
        }
        let pid: u32 = self.client_pid(client_fd);
        if h == 0 || pid == 0 {
            return FdStep::Done(reply_four(STATUS_INVALID_HANDLE, 0, 0, 0, 0));
        }
        match self.handle_entry(pid, h) {
            Some(e) => match e.fd {
                Some(fd) => FdStep::Duplicate { fd },
                None => FdStep::Done(reply_four(STATUS_OBJECT_TYPE_MISMATCH, 0, 1, 0, 0)),
            },
            None => {
                if self.sync.objects.contains_key((pid, h)) {
                    FdStep::Done(reply_four(STATUS_OBJECT_TYPE_MISMATCH, 0, 1, 0, 0))
                } else {
                    FdStep::Done(reply_four(STATUS_INVALID_HANDLE, 0, 0, 0, 0))
                }
            },
        }
    }

    /// Sends the duplicate of the descriptor behind a handle. Where none could be made there is no
    /// success: the client would wait for a descriptor that never comes.
    pub fn send_handle_fd(&mut self, client_fd: i32, handle: u32, dup_fd: i32) -> (r: Reply)
        requires
            old(self).wf(),
        ensures
            final(self).wf(),
            match entry_of(*old(self), client_fd, handle) {
                Some(e) => if dup_fd < 0 {
                    *final(self) == *old(self) && r@ == fd_answer(STATUS_NO_MEMORY, 0, 0, 0, 0)
                } else {
                    descriptor_sent(*old(self), *final(self), client_fd, handle, dup_fd) && r@
                        == fd_answer(0, e.obj_type, 1, e.access, e.options)
                },
                None => *final(self) == *old(self) && r@ == fd_answer(
                    STATUS_INVALID_HANDLE,
                    0,
                    0,
                    0,
                    0,
                ),
            },
    {
        let pid: u32 = self.client_pid(client_fd);
        if pid == 0 {
            return reply_four(STATUS_INVALID_HANDLE, 0, 0, 0, 0);
        }
        let e = match self.handle_entry(pid, handle) {
            Some(e) => e,
            None => {
                return reply_four(STATUS_INVALID_HANDLE, 0, 0, 0, 0);
            },
        };
        if dup_fd < 0 {
            return reply_four(STATUS_NO_MEMORY, 0, 0, 0, 0);
        }
        self.send_fd(client_fd, dup_fd, handle);
        if self.clients.clients.contains_key(client_fd) {
            self.side_tables.fd_sent.insert((pid, handle), ());
        } else {
            let _ = self.side_tables.fd_sent.remove((pid, handle));
        }
        reply_four(0, e.obj_type, 1, e.access, e.options)
    }

    fn find_process(&self, caller: Option<u32>, handle: u32) -> (r: Option<u32>)
        requires
            self.wf(),
        ensures
            r == process_of(*self, caller, handle),
    {
        match caller {
            None => None,
            Some(c) => {
                if handle == 0xFFFF_FFFF || handle == 0x7FFF_FFFF {
                    return caller;
                }
                match self.handle_entry(c, handle) {
                    Some(e) => Some(e.object_id as u32),
                    None => caller,
                }
            },
        }
    }

    fn find_caller(&self, client_fd: i32) -> (r: Option<u32>)
        requires
            self.wf(),
        ensures
            r == caller_of(*self, client_fd),
    {
        let pid: u32 = self.client_pid(client_fd);
        if pid != 0 {
            Some(pid)
        } else {
            None
        }
    }

    fn find_source(&self, client_fd: i32, q: DupHandleRequest) -> (r: Option<HandleEntry>)
        requires
            self.wf(),
        ensures
            r == source_entry(*self, client_fd, q),
    {
        let h: u32 = q.src_handle;
        if h == 0xFFFF_FFFE {
            let tid: u32 = match self.clients.clients.get(client_fd) {
                Some(c) => c.thread_id,
                None => 0,
            };
            return Some(
                HandleEntry {
                    object_id: tid as u64,
                    fd: None,
                    obj_type: 2,
                    access: 0x1F_FFFF,
                    options: 0,
                },
            );
        }
        if h == 0xFFFF_FFFF || h == 0x7FFF_FFFF {
            let pid: u32 = self.client_pid(client_fd);
            return Some(
                HandleEntry {
                    object_id: pid as u64,
                    fd: None,
                    obj_type: 1,
                    access: 0x1F_FFFF,
                    options: 0,
                },
            );
        }
        if h == 0xFFFF_FFFC {
            return Some(
                HandleEntry { object_id: 0, fd: None, obj_type: 5, access: 0xF_01FF, options: 0 },
            );
        }
        match self.find_process(self.find_caller(client_fd), q.src_process) {
            Some(p) => self.handle_entry(p, h),
            None => None,
        }
    }

    fn find_source_object(&self, client_fd: i32, q: DupHandleRequest) -> (r: Option<SyncObject>)
        requires
            self.wf(),
        ensures
            r == source_object(*self, client_fd, q),
    {
        match self.find_process(self.find_caller(client_fd), q.src_process) {
            Some(p) => match self.sync.objects.get((p, q.src_handle)) {
                Some(o) => Some(*o),
                None => None,
            },
            None => None,
        }
    }

    /// What a duplicate needs from outside; nothing where the handle stands for nothing.
    pub fn handle_to_dup(&self, client_fd: i32, q: DupHandleRequest) -> (r: Option<DupNeeds>)
        requires
            self.wf(),
        ensures
            r == dup_needs(*self, client_fd, q),
    {
        match self.find_source(client_fd, q) {
            Some(e) => {
                let caller = self.find_caller(client_fd);
                let room: bool = match self.find_process(caller, q.dst_process) {
                    Some(p) => match self.objects.processes.get(p) {
                        Some(process) => !process.handles.is_full(),
                        None => false,
                    },
                    None => false,
                };
                let object: Option<i32> = match self.find_source_object(client_fd, q) {
                    Some(o) => if room {
                        Some(o.fd)
                    } else {
                        None
                    },
                    None => None,
                };
                Some(DupNeeds { fd: e.fd, object })
            },
            None => None,
        }
    }

    fn place_dup_object(
        &mut self,
        key: (u32, u32),
        source: Option<SyncObject>,
        dup_object: Option<i32>,
    )
        requires
            old(self).wf(),
        ensures
            final(self).wf(),
            *final(self) == (EventLoop { sync: final(self).sync, ..*old(self) }),
            dup_object_placed(old(self).sync, final(self).sync, key, source, dup_object),
    {
        match (source, dup_object) {
            (Some(o), Some(fd)) => {
                self.sync.objects.insert(key, SyncObject { fd, kind: o.kind });
            },
            _ => {
                let fresh: Option<i32> = self.get_or_create_event(true, false);
                let ghost s = self.sync;
                assert(took_event(old(self).sync, s, true, false, fresh));
                match fresh {
                    Some(fd) => {
                        self.sync.objects.insert(key, SyncObject { fd, kind: SYNC_INTERNAL });
                    },
                    None => {},
                }
            },
        }
    }

    /// Duplicates a handle. `dup_fd` and `dup_object` are the duplicates of what stands behind it; what
    /// needs duplicating, `handle_to_dup` tells.
    pub fn handle_dup_handle(
        &mut self,
        client_fd: i32,
        req: Option<DupHandleRequest>,
        dup_fd: i32,
        dup_object: Option<i32>,
    ) -> (r: Reply)
        requires
            old(self).wf(),
        ensures
            final(self).wf(),
            match req {
                None => *final(self) == *old(self) && r@ == status(STATUS_INVALID_PARAMETER),
                Some(q) => match source_entry(*old(self), client_fd, q) {
                    Some(e) => exists|h: u32| #[trigger]
                        handle_duplicated(
                            *old(self),
                            *final(self),
                            client_fd,
                            q,
                            e,
                            dup_fd,
                            dup_object,
                            h,
                        ) && r@ == handle_answer(0, h),
                    None => *final(self) == *old(self) && r@ == status(STATUS_INVALID_HANDLE),
                },
            },
    {
        let q = match req {
            Some(q) => q,
            None => {
                return reply_status(STATUS_INVALID_PARAMETER);
            },
        };
        let e = match self.find_source(client_fd, q) {
            Some(e) => e,
            None => {
                return reply_status(STATUS_INVALID_HANDLE);
            },
        };
        let source = self.find_source_object(client_fd, q);
        let caller = self.find_caller(client_fd);
        let dst: u32 = match self.find_process(caller, q.dst_process) {
            Some(p) => p,
            None => {
                assert(handle_duplicated(
                    *old(self),
                    *self,
                    client_fd,
                    q,
                    e,
                    dup_fd,
                    dup_object,
                    0,
                ));
                return reply_handle(0, 0);
            },
        };
        let fd: Option<i32> = match e.fd {
            Some(_) => Some(dup_fd),
            None => None,
        };
        let access: u32 = if q.options & 2 != 0 {
            e.access
        } else {
            q.access
        };
        let h: u32 = self.allocate_in(dst, HandleEntry { fd, access, ..e });
        if h != 0 {
            self.place_dup_object((dst, h), source, dup_object);
        }
        assert(handle_duplicated(*old(self), *self, client_fd, q, e, dup_fd, dup_object, h));
        reply_handle(0, h)
    }

    /// Gives a client a handle to a directory or link of the object namespace.
    pub fn handle_open_directory(&mut self, client_fd: i32) -> (r: Reply)
        requires
            old(self).wf(),
        ensures
            final(self).wf(),
            exists|h: u32| #[trigger]
                waitable(*old(self), *final(self), client_fd, h) && r@ == (if h == 0 {
                    status(STATUS_NO_MEMORY)
                } else {
                    handle_answer(0, h)
                }),
    {
        let h: u32 = self.alloc_waitable_handle_for_client(client_fd);
        if h == 0 {
            reply_status(STATUS_NO_MEMORY)
        } else {
            reply_handle(0, h)
        }
    }

    /// Gives a client a handle to a link of the object namespace.
    pub fn handle_open_symlink(&mut self, client_fd: i32) -> (r: Reply)
        requires
            old(self).wf(),
        ensures
            final(self).wf(),
            exists|h: u32| #[trigger]
                waitable(*old(self), *final(self), client_fd, h) && r@ == (if h == 0 {
                    status(STATUS_NO_MEMORY)
                } else {
                    handle_answer(0, h)
                }),
    {
        self.handle_open_directory(client_fd)
    }

    /// Gives a client a handle to a new link of the object namespace.
    pub fn handle_create_symlink(&mut self, client_fd: i32) -> (r: Reply)
        requires
            old(self).wf(),
        ensures
            final(self).wf(),
            exists|h: u32| #[trigger]
                waitable(*old(self), *final(self), client_fd, h) && r@ == (if h == 0 {
                    status(STATUS_NO_MEMORY)
                } else {
                    handle_answer(0, h)
                }),
    {
        self.handle_open_directory(client_fd)
    }

    /// Tells the rights of a handle.
    pub fn handle_get_object_info(&self, client_fd: i32, handle: Option<u32>) -> (r: Reply)
        requires
            self.wf(),
        ensures
            match handle {
                None => r@ == status(STATUS_INVALID_PARAMETER),
                Some(h) => r@ == block(
                    head(0, 0) + u32_bytes(
                        match entry_in(
                            self.objects.processes@,
                            pid_of(self.clients.clients@, client_fd),
                            h,
                        ) {
                            Some(e) => e.access,
                            None => 0x1F_0FFF,
                        },
                    ) + u32_bytes(1) + u32_bytes(1) + u32_bytes(0),
                ),
            },
    {
        match handle {
            None => reply_status(STATUS_INVALID_PARAMETER),
            Some(h) => {
                let pid: u32 = self.client_pid(client_fd);
                let access: u32 = match self.handle_entry(pid, h) {
                    Some(e) => e.access,
                    None => 0x1F_0FFF,
                };
                reply_four(0, access, 1, 1, 0)
            },
        }
    }

    /// Tells the path of the file behind a handle. `path` is the path of the descriptor.
    pub fn handle_get_object_name(
        &self,
        client_fd: i32,
        buf: &[u8],
        handle: Option<u32>,
        path: &Option<String>,
    ) -> (r: Reply)
        requires
            self.wf(),
        ensures
            match handle {
                None => r@ == status(STATUS_BUFFER_TOO_SMALL),
                Some(h) => r@ == name_answer(
                    path_behind(
                        entry_in(
                            self.objects.processes@,
                            pid_of(self.clients.clients@, client_fd),
                            h,
                        ),
                        crate::wire::opt_view(*path),
                    ),
                    reply_room(buf@),
                ),
            },
    {
        let h: u32 = match handle {
            Some(h) => h,
            None => {
                return reply_status(STATUS_BUFFER_TOO_SMALL);
            },
        };
        let room: u32 = max_reply_vararg(buf);
        if self.fd_of_handle(client_fd, h).is_none() {
            return reply_status(0);
        }
        match path {
            Some(p) => {
                let nt = to_nt_path(p.as_str());
                let all = wire_of(nt.as_str());
                let v = copy_clipped(all.as_slice(), room as usize);
                let mut body = header(0, v.len() as u32);
                push_u32(&mut body, all.len() as u32);
                reply_vararg(body.as_slice(), v.as_slice())
            },
            None => reply_status(0),
        }
    }

    /// Whether two handles stand for the same object.
    pub fn handle_compare_objects(&self, client_fd: i32, req: Option<(u32, u32)>) -> (r: Reply)
        requires
            self.wf(),
        ensures
            r@ == status(
                match req {
                    None => STATUS_INVALID_PARAMETER,
                    Some((a, b)) => match (
                        object_id_of(*self, client_fd, a),
                        object_id_of(*self, client_fd, b),
                    ) {
                        (Some(x), Some(y)) => if x == y {
                            0
                        } else {
                            STATUS_NOT_SAME_OBJECT
                        },
                        _ => STATUS_INVALID_HANDLE,
                    },
                },
            ),
    {
        let (a, b): (u32, u32) = match req {
            Some(q) => q,
            None => {
                return reply_status(STATUS_INVALID_PARAMETER);
            },
        };
        let pid: u32 = self.client_pid(client_fd);
        match (self.handle_entry(pid, a), self.handle_entry(pid, b)) {
            (Some(x), Some(y)) => {
                if x.object_id == y.object_id {
                    reply_status(0)
                } else {
                    reply_status(STATUS_NOT_SAME_OBJECT)
                }
            },
            _ => reply_status(STATUS_INVALID_HANDLE),
        }
    }

    /// Tells the Unix path of the file behind a handle. `path` holds the bytes of the descriptor's path.
    pub fn handle_get_handle_unix_name(
        &self,
        client_fd: i32,
        buf: &[u8],
        handle: Option<u32>,
        path: &Option<Vec<u8>>,
    ) -> (r: Reply)
        requires
            self.wf(),
        ensures
            match handle {
                None => r@ == status(STATUS_INVALID_PARAMETER),
                Some(h) => match (
                    entry_in(
                        self.objects.processes@,
                        pid_of(self.clients.clients@, client_fd),
                        h,
                    ),
                    *path,
                ) {
                    (Some(HandleEntry { fd: Some(_), .. }), Some(p)) => {
                        let v = clipped(p@, reply_room(buf@) as int);
                        r@ == block(head(0, v.len() as u32) + u32_bytes(p@.len() as u32)) + v
                    },
                    _ => r@ == status(STATUS_INVALID_HANDLE),
                },
            },
    {
        let h: u32 = match handle {
            Some(h) => h,
            None => {
                return reply_status(STATUS_INVALID_PARAMETER);
            },
        };
        if self.fd_of_handle(client_fd, h).is_none() {
            return reply_status(STATUS_INVALID_HANDLE);
        }
        match path {
            Some(p) => {
                let room: u32 = max_reply_vararg(buf);
                let v = copy_clipped(p.as_slice(), room as usize);
                let mut body = header(0, v.len() as u32);
                push_u32(&mut body, p.len() as u32);
                reply_vararg(body.as_slice(), v.as_slice())
            },
            None => reply_status(STATUS_INVALID_HANDLE),
        }
    }

    /// Gives out a number that was not given out before.
    pub fn handle_allocate_locally_unique_id(&mut self) -> (r: Reply)
        requires
            old(self).wf(),
        ensures
            final(self).wf(),
            *final(self) == (EventLoop {
                objects: Objects {
                    next_object_id: bumped(old(self).objects.next_object_id),
                    ..old(self).objects
                },
                ..*old(self)
            }),
            r@ == block(
                head(0, 0) + u32_bytes(old(self).objects.next_object_id as u32) + u32_bytes(0),
            ),
    {
        let id: u64 = self.alloc_object_id();
        let mut body = header(0, 0);
        push_u32(&mut body, id as u32);
        push_u32(&mut body, 0);
        reply_fixed(body.as_slice())
    }
}

/// Where the link of a session's objects leads: all of them live in one directory.
pub fn handle_query_symlink() -> (r: Reply)
    ensures
        r@ == ({
            let v = text_wire("\\BaseNamedObjects"@);
            block(head(0, v.len() as u32) + u32_bytes(v.len() as u32)) + v
        }),
{
    let v = wire_of("\\BaseNamedObjects");
    let mut body = header(0, v.len() as u32);
    push_u32(&mut body, v.len() as u32);
    reply_vararg(body.as_slice(), v.as_slice())
}

/// With a handle all goes that was kept for it, and for no other handle; the end of a pipe that it stood for
/// is closed.
pub proof fn lemma_close_takes_all(before: EventLoop, after: EventLoop, pid: u32, handle: u32)
    requires
        handle_gone(before, after, pid, handle),
    ensures
        !after.side_tables.pipe_handles@.contains_key((pid, handle)),
        !after.side_tables.io_wait_handles@.contains_key((pid, handle)),
        !after.side_tables.fd_sent@.contains_key((pid, handle)),
        !after.side_tables.completion_bindings@.contains_key((pid, handle)),
        !after.sync.recyclable@.contains_key((pid, handle)),
        before.side_tables.pipe_handles@.contains_key((pid, handle)) ==> after.outbox@ == before.outbox@.push(
            Action::Close { fd: before.side_tables.pipe_handles@[(pid, handle)].data_fd },
        ),
        !before.side_tables.pipe_handles@.contains_key((pid, handle)) ==> after.outbox@ == before.outbox@,
        forall|k: (u32, u32)|
            k != (pid, handle) && #[trigger] before.side_tables.pipe_handles@.contains_key(k)
                ==> after.side_tables.pipe_handles@.contains_key(k),
        forall|k: (u32, u32)|
            k != (pid, handle) && #[trigger] before.side_tables.completion_bindings@.contains_key(k)
                ==> after.side_tables.completion_bindings@.contains_key(k),
        after.sync.objects@ == before.sync.objects@,
{
}

/// What is told of a descriptor: its kind at 8, whether the client may keep the answer at 12, the rights at
/// 16 and the options at 20.
pub proof fn lemma_descriptor_told(error: u32, kind: u32, cacheable: u32, access: u32, options: u32)
    ensures
        ({
            let r = fd_answer(error, kind, cacheable, access, options);
            &&& r.len() == 64
            &&& u32_at(r, 0) == error
            &&& u32_at(r, 4) == 0
            &&& u32_at(r, 8) == kind
            &&& u32_at(r, 12) == cacheable
            &&& u32_at(r, 16) == access
            &&& u32_at(r, 20) == options
        }),
{
    let body = head(error, 0) + u32_bytes(kind) + u32_bytes(cacheable) + u32_bytes(access) + u32_bytes(
        options,
    );
    assert(body.subrange(0, 4) =~= u32_bytes(error));
    lemma_word_told(body, Seq::empty(), 0, error);
    assert(body.subrange(4, 8) =~= u32_bytes(0));
    lemma_word_told(body, Seq::empty(), 4, 0);
    assert(body.subrange(8, 12) =~= u32_bytes(kind));
    lemma_word_told(body, Seq::empty(), 8, kind);
    assert(body.subrange(12, 16) =~= u32_bytes(cacheable));
    lemma_word_told(body, Seq::empty(), 12, cacheable);
    assert(body.subrange(16, 20) =~= u32_bytes(access));
    lemma_word_told(body, Seq::empty(), 16, access);
    assert(body.subrange(20, 24) =~= u32_bytes(options));
    lemma_word_told(body, Seq::empty(), 20, options);
}

/// The descriptor of a handle is duplicated where there is one. Handles that every process has, and those of
/// objects without a descriptor, are of the wrong kind, which the client may keep; anything else is no handle.
pub proof fn lemma_which_descriptors(s: EventLoop, client_fd: i32, handle: u32, step: FdStep)
    requires
        fd_step(s, client_fd, handle, step),
    ensures
        handle == 0x7FFF_FFFF || handle >= 0xFFFF_FFF0 ==> (step matches FdStep::Done(r) && u32_at(r@, 0)
            == 0xC000_0024 && u32_at(r@, 12) == 1),
        handle == 0 ==> (step matches FdStep::Done(r) && u32_at(r@, 0) == 0xC000_0008 && u32_at(r@, 12) == 0),
        0 < handle < 0x7FFF_FFFF ==> (entry_of(s, client_fd, handle) matches Some(e) ==> (e.fd matches Some(fd)
            ==> step == (FdStep::Duplicate { fd }))),
        0 < handle < 0x7FFF_FFFF ==> (entry_of(s, client_fd, handle) matches Some(e) ==> e.fd is None ==> (
        step matches FdStep::Done(r) && u32_at(r@, 0) == 0xC000_0024 && u32_at(r@, 12) == 1)),
        0 < handle < 0x7FFF_FFFF && entry_of(s, client_fd, handle) is None && !s.sync.objects@.contains_key(
            (pid_of(s.clients.clients@, client_fd), handle),
        ) ==> (step matches FdStep::Done(r) && u32_at(r@, 0) == 0xC000_0008),
{
    lemma_descriptor_told(0xC000_0024, 0, 1, 0, 0);
    lemma_descriptor_told(0xC000_0008, 0, 0, 0, 0);
}

/// A duplicate stands for the object that its source stands for, with the rights that were asked for or, with
/// the flag 2, those of the source; what can be waited for behind the source can be waited for behind it.
pub proof fn lemma_duplicate_is_the_same(
    before: EventLoop,
    after: EventLoop,
    client_fd: i32,
    q: DupHandleRequest,
    e: HandleEntry,
    dup_fd: i32,
    dup_object: Option<i32>,
    h: u32,
)
    requires
        handle_duplicated(before, after, client_fd, q, e, dup_fd, dup_object, h),
        h != 0,
    ensures
        process_of(before, caller_of(before, client_fd), q.dst_process) matches Some(p) && entry_in(
            after.objects.processes@,
            p,
            h,
        ) matches Some(x) && x.object_id == e.object_id && x.obj_type == e.obj_type && x.options == e.options
            && x.access == (if q.options & 2 == 0 {
            q.access
        } else {
            e.access
        }) && x.fd == (if e.fd is Some {
            Some(dup_fd)
        } else {
            None
        }) && entry_in(before.objects.processes@, p, h) is None,
        source_object(before, client_fd, q) matches Some(o) ==> (dup_object matches Some(fd) ==> (process_of(
            before,
            caller_of(before, client_fd),
            q.dst_process,
        ) matches Some(p) && after.sync.objects@.contains_key((p, h)) && after.sync.objects@[(p, h)].kind
            == o.kind && after.sync.objects@[(p, h)].fd == fd)),
        after.side_tables == before.side_tables && after.outbox == before.outbox,
{
    let p = process_of(before, caller_of(before, client_fd), q.dst_process)->Some_0;
    lemma_handle_given(before.objects.processes@, after.objects.processes@, p, dup_entry(e, q, dup_fd), h);
}

/// The handles that every process has: -2 is the calling thread, -1 (or what a wider number is cut to) the
/// calling process, and -4 a token. Any other handle is looked up in the process that is named.
pub proof fn lemma_handles_of_every_process(s: EventLoop, client_fd: i32, q: DupHandleRequest)
    ensures
        q.src_handle == 0xFFFF_FFFE ==> (source_entry(s, client_fd, q) matches Some(e) && e.object_id == tid_of(
            s.clients.clients@,
            client_fd,
        ) && e.obj_type == 2 && e.access == 0x1F_FFFF && e.fd is None && e.options == 0),
        q.src_handle == 0xFFFF_FFFF || q.src_handle == 0x7FFF_FFFF ==> (source_entry(s, client_fd, q) matches Some(
            e,
        ) && e.object_id == pid_of(s.clients.clients@, client_fd) && e.obj_type == 1 && e.access == 0x1F_FFFF
            && e.fd is None && e.options == 0),
        q.src_handle == 0xFFFF_FFFC ==> (source_entry(s, client_fd, q) matches Some(e) && e.object_id == 0
            && e.obj_type == 5 && e.access == 0xF_01FF && e.fd is None && e.options == 0),
        q.src_handle < 0x7FFF_FFFF && pid_of(s.clients.clients@, client_fd) != 0 && (q.src_process == 0xFFFF_FFFF
            || q.src_process == 0x7FFF_FFFF) ==> source_entry(s, client_fd, q) == entry_in(
            s.objects.processes@,
            pid_of(s.clients.clients@, client_fd),
            q.src_handle,
        ),
        q.src_handle < 0x7FFF_FFFF && pid_of(s.clients.clients@, client_fd) != 0 && q.src_process < 0x7FFF_FFFF
            ==> (entry_in(s.objects.processes@, pid_of(s.clients.clients@, client_fd), q.src_process) matches Some(
            p,
        ) ==> source_entry(s, client_fd, q) == entry_in(
            s.objects.processes@,
            p.object_id as u32,
            q.src_handle,
        )),
        q.src_handle < 0x7FFF_FFFF && pid_of(s.clients.clients@, client_fd) == 0 ==> source_entry(
            s,
            client_fd,
            q,
        ) is None,
{
}

/// The name of a file is told cut to the room that there is, and its whole length with it.
pub proof fn lemma_name_told(p: Seq<char>, room: u32)
    requires
        text_wire(nt_path(p)).len() <= u32::MAX,
    ensures
        ({
            let r = name_answer(Some(p), room);
            let all = text_wire(nt_path(p));
            &&& u32_at(r, 0) == 0
            &&& u32_at(r, 8) == all.len()
            &&& u32_at(r, 4) == r.len() - 64
            &&& all.len() <= room ==> r.skip(64) == all
            &&& all.len() > room ==> r.skip(64) == all.take(room as int)
        }),
        u32_at(name_answer(None, room), 0) == 0,
{
    let all = text_wire(nt_path(p));
    let v = clipped(all, room as int);
    let body = head(0, v.len() as u32) + u32_bytes(all.len() as u32);
    assert(body.subrange(0, 4) =~= u32_bytes(0));
    lemma_word_told(body, v, 0, 0);
    assert(body.subrange(4, 8) =~= u32_bytes(v.len() as u32));
    lemma_word_told(body, v, 4, v.len() as u32);
    assert(body.subrange(8, 12) =~= u32_bytes(all.len() as u32));
    lemma_word_told(body, v, 8, all.len() as u32);
    lemma_answer_told(0, 0);
}

/// A descriptor that a client asks for waits for the client under its handle, and the daemon knows that the
/// client has it.
pub proof fn lemma_descriptor_is_sent(before: EventLoop, after: EventLoop, client_fd: i32, handle: u32, dup_fd: i32)
    requires
        descriptor_sent(before, after, client_fd, handle, dup_fd),
        before.clients.clients@.contains_key(client_fd),
    ensures
        after.clients.clients@[client_fd].pending_fd == Some((dup_fd, handle)),
        after.side_tables.fd_sent@.contains_key((before.clients.clients@[client_fd].process_id, handle)),
{
}

/// Whether child processes inherit a handle is the second bit of its options.
pub proof fn lemma_inherit_bit()
    ensures
        OBJ_INHERIT == 2,
{
}

} // verus!
