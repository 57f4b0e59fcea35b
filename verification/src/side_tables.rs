//! State kept per handle of a process, and its clean-up.
use crate::table::{enumerates, owned, part, rest, Table};
use vstd::prelude::*;

verus! {

/// A handle that is one end of a pipe.
#[derive(Clone, Copy)]
pub struct PipeHandle {
    pub data_fd: i32,
}

/// All state that is keyed by a process and one of its handles.
pub struct HandleSideTables {
    /// The pipe end behind a handle.
    pub pipe_handles: Table<(u32, u32), PipeHandle>,
    /// The wait handle that signals completed input or output on a handle.
    pub io_wait_handles: Table<(u32, u32), u32>,
    /// The handles whose descriptor the client holds.
    pub fd_sent: Table<(u32, u32), ()>,
    /// The completion port that a handle reports to, and the key.
    pub completion_bindings: Table<(u32, u32), (u32, u64)>,
}

/// The descriptors of pipe ends in the order in which they are closed.
pub open spec fn data_fds(s: Seq<((u32, u32), PipeHandle)>) -> Seq<i32> {
    s.map_values(|e: ((u32, u32), PipeHandle)| e.1.data_fd)
}

impl HandleSideTables {
    pub open spec fn wf(&self) -> bool {
        &&& self.pipe_handles.wf()
        &&& self.io_wait_handles.wf()
        &&& self.fd_sent.wf()
        &&& self.completion_bindings.wf()
    }

    /// Nothing is kept for a handle.
    pub open spec fn clear_of(&self, pid: u32, handle: u32) -> bool {
        &&& !self.pipe_handles@.contains_key((pid, handle))
        &&& !self.io_wait_handles@.contains_key((pid, handle))
        &&& !self.fd_sent@.contains_key((pid, handle))
        &&& !self.completion_bindings@.contains_key((pid, handle))
    }

    pub fn new() -> (r: Self)
        ensures
            r.wf(),
            r.pipe_handles@ == Map::<(u32, u32), PipeHandle>::empty(),
            r.io_wait_handles@ == Map::<(u32, u32), u32>::empty(),
            r.fd_sent@ == Map::<(u32, u32), ()>::empty(),
            r.completion_bindings@ == Map::<(u32, u32), (u32, u64)>::empty(),
    {
        HandleSideTables {
            pipe_handles: Table::new(),
            io_wait_handles: Table::new(),
            fd_sent: Table::new(),
            completion_bindings: Table::new(),
        }
    }

    /// Removes all that is kept for a handle. Returns the wait handle that was kept; the descriptor
    /// of a pipe end goes to `closed`.
    pub fn purge(&mut self, pid: u32, handle: u32, closed: &mut Vec<i32>) -> (r: Option<u32>)
        requires
            old(self).wf(),
        ensures
            final(self).wf(),
            final(self).pipe_handles@ == old(self).pipe_handles@.remove((pid, handle)),
            final(self).io_wait_handles@ == old(self).io_wait_handles@.remove((pid, handle)),
            final(self).fd_sent@ == old(self).fd_sent@.remove((pid, handle)),
            final(self).completion_bindings@ == old(self).completion_bindings@.remove(
                (pid, handle),
            ),
            r == (if old(self).io_wait_handles@.contains_key((pid, handle)) {
                Some(old(self).io_wait_handles@[(pid, handle)])
            } else {
                None
            }),
            final(closed)@ == (if old(self).pipe_handles@.contains_key((pid, handle)) {
                old(closed)@.push(old(self).pipe_handles@[(pid, handle)].data_fd)
            } else {
                old(closed)@
            }),
    {
        match self.pipe_handles.remove((pid, handle)) {
            Some(ph) => closed.push(ph.data_fd),
            None => {},
        }
        let r = self.io_wait_handles.remove((pid, handle));
        let _ = self.fd_sent.remove((pid, handle));
        let _ = self.completion_bindings.remove((pid, handle));
        r
    }

    /// Removes all that is kept for a process. The descriptors of its pipe ends go to `closed`.
    pub fn purge_pid(&mut self, pid: u32, closed: &mut Vec<i32>)
        requires
            old(self).wf(),
        ensures
            final(self).wf(),
            final(self).pipe_handles@ == rest(old(self).pipe_handles@, owned(pid)),
            final(self).io_wait_handles@ == rest(old(self).io_wait_handles@, owned(pid)),
            final(self).fd_sent@ == rest(old(self).fd_sent@, owned(pid)),
            final(self).completion_bindings@ == rest(old(self).completion_bindings@, owned(pid)),
            exists|s: Seq<((u32, u32), PipeHandle)>| #[trigger]
                enumerates(s, part(old(self).pipe_handles@, owned(pid))) && final(closed)@ == old(closed)@ + data_fds(s),
    {
        let gone: Vec<((u32, u32), PipeHandle)> = self.pipe_handles.extract_owner(pid);
        let mut i: usize = 0;
        while i < gone.len()
            invariant
                i <= gone@.len(),
                closed@ == old(closed)@ + data_fds(gone@).take(i as int),
            decreases gone@.len() - i,
        {
            closed.push(gone[i].1.data_fd);
            i = i + 1;
            assert(closed@ =~= old(closed)@ + data_fds(gone@).take(i as int));
        }
        assert(data_fds(gone@).take(gone@.len() as int) =~= data_fds(gone@));
        let _ = self.io_wait_handles.extract_owner(pid);
        let _ = self.fd_sent.extract_owner(pid);
        let _ = self.completion_bindings.extract_owner(pid);
    }
}

/// After a process was purged nothing is kept for any of its handles, and what other processes have
/// is as before.
pub proof fn lemma_purged_pid(before: HandleSideTables, after: HandleSideTables, pid: u32)
    requires
        after.pipe_handles@ == rest(before.pipe_handles@, owned(pid)),
        after.io_wait_handles@ == rest(before.io_wait_handles@, owned(pid)),
        after.fd_sent@ == rest(before.fd_sent@, owned(pid)),
        after.completion_bindings@ == rest(before.completion_bindings@, owned(pid)),
    ensures
        forall|h: u32| after.clear_of(pid, h),
        forall|q: u32, h: u32|
            q != pid ==> (before.clear_of(q, h) <==> #[trigger] after.clear_of(q, h)),
{
}

/// After a handle was purged nothing is kept for it, and what other handles have is as before.
pub proof fn lemma_purged(before: HandleSideTables, after: HandleSideTables, pid: u32, handle: u32)
    requires
        after.pipe_handles@ == before.pipe_handles@.remove((pid, handle)),
        after.io_wait_handles@ == before.io_wait_handles@.remove((pid, handle)),
        after.fd_sent@ == before.fd_sent@.remove((pid, handle)),
        after.completion_bindings@ == before.completion_bindings@.remove((pid, handle)),
    ensures
        after.clear_of(pid, handle),
        forall|q: u32, h: u32|
            (q, h) != (pid, handle) ==> (before.clear_of(q, h) <==> #[trigger] after.clear_of(q, h)),
{
}

} // verus!
