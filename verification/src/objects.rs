//! Handles, processes and threads.
use vstd::prelude::*;

verus! {

pub const FD_TYPE_FILE: u32 = 1;

pub const FD_TYPE_DIR: u32 = 2;

pub const FD_TYPE_SOCKET: u32 = 3;

pub const FD_TYPE_PIPE: u32 = 5;

pub const FD_TYPE_CHAR: u32 = 7;

pub const FD_TYPE_DEVICE: u32 = 8;

/// Handle values stay below the pseudo-handles.
pub const MAX_SLOTS: usize = 0x3FFF_FFFB;

/// What a handle stands for in one process.
#[derive(Clone, Copy)]
pub struct HandleEntry {
    pub object_id: u64,
    pub fd: Option<i32>,
    pub obj_type: u32,
    pub access: u32,
    pub options: u32,
}

impl HandleEntry {
    pub fn with_fd(object_id: u64, fd: i32, obj_type: u32, access: u32, options: u32) -> (r: Self)
        ensures
            r == (HandleEntry { object_id, fd: Some(fd), obj_type, access, options }),
    {
        HandleEntry { object_id, fd: Some(fd), obj_type, access, options }
    }

    /// The entry of an object that has no descriptor.
    pub fn bare(object_id: u64) -> (r: Self)
        ensures
            r == bare_entry(object_id),
    {
        HandleEntry { object_id, fd: None, obj_type: 0, access: 0, options: 0 }
    }
}

pub open spec fn bare_entry(object_id: u64) -> HandleEntry {
    HandleEntry { object_id, fd: None, obj_type: 0, access: 0, options: 0 }
}

/// The handles of one process. Slot `n` has the handle `4 * n`; a slot is used once and never again,
/// for clients keep descriptors by handle value.
pub struct HandleTable {
    slots: Vec<Option<HandleEntry>>,
}

impl View for HandleTable {
    type V = Map<u32, HandleEntry>;

    /// The entries by slot.
    closed spec fn view(&self) -> Map<u32, HandleEntry> {
        Map::new(
            |n: u32| 1 <= n <= self.slots@.len() && self.slots@[n - 1] is Some,
            |n: u32| self.slots@[n - 1]->0,
        )
    }
}

impl HandleTable {
    /// How many slots were ever used.
    pub closed spec fn used(&self) -> nat {
        self.slots@.len()
    }

    /// The handle that the next allocation gives, or 0 where the table is full.
    pub open spec fn next(&self) -> u32 {
        if self.used() < MAX_SLOTS {
            (4 * (self.used() + 1)) as u32
        } else {
            0
        }
    }

    pub open spec fn entry(&self, handle: u32) -> Option<HandleEntry> {
        if self@.contains_key(handle / 4) {
            Some(self@[handle / 4])
        } else {
            None
        }
    }

    /// Entries stand in used slots only.
    pub proof fn lemma_slots_used(&self)
        ensures
            forall|n: u32| #[trigger] self@.contains_key(n) ==> 1 <= n <= self.used(),
            self.entry(0) is None,
    {
    }

    pub fn new() -> (t: Self)
        ensures
            t@ == Map::<u32, HandleEntry>::empty(),
            t.used() == 0,
    {
        let t = HandleTable { slots: Vec::new() };
        assert(t@ =~= Map::<u32, HandleEntry>::empty());
        t
    }

    /// Whether there is no room for another handle.
    pub fn is_full(&self) -> (r: bool)
        ensures
            r == (self.next() == 0),
    {
        self.slots.len() >= MAX_SLOTS
    }

    /// Gives the entry a handle that was never given before; 0 where the table is full.
    pub fn allocate_full(&mut self, e: HandleEntry) -> (handle: u32)
        ensures
            handle == old(self).next(),
            handle == 0 ==> final(self)@ == old(self)@ && final(self).used() == old(self).used(),
            handle != 0 ==> final(self)@ == old(self)@.insert(handle / 4, e) && final(self).used()
                == old(self).used() + 1,
            handle != 0 ==> !old(self)@.contains_key(handle / 4),
            final(self).used() >= old(self).used(),
    {
        let n: usize = self.slots.len();
        if n >= MAX_SLOTS {
            return 0;
        }
        self.slots.push(Some(e));
        let handle: u32 = 4 * (n as u32 + 1);
        assert(self@ =~= old(self)@.insert(handle / 4, e));
        handle
    }

    /// Gives an object without a descriptor a handle.
    pub fn allocate(&mut self, object_id: u64) -> (handle: u32)
        ensures
            handle == old(self).next(),
            handle == 0 ==> final(self)@ == old(self)@ && final(self).used() == old(self).used(),
            handle != 0 ==> final(self)@ == old(self)@.insert(handle / 4, bare_entry(object_id))
                && final(self).used() == old(self).used() + 1,
            final(self).used() >= old(self).used(),
    {
        self.allocate_full(HandleEntry::bare(object_id))
    }

    pub fn get(&self, handle: u32) -> (r: Option<HandleEntry>)
        ensures
            r == self.entry(handle),
    {
        let n: usize = (handle / 4) as usize;
        if n >= 1 && n <= self.slots.len() {
            self.slots[n - 1]
        } else {
            None
        }
    }

    /// Replaces the entry of a handle; a handle that stands for nothing is left alone.
    pub fn set(&mut self, handle: u32, e: HandleEntry)
        ensures
            old(self).entry(handle) is Some ==> final(self)@ == old(self)@.insert(handle / 4, e),
            old(self).entry(handle) is None ==> final(self)@ == old(self)@,
            final(self).used() == old(self).used(),
    {
        let n: usize = (handle / 4) as usize;
        if n >= 1 && n <= self.slots.len() {
            if self.slots[n - 1].is_some() {
                self.slots[n - 1] = Some(e);
                assert(self@ =~= old(self)@.insert(handle / 4, e));
            }
        }
    }

    /// Takes the entry of a handle out. Its slot stays used.
    pub fn close(&mut self, handle: u32) -> (r: Option<HandleEntry>)
        ensures
            r == old(self).entry(handle),
            final(self)@ == old(self)@.remove(handle / 4),
            final(self).used() == old(self).used(),
    {
        let n: usize = (handle / 4) as usize;
        let r = self.get(handle);
        if n >= 1 && n <= self.slots.len() {
            self.slots[n - 1] = None;
        }
        assert(self@ =~= old(self)@.remove(handle / 4));
        r
    }
}

/// A handle that was closed stands for nothing, and no later allocation gives it out: what the table
/// hands out next lies above every slot that was ever used.
pub proof fn lemma_handle_not_reused(before: HandleTable, after: HandleTable, handle: u32)
    requires
        handle / 4 <= before.used(),
        before.used() <= after.used(),
        after.next() != 0,
    ensures
        after.next() / 4 > handle / 4,
{
}

/// A process of the session.
pub struct Process {
    pub handles: HandleTable,
    pub threads: Vec<u32>,
    pub exit_code: i32,
    pub startup_done: bool,
    pub idle_signaled: bool,
    pub exe_image_info: Option<Vec<u8>>,
}

/// A thread of the session.
#[derive(Clone, Copy)]
pub struct Thread {
    pub pid: u32,
    pub suspend_count: i32,
}

/// The entry of a handle in a process.
pub open spec fn entry_in(p: Map<u32, Process>, pid: u32, handle: u32) -> Option<HandleEntry> {
    if p.contains_key(pid) {
        p[pid].handles.entry(handle)
    } else {
        None
    }
}

/// Only the handles of one process changed.
pub open spec fn handles_changed(before: Map<u32, Process>, after: Map<u32, Process>, pid: u32) -> bool {
    &&& before.contains_key(pid)
    &&& after == before.insert(pid, after[pid])
    &&& after[pid] == (Process { handles: after[pid].handles, ..before[pid] })
}

/// An entry was given the handle `handle` in a process; 0 where there is no process or no room.
pub open spec fn allocated(
    before: Map<u32, Process>,
    after: Map<u32, Process>,
    pid: u32,
    e: HandleEntry,
    handle: u32,
) -> bool {
    if before.contains_key(pid) {
        &&& handle == before[pid].handles.next()
        &&& handles_changed(before, after, pid)
        &&& after[pid].handles@ == (if handle == 0 {
            before[pid].handles@
        } else {
            before[pid].handles@.insert(handle / 4, e)
        })
        &&& after[pid].handles.used() == before[pid].handles.used() + (if handle == 0 {
            0int
        } else {
            1int
        })
    } else {
        handle == 0 && after == before
    }
}

/// Whether a list holds a number.
pub fn holds(list: &Vec<u32>, x: u32) -> (r: bool)
    ensures
        r == list@.contains(x),
{
    let mut i: usize = 0;
    while i < list.len()
        invariant
            i <= list@.len(),
            forall|j: int| 0 <= j < i ==> list@[j] != x,
        decreases list@.len() - i,
    {
        if list[i] == x {
            return true;
        }
        i = i + 1;
    }
    false
}

/// A handle that is given out is a multiple of four that stood for nothing; it stands for the entry that it
/// was given for, and every other handle of every process stands for what it did.
pub proof fn lemma_handle_given(
    before: Map<u32, Process>,
    after: Map<u32, Process>,
    pid: u32,
    e: HandleEntry,
    handle: u32,
)
    requires
        allocated(before, after, pid, e, handle),
    ensures
        handle != 0 ==> handle % 4 == 0 && handle < 0x7FFF_FFFF * 2 && entry_in(before, pid, handle) is None
            && entry_in(after, pid, handle) == Some(e),
        forall|p: u32, h: u32|
            p != pid || h / 4 != handle / 4 ==> #[trigger] entry_in(after, p, h) == entry_in(before, p, h),
        before.contains_key(pid) && before[pid].handles.used() < 0x3FFF_FFFB ==> handle != 0,
{
    if before.contains_key(pid) {
        before[pid].handles.lemma_slots_used();
    }
}

/// The numbers of the kinds of descriptors.
pub proof fn lemma_kinds_of_descriptors()
    ensures
        FD_TYPE_FILE == 1 && FD_TYPE_DIR == 2 && FD_TYPE_SOCKET == 3 && FD_TYPE_PIPE == 5 && FD_TYPE_CHAR == 7
            && FD_TYPE_DEVICE == 8,
{
}

} // verus!
