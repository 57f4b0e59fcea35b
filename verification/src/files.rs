//! Files: opening, reading, writing, and what is told of them.
use crate::access::{file_access, map_file_access};
use crate::bytes::{
    i64_bits, lemma_read_back_u32, lemma_read_back_u64, u64_at, clipped, copy_clipped, copy_range, i64_bytes, push_all, push_i64, push_u32, read_u32, u32_at,
    u32_bytes, zeros,
};
use crate::mappings::handle_given;
use crate::objects::{
    allocated, entry_in, HandleEntry, FD_TYPE_CHAR, FD_TYPE_DEVICE, FD_TYPE_DIR, FD_TYPE_FILE,
    FD_TYPE_PIPE, FD_TYPE_SOCKET,
};
use crate::pipes::{
    async_of, lemma_ioctl_told, instance_in, ioctl_answer, pipe_connected, pipe_wait, read_async, read_room, AsyncData,
};
use crate::state::{
    bumped, pid_of, tid_of, took_event, with_signal, Action, AsyncPipeRead, Clients, EventLoop,
    Objects, PendingRead, PipeState, Pipes, Sync, SyncObject, SYNC_INTERNAL,
};
use crate::table::list_of;
use crate::text::{
    after_last, byte_units, chars_of, contains_text, has_sub, lowercase, string_range, tail_after,
    to_lowercase, utf16_text, utf16le_to_string,
};
use crate::wire::{
    block, handle_answer, head, header, lemma_answer_told, lemma_fields_told, lemma_word_told, max_reply_vararg,
    objattr_name_range, reply_four, reply_handle,
    reply_room, reply_status, reply_two, reply_vararg, status, vararg, vararg_of, Reply,
    STATUS_INFO_LENGTH_MISMATCH, STATUS_INVALID_HANDLE, STATUS_INVALID_PARAMETER,
    STATUS_IO_DEVICE_ERROR, STATUS_NOT_IMPLEMENTED, STATUS_NO_MEMORY, STATUS_OBJECT_NAME_NOT_FOUND,
    STATUS_OBJECT_TYPE_MISMATCH, STATUS_PENDING, STATUS_PIPE_BROKEN, STATUS_PIPE_BUSY,
};
use vstd::prelude::*;
use vstd::utf8::{decode_utf8, valid_utf8};

verus! {

/// `String::from_utf8`: bytes that are UTF-8 give the text that they encode, and others an error.
#[verifier::external_body]
fn text_from_utf8(b: Vec<u8>) -> (r: Option<String>)
    ensures
        r is Some <==> valid_utf8(b@),
        r matches Some(s) ==> s@ == decode_utf8(b@),
{
    String::from_utf8(b).ok()
}

/// The bits of a file's mode that tell its kind.
pub const S_IFMT: u32 = 0o170000;

pub const S_IFDIR: u32 = 0o040000;

pub const S_IFCHR: u32 = 0o020000;

pub const S_IFSOCK: u32 = 0o140000;

/// The kind of a descriptor, by the mode of its file; a file where that is not known.
pub open spec fn fd_type(mode: Option<u32>) -> u32 {
    match mode {
        Some(m) => if m & S_IFMT == S_IFDIR {
            FD_TYPE_DIR
        } else if m & S_IFMT == S_IFSOCK {
            FD_TYPE_SOCKET
        } else if m & S_IFMT == S_IFCHR {
            FD_TYPE_CHAR
        } else {
            FD_TYPE_FILE
        },
        None => FD_TYPE_FILE,
    }
}

fn type_of_mode(mode: Option<u32>) -> (r: u32)
    ensures
        r == fd_type(mode),
{
    match mode {
        Some(m) => {
            let kind: u32 = m & S_IFMT;
            if kind == S_IFDIR {
                FD_TYPE_DIR
            } else if kind == S_IFSOCK {
                FD_TYPE_SOCKET
            } else if kind == S_IFCHR {
                FD_TYPE_CHAR
            } else {
                FD_TYPE_FILE
            }
        },
        None => FD_TYPE_FILE,
    }
}

#[derive(Clone, Copy, Debug, PartialEq, Eq)]
pub struct CreateFileRequest {
    pub access: u32,
    pub options: u32,
    pub create: i32,
}

/// How a request to open a file goes on.
pub enum FileStep {
    Done(Reply),
    /// Connect to the pipe of this name.
    Pipe { name: String },
    /// Open a directory, and make it before where it is missing and `create` holds.
    OpenDir { path: String, create: bool },
    /// Open a file by the attempts for `write` and `create`.
    Open { path: String, write: bool, create: bool },
}

/// A number without its lowest bit.
pub open spec fn even(n: u32) -> int {
    n - n % 2
}

/// Where a file's path stands behind the object attributes.
pub open spec fn path_start(v: Seq<u8>) -> int {
    if v.len() >= 16 {
        (16 + even(u32_at(v, 8)) + even(u32_at(v, 12)) + 3) / 4 * 4
    } else {
        0
    }
}

/// Bytes without the zeros at their start.
pub open spec fn from_nonzero(b: Seq<u8>) -> Seq<u8>
    decreases b.len(),
{
    if b.len() > 0 && b[0] == 0 {
        from_nonzero(b.skip(1))
    } else {
        b
    }
}

/// A text without the zeros at its end.
pub open spec fn without_zeros(s: Seq<char>) -> Seq<char>
    decreases s.len(),
{
    if s.len() > 0 && s.last() == '\0' {
        without_zeros(s.drop_last())
    } else {
        s
    }
}

/// The path of the file that a request opens; empty where it has none.
pub open spec fn request_path(v: Seq<u8>) -> Seq<char> {
    if path_start(v) >= v.len() {
        Seq::empty()
    } else {
        let b = from_nonzero(v.skip(path_start(v)));
        if valid_utf8(b) {
            without_zeros(decode_utf8(b))
        } else {
            Seq::empty()
        }
    }
}

/// The last component of the name in the object attributes, in lower case.
pub open spec fn attr_basename(v: Seq<u8>) -> Seq<char> {
    after_last(
        lowercase(
            match objattr_name_range(v) {
                Some((from, to)) => utf16_text(byte_units(v.subrange(from, to))),
                None => Seq::empty(),
            },
        ),
        '\\',
    )
}

/// A disposition under which a missing file is created.
pub open spec fn may_create(create: i32) -> bool {
    create == 0 || create == 2 || create == 3 || create == 5
}

/// The step asks for a pipe with a name, or says that there is no such object where the name is empty.
pub open spec fn pipe_asked(base: Seq<char>, step: FileStep) -> bool {
    if base.len() > 0 {
        step matches FileStep::Pipe { name } && name@ == base
    } else {
        step matches FileStep::Done(r) && r@ == status(STATUS_OBJECT_NAME_NOT_FOUND)
    }
}

/// How a request to open a file goes on.
pub open spec fn file_step(v: Seq<u8>, q: CreateFileRequest, step: FileStep) -> bool {
    let path = request_path(v);
    if path.len() == 0 {
        pipe_asked(attr_basename(v), step)
    } else if q.options & 1 != 0 {
        step matches FileStep::OpenDir { path: p, create } && p@ == path && create == may_create(
            q.create,
        )
    } else {
        step matches FileStep::Open { path: p, write, create } && p@ == path && write == (q.access
            & 0x4000_0000 != 0) && create == may_create(q.create)
    }
}

fn skip_zeros(b: &[u8], from: usize) -> (r: Vec<u8>)
    requires
        from <= b@.len(),
    ensures
        r@ == from_nonzero(b@.skip(from as int)),
{
    let mut i: usize = from;
    while i < b.len() && b[i] == 0
        invariant
            from <= i <= b@.len(),
            from_nonzero(b@.skip(i as int)) == from_nonzero(b@.skip(from as int)),
        decreases b@.len() - i,
    {
        assert(b@.skip(i as int).skip(1) =~= b@.skip(i + 1));
        i = i + 1;
    }
    let r = copy_range(b, i, b.len());
    assert(r@ =~= b@.skip(i as int));
    r
}

fn cut_zeros(s: &str) -> (r: String)
    ensures
        r@ == without_zeros(s@),
{
    let x = chars_of(s);
    let mut n: usize = x.len();
    assert(x@.take(n as int) =~= x@);
    while n > 0 && x[n - 1] == '\0'
        invariant
            n <= x@.len(),
            without_zeros(x@.take(n as int)) == without_zeros(x@),
        decreases n,
    {
        assert(x@.take(n as int).drop_last() =~= x@.take(n - 1));
        n = n - 1;
    }
    let r = string_range(&x, 0, n);
    assert(r@ =~= x@.take(n as int));
    r
}

fn read_path(v: &[u8]) -> (r: String)
    ensures
        r@ == request_path(v@),
{
    let start: u64 = if v.len() >= 16 {
        let sd: u64 = read_u32(v, 8) as u64;
        let name: u64 = read_u32(v, 12) as u64;
        (16 + (sd - sd % 2) + (name - name % 2) + 3) / 4 * 4
    } else {
        0
    };
    assert(start == path_start(v@));
    if start >= v.len() as u64 {
        let r = String::new();
        assert(r@ =~= Seq::<char>::empty());
        return r;
    }
    let b = skip_zeros(v, start as usize);
    match text_from_utf8(b) {
        Some(s) => cut_zeros(s.as_str()),
        None => {
            let r = String::new();
            assert(r@ =~= Seq::<char>::empty());
            r
        },
    }
}

fn read_lower_name(v: &[u8]) -> (r: String)
    ensures
        after_last(r@, '\\') == attr_basename(v@),
{
    let mut name = String::new();
    let n: usize = v.len();
    assert(name@ =~= Seq::<char>::empty());
    if n >= 16 {
        let sd_len: u64 = read_u32(v, 8) as u64;
        let name_len: u64 = read_u32(v, 12) as u64;
        if name_len != 0 && 16 + sd_len + name_len <= n as u64 {
            let from: usize = 16 + sd_len as usize;
            let raw = copy_range(v, from, from + name_len as usize);
            name = utf16le_to_string(raw.as_slice());
        }
    }
    to_lowercase(name.as_str())
}

/// How a request goes on that names no path: it asks for the pipe with the last component of its name,
/// which is in lower case.
pub fn pipe_step(lower: &str) -> (r: FileStep)
    ensures
        pipe_asked(after_last(lower@, '\\'), r),
{
    let name = tail_after(lower, '\\');
    if name.as_str().is_empty() {
        return FileStep::Done(reply_status(STATUS_OBJECT_NAME_NOT_FOUND));
    }
    FileStep::Pipe { name }
}

/// How a request to open a file goes on.
pub fn handle_create_file(buf: &[u8], req: Option<CreateFileRequest>) -> (r: FileStep)
    ensures
        match req {
            None => r matches FileStep::Done(a) && a@ == status(STATUS_INVALID_PARAMETER),
            Some(q) => file_step(vararg_of(buf@), q, r),
        },
        req matches Some(q) ==> (r matches FileStep::Open { create, .. } ==> (create <==> q.create == 0
            || q.create == 2 || q.create == 3 || q.create == 5)),
        req matches Some(q) ==> (r matches FileStep::OpenDir { create, .. } ==> (create <==> q.create == 0
            || q.create == 2 || q.create == 3 || q.create == 5)),
{
    let q = match req {
        Some(q) => q,
        None => {
            return FileStep::Done(reply_status(STATUS_INVALID_PARAMETER));
        },
    };
    let v = vararg(buf);
    let path = read_path(v.as_slice());
    if path.as_str().is_empty() {
        let lower = read_lower_name(v.as_slice());
        return pipe_step(lower.as_str());
    }
    let create: bool = q.create == 0 || q.create == 2 || q.create == 3 || q.create == 5;
    if q.options & 1 != 0 {
        FileStep::OpenDir { path, create }
    } else {
        FileStep::Open { path, write: q.access & 0x4000_0000 != 0, create }
    }
}

/// A way to open a file.
#[derive(Clone, Copy, Debug, PartialEq, Eq)]
pub enum Attempt {
    ReadOnly,
    ReadWrite,
    /// For reading and writing; a missing file is created, and its directory before.
    Create,
}

/// The ways in which a file is opened, until one succeeds.
pub open spec fn attempts(write: bool, create: bool) -> Seq<Attempt> {
    seq![
        if write {
            Attempt::ReadWrite
        } else {
            Attempt::ReadOnly
        },
    ] + (if create {
        seq![Attempt::Create]
    } else {
        Seq::empty()
    }) + seq![Attempt::ReadOnly]
}

pub fn open_attempts(write: bool, create: bool) -> (r: Vec<Attempt>)
    ensures
        r@ == attempts(write, create),
{
    let mut out: Vec<Attempt> = Vec::new();
    out.push(
        if write {
            Attempt::ReadWrite
        } else {
            Attempt::ReadOnly
        },
    );
    if create {
        out.push(Attempt::Create);
    }
    out.push(Attempt::ReadOnly);
    assert(out@ =~= attempts(write, create));
    out
}

/// The entry of a handle to a file.
pub open spec fn file_entry(object_id: u64, fd: i32, mode: Option<u32>, access: u32, options: u32) -> HandleEntry {
    HandleEntry {
        object_id,
        fd: Some(fd),
        obj_type: fd_type(mode),
        access: file_access(access),
        options,
    }
}

/// An object's number was taken.
pub open spec fn number_taken(before: EventLoop) -> EventLoop {
    EventLoop {
        objects: Objects {
            next_object_id: bumped(before.objects.next_object_id),
            ..before.objects
        },
        ..before
    }
}

/// A client was given a handle to an open file. An event that is set stands behind it for those who wait
/// on the handle.
pub open spec fn file_handle_made(
    before: EventLoop,
    after: EventLoop,
    client_fd: i32,
    fd: i32,
    mode: Option<u32>,
    access: u32,
    options: u32,
    r: Seq<u8>,
) -> bool {
    let pid = pid_of(before.clients.clients@, client_fd);
    exists|mid: EventLoop, h: u32| #[trigger]
        handle_given(
            number_taken(before),
            mid,
            client_fd,
            file_entry(before.objects.next_object_id, fd, mode, access, options),
            h,
        ) && if h == 0 {
            &&& r == status(STATUS_INVALID_HANDLE)
            &&& after == (EventLoop { outbox: after.outbox, ..mid })
            &&& after.outbox@ == mid.outbox@.push(Action::Close { fd })
        } else {
            &&& r == handle_answer(0, h)
            &&& after == (EventLoop { sync: after.sync, ..mid })
            &&& event_behind(mid.sync, after.sync, pid, h)
        }
}

/// An event that is set stands behind a handle from now on, unless something did before.
pub open spec fn event_behind(before: Sync, after: Sync, pid: u32, h: u32) -> bool {
    if before.objects@.contains_key((pid, h)) {
        after == before
    } else {
        exists|s: Sync, e: Option<i32>| #[trigger]
            took_event(before, s, true, true, e) && match e {
                Some(o) => {
                    &&& after == (Sync { objects: after.objects, ..s })
                    &&& after.objects@ == s.objects@.insert(
                        (pid, h),
                        SyncObject { fd: o, kind: SYNC_INTERNAL },
                    )
                },
                None => after == s,
            }
    }
}

/// The first descriptor that a thread sent under a number.
pub open spec fn sent_place(pool: Seq<(u32, i32, i32)>, tid: u32, number: i32) -> Option<int>
    decreases pool.len(),
{
    if pool.len() == 0 {
        None
    } else {
        match sent_place(pool.drop_last(), tid, number) {
            Some(i) => Some(i),
            None => if pool.last().0 == tid && pool.last().1 == number {
                Some(pool.len() - 1)
            } else {
                None
            },
        }
    }
}

fn find_sent(pool: &Vec<(u32, i32, i32)>, tid: u32, number: i32) -> (r: Option<usize>)
    ensures
        match r {
            Some(i) => sent_place(pool@, tid, number) == Some(i as int) && i < pool@.len(),
            None => sent_place(pool@, tid, number) is None,
        },
{
    let mut found: Option<usize> = None;
    let mut i: usize = 0;
    assert(pool@.take(0) =~= Seq::<(u32, i32, i32)>::empty());
    while i < pool.len()
        invariant
            i <= pool@.len(),
            match found {
                Some(k) => sent_place(pool@.take(i as int), tid, number) == Some(k as int) && k < i,
                None => sent_place(pool@.take(i as int), tid, number) is None,
            },
        decreases pool@.len() - i,
    {
        assert(pool@.take(i + 1).drop_last() =~= pool@.take(i as int));
        if found.is_none() && pool[i].0 == tid && pool[i].1 == number {
            found = Some(i);
        }
        i = i + 1;
    }
    assert(pool@.take(pool@.len() as int) =~= pool@);
    found
}

/// The descriptor that a client's thread sent under a number was taken from its process's pool.
pub open spec fn sent_taken(
    before: EventLoop,
    after: EventLoop,
    client_fd: i32,
    number: i32,
    r: Option<i32>,
) -> bool {
    let pid = pid_of(before.clients.clients@, client_fd);
    let pool = list_of(before.clients.inflight@, pid);
    match sent_place(pool, tid_of(before.clients.clients@, client_fd), number) {
        Some(i) => {
            &&& r == Some(pool[i].2)
            &&& after == (EventLoop {
                clients: Clients { inflight: after.clients.inflight, ..before.clients },
                ..before
            })
            &&& after.clients.inflight@.contains_key(pid)
            &&& after.clients.inflight@ == before.clients.inflight@.insert(
                pid,
                after.clients.inflight@[pid],
            )
            &&& after.clients.inflight@[pid]@ == pool.remove(i)
        },
        None => r is None && after == before,
    }
}

/// What reading gave.
pub enum GotRead {
    Data(Vec<u8>),
    Closed,
    /// There is no data yet.
    Empty,
    Failed,
}

/// How a read goes on.
pub enum ReadStep {
    Done(Reply),
    /// Read at most so many bytes, without waiting where `socket` holds.
    Read { fd: i32, max: usize, socket: bool },
}

/// A kind of descriptor from which reads are completed later.
pub open spec fn is_stream(obj_type: u32) -> bool {
    obj_type == FD_TYPE_PIPE || obj_type == FD_TYPE_DEVICE || obj_type == FD_TYPE_SOCKET
}

/// A kind of descriptor through which callers wait for what they asked.
pub open spec fn is_pipe(obj_type: u32) -> bool {
    obj_type == FD_TYPE_PIPE || obj_type == FD_TYPE_DEVICE
}

/// The answer to a read that gives data.
pub open spec fn read_data(wait: u32, options: u32, data: Seq<u8>) -> Seq<u8> {
    block(head(0, data.len() as u32) + u32_bytes(wait) + u32_bytes(options)) + data
}

/// The caller's wait handle was set.
pub open spec fn caller_told(
    before: EventLoop,
    after: EventLoop,
    pid: u32,
    handle: u32,
    obj_type: u32,
    wait: u32,
) -> bool {
    if is_pipe(obj_type) {
        exists|mid: EventLoop| #[trigger]
            pipe_wait(before, mid, pid, handle, wait) && after == (EventLoop {
                outbox: after.outbox,
                ..mid
            }) && after.outbox@ == (if wait != 0 {
                with_signal(mid.sync.objects@, mid.outbox@, pid, wait)
            } else {
                mid.outbox@
            })
    } else {
        after == before && wait == 0
    }
}

/// A read that found no data is noted under the caller's own number.
pub open spec fn read_noted(before: EventLoop, after: EventLoop, key: (u32, u64), read: PendingRead) -> bool {
    &&& after == (EventLoop {
        pipes: Pipes { pending_reads: after.pipes.pending_reads, ..before.pipes },
        ..before
    })
    &&& after.pipes.pending_reads@ == before.pipes.pending_reads@.insert(key, read)
}

/// A read that found no data is left to be completed later.
pub open spec fn read_postponed(
    before: EventLoop,
    after: EventLoop,
    client_fd: i32,
    a: AsyncData,
    e: HandleEntry,
    fd: i32,
    max: usize,
    r: Seq<u8>,
) -> bool {
    let pid = pid_of(before.clients.clients@, client_fd);
    let handle = a.handle;
    let read = PendingRead {
        fd,
        max_bytes: max,
        iosb: a.iosb,
        tid: tid_of(before.clients.clients@, client_fd),
    };
    exists|s1: EventLoop| #[trigger]
        read_noted(before, s1, (pid, a.user), read) && if is_stream(e.obj_type) {
            exists|s2: EventLoop, wait: u32| #[trigger]
                pipe_wait(s1, s2, pid, handle, wait) && r == ioctl_answer(
                    STATUS_PENDING,
                    wait,
                    e.options,
                ) && if wait != 0 {
                    &&& after == (EventLoop {
                        pipes: Pipes { reads: after.pipes.reads, ..s2.pipes },
                        ..s2
                    })
                    &&& after.pipes.reads@ == s2.pipes.reads@.push(
                        AsyncPipeRead {
                            pipe_fd: fd,
                            max_bytes: max,
                            pid,
                            wait_handle: wait,
                            client_fd,
                        },
                    )
                } else {
                    after == s2
                }
        } else {
            after == s1 && r == ioctl_answer(STATUS_PENDING, 0, e.options)
        }
}

/// How a write goes on.
pub enum WriteStep {
    Done(Reply),
    /// Write all of the request's variable part.
    Write { fd: i32 },
}

/// What writing gave: how many bytes were written, and whether it failed after that.
#[derive(Clone, Copy, Debug, PartialEq, Eq)]
pub struct Wrote {
    pub bytes: u64,
    pub failed: bool,
}

/// What one attempt to write gave.
#[derive(Clone, Copy, Debug, PartialEq, Eq)]
pub enum WriteGot {
    /// So many bytes were written.
    Count { bytes: u64 },
    /// There is no room at the moment.
    Full,
    Failed,
}

/// How a write goes on after an attempt.
#[derive(Clone, Copy, Debug, PartialEq, Eq)]
pub enum WriteNext {
    /// Write on behind so many bytes.
    Go { done: u64 },
    /// Let others run, and write on behind so many bytes.
    Again { done: u64 },
    End { wrote: Wrote },
}

/// How a write of `len` bytes goes on, `done` of which were written before the attempt. A caller counts on
/// all of its bytes: where no more are taken and some are left, the write has failed.
pub open spec fn next_write(done: u64, len: u64, got: WriteGot) -> WriteNext {
    match got {
        WriteGot::Count { bytes } => if bytes > 0 && done + bytes < len {
            WriteNext::Go { done: (done + bytes) as u64 }
        } else if bytes > 0 {
            WriteNext::End { wrote: Wrote { bytes: len, failed: false } }
        } else {
            WriteNext::End { wrote: Wrote { bytes: done, failed: done < len } }
        },
        WriteGot::Full => WriteNext::Again { done },
        WriteGot::Failed => WriteNext::End { wrote: Wrote { bytes: done, failed: true } },
    }
}

/// Decides how a write goes on after an attempt. Either all is written, or it has failed.
pub fn write_next(done: u64, len: u64, got: WriteGot) -> (r: WriteNext)
    requires
        done <= len,
    ensures
        r == next_write(done, len, got),
        r matches WriteNext::Go { done: more } ==> done < more < len,
        r matches WriteNext::End { wrote } ==> wrote.bytes <= len && (!wrote.failed ==> wrote.bytes
            == len),
{
    match got {
        WriteGot::Count { bytes } => if bytes == 0 {
            WriteNext::End { wrote: Wrote { bytes: done, failed: done < len } }
        } else if bytes < len - done {
            WriteNext::Go { done: done + bytes }
        } else {
            WriteNext::End { wrote: Wrote { bytes: len, failed: false } }
        },
        WriteGot::Full => WriteNext::Again { done },
        WriteGot::Failed => WriteNext::End { wrote: Wrote { bytes: done, failed: true } },
    }
}

/// The answer to a write.
pub open spec fn write_answer(error: u32, wait: u32, options: u32, size: u32) -> Seq<u8> {
    block(
        head(error, 0) + u32_bytes(wait) + u32_bytes(options) + u32_bytes(size) + u32_bytes(0),
    )
}

/// What is known of an open file.
pub struct FileFacts {
    pub stat: Option<FileStat>,
    pub position: i64,
    /// The bytes of its path.
    pub path: Option<Vec<u8>>,
}

#[derive(Clone, Copy, Debug, PartialEq, Eq)]
pub struct FileStat {
    pub size: i64,
    /// Blocks of 512 bytes.
    pub blocks: i64,
    pub mode: u32,
    pub links: u64,
}

/// Sizes, links and kind of a file.
pub open spec fn standard_info(stat: Option<FileStat>) -> Seq<u8> {
    match stat {
        Some(s) => i64_bytes(s.blocks.wrapping_mul(512)) + i64_bytes(s.size) + u32_bytes(
            s.links as u32,
        ) + seq![
            0u8,
            if s.mode & S_IFMT == S_IFDIR {
                1u8
            } else {
                0u8
            },
            0u8,
            0u8,
        ],
        None => zeros(24),
    }
}

/// An answer that is only data, as far as there is room.
pub open spec fn data_answer(data: Seq<u8>, room: u32) -> Seq<u8> {
    let d = clipped(data, room as int);
    block(head(0, d.len() as u32)) + d
}

/// An answer that is one number, where there is room for it.
pub open spec fn word_answer(n: u32, room: u32) -> Seq<u8> {
    if room < 4 {
        status(STATUS_INFO_LENGTH_MISMATCH)
    } else {
        block(head(0, 4)) + u32_bytes(n)
    }
}

/// The answer about a file. What is told needs a descriptor behind the handle.
pub open spec fn file_info(e: Option<HandleEntry>, class: u32, room: u32, f: FileFacts) -> Seq<u8> {
    let open = e is Some && e->0.fd is Some;
    if class == 5 {
        data_answer(
            standard_info(
                if open {
                    f.stat
                } else {
                    None
                },
            ),
            room,
        )
    } else if class == 8 {
        word_answer(
            match e {
                Some(e) => e.access,
                None => 0x001F_01FF,
            },
            room,
        )
    } else if class == 14 {
        data_answer(
            i64_bytes(
                if open {
                    f.position
                } else {
                    0
                },
            ),
            room,
        )
    } else if class == 16 {
        word_answer(
            match e {
                Some(e) => e.options,
                None => 0x20,
            } & 0x3E,
            room,
        )
    } else if class == 41 {
        word_answer(0, room)
    } else if class == 1000 {
        match f.path {
            Some(p) => if open {
                data_answer(u32_bytes(p@.len() as u32) + p@, room)
            } else {
                status(STATUS_OBJECT_TYPE_MISMATCH)
            },
            None => status(STATUS_OBJECT_TYPE_MISMATCH),
        }
    } else {
        status(STATUS_NOT_IMPLEMENTED)
    }
}

fn answer_data(data: &[u8], room: u32) -> (r: Reply)
    ensures
        r@ == data_answer(data@, room),
{
    let d = copy_clipped(data, room as usize);
    let body = header(0, d.len() as u32);
    reply_vararg(body.as_slice(), d.as_slice())
}

fn answer_word(n: u32, room: u32) -> (r: Reply)
    ensures
        r@ == word_answer(n, room),
{
    if room < 4 {
        return reply_status(STATUS_INFO_LENGTH_MISMATCH);
    }
    let mut d: Vec<u8> = Vec::new();
    push_u32(&mut d, n);
    assert(d@ =~= u32_bytes(n));
    let body = header(0, 4);
    reply_vararg(body.as_slice(), d.as_slice())
}

fn standard_bytes(stat: Option<FileStat>) -> (r: Vec<u8>)
    ensures
        r@ == standard_info(stat),
{
    match stat {
        Some(s) => {
            let mut d: Vec<u8> = Vec::new();
            push_i64(&mut d, s.blocks.wrapping_mul(512));
            push_i64(&mut d, s.size);
            push_u32(&mut d, s.links as u32);
            d.push(0);
            d.push(
                if s.mode & S_IFMT == S_IFDIR {
                    1
                } else {
                    0
                },
            );
            d.push(0);
            d.push(0);
            assert(d@ =~= standard_info(stat));
            d
        },
        None => crate::bytes::zero_bytes(24),
    }
}

/// What a request to open an object of the file system asks for.
pub enum ObjectToOpen {
    Pipe { name: String },
    /// The directory of all pipes.
    PipeRoot,
    Unknown,
}

/// The name in a request to open an object of the file system.
pub open spec fn object_name(buf: Seq<u8>) -> Seq<char> {
    utf16_text(byte_units(vararg_of(buf)))
}

/// What a request to open an object of the file system asks for.
pub fn file_object(buf: &[u8]) -> (r: ObjectToOpen)
    ensures
        ({
            let name = object_name(buf@);
            let base = lowercase(after_last(name, '\\'));
            if buf@.len() > 64 && base.len() > 0 {
                r matches ObjectToOpen::Pipe { name: n } && n@ == base
            } else if buf@.len() > 64 && has_sub(lowercase(name), "pipe"@) {
                r is PipeRoot
            } else {
                r is Unknown
            }
        }),
{
    if buf.len() <= 64 {
        return ObjectToOpen::Unknown;
    }
    let v = vararg(buf);
    let name = utf16le_to_string(v.as_slice());
    let tail = tail_after(name.as_str(), '\\');
    let base = to_lowercase(tail.as_str());
    if !base.as_str().is_empty() {
        return ObjectToOpen::Pipe { name: base };
    }
    let low = to_lowercase(name.as_str());
    if contains_text(low.as_str(), "pipe") {
        ObjectToOpen::PipeRoot
    } else {
        ObjectToOpen::Unknown
    }
}

/// A client was connected to a pipe, or told why not.
pub open spec fn pipe_opened(
    before: EventLoop,
    after: EventLoop,
    client_fd: i32,
    name: Seq<char>,
    access: u32,
    options: u32,
    dup_fd: Option<i32>,
    r: Seq<u8>,
) -> bool {
    if !before.pipes.named@.contains_key(name) {
        after == before && r == status(STATUS_OBJECT_NAME_NOT_FOUND)
    } else {
        match (instance_in(before.pipes.named@[name]@, PipeState::Listening), dup_fd) {
            (None, _) => after == before && r == status(STATUS_PIPE_BUSY),
            (Some(_), None) => after == before && r == status(STATUS_NO_MEMORY),
            (Some(i), Some(d)) => exists|h: u32| #[trigger]
                pipe_connected(before, after, client_fd, name, i, d, access, options, h) && r
                    == handle_answer(0, h),
        }
    }
}

/// The descriptor for the directory of all pipes: a fresh event counter, where there is one.
pub open spec fn root_fd(before: EventLoop) -> i32 {
    if before.sync.eventfds@.len() > 0 {
        before.sync.eventfds@.last()
    } else {
        -1i32
    }
}

pub open spec fn root_entry(before: EventLoop, access: u32, options: u32) -> HandleEntry {
    HandleEntry {
        object_id: before.objects.next_object_id,
        fd: Some(root_fd(before)),
        obj_type: FD_TYPE_FILE,
        access,
        options,
    }
}

/// A client was given a handle to the directory of all pipes. The event counter behind it is spent
/// whether or not there was room for the handle.
pub open spec fn root_opened(
    before: EventLoop,
    after: EventLoop,
    client_fd: i32,
    access: u32,
    options: u32,
    r: Seq<u8>,
) -> bool {
    let stock = before.sync.eventfds@;
    let pid = pid_of(before.clients.clients@, client_fd);
    exists|h: u32| #[trigger]
        allocated(
            before.objects.processes@,
            after.objects.processes@,
            pid,
            root_entry(before, access, options),
            h,
        ) && {
            &&& after == (EventLoop {
                objects: Objects {
                    processes: after.objects.processes,
                    next_object_id: bumped(before.objects.next_object_id),
                    ..before.objects
                },
                sync: Sync { eventfds: after.sync.eventfds, ..before.sync },
                ..before
            })
            &&& after.sync.eventfds@ == (if stock.len() > 0 {
                stock.drop_last()
            } else {
                stock
            })
            &&& r == (if h != 0 {
                handle_answer(0, h)
            } else {
                status(STATUS_OBJECT_NAME_NOT_FOUND)
            })
        }
}

impl EventLoop {
    /// The descriptor behind a client's handle.
    pub fn fd_of_handle(&self, client_fd: i32, handle: u32) -> (r: Option<i32>)
        requires
            self.wf(),
        ensures
            r == (match entry_in(
                self.objects.processes@,
                pid_of(self.clients.clients@, client_fd),
                handle,
            ) {
                Some(e) => e.fd,
                None => None,
            }),
    {
        let pid: u32 = self.client_pid(client_fd);
        match self.handle_entry(pid, handle) {
            Some(e) => e.fd,
            None => None,
        }
    }

    /// Gives a client a handle to an open file. `mode` is the mode of the file, where it can be looked up.
    pub fn create_file_handle(
        &mut self,
        client_fd: i32,
        fd: i32,
        mode: Option<u32>,
        access: u32,
        options: u32,
    ) -> (r: Reply)
        requires
            old(self).wf(),
        ensures
            final(self).wf(),
            file_handle_made(
                *old(self),
                *final(self),
                client_fd,
                fd,
                mode,
                access,
                options,
                r@,
            ),
    {
        let mapped: u32 = map_file_access(access);
        let kind: u32 = type_of_mode(mode);
        let pid: u32 = self.client_pid(client_fd);
        let id: u64 = self.alloc_object_id();
        assert(*self == number_taken(*old(self)));
        let h: u32 = self.give_handle(
            client_fd,
            HandleEntry::with_fd(id, fd, kind, mapped, options),
        );
        let ghost mid = *self;
        assert(handle_given(
            number_taken(*old(self)),
            mid,
            client_fd,
            file_entry(old(self).objects.next_object_id, fd, mode, access, options),
            h,
        ));
        if h == 0 {
            self.outbox.push(Action::Close { fd });
            return reply_status(STATUS_INVALID_HANDLE);
        }
        if !self.sync.objects.contains_key((pid, h)) {
            let fresh: Option<i32> = self.get_or_create_event(true, true);
            let ghost s = self.sync;
            assert(took_event(mid.sync, s, true, true, fresh));
            match fresh {
                Some(o) => {
                    self.sync.objects.insert((pid, h), SyncObject { fd: o, kind: SYNC_INTERNAL });
                },
                None => {},
            }
        }
        assert(event_behind(mid.sync, self.sync, pid, h));
        reply_handle(0, h)
    }

    /// Ends a request to open a file, with the descriptor and the mode of the file that was opened.
    pub fn file_opened(
        &mut self,
        client_fd: i32,
        access: u32,
        options: u32,
        opened: Option<(i32, Option<u32>)>,
    ) -> (r: Reply)
        requires
            old(self).wf(),
        ensures
            final(self).wf(),
            match opened {
                None => *final(self) == *old(self) && r@ == status(STATUS_OBJECT_NAME_NOT_FOUND),
                Some((fd, mode)) => file_handle_made(
                    *old(self),
                    *final(self),
                    client_fd,
                    fd,
                    mode,
                    access,
                    options,
                    r@,
                ),
            },
    {
        match opened {
            None => reply_status(STATUS_OBJECT_NAME_NOT_FOUND),
            Some((fd, mode)) => self.create_file_handle(client_fd, fd, mode, access, options),
        }
    }

    /// Connects a client to a pipe. `dup_fd` is a duplicate of the end that it gets.
    pub fn open_pipe(
        &mut self,
        client_fd: i32,
        name: &str,
        access: u32,
        options: u32,
        dup_fd: Option<i32>,
    ) -> (r: Reply)
        requires
            old(self).wf(),
        ensures
            final(self).wf(),
            pipe_opened(
                *old(self),
                *final(self),
                client_fd,
                name@,
                access,
                options,
                dup_fd,
                r@,
            ),
    {
        match self.try_connect_named_pipe(client_fd, name, access, options, dup_fd) {
            Some(r) => r,
            None => reply_status(STATUS_OBJECT_NAME_NOT_FOUND),
        }
    }

    /// Opens the directory of all pipes, through which clients wait for pipes.
    pub fn open_pipe_root(&mut self, client_fd: i32, access: u32, options: u32) -> (r: Reply)
        requires
            old(self).wf(),
        ensures
            final(self).wf(),
            root_opened(*old(self), *final(self), client_fd, access, options, r@),
    {
        let id: u64 = self.alloc_object_id();
        let pid: u32 = self.client_pid(client_fd);
        let stock: Option<i32> = self.sync.eventfds.pop();
        let fd: i32 = match stock {
            Some(fd) => fd,
            None => -1,
        };
        let e = HandleEntry::with_fd(id, fd, FD_TYPE_FILE, access, options);
        assert(e == root_entry(*old(self), access, options));
        let h: u32 = self.allocate_in(pid, e);
        if h != 0 {
            return reply_handle(0, h);
        }
        reply_status(STATUS_OBJECT_NAME_NOT_FOUND)
    }

    /// Takes the descriptor that a client's thread sent under a number.
    pub fn take_inflight_fd(&mut self, client_fd: i32, number: i32) -> (r: Option<i32>)
        requires
            old(self).wf(),
        ensures
            final(self).wf(),
            sent_taken(*old(self), *final(self), client_fd, number, r),
    {
        let pid: u32 = self.client_pid(client_fd);
        let tid: u32 = match self.client_thread_id(client_fd) {
            Some(t) => t,
            None => 0,
        };
        let place: Option<usize> = match self.clients.inflight.get(pid) {
            Some(pool) => find_sent(pool, tid, number),
            None => None,
        };
        match place {
            Some(i) => match self.clients.inflight.get_mut(pid) {
                Some(pool) => {
                    let (_, _, fd): (u32, i32, i32) = pool.remove(i);
                    Some(fd)
                },
                None => None,
            },
            None => None,
        }
    }

    /// Gives a client a handle to a descriptor that it sent.
    pub fn handle_alloc_file_handle(
        &mut self,
        client_fd: i32,
        req: Option<(i32, u32)>,
    ) -> (r: Reply)
        requires
            old(self).wf(),
        ensures
            final(self).wf(),
            match req {
                None => *final(self) == *old(self) && r@ == status(STATUS_INVALID_PARAMETER),
                Some((number, access)) => exists|s1: EventLoop, sent: Option<i32>| #[trigger]
                    sent_taken(*old(self), s1, client_fd, number, sent) && match sent {
                        None => *final(self) == s1 && r@ == status(STATUS_INVALID_HANDLE),
                        Some(fd) => exists|h: u32| #[trigger]
                            handle_given(
                                number_taken(s1),
                                *final(self),
                                client_fd,
                                HandleEntry {
                                    object_id: s1.objects.next_object_id,
                                    fd: Some(fd),
                                    obj_type: FD_TYPE_FILE,
                                    access: file_access(access),
                                    options: 0,
                                },
                                h,
                            ) && r@ == (if h == 0 {
                                status(STATUS_INVALID_HANDLE)
                            } else {
                                handle_answer(0, h)
                            }),
                    },
            },
    {
        let (number, access): (i32, u32) = match req {
            Some(q) => q,
            None => {
                return reply_status(STATUS_INVALID_PARAMETER);
            },
        };
        let sent: Option<i32> = self.take_inflight_fd(client_fd, number);
        let ghost s1 = *self;
        assert(sent_taken(*old(self), s1, client_fd, number, sent));
        let fd: i32 = match sent {
            Some(fd) => fd,
            None => {
                return reply_status(STATUS_INVALID_HANDLE);
            },
        };
        let id: u64 = self.alloc_object_id();
        assert(*self == number_taken(s1));
        let mapped: u32 = map_file_access(access);
        let h: u32 = self.give_handle(
            client_fd,
            HandleEntry::with_fd(id, fd, FD_TYPE_FILE, mapped, 0),
        );
        if h == 0 {
            reply_status(STATUS_INVALID_HANDLE)
        } else {
            reply_handle(0, h)
        }
    }

    /// How a read goes on.
    pub fn handle_read(
        &self,
        client_fd: i32,
        buf: &[u8],
        async_data: Option<[u8; 40]>,
    ) -> (r: ReadStep)
        requires
            self.wf(),
        ensures
            match async_data {
                None => r matches ReadStep::Done(a) && a@ == status(STATUS_INVALID_PARAMETER),
                Some(raw) => match entry_in(
                    self.objects.processes@,
                    pid_of(self.clients.clients@, client_fd),
                    async_of(raw).handle,
                ) {
                    Some(HandleEntry { fd: Some(fd), obj_type, .. }) => r == (ReadStep::Read {
                        fd,
                        max: read_room(buf@) as usize,
                        socket: is_stream(obj_type),
                    }),
                    _ => r matches ReadStep::Done(a) && a@ == ioctl_answer(
                        STATUS_INVALID_HANDLE,
                        0,
                        0,
                    ),
                },
            },
    {
        let raw = match async_data {
            Some(raw) => raw,
            None => {
                return ReadStep::Done(reply_status(STATUS_INVALID_PARAMETER));
            },
        };
        let a = read_async(&raw);
        let pid: u32 = self.client_pid(client_fd);
        match self.handle_entry(pid, a.handle) {
            Some(e) => match e.fd {
                Some(fd) => {
                    let mut max: u32 = max_reply_vararg(buf);
                    if max == 0 {
                        max = 65536;
                    }
                    return ReadStep::Read {
                        fd,
                        max: max as usize,
                        socket: e.obj_type == FD_TYPE_PIPE || e.obj_type == FD_TYPE_DEVICE
                            || e.obj_type == FD_TYPE_SOCKET,
                    };
                },
                None => {},
            },
            None => {},
        }
        ReadStep::Done(reply_two(STATUS_INVALID_HANDLE, 0, 0))
    }

    /// Sets the handle through which a caller waits for what it asked of a pipe; 0 where it does not.
    fn tell_caller(&mut self, pid: u32, handle: u32, obj_type: u32) -> (wait: u32)
        requires
            old(self).wf(),
        ensures
            final(self).wf(),
            caller_told(*old(self), *final(self), pid, handle, obj_type, wait),
    {
        if !(obj_type == FD_TYPE_PIPE || obj_type == FD_TYPE_DEVICE) {
            return 0;
        }
        let wait: u32 = self.get_pipe_wait_handle(pid, handle);
        let ghost mid = *self;
        assert(pipe_wait(*old(self), mid, pid, handle, wait));
        if wait != 0 {
            self.signal(pid, wait);
        }
        wait
    }

    /// Ends a read with what it gave.
    pub fn read_done(
        &mut self,
        client_fd: i32,
        async_data: [u8; 40],
        max: usize,
        got: GotRead,
    ) -> (r: Reply)
        requires
            old(self).wf(),
        ensures
            final(self).wf(),
            ({
                let a = async_of(async_data);
                let pid = pid_of(old(self).clients.clients@, client_fd);
                match entry_in(old(self).objects.processes@, pid, a.handle) {
                    Some(e) => match (e.fd, got) {
                        (None, _) => *final(self) == *old(self) && r@ == ioctl_answer(
                            STATUS_INVALID_HANDLE,
                            0,
                            0,
                        ),
                        (Some(_), GotRead::Data(d)) => exists|wait: u32| #[trigger]
                            caller_told(
                                *old(self),
                                *final(self),
                                pid,
                                a.handle,
                                e.obj_type,
                                wait,
                            ) && r@ == read_data(wait, e.options, d@),
                        (Some(_), GotRead::Closed) => *final(self) == *old(self) && r@
                            == ioctl_answer(STATUS_PIPE_BROKEN, 0, e.options),
                        (Some(_), GotRead::Failed) => *final(self) == *old(self) && r@
                            == ioctl_answer(STATUS_IO_DEVICE_ERROR, 0, e.options),
                        (Some(fd), GotRead::Empty) => read_postponed(
                            *old(self),
                            *final(self),
                            client_fd,
                            a,
                            e,
                            fd,
                            max,
                            r@,
                        ),
                    },
                    None => *final(self) == *old(self) && r@ == ioctl_answer(
                        STATUS_INVALID_HANDLE,
                        0,
                        0,
                    ),
                }
            }),
    {
        let a = read_async(&async_data);
        let pid: u32 = self.client_pid(client_fd);
        let e = match self.handle_entry(pid, a.handle) {
            Some(e) => e,
            None => {
                return reply_two(STATUS_INVALID_HANDLE, 0, 0);
            },
        };
        let fd: i32 = match e.fd {
            Some(fd) => fd,
            None => {
                return reply_two(STATUS_INVALID_HANDLE, 0, 0);
            },
        };
        match got {
            GotRead::Data(d) => {
                let wait: u32 = self.tell_caller(pid, a.handle, e.obj_type);
                let mut body = header(0, d.len() as u32);
                push_u32(&mut body, wait);
                push_u32(&mut body, e.options);
                reply_vararg(body.as_slice(), d.as_slice())
            },
            GotRead::Closed => reply_two(STATUS_PIPE_BROKEN, 0, e.options),
            GotRead::Failed => reply_two(STATUS_IO_DEVICE_ERROR, 0, e.options),
            GotRead::Empty => {
                let tid: u32 = match self.client_thread_id(client_fd) {
                    Some(t) => t,
                    None => 0,
                };
                let read = PendingRead { fd, max_bytes: max, iosb: a.iosb, tid };
                self.pipes.pending_reads.insert((pid, a.user), read);
                let ghost s1 = *self;
                assert(read_noted(*old(self), s1, (pid, a.user), read));
                if e.obj_type == FD_TYPE_PIPE || e.obj_type == FD_TYPE_DEVICE || e.obj_type
                    == FD_TYPE_SOCKET {
                    let wait: u32 = self.get_pipe_wait_handle(pid, a.handle);
                    let ghost s2 = *self;
                    assert(pipe_wait(s1, s2, pid, a.handle, wait));
                    if wait != 0 {
                        self.pipes.reads.push(
                            AsyncPipeRead {
                                pipe_fd: fd,
                                max_bytes: max,
                                pid,
                                wait_handle: wait,
                                client_fd,
                            },
                        );
                    }
                    return reply_two(STATUS_PENDING, wait, e.options);
                }
                reply_two(STATUS_PENDING, 0, e.options)
            },
        }
    }

    /// How a write goes on.
    pub fn handle_write(
        &self,
        client_fd: i32,
        buf: &[u8],
        async_data: Option<[u8; 40]>,
    ) -> (r: WriteStep)
        requires
            self.wf(),
        ensures
            match async_data {
                None => r matches WriteStep::Done(a) && a@ == status(STATUS_INVALID_PARAMETER),
                Some(raw) => match entry_in(
                    self.objects.processes@,
                    pid_of(self.clients.clients@, client_fd),
                    async_of(raw).handle,
                ) {
                    Some(HandleEntry { fd: Some(fd), options, .. }) => if vararg_of(buf@).len()
                        == 0 {
                        r matches WriteStep::Done(a) && a@ == write_answer(0, 0, options, 0)
                    } else {
                        r == (WriteStep::Write { fd })
                    },
                    _ => r matches WriteStep::Done(a) && a@ == write_answer(
                        STATUS_INVALID_HANDLE,
                        0,
                        0,
                        0,
                    ),
                },
            },
    {
        let raw = match async_data {
            Some(raw) => raw,
            None => {
                return WriteStep::Done(reply_status(STATUS_INVALID_PARAMETER));
            },
        };
        let a = read_async(&raw);
        let pid: u32 = self.client_pid(client_fd);
        match self.handle_entry(pid, a.handle) {
            Some(e) => match e.fd {
                Some(fd) => {
                    if buf.len() <= 64 {
                        return WriteStep::Done(reply_four(0, 0, e.options, 0, 0));
                    }
                    return WriteStep::Write { fd };
                },
                None => {},
            },
            None => {},
        }
        WriteStep::Done(reply_four(STATUS_INVALID_HANDLE, 0, 0, 0, 0))
    }

    /// Ends a write with what was written. The flag tells whether reads at the other end may have become
    /// complete.
    pub fn write_done(
        &mut self,
        client_fd: i32,
        async_data: [u8; 40],
        wrote: Wrote,
    ) -> (r: (Reply, bool))
        requires
            old(self).wf(),
        ensures
            final(self).wf(),
            ({
                let a = async_of(async_data);
                let pid = pid_of(old(self).clients.clients@, client_fd);
                match entry_in(old(self).objects.processes@, pid, a.handle) {
                    Some(e) => if wrote.failed {
                        *final(self) == *old(self) && r.0@ == write_answer(
                            STATUS_IO_DEVICE_ERROR,
                            0,
                            e.options,
                            wrote.bytes as u32,
                        ) && !r.1
                    } else {
                        &&& exists|wait: u32| #[trigger]
                            caller_told(
                                *old(self),
                                *final(self),
                                pid,
                                a.handle,
                                e.obj_type,
                                wait,
                            ) && r.0@ == write_answer(0, wait, e.options, wrote.bytes as u32)
                        &&& r.1 == (wrote.bytes > 0 && is_stream(e.obj_type))
                    },
                    None => *final(self) == *old(self) && r.0@ == write_answer(
                        STATUS_INVALID_HANDLE,
                        0,
                        0,
                        0,
                    ) && !r.1,
                }
            }),
    {
        let a = read_async(&async_data);
        let pid: u32 = self.client_pid(client_fd);
        let e = match self.handle_entry(pid, a.handle) {
            Some(e) => e,
            None => {
                return (reply_four(STATUS_INVALID_HANDLE, 0, 0, 0, 0), false);
            },
        };
        if wrote.failed {
            return (
                reply_four(STATUS_IO_DEVICE_ERROR, 0, e.options, wrote.bytes as u32, 0),
                false,
            );
        }
        let wait: u32 = self.tell_caller(pid, a.handle, e.obj_type);
        (
            reply_four(0, wait, e.options, wrote.bytes as u32, 0),
            wrote.bytes > 0 && (e.obj_type == FD_TYPE_PIPE || e.obj_type == FD_TYPE_DEVICE
                || e.obj_type == FD_TYPE_SOCKET),
        )
    }

    /// Tells something of the file behind a handle. `f` is what looking the file up gave.
    pub fn handle_get_file_info(
        &self,
        client_fd: i32,
        buf: &[u8],
        req: Option<(u32, u32)>,
        f: &FileFacts,
    ) -> (r: Reply)
        requires
            self.wf(),
        ensures
            match req {
                None => r@ == status(STATUS_INVALID_PARAMETER),
                Some((handle, class)) => r@ == file_info(
                    entry_in(
                        self.objects.processes@,
                        pid_of(self.clients.clients@, client_fd),
                        handle,
                    ),
                    class,
                    reply_room(buf@),
                    *f,
                ),
            },
    {
        let (handle, class): (u32, u32) = match req {
            Some(q) => q,
            None => {
                return reply_status(STATUS_INVALID_PARAMETER);
            },
        };
        let room: u32 = max_reply_vararg(buf);
        let pid: u32 = self.client_pid(client_fd);
        let entry = self.handle_entry(pid, handle);
        let open: bool = match entry {
            Some(e) => e.fd.is_some(),
            None => false,
        };
        if class == 5 {
            let d = standard_bytes(
                if open {
                    f.stat
                } else {
                    None
                },
            );
            answer_data(d.as_slice(), room)
        } else if class == 8 {
            let n: u32 = match entry {
                Some(e) => e.access,
                None => 0x001F_01FF,
            };
            answer_word(n, room)
        } else if class == 14 {
            let mut d: Vec<u8> = Vec::new();
            let at: i64 = if open {
                f.position
            } else {
                0
            };
            push_i64(&mut d, at);
            assert(d@ =~= i64_bytes(at));
            answer_data(d.as_slice(), room)
        } else if class == 16 {
            let n: u32 = match entry {
                Some(e) => e.options,
                None => 0x20,
            };
            answer_word(n & 0x3E, room)
        } else if class == 41 {
            answer_word(0, room)
        } else if class == 1000 {
            match &f.path {
                Some(p) => {
                    if open {
                        let mut d: Vec<u8> = Vec::new();
                        push_u32(&mut d, p.len() as u32);
                        push_all(&mut d, p.as_slice());
                        assert(d@ =~= u32_bytes(p@.len() as u32) + p@);
                        answer_data(d.as_slice(), room)
                    } else {
                        reply_status(STATUS_OBJECT_TYPE_MISMATCH)
                    }
                },
                None => reply_status(STATUS_OBJECT_TYPE_MISMATCH),
            }
        } else {
            reply_status(STATUS_NOT_IMPLEMENTED)
        }
    }

    /// Cuts or extends the file behind a handle.
    pub fn handle_set_fd_eof_info(&mut self, client_fd: i32, req: Option<(u32, u64)>) -> (r: Reply)
        requires
            old(self).wf(),
        ensures
            final(self).wf(),
            *final(self) == (EventLoop { outbox: final(self).outbox, ..*old(self) }),
            match req {
                None => final(self).outbox@ == old(self).outbox@ && r@ == status(
                    STATUS_INVALID_PARAMETER,
                ),
                Some((handle, eof)) => r@ == status(0) && final(self).outbox@ == (match entry_in(
                    old(self).objects.processes@,
                    pid_of(old(self).clients.clients@, client_fd),
                    handle,
                ) {
                    Some(HandleEntry { fd: Some(fd), .. }) => old(self).outbox@.push(
                        Action::Truncate { fd, len: eof },
                    ),
                    _ => old(self).outbox@,
                }),
            },
    {
        match req {
            None => reply_status(STATUS_INVALID_PARAMETER),
            Some((handle, eof)) => {
                match self.fd_of_handle(client_fd, handle) {
                    Some(fd) => {
                        self.outbox.push(Action::Truncate { fd, len: eof });
                    },
                    None => {},
                }
                reply_status(0)
            },
        }
    }
}

/// An object of the file system was opened by its name: a pipe, or the directory of all pipes.
pub open spec fn object_opened(
    before: EventLoop,
    after: EventLoop,
    client_fd: i32,
    buf: Seq<u8>,
    access: u32,
    options: u32,
    dup_fd: Option<i32>,
    r: Seq<u8>,
) -> bool {
    let name = object_name(buf);
    let base = lowercase(after_last(name, '\\'));
    if buf.len() > 64 && base.len() > 0 {
        pipe_opened(before, after, client_fd, base, access, options, dup_fd, r)
    } else if buf.len() > 64 && has_sub(lowercase(name), "pipe"@) {
        root_opened(before, after, client_fd, access, options, r)
    } else {
        after == before && r == status(STATUS_OBJECT_NAME_NOT_FOUND)
    }
}

impl EventLoop {
    /// Opens an object of the file system. `dup_fd` is a duplicate of the end that a client of the named
    /// pipe gets.
    pub fn handle_open_file_object(
        &mut self,
        client_fd: i32,
        buf: &[u8],
        req: Option<(u32, u32)>,
        dup_fd: Option<i32>,
    ) -> (r: Reply)
        requires
            old(self).wf(),
        ensures
            final(self).wf(),
            match req {
                Some((access, options)) => object_opened(
                    *old(self),
                    *final(self),
                    client_fd,
                    buf@,
                    access,
                    options,
                    dup_fd,
                    r@,
                ),
                None => *final(self) == *old(self) && r@ == status(STATUS_INVALID_PARAMETER),
            },
    {
        match req {
            Some((access, options)) => match file_object(buf) {
                ObjectToOpen::Pipe { name } => self.open_pipe(
                    client_fd,
                    name.as_str(),
                    access,
                    options,
                    dup_fd,
                ),
                ObjectToOpen::PipeRoot => self.open_pipe_root(client_fd, access, options),
                ObjectToOpen::Unknown => reply_status(STATUS_OBJECT_NAME_NOT_FOUND),
            },
            None => reply_status(STATUS_INVALID_PARAMETER),
        }
    }
}

/// A missing file is made under the dispositions that say so (0 replaces, 2 creates, 3 opens or creates, 5
/// empties or creates) and under no other (1 opens, 4 empties). Whoever asks for a directory is given one,
/// and a file is opened for writing where that right is asked for.
pub proof fn lemma_dispositions(v: Seq<u8>, q: CreateFileRequest, step: FileStep)
    requires
        file_step(v, q, step),
        request_path(v).len() > 0,
    ensures
        ({
            let made = match step {
                FileStep::OpenDir { create, .. } => create,
                FileStep::Open { create, .. } => create,
                _ => false,
            };
            &&& q.create == 0 || q.create == 2 || q.create == 3 || q.create == 5 ==> made
            &&& q.create == 1 || q.create == 4 ==> !made
            &&& q.create < 0 || q.create > 5 ==> !made
        }),
        q.options & 1 != 0 ==> (step matches FileStep::OpenDir { path, .. } && path@ == request_path(v)),
        q.options & 1 == 0 ==> (step matches FileStep::Open { path, write, .. } && path@ == request_path(v)
            && (write <==> q.access & 0x4000_0000 != 0)),
{
}

/// The path of a file follows the attributes of the object, whose security descriptor and name have the
/// lengths at 8 and 12, at the next multiple of four.
pub proof fn lemma_path_follows_attributes(v: Seq<u8>, at: int)
    requires
        v.len() >= 16,
        u32_at(v, 8) % 2 == 0,
        u32_at(v, 12) % 2 == 0,
        at % 4 == 0,
        16 + u32_at(v, 8) + u32_at(v, 12) <= at < 16 + u32_at(v, 8) + u32_at(v, 12) + 4,
        at < v.len(),
        v[at] != 0,
        valid_utf8(v.skip(at)),
        decode_utf8(v.skip(at)).len() > 0,
        decode_utf8(v.skip(at)).last() != '\0',
    ensures
        request_path(v) == decode_utf8(v.skip(at)),
{
    assert(path_start(v) == at);
    assert(v.skip(at)[0] == v[at]);
}

/// A file is opened as it was asked for first; for reading only in the end; and made in between only where
/// that may be.
pub proof fn lemma_attempts_in_order(write: bool, create: bool)
    ensures
        attempts(write, create)[0] == (if write {
            Attempt::ReadWrite
        } else {
            Attempt::ReadOnly
        }),
        attempts(write, create).last() == Attempt::ReadOnly,
        attempts(write, create).contains(Attempt::Create) <==> create,
        attempts(write, create).len() == (if create {
            3int
        } else {
            2
        }),
        create ==> attempts(write, create)[1] == Attempt::Create,
{
}

/// What kind of descriptor a client is told of, by the kind in the mode of the file: directories are 2,
/// sockets 3, devices of characters 7, and all else, also what is not known, files, which are 1.
pub proof fn lemma_kinds_of_files(m: u32)
    ensures
        m & 0xF000 == 0x4000 ==> fd_type(Some(m)) == 2,
        m & 0xF000 == 0xC000 ==> fd_type(Some(m)) == 3,
        m & 0xF000 == 0x2000 ==> fd_type(Some(m)) == 7,
        m & 0xF000 != 0x4000 && m & 0xF000 != 0xC000 && m & 0xF000 != 0x2000 ==> fd_type(Some(m)) == 1,
        fd_type(None) == 1,
{
}

/// A handle to a file stands for the descriptor that was opened, with the rights that were asked for in
/// place of generic ones; where no handle could be given the descriptor is closed. Behind the handle stands
/// an event that is set, where there is one, so that no wait on a file blocks.
pub proof fn lemma_file_is_opened(
    before: EventLoop,
    after: EventLoop,
    client_fd: i32,
    fd: i32,
    mode: Option<u32>,
    access: u32,
    options: u32,
    r: Seq<u8>,
)
    requires
        file_handle_made(before, after, client_fd, fd, mode, access, options, r),
    ensures
        u32_at(r, 0) == 0 || u32_at(r, 0) == 0xC000_0008,
        u32_at(r, 0) == 0 ==> u32_at(r, 8) != 0 && (entry_in(
            after.objects.processes@,
            pid_of(before.clients.clients@, client_fd),
            u32_at(r, 8),
        ) matches Some(e) && e.fd == Some(fd) && e.access == file_access(access) && e.options == options
            && e.obj_type == fd_type(mode) && e.object_id == before.objects.next_object_id),
        u32_at(r, 0) != 0 ==> after.outbox@.last() == (Action::Close { fd }),
{
    let e = file_entry(before.objects.next_object_id, fd, mode, access, options);
    let (mid, h) = choose|mid: EventLoop, h: u32| #[trigger]
        handle_given(number_taken(before), mid, client_fd, e, h) && if h == 0 {
            &&& r == status(STATUS_INVALID_HANDLE)
            &&& after == (EventLoop { outbox: after.outbox, ..mid })
            &&& after.outbox@ == mid.outbox@.push(Action::Close { fd })
        } else {
            &&& r == handle_answer(0, h)
            &&& after == (EventLoop { sync: after.sync, ..mid })
            &&& event_behind(mid.sync, after.sync, pid_of(before.clients.clients@, client_fd), h)
        };
    lemma_answer_told(STATUS_INVALID_HANDLE, 0);
    lemma_answer_told(0, h);
}

/// A read gives its data back behind the block, announced in the header, with the handle that was set at 8
/// and the options of the file at 12.
pub proof fn lemma_read_told(wait: u32, options: u32, data: Seq<u8>)
    requires
        data.len() <= u32::MAX,
    ensures
        u32_at(read_data(wait, options, data), 0) == 0,
        u32_at(read_data(wait, options, data), 4) == data.len(),
        u32_at(read_data(wait, options, data), 8) == wait,
        u32_at(read_data(wait, options, data), 12) == options,
        read_data(wait, options, data).skip(64) == data,
{
    lemma_fields_told(0, data.len() as u32, wait, options, data);
}

/// Descriptors that data come through later: sockets, pipes and devices. Callers wait through a handle of
/// their own on the latter two. Nobody waits for a plain file.
pub proof fn lemma_streams(t: u32)
    ensures
        is_stream(t) <==> t == 3 || t == 5 || t == 8,
        is_pipe(t) <==> t == 5 || t == 8,
{
}

/// A read that found nothing yet is kept under the caller's own number and status block, and completed
/// later where data may come: the caller is told 0x103.
pub proof fn lemma_read_is_kept(
    before: EventLoop,
    after: EventLoop,
    client_fd: i32,
    a: AsyncData,
    e: HandleEntry,
    fd: i32,
    max: usize,
    r: Seq<u8>,
)
    requires
        read_postponed(before, after, client_fd, a, e, fd, max, r),
    ensures
        u32_at(r, 0) == 0x103,
        u32_at(r, 12) == e.options,
        ({
            let key = (pid_of(before.clients.clients@, client_fd), a.user);
            &&& after.pipes.pending_reads@.contains_key(key)
            &&& after.pipes.pending_reads@[key].fd == fd
            &&& after.pipes.pending_reads@[key].max_bytes == max
            &&& after.pipes.pending_reads@[key].iosb == a.iosb
            &&& after.pipes.pending_reads@[key].tid == tid_of(before.clients.clients@, client_fd)
        }),
        u32_at(r, 8) != 0 ==> after.pipes.reads@.last() == (AsyncPipeRead {
            pipe_fd: fd,
            max_bytes: max,
            pid: pid_of(before.clients.clients@, client_fd),
            wait_handle: u32_at(r, 8),
            client_fd,
        }),
        e.obj_type == 1 || e.obj_type == 2 || e.obj_type == 7 ==> u32_at(r, 8) == 0 && after.pipes.reads@
            == before.pipes.reads@,
{
    let pid = pid_of(before.clients.clients@, client_fd);
    let read = PendingRead {
        fd,
        max_bytes: max,
        iosb: a.iosb,
        tid: tid_of(before.clients.clients@, client_fd),
    };
    lemma_ioctl_told(STATUS_PENDING, 0, e.options);
    let s1 = choose|s1: EventLoop| #[trigger]
        read_noted(before, s1, (pid, a.user), read) && if is_stream(e.obj_type) {
            exists|s2: EventLoop, wait: u32| #[trigger]
                pipe_wait(s1, s2, pid, a.handle, wait) && r == ioctl_answer(
                    STATUS_PENDING,
                    wait,
                    e.options,
                ) && if wait != 0 {
                    &&& after == (EventLoop {
                        pipes: Pipes { reads: after.pipes.reads, ..s2.pipes },
                        ..s2
                    })
                    &&& after.pipes.reads@ == s2.pipes.reads@.push(
                        AsyncPipeRead {
                            pipe_fd: fd,
                            max_bytes: max,
                            pid,
                            wait_handle: wait,
                            client_fd,
                        },
                    )
                } else {
                    after == s2
                }
        } else {
            after == s1 && r == ioctl_answer(STATUS_PENDING, 0, e.options)
        };
    if is_stream(e.obj_type) {
        let (s2, wait) = choose|s2: EventLoop, wait: u32| #[trigger]
            pipe_wait(s1, s2, pid, a.handle, wait) && r == ioctl_answer(
                STATUS_PENDING,
                wait,
                e.options,
            ) && if wait != 0 {
                &&& after == (EventLoop {
                    pipes: Pipes { reads: after.pipes.reads, ..s2.pipes },
                    ..s2
                })
                &&& after.pipes.reads@ == s2.pipes.reads@.push(
                    AsyncPipeRead {
                        pipe_fd: fd,
                        max_bytes: max,
                        pid,
                        wait_handle: wait,
                        client_fd,
                    },
                )
            } else {
                after == s2
            };
        lemma_ioctl_told(STATUS_PENDING, wait, e.options);
        assert(s2.pipes == s1.pipes);
    }
}

/// A write goes on until all bytes are written or it fails: no attempt is forgotten, none is counted twice,
/// and a write that is full is tried again where it stands.
pub proof fn lemma_write_counts(done: u64, len: u64, bytes: u64)
    requires
        done < len,
        bytes <= len - done,
    ensures
        0 < bytes < len - done ==> next_write(done, len, WriteGot::Count { bytes }) == (WriteNext::Go {
            done: (done + bytes) as u64,
        }),
        bytes == len - done ==> next_write(done, len, WriteGot::Count { bytes }) == (WriteNext::End {
            wrote: Wrote { bytes: len, failed: false },
        }),
        bytes == 0 ==> next_write(done, len, WriteGot::Count { bytes }) == (WriteNext::End {
            wrote: Wrote { bytes: done, failed: true },
        }),
        next_write(done, len, WriteGot::Full) == (WriteNext::Again { done }),
        next_write(done, len, WriteGot::Failed) == (WriteNext::End {
            wrote: Wrote { bytes: done, failed: true },
        }),
{
}

/// The answer to a write: the status at 0, the handle that was set at 8, the options at 12, and how many
/// bytes were written at 16.
pub proof fn lemma_write_told(error: u32, wait: u32, options: u32, size: u32)
    ensures
        u32_at(write_answer(error, wait, options, size), 0) == error,
        u32_at(write_answer(error, wait, options, size), 8) == wait,
        u32_at(write_answer(error, wait, options, size), 12) == options,
        u32_at(write_answer(error, wait, options, size), 16) == size,
        write_answer(error, wait, options, size).len() == 64,
{
    let body = head(error, 0) + u32_bytes(wait) + u32_bytes(options) + u32_bytes(size) + u32_bytes(0);
    let e = Seq::<u8>::empty();
    assert(body.subrange(0, 4) =~= u32_bytes(error));
    assert(body.subrange(8, 12) =~= u32_bytes(wait));
    assert(body.subrange(12, 16) =~= u32_bytes(options));
    assert(body.subrange(16, 20) =~= u32_bytes(size));
    lemma_word_told(body, e, 0, error);
    lemma_word_told(body, e, 8, wait);
    lemma_word_told(body, e, 12, options);
    lemma_word_told(body, e, 16, size);
}

/// What is told of the sizes of a file: the space that it takes at 0, its length at 8, its links at 16, and
/// at 21 whether it is a directory.
#[verifier::rlimit(40)]
pub proof fn lemma_file_sizes_told(s: FileStat)
    requires
        s.links <= u32::MAX,
        0 <= s.blocks < 0x40_0000_0000_0000,
    ensures
        standard_info(Some(s)).len() == 24,
        u64_at(standard_info(Some(s)), 0) == 512 * s.blocks,
        u64_at(standard_info(Some(s)), 8) == i64_bits(s.size),
        u32_at(standard_info(Some(s)), 16) == s.links,
        standard_info(Some(s))[21] == 1 <==> s.mode & 0xF000 == 0x4000,
        standard_info(Some(s))[20] == 0,
        standard_info(None) == zeros(24),
{
    let space = i64_bytes(s.blocks.wrapping_mul(512));
    let size = i64_bytes(s.size);
    let links = u32_bytes(s.links as u32);
    let rest = seq![
        0u8,
        if s.mode & S_IFMT == S_IFDIR {
            1u8
        } else {
            0u8
        },
        0u8,
        0u8,
    ];
    let all = space + size + links + rest;
    assert(all == standard_info(Some(s)));
    assert(all.subrange(0, 8) =~= space);
    assert(all.subrange(8, 16) =~= size);
    assert(all.subrange(16, 20) =~= links);
    lemma_read_back_u64(all, 0, i64_bits(s.blocks.wrapping_mul(512)));
    lemma_read_back_u64(all, 8, i64_bits(s.size));
    lemma_read_back_u32(all, 16, s.links as u32);
    assert(all[21] == rest[1] && all[20] == rest[0]);
}

/// What a client may ask of a file, by number: 5 its sizes, 8 its rights, 14 its position, 16 its mode, 41 a
/// number that is 0, 1000 its path; nothing else is known.
pub proof fn lemma_file_questions(e: HandleEntry, fd: i32, class: u32, room: u32, f: FileFacts)
    requires
        e.fd == Some(fd),
    ensures
        ({
            let r = file_info(Some(e), class, room, f);
            &&& class == 5 ==> r == data_answer(standard_info(f.stat), room)
            &&& class == 14 ==> r == data_answer(i64_bytes(f.position), room)
            &&& class == 8 && room >= 4 ==> u32_at(r, 0) == 0 && u32_at(r, 4) == 4 && r.skip(64)
                == u32_bytes(e.access)
            &&& class == 16 && room >= 4 ==> u32_at(r, 0) == 0 && r.skip(64) == u32_bytes(e.options & 0x3E)
            &&& class == 41 && room >= 4 ==> r.skip(64) == u32_bytes(0)
            &&& (class == 8 || class == 16 || class == 41) && room < 4 ==> u32_at(r, 0) == 0xC000_0004
            &&& class == 1000 && f.path is None ==> u32_at(r, 0) == 0xC000_0024
            &&& class == 1000 && f.path is Some ==> r == data_answer(
                u32_bytes((f.path->0)@.len() as u32) + (f.path->0)@,
                room,
            )
            &&& class != 5 && class != 8 && class != 14 && class != 16 && class != 41 && class != 1000
                ==> u32_at(r, 0) == 0xC000_0002
        }),
{
    lemma_answer_told(STATUS_INFO_LENGTH_MISMATCH, 0);
    lemma_answer_told(STATUS_OBJECT_TYPE_MISMATCH, 0);
    lemma_answer_told(STATUS_NOT_IMPLEMENTED, 0);
    let body = head(0, 4);
    assert(body.subrange(0, 4) =~= u32_bytes(0));
    assert(body.subrange(4, 8) =~= u32_bytes(4));
    lemma_word_told(body, u32_bytes(e.access), 0, 0);
    lemma_word_told(body, u32_bytes(e.access), 4, 4);
    lemma_word_told(body, u32_bytes(e.options & 0x3E), 0, 0);
    lemma_word_told(body, u32_bytes(0), 0, 0);
}

/// An answer that is only data holds as much of them as the client has room for, and announces it.
pub proof fn lemma_data_told(data: Seq<u8>, room: u32)
    ensures
        u32_at(data_answer(data, room), 0) == 0,
        data.len() <= room ==> data_answer(data, room).skip(64) == data && u32_at(data_answer(data, room), 4)
            == data.len(),
        data.len() > room ==> data_answer(data, room).skip(64) == data.take(room as int) && u32_at(
            data_answer(data, room),
            4,
        ) == room,
{
    let d = clipped(data, room as int);
    let body = head(0, d.len() as u32);
    assert(body.subrange(0, 4) =~= u32_bytes(0));
    assert(body.subrange(4, 8) =~= u32_bytes(d.len() as u32));
    lemma_word_told(body, d, 0, 0);
    lemma_word_told(body, d, 4, d.len() as u32);
}

/// A descriptor that a thread sent is taken by that thread, under the number under which it was sent, and
/// only once; what others sent stays.
pub proof fn lemma_sent_taken_once(pool: Seq<(u32, i32, i32)>, tid: u32, number: i32)
    ensures
        match sent_place(pool, tid, number) {
            Some(i) => 0 <= i < pool.len() && pool[i].0 == tid && pool[i].1 == number && forall|j: int|
                0 <= j < i ==> !((#[trigger] pool[j]).0 == tid && pool[j].1 == number),
            None => forall|j: int|
                0 <= j < pool.len() ==> !((#[trigger] pool[j]).0 == tid && pool[j].1 == number),
        },
    decreases pool.len(),
{
    if pool.len() > 0 {
        let d = pool.drop_last();
        lemma_sent_taken_once(d, tid, number);
        match sent_place(d, tid, number) {
            Some(i) => {
                assert forall|j: int| 0 <= j < i implies !((#[trigger] pool[j]).0 == tid && pool[j].1
                    == number) by {
                    assert(d[j] == pool[j]);
                }
            },
            None => {
                assert forall|j: int| 0 <= j < pool.len() - 1 implies !((#[trigger] pool[j]).0 == tid
                    && pool[j].1 == number) by {
                    assert(d[j] == pool[j]);
                }
            },
        }
    }
}

} // verus!
