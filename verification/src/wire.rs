//! The reply block, and the parts of a request that every handler reads.
use crate::bytes::{
    copy_range, lemma_read_back_u32, push_all, push_u32, read_u32, u32_at, u32_bytes, zeros,
};
use crate::text::{
    after_last, byte_units, lowercase, tail_after, to_lowercase, utf16_text, utf16le_to_string,
};
use vstd::prelude::*;

verus! {

/// A request's variable part starts behind the fixed block of 64 bytes.
pub const VARARG_OFF: usize = 64;

pub const STATUS_PENDING: u32 = 0x103;

pub const STATUS_TIMEOUT: u32 = 0x102;

pub const STATUS_KERNEL_APC: u32 = 0x100;

pub const STATUS_USER_APC: u32 = 0xC0;

pub const STATUS_OBJECT_NAME_EXISTS: u32 = 0x4000_0000;

pub const STATUS_NO_MORE_ENTRIES: u32 = 0x8000_001A;

pub const STATUS_NOT_IMPLEMENTED: u32 = 0xC000_0002;

pub const STATUS_INFO_LENGTH_MISMATCH: u32 = 0xC000_0004;

pub const STATUS_INVALID_HANDLE: u32 = 0xC000_0008;

pub const STATUS_INVALID_PARAMETER: u32 = 0xC000_000D;

pub const STATUS_NO_MEMORY: u32 = 0xC000_0017;

pub const STATUS_ACCESS_DENIED: u32 = 0xC000_0022;

pub const STATUS_BUFFER_TOO_SMALL: u32 = 0xC000_0023;

pub const STATUS_OBJECT_TYPE_MISMATCH: u32 = 0xC000_0024;

pub const STATUS_OBJECT_NAME_NOT_FOUND: u32 = 0xC000_0034;

pub const STATUS_PORT_NOT_SET: u32 = 0xC000_0077;

pub const STATUS_PIPE_BUSY: u32 = 0xC000_00AE;

pub const STATUS_IO_TIMEOUT: u32 = 0xC000_00B5;

pub const STATUS_PROCESS_IS_TERMINATING: u32 = 0xC000_010A;

pub const STATUS_INVALID_ADDRESS: u32 = 0xC000_0141;

pub const STATUS_PIPE_BROKEN: u32 = 0xC000_014B;

pub const STATUS_IO_DEVICE_ERROR: u32 = 0xC000_0185;

pub const STATUS_NOT_SAME_OBJECT: u32 = 0xC000_0460;

/// What is written back to a client for one request.
pub enum Reply {
    /// The fixed block alone.
    Fixed { buf: [u8; 64], len: usize },
    /// The fixed block and the variable part behind it.
    Vararg(Vec<u8>),
}

impl View for Reply {
    type V = Seq<u8>;

    /// The bytes that go out.
    open spec fn view(&self) -> Seq<u8> {
        match self {
            Reply::Fixed { buf, len } => buf@.take(*len as int),
            Reply::Vararg(v) => v@,
        }
    }
}

/// The header of a reply: the status, and how many bytes follow the fixed block.
pub open spec fn head(error: u32, reply_size: u32) -> Seq<u8> {
    u32_bytes(error) + u32_bytes(reply_size)
}

/// A reply's fixed part filled up with zeros to the block of 64 bytes.
pub open spec fn block(body: Seq<u8>) -> Seq<u8> {
    body + zeros((64 - body.len()) as nat)
}

/// The reply that holds a status and nothing else.
pub open spec fn status(error: u32) -> Seq<u8> {
    block(head(error, 0))
}

/// The reply that holds a status and one handle.
pub open spec fn handle_answer(error: u32, handle: u32) -> Seq<u8> {
    block(head(error, 0) + u32_bytes(handle))
}

/// A client reads a block of 64 bytes, then as many bytes as the header announces.
pub open spec fn well_framed(r: Seq<u8>) -> bool {
    r.len() >= 64 && r.len() == 64 + u32_at(r, 4)
}

/// A reply with nothing behind its block is well framed where its header says so.
pub proof fn lemma_block_framed(error: u32, fields: Seq<u8>)
    requires
        fields.len() <= 56,
    ensures
        well_framed(block(head(error, 0) + fields)),
        u32_at(block(head(error, 0) + fields), 0) == error,
{
    let r = block(head(error, 0) + fields);
    assert(r.subrange(0, 4) =~= u32_bytes(error));
    lemma_read_back_u32(r, 0, error);
    assert(r.subrange(4, 8) =~= u32_bytes(0));
    lemma_read_back_u32(r, 4, 0);
}

/// A reply with a variable part is well framed where its header gives the part's length.
pub proof fn lemma_vararg_framed(error: u32, fields: Seq<u8>, vararg: Seq<u8>)
    requires
        fields.len() <= 56,
        vararg.len() <= u32::MAX,
    ensures
        well_framed(block(head(error, vararg.len() as u32) + fields) + vararg),
        u32_at(block(head(error, vararg.len() as u32) + fields) + vararg, 0) == error,
        (block(head(error, vararg.len() as u32) + fields) + vararg).skip(64) == vararg,
{
    let n = vararg.len() as u32;
    let r = block(head(error, n) + fields) + vararg;
    assert(r.subrange(0, 4) =~= u32_bytes(error));
    lemma_read_back_u32(r, 0, error);
    assert(r.subrange(4, 8) =~= u32_bytes(n));
    lemma_read_back_u32(r, 4, n);
    assert(r.skip(64) =~= vararg);
}

/// The block that holds a reply's fixed part.
pub fn reply_fixed(body: &[u8]) -> (r: Reply)
    requires
        body@.len() <= 64,
    ensures
        r is Fixed,
        r@ == block(body@),
{
    let mut buf: [u8; 64] = [0u8; 64];
    let mut i: usize = 0;
    while i < body.len()
        invariant
            i <= body@.len() <= 64,
            buf@ == block(body@.take(i as int)),
        decreases body@.len() - i,
    {
        buf[i] = body[i];
        i = i + 1;
        assert(buf@ =~= block(body@.take(i as int)));
    }
    assert(body@.take(body@.len() as int) =~= body@);
    assert(buf@.take(64) =~= block(body@));
    Reply::Fixed { buf, len: 64 }
}

/// The block that holds a reply's fixed part, and the variable part behind it.
pub fn reply_vararg(body: &[u8], vararg: &[u8]) -> (r: Reply)
    requires
        body@.len() <= 64,
    ensures
        r is Vararg,
        r@ == block(body@) + vararg@,
{
    let mut out: Vec<u8> = Vec::new();
    push_all(&mut out, body);
    let ghost filled = out@;
    while out.len() < 64
        invariant
            body@.len() <= out@.len() <= 64,
            out@ == body@ + zeros((out@.len() - body@.len()) as nat),
        decreases 64 - out@.len(),
    {
        out.push(0u8);
        assert(out@ =~= body@ + zeros((out@.len() - body@.len()) as nat));
    }
    push_all(&mut out, vararg);
    Reply::Vararg(out)
}

/// The first eight bytes of a reply.
pub fn header(error: u32, reply_size: u32) -> (r: Vec<u8>)
    ensures
        r@ == head(error, reply_size),
        r@.len() == 8,
{
    let mut out: Vec<u8> = Vec::new();
    push_u32(&mut out, error);
    push_u32(&mut out, reply_size);
    assert(out@ =~= head(error, reply_size));
    out
}

pub fn reply_status(error: u32) -> (r: Reply)
    ensures
        r is Fixed,
        r@ == status(error),
{
    let body: Vec<u8> = header(error, 0);
    reply_fixed(body.as_slice())
}

pub fn reply_handle(error: u32, handle: u32) -> (r: Reply)
    ensures
        r is Fixed,
        r@ == handle_answer(error, handle),
{
    let mut body: Vec<u8> = header(error, 0);
    push_u32(&mut body, handle);
    reply_fixed(body.as_slice())
}

/// A reply whose fixed part is the header and two numbers.
pub fn reply_two(error: u32, a: u32, b: u32) -> (r: Reply)
    ensures
        r is Fixed,
        r@ == block(head(error, 0) + u32_bytes(a) + u32_bytes(b)),
{
    let mut body: Vec<u8> = header(error, 0);
    push_u32(&mut body, a);
    push_u32(&mut body, b);
    reply_fixed(body.as_slice())
}

/// A reply whose fixed part is the header and four numbers.
pub fn reply_four(error: u32, a: u32, b: u32, c: u32, d: u32) -> (r: Reply)
    ensures
        r is Fixed,
        r@ == block(head(error, 0) + u32_bytes(a) + u32_bytes(b) + u32_bytes(c) + u32_bytes(d)),
{
    let mut body: Vec<u8> = header(error, 0);
    push_u32(&mut body, a);
    push_u32(&mut body, b);
    push_u32(&mut body, c);
    push_u32(&mut body, d);
    reply_fixed(body.as_slice())
}

/// How many bytes of variable part the client takes, as its request header says.
pub open spec fn reply_room(buf: Seq<u8>) -> u32 {
    if buf.len() >= 12 {
        u32_at(buf, 8)
    } else {
        0
    }
}

pub fn max_reply_vararg(buf: &[u8]) -> (r: u32)
    ensures
        r == reply_room(buf@),
{
    if buf.len() >= 12 {
        read_u32(buf, 8)
    } else {
        0
    }
}

/// The variable part of a request.
pub open spec fn vararg_of(buf: Seq<u8>) -> Seq<u8> {
    if buf.len() > 64 {
        buf.skip(64)
    } else {
        Seq::empty()
    }
}

pub fn vararg(buf: &[u8]) -> (r: Vec<u8>)
    ensures
        r@ == vararg_of(buf@),
{
    if buf.len() > VARARG_OFF {
        let r = copy_range(buf, VARARG_OFF, buf.len());
        assert(r@ =~= vararg_of(buf@));
        r
    } else {
        Vec::new()
    }
}

/// The last component of an object's path in lower case, or nothing where it is empty.
pub open spec fn short_name(path: Seq<char>) -> Option<Seq<char>> {
    if after_last(path, '\\').len() == 0 {
        None
    } else {
        Some(lowercase(after_last(path, '\\')))
    }
}

/// The view of an optional text.
pub open spec fn opt_view(s: Option<String>) -> Option<Seq<char>> {
    match s {
        Some(t) => Some(t@),
        None => None,
    }
}

fn shorten(path: &str) -> (r: Option<String>)
    ensures
        opt_view(r) == short_name(path@),
{
    let short = tail_after(path, '\\');
    if short.as_str().is_empty() {
        None
    } else {
        Some(to_lowercase(short.as_str()))
    }
}

/// Object attributes at the start of a variable part: where the object's name stands in `oa`.
pub open spec fn objattr_name_range(oa: Seq<u8>) -> Option<(int, int)> {
    if oa.len() < 16 || u32_at(oa, 12) == 0 || 16 + u32_at(oa, 8) + u32_at(oa, 12) > oa.len() {
        None
    } else {
        Some((16 + u32_at(oa, 8), 16 + u32_at(oa, 8) + u32_at(oa, 12)))
    }
}

/// The name in the object attributes of a request, shortened.
pub open spec fn objattr_name(buf: Seq<u8>) -> Option<Seq<char>> {
    if buf.len() < 80 {
        None
    } else {
        match objattr_name_range(buf.skip(64)) {
            None => None,
            Some((from, to)) => short_name(
                utf16_text(byte_units(buf.skip(64).subrange(from, to))),
            ),
        }
    }
}

/// Reads the name in the object attributes of a create request: its last component in lower case.
pub fn extract_objattr_name(buf: &[u8]) -> (r: Option<String>)
    ensures
        opt_view(r) == objattr_name(buf@),
{
    if buf.len() < VARARG_OFF + 16 {
        return None;
    }
    let oa: Vec<u8> = vararg(buf);
    assert(oa@ == buf@.skip(64));
    let sd_len: u64 = read_u32(oa.as_slice(), 8) as u64;
    let name_len: u64 = read_u32(oa.as_slice(), 12) as u64;
    if name_len == 0 {
        return None;
    }
    let end: u64 = 16 + sd_len + name_len;
    if end > oa.len() as u64 {
        return None;
    }
    let name: Vec<u8> = copy_range(oa.as_slice(), (16 + sd_len) as usize, end as usize);
    let text = utf16le_to_string(name.as_slice());
    shorten(text.as_str())
}

/// The name in an open request, shortened.
pub open spec fn open_name(buf: Seq<u8>) -> Option<Seq<char>> {
    if buf.len() <= 64 {
        None
    } else {
        short_name(utf16_text(byte_units(buf.skip(64))))
    }
}

/// Reads the bare name of an open request: its last component in lower case.
pub fn extract_open_name(buf: &[u8]) -> (r: Option<String>)
    ensures
        opt_view(r) == open_name(buf@),
{
    if buf.len() <= VARARG_OFF {
        return None;
    }
    let name: Vec<u8> = vararg(buf);
    let text = utf16le_to_string(name.as_slice());
    shorten(text.as_str())
}

/// A client finds a field of a reply at its place in the block, whatever follows the block.
pub proof fn lemma_word_told(body: Seq<u8>, more: Seq<u8>, at: int, x: u32)
    requires
        body.len() <= 64,
        0 <= at,
        at + 4 <= body.len(),
        body.subrange(at, at + 4) == u32_bytes(x),
    ensures
        block(body).len() == 64,
        u32_at(block(body), at) == x,
        u32_at(block(body) + more, at) == x,
        (block(body) + more).skip(64) == more,
{
    let r = block(body);
    assert(r.subrange(at, at + 4) =~= body.subrange(at, at + 4));
    lemma_read_back_u32(r, at, x);
    assert((r + more).subrange(at, at + 4) =~= body.subrange(at, at + 4));
    lemma_read_back_u32(r + more, at, x);
    assert((r + more).skip(64) =~= more);
}

/// A reply of up to four fields: the status stands at 0, the length of what follows the block at 4, the
/// fields from 8 on, and all that follows them in the block is 0.
pub proof fn lemma_fields_told(error: u32, size: u32, a: u32, b: u32, more: Seq<u8>)
    ensures
        ({
            let r = block(head(error, size) + u32_bytes(a) + u32_bytes(b)) + more;
            &&& r.len() == 64 + more.len()
            &&& u32_at(r, 0) == error
            &&& u32_at(r, 4) == size
            &&& u32_at(r, 8) == a
            &&& u32_at(r, 12) == b
            &&& forall|i: int| 16 <= i < 64 ==> r[i] == 0
            &&& r.skip(64) == more
        }),
{
    let body = head(error, size) + u32_bytes(a) + u32_bytes(b);
    assert(body.subrange(0, 4) =~= u32_bytes(error));
    assert(body.subrange(4, 8) =~= u32_bytes(size));
    assert(body.subrange(8, 12) =~= u32_bytes(a));
    assert(body.subrange(12, 16) =~= u32_bytes(b));
    lemma_word_told(body, more, 0, error);
    lemma_word_told(body, more, 4, size);
    lemma_word_told(body, more, 8, a);
    lemma_word_told(body, more, 12, b);
}

/// The reply that holds a handle tells the status at 0 and the handle at 8; the one that holds a status
/// alone is zero behind it.
pub proof fn lemma_answer_told(error: u32, handle: u32)
    ensures
        status(error).len() == 64,
        u32_at(status(error), 0) == error,
        forall|i: int| 4 <= i < 64 ==> status(error)[i] == 0,
        handle_answer(error, handle).len() == 64,
        u32_at(handle_answer(error, handle), 0) == error,
        u32_at(handle_answer(error, handle), 4) == 0,
        u32_at(handle_answer(error, handle), 8) == handle,
{
    let body = head(error, 0);
    assert(body.subrange(0, 4) =~= u32_bytes(error));
    lemma_word_told(body, Seq::empty(), 0, error);
    assert(u32_bytes(0) =~= seq![0u8, 0u8, 0u8, 0u8]);
    let more = head(error, 0) + u32_bytes(handle);
    assert(more.subrange(0, 4) =~= u32_bytes(error));
    assert(more.subrange(4, 8) =~= u32_bytes(0));
    assert(more.subrange(8, 12) =~= u32_bytes(handle));
    lemma_word_told(more, Seq::empty(), 0, error);
    lemma_word_told(more, Seq::empty(), 4, 0);
    lemma_word_told(more, Seq::empty(), 8, handle);
}

/// The numbers by which clients know how a request ended.
pub proof fn lemma_status_numbers()
    ensures
        STATUS_USER_APC == 192,
        STATUS_KERNEL_APC == 256,
        STATUS_TIMEOUT == 258,
        STATUS_PENDING == 259,
        STATUS_OBJECT_NAME_EXISTS == 1073741824,
        STATUS_NO_MORE_ENTRIES == 2147483674,
        STATUS_NOT_IMPLEMENTED == 3221225474,
        STATUS_INFO_LENGTH_MISMATCH == 3221225476,
        STATUS_INVALID_HANDLE == 3221225480,
        STATUS_INVALID_PARAMETER == 3221225485,
        STATUS_NO_MEMORY == 3221225495,
        STATUS_ACCESS_DENIED == 3221225506,
        STATUS_BUFFER_TOO_SMALL == 3221225507,
        STATUS_OBJECT_TYPE_MISMATCH == 3221225508,
        STATUS_OBJECT_NAME_NOT_FOUND == 3221225524,
        STATUS_PORT_NOT_SET == 3221225591,
        STATUS_PIPE_BUSY == 3221225646,
        STATUS_IO_TIMEOUT == 3221225653,
        STATUS_PROCESS_IS_TERMINATING == 3221225738,
        STATUS_INVALID_ADDRESS == 3221225793,
        STATUS_PIPE_BROKEN == 3221225803,
        STATUS_IO_DEVICE_ERROR == 3221225861,
        STATUS_NOT_SAME_OBJECT == 3221226592,
        VARARG_OFF == 64,
{
}

/// The room of a client's reply is the third word of its request, and what a request holds beyond its fixed
/// block of 64 bytes is its variable part.
pub proof fn lemma_request_parts(req: u32, size: u32, room: u32, fixed: Seq<u8>, more: Seq<u8>)
    requires
        fixed.len() == 52,
    ensures
        ({
            let buf = u32_bytes(req) + u32_bytes(size) + u32_bytes(room) + fixed + more;
            reply_room(buf) == room && vararg_of(buf) == more
        }),
{
    let buf = u32_bytes(req) + u32_bytes(size) + u32_bytes(room) + fixed + more;
    assert(buf.subrange(8, 12) =~= u32_bytes(room));
    lemma_read_back_u32(buf, 8, room);
    if more.len() > 0 {
        assert(buf.skip(64) =~= more);
    } else {
        assert(vararg_of(buf) =~= more);
    }
}

/// The name of an object follows its attributes and what they say of rights.
pub proof fn lemma_name_in_attributes(root: u32, flags: u32, rights: Seq<u8>, name: Seq<u8>, rest: Seq<u8>)
    requires
        0 < name.len(),
        16 + rights.len() + name.len() <= u32::MAX,
    ensures
        ({
            let v = u32_bytes(root) + u32_bytes(flags) + u32_bytes(rights.len() as u32) + u32_bytes(
                name.len() as u32,
            ) + rights + name + rest;
            objattr_name_range(v) matches Some((from, to)) && v.subrange(from, to) == name
        }),
{
    let v = u32_bytes(root) + u32_bytes(flags) + u32_bytes(rights.len() as u32) + u32_bytes(name.len() as u32)
        + rights + name + rest;
    assert(v.subrange(8, 12) =~= u32_bytes(rights.len() as u32));
    lemma_read_back_u32(v, 8, rights.len() as u32);
    assert(v.subrange(12, 16) =~= u32_bytes(name.len() as u32));
    lemma_read_back_u32(v, 12, name.len() as u32);
    let at = 16 + rights.len();
    assert(v.subrange(at as int, (at + name.len()) as int) =~= name);
}

} // verus!
