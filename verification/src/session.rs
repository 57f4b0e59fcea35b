//! The memory that all processes of a session share: the table of user handles, and the objects behind
//! it, which are read under a sequence number.
use crate::bytes::{
    lemma_read_back_u16, lemma_read_back_u32, lemma_read_back_u64, push_all, push_u16, push_u32, push_u64,
    splice, u16_at, u16_bytes, u32_at, u32_bytes, u64_at, u64_bytes, zero_bytes, zeros,
};
use crate::display::{stored, stores_view, Store};
use vstd::prelude::*;

verus! {

/// Bytes of one entry of the table of user handles.
pub const USER_ENTRY_SIZE: u64 = 32;

/// Bytes of the table of user handles: 32744 entries. The objects stand behind it.
pub const USER_ENTRIES_SIZE: u64 = 1_047_808;

/// Bytes of the whole: the table, and 4 MiB of objects.
pub const SESSION_SIZE: u64 = 5_242_112;

/// Bytes from one shared object to the next.
pub const SHARED_OBJECT_STRIDE: u64 = 1024;

/// The number of the desktop's object, the first of all.
pub const DESKTOP_LOCATOR_ID: u64 = 0x100;

/// The first user handle.
pub const FIRST_USER_HANDLE: u32 = 0x20;

/// A handle that stands for a window.
pub const NTUSER_OBJ_WINDOW: u16 = 1;

/// What is given out of the shared memory.
pub struct Session {
    /// The memory is mapped here.
    pub mapped: bool,
    /// The memory exists, so that the table can be written.
    pub open: bool,
    pub next_offset: u64,
    pub next_id: u64,
    pub next_index: u32,
    pub free: Vec<u32>,
}

/// Where a shared object stands: its number and its offset.
pub open spec fn locator(id: u64, offset: u64) -> Seq<u8> {
    u64_bytes(id) + u64_bytes(offset)
}

/// A new shared object: its sequence number is even, and it has its number.
pub open spec fn object_stores(s: Session, offset: u64, id: u64) -> Seq<(int, Seq<u8>)> {
    if s.mapped && offset + SHARED_OBJECT_STRIDE <= SESSION_SIZE {
        seq![(offset as int, u64_bytes(0)), (offset + 8, u64_bytes(id))]
    } else {
        Seq::empty()
    }
}

/// The entry of a user handle.
pub open spec fn user_entry(offset: u64, tid: u32, pid: u32, id: u64, kind: u16) -> Seq<u8> {
    u64_bytes(offset) + u32_bytes(tid) + u32_bytes(pid) + u64_bytes(id) + u16_bytes(kind) + u16_bytes(0)
        + zeros(4)
}

/// The handle at a place of the table.
pub open spec fn handle_at(index: u32) -> int {
    2 * index + FIRST_USER_HANDLE
}

/// The place in the table that is given out next.
pub open spec fn next_place(s: Session) -> u32 {
    if s.free@.len() > 0 {
        s.free@.last()
    } else {
        s.next_index
    }
}

/// A user handle was given out: one that was given back before, or a new one. Its object has a number
/// and a place that no object had.
pub open spec fn user_given(before: Session, after: Session, handle: u32) -> bool {
    &&& handle == handle_at(next_place(before))
    &&& after.mapped == before.mapped
    &&& after.open == before.open
    &&& after.next_offset == before.next_offset + SHARED_OBJECT_STRIDE
    &&& after.next_id == before.next_id + 1
    &&& after.next_index == before.next_index + (if before.free@.len() > 0 {
        0int
    } else {
        1int
    })
    &&& after.free@ == (if before.free@.len() > 0 {
        before.free@.drop_last()
    } else {
        before.free@
    })
}

/// A session has come to another state, in which nothing that was given out is given out anew.
pub open spec fn has_become(before: Session, after: Session) -> bool {
    before.next_id <= after.next_id && before.next_offset <= after.next_offset && before.next_index
        <= after.next_index
}

/// No two objects of user handles share a number or a place, and no two user handles are the same unless
/// one was given back.
pub proof fn lemma_user_handles_distinct(
    a: Session,
    b: Session,
    c: Session,
    d: Session,
    first: u32,
    second: u32,
)
    requires
        user_given(a, b, first),
        has_become(b, c),
        user_given(c, d, second),
    ensures
        has_become(a, d),
        a.next_id < c.next_id,
        a.next_offset + SHARED_OBJECT_STRIDE <= c.next_offset,
        a.free@.len() == 0 && c.free@.len() == 0 ==> first != second,
{
}

/// Two places have two handles, and no place has the handle 0.
pub proof fn lemma_handles_distinct(a: u32, b: u32)
    requires
        a != b,
    ensures
        handle_at(a) != handle_at(b),
        handle_at(a) != 0,
{
}

/// The sequence number while an object is written: odd.
pub open spec fn opened(seq: u64) -> u64 {
    if seq % 2 == 0 {
        (seq + 1) as u64
    } else {
        seq
    }
}

/// The sequence number after an object was written: even, and larger than before.
pub open spec fn closed_seq(seq: u64) -> u64 {
    if seq % 2 == 0 {
        (seq + 2) as u64
    } else {
        (seq + 1) as u64
    }
}

/// Data is written between an odd and an even sequence number.
pub open spec fn guarded(offset: u64, seq: u64, data: Seq<(int, Seq<u8>)>) -> Seq<(int, Seq<u8>)> {
    seq![(offset as int, u64_bytes(opened(seq)))] + data + seq![(offset as int, u64_bytes(closed_seq(seq)))]
}

/// Whoever reads the same even number before and after has read nothing that was being written: the
/// number is odd as soon as data may have changed, and the number behind a write is a new one.
pub proof fn lemma_guarded_write(offset: u64, seq: u64, data: Seq<(int, Seq<u8>)>)
    requires
        seq <= u64::MAX - 2,
    ensures
        opened(seq) % 2 == 1,
        closed_seq(seq) % 2 == 0,
        closed_seq(seq) > seq,
        guarded(offset, seq, data)[0] == (offset as int, u64_bytes(opened(seq))),
        guarded(offset, seq, data).last() == (offset as int, u64_bytes(closed_seq(seq))),
        forall|i: int|
            0 < i < guarded(offset, seq, data).len() - 1 ==> #[trigger] guarded(offset, seq, data)[i]
                == data[i - 1],
{
}

/// The object of a window: its class, and its resolution.
pub open spec fn window_data(offset: u64, class: Seq<u8>, dpi: u32) -> Seq<(int, Seq<u8>)> {
    seq![(offset + 16, class), (offset + 32, u32_bytes(dpi))]
}

/// The bits of a message queue: those that wake, and those that changed.
pub open spec fn queue_data(offset: u64, wake: u32, changed: u32) -> Seq<(int, Seq<u8>)> {
    seq![(offset + 28, u32_bytes(wake)), (offset + 36, u32_bytes(changed))]
}

/// Bits after some of them were set or cleared.
pub open spec fn with_bits(now: u32, bits: u32, set: bool) -> u32 {
    if set {
        now | bits
    } else {
        now & !bits
    }
}

/// Bits that were set are there, bits that were cleared are not, and clearing what was set leaves what
/// clearing alone would have left.
pub proof fn lemma_bits_cleared(now: u32, bits: u32)
    ensures
        with_bits(now, bits, true) & bits == bits,
        with_bits(now, bits, false) & bits == 0,
        with_bits(with_bits(now, bits, true), bits, false) == with_bits(now, bits, false),
{
    assert((now | bits) & bits == bits) by (bit_vector);
    assert((now & !bits) & bits == 0) by (bit_vector);
    assert((now | bits) & !bits == now & !bits) by (bit_vector);
}

fn change_bits(now: u32, bits: u32, set: bool) -> (r: u32)
    ensures
        r == with_bits(now, bits, set),
{
    if set {
        now | bits
    } else {
        now & !bits
    }
}

/// The bit of a message queue that the display's driver waits for.
pub const QS_DRIVER: u32 = 0x8000_0000;

/// The bits of a message queue that its owner alone looks at.
pub open spec fn internal_data(offset: u64, internal: u32) -> Seq<(int, Seq<u8>)> {
    seq![(offset + 40, u32_bytes(internal))]
}

/// The object lies within the memory.
pub open spec fn within(s: Session, offset: u64) -> bool {
    s.mapped && offset + SHARED_OBJECT_STRIDE <= SESSION_SIZE
}

/// Adds a store to a list.
fn put(out: &mut Vec<Store>, at: u64, bytes: Vec<u8>)
    ensures
        stores_view(final(out)@) == stores_view(old(out)@).push((at as int, bytes@)),
{
    let ghost b = bytes@;
    out.push(Store { at, bytes });
    assert(stores_view(out@) =~= stores_view(old(out)@).push((at as int, b)));
}

fn u32_vec(x: u32) -> (r: Vec<u8>)
    ensures
        r@ == u32_bytes(x),
{
    let mut r: Vec<u8> = Vec::new();
    push_u32(&mut r, x);
    assert(r@ =~= u32_bytes(x));
    r
}

fn u64_vec(x: u64) -> (r: Vec<u8>)
    ensures
        r@ == u64_bytes(x),
{
    let mut r: Vec<u8> = Vec::new();
    push_u64(&mut r, x);
    assert(r@ =~= u64_bytes(x));
    r
}

fn u16_vec(x: u16) -> (r: Vec<u8>)
    ensures
        r@ == u16_bytes(x),
{
    let mut r: Vec<u8> = Vec::new();
    push_u16(&mut r, x);
    assert(r@ =~= u16_bytes(x));
    r
}

impl Session {
    /// A session whose only object is the desktop's.
    pub fn new(open: bool, mapped: bool) -> (r: Session)
        ensures
            r.open == open,
            r.mapped == mapped,
            r.next_offset == USER_ENTRIES_SIZE + SHARED_OBJECT_STRIDE,
            r.next_id == DESKTOP_LOCATOR_ID + 1,
            r.next_index == 0,
            r.free@.len() == 0,
    {
        Session {
            mapped,
            open,
            next_offset: USER_ENTRIES_SIZE + SHARED_OBJECT_STRIDE,
            next_id: DESKTOP_LOCATOR_ID + 1,
            next_index: 0,
            free: Vec::new(),
        }
    }

    /// There is room for one more object.
    pub open spec fn has_room(&self) -> bool {
        self.next_offset <= u64::MAX - SHARED_OBJECT_STRIDE && self.next_id < u64::MAX
    }

    /// Gives out a shared object: where it stands, and what is stored for it.
    pub fn alloc_shared_object(&mut self) -> (r: (Vec<u8>, Vec<Store>))
        requires
            old(self).has_room(),
        ensures
            r.0@ == locator(old(self).next_id, old(self).next_offset),
            stores_view(r.1@) == object_stores(
                *old(self),
                old(self).next_offset,
                old(self).next_id,
            ),
            *final(self) == (Session {
                next_offset: (old(self).next_offset + SHARED_OBJECT_STRIDE) as u64,
                next_id: (old(self).next_id + 1) as u64,
                ..*old(self)
            }),
    {
        let offset: u64 = self.next_offset;
        let id: u64 = self.next_id;
        self.next_offset = offset + SHARED_OBJECT_STRIDE;
        self.next_id = id + 1;
        let mut out: Vec<Store> = Vec::new();
        assert(stores_view(out@) =~= Seq::empty());
        if self.mapped && offset + SHARED_OBJECT_STRIDE <= SESSION_SIZE {
            put(&mut out, offset, u64_vec(0));
            put(&mut out, offset + 8, u64_vec(id));
            assert(stores_view(out@) =~= object_stores(*old(self), offset, id));
        }
        let mut l: Vec<u8> = u64_vec(id);
        push_u64(&mut l, offset);
        (l, out)
    }

    /// Gives out a user handle with a shared object of its own: the handle, and what is stored. The
    /// object is stored before the entry that leads to it.
    pub fn alloc_user_handle(&mut self, kind: u16, tid: u32, pid: u32) -> (r: (u32, Vec<Store>))
        requires
            old(self).has_room(),
            old(self).free@.len() == 0 ==> old(self).next_index < u32::MAX,
            handle_at(next_place(*old(self))) <= u32::MAX,
        ensures
            user_given(*old(self), *final(self), r.0),
            stores_view(r.1@) == object_stores(
                *old(self),
                old(self).next_offset,
                old(self).next_id,
            ) + (if old(self).open {
                seq![
                    (
                        next_place(*old(self)) * 32,
                        user_entry(old(self).next_offset, tid, pid, old(self).next_id, kind),
                    ),
                ]
            } else {
                Seq::empty()
            }),
    {
        let index: u32 = match self.free.pop() {
            Some(i) => i,
            None => {
                let i: u32 = self.next_index;
                self.next_index = i + 1;
                i
            },
        };
        let offset: u64 = self.next_offset;
        let id: u64 = self.next_id;
        let (_, mut out) = self.alloc_shared_object();
        if self.open {
            let mut e: Vec<u8> = u64_vec(offset);
            push_u32(&mut e, tid);
            push_u32(&mut e, pid);
            push_u64(&mut e, id);
            push_u16(&mut e, kind);
            push_u16(&mut e, 0);
            let pad = zero_bytes(4);
            push_all(&mut e, pad.as_slice());
            put(&mut out, index as u64 * USER_ENTRY_SIZE, e);
        }
        assert(stores_view(out@) =~= object_stores(*old(self), offset, id) + (if old(self).open {
            seq![(next_place(*old(self)) * 32, user_entry(offset, tid, pid, id, kind))]
        } else {
            Seq::empty()
        }));
        (2 * index + FIRST_USER_HANDLE, out)
    }

    /// Gives a user handle another owner.
    pub fn reassign_user_handle_owner(&self, handle: u32, tid: u32, pid: u32) -> (r: Option<Store>)
        ensures
            match r {
                Some(s) => self.open && handle >= FIRST_USER_HANDLE && s.at == 8 + 32 * ((handle
                    - FIRST_USER_HANDLE) / 2) && s.bytes@ == u32_bytes(tid) + u32_bytes(pid),
                None => !self.open || handle < FIRST_USER_HANDLE,
            },
    {
        if handle < FIRST_USER_HANDLE || !self.open {
            return None;
        }
        let at: u64 = 8 + 32 * ((handle - FIRST_USER_HANDLE) / 2) as u64;
        let mut bytes: Vec<u8> = u32_vec(tid);
        push_u32(&mut bytes, pid);
        Some(Store { at, bytes })
    }

    /// Writes the object of a window. `seq` is its sequence number.
    pub fn set_window_shm(&self, offset: u64, seq: u64, class: &[u8], dpi: u32) -> (r: Vec<Store>)
        requires
            class@.len() == 16,
            seq <= u64::MAX - 2,
            offset <= u64::MAX - SHARED_OBJECT_STRIDE,
        ensures
            stores_view(r@) == (if within(*self, offset) {
                guarded(offset, seq, window_data(offset, class@, dpi))
            } else {
                Seq::empty()
            }),
    {
        let mut out: Vec<Store> = Vec::new();
        assert(stores_view(out@) =~= Seq::empty());
        if !(self.mapped && offset + SHARED_OBJECT_STRIDE <= SESSION_SIZE) {
            return out;
        }
        put(&mut out, offset, u64_vec(open_seq(seq)));
        let mut c: Vec<u8> = Vec::new();
        push_all(&mut c, class);
        assert(c@ =~= class@);
        put(&mut out, offset + 16, c);
        put(&mut out, offset + 32, u32_vec(dpi));
        put(&mut out, offset, u64_vec(close_seq(seq)));
        assert(stores_view(out@) =~= guarded(offset, seq, window_data(offset, class@, dpi)));
        out
    }

    /// Sets or clears bits of a message queue. `seq` is its sequence number, `wake` and `changed` its
    /// bits.
    pub fn queue_bits(&self, offset: u64, seq: u64, wake: u32, changed: u32, bits: u32, set: bool) -> (r: Vec<
        Store,
    >)
        requires
            seq <= u64::MAX - 2,
            offset <= u64::MAX - SHARED_OBJECT_STRIDE,
        ensures
            stores_view(r@) == (if within(*self, offset) {
                guarded(
                    offset,
                    seq,
                    queue_data(
                        offset,
                        with_bits(wake, bits, set),
                        with_bits(changed, bits, set),
                    ),
                )
            } else {
                Seq::empty()
            }),
    {
        let mut out: Vec<Store> = Vec::new();
        assert(stores_view(out@) =~= Seq::empty());
        if !(self.mapped && offset + SHARED_OBJECT_STRIDE <= SESSION_SIZE) {
            return out;
        }
        let w: u32 = change_bits(wake, bits, set);
        let c: u32 = change_bits(changed, bits, set);
        put(&mut out, offset, u64_vec(open_seq(seq)));
        put(&mut out, offset + 28, u32_vec(w));
        put(&mut out, offset + 36, u32_vec(c));
        put(&mut out, offset, u64_vec(close_seq(seq)));
        assert(stores_view(out@) =~= guarded(offset, seq, queue_data(offset, w, c)));
        out
    }

    /// Sets or clears the bit of a message queue by which the driver learns that the display has something
    /// for it. `seq` is the queue's sequence number, `internal` the bits.
    pub fn driver_bit(&self, offset: u64, seq: u64, internal: u32, set: bool) -> (r: Vec<Store>)
        requires
            seq <= u64::MAX - 2,
            offset <= u64::MAX - SHARED_OBJECT_STRIDE,
        ensures
            stores_view(r@) == (if within(*self, offset) {
                guarded(
                    offset,
                    seq,
                    internal_data(offset, with_bits(internal, QS_DRIVER, set)),
                )
            } else {
                Seq::empty()
            }),
    {
        let mut out: Vec<Store> = Vec::new();
        assert(stores_view(out@) =~= Seq::empty());
        if !(self.mapped && offset + SHARED_OBJECT_STRIDE <= SESSION_SIZE) {
            return out;
        }
        let bits: u32 = change_bits(internal, QS_DRIVER, set);
        put(&mut out, offset, u64_vec(open_seq(seq)));
        put(&mut out, offset + 40, u32_vec(bits));
        put(&mut out, offset, u64_vec(close_seq(seq)));
        assert(stores_view(out@) =~= guarded(offset, seq, internal_data(offset, bits)));
        out
    }
}

fn open_seq(seq: u64) -> (r: u64)
    requires
        seq <= u64::MAX - 2,
    ensures
        r == opened(seq),
{
    if seq % 2 == 0 {
        seq + 1
    } else {
        seq
    }
}

fn close_seq(seq: u64) -> (r: u64)
    requires
        seq <= u64::MAX - 2,
    ensures
        r == closed_seq(seq),
{
    if seq % 2 == 0 {
        seq + 2
    } else {
        seq + 1
    }
}

/// The desktop's object at the start: the cursor may go everywhere on the screen, and the monitors are
/// new.
pub fn desktop_stores(width: u32, height: u32) -> (r: Vec<Store>)
    ensures
        stores_view(r@) == seq![
            (USER_ENTRIES_SIZE as int, u64_bytes(0)),
            (USER_ENTRIES_SIZE + 8, u64_bytes(DESKTOP_LOCATOR_ID)),
            (USER_ENTRIES_SIZE + 16, u32_bytes(0)),
            (USER_ENTRIES_SIZE + 40, u32_bytes(width)),
            (USER_ENTRIES_SIZE + 44, u32_bytes(height)),
            (USER_ENTRIES_SIZE + 304, u64_bytes(1)),
        ],
{
    let mut out: Vec<Store> = Vec::new();
    assert(stores_view(out@) =~= Seq::empty());
    put(&mut out, USER_ENTRIES_SIZE, u64_vec(0));
    put(&mut out, USER_ENTRIES_SIZE + 8, u64_vec(DESKTOP_LOCATOR_ID));
    put(&mut out, USER_ENTRIES_SIZE + 16, u32_vec(0));
    put(&mut out, USER_ENTRIES_SIZE + 40, u32_vec(width));
    put(&mut out, USER_ENTRIES_SIZE + 44, u32_vec(height));
    put(&mut out, USER_ENTRIES_SIZE + 304, u64_vec(1));
    out
}

/// The page of facts about the system that every process sees: version 10.0, build 19044, a workstation
/// on 64-bit Intel with 32-bit images beside it, and 4 GiB of memory.
pub fn usd_stores() -> (r: Vec<Store>)
    ensures
        stores_view(r@) == seq![
            (0x004int, u32_bytes(0x0FA0_0000)),
            (0x02Cint, u16_bytes(0x014C)),
            (0x02Eint, u16_bytes(0x8664)),
            (0x260int, u32_bytes(0xFA64)),
            (0x264int, u32_bytes(1)),
            (0x268int, seq![1u8]),
            (0x26Cint, u32_bytes(10)),
            (0x270int, u32_bytes(0)),
            (0x2E8int, u32_bytes(0x0010_0000)),
            (0x33Aint, u16_bytes(9)),
        ],
{
    let mut out: Vec<Store> = Vec::new();
    assert(stores_view(out@) =~= Seq::empty());
    put(&mut out, 0x004, u32_vec(0x0FA0_0000));
    put(&mut out, 0x02C, u16_vec(0x014C));
    put(&mut out, 0x02E, u16_vec(0x8664));
    put(&mut out, 0x260, u32_vec(0xFA64));
    put(&mut out, 0x264, u32_vec(1));
    let mut one: Vec<u8> = Vec::new();
    one.push(1);
    assert(one@ =~= seq![1u8]);
    put(&mut out, 0x268, one);
    put(&mut out, 0x26C, u32_vec(10));
    put(&mut out, 0x270, u32_vec(0));
    put(&mut out, 0x2E8, u32_vec(0x0010_0000));
    put(&mut out, 0x33A, u16_vec(9));
    out
}

/// The upper half of a number.
pub open spec fn high(x: u64) -> u32 {
    (x / 0x1_0000_0000) as u32
}

/// The lower half of a number.
pub open spec fn low(x: u64) -> u32 {
    (x % 0x1_0000_0000) as u32
}

/// What is stored for the clocks of that page, from the monotonic time in nanoseconds: the time since the
/// start in units of 100 ns, and in milliseconds. The second upper half of a clock is stored before its
/// lower half, the first one behind it.
pub open spec fn clock_stores(mono_ns: u64) -> Seq<(int, Seq<u8>)> {
    both_clocks(mono_ns / 100, mono_ns / 100 / 10_000)
}

/// What is stored for both clocks, and for the short copy of the second.
pub open spec fn both_clocks(t: u64, ms: u64) -> Seq<(int, Seq<u8>)> {
    one_clock(0x008, t) + (one_clock(0x320, ms) + seq![(0x000int, u32_bytes(low(ms)))])
}

/// What is stored for one clock.
pub open spec fn one_clock(at: int, t: u64) -> Seq<(int, Seq<u8>)> {
    seq![(at + 8, u32_bytes(high(t))), (at, u32_bytes(low(t))), (at + 4, u32_bytes(high(t)))]
}

/// What stands in a clock: its lower half, and two copies of its upper half.
#[verifier::opaque]
pub open spec fn clock(img: Seq<u8>, at: int) -> (u32, u32, u32) {
    (u32_at(img, at), u32_at(img, at + 4), u32_at(img, at + 8))
}

/// A clock shows a time.
pub open spec fn shows(img: Seq<u8>, at: int, t: u64) -> bool {
    clock(img, at).0 == low(t) && clock(img, at).1 == high(t)
}

/// A clock can be read: both copies of its upper half are the same.
pub open spec fn settled(img: Seq<u8>, at: int) -> bool {
    clock(img, at).1 == clock(img, at).2
}

proof fn lemma_put_word(img: Seq<u8>, at: int, x: u32)
    requires
        0 <= at,
        at + 4 <= img.len(),
    ensures
        splice(img, at, u32_bytes(x)).len() == img.len(),
        u32_at(splice(img, at, u32_bytes(x)), at) == x,
        forall|k: int|
            0 <= k && (k + 4 <= at || at + 4 <= k) && k + 4 <= img.len() ==> #[trigger] u32_at(
                splice(img, at, u32_bytes(x)),
                k,
            ) == u32_at(img, k),
{
    let s = splice(img, at, u32_bytes(x));
    assert(s.subrange(at, at + 4) =~= u32_bytes(x));
    lemma_read_back_u32(s, at, x);
}

/// While the clocks are moved from one time to another, a clock that can be read shows the one or the
/// other time, never a mixture.
pub proof fn lemma_clocks_not_torn(img: Seq<u8>, was: u64, now: u64, n: int)
    requires
        img.len() >= 0x32C,
        shows(img, 0x008, was / 100) && settled(img, 0x008),
        shows(img, 0x320, was / 100 / 10_000) && settled(img, 0x320),
        0 <= n <= clock_stores(now).len(),
    ensures
        ({
            let x = stored(img, clock_stores(now).take(n));
            &&& settled(x, 0x008) ==> shows(x, 0x008, was / 100) || shows(x, 0x008, now / 100)
            &&& settled(x, 0x320) ==> shows(x, 0x320, was / 100 / 10_000) || shows(
                x,
                0x320,
                now / 100 / 10_000,
            )
        }),
{
    lemma_both_clocks(img, was / 100, was / 100 / 10_000, now / 100, now / 100 / 10_000, n);
}

proof fn lemma_both_clocks(img: Seq<u8>, w1: u64, w2: u64, t: u64, ms: u64, n: int)
    requires
        img.len() >= 0x32C,
        shows(img, 0x008, w1) && settled(img, 0x008),
        shows(img, 0x320, w2) && settled(img, 0x320),
        0 <= n <= 7,
    ensures
        ({
            let x = stored(img, both_clocks(t, ms).take(n));
            &&& settled(x, 0x008) ==> shows(x, 0x008, w1) || shows(x, 0x008, t)
            &&& settled(x, 0x320) ==> shows(x, 0x320, w2) || shows(x, 0x320, ms)
        }),
{
    let first = one_clock(0x008, t);
    let last = seq![(0x000int, u32_bytes(low(ms)))];
    let rest = one_clock(0x320, ms) + last;
    assert(u32_bytes(low(ms)).len() == 4);
    lemma_then(img, 0x008, w1, t, rest, n);
    if n <= 3 {
        assert((first + rest).take(n) =~= first.take(n));
        lemma_apart(img, first.take(n), 0x320);
    } else {
        lemma_apart(img, first, 0x320);
        lemma_stored_within(img, first);
        lemma_then(stored(img, first), 0x320, w2, ms, last, n - 3);
        lemma_stored_parts(img, (first + rest).take(n), 3);
        assert((first + rest).take(n).take(3) =~= first);
        assert((first + rest).take(n).skip(3) =~= rest.take(n - 3));
    }
}

/// A clock is moved, and then stores follow that keep away from it.
proof fn lemma_then(img: Seq<u8>, at: int, was: u64, now: u64, rest: Seq<(int, Seq<u8>)>, n: int)
    requires
        0 <= at,
        at + 12 <= img.len(),
        shows(img, at, was) && settled(img, at),
        forall|i: int|
            0 <= i < rest.len() ==> 0 <= (#[trigger] rest[i]).0 && rest[i].1.len() == 4 && (rest[i].0
                + 4 <= at || at + 12 <= rest[i].0),
        0 <= n <= 3 + rest.len(),
    ensures
        ({
            let x = stored(img, (one_clock(at, now) + rest).take(n));
            settled(x, at) ==> shows(x, at, was) || shows(x, at, now)
        }),
{
    let s = one_clock(at, now) + rest;
    if n <= 3 {
        assert(s.take(n) =~= one_clock(at, now).take(n));
        lemma_one_clock(img, at, was, now, n);
    } else {
        lemma_stored_parts(img, s.take(n), 3);
        assert(s.take(n).take(3) =~= one_clock(at, now).take(3));
        assert(s.take(n).skip(3) =~= rest.take(n - 3));
        lemma_one_clock(img, at, was, now, 3);
        let m = stored(img, one_clock(at, now).take(3));
        lemma_stored_within(img, one_clock(at, now).take(3));
        lemma_apart(m, rest.take(n - 3), at);
    }
}

proof fn lemma_one_clock(img: Seq<u8>, at: int, was: u64, now: u64, n: int)
    requires
        0 <= at,
        at + 12 <= img.len(),
        shows(img, at, was) && settled(img, at),
        0 <= n <= 3,
    ensures
        ({
            let x = stored(img, one_clock(at, now).take(n));
            settled(x, at) ==> shows(x, at, was) || shows(x, at, now)
        }),
{
    reveal(clock);
    let s = one_clock(at, now);
    let x1 = splice(img, at + 8, u32_bytes(high(now)));
    let x2 = splice(x1, at, u32_bytes(low(now)));
    let x3 = splice(x2, at + 4, u32_bytes(high(now)));
    lemma_put_word(img, at + 8, high(now));
    lemma_put_word(x1, at, low(now));
    lemma_put_word(x2, at + 4, high(now));
    assert(s.take(0) =~= Seq::empty());
    assert(s.take(1).drop_last() =~= s.take(0));
    assert(s.take(2).drop_last() =~= s.take(1));
    assert(s.take(3).drop_last() =~= s.take(2));
    assert(stored(img, s.take(0)) == img);
    assert(stored(img, s.take(1)) == x1);
    assert(stored(img, s.take(2)) == x2);
    assert(stored(img, s.take(3)) == x3);
}

proof fn lemma_stored_within(img: Seq<u8>, s: Seq<(int, Seq<u8>)>)
    ensures
        stored(img, s).len() == img.len(),
    decreases s.len(),
{
    if s.len() > 0 {
        lemma_stored_within(img, s.drop_last());
    }
}

proof fn lemma_stored_parts(img: Seq<u8>, s: Seq<(int, Seq<u8>)>, k: int)
    requires
        0 <= k <= s.len(),
    ensures
        stored(img, s) == stored(stored(img, s.take(k)), s.skip(k)),
    decreases s.len(),
{
    if k == s.len() {
        assert(s.take(k) =~= s);
        assert(s.skip(k) =~= Seq::empty());
    } else {
        lemma_stored_parts(img, s.drop_last(), k);
        assert(s.drop_last().take(k) =~= s.take(k));
        assert(s.skip(k).drop_last() =~= s.drop_last().skip(k));
        assert(s.skip(k).last() == s.last());
    }
}

/// Stores of words that keep away from a clock leave it as it is.
proof fn lemma_apart(img: Seq<u8>, s: Seq<(int, Seq<u8>)>, at: int)
    requires
        0 <= at,
        at + 12 <= img.len(),
        forall|i: int|
            0 <= i < s.len() ==> 0 <= (#[trigger] s[i]).0 && s[i].1.len() == 4 && (s[i].0 + 4 <= at || at
                + 12 <= s[i].0),
    ensures
        clock(stored(img, s), at) == clock(img, at),
    decreases s.len(),
{
    if s.len() > 0 {
        assert forall|i: int| 0 <= i < s.drop_last().len() implies 0 <= (#[trigger] s.drop_last()[i]).0
            && s.drop_last()[i].1.len() == 4 && (s.drop_last()[i].0 + 4 <= at || at + 12
            <= s.drop_last()[i].0) by {
            assert(s.drop_last()[i] == s[i]);
        }
        lemma_apart(img, s.drop_last(), at);
        lemma_stored_within(img, s.drop_last());
        let l = s[s.len() - 1];
        let x = stored(img, s.drop_last());
        let y = splice(x, l.0, l.1);
        assert(stored(img, s) == y);
        assert forall|i: int| at <= i < at + 12 implies y[i] == x[i] by {}
        reveal(clock);
    }
}

/// Moves the clocks of that page. A reader that finds both upper halves of a clock equal has read one
/// time.
pub fn usd_time_stores(mono_ns: u64) -> (r: Vec<Store>)
    ensures
        stores_view(r@) == clock_stores(mono_ns),
{
    let t: u64 = mono_ns / 100;
    let ms: u64 = t / 10_000;
    let th: u32 = (t / 0x1_0000_0000) as u32;
    let tl: u32 = (t % 0x1_0000_0000) as u32;
    let mh: u32 = (ms / 0x1_0000_0000) as u32;
    let ml: u32 = (ms % 0x1_0000_0000) as u32;
    let mut out: Vec<Store> = Vec::new();
    assert(stores_view(out@) =~= Seq::empty());
    put(&mut out, 0x010, u32_vec(th));
    put(&mut out, 0x008, u32_vec(tl));
    put(&mut out, 0x00C, u32_vec(th));
    put(&mut out, 0x328, u32_vec(mh));
    put(&mut out, 0x320, u32_vec(ml));
    put(&mut out, 0x324, u32_vec(mh));
    put(&mut out, 0x000, u32_vec(ml));
    assert(stores_view(out@) =~= clock_stores(mono_ns));
    out
}

/// The sizes of the shared memory: 32744 entries of 32 bytes each, 4 MiB of objects behind them, 1024 bytes
/// from one object to the next. The desktop's object has the number 256, and the first handle is 32.
pub proof fn lemma_sizes_of_shared_memory()
    ensures
        USER_ENTRY_SIZE == 32,
        USER_ENTRIES_SIZE == 32744 * 32,
        SESSION_SIZE == 32744 * 32 + 4 * 1024 * 1024,
        SHARED_OBJECT_STRIDE == 1024,
        DESKTOP_LOCATOR_ID == 256,
        FIRST_USER_HANDLE == 32,
        NTUSER_OBJ_WINDOW == 1,
        QS_DRIVER == 0x8000_0000,
{
}

/// Where an object stands is read back from its locator: its number, and behind that its place.
pub proof fn lemma_locator_reads_back(id: u64, offset: u64)
    ensures
        locator(id, offset).len() == 16,
        u64_at(locator(id, offset), 0) == id,
        u64_at(locator(id, offset), 8) == offset,
{
    let l = locator(id, offset);
    assert(l.subrange(0, 8) =~= u64_bytes(id));
    lemma_read_back_u64(l, 0, id);
    assert(l.subrange(8, 16) =~= u64_bytes(offset));
    lemma_read_back_u64(l, 8, offset);
}

/// The entry of a user handle: the place of its object at 0, its thread at 8, its process at 12, the number of
/// its object at 16, its kind at 24.
pub proof fn lemma_entry_reads_back(offset: u64, tid: u32, pid: u32, id: u64, kind: u16)
    ensures
        ({
            let e = user_entry(offset, tid, pid, id, kind);
            &&& e.len() == 32
            &&& u64_at(e, 0) == offset
            &&& u32_at(e, 8) == tid
            &&& u32_at(e, 12) == pid
            &&& u64_at(e, 16) == id
            &&& u16_at(e, 24) == kind
        }),
{
    let e = user_entry(offset, tid, pid, id, kind);
    assert(e.subrange(0, 8) =~= u64_bytes(offset));
    lemma_read_back_u64(e, 0, offset);
    assert(e.subrange(8, 12) =~= u32_bytes(tid));
    lemma_read_back_u32(e, 8, tid);
    assert(e.subrange(12, 16) =~= u32_bytes(pid));
    lemma_read_back_u32(e, 12, pid);
    assert(e.subrange(16, 24) =~= u64_bytes(id));
    lemma_read_back_u64(e, 16, id);
    assert(e.subrange(24, 26) =~= u16_bytes(kind));
    lemma_read_back_u16(e, 24, kind);
}

/// The handle at a place is even, starts at 32, and the next place has the next even number.
pub proof fn lemma_handles_count_by_two(index: u32)
    ensures
        handle_at(0) == 32,
        handle_at(index) % 2 == 0,
        index < u32::MAX ==> handle_at((index + 1) as u32) == handle_at(index) + 2,
{
}

/// A place that was given back is given out before a new one, the latest first.
pub proof fn lemma_free_places_first(before: Session, after: Session, handle: u32)
    requires
        user_given(before, after, handle),
    ensures
        before.free@.len() > 0 ==> handle == 32 + 2 * before.free@.last() && after.next_index == before.next_index
            && after.free@.len() == before.free@.len() - 1,
        before.free@.len() == 0 ==> handle == 32 + 2 * before.next_index && after.next_index == before.next_index
            + 1,
        after.next_offset == before.next_offset + 1024 && after.next_id == before.next_id + 1,
{
}

/// Where things stand in an object: its sequence number at 0, its own number at 8; the class of a window at 16
/// and its resolution at 32; the bits of a queue at 28, those that changed at 36, and its inner ones at 40.
pub proof fn lemma_places_in_objects(s: Session, offset: u64, id: u64, class: Seq<u8>, a: u32, b: u32)
    ensures
        s.mapped && offset + 1024 <= 32744 * 32 + 4 * 1024 * 1024 ==> object_stores(s, offset, id) == seq![
            (offset as int, u64_bytes(0)),
            (offset + 8, u64_bytes(id)),
        ],
        !s.mapped ==> object_stores(s, offset, id).len() == 0,
        offset > 32744 * 32 + 4 * 1024 * 1024 - 1024 ==> object_stores(s, offset, id).len() == 0,
        window_data(offset, class, a) == seq![(offset + 16, class), (offset + 32, u32_bytes(a))],
        queue_data(offset, a, b) == seq![(offset + 28, u32_bytes(a)), (offset + 36, u32_bytes(b))],
        internal_data(offset, a) == seq![(offset + 40, u32_bytes(a))],
{
}

/// The time is stored in units of 100 ns at 8, and in milliseconds at 0x320 and, cut short, at 0.
pub proof fn lemma_clocks_are_told(mono_ns: u64)
    ensures
        clock_stores(mono_ns).contains((0x008int, u32_bytes(((mono_ns / 100) % 0x1_0000_0000) as u32))),
        clock_stores(mono_ns).contains((0x00Cint, u32_bytes(((mono_ns / 100) / 0x1_0000_0000) as u32))),
        clock_stores(mono_ns).contains((0x010int, u32_bytes(((mono_ns / 100) / 0x1_0000_0000) as u32))),
        clock_stores(mono_ns).contains((0x320int, u32_bytes(((mono_ns / 1_000_000) % 0x1_0000_0000) as u32))),
        clock_stores(mono_ns).contains((0x324int, u32_bytes(((mono_ns / 1_000_000) / 0x1_0000_0000) as u32))),
        clock_stores(mono_ns).contains((0x328int, u32_bytes(((mono_ns / 1_000_000) / 0x1_0000_0000) as u32))),
        clock_stores(mono_ns).contains((0x000int, u32_bytes(((mono_ns / 1_000_000) % 0x1_0000_0000) as u32))),
{
    let c = clock_stores(mono_ns);
    let (t, ms) = (mono_ns / 100, mono_ns / 1_000_000);
    assert(mono_ns / 100 / 10_000 == ms);
    assert(c[0] == (0x010int, u32_bytes(high(t))));
    assert(c[1] == (0x008int, u32_bytes(low(t))));
    assert(c[2] == (0x00Cint, u32_bytes(high(t))));
    assert(c[3] == (0x328int, u32_bytes(high(ms))));
    assert(c[4] == (0x320int, u32_bytes(low(ms))));
    assert(c[5] == (0x324int, u32_bytes(high(ms))));
    assert(c[6] == (0x000int, u32_bytes(low(ms))));
}

/// An object is written between an odd number and a larger even one, at its own place.
pub proof fn lemma_sequence_numbers(seq: u64)
    requires
        seq <= u64::MAX - 2,
    ensures
        opened(seq) % 2 == 1 && closed_seq(seq) % 2 == 0,
        seq <= opened(seq) < closed_seq(seq) <= seq + 2,
        closed_seq(seq) == opened(seq) + 1,
{
}

} // verus!
