//! Requests in a stream of bytes: a fixed block, and behind it as many bytes as its header says.
use crate::bytes::{copy_range, i32_from_bits, i32_of_bits, lemma_read_back_u32, read_u32, u32_at, u32_bytes};
use vstd::prelude::*;

verus! {

/// The header of a request.
#[derive(Clone, Copy, Debug, PartialEq, Eq)]
pub struct RequestHeader {
    pub req: i32,
    /// How many bytes follow the fixed block.
    pub request_size: u32,
    /// How many bytes the client takes behind the fixed block of the reply.
    pub reply_size: u32,
}

/// The header at the start of some bytes.
pub open spec fn header_of(b: Seq<u8>) -> RequestHeader {
    RequestHeader {
        req: i32_of_bits(u32_at(b, 0)),
        request_size: u32_at(b, 4),
        reply_size: u32_at(b, 8),
    }
}

pub fn read_header(b: &[u8]) -> (r: RequestHeader)
    requires
        b@.len() >= 12,
    ensures
        r == header_of(b@),
{
    RequestHeader {
        req: i32_from_bits(read_u32(b, 0)),
        request_size: read_u32(b, 4),
        reply_size: read_u32(b, 8),
    }
}

/// The length of the request at the start of some bytes.
pub open spec fn frame_len(b: Seq<u8>) -> int {
    64 + u32_at(b, 4)
}

/// The first request is there in full.
pub open spec fn whole_frame(b: Seq<u8>) -> bool {
    b.len() >= 12 && b.len() >= frame_len(b)
}

/// The requests that are there in full.
pub open spec fn frames(b: Seq<u8>) -> Seq<Seq<u8>>
    decreases b.len(),
{
    if !whole_frame(b) {
        Seq::empty()
    } else {
        seq![b.take(frame_len(b))] + frames(b.skip(frame_len(b)))
    }
}

/// What follows the requests that are there in full.
pub open spec fn tail(b: Seq<u8>) -> Seq<u8>
    decreases b.len(),
{
    if !whole_frame(b) {
        b
    } else {
        tail(b.skip(frame_len(b)))
    }
}

/// Takes the first request off the bytes that have arrived, where it is there in full.
pub fn next_request(buf: &mut Vec<u8>) -> (r: Option<(RequestHeader, Vec<u8>)>)
    ensures
        if whole_frame(old(buf)@) {
            &&& r matches Some((h, b)) && h == header_of(old(buf)@) && b@ == old(buf)@.take(
                frame_len(old(buf)@),
            )
            &&& final(buf)@ == old(buf)@.skip(frame_len(old(buf)@))
        } else {
            r is None && final(buf)@ == old(buf)@
        },
{
    let n: usize = buf.len();
    if n < 12 {
        return None;
    }
    let h = read_header(buf.as_slice());
    let total: u64 = 64 + h.request_size as u64;
    if (n as u64) < total {
        return None;
    }
    let first = copy_range(buf.as_slice(), 0, total as usize);
    let rest = copy_range(buf.as_slice(), total as usize, n);
    assert(first@ =~= old(buf)@.take(frame_len(old(buf)@)));
    assert(rest@ =~= old(buf)@.skip(frame_len(old(buf)@)));
    *buf = rest;
    Some((h, first))
}

/// Pieces in a row.
pub open spec fn flat(s: Seq<Seq<u8>>) -> Seq<u8>
    decreases s.len(),
{
    if s.len() == 0 {
        Seq::empty()
    } else {
        s[0] + flat(s.skip(1))
    }
}

/// No byte is lost and none is made up: the requests and what follows them are the bytes that arrived.
pub proof fn lemma_nothing_lost(b: Seq<u8>)
    ensures
        flat(frames(b)) + tail(b) == b,
        !whole_frame(tail(b)),
    decreases b.len(),
{
    if whole_frame(b) {
        let first = b.take(frame_len(b));
        let rest = b.skip(frame_len(b));
        lemma_nothing_lost(rest);
        assert(frames(b).skip(1) =~= frames(rest));
        assert(frames(b)[0] == first);
        assert(first + flat(frames(rest)) + tail(rest) =~= first + (flat(frames(rest)) + tail(rest)));
        assert(first + rest =~= b);
    } else {
        assert(Seq::<u8>::empty() + b =~= b);
    }
}

/// Which requests arrive does not depend on the pieces in which the bytes come: what is found in `a` is
/// found before what the rest of `a` and `b` hold.
pub proof fn lemma_pieces_do_not_matter(a: Seq<u8>, b: Seq<u8>)
    ensures
        frames(a + b) == frames(a) + frames(tail(a) + b),
        tail(a + b) == tail(tail(a) + b),
    decreases a.len(),
{
    if whole_frame(a) {
        let n = frame_len(a);
        let s = a + b;
        assert(u32_at(s, 4) == u32_at(a, 4));
        assert(frame_len(s) == n);
        assert(s.take(n) =~= a.take(n));
        assert(s.skip(n) =~= a.skip(n) + b);
        lemma_pieces_do_not_matter(a.skip(n), b);
        assert(seq![a.take(n)] + (frames(a.skip(n)) + frames(tail(a.skip(n)) + b)) =~= seq![
            a.take(n),
        ] + frames(a.skip(n)) + frames(tail(a.skip(n)) + b));
    } else {
        assert(Seq::<Seq<u8>>::empty() + frames(a + b) =~= frames(a + b));
    }
}

/// Requests that were written one after the other are found as they were written.
pub proof fn lemma_frames_found(s: Seq<Seq<u8>>)
    requires
        forall|i: int|
            0 <= i < s.len() ==> (#[trigger] s[i]).len() >= 64 && s[i].len() == frame_len(s[i]),
    ensures
        frames(flat(s)) == s,
        tail(flat(s)) == Seq::<u8>::empty(),
    decreases s.len(),
{
    if s.len() > 0 {
        let rest = s.skip(1);
        assert forall|i: int| 0 <= i < rest.len() implies (#[trigger] rest[i]).len() >= 64
            && rest[i].len() == frame_len(rest[i]) by {
            assert(rest[i] == s[i + 1]);
        }
        lemma_frames_found(rest);
        let first = s[0];
        let all = flat(s);
        assert(u32_at(all, 4) == u32_at(first, 4));
        assert(all.take(frame_len(all)) =~= first);
        assert(all.skip(frame_len(all)) =~= flat(rest));
        assert(seq![first] + rest =~= s);
    } else {
        assert(frames(flat(s)) =~= s);
    }
}

/// A header is read back as it was written: what is asked for, how much follows the fixed block, and how much
/// the client takes. A request is its fixed block of 64 bytes and what follows.
pub proof fn lemma_header_reads_back(req: u32, size: u32, room: u32, rest: Seq<u8>)
    ensures
        ({
            let b = u32_bytes(req) + u32_bytes(size) + u32_bytes(room) + rest;
            let h = header_of(b);
            &&& h.req == i32_of_bits(req)
            &&& h.request_size == size
            &&& h.reply_size == room
            &&& frame_len(b) == 64 + size
            &&& whole_frame(b) <==> rest.len() >= 52 + size
        }),
{
    let b = u32_bytes(req) + u32_bytes(size) + u32_bytes(room) + rest;
    assert(b.subrange(0, 4) =~= u32_bytes(req));
    lemma_read_back_u32(b, 0, req);
    assert(b.subrange(4, 8) =~= u32_bytes(size));
    lemma_read_back_u32(b, 4, size);
    assert(b.subrange(8, 12) =~= u32_bytes(room));
    lemma_read_back_u32(b, 8, room);
}

} // verus!
