//! Tokens: who the user is, and what that user may do.
use crate::bytes::{lemma_read_back_u64, push_u32, push_u64, u32_at, u32_bytes, u64_at, u64_bytes};
use crate::state::{waitable, EventLoop};
use crate::wire::{
    block, handle_answer, head, header, lemma_word_told, max_reply_vararg, reply_fixed, reply_four, reply_room,
    reply_status, reply_vararg, status, Reply, STATUS_BUFFER_TOO_SMALL, STATUS_INVALID_PARAMETER,
    STATUS_NO_MEMORY,
};
use vstd::prelude::*;

verus! {

/// The answer that gives an identifier. Where there is no room for it the client learns its length, so that
/// it can ask again.
pub open spec fn sid_answer(sid: Seq<u8>, room: u32) -> Seq<u8> {
    if sid.len() > room {
        block(head(STATUS_BUFFER_TOO_SMALL, 0) + u32_bytes(sid.len() as u32))
    } else {
        block(head(0, sid.len() as u32) + u32_bytes(sid.len() as u32)) + sid
    }
}

impl EventLoop {
    /// Tells the user's identifier.
    pub fn handle_get_token_sid(&self, buf: &[u8], complete: bool) -> (r: Reply)
        ensures
            r@ == (if complete {
                sid_answer(self.user_sid@, reply_room(buf@))
            } else {
                status(STATUS_INVALID_PARAMETER)
            }),
    {
        if !complete {
            return reply_status(STATUS_INVALID_PARAMETER);
        }
        let room: u32 = max_reply_vararg(buf);
        let n: usize = self.user_sid.len();
        if n > room as usize {
            let mut body = header(STATUS_BUFFER_TOO_SMALL, 0);
            push_u32(&mut body, n as u32);
            return reply_fixed(body.as_slice());
        }
        let mut body = header(0, n as u32);
        push_u32(&mut body, n as u32);
        reply_vararg(body.as_slice(), self.user_sid.as_slice())
    }

    /// Gives a client a handle to its token.
    pub fn handle_open_token(&mut self, client_fd: i32) -> (r: Reply)
        requires
            old(self).wf(),
        ensures
            final(self).wf(),
            exists|h: u32| #[trigger]
                waitable(*old(self), *final(self), client_fd, h) && r@ == (if h == 0 {
                    status(STATUS_NO_MEMORY)
                } else {
                    handle_answer(0, h)
                }),
    {
        self.handle_open_directory(client_fd)
    }
}

/// A client that asks again with the room that it was told gets the identifier.
pub proof fn lemma_told_room_suffices(sid: Seq<u8>)
    requires
        sid.len() <= u32::MAX,
    ensures
        sid_answer(sid, sid.len() as u32) == block(
            head(0, sid.len() as u32) + u32_bytes(sid.len() as u32),
        ) + sid,
{
}

/// Tells of a token that it is a primary one of an elevated user.
pub fn handle_get_token_info() -> (r: Reply)
    ensures
        r@ == block(
            head(0, 0) + u64_bytes(1000) + u64_bytes(1) + u32_bytes(0) + u32_bytes(1) + u32_bytes(0)
                + u32_bytes(3) + u32_bytes(1) + u32_bytes(0) + u32_bytes(0) + u32_bytes(0),
        ),
        u64_at(r@, 8) == 1000 && u64_at(r@, 16) == 1 && u32_at(r@, 24) == 0 && u32_at(r@, 28) == 1 && u32_at(
            r@,
            32,
        ) == 0 && u32_at(r@, 36) == 3 && u32_at(r@, 40) == 1,
{
    proof {
        lemma_token_told();
    }
    let mut body = header(0, 0);
    push_u64(&mut body, 1000);
    push_u64(&mut body, 1);
    push_u32(&mut body, 0);
    push_u32(&mut body, 1);
    push_u32(&mut body, 0);
    push_u32(&mut body, 3);
    push_u32(&mut body, 1);
    push_u32(&mut body, 0);
    push_u32(&mut body, 0);
    push_u32(&mut body, 0);
    reply_fixed(body.as_slice())
}

/// Grants every access.
pub fn handle_access_check() -> (r: Reply)
    ensures
        r@ == block(
            head(0, 0) + u32_bytes(0x1F_0FFF) + u32_bytes(0) + u32_bytes(0) + u32_bytes(0),
        ),
        u32_at(r@, 0) == 0 && u32_at(r@, 8) == 0x1F_0FFF,
{
    proof {
        let body = head(0, 0) + u32_bytes(0x1F_0FFF) + u32_bytes(0) + u32_bytes(0) + u32_bytes(0);
        assert(body.subrange(0, 4) =~= u32_bytes(0));
        lemma_word_told(body, Seq::empty(), 0, 0);
        assert(body.subrange(8, 12) =~= u32_bytes(0x1F_0FFF));
        lemma_word_told(body, Seq::empty(), 8, 0x1F_0FFF);
    }
    reply_four(0, 0x1F_0FFF, 0, 0, 0)
}

#[verifier::spinoff_prover]
#[verifier::rlimit(40)]
proof fn lemma_token_told()
    ensures
        ({
            let r = block(
                head(0, 0) + u64_bytes(1000) + u64_bytes(1) + u32_bytes(0) + u32_bytes(1) + u32_bytes(0)
                    + u32_bytes(3) + u32_bytes(1) + u32_bytes(0) + u32_bytes(0) + u32_bytes(0),
            );
            u64_at(r, 8) == 1000 && u64_at(r, 16) == 1 && u32_at(r, 24) == 0 && u32_at(r, 28) == 1 && u32_at(r, 32)
                == 0 && u32_at(r, 36) == 3 && u32_at(r, 40) == 1
        }),
{
    let body = head(0, 0) + u64_bytes(1000) + u64_bytes(1) + u32_bytes(0) + u32_bytes(1) + u32_bytes(0)
        + u32_bytes(3) + u32_bytes(1) + u32_bytes(0) + u32_bytes(0) + u32_bytes(0);
    let r = block(body);
    assert(body.len() == 56);
    assert(r.subrange(8, 16) =~= u64_bytes(1000));
    lemma_read_back_u64(r, 8, 1000);
    assert(r.subrange(16, 24) =~= u64_bytes(1));
    lemma_read_back_u64(r, 16, 1);
    assert(body.subrange(24, 28) =~= u32_bytes(0));
    lemma_word_told(body, Seq::empty(), 24, 0);
    assert(body.subrange(28, 32) =~= u32_bytes(1));
    lemma_word_told(body, Seq::empty(), 28, 1);
    assert(body.subrange(32, 36) =~= u32_bytes(0));
    lemma_word_told(body, Seq::empty(), 32, 0);
    assert(body.subrange(36, 40) =~= u32_bytes(3));
    lemma_word_told(body, Seq::empty(), 36, 3);
    assert(body.subrange(40, 44) =~= u32_bytes(1));
    lemma_word_told(body, Seq::empty(), 40, 1);
}

/// The length of the user's identifier is told in any case, and the identifier itself where the room is as
/// long as it or longer.
pub proof fn lemma_identifier_told(sid: Seq<u8>, room: u32)
    requires
        sid.len() <= u32::MAX,
    ensures
        u32_at(sid_answer(sid, room), 8) == sid.len(),
        sid.len() <= room ==> u32_at(sid_answer(sid, room), 0) == 0 && sid_answer(sid, room).skip(64) == sid,
        sid.len() > room ==> u32_at(sid_answer(sid, room), 0) == 0xC000_0023 && sid_answer(sid, room).len() == 64,
{
    let n = sid.len() as u32;
    let (a, b) = (head(STATUS_BUFFER_TOO_SMALL, 0) + u32_bytes(n), head(0, n) + u32_bytes(n));
    assert(a.subrange(0, 4) =~= u32_bytes(STATUS_BUFFER_TOO_SMALL));
    lemma_word_told(a, Seq::empty(), 0, STATUS_BUFFER_TOO_SMALL);
    assert(a.subrange(8, 12) =~= u32_bytes(n));
    lemma_word_told(a, Seq::empty(), 8, n);
    assert(b.subrange(0, 4) =~= u32_bytes(0));
    lemma_word_told(b, sid, 0, 0);
    assert(b.subrange(8, 12) =~= u32_bytes(n));
    lemma_word_told(b, sid, 8, n);
}

} // verus!
