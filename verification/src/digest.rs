//! Numbers for texts, by the standard library's hasher: equal texts have equal numbers.
use crate::bytes::{push_u64, u64_bytes};
use crate::settings::pair_views;
use crate::text::views;
use std::collections::hash_map::DefaultHasher;
use std::hash::Hasher;
use vstd::prelude::*;
use vstd::std_specs::hash::DefaultHasherAdditionalSpecFns;
use vstd::utf8::encode_utf8;

verus! {

/// The number that the hasher makes of what was written to it, write by write.
pub open spec fn digest(writes: Seq<Seq<u8>>) -> u64 {
    DefaultHasher::spec_finish(writes)
}

/// What is written of a text: its bytes, and a byte that no text has.
pub open spec fn text_writes(s: Seq<char>) -> Seq<Seq<u8>> {
    seq![encode_utf8(s), seq![0xFFu8]]
}

/// What is written of texts, one after the other.
pub open spec fn list_writes(v: Seq<Seq<char>>) -> Seq<Seq<u8>>
    decreases v.len(),
{
    if v.len() == 0 {
        Seq::empty()
    } else {
        list_writes(v.drop_last()) + text_writes(v.last())
    }
}

/// What is written of variables: of each its name and its value.
pub open spec fn pair_writes(v: Seq<(Seq<char>, Seq<char>)>) -> Seq<Seq<u8>>
    decreases v.len(),
{
    if v.len() == 0 {
        Seq::empty()
    } else {
        pair_writes(v.drop_last()) + text_writes(v.last().0) + text_writes(v.last().1)
    }
}

fn write_text(h: &mut DefaultHasher, s: &str)
    ensures
        final(h)@ == old(h)@ + text_writes(s@),
{
    h.write(s.as_bytes());
    let end: [u8; 1] = [0xFF];
    assert(end@ =~= seq![0xFFu8]);
    h.write(end.as_slice());
    assert(h@ =~= old(h)@ + text_writes(s@));
}

fn write_number(h: &mut DefaultHasher, x: u64)
    ensures
        final(h)@ == old(h)@.push(u64_bytes(x)),
{
    let mut b: Vec<u8> = Vec::new();
    push_u64(&mut b, x);
    assert(b@ =~= u64_bytes(x));
    h.write(b.as_slice());
}

/// The number for a number and a list of texts: the number, how many texts there are, and each of them.
pub open spec fn list_digest(x: u64, v: Seq<Seq<char>>) -> u64 {
    digest(seq![u64_bytes(x), u64_bytes(v.len() as u64)] + list_writes(v))
}

pub fn hash_list(x: u64, v: &Vec<String>) -> (r: u64)
    ensures
        r == list_digest(x, views(v@)),
{
    let mut h = DefaultHasher::new();
    write_number(&mut h, x);
    write_number(&mut h, v.len() as u64);
    let ghost head = seq![u64_bytes(x), u64_bytes(v@.len() as u64)];
    let mut i: usize = 0;
    assert(h@ =~= head + list_writes(views(v@).take(0)));
    while i < v.len()
        invariant
            i <= v@.len(),
            h@ == head + list_writes(views(v@).take(i as int)),
        decreases v@.len() - i,
    {
        let ghost t = views(v@).take(i + 1);
        assert(t.drop_last() =~= views(v@).take(i as int));
        assert(t.last() == v@[i as int]@);
        write_text(&mut h, v[i].as_str());
        assert(h@ =~= head + list_writes(t));
        i = i + 1;
    }
    assert(views(v@).take(i as int) =~= views(v@));
    h.finish()
}

/// The number for variables.
pub open spec fn pair_digest(v: Seq<(Seq<char>, Seq<char>)>) -> u64 {
    digest(pair_writes(v))
}

pub fn hash_pairs(v: &Vec<(String, String)>) -> (r: u64)
    ensures
        r == pair_digest(pair_views(v@)),
{
    let mut h = DefaultHasher::new();
    let mut i: usize = 0;
    assert(h@ =~= pair_writes(pair_views(v@).take(0)));
    while i < v.len()
        invariant
            i <= v@.len(),
            h@ == pair_writes(pair_views(v@).take(i as int)),
        decreases v@.len() - i,
    {
        let ghost t = pair_views(v@).take(i + 1);
        assert(t.drop_last() =~= pair_views(v@).take(i as int));
        assert(t.last() == (v@[i as int].0@, v@[i as int].1@));
        write_text(&mut h, v[i].0.as_str());
        write_text(&mut h, v[i].1.as_str());
        assert(h@ =~= pair_writes(t));
        i = i + 1;
    }
    assert(pair_views(v@).take(i as int) =~= pair_views(v@));
    h.finish()
}

} // verus!
