//! Copies of whole directories: the records in which the kernel lists a directory, and what becomes of
//! each entry.
use crate::bytes::{copy_range, lemma_read_back_u16, read_u16, u16_at, u16_bytes};
use vstd::prelude::*;

verus! {

pub const DT_UNKNOWN: u8 = 0;

pub const DT_DIR: u8 = 4;

pub const DT_REG: u8 = 8;

pub const DT_LNK: u8 = 10;

/// The length of the record at a position.
pub open spec fn record_len(buf: Seq<u8>, pos: int) -> int {
    u16_at(buf, pos + 16) as int
}

/// The record at a position stands in the buffer, with room for its fixed part.
pub open spec fn record_fits(buf: Seq<u8>, pos: int) -> bool {
    pos + 19 <= buf.len() && 19 <= record_len(buf, pos) && pos + record_len(buf, pos) <= buf.len()
}

/// All records from a position on stand in the buffer.
pub open spec fn records_fit(buf: Seq<u8>, n: int, pos: int) -> bool
    decreases (if n > pos { n - pos } else { 0 }),
{
    pos >= n || (record_fits(buf, pos) && records_fit(buf, n, pos + record_len(buf, pos)))
}

/// The bytes of a name up to its zero.
pub open spec fn up_to_zero(b: Seq<u8>) -> Seq<u8>
    decreases b.len(),
{
    if b.len() == 0 || b[0] == 0 {
        Seq::empty()
    } else {
        seq![b[0]] + up_to_zero(b.skip(1))
    }
}

/// The name in the record at a position.
pub open spec fn record_name(buf: Seq<u8>, pos: int) -> Seq<u8> {
    up_to_zero(buf.subrange(pos + 19, pos + record_len(buf, pos)))
}

/// The directory itself and the one above it are listed too.
pub open spec fn is_dots(name: Seq<u8>) -> bool {
    name == seq![0x2Eu8] || name == seq![0x2Eu8, 0x2Eu8]
}

/// The entries in the records from a position on: their names and kinds.
pub open spec fn entries_from(buf: Seq<u8>, n: int, pos: int) -> Seq<(Seq<u8>, u8)>
    decreases (if n > pos { n - pos } else { 0 }),
{
    if pos >= n || !record_fits(buf, pos) {
        Seq::empty()
    } else {
        let rest = entries_from(buf, n, pos + record_len(buf, pos));
        let name = record_name(buf, pos);
        if is_dots(name) {
            rest
        } else {
            seq![(name, buf[pos + 18])] + rest
        }
    }
}

/// An entry of a directory.
pub struct Dirent {
    pub name: Vec<u8>,
    pub d_type: u8,
}

pub open spec fn dirent_views(v: Seq<Dirent>) -> Seq<(Seq<u8>, u8)> {
    v.map_values(|d: Dirent| (d.name@, d.d_type))
}

/// Whether the records of a buffer, of which `n` bytes are filled, all stand in it.
pub fn dirents_fit(buf: &[u8], n: usize) -> (r: bool)
    ensures
        r == records_fit(buf@, n as int, 0),
{
    let mut pos: usize = 0;
    while pos < n
        invariant
            records_fit(buf@, n as int, pos as int) == records_fit(buf@, n as int, 0),
        decreases (if n > pos { n - pos } else { 0 }),
    {
        if buf.len() < 19 || pos > buf.len() - 19 {
            return false;
        }
        let len: usize = read_u16(buf, pos + 16) as usize;
        if len < 19 || len > buf.len() - pos {
            return false;
        }
        pos = pos + len;
    }
    true
}

fn read_name(buf: &[u8], from: usize, to: usize) -> (r: Vec<u8>)
    requires
        from <= to <= buf@.len(),
    ensures
        r@ == up_to_zero(buf@.subrange(from as int, to as int)),
{
    let mut end: usize = from;
    let ghost all = buf@.subrange(from as int, to as int);
    assert(all.skip(0) =~= all);
    assert(Seq::<u8>::empty() + up_to_zero(all) =~= up_to_zero(all));
    assert(all.take(0) =~= Seq::<u8>::empty());
    while end < to && buf[end] != 0
        invariant
            from <= end <= to <= buf@.len(),
            all == buf@.subrange(from as int, to as int),
            up_to_zero(all) == all.take(end - from) + up_to_zero(all.skip(end - from)),
        decreases to - end,
    {
        let ghost k = end - from;
        assert(all[k] == buf@[end as int]);
        assert(all.skip(k).skip(1) =~= all.skip(k + 1));
        assert(all.skip(k)[0] == all[k]);
        assert(all.take(k) + (seq![all[k]] + up_to_zero(all.skip(k + 1))) =~= all.take(k + 1)
            + up_to_zero(all.skip(k + 1)));
        end = end + 1;
    }
    let r = copy_range(buf, from, end);
    assert(up_to_zero(all.skip(end - from)) =~= Seq::<u8>::empty()) by {
        if end < to {
            assert(all.skip(end - from)[0] == buf@[end as int]);
        }
    }
    assert(r@ =~= all.take(end - from));
    assert(all.take(end - from) + Seq::<u8>::empty() =~= all.take(end - from));
    r
}

fn dots(name: &Vec<u8>) -> (r: bool)
    ensures
        r == is_dots(name@),
{
    if name.len() == 1 && name[0] == 0x2E {
        assert(name@ =~= seq![0x2Eu8]);
        return true;
    }
    if name.len() == 2 && name[0] == 0x2E && name[1] == 0x2E {
        assert(name@ =~= seq![0x2Eu8, 0x2Eu8]);
        return true;
    }
    false
}

/// The entries that a buffer lists, without the directory itself and the one above it.
pub fn parse_dirents(buf: &[u8], n: usize) -> (r: Vec<Dirent>)
    requires
        records_fit(buf@, n as int, 0),
    ensures
        dirent_views(r@) == entries_from(buf@, n as int, 0),
{
    let mut out: Vec<Dirent> = Vec::new();
    let mut pos: usize = 0;
    assert(dirent_views(out@) + entries_from(buf@, n as int, 0) =~= entries_from(
        buf@,
        n as int,
        0,
    ));
    while pos < n
        invariant
            records_fit(buf@, n as int, pos as int),
            dirent_views(out@) + entries_from(buf@, n as int, pos as int) == entries_from(
                buf@,
                n as int,
                0,
            ),
        decreases (if n > pos { n - pos } else { 0 }),
    {
        let total: usize = buf.len();
        let len: usize = read_u16(buf, pos + 16) as usize;
        let d_type: u8 = buf[pos + 18];
        let name = read_name(buf, pos + 19, pos + len);
        let ghost before = dirent_views(out@);
        let ghost rest = entries_from(buf@, n as int, pos + len);
        let ghost nv = name@;
        if !dots(&name) {
            out.push(Dirent { name, d_type });
            assert(dirent_views(out@) =~= before.push((nv, d_type)));
            assert(before.push((nv, d_type)) + rest =~= before + (seq![(nv, d_type)] + rest));
        }
        pos = pos + len;
    }
    assert(entries_from(buf@, n as int, pos as int) =~= Seq::<(Seq<u8>, u8)>::empty());
    assert(dirent_views(out@) + Seq::<(Seq<u8>, u8)>::empty() =~= dirent_views(out@));
    out
}

/// Neither the directory itself nor the one above it is among the entries.
pub proof fn lemma_no_dots(buf: Seq<u8>, n: int, pos: int)
    ensures
        forall|i: int|
            0 <= i < entries_from(buf, n, pos).len() ==> !is_dots(
                (#[trigger] entries_from(buf, n, pos)[i]).0,
            ),
    decreases (if n > pos { n - pos } else { 0 }),
{
    if pos < n && record_fits(buf, pos) {
        lemma_no_dots(buf, n, pos + record_len(buf, pos));
        let rest = entries_from(buf, n, pos + record_len(buf, pos));
        let all = entries_from(buf, n, pos);
        assert forall|i: int| 0 <= i < all.len() implies !is_dots((#[trigger] all[i]).0) by {
            if !is_dots(record_name(buf, pos)) && i > 0 {
                assert(all[i] == rest[i - 1]);
            }
        }
    }
}

/// What looking an entry up tells.
#[derive(Clone, Copy, Debug, PartialEq, Eq)]
pub enum EntryKind {
    Dir,
    Link,
    Other,
}

/// What becomes of an entry.
#[derive(Clone, Copy, Debug, PartialEq, Eq)]
pub enum EntryStep {
    /// It cannot be looked up.
    Skip,
    /// What it holds is copied in turn.
    Descend,
    /// A link to what it leads to is made anew.
    Relink,
    /// It is linked or copied.
    Deploy,
    /// What stands at the target stays.
    Keep,
}

/// What becomes of an entry. `stat` is what looking it up tells, which counts where the directory does not
/// tell; `is_link` tells of what stands at the target whether it is a link, and `there` whether the target
/// leads to something.
pub open spec fn entry_step(
    d_type: u8,
    stat: Option<EntryKind>,
    is_link: Option<bool>,
    there: bool,
) -> EntryStep {
    if d_type == DT_UNKNOWN && stat is None {
        EntryStep::Skip
    } else if d_type == DT_DIR || (d_type == DT_UNKNOWN && stat == Some(EntryKind::Dir)) {
        EntryStep::Descend
    } else if d_type == DT_LNK || (d_type == DT_UNKNOWN && stat == Some(EntryKind::Link)) {
        if is_link == Some(true) && there {
            EntryStep::Keep
        } else {
            EntryStep::Relink
        }
    } else if there {
        EntryStep::Keep
    } else {
        EntryStep::Deploy
    }
}

pub fn decide_entry(
    d_type: u8,
    stat: Option<EntryKind>,
    is_link: Option<bool>,
    there: bool,
) -> (r: EntryStep)
    ensures
        r == entry_step(d_type, stat, is_link, there),
{
    let kind: u8 = if d_type == DT_UNKNOWN {
        match stat {
            None => {
                return EntryStep::Skip;
            },
            Some(EntryKind::Dir) => DT_DIR,
            Some(EntryKind::Link) => DT_LNK,
            Some(EntryKind::Other) => DT_REG,
        }
    } else {
        d_type
    };
    if kind == DT_DIR {
        EntryStep::Descend
    } else if kind == DT_LNK {
        let sound: bool = match is_link {
            Some(l) => l && there,
            None => false,
        };
        if sound {
            EntryStep::Keep
        } else {
            EntryStep::Relink
        }
    } else if there {
        EntryStep::Keep
    } else {
        EntryStep::Deploy
    }
}

/// How many files a step deployed: a link or a file where it was made, and for a directory as many as
/// were deployed below it.
pub open spec fn counted(step: EntryStep, done: bool, below: u32) -> u32 {
    match step {
        EntryStep::Descend => below,
        EntryStep::Relink | EntryStep::Deploy => if done {
            1
        } else {
            0
        },
        EntryStep::Skip | EntryStep::Keep => 0,
    }
}

/// How many files a step deployed. `done` tells whether it succeeded, `below` how many were deployed below
/// a directory.
pub fn deployed_by(step: EntryStep, done: bool, below: u32) -> (n: u32)
    ensures
        n == counted(step, done, below),
{
    match step {
        EntryStep::Descend => below,
        EntryStep::Relink | EntryStep::Deploy => if done {
            1
        } else {
            0
        },
        EntryStep::Skip | EntryStep::Keep => 0,
    }
}

/// An entry of the tree that is copied.
pub struct SourceEntry {
    /// Its path below the tree's root.
    pub path: Seq<u8>,
    pub d_type: u8,
    pub stat: Option<EntryKind>,
    /// What stands in it, or in what it leads to.
    pub holds: Seq<u8>,
    /// Of a link: what it really leads to, and that there is something.
    pub target: Seq<u8>,
    pub live: bool,
}

/// What is found at a path below the root of the copy.
pub struct Place {
    /// Whether it is a link, where anything stands there.
    pub is_link: Option<bool>,
    /// Something is there, or where the link leads.
    pub there: bool,
    pub holds: Seq<u8>,
    pub target: Seq<u8>,
}

/// What is found at a path.
pub open spec fn found_at(dst: Map<Seq<u8>, Place>, path: Seq<u8>) -> Place {
    if dst.contains_key(path) {
        dst[path]
    } else {
        Place { is_link: None, there: false, holds: Seq::empty(), target: Seq::empty() }
    }
}

/// What becomes of an entry of the tree.
pub open spec fn step_for(dst: Map<Seq<u8>, Place>, e: SourceEntry) -> EntryStep {
    let p = found_at(dst, e.path);
    entry_step(e.d_type, e.stat, p.is_link, p.there)
}

/// The copy after a step that succeeded.
pub open spec fn after_step(dst: Map<Seq<u8>, Place>, e: SourceEntry) -> Map<Seq<u8>, Place> {
    let p = found_at(dst, e.path);
    match step_for(dst, e) {
        EntryStep::Descend => if p.there {
            dst
        } else {
            dst.insert(e.path, Place { is_link: Some(false), there: true, ..p })
        },
        EntryStep::Relink => dst.insert(
            e.path,
            Place { is_link: Some(true), there: e.live, holds: e.holds, target: e.target },
        ),
        EntryStep::Deploy => dst.insert(
            e.path,
            Place { is_link: Some(p.is_link == Some(true)), there: true, holds: e.holds, ..p },
        ),
        EntryStep::Skip | EntryStep::Keep => dst,
    }
}

/// The copy after the steps for all entries, each of which succeeded.
pub open spec fn after_copy(dst: Map<Seq<u8>, Place>, src: Seq<SourceEntry>) -> Map<Seq<u8>, Place>
    decreases src.len(),
{
    if src.len() == 0 {
        dst
    } else {
        after_step(after_copy(dst, src.drop_last()), src.last())
    }
}

/// How many files the steps for all entries deploy, each of which succeeds.
pub open spec fn copy_count(dst: Map<Seq<u8>, Place>, src: Seq<SourceEntry>) -> nat
    decreases src.len(),
{
    if src.len() == 0 {
        0
    } else {
        let e = src.last();
        let before = after_copy(dst, src.drop_last());
        copy_count(dst, src.drop_last()) + counted(step_for(before, e), true, 0) as nat
    }
}

/// A tree that can be read whole: no path comes twice, every entry can be looked up, and every link leads
/// to something.
pub open spec fn is_sound(src: Seq<SourceEntry>) -> bool {
    &&& forall|i: int, j: int|
        0 <= i < j < src.len() ==> (#[trigger] src[i]).path != (#[trigger] src[j]).path
    &&& forall|i: int|
        0 <= i < src.len() ==> (#[trigger] src[i]).live && (src[i].d_type == DT_UNKNOWN
            ==> src[i].stat is Some)
}

/// Each path is changed by the step for its own entry alone.
proof fn lemma_copy_at(dst: Map<Seq<u8>, Place>, src: Seq<SourceEntry>, i: int)
    requires
        is_sound(src),
        0 <= i < src.len(),
    ensures
        found_at(after_copy(dst, src), src[i].path) == found_at(after_step(dst, src[i]), src[i].path),
    decreases src.len(),
{
    let d = src.drop_last();
    assert forall|a: int, b: int| 0 <= a < b < d.len() implies (#[trigger] d[a]).path != (
    #[trigger] d[b]).path by {
        assert(src[a].path != src[b].path);
    }
    assert forall|a: int| 0 <= a < d.len() implies (#[trigger] d[a]).live && (d[a].d_type
        == DT_UNKNOWN ==> d[a].stat is Some) by {
        assert(src[a].live);
    }
    let last = src.last();
    if i < d.len() {
        lemma_copy_at(dst, d, i);
        assert(src[i].path != src[src.len() - 1].path);
        assert(d[i] == src[i]);
    } else {
        lemma_copy_elsewhere(dst, d, last.path);
    }
}

/// What stands at a path that is none of the tree's stays as it is.
pub proof fn lemma_copy_elsewhere(dst: Map<Seq<u8>, Place>, src: Seq<SourceEntry>, path: Seq<u8>)
    requires
        forall|i: int| 0 <= i < src.len() ==> (#[trigger] src[i]).path != path,
    ensures
        found_at(after_copy(dst, src), path) == found_at(dst, path),
    decreases src.len(),
{
    if src.len() > 0 {
        assert(src[src.len() - 1].path != path);
        assert forall|i: int| 0 <= i < src.drop_last().len() implies (
        #[trigger] src.drop_last()[i]).path != path by {
            assert(src[i].path != path);
        }
        lemma_copy_elsewhere(dst, src.drop_last(), path);
    }
}

/// A copy has every regular file of the tree: one that was missing has the tree's content, and one that was
/// there is as it was. A link of the copy that works is kept; all else became a link to what the tree's
/// link really leads to.
pub proof fn lemma_copy_is_complete(dst: Map<Seq<u8>, Place>, src: Seq<SourceEntry>, i: int)
    requires
        is_sound(src),
        0 <= i < src.len(),
    ensures
        ({
            let was = found_at(dst, src[i].path);
            let is = found_at(after_copy(dst, src), src[i].path);
            &&& is.there
            &&& match step_for(dst, src[i]) {
                EntryStep::Deploy => !was.there && is.holds == src[i].holds,
                EntryStep::Keep => is == was,
                EntryStep::Relink => is.is_link == Some(true) && is.target == src[i].target,
                EntryStep::Descend => was.there ==> is == was,
                EntryStep::Skip => false,
            }
        }),
{
    lemma_copy_at(dst, src, i);
    assert(src[i].live);
}

/// A second copy of the same tree finds nothing to do: it only looks into directories, counts no file, and
/// changes nothing.
pub proof fn lemma_second_copy_is_idle(dst: Map<Seq<u8>, Place>, src: Seq<SourceEntry>)
    requires
        is_sound(src),
    ensures
        forall|i: int|
            0 <= i < src.len() ==> {
                let step = step_for(after_copy(dst, src), #[trigger] src[i]);
                step == EntryStep::Keep || step == EntryStep::Descend
            },
        after_copy(after_copy(dst, src), src) == after_copy(dst, src),
        copy_count(after_copy(dst, src), src) == 0,
{
    let once = after_copy(dst, src);
    assert forall|i: int| 0 <= i < src.len() implies {
        let step = step_for(once, #[trigger] src[i]);
        (step == EntryStep::Keep || step == EntryStep::Descend) && found_at(once, src[i].path).there
    } by {
        lemma_copy_is_complete(dst, src, i);
        lemma_copy_at(dst, src, i);
    }
    lemma_idle(once, src);
}

proof fn lemma_idle(dst: Map<Seq<u8>, Place>, src: Seq<SourceEntry>)
    requires
        forall|i: int|
            0 <= i < src.len() ==> {
                let step = step_for(dst, #[trigger] src[i]);
                (step == EntryStep::Keep || step == EntryStep::Descend) && found_at(
                    dst,
                    src[i].path,
                ).there
            },
    ensures
        after_copy(dst, src) == dst,
        copy_count(dst, src) == 0,
    decreases src.len(),
{
    if src.len() > 0 {
        let d = src.drop_last();
        assert forall|i: int| 0 <= i < d.len() implies {
            let step = step_for(dst, #[trigger] d[i]);
            (step == EntryStep::Keep || step == EntryStep::Descend) && found_at(dst, d[i].path).there
        } by {
            assert(d[i] == src[i]);
        }
        lemma_idle(dst, d);
        let e = src[src.len() - 1];
        assert(step_for(dst, e) == EntryStep::Keep || step_for(dst, e) == EntryStep::Descend);
    }
}

/// A file that stands at the target is never replaced by a copy.
pub proof fn lemma_copy_keeps_files(d_type: u8, stat: Option<EntryKind>, is_link: Option<bool>)
    ensures
        entry_step(d_type, stat, is_link, true) != EntryStep::Deploy,
{
}

/// The numbers by which the kernel tells the kinds of entries.
pub proof fn lemma_kinds_of_entries()
    ensures
        DT_UNKNOWN == 0 && DT_DIR == 4 && DT_REG == 8 && DT_LNK == 10,
{
}

proof fn lemma_up_to_zero(name: Seq<u8>, rest: Seq<u8>)
    requires
        forall|i: int| 0 <= i < name.len() ==> #[trigger] name[i] != 0,
    ensures
        up_to_zero(name + seq![0u8] + rest) == name,
    decreases name.len(),
{
    let s = name + seq![0u8] + rest;
    if name.len() == 0 {
        assert(s[0] == 0);
        assert(name =~= Seq::<u8>::empty());
    } else {
        let d = name.skip(1);
        assert(s[0] == name[0]);
        assert(s.skip(1) =~= d + seq![0u8] + rest);
        assert forall|i: int| 0 <= i < d.len() implies #[trigger] d[i] != 0 by {
            assert(d[i] == name[i + 1]);
        }
        lemma_up_to_zero(d, rest);
        assert(seq![name[0]] + d =~= name);
    }
}

/// A record is read back as the kernel writes it: sixteen bytes that do not matter, its length, its kind, and
/// its name up to a zero. What follows is read from the end of the record on.
pub proof fn lemma_record_reads_back(front: Seq<u8>, kind: u8, name: Seq<u8>, fill: Seq<u8>, after: Seq<u8>)
    requires
        front.len() == 16,
        forall|i: int| 0 <= i < name.len() ==> #[trigger] name[i] != 0,
        20 + name.len() + fill.len() <= 0xFFFF,
    ensures
        ({
            let len = (20 + name.len() + fill.len()) as u16;
            let buf = front + u16_bytes(len) + seq![kind] + name + seq![0u8] + fill + after;
            &&& record_fits(buf, 0)
            &&& record_len(buf, 0) == len
            &&& record_name(buf, 0) == name
            &&& !is_dots(name) ==> entries_from(buf, buf.len() as int, 0) == seq![(name, kind)] + entries_from(
                buf,
                buf.len() as int,
                len as int,
            )
            &&& is_dots(name) ==> entries_from(buf, buf.len() as int, 0) == entries_from(
                buf,
                buf.len() as int,
                len as int,
            )
        }),
{
    let len = (20 + name.len() + fill.len()) as u16;
    let buf = front + u16_bytes(len) + seq![kind] + name + seq![0u8] + fill + after;
    assert(buf.subrange(16, 18) =~= u16_bytes(len));
    lemma_read_back_u16(buf, 16, len);
    assert(buf[18] == kind);
    assert(buf.subrange(19, len as int) =~= name + seq![0u8] + fill);
    lemma_up_to_zero(name, fill);
}

/// The directory itself and the one above it are told by their names, and by nothing else.
pub proof fn lemma_dots(name: Seq<u8>)
    ensures
        is_dots(seq![0x2Eu8]) && is_dots(seq![0x2Eu8, 0x2Eu8]),
        name.len() == 0 || name.len() > 2 || name[0] != 0x2E ==> !is_dots(name),
        name.len() == 2 && name[1] != 0x2E ==> !is_dots(name),
{
}

/// What becomes of an entry, by its kind and by what stands at the target: directories are gone into, files
/// are put where nothing is, links are made anew unless a working link is there.
pub proof fn lemma_what_becomes_of_entries(stat: Option<EntryKind>, is_link: Option<bool>, there: bool)
    ensures
        entry_step(4, stat, is_link, there) == EntryStep::Descend,
        entry_step(8, stat, is_link, false) == EntryStep::Deploy,
        entry_step(8, stat, is_link, true) == EntryStep::Keep,
        entry_step(10, stat, Some(true), true) == EntryStep::Keep,
        entry_step(10, stat, Some(false), there) == EntryStep::Relink,
        entry_step(10, stat, None, there) == EntryStep::Relink,
        entry_step(10, stat, is_link, false) == EntryStep::Relink,
        entry_step(0, None, is_link, there) == EntryStep::Skip,
        entry_step(0, Some(EntryKind::Dir), is_link, there) == entry_step(4, stat, is_link, there),
        entry_step(0, Some(EntryKind::Link), is_link, there) == entry_step(10, stat, is_link, there),
        entry_step(0, Some(EntryKind::Other), is_link, there) == entry_step(8, stat, is_link, there),
{
}

/// Links and files count where they were made, directories by what is below them, and nothing else does.
pub proof fn lemma_what_counts(done: bool, below: u32)
    ensures
        counted(EntryStep::Deploy, true, below) == 1 && counted(EntryStep::Relink, true, below) == 1,
        counted(EntryStep::Deploy, false, below) == 0 && counted(EntryStep::Relink, false, below) == 0,
        counted(EntryStep::Descend, done, below) == below,
        counted(EntryStep::Keep, done, below) == 0 && counted(EntryStep::Skip, done, below) == 0,
{
}

} // verus!
