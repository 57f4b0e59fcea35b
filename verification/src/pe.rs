//! Headers of executable images, and what a client is told of them.
use crate::bytes::{
    lemma_part_reads, lemma_read_back_u16, lemma_read_back_u32, lemma_read_back_u64, push_all, push_u16, push_u32, push_u64, read_u16, read_u32, read_u64, u16_at, u16_bytes, u32_at,
    u32_bytes, u64_at, u64_bytes,
};
use vstd::prelude::*;

verus! {

/// How much of an image's start is looked at.
pub const HEAD_SIZE: usize = 4096;

/// A section that all processes share.
pub const IMAGE_SCN_MEM_SHARED: u32 = 0x1000_0000;

/// A section that can be written.
pub const IMAGE_SCN_MEM_WRITE: u32 = 0x8000_0000;

/// What a client is told of an image.
#[derive(Clone, Copy, Debug, PartialEq, Eq)]
pub struct PeImageInfo {
    pub base: u64,
    pub map_addr: u64,
    pub stack_size: u64,
    pub stack_commit: u64,
    pub entry_point: u32,
    pub map_size: u32,
    pub alignment: u32,
    pub zerobits: u32,
    pub subsystem: u32,
    pub subsystem_minor: u16,
    pub subsystem_major: u16,
    pub osversion_major: u16,
    pub osversion_minor: u16,
    pub image_charact: u16,
    pub dll_charact: u16,
    pub machine: u16,
    pub image_flags_byte: u8,
    pub image_flags: u8,
    pub loader_flags: u32,
    pub header_size: u32,
    pub header_map_size: u32,
    pub file_size: u32,
    pub checksum: u32,
    pub dbg_offset: u32,
    pub dbg_size: u32,
}

/// The sizes and addresses in an image's description.
pub open spec fn size_bytes(i: PeImageInfo) -> Seq<u8> {
    u64_bytes(i.base) + u64_bytes(i.map_addr) + u64_bytes(i.stack_size) + u64_bytes(i.stack_commit)
        + u32_bytes(i.entry_point) + u32_bytes(i.map_size) + u32_bytes(i.alignment) + u32_bytes(i.zerobits)
        + u32_bytes(i.subsystem)
}

/// The versions and kinds in an image's description.
pub open spec fn kind_bytes(i: PeImageInfo) -> Seq<u8> {
    u16_bytes(i.subsystem_minor) + u16_bytes(i.subsystem_major) + u16_bytes(i.osversion_major) + u16_bytes(
        i.osversion_minor,
    ) + u16_bytes(i.image_charact) + u16_bytes(i.dll_charact) + u16_bytes(i.machine)
}

/// What is known of the file in an image's description.
pub open spec fn file_bytes(i: PeImageInfo) -> Seq<u8> {
    u32_bytes(i.loader_flags) + u32_bytes(i.header_size) + u32_bytes(i.header_map_size) + u32_bytes(
        i.file_size,
    ) + u32_bytes(i.checksum) + u32_bytes(i.dbg_offset) + u32_bytes(i.dbg_size)
}

/// The 96 bytes of an image's description.
pub open spec fn info_bytes(i: PeImageInfo) -> Seq<u8> {
    size_bytes(i) + kind_bytes(i) + seq![i.image_flags_byte, i.image_flags] + file_bytes(i)
}

/// Where the header begins, behind the old one.
pub open spec fn pe_at(b: Seq<u8>) -> int {
    u32_at(b, 0x3C) as int
}

/// Where the second part of the header begins.
pub open spec fn opt_at(b: Seq<u8>) -> int {
    pe_at(b) + 24
}

pub open spec fn opt_size(b: Seq<u8>) -> int {
    u16_at(b, pe_at(b) + 20) as int
}

pub open spec fn section_count(b: Seq<u8>) -> int {
    u16_at(b, pe_at(b) + 6) as int
}

/// The n bytes that were read begin with the header of an image: both marks stand in their places.
pub open spec fn marked(b: Seq<u8>, n: int) -> bool {
    &&& n >= 64
    &&& b[0] == 0x4D
    &&& b[1] == 0x5A
    &&& pe_at(b) + 24 <= n
    &&& b[pe_at(b)] == 0x50
    &&& b[pe_at(b) + 1] == 0x45
    &&& b[pe_at(b) + 2] == 0
    &&& b[pe_at(b) + 3] == 0
}

/// The n bytes that were read hold the header of an image.
pub open spec fn is_image(b: Seq<u8>, n: int) -> bool {
    marked(b, n) && opt_at(b) + opt_size(b) <= n
}

/// The image has 64-bit addresses.
pub open spec fn is_wide(b: Seq<u8>) -> bool {
    u16_at(b, opt_at(b)) == 0x20B
}

/// The fixed part of the header lies within what is looked at.
pub open spec fn header_fits(b: Seq<u8>) -> bool {
    opt_at(b) + (if is_wide(b) {
        112int
    } else {
        96int
    }) <= HEAD_SIZE
}

/// A number of the header's second part.
pub open spec fn opt_u32(b: Seq<u8>, off: int) -> u32 {
    u32_at(b, opt_at(b) + off)
}

pub open spec fn opt_u16(b: Seq<u8>, off: int) -> u16 {
    u16_at(b, opt_at(b) + off)
}

pub open spec fn opt_u64(b: Seq<u8>, off: int) -> u64 {
    u64_at(b, opt_at(b) + off)
}

/// Where the directory entry of the managed header stands.
pub open spec fn clr_entry(b: Seq<u8>) -> int {
    opt_at(b) + (if is_wide(b) {
        112int
    } else {
        96int
    }) + 112
}

/// The image has a managed header.
pub open spec fn has_clr(b: Seq<u8>, n: int) -> bool {
    &&& opt_u32(
        b,
        if is_wide(b) {
            108
        } else {
            92
        },
    ) > 14
    &&& clr_entry(b) + 8 <= n
    &&& u32_at(b, clr_entry(b)) != 0
    &&& u32_at(b, clr_entry(b) + 4) != 0
}

/// Where a section's header stands.
pub open spec fn section_at(b: Seq<u8>, i: int) -> int {
    opt_at(b) + opt_size(b) + 40 * i
}

/// The file offset of an address, by the first section that holds it among those whose headers were
/// read; 0 where none does.
pub open spec fn file_offset(b: Seq<u8>, n: int, va: u32, i: int) -> u32
    decreases section_count(b) - i,
{
    let sh = section_at(b, i);
    if i < 0 || i >= section_count(b) || sh + 40 > n {
        0
    } else {
        let sec_va = u32_at(b, sh + 12);
        let raw_size = u32_at(b, sh + 16);
        let raw_at = u32_at(b, sh + 20);
        if va >= sec_va && va - sec_va < raw_size {
            ((raw_at + (va - sec_va)) % 0x1_0000_0000) as u32
        } else {
            file_offset(b, n, va, i + 1)
        }
    }
}

/// Where the managed header is read from the file; nothing where it is not known.
pub open spec fn clr_offset(b: Seq<u8>, n: int) -> Option<u32> {
    if has_clr(b, n) && file_offset(b, n, u32_at(b, clr_entry(b)), 0) > 0 {
        Some(file_offset(b, n, u32_at(b, clr_entry(b)), 0))
    } else {
        None
    }
}

/// The flags of the managed header, as far as it was read.
pub open spec fn clr_flags(b: Seq<u8>, n: int, clr: Seq<u8>) -> u32 {
    if clr_offset(b, n) is Some && clr.len() >= 20 {
        u32_at(clr, 16)
    } else {
        0
    }
}

/// The image only holds managed code; it can be run as it is; and it prefers 32 bits.
pub open spec fn clr_image_flags(has: bool, flags: u32) -> u8 {
    let il_only = has && flags & 1 != 0;
    let ready = il_only && flags & 2 == 0;
    let prefer32 = has && flags & 0x20000 != 0;
    ((if ready {
        1int
    } else {
        0int
    }) + (if il_only {
        2int
    } else {
        0int
    }) + (if prefer32 {
        0x20int
    } else {
        0int
    })) as u8
}

/// "Wine builtin DLL", which stands behind the first header of a module that Wine was built with.
pub open spec fn builtin_mark() -> Seq<u8> {
    seq![
        0x57u8, 0x69, 0x6E, 0x65, 0x20, 0x62, 0x75, 0x69, 0x6C, 0x74, 0x69, 0x6E, 0x20, 0x44, 0x4C, 0x4C,
    ]
}

/// "Wine placehold", by which the "Wine placeholder DLL" behind the first header of a placeholder is
/// known.
pub open spec fn placeholder_mark() -> Seq<u8> {
    seq![0x57u8, 0x69, 0x6E, 0x65, 0x20, 0x70, 0x6C, 0x61, 0x63, 0x65, 0x68, 0x6F, 0x6C, 0x64]
}

/// The module was built with Wine. A placeholder is not one of these.
pub open spec fn is_builtin(b: Seq<u8>, n: int) -> bool {
    n > 0x50 && b.subrange(0x40, 0x50) == builtin_mark()
}

/// The file only stands in the place of a module.
pub open spec fn is_fakedll(b: Seq<u8>, n: int) -> bool {
    n > 0x54 && b.subrange(0x40, 0x4E) == placeholder_mark()
}

/// What a file is, in bits: that it has code, that it was built with Wine, that it is a placeholder.
pub open spec fn kind_bits(b: Seq<u8>, n: int) -> u8 {
    (1 + (if is_builtin(b, n) {
        2int
    } else {
        0int
    }) + (if is_fakedll(b, n) {
        4int
    } else {
        0int
    })) as u8
}

/// A size rounded up to an alignment.
pub open spec fn rounded(size: u32, align: u32) -> u32 {
    if align > 0 {
        ((size + align - 1) % 0x1_0000_0000) as u32 & !((align - 1) as u32)
    } else {
        size
    }
}

/// What a client is told of the image whose start was read.
pub open spec fn image_info(b: Seq<u8>, n: int, clr: Seq<u8>, file_size: u32) -> PeImageInfo {
    PeImageInfo {
        base: if is_wide(b) {
            opt_u64(b, 24)
        } else {
            opt_u32(b, 28) as u64
        },
        map_addr: 0,
        stack_size: if is_wide(b) {
            opt_u64(b, 72)
        } else {
            opt_u32(b, 72) as u64
        },
        stack_commit: if is_wide(b) {
            opt_u64(b, 80)
        } else {
            opt_u32(b, 76) as u64
        },
        entry_point: opt_u32(b, 16),
        map_size: opt_u32(b, 56),
        alignment: opt_u32(b, 32),
        zerobits: 0,
        subsystem: opt_u16(b, 68) as u32,
        subsystem_minor: opt_u16(b, 50),
        subsystem_major: opt_u16(b, 48),
        osversion_major: opt_u16(b, 44),
        osversion_minor: opt_u16(b, 46),
        image_charact: u16_at(b, pe_at(b) + 22),
        dll_charact: opt_u16(b, 70),
        machine: u16_at(b, pe_at(b) + 4),
        image_flags_byte: kind_bits(b, n),
        image_flags: clr_image_flags(has_clr(b, n), clr_flags(b, n, clr)),
        loader_flags: if has_clr(b, n) {
            1
        } else {
            0
        },
        header_size: opt_u32(b, 60),
        header_map_size: rounded(opt_u32(b, 60), opt_u32(b, 32)),
        file_size,
        checksum: opt_u32(b, 64),
        dbg_offset: 0,
        dbg_size: 0,
    }
}

fn stands_at(b: &[u8], at: usize, mark: &[u8]) -> (r: bool)
    requires
        b@.len() == HEAD_SIZE,
        at + mark@.len() <= b@.len(),
    ensures
        r == (b@.subrange(at as int, at + mark@.len()) == mark@),
{
    let ghost part = b@.subrange(at as int, at + mark@.len());
    let mut i: usize = 0;
    while i < mark.len()
        invariant
            i <= mark@.len(),
            b@.len() == HEAD_SIZE,
            at + mark@.len() <= b@.len(),
            part == b@.subrange(at as int, at + mark@.len()),
            forall|j: int| 0 <= j < i ==> part[j] == mark@[j],
        decreases mark@.len() - i,
    {
        if b[at + i] != mark[i] {
            assert(part[i as int] != mark@[i as int]);
            return false;
        }
        i = i + 1;
    }
    assert(part =~= mark@);
    true
}

fn module_kind(b: &[u8], n: usize) -> (r: u8)
    requires
        b@.len() == HEAD_SIZE,
        n <= HEAD_SIZE,
    ensures
        r == kind_bits(b@, n as int),
{
    let builtin: [u8; 16] = [
        0x57, 0x69, 0x6E, 0x65, 0x20, 0x62, 0x75, 0x69, 0x6C, 0x74, 0x69, 0x6E, 0x20, 0x44, 0x4C, 0x4C,
    ];
    let placeholder: [u8; 14] = [
        0x57, 0x69, 0x6E, 0x65, 0x20, 0x70, 0x6C, 0x61, 0x63, 0x65, 0x68, 0x6F, 0x6C, 0x64,
    ];
    assert(builtin@ =~= builtin_mark());
    assert(placeholder@ =~= placeholder_mark());
    let mut r: u8 = 1;
    if n > 0x50 && stands_at(b, 0x40, &builtin) {
        r = r + 2;
    }
    if n > 0x54 && stands_at(b, 0x40, &placeholder) {
        r = r + 4;
    }
    r
}

/// No file is at once a module that was built with Wine and a placeholder.
pub proof fn lemma_placeholder_is_not_builtin(b: Seq<u8>, n: int)
    requires
        b.len() == HEAD_SIZE,
    ensures
        !(is_builtin(b, n) && is_fakedll(b, n)),
        is_fakedll(b, n) ==> kind_bits(b, n) == 5,
{
    if is_builtin(b, n) && is_fakedll(b, n) {
        assert(b.subrange(0x40, 0x50)[5] == b[0x45]);
        assert(b.subrange(0x40, 0x4E)[5] == b[0x45]);
    }
}

fn is_marked(b: &[u8], n: usize) -> (r: bool)
    requires
        b@.len() == HEAD_SIZE,
        n <= HEAD_SIZE,
    ensures
        r == marked(b@, n as int),
{
    if n < 64 || b[0] != 0x4D || b[1] != 0x5A {
        return false;
    }
    let at: u32 = read_u32(b, 0x3C);
    if at as u64 + 24 > n as u64 {
        return false;
    }
    let p: usize = at as usize;
    b[p] == 0x50 && b[p + 1] == 0x45 && b[p + 2] == 0 && b[p + 3] == 0
}

/// Whether the start of a file is that of an image.
pub fn pe_is_image(b: &[u8], n: usize) -> (r: bool)
    requires
        b@.len() == HEAD_SIZE,
        n <= HEAD_SIZE,
    ensures
        r == is_image(b@, n as int),
{
    if !is_marked(b, n) {
        return false;
    }
    let p: usize = read_u32(b, 0x3C) as usize;
    let size: usize = read_u16(b, p + 20) as usize;
    p + 24 + size <= n
}

/// Whether the fixed part of an image's header lies within what is looked at.
pub fn pe_header_fits(b: &[u8], n: usize) -> (r: bool)
    requires
        b@.len() == HEAD_SIZE,
        n <= HEAD_SIZE,
        marked(b@, n as int),
    ensures
        r == header_fits(b@),
{
    let p: usize = read_u32(b, 0x3C) as usize;
    let opt: usize = p + 24;
    if opt + 96 > HEAD_SIZE {
        return false;
    }
    let wide: bool = read_u16(b, opt) == 0x20B;
    if wide {
        opt + 112 <= HEAD_SIZE
    } else {
        true
    }
}

fn find_offset(b: &[u8], n: usize, va: u32) -> (r: u32)
    requires
        b@.len() == HEAD_SIZE,
        n <= HEAD_SIZE,
        is_image(b@, n as int),
    ensures
        r == file_offset(b@, n as int, va, 0),
{
    let p: usize = read_u32(b, 0x3C) as usize;
    let count: usize = read_u16(b, p + 6) as usize;
    let start: usize = p + 24 + read_u16(b, p + 20) as usize;
    let mut i: usize = 0;
    while i < count
        invariant
            b@.len() == HEAD_SIZE,
            n <= HEAD_SIZE,
            is_image(b@, n as int),
            i <= count <= 65535,
            count == section_count(b@),
            start == section_at(b@, 0),
            start <= n,
            file_offset(b@, n as int, va, 0) == file_offset(b@, n as int, va, i as int),
        decreases count - i,
    {
        let sh: usize = start + i * 40;
        assert(sh == section_at(b@, i as int));
        if sh + 40 > n {
            return 0;
        }
        let sec_va: u32 = read_u32(b, sh + 12);
        let raw_size: u32 = read_u32(b, sh + 16);
        let raw_at: u32 = read_u32(b, sh + 20);
        if va >= sec_va && va - sec_va < raw_size {
            let off: u64 = (raw_at as u64 + (va - sec_va) as u64) % 0x1_0000_0000;
            return off as u32;
        }
        i = i + 1;
    }
    0
}

fn clr_present(b: &[u8], n: usize) -> (r: bool)
    requires
        b@.len() == HEAD_SIZE,
        n <= HEAD_SIZE,
        is_image(b@, n as int),
        header_fits(b@),
    ensures
        r == has_clr(b@, n as int),
{
    let opt: usize = read_u32(b, 0x3C) as usize + 24;
    let wide: bool = read_u16(b, opt) == 0x20B;
    let fixed: usize = if wide {
        112
    } else {
        96
    };
    let dirs: u32 = read_u32(b, opt + fixed - 4);
    let entry: usize = opt + fixed + 112;
    dirs > 14 && entry + 8 <= n && read_u32(b, entry) != 0 && read_u32(b, entry + 4) != 0
}

/// Whether the part of a header that its sections are measured by lies within what is looked at.
pub fn pe_sections_fit(b: &[u8], n: usize) -> (r: bool)
    requires
        b@.len() == HEAD_SIZE,
        n <= HEAD_SIZE,
    ensures
        r == (marked(b@, n as int) ==> opt_at(b@) + 36 <= HEAD_SIZE),
{
    if !is_marked(b, n) {
        return true;
    }
    let p: usize = read_u32(b, 0x3C) as usize;
    p + 24 + 36 <= HEAD_SIZE
}

/// Where the managed header is to be read from the file, if at all.
pub fn pe_clr_offset(b: &[u8], n: usize) -> (r: Option<u32>)
    requires
        b@.len() == HEAD_SIZE,
        n <= HEAD_SIZE,
        is_image(b@, n as int),
        header_fits(b@),
    ensures
        r == clr_offset(b@, n as int),
{
    if !clr_present(b, n) {
        return None;
    }
    let opt: usize = read_u32(b, 0x3C) as usize + 24;
    let wide: bool = read_u16(b, opt) == 0x20B;
    let entry: usize = opt + 112 + (if wide {
        112
    } else {
        96
    });
    let off: u32 = find_offset(b, n, read_u32(b, entry));
    if off > 0 {
        Some(off)
    } else {
        None
    }
}

fn round_up(size: u32, align: u32) -> (r: u32)
    ensures
        r == rounded(size, align),
{
    if align > 0 {
        let sum: u32 = ((size as u64 + align as u64 - 1) % 0x1_0000_0000) as u32;
        sum & !(align - 1)
    } else {
        size
    }
}

fn managed_flags(has: bool, flags: u32) -> (r: u8)
    ensures
        r == clr_image_flags(has, flags),
{
    let il_only: bool = has && flags & 1 != 0;
    let ready: bool = il_only && flags & 2 == 0;
    let prefer32: bool = has && flags & 0x20000 != 0;
    let mut r: u8 = 0;
    if ready {
        r = r + 1;
    }
    if il_only {
        r = r + 2;
    }
    if prefer32 {
        r = r + 0x20;
    }
    r
}

/// Reads the header of an image. `b` is the start of the file, of which `n` bytes were read, `clr` what
/// was read of the managed header.
pub fn read_pe_image_info(b: &[u8], n: usize, clr: &[u8], file_size: u32) -> (r: Option<(PeImageInfo, u64)>)
    requires
        b@.len() == HEAD_SIZE,
        n <= HEAD_SIZE,
        is_image(b@, n as int) ==> header_fits(b@),
    ensures
        match r {
            Some((info, size)) => is_image(b@, n as int) && info == image_info(
                b@,
                n as int,
                clr@,
                file_size,
            ) && size == info.map_size,
            None => !is_image(b@, n as int),
        },
{
    if !pe_is_image(b, n) {
        return None;
    }
    let p: usize = read_u32(b, 0x3C) as usize;
    let opt: usize = p + 24;
    let wide: bool = read_u16(b, opt) == 0x20B;
    let has: bool = clr_present(b, n);
    let flags: u32 = if pe_clr_offset(b, n).is_some() && clr.len() >= 20 {
        read_u32(clr, 16)
    } else {
        0
    };
    let header_size: u32 = read_u32(b, opt + 60);
    let alignment: u32 = read_u32(b, opt + 32);
    let info = PeImageInfo {
        base: if wide {
            read_u64(b, opt + 24)
        } else {
            read_u32(b, opt + 28) as u64
        },
        map_addr: 0,
        stack_size: if wide {
            read_u64(b, opt + 72)
        } else {
            read_u32(b, opt + 72) as u64
        },
        stack_commit: if wide {
            read_u64(b, opt + 80)
        } else {
            read_u32(b, opt + 76) as u64
        },
        entry_point: read_u32(b, opt + 16),
        map_size: read_u32(b, opt + 56),
        alignment,
        zerobits: 0,
        subsystem: read_u16(b, opt + 68) as u32,
        subsystem_minor: read_u16(b, opt + 50),
        subsystem_major: read_u16(b, opt + 48),
        osversion_major: read_u16(b, opt + 44),
        osversion_minor: read_u16(b, opt + 46),
        image_charact: read_u16(b, p + 22),
        dll_charact: read_u16(b, opt + 70),
        machine: read_u16(b, p + 4),
        image_flags_byte: module_kind(b, n),
        image_flags: managed_flags(has, flags),
        loader_flags: if has {
            1
        } else {
            0
        },
        header_size,
        header_map_size: round_up(header_size, alignment),
        file_size,
        checksum: read_u32(b, opt + 64),
        dbg_offset: 0,
        dbg_size: 0,
    };
    Some((info, info.map_size as u64))
}

fn push_sizes(r: &mut Vec<u8>, i: &PeImageInfo)
    ensures
        final(r)@ == old(r)@ + size_bytes(*i),
        size_bytes(*i).len() == 52,
{
    let mut v: Vec<u8> = Vec::new();
    push_u64(&mut v, i.base);
    assert(v@ =~= u64_bytes(i.base));
    push_u64(&mut v, i.map_addr);
    push_u64(&mut v, i.stack_size);
    push_u64(&mut v, i.stack_commit);
    push_u32(&mut v, i.entry_point);
    push_u32(&mut v, i.map_size);
    push_u32(&mut v, i.alignment);
    push_u32(&mut v, i.zerobits);
    push_u32(&mut v, i.subsystem);
    push_all(r, v.as_slice());
}

fn push_kinds(r: &mut Vec<u8>, i: &PeImageInfo)
    ensures
        final(r)@ == old(r)@ + kind_bytes(*i),
        kind_bytes(*i).len() == 14,
{
    let mut v: Vec<u8> = Vec::new();
    push_u16(&mut v, i.subsystem_minor);
    assert(v@ =~= u16_bytes(i.subsystem_minor));
    push_u16(&mut v, i.subsystem_major);
    push_u16(&mut v, i.osversion_major);
    push_u16(&mut v, i.osversion_minor);
    push_u16(&mut v, i.image_charact);
    push_u16(&mut v, i.dll_charact);
    push_u16(&mut v, i.machine);
    push_all(r, v.as_slice());
}

fn push_file(r: &mut Vec<u8>, i: &PeImageInfo)
    ensures
        final(r)@ == old(r)@ + file_bytes(*i),
        file_bytes(*i).len() == 28,
{
    let mut v: Vec<u8> = Vec::new();
    push_u32(&mut v, i.loader_flags);
    assert(v@ =~= u32_bytes(i.loader_flags));
    push_u32(&mut v, i.header_size);
    push_u32(&mut v, i.header_map_size);
    push_u32(&mut v, i.file_size);
    push_u32(&mut v, i.checksum);
    push_u32(&mut v, i.dbg_offset);
    push_u32(&mut v, i.dbg_size);
    push_all(r, v.as_slice());
}

/// The bytes of an image's description.
pub fn pe_info_bytes(i: &PeImageInfo) -> (r: Vec<u8>)
    ensures
        r@ == info_bytes(*i),
        r@.len() == 96,
{
    let mut r: Vec<u8> = Vec::new();
    push_sizes(&mut r, i);
    assert(r@ =~= size_bytes(*i));
    push_kinds(&mut r, i);
    let ghost half = r@;
    r.push(i.image_flags_byte);
    r.push(i.image_flags);
    assert(r@ =~= half + seq![i.image_flags_byte, i.image_flags]);
    push_file(&mut r, i);
    r
}

/// A part of the memory that holds the shared sections of an image: from where in it, and from where in
/// the file, how many bytes.
#[derive(Clone, Copy, Debug, PartialEq, Eq)]
pub struct SharedSection {
    pub at: u64,
    pub raw_at: u32,
    pub size: u32,
}

/// The section is shared and can be written.
pub open spec fn is_shared(charact: u32) -> bool {
    charact & IMAGE_SCN_MEM_SHARED != 0 && charact & IMAGE_SCN_MEM_WRITE != 0
}

/// The bytes that a section takes in memory.
pub open spec fn section_space(vsize: u32, align: u32) -> u64 {
    let mask = if align > 0 {
        (align - 1) as u64
    } else {
        0
    };
    ((vsize + mask) as u64) & !mask
}

/// The lesser of a size in the file and a size in memory.
pub open spec fn section_bytes(raw_size: u32, space: u64) -> u32 {
    let low = (space % 0x1_0000_0000) as u32;
    if raw_size < low {
        raw_size
    } else {
        low
    }
}

/// The layout of the shared sections from the i-th section on, behind so many bytes.
pub open spec fn shared_from(b: Seq<u8>, n: int, i: int, at: int) -> (Seq<SharedSection>, int)
    decreases section_count(b) - i,
{
    let sh = section_at(b, i);
    if i < 0 || i >= section_count(b) || sh + 40 > n {
        (Seq::empty(), at)
    } else if is_shared(u32_at(b, sh + 36)) {
        let space = section_space(u32_at(b, sh + 8), opt_u32(b, 32));
        let s = SharedSection {
            at: at as u64,
            raw_at: u32_at(b, sh + 20),
            size: section_bytes(u32_at(b, sh + 16), space),
        };
        let rest = shared_from(b, n, i + 1, at + space);
        (seq![s] + rest.0, rest.1)
    } else {
        shared_from(b, n, i + 1, at)
    }
}

/// Lays out the memory for the sections of an image that its processes share: the parts, and the size
/// of the whole; nothing where there is none.
pub fn shared_sections(b: &[u8], n: usize) -> (r: Option<(Vec<SharedSection>, u64)>)
    requires
        b@.len() == HEAD_SIZE,
        n <= HEAD_SIZE,
        marked(b@, n as int) ==> opt_at(b@) + 36 <= HEAD_SIZE,
    ensures
        ({
            let all = shared_from(b@, n as int, 0, 0);
            match r {
                Some((parts, total)) => marked(b@, n as int) && all.1 > 0 && parts@ == all.0 && total
                    == all.1,
                None => !marked(b@, n as int) || all.1 == 0,
            }
        }),
{
    if !is_marked(b, n) {
        return None;
    }
    let p: usize = read_u32(b, 0x3C) as usize;
    let opt: usize = p + 24;
    let count: usize = read_u16(b, p + 6) as usize;
    let start: usize = opt + read_u16(b, p + 20) as usize;
    let align: u32 = read_u32(b, opt + 32);
    let mask: u64 = if align > 0 {
        (align - 1) as u64
    } else {
        0
    };
    let mut parts: Vec<SharedSection> = Vec::new();
    let mut total: u64 = 0;
    let mut i: usize = 0;
    let ghost all = shared_from(b@, n as int, 0, 0);
    assert(parts@ + all.0 =~= all.0);
    let mut more: bool = true;
    while more && i < count
        invariant
            b@.len() == HEAD_SIZE,
            n <= HEAD_SIZE,
            i <= count <= 65535,
            count == section_count(b@),
            start == section_at(b@, 0),
            start <= HEAD_SIZE + 65535,
            opt == opt_at(b@),
            align == opt_u32(b@, 32),
            mask == (if align > 0 {
                (align - 1) as u64
            } else {
                0
            }),
            all == shared_from(b@, n as int, 0, 0),
            total <= 0x2_0000_0000 * i,
            ({
                let rest = shared_from(b@, n as int, i as int, total as int);
                all.0 == parts@ + rest.0 && all.1 == rest.1
            }),
            !more ==> section_at(b@, i as int) + 40 > n,
        decreases count - i + (if more {
                1int
            } else {
                0int
            }),
    {
        let sh: usize = start + i * 40;
        assert(sh == section_at(b@, i as int));
        if sh + 40 > n {
            more = false;
        } else {
            let vsize: u32 = read_u32(b, sh + 8);
            let raw_size: u32 = read_u32(b, sh + 16);
            let raw_at: u32 = read_u32(b, sh + 20);
            let charact: u32 = read_u32(b, sh + 36);
            if charact & IMAGE_SCN_MEM_SHARED != 0 && charact & IMAGE_SCN_MEM_WRITE != 0 {
                let sum: u64 = vsize as u64 + mask;
                let space: u64 = sum & !mask;
                assert(space <= sum) by (bit_vector)
                    requires
                        space == sum & !mask,
                ;
                let low: u32 = (space % 0x1_0000_0000) as u32;
                let size: u32 = if raw_size < low {
                    raw_size
                } else {
                    low
                };
                let s = SharedSection { at: total, raw_at, size };
                let ghost rest = shared_from(b@, n as int, i + 1, total + space);
                let ghost before = parts@;
                parts.push(s);
                assert(before + (seq![s] + rest.0) =~= parts@ + rest.0);
                total = total + space;
            }
            i = i + 1;
        }
    }
    proof {
        assert(shared_from(b@, n as int, i as int, total as int) == (
            Seq::<SharedSection>::empty(),
            total as int,
        ));
        assert(parts@ + Seq::<SharedSection>::empty() =~= parts@);
    }
    if total == 0 {
        None
    } else {
        Some((parts, total))
    }
}

/// The header of an image reads back what stands in it. Its second part begins 24 bytes behind the place
/// that the number at 0x3C gives. With 64-bit addresses (0x20B) the base of the image is the long number at
/// 24 of that part, and the sizes of the stack are long numbers at 72 and 80; otherwise the base is the
/// number at 28, behind the base of the data at 24, and the sizes are numbers at 72 and 76. All other
/// fields stand at the same places in both.
pub proof fn lemma_header_reads_back(b: Seq<u8>, n: int, clr: Seq<u8>, file_size: u32)
    ensures
        ({
            let i = image_info(b, n, clr, file_size);
            let pe = u32_at(b, 0x3C) as int;
            let o = pe + 24;
            &&& u16_at(b, o) == 0x20B ==> i.base == u64_at(b, o + 24) && i.stack_size == u64_at(b, o + 72)
                && i.stack_commit == u64_at(b, o + 80)
            &&& u16_at(b, o) != 0x20B ==> i.base == u32_at(b, o + 28) && i.stack_size == u32_at(b, o + 72)
                && i.stack_commit == u32_at(b, o + 76)
            &&& i.machine == u16_at(b, pe + 4)
            &&& i.image_charact == u16_at(b, pe + 22)
            &&& i.entry_point == u32_at(b, o + 16)
            &&& i.alignment == u32_at(b, o + 32)
            &&& i.osversion_major == u16_at(b, o + 44)
            &&& i.osversion_minor == u16_at(b, o + 46)
            &&& i.subsystem_major == u16_at(b, o + 48)
            &&& i.subsystem_minor == u16_at(b, o + 50)
            &&& i.map_size == u32_at(b, o + 56)
            &&& i.header_size == u32_at(b, o + 60)
            &&& i.checksum == u32_at(b, o + 64)
            &&& i.subsystem == u16_at(b, o + 68)
            &&& i.dll_charact == u16_at(b, o + 70)
            &&& i.map_addr == 0
            &&& i.zerobits == 0
            &&& i.file_size == file_size
            &&& i.dbg_offset == 0
            &&& i.dbg_size == 0
        }),
{
}

/// A file is an image where its first bytes are `MZ`, and `PE` and two zeros stand at the place that the
/// number at 0x3C gives, with both parts of the header within what was read.
pub proof fn lemma_images_known(b: Seq<u8>, n: int)
    ensures
        ({
            let pe = u32_at(b, 0x3C) as int;
            is_image(b, n) <==> n >= 64 && b[0] == 77 && b[1] == 90 && b[pe] == 80 && b[pe + 1] == 69 && b[pe
                + 2] == 0 && b[pe + 3] == 0 && pe + 24 + u16_at(b, pe + 20) <= n && pe + 24 <= n
        }),
{
}

/// The flags of a managed image: it only holds managed code where the lowest flag is set; it can be run
/// as it is where it also does not ask for 32 bits; and it prefers 32 bits where the flag 0x20000 is set.
pub proof fn lemma_managed_flags(has: bool, flags: u32)
    ensures
        ({
            let r = clr_image_flags(has, flags);
            &&& (r / 2) % 2 == 1 <==> has && flags & 1 != 0
            &&& r % 2 == 1 <==> has && flags & 1 != 0 && flags & 2 == 0
            &&& (r / 32) % 2 == 1 <==> has && flags & 0x20000 != 0
            &&& r == r % 4 + 32 * ((r / 32) % 2)
        }),
{
}

/// The kind of a file: its lowest bit is always set, the next for a module that was built with Wine, which
/// has `Wine builtin DLL` at 0x40, and the one behind it for a placeholder, which has `Wine placehold`
/// there.
pub proof fn lemma_module_kinds(b: Seq<u8>, n: int)
    ensures
        kind_bits(b, n) % 2 == 1,
        (kind_bits(b, n) / 2) % 2 == 1 <==> n > 0x50 && b.subrange(0x40, 0x50) == seq![
            87u8, 105, 110, 101, 32, 98, 117, 105, 108, 116, 105, 110, 32, 68, 76, 76,
        ],
        (kind_bits(b, n) / 4) % 2 == 1 <==> n > 0x54 && b.subrange(0x40, 0x4E) == seq![
            87u8, 105, 110, 101, 32, 112, 108, 97, 99, 101, 104, 111, 108, 100,
        ],
        kind_bits(b, n) < 8,
{
    assert(builtin_mark() =~= seq![
        87u8, 105, 110, 101, 32, 98, 117, 105, 108, 116, 105, 110, 32, 68, 76, 76,
    ]);
    assert(placeholder_mark() =~= seq![
        87u8, 105, 110, 101, 32, 112, 108, 97, 99, 101, 104, 111, 108, 100,
    ]);
}

/// A size that is rounded up is a multiple of its alignment, no less than it was and less than one
/// alignment more.
pub proof fn lemma_rounded_up(size: u32, align: u32)
    requires
        align > 0,
        align & ((align - 1) as u32) == 0,
        size + align <= 0xFFFF_FFFF,
    ensures
        rounded(size, align) & ((align - 1) as u32) == 0,
        size <= rounded(size, align) < size + align,
        rounded(size, 0) == size,
{
    let m = (align - 1) as u32;
    let s = (size + m) as u32;
    assert(m & (m + 1) as u32 == 0 && s == size + m && size <= 0xFFFF_FFFF - m ==> (s & !m) & m == 0 && (s & !m)
        >= size && (s & !m) <= s) by (bit_vector);
    assert(align & m == m & align) by (bit_vector);
    assert((m + 1) as u32 == align);
}

/// A managed header is looked for in the first section, among those that were read, whose part of the file
/// holds its address: as far behind the section's place in the file as the address lies behind the
/// section's own.
pub proof fn lemma_offset_in_first_section(b: Seq<u8>, n: int, va: u32, from: int, i: int)
    requires
        0 <= from <= i < u16_at(b, u32_at(b, 0x3C) + 6),
        ({
            let first = u32_at(b, 0x3C) + 24 + u16_at(b, u32_at(b, 0x3C) + 20);
            &&& first + 40 * i + 40 <= n
            &&& u32_at(b, first + 40 * i + 12) <= va < u32_at(b, first + 40 * i + 12) + u32_at(
                b,
                first + 40 * i + 16,
            )
            &&& forall|j: int|
                from <= j < i ==> !(#[trigger] u32_at(b, first + 40 * j + 12) <= va < u32_at(
                    b,
                    first + 40 * j + 12,
                ) + u32_at(b, first + 40 * j + 16))
        }),
    ensures
        ({
            let first = u32_at(b, 0x3C) + 24 + u16_at(b, u32_at(b, 0x3C) + 20);
            file_offset(b, n, va, from) as int == (u32_at(b, first + 40 * i + 20) + va - u32_at(
                b,
                first + 40 * i + 12,
            )) % 0x1_0000_0000
        }),
    decreases i - from,
{
    let first = u32_at(b, 0x3C) + 24 + u16_at(b, u32_at(b, 0x3C) + 20);
    assert(section_at(b, from) == first + 40 * from);
    if from < i {
        assert(!(u32_at(b, first + 40 * from + 12) <= va < u32_at(b, first + 40 * from + 12) + u32_at(
            b,
            first + 40 * from + 16,
        )));
        lemma_offset_in_first_section(b, n, va, from + 1, i);
    }
}

/// The shared sections of an image lie in memory one behind the other, in the order of their headers and
/// without a gap or an overlap: each begins where the one before it ends, and the whole is as long as they
/// are together. No section is read beyond its own space.
pub proof fn lemma_shared_sections_in_line(b: Seq<u8>, n: int, i: int, at: int)
    requires
        0 <= i,
        0 <= at,
        at + (section_count(b) - i) * 0x2_0000_0000 < u64::MAX,
    ensures
        ({
            let (parts, end) = shared_from(b, n, i, at);
            &&& end >= at
            &&& parts.len() == 0 ==> end == at
            &&& parts.len() > 0 ==> parts[0].at == at
            &&& forall|k: int|
                0 <= k < parts.len() ==> at <= (#[trigger] parts[k]).at && parts[k].at <= end
            &&& forall|k: int, m: int|
                0 <= k < m < parts.len() ==> (#[trigger] parts[k]).at <= (#[trigger] parts[m]).at
        }),
    decreases section_count(b) - i,
{
    let sh = section_at(b, i);
    if i < section_count(b) && sh + 40 <= n {
        if is_shared(u32_at(b, sh + 36)) {
            let space = section_space(u32_at(b, sh + 8), opt_u32(b, 32));
            lemma_space_bounded(u32_at(b, sh + 8), opt_u32(b, 32));
            assert(at + space + (section_count(b) - (i + 1)) * 0x2_0000_0000 < u64::MAX) by (nonlinear_arith)
                requires
                    at + (section_count(b) - i) * 0x2_0000_0000 < u64::MAX,
                    space <= 0x2_0000_0000,
            ;
            lemma_shared_sections_in_line(b, n, i + 1, at + space);
            let (parts, end) = shared_from(b, n, i, at);
            let (rest, rest_end) = shared_from(b, n, i + 1, at + space);
            assert forall|k: int| 0 <= k < parts.len() implies at <= (#[trigger] parts[k]).at && parts[k].at
                <= end by {
                if k > 0 {
                    assert(parts[k] == rest[k - 1]);
                }
            }
            assert forall|k: int, m: int| 0 <= k < m < parts.len() implies (#[trigger] parts[k]).at <= (
            #[trigger] parts[m]).at by {
                assert(parts[m] == rest[m - 1]);
                if k > 0 {
                    assert(parts[k] == rest[k - 1]);
                }
            }
        } else {
            assert(at + (section_count(b) - (i + 1)) * 0x2_0000_0000 < u64::MAX) by (nonlinear_arith)
                requires
                    at + (section_count(b) - i) * 0x2_0000_0000 < u64::MAX,
            ;
            lemma_shared_sections_in_line(b, n, i + 1, at);
        }
    }
}

proof fn lemma_space_bounded(vsize: u32, align: u32)
    ensures
        section_space(vsize, align) <= 0x2_0000_0000,
{
    let mask: u64 = if align > 0 {
        (align - 1) as u64
    } else {
        0
    };
    let s = (vsize + mask) as u64;
    assert(s & !mask <= s) by (bit_vector);
}

/// A section is shared where it both is to be shared and can be written, by the flags 0x10000000 and
/// 0x80000000 at 36 of its header; of such a section the parts tell its place in the file, which is at 20,
/// and no more bytes than it has there, at 16.
pub proof fn lemma_shared_section_told(b: Seq<u8>, n: int, i: int, at: int)
    requires
        0 <= i < section_count(b),
        0 <= at <= u64::MAX,
        section_at(b, i) + 40 <= n,
    ensures
        ({
            let sh = u32_at(b, 0x3C) + 24 + u16_at(b, u32_at(b, 0x3C) + 20) + 40 * i;
            let flags = u32_at(b, sh + 36);
            let (parts, end) = shared_from(b, n, i, at);
            if flags & 0x1000_0000 != 0 && flags & 0x8000_0000 != 0 {
                &&& parts.len() > 0
                &&& parts[0].at == at
                &&& parts[0].raw_at == u32_at(b, sh + 20)
                &&& parts[0].size <= u32_at(b, sh + 16)
            } else {
                (parts, end) == shared_from(b, n, i + 1, at)
            }
        }),
{
}

proof fn lemma_long_part(s: Seq<u8>, x: u64, rest: Seq<u8>)
    ensures
        (s + u64_bytes(x) + rest).len() == s.len() + 8 + rest.len(),
        u64_at(s + u64_bytes(x) + rest, s.len() as int) == x,
{
    let b = u64_bytes(x);
    let all = s + b + rest;
    assert(b.len() == 8);
    assert(all.subrange(s.len() as int, s.len() as int + 8) =~= b);
    lemma_read_back_u64(all, s.len() as int, x);
}

proof fn lemma_word_part(s: Seq<u8>, x: u32, rest: Seq<u8>)
    ensures
        (s + u32_bytes(x) + rest).len() == s.len() + 4 + rest.len(),
        u32_at(s + u32_bytes(x) + rest, s.len() as int) == x,
{
    let b = u32_bytes(x);
    let all = s + b + rest;
    assert(b.len() == 4);
    assert(all.subrange(s.len() as int, s.len() as int + 4) =~= b);
    lemma_read_back_u32(all, s.len() as int, x);
}

proof fn lemma_half_part(s: Seq<u8>, x: u16, rest: Seq<u8>)
    ensures
        (s + u16_bytes(x) + rest).len() == s.len() + 2 + rest.len(),
        u16_at(s + u16_bytes(x) + rest, s.len() as int) == x,
{
    let b = u16_bytes(x);
    let all = s + b + rest;
    assert(b.len() == 2);
    assert(all.subrange(s.len() as int, s.len() as int + 2) =~= b);
    lemma_read_back_u16(all, s.len() as int, x);
}

#[verifier::spinoff_prover]
#[verifier::rlimit(50)]
proof fn lemma_size_places(i: PeImageInfo)
    ensures
        size_bytes(i).len() == 52,
        u64_at(size_bytes(i), 0) == i.base,
        u64_at(size_bytes(i), 8) == i.map_addr,
        u64_at(size_bytes(i), 16) == i.stack_size,
        u64_at(size_bytes(i), 24) == i.stack_commit,
        u32_at(size_bytes(i), 32) == i.entry_point,
        u32_at(size_bytes(i), 36) == i.map_size,
        u32_at(size_bytes(i), 40) == i.alignment,
        u32_at(size_bytes(i), 44) == i.zerobits,
        u32_at(size_bytes(i), 48) == i.subsystem,
{
    let e = Seq::<u8>::empty();
    let b0 = u64_bytes(i.base);
    let b1 = u64_bytes(i.map_addr);
    let b2 = u64_bytes(i.stack_size);
    let b3 = u64_bytes(i.stack_commit);
    let b4 = u32_bytes(i.entry_point);
    let b5 = u32_bytes(i.map_size);
    let b6 = u32_bytes(i.alignment);
    let b7 = u32_bytes(i.zerobits);
    let b8 = u32_bytes(i.subsystem);
    lemma_long_part(e, i.base, b1 + b2 + b3 + b4 + b5 + b6 + b7 + b8);
    assert(size_bytes(i) =~= (e) + b0 + (b1 + b2 + b3 + b4 + b5 + b6 + b7 + b8));
    lemma_long_part(b0, i.map_addr, b2 + b3 + b4 + b5 + b6 + b7 + b8);
    assert(size_bytes(i) =~= (b0) + b1 + (b2 + b3 + b4 + b5 + b6 + b7 + b8));
    lemma_long_part(b0 + b1, i.stack_size, b3 + b4 + b5 + b6 + b7 + b8);
    assert(size_bytes(i) =~= (b0 + b1) + b2 + (b3 + b4 + b5 + b6 + b7 + b8));
    lemma_long_part(b0 + b1 + b2, i.stack_commit, b4 + b5 + b6 + b7 + b8);
    assert(size_bytes(i) =~= (b0 + b1 + b2) + b3 + (b4 + b5 + b6 + b7 + b8));
    lemma_word_part(b0 + b1 + b2 + b3, i.entry_point, b5 + b6 + b7 + b8);
    assert(size_bytes(i) =~= (b0 + b1 + b2 + b3) + b4 + (b5 + b6 + b7 + b8));
    lemma_word_part(b0 + b1 + b2 + b3 + b4, i.map_size, b6 + b7 + b8);
    assert(size_bytes(i) =~= (b0 + b1 + b2 + b3 + b4) + b5 + (b6 + b7 + b8));
    lemma_word_part(b0 + b1 + b2 + b3 + b4 + b5, i.alignment, b7 + b8);
    assert(size_bytes(i) =~= (b0 + b1 + b2 + b3 + b4 + b5) + b6 + (b7 + b8));
    lemma_word_part(b0 + b1 + b2 + b3 + b4 + b5 + b6, i.zerobits, b8);
    assert(size_bytes(i) =~= (b0 + b1 + b2 + b3 + b4 + b5 + b6) + b7 + (b8));
    lemma_word_part(b0 + b1 + b2 + b3 + b4 + b5 + b6 + b7, i.subsystem, e);
    assert(size_bytes(i) =~= (b0 + b1 + b2 + b3 + b4 + b5 + b6 + b7) + b8 + (e));
}

#[verifier::spinoff_prover]
#[verifier::rlimit(50)]
proof fn lemma_kind_places(i: PeImageInfo)
    ensures
        kind_bytes(i).len() == 14,
        u16_at(kind_bytes(i), 0) == i.subsystem_minor,
        u16_at(kind_bytes(i), 2) == i.subsystem_major,
        u16_at(kind_bytes(i), 4) == i.osversion_major,
        u16_at(kind_bytes(i), 6) == i.osversion_minor,
        u16_at(kind_bytes(i), 8) == i.image_charact,
        u16_at(kind_bytes(i), 10) == i.dll_charact,
        u16_at(kind_bytes(i), 12) == i.machine,
{
    let e = Seq::<u8>::empty();
    let b0 = u16_bytes(i.subsystem_minor);
    let b1 = u16_bytes(i.subsystem_major);
    let b2 = u16_bytes(i.osversion_major);
    let b3 = u16_bytes(i.osversion_minor);
    let b4 = u16_bytes(i.image_charact);
    let b5 = u16_bytes(i.dll_charact);
    let b6 = u16_bytes(i.machine);
    lemma_half_part(e, i.subsystem_minor, b1 + b2 + b3 + b4 + b5 + b6);
    assert(kind_bytes(i) =~= (e) + b0 + (b1 + b2 + b3 + b4 + b5 + b6));
    lemma_half_part(b0, i.subsystem_major, b2 + b3 + b4 + b5 + b6);
    assert(kind_bytes(i) =~= (b0) + b1 + (b2 + b3 + b4 + b5 + b6));
    lemma_half_part(b0 + b1, i.osversion_major, b3 + b4 + b5 + b6);
    assert(kind_bytes(i) =~= (b0 + b1) + b2 + (b3 + b4 + b5 + b6));
    lemma_half_part(b0 + b1 + b2, i.osversion_minor, b4 + b5 + b6);
    assert(kind_bytes(i) =~= (b0 + b1 + b2) + b3 + (b4 + b5 + b6));
    lemma_half_part(b0 + b1 + b2 + b3, i.image_charact, b5 + b6);
    assert(kind_bytes(i) =~= (b0 + b1 + b2 + b3) + b4 + (b5 + b6));
    lemma_half_part(b0 + b1 + b2 + b3 + b4, i.dll_charact, b6);
    assert(kind_bytes(i) =~= (b0 + b1 + b2 + b3 + b4) + b5 + (b6));
    lemma_half_part(b0 + b1 + b2 + b3 + b4 + b5, i.machine, e);
    assert(kind_bytes(i) =~= (b0 + b1 + b2 + b3 + b4 + b5) + b6 + (e));
}

#[verifier::spinoff_prover]
#[verifier::rlimit(50)]
proof fn lemma_file_places(i: PeImageInfo)
    ensures
        file_bytes(i).len() == 28,
        u32_at(file_bytes(i), 0) == i.loader_flags,
        u32_at(file_bytes(i), 4) == i.header_size,
        u32_at(file_bytes(i), 8) == i.header_map_size,
        u32_at(file_bytes(i), 12) == i.file_size,
        u32_at(file_bytes(i), 16) == i.checksum,
        u32_at(file_bytes(i), 20) == i.dbg_offset,
        u32_at(file_bytes(i), 24) == i.dbg_size,
{
    let e = Seq::<u8>::empty();
    let b0 = u32_bytes(i.loader_flags);
    let b1 = u32_bytes(i.header_size);
    let b2 = u32_bytes(i.header_map_size);
    let b3 = u32_bytes(i.file_size);
    let b4 = u32_bytes(i.checksum);
    let b5 = u32_bytes(i.dbg_offset);
    let b6 = u32_bytes(i.dbg_size);
    lemma_word_part(e, i.loader_flags, b1 + b2 + b3 + b4 + b5 + b6);
    assert(file_bytes(i) =~= (e) + b0 + (b1 + b2 + b3 + b4 + b5 + b6));
    lemma_word_part(b0, i.header_size, b2 + b3 + b4 + b5 + b6);
    assert(file_bytes(i) =~= (b0) + b1 + (b2 + b3 + b4 + b5 + b6));
    lemma_word_part(b0 + b1, i.header_map_size, b3 + b4 + b5 + b6);
    assert(file_bytes(i) =~= (b0 + b1) + b2 + (b3 + b4 + b5 + b6));
    lemma_word_part(b0 + b1 + b2, i.file_size, b4 + b5 + b6);
    assert(file_bytes(i) =~= (b0 + b1 + b2) + b3 + (b4 + b5 + b6));
    lemma_word_part(b0 + b1 + b2 + b3, i.checksum, b5 + b6);
    assert(file_bytes(i) =~= (b0 + b1 + b2 + b3) + b4 + (b5 + b6));
    lemma_word_part(b0 + b1 + b2 + b3 + b4, i.dbg_offset, b6);
    assert(file_bytes(i) =~= (b0 + b1 + b2 + b3 + b4) + b5 + (b6));
    lemma_word_part(b0 + b1 + b2 + b3 + b4 + b5, i.dbg_size, e);
    assert(file_bytes(i) =~= (b0 + b1 + b2 + b3 + b4 + b5) + b6 + (e));
}

proof fn lemma_description_parts(i: PeImageInfo)
    ensures
        info_bytes(i).len() == 96,
        size_bytes(i).len() == 52,
        kind_bytes(i).len() == 14,
        file_bytes(i).len() == 28,
        info_bytes(i).subrange(0, 52) == size_bytes(i),
        info_bytes(i).subrange(52, 66) == kind_bytes(i),
        info_bytes(i).subrange(68, 96) == file_bytes(i),
        info_bytes(i)[66] == i.image_flags_byte,
        info_bytes(i)[67] == i.image_flags,
{
    lemma_size_places(i);
    lemma_kind_places(i);
    lemma_file_places(i);
    lemma_four_parts(
        size_bytes(i),
        kind_bytes(i),
        seq![i.image_flags_byte, i.image_flags],
        file_bytes(i),
    );
}

proof fn lemma_four_parts(a: Seq<u8>, b: Seq<u8>, c: Seq<u8>, d: Seq<u8>)
    requires
        a.len() == 52,
        b.len() == 14,
        c.len() == 2,
        d.len() == 28,
    ensures
        ({
            let s = a + b + c + d;
            &&& s.len() == 96
            &&& s.subrange(0, 52) == a
            &&& s.subrange(52, 66) == b
            &&& s.subrange(68, 96) == d
            &&& s[66] == c[0]
            &&& s[67] == c[1]
        }),
{
    let s = a + b + c + d;
    assert(s.subrange(0, 52) =~= a);
    assert(s.subrange(52, 66) =~= b);
    assert(s.subrange(68, 96) =~= d);
}

/// A client finds the sizes and addresses of an image at these places of its description.
#[verifier::spinoff_prover]
#[verifier::rlimit(50)]
pub proof fn lemma_description_sizes(i: PeImageInfo)
    ensures
        info_bytes(i).len() == 96,
        u64_at(info_bytes(i), 0) == i.base,
        u64_at(info_bytes(i), 8) == i.map_addr,
        u64_at(info_bytes(i), 16) == i.stack_size,
        u64_at(info_bytes(i), 24) == i.stack_commit,
        u32_at(info_bytes(i), 32) == i.entry_point,
        u32_at(info_bytes(i), 36) == i.map_size,
        u32_at(info_bytes(i), 40) == i.alignment,
        u32_at(info_bytes(i), 44) == i.zerobits,
        u32_at(info_bytes(i), 48) == i.subsystem,
{
    let (s, k, f) = (size_bytes(i), kind_bytes(i), file_bytes(i));
    let d = info_bytes(i);
    lemma_size_places(i);
    lemma_description_parts(i);
    lemma_part_reads(d, 0, s, 0);
    lemma_part_reads(d, 0, s, 8);
    lemma_part_reads(d, 0, s, 16);
    lemma_part_reads(d, 0, s, 24);
    lemma_part_reads(d, 0, s, 32);
    lemma_part_reads(d, 0, s, 36);
    lemma_part_reads(d, 0, s, 40);
    lemma_part_reads(d, 0, s, 44);
    lemma_part_reads(d, 0, s, 48);
}

/// A client finds the versions and kinds of an image at these places of its description.
#[verifier::spinoff_prover]
#[verifier::rlimit(50)]
pub proof fn lemma_description_kinds(i: PeImageInfo)
    ensures
        info_bytes(i).len() == 96,
        u16_at(info_bytes(i), 52) == i.subsystem_minor,
        u16_at(info_bytes(i), 54) == i.subsystem_major,
        u16_at(info_bytes(i), 56) == i.osversion_major,
        u16_at(info_bytes(i), 58) == i.osversion_minor,
        u16_at(info_bytes(i), 60) == i.image_charact,
        u16_at(info_bytes(i), 62) == i.dll_charact,
        u16_at(info_bytes(i), 64) == i.machine,
        info_bytes(i)[66] == i.image_flags_byte,
        info_bytes(i)[67] == i.image_flags,
{
    let (s, k, f) = (size_bytes(i), kind_bytes(i), file_bytes(i));
    let d = info_bytes(i);
    lemma_kind_places(i);
    lemma_description_parts(i);
    lemma_part_reads(d, 52, k, 0);
    lemma_part_reads(d, 52, k, 2);
    lemma_part_reads(d, 52, k, 4);
    lemma_part_reads(d, 52, k, 6);
    lemma_part_reads(d, 52, k, 8);
    lemma_part_reads(d, 52, k, 10);
    lemma_part_reads(d, 52, k, 12);
}

/// A client finds what is known of the file of an image at these places of its description.
#[verifier::spinoff_prover]
#[verifier::rlimit(50)]
pub proof fn lemma_description_file(i: PeImageInfo)
    ensures
        info_bytes(i).len() == 96,
        u32_at(info_bytes(i), 68) == i.loader_flags,
        u32_at(info_bytes(i), 72) == i.header_size,
        u32_at(info_bytes(i), 76) == i.header_map_size,
        u32_at(info_bytes(i), 80) == i.file_size,
        u32_at(info_bytes(i), 84) == i.checksum,
        u32_at(info_bytes(i), 88) == i.dbg_offset,
        u32_at(info_bytes(i), 92) == i.dbg_size,
{
    let (s, k, f) = (size_bytes(i), kind_bytes(i), file_bytes(i));
    let d = info_bytes(i);
    lemma_file_places(i);
    lemma_description_parts(i);
    lemma_part_reads(d, 68, f, 0);
    lemma_part_reads(d, 68, f, 4);
    lemma_part_reads(d, 68, f, 8);
    lemma_part_reads(d, 68, f, 12);
    lemma_part_reads(d, 68, f, 16);
    lemma_part_reads(d, 68, f, 20);
    lemma_part_reads(d, 68, f, 24);
}

} // verus!
