//! Access rights on files.
use vstd::prelude::*;

verus! {

pub const GENERIC_READ: u32 = 0x8000_0000;

pub const GENERIC_WRITE: u32 = 0x4000_0000;

pub const GENERIC_EXECUTE: u32 = 0x2000_0000;

pub const GENERIC_ALL: u32 = 0x1000_0000;

pub const FILE_GENERIC_READ: u32 = 0x0012_0089;

pub const FILE_GENERIC_WRITE: u32 = 0x0012_0116;

pub const FILE_GENERIC_EXECUTE: u32 = 0x0012_00A0;

pub const FILE_ALL_ACCESS: u32 = 0x001F_01FF;

/// The rights that one generic right stands for, where it is asked for.
pub open spec fn granted(access: u32, generic: u32, rights: u32) -> u32 {
    if access & generic != 0 {
        rights
    } else {
        0
    }
}

/// The rights that generic rights stand for, beside the specific ones.
pub open spec fn file_access(access: u32) -> u32 {
    (access & 0x0FFF_FFFF) | granted(access, GENERIC_READ, FILE_GENERIC_READ) | granted(
        access,
        GENERIC_WRITE,
        FILE_GENERIC_WRITE,
    ) | granted(access, GENERIC_EXECUTE, FILE_GENERIC_EXECUTE) | granted(
        access,
        GENERIC_ALL,
        FILE_ALL_ACCESS,
    )
}

/// Replaces generic rights by those they stand for.
pub fn map_file_access(access: u32) -> (r: u32)
    ensures
        r == file_access(access),
{
    let mut mapped: u32 = access & 0x0FFF_FFFF;
    if access & GENERIC_READ != 0 {
        mapped = mapped | FILE_GENERIC_READ;
    }
    if access & GENERIC_WRITE != 0 {
        mapped = mapped | FILE_GENERIC_WRITE;
    }
    if access & GENERIC_EXECUTE != 0 {
        mapped = mapped | FILE_GENERIC_EXECUTE;
    }
    if access & GENERIC_ALL != 0 {
        mapped = mapped | FILE_ALL_ACCESS;
    }
    proof {
        lemma_or_zero();
    }
    mapped
}

proof fn lemma_or_zero()
    by (bit_vector)
    ensures
        forall|x: u32| #[trigger] (x | 0u32) == x,
{
}

/// No generic right is left, every specific right is kept, and mapping once more changes nothing.
pub proof fn lemma_access_is_specific(access: u32)
    ensures
        file_access(access) & 0xF000_0000 == 0,
        file_access(access) & (access & 0x0FFF_FFFF) == access & 0x0FFF_FFFF,
        file_access(file_access(access)) == file_access(access),
{
    let r = granted(access, GENERIC_READ, FILE_GENERIC_READ);
    let w = granted(access, GENERIC_WRITE, FILE_GENERIC_WRITE);
    let x = granted(access, GENERIC_EXECUTE, FILE_GENERIC_EXECUTE);
    let a = granted(access, GENERIC_ALL, FILE_ALL_ACCESS);
    let m = file_access(access);
    assert(m == (access & 0x0FFF_FFFF) | r | w | x | a);
    assert(m & 0xF000_0000 == 0 && m & (access & 0x0FFF_FFFF) == access & 0x0FFF_FFFF && m & 0x8000_0000 == 0
        && m & 0x4000_0000 == 0 && m & 0x2000_0000 == 0 && m & 0x1000_0000 == 0 && m & 0x0FFF_FFFF
        == m) by (bit_vector)
        requires
            m == (access & 0x0FFF_FFFF) | r | w | x | a,
            r == 0x0012_0089u32 || r == 0u32,
            w == 0x0012_0116u32 || w == 0u32,
            x == 0x0012_00A0u32 || x == 0u32,
            a == 0x001F_01FFu32 || a == 0u32,
    ;
    lemma_or_zero();
}

/// Each generic right stands for its own rights on a file, and no right is granted that was neither asked
/// for nor stands behind a generic right that was.
pub proof fn lemma_generic_rights(access: u32)
    ensures
        access & 0x8000_0000 != 0 ==> file_access(access) & 0x0012_0089 == 0x0012_0089,
        access & 0x4000_0000 != 0 ==> file_access(access) & 0x0012_0116 == 0x0012_0116,
        access & 0x2000_0000 != 0 ==> file_access(access) & 0x0012_00A0 == 0x0012_00A0,
        access & 0x1000_0000 != 0 ==> file_access(access) & 0x001F_01FF == 0x001F_01FF,
        access & 0xF000_0000 == 0 ==> file_access(access) == access,
        access & 0x5000_0000 == 0 ==> file_access(access) & 2 == access & 2,
        access & 0x9000_0000 == 0 ==> file_access(access) & 1 == access & 1,
        access & 0x3000_0000 == 0 ==> file_access(access) & 0x20 == access & 0x20,
        access & 0x1000_0000 == 0 ==> file_access(access) & 0x000D_0040 == access & 0x000D_0040,
{
    let r = granted(access, GENERIC_READ, FILE_GENERIC_READ);
    let w = granted(access, GENERIC_WRITE, FILE_GENERIC_WRITE);
    let x = granted(access, GENERIC_EXECUTE, FILE_GENERIC_EXECUTE);
    let a = granted(access, GENERIC_ALL, FILE_ALL_ACCESS);
    let m = file_access(access);
    assert(access & 0xF000_0000 == 0 ==> access & 0x8000_0000 == 0 && access & 0x4000_0000 == 0 && access
        & 0x2000_0000 == 0 && access & 0x1000_0000 == 0) by (bit_vector);
    assert(access & 0x5000_0000 == 0 ==> access & 0x4000_0000 == 0 && access & 0x1000_0000 == 0) by (bit_vector);
    assert(access & 0x9000_0000 == 0 ==> access & 0x8000_0000 == 0 && access & 0x1000_0000 == 0) by (bit_vector);
    assert(access & 0x3000_0000 == 0 ==> access & 0x2000_0000 == 0 && access & 0x1000_0000 == 0) by (bit_vector);
    assert((r == 0x0012_0089u32 ==> m & 0x0012_0089 == 0x0012_0089) && (w == 0x0012_0116u32 ==> m & 0x0012_0116
        == 0x0012_0116) && (x == 0x0012_00A0u32 ==> m & 0x0012_00A0 == 0x0012_00A0) && (a == 0x001F_01FFu32
        ==> m & 0x001F_01FF == 0x001F_01FF) && (r == 0 && w == 0 && x == 0 && a == 0 && access & 0xF000_0000 == 0
        ==> m == access) && (w == 0 && a == 0 ==> m & 2 == access & 2) && (r == 0 && a == 0 ==> m & 1 == access
        & 1) && (x == 0 && a == 0 ==> m & 0x20 == access & 0x20) && (a == 0 ==> m & 0x000D_0040 == access
        & 0x000D_0040)) by (bit_vector)
        requires
            m == (access & 0x0FFF_FFFF) | r | w | x | a,
            r == 0x0012_0089u32 || r == 0u32,
            w == 0x0012_0116u32 || w == 0u32,
            x == 0x0012_00A0u32 || x == 0u32,
            a == 0x001F_01FFu32 || a == 0u32,
    ;
}

} // verus!
