//! The resource table: amounts stored right after their identifiers, past the
//! marker that opens the table.
use vstd::prelude::*;
use crate::codec::{u32_at, patch_u32, read_u32_le, write_u32_le, lemma_write_read};
use crate::locate::{first_match, find, find_in, lemma_first_match_kept};

verus! {

/// "OwnedResources": opens the resource table.
pub const RESOURCES_MARKER: [u8; 14] = [
    0x4F, 0x77, 0x6E, 0x65, 0x64, 0x52, 0x65, 0x73, 0x6F, 0x75, 0x72, 0x63, 0x65, 0x73,
];

pub const BISMOR: [u8; 16] = [
    0xAF, 0x0D, 0xC4, 0xFE, 0x83, 0x61, 0xBB, 0x48, 0xB3, 0x2C, 0x92, 0xCC, 0x97, 0xE2, 0x1D, 0xE7,
];

pub const ENOR: [u8; 16] = [
    0x48, 0x8D, 0x05, 0x14, 0x6F, 0x5F, 0x75, 0x4B, 0xA3, 0xD4, 0x61, 0x0D, 0x08, 0xC0, 0x60, 0x3E,
];

pub const JADIZ: [u8; 16] = [
    0x22, 0xBC, 0x4F, 0x7D, 0x07, 0xD1, 0x3E, 0x43, 0xBF, 0xCA, 0x81, 0xBD, 0x9C, 0x14, 0xB1, 0xAF,
];

pub const CROPPA: [u8; 16] = [
    0x8A, 0xA7, 0xFB, 0x43, 0x29, 0x3A, 0x0B, 0x49, 0xB8, 0xBE, 0x42, 0xFF, 0xE0, 0x68, 0xA4, 0x4C,
];

pub const MAGNITE: [u8; 16] = [
    0xAA, 0xDE, 0xD8, 0x76, 0x6C, 0x22, 0x7D, 0x40, 0x80, 0x32, 0xAF, 0xD1, 0x8D, 0x63, 0x56, 0x1E,
];

pub const UMANITE: [u8; 16] = [
    0x5F, 0x2B, 0xCF, 0x83, 0x47, 0x76, 0x0A, 0x42, 0xA2, 0x3B, 0x6E, 0xDC, 0x07, 0xC0, 0x94, 0x1D,
];

pub const YEAST: [u8; 16] = [
    0x07, 0x85, 0x48, 0xB9, 0x32, 0x32, 0xC0, 0x40, 0x85, 0xF8, 0x92, 0xE0, 0x84, 0xA7, 0x41, 0x00,
];

pub const STARCH: [u8; 16] = [
    0x72, 0x31, 0x22, 0x04, 0xE2, 0x87, 0xBC, 0x41, 0x81, 0x55, 0x40, 0xA0, 0xCF, 0x88, 0x12, 0x80,
];

pub const BARLEY: [u8; 16] = [
    0x22, 0xDA, 0xA7, 0x57, 0xAD, 0x7A, 0x80, 0x49, 0x89, 0x1B, 0x17, 0xED, 0xCC, 0x2F, 0xE0, 0x98,
];

pub const MALT: [u8; 16] = [
    0x41, 0xEA, 0x55, 0x0C, 0x1D, 0x46, 0xC5, 0x4B, 0xBE, 0x2E, 0x9C, 0xA5, 0xA7, 0xAC, 0xCB, 0x06,
];

pub const ERROR_CORES: [u8; 16] = [
    0x58, 0x28, 0x65, 0x2C, 0x9A, 0x5D, 0xE8, 0x45, 0xA9, 0xE2, 0xE1, 0xB8, 0xB4, 0x63, 0xC5, 0x16,
];

pub const BLANK_CORES: [u8; 16] = [
    0xA1, 0x0C, 0xB2, 0x85, 0x38, 0x71, 0xFB, 0x49, 0x9A, 0xC8, 0x54, 0xA1, 0xCD, 0xE2, 0x20, 0x2C,
];

/// Where the amount of resource `id` lies when the table opens at `from`: just
/// past the first occurrence of `id` at or after `from`.
pub open spec fn resource_field_from(b: Seq<u8>, from: int, id: Seq<u8>) -> Option<int> {
    match first_match(b.subrange(from, b.len() as int), id) {
        Some(q) => Some(from + q + id.len()),
        None => None,
    }
}

/// Where the amount of resource `id` lies in `b`.
pub open spec fn resource_field(b: Seq<u8>, id: Seq<u8>) -> Option<int> {
    match first_match(b, RESOURCES_MARKER@) {
        Some(r) => resource_field_from(b, r, id),
        None => None,
    }
}

/// The amount of resource `id` in `b`, as the bits of a single-precision
/// float.
pub open spec fn resource_at(b: Seq<u8>, id: Seq<u8>) -> Option<u32> {
    match resource_field(b, id) {
        Some(o) => u32_at(b, o),
        None => None,
    }
}

/// Where the resource table opens.
pub fn get_resources_pos(buf: &[u8]) -> (r: Option<usize>)
    ensures
        r matches Some(i) ==> first_match(buf@, RESOURCES_MARKER@) == Some(i as int),
        r matches Some(i) ==> i + 14 <= buf@.len(),
        r is None ==> first_match(buf@, RESOURCES_MARKER@) is None,
{
    find(buf, &RESOURCES_MARKER)
}

/// Where the amount of resource `id` lies when the table opens at
/// `resources_pos`.
pub fn resource_pos(buf: &[u8], resources_pos: usize, id: &[u8]) -> (r: Option<usize>)
    requires
        resources_pos <= buf@.len(),
    ensures
        r matches Some(o) ==> resource_field_from(buf@, resources_pos as int, id@) == Some(
            o as int,
        ),
        r is None ==> resource_field_from(buf@, resources_pos as int, id@) is None,
{
    match find_in(buf, resources_pos, buf.len(), id) {
        Some(i) => {
            Some(i + id.len())
        },
        None => None,
    }
}

/// The amount of resource `id` when the table opens at `resources_pos`;
/// `None` where `id` is not found there or four bytes do not fit after it.
pub fn get_resource_val(buf: &[u8], resources_pos: usize, id: &[u8]) -> (r: Option<u32>)
    requires
        resources_pos <= buf@.len(),
    ensures
        r == match resource_field_from(buf@, resources_pos as int, id@) {
            Some(o) => u32_at(buf@, o),
            None => None,
        },
{
    match resource_pos(buf, resources_pos, id) {
        Some(o) => read_u32_le(buf, o),
        None => None,
    }
}

/// Writes the amount of resource `id` when the table opens at
/// `resources_pos`; `None`, leaving `buf` as it was, where `id` is not found
/// there or four bytes do not fit after it.
pub fn set_resource_val(buf: &mut Vec<u8>, resources_pos: usize, id: &[u8], val: u32) -> (r:
    Option<()>)
    requires
        resources_pos <= old(buf)@.len(),
    ensures
        match resource_field_from(old(buf)@, resources_pos as int, id@) {
            Some(o) => if o + 4 <= old(buf)@.len() {
                r is Some && final(buf)@ == patch_u32(old(buf)@, o, val)
            } else {
                r is None && final(buf)@ == old(buf)@
            },
            None => r is None && final(buf)@ == old(buf)@,
        },
{
    let o = match resource_pos(buf.as_slice(), resources_pos, id) {
        Some(o) => o,
        None => return None,
    };
    if o > buf.len() || buf.len() - o < 4 {
        return None;
    }
    write_u32_le(buf, o, val);
    Some(())
}

/// Writing an amount and reading it back gives the value written: the write
/// moves neither the table's marker nor the identifier.
pub proof fn lemma_resource_write_read(b: Seq<u8>, id: Seq<u8>, v: u32)
    requires
        id.len() == 16,
        resource_field(b, id) is Some,
        resource_field(b, id).unwrap() + 4 <= b.len(),
    ensures
        resource_field(patch_u32(b, resource_field(b, id).unwrap(), v), id) == resource_field(
            b,
            id,
        ),
        resource_at(patch_u32(b, resource_field(b, id).unwrap(), v), id) == Some(v),
{
    let o = resource_field(b, id).unwrap();
    let r = first_match(b, RESOURCES_MARKER@).unwrap();
    let part = b.subrange(r, b.len() as int);
    let q = first_match(part, id).unwrap();
    crate::locate::lemma_first_match_found(b, RESOURCES_MARKER@);
    crate::locate::lemma_first_match_found(part, id);
    assert(RESOURCES_MARKER@.len() == 14);
    let b2 = patch_u32(b, o, v);
    lemma_write_read(b, o, v);
    lemma_first_match_kept(b, b2, RESOURCES_MARKER@, r);
    let part2 = b2.subrange(r, b2.len() as int);
    lemma_first_match_kept(part, part2, id, q);
}

} // verus!
