//! The list of forged and unforged matrix cores: reading it against the
//! catalog, and rebuilding its unforged part.
use vstd::prelude::*;
use vstd::slice::slice_subrange;
use crate::catalog::{
    MatrixCores, Overclock, Cosmetic, OverclockState, overclock_with, cosmetic_with, hex_upper,
    is_id_key, key_id, encode_upper, key_to_id,
};
use crate::codec::{u32_at, u32_bytes, read_u32_le, u32_le_bytes};
use crate::error::SaveError;
use crate::locate::{first_match, find};

verus! {

/// "ForgedSchematics": opens the item-list region.
pub const FORGED_MARKER: [u8; 16] = [
    0x46, 0x6F, 0x72, 0x67, 0x65, 0x64, 0x53, 0x63, 0x68, 0x65, 0x6D, 0x61, 0x74, 0x69, 0x63, 0x73,
];

/// "bFirstSchematicMessageShown": the property that follows the region.
pub const REGION_END_MARKER: [u8; 27] = [
    0x62, 0x46, 0x69, 0x72, 0x73, 0x74, 0x53, 0x63, 0x68, 0x65, 0x6D, 0x61, 0x74, 0x69, 0x63, 0x4D,
    0x65, 0x73, 0x73, 0x61, 0x67, 0x65, 0x53, 0x68, 0x6F, 0x77, 0x6E,
];

/// "Owned": inside the region, opens the unforged list.
pub const OWNED_MARKER: [u8; 5] = [0x4F, 0x77, 0x6E, 0x65, 0x64];

/// Where the forged count lies, from the region's start.
pub const FORGED_COUNT_OFFSET: usize = 63;

/// Where the forged identifiers begin, from the region's start.
pub const FORGED_LIST_OFFSET: usize = 141;

/// Where the unforged count lies, from the unforged marker.
pub const UNFORGED_COUNT_OFFSET: usize = 62;

/// Where the unforged identifiers begin, from the unforged count.
pub const UNFORGED_LIST_OFFSET: usize = 77;

/// Bytes in one identifier.
pub const ID_LEN: usize = 16;

/// The bytes that open a rebuilt unforged list, up to its count.
pub const UNFORGED_HEADER: [u8; 66] = [
    0x10, 0x00, 0x00, 0x00, 0x4F, 0x77, 0x6E, 0x65, 0x64, 0x53, 0x63, 0x68, 0x65, 0x6D, 0x61, 0x74,
    0x69, 0x63, 0x73, 0x00, 0x0E, 0x00, 0x00, 0x00, 0x41, 0x72, 0x72, 0x61, 0x79, 0x50, 0x72, 0x6F,
    0x70, 0x65, 0x72, 0x74, 0x79, 0x00, 0x6D, 0x00, 0x00, 0x00, 0x00, 0x00, 0x00, 0x00, 0x0F, 0x00,
    0x00, 0x00, 0x53, 0x74, 0x72, 0x75, 0x63, 0x74, 0x50, 0x72, 0x6F, 0x70, 0x65, 0x72, 0x74, 0x79,
    0x00, 0x00,
];

/// The bytes between the count of a rebuilt unforged list and its identifiers.
pub const UNFORGED_FOOTER: [u8; 73] = [
    0x10, 0x00, 0x00, 0x00, 0x4F, 0x77, 0x6E, 0x65, 0x64, 0x53, 0x63, 0x68, 0x65, 0x6D, 0x61, 0x74,
    0x69, 0x63, 0x73, 0x00, 0x0F, 0x00, 0x00, 0x00, 0x53, 0x74, 0x72, 0x75, 0x63, 0x74, 0x50, 0x72,
    0x6F, 0x70, 0x65, 0x72, 0x74, 0x79, 0x00, 0x20, 0x00, 0x00, 0x00, 0x00, 0x00, 0x00, 0x00, 0x05,
    0x00, 0x00, 0x00, 0x47, 0x75, 0x69, 0x64, 0x00, 0x00, 0x00, 0x00, 0x00, 0x00, 0x00, 0x00, 0x00,
    0x00, 0x00, 0x00, 0x00, 0x00, 0x00, 0x00, 0x00, 0x00,
];

/// Where the item lists lie in a buffer. `start` and `end` are positions in
/// the buffer; `unforged_base` is a position in the region `[start, end)`.
#[derive(Debug, Clone, Copy, PartialEq, Eq, Structural)]
pub struct ItemLists {
    pub start: usize,
    pub end: usize,
    pub forged_count: usize,
    pub unforged_base: usize,
    pub unforged_count: usize,
}

/// Where the unforged identifiers begin in `region`, and how many there are;
/// none where the region holds no unforged marker.
pub open spec fn unforged_list(region: Seq<u8>) -> Option<(int, int)> {
    match first_match(region, OWNED_MARKER@) {
        None => Some((0, 0)),
        Some(u) => match u32_at(region, u + 62) {
            Some(n) => if u + 139 + 16 * n <= region.len() {
                Some((u + 139, n as int))
            } else {
                None
            },
            None => None,
        },
    }
}

/// The layout of the item lists, where both markers are found in order and
/// each count and list lies inside the region.
pub open spec fn item_lists(b: Seq<u8>) -> Option<ItemLists> {
    match (first_match(b, FORGED_MARKER@), first_match(b, REGION_END_MARKER@)) {
        (Some(s), Some(e)) => if s <= e {
            let region = b.subrange(s, e);
            match u32_at(region, 63) {
                Some(nf) => if 141 + 16 * nf <= region.len() {
                    match unforged_list(region) {
                        Some((ub, nu)) => Some(
                            ItemLists {
                                start: s as usize,
                                end: e as usize,
                                forged_count: nf as usize,
                                unforged_base: ub as usize,
                                unforged_count: nu as usize,
                            },
                        ),
                        None => None,
                    }
                } else {
                    None
                },
                None => None,
            }
        } else {
            None
        },
        _ => None,
    }
}

/// Identifier `i` of the list that begins at `base`.
pub open spec fn id_at(region: Seq<u8>, base: int, i: int) -> Seq<u8> {
    region.subrange(base + 16 * i, base + 16 * i + 16)
}

/// `key` is the hexadecimal form of one of the `count` identifiers at `base`.
pub open spec fn lists_key(region: Seq<u8>, base: int, count: int, key: Seq<char>) -> bool {
    exists|i: int| 0 <= i < count && hex_upper(#[trigger] id_at(region, base, i)) == key
}

/// The state of the catalog entry keyed `key`: unforged where the unforged
/// list names it, else forged where the forged list does, else unacquired.
pub open spec fn item_state(region: Seq<u8>, l: ItemLists, key: Seq<char>) -> OverclockState {
    if lists_key(region, l.unforged_base as int, l.unforged_count as int, key) {
        OverclockState::Unforged
    } else if lists_key(region, 141, l.forged_count as int, key) {
        OverclockState::Forged
    } else {
        OverclockState::Unacquired
    }
}

/// The lists fit in `region`.
pub open spec fn fits(region: Seq<u8>, l: ItemLists) -> bool {
    &&& 141 + 16 * l.forged_count <= region.len()
    &&& l.unforged_base + 16 * l.unforged_count <= region.len()
}

/// Locates the item lists of `buf`.
pub fn locate_items(buf: &[u8]) -> (r: Option<ItemLists>)
    ensures
        r == item_lists(buf@),
        r matches Some(l) ==> l.start <= l.end <= buf@.len() && fits(
            buf@.subrange(l.start as int, l.end as int),
            l,
        ),
{
    let start = match find(buf, &FORGED_MARKER) {
        Some(s) => s,
        None => return None,
    };
    let end = match find(buf, &REGION_END_MARKER) {
        Some(e) => e,
        None => return None,
    };
    if start > end {
        return None;
    }
    proof {
        assert(crate::locate::matches_at(buf@, REGION_END_MARKER@, end as int));
    }
    let region = slice_subrange(buf, start, end);
    let nf = match read_u32_le(region, FORGED_COUNT_OFFSET) {
        Some(n) => n as usize,
        None => return None,
    };
    if region.len() < FORGED_LIST_OFFSET || nf > (region.len() - FORGED_LIST_OFFSET) / ID_LEN {
        return None;
    }
    proof {
        assert(16 * nf <= 16 * ((region@.len() - 141) / 16)) by (nonlinear_arith)
            requires
                nf <= (region@.len() - 141) / 16,
        ;
    }
    let (ub, nu) = match find(region, &OWNED_MARKER) {
        None => (0usize, 0usize),
        Some(u) => {
            proof {
                assert(crate::locate::matches_at(region@, OWNED_MARKER@, u as int));
            }
            if region.len() - u < UNFORGED_COUNT_OFFSET + 4 {
                return None;
            }
            let count_at = u + UNFORGED_COUNT_OFFSET;
            let nu = match read_u32_le(region, count_at) {
                Some(n) => n as usize,
                None => return None,
            };
            if region.len() - count_at < UNFORGED_LIST_OFFSET {
                return None;
            }
            let base = count_at + UNFORGED_LIST_OFFSET;
            if nu > (region.len() - base) / ID_LEN {
                return None;
            }
            proof {
                assert(16 * nu <= 16 * ((region@.len() - base) / 16)) by (nonlinear_arith)
                    requires
                        nu <= (region@.len() - base) / 16,
                ;
            }
            (base, nu)
        },
    };
    Some(ItemLists { start, end, forged_count: nf, unforged_base: ub, unforged_count: nu })
}

/// Whether `key` is the hexadecimal form of one of the `count` identifiers
/// that begin at `base` in `region`.
fn listed(region: &[u8], base: usize, count: usize, key: &String) -> (r: bool)
    requires
        base + 16 * count <= region@.len(),
    ensures
        r == lists_key(region@, base as int, count as int, key@),
{
    let n = region.len();
    let mut i: usize = 0;
    while i < count
        invariant
            i <= count,
            n == region@.len(),
            base + 16 * count <= region@.len(),
            forall|j: int| 0 <= j < i ==> hex_upper(#[trigger] id_at(region@, base as int, j)) != key@,
        decreases count - i,
    {
        proof {
            assert(16 * i + 16 <= 16 * count) by (nonlinear_arith)
                requires
                    i < count,
            ;
        }
        let at = base + ID_LEN * i;
        let id = slice_subrange(region, at, at + ID_LEN);
        assert(id@ == id_at(region@, base as int, i as int));
        let text = encode_upper(id);
        if text == *key {
            return true;
        }
        i += 1;
    }
    false
}

/// The state that the lists give the entry keyed `key`.
fn state_of(region: &[u8], l: &ItemLists, key: &String) -> (r: OverclockState)
    requires
        fits(region@, *l),
    ensures
        r == item_state(region@, *l, key@),
{
    if listed(region, l.unforged_base, l.unforged_count, key) {
        OverclockState::Unforged
    } else if listed(region, FORGED_LIST_OFFSET, l.forged_count, key) {
        OverclockState::Forged
    } else {
        OverclockState::Unacquired
    }
}

/// The overclocks of the catalog, each in the state that the lists give it.
pub fn classify_overclocks(entries: &Vec<(String, Overclock)>, region: &[u8], l: &ItemLists) -> (r:
    Vec<(String, Overclock)>)
    requires
        fits(region@, *l),
    ensures
        r@.len() == entries@.len(),
        forall|k: int|
            0 <= k < entries@.len() ==> (#[trigger] r@[k]).0 == entries@[k].0 && r@[k].1
                == overclock_with(entries@[k].1, item_state(region@, *l, entries@[k].0@)),
{
    let mut out: Vec<(String, Overclock)> = Vec::new();
    let mut k: usize = 0;
    while k < entries.len()
        invariant
            k <= entries@.len(),
            fits(region@, *l),
            out@.len() == k,
            forall|j: int|
                0 <= j < k ==> (#[trigger] out@[j]).0 == entries@[j].0 && out@[j].1
                    == overclock_with(entries@[j].1, item_state(region@, *l, entries@[j].0@)),
        decreases entries@.len() - k,
    {
        let entry = &entries[k];
        let st = state_of(region, l, &entry.0);
        out.push((entry.0.clone(), entry.1.with_state(st)));
        k += 1;
    }
    out
}

/// The cosmetics of the catalog, each in the state that the lists give it.
pub fn classify_cosmetics(entries: &Vec<(String, Cosmetic)>, region: &[u8], l: &ItemLists) -> (r:
    Vec<(String, Cosmetic)>)
    requires
        fits(region@, *l),
    ensures
        r@.len() == entries@.len(),
        forall|k: int|
            0 <= k < entries@.len() ==> (#[trigger] r@[k]).0 == entries@[k].0 && r@[k].1
                == cosmetic_with(entries@[k].1, item_state(region@, *l, entries@[k].0@)),
{
    let mut out: Vec<(String, Cosmetic)> = Vec::new();
    let mut k: usize = 0;
    while k < entries.len()
        invariant
            k <= entries@.len(),
            fits(region@, *l),
            out@.len() == k,
            forall|j: int|
                0 <= j < k ==> (#[trigger] out@[j]).0 == entries@[j].0 && out@[j].1
                    == cosmetic_with(entries@[j].1, item_state(region@, *l, entries@[j].0@)),
        decreases entries@.len() - k,
    {
        let entry = &entries[k];
        let st = state_of(region, l, &entry.0);
        out.push((entry.0.clone(), entry.1.with_state(st)));
        k += 1;
    }
    out
}

/// The catalog `c` with every entry in the state that the item lists of `b`
/// give it.
#[verifier::opaque]
pub open spec fn classified(b: Seq<u8>, l: ItemLists, c: MatrixCores, r: MatrixCores) -> bool {
    let region = b.subrange(l.start as int, l.end as int);
    &&& r.overclocks@.len() == c.overclocks@.len()
    &&& r.cosmetics@.len() == c.cosmetics@.len()
    &&& forall|k: int|
        0 <= k < c.overclocks@.len() ==> (#[trigger] r.overclocks@[k]).0 == c.overclocks@[k].0
            && r.overclocks@[k].1 == overclock_with(
            c.overclocks@[k].1,
            item_state(region, l, c.overclocks@[k].0@),
        )
    &&& forall|k: int|
        0 <= k < c.cosmetics@.len() ==> (#[trigger] r.cosmetics@[k]).0 == c.cosmetics@[k].0
            && r.cosmetics@[k].1 == cosmetic_with(
            c.cosmetics@[k].1,
            item_state(region, l, c.cosmetics@[k].0@),
        )
}

/// The catalog with each entry marked forged, unforged or unacquired after the
/// item lists of `buf`; `None` where those lists cannot be located.
pub fn load_matrix_cores(buf: &[u8], catalog: &MatrixCores) -> (r: Option<MatrixCores>)
    ensures
        r is Some <==> item_lists(buf@) is Some,
        r matches Some(m) ==> classified(buf@, item_lists(buf@).unwrap(), *catalog, m),
{
    let l = match locate_items(buf) {
        Some(l) => l,
        None => return None,
    };
    let region = slice_subrange(buf, l.start, l.end);
    let overclocks = classify_overclocks(&catalog.overclocks, region, &l);
    let cosmetics = classify_cosmetics(&catalog.cosmetics, region, &l);
    proof {
        reveal(classified);
    }
    Some(MatrixCores { overclocks, cosmetics })
}

/// The keys of the unforged overclocks, in catalog order.
pub open spec fn unforged_overclock_keys(e: Seq<(String, Overclock)>) -> Seq<Seq<char>>
    decreases e.len(),
{
    if e.len() == 0 {
        Seq::empty()
    } else {
        let rest = unforged_overclock_keys(e.drop_last());
        if e.last().1.state == OverclockState::Unforged {
            rest.push(e.last().0@)
        } else {
            rest
        }
    }
}

/// The keys of the unforged cosmetics, in catalog order.
pub open spec fn unforged_cosmetic_keys(e: Seq<(String, Cosmetic)>) -> Seq<Seq<char>>
    decreases e.len(),
{
    if e.len() == 0 {
        Seq::empty()
    } else {
        let rest = unforged_cosmetic_keys(e.drop_last());
        if e.last().1.state == OverclockState::Unforged {
            rest.push(e.last().0@)
        } else {
            rest
        }
    }
}

/// The identifiers behind `keys`, one after another.
pub open spec fn ids_of(keys: Seq<Seq<char>>) -> Seq<u8>
    decreases keys.len(),
{
    if keys.len() == 0 {
        Seq::empty()
    } else {
        ids_of(keys.drop_last()) + key_id(keys.last())
    }
}

/// How many entries of the catalog are unforged.
pub open spec fn unforged_count(c: MatrixCores) -> int {
    unforged_overclock_keys(c.overclocks@).len() + unforged_cosmetic_keys(c.cosmetics@).len() as int
}

/// Every unforged entry has a key that stands for an identifier, their
/// number fits the count field, and no key appears twice.
pub open spec fn writable(c: MatrixCores) -> bool {
    &&& forall|k: int|
        0 <= k < c.overclocks@.len() && (#[trigger] c.overclocks@[k]).1.state
            == OverclockState::Unforged ==> is_id_key(c.overclocks@[k].0@)
    &&& forall|k: int|
        0 <= k < c.cosmetics@.len() && (#[trigger] c.cosmetics@[k]).1.state
            == OverclockState::Unforged ==> is_id_key(c.cosmetics@[k].0@)
    &&& unforged_count(c) <= u32::MAX
    &&& distinct_keys(c)
}

/// The unforged list as it is written back: nothing where no entry is
/// unforged; else the header, the count, the footer, and the identifiers of
/// the unforged overclocks and then of the unforged cosmetics.
pub open spec fn unforged_block(c: MatrixCores) -> Seq<u8> {
    if unforged_count(c) == 0 {
        Seq::empty()
    } else {
        UNFORGED_HEADER@ + u32_bytes(unforged_count(c) as u32) + UNFORGED_FOOTER@ + ids_of(
            unforged_overclock_keys(c.overclocks@),
        ) + ids_of(unforged_cosmetic_keys(c.cosmetics@))
    }
}

/// Where the kept prefix ends (just past the forged list) and where the kept
/// tail begins (at the marker that follows the region).
pub open spec fn splice_points(b: Seq<u8>) -> Option<(int, int)> {
    match (first_match(b, FORGED_MARKER@), first_match(b, REGION_END_MARKER@)) {
        (Some(s), Some(e)) => match u32_at(b, s + 63) {
            Some(nf) => if s + 141 + 16 * nf <= e {
                Some((s + 141 + 16 * nf, e))
            } else {
                None
            },
            None => None,
        },
        _ => None,
    }
}

/// `b` with its unforged list rebuilt from `c`.
pub open spec fn spliced(b: Seq<u8>, c: MatrixCores) -> Result<Seq<u8>, SaveError> {
    match splice_points(b) {
        None => Err(SaveError::Format),
        Some((p, e)) => if writable(c) {
            Ok(b.subrange(0, p) + unforged_block(c) + b.subrange(e, b.len() as int))
        } else {
            Err(SaveError::Catalog)
        },
    }
}

/// An unforged overclock is among the unforged keys.
proof fn lemma_unforged_overclock_listed(e: Seq<(String, Overclock)>, k: int)
    requires
        0 <= k < e.len(),
        e[k].1.state == OverclockState::Unforged,
    ensures
        unforged_overclock_keys(e).len() > 0,
    decreases e.len(),
{
    if k < e.len() - 1 {
        lemma_unforged_overclock_listed(e.drop_last(), k);
    }
}

/// An unforged cosmetic is among the unforged keys.
proof fn lemma_unforged_cosmetic_listed(e: Seq<(String, Cosmetic)>, k: int)
    requires
        0 <= k < e.len(),
        e[k].1.state == OverclockState::Unforged,
    ensures
        unforged_cosmetic_keys(e).len() > 0,
    decreases e.len(),
{
    if k < e.len() - 1 {
        lemma_unforged_cosmetic_listed(e.drop_last(), k);
    }
}

/// Appends the bytes of `src` to `out`.
pub fn append(out: &mut Vec<u8>, src: &[u8])
    ensures
        final(out)@ == old(out)@ + src@,
{
    let mut i: usize = 0;
    while i < src.len()
        invariant
            i <= src@.len(),
            out@ == old(out)@ + src@.subrange(0, i as int),
        decreases src@.len() - i,
    {
        out.push(src[i]);
        i += 1;
        assert(out@ =~= old(out)@ + src@.subrange(0, i as int));
    }
    assert(src@.subrange(0, src@.len() as int) =~= src@);
}

/// How many overclocks and how many cosmetics are unforged.
fn count_unforged(c: &MatrixCores) -> (r: (usize, usize))
    ensures
        r.0 == unforged_overclock_keys(c.overclocks@).len(),
        r.1 == unforged_cosmetic_keys(c.cosmetics@).len(),
{
    let mut n: usize = 0;
    let mut k: usize = 0;
    while k < c.overclocks.len()
        invariant
            k <= c.overclocks@.len(),
            n <= k,
            n == unforged_overclock_keys(c.overclocks@.take(k as int)).len(),
        decreases c.overclocks@.len() - k,
    {
        assert(c.overclocks@.take(k + 1).drop_last() =~= c.overclocks@.take(k as int));
        if c.overclocks[k].1.state == OverclockState::Unforged {
            n += 1;
        }
        k += 1;
    }
    assert(c.overclocks@.take(k as int) =~= c.overclocks@);
    let mut m: usize = 0;
    let mut k: usize = 0;
    while k < c.cosmetics.len()
        invariant
            k <= c.cosmetics@.len(),
            m <= k,
            m == unforged_cosmetic_keys(c.cosmetics@.take(k as int)).len(),
        decreases c.cosmetics@.len() - k,
    {
        assert(c.cosmetics@.take(k + 1).drop_last() =~= c.cosmetics@.take(k as int));
        if c.cosmetics[k].1.state == OverclockState::Unforged {
            m += 1;
        }
        k += 1;
    }
    assert(c.cosmetics@.take(k as int) =~= c.cosmetics@);
    (n, m)
}

/// Appends the identifiers of the unforged overclocks; `false`, with `out`
/// in no particular state, where one of their keys stands for no identifier.
fn append_overclock_ids(out: &mut Vec<u8>, e: &Vec<(String, Overclock)>) -> (r: bool)
    ensures
        r <==> forall|k: int|
            0 <= k < e@.len() && (#[trigger] e@[k]).1.state == OverclockState::Unforged
                ==> is_id_key(e@[k].0@),
        r ==> final(out)@ == old(out)@ + ids_of(unforged_overclock_keys(e@)),
{
    let mut k: usize = 0;
    while k < e.len()
        invariant
            k <= e@.len(),
            out@ == old(out)@ + ids_of(unforged_overclock_keys(e@.take(k as int))),
            forall|j: int|
                0 <= j < k && (#[trigger] e@[j]).1.state == OverclockState::Unforged ==> is_id_key(
                    e@[j].0@,
                ),
        decreases e@.len() - k,
    {
        assert(e@.take(k + 1).drop_last() =~= e@.take(k as int));
        if e[k].1.state == OverclockState::Unforged {
            match key_to_id(&e[k].0) {
                Some(id) => {
                    let ghost rest = unforged_overclock_keys(e@.take(k as int));
                    assert(rest.push(e@[k as int].0@).drop_last() =~= rest);
                    append(out, id.as_slice());
                    assert(out@ =~= old(out)@ + ids_of(unforged_overclock_keys(e@.take(k + 1))));
                },
                None => return false,
            }
        }
        k += 1;
    }
    assert(e@.take(k as int) =~= e@);
    true
}

/// Appends the identifiers of the unforged cosmetics; `false`, with `out`
/// in no particular state, where one of their keys stands for no identifier.
fn append_cosmetic_ids(out: &mut Vec<u8>, e: &Vec<(String, Cosmetic)>) -> (r: bool)
    ensures
        r <==> forall|k: int|
            0 <= k < e@.len() && (#[trigger] e@[k]).1.state == OverclockState::Unforged
                ==> is_id_key(e@[k].0@),
        r ==> final(out)@ == old(out)@ + ids_of(unforged_cosmetic_keys(e@)),
{
    let mut k: usize = 0;
    while k < e.len()
        invariant
            k <= e@.len(),
            out@ == old(out)@ + ids_of(unforged_cosmetic_keys(e@.take(k as int))),
            forall|j: int|
                0 <= j < k && (#[trigger] e@[j]).1.state == OverclockState::Unforged ==> is_id_key(
                    e@[j].0@,
                ),
        decreases e@.len() - k,
    {
        assert(e@.take(k + 1).drop_last() =~= e@.take(k as int));
        if e[k].1.state == OverclockState::Unforged {
            match key_to_id(&e[k].0) {
                Some(id) => {
                    let ghost rest = unforged_cosmetic_keys(e@.take(k as int));
                    assert(rest.push(e@[k as int].0@).drop_last() =~= rest);
                    append(out, id.as_slice());
                    assert(out@ =~= old(out)@ + ids_of(unforged_cosmetic_keys(e@.take(k + 1))));
                },
                None => return false,
            }
        }
        k += 1;
    }
    assert(e@.take(k as int) =~= e@);
    true
}

/// Appends the unforged list that `c` calls for; `false`, with `out` in no
/// particular state, where `c` cannot be written.
fn append_unforged_block(out: &mut Vec<u8>, c: &MatrixCores) -> (r: bool)
    ensures
        r == writable(*c),
        r ==> final(out)@ == old(out)@ + unforged_block(*c),
{
    if !keys_distinct(c) {
        return false;
    }
    let (n, m) = count_unforged(c);
    if n > 0xFFFF_FFFF || m > 0xFFFF_FFFF - n {
        return false;
    }
    if n + m == 0 {
        proof {
            assert forall|k: int|
                0 <= k < c.overclocks@.len() implies (#[trigger] c.overclocks@[k]).1.state
                != OverclockState::Unforged by {
                if c.overclocks@[k].1.state == OverclockState::Unforged {
                    lemma_unforged_overclock_listed(c.overclocks@, k);
                }
            }
            assert forall|k: int|
                0 <= k < c.cosmetics@.len() implies (#[trigger] c.cosmetics@[k]).1.state
                != OverclockState::Unforged by {
                if c.cosmetics@[k].1.state == OverclockState::Unforged {
                    lemma_unforged_cosmetic_listed(c.cosmetics@, k);
                }
            }
        }
        assert(out@ =~= old(out)@ + unforged_block(*c));
        return true;
    }
    append(out, &UNFORGED_HEADER);
    let count = u32_le_bytes((n + m) as u32);
    append(out, count.as_slice());
    append(out, &UNFORGED_FOOTER);
    let ghost mid = out@;
    if !append_overclock_ids(out, &c.overclocks) {
        return false;
    }
    if !append_cosmetic_ids(out, &c.cosmetics) {
        return false;
    }
    assert(out@ =~= old(out)@ + unforged_block(*c));
    true
}

/// `buf` with its unforged list rebuilt from the states of `catalog`: the
/// bytes up to the end of the forged list and from the region's end marker on
/// are kept as they are.
pub fn save_matrix_cores(buf: &[u8], catalog: &MatrixCores) -> (r: Result<Vec<u8>, SaveError>)
    ensures
        match r {
            Ok(v) => spliced(buf@, *catalog) == Ok::<Seq<u8>, SaveError>(v@),
            Err(e) => spliced(buf@, *catalog) == Err::<Seq<u8>, SaveError>(e),
        },
{
    let start = match find(buf, &FORGED_MARKER) {
        Some(s) => s,
        None => return Err(SaveError::Format),
    };
    let end = match find(buf, &REGION_END_MARKER) {
        Some(e) => e,
        None => return Err(SaveError::Format),
    };
    proof {
        assert(crate::locate::matches_at(buf@, REGION_END_MARKER@, end as int));
    }
    if buf.len() - start < FORGED_COUNT_OFFSET {
        return Err(SaveError::Format);
    }
    let nf = match read_u32_le(buf, start + FORGED_COUNT_OFFSET) {
        Some(n) => n as usize,
        None => return Err(SaveError::Format),
    };
    if end < start || end - start < FORGED_LIST_OFFSET || nf > (end - start - FORGED_LIST_OFFSET)
        / ID_LEN {
        return Err(SaveError::Format);
    }
    proof {
        assert(16 * nf <= 16 * ((end - start - 141) / 16)) by (nonlinear_arith)
            requires
                nf <= (end - start - 141) / 16,
        ;
    }
    let keep = start + FORGED_LIST_OFFSET + ID_LEN * nf;
    let mut out: Vec<u8> = Vec::new();
    append(&mut out, slice_subrange(buf, 0, keep));
    if !append_unforged_block(&mut out, catalog) {
        return Err(SaveError::Catalog);
    }
    append(&mut out, slice_subrange(buf, end, buf.len()));
    assert(out@ =~= buf@.subrange(0, keep as int) + unforged_block(*catalog) + buf@.subrange(
        end as int,
        buf@.len() as int,
    ));
    Ok(out)
}

/// No more overclocks are unforged than there are overclocks.
proof fn lemma_unforged_overclocks_bound(e: Seq<(String, Overclock)>)
    ensures
        unforged_overclock_keys(e).len() <= e.len(),
    decreases e.len(),
{
    if e.len() > 0 {
        lemma_unforged_overclocks_bound(e.drop_last());
    }
}

/// No more cosmetics are unforged than there are cosmetics.
proof fn lemma_unforged_cosmetics_bound(e: Seq<(String, Cosmetic)>)
    ensures
        unforged_cosmetic_keys(e).len() <= e.len(),
    decreases e.len(),
{
    if e.len() > 0 {
        lemma_unforged_cosmetics_bound(e.drop_last());
    }
}

/// An entry that the lists of `l` mark unforged has a key that stands for
/// an identifier.
proof fn lemma_unforged_key_valid(region: Seq<u8>, l: ItemLists, key: Seq<char>)
    requires
        fits(region, l),
        item_state(region, l, key) == OverclockState::Unforged,
    ensures
        is_id_key(key),
{
    let i = choose|i: int|
        0 <= i < l.unforged_count && hex_upper(
            #[trigger] id_at(region, l.unforged_base as int, i),
        ) == key;
    assert(16 * i + 16 <= 16 * l.unforged_count) by (nonlinear_arith)
        requires
            0 <= i < l.unforged_count,
    ;
    crate::catalog::lemma_hex_id_key(id_at(region, l.unforged_base as int, i));
}

/// The located item lists lie inside the buffer, and their lists inside the
/// region.
pub proof fn lemma_item_lists_inside(b: Seq<u8>)
    requires
        b.len() <= usize::MAX,
        item_lists(b) is Some,
    ensures
        first_match(b, FORGED_MARKER@) == Some(item_lists(b).unwrap().start as int),
        first_match(b, REGION_END_MARKER@) == Some(item_lists(b).unwrap().end as int),
        item_lists(b).unwrap().start <= item_lists(b).unwrap().end <= b.len(),
        fits(
            b.subrange(item_lists(b).unwrap().start as int, item_lists(b).unwrap().end as int),
            item_lists(b).unwrap(),
        ),
{
    crate::locate::lemma_first_match_found(b, FORGED_MARKER@);
    crate::locate::lemma_first_match_found(b, REGION_END_MARKER@);
}

/// A catalog just classified against a buffer can be written back, given
/// that its size fits the count field.
pub proof fn lemma_classified_writable(b: Seq<u8>, c: MatrixCores, m: MatrixCores)
    requires
        b.len() <= usize::MAX,
        item_lists(b) is Some,
        classified(b, item_lists(b).unwrap(), c, m),
        c.overclocks@.len() + c.cosmetics@.len() <= u32::MAX,
        distinct_keys(c),
    ensures
        writable(m),
{
    reveal(classified);
    let l = item_lists(b).unwrap();
    lemma_item_lists_inside(b);
    let region = b.subrange(l.start as int, l.end as int);
    assert forall|k: int|
        0 <= k < m.overclocks@.len() && (#[trigger] m.overclocks@[k]).1.state
            == OverclockState::Unforged implies is_id_key(m.overclocks@[k].0@) by {
        lemma_unforged_key_valid(region, l, c.overclocks@[k].0@);
    }
    assert forall|k: int|
        0 <= k < m.cosmetics@.len() && (#[trigger] m.cosmetics@[k]).1.state
            == OverclockState::Unforged implies is_id_key(m.cosmetics@[k].0@) by {
        lemma_unforged_key_valid(region, l, c.cosmetics@[k].0@);
    }
    lemma_unforged_overclocks_bound(m.overclocks@);
    lemma_unforged_cosmetics_bound(m.cosmetics@);
    assert(distinct_keys(m)) by {
        assert forall|i: int, j: int|
            0 <= i < m.overclocks@.len() && 0 <= j < m.overclocks@.len() && i != j
                implies (#[trigger] m.overclocks@[i]).0@ != (#[trigger] m.overclocks@[j]).0@ by {
            assert(c.overclocks@[i].0@ != c.overclocks@[j].0@);
        }
        assert forall|i: int, j: int|
            0 <= i < m.cosmetics@.len() && 0 <= j < m.cosmetics@.len() && i != j
                implies (#[trigger] m.cosmetics@[i]).0@ != (#[trigger] m.cosmetics@[j]).0@ by {
            assert(c.cosmetics@[i].0@ != c.cosmetics@[j].0@);
        }
        assert forall|i: int, j: int|
            0 <= i < m.overclocks@.len() && 0 <= j < m.cosmetics@.len()
                implies (#[trigger] m.overclocks@[i]).0@ != (#[trigger] m.cosmetics@[j]).0@ by {
            assert(c.overclocks@[i].0@ != c.cosmetics@[j].0@);
        }
    }
}

/// Where the item lists can be located, so can the points at which the
/// unforged list is spliced in.
pub proof fn lemma_item_lists_splice(b: Seq<u8>)
    requires
        b.len() <= usize::MAX,
        item_lists(b) is Some,
    ensures
        splice_points(b) == Some(
            (
                item_lists(b).unwrap().start + 141 + 16 * item_lists(b).unwrap().forged_count,
                item_lists(b).unwrap().end as int,
            ),
        ),
{
    let l = item_lists(b).unwrap();
    let s = first_match(b, FORGED_MARKER@).unwrap();
    let e = first_match(b, REGION_END_MARKER@).unwrap();
    lemma_item_lists_inside(b);
    let region = b.subrange(s, e);
    assert(region[63] == b[s + 63] && region[64] == b[s + 64] && region[65] == b[s + 65]
        && region[66] == b[s + 66]);
    assert(u32_at(b, s + 63) == u32_at(region, 63));
}

/// The unforged overclock keys of two lists one after the other are those of
/// the first, then those of the second.
proof fn lemma_unforged_overclock_keys_concat(a: Seq<(String, Overclock)>, b: Seq<(String, Overclock)>)
    ensures
        unforged_overclock_keys(a + b) == unforged_overclock_keys(a) + unforged_overclock_keys(b),
    decreases b.len(),
{
    if b.len() == 0 {
        assert(a + b =~= a);
        assert(unforged_overclock_keys(a) + unforged_overclock_keys(b) =~= unforged_overclock_keys(a));
    } else {
        assert((a + b).drop_last() =~= a + b.drop_last());
        lemma_unforged_overclock_keys_concat(a, b.drop_last());
        let ka = unforged_overclock_keys(a);
        let kb = unforged_overclock_keys(b.drop_last());
        assert((ka + kb).push(b.last().0@) =~= ka + kb.push(b.last().0@));
    }
}

/// Marking unforged overclock `k` forged takes its key out of the keys that
/// are written back and keeps every other key, in order; the block written
/// back then counts one identifier less.
pub proof fn lemma_overclock_forged(e: Seq<(String, Overclock)>, k: int)
    requires
        0 <= k < e.len(),
        e[k].1.state == OverclockState::Unforged,
    ensures
        unforged_overclock_keys(e) == unforged_overclock_keys(e.take(k)).push(e[k].0@)
            + unforged_overclock_keys(e.skip(k + 1)),
        unforged_overclock_keys(e.update(k, (e[k].0, overclock_with(e[k].1, OverclockState::Forged))))
            == unforged_overclock_keys(e.take(k)) + unforged_overclock_keys(e.skip(k + 1)),
        unforged_overclock_keys(e.update(k, (e[k].0, overclock_with(e[k].1, OverclockState::Forged)))).len()
            == unforged_overclock_keys(e).len() - 1,
{
    let x = e[k];
    let y = (e[k].0, overclock_with(e[k].1, OverclockState::Forged));
    let f = e.update(k, y);
    assert(e =~= (e.take(k) + seq![x]) + e.skip(k + 1));
    assert(f =~= (e.take(k) + seq![y]) + e.skip(k + 1));
    assert((e.take(k) + seq![x]).drop_last() =~= e.take(k));
    assert((e.take(k) + seq![y]).drop_last() =~= e.take(k));
    lemma_unforged_overclock_keys_concat(e.take(k) + seq![x], e.skip(k + 1));
    lemma_unforged_overclock_keys_concat(e.take(k) + seq![y], e.skip(k + 1));
}

/// The unforged cosmetic keys of two lists one after the other are those of
/// the first, then those of the second.
proof fn lemma_unforged_cosmetic_keys_concat(a: Seq<(String, Cosmetic)>, b: Seq<(String, Cosmetic)>)
    ensures
        unforged_cosmetic_keys(a + b) == unforged_cosmetic_keys(a) + unforged_cosmetic_keys(b),
    decreases b.len(),
{
    if b.len() == 0 {
        assert(a + b =~= a);
        assert(unforged_cosmetic_keys(a) + unforged_cosmetic_keys(b) =~= unforged_cosmetic_keys(a));
    } else {
        assert((a + b).drop_last() =~= a + b.drop_last());
        lemma_unforged_cosmetic_keys_concat(a, b.drop_last());
        let ka = unforged_cosmetic_keys(a);
        let kb = unforged_cosmetic_keys(b.drop_last());
        assert((ka + kb).push(b.last().0@) =~= ka + kb.push(b.last().0@));
    }
}

/// Marking unforged cosmetic `k` forged takes its key out of the keys that
/// are written back and keeps every other key, in order; the block written
/// back then counts one identifier less.
pub proof fn lemma_cosmetic_forged(e: Seq<(String, Cosmetic)>, k: int)
    requires
        0 <= k < e.len(),
        e[k].1.state == OverclockState::Unforged,
    ensures
        unforged_cosmetic_keys(e) == unforged_cosmetic_keys(e.take(k)).push(e[k].0@)
            + unforged_cosmetic_keys(e.skip(k + 1)),
        unforged_cosmetic_keys(e.update(k, (e[k].0, cosmetic_with(e[k].1, OverclockState::Forged))))
            == unforged_cosmetic_keys(e.take(k)) + unforged_cosmetic_keys(e.skip(k + 1)),
        unforged_cosmetic_keys(e.update(k, (e[k].0, cosmetic_with(e[k].1, OverclockState::Forged)))).len()
            == unforged_cosmetic_keys(e).len() - 1,
{
    let x = e[k];
    let y = (e[k].0, cosmetic_with(e[k].1, OverclockState::Forged));
    let f = e.update(k, y);
    assert(e =~= (e.take(k) + seq![x]) + e.skip(k + 1));
    assert(f =~= (e.take(k) + seq![y]) + e.skip(k + 1));
    assert((e.take(k) + seq![x]).drop_last() =~= e.take(k));
    assert((e.take(k) + seq![y]).drop_last() =~= e.take(k));
    lemma_unforged_cosmetic_keys_concat(e.take(k) + seq![x], e.skip(k + 1));
    lemma_unforged_cosmetic_keys_concat(e.take(k) + seq![y], e.skip(k + 1));
}

/// Every key of `keys` stands for an identifier.
pub open spec fn all_id_keys(keys: Seq<Seq<char>>) -> bool {
    forall|k: int| 0 <= k < keys.len() ==> is_id_key(#[trigger] keys[k])
}

/// The identifiers of two key lists one after the other.
pub proof fn lemma_ids_of_concat(a: Seq<Seq<char>>, b: Seq<Seq<char>>)
    ensures
        ids_of(a + b) == ids_of(a) + ids_of(b),
    decreases b.len(),
{
    if b.len() == 0 {
        assert(a + b =~= a);
        assert(ids_of(a) + ids_of(b) =~= ids_of(a));
    } else {
        assert((a + b).drop_last() =~= a + b.drop_last());
        lemma_ids_of_concat(a, b.drop_last());
        assert((ids_of(a) + ids_of(b.drop_last())) + key_id(b.last()) =~= ids_of(a) + (ids_of(
            b.drop_last(),
        ) + key_id(b.last())));
    }
}

/// Valid keys without their last one are still valid.
proof fn lemma_all_id_keys_init(keys: Seq<Seq<char>>)
    requires
        all_id_keys(keys),
        keys.len() > 0,
    ensures
        all_id_keys(keys.drop_last()),
        key_id(keys.last()).len() == 16,
{
    let init = keys.drop_last();
    assert forall|k: int| 0 <= k < init.len() implies is_id_key(#[trigger] init[k]) by {
        assert(init[k] == keys[k]);
    }
    assert(is_id_key(keys[keys.len() - 1]));
}

/// Valid keys stand for 16 bytes each.
pub proof fn lemma_ids_of_len(keys: Seq<Seq<char>>)
    requires
        all_id_keys(keys),
    ensures
        ids_of(keys).len() == 16 * keys.len(),
    decreases keys.len(),
{
    if keys.len() > 0 {
        lemma_all_id_keys_init(keys);
        lemma_ids_of_len(keys.drop_last());
    }
}

/// Identifier `i` of the identifiers of valid keys is that of key `i`.
pub proof fn lemma_ids_of_index(keys: Seq<Seq<char>>, i: int)
    requires
        all_id_keys(keys),
        0 <= i < keys.len(),
    ensures
        ids_of(keys).subrange(16 * i, 16 * i + 16) == key_id(keys[i]),
    decreases keys.len(),
{
    let init = keys.drop_last();
    lemma_all_id_keys_init(keys);
    lemma_ids_of_len(init);
    let head = ids_of(init);
    assert(ids_of(keys) == head + key_id(keys.last()));
    if i < init.len() {
        lemma_ids_of_index(init, i);
        assert(16 * i + 16 <= 16 * init.len()) by (nonlinear_arith)
            requires
                i < init.len(),
        ;
        assert((head + key_id(keys.last())).subrange(16 * i, 16 * i + 16) =~= head.subrange(
            16 * i,
            16 * i + 16,
        ));
        assert(init[i] == keys[i]);
    } else {
        assert((head + key_id(keys.last())).subrange(16 * i, 16 * i + 16) =~= key_id(keys[i]));
    }
}

/// The unforged overclock keys are the keys of the unforged overclocks.
pub proof fn lemma_unforged_overclock_member(e: Seq<(String, Overclock)>, k: Seq<char>)
    ensures
        unforged_overclock_keys(e).contains(k) <==> exists|j: int|
            0 <= j < e.len() && (#[trigger] e[j]).1.state == OverclockState::Unforged && e[j].0@
                == k,
    decreases e.len(),
{
    if e.len() > 0 {
        let init = e.drop_last();
        let rest = unforged_overclock_keys(init);
        lemma_unforged_overclock_member(init, k);
        let last_in = e.last().1.state == OverclockState::Unforged;
        if unforged_overclock_keys(e).contains(k) {
            let x = choose|x: int|
                0 <= x < unforged_overclock_keys(e).len() && unforged_overclock_keys(e)[x] == k;
            if last_in && x == rest.len() {
                assert(e[e.len() - 1].1.state == OverclockState::Unforged && e[e.len() - 1].0@ == k);
            } else {
                assert(rest[x] == k);
                assert(rest.contains(k));
                let j = choose|j: int|
                    0 <= j < init.len() && (#[trigger] init[j]).1.state == OverclockState::Unforged
                        && init[j].0@ == k;
                assert(e[j] == init[j]);
            }
        }
        if exists|j: int|
            0 <= j < e.len() && (#[trigger] e[j]).1.state == OverclockState::Unforged && e[j].0@
                == k {
            let j = choose|j: int|
                0 <= j < e.len() && (#[trigger] e[j]).1.state == OverclockState::Unforged && e[j].0@
                    == k;
            if j < e.len() - 1 {
                assert(init[j] == e[j]);
                assert(rest.contains(k));
                let x = choose|x: int| 0 <= x < rest.len() && rest[x] == k;
                if last_in {
                    assert(rest.push(e.last().0@)[x] == k);
                }
                assert(unforged_overclock_keys(e)[x] == k);
            } else {
                assert(unforged_overclock_keys(e)[rest.len() as int] == k);
            }
        }
    }
}


/// The unforged cosmetic keys are the keys of the unforged cosmetics.
pub proof fn lemma_unforged_cosmetic_member(e: Seq<(String, Cosmetic)>, k: Seq<char>)
    ensures
        unforged_cosmetic_keys(e).contains(k) <==> exists|j: int|
            0 <= j < e.len() && (#[trigger] e[j]).1.state == OverclockState::Unforged && e[j].0@
                == k,
    decreases e.len(),
{
    if e.len() > 0 {
        let init = e.drop_last();
        let rest = unforged_cosmetic_keys(init);
        lemma_unforged_cosmetic_member(init, k);
        let last_in = e.last().1.state == OverclockState::Unforged;
        if unforged_cosmetic_keys(e).contains(k) {
            let x = choose|x: int|
                0 <= x < unforged_cosmetic_keys(e).len() && unforged_cosmetic_keys(e)[x] == k;
            if last_in && x == rest.len() {
                assert(e[e.len() - 1].1.state == OverclockState::Unforged && e[e.len() - 1].0@ == k);
            } else {
                assert(rest[x] == k);
                assert(rest.contains(k));
                let j = choose|j: int|
                    0 <= j < init.len() && (#[trigger] init[j]).1.state == OverclockState::Unforged
                        && init[j].0@ == k;
                assert(e[j] == init[j]);
            }
        }
        if exists|j: int|
            0 <= j < e.len() && (#[trigger] e[j]).1.state == OverclockState::Unforged && e[j].0@
                == k {
            let j = choose|j: int|
                0 <= j < e.len() && (#[trigger] e[j]).1.state == OverclockState::Unforged && e[j].0@
                    == k;
            if j < e.len() - 1 {
                assert(init[j] == e[j]);
                assert(rest.contains(k));
                let x = choose|x: int| 0 <= x < rest.len() && rest[x] == k;
                if last_in {
                    assert(rest.push(e.last().0@)[x] == k);
                }
                assert(unforged_cosmetic_keys(e)[x] == k);
            } else {
                assert(unforged_cosmetic_keys(e)[rest.len() as int] == k);
            }
        }
    }
}


/// Two overclock lists with the same keys and the same unforged entries have
/// the same unforged keys.
pub proof fn lemma_unforged_overclocks_same(a: Seq<(String, Overclock)>, b: Seq<(String, Overclock)>)
    requires
        a.len() == b.len(),
        forall|j: int|
            0 <= j < a.len() ==> (#[trigger] a[j]).0@ == b[j].0@ && (a[j].1.state
                == OverclockState::Unforged) == (b[j].1.state == OverclockState::Unforged),
    ensures
        unforged_overclock_keys(a) == unforged_overclock_keys(b),
    decreases a.len(),
{
    if a.len() > 0 {
        assert(a[a.len() - 1].0@ == b[b.len() - 1].0@);
        lemma_unforged_overclocks_same(a.drop_last(), b.drop_last());
    }
}

/// Two cosmetic lists with the same keys and the same unforged entries have
/// the same unforged keys.
pub proof fn lemma_unforged_cosmetics_same(a: Seq<(String, Cosmetic)>, b: Seq<(String, Cosmetic)>)
    requires
        a.len() == b.len(),
        forall|j: int|
            0 <= j < a.len() ==> (#[trigger] a[j]).0@ == b[j].0@ && (a[j].1.state
                == OverclockState::Unforged) == (b[j].1.state == OverclockState::Unforged),
    ensures
        unforged_cosmetic_keys(a) == unforged_cosmetic_keys(b),
    decreases a.len(),
{
    if a.len() > 0 {
        assert(a[a.len() - 1].0@ == b[b.len() - 1].0@);
        lemma_unforged_cosmetics_same(a.drop_last(), b.drop_last());
    }
}

/// The keys of the unforged entries in the order they are written back.
pub open spec fn unforged_keys(c: MatrixCores) -> Seq<Seq<char>> {
    unforged_overclock_keys(c.overclocks@) + unforged_cosmetic_keys(c.cosmetics@)
}

/// No key of `c` appears twice, within a list or across the two.
pub open spec fn distinct_keys(c: MatrixCores) -> bool {
    &&& forall|i: int, j: int|
        0 <= i < c.overclocks@.len() && 0 <= j < c.overclocks@.len() && i != j
            ==> (#[trigger] c.overclocks@[i]).0@ != (#[trigger] c.overclocks@[j]).0@
    &&& forall|i: int, j: int|
        0 <= i < c.cosmetics@.len() && 0 <= j < c.cosmetics@.len() && i != j
            ==> (#[trigger] c.cosmetics@[i]).0@ != (#[trigger] c.cosmetics@[j]).0@
    &&& forall|i: int, j: int|
        0 <= i < c.overclocks@.len() && 0 <= j < c.cosmetics@.len()
            ==> (#[trigger] c.overclocks@[i]).0@ != (#[trigger] c.cosmetics@[j]).0@
}

/// `c` and `d` list the same keys in the same order.
pub open spec fn same_keys(c: MatrixCores, d: MatrixCores) -> bool {
    &&& c.overclocks@.len() == d.overclocks@.len()
    &&& c.cosmetics@.len() == d.cosmetics@.len()
    &&& forall|j: int|
        0 <= j < c.overclocks@.len() ==> (#[trigger] c.overclocks@[j]).0@ == d.overclocks@[j].0@
    &&& forall|j: int|
        0 <= j < c.cosmetics@.len() ==> (#[trigger] c.cosmetics@[j]).0@ == d.cosmetics@[j].0@
}

/// The keys written back by a writable catalog all stand for identifiers,
/// and the block holds the header, count, footer and their identifiers.
pub proof fn lemma_written_keys(m: MatrixCores)
    requires
        writable(m),
    ensures
        all_id_keys(unforged_keys(m)),
        unforged_keys(m).len() == unforged_count(m),
        unforged_count(m) > 0 ==> unforged_block(m) == UNFORGED_HEADER@ + u32_bytes(
            unforged_count(m) as u32,
        ) + UNFORGED_FOOTER@ + ids_of(unforged_keys(m)),
        unforged_block(m).len() == if unforged_count(m) == 0 {
            0
        } else {
            143 + 16 * unforged_count(m)
        },
{
    let ko = unforged_overclock_keys(m.overclocks@);
    let kc = unforged_cosmetic_keys(m.cosmetics@);
    let k = unforged_keys(m);
    assert forall|x: int| 0 <= x < k.len() implies is_id_key(#[trigger] k[x]) by {
        if x < ko.len() {
            assert(ko.contains(k[x]));
            lemma_unforged_overclock_member(m.overclocks@, k[x]);
        } else {
            assert(kc[x - ko.len()] == k[x]);
            assert(kc.contains(k[x]));
            lemma_unforged_cosmetic_member(m.cosmetics@, k[x]);
        }
    }
    lemma_ids_of_concat(ko, kc);
    lemma_ids_of_len(k);
}

/// Where the block of `m` stands at `p` in `b`, and `l` locates the
/// unforged list just past its footer, identifier `i` read back from the
/// region is that of unforged key `i`.
pub proof fn lemma_block_read_back(b: Seq<u8>, p: int, m: MatrixCores, l: ItemLists, i: int)
    requires
        writable(m),
        0 <= l.start <= p,
        p + unforged_block(m).len() <= l.end <= b.len(),
        b.subrange(p, p + unforged_block(m).len()) == unforged_block(m),
        l.start + l.unforged_base == p + 143,
        0 <= i < unforged_count(m),
    ensures
        id_at(b.subrange(l.start as int, l.end as int), l.unforged_base as int, i) == key_id(
            unforged_keys(m)[i],
        ),
{
    lemma_written_keys(m);
    let k = unforged_keys(m);
    let blk = unforged_block(m);
    lemma_ids_of_index(k, i);
    assert(16 * i + 16 <= 16 * k.len()) by (nonlinear_arith)
        requires
            i < k.len(),
    ;
    let region = b.subrange(l.start as int, l.end as int);
    assert(id_at(region, l.unforged_base as int, i) =~= blk.subrange(143 + 16 * i, 159 + 16 * i))
        by {
        assert forall|x: int| 0 <= x < 16 implies id_at(region, l.unforged_base as int, i)[x]
            == blk[143 + 16 * i + x] by {
            assert(b.subrange(p, p + blk.len())[143 + 16 * i + x] == b[p + 143 + 16 * i + x]);
        }
    }
    assert(blk.subrange(143 + 16 * i, 159 + 16 * i) =~= ids_of(k).subrange(16 * i, 16 * i + 16));
}

/// In a catalog `m` with the keys of `c`, all distinct, `key` is among the
/// keys written back exactly when the entry with that key is unforged.
proof fn lemma_written_key(c: MatrixCores, m: MatrixCores, key: Seq<char>)
    requires
        same_keys(c, m),
        distinct_keys(c),
    ensures
        forall|j: int|
            0 <= j < c.overclocks@.len() && (#[trigger] c.overclocks@[j]).0@ == key
                ==> (unforged_keys(m).contains(key) <==> m.overclocks@[j].1.state
                == OverclockState::Unforged),
        forall|j: int|
            0 <= j < c.cosmetics@.len() && (#[trigger] c.cosmetics@[j]).0@ == key
                ==> (unforged_keys(m).contains(key) <==> m.cosmetics@[j].1.state
                == OverclockState::Unforged),
{
    let k = unforged_keys(m);
    let ko = unforged_overclock_keys(m.overclocks@);
    let kc = unforged_cosmetic_keys(m.cosmetics@);
        lemma_unforged_overclock_member(m.overclocks@, key);
        lemma_unforged_cosmetic_member(m.cosmetics@, key);
        assert(k.contains(key) <==> ko.contains(key) || kc.contains(key)) by {
            if k.contains(key) {
                let x = choose|x: int| 0 <= x < k.len() && k[x] == key;
                if x >= ko.len() {
                    assert(kc[x - ko.len()] == key);
                }
            }
            if ko.contains(key) {
                let x = choose|x: int| 0 <= x < ko.len() && ko[x] == key;
                assert(k[x] == key);
            }
            if kc.contains(key) {
                let x = choose|x: int| 0 <= x < kc.len() && kc[x] == key;
                assert(k[x + ko.len()] == key);
            }
        }
        if ko.contains(key) {
            let j2 = choose|j2: int|
                0 <= j2 < m.overclocks@.len() && (#[trigger] m.overclocks@[j2]).1.state
                    == OverclockState::Unforged && m.overclocks@[j2].0@ == key;
            assert(c.overclocks@[j2].0@ == key);
        }
        if kc.contains(key) {
            let j2 = choose|j2: int|
                0 <= j2 < m.cosmetics@.len() && (#[trigger] m.cosmetics@[j2]).1.state
                    == OverclockState::Unforged && m.cosmetics@[j2].0@ == key;
            assert(c.cosmetics@[j2].0@ == key);
        }
}

/// Entries re-read from a buffer whose unforged list holds exactly the
/// identifiers of the unforged entries of `m` (with the same keys as `c`,
/// all distinct) are unforged exactly where they were in `m`, so the same
/// block is written back.
pub proof fn lemma_reclassified_block(b: Seq<u8>, c: MatrixCores, m1: MatrixCores, m: MatrixCores)
    requires
        b.len() <= usize::MAX,
        item_lists(b) is Some,
        classified(b, item_lists(b).unwrap(), c, m1),
        writable(m),
        same_keys(c, m),
        distinct_keys(c),
        item_lists(b).unwrap().unforged_count == unforged_count(m),
        forall|i: int|
            0 <= i < unforged_count(m) ==> #[trigger] id_at(
                b.subrange(item_lists(b).unwrap().start as int, item_lists(b).unwrap().end as int),
                item_lists(b).unwrap().unforged_base as int,
                i,
            ) == key_id(unforged_keys(m)[i]),
    ensures
        unforged_block(m1) == unforged_block(m),
{
    reveal(classified);
    let l = item_lists(b).unwrap();
    let region = b.subrange(l.start as int, l.end as int);
    let k = unforged_keys(m);
    lemma_written_keys(m);
    // an entry is listed unforged exactly when its key is among `k`
    assert forall|key: Seq<char>|
        lists_key(region, l.unforged_base as int, l.unforged_count as int, key) <==> #[trigger] k.contains(
            key,
        ) by {
        if lists_key(region, l.unforged_base as int, l.unforged_count as int, key) {
            let i = choose|i: int|
                0 <= i < l.unforged_count && hex_upper(
                    #[trigger] id_at(region, l.unforged_base as int, i),
                ) == key;
            assert(is_id_key(k[i]));
            assert(k[i] == key);
        }
        if k.contains(key) {
            let i = choose|i: int| 0 <= i < k.len() && k[i] == key;
            assert(is_id_key(k[i]));
            assert(hex_upper(id_at(region, l.unforged_base as int, i)) == key);
        }
    }
    assert forall|j: int| 0 <= j < m1.overclocks@.len() implies (#[trigger] m1.overclocks@[j]).0@
        == m.overclocks@[j].0@ && (m1.overclocks@[j].1.state == OverclockState::Unforged) == (
    m.overclocks@[j].1.state == OverclockState::Unforged) by {
        lemma_written_key(c, m, c.overclocks@[j].0@);
    }
    assert forall|j: int| 0 <= j < m1.cosmetics@.len() implies (#[trigger] m1.cosmetics@[j]).0@
        == m.cosmetics@[j].0@ && (m1.cosmetics@[j].1.state == OverclockState::Unforged) == (
    m.cosmetics@[j].1.state == OverclockState::Unforged) by {
        lemma_written_key(c, m, c.cosmetics@[j].0@);
    }
    lemma_unforged_overclocks_same(m1.overclocks@, m.overclocks@);
    lemma_unforged_cosmetics_same(m1.cosmetics@, m.cosmetics@);
}

/// Whether no two overclocks share a key.
fn overclock_keys_distinct(e: &Vec<(String, Overclock)>) -> (r: bool)
    ensures
        r == (forall|i: int, j: int|
            0 <= i < e@.len() && 0 <= j < e@.len() && i != j ==> (#[trigger] e@[i]).0@ != (
            #[trigger] e@[j]).0@),
{
    let mut i: usize = 0;
    while i < e.len()
        invariant
            i <= e@.len(),
            forall|x: int, y: int|
                0 <= x < i && 0 <= y < e@.len() && x != y ==> (#[trigger] e@[x]).0@ != (
                #[trigger] e@[y]).0@,
        decreases e@.len() - i,
    {
        let mut j: usize = 0;
        while j < e.len()
            invariant
                i < e@.len(),
                j <= e@.len(),
                forall|x: int, y: int|
                    0 <= x < i && 0 <= y < e@.len() && x != y ==> (#[trigger] e@[x]).0@ != (
                    #[trigger] e@[y]).0@,
                forall|y: int| 0 <= y < j && y != i ==> e@[i as int].0@ != (#[trigger] e@[y]).0@,
            decreases e@.len() - j,
        {
            if j != i && e[i].0 == e[j].0 {
                assert(e@[i as int].0@ == e@[j as int].0@);
                return false;
            }
            j += 1;
        }
        i += 1;
    }
    true
}

/// Whether no two cosmetics share a key.
fn cosmetic_keys_distinct(e: &Vec<(String, Cosmetic)>) -> (r: bool)
    ensures
        r == (forall|i: int, j: int|
            0 <= i < e@.len() && 0 <= j < e@.len() && i != j ==> (#[trigger] e@[i]).0@ != (
            #[trigger] e@[j]).0@),
{
    let mut i: usize = 0;
    while i < e.len()
        invariant
            i <= e@.len(),
            forall|x: int, y: int|
                0 <= x < i && 0 <= y < e@.len() && x != y ==> (#[trigger] e@[x]).0@ != (
                #[trigger] e@[y]).0@,
        decreases e@.len() - i,
    {
        let mut j: usize = 0;
        while j < e.len()
            invariant
                i < e@.len(),
                j <= e@.len(),
                forall|x: int, y: int|
                    0 <= x < i && 0 <= y < e@.len() && x != y ==> (#[trigger] e@[x]).0@ != (
                    #[trigger] e@[y]).0@,
                forall|y: int| 0 <= y < j && y != i ==> e@[i as int].0@ != (#[trigger] e@[y]).0@,
            decreases e@.len() - j,
        {
            if j != i && e[i].0 == e[j].0 {
                assert(e@[i as int].0@ == e@[j as int].0@);
                return false;
            }
            j += 1;
        }
        i += 1;
    }
    true
}

/// Whether no overclock shares a key with a cosmetic.
fn categories_disjoint(a: &Vec<(String, Overclock)>, b: &Vec<(String, Cosmetic)>) -> (r: bool)
    ensures
        r == (forall|i: int, j: int|
            0 <= i < a@.len() && 0 <= j < b@.len() ==> (#[trigger] a@[i]).0@ != (
            #[trigger] b@[j]).0@),
{
    let mut i: usize = 0;
    while i < a.len()
        invariant
            i <= a@.len(),
            forall|x: int, y: int|
                0 <= x < i && 0 <= y < b@.len() ==> (#[trigger] a@[x]).0@ != (#[trigger] b@[y]).0@,
        decreases a@.len() - i,
    {
        let mut j: usize = 0;
        while j < b.len()
            invariant
                i < a@.len(),
                j <= b@.len(),
                forall|x: int, y: int|
                    0 <= x < i && 0 <= y < b@.len() ==> (#[trigger] a@[x]).0@ != (
                    #[trigger] b@[y]).0@,
                forall|y: int| 0 <= y < j ==> a@[i as int].0@ != (#[trigger] b@[y]).0@,
            decreases b@.len() - j,
        {
            if a[i].0 == b[j].0 {
                assert(a@[i as int].0@ == b@[j as int].0@);
                return false;
            }
            j += 1;
        }
        i += 1;
    }
    true
}

/// Whether no key of the catalog appears twice.
pub fn keys_distinct(c: &MatrixCores) -> (r: bool)
    ensures
        r == distinct_keys(*c),
{
    overclock_keys_distinct(&c.overclocks) && cosmetic_keys_distinct(&c.cosmetics)
        && categories_disjoint(&c.overclocks, &c.cosmetics)
}

/// Marking unforged overclock `k` of a catalog with distinct keys forged
/// (`m2`) leaves its key out of the keys written back, keeps the others in
/// order, and lowers the written count by one; at zero no block is written.
pub proof fn lemma_forged_leaves_block(m: MatrixCores, k: int, m2: MatrixCores)
    requires
        0 <= k < m.overclocks@.len(),
        m.overclocks@[k].1.state == OverclockState::Unforged,
        distinct_keys(m),
        m2.overclocks@ == m.overclocks@.update(
            k,
            (m.overclocks@[k].0, overclock_with(m.overclocks@[k].1, OverclockState::Forged)),
        ),
        m2.cosmetics@ == m.cosmetics@,
    ensures
        unforged_count(m2) == unforged_count(m) - 1,
        unforged_keys(m2) == unforged_overclock_keys(m.overclocks@.take(k))
            + unforged_overclock_keys(m.overclocks@.skip(k + 1)) + unforged_cosmetic_keys(
            m.cosmetics@,
        ),
        !unforged_keys(m2).contains(m.overclocks@[k].0@),
        unforged_count(m2) == 0 ==> unforged_block(m2) == Seq::<u8>::empty(),
{
    let key = m.overclocks@[k].0@;
    lemma_overclock_forged(m.overclocks@, k);
    let ko = unforged_overclock_keys(m2.overclocks@);
    let kc = unforged_cosmetic_keys(m2.cosmetics@);
    lemma_unforged_overclock_member(m2.overclocks@, key);
    lemma_unforged_cosmetic_member(m2.cosmetics@, key);
    if ko.contains(key) {
        let j = choose|j: int|
            0 <= j < m2.overclocks@.len() && (#[trigger] m2.overclocks@[j]).1.state
                == OverclockState::Unforged && m2.overclocks@[j].0@ == key;
        assert(m.overclocks@[j].0@ == key);
    }
    if kc.contains(key) {
        let j = choose|j: int|
            0 <= j < m2.cosmetics@.len() && (#[trigger] m2.cosmetics@[j]).1.state
                == OverclockState::Unforged && m2.cosmetics@[j].0@ == key;
        assert(m.cosmetics@[j].0@ == key);
    }
    if unforged_keys(m2).contains(key) {
        let x = choose|x: int| 0 <= x < unforged_keys(m2).len() && unforged_keys(m2)[x] == key;
        if x < ko.len() {
            assert(ko[x] == key);
        } else {
            assert(kc[x - ko.len()] == key);
        }
    }
}

} // verus!
