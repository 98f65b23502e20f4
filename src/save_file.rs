//! The save container: decodes every field of a buffer against a catalog,
//! and encodes the fields back into a new buffer.
use vstd::prelude::*;
use crate::catalog::{MatrixCores, key_id};
use crate::codec::{u32_at, patch_u32, read_u32_le, write_u32_le, lemma_write_same};
use crate::error::SaveError;
use crate::items::{
    item_lists, classified, spliced, splice_points, unforged_block, load_matrix_cores,
    save_matrix_cores, append, lemma_classified_writable, lemma_item_lists_splice,
    lemma_item_lists_inside, lemma_block_read_back, lemma_reclassified_block, unforged_count,
    unforged_keys, same_keys, distinct_keys, keys_distinct, id_at, writable, FORGED_MARKER, REGION_END_MARKER,
};
use crate::locate::{first_match, find, matches_at};
use crate::resources::{
    resource_field, resource_at, get_resources_pos, resource_pos, BISMOR, ENOR, JADIZ, CROPPA,
    MAGNITE, UMANITE, YEAST, STARCH, BARLEY, MALT, ERROR_CORES, BLANK_CORES,
};

verus! {

/// Opens the engineer's class record.
pub const EN_MARKER: [u8; 22] = [
    0x85, 0xEF, 0x62, 0x6C, 0x65, 0xF1, 0x02, 0x4A, 0x8D, 0xFE, 0xB5, 0xD0, 0xF3, 0x90, 0x9D, 0x2E,
    0x03, 0x00, 0x00, 0x00, 0x58, 0x50,
];

/// Opens the scout's class record.
pub const SC_MARKER: [u8; 22] = [
    0x30, 0xD8, 0xEA, 0x17, 0xD8, 0xFB, 0xBA, 0x4C, 0x95, 0x30, 0x6D, 0xE9, 0x65, 0x5C, 0x2F, 0x8C,
    0x03, 0x00, 0x00, 0x00, 0x58, 0x50,
];

/// Opens the driller's class record.
pub const DR_MARKER: [u8; 22] = [
    0x9E, 0xDD, 0x56, 0xF1, 0xEE, 0xBC, 0xC5, 0x48, 0x8D, 0x5B, 0x5E, 0x5B, 0x80, 0xB6, 0x2D, 0xB4,
    0x03, 0x00, 0x00, 0x00, 0x58, 0x50,
];

/// Opens the gunner's class record.
pub const GU_MARKER: [u8; 22] = [
    0xAE, 0x56, 0xE1, 0x80, 0xFE, 0xC0, 0xC4, 0x4D, 0x96, 0xFA, 0x29, 0xC2, 0x83, 0x66, 0xB9, 0x7B,
    0x03, 0x00, 0x00, 0x00, 0x58, 0x50,
];

/// "Credits".
pub const CREDITS_MARKER: [u8; 7] = [0x43, 0x72, 0x65, 0x64, 0x69, 0x74, 0x73];

/// "PerkPoints".
pub const PERK_POINTS_MARKER: [u8; 10] = [0x50, 0x65, 0x72, 0x6B, 0x50, 0x6F, 0x69, 0x6E, 0x74, 0x73];

/// Experience points, from a class marker.
pub const XP_OFFSET: usize = 48;

/// Promotion count, from a class's experience points.
pub const NUM_PROMO_OFFSET: usize = 108;

/// Credits, from their marker.
pub const CREDITS_OFFSET: usize = 33;

/// Perk points, from their marker.
pub const PERK_POINTS_OFFSET: usize = 36;

/// Mineral amounts, each the bits of a single-precision float.
#[derive(Debug, Clone, Copy, PartialEq, Eq, Structural)]
pub struct Minerals {
    pub bismor: u32,
    pub enor: u32,
    pub jadiz: u32,
    pub croppa: u32,
    pub magnite: u32,
    pub umanite: u32,
}

impl Default for Minerals {
    fn default() -> (r: Minerals)
        ensures
            r == (Minerals { bismor: 0, enor: 0, jadiz: 0, croppa: 0, magnite: 0, umanite: 0 }),
    {
        Minerals { bismor: 0, enor: 0, jadiz: 0, croppa: 0, magnite: 0, umanite: 0 }
    }
}

impl Minerals {
    pub fn new(bismor: u32, enor: u32, jadiz: u32, croppa: u32, magnite: u32, umanite: u32) -> (r:
        Minerals)
        ensures
            r == (Minerals { bismor, enor, jadiz, croppa, magnite, umanite }),
    {
        Minerals { bismor, enor, jadiz, croppa, magnite, umanite }
    }
}

/// Brewing ingredient amounts, each the bits of a single-precision float.
#[derive(Debug, Clone, Copy, PartialEq, Eq, Structural)]
pub struct Brewing {
    pub yeast: u32,
    pub starch: u32,
    pub barley: u32,
    pub malt: u32,
}

impl Default for Brewing {
    fn default() -> (r: Brewing)
        ensures
            r == (Brewing { yeast: 0, starch: 0, barley: 0, malt: 0 }),
    {
        Brewing { yeast: 0, starch: 0, barley: 0, malt: 0 }
    }
}

impl Brewing {
    pub fn new(yeast: u32, starch: u32, barley: u32, malt: u32) -> (r: Brewing)
        ensures
            r == (Brewing { yeast, starch, barley, malt }),
    {
        Brewing { yeast, starch, barley, malt }
    }
}

/// A decoded save: the buffer it came from and the values of its fields.
/// Resource amounts are kept as the bits of single-precision floats.
#[derive(Debug, Clone, PartialEq)]
pub struct SaveFile {
    pub eng_xp: u32,
    pub scout_xp: u32,
    pub drill_xp: u32,
    pub gun_xp: u32,
    pub eng_num_promo: u32,
    pub scout_num_promo: u32,
    pub drill_num_promo: u32,
    pub gun_num_promo: u32,
    pub credits: u32,
    pub perkpoints: u32,
    pub blank_cores: u32,
    pub error_cores: u32,
    pub minerals: Minerals,
    pub brewing: Brewing,
    pub matrix_cores: MatrixCores,
    pub buf: Vec<u8>,
    pub eng_xp_pos: usize,
    pub scout_xp_pos: usize,
    pub drill_xp_pos: usize,
    pub gun_xp_pos: usize,
}

/// The position `delta` bytes past the first occurrence of marker `m`.
pub open spec fn marker_field(b: Seq<u8>, m: Seq<u8>, delta: int) -> Option<int> {
    match first_match(b, m) {
        Some(p) => Some(p + delta),
        None => None,
    }
}

/// The four-byte field at `off`, where there is one.
pub open spec fn field_u32(b: Seq<u8>, off: Option<int>) -> Option<u32> {
    match off {
        Some(o) => u32_at(b, o),
        None => None,
    }
}

/// The experience points of the class whose record opens with `m`.
pub open spec fn xp_field(b: Seq<u8>, m: Seq<u8>) -> Option<int> {
    marker_field(b, m, 48)
}

/// The promotion count of the class whose record opens with `m`: 108 bytes
/// past its experience points.
pub open spec fn promo_field(b: Seq<u8>, m: Seq<u8>) -> Option<int> {
    marker_field(b, m, 156)
}

/// The perk points: zero where their marker is missing.
pub open spec fn perk_points_in(b: Seq<u8>) -> Option<u32> {
    if first_match(b, PERK_POINTS_MARKER@) is None {
        Some(0)
    } else {
        field_u32(b, marker_field(b, PERK_POINTS_MARKER@, 36))
    }
}

/// The experience points and promotion count of the class whose record
/// opens with `m` can be read.
pub open spec fn class_ok(b: Seq<u8>, m: Seq<u8>) -> bool {
    field_u32(b, xp_field(b, m)) is Some && field_u32(b, promo_field(b, m)) is Some
}

/// Every field that a save must hold can be read from `b`.
pub open spec fn decodable(b: Seq<u8>) -> bool {
    &&& class_ok(b, EN_MARKER@)
    &&& class_ok(b, SC_MARKER@)
    &&& class_ok(b, DR_MARKER@)
    &&& class_ok(b, GU_MARKER@)
    &&& field_u32(b, marker_field(b, CREDITS_MARKER@, 33)) is Some
    &&& perk_points_in(b) is Some
    &&& resource_at(b, YEAST@) is Some
    &&& resource_at(b, STARCH@) is Some
    &&& resource_at(b, BARLEY@) is Some
    &&& resource_at(b, MALT@) is Some
    &&& resource_at(b, BISMOR@) is Some
    &&& resource_at(b, ENOR@) is Some
    &&& resource_at(b, JADIZ@) is Some
    &&& resource_at(b, CROPPA@) is Some
    &&& resource_at(b, MAGNITE@) is Some
    &&& resource_at(b, UMANITE@) is Some
    &&& resource_at(b, ERROR_CORES@) is Some
    &&& resource_at(b, BLANK_CORES@) is Some
    &&& item_lists(b) is Some
}

/// `s` holds the fields of `b`, and the catalog `c` with each entry in the
/// state that the item lists of `b` give it.
pub open spec fn decoded(b: Seq<u8>, c: MatrixCores, s: SaveFile) -> bool {
    &&& s.bytes() == b
    &&& s.xp_offsets() == seq![
        xp_field(b, EN_MARKER@).unwrap(),
        xp_field(b, SC_MARKER@).unwrap(),
        xp_field(b, DR_MARKER@).unwrap(),
        xp_field(b, GU_MARKER@).unwrap(),
    ]
    &&& Some(s.eng_xp) == field_u32(b, xp_field(b, EN_MARKER@))
    &&& Some(s.scout_xp) == field_u32(b, xp_field(b, SC_MARKER@))
    &&& Some(s.drill_xp) == field_u32(b, xp_field(b, DR_MARKER@))
    &&& Some(s.gun_xp) == field_u32(b, xp_field(b, GU_MARKER@))
    &&& Some(s.eng_num_promo) == field_u32(b, promo_field(b, EN_MARKER@))
    &&& Some(s.scout_num_promo) == field_u32(b, promo_field(b, SC_MARKER@))
    &&& Some(s.drill_num_promo) == field_u32(b, promo_field(b, DR_MARKER@))
    &&& Some(s.gun_num_promo) == field_u32(b, promo_field(b, GU_MARKER@))
    &&& Some(s.credits) == field_u32(b, marker_field(b, CREDITS_MARKER@, 33))
    &&& Some(s.perkpoints) == perk_points_in(b)
    &&& Some(s.brewing.yeast) == resource_at(b, YEAST@)
    &&& Some(s.brewing.starch) == resource_at(b, STARCH@)
    &&& Some(s.brewing.barley) == resource_at(b, BARLEY@)
    &&& Some(s.brewing.malt) == resource_at(b, MALT@)
    &&& Some(s.minerals.bismor) == resource_at(b, BISMOR@)
    &&& Some(s.minerals.enor) == resource_at(b, ENOR@)
    &&& Some(s.minerals.jadiz) == resource_at(b, JADIZ@)
    &&& Some(s.minerals.croppa) == resource_at(b, CROPPA@)
    &&& Some(s.minerals.magnite) == resource_at(b, MAGNITE@)
    &&& Some(s.minerals.umanite) == resource_at(b, UMANITE@)
    &&& Some(s.error_cores) == resource_at(b, ERROR_CORES@)
    &&& Some(s.blank_cores) == resource_at(b, BLANK_CORES@)
    &&& classified(b, item_lists(b).unwrap(), c, s.matrix_cores)
}

/// Writes `v` at `off`; fails where there is no such field.
pub open spec fn put(b: Seq<u8>, off: Option<int>, v: u32) -> Result<Seq<u8>, SaveError> {
    match off {
        Some(o) => if 0 <= o && o + 4 <= b.len() {
            Ok(patch_u32(b, o, v))
        } else {
            Err(SaveError::Format)
        },
        None => Err(SaveError::Format),
    }
}

/// After `r`, writes `v` at the fixed position `o`.
pub open spec fn put_fixed(r: Result<Seq<u8>, SaveError>, o: int, v: u32) -> Result<
    Seq<u8>,
    SaveError,
> {
    match r {
        Ok(b) => put(b, Some(o), v),
        Err(e) => Err(e),
    }
}

/// After `r`, writes `v` `delta` bytes past marker `m`, located afresh.
pub open spec fn put_marker(r: Result<Seq<u8>, SaveError>, m: Seq<u8>, delta: int, v: u32) -> Result<
    Seq<u8>,
    SaveError,
> {
    match r {
        Ok(b) => put(b, marker_field(b, m, delta), v),
        Err(e) => Err(e),
    }
}

/// After `r`, writes the amount of resource `id`, located afresh.
pub open spec fn put_resource(r: Result<Seq<u8>, SaveError>, id: Seq<u8>, v: u32) -> Result<
    Seq<u8>,
    SaveError,
> {
    match r {
        Ok(b) => put(b, resource_field(b, id), v),
        Err(e) => Err(e),
    }
}

/// After `r`, writes the experience points of the four classes at their
/// cached positions, then their promotion counts 108 bytes past those.
pub open spec fn put_classes(r: Result<Seq<u8>, SaveError>, s: SaveFile) -> Result<
    Seq<u8>,
    SaveError,
> {
    match r {
        Err(e) => Err(e),
        Ok(b) => {
            let x = s.xp_offsets();
            let r = put_fixed(Ok(b), x[0], s.eng_xp);
            let r = put_fixed(r, x[3], s.gun_xp);
            let r = put_fixed(r, x[1], s.scout_xp);
            let r = put_fixed(r, x[2], s.drill_xp);
            let r = put_fixed(r, x[0] + 108, s.eng_num_promo);
            let r = put_fixed(r, x[3] + 108, s.gun_num_promo);
            let r = put_fixed(r, x[1] + 108, s.scout_num_promo);
            put_fixed(r, x[2] + 108, s.drill_num_promo)
        },
    }
}

/// After `r`, writes the perk points and the credits. Unlike decoding,
/// which reads a missing perk-points marker as zero, writing needs the marker:
/// a value with nowhere to go fails rather than being dropped.
pub open spec fn put_counters(r: Result<Seq<u8>, SaveError>, perkpoints: u32, credits: u32) -> Result<
    Seq<u8>,
    SaveError,
> {
    match r {
        Err(e) => Err(e),
        Ok(b) => put_marker(
            put_marker(Ok(b), PERK_POINTS_MARKER@, 36, perkpoints),
            CREDITS_MARKER@,
            33,
            credits,
        ),
    }
}

/// After `r`, writes the four brewing ingredients.
pub open spec fn put_brewing(r: Result<Seq<u8>, SaveError>, v: Brewing) -> Result<
    Seq<u8>,
    SaveError,
> {
    match r {
        Err(e) => Err(e),
        Ok(b) => {
            let r = put_resource(Ok(b), YEAST@, v.yeast);
            let r = put_resource(r, STARCH@, v.starch);
            let r = put_resource(r, BARLEY@, v.barley);
            put_resource(r, MALT@, v.malt)
        },
    }
}

/// After `r`, writes the six minerals.
pub open spec fn put_minerals(r: Result<Seq<u8>, SaveError>, v: Minerals) -> Result<
    Seq<u8>,
    SaveError,
> {
    match r {
        Err(e) => Err(e),
        Ok(b) => {
            let r = put_resource(Ok(b), BISMOR@, v.bismor);
            let r = put_resource(r, ENOR@, v.enor);
            let r = put_resource(r, JADIZ@, v.jadiz);
            let r = put_resource(r, CROPPA@, v.croppa);
            let r = put_resource(r, MAGNITE@, v.magnite);
            put_resource(r, UMANITE@, v.umanite)
        },
    }
}

/// After `r`, writes the error cores and the blank cores.
pub open spec fn put_cores(r: Result<Seq<u8>, SaveError>, error_cores: u32, blank_cores: u32) -> Result<
    Seq<u8>,
    SaveError,
> {
    match r {
        Err(e) => Err(e),
        Ok(b) => put_resource(put_resource(Ok(b), ERROR_CORES@, error_cores), BLANK_CORES@, blank_cores),
    }
}

/// The buffer with every scalar field of `s` written in: the classes at their
/// cached positions, then perk points, credits, brewing ingredients, minerals
/// and cores, each located afresh.
pub open spec fn patched(s: SaveFile) -> Result<Seq<u8>, SaveError> {
    let r = put_classes(Ok(s.bytes()), s);
    let r = put_counters(r, s.perkpoints, s.credits);
    let r = put_brewing(r, s.brewing);
    let r = put_minerals(r, s.minerals);
    put_cores(r, s.error_cores, s.blank_cores)
}

/// The encoded save: the patched buffer with its unforged list rebuilt.
pub open spec fn encoded(s: SaveFile) -> Result<Seq<u8>, SaveError> {
    match patched(s) {
        Ok(b) => spliced(b, s.matrix_cores),
        Err(e) => Err(e),
    }
}

impl SaveFile {
    /// The buffer that this save was decoded from.
    pub open spec fn bytes(&self) -> Seq<u8> {
        self.buf@
    }

    /// The catalog with its decoded (or since changed) states.
    pub open spec fn cores(&self) -> MatrixCores {
        self.matrix_cores
    }

    /// The cached positions of the experience points of the engineer, scout,
    /// driller and gunner.
    pub open spec fn xp_offsets(&self) -> Seq<int> {
        seq![
            self.eng_xp_pos as int,
            self.scout_xp_pos as int,
            self.drill_xp_pos as int,
            self.gun_xp_pos as int,
        ]
    }
}

/// The position `delta` bytes past marker `m`, where four bytes fit there.
fn locate_field(buf: &[u8], m: &[u8], delta: usize) -> (r: Option<usize>)
    ensures
        r matches Some(o) ==> marker_field(buf@, m@, delta as int) == Some(o as int) && o + 4
            <= buf@.len(),
        r is None ==> field_u32(buf@, marker_field(buf@, m@, delta as int)) is None,
{
    match find(buf, m) {
        Some(p) => {
            proof {
                assert(matches_at(buf@, m@, p as int));
            }
            if buf.len() - p < 4 || delta > buf.len() - p - 4 {
                None
            } else {
                Some(p + delta)
            }
        },
        None => None,
    }
}

/// The position of the experience points of the class whose record opens
/// with `marker`, where four bytes fit there.
fn get_xp_offset(buf: &[u8], marker: &[u8]) -> (r: Option<usize>)
    ensures
        r matches Some(o) ==> xp_field(buf@, marker@) == Some(o as int) && o + 4 <= buf@.len(),
        r is None ==> field_u32(buf@, xp_field(buf@, marker@)) is None,
{
    locate_field(buf, marker, XP_OFFSET)
}

/// The amount of resource `id`, the table located afresh.
fn resource_val(buf: &[u8], id: &[u8]) -> (r: Option<u32>)
    ensures
        r == resource_at(buf@, id@),
{
    match get_resources_pos(buf) {
        Some(rp) => crate::resources::get_resource_val(buf, rp, id),
        None => None,
    }
}

/// The four brewing ingredients; `None` where one cannot be read.
pub fn get_brewing(buf: &[u8]) -> (r: Option<Brewing>)
    ensures
        r is Some <==> resource_at(buf@, YEAST@) is Some && resource_at(buf@, STARCH@) is Some
            && resource_at(buf@, BARLEY@) is Some && resource_at(buf@, MALT@) is Some,
        r matches Some(v) ==> Some(v.yeast) == resource_at(buf@, YEAST@) && Some(v.starch)
            == resource_at(buf@, STARCH@) && Some(v.barley) == resource_at(buf@, BARLEY@) && Some(
            v.malt,
        ) == resource_at(buf@, MALT@),
{
    let yeast = match resource_val(buf, &YEAST) {
        Some(v) => v,
        None => return None,
    };
    let starch = match resource_val(buf, &STARCH) {
        Some(v) => v,
        None => return None,
    };
    let barley = match resource_val(buf, &BARLEY) {
        Some(v) => v,
        None => return None,
    };
    let malt = match resource_val(buf, &MALT) {
        Some(v) => v,
        None => return None,
    };
    Some(Brewing::new(yeast, starch, barley, malt))
}

/// The six minerals; `None` where one cannot be read.
pub fn get_minerals(buf: &[u8]) -> (r: Option<Minerals>)
    ensures
        r is Some <==> resource_at(buf@, BISMOR@) is Some && resource_at(buf@, ENOR@) is Some
            && resource_at(buf@, JADIZ@) is Some && resource_at(buf@, CROPPA@) is Some
            && resource_at(buf@, MAGNITE@) is Some && resource_at(buf@, UMANITE@) is Some,
        r matches Some(v) ==> Some(v.bismor) == resource_at(buf@, BISMOR@) && Some(v.enor)
            == resource_at(buf@, ENOR@) && Some(v.jadiz) == resource_at(buf@, JADIZ@) && Some(
            v.croppa,
        ) == resource_at(buf@, CROPPA@) && Some(v.magnite) == resource_at(buf@, MAGNITE@) && Some(
            v.umanite,
        ) == resource_at(buf@, UMANITE@),
{
    let bismor = match resource_val(buf, &BISMOR) {
        Some(v) => v,
        None => return None,
    };
    let enor = match resource_val(buf, &ENOR) {
        Some(v) => v,
        None => return None,
    };
    let jadiz = match resource_val(buf, &JADIZ) {
        Some(v) => v,
        None => return None,
    };
    let croppa = match resource_val(buf, &CROPPA) {
        Some(v) => v,
        None => return None,
    };
    let magnite = match resource_val(buf, &MAGNITE) {
        Some(v) => v,
        None => return None,
    };
    let umanite = match resource_val(buf, &UMANITE) {
        Some(v) => v,
        None => return None,
    };
    Some(Minerals::new(bismor, enor, jadiz, croppa, magnite, umanite))
}

/// The position of a class's experience points, their value, and the
/// class's promotion count.
fn read_class(buf: &[u8], marker: &[u8]) -> (r: Option<(usize, u32, u32)>)
    ensures
        r is Some <==> class_ok(buf@, marker@),
        r matches Some((o, x, p)) ==> xp_field(buf@, marker@) == Some(o as int) && Some(x)
            == field_u32(buf@, xp_field(buf@, marker@)) && Some(p) == field_u32(
            buf@,
            promo_field(buf@, marker@),
        ),
{
    let xp_pos = match get_xp_offset(buf, marker) {
        Some(o) => o,
        None => return None,
    };
    let xp = match read_u32_le(buf, xp_pos) {
        Some(v) => v,
        None => return None,
    };
    if buf.len() - xp_pos < NUM_PROMO_OFFSET {
        return None;
    }
    match read_u32_le(buf, xp_pos + NUM_PROMO_OFFSET) {
        Some(p) => Some((xp_pos, xp, p)),
        None => None,
    }
}

/// The credits.
fn read_credits(buf: &[u8]) -> (r: Option<u32>)
    ensures
        r == field_u32(buf@, marker_field(buf@, CREDITS_MARKER@, 33)),
{
    match locate_field(buf, &CREDITS_MARKER, CREDITS_OFFSET) {
        Some(o) => read_u32_le(buf, o),
        None => None,
    }
}

/// The perk points, zero where their marker is missing.
fn read_perk_points(buf: &[u8]) -> (r: Option<u32>)
    ensures
        r == perk_points_in(buf@),
{
    match find(buf, &PERK_POINTS_MARKER) {
        None => Some(0),
        Some(_) => match locate_field(buf, &PERK_POINTS_MARKER, PERK_POINTS_OFFSET) {
            Some(o) => read_u32_le(buf, o),
            None => None,
        },
    }
}

impl SaveFile {
    /// Decodes every field of `buf`, and marks each entry of `catalog` forged,
    /// unforged or unacquired after the item lists of `buf`. Fails with
    /// `Format` where a marker is missing or a field lies past the end; a
    /// missing perk-points marker reads as zero perk points. Where the buffer
    /// decodes but two catalog entries share a key, fails with `Catalog`.
    #[verifier::rlimit(50)]
    pub fn new(buf: &[u8], catalog: &MatrixCores) -> (r: Result<SaveFile, SaveError>)
        ensures
            r is Ok <==> decodable(buf@) && distinct_keys(*catalog),
            r matches Err(e) ==> e == if decodable(buf@) {
                SaveError::Catalog
            } else {
                SaveError::Format
            },
            first_match(buf@, crate::resources::RESOURCES_MARKER@) is None ==> r is Err,
            r matches Ok(s) ==> decoded(buf@, *catalog, s),
    {
        let (eng_xp_pos, eng_xp, eng_num_promo) = match read_class(buf, &EN_MARKER) {
            Some(v) => v,
            None => return Err(SaveError::Format),
        };
        let (scout_xp_pos, scout_xp, scout_num_promo) = match read_class(buf, &SC_MARKER) {
            Some(v) => v,
            None => return Err(SaveError::Format),
        };
        let (drill_xp_pos, drill_xp, drill_num_promo) = match read_class(buf, &DR_MARKER) {
            Some(v) => v,
            None => return Err(SaveError::Format),
        };
        let (gun_xp_pos, gun_xp, gun_num_promo) = match read_class(buf, &GU_MARKER) {
            Some(v) => v,
            None => return Err(SaveError::Format),
        };
        let credits = match read_credits(buf) {
            Some(v) => v,
            None => return Err(SaveError::Format),
        };
        let perkpoints = match read_perk_points(buf) {
            Some(v) => v,
            None => return Err(SaveError::Format),
        };
        let brewing = match get_brewing(buf) {
            Some(v) => v,
            None => return Err(SaveError::Format),
        };
        let minerals = match get_minerals(buf) {
            Some(v) => v,
            None => return Err(SaveError::Format),
        };
        let error_cores = match resource_val(buf, &ERROR_CORES) {
            Some(v) => v,
            None => return Err(SaveError::Format),
        };
        let blank_cores = match resource_val(buf, &BLANK_CORES) {
            Some(v) => v,
            None => return Err(SaveError::Format),
        };
        let matrix_cores = match load_matrix_cores(buf, catalog) {
            Some(m) => m,
            None => return Err(SaveError::Format),
        };
        if !keys_distinct(catalog) {
            return Err(SaveError::Catalog);
        }
        let mut own: Vec<u8> = Vec::new();
        append(&mut own, buf);
        assert(own@ =~= buf@);
        let s = SaveFile {
            eng_xp,
            scout_xp,
            drill_xp,
            gun_xp,
            eng_num_promo,
            scout_num_promo,
            drill_num_promo,
            gun_num_promo,
            credits,
            perkpoints,
            blank_cores,
            error_cores,
            minerals,
            brewing,
            matrix_cores,
            buf: own,
            eng_xp_pos,
            scout_xp_pos,
            drill_xp_pos,
            gun_xp_pos,
        };
        assert(s.xp_offsets() =~= seq![
            xp_field(buf@, EN_MARKER@).unwrap(),
            xp_field(buf@, SC_MARKER@).unwrap(),
            xp_field(buf@, DR_MARKER@).unwrap(),
            xp_field(buf@, GU_MARKER@).unwrap(),
        ]);
        Ok(s)
    }
}

/// `b` after a step whose outcome in the model is `spec`.
pub open spec fn stepped(spec: Result<Seq<u8>, SaveError>, r: Result<(), SaveError>, b: Seq<u8>) -> bool {
    match spec {
        Ok(nb) => r is Ok && b == nb,
        Err(e) => r == Err::<(), SaveError>(e),
    }
}

/// Writes `v` `delta` bytes past `pos`; `Format` where four bytes do not fit
/// there.
fn set_val(b: &mut Vec<u8>, pos: usize, delta: usize, v: u32) -> (r: Result<(), SaveError>)
    ensures
        stepped(put(old(b)@, Some(pos + delta), v), r, final(b)@),
{
    if pos > b.len() || delta > b.len() - pos || b.len() - pos - delta < 4 {
        return Err(SaveError::Format);
    }
    write_u32_le(b, pos + delta, v);
    Ok(())
}

/// Writes `v` `delta` bytes past marker `m`; `Format` where the marker is
/// missing or four bytes do not fit there.
fn set_marker_val(b: &mut Vec<u8>, m: &[u8], delta: usize, v: u32) -> (r: Result<(), SaveError>)
    ensures
        stepped(put_marker(Ok(old(b)@), m@, delta as int, v), r, final(b)@),
{
    match find(b.as_slice(), m) {
        None => Err(SaveError::Format),
        Some(p) => set_val(b, p, delta, v),
    }
}

/// Writes the amount of resource `id`, the table located afresh.
fn set_resource(b: &mut Vec<u8>, id: &[u8], v: u32) -> (r: Result<(), SaveError>)
    ensures
        stepped(put_resource(Ok(old(b)@), id@, v), r, final(b)@),
{
    let rp = match get_resources_pos(b.as_slice()) {
        Some(rp) => rp,
        None => return Err(SaveError::Format),
    };
    let o = match resource_pos(b.as_slice(), rp, id) {
        Some(o) => o,
        None => return Err(SaveError::Format),
    };
    set_val(b, o, 0, v)
}

/// Writes the four brewing ingredients.
fn save_brewing(b: &mut Vec<u8>, v: &Brewing) -> (r: Result<(), SaveError>)
    ensures
        stepped(put_brewing(Ok(old(b)@), *v), r, final(b)@),
{
    if let Err(e) = set_resource(b, &YEAST, v.yeast) {
        return Err(e);
    }
    if let Err(e) = set_resource(b, &STARCH, v.starch) {
        return Err(e);
    }
    if let Err(e) = set_resource(b, &BARLEY, v.barley) {
        return Err(e);
    }
    set_resource(b, &MALT, v.malt)
}

/// Writes the six minerals.
fn save_minerals(b: &mut Vec<u8>, v: &Minerals) -> (r: Result<(), SaveError>)
    ensures
        stepped(put_minerals(Ok(old(b)@), *v), r, final(b)@),
{
    if let Err(e) = set_resource(b, &BISMOR, v.bismor) {
        return Err(e);
    }
    if let Err(e) = set_resource(b, &ENOR, v.enor) {
        return Err(e);
    }
    if let Err(e) = set_resource(b, &JADIZ, v.jadiz) {
        return Err(e);
    }
    if let Err(e) = set_resource(b, &CROPPA, v.croppa) {
        return Err(e);
    }
    if let Err(e) = set_resource(b, &MAGNITE, v.magnite) {
        return Err(e);
    }
    set_resource(b, &UMANITE, v.umanite)
}

impl SaveFile {
    /// Writes the experience points and promotion counts of the classes.
    fn save_classes(&self, b: &mut Vec<u8>) -> (r: Result<(), SaveError>)
        ensures
            stepped(put_classes(Ok(old(b)@), *self), r, final(b)@),
    {
        if let Err(e) = set_val(b, self.eng_xp_pos, 0, self.eng_xp) {
            return Err(e);
        }
        if let Err(e) = set_val(b, self.gun_xp_pos, 0, self.gun_xp) {
            return Err(e);
        }
        if let Err(e) = set_val(b, self.scout_xp_pos, 0, self.scout_xp) {
            return Err(e);
        }
        if let Err(e) = set_val(b, self.drill_xp_pos, 0, self.drill_xp) {
            return Err(e);
        }
        if let Err(e) = set_val(b, self.eng_xp_pos, NUM_PROMO_OFFSET, self.eng_num_promo) {
            return Err(e);
        }
        if let Err(e) = set_val(b, self.gun_xp_pos, NUM_PROMO_OFFSET, self.gun_num_promo) {
            return Err(e);
        }
        if let Err(e) = set_val(b, self.scout_xp_pos, NUM_PROMO_OFFSET, self.scout_num_promo) {
            return Err(e);
        }
        set_val(b, self.drill_xp_pos, NUM_PROMO_OFFSET, self.drill_num_promo)
    }

    /// Encodes this save into a new buffer: every scalar field written in
    /// place, then the unforged list rebuilt from the catalog's states. Fails
    /// with `Format` where a field or marker cannot be found (the perk-points
    /// marker included), and with `Catalog` where an unforged entry's key
    /// stands for no identifier or two entries share a key. The forged list
    /// is kept byte for byte: an entry moved to `Forged` leaves the unforged
    /// list but is not added to the forged one.
    pub fn save(&self) -> (r: Result<Vec<u8>, SaveError>)
        ensures
            match r {
                Ok(v) => encoded(*self) == Ok::<Seq<u8>, SaveError>(v@),
                Err(e) => encoded(*self) == Err::<Seq<u8>, SaveError>(e),
            },
    {
        let mut b: Vec<u8> = Vec::new();
        append(&mut b, self.buf.as_slice());
        assert(b@ =~= self.bytes());
        if let Err(e) = self.save_classes(&mut b) {
            return Err(e);
        }
        if let Err(e) = set_marker_val(&mut b, &PERK_POINTS_MARKER, PERK_POINTS_OFFSET, self.perkpoints) {
            return Err(e);
        }
        if let Err(e) = set_marker_val(&mut b, &CREDITS_MARKER, CREDITS_OFFSET, self.credits) {
            return Err(e);
        }
        if let Err(e) = save_brewing(&mut b, &self.brewing) {
            return Err(e);
        }
        if let Err(e) = save_minerals(&mut b, &self.minerals) {
            return Err(e);
        }
        if let Err(e) = set_resource(&mut b, &ERROR_CORES, self.error_cores) {
            return Err(e);
        }
        if let Err(e) = set_resource(&mut b, &BLANK_CORES, self.blank_cores) {
            return Err(e);
        }
        save_matrix_cores(b.as_slice(), &self.matrix_cores)
    }
}

/// Writing back the value that a field holds leaves the buffer as it was.
proof fn lemma_put_same(b: Seq<u8>, off: Option<int>)
    requires
        field_u32(b, off) is Some,
    ensures
        put(b, off, field_u32(b, off).unwrap()) == Ok::<Seq<u8>, SaveError>(b),
{
    lemma_write_same(b, off.unwrap());
}

#[verifier::rlimit(30)]
proof fn lemma_classes_same(b: Seq<u8>, c: MatrixCores, s: SaveFile)
    requires
        decodable(b),
        decoded(b, c, s),
    ensures
        put_classes(Ok(b), s) == Ok::<Seq<u8>, SaveError>(b),
{
    let x = s.xp_offsets();
    lemma_put_same(b, xp_field(b, EN_MARKER@));
    assert(put_fixed(Ok(b), x[0], s.eng_xp) == Ok::<Seq<u8>, SaveError>(b));
    lemma_put_same(b, xp_field(b, GU_MARKER@));
    assert(put_fixed(Ok(b), x[3], s.gun_xp) == Ok::<Seq<u8>, SaveError>(b));
    lemma_put_same(b, xp_field(b, SC_MARKER@));
    assert(put_fixed(Ok(b), x[1], s.scout_xp) == Ok::<Seq<u8>, SaveError>(b));
    lemma_put_same(b, xp_field(b, DR_MARKER@));
    assert(put_fixed(Ok(b), x[2], s.drill_xp) == Ok::<Seq<u8>, SaveError>(b));
    lemma_put_same(b, promo_field(b, EN_MARKER@));
    assert(put_fixed(Ok(b), x[0] + 108, s.eng_num_promo) == Ok::<Seq<u8>, SaveError>(b));
    lemma_put_same(b, promo_field(b, GU_MARKER@));
    assert(put_fixed(Ok(b), x[3] + 108, s.gun_num_promo) == Ok::<Seq<u8>, SaveError>(b));
    lemma_put_same(b, promo_field(b, SC_MARKER@));
    assert(put_fixed(Ok(b), x[1] + 108, s.scout_num_promo) == Ok::<Seq<u8>, SaveError>(b));
    lemma_put_same(b, promo_field(b, DR_MARKER@));
    assert(put_fixed(Ok(b), x[2] + 108, s.drill_num_promo) == Ok::<Seq<u8>, SaveError>(b));
}

proof fn lemma_counters_same(b: Seq<u8>, c: MatrixCores, s: SaveFile)
    requires
        decodable(b),
        decoded(b, c, s),
        first_match(b, PERK_POINTS_MARKER@) is Some,
    ensures
        put_counters(Ok(b), s.perkpoints, s.credits) == Ok::<Seq<u8>, SaveError>(b),
{
    lemma_put_same(b, marker_field(b, PERK_POINTS_MARKER@, 36));
    lemma_put_same(b, marker_field(b, CREDITS_MARKER@, 33));
}

proof fn lemma_brewing_same(b: Seq<u8>, c: MatrixCores, s: SaveFile)
    requires
        decodable(b),
        decoded(b, c, s),
    ensures
        put_brewing(Ok(b), s.brewing) == Ok::<Seq<u8>, SaveError>(b),
{
    lemma_put_same(b, resource_field(b, YEAST@));
    assert(put_resource(Ok(b), YEAST@, s.brewing.yeast) == Ok::<Seq<u8>, SaveError>(b));
    lemma_put_same(b, resource_field(b, STARCH@));
    assert(put_resource(Ok(b), STARCH@, s.brewing.starch) == Ok::<Seq<u8>, SaveError>(b));
    lemma_put_same(b, resource_field(b, BARLEY@));
    assert(put_resource(Ok(b), BARLEY@, s.brewing.barley) == Ok::<Seq<u8>, SaveError>(b));
    lemma_put_same(b, resource_field(b, MALT@));
    assert(put_resource(Ok(b), MALT@, s.brewing.malt) == Ok::<Seq<u8>, SaveError>(b));
}

proof fn lemma_minerals_same(b: Seq<u8>, c: MatrixCores, s: SaveFile)
    requires
        decodable(b),
        decoded(b, c, s),
    ensures
        put_minerals(Ok(b), s.minerals) == Ok::<Seq<u8>, SaveError>(b),
{
    lemma_put_same(b, resource_field(b, BISMOR@));
    assert(put_resource(Ok(b), BISMOR@, s.minerals.bismor) == Ok::<Seq<u8>, SaveError>(b));
    lemma_put_same(b, resource_field(b, ENOR@));
    assert(put_resource(Ok(b), ENOR@, s.minerals.enor) == Ok::<Seq<u8>, SaveError>(b));
    lemma_put_same(b, resource_field(b, JADIZ@));
    assert(put_resource(Ok(b), JADIZ@, s.minerals.jadiz) == Ok::<Seq<u8>, SaveError>(b));
    lemma_put_same(b, resource_field(b, CROPPA@));
    assert(put_resource(Ok(b), CROPPA@, s.minerals.croppa) == Ok::<Seq<u8>, SaveError>(b));
    lemma_put_same(b, resource_field(b, MAGNITE@));
    assert(put_resource(Ok(b), MAGNITE@, s.minerals.magnite) == Ok::<Seq<u8>, SaveError>(b));
    lemma_put_same(b, resource_field(b, UMANITE@));
    assert(put_resource(Ok(b), UMANITE@, s.minerals.umanite) == Ok::<Seq<u8>, SaveError>(b));
}

proof fn lemma_cores_same(b: Seq<u8>, c: MatrixCores, s: SaveFile)
    requires
        decodable(b),
        decoded(b, c, s),
    ensures
        put_cores(Ok(b), s.error_cores, s.blank_cores) == Ok::<Seq<u8>, SaveError>(b),
{
    lemma_put_same(b, resource_field(b, ERROR_CORES@));
    assert(put_resource(Ok(b), ERROR_CORES@, s.error_cores) == Ok::<Seq<u8>, SaveError>(b));
    lemma_put_same(b, resource_field(b, BLANK_CORES@));
    assert(put_resource(Ok(b), BLANK_CORES@, s.blank_cores) == Ok::<Seq<u8>, SaveError>(b));
}

/// A save decoded from `b` holds `b` and the catalog classified against it.
proof fn lemma_decoded_parts(b: Seq<u8>, c: MatrixCores, s: SaveFile)
    requires
        decoded(b, c, s),
    ensures
        s.bytes() == b,
        classified(b, item_lists(b).unwrap(), c, s.matrix_cores),
{
}

/// Encoding a save just decoded from `b` (one that holds the perk-points
/// marker), with nothing changed, writes every scalar field back as it was
/// and keeps every byte up to the end of the forged list and from the
/// region's end marker on: only the unforged list is rebuilt, from the states
/// that were decoded.
pub proof fn lemma_round_trip(b: Seq<u8>, c: MatrixCores, s: SaveFile)
    requires
        b.len() <= usize::MAX,
        decodable(b),
        decoded(b, c, s),
        c.overclocks@.len() + c.cosmetics@.len() <= u32::MAX,
        first_match(b, PERK_POINTS_MARKER@) is Some,
        distinct_keys(c),
    ensures
        patched(s) == Ok::<Seq<u8>, SaveError>(b),
        splice_points(b) is Some,
        encoded(s) == Ok::<Seq<u8>, SaveError>(
            b.subrange(0, splice_points(b).unwrap().0) + unforged_block(s.cores())
                + b.subrange(splice_points(b).unwrap().1, b.len() as int),
        ),
{
    lemma_classes_same(b, c, s);
    lemma_counters_same(b, c, s);
    lemma_brewing_same(b, c, s);
    lemma_minerals_same(b, c, s);
    lemma_cores_same(b, c, s);
    lemma_decoded_parts(b, c, s);
    assert(patched(s) == Ok::<Seq<u8>, SaveError>(b));
    lemma_item_lists_splice(b);
    lemma_classified_writable(b, c, s.matrix_cores);
    assert(s.cores() == s.matrix_cores);
}

/// Writing a field located `delta` bytes past a marker, with `delta` at
/// least the marker's length, and reading it back gives the value written.
pub proof fn lemma_marker_field_write_read(b: Seq<u8>, m: Seq<u8>, delta: int, v: u32)
    requires
        delta >= m.len(),
        field_u32(b, marker_field(b, m, delta)) is Some,
    ensures
        marker_field(patch_u32(b, marker_field(b, m, delta).unwrap(), v), m, delta)
            == marker_field(b, m, delta),
        field_u32(
            patch_u32(b, marker_field(b, m, delta).unwrap(), v),
            marker_field(b, m, delta),
        ) == Some(v),
{
    let o = marker_field(b, m, delta).unwrap();
    let p = first_match(b, m).unwrap();
    crate::locate::lemma_first_match_found(b, m);
    crate::codec::lemma_write_read(b, o, v);
    crate::locate::lemma_first_match_kept(b, patch_u32(b, o, v), m, p);
}

/// The item lists of `b` are located where encoding put them: the forged
/// list ends at `p`, the region's end marker follows the rebuilt block of `m`
/// at once, and the unforged list holds as many identifiers as `m` has
/// unforged entries, starting just past the block's footer.
pub open spec fn found_as_written(b: Seq<u8>, p: int, m: MatrixCores) -> bool {
    match item_lists(b) {
        Some(l) => {
            &&& l.start + 141 + 16 * l.forged_count == p
            &&& l.end == p + unforged_block(m).len()
            &&& l.unforged_count == unforged_count(m)
            &&& unforged_count(m) > 0 ==> l.start + l.unforged_base == p + 143
        },
        None => false,
    }
}

/// Where the forged list of an encoding of `s` ends.
pub open spec fn kept_prefix_end(s: SaveFile) -> int {
    splice_points(patched(s)->Ok_0).unwrap().0
}

/// What a successful encoding of `s` is made of.
proof fn lemma_encoded_parts(s: SaveFile, b1: Seq<u8>)
    requires
        encoded(s) == Ok::<Seq<u8>, SaveError>(b1),
    ensures
        patched(s) is Ok,
        splice_points(patched(s)->Ok_0) is Some,
        writable(s.cores()),
        ({
            let pb = patched(s)->Ok_0;
            let (p, e) = splice_points(pb).unwrap();
            &&& kept_prefix_end(s) == p
            &&& 0 <= p <= e <= pb.len()
            &&& b1 == pb.subrange(0, p) + unforged_block(s.cores()) + pb.subrange(e, pb.len() as int)
        }),
{
    let pb = patched(s)->Ok_0;
    crate::locate::lemma_first_match_found(pb, FORGED_MARKER@);
    crate::locate::lemma_first_match_found(pb, REGION_END_MARKER@);
}

/// Encoding `s`, decoding the result `b1` against a catalog `c` with the
/// same keys as the catalog of `s`, all distinct, and encoding again gives
/// `b1` once more, wherever decoding `b1` finds its item lists where the
/// first encoding put them.
#[verifier::rlimit(100)]
pub proof fn lemma_save_idempotent(s: SaveFile, b1: Seq<u8>, c: MatrixCores, s1: SaveFile)
    requires
        encoded(s) == Ok::<Seq<u8>, SaveError>(b1),
        b1.len() <= usize::MAX,
        decodable(b1),
        decoded(b1, c, s1),
        same_keys(c, s.cores()),
        distinct_keys(c),
        c.overclocks@.len() + c.cosmetics@.len() <= u32::MAX,
        found_as_written(b1, kept_prefix_end(s), s.cores()),
        first_match(b1, PERK_POINTS_MARKER@) is Some,
    ensures
        encoded(s1) == Ok::<Seq<u8>, SaveError>(b1),
{
    lemma_encoded_parts(s, b1);
    let m = s.cores();
    let pb = patched(s)->Ok_0;
    let p = splice_points(pb).unwrap().0;
    let e = splice_points(pb).unwrap().1;
    let blk = unforged_block(m);
    let l = item_lists(b1).unwrap();
    lemma_item_lists_inside(b1);
    lemma_item_lists_splice(b1);
    lemma_round_trip(b1, c, s1);
    lemma_decoded_parts(b1, c, s1);
    assert(b1.subrange(p, p + blk.len()) =~= blk);
    assert forall|i: int| 0 <= i < unforged_count(m) implies #[trigger] id_at(
        b1.subrange(l.start as int, l.end as int),
        l.unforged_base as int,
        i,
    ) == key_id(unforged_keys(m)[i]) by {
        lemma_block_read_back(b1, p, m, l, i);
    }
    lemma_reclassified_block(b1, c, s1.matrix_cores, m);
    assert(s1.cores() == s1.matrix_cores);
    assert(b1.subrange(0, p) + blk + b1.subrange(p + blk.len(), b1.len() as int) =~= b1);
}

} // verus!
