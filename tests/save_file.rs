use deeprockgalactic_saveeditor::catalog::{key_to_id, Cost, Cosmetic, MatrixCores, Overclock, OverclockState};
use deeprockgalactic_saveeditor::codec::{read_u32_le, u32_le_bytes, write_u32_le};
use deeprockgalactic_saveeditor::error::SaveError;
use deeprockgalactic_saveeditor::items::{
    load_matrix_cores, locate_items, save_matrix_cores, FORGED_MARKER, REGION_END_MARKER,
    UNFORGED_FOOTER, UNFORGED_HEADER,
};
use deeprockgalactic_saveeditor::locate::{find, find_in};
use deeprockgalactic_saveeditor::resources::{
    get_resource_val, get_resources_pos, set_resource_val, BARLEY, BISMOR, BLANK_CORES, CROPPA,
    ENOR, ERROR_CORES, JADIZ, MAGNITE, MALT, RESOURCES_MARKER, STARCH, UMANITE, YEAST,
};
use deeprockgalactic_saveeditor::save_file::{
    get_brewing, get_minerals, Brewing, Minerals, SaveFile, CREDITS_MARKER, DR_MARKER, EN_MARKER,
    GU_MARKER, PERK_POINTS_MARKER, SC_MARKER,
};

const AA: [u8; 16] = [0xAA; 16];
const BB: [u8; 16] = [0xBB; 16];
const CC: [u8; 16] = [0xCC; 16];
const DD: [u8; 16] = [0xDD; 16];

fn key(id: &[u8; 16]) -> String {
    id.iter().map(|b| format!("{:02X}", b)).collect()
}

fn cost() -> Cost {
    Cost { credits: 1, bismor: 2, croppa: 3, enor: 4, jadiz: 5, magnite: 6, umanite: 7 }
}

fn overclock(name: &str) -> Overclock {
    Overclock {
        class: "Driller".to_string(),
        weapon: "Subata".to_string(),
        name: name.to_string(),
        cost: cost(),
        state: OverclockState::Unacquired,
    }
}

fn cosmetic(name: &str) -> Cosmetic {
    Cosmetic { class: "Scout".to_string(), name: name.to_string(), cost: cost(), state: OverclockState::Unacquired }
}

fn catalog(overclocks: &[[u8; 16]], cosmetics: &[[u8; 16]]) -> MatrixCores {
    MatrixCores {
        overclocks: overclocks.iter().enumerate().map(|(i, id)| (key(id), overclock(&format!("oc{}", i)))).collect(),
        cosmetics: cosmetics.iter().enumerate().map(|(i, id)| (key(id), cosmetic(&format!("co{}", i)))).collect(),
    }
}

fn push_u32(b: &mut Vec<u8>, v: u32) {
    b.extend_from_slice(&v.to_le_bytes());
}

fn class_record(b: &mut Vec<u8>, marker: &[u8; 22], xp: u32, promo: u32) {
    b.extend_from_slice(marker);
    b.extend_from_slice(&[0u8; 26]);
    push_u32(b, xp);
    b.extend_from_slice(&[0u8; 104]);
    push_u32(b, promo);
}

fn unforged_block(ids: &[[u8; 16]]) -> Vec<u8> {
    let mut b = Vec::new();
    if !ids.is_empty() {
        b.extend_from_slice(&UNFORGED_HEADER);
        push_u32(&mut b, ids.len() as u32);
        b.extend_from_slice(&UNFORGED_FOOTER);
        for id in ids {
            b.extend_from_slice(id);
        }
    }
    b
}

struct Layout {
    with_perk_points: bool,
    with_resources: bool,
}

fn build(forged: &[[u8; 16]], unforged: &[[u8; 16]], layout: Layout) -> Vec<u8> {
    let mut b = vec![0x11u8; 8];
    class_record(&mut b, &EN_MARKER, 1000, 1);
    class_record(&mut b, &SC_MARKER, 2000, 2);
    class_record(&mut b, &DR_MARKER, 3000, 3);
    class_record(&mut b, &GU_MARKER, 4000, 4);
    b.extend_from_slice(&CREDITS_MARKER);
    b.extend_from_slice(&[0u8; 26]);
    push_u32(&mut b, 12345);
    if layout.with_perk_points {
        b.extend_from_slice(&PERK_POINTS_MARKER);
        b.extend_from_slice(&[0u8; 26]);
        push_u32(&mut b, 17);
    }
    if layout.with_resources {
        b.extend_from_slice(&RESOURCES_MARKER);
        let ids = [YEAST, STARCH, BARLEY, MALT, BISMOR, ENOR, JADIZ, CROPPA, MAGNITE, UMANITE, ERROR_CORES, BLANK_CORES];
        for (i, id) in ids.iter().enumerate() {
            b.extend_from_slice(id);
            push_u32(&mut b, (i as f32 + 1.5).to_bits());
        }
    }
    b.extend_from_slice(&FORGED_MARKER);
    b.extend_from_slice(&[0u8; 47]);
    push_u32(&mut b, forged.len() as u32);
    b.extend_from_slice(&[0u8; 74]);
    for id in forged {
        b.extend_from_slice(id);
    }
    b.extend(unforged_block(unforged));
    b.extend_from_slice(&REGION_END_MARKER);
    b.extend_from_slice(&[0x22u8; 9]);
    b
}

fn full(forged: &[[u8; 16]], unforged: &[[u8; 16]]) -> Vec<u8> {
    build(forged, unforged, Layout { with_perk_points: true, with_resources: true })
}

/// The count of the unforged block of `b`, and its identifiers.
fn unforged_in(b: &[u8]) -> (u32, Vec<[u8; 16]>) {
    let l = locate_items(b).expect("item lists");
    let region = &b[l.start..l.end];
    if find(region, b"Owned").is_none() {
        return (0, vec![]);
    }
    let at = l.unforged_base - 77;
    let count = u32::from_le_bytes(region[at..at + 4].try_into().unwrap());
    let ids = (0..l.unforged_count)
        .map(|i| region[l.unforged_base + 16 * i..l.unforged_base + 16 * i + 16].try_into().unwrap())
        .collect();
    (count, ids)
}

#[test]
fn decode_reads_every_field() {
    let b = full(&[AA], &[BB]);
    let s = SaveFile::new(&b, &catalog(&[AA, BB, CC], &[])).unwrap();
    assert_eq!((s.eng_xp, s.scout_xp, s.drill_xp, s.gun_xp), (1000, 2000, 3000, 4000));
    assert_eq!((s.eng_num_promo, s.scout_num_promo, s.drill_num_promo, s.gun_num_promo), (1, 2, 3, 4));
    assert_eq!(s.credits, 12345);
    assert_eq!(s.perkpoints, 17);
    assert_eq!(f32::from_bits(s.brewing.yeast), 1.5);
    assert_eq!(f32::from_bits(s.brewing.malt), 4.5);
    assert_eq!(f32::from_bits(s.minerals.bismor), 5.5);
    assert_eq!(f32::from_bits(s.minerals.umanite), 10.5);
    assert_eq!(f32::from_bits(s.error_cores), 11.5);
    assert_eq!(f32::from_bits(s.blank_cores), 12.5);
    let states: Vec<OverclockState> = s.matrix_cores.overclocks.iter().map(|e| e.1.state).collect();
    assert_eq!(states, vec![OverclockState::Forged, OverclockState::Unforged, OverclockState::Unacquired]);
    assert_eq!(s.matrix_cores.overclocks[0].1.name, "oc0");
}

#[test]
fn cosmetics_are_classified_too() {
    let b = full(&[CC], &[DD]);
    let s = SaveFile::new(&b, &catalog(&[AA], &[CC, DD])).unwrap();
    assert_eq!(s.matrix_cores.overclocks[0].1.state, OverclockState::Unacquired);
    assert_eq!(s.matrix_cores.cosmetics[0].1.state, OverclockState::Forged);
    assert_eq!(s.matrix_cores.cosmetics[1].1.state, OverclockState::Unforged);
}

#[test]
fn missing_resource_marker_is_format_error() {
    let b = build(&[], &[AA], Layout { with_perk_points: true, with_resources: false });
    assert_eq!(SaveFile::new(&b, &catalog(&[AA], &[])).err(), Some(SaveError::Format));
}

#[test]
fn missing_class_marker_is_format_error() {
    let mut b = full(&[], &[]);
    let at = find(&b, &GU_MARKER).unwrap();
    b[at] ^= 0xFF;
    assert_eq!(SaveFile::new(&b, &catalog(&[], &[])).err(), Some(SaveError::Format));
}

#[test]
fn missing_perk_points_read_as_zero() {
    let b = build(&[], &[], Layout { with_perk_points: false, with_resources: true });
    let s = SaveFile::new(&b, &catalog(&[], &[])).unwrap();
    assert_eq!(s.perkpoints, 0);
    assert_eq!(s.save().err(), Some(SaveError::Format));
}

#[test]
fn truncated_buffer_is_format_error() {
    let b = full(&[AA], &[]);
    let end = find(&b, &REGION_END_MARKER).unwrap();
    assert_eq!(SaveFile::new(&b[..end], &catalog(&[], &[])).err(), Some(SaveError::Format));
    assert!(SaveFile::new(&[], &catalog(&[], &[])).is_err());
}

#[test]
fn round_trip_keeps_the_buffer() {
    let b = full(&[AA, BB], &[CC, DD]);
    let s = SaveFile::new(&b, &catalog(&[AA, CC], &[BB, DD])).unwrap();
    assert_eq!(s.save().unwrap(), b);
}

#[test]
fn round_trip_keeps_prefix_and_tail() {
    let b = full(&[AA], &[BB, CC]);
    // the catalog lists the unforged items in the other order
    let s = SaveFile::new(&b, &catalog(&[CC, BB, AA], &[])).unwrap();
    let out = s.save().unwrap();
    assert_eq!(out.len(), b.len());
    let keep = find(&b, &FORGED_MARKER).unwrap() + 141 + 16;
    assert_eq!(out[..keep], b[..keep]);
    let end = find(&b, &REGION_END_MARKER).unwrap();
    assert_eq!(out[end..], b[end..]);
    assert_eq!(unforged_in(&out), (2, vec![CC, BB]));
}

#[test]
fn second_save_of_a_saved_buffer_is_identical() {
    let b = full(&[AA], &[BB]);
    let cat = catalog(&[AA, BB, CC], &[DD]);
    let mut s = SaveFile::new(&b, &cat).unwrap();
    s.matrix_cores.overclocks[2].1.state = OverclockState::Unforged;
    s.matrix_cores.cosmetics[0].1.state = OverclockState::Unforged;
    s.credits = 99;
    let first = s.save().unwrap();
    let again = SaveFile::new(&first, &cat).unwrap();
    assert_eq!(again.save().unwrap(), first);
}

#[test]
fn scalar_fields_read_back_what_was_written() {
    let b = full(&[], &[]);
    let cat = catalog(&[], &[]);
    for v in [0u32, 1, u32::MAX] {
        let mut s = SaveFile::new(&b, &cat).unwrap();
        s.eng_xp = v;
        s.scout_xp = v;
        s.drill_xp = v;
        s.gun_xp = v;
        s.eng_num_promo = v;
        s.gun_num_promo = v;
        s.credits = v;
        s.perkpoints = v;
        let t = SaveFile::new(&s.save().unwrap(), &cat).unwrap();
        assert_eq!((t.eng_xp, t.scout_xp, t.drill_xp, t.gun_xp), (v, v, v, v));
        assert_eq!((t.eng_num_promo, t.gun_num_promo, t.credits, t.perkpoints), (v, v, v, v));
    }
    for f in [0.0f32, -0.0, f32::MAX, f32::MIN_POSITIVE, -1.25] {
        let mut s = SaveFile::new(&b, &cat).unwrap();
        s.minerals.croppa = f.to_bits();
        s.brewing.barley = f.to_bits();
        s.error_cores = f.to_bits();
        s.blank_cores = f.to_bits();
        let t = SaveFile::new(&s.save().unwrap(), &cat).unwrap();
        assert_eq!(t.minerals.croppa, f.to_bits());
        assert_eq!(t.brewing.barley, f.to_bits());
        assert_eq!(t.error_cores, f.to_bits());
        assert_eq!(t.blank_cores, f.to_bits());
        assert_eq!(t.minerals.bismor, 5.5f32.to_bits());
    }
}

#[test]
fn unforged_to_forged_leaves_the_unforged_block() {
    let b = full(&[AA], &[BB, CC]);
    let cat = catalog(&[AA, BB, CC], &[]);
    let mut s = SaveFile::new(&b, &cat).unwrap();
    s.matrix_cores.overclocks[1].1.state = OverclockState::Forged;
    let out = s.save().unwrap();
    assert_eq!(unforged_in(&out), (1, vec![CC]));
    assert_eq!(out.len(), b.len() - 16);
    let t = SaveFile::new(&out, &cat).unwrap();
    assert_eq!(t.matrix_cores.overclocks[0].1.state, OverclockState::Forged);
    assert_eq!(t.matrix_cores.overclocks[2].1.state, OverclockState::Unforged);
    // the forged list is kept as it was
    assert_eq!(t.matrix_cores.overclocks[1].1.state, OverclockState::Unacquired);
}

#[test]
fn adding_an_unforged_item_counts_three() {
    let b = full(&[], &[AA, BB]);
    let mut cat = catalog(&[AA, BB], &[]);
    let mut s = SaveFile::new(&b, &cat).unwrap();
    s.matrix_cores.overclocks.push((key(&CC), overclock("new")));
    s.matrix_cores.overclocks[2].1.state = OverclockState::Unforged;
    let out = s.save().unwrap();
    assert_eq!(unforged_in(&out), (3, vec![AA, BB, CC]));
    cat.overclocks.push((key(&CC), overclock("new")));
    let t = SaveFile::new(&out, &cat).unwrap();
    assert!(t.matrix_cores.overclocks.iter().all(|e| e.1.state == OverclockState::Unforged));
}

#[test]
fn no_unforged_items_write_no_block() {
    let b = full(&[AA], &[BB]);
    let mut s = SaveFile::new(&b, &catalog(&[AA, BB], &[])).unwrap();
    s.matrix_cores.overclocks[1].1.state = OverclockState::Unacquired;
    let out = s.save().unwrap();
    assert_eq!(out, full(&[AA], &[]));
    assert_eq!(find(&out, &UNFORGED_HEADER), None);
}

#[test]
fn malformed_key_is_catalog_error() {
    let b = full(&[], &[]);
    for bad in ["aaaaaaaaaaaaaaaaaaaaaaaaaaaaaaaa", "AAAA", "ZZAAAAAAAAAAAAAAAAAAAAAAAAAAAAAA", "AAA"] {
        let mut cat = catalog(&[], &[]);
        cat.cosmetics.push((bad.to_string(), cosmetic("bad")));
        let mut s = SaveFile::new(&b, &cat).unwrap();
        s.matrix_cores.cosmetics[0].1.state = OverclockState::Unforged;
        assert_eq!(s.save().err(), Some(SaveError::Catalog));
        s.matrix_cores.cosmetics[0].1.state = OverclockState::Forged;
        assert!(s.save().is_ok());
    }
}

#[test]
fn save_without_region_is_format_error() {
    let b = full(&[], &[]);
    let s = SaveFile::new(&b, &catalog(&[], &[])).unwrap();
    let end = find(&b, &REGION_END_MARKER).unwrap();
    assert_eq!(save_matrix_cores(&b[..end], &s.matrix_cores).err(), Some(SaveError::Format));
    assert_eq!(load_matrix_cores(&b[..end], &s.matrix_cores), None);
}

#[test]
fn keys_decode_to_identifiers() {
    assert_eq!(key_to_id(&key(&AA)), Some(AA.to_vec()));
    assert_eq!(key_to_id(&"000102030405060708090A0B0C0D0E0F".to_string()), Some((0u8..16).collect::<Vec<u8>>()));
    assert_eq!(key_to_id(&"000102030405060708090a0b0c0d0e0f".to_string()), None);
    assert_eq!(key_to_id(&"0001".to_string()), None);
    assert_eq!(key_to_id(&"0".to_string()), None);
}

#[test]
fn find_gives_the_first_occurrence() {
    let h = b"abcabcab";
    assert_eq!(find(h, b"bc"), Some(1));
    assert_eq!(find(h, b"cd"), None);
    assert_eq!(find(h, b""), Some(0));
    assert_eq!(find_in(h, 2, 8, b"bc"), Some(4));
    assert_eq!(find_in(h, 2, 5, b"bc"), None);
}

#[test]
fn codec_reads_and_writes_little_endian() {
    let mut b = vec![0u8, 1, 2, 3, 4, 5];
    assert_eq!(read_u32_le(&b, 1), Some(0x04030201));
    assert_eq!(read_u32_le(&b, 3), None);
    assert_eq!(read_u32_le(&b, usize::MAX), None);
    write_u32_le(&mut b, 2, 0xDEADBEEF);
    assert_eq!(b, vec![0, 1, 0xEF, 0xBE, 0xAD, 0xDE]);
    assert_eq!(u32_le_bytes(0x01020304), vec![4, 3, 2, 1]);
}

#[test]
fn resources_are_found_past_their_table() {
    let mut b = full(&[], &[]);
    let rp = get_resources_pos(&b).unwrap();
    assert_eq!(get_resource_val(&b, rp, &MAGNITE), Some(9.5f32.to_bits()));
    assert_eq!(get_resource_val(&b, rp + 200, &MAGNITE), None);
    assert_eq!(set_resource_val(&mut b, rp, &JADIZ, 42), Some(()));
    assert_eq!(get_resource_val(&b, rp, &JADIZ), Some(42));
    assert_eq!(set_resource_val(&mut b, rp, &[9u8; 16], 42), None);
    let m = get_minerals(&b).unwrap();
    assert_eq!(m, Minerals::new(5.5f32.to_bits(), 6.5f32.to_bits(), 42, 8.5f32.to_bits(), 9.5f32.to_bits(), 10.5f32.to_bits()));
    let g = get_brewing(&b).unwrap();
    assert_eq!(g, Brewing::new(1.5f32.to_bits(), 2.5f32.to_bits(), 3.5f32.to_bits(), 4.5f32.to_bits()));
    assert_eq!(get_minerals(&b[..rp]), None);
}

#[test]
fn defaults_are_zero_and_unacquired() {
    assert_eq!(OverclockState::default(), OverclockState::Unacquired);
    assert_eq!(Minerals::default(), Minerals::new(0, 0, 0, 0, 0, 0));
    assert_eq!(Brewing::default(), Brewing::new(0, 0, 0, 0));
}

#[test]
fn duplicate_keys_are_catalog_errors() {
    let b = full(&[], &[AA]);
    assert_eq!(SaveFile::new(&b, &catalog(&[AA, AA], &[])).err(), Some(SaveError::Catalog));
    assert_eq!(SaveFile::new(&b, &catalog(&[], &[BB, BB])).err(), Some(SaveError::Catalog));
    assert_eq!(SaveFile::new(&b, &catalog(&[AA], &[AA])).err(), Some(SaveError::Catalog));
    let truncated = &b[..10];
    assert_eq!(SaveFile::new(truncated, &catalog(&[AA, AA], &[])).err(), Some(SaveError::Format));
    let mut s = SaveFile::new(&b, &catalog(&[AA], &[])).unwrap();
    s.matrix_cores.cosmetics.push((key(&AA), cosmetic("again")));
    assert_eq!(s.save().err(), Some(SaveError::Catalog));
}
