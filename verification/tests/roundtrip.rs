//! Round trips and byte-level shape of the record codec.

use luminol_store::codec::{write_u32, write_i32, write_usize, read_u32, read_i32, read_usize};
use luminol_store::records::{
    Record, Skill, Script, System, MapInfo, MapInfoEntry, MapRecord, AudioFile, Occasion,
};
use luminol_store::wire::{
    serialize_nil_padded, deserialize_nil_padded, serialize_array, deserialize_array,
    serialize_single, deserialize_single,
};

fn record(id: usize, name: &str) -> Record {
    Record { id, name: name.to_string() }
}

fn skill_sample() -> Skill {
    Skill {
        id: 7,
        name: "Fire".to_string(),
        icon_name: Some("fire-icon".to_string()),
        description: "A burst of flame.".to_string(),
        scope: 1,
        occasion: Occasion::OnlyBattle,
        animation1_id: Some(12),
        animation2_id: None,
        menu_se: AudioFile { name: "se-fire".to_string(), volume: 80, pitch: -50 },
        common_event_id: None,
        sp_cost: 6,
        power: -40,
        atk_f: 0,
        eva_f: 5,
        str_f: 100,
        dex_f: 0,
        agi_f: 0,
        int_f: 100,
        hit: 95,
        pdef_f: 10,
        mdef_f: 60,
        variance: 15,
        element_set: vec![1, 3, 8],
        plus_state_set: vec![],
        minus_state_set: vec![4],
    }
}

fn assert_record_eq(a: &Record, b: &Record) {
    assert_eq!(a.id, b.id);
    assert_eq!(a.name, b.name);
}

fn assert_skill_eq(a: &Skill, b: &Skill) {
    assert_eq!(a.id, b.id);
    assert_eq!(a.name, b.name);
    assert_eq!(a.icon_name, b.icon_name);
    assert_eq!(a.description, b.description);
    assert_eq!(a.scope, b.scope);
    assert_eq!(a.occasion, b.occasion);
    assert_eq!(a.animation1_id, b.animation1_id);
    assert_eq!(a.animation2_id, b.animation2_id);
    assert_eq!(a.menu_se.name, b.menu_se.name);
    assert_eq!(a.menu_se.volume, b.menu_se.volume);
    assert_eq!(a.menu_se.pitch, b.menu_se.pitch);
    assert_eq!(a.common_event_id, b.common_event_id);
    assert_eq!(a.sp_cost, b.sp_cost);
    assert_eq!(a.power, b.power);
    assert_eq!(a.atk_f, b.atk_f);
    assert_eq!(a.eva_f, b.eva_f);
    assert_eq!(a.str_f, b.str_f);
    assert_eq!(a.dex_f, b.dex_f);
    assert_eq!(a.agi_f, b.agi_f);
    assert_eq!(a.int_f, b.int_f);
    assert_eq!(a.hit, b.hit);
    assert_eq!(a.pdef_f, b.pdef_f);
    assert_eq!(a.mdef_f, b.mdef_f);
    assert_eq!(a.variance, b.variance);
    assert_eq!(a.element_set, b.element_set);
    assert_eq!(a.plus_state_set, b.plus_state_set);
    assert_eq!(a.minus_state_set, b.minus_state_set);
}

#[test]
fn u32_little_endian_bytes() {
    let mut out: Vec<u8> = Vec::new();
    write_u32(&mut out, 0x0102_0304);
    assert_eq!(out, vec![0x04, 0x03, 0x02, 0x01]);
    let (v, p) = read_u32(&out, 0).unwrap();
    assert_eq!(v, 0x0102_0304);
    assert_eq!(p, 4);
}

#[test]
fn u32_truncated_fails() {
    let out = vec![0x04, 0x03, 0x02];
    assert!(read_u32(&out, 0).is_none());
}

#[test]
fn i32_sign_and_magnitude() {
    let mut out: Vec<u8> = Vec::new();
    write_i32(&mut out, -1);
    assert_eq!(out, vec![1, 0, 0, 0, 0]);
    let (v, _) = read_i32(&out, 0).unwrap();
    assert_eq!(v, -1);
    let mut out2: Vec<u8> = Vec::new();
    write_i32(&mut out2, i32::MIN);
    let (v2, _) = read_i32(&out2, 0).unwrap();
    assert_eq!(v2, i32::MIN);
}

#[test]
fn usize_round_trip() {
    let mut out: Vec<u8> = Vec::new();
    write_usize(&mut out, 123_456_789);
    let (v, p) = read_usize(&out, 0).unwrap();
    assert_eq!(v, 123_456_789);
    assert_eq!(p, 8);
}

#[test]
fn records_round_trip_empty() {
    let recs: Vec<Record> = Vec::new();
    let bytes = serialize_nil_padded::<Record>(&recs);
    let back: Vec<Record> = deserialize_nil_padded::<Record>(&bytes).unwrap();
    assert_eq!(back.len(), 0);
}

#[test]
fn records_round_trip_single() {
    let recs = vec![record(1, "Aluxes")];
    let bytes = serialize_nil_padded::<Record>(&recs);
    let back: Vec<Record> = deserialize_nil_padded::<Record>(&bytes).unwrap();
    assert_eq!(back.len(), 1);
    assert_record_eq(&back[0], &recs[0]);
}

#[test]
fn records_round_trip_several() {
    let recs = vec![record(1, "Aluxes"), record(2, "Basil"), record(3, "")];
    let bytes = serialize_nil_padded::<Record>(&recs);
    let back: Vec<Record> = deserialize_nil_padded::<Record>(&bytes).unwrap();
    assert_eq!(back.len(), 3);
    for i in 0..3 {
        assert_record_eq(&back[i], &recs[i]);
    }
}

#[test]
fn nil_padding_alignment_on_disk() {
    // Three records: the array header counts four elements, the sentinel tag
    // sits at offset 4, and the first record's presence tag follows it, so
    // the in-memory record at position 0 holds on-disk logical id 1.
    let recs = vec![record(1, "a"), record(2, "b"), record(3, "c")];
    let bytes = serialize_nil_padded::<Record>(&recs);
    assert_eq!(&bytes[0..4], &[4, 0, 0, 0]);
    assert_eq!(bytes[4], 0);
    assert_eq!(bytes[5], 1);
    // The first record body starts with its id as a little-endian word.
    assert_eq!(&bytes[6..14], &[1, 0, 0, 0, 0, 0, 0, 0]);
}

#[test]
fn nil_padding_missing_sentinel_is_rejected() {
    // A one-element array whose first element is a record, not the sentinel.
    let recs = vec![record(1, "a")];
    let with_sentinel = serialize_nil_padded::<Record>(&recs);
    let mut forged: Vec<u8> = Vec::new();
    forged.extend_from_slice(&[1, 0, 0, 0]);
    forged.extend_from_slice(&with_sentinel[5..]);
    assert!(deserialize_nil_padded::<Record>(&forged).is_none());
}

#[test]
fn nil_padding_zero_element_array_is_empty() {
    let bytes = vec![0, 0, 0, 0];
    let back: Vec<Record> = deserialize_nil_padded::<Record>(&bytes).unwrap();
    assert!(back.is_empty());
}

#[test]
fn empty_file_is_rejected() {
    let bytes: Vec<u8> = Vec::new();
    assert!(deserialize_nil_padded::<Record>(&bytes).is_none());
}

#[test]
fn trailing_garbage_is_rejected() {
    let recs = vec![record(1, "a")];
    let mut bytes = serialize_nil_padded::<Record>(&recs);
    bytes.push(0xff);
    assert!(deserialize_nil_padded::<Record>(&bytes).is_none());
}

#[test]
fn skills_round_trip() {
    let skills = vec![skill_sample()];
    let bytes = serialize_nil_padded::<Skill>(&skills);
    let back: Vec<Skill> = deserialize_nil_padded::<Skill>(&bytes).unwrap();
    assert_eq!(back.len(), 1);
    assert_skill_eq(&back[0], &skills[0]);
}

#[test]
fn skills_round_trip_default() {
    let skills = vec![Skill::new_default()];
    let bytes = serialize_nil_padded::<Skill>(&skills);
    let back: Vec<Skill> = deserialize_nil_padded::<Skill>(&bytes).unwrap();
    assert_skill_eq(&back[0], &skills[0]);
}

#[test]
fn scripts_round_trip() {
    let scripts = vec![
        Script { name: "Main".to_string(), data: vec![1, 2, 3, 255] },
        Script { name: "".to_string(), data: vec![] },
    ];
    let bytes = serialize_array::<Script>(&scripts);
    let back: Vec<Script> = deserialize_array::<Script>(&bytes).unwrap();
    assert_eq!(back.len(), 2);
    assert_eq!(back[0].name, "Main");
    assert_eq!(back[0].data, vec![1, 2, 3, 255]);
    assert_eq!(back[1].name, "");
    assert!(back[1].data.is_empty());
}

#[test]
fn map_infos_round_trip() {
    let infos = vec![
        MapInfoEntry { id: 1, info: MapInfo { name: "Intro".to_string(), parent_id: 0, order: 1 } },
        MapInfoEntry { id: 9, info: MapInfo { name: "Cave".to_string(), parent_id: 1, order: -2 } },
    ];
    let bytes = serialize_array::<MapInfoEntry>(&infos);
    let back: Vec<MapInfoEntry> = deserialize_array::<MapInfoEntry>(&bytes).unwrap();
    assert_eq!(back.len(), 2);
    assert_eq!(back[0].id, 1);
    assert_eq!(back[0].info.name, "Intro");
    assert_eq!(back[1].id, 9);
    assert_eq!(back[1].info.parent_id, 1);
    assert_eq!(back[1].info.order, -2);
}

#[test]
fn system_round_trip() {
    let system = System { windowskin_name: "001-Blue01".to_string(), magic_number: 0xdead_beef };
    let bytes = serialize_single::<System>(&system);
    let back: System = deserialize_single::<System>(&bytes).unwrap();
    assert_eq!(back.windowskin_name, "001-Blue01");
    assert_eq!(back.magic_number, 0xdead_beef);
}

#[test]
fn map_record_round_trip() {
    let m = MapRecord { tileset_id: 4, width: 25, height: 19 };
    let bytes = serialize_single::<MapRecord>(&m);
    let back: MapRecord = deserialize_single::<MapRecord>(&bytes).unwrap();
    assert_eq!(back, m);
}

#[test]
fn unicode_names_round_trip() {
    let recs = vec![record(1, "Höhle — 洞窟")];
    let bytes = serialize_nil_padded::<Record>(&recs);
    let back: Vec<Record> = deserialize_nil_padded::<Record>(&bytes).unwrap();
    assert_eq!(back[0].name, "Höhle — 洞窟");
}

#[test]
fn corrupt_skill_occasion_is_rejected() {
    let skills = vec![Skill::new_default()];
    let mut bytes = serialize_nil_padded::<Skill>(&skills);
    // The occasion code byte follows the count (4), sentinel (1), tag (1),
    // id (8), name (4), icon presence (1), description (4), and scope (5).
    let occasion_pos = 4 + 1 + 1 + 8 + 4 + 1 + 4 + 5;
    bytes[occasion_pos] = 9;
    assert!(deserialize_nil_padded::<Skill>(&bytes).is_none());
}
