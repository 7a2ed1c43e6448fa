//! Load, save, lazy maps, borrow discipline and error reporting of the store.

use luminol_store::fs::{FileId, FileSystem, MemFileSystem};
use luminol_store::records::{
    Record, Skill, Script, System, MapInfo, MapInfoEntry, MapRecord, RecordKind,
};
use luminol_store::store::{Data, ProjectConfig, StoreError};
use luminol_store::wire::{serialize_nil_padded, serialize_array, serialize_single};

const ALL_KINDS: [RecordKind; 11] = [
    RecordKind::Actors,
    RecordKind::Animations,
    RecordKind::Armors,
    RecordKind::Classes,
    RecordKind::CommonEvents,
    RecordKind::Enemies,
    RecordKind::Items,
    RecordKind::States,
    RecordKind::Tilesets,
    RecordKind::Troops,
    RecordKind::Weapons,
];

fn record(id: usize, name: &str) -> Record {
    Record { id, name: name.to_string() }
}

/// A complete project image whose script bundle sits under `scripts_name`.
fn make_project_fs(scripts_name: &str) -> MemFileSystem {
    let mut fs = MemFileSystem::new();
    for kind in ALL_KINDS {
        let recs = vec![record(1, "one"), record(2, "two")];
        fs.write(FileId::Records(kind), serialize_nil_padded::<Record>(&recs));
    }
    let skills = vec![Skill::new_default()];
    fs.write(FileId::Skills, serialize_nil_padded::<Skill>(&skills));
    let infos = vec![MapInfoEntry {
        id: 1,
        info: MapInfo { name: "Start".to_string(), parent_id: 0, order: 0 },
    }];
    fs.write(FileId::MapInfos, serialize_array::<MapInfoEntry>(&infos));
    let system = System { windowskin_name: "skin".to_string(), magic_number: 0 };
    fs.write(FileId::System, serialize_single::<System>(&system));
    let scripts = vec![Script { name: "Main".to_string(), data: vec![9, 9] }];
    fs.write(
        FileId::Scripts(scripts_name.to_string()),
        serialize_array::<Script>(&scripts),
    );
    fs
}

fn loaded_store(fs: &MemFileSystem, config: &mut ProjectConfig) -> Data {
    let mut data = Data::Unloaded;
    data.load(fs, config).unwrap();
    data
}

#[test]
fn load_populates_every_collection() {
    let fs = make_project_fs("Scripts");
    let mut config = ProjectConfig { scripts_path: "Scripts".to_string() };
    let mut data = loaded_store(&fs, &mut config);
    for kind in ALL_KINDS {
        let recs = data.take_records(kind).unwrap();
        assert_eq!(recs.len(), 2);
        assert_eq!(recs[0].id, 1);
        assert_eq!(recs[0].name, "one");
        data.put_records(kind, recs).unwrap();
    }
    let skills = data.take_skills().unwrap();
    assert_eq!(skills.len(), 1);
    data.put_skills(skills).unwrap();
    let infos = data.take_map_infos().unwrap();
    assert_eq!(infos.len(), 1);
    assert_eq!(infos[0].info.name, "Start");
    data.put_map_infos(infos).unwrap();
    let scripts = data.take_scripts().unwrap();
    assert_eq!(scripts.len(), 1);
    assert_eq!(scripts[0].name, "Main");
    data.put_scripts(scripts).unwrap();
    let system = data.take_system().unwrap();
    assert_eq!(system.windowskin_name, "skin");
    data.put_system(system).unwrap();
    // Maps are not eagerly loaded.
    assert!(matches!(data.get_map(1), Err(StoreError::MapNotCached(1))));
}

#[test]
fn load_missing_collection_reports_the_file() {
    let mut fs = make_project_fs("Scripts");
    fs.remove(&FileId::Records(RecordKind::Enemies));
    let mut config = ProjectConfig { scripts_path: "Scripts".to_string() };
    let mut data = Data::Unloaded;
    match data.load(&fs, &mut config) {
        Err(StoreError::MissingFile(FileId::Records(RecordKind::Enemies))) => {},
        other => panic!("unexpected load result: {:?}", other.is_ok()),
    }
    // The whole load aborted: the store stays unloaded.
    assert!(matches!(data.take_skills(), Err(StoreError::NotLoaded)));
}

#[test]
fn load_corrupt_collection_reports_the_file() {
    let mut fs = make_project_fs("Scripts");
    fs.write(FileId::Records(RecordKind::Weapons), vec![7, 7, 7]);
    let mut config = ProjectConfig { scripts_path: "Scripts".to_string() };
    let mut data = Data::Unloaded;
    match data.load(&fs, &mut config) {
        Err(StoreError::DecodeError(FileId::Records(RecordKind::Weapons))) => {},
        _ => panic!("expected a decode error for the weapon data"),
    }
}

#[test]
fn script_fallback_resolves_in_order() {
    // The configured name "A" is absent; both fixed fallbacks exist, and the
    // first of them wins and is written back into the configuration.
    let mut fs = make_project_fs("xScripts");
    let scripts = vec![Script { name: "Other".to_string(), data: vec![] }];
    fs.write(
        FileId::Scripts("Scripts".to_string()),
        serialize_array::<Script>(&scripts),
    );
    let mut config = ProjectConfig { scripts_path: "A".to_string() };
    let mut data = Data::Unloaded;
    data.load(&fs, &mut config).unwrap();
    assert_eq!(config.scripts_path, "xScripts");
    let loaded = data.take_scripts().unwrap();
    assert_eq!(loaded[0].name, "Main");
}

#[test]
fn script_fallback_failure_names_all_candidates() {
    let mut fs = make_project_fs("Elsewhere");
    fs.remove(&FileId::Scripts("Elsewhere".to_string()));
    let mut config = ProjectConfig { scripts_path: "A".to_string() };
    let mut data = Data::Unloaded;
    match data.load(&fs, &mut config) {
        Err(StoreError::ScriptsUnresolved(a, b, c)) => {
            assert_eq!(a, "A");
            assert_eq!(b, "xScripts");
            assert_eq!(c, "Scripts");
        },
        _ => panic!("expected the script bundle to stay unresolved"),
    }
    assert_eq!(config.scripts_path, "A");
}

#[test]
fn configured_scripts_name_wins_when_present() {
    let fs = make_project_fs("MyScripts");
    let mut config = ProjectConfig { scripts_path: "MyScripts".to_string() };
    let mut data = Data::Unloaded;
    data.load(&fs, &mut config).unwrap();
    assert_eq!(config.scripts_path, "MyScripts");
    drop(data);
}

#[test]
fn lazy_map_loads_once_and_stays_cached() {
    let mut fs = make_project_fs("Scripts");
    let map5 = MapRecord { tileset_id: 2, width: 30, height: 20 };
    fs.write(FileId::MapFile(5), serialize_single::<MapRecord>(&map5));
    let mut config = ProjectConfig { scripts_path: "Scripts".to_string() };
    let mut data = loaded_store(&fs, &mut config);

    let got = data.get_or_load_map(5, &fs).unwrap();
    assert_eq!(got, map5);

    // Once cached, the entry survives without its file: the store answers
    // from memory, not from another read.
    fs.remove(&FileId::MapFile(5));
    let cached = data.get_or_load_map(5, &fs).unwrap();
    assert_eq!(cached, map5);
    let direct = data.get_map(5).unwrap();
    assert_eq!(direct, map5);

    // An uncached id is refused by get_map and missing for get_or_load_map.
    assert!(matches!(data.get_map(6), Err(StoreError::MapNotCached(6))));
    assert!(matches!(
        data.get_or_load_map(6, &fs),
        Err(StoreError::MissingFile(FileId::MapFile(6)))
    ));
}

#[test]
fn corrupt_map_file_fails_the_call() {
    let mut fs = make_project_fs("Scripts");
    fs.write(FileId::MapFile(7), vec![1, 2]);
    let mut config = ProjectConfig { scripts_path: "Scripts".to_string() };
    let mut data = loaded_store(&fs, &mut config);
    assert!(matches!(
        data.get_or_load_map(7, &fs),
        Err(StoreError::DecodeError(FileId::MapFile(7)))
    ));
}

#[test]
fn set_map_overwrites_a_cached_entry() {
    let mut fs = make_project_fs("Scripts");
    let map5 = MapRecord { tileset_id: 2, width: 30, height: 20 };
    fs.write(FileId::MapFile(5), serialize_single::<MapRecord>(&map5));
    let mut config = ProjectConfig { scripts_path: "Scripts".to_string() };
    let mut data = loaded_store(&fs, &mut config);
    data.get_or_load_map(5, &fs).unwrap();
    let edited = MapRecord { tileset_id: 3, width: 31, height: 21 };
    data.set_map(5, edited).unwrap();
    assert_eq!(data.get_map(5).unwrap(), edited);
    assert!(matches!(data.set_map(6, edited), Err(StoreError::MapNotCached(6))));
}

#[test]
fn magic_number_is_fresh_on_each_load_and_save() {
    let fs = make_project_fs("Scripts");
    let mut config = ProjectConfig { scripts_path: "Scripts".to_string() };

    let mut data1 = loaded_store(&fs, &mut config);
    let sys1 = data1.take_system().unwrap();
    let magic1 = sys1.magic_number;
    data1.put_system(sys1).unwrap();

    let mut data2 = loaded_store(&fs, &mut config);
    let sys2 = data2.take_system().unwrap();
    let magic2 = sys2.magic_number;
    data2.put_system(sys2).unwrap();
    assert_ne!(magic1, magic2);

    let mut out = MemFileSystem::new();
    data2.save(&mut out, &config).unwrap();
    let sys3 = data2.take_system().unwrap();
    assert_ne!(magic2, sys3.magic_number);
}

#[test]
fn save_writes_exactly_the_default_project_files() {
    let mut data = Data::from_defaults();
    let config = ProjectConfig { scripts_path: "Scripts".to_string() };
    let mut fs = MemFileSystem::new();
    data.save(&mut fs, &config).unwrap();
    for kind in ALL_KINDS {
        assert!(fs.contains(&FileId::Records(kind)));
    }
    assert!(fs.contains(&FileId::Skills));
    assert!(fs.contains(&FileId::MapInfos));
    assert!(fs.contains(&FileId::System));
    assert!(fs.contains(&FileId::Scripts("Scripts".to_string())));
    assert!(fs.contains(&FileId::MapFile(1)));
    // Nothing else was written.
    assert!(!fs.contains(&FileId::MapFile(2)));
    assert!(!fs.contains(&FileId::Scripts("xScripts".to_string())));
}

#[test]
fn saved_default_project_loads_back() {
    let mut data = Data::from_defaults();
    let mut config = ProjectConfig { scripts_path: "Scripts".to_string() };
    let mut fs = MemFileSystem::new();
    data.save(&mut fs, &config).unwrap();
    let mut reloaded = Data::Unloaded;
    reloaded.load(&fs, &mut config).unwrap();
    let actors = reloaded.take_records(RecordKind::Actors).unwrap();
    assert_eq!(actors.len(), 1);
    assert_eq!(actors[0].id, 0);
    let infos = reloaded.take_map_infos().unwrap();
    assert_eq!(infos.len(), 1);
    assert_eq!(infos[0].id, 1);
    reloaded.put_map_infos(infos).unwrap();
    // Every collection of a fresh project holds one default record, the
    // script bundle included.
    let scripts = reloaded.take_scripts().unwrap();
    assert_eq!(scripts.len(), 1);
    assert_eq!(scripts[0].name, "");
    assert!(scripts[0].data.is_empty());
}

#[test]
fn from_defaults_gives_one_default_script() {
    let mut data = Data::from_defaults();
    let scripts = data.take_scripts().unwrap();
    assert_eq!(scripts.len(), 1);
    assert_eq!(scripts[0].name, "");
    assert!(scripts[0].data.is_empty());
}

#[test]
fn borrow_exclusivity_same_collection_fails() {
    let mut data = Data::from_defaults();
    let items = data.take_records(RecordKind::Items).unwrap();
    assert!(matches!(
        data.take_records(RecordKind::Items),
        Err(StoreError::BorrowViolation)
    ));
    data.put_records(RecordKind::Items, items).unwrap();
    // After the view is returned, taking succeeds again.
    let again = data.take_records(RecordKind::Items).unwrap();
    data.put_records(RecordKind::Items, again).unwrap();
}

#[test]
fn borrow_exclusivity_different_collections_succeed() {
    let mut data = Data::from_defaults();
    let items = data.take_records(RecordKind::Items).unwrap();
    let animations = data.take_records(RecordKind::Animations).unwrap();
    let skills = data.take_skills().unwrap();
    data.put_records(RecordKind::Items, items).unwrap();
    data.put_records(RecordKind::Animations, animations).unwrap();
    data.put_skills(skills).unwrap();
}

#[test]
fn returning_an_untaken_view_is_a_borrow_violation() {
    let mut data = Data::from_defaults();
    assert!(matches!(
        data.put_records(RecordKind::Items, Vec::new()),
        Err(StoreError::BorrowViolation)
    ));
}

#[test]
fn save_with_outstanding_borrow_is_refused() {
    let mut data = Data::from_defaults();
    let config = ProjectConfig { scripts_path: "Scripts".to_string() };
    let items = data.take_records(RecordKind::Items).unwrap();
    let mut fs = MemFileSystem::new();
    assert!(matches!(data.save(&mut fs, &config), Err(StoreError::BorrowViolation)));
    assert!(!fs.contains(&FileId::System));
    data.put_records(RecordKind::Items, items).unwrap();
    data.save(&mut fs, &config).unwrap();
}

#[test]
fn unloaded_store_refuses_accessors() {
    let mut data = Data::Unloaded;
    assert!(matches!(data.take_records(RecordKind::Actors), Err(StoreError::NotLoaded)));
    assert!(matches!(data.take_system(), Err(StoreError::NotLoaded)));
    let config = ProjectConfig { scripts_path: "Scripts".to_string() };
    let mut fs = MemFileSystem::new();
    assert!(matches!(data.save(&mut fs, &config), Err(StoreError::NotLoaded)));
}

#[test]
fn unload_discards_the_state() {
    let mut data = Data::from_defaults();
    data.unload();
    assert!(matches!(data.take_skills(), Err(StoreError::NotLoaded)));
}

#[test]
fn rxdata_extension() {
    let data = Data::Unloaded;
    assert_eq!(data.rxdata_ext(), "rxdata");
}
