//! The project data store.
//!
//! The store is either `Unloaded` or `Loaded`.  When loaded it owns every
//! decoded collection of the open project.  Collections are handed out as
//! exclusive views through a take/put discipline: a taken collection leaves an
//! empty slot behind, a second take of the same slot is a borrow violation,
//! and `save` demands every slot back.  Map records are loaded lazily into a
//! cache on first access and never evicted.

use vstd::prelude::*;
use crate::records::{
    Record, RecordView, Skill, SkillView, Script, ScriptView, System, SystemView, MapInfo,
    MapInfoEntry, MapInfoEntryView, MapRecord, RecordKind, default_map_info, default_map_record,
    default_skill, default_script,
};
use crate::fs::{FileId, FileKey, FileSystem};
use crate::wire::{
    parse_nil_padded, parse_array, parse_single, enc_nil_padded, enc_array, enc_single,
    serialize_nil_padded, serialize_array, serialize_single, deserialize_nil_padded,
    deserialize_array, deserialize_single, wf_wire_seq, fits_nil_padded, fits_array, WireRecord,
    lemma_parse_nil_padded_wf, lemma_parse_array_wf, lemma_parse_single_wf,
};

verus! {

/// Relies on `rand::random`: draws a value from the thread-local generator.
/// Nothing is promised of the result.
pub assume_specification<T>[ rand::random::<T> ]() -> (r: T)
    where rand::distributions::Standard: rand::distributions::Distribution<T>,
;

/// The errors of the store.
#[derive(Debug)]
pub enum StoreError {
    /// The named file holds bytes that do not decode as its record type.
    DecodeError(FileId),
    /// The named file is not present in the file system.
    MissingFile(FileId),
    /// The file system refused to write the named file.
    WriteFailed(FileId),
    /// None of the three candidate script-bundle names decoded; the names are
    /// carried in the order they were tried.
    ScriptsUnresolved(String, String, String),
    /// An exclusive view was requested while one is outstanding, a view was
    /// returned that was not taken, or a save was attempted with views out.
    BorrowViolation,
    /// An accessor was called while no project is open.
    NotLoaded,
    /// A map record was requested that is not in the cache.
    MapNotCached(usize),
}

/// The host-project configuration the store collaborates with: it supplies
/// the script-bundle name to try first, and receives the name that resolved.
pub struct ProjectConfig {
    pub scripts_path: String,
}

// ---------------------------------------------------------------------------
// The map cache
// ---------------------------------------------------------------------------

/// The cache as a map from map id to record; a later entry for the same id
/// shadows an earlier one.
pub open spec fn maps_view(entries: Seq<(usize, MapRecord)>) -> Map<int, MapRecord>
    decreases entries.len(),
{
    if entries.len() == 0 {
        Map::<int, MapRecord>::empty()
    } else {
        maps_view(entries.drop_last()).insert(entries.last().0 as int, entries.last().1)
    }
}

proof fn lemma_maps_view_found(entries: Seq<(usize, MapRecord)>, i: int)
    requires
        0 <= i < entries.len(),
        forall|j: int| i < j < entries.len() ==> entries[j].0 != entries[i].0,
    ensures
        maps_view(entries).contains_key(entries[i].0 as int),
        maps_view(entries)[entries[i].0 as int] == entries[i].1,
    decreases entries.len(),
{
    if i < entries.len() - 1 {
        assert(entries.drop_last()[i] == entries[i]);
        lemma_maps_view_found(entries.drop_last(), i);
    }
}

/// No map id occurs twice in the cache.
pub open spec fn unique_map_ids(entries: Seq<(usize, MapRecord)>) -> bool {
    forall|i: int, j: int|
        0 <= i < j < entries.len() ==> (#[trigger] entries[i].0) != (#[trigger] entries[j].0)
}

proof fn lemma_maps_view_contains(entries: Seq<(usize, MapRecord)>, i: int)
    requires
        0 <= i < entries.len(),
    ensures
        maps_view(entries).contains_key(entries[i].0 as int),
    decreases entries.len(),
{
    if i < entries.len() - 1 {
        assert(entries.drop_last()[i] == entries[i]);
        lemma_maps_view_contains(entries.drop_last(), i);
    }
}

/// Removing one cache entry leaves the view unchanged at every other id.
proof fn lemma_maps_view_remove_at(entries: Seq<(usize, MapRecord)>, i: int)
    requires
        0 <= i < entries.len(),
    ensures
        forall|k2: int|
            k2 != entries[i].0 as int ==> #[trigger] maps_view(entries.remove(i)).contains_key(k2)
                == maps_view(entries).contains_key(k2),
        forall|k2: int|
            k2 != entries[i].0 as int && maps_view(entries).contains_key(k2)
                ==> #[trigger] maps_view(entries.remove(i))[k2] == maps_view(entries)[k2],
    decreases entries.len(),
{
    let k = entries[i].0 as int;
    if i == entries.len() - 1 {
        assert(entries.remove(i) =~= entries.drop_last());
    } else {
        assert(entries.drop_last()[i] == entries[i]);
        lemma_maps_view_remove_at(entries.drop_last(), i);
        assert(entries.remove(i).drop_last() =~= entries.drop_last().remove(i));
        assert(entries.remove(i).last() == entries.last());
        let last_k = entries.last().0 as int;
        assert forall|k2: int|
            k2 != k implies #[trigger] maps_view(entries.remove(i)).contains_key(k2) == maps_view(
            entries,
        ).contains_key(k2) by {
            if k2 != last_k {
                assert(maps_view(entries.drop_last().remove(i)).contains_key(k2) == maps_view(
                    entries.drop_last(),
                ).contains_key(k2));
            }
        }
        assert forall|k2: int|
            k2 != k && maps_view(entries).contains_key(k2) implies #[trigger] maps_view(
            entries.remove(i),
        )[k2] == maps_view(entries)[k2] by {
            if k2 != last_k {
                assert(maps_view(entries.drop_last().remove(i)).contains_key(k2) == maps_view(
                    entries.drop_last(),
                ).contains_key(k2));
                if maps_view(entries.drop_last()).contains_key(k2) {
                    assert(maps_view(entries.drop_last().remove(i))[k2] == maps_view(
                        entries.drop_last(),
                    )[k2]);
                }
            }
        }
    }
}

proof fn lemma_maps_view_absent(entries: Seq<(usize, MapRecord)>, id: usize)
    requires
        forall|j: int| 0 <= j < entries.len() ==> (#[trigger] entries[j].0) != id,
    ensures
        !maps_view(entries).contains_key(id as int),
    decreases entries.len(),
{
    if entries.len() > 0 {
        lemma_maps_view_absent(entries.drop_last(), id);
    }
}

// ---------------------------------------------------------------------------
// The loaded state
// ---------------------------------------------------------------------------

/// Everything a loaded project owns.  A collection slot is `None` exactly
/// while an exclusive view of it is outstanding.
pub struct LoadedState {
    pub actors: Option<Vec<Record>>,
    pub animations: Option<Vec<Record>>,
    pub armors: Option<Vec<Record>>,
    pub classes: Option<Vec<Record>>,
    pub common_events: Option<Vec<Record>>,
    pub enemies: Option<Vec<Record>>,
    pub items: Option<Vec<Record>>,
    pub skills: Option<Vec<Skill>>,
    pub states: Option<Vec<Record>>,
    pub tilesets: Option<Vec<Record>>,
    pub troops: Option<Vec<Record>>,
    pub weapons: Option<Vec<Record>>,
    pub map_infos: Option<Vec<MapInfoEntry>>,
    pub system: Option<System>,
    pub scripts: Option<Vec<Script>>,
    pub maps: Vec<(usize, MapRecord)>,
}

/// The slot of one basic record collection.
pub open spec fn records_slot(st: LoadedState, kind: RecordKind) -> Option<Vec<Record>> {
    match kind {
        RecordKind::Actors => st.actors,
        RecordKind::Animations => st.animations,
        RecordKind::Armors => st.armors,
        RecordKind::Classes => st.classes,
        RecordKind::CommonEvents => st.common_events,
        RecordKind::Enemies => st.enemies,
        RecordKind::Items => st.items,
        RecordKind::States => st.states,
        RecordKind::Tilesets => st.tilesets,
        RecordKind::Troops => st.troops,
        RecordKind::Weapons => st.weapons,
    }
}

pub open spec fn set_records_slot(st: LoadedState, kind: RecordKind, v: Option<Vec<Record>>)
    -> LoadedState {
    match kind {
        RecordKind::Actors => LoadedState { actors: v, ..st },
        RecordKind::Animations => LoadedState { animations: v, ..st },
        RecordKind::Armors => LoadedState { armors: v, ..st },
        RecordKind::Classes => LoadedState { classes: v, ..st },
        RecordKind::CommonEvents => LoadedState { common_events: v, ..st },
        RecordKind::Enemies => LoadedState { enemies: v, ..st },
        RecordKind::Items => LoadedState { items: v, ..st },
        RecordKind::States => LoadedState { states: v, ..st },
        RecordKind::Tilesets => LoadedState { tilesets: v, ..st },
        RecordKind::Troops => LoadedState { troops: v, ..st },
        RecordKind::Weapons => LoadedState { weapons: v, ..st },
    }
}

/// No exclusive view is outstanding.
pub open spec fn all_present(st: LoadedState) -> bool {
    &&& st.actors is Some
    &&& st.animations is Some
    &&& st.armors is Some
    &&& st.classes is Some
    &&& st.common_events is Some
    &&& st.enemies is Some
    &&& st.items is Some
    &&& st.skills is Some
    &&& st.states is Some
    &&& st.tilesets is Some
    &&& st.troops is Some
    &&& st.weapons is Some
    &&& st.map_infos is Some
    &&& st.system is Some
    &&& st.scripts is Some
}

/// The two states agree on everything but the map cache.
pub open spec fn unchanged_except_maps(a: LoadedState, b: LoadedState) -> bool {
    &&& a.actors == b.actors
    &&& a.animations == b.animations
    &&& a.armors == b.armors
    &&& a.classes == b.classes
    &&& a.common_events == b.common_events
    &&& a.enemies == b.enemies
    &&& a.items == b.items
    &&& a.skills == b.skills
    &&& a.states == b.states
    &&& a.tilesets == b.tilesets
    &&& a.troops == b.troops
    &&& a.weapons == b.weapons
    &&& a.map_infos == b.map_infos
    &&& a.system == b.system
    &&& a.scripts == b.scripts
}

/// The same state with the system magic number replaced.
pub open spec fn with_magic(st: LoadedState, m: u32) -> LoadedState
    recommends
        st.system is Some,
{
    match st.system {
        Some(sys) => LoadedState { system: Some(System { magic_number: m, ..sys }), ..st },
        None => st,
    }
}

// ---------------------------------------------------------------------------
// What the files of a project decode to
// ---------------------------------------------------------------------------

pub open spec fn records_of(files: Map<FileKey, Seq<u8>>, kind: RecordKind) -> Seq<RecordView> {
    parse_nil_padded::<Record>(files[FileKey::Records(kind)])->Some_0
}

pub open spec fn skills_of(files: Map<FileKey, Seq<u8>>) -> Seq<SkillView> {
    parse_nil_padded::<Skill>(files[FileKey::Skills])->Some_0
}

pub open spec fn map_infos_of(files: Map<FileKey, Seq<u8>>) -> Seq<MapInfoEntryView> {
    parse_array::<MapInfoEntry>(files[FileKey::MapInfos])->Some_0
}

pub open spec fn system_of(files: Map<FileKey, Seq<u8>>) -> SystemView {
    parse_single::<System>(files[FileKey::System])->Some_0
}

pub open spec fn scripts_ok(files: Map<FileKey, Seq<u8>>, name: Seq<char>) -> bool {
    &&& files.contains_key(FileKey::Scripts(name))
    &&& parse_array::<Script>(files[FileKey::Scripts(name)]) is Some
}

pub open spec fn scripts_of(files: Map<FileKey, Seq<u8>>, name: Seq<char>) -> Seq<ScriptView> {
    parse_array::<Script>(files[FileKey::Scripts(name)])->Some_0
}

/// The first of the three candidate script-bundle names that decodes: the
/// configured name, then the first fixed fallback, then the second.
pub open spec fn resolve_scripts(files: Map<FileKey, Seq<u8>>, cfg: Seq<char>) -> Option<
    (Seq<char>, Seq<ScriptView>),
> {
    if scripts_ok(files, cfg) {
        Some((cfg, scripts_of(files, cfg)))
    } else if scripts_ok(files, "xScripts"@) {
        Some(("xScripts"@, scripts_of(files, "xScripts"@)))
    } else if scripts_ok(files, "Scripts"@) {
        Some(("Scripts"@, scripts_of(files, "Scripts"@)))
    } else {
        None
    }
}

/// Why a load fails: a file is absent, a file does not decode, or no script
/// bundle resolved.
pub enum LoadFailure {
    Missing(FileKey),
    Decode(FileKey),
    Scripts,
}

pub open spec fn basic_failure(files: Map<FileKey, Seq<u8>>, kind: RecordKind) -> Option<
    LoadFailure,
> {
    let k = FileKey::Records(kind);
    if !files.contains_key(k) {
        Some(LoadFailure::Missing(k))
    } else if parse_nil_padded::<Record>(files[k]) is None {
        Some(LoadFailure::Decode(k))
    } else {
        None
    }
}

pub open spec fn skills_failure(files: Map<FileKey, Seq<u8>>) -> Option<LoadFailure> {
    if !files.contains_key(FileKey::Skills) {
        Some(LoadFailure::Missing(FileKey::Skills))
    } else if parse_nil_padded::<Skill>(files[FileKey::Skills]) is None {
        Some(LoadFailure::Decode(FileKey::Skills))
    } else {
        None
    }
}

pub open spec fn map_infos_failure(files: Map<FileKey, Seq<u8>>) -> Option<LoadFailure> {
    if !files.contains_key(FileKey::MapInfos) {
        Some(LoadFailure::Missing(FileKey::MapInfos))
    } else if parse_array::<MapInfoEntry>(files[FileKey::MapInfos]) is None {
        Some(LoadFailure::Decode(FileKey::MapInfos))
    } else {
        None
    }
}

pub open spec fn system_failure(files: Map<FileKey, Seq<u8>>) -> Option<LoadFailure> {
    if !files.contains_key(FileKey::System) {
        Some(LoadFailure::Missing(FileKey::System))
    } else if parse_single::<System>(files[FileKey::System]) is None {
        Some(LoadFailure::Decode(FileKey::System))
    } else {
        None
    }
}

/// The first failure a load runs into, reading the collections in order.
pub open spec fn load_failure(files: Map<FileKey, Seq<u8>>, cfg: Seq<char>) -> Option<
    LoadFailure,
> {
    if basic_failure(files, RecordKind::Actors) is Some {
        basic_failure(files, RecordKind::Actors)
    } else if basic_failure(files, RecordKind::Animations) is Some {
        basic_failure(files, RecordKind::Animations)
    } else if basic_failure(files, RecordKind::Armors) is Some {
        basic_failure(files, RecordKind::Armors)
    } else if basic_failure(files, RecordKind::Classes) is Some {
        basic_failure(files, RecordKind::Classes)
    } else if basic_failure(files, RecordKind::CommonEvents) is Some {
        basic_failure(files, RecordKind::CommonEvents)
    } else if basic_failure(files, RecordKind::Enemies) is Some {
        basic_failure(files, RecordKind::Enemies)
    } else if basic_failure(files, RecordKind::Items) is Some {
        basic_failure(files, RecordKind::Items)
    } else if skills_failure(files) is Some {
        skills_failure(files)
    } else if basic_failure(files, RecordKind::States) is Some {
        basic_failure(files, RecordKind::States)
    } else if basic_failure(files, RecordKind::Tilesets) is Some {
        basic_failure(files, RecordKind::Tilesets)
    } else if basic_failure(files, RecordKind::Troops) is Some {
        basic_failure(files, RecordKind::Troops)
    } else if basic_failure(files, RecordKind::Weapons) is Some {
        basic_failure(files, RecordKind::Weapons)
    } else if map_infos_failure(files) is Some {
        map_infos_failure(files)
    } else if system_failure(files) is Some {
        system_failure(files)
    } else if resolve_scripts(files, cfg) is None {
        Some(LoadFailure::Scripts)
    } else {
        None
    }
}

/// The returned error names exactly the failure that occurred; an unresolved
/// script bundle names the three candidates in the order they were tried.
pub open spec fn error_reflects(e: StoreError, f: LoadFailure, cfg: Seq<char>) -> bool {
    match f {
        LoadFailure::Missing(k) => e matches StoreError::MissingFile(id) && id@ == k,
        LoadFailure::Decode(k) => e matches StoreError::DecodeError(id) && id@ == k,
        LoadFailure::Scripts => e matches StoreError::ScriptsUnresolved(a, b, c) && a@ == cfg
            && b@ == "xScripts"@ && c@ == "Scripts"@,
    }
}

/// The state a successful load installs: every collection holds exactly what
/// its file decodes to, the system magic number aside, and the map cache is
/// empty.
pub open spec fn loaded_from(
    st: LoadedState,
    files: Map<FileKey, Seq<u8>>,
    resolved: Seq<char>,
) -> bool {
    &&& forall|kind: RecordKind|
        (#[trigger] records_slot(st, kind)) matches Some(v) && v.deep_view() == records_of(
            files,
            kind,
        )
    &&& st.skills matches Some(v) && v.deep_view() == skills_of(files)
    &&& st.map_infos matches Some(v) && v.deep_view() == map_infos_of(files)
    &&& st.system matches Some(sys) && sys.windowskin_name@ == system_of(files).windowskin_name
    &&& st.scripts matches Some(v) && v.deep_view() == scripts_of(files, resolved)
    &&& st.maps@ == Seq::<(usize, MapRecord)>::empty()
}

/// The state `from_defaults` produces: one default record in every
/// collection, the script bundle included, and one default map-info entry and
/// one default map, both under id 1.
pub open spec fn default_loaded(st: LoadedState) -> bool {
    &&& forall|kind: RecordKind|
        (#[trigger] records_slot(st, kind)) matches Some(v) && v.deep_view() == seq![
            RecordView { id: 0, name: Seq::<char>::empty() },
        ]
    &&& st.skills matches Some(v) && v.deep_view() == seq![default_skill()]
    &&& st.map_infos matches Some(v) && v.deep_view() == seq![
        MapInfoEntryView { id: 1, info: default_map_info() },
    ]
    &&& st.system matches Some(sys) && sys.windowskin_name@ == Seq::<char>::empty()
    &&& st.scripts matches Some(v) && v.deep_view() == seq![default_script()]
    &&& maps_view(st.maps@) == Map::<int, MapRecord>::empty().insert(1, default_map_record())
    &&& st.maps@.len() == 1
}

// ---------------------------------------------------------------------------
// Reading one file
// ---------------------------------------------------------------------------

fn read_basic<FS: FileSystem>(filesystem: &FS, kind: RecordKind) -> (r: Result<
    Vec<Record>,
    StoreError,
>)
    ensures
        match r {
            Ok(v) => basic_failure(filesystem.files(), kind) is None && v.deep_view()
                == records_of(filesystem.files(), kind),
            Err(e) => basic_failure(filesystem.files(), kind) matches Some(f) && error_reflects(
                e,
                f,
                Seq::<char>::empty(),
            ),
        },
{
    let file = FileId::Records(kind);
    match filesystem.read(&file) {
        None => Err(StoreError::MissingFile(file)),
        Some(bytes) => match deserialize_nil_padded::<Record>(&bytes) {
            Some(v) => Ok(v),
            None => Err(StoreError::DecodeError(file)),
        },
    }
}

fn read_skills<FS: FileSystem>(filesystem: &FS) -> (r: Result<Vec<Skill>, StoreError>)
    ensures
        match r {
            Ok(v) => skills_failure(filesystem.files()) is None && v.deep_view() == skills_of(
                filesystem.files(),
            ),
            Err(e) => skills_failure(filesystem.files()) matches Some(f) && error_reflects(
                e,
                f,
                Seq::<char>::empty(),
            ),
        },
{
    match filesystem.read(&FileId::Skills) {
        None => Err(StoreError::MissingFile(FileId::Skills)),
        Some(bytes) => match deserialize_nil_padded::<Skill>(&bytes) {
            Some(v) => Ok(v),
            None => Err(StoreError::DecodeError(FileId::Skills)),
        },
    }
}

fn read_map_infos<FS: FileSystem>(filesystem: &FS) -> (r: Result<Vec<MapInfoEntry>, StoreError>)
    ensures
        match r {
            Ok(v) => map_infos_failure(filesystem.files()) is None && v.deep_view()
                == map_infos_of(filesystem.files()),
            Err(e) => map_infos_failure(filesystem.files()) matches Some(f) && error_reflects(
                e,
                f,
                Seq::<char>::empty(),
            ),
        },
{
    match filesystem.read(&FileId::MapInfos) {
        None => Err(StoreError::MissingFile(FileId::MapInfos)),
        Some(bytes) => match deserialize_array::<MapInfoEntry>(&bytes) {
            Some(v) => Ok(v),
            None => Err(StoreError::DecodeError(FileId::MapInfos)),
        },
    }
}

fn read_system<FS: FileSystem>(filesystem: &FS) -> (r: Result<System, StoreError>)
    ensures
        match r {
            Ok(v) => system_failure(filesystem.files()) is None && v@ == system_of(
                filesystem.files(),
            ),
            Err(e) => system_failure(filesystem.files()) matches Some(f) && error_reflects(
                e,
                f,
                Seq::<char>::empty(),
            ),
        },
{
    match filesystem.read(&FileId::System) {
        None => Err(StoreError::MissingFile(FileId::System)),
        Some(bytes) => match deserialize_single::<System>(&bytes) {
            Some(v) => Ok(v),
            None => Err(StoreError::DecodeError(FileId::System)),
        },
    }
}

fn try_scripts<FS: FileSystem>(filesystem: &FS, name: &String) -> (r: Option<Vec<Script>>)
    ensures
        match r {
            Some(v) => scripts_ok(filesystem.files(), name@) && v.deep_view() == scripts_of(
                filesystem.files(),
                name@,
            ),
            None => !scripts_ok(filesystem.files(), name@),
        },
{
    let file = FileId::Scripts(name.clone());
    match filesystem.read(&file) {
        None => None,
        Some(bytes) => deserialize_array::<Script>(&bytes),
    }
}

// ---------------------------------------------------------------------------
// What a save writes
// ---------------------------------------------------------------------------

pub open spec fn enc_basic(st: LoadedState, kind: RecordKind) -> Seq<u8> {
    enc_nil_padded::<Record>(records_slot(st, kind)->Some_0.deep_view())
}

/// All files a save writes, with their bytes: the twelve nil-padded
/// collections, the map-info table, the system record, the script bundle
/// under the configured name, and one map file per cached map.
pub open spec fn save_files(st: LoadedState, path: Seq<char>) -> Map<FileKey, Seq<u8>> {
    Map::new(
        |k: FileKey|
            match k {
                FileKey::Records(_) => true,
                FileKey::Skills => true,
                FileKey::MapInfos => true,
                FileKey::System => true,
                FileKey::Scripts(name) => name == path,
                FileKey::MapFile(id) => maps_view(st.maps@).contains_key(id),
            },
        |k: FileKey|
            match k {
                FileKey::Records(kind) => enc_basic(st, kind),
                FileKey::Skills => enc_nil_padded::<Skill>(st.skills->Some_0.deep_view()),
                FileKey::MapInfos => enc_array::<MapInfoEntry>(st.map_infos->Some_0.deep_view()),
                FileKey::System => enc_single::<System>(st.system->Some_0.deep_view()),
                FileKey::Scripts(_) => enc_array::<Script>(st.scripts->Some_0.deep_view()),
                FileKey::MapFile(id) => enc_single::<MapRecord>(maps_view(st.maps@)[id]),
            },
    )
}

/// The state is within the machine limits of the wire format (every string
/// and collection fits its length prefix), and the map cache holds each id at
/// most once.  Loading and the store's own operations keep this; only data
/// pushed in from outside could break it.
pub open spec fn bounded_state(st: LoadedState) -> bool {
    &&& forall|kind: RecordKind|
        (#[trigger] records_slot(st, kind)) matches Some(v) ==> wf_wire_seq::<Record>(
            v.deep_view(),
        ) && fits_nil_padded::<Record>(v.deep_view())
    &&& (st.skills matches Some(v) ==> wf_wire_seq::<Skill>(v.deep_view())
        && fits_nil_padded::<Skill>(v.deep_view()))
    &&& (st.map_infos matches Some(v) ==> wf_wire_seq::<MapInfoEntry>(v.deep_view())
        && fits_array::<MapInfoEntry>(v.deep_view()))
    &&& (st.system matches Some(s) ==> <System as WireRecord>::wf_view(s.deep_view()))
    &&& (st.scripts matches Some(v) ==> wf_wire_seq::<Script>(v.deep_view()) && fits_array::<
        Script,
    >(v.deep_view()))
    &&& unique_map_ids(st.maps@)
}

/// The order in which a save writes its files: the twelve nil-padded
/// collections, the map-info table, the system record, the script bundle
/// under the configured name, then the cached maps in cache order.
pub open spec fn fixed_save_order(path: Seq<char>) -> Seq<FileKey> {
    seq![
        FileKey::Records(RecordKind::Actors),
        FileKey::Records(RecordKind::Animations),
        FileKey::Records(RecordKind::Armors),
        FileKey::Records(RecordKind::Classes),
        FileKey::Records(RecordKind::CommonEvents),
        FileKey::Records(RecordKind::Enemies),
        FileKey::Records(RecordKind::Items),
        FileKey::Skills,
        FileKey::Records(RecordKind::States),
        FileKey::Records(RecordKind::Tilesets),
        FileKey::Records(RecordKind::Troops),
        FileKey::Records(RecordKind::Weapons),
        FileKey::MapInfos,
        FileKey::System,
        FileKey::Scripts(path),
    ]
}

pub open spec fn save_order(st: LoadedState, path: Seq<char>) -> Seq<FileKey> {
    fixed_save_order(path) + st.maps@.map_values(
        |e: (usize, MapRecord)| FileKey::MapFile(e.0 as int),
    )
}

/// The files the first `n` writes of a save produce, with their saved bytes.
pub open spec fn save_prefix(st: LoadedState, path: Seq<char>, n: int) -> Map<FileKey, Seq<u8>> {
    Map::new(
        |k: FileKey|
            exists|j: int| 0 <= j < n && (#[trigger] save_order(st, path)[j]) == k,
        |k: FileKey| save_files(st, path)[k],
    )
}

/// Duplicates a file id.
fn dup_id(id: &FileId) -> (r: FileId)
    ensures
        r@ == id@,
{
    match id {
        FileId::Records(k) => FileId::Records(*k),
        FileId::Skills => FileId::Skills,
        FileId::MapInfos => FileId::MapInfos,
        FileId::System => FileId::System,
        FileId::Scripts(s) => FileId::Scripts(s.clone()),
        FileId::MapFile(i) => FileId::MapFile(*i),
    }
}

/// Writes one file, or reports which file could not be written.
fn write_one<FS: FileSystem>(filesystem: &mut FS, id: FileId, bytes: Vec<u8>) -> (r: Result<
    (),
    StoreError,
>)
    ensures
        match r {
            Ok(()) => final(filesystem).files() == old(filesystem).files().insert(id@, bytes@),
            Err(e) => {
                &&& final(filesystem).files() == old(filesystem).files()
                &&& e matches StoreError::WriteFailed(f) && f@ == id@
            },
        },
{
    let err_id = dup_id(&id);
    if filesystem.write(id, bytes) {
        Ok(())
    } else {
        Err(StoreError::WriteFailed(err_id))
    }
}


/// Serializes and writes one basic record collection.
fn save_basic<FS: FileSystem>(filesystem: &mut FS, recs: &Vec<Record>, kind: RecordKind) -> (r:
    Result<(), StoreError>)
    requires
        wf_wire_seq::<Record>(recs.deep_view()),
        fits_nil_padded::<Record>(recs.deep_view()),
    ensures
        match r {
            Ok(()) => final(filesystem).files() == old(filesystem).files().insert(
                FileKey::Records(kind),
                enc_nil_padded::<Record>(recs.deep_view()),
            ),
            Err(e) => {
                &&& final(filesystem).files() == old(filesystem).files()
                &&& e matches StoreError::WriteFailed(f) && f@ == FileKey::Records(kind)
            },
        },
{
    let bytes = serialize_nil_padded::<Record>(recs);
    write_one(filesystem, FileId::Records(kind), bytes)
}

proof fn lemma_maps_view_covered(entries: Seq<(usize, MapRecord)>, id: int)
    requires
        maps_view(entries).contains_key(id),
    ensures
        exists|j: int| 0 <= j < entries.len() && (#[trigger] entries[j]).0 as int == id,
    decreases entries.len(),
{
    if entries.last().0 as int == id {
        assert((entries[entries.len() - 1]).0 as int == id);
    } else {
        lemma_maps_view_covered(entries.drop_last(), id);
        let j = choose|j: int|
            0 <= j < entries.drop_last().len() && (#[trigger] entries.drop_last()[j]).0 as int
                == id;
        assert((entries[j]).0 as int == id);
    }
}

/// The body of a save on a loaded state.
#[verifier::rlimit(100)]
fn save_loaded<FS: FileSystem>(
    st: &mut LoadedState,
    filesystem: &mut FS,
    config: &ProjectConfig,
) -> (r: Result<(), StoreError>)
    requires
        bounded_state(*old(st)),
    ensures
        match r {
            Ok(()) => {
                &&& all_present(*old(st))
                &&& *final(st) == with_magic(*old(st), final(st).system->Some_0.magic_number)
                &&& final(filesystem).files() == old(filesystem).files().union_prefer_right(
                    save_files(*final(st), config.scripts_path@),
                )
            },
            Err(e) => match e {
                StoreError::BorrowViolation => {
                    &&& !all_present(*old(st))
                    &&& *final(st) == *old(st)
                    &&& final(filesystem).files() == old(filesystem).files()
                },
                StoreError::WriteFailed(f) => {
                    &&& all_present(*old(st))
                    &&& *final(st) == with_magic(
                        *old(st),
                        final(st).system->Some_0.magic_number,
                    )
                    &&& save_files(*final(st), config.scripts_path@).dom().contains(f@)
                    &&& exists|i: int|
                        0 <= i < save_order(*final(st), config.scripts_path@).len() && f@
                            == save_order(*final(st), config.scripts_path@)[i] && final(filesystem).files() == old(filesystem).files().union_prefer_right(
                            save_prefix(*final(st), config.scripts_path@, i),
                        )
                },
                _ => false,
            },
        },
{
    let ghost fs0 = filesystem.files();
    if !(st.actors.is_some() && st.animations.is_some() && st.armors.is_some()
        && st.classes.is_some() && st.common_events.is_some() && st.enemies.is_some()
        && st.items.is_some() && st.skills.is_some() && st.states.is_some()
        && st.tilesets.is_some() && st.troops.is_some() && st.weapons.is_some()
        && st.map_infos.is_some() && st.system.is_some() && st.scripts.is_some()) {
        return Err(StoreError::BorrowViolation);
    }
    let m: u32 = rand::random();
    match &mut st.system {
        Some(sys) => {
            sys.magic_number = m;
        },
        None => {},
    }
    let ghost st1 = *st;
    let ghost path = config.scripts_path@;
    let ghost save = save_files(st1, path);
    let ghost mut written: Map<FileKey, Seq<u8>> = Map::<FileKey, Seq<u8>>::empty();
    proof {
        assert(st1 == with_magic(*old(st), m));
        assert forall|kind: RecordKind| #[trigger] records_slot(st1, kind)
            == records_slot((*old(st)), kind) by {}
        assert(bounded_state(st1));
        assert(written.dom() =~= Set::<FileKey>::empty());
        assert(filesystem.files() =~= fs0.union_prefer_right(written));
        assert(save_order(st1, path).len() == 15 + st1.maps@.len());
        assert forall|k: FileKey|
            written.dom().contains(k) <==> (exists|j: int|
                0 <= j < 0 && (#[trigger] save_order(st1, path)[j]) == k) by {}
    }
    {
        proof {
            assert(records_slot(st1, RecordKind::Actors) == st1.actors);
        }
        let r = save_basic(filesystem, st.actors.as_ref().unwrap(), RecordKind::Actors);
        match r {
            Ok(()) => {},
            Err(e) => {
                proof {
                    assert(save.dom().contains(FileKey::Records(RecordKind::Actors)));
                    assert(save_order(st1, path)[0] == FileKey::Records(RecordKind::Actors));
                    assert forall|k: FileKey|
                        #[trigger] save_prefix(st1, path, 0).dom().contains(k)
                            == written.dom().contains(k) by {}
                    assert(written =~= save_prefix(st1, path, 0));
                    assert(filesystem.files() =~= fs0.union_prefer_right(
                        save_prefix(st1, path, 0),
                    ));
                    assert(exists|i: int|
                        0 <= i < save_order(st1, path).len() && save_order(st1, path)[i] == FileKey::Records(RecordKind::Actors)
                            && filesystem.files() == fs0.union_prefer_right(
                            save_prefix(st1, path, i),
                        ));
                }
                return Err(e);
            },
        }
        proof {
            let prev = written;
            written = written.insert(FileKey::Records(RecordKind::Actors), enc_basic(st1, RecordKind::Actors));
            assert(filesystem.files() =~= fs0.union_prefer_right(written));
            assert(save.dom().contains(FileKey::Records(RecordKind::Actors)));
            assert(enc_basic(st1, RecordKind::Actors) == save[FileKey::Records(RecordKind::Actors)]);
            assert(written.dom().subset_of(save.dom()));
            assert forall|k: FileKey| #[trigger] written.dom().contains(k) implies
                written[k] == save[k] by {}
            assert(save_order(st1, path)[0] == FileKey::Records(RecordKind::Actors));
            assert forall|k: FileKey|
                written.dom().contains(k) <==> (exists|j: int|
                    0 <= j < 0 + 1 && (#[trigger] save_order(st1, path)[j]) == k) by {
                if written.dom().contains(k) {
                    if k == FileKey::Records(RecordKind::Actors) {
                        assert(save_order(st1, path)[0] == k);
                    } else {
                        assert(prev.dom().contains(k));
                        let j = choose|j: int|
                            0 <= j < 0 && (#[trigger] save_order(st1, path)[j]) == k;
                        assert(save_order(st1, path)[j] == k);
                    }
                } else {
                    if exists|j: int|
                        0 <= j < 0 + 1 && (#[trigger] save_order(st1, path)[j]) == k {
                        let j = choose|j: int|
                            0 <= j < 0 + 1 && (#[trigger] save_order(st1, path)[j]) == k;
                        if j == 0 {
                            assert(false);
                        } else {
                            assert(prev.dom().contains(k));
                            assert(false);
                        }
                    }
                }
            }
        }
    }
    {
        proof {
            assert(records_slot(st1, RecordKind::Animations) == st1.animations);
        }
        let r = save_basic(filesystem, st.animations.as_ref().unwrap(), RecordKind::Animations);
        match r {
            Ok(()) => {},
            Err(e) => {
                proof {
                    assert(save.dom().contains(FileKey::Records(RecordKind::Animations)));
                    assert(save_order(st1, path)[1] == FileKey::Records(RecordKind::Animations));
                    assert forall|k: FileKey|
                        #[trigger] save_prefix(st1, path, 1).dom().contains(k)
                            == written.dom().contains(k) by {}
                    assert(written =~= save_prefix(st1, path, 1));
                    assert(filesystem.files() =~= fs0.union_prefer_right(
                        save_prefix(st1, path, 1),
                    ));
                    assert(exists|i: int|
                        0 <= i < save_order(st1, path).len() && save_order(st1, path)[i] == FileKey::Records(RecordKind::Animations)
                            && filesystem.files() == fs0.union_prefer_right(
                            save_prefix(st1, path, i),
                        ));
                }
                return Err(e);
            },
        }
        proof {
            let prev = written;
            written = written.insert(FileKey::Records(RecordKind::Animations), enc_basic(st1, RecordKind::Animations));
            assert(filesystem.files() =~= fs0.union_prefer_right(written));
            assert(save.dom().contains(FileKey::Records(RecordKind::Animations)));
            assert(enc_basic(st1, RecordKind::Animations) == save[FileKey::Records(RecordKind::Animations)]);
            assert(written.dom().subset_of(save.dom()));
            assert forall|k: FileKey| #[trigger] written.dom().contains(k) implies
                written[k] == save[k] by {}
            assert(save_order(st1, path)[1] == FileKey::Records(RecordKind::Animations));
            assert forall|k: FileKey|
                written.dom().contains(k) <==> (exists|j: int|
                    0 <= j < 1 + 1 && (#[trigger] save_order(st1, path)[j]) == k) by {
                if written.dom().contains(k) {
                    if k == FileKey::Records(RecordKind::Animations) {
                        assert(save_order(st1, path)[1] == k);
                    } else {
                        assert(prev.dom().contains(k));
                        let j = choose|j: int|
                            0 <= j < 1 && (#[trigger] save_order(st1, path)[j]) == k;
                        assert(save_order(st1, path)[j] == k);
                    }
                } else {
                    if exists|j: int|
                        0 <= j < 1 + 1 && (#[trigger] save_order(st1, path)[j]) == k {
                        let j = choose|j: int|
                            0 <= j < 1 + 1 && (#[trigger] save_order(st1, path)[j]) == k;
                        if j == 1 {
                            assert(false);
                        } else {
                            assert(prev.dom().contains(k));
                            assert(false);
                        }
                    }
                }
            }
        }
    }
    {
        proof {
            assert(records_slot(st1, RecordKind::Armors) == st1.armors);
        }
        let r = save_basic(filesystem, st.armors.as_ref().unwrap(), RecordKind::Armors);
        match r {
            Ok(()) => {},
            Err(e) => {
                proof {
                    assert(save.dom().contains(FileKey::Records(RecordKind::Armors)));
                    assert(save_order(st1, path)[2] == FileKey::Records(RecordKind::Armors));
                    assert forall|k: FileKey|
                        #[trigger] save_prefix(st1, path, 2).dom().contains(k)
                            == written.dom().contains(k) by {}
                    assert(written =~= save_prefix(st1, path, 2));
                    assert(filesystem.files() =~= fs0.union_prefer_right(
                        save_prefix(st1, path, 2),
                    ));
                    assert(exists|i: int|
                        0 <= i < save_order(st1, path).len() && save_order(st1, path)[i] == FileKey::Records(RecordKind::Armors)
                            && filesystem.files() == fs0.union_prefer_right(
                            save_prefix(st1, path, i),
                        ));
                }
                return Err(e);
            },
        }
        proof {
            let prev = written;
            written = written.insert(FileKey::Records(RecordKind::Armors), enc_basic(st1, RecordKind::Armors));
            assert(filesystem.files() =~= fs0.union_prefer_right(written));
            assert(save.dom().contains(FileKey::Records(RecordKind::Armors)));
            assert(enc_basic(st1, RecordKind::Armors) == save[FileKey::Records(RecordKind::Armors)]);
            assert(written.dom().subset_of(save.dom()));
            assert forall|k: FileKey| #[trigger] written.dom().contains(k) implies
                written[k] == save[k] by {}
            assert(save_order(st1, path)[2] == FileKey::Records(RecordKind::Armors));
            assert forall|k: FileKey|
                written.dom().contains(k) <==> (exists|j: int|
                    0 <= j < 2 + 1 && (#[trigger] save_order(st1, path)[j]) == k) by {
                if written.dom().contains(k) {
                    if k == FileKey::Records(RecordKind::Armors) {
                        assert(save_order(st1, path)[2] == k);
                    } else {
                        assert(prev.dom().contains(k));
                        let j = choose|j: int|
                            0 <= j < 2 && (#[trigger] save_order(st1, path)[j]) == k;
                        assert(save_order(st1, path)[j] == k);
                    }
                } else {
                    if exists|j: int|
                        0 <= j < 2 + 1 && (#[trigger] save_order(st1, path)[j]) == k {
                        let j = choose|j: int|
                            0 <= j < 2 + 1 && (#[trigger] save_order(st1, path)[j]) == k;
                        if j == 2 {
                            assert(false);
                        } else {
                            assert(prev.dom().contains(k));
                            assert(false);
                        }
                    }
                }
            }
        }
    }
    {
        proof {
            assert(records_slot(st1, RecordKind::Classes) == st1.classes);
        }
        let r = save_basic(filesystem, st.classes.as_ref().unwrap(), RecordKind::Classes);
        match r {
            Ok(()) => {},
            Err(e) => {
                proof {
                    assert(save.dom().contains(FileKey::Records(RecordKind::Classes)));
                    assert(save_order(st1, path)[3] == FileKey::Records(RecordKind::Classes));
                    assert forall|k: FileKey|
                        #[trigger] save_prefix(st1, path, 3).dom().contains(k)
                            == written.dom().contains(k) by {}
                    assert(written =~= save_prefix(st1, path, 3));
                    assert(filesystem.files() =~= fs0.union_prefer_right(
                        save_prefix(st1, path, 3),
                    ));
                    assert(exists|i: int|
                        0 <= i < save_order(st1, path).len() && save_order(st1, path)[i] == FileKey::Records(RecordKind::Classes)
                            && filesystem.files() == fs0.union_prefer_right(
                            save_prefix(st1, path, i),
                        ));
                }
                return Err(e);
            },
        }
        proof {
            let prev = written;
            written = written.insert(FileKey::Records(RecordKind::Classes), enc_basic(st1, RecordKind::Classes));
            assert(filesystem.files() =~= fs0.union_prefer_right(written));
            assert(save.dom().contains(FileKey::Records(RecordKind::Classes)));
            assert(enc_basic(st1, RecordKind::Classes) == save[FileKey::Records(RecordKind::Classes)]);
            assert(written.dom().subset_of(save.dom()));
            assert forall|k: FileKey| #[trigger] written.dom().contains(k) implies
                written[k] == save[k] by {}
            assert(save_order(st1, path)[3] == FileKey::Records(RecordKind::Classes));
            assert forall|k: FileKey|
                written.dom().contains(k) <==> (exists|j: int|
                    0 <= j < 3 + 1 && (#[trigger] save_order(st1, path)[j]) == k) by {
                if written.dom().contains(k) {
                    if k == FileKey::Records(RecordKind::Classes) {
                        assert(save_order(st1, path)[3] == k);
                    } else {
                        assert(prev.dom().contains(k));
                        let j = choose|j: int|
                            0 <= j < 3 && (#[trigger] save_order(st1, path)[j]) == k;
                        assert(save_order(st1, path)[j] == k);
                    }
                } else {
                    if exists|j: int|
                        0 <= j < 3 + 1 && (#[trigger] save_order(st1, path)[j]) == k {
                        let j = choose|j: int|
                            0 <= j < 3 + 1 && (#[trigger] save_order(st1, path)[j]) == k;
                        if j == 3 {
                            assert(false);
                        } else {
                            assert(prev.dom().contains(k));
                            assert(false);
                        }
                    }
                }
            }
        }
    }
    {
        proof {
            assert(records_slot(st1, RecordKind::CommonEvents) == st1.common_events);
        }
        let r = save_basic(filesystem, st.common_events.as_ref().unwrap(), RecordKind::CommonEvents);
        match r {
            Ok(()) => {},
            Err(e) => {
                proof {
                    assert(save.dom().contains(FileKey::Records(RecordKind::CommonEvents)));
                    assert(save_order(st1, path)[4] == FileKey::Records(RecordKind::CommonEvents));
                    assert forall|k: FileKey|
                        #[trigger] save_prefix(st1, path, 4).dom().contains(k)
                            == written.dom().contains(k) by {}
                    assert(written =~= save_prefix(st1, path, 4));
                    assert(filesystem.files() =~= fs0.union_prefer_right(
                        save_prefix(st1, path, 4),
                    ));
                    assert(exists|i: int|
                        0 <= i < save_order(st1, path).len() && save_order(st1, path)[i] == FileKey::Records(RecordKind::CommonEvents)
                            && filesystem.files() == fs0.union_prefer_right(
                            save_prefix(st1, path, i),
                        ));
                }
                return Err(e);
            },
        }
        proof {
            let prev = written;
            written = written.insert(FileKey::Records(RecordKind::CommonEvents), enc_basic(st1, RecordKind::CommonEvents));
            assert(filesystem.files() =~= fs0.union_prefer_right(written));
            assert(save.dom().contains(FileKey::Records(RecordKind::CommonEvents)));
            assert(enc_basic(st1, RecordKind::CommonEvents) == save[FileKey::Records(RecordKind::CommonEvents)]);
            assert(written.dom().subset_of(save.dom()));
            assert forall|k: FileKey| #[trigger] written.dom().contains(k) implies
                written[k] == save[k] by {}
            assert(save_order(st1, path)[4] == FileKey::Records(RecordKind::CommonEvents));
            assert forall|k: FileKey|
                written.dom().contains(k) <==> (exists|j: int|
                    0 <= j < 4 + 1 && (#[trigger] save_order(st1, path)[j]) == k) by {
                if written.dom().contains(k) {
                    if k == FileKey::Records(RecordKind::CommonEvents) {
                        assert(save_order(st1, path)[4] == k);
                    } else {
                        assert(prev.dom().contains(k));
                        let j = choose|j: int|
                            0 <= j < 4 && (#[trigger] save_order(st1, path)[j]) == k;
                        assert(save_order(st1, path)[j] == k);
                    }
                } else {
                    if exists|j: int|
                        0 <= j < 4 + 1 && (#[trigger] save_order(st1, path)[j]) == k {
                        let j = choose|j: int|
                            0 <= j < 4 + 1 && (#[trigger] save_order(st1, path)[j]) == k;
                        if j == 4 {
                            assert(false);
                        } else {
                            assert(prev.dom().contains(k));
                            assert(false);
                        }
                    }
                }
            }
        }
    }
    {
        proof {
            assert(records_slot(st1, RecordKind::Enemies) == st1.enemies);
        }
        let r = save_basic(filesystem, st.enemies.as_ref().unwrap(), RecordKind::Enemies);
        match r {
            Ok(()) => {},
            Err(e) => {
                proof {
                    assert(save.dom().contains(FileKey::Records(RecordKind::Enemies)));
                    assert(save_order(st1, path)[5] == FileKey::Records(RecordKind::Enemies));
                    assert forall|k: FileKey|
                        #[trigger] save_prefix(st1, path, 5).dom().contains(k)
                            == written.dom().contains(k) by {}
                    assert(written =~= save_prefix(st1, path, 5));
                    assert(filesystem.files() =~= fs0.union_prefer_right(
                        save_prefix(st1, path, 5),
                    ));
                    assert(exists|i: int|
                        0 <= i < save_order(st1, path).len() && save_order(st1, path)[i] == FileKey::Records(RecordKind::Enemies)
                            && filesystem.files() == fs0.union_prefer_right(
                            save_prefix(st1, path, i),
                        ));
                }
                return Err(e);
            },
        }
        proof {
            let prev = written;
            written = written.insert(FileKey::Records(RecordKind::Enemies), enc_basic(st1, RecordKind::Enemies));
            assert(filesystem.files() =~= fs0.union_prefer_right(written));
            assert(save.dom().contains(FileKey::Records(RecordKind::Enemies)));
            assert(enc_basic(st1, RecordKind::Enemies) == save[FileKey::Records(RecordKind::Enemies)]);
            assert(written.dom().subset_of(save.dom()));
            assert forall|k: FileKey| #[trigger] written.dom().contains(k) implies
                written[k] == save[k] by {}
            assert(save_order(st1, path)[5] == FileKey::Records(RecordKind::Enemies));
            assert forall|k: FileKey|
                written.dom().contains(k) <==> (exists|j: int|
                    0 <= j < 5 + 1 && (#[trigger] save_order(st1, path)[j]) == k) by {
                if written.dom().contains(k) {
                    if k == FileKey::Records(RecordKind::Enemies) {
                        assert(save_order(st1, path)[5] == k);
                    } else {
                        assert(prev.dom().contains(k));
                        let j = choose|j: int|
                            0 <= j < 5 && (#[trigger] save_order(st1, path)[j]) == k;
                        assert(save_order(st1, path)[j] == k);
                    }
                } else {
                    if exists|j: int|
                        0 <= j < 5 + 1 && (#[trigger] save_order(st1, path)[j]) == k {
                        let j = choose|j: int|
                            0 <= j < 5 + 1 && (#[trigger] save_order(st1, path)[j]) == k;
                        if j == 5 {
                            assert(false);
                        } else {
                            assert(prev.dom().contains(k));
                            assert(false);
                        }
                    }
                }
            }
        }
    }
    {
        proof {
            assert(records_slot(st1, RecordKind::Items) == st1.items);
        }
        let r = save_basic(filesystem, st.items.as_ref().unwrap(), RecordKind::Items);
        match r {
            Ok(()) => {},
            Err(e) => {
                proof {
                    assert(save.dom().contains(FileKey::Records(RecordKind::Items)));
                    assert(save_order(st1, path)[6] == FileKey::Records(RecordKind::Items));
                    assert forall|k: FileKey|
                        #[trigger] save_prefix(st1, path, 6).dom().contains(k)
                            == written.dom().contains(k) by {}
                    assert(written =~= save_prefix(st1, path, 6));
                    assert(filesystem.files() =~= fs0.union_prefer_right(
                        save_prefix(st1, path, 6),
                    ));
                    assert(exists|i: int|
                        0 <= i < save_order(st1, path).len() && save_order(st1, path)[i] == FileKey::Records(RecordKind::Items)
                            && filesystem.files() == fs0.union_prefer_right(
                            save_prefix(st1, path, i),
                        ));
                }
                return Err(e);
            },
        }
        proof {
            let prev = written;
            written = written.insert(FileKey::Records(RecordKind::Items), enc_basic(st1, RecordKind::Items));
            assert(filesystem.files() =~= fs0.union_prefer_right(written));
            assert(save.dom().contains(FileKey::Records(RecordKind::Items)));
            assert(enc_basic(st1, RecordKind::Items) == save[FileKey::Records(RecordKind::Items)]);
            assert(written.dom().subset_of(save.dom()));
            assert forall|k: FileKey| #[trigger] written.dom().contains(k) implies
                written[k] == save[k] by {}
            assert(save_order(st1, path)[6] == FileKey::Records(RecordKind::Items));
            assert forall|k: FileKey|
                written.dom().contains(k) <==> (exists|j: int|
                    0 <= j < 6 + 1 && (#[trigger] save_order(st1, path)[j]) == k) by {
                if written.dom().contains(k) {
                    if k == FileKey::Records(RecordKind::Items) {
                        assert(save_order(st1, path)[6] == k);
                    } else {
                        assert(prev.dom().contains(k));
                        let j = choose|j: int|
                            0 <= j < 6 && (#[trigger] save_order(st1, path)[j]) == k;
                        assert(save_order(st1, path)[j] == k);
                    }
                } else {
                    if exists|j: int|
                        0 <= j < 6 + 1 && (#[trigger] save_order(st1, path)[j]) == k {
                        let j = choose|j: int|
                            0 <= j < 6 + 1 && (#[trigger] save_order(st1, path)[j]) == k;
                        if j == 6 {
                            assert(false);
                        } else {
                            assert(prev.dom().contains(k));
                            assert(false);
                        }
                    }
                }
            }
        }
    }
    {
        let r = write_one(filesystem, FileId::Skills, serialize_nil_padded::<Skill>(st.skills.as_ref().unwrap()));
        match r {
            Ok(()) => {},
            Err(e) => {
                proof {
                    assert(save.dom().contains(FileKey::Skills));
                    assert(save_order(st1, path)[7] == FileKey::Skills);
                    assert forall|k: FileKey|
                        #[trigger] save_prefix(st1, path, 7).dom().contains(k)
                            == written.dom().contains(k) by {}
                    assert(written =~= save_prefix(st1, path, 7));
                    assert(filesystem.files() =~= fs0.union_prefer_right(
                        save_prefix(st1, path, 7),
                    ));
                    assert(exists|i: int|
                        0 <= i < save_order(st1, path).len() && save_order(st1, path)[i] == FileKey::Skills
                            && filesystem.files() == fs0.union_prefer_right(
                            save_prefix(st1, path, i),
                        ));
                }
                return Err(e);
            },
        }
        proof {
            let prev = written;
            written = written.insert(FileKey::Skills, enc_nil_padded::<Skill>(st1.skills->Some_0.deep_view()));
            assert(filesystem.files() =~= fs0.union_prefer_right(written));
            assert(save.dom().contains(FileKey::Skills));
            assert(enc_nil_padded::<Skill>(st1.skills->Some_0.deep_view()) == save[FileKey::Skills]);
            assert(written.dom().subset_of(save.dom()));
            assert forall|k: FileKey| #[trigger] written.dom().contains(k) implies
                written[k] == save[k] by {}
            assert(save_order(st1, path)[7] == FileKey::Skills);
            assert forall|k: FileKey|
                written.dom().contains(k) <==> (exists|j: int|
                    0 <= j < 7 + 1 && (#[trigger] save_order(st1, path)[j]) == k) by {
                if written.dom().contains(k) {
                    if k == FileKey::Skills {
                        assert(save_order(st1, path)[7] == k);
                    } else {
                        assert(prev.dom().contains(k));
                        let j = choose|j: int|
                            0 <= j < 7 && (#[trigger] save_order(st1, path)[j]) == k;
                        assert(save_order(st1, path)[j] == k);
                    }
                } else {
                    if exists|j: int|
                        0 <= j < 7 + 1 && (#[trigger] save_order(st1, path)[j]) == k {
                        let j = choose|j: int|
                            0 <= j < 7 + 1 && (#[trigger] save_order(st1, path)[j]) == k;
                        if j == 7 {
                            assert(false);
                        } else {
                            assert(prev.dom().contains(k));
                            assert(false);
                        }
                    }
                }
            }
        }
    }
    {
        proof {
            assert(records_slot(st1, RecordKind::States) == st1.states);
        }
        let r = save_basic(filesystem, st.states.as_ref().unwrap(), RecordKind::States);
        match r {
            Ok(()) => {},
            Err(e) => {
                proof {
                    assert(save.dom().contains(FileKey::Records(RecordKind::States)));
                    assert(save_order(st1, path)[8] == FileKey::Records(RecordKind::States));
                    assert forall|k: FileKey|
                        #[trigger] save_prefix(st1, path, 8).dom().contains(k)
                            == written.dom().contains(k) by {}
                    assert(written =~= save_prefix(st1, path, 8));
                    assert(filesystem.files() =~= fs0.union_prefer_right(
                        save_prefix(st1, path, 8),
                    ));
                    assert(exists|i: int|
                        0 <= i < save_order(st1, path).len() && save_order(st1, path)[i] == FileKey::Records(RecordKind::States)
                            && filesystem.files() == fs0.union_prefer_right(
                            save_prefix(st1, path, i),
                        ));
                }
                return Err(e);
            },
        }
        proof {
            let prev = written;
            written = written.insert(FileKey::Records(RecordKind::States), enc_basic(st1, RecordKind::States));
            assert(filesystem.files() =~= fs0.union_prefer_right(written));
            assert(save.dom().contains(FileKey::Records(RecordKind::States)));
            assert(enc_basic(st1, RecordKind::States) == save[FileKey::Records(RecordKind::States)]);
            assert(written.dom().subset_of(save.dom()));
            assert forall|k: FileKey| #[trigger] written.dom().contains(k) implies
                written[k] == save[k] by {}
            assert(save_order(st1, path)[8] == FileKey::Records(RecordKind::States));
            assert forall|k: FileKey|
                written.dom().contains(k) <==> (exists|j: int|
                    0 <= j < 8 + 1 && (#[trigger] save_order(st1, path)[j]) == k) by {
                if written.dom().contains(k) {
                    if k == FileKey::Records(RecordKind::States) {
                        assert(save_order(st1, path)[8] == k);
                    } else {
                        assert(prev.dom().contains(k));
                        let j = choose|j: int|
                            0 <= j < 8 && (#[trigger] save_order(st1, path)[j]) == k;
                        assert(save_order(st1, path)[j] == k);
                    }
                } else {
                    if exists|j: int|
                        0 <= j < 8 + 1 && (#[trigger] save_order(st1, path)[j]) == k {
                        let j = choose|j: int|
                            0 <= j < 8 + 1 && (#[trigger] save_order(st1, path)[j]) == k;
                        if j == 8 {
                            assert(false);
                        } else {
                            assert(prev.dom().contains(k));
                            assert(false);
                        }
                    }
                }
            }
        }
    }
    {
        proof {
            assert(records_slot(st1, RecordKind::Tilesets) == st1.tilesets);
        }
        let r = save_basic(filesystem, st.tilesets.as_ref().unwrap(), RecordKind::Tilesets);
        match r {
            Ok(()) => {},
            Err(e) => {
                proof {
                    assert(save.dom().contains(FileKey::Records(RecordKind::Tilesets)));
                    assert(save_order(st1, path)[9] == FileKey::Records(RecordKind::Tilesets));
                    assert forall|k: FileKey|
                        #[trigger] save_prefix(st1, path, 9).dom().contains(k)
                            == written.dom().contains(k) by {}
                    assert(written =~= save_prefix(st1, path, 9));
                    assert(filesystem.files() =~= fs0.union_prefer_right(
                        save_prefix(st1, path, 9),
                    ));
                    assert(exists|i: int|
                        0 <= i < save_order(st1, path).len() && save_order(st1, path)[i] == FileKey::Records(RecordKind::Tilesets)
                            && filesystem.files() == fs0.union_prefer_right(
                            save_prefix(st1, path, i),
                        ));
                }
                return Err(e);
            },
        }
        proof {
            let prev = written;
            written = written.insert(FileKey::Records(RecordKind::Tilesets), enc_basic(st1, RecordKind::Tilesets));
            assert(filesystem.files() =~= fs0.union_prefer_right(written));
            assert(save.dom().contains(FileKey::Records(RecordKind::Tilesets)));
            assert(enc_basic(st1, RecordKind::Tilesets) == save[FileKey::Records(RecordKind::Tilesets)]);
            assert(written.dom().subset_of(save.dom()));
            assert forall|k: FileKey| #[trigger] written.dom().contains(k) implies
                written[k] == save[k] by {}
            assert(save_order(st1, path)[9] == FileKey::Records(RecordKind::Tilesets));
            assert forall|k: FileKey|
                written.dom().contains(k) <==> (exists|j: int|
                    0 <= j < 9 + 1 && (#[trigger] save_order(st1, path)[j]) == k) by {
                if written.dom().contains(k) {
                    if k == FileKey::Records(RecordKind::Tilesets) {
                        assert(save_order(st1, path)[9] == k);
                    } else {
                        assert(prev.dom().contains(k));
                        let j = choose|j: int|
                            0 <= j < 9 && (#[trigger] save_order(st1, path)[j]) == k;
                        assert(save_order(st1, path)[j] == k);
                    }
                } else {
                    if exists|j: int|
                        0 <= j < 9 + 1 && (#[trigger] save_order(st1, path)[j]) == k {
                        let j = choose|j: int|
                            0 <= j < 9 + 1 && (#[trigger] save_order(st1, path)[j]) == k;
                        if j == 9 {
                            assert(false);
                        } else {
                            assert(prev.dom().contains(k));
                            assert(false);
                        }
                    }
                }
            }
        }
    }
    {
        proof {
            assert(records_slot(st1, RecordKind::Troops) == st1.troops);
        }
        let r = save_basic(filesystem, st.troops.as_ref().unwrap(), RecordKind::Troops);
        match r {
            Ok(()) => {},
            Err(e) => {
                proof {
                    assert(save.dom().contains(FileKey::Records(RecordKind::Troops)));
                    assert(save_order(st1, path)[10] == FileKey::Records(RecordKind::Troops));
                    assert forall|k: FileKey|
                        #[trigger] save_prefix(st1, path, 10).dom().contains(k)
                            == written.dom().contains(k) by {}
                    assert(written =~= save_prefix(st1, path, 10));
                    assert(filesystem.files() =~= fs0.union_prefer_right(
                        save_prefix(st1, path, 10),
                    ));
                    assert(exists|i: int|
                        0 <= i < save_order(st1, path).len() && save_order(st1, path)[i] == FileKey::Records(RecordKind::Troops)
                            && filesystem.files() == fs0.union_prefer_right(
                            save_prefix(st1, path, i),
                        ));
                }
                return Err(e);
            },
        }
        proof {
            let prev = written;
            written = written.insert(FileKey::Records(RecordKind::Troops), enc_basic(st1, RecordKind::Troops));
            assert(filesystem.files() =~= fs0.union_prefer_right(written));
            assert(save.dom().contains(FileKey::Records(RecordKind::Troops)));
            assert(enc_basic(st1, RecordKind::Troops) == save[FileKey::Records(RecordKind::Troops)]);
            assert(written.dom().subset_of(save.dom()));
            assert forall|k: FileKey| #[trigger] written.dom().contains(k) implies
                written[k] == save[k] by {}
            assert(save_order(st1, path)[10] == FileKey::Records(RecordKind::Troops));
            assert forall|k: FileKey|
                written.dom().contains(k) <==> (exists|j: int|
                    0 <= j < 10 + 1 && (#[trigger] save_order(st1, path)[j]) == k) by {
                if written.dom().contains(k) {
                    if k == FileKey::Records(RecordKind::Troops) {
                        assert(save_order(st1, path)[10] == k);
                    } else {
                        assert(prev.dom().contains(k));
                        let j = choose|j: int|
                            0 <= j < 10 && (#[trigger] save_order(st1, path)[j]) == k;
                        assert(save_order(st1, path)[j] == k);
                    }
                } else {
                    if exists|j: int|
                        0 <= j < 10 + 1 && (#[trigger] save_order(st1, path)[j]) == k {
                        let j = choose|j: int|
                            0 <= j < 10 + 1 && (#[trigger] save_order(st1, path)[j]) == k;
                        if j == 10 {
                            assert(false);
                        } else {
                            assert(prev.dom().contains(k));
                            assert(false);
                        }
                    }
                }
            }
        }
    }
    {
        proof {
            assert(records_slot(st1, RecordKind::Weapons) == st1.weapons);
        }
        let r = save_basic(filesystem, st.weapons.as_ref().unwrap(), RecordKind::Weapons);
        match r {
            Ok(()) => {},
            Err(e) => {
                proof {
                    assert(save.dom().contains(FileKey::Records(RecordKind::Weapons)));
                    assert(save_order(st1, path)[11] == FileKey::Records(RecordKind::Weapons));
                    assert forall|k: FileKey|
                        #[trigger] save_prefix(st1, path, 11).dom().contains(k)
                            == written.dom().contains(k) by {}
                    assert(written =~= save_prefix(st1, path, 11));
                    assert(filesystem.files() =~= fs0.union_prefer_right(
                        save_prefix(st1, path, 11),
                    ));
                    assert(exists|i: int|
                        0 <= i < save_order(st1, path).len() && save_order(st1, path)[i] == FileKey::Records(RecordKind::Weapons)
                            && filesystem.files() == fs0.union_prefer_right(
                            save_prefix(st1, path, i),
                        ));
                }
                return Err(e);
            },
        }
        proof {
            let prev = written;
            written = written.insert(FileKey::Records(RecordKind::Weapons), enc_basic(st1, RecordKind::Weapons));
            assert(filesystem.files() =~= fs0.union_prefer_right(written));
            assert(save.dom().contains(FileKey::Records(RecordKind::Weapons)));
            assert(enc_basic(st1, RecordKind::Weapons) == save[FileKey::Records(RecordKind::Weapons)]);
            assert(written.dom().subset_of(save.dom()));
            assert forall|k: FileKey| #[trigger] written.dom().contains(k) implies
                written[k] == save[k] by {}
            assert(save_order(st1, path)[11] == FileKey::Records(RecordKind::Weapons));
            assert forall|k: FileKey|
                written.dom().contains(k) <==> (exists|j: int|
                    0 <= j < 11 + 1 && (#[trigger] save_order(st1, path)[j]) == k) by {
                if written.dom().contains(k) {
                    if k == FileKey::Records(RecordKind::Weapons) {
                        assert(save_order(st1, path)[11] == k);
                    } else {
                        assert(prev.dom().contains(k));
                        let j = choose|j: int|
                            0 <= j < 11 && (#[trigger] save_order(st1, path)[j]) == k;
                        assert(save_order(st1, path)[j] == k);
                    }
                } else {
                    if exists|j: int|
                        0 <= j < 11 + 1 && (#[trigger] save_order(st1, path)[j]) == k {
                        let j = choose|j: int|
                            0 <= j < 11 + 1 && (#[trigger] save_order(st1, path)[j]) == k;
                        if j == 11 {
                            assert(false);
                        } else {
                            assert(prev.dom().contains(k));
                            assert(false);
                        }
                    }
                }
            }
        }
    }
    {
        let r = write_one(filesystem, FileId::MapInfos, serialize_array::<MapInfoEntry>(st.map_infos.as_ref().unwrap()));
        match r {
            Ok(()) => {},
            Err(e) => {
                proof {
                    assert(save.dom().contains(FileKey::MapInfos));
                    assert(save_order(st1, path)[12] == FileKey::MapInfos);
                    assert forall|k: FileKey|
                        #[trigger] save_prefix(st1, path, 12).dom().contains(k)
                            == written.dom().contains(k) by {}
                    assert(written =~= save_prefix(st1, path, 12));
                    assert(filesystem.files() =~= fs0.union_prefer_right(
                        save_prefix(st1, path, 12),
                    ));
                    assert(exists|i: int|
                        0 <= i < save_order(st1, path).len() && save_order(st1, path)[i] == FileKey::MapInfos
                            && filesystem.files() == fs0.union_prefer_right(
                            save_prefix(st1, path, i),
                        ));
                }
                return Err(e);
            },
        }
        proof {
            let prev = written;
            written = written.insert(FileKey::MapInfos, enc_array::<MapInfoEntry>(st1.map_infos->Some_0.deep_view()));
            assert(filesystem.files() =~= fs0.union_prefer_right(written));
            assert(save.dom().contains(FileKey::MapInfos));
            assert(enc_array::<MapInfoEntry>(st1.map_infos->Some_0.deep_view()) == save[FileKey::MapInfos]);
            assert(written.dom().subset_of(save.dom()));
            assert forall|k: FileKey| #[trigger] written.dom().contains(k) implies
                written[k] == save[k] by {}
            assert(save_order(st1, path)[12] == FileKey::MapInfos);
            assert forall|k: FileKey|
                written.dom().contains(k) <==> (exists|j: int|
                    0 <= j < 12 + 1 && (#[trigger] save_order(st1, path)[j]) == k) by {
                if written.dom().contains(k) {
                    if k == FileKey::MapInfos {
                        assert(save_order(st1, path)[12] == k);
                    } else {
                        assert(prev.dom().contains(k));
                        let j = choose|j: int|
                            0 <= j < 12 && (#[trigger] save_order(st1, path)[j]) == k;
                        assert(save_order(st1, path)[j] == k);
                    }
                } else {
                    if exists|j: int|
                        0 <= j < 12 + 1 && (#[trigger] save_order(st1, path)[j]) == k {
                        let j = choose|j: int|
                            0 <= j < 12 + 1 && (#[trigger] save_order(st1, path)[j]) == k;
                        if j == 12 {
                            assert(false);
                        } else {
                            assert(prev.dom().contains(k));
                            assert(false);
                        }
                    }
                }
            }
        }
    }
    {
        let r = write_one(filesystem, FileId::System, serialize_single::<System>(st.system.as_ref().unwrap()));
        match r {
            Ok(()) => {},
            Err(e) => {
                proof {
                    assert(save.dom().contains(FileKey::System));
                    assert(save_order(st1, path)[13] == FileKey::System);
                    assert forall|k: FileKey|
                        #[trigger] save_prefix(st1, path, 13).dom().contains(k)
                            == written.dom().contains(k) by {}
                    assert(written =~= save_prefix(st1, path, 13));
                    assert(filesystem.files() =~= fs0.union_prefer_right(
                        save_prefix(st1, path, 13),
                    ));
                    assert(exists|i: int|
                        0 <= i < save_order(st1, path).len() && save_order(st1, path)[i] == FileKey::System
                            && filesystem.files() == fs0.union_prefer_right(
                            save_prefix(st1, path, i),
                        ));
                }
                return Err(e);
            },
        }
        proof {
            let prev = written;
            written = written.insert(FileKey::System, enc_single::<System>(st1.system->Some_0.deep_view()));
            assert(filesystem.files() =~= fs0.union_prefer_right(written));
            assert(save.dom().contains(FileKey::System));
            assert(enc_single::<System>(st1.system->Some_0.deep_view()) == save[FileKey::System]);
            assert(written.dom().subset_of(save.dom()));
            assert forall|k: FileKey| #[trigger] written.dom().contains(k) implies
                written[k] == save[k] by {}
            assert(save_order(st1, path)[13] == FileKey::System);
            assert forall|k: FileKey|
                written.dom().contains(k) <==> (exists|j: int|
                    0 <= j < 13 + 1 && (#[trigger] save_order(st1, path)[j]) == k) by {
                if written.dom().contains(k) {
                    if k == FileKey::System {
                        assert(save_order(st1, path)[13] == k);
                    } else {
                        assert(prev.dom().contains(k));
                        let j = choose|j: int|
                            0 <= j < 13 && (#[trigger] save_order(st1, path)[j]) == k;
                        assert(save_order(st1, path)[j] == k);
                    }
                } else {
                    if exists|j: int|
                        0 <= j < 13 + 1 && (#[trigger] save_order(st1, path)[j]) == k {
                        let j = choose|j: int|
                            0 <= j < 13 + 1 && (#[trigger] save_order(st1, path)[j]) == k;
                        if j == 13 {
                            assert(false);
                        } else {
                            assert(prev.dom().contains(k));
                            assert(false);
                        }
                    }
                }
            }
        }
    }
    {
        let r = write_one(filesystem, FileId::Scripts(config.scripts_path.clone()), serialize_array::<Script>(st.scripts.as_ref().unwrap()));
        match r {
            Ok(()) => {},
            Err(e) => {
                proof {
                    assert(save.dom().contains(FileKey::Scripts(path)));
                    assert(save_order(st1, path)[14] == FileKey::Scripts(path));
                    assert forall|k: FileKey|
                        #[trigger] save_prefix(st1, path, 14).dom().contains(k)
                            == written.dom().contains(k) by {}
                    assert(written =~= save_prefix(st1, path, 14));
                    assert(filesystem.files() =~= fs0.union_prefer_right(
                        save_prefix(st1, path, 14),
                    ));
                    assert(exists|i: int|
                        0 <= i < save_order(st1, path).len() && save_order(st1, path)[i] == FileKey::Scripts(path)
                            && filesystem.files() == fs0.union_prefer_right(
                            save_prefix(st1, path, i),
                        ));
                }
                return Err(e);
            },
        }
        proof {
            let prev = written;
            written = written.insert(FileKey::Scripts(path), enc_array::<Script>(st1.scripts->Some_0.deep_view()));
            assert(filesystem.files() =~= fs0.union_prefer_right(written));
            assert(save.dom().contains(FileKey::Scripts(path)));
            assert(enc_array::<Script>(st1.scripts->Some_0.deep_view()) == save[FileKey::Scripts(path)]);
            assert(written.dom().subset_of(save.dom()));
            assert forall|k: FileKey| #[trigger] written.dom().contains(k) implies
                written[k] == save[k] by {}
            assert(save_order(st1, path)[14] == FileKey::Scripts(path));
            assert forall|k: FileKey|
                written.dom().contains(k) <==> (exists|j: int|
                    0 <= j < 14 + 1 && (#[trigger] save_order(st1, path)[j]) == k) by {
                if written.dom().contains(k) {
                    if k == FileKey::Scripts(path) {
                        assert(save_order(st1, path)[14] == k);
                    } else {
                        assert(prev.dom().contains(k));
                        let j = choose|j: int|
                            0 <= j < 14 && (#[trigger] save_order(st1, path)[j]) == k;
                        assert(save_order(st1, path)[j] == k);
                    }
                } else {
                    if exists|j: int|
                        0 <= j < 14 + 1 && (#[trigger] save_order(st1, path)[j]) == k {
                        let j = choose|j: int|
                            0 <= j < 14 + 1 && (#[trigger] save_order(st1, path)[j]) == k;
                        if j == 14 {
                            assert(false);
                        } else {
                            assert(prev.dom().contains(k));
                            assert(false);
                        }
                    }
                }
            }
        }
    }
    proof {
        assert forall|k: FileKey|
            written.dom().contains(k) <==> (save.dom().contains(k) && match k {
                FileKey::MapFile(id) => exists|j: int|
                    0 <= j < 0 && (#[trigger] st1.maps@[j]).0 as int == id,
                _ => true,
            }) by {}
    }
    let n = st.maps.len();
    let mut i: usize = 0;
    while i < n
        invariant
            n == st1.maps@.len(),
            i <= n,
            st1 == *st,
            path == config.scripts_path@,
            save == save_files(st1, path),
            fs0 == old(filesystem).files(),
            bounded_state(st1),
                                    all_present(*old(st)),
            st1 == with_magic(*old(st), st1.system->Some_0.magic_number),
            filesystem.files() == fs0.union_prefer_right(written),
            written.dom().subset_of(save.dom()),
            forall|k: FileKey| #[trigger] written.dom().contains(k) ==> written[k]
                == save[k],
            forall|k: FileKey|
                written.dom().contains(k) <==> (save.dom().contains(k) && match k {
                    FileKey::MapFile(id) => exists|j: int|
                        0 <= j < i && (#[trigger] st1.maps@[j]).0 as int == id,
                    _ => true,
                }),
            forall|k: FileKey|
                written.dom().contains(k) <==> (exists|j: int|
                    0 <= j < 15 + i && (#[trigger] save_order(st1, path)[j]) == k),
        decreases n - i,
    {
        let bytes = serialize_single::<MapRecord>(&st.maps[i].1);
        let ghost mid = st1.maps@[i as int].0;
        proof {
            lemma_maps_view_contains(st1.maps@, i as int);
            lemma_maps_view_found(st1.maps@, i as int);
            assert(save_order(st1, path).len() == 15 + st1.maps@.len());
            assert(save_order(st1, path)[15 + i as int] == FileKey::MapFile(mid as int));
        }
        let r = write_one(filesystem, FileId::MapFile(st.maps[i].0), bytes);
        match r {
            Ok(()) => {},
            Err(e) => {
                proof {
                    assert(save.dom().contains(FileKey::MapFile(mid as int)));
                    let m0: int = 15 + i as int;
                    assert forall|k: FileKey|
                        #[trigger] save_prefix(st1, path, m0).dom().contains(k)
                            == written.dom().contains(k) by {}
                    assert(written =~= save_prefix(st1, path, m0));
                    assert(filesystem.files() =~= fs0.union_prefer_right(
                        save_prefix(st1, path, m0),
                    ));
                    assert(exists|i2: int|
                        0 <= i2 < save_order(st1, path).len() && save_order(st1, path)[i2]
                            == FileKey::MapFile(mid as int) && filesystem.files()
                            == fs0.union_prefer_right(save_prefix(st1, path, i2)));
                }
                return Err(e);
            },
        }
        proof {
            let prev = written;
            written = written.insert(
                FileKey::MapFile(mid as int),
                enc_single::<MapRecord>(st1.maps@[i as int].1),
            );
            assert(filesystem.files() =~= fs0.union_prefer_right(written));
            assert(save.dom().contains(FileKey::MapFile(mid as int)));
            assert(enc_single::<MapRecord>(st1.maps@[i as int].1) == save[
                FileKey::MapFile(mid as int)
            ]);
            assert(written.dom().subset_of(save.dom()));
            assert forall|k: FileKey| #[trigger] written.dom().contains(k) implies
                written[k] == save[k] by {}
            assert forall|k: FileKey|
                written.dom().contains(k) <==> (save.dom().contains(k) && match k {
                    FileKey::MapFile(id) => exists|j: int|
                        0 <= j < i + 1 && (#[trigger] st1.maps@[j]).0 as int == id,
                    _ => true,
                }) by {
                match k {
                    FileKey::MapFile(id) => {
                        if written.dom().contains(k) {
                            if k == FileKey::MapFile(mid as int) {
                                assert(st1.maps@[i as int].0 as int == mid as int);
                            }
                        }
                        if save.dom().contains(k) && (exists|j: int|
                            0 <= j < i + 1 && (#[trigger] st1.maps@[j]).0 as int
                                == id) {
                            let j = choose|j: int|
                                0 <= j < i + 1 && (#[trigger] st1.maps@[j]).0 as int
                                    == id;
                            if j == i as int {
                                assert(k == FileKey::MapFile(mid as int));
                            }
                        }
                    },
                    _ => {},
                }
            }
            let m0: int = 15 + i as int;
            assert(save_order(st1, path)[m0] == FileKey::MapFile(mid as int));
            assert forall|k: FileKey|
                written.dom().contains(k) <==> (exists|j: int|
                    0 <= j < m0 + 1 && (#[trigger] save_order(st1, path)[j]) == k) by {
                if written.dom().contains(k) {
                    if k == FileKey::MapFile(mid as int) {
                        assert(save_order(st1, path)[m0] == k);
                    } else {
                        assert(prev.dom().contains(k));
                        let j = choose|j: int|
                            0 <= j < m0 && (#[trigger] save_order(st1, path)[j]) == k;
                        assert(save_order(st1, path)[j] == k);
                    }
                } else {
                    if exists|j: int|
                        0 <= j < m0 + 1 && (#[trigger] save_order(st1, path)[j]) == k {
                        let j = choose|j: int|
                            0 <= j < m0 + 1 && (#[trigger] save_order(st1, path)[j]) == k;
                        if j == m0 {
                            assert(false);
                        } else {
                            assert(prev.dom().contains(k));
                            assert(false);
                        }
                    }
                }
            }
        }
        i = i + 1;
    }
    proof {
        assert forall|k: FileKey| save.dom().contains(k) implies
            written.dom().contains(k) by {
            match k {
                FileKey::MapFile(id) => {
                    lemma_maps_view_covered(st1.maps@, id);
                },
                _ => {},
            }
        }
        assert(filesystem.files() =~= fs0.union_prefer_right(save));
    }
    Ok(())
}

/// One collection holding exactly the default record.
fn default_records() -> (v: Vec<Record>)
    ensures
        v.deep_view() == seq![RecordView { id: 0, name: Seq::<char>::empty() }],
{
    let mut v: Vec<Record> = Vec::new();
    v.push(Record::new_default());
    proof {
        assert(v.deep_view() =~= seq![RecordView { id: 0, name: Seq::<char>::empty() }]);
    }
    v
}

/// The project data store.
pub enum Data {
    Unloaded,
    Loaded(LoadedState),
}

impl Data {
    pub open spec fn is_loaded(&self) -> bool {
        self matches Data::Loaded(_)
    }

    pub open spec fn state(&self) -> LoadedState
        recommends
            self.is_loaded(),
    {
        self->Loaded_0
    }

    /// Discards all in-memory state; nothing is written.
    pub fn unload(&mut self)
        ensures
            *final(self) == Data::Unloaded,
    {
        *self = Data::Unloaded;
    }

    /// The file-name extension the store persists under.
    pub fn rxdata_ext(&self) -> (r: &'static str)
        ensures
            r@ == "rxdata"@,
    {
        "rxdata"
    }

    /// A loaded store for a brand-new project: one default record in every
    /// collection — the script bundle included — one default map-info entry
    /// and one default map, both under id 1, and a fresh magic number.  No
    /// file is touched.
    pub fn from_defaults() -> (r: Data)
        ensures
            r matches Data::Loaded(st) && default_loaded(st) && bounded_state(st),
    {
        let mut skills: Vec<Skill> = Vec::new();
        skills.push(Skill::new_default());
        let mut map_infos: Vec<MapInfoEntry> = Vec::new();
        map_infos.push(MapInfoEntry { id: 1, info: MapInfo::new_default() });
        let mut system = System::new_default();
        system.magic_number = rand::random();
        let mut scripts: Vec<Script> = Vec::new();
        scripts.push(Script::new_default());
        let mut maps: Vec<(usize, MapRecord)> = Vec::new();
        maps.push((1, MapRecord::new_default()));
        let st = LoadedState {
            actors: Some(default_records()),
            animations: Some(default_records()),
            armors: Some(default_records()),
            classes: Some(default_records()),
            common_events: Some(default_records()),
            enemies: Some(default_records()),
            items: Some(default_records()),
            skills: Some(skills),
            states: Some(default_records()),
            tilesets: Some(default_records()),
            troops: Some(default_records()),
            weapons: Some(default_records()),
            map_infos: Some(map_infos),
            system: Some(system),
            scripts: Some(scripts),
            maps,
        };
        proof {
            assert(st.skills->Some_0.deep_view() =~= seq![default_skill()]);
            assert(st.map_infos->Some_0.deep_view() =~= seq![
                MapInfoEntryView { id: 1, info: default_map_info() },
            ]);
            assert(st.scripts->Some_0.deep_view() =~= seq![default_script()]);
            assert(st.maps@.drop_last() =~= Seq::<(usize, MapRecord)>::empty());
            assert(maps_view(Seq::<(usize, MapRecord)>::empty()) == Map::<int, MapRecord>::empty());
            assert(st.maps@.last() == (1usize, default_map_record()));
            assert(maps_view(st.maps@) =~= Map::<int, MapRecord>::empty().insert(
                1,
                default_map_record(),
            ));
            assert(vstd::utf8::encode_utf8(Seq::<char>::empty()) =~= Seq::<u8>::empty());
            assert(bounded_state(st));
        }
        Data::Loaded(st)
    }

    /// Loads every collection of an open project.  The twelve nil-padded
    /// collections are read first, then the map-info table, then the system
    /// record, which receives a fresh magic number; the script bundle is
    /// resolved by trying the configured name and then the two fixed fallback
    /// names, and the name that decoded is written back into the
    /// configuration.  Any failure aborts the whole load, names the failing
    /// file, and leaves the store and the configuration untouched; the map
    /// cache starts empty in every case.
    pub fn load<FS: FileSystem>(&mut self, filesystem: &FS, config: &mut ProjectConfig) -> (r:
        Result<(), StoreError>)
        ensures
            match r {
                Ok(()) => {
                    &&& load_failure(filesystem.files(), old(config).scripts_path@) is None
                    &&& resolve_scripts(filesystem.files(), old(config).scripts_path@) is Some
                    &&& final(config).scripts_path@ == resolve_scripts(
                        filesystem.files(),
                        old(config).scripts_path@,
                    )->Some_0.0
                    &&& final(self).is_loaded()
                    &&& loaded_from(
                        final(self).state(),
                        filesystem.files(),
                        final(config).scripts_path@,
                    )
                    &&& bounded_state(final(self).state())
                },
                Err(e) => {
                    &&& *final(self) == *old(self)
                    &&& final(config).scripts_path@ == old(config).scripts_path@
                    &&& load_failure(filesystem.files(), old(config).scripts_path@) matches Some(f)
                        && error_reflects(e, f, old(config).scripts_path@)
                },
            },
    {
        let actors = match read_basic(filesystem, RecordKind::Actors) {
            Ok(v) => v,
            Err(e) => {
                return Err(e);
            },
        };
        let animations = match read_basic(filesystem, RecordKind::Animations) {
            Ok(v) => v,
            Err(e) => {
                return Err(e);
            },
        };
        let armors = match read_basic(filesystem, RecordKind::Armors) {
            Ok(v) => v,
            Err(e) => {
                return Err(e);
            },
        };
        let classes = match read_basic(filesystem, RecordKind::Classes) {
            Ok(v) => v,
            Err(e) => {
                return Err(e);
            },
        };
        let common_events = match read_basic(filesystem, RecordKind::CommonEvents) {
            Ok(v) => v,
            Err(e) => {
                return Err(e);
            },
        };
        let enemies = match read_basic(filesystem, RecordKind::Enemies) {
            Ok(v) => v,
            Err(e) => {
                return Err(e);
            },
        };
        let items = match read_basic(filesystem, RecordKind::Items) {
            Ok(v) => v,
            Err(e) => {
                return Err(e);
            },
        };
        let skills = match read_skills(filesystem) {
            Ok(v) => v,
            Err(e) => {
                return Err(e);
            },
        };
        let states = match read_basic(filesystem, RecordKind::States) {
            Ok(v) => v,
            Err(e) => {
                return Err(e);
            },
        };
        let tilesets = match read_basic(filesystem, RecordKind::Tilesets) {
            Ok(v) => v,
            Err(e) => {
                return Err(e);
            },
        };
        let troops = match read_basic(filesystem, RecordKind::Troops) {
            Ok(v) => v,
            Err(e) => {
                return Err(e);
            },
        };
        let weapons = match read_basic(filesystem, RecordKind::Weapons) {
            Ok(v) => v,
            Err(e) => {
                return Err(e);
            },
        };
        let map_infos = match read_map_infos(filesystem) {
            Ok(v) => v,
            Err(e) => {
                return Err(e);
            },
        };
        let mut system = match read_system(filesystem) {
            Ok(v) => v,
            Err(e) => {
                return Err(e);
            },
        };
        system.magic_number = rand::random();
        let first = config.scripts_path.clone();
        let (resolved, scripts) = match try_scripts(filesystem, &first) {
            Some(v) => (first, v),
            None => {
                let second = "xScripts".to_owned();
                match try_scripts(filesystem, &second) {
                    Some(v) => (second, v),
                    None => {
                        let third = "Scripts".to_owned();
                        match try_scripts(filesystem, &third) {
                            Some(v) => (third, v),
                            None => {
                                return Err(StoreError::ScriptsUnresolved(
                                    first,
                                    "xScripts".to_owned(),
                                    "Scripts".to_owned(),
                                ));
                            },
                        }
                    },
                }
            },
        };
        config.scripts_path = resolved;
        let st = LoadedState {
            actors: Some(actors),
            animations: Some(animations),
            armors: Some(armors),
            classes: Some(classes),
            common_events: Some(common_events),
            enemies: Some(enemies),
            items: Some(items),
            skills: Some(skills),
            states: Some(states),
            tilesets: Some(tilesets),
            troops: Some(troops),
            weapons: Some(weapons),
            map_infos: Some(map_infos),
            system: Some(system),
            scripts: Some(scripts),
            maps: Vec::new(),
        };
        proof {
            let files = filesystem.files();
            assert forall|kind: RecordKind|
                ((#[trigger] records_slot(st, kind)) matches Some(v) ==> wf_wire_seq::<Record>(
                    v.deep_view(),
                ) && fits_nil_padded::<Record>(v.deep_view())) by {
                lemma_parse_nil_padded_wf::<Record>(files[FileKey::Records(kind)]);
            }
            lemma_parse_nil_padded_wf::<Skill>(files[FileKey::Skills]);
            lemma_parse_array_wf::<MapInfoEntry>(files[FileKey::MapInfos]);
            lemma_parse_single_wf::<System>(files[FileKey::System]);
            lemma_parse_array_wf::<Script>(files[FileKey::Scripts(resolved@)]);
            assert(bounded_state(st));
        }
        *self = Data::Loaded(st);
        Ok(())
    }

    /// Serializes and writes every loaded collection: the twelve nil-padded
    /// collections, the map-info table, the system record after refreshing
    /// its magic number, the script bundle under the currently configured
    /// name, and every cached map under its id.  Taking the store by `&mut`
    /// and demanding every slot back rules out saving around an outstanding
    /// view.  A failed write aborts the remaining writes and names the file:
    /// exactly the files before it in the write order carry their new bytes,
    /// all others their old ones.
    pub fn save<FS: FileSystem>(&mut self, filesystem: &mut FS, config: &ProjectConfig) -> (r:
        Result<(), StoreError>)
        requires
            old(self).is_loaded() ==> bounded_state(old(self).state()),
        ensures
            match r {
                Ok(()) => {
                    &&& old(self).is_loaded() && all_present(old(self).state())
                    &&& final(self).is_loaded()
                    &&& final(self).state() == with_magic(
                        old(self).state(),
                        final(self).state().system->Some_0.magic_number,
                    )
                    &&& final(filesystem).files() == old(filesystem).files().union_prefer_right(
                        save_files(final(self).state(), config.scripts_path@),
                    )
                },
                Err(e) => match e {
                    StoreError::NotLoaded => {
                        &&& !old(self).is_loaded()
                        &&& *final(self) == *old(self)
                        &&& final(filesystem).files() == old(filesystem).files()
                    },
                    StoreError::BorrowViolation => {
                        &&& old(self).is_loaded() && !all_present(old(self).state())
                        &&& *final(self) == *old(self)
                        &&& final(filesystem).files() == old(filesystem).files()
                    },
                    StoreError::WriteFailed(f) => {
                        &&& old(self).is_loaded() && all_present(old(self).state())
                        &&& final(self).is_loaded()
                        &&& final(self).state() == with_magic(
                            old(self).state(),
                            final(self).state().system->Some_0.magic_number,
                        )
                        &&& save_files(final(self).state(), config.scripts_path@).dom().contains(
                            f@,
                        )
                        &&& exists|i: int|
                            0 <= i < save_order(final(self).state(), config.scripts_path@).len()
                                && f@ == save_order(final(self).state(), config.scripts_path@)[i]
                                && final(filesystem).files() == old(filesystem).files().union_prefer_right(
                                save_prefix(final(self).state(), config.scripts_path@, i),
                            )
                    },
                    _ => false,
                },
            },
    {
        match self {
            Data::Unloaded => Err(StoreError::NotLoaded),
            Data::Loaded(st) => save_loaded(st, filesystem, config),
        }
    }

    // -----------------------------------------------------------------------
    // Exclusive views: take and put
    // -----------------------------------------------------------------------

    /// Takes the exclusive view of one basic record collection.
    pub fn take_records(&mut self, kind: RecordKind) -> (r: Result<Vec<Record>, StoreError>)
        ensures
            match r {
                Ok(v) => {
                    &&& old(self).is_loaded()
                    &&& records_slot(old(self).state(), kind) == Some(v)
                    &&& *final(self) == Data::Loaded(
                        set_records_slot(old(self).state(), kind, None),
                    )
                },
                Err(e) => {
                    &&& *final(self) == *old(self)
                    &&& match e {
                        StoreError::NotLoaded => !old(self).is_loaded(),
                        StoreError::BorrowViolation => old(self).is_loaded() && records_slot(
                            old(self).state(),
                            kind,
                        ) is None,
                        _ => false,
                    }
                },
            },
    {
        match self {
            Data::Unloaded => Err(StoreError::NotLoaded),
            Data::Loaded(st) => {
                let slot = match kind {
                    RecordKind::Actors => st.actors.take(),
                    RecordKind::Animations => st.animations.take(),
                    RecordKind::Armors => st.armors.take(),
                    RecordKind::Classes => st.classes.take(),
                    RecordKind::CommonEvents => st.common_events.take(),
                    RecordKind::Enemies => st.enemies.take(),
                    RecordKind::Items => st.items.take(),
                    RecordKind::States => st.states.take(),
                    RecordKind::Tilesets => st.tilesets.take(),
                    RecordKind::Troops => st.troops.take(),
                    RecordKind::Weapons => st.weapons.take(),
                };
                match slot {
                    Some(v) => Ok(v),
                    None => Err(StoreError::BorrowViolation),
                }
            },
        }
    }

    /// Returns the exclusive view of one basic record collection.
    pub fn put_records(&mut self, kind: RecordKind, recs: Vec<Record>) -> (r: Result<
        (),
        StoreError,
    >)
        ensures
            match r {
                Ok(()) => {
                    &&& old(self).is_loaded()
                    &&& records_slot(old(self).state(), kind) is None
                    &&& *final(self) == Data::Loaded(
                        set_records_slot(old(self).state(), kind, Some(recs)),
                    )
                },
                Err(e) => {
                    &&& *final(self) == *old(self)
                    &&& match e {
                        StoreError::NotLoaded => !old(self).is_loaded(),
                        StoreError::BorrowViolation => old(self).is_loaded() && records_slot(
                            old(self).state(),
                            kind,
                        ) is Some,
                        _ => false,
                    }
                },
            },
    {
        match self {
            Data::Unloaded => Err(StoreError::NotLoaded),
            Data::Loaded(st) => {
                let occupied = match kind {
                    RecordKind::Actors => st.actors.is_some(),
                    RecordKind::Animations => st.animations.is_some(),
                    RecordKind::Armors => st.armors.is_some(),
                    RecordKind::Classes => st.classes.is_some(),
                    RecordKind::CommonEvents => st.common_events.is_some(),
                    RecordKind::Enemies => st.enemies.is_some(),
                    RecordKind::Items => st.items.is_some(),
                    RecordKind::States => st.states.is_some(),
                    RecordKind::Tilesets => st.tilesets.is_some(),
                    RecordKind::Troops => st.troops.is_some(),
                    RecordKind::Weapons => st.weapons.is_some(),
                };
                if occupied {
                    Err(StoreError::BorrowViolation)
                } else {
                    match kind {
                        RecordKind::Actors => st.actors = Some(recs),
                        RecordKind::Animations => st.animations = Some(recs),
                        RecordKind::Armors => st.armors = Some(recs),
                        RecordKind::Classes => st.classes = Some(recs),
                        RecordKind::CommonEvents => st.common_events = Some(recs),
                        RecordKind::Enemies => st.enemies = Some(recs),
                        RecordKind::Items => st.items = Some(recs),
                        RecordKind::States => st.states = Some(recs),
                        RecordKind::Tilesets => st.tilesets = Some(recs),
                        RecordKind::Troops => st.troops = Some(recs),
                        RecordKind::Weapons => st.weapons = Some(recs),
                    }
                    Ok(())
                }
            },
        }
    }

    /// Takes the exclusive view of the skill collection.
    pub fn take_skills(&mut self) -> (r: Result<Vec<Skill>, StoreError>)
        ensures
            match r {
                Ok(v) => {
                    &&& old(self).is_loaded()
                    &&& old(self).state().skills == Some(v)
                    &&& *final(self) == Data::Loaded(
                        LoadedState { skills: None, ..old(self).state() },
                    )
                },
                Err(e) => {
                    &&& *final(self) == *old(self)
                    &&& match e {
                        StoreError::NotLoaded => !old(self).is_loaded(),
                        StoreError::BorrowViolation => old(self).is_loaded() && old(self).state().skills is None,
                        _ => false,
                    }
                },
            },
    {
        match self {
            Data::Unloaded => Err(StoreError::NotLoaded),
            Data::Loaded(st) => match st.skills.take() {
                Some(v) => Ok(v),
                None => Err(StoreError::BorrowViolation),
            },
        }
    }

    /// Returns the exclusive view of the skill collection.
    pub fn put_skills(&mut self, skills: Vec<Skill>) -> (r: Result<(), StoreError>)
        ensures
            match r {
                Ok(()) => {
                    &&& old(self).is_loaded()
                    &&& old(self).state().skills is None
                    &&& *final(self) == Data::Loaded(
                        LoadedState { skills: Some(skills), ..old(self).state() },
                    )
                },
                Err(e) => {
                    &&& *final(self) == *old(self)
                    &&& match e {
                        StoreError::NotLoaded => !old(self).is_loaded(),
                        StoreError::BorrowViolation => old(self).is_loaded() && old(self).state().skills is Some,
                        _ => false,
                    }
                },
            },
    {
        match self {
            Data::Unloaded => Err(StoreError::NotLoaded),
            Data::Loaded(st) => {
                if st.skills.is_some() {
                    Err(StoreError::BorrowViolation)
                } else {
                    st.skills = Some(skills);
                    Ok(())
                }
            },
        }
    }

    /// Takes the exclusive view of the map-info table.
    pub fn take_map_infos(&mut self) -> (r: Result<Vec<MapInfoEntry>, StoreError>)
        ensures
            match r {
                Ok(v) => {
                    &&& old(self).is_loaded()
                    &&& old(self).state().map_infos == Some(v)
                    &&& *final(self) == Data::Loaded(
                        LoadedState { map_infos: None, ..old(self).state() },
                    )
                },
                Err(e) => {
                    &&& *final(self) == *old(self)
                    &&& match e {
                        StoreError::NotLoaded => !old(self).is_loaded(),
                        StoreError::BorrowViolation => old(self).is_loaded() && old(self).state().map_infos is None,
                        _ => false,
                    }
                },
            },
    {
        match self {
            Data::Unloaded => Err(StoreError::NotLoaded),
            Data::Loaded(st) => match st.map_infos.take() {
                Some(v) => Ok(v),
                None => Err(StoreError::BorrowViolation),
            },
        }
    }

    /// Returns the exclusive view of the map-info table.
    pub fn put_map_infos(&mut self, infos: Vec<MapInfoEntry>) -> (r: Result<(), StoreError>)
        ensures
            match r {
                Ok(()) => {
                    &&& old(self).is_loaded()
                    &&& old(self).state().map_infos is None
                    &&& *final(self) == Data::Loaded(
                        LoadedState { map_infos: Some(infos), ..old(self).state() },
                    )
                },
                Err(e) => {
                    &&& *final(self) == *old(self)
                    &&& match e {
                        StoreError::NotLoaded => !old(self).is_loaded(),
                        StoreError::BorrowViolation => old(self).is_loaded() && old(self).state().map_infos is Some,
                        _ => false,
                    }
                },
            },
    {
        match self {
            Data::Unloaded => Err(StoreError::NotLoaded),
            Data::Loaded(st) => {
                if st.map_infos.is_some() {
                    Err(StoreError::BorrowViolation)
                } else {
                    st.map_infos = Some(infos);
                    Ok(())
                }
            },
        }
    }

    /// Takes the exclusive view of the system record.
    pub fn take_system(&mut self) -> (r: Result<System, StoreError>)
        ensures
            match r {
                Ok(v) => {
                    &&& old(self).is_loaded()
                    &&& old(self).state().system == Some(v)
                    &&& *final(self) == Data::Loaded(
                        LoadedState { system: None, ..old(self).state() },
                    )
                },
                Err(e) => {
                    &&& *final(self) == *old(self)
                    &&& match e {
                        StoreError::NotLoaded => !old(self).is_loaded(),
                        StoreError::BorrowViolation => old(self).is_loaded() && old(self).state().system is None,
                        _ => false,
                    }
                },
            },
    {
        match self {
            Data::Unloaded => Err(StoreError::NotLoaded),
            Data::Loaded(st) => match st.system.take() {
                Some(v) => Ok(v),
                None => Err(StoreError::BorrowViolation),
            },
        }
    }

    /// Returns the exclusive view of the system record.
    pub fn put_system(&mut self, system: System) -> (r: Result<(), StoreError>)
        ensures
            match r {
                Ok(()) => {
                    &&& old(self).is_loaded()
                    &&& old(self).state().system is None
                    &&& *final(self) == Data::Loaded(
                        LoadedState { system: Some(system), ..old(self).state() },
                    )
                },
                Err(e) => {
                    &&& *final(self) == *old(self)
                    &&& match e {
                        StoreError::NotLoaded => !old(self).is_loaded(),
                        StoreError::BorrowViolation => old(self).is_loaded() && old(self).state().system is Some,
                        _ => false,
                    }
                },
            },
    {
        match self {
            Data::Unloaded => Err(StoreError::NotLoaded),
            Data::Loaded(st) => {
                if st.system.is_some() {
                    Err(StoreError::BorrowViolation)
                } else {
                    st.system = Some(system);
                    Ok(())
                }
            },
        }
    }

    /// Takes the exclusive view of the script bundle.
    pub fn take_scripts(&mut self) -> (r: Result<Vec<Script>, StoreError>)
        ensures
            match r {
                Ok(v) => {
                    &&& old(self).is_loaded()
                    &&& old(self).state().scripts == Some(v)
                    &&& *final(self) == Data::Loaded(
                        LoadedState { scripts: None, ..old(self).state() },
                    )
                },
                Err(e) => {
                    &&& *final(self) == *old(self)
                    &&& match e {
                        StoreError::NotLoaded => !old(self).is_loaded(),
                        StoreError::BorrowViolation => old(self).is_loaded() && old(self).state().scripts is None,
                        _ => false,
                    }
                },
            },
    {
        match self {
            Data::Unloaded => Err(StoreError::NotLoaded),
            Data::Loaded(st) => match st.scripts.take() {
                Some(v) => Ok(v),
                None => Err(StoreError::BorrowViolation),
            },
        }
    }

    /// Returns the exclusive view of the script bundle.
    pub fn put_scripts(&mut self, scripts: Vec<Script>) -> (r: Result<(), StoreError>)
        ensures
            match r {
                Ok(()) => {
                    &&& old(self).is_loaded()
                    &&& old(self).state().scripts is None
                    &&& *final(self) == Data::Loaded(
                        LoadedState { scripts: Some(scripts), ..old(self).state() },
                    )
                },
                Err(e) => {
                    &&& *final(self) == *old(self)
                    &&& match e {
                        StoreError::NotLoaded => !old(self).is_loaded(),
                        StoreError::BorrowViolation => old(self).is_loaded() && old(self).state().scripts is Some,
                        _ => false,
                    }
                },
            },
    {
        match self {
            Data::Unloaded => Err(StoreError::NotLoaded),
            Data::Loaded(st) => {
                if st.scripts.is_some() {
                    Err(StoreError::BorrowViolation)
                } else {
                    st.scripts = Some(scripts);
                    Ok(())
                }
            },
        }
    }

    // -----------------------------------------------------------------------
    // Map records
    // -----------------------------------------------------------------------

    /// Reads a cached map record.  Requesting an uncached id is refused.
    pub fn get_map(&self, id: usize) -> (r: Result<MapRecord, StoreError>)
        ensures
            match r {
                Ok(m) => {
                    &&& self.is_loaded()
                    &&& maps_view(self.state().maps@).contains_key(id as int)
                    &&& m == maps_view(self.state().maps@)[id as int]
                },
                Err(e) => match e {
                    StoreError::NotLoaded => !self.is_loaded(),
                    StoreError::MapNotCached(i) => i == id && self.is_loaded() && !maps_view(
                        self.state().maps@,
                    ).contains_key(id as int),
                    _ => false,
                },
            },
    {
        match self {
            Data::Unloaded => Err(StoreError::NotLoaded),
            Data::Loaded(st) => {
                let n = st.maps.len();
                let mut i: usize = n;
                while i > 0
                    invariant
                        self.is_loaded(),
                        *st == self.state(),
                        n == st.maps@.len(),
                        i <= n,
                        forall|j: int| i <= j < n ==> (#[trigger] st.maps@[j].0) != id,
                    decreases i,
                {
                    i = i - 1;
                    if st.maps[i].0 == id {
                        proof {
                            lemma_maps_view_found(st.maps@, i as int);
                        }
                        return Ok(st.maps[i].1);
                    }
                }
                proof {
                    lemma_maps_view_absent(st.maps@, id);
                }
                Err(StoreError::MapNotCached(id))
            },
        }
    }

    /// Overwrites a cached map record.  Writing an uncached id is refused.
    #[verifier::rlimit(100)]
    pub fn set_map(&mut self, id: usize, m: MapRecord) -> (r: Result<(), StoreError>)
        ensures
            match r {
                Ok(()) => {
                    &&& old(self).is_loaded()
                    &&& maps_view(old(self).state().maps@).contains_key(id as int)
                    &&& final(self).is_loaded()
                    &&& unchanged_except_maps(old(self).state(), final(self).state())
                    &&& maps_view(final(self).state().maps@) == maps_view(
                        old(self).state().maps@,
                    ).insert(id as int, m)
                    &&& unique_map_ids(old(self).state().maps@) ==> unique_map_ids(
                        final(self).state().maps@,
                    )
                },
                Err(e) => {
                    &&& *final(self) == *old(self)
                    &&& match e {
                        StoreError::NotLoaded => !old(self).is_loaded(),
                        StoreError::MapNotCached(i) => i == id && old(self).is_loaded()
                            && !maps_view(old(self).state().maps@).contains_key(id as int),
                        _ => false,
                    }
                },
            },
    {
        match self.get_map(id) {
            Ok(_) => (),
            Err(e) => {
                return Err(e);
            },
        };
        match self {
            Data::Unloaded => Err(StoreError::NotLoaded),
            Data::Loaded(st) => {
                let ghost pre = st.maps@;
                let n = st.maps.len();
                let mut i: usize = 0;
                let mut found: Option<usize> = None;
                while i < n && found.is_none()
                    invariant
                        n == st.maps@.len(),
                        i <= n,
                        match found {
                            Some(fi) => fi < n && st.maps@[fi as int].0 == id,
                            None => forall|j: int|
                                0 <= j < i ==> (#[trigger] st.maps@[j].0) != id,
                        },
                    decreases n - i, (if found is None { 1int } else { 0int }),
                {
                    if st.maps[i].0 == id {
                        found = Some(i);
                    } else {
                        i = i + 1;
                    }
                }
                match found {
                    None => {
                        proof {
                            lemma_maps_view_absent(st.maps@, id);
                        }
                        Err(StoreError::MapNotCached(id))
                    },
                    Some(fi) => {
                        proof {
                            lemma_maps_view_remove_at(st.maps@, fi as int);
                        }
                        st.maps.remove(fi);
                        let ghost removed = st.maps@;
                        st.maps.push((id, m));
                        proof {
                            assert(st.maps@.drop_last() =~= removed);
                            assert(maps_view(st.maps@) == maps_view(removed).insert(id as int, m));
                            assert(maps_view(st.maps@) =~= maps_view(pre).insert(id as int, m));
                            if unique_map_ids(pre) {
                                assert forall|a: int, b: int|
                                    0 <= a < b < st.maps@.len() implies (#[trigger] st.maps@[a].0)
                                    != (#[trigger] st.maps@[b].0) by {
                                    let fii = fi as int;
                                    if b == st.maps@.len() - 1 {
                                        let a0: int = if a < fii {
                                            a
                                        } else {
                                            a + 1
                                        };
                                        assert(st.maps@[a] == pre[a0]);
                                        assert(pre[fii].0 == id);
                                        assert(pre[a0].0 != id);
                                    } else {
                                        let a0: int = if a < fii {
                                            a
                                        } else {
                                            a + 1
                                        };
                                        let b0: int = if b < fii {
                                            b
                                        } else {
                                            b + 1
                                        };
                                        assert(st.maps@[a] == pre[a0]);
                                        assert(st.maps@[b] == pre[b0]);
                                    }
                                }
                            }
                        }
                        Ok(())
                    },
                }
            },
        }
    }

    /// Returns the cached record for `id`, loading and caching it from the
    /// file system on first access.  A cached id touches nothing; an uncached
    /// one is read from its map file, and a missing or undecodable map file
    /// fails the call.
    pub fn get_or_load_map<FS: FileSystem>(&mut self, id: usize, filesystem: &FS) -> (r: Result<
        MapRecord,
        StoreError,
    >)
        ensures
            match r {
                Ok(m) => {
                    &&& old(self).is_loaded()
                    &&& final(self).is_loaded()
                    &&& unchanged_except_maps(old(self).state(), final(self).state())
                    &&& if maps_view(old(self).state().maps@).contains_key(id as int) {
                        &&& m == maps_view(old(self).state().maps@)[id as int]
                        &&& *final(self) == *old(self)
                    } else {
                        &&& filesystem.files().contains_key(FileKey::MapFile(id as int))
                        &&& parse_single::<MapRecord>(
                            filesystem.files()[FileKey::MapFile(id as int)],
                        ) == Some(m)
                        &&& maps_view(final(self).state().maps@) == maps_view(
                            old(self).state().maps@,
                        ).insert(id as int, m)
                    }
                    &&& maps_view(final(self).state().maps@).contains_key(id as int)
                    &&& maps_view(final(self).state().maps@)[id as int] == m
                    &&& unique_map_ids(old(self).state().maps@) ==> unique_map_ids(
                        final(self).state().maps@,
                    )
                },
                Err(e) => {
                    &&& *final(self) == *old(self)
                    &&& match e {
                        StoreError::NotLoaded => !old(self).is_loaded(),
                        StoreError::MissingFile(f) => {
                            &&& old(self).is_loaded()
                            &&& !maps_view(old(self).state().maps@).contains_key(id as int)
                            &&& f@ == FileKey::MapFile(id as int)
                            &&& !filesystem.files().contains_key(FileKey::MapFile(id as int))
                        },
                        StoreError::DecodeError(f) => {
                            &&& old(self).is_loaded()
                            &&& !maps_view(old(self).state().maps@).contains_key(id as int)
                            &&& f@ == FileKey::MapFile(id as int)
                            &&& filesystem.files().contains_key(FileKey::MapFile(id as int))
                            &&& parse_single::<MapRecord>(
                                filesystem.files()[FileKey::MapFile(id as int)],
                            ) is None
                        },
                        _ => false,
                    }
                },
            },
    {
        match self.get_map(id) {
            Ok(m) => Ok(m),
            Err(StoreError::NotLoaded) => Err(StoreError::NotLoaded),
            Err(_) => {
                let file = FileId::MapFile(id);
                let bytes = match filesystem.read(&file) {
                    Some(bytes) => bytes,
                    None => {
                        return Err(StoreError::MissingFile(file));
                    },
                };
                let m: MapRecord = match deserialize_single::<MapRecord>(&bytes) {
                    Some(m) => m,
                    None => {
                        return Err(StoreError::DecodeError(file));
                    },
                };
                match self {
                    Data::Unloaded => Err(StoreError::NotLoaded),
                    Data::Loaded(st) => {
                        let ghost pre = st.maps@;
                        st.maps.push((id, m));
                        proof {
                            assert(st.maps@.drop_last() =~= pre);
                            assert(maps_view(st.maps@) == maps_view(pre).insert(id as int, m));
                            assert forall|j: int| 0 <= j < pre.len() implies (#[trigger] pre[j].0)
                                != id by {
                                lemma_maps_view_contains(pre, j);
                            }
                            if unique_map_ids(pre) {
                                assert forall|a: int, b: int|
                                    0 <= a < b < st.maps@.len() implies (#[trigger] st.maps@[a].0)
                                    != (#[trigger] st.maps@[b].0) by {
                                    assert(st.maps@[a] == pre[a]);
                                    if b < st.maps@.len() - 1 {
                                        assert(st.maps@[b] == pre[b]);
                                    }
                                }
                            }
                        }
                        Ok(m)
                    },
                }
            },
        }
    }
}

} // verus!
