//! The laws of the store, stated and proved once for all inputs.

use vstd::prelude::*;
use crate::records::{
    Record, RecordView, Skill, SkillView, Script, ScriptView, System, SystemView, MapInfoEntry,
    MapInfoEntryView, MapRecord, RecordKind,
};
use crate::fs::FileKey;
use crate::wire::{
    WireRecord, wf_wire_seq, fits_nil_padded, fits_array, enc_nil_padded, parse_nil_padded,
    enc_array, parse_array, enc_single, parse_single, lemma_nil_padded_round_trip,
    lemma_array_round_trip, lemma_single_round_trip, disk_elems,
};
use crate::store::{
    LoadedState, records_slot, set_records_slot, default_loaded, save_files, maps_view,
    resolve_scripts, scripts_ok, scripts_of, load_failure, basic_failure, skills_failure,
    map_infos_failure, system_failure, LoadFailure,
};

verus! {

// ---------------------------------------------------------------------------
// Round trips: decoding an encoded collection yields the collection back
// ---------------------------------------------------------------------------

/// A nil-padded basic record collection round-trips, the empty one included.
pub proof fn lemma_records_round_trip(items: Seq<RecordView>)
    requires
        wf_wire_seq::<Record>(items),
        fits_nil_padded::<Record>(items),
    ensures
        parse_nil_padded::<Record>(enc_nil_padded::<Record>(items)) == Some(items),
{
    lemma_nil_padded_round_trip::<Record>(items);
}

/// A nil-padded skill collection round-trips.
pub proof fn lemma_skills_round_trip(items: Seq<SkillView>)
    requires
        wf_wire_seq::<Skill>(items),
        fits_nil_padded::<Skill>(items),
    ensures
        parse_nil_padded::<Skill>(enc_nil_padded::<Skill>(items)) == Some(items),
{
    lemma_nil_padded_round_trip::<Skill>(items);
}

/// The map-info table round-trips.
pub proof fn lemma_map_infos_round_trip(items: Seq<MapInfoEntryView>)
    requires
        wf_wire_seq::<MapInfoEntry>(items),
        fits_array::<MapInfoEntry>(items),
    ensures
        parse_array::<MapInfoEntry>(enc_array::<MapInfoEntry>(items)) == Some(items),
{
    lemma_array_round_trip::<MapInfoEntry>(items);
}

/// The script bundle round-trips.
pub proof fn lemma_scripts_round_trip(items: Seq<ScriptView>)
    requires
        wf_wire_seq::<Script>(items),
        fits_array::<Script>(items),
    ensures
        parse_array::<Script>(enc_array::<Script>(items)) == Some(items),
{
    lemma_array_round_trip::<Script>(items);
}

/// The system record round-trips.
pub proof fn lemma_system_round_trip(v: SystemView)
    requires
        <System as WireRecord>::wf_view(v),
    ensures
        parse_single::<System>(enc_single::<System>(v)) == Some(v),
{
    lemma_single_round_trip::<System>(v);
}

/// A map record round-trips.
pub proof fn lemma_map_record_round_trip(v: MapRecord)
    ensures
        parse_single::<MapRecord>(enc_single::<MapRecord>(v)) == Some(v),
{
    lemma_single_round_trip::<MapRecord>(v);
}

// ---------------------------------------------------------------------------
// Nil-padding id alignment
// ---------------------------------------------------------------------------

/// For a collection of length N, the on-disk array has N + 1 elements: the
/// sentinel at position 0, and the in-memory record at position `i` at
/// on-disk position `i + 1`, so a record's logical id equals its array
/// position.  Serializing then deserializing preserves the collection, and
/// with it this alignment, exactly — including when N is 0.
pub proof fn lemma_nil_padding_alignment<T: WireRecord>(items: Seq<T::V>)
    requires
        wf_wire_seq::<T>(items),
        fits_nil_padded::<T>(items),
    ensures
        disk_elems(items).len() == items.len() + 1,
        disk_elems(items)[0] is None,
        forall|i: int| 0 <= i < items.len() ==> disk_elems(items)[i + 1] == Some(#[trigger] items[i]),
        parse_nil_padded::<T>(enc_nil_padded::<T>(items)) == Some(items),
{
    lemma_nil_padded_round_trip::<T>(items);
}

// ---------------------------------------------------------------------------
// Script fallback order
// ---------------------------------------------------------------------------

/// When the configured name does not resolve but the first fixed fallback
/// does, the fallback wins, whatever the second fallback holds; and when no
/// candidate resolves, the load fails with the script-bundle failure — which
/// `load` reports with all three attempted names — provided everything before
/// the script bundle loads.
pub proof fn lemma_script_fallback_order(files: Map<FileKey, Seq<u8>>, cfg: Seq<char>)
    ensures
        !scripts_ok(files, cfg) && scripts_ok(files, "xScripts"@) ==> resolve_scripts(files, cfg)
            == Some(("xScripts"@, scripts_of(files, "xScripts"@))),
        (!scripts_ok(files, cfg) && !scripts_ok(files, "xScripts"@) && !scripts_ok(
            files,
            "Scripts"@,
        ) && (forall|kind: RecordKind| basic_failure(files, kind) is None) && skills_failure(
            files,
        ) is None && map_infos_failure(files) is None && system_failure(files) is None)
            ==> load_failure(files, cfg) == Some(LoadFailure::Scripts),
{
}

// ---------------------------------------------------------------------------
// Borrow exclusivity
// ---------------------------------------------------------------------------

/// Taking one collection leaves its own slot empty and every other slot
/// untouched: by the contract of `take_records`, a second take of the same
/// collection is a borrow violation, while a take of any other collection
/// still succeeds.
pub proof fn lemma_borrow_exclusivity(st: LoadedState, k1: RecordKind, k2: RecordKind)
    requires
        k1 != k2,
        records_slot(st, k1) is Some,
        records_slot(st, k2) is Some,
    ensures
        records_slot(set_records_slot(st, k1, None), k1) is None,
        records_slot(set_records_slot(st, k1, None), k2) == records_slot(st, k2),
{
}

// ---------------------------------------------------------------------------
// Save completeness
// ---------------------------------------------------------------------------

/// On the state `from_defaults` produces, a save writes exactly the twelve
/// collection files, the map-info table, the system record, the script bundle
/// under the configured name, and the one map file with id 1.
pub proof fn lemma_save_completeness(st: LoadedState, path: Seq<char>)
    requires
        default_loaded(st),
    ensures
        forall|k: FileKey|
            save_files(st, path).dom().contains(k) <==> (match k {
                FileKey::Records(_) => true,
                FileKey::Skills => true,
                FileKey::MapInfos => true,
                FileKey::System => true,
                FileKey::Scripts(name) => name == path,
                FileKey::MapFile(id) => id == 1,
            }),
{
    assert forall|k: FileKey|
        save_files(st, path).dom().contains(k) <==> (match k {
            FileKey::Records(_) => true,
            FileKey::Skills => true,
            FileKey::MapInfos => true,
            FileKey::System => true,
            FileKey::Scripts(name) => name == path,
            FileKey::MapFile(id) => id == 1,
        }) by {
        match k {
            FileKey::MapFile(id) => {
                assert(maps_view(st.maps@) == Map::<int, MapRecord>::empty().insert(
                    1,
                    crate::records::default_map_record(),
                ));
            },
            _ => {},
        }
    }
}

} // verus!
