//! The record types an open project is made of.
//!
//! Twelve collections hold nil-padded, id-aligned record sequences.  Eleven of
//! them share the basic record shape; the skill collection keeps the full
//! field set of its records as a worked-out example.  Beside them stand the
//! map-metadata record, the system record with its randomized magic number,
//! the opaque script records, and the per-map record.
//!
//! Every type has a mathematical view; contracts speak about views only.

use vstd::prelude::*;
use crate::codec::{fits_str, fits_byte_str};

verus! {

/// Identifies one of the eleven basic record collections.
#[derive(Clone, Copy, PartialEq, Eq, Structural, Debug, Hash)]
pub enum RecordKind {
    Actors,
    Animations,
    Armors,
    Classes,
    CommonEvents,
    Enemies,
    Items,
    States,
    Tilesets,
    Troops,
    Weapons,
}

// ---------------------------------------------------------------------------
// Basic record
// ---------------------------------------------------------------------------

/// One entry of a basic record collection.  The logical id of a record equals
/// its position in the nil-padded on-disk array.
pub struct Record {
    pub id: usize,
    pub name: String,
}

pub struct RecordView {
    pub id: usize,
    pub name: Seq<char>,
}

impl View for Record {
    type V = RecordView;

    open spec fn view(&self) -> RecordView {
        RecordView { id: self.id, name: self.name@ }
    }
}

impl DeepView for Record {
    type V = RecordView;

    open spec fn deep_view(&self) -> RecordView {
        self.view()
    }
}

pub open spec fn wf_record(v: RecordView) -> bool {
    fits_str(v.name)
}

impl Record {
    pub fn new_default() -> (r: Record)
        ensures
            r@ == (RecordView { id: 0, name: Seq::<char>::empty() }),
    {
        Record { id: 0, name: String::new() }
    }
}

// ---------------------------------------------------------------------------
// Audio file reference
// ---------------------------------------------------------------------------

pub struct AudioFile {
    pub name: String,
    pub volume: i32,
    pub pitch: i32,
}

pub struct AudioFileView {
    pub name: Seq<char>,
    pub volume: i32,
    pub pitch: i32,
}

impl View for AudioFile {
    type V = AudioFileView;

    open spec fn view(&self) -> AudioFileView {
        AudioFileView { name: self.name@, volume: self.volume, pitch: self.pitch }
    }
}

impl DeepView for AudioFile {
    type V = AudioFileView;

    open spec fn deep_view(&self) -> AudioFileView {
        self.view()
    }
}

pub open spec fn wf_audio_file(v: AudioFileView) -> bool {
    fits_str(v.name)
}

pub open spec fn default_audio_file() -> AudioFileView {
    AudioFileView { name: Seq::<char>::empty(), volume: 100, pitch: 100 }
}

impl AudioFile {
    pub fn new_default() -> (r: AudioFile)
        ensures
            r@ == default_audio_file(),
    {
        AudioFile { name: String::new(), volume: 100, pitch: 100 }
    }
}

// ---------------------------------------------------------------------------
// Skill occasion
// ---------------------------------------------------------------------------

/// When a skill may be used.  Stored on disk as a single code byte.
#[derive(Clone, Copy, PartialEq, Eq, Structural, Debug)]
pub enum Occasion {
    Always,
    OnlyBattle,
    OnlyMenu,
    Never,
}

pub open spec fn occasion_code(o: Occasion) -> u8 {
    match o {
        Occasion::Always => 0,
        Occasion::OnlyBattle => 1,
        Occasion::OnlyMenu => 2,
        Occasion::Never => 3,
    }
}

pub open spec fn occasion_of_code(c: u8) -> Option<Occasion> {
    if c == 0 {
        Some(Occasion::Always)
    } else if c == 1 {
        Some(Occasion::OnlyBattle)
    } else if c == 2 {
        Some(Occasion::OnlyMenu)
    } else if c == 3 {
        Some(Occasion::Never)
    } else {
        None
    }
}

impl Occasion {
    pub fn to_code(self) -> (r: u8)
        ensures
            r == occasion_code(self),
    {
        match self {
            Occasion::Always => 0,
            Occasion::OnlyBattle => 1,
            Occasion::OnlyMenu => 2,
            Occasion::Never => 3,
        }
    }

    pub fn from_code(c: u8) -> (r: Option<Occasion>)
        ensures
            r == occasion_of_code(c),
    {
        if c == 0 {
            Some(Occasion::Always)
        } else if c == 1 {
            Some(Occasion::OnlyBattle)
        } else if c == 2 {
            Some(Occasion::OnlyMenu)
        } else if c == 3 {
            Some(Occasion::Never)
        } else {
            None
        }
    }

    /// Human-readable label, as shown by the editor.
    pub fn text(self) -> (r: String)
        ensures
            self == Occasion::Always ==> r@ == "Always"@,
            self == Occasion::OnlyBattle ==> r@ == "Only in battle"@,
            self == Occasion::OnlyMenu ==> r@ == "Only from the menu"@,
            self == Occasion::Never ==> r@ == "Never"@,
    {
        match self {
            Occasion::Always => "Always".to_owned(),
            Occasion::OnlyBattle => "Only in battle".to_owned(),
            Occasion::OnlyMenu => "Only from the menu".to_owned(),
            Occasion::Never => "Never".to_owned(),
        }
    }
}

/// Round trip between an occasion and its code byte.
pub proof fn lemma_occasion_code_round_trip(o: Occasion)
    ensures
        occasion_of_code(occasion_code(o)) == Some(o),
{
}

// ---------------------------------------------------------------------------
// Skill
// ---------------------------------------------------------------------------

pub struct Skill {
    pub id: usize,
    pub name: String,
    pub icon_name: Option<String>,
    pub description: String,
    pub scope: i32,
    pub occasion: Occasion,
    pub animation1_id: Option<usize>,
    pub animation2_id: Option<usize>,
    pub menu_se: AudioFile,
    pub common_event_id: Option<usize>,
    pub sp_cost: i32,
    pub power: i32,
    pub atk_f: i32,
    pub eva_f: i32,
    pub str_f: i32,
    pub dex_f: i32,
    pub agi_f: i32,
    pub int_f: i32,
    pub hit: i32,
    pub pdef_f: i32,
    pub mdef_f: i32,
    pub variance: i32,
    pub element_set: Vec<usize>,
    pub plus_state_set: Vec<usize>,
    pub minus_state_set: Vec<usize>,
}

pub struct SkillView {
    pub id: usize,
    pub name: Seq<char>,
    pub icon_name: Option<Seq<char>>,
    pub description: Seq<char>,
    pub scope: i32,
    pub occasion: Occasion,
    pub animation1_id: Option<usize>,
    pub animation2_id: Option<usize>,
    pub menu_se: AudioFileView,
    pub common_event_id: Option<usize>,
    pub sp_cost: i32,
    pub power: i32,
    pub atk_f: i32,
    pub eva_f: i32,
    pub str_f: i32,
    pub dex_f: i32,
    pub agi_f: i32,
    pub int_f: i32,
    pub hit: i32,
    pub pdef_f: i32,
    pub mdef_f: i32,
    pub variance: i32,
    pub element_set: Seq<usize>,
    pub plus_state_set: Seq<usize>,
    pub minus_state_set: Seq<usize>,
}

impl View for Skill {
    type V = SkillView;

    open spec fn view(&self) -> SkillView {
        SkillView {
            id: self.id,
            name: self.name@,
            icon_name: match self.icon_name {
                Some(ref s) => Some(s@),
                None => None,
            },
            description: self.description@,
            scope: self.scope,
            occasion: self.occasion,
            animation1_id: self.animation1_id,
            animation2_id: self.animation2_id,
            menu_se: self.menu_se@,
            common_event_id: self.common_event_id,
            sp_cost: self.sp_cost,
            power: self.power,
            atk_f: self.atk_f,
            eva_f: self.eva_f,
            str_f: self.str_f,
            dex_f: self.dex_f,
            agi_f: self.agi_f,
            int_f: self.int_f,
            hit: self.hit,
            pdef_f: self.pdef_f,
            mdef_f: self.mdef_f,
            variance: self.variance,
            element_set: self.element_set@,
            plus_state_set: self.plus_state_set@,
            minus_state_set: self.minus_state_set@,
        }
    }
}

impl DeepView for Skill {
    type V = SkillView;

    open spec fn deep_view(&self) -> SkillView {
        self.view()
    }
}

pub open spec fn wf_skill(v: SkillView) -> bool {
    &&& fits_str(v.name)
    &&& match v.icon_name {
        Some(s) => fits_str(s),
        None => true,
    }
    &&& fits_str(v.description)
    &&& wf_audio_file(v.menu_se)
    &&& v.element_set.len() <= u32::MAX
    &&& v.plus_state_set.len() <= u32::MAX
    &&& v.minus_state_set.len() <= u32::MAX
}

pub open spec fn default_skill() -> SkillView {
    SkillView {
        id: 0,
        name: Seq::<char>::empty(),
        icon_name: None,
        description: Seq::<char>::empty(),
        scope: 0,
        occasion: Occasion::Always,
        animation1_id: None,
        animation2_id: None,
        menu_se: default_audio_file(),
        common_event_id: None,
        sp_cost: 0,
        power: 0,
        atk_f: 0,
        eva_f: 0,
        str_f: 0,
        dex_f: 0,
        agi_f: 0,
        int_f: 0,
        hit: 100,
        pdef_f: 0,
        mdef_f: 0,
        variance: 15,
        element_set: Seq::<usize>::empty(),
        plus_state_set: Seq::<usize>::empty(),
        minus_state_set: Seq::<usize>::empty(),
    }
}

impl Skill {
    pub fn new_default() -> (r: Skill)
        ensures
            r@ == default_skill(),
    {
        Skill {
            id: 0,
            name: String::new(),
            icon_name: None,
            description: String::new(),
            scope: 0,
            occasion: Occasion::Always,
            animation1_id: None,
            animation2_id: None,
            menu_se: AudioFile::new_default(),
            common_event_id: None,
            sp_cost: 0,
            power: 0,
            atk_f: 0,
            eva_f: 0,
            str_f: 0,
            dex_f: 0,
            agi_f: 0,
            int_f: 0,
            hit: 100,
            pdef_f: 0,
            mdef_f: 0,
            variance: 15,
            element_set: Vec::new(),
            plus_state_set: Vec::new(),
            minus_state_set: Vec::new(),
        }
    }
}

// ---------------------------------------------------------------------------
// Script
// ---------------------------------------------------------------------------

/// One opaque script blob of the script bundle.
pub struct Script {
    pub name: String,
    pub data: Vec<u8>,
}

pub struct ScriptView {
    pub name: Seq<char>,
    pub data: Seq<u8>,
}

impl View for Script {
    type V = ScriptView;

    open spec fn view(&self) -> ScriptView {
        ScriptView { name: self.name@, data: self.data@ }
    }
}

impl DeepView for Script {
    type V = ScriptView;

    open spec fn deep_view(&self) -> ScriptView {
        self.view()
    }
}

pub open spec fn wf_script(v: ScriptView) -> bool {
    fits_str(v.name) && fits_byte_str(v.data)
}

pub open spec fn default_script() -> ScriptView {
    ScriptView { name: Seq::<char>::empty(), data: Seq::<u8>::empty() }
}

impl Script {
    pub fn new_default() -> (r: Script)
        ensures
            r@ == default_script(),
    {
        Script { name: String::new(), data: Vec::new() }
    }
}

// ---------------------------------------------------------------------------
// System
// ---------------------------------------------------------------------------

/// The single system record.  Its magic number is replaced by a fresh random
/// value on every load and every save; the host uses it to notice stale
/// references to a previously opened project.
pub struct System {
    pub windowskin_name: String,
    pub magic_number: u32,
}

pub struct SystemView {
    pub windowskin_name: Seq<char>,
    pub magic_number: u32,
}

impl View for System {
    type V = SystemView;

    open spec fn view(&self) -> SystemView {
        SystemView { windowskin_name: self.windowskin_name@, magic_number: self.magic_number }
    }
}

impl DeepView for System {
    type V = SystemView;

    open spec fn deep_view(&self) -> SystemView {
        self.view()
    }
}

pub open spec fn wf_system(v: SystemView) -> bool {
    fits_str(v.windowskin_name)
}

impl System {
    pub fn new_default() -> (r: System)
        ensures
            r@ == (SystemView { windowskin_name: Seq::<char>::empty(), magic_number: 0 }),
    {
        System { windowskin_name: String::new(), magic_number: 0 }
    }
}

// ---------------------------------------------------------------------------
// Map metadata
// ---------------------------------------------------------------------------

/// Metadata for one map, kept in the sparse id-to-record map-info table.
pub struct MapInfo {
    pub name: String,
    pub parent_id: usize,
    pub order: i32,
}

pub struct MapInfoView {
    pub name: Seq<char>,
    pub parent_id: usize,
    pub order: i32,
}

impl View for MapInfo {
    type V = MapInfoView;

    open spec fn view(&self) -> MapInfoView {
        MapInfoView { name: self.name@, parent_id: self.parent_id, order: self.order }
    }
}

impl DeepView for MapInfo {
    type V = MapInfoView;

    open spec fn deep_view(&self) -> MapInfoView {
        self.view()
    }
}

pub open spec fn wf_map_info(v: MapInfoView) -> bool {
    fits_str(v.name)
}

pub open spec fn default_map_info() -> MapInfoView {
    MapInfoView { name: Seq::<char>::empty(), parent_id: 0, order: 0 }
}

impl MapInfo {
    pub fn new_default() -> (r: MapInfo)
        ensures
            r@ == default_map_info(),
    {
        MapInfo { name: String::new(), parent_id: 0, order: 0 }
    }
}

/// One entry of the map-info table: a map id and its metadata.  Ids are
/// sparse; the table is a plain array of entries, not nil-padded.
pub struct MapInfoEntry {
    pub id: usize,
    pub info: MapInfo,
}

pub struct MapInfoEntryView {
    pub id: usize,
    pub info: MapInfoView,
}

impl View for MapInfoEntry {
    type V = MapInfoEntryView;

    open spec fn view(&self) -> MapInfoEntryView {
        MapInfoEntryView { id: self.id, info: self.info@ }
    }
}

impl DeepView for MapInfoEntry {
    type V = MapInfoEntryView;

    open spec fn deep_view(&self) -> MapInfoEntryView {
        self.view()
    }
}

pub open spec fn wf_map_info_entry(v: MapInfoEntryView) -> bool {
    wf_map_info(v.info)
}

// ---------------------------------------------------------------------------
// Map record
// ---------------------------------------------------------------------------

/// One map record, loaded lazily and cached by id.
#[derive(Clone, Copy, PartialEq, Eq, Structural, Debug)]
pub struct MapRecord {
    pub tileset_id: usize,
    pub width: usize,
    pub height: usize,
}

impl View for MapRecord {
    type V = MapRecord;

    open spec fn view(&self) -> MapRecord {
        *self
    }
}

impl DeepView for MapRecord {
    type V = MapRecord;

    open spec fn deep_view(&self) -> MapRecord {
        *self
    }
}

pub open spec fn default_map_record() -> MapRecord {
    MapRecord { tileset_id: 1, width: 20, height: 15 }
}

impl MapRecord {
    pub fn new_default() -> (r: MapRecord)
        ensures
            r@ == default_map_record(),
    {
        MapRecord { tileset_id: 1, width: 20, height: 15 }
    }
}

} // verus!
