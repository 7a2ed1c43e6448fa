//! Wire forms of the record types.
//!
//! Each record encodes as the concatenation of its fields' primitive
//! encodings, in declaration order.  The proof obligations of [`WireRecord`]
//! are discharged by peeling one field at a time off the placed encoding.

use vstd::prelude::*;
use crate::codec::{
    enc_u8, enc_u32, enc_i32, enc_usize, enc_str, enc_opt_str, enc_opt_usize, enc_usize_seq,
    parse_u8, parse_u32, parse_i32, parse_usize, parse_str, parse_opt_str, parse_opt_usize,
    parse_usize_seq, lemma_parse_u8, lemma_parse_u32, lemma_parse_i32, lemma_parse_usize,
    lemma_parse_str, lemma_parse_opt_str, lemma_parse_opt_usize, lemma_parse_usize_seq,
    lemma_subrange_split, read_u8, read_u32, read_i32, read_usize, read_str, read_opt_str,
    read_opt_usize, read_usize_seq, write_u8, write_u32, write_i32, write_usize, write_str,
    write_opt_str, write_opt_usize, write_usize_seq, fits_str, fits_opt_str,
    enc_byte_str, parse_byte_str, lemma_parse_byte_str, read_byte_str, write_byte_str,
    lemma_parse_str_fits, lemma_parse_opt_str_fits, lemma_parse_byte_str_fits,
    lemma_parse_usize_seq_fits,
};
use crate::records::{
    Record, RecordView, wf_record, AudioFile, AudioFileView, wf_audio_file, Occasion,
    occasion_code, occasion_of_code, Skill, SkillView, wf_skill, Script, ScriptView, wf_script,
    System, SystemView, wf_system, MapInfo, MapInfoView, wf_map_info, MapInfoEntry,
    MapInfoEntryView, wf_map_info_entry, MapRecord,
};
use crate::wire::WireRecord;

verus! {

impl WireRecord for Record {
    open spec fn wf_view(v: RecordView) -> bool {
        wf_record(v)
    }

    open spec fn enc_view(v: RecordView) -> Seq<u8> {
        enc_usize(v.id) + enc_str(v.name)
    }

    open spec fn parse_view(b: Seq<u8>, pos: int) -> Option<(RecordView, int)> {
        match parse_usize(b, pos) {
            Some((id, p1)) => match parse_str(b, p1) {
                Some((name, p2)) => Some((RecordView { id, name }, p2)),
                None => None,
            },
            None => None,
        }
    }

    proof fn lemma_parse_wf(b: Seq<u8>, pos: int) {
        if Self::parse_view(b, pos) is Some {
            let (id, p1) = parse_usize(b, pos)->Some_0;
            lemma_parse_str_fits(b, p1);
        }
    }

    proof fn lemma_parse_enc(b: Seq<u8>, pos: int, v: RecordView) {
        lemma_subrange_split(b, pos, enc_usize(v.id), enc_str(v.name));
        lemma_parse_usize(b, pos, v.id);
        lemma_parse_str(b, pos + 8, v.name);
    }

    fn write_wire(&self, out: &mut Vec<u8>) {
        write_usize(out, self.id);
        write_str(out, &self.name);
        assert(final(out)@ =~= old(out)@ + Self::enc_view(self.deep_view()));
    }

    fn read_wire(b: &Vec<u8>, pos: usize) -> (r: Option<(Self, usize)>) {
        match read_usize(b, pos) {
            Some((id, p1)) => match read_str(b, p1) {
                Some((name, p2)) => Some((Record { id, name }, p2)),
                None => None,
            },
            None => None,
        }
    }
}

impl WireRecord for Script {
    open spec fn wf_view(v: ScriptView) -> bool {
        wf_script(v)
    }

    open spec fn enc_view(v: ScriptView) -> Seq<u8> {
        enc_str(v.name) + enc_byte_str(v.data)
    }

    open spec fn parse_view(b: Seq<u8>, pos: int) -> Option<(ScriptView, int)> {
        match parse_str(b, pos) {
            Some((name, p1)) => match parse_byte_str(b, p1) {
                Some((data, p2)) => Some((ScriptView { name, data }, p2)),
                None => None,
            },
            None => None,
        }
    }

    proof fn lemma_parse_wf(b: Seq<u8>, pos: int) {
        if Self::parse_view(b, pos) is Some {
            let (name, p1) = parse_str(b, pos)->Some_0;
            lemma_parse_str_fits(b, pos);
            lemma_parse_byte_str_fits(b, p1);
        }
    }

    proof fn lemma_parse_enc(b: Seq<u8>, pos: int, v: ScriptView) {
        lemma_subrange_split(b, pos, enc_str(v.name), enc_byte_str(v.data));
        lemma_parse_str(b, pos, v.name);
        lemma_parse_byte_str(b, pos + enc_str(v.name).len(), v.data);
    }

    fn write_wire(&self, out: &mut Vec<u8>) {
        write_str(out, &self.name);
        write_byte_str(out, &self.data);
        assert(final(out)@ =~= old(out)@ + Self::enc_view(self.deep_view()));
    }

    fn read_wire(b: &Vec<u8>, pos: usize) -> (r: Option<(Self, usize)>) {
        match read_str(b, pos) {
            Some((name, p1)) => match read_byte_str(b, p1) {
                Some((data, p2)) => Some((Script { name, data }, p2)),
                None => None,
            },
            None => None,
        }
    }
}

impl WireRecord for System {
    open spec fn wf_view(v: SystemView) -> bool {
        wf_system(v)
    }

    open spec fn enc_view(v: SystemView) -> Seq<u8> {
        enc_str(v.windowskin_name) + enc_u32(v.magic_number)
    }

    open spec fn parse_view(b: Seq<u8>, pos: int) -> Option<(SystemView, int)> {
        match parse_str(b, pos) {
            Some((windowskin_name, p1)) => match parse_u32(b, p1) {
                Some((magic_number, p2)) => Some((
                    SystemView { windowskin_name, magic_number },
                    p2,
                )),
                None => None,
            },
            None => None,
        }
    }

    proof fn lemma_parse_wf(b: Seq<u8>, pos: int) {
        if Self::parse_view(b, pos) is Some {
            lemma_parse_str_fits(b, pos);
        }
    }

    proof fn lemma_parse_enc(b: Seq<u8>, pos: int, v: SystemView) {
        lemma_subrange_split(b, pos, enc_str(v.windowskin_name), enc_u32(v.magic_number));
        lemma_parse_str(b, pos, v.windowskin_name);
        lemma_parse_u32(b, pos + enc_str(v.windowskin_name).len(), v.magic_number);
    }

    fn write_wire(&self, out: &mut Vec<u8>) {
        write_str(out, &self.windowskin_name);
        write_u32(out, self.magic_number);
        assert(final(out)@ =~= old(out)@ + Self::enc_view(self.deep_view()));
    }

    fn read_wire(b: &Vec<u8>, pos: usize) -> (r: Option<(Self, usize)>) {
        match read_str(b, pos) {
            Some((windowskin_name, p1)) => match read_u32(b, p1) {
                Some((magic_number, p2)) => Some((System { windowskin_name, magic_number }, p2)),
                None => None,
            },
            None => None,
        }
    }
}

impl WireRecord for MapRecord {
    open spec fn wf_view(v: MapRecord) -> bool {
        true
    }

    open spec fn enc_view(v: MapRecord) -> Seq<u8> {
        enc_usize(v.tileset_id) + enc_usize(v.width) + enc_usize(v.height)
    }

    open spec fn parse_view(b: Seq<u8>, pos: int) -> Option<(MapRecord, int)> {
        match parse_usize(b, pos) {
            Some((tileset_id, p1)) => match parse_usize(b, p1) {
                Some((width, p2)) => match parse_usize(b, p2) {
                    Some((height, p3)) => Some((MapRecord { tileset_id, width, height }, p3)),
                    None => None,
                },
                None => None,
            },
            None => None,
        }
    }

    proof fn lemma_parse_wf(b: Seq<u8>, pos: int) {
    }

    proof fn lemma_parse_enc(b: Seq<u8>, pos: int, v: MapRecord) {
        let s2 = enc_usize(v.width) + enc_usize(v.height);
        assert(Self::enc_view(v) =~= enc_usize(v.tileset_id) + s2);
        lemma_subrange_split(b, pos, enc_usize(v.tileset_id), s2);
        lemma_subrange_split(b, pos + 8, enc_usize(v.width), enc_usize(v.height));
        lemma_parse_usize(b, pos, v.tileset_id);
        lemma_parse_usize(b, pos + 8, v.width);
        lemma_parse_usize(b, pos + 16, v.height);
    }

    fn write_wire(&self, out: &mut Vec<u8>) {
        write_usize(out, self.tileset_id);
        write_usize(out, self.width);
        write_usize(out, self.height);
        assert(final(out)@ =~= old(out)@ + Self::enc_view(self.deep_view()));
    }

    fn read_wire(b: &Vec<u8>, pos: usize) -> (r: Option<(Self, usize)>) {
        match read_usize(b, pos) {
            Some((tileset_id, p1)) => match read_usize(b, p1) {
                Some((width, p2)) => match read_usize(b, p2) {
                    Some((height, p3)) => Some((MapRecord { tileset_id, width, height }, p3)),
                    None => None,
                },
                None => None,
            },
            None => None,
        }
    }
}

impl WireRecord for MapInfoEntry {
    open spec fn wf_view(v: MapInfoEntryView) -> bool {
        wf_map_info_entry(v)
    }

    open spec fn enc_view(v: MapInfoEntryView) -> Seq<u8> {
        enc_usize(v.id) + enc_str(v.info.name) + enc_usize(v.info.parent_id) + enc_i32(
            v.info.order,
        )
    }

    open spec fn parse_view(b: Seq<u8>, pos: int) -> Option<(MapInfoEntryView, int)> {
        match parse_usize(b, pos) {
            Some((id, p1)) => match parse_str(b, p1) {
                Some((name, p2)) => match parse_usize(b, p2) {
                    Some((parent_id, p3)) => match parse_i32(b, p3) {
                        Some((order, p4)) => Some((
                            MapInfoEntryView {
                                id,
                                info: MapInfoView { name, parent_id, order },
                            },
                            p4,
                        )),
                        None => None,
                    },
                    None => None,
                },
                None => None,
            },
            None => None,
        }
    }

    proof fn lemma_parse_wf(b: Seq<u8>, pos: int) {
        if Self::parse_view(b, pos) is Some {
            let (id, p1) = parse_usize(b, pos)->Some_0;
            lemma_parse_str_fits(b, p1);
        }
    }

    proof fn lemma_parse_enc(b: Seq<u8>, pos: int, v: MapInfoEntryView) {
        let e1 = enc_usize(v.id);
        let e2 = enc_str(v.info.name);
        let e3 = enc_usize(v.info.parent_id);
        let e4 = enc_i32(v.info.order);
        let s4 = e4;
        let s3 = e3 + s4;
        let s2 = e2 + s3;
        assert(Self::enc_view(v) =~= e1 + s2);
        lemma_subrange_split(b, pos, e1, s2);
        let p1 = pos + e1.len();
        assert(s2 =~= e2 + s3);
        lemma_subrange_split(b, p1, e2, s3);
        let p2 = p1 + e2.len();
        lemma_subrange_split(b, p2, e3, s4);
        let p3 = p2 + e3.len();
        lemma_parse_usize(b, pos, v.id);
        lemma_parse_str(b, p1, v.info.name);
        lemma_parse_usize(b, p2, v.info.parent_id);
        lemma_parse_i32(b, p3, v.info.order);
    }

    fn write_wire(&self, out: &mut Vec<u8>) {
        write_usize(out, self.id);
        write_str(out, &self.info.name);
        write_usize(out, self.info.parent_id);
        write_i32(out, self.info.order);
        assert(final(out)@ =~= old(out)@ + Self::enc_view(self.deep_view()));
    }

    fn read_wire(b: &Vec<u8>, pos: usize) -> (r: Option<(Self, usize)>) {
        match read_usize(b, pos) {
            Some((id, p1)) => match read_str(b, p1) {
                Some((name, p2)) => match read_usize(b, p2) {
                    Some((parent_id, p3)) => match read_i32(b, p3) {
                        Some((order, p4)) => Some((
                            MapInfoEntry { id, info: MapInfo { name, parent_id, order } },
                            p4,
                        )),
                        None => None,
                    },
                    None => None,
                },
                None => None,
            },
            None => None,
        }
    }
}

impl WireRecord for AudioFile {
    open spec fn wf_view(v: AudioFileView) -> bool {
        wf_audio_file(v)
    }

    open spec fn enc_view(v: AudioFileView) -> Seq<u8> {
        enc_str(v.name) + enc_i32(v.volume) + enc_i32(v.pitch)
    }

    open spec fn parse_view(b: Seq<u8>, pos: int) -> Option<(AudioFileView, int)> {
        match parse_str(b, pos) {
            Some((name, p1)) => match parse_i32(b, p1) {
                Some((volume, p2)) => match parse_i32(b, p2) {
                    Some((pitch, p3)) => Some((AudioFileView { name, volume, pitch }, p3)),
                    None => None,
                },
                None => None,
            },
            None => None,
        }
    }

    proof fn lemma_parse_wf(b: Seq<u8>, pos: int) {
        if Self::parse_view(b, pos) is Some {
            lemma_parse_str_fits(b, pos);
        }
    }

    proof fn lemma_parse_enc(b: Seq<u8>, pos: int, v: AudioFileView) {
        let s2 = enc_i32(v.volume) + enc_i32(v.pitch);
        assert(Self::enc_view(v) =~= enc_str(v.name) + s2);
        lemma_subrange_split(b, pos, enc_str(v.name), s2);
        let p1 = pos + enc_str(v.name).len();
        lemma_subrange_split(b, p1, enc_i32(v.volume), enc_i32(v.pitch));
        lemma_parse_str(b, pos, v.name);
        lemma_parse_i32(b, p1, v.volume);
        lemma_parse_i32(b, p1 + 5, v.pitch);
    }

    fn write_wire(&self, out: &mut Vec<u8>) {
        write_str(out, &self.name);
        write_i32(out, self.volume);
        write_i32(out, self.pitch);
        assert(final(out)@ =~= old(out)@ + Self::enc_view(self.deep_view()));
    }

    fn read_wire(b: &Vec<u8>, pos: usize) -> (r: Option<(Self, usize)>) {
        match read_str(b, pos) {
            Some((name, p1)) => match read_i32(b, p1) {
                Some((volume, p2)) => match read_i32(b, p2) {
                    Some((pitch, p3)) => Some((AudioFile { name, volume, pitch }, p3)),
                    None => None,
                },
                None => None,
            },
            None => None,
        }
    }
}

/// The leading fields of a skill's wire form.
pub struct SkillHead {
    pub id: usize,
    pub name: Seq<char>,
    pub icon_name: Option<Seq<char>>,
    pub description: Seq<char>,
    pub scope: i32,
    pub occasion: Occasion,
    pub animation1_id: Option<usize>,
    pub animation2_id: Option<usize>,
    pub menu_se: AudioFileView,
    pub common_event_id: Option<usize>,
}

/// The battle-statistic fields of a skill's wire form.
pub struct SkillStats {
    pub sp_cost: i32,
    pub power: i32,
    pub atk_f: i32,
    pub eva_f: i32,
    pub str_f: i32,
    pub dex_f: i32,
    pub agi_f: i32,
    pub int_f: i32,
    pub hit: i32,
    pub pdef_f: i32,
    pub mdef_f: i32,
    pub variance: i32,
}

/// The id-set fields of a skill's wire form.
pub struct SkillSets {
    pub element_set: Seq<usize>,
    pub plus_state_set: Seq<usize>,
    pub minus_state_set: Seq<usize>,
}

pub open spec fn skill_head_of(v: SkillView) -> SkillHead {
    SkillHead {
        id: v.id,
        name: v.name,
        icon_name: v.icon_name,
        description: v.description,
        scope: v.scope,
        occasion: v.occasion,
        animation1_id: v.animation1_id,
        animation2_id: v.animation2_id,
        menu_se: v.menu_se,
        common_event_id: v.common_event_id,
    }
}

pub open spec fn skill_stats_of(v: SkillView) -> SkillStats {
    SkillStats {
        sp_cost: v.sp_cost,
        power: v.power,
        atk_f: v.atk_f,
        eva_f: v.eva_f,
        str_f: v.str_f,
        dex_f: v.dex_f,
        agi_f: v.agi_f,
        int_f: v.int_f,
        hit: v.hit,
        pdef_f: v.pdef_f,
        mdef_f: v.mdef_f,
        variance: v.variance,
    }
}

pub open spec fn skill_sets_of(v: SkillView) -> SkillSets {
    SkillSets {
        element_set: v.element_set,
        plus_state_set: v.plus_state_set,
        minus_state_set: v.minus_state_set,
    }
}

pub open spec fn skill_of_parts(h: SkillHead, st: SkillStats, se: SkillSets) -> SkillView {
    SkillView {
        id: h.id,
        name: h.name,
        icon_name: h.icon_name,
        description: h.description,
        scope: h.scope,
        occasion: h.occasion,
        animation1_id: h.animation1_id,
        animation2_id: h.animation2_id,
        menu_se: h.menu_se,
        common_event_id: h.common_event_id,
        sp_cost: st.sp_cost,
        power: st.power,
        atk_f: st.atk_f,
        eva_f: st.eva_f,
        str_f: st.str_f,
        dex_f: st.dex_f,
        agi_f: st.agi_f,
        int_f: st.int_f,
        hit: st.hit,
        pdef_f: st.pdef_f,
        mdef_f: st.mdef_f,
        variance: st.variance,
        element_set: se.element_set,
        plus_state_set: se.plus_state_set,
        minus_state_set: se.minus_state_set,
    }
}

pub open spec fn wf_skill_head(h: SkillHead) -> bool {
    &&& fits_str(h.name)
    &&& fits_opt_str(h.icon_name)
    &&& fits_str(h.description)
    &&& wf_audio_file(h.menu_se)
}

pub open spec fn wf_skill_sets(se: SkillSets) -> bool {
    &&& se.element_set.len() <= u32::MAX
    &&& se.plus_state_set.len() <= u32::MAX
    &&& se.minus_state_set.len() <= u32::MAX
}

pub open spec fn enc_skill_head(h: SkillHead) -> Seq<u8> {
    enc_usize(h.id) + enc_str(h.name) + enc_opt_str(h.icon_name) + enc_str(h.description) + enc_i32(h.scope) + enc_u8(occasion_code(h.occasion)) + enc_opt_usize(h.animation1_id) + enc_opt_usize(h.animation2_id) + <AudioFile as WireRecord>::enc_view(h.menu_se) + enc_opt_usize(h.common_event_id)
}

pub open spec fn enc_skill_stats(st: SkillStats) -> Seq<u8> {
    enc_i32(st.sp_cost) + enc_i32(st.power) + enc_i32(st.atk_f) + enc_i32(st.eva_f) + enc_i32(st.str_f) + enc_i32(st.dex_f) + enc_i32(st.agi_f) + enc_i32(st.int_f) + enc_i32(st.hit) + enc_i32(st.pdef_f) + enc_i32(st.mdef_f) + enc_i32(st.variance)
}

pub open spec fn enc_skill_sets(se: SkillSets) -> Seq<u8> {
    enc_usize_seq(se.element_set) + enc_usize_seq(se.plus_state_set) + enc_usize_seq(se.minus_state_set)
}

pub open spec fn parse_skill_head(b: Seq<u8>, pos: int) -> Option<(SkillHead, int)> {
    match parse_usize(b, pos) {
        Some((id, p1)) => match parse_str(b, p1) {
            Some((name, p2)) => match parse_opt_str(b, p2) {
                Some((icon_name, p3)) => match parse_str(b, p3) {
                    Some((description, p4)) => match parse_i32(b, p4) {
                        Some((scope, p5)) => match parse_u8(b, p5) {
                            Some((code, p6)) => match occasion_of_code(code) {
                                Some(occasion) => match parse_opt_usize(b, p6) {
                                    Some((animation1_id, p7)) => match parse_opt_usize(b, p7) {
                                        Some((animation2_id, p8)) => match <AudioFile as WireRecord>::parse_view(b, p8) {
                                            Some((menu_se, p9)) => match parse_opt_usize(b, p9) {
                                                Some((common_event_id, p10)) => Some((
                                                    SkillHead {
                                                        id,
                                                        name,
                                                        icon_name,
                                                        description,
                                                        scope,
                                                        occasion,
                                                        animation1_id,
                                                        animation2_id,
                                                        menu_se,
                                                        common_event_id,
                                                    },
                                                    p10,
                                                )),
                                                None => None,
                                            },
                                            None => None,
                                        },
                                        None => None,
                                    },
                                    None => None,
                                },
                                None => None,
                            },
                            None => None,
                        },
                        None => None,
                    },
                    None => None,
                },
                None => None,
            },
            None => None,
        },
        None => None,
    }
}

pub open spec fn parse_skill_stats(b: Seq<u8>, pos: int) -> Option<(SkillStats, int)> {
    match parse_i32(b, pos) {
        Some((sp_cost, q1)) =>
        match parse_i32(b, q1) {
            Some((power, q2)) =>
            match parse_i32(b, q2) {
                Some((atk_f, q3)) =>
                match parse_i32(b, q3) {
                    Some((eva_f, q4)) =>
                    match parse_i32(b, q4) {
                        Some((str_f, q5)) =>
                        match parse_i32(b, q5) {
                            Some((dex_f, q6)) =>
                            match parse_i32(b, q6) {
                                Some((agi_f, q7)) =>
                                match parse_i32(b, q7) {
                                    Some((int_f, q8)) =>
                                    match parse_i32(b, q8) {
                                        Some((hit, q9)) =>
                                        match parse_i32(b, q9) {
                                            Some((pdef_f, q10)) =>
                                            match parse_i32(b, q10) {
                                                Some((mdef_f, q11)) =>
                                                match parse_i32(b, q11) {
                                                    Some((variance, q12)) =>
                                                    Some((
                                                        SkillStats {
                                                            sp_cost,
                                                            power,
                                                            atk_f,
                                                            eva_f,
                                                            str_f,
                                                            dex_f,
                                                            agi_f,
                                                            int_f,
                                                            hit,
                                                            pdef_f,
                                                            mdef_f,
                                                            variance,
                                                        },
                                                        q12,
                                                    )),
                                                    None => None,
                                                },
                                                None => None,
                                            },
                                            None => None,
                                        },
                                        None => None,
                                    },
                                    None => None,
                                },
                                None => None,
                            },
                            None => None,
                        },
                        None => None,
                    },
                    None => None,
                },
                None => None,
            },
            None => None,
        },
        None => None,
    }
}

pub open spec fn parse_skill_sets(b: Seq<u8>, pos: int) -> Option<(SkillSets, int)> {
    match parse_usize_seq(b, pos) {
        Some((element_set, r1)) => match parse_usize_seq(b, r1) {
            Some((plus_state_set, r2)) => match parse_usize_seq(b, r2) {
                Some((minus_state_set, r3)) => Some((
                    SkillSets { element_set, plus_state_set, minus_state_set },
                    r3,
                )),
                None => None,
            },
            None => None,
        },
        None => None,
    }
}

#[verifier::rlimit(100)]
pub proof fn lemma_parse_skill_head(b: Seq<u8>, pos: int, h: SkillHead)
    requires
        0 <= pos,
        pos + enc_skill_head(h).len() <= b.len(),
        wf_skill_head(h),
        b.subrange(pos, pos + enc_skill_head(h).len()) == enc_skill_head(h),
    ensures
        parse_skill_head(b, pos) == Some((h, pos + enc_skill_head(h).len())),
{
    let e1 = enc_usize(h.id);
    let e2 = enc_str(h.name);
    let e3 = enc_opt_str(h.icon_name);
    let e4 = enc_str(h.description);
    let e5 = enc_i32(h.scope);
    let e6 = enc_u8(occasion_code(h.occasion));
    let e7 = enc_opt_usize(h.animation1_id);
    let e8 = enc_opt_usize(h.animation2_id);
    let e9 = <AudioFile as WireRecord>::enc_view(h.menu_se);
    let e10 = enc_opt_usize(h.common_event_id);
    let c1 = e1;
    let c2 = c1 + e2;
    let c3 = c2 + e3;
    let c4 = c3 + e4;
    let c5 = c4 + e5;
    let c6 = c5 + e6;
    let c7 = c6 + e7;
    let c8 = c7 + e8;
    let c9 = c8 + e9;
    let c10 = c9 + e10;
    assert(enc_skill_head(h) == c10);
    lemma_subrange_split(b, pos, c9, e10);
    lemma_subrange_split(b, pos, c8, e9);
    lemma_subrange_split(b, pos, c7, e8);
    lemma_subrange_split(b, pos, c6, e7);
    lemma_subrange_split(b, pos, c5, e6);
    lemma_subrange_split(b, pos, c4, e5);
    lemma_subrange_split(b, pos, c3, e4);
    lemma_subrange_split(b, pos, c2, e3);
    lemma_subrange_split(b, pos, c1, e2);
    lemma_parse_usize(b, pos, h.id);
    lemma_parse_str(b, pos + c1.len(), h.name);
    lemma_parse_opt_str(b, pos + c2.len(), h.icon_name);
    lemma_parse_str(b, pos + c3.len(), h.description);
    lemma_parse_i32(b, pos + c4.len(), h.scope);
    lemma_parse_u8(b, pos + c5.len(), occasion_code(h.occasion));
    lemma_parse_opt_usize(b, pos + c6.len(), h.animation1_id);
    lemma_parse_opt_usize(b, pos + c7.len(), h.animation2_id);
    <AudioFile as WireRecord>::lemma_parse_enc(b, pos + c8.len(), h.menu_se);
    lemma_parse_opt_usize(b, pos + c9.len(), h.common_event_id);
}

#[verifier::rlimit(100)]
pub proof fn lemma_parse_skill_stats(b: Seq<u8>, pos: int, st: SkillStats)
    requires
        0 <= pos,
        pos + enc_skill_stats(st).len() <= b.len(),
        b.subrange(pos, pos + enc_skill_stats(st).len()) == enc_skill_stats(st),
    ensures
        parse_skill_stats(b, pos) == Some((st, pos + enc_skill_stats(st).len())),
{
    let e1 = enc_i32(st.sp_cost);
    let e2 = enc_i32(st.power);
    let e3 = enc_i32(st.atk_f);
    let e4 = enc_i32(st.eva_f);
    let e5 = enc_i32(st.str_f);
    let e6 = enc_i32(st.dex_f);
    let e7 = enc_i32(st.agi_f);
    let e8 = enc_i32(st.int_f);
    let e9 = enc_i32(st.hit);
    let e10 = enc_i32(st.pdef_f);
    let e11 = enc_i32(st.mdef_f);
    let e12 = enc_i32(st.variance);
    let c1 = e1;
    let c2 = c1 + e2;
    let c3 = c2 + e3;
    let c4 = c3 + e4;
    let c5 = c4 + e5;
    let c6 = c5 + e6;
    let c7 = c6 + e7;
    let c8 = c7 + e8;
    let c9 = c8 + e9;
    let c10 = c9 + e10;
    let c11 = c10 + e11;
    let c12 = c11 + e12;
    assert(enc_skill_stats(st) == c12);
    lemma_subrange_split(b, pos, c11, e12);
    lemma_subrange_split(b, pos, c10, e11);
    lemma_subrange_split(b, pos, c9, e10);
    lemma_subrange_split(b, pos, c8, e9);
    lemma_subrange_split(b, pos, c7, e8);
    lemma_subrange_split(b, pos, c6, e7);
    lemma_subrange_split(b, pos, c5, e6);
    lemma_subrange_split(b, pos, c4, e5);
    lemma_subrange_split(b, pos, c3, e4);
    lemma_subrange_split(b, pos, c2, e3);
    lemma_subrange_split(b, pos, c1, e2);
    lemma_parse_i32(b, pos, st.sp_cost);
    lemma_parse_i32(b, pos + c1.len(), st.power);
    lemma_parse_i32(b, pos + c2.len(), st.atk_f);
    lemma_parse_i32(b, pos + c3.len(), st.eva_f);
    lemma_parse_i32(b, pos + c4.len(), st.str_f);
    lemma_parse_i32(b, pos + c5.len(), st.dex_f);
    lemma_parse_i32(b, pos + c6.len(), st.agi_f);
    lemma_parse_i32(b, pos + c7.len(), st.int_f);
    lemma_parse_i32(b, pos + c8.len(), st.hit);
    lemma_parse_i32(b, pos + c9.len(), st.pdef_f);
    lemma_parse_i32(b, pos + c10.len(), st.mdef_f);
    lemma_parse_i32(b, pos + c11.len(), st.variance);
}

#[verifier::rlimit(100)]
pub proof fn lemma_parse_skill_sets(b: Seq<u8>, pos: int, se: SkillSets)
    requires
        0 <= pos,
        pos + enc_skill_sets(se).len() <= b.len(),
        wf_skill_sets(se),
        b.subrange(pos, pos + enc_skill_sets(se).len()) == enc_skill_sets(se),
    ensures
        parse_skill_sets(b, pos) == Some((se, pos + enc_skill_sets(se).len())),
{
    let e1 = enc_usize_seq(se.element_set);
    let e2 = enc_usize_seq(se.plus_state_set);
    let e3 = enc_usize_seq(se.minus_state_set);
    let c1 = e1;
    let c2 = c1 + e2;
    let c3 = c2 + e3;
    assert(enc_skill_sets(se) == c3);
    lemma_subrange_split(b, pos, c2, e3);
    lemma_subrange_split(b, pos, c1, e2);
    lemma_parse_usize_seq(b, pos, se.element_set);
    lemma_parse_usize_seq(b, pos + c1.len(), se.plus_state_set);
    lemma_parse_usize_seq(b, pos + c2.len(), se.minus_state_set);
}

impl WireRecord for Skill {
    open spec fn wf_view(v: SkillView) -> bool {
        wf_skill(v)
    }

    open spec fn enc_view(v: SkillView) -> Seq<u8> {
        enc_skill_head(skill_head_of(v)) + enc_skill_stats(skill_stats_of(v))
            + enc_skill_sets(skill_sets_of(v))
    }

    open spec fn parse_view(b: Seq<u8>, pos: int) -> Option<(SkillView, int)> {
        match parse_skill_head(b, pos) {
            Some((h, p1)) => match parse_skill_stats(b, p1) {
                Some((st, p2)) => match parse_skill_sets(b, p2) {
                    Some((se, p3)) => Some((skill_of_parts(h, st, se), p3)),
                    None => None,
                },
                None => None,
            },
            None => None,
        }
    }

    proof fn lemma_parse_wf(b: Seq<u8>, pos: int) {
        if Self::parse_view(b, pos) is Some {
            let (h, p1) = parse_skill_head(b, pos)->Some_0;
            let (st, p2) = parse_skill_stats(b, p1)->Some_0;
            let (se, p3) = parse_skill_sets(b, p2)->Some_0;
            let (id, q1) = parse_usize(b, pos)->Some_0;
            lemma_parse_str_fits(b, q1);
            let (name, q2) = parse_str(b, q1)->Some_0;
            lemma_parse_opt_str_fits(b, q2);
            let (icon_name, q3) = parse_opt_str(b, q2)->Some_0;
            lemma_parse_str_fits(b, q3);
            let (description, q4) = parse_str(b, q3)->Some_0;
            let (scope, q5) = parse_i32(b, q4)->Some_0;
            let (code, q6) = parse_u8(b, q5)->Some_0;
            let (animation1_id, q7) = parse_opt_usize(b, q6)->Some_0;
            let (animation2_id, q8) = parse_opt_usize(b, q7)->Some_0;
            <AudioFile as WireRecord>::lemma_parse_wf(b, q8);
            let (menu_se, q9) = <AudioFile as WireRecord>::parse_view(b, q8)->Some_0;
            lemma_parse_usize_seq_fits(b, p2);
            let (element_set, r1) = parse_usize_seq(b, p2)->Some_0;
            lemma_parse_usize_seq_fits(b, r1);
            let (plus_state_set, r2) = parse_usize_seq(b, r1)->Some_0;
            lemma_parse_usize_seq_fits(b, r2);
        }
    }

    proof fn lemma_parse_enc(b: Seq<u8>, pos: int, v: SkillView) {
        let h = skill_head_of(v);
        let st = skill_stats_of(v);
        let se = skill_sets_of(v);
        let eh = enc_skill_head(h);
        let est = enc_skill_stats(st);
        let ese = enc_skill_sets(se);
        let c2 = eh + est;
        assert(Self::enc_view(v) == c2 + ese);
        lemma_subrange_split(b, pos, c2, ese);
        lemma_subrange_split(b, pos, eh, est);
        lemma_parse_skill_head(b, pos, h);
        lemma_parse_skill_stats(b, pos + eh.len(), st);
        lemma_parse_skill_sets(b, pos + c2.len(), se);
        assert(skill_of_parts(h, st, se) == v);
    }

    #[verifier::rlimit(100)]
    fn write_wire(&self, out: &mut Vec<u8>) {
        let ghost dv = self.deep_view();
        let ghost h1 = enc_usize(self.id);
        let ghost h2 = enc_str(self.name@);
        let ghost h3 = enc_opt_str(self.icon_name.deep_view());
        let ghost h4 = enc_str(self.description@);
        let ghost h5 = enc_i32(self.scope);
        let ghost h6 = enc_u8(occasion_code(self.occasion));
        let ghost h7 = enc_opt_usize(self.animation1_id);
        let ghost h8 = enc_opt_usize(self.animation2_id);
        let ghost h9 = <AudioFile as WireRecord>::enc_view(self.menu_se.deep_view());
        let ghost h10 = enc_opt_usize(self.common_event_id);
        let ghost hc1 = h1;
        let ghost hc2 = hc1 + h2;
        let ghost hc3 = hc2 + h3;
        let ghost hc4 = hc3 + h4;
        let ghost hc5 = hc4 + h5;
        let ghost hc6 = hc5 + h6;
        let ghost hc7 = hc6 + h7;
        let ghost hc8 = hc7 + h8;
        let ghost hc9 = hc8 + h9;
        let ghost hc10 = hc9 + h10;
        let ghost s1 = enc_i32(self.sp_cost);
        let ghost s2 = enc_i32(self.power);
        let ghost s3 = enc_i32(self.atk_f);
        let ghost s4 = enc_i32(self.eva_f);
        let ghost s5 = enc_i32(self.str_f);
        let ghost s6 = enc_i32(self.dex_f);
        let ghost s7 = enc_i32(self.agi_f);
        let ghost s8 = enc_i32(self.int_f);
        let ghost s9 = enc_i32(self.hit);
        let ghost s10 = enc_i32(self.pdef_f);
        let ghost s11 = enc_i32(self.mdef_f);
        let ghost s12 = enc_i32(self.variance);
        let ghost sc1 = s1;
        let ghost sc2 = sc1 + s2;
        let ghost sc3 = sc2 + s3;
        let ghost sc4 = sc3 + s4;
        let ghost sc5 = sc4 + s5;
        let ghost sc6 = sc5 + s6;
        let ghost sc7 = sc6 + s7;
        let ghost sc8 = sc7 + s8;
        let ghost sc9 = sc8 + s9;
        let ghost sc10 = sc9 + s10;
        let ghost sc11 = sc10 + s11;
        let ghost sc12 = sc11 + s12;
        let ghost x1 = enc_usize_seq(self.element_set@);
        let ghost x2 = enc_usize_seq(self.plus_state_set@);
        let ghost x3 = enc_usize_seq(self.minus_state_set@);
        let ghost xc1 = x1;
        let ghost xc2 = xc1 + x2;
        let ghost xc3 = xc2 + x3;
        write_usize(out, self.id);
        assert(out@ =~= old(out)@ + hc1);
        write_str(out, &self.name);
        assert(out@ =~= old(out)@ + hc2);
        write_opt_str(out, &self.icon_name);
        assert(out@ =~= old(out)@ + hc3);
        write_str(out, &self.description);
        assert(out@ =~= old(out)@ + hc4);
        write_i32(out, self.scope);
        assert(out@ =~= old(out)@ + hc5);
        write_u8(out, self.occasion.to_code());
        assert(out@ =~= old(out)@ + hc6);
        write_opt_usize(out, &self.animation1_id);
        assert(out@ =~= old(out)@ + hc7);
        write_opt_usize(out, &self.animation2_id);
        assert(out@ =~= old(out)@ + hc8);
        self.menu_se.write_wire(out);
        assert(out@ =~= old(out)@ + hc9);
        write_opt_usize(out, &self.common_event_id);
        assert(out@ =~= old(out)@ + hc10);
        assert(hc10 == enc_skill_head(skill_head_of(dv)));
        write_i32(out, self.sp_cost);
        assert(out@ =~= old(out)@ + hc10 + sc1);
        write_i32(out, self.power);
        assert(out@ =~= old(out)@ + hc10 + sc2);
        write_i32(out, self.atk_f);
        assert(out@ =~= old(out)@ + hc10 + sc3);
        write_i32(out, self.eva_f);
        assert(out@ =~= old(out)@ + hc10 + sc4);
        write_i32(out, self.str_f);
        assert(out@ =~= old(out)@ + hc10 + sc5);
        write_i32(out, self.dex_f);
        assert(out@ =~= old(out)@ + hc10 + sc6);
        write_i32(out, self.agi_f);
        assert(out@ =~= old(out)@ + hc10 + sc7);
        write_i32(out, self.int_f);
        assert(out@ =~= old(out)@ + hc10 + sc8);
        write_i32(out, self.hit);
        assert(out@ =~= old(out)@ + hc10 + sc9);
        write_i32(out, self.pdef_f);
        assert(out@ =~= old(out)@ + hc10 + sc10);
        write_i32(out, self.mdef_f);
        assert(out@ =~= old(out)@ + hc10 + sc11);
        write_i32(out, self.variance);
        assert(out@ =~= old(out)@ + hc10 + sc12);
        assert(sc12 == enc_skill_stats(skill_stats_of(dv)));
        write_usize_seq(out, &self.element_set);
        assert(out@ =~= old(out)@ + hc10 + sc12 + xc1);
        write_usize_seq(out, &self.plus_state_set);
        assert(out@ =~= old(out)@ + hc10 + sc12 + xc2);
        write_usize_seq(out, &self.minus_state_set);
        assert(out@ =~= old(out)@ + hc10 + sc12 + xc3);
        assert(xc3 == enc_skill_sets(skill_sets_of(dv)));
        assert(out@ =~= old(out)@ + Self::enc_view(dv));
    }

    #[verifier::rlimit(100)]
    fn read_wire(b: &Vec<u8>, pos: usize) -> (r: Option<(Self, usize)>) {
        let id = match read_usize(b, pos) {
            Some(x) => x,
            None => {
                return None;
            },
        };
        let name = match read_str(b, id.1) {
            Some(x) => x,
            None => {
                return None;
            },
        };
        let icon_name = match read_opt_str(b, name.1) {
            Some(x) => x,
            None => {
                return None;
            },
        };
        let description = match read_str(b, icon_name.1) {
            Some(x) => x,
            None => {
                return None;
            },
        };
        let scope = match read_i32(b, description.1) {
            Some(x) => x,
            None => {
                return None;
            },
        };
        let code = match read_u8(b, scope.1) {
            Some(x) => x,
            None => {
                return None;
            },
        };
        let occasion = match Occasion::from_code(code.0) {
            Some(x) => x,
            None => {
                return None;
            },
        };
        let animation1_id = match read_opt_usize(b, code.1) {
            Some(x) => x,
            None => {
                return None;
            },
        };
        let animation2_id = match read_opt_usize(b, animation1_id.1) {
            Some(x) => x,
            None => {
                return None;
            },
        };
        let menu_se = match <AudioFile as WireRecord>::read_wire(b, animation2_id.1) {
            Some(x) => x,
            None => {
                return None;
            },
        };
        let common_event_id = match read_opt_usize(b, menu_se.1) {
            Some(x) => x,
            None => {
                return None;
            },
        };
        let sp_cost = match read_i32(b, common_event_id.1) {
            Some(x) => x,
            None => {
                return None;
            },
        };
        let power = match read_i32(b, sp_cost.1) {
            Some(x) => x,
            None => {
                return None;
            },
        };
        let atk_f = match read_i32(b, power.1) {
            Some(x) => x,
            None => {
                return None;
            },
        };
        let eva_f = match read_i32(b, atk_f.1) {
            Some(x) => x,
            None => {
                return None;
            },
        };
        let str_f = match read_i32(b, eva_f.1) {
            Some(x) => x,
            None => {
                return None;
            },
        };
        let dex_f = match read_i32(b, str_f.1) {
            Some(x) => x,
            None => {
                return None;
            },
        };
        let agi_f = match read_i32(b, dex_f.1) {
            Some(x) => x,
            None => {
                return None;
            },
        };
        let int_f = match read_i32(b, agi_f.1) {
            Some(x) => x,
            None => {
                return None;
            },
        };
        let hit = match read_i32(b, int_f.1) {
            Some(x) => x,
            None => {
                return None;
            },
        };
        let pdef_f = match read_i32(b, hit.1) {
            Some(x) => x,
            None => {
                return None;
            },
        };
        let mdef_f = match read_i32(b, pdef_f.1) {
            Some(x) => x,
            None => {
                return None;
            },
        };
        let variance = match read_i32(b, mdef_f.1) {
            Some(x) => x,
            None => {
                return None;
            },
        };
        let element_set = match read_usize_seq(b, variance.1) {
            Some(x) => x,
            None => {
                return None;
            },
        };
        let plus_state_set = match read_usize_seq(b, element_set.1) {
            Some(x) => x,
            None => {
                return None;
            },
        };
        let minus_state_set = match read_usize_seq(b, plus_state_set.1) {
            Some(x) => x,
            None => {
                return None;
            },
        };
        Some((
            Skill {
                id: id.0,
                name: name.0,
                icon_name: icon_name.0,
                description: description.0,
                scope: scope.0,
                occasion,
                animation1_id: animation1_id.0,
                animation2_id: animation2_id.0,
                menu_se: menu_se.0,
                common_event_id: common_event_id.0,
                sp_cost: sp_cost.0,
                power: power.0,
                atk_f: atk_f.0,
                eva_f: eva_f.0,
                str_f: str_f.0,
                dex_f: dex_f.0,
                agi_f: agi_f.0,
                int_f: int_f.0,
                hit: hit.0,
                pdef_f: pdef_f.0,
                mdef_f: mdef_f.0,
                variance: variance.0,
                element_set: element_set.0,
                plus_state_set: plus_state_set.0,
                minus_state_set: minus_state_set.0,
            },
            minus_state_set.1,
        ))
    }
}

} // verus!
