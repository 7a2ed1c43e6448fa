//! On-disk paths of the project files.
//!
//! Every file lives under the project's `Data` directory.  Collections are
//! stored under their collection name, the script bundle under its resolved
//! name, and each map under `Map` followed by its id zero-padded to at least
//! three digits.

use vstd::prelude::*;
use crate::records::RecordKind;
use crate::fs::{FileId, FileKey};

verus! {

pub open spec fn digit_char(d: nat) -> char {
    ((48 + d) as u8) as char
}

/// The decimal digits of `n`, most significant first.
pub open spec fn spec_decimal(n: nat) -> Seq<char>
    decreases n,
{
    if n < 10 {
        seq![digit_char(n)]
    } else {
        spec_decimal(n / 10).push(digit_char(n % 10))
    }
}

/// A map id rendered as `Map` plus the id, zero-padded to three digits.
pub open spec fn spec_map_file_name(id: nat) -> Seq<char> {
    "Map"@ + (if id < 10 {
        seq!['0', '0']
    } else if id < 100 {
        seq!['0']
    } else {
        Seq::<char>::empty()
    }) + spec_decimal(id) + ".rxdata"@
}

pub open spec fn spec_kind_name(kind: RecordKind) -> Seq<char> {
    match kind {
        RecordKind::Actors => "Actors"@,
        RecordKind::Animations => "Animations"@,
        RecordKind::Armors => "Armors"@,
        RecordKind::Classes => "Classes"@,
        RecordKind::CommonEvents => "CommonEvents"@,
        RecordKind::Enemies => "Enemies"@,
        RecordKind::Items => "Items"@,
        RecordKind::States => "States"@,
        RecordKind::Tilesets => "Tilesets"@,
        RecordKind::Troops => "Troops"@,
        RecordKind::Weapons => "Weapons"@,
    }
}

/// The path of one project file under the project root.
pub open spec fn spec_file_path(k: FileKey) -> Seq<char> {
    match k {
        FileKey::Records(kind) => "Data/"@ + spec_kind_name(kind) + ".rxdata"@,
        FileKey::Skills => "Data/"@ + "Skills"@ + ".rxdata"@,
        FileKey::MapInfos => "Data/"@ + "MapInfos"@ + ".rxdata"@,
        FileKey::System => "Data/"@ + "System"@ + ".rxdata"@,
        FileKey::Scripts(name) => "Data/"@ + name + ".rxdata"@,
        FileKey::MapFile(id) => "Data/"@ + spec_map_file_name(id as nat),
    }
}

fn digit_str(d: usize) -> (r: &'static str)
    requires
        d < 10,
    ensures
        r@ == seq![digit_char(d as nat)],
{
    let r: &'static str = if d == 0 {
        "0"
    } else if d == 1 {
        "1"
    } else if d == 2 {
        "2"
    } else if d == 3 {
        "3"
    } else if d == 4 {
        "4"
    } else if d == 5 {
        "5"
    } else if d == 6 {
        "6"
    } else if d == 7 {
        "7"
    } else if d == 8 {
        "8"
    } else {
        "9"
    };
    proof {
        reveal_strlit("0");
        reveal_strlit("1");
        reveal_strlit("2");
        reveal_strlit("3");
        reveal_strlit("4");
        reveal_strlit("5");
        reveal_strlit("6");
        reveal_strlit("7");
        reveal_strlit("8");
        reveal_strlit("9");
        assert(r@ =~= seq![digit_char(d as nat)]);
    }
    r
}

/// Renders a number in decimal.
pub fn decimal_string(n: usize) -> (r: String)
    ensures
        r@ == spec_decimal(n as nat),
    decreases n,
{
    if n < 10 {
        String::from_str(digit_str(n))
    } else {
        let mut s = decimal_string(n / 10);
        s.append(digit_str(n % 10));
        proof {
            assert(s@ =~= spec_decimal(n as nat));
        }
        s
    }
}

/// Renders the on-disk path of a project file, as the host lays files out
/// under the project root.
pub fn file_path(id: &FileId) -> (r: String)
    ensures
        r@ == spec_file_path(id@),
{
    let mut s = String::from_str("Data/");
    match id {
        FileId::Records(kind) => {
            let name: &'static str = match kind {
                RecordKind::Actors => "Actors",
                RecordKind::Animations => "Animations",
                RecordKind::Armors => "Armors",
                RecordKind::Classes => "Classes",
                RecordKind::CommonEvents => "CommonEvents",
                RecordKind::Enemies => "Enemies",
                RecordKind::Items => "Items",
                RecordKind::States => "States",
                RecordKind::Tilesets => "Tilesets",
                RecordKind::Troops => "Troops",
                RecordKind::Weapons => "Weapons",
            };
            s.append(name);
        },
        FileId::Skills => {
            s.append("Skills");
        },
        FileId::MapInfos => {
            s.append("MapInfos");
        },
        FileId::System => {
            s.append("System");
        },
        FileId::Scripts(name) => {
            s.append(name.as_str());
        },
        FileId::MapFile(map_id) => {
            s.append("Map");
            if *map_id < 10 {
                s.append("00");
                proof {
                    reveal_strlit("00");
                    assert("00"@ =~= seq!['0', '0']);
                }
            } else if *map_id < 100 {
                s.append("0");
                proof {
                    reveal_strlit("0");
                    assert("0"@ =~= seq!['0']);
                }
            }
            let digits = decimal_string(*map_id);
            s.append(digits.as_str());
        },
    }
    s.append(".rxdata");
    proof {
        assert(s@ =~= spec_file_path(id@));
    }
    s
}

} // verus!
