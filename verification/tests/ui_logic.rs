//! Tile selection arithmetic and the command viewer's skipping rule.

use luminol_store::tilepicker::{SelectedTile, get_tile_from_offset};
use luminol_store::commands::{Command, CommandKind, CommandView};
use luminol_store::records::{Occasion, RecordKind};
use luminol_store::fs::FileId;
use luminol_store::paths::{file_path, decimal_string};

fn cmd(kind: CommandKind) -> Command {
    Command { indent: 0, kind }
}

#[test]
fn from_id_splits_autotiles_and_tiles() {
    assert_eq!(SelectedTile::from_id(0), SelectedTile::Autotile(0));
    // Division rounds toward zero, so small negative ids share autotile 0.
    assert_eq!(SelectedTile::from_id(-47), SelectedTile::Autotile(0));
    assert_eq!(SelectedTile::from_id(-48), SelectedTile::Autotile(-1));
    assert_eq!(SelectedTile::from_id(i16::MIN), SelectedTile::Autotile(-682));
    assert_eq!(SelectedTile::from_id(47), SelectedTile::Autotile(0));
    assert_eq!(SelectedTile::from_id(48), SelectedTile::Autotile(1));
    assert_eq!(SelectedTile::from_id(383), SelectedTile::Autotile(7));
    assert_eq!(SelectedTile::from_id(384), SelectedTile::Tile(384));
    assert_eq!(SelectedTile::from_id(1000), SelectedTile::Tile(1000));
}

#[test]
fn to_id_inverts_from_id() {
    assert_eq!(SelectedTile::Autotile(3).to_id(), 144);
    assert_eq!(SelectedTile::Tile(500).to_id(), 500);
    for id in [0i16, 48, 96, 384, 385, 32000, -48, -96, -32736] {
        assert_eq!(SelectedTile::from_id(id).to_id(), id);
    }
}

#[test]
fn default_selection_is_the_first_autotile() {
    assert_eq!(SelectedTile::default(), SelectedTile::Autotile(0));
}

#[test]
fn tile_from_offset_picks_by_row() {
    // Row zero of the picker holds the autotiles.
    assert_eq!(get_tile_from_offset(0, 0, 7, 10, 3, 0), SelectedTile::Autotile(3));
    // Later rows hold regular tiles, eight per row, starting at 384.
    assert_eq!(get_tile_from_offset(0, 0, 7, 10, 3, 2), SelectedTile::Tile(3 + 8 + 384));
    assert_eq!(get_tile_from_offset(0, 0, 7, 10, 0, 1), SelectedTile::Tile(384));
}

#[test]
fn tile_from_offset_wraps_around_the_selection() {
    // A negative offset wraps to the other side of the rectangle.
    assert_eq!(get_tile_from_offset(0, 0, 7, 10, -1, 0), SelectedTile::Autotile(7));
    // Offsets beyond the rectangle wrap around its width.
    assert_eq!(get_tile_from_offset(2, 1, 4, 3, 3, 0), SelectedTile::Tile(2 + 0 * 8 + 384));
    assert_eq!(get_tile_from_offset(2, 1, 4, 3, 0, 3), SelectedTile::Tile(2 + 0 * 8 + 384));
}

#[test]
fn tile_from_offset_accepts_negative_rectangles() {
    // A rectangle entirely above row one only ever picks autotiles.
    assert_eq!(get_tile_from_offset(-2, -3, 4, -1, 0, 0), SelectedTile::Autotile(-2));
    assert_eq!(get_tile_from_offset(-2, -3, 4, 0, 6, 3), SelectedTile::Autotile(4));
}

#[test]
fn occasion_codes_round_trip() {
    assert_eq!(Occasion::Always.to_code(), 0);
    assert_eq!(Occasion::OnlyBattle.to_code(), 1);
    assert_eq!(Occasion::OnlyMenu.to_code(), 2);
    assert_eq!(Occasion::Never.to_code(), 3);
    for o in [Occasion::Always, Occasion::OnlyBattle, Occasion::OnlyMenu, Occasion::Never] {
        assert_eq!(Occasion::from_code(o.to_code()), Some(o));
    }
    assert_eq!(Occasion::from_code(4), None);
}

#[test]
fn occasion_labels() {
    assert_eq!(Occasion::Always.text(), "Always");
    assert_eq!(Occasion::OnlyBattle.text(), "Only in battle");
    assert_eq!(Occasion::OnlyMenu.text(), "Only from the menu");
    assert_eq!(Occasion::Never.text(), "Never");
}

#[test]
fn break_until_stops_after_the_first_break() {
    let view = CommandView::new(vec![
        cmd(CommandKind::Text { text: "a".to_string() }),
        cmd(CommandKind::Break),
        cmd(CommandKind::Text { text: "b".to_string() }),
    ]);
    assert_eq!(view.break_until(0), 2);
}

#[test]
fn break_until_skips_nested_blocks() {
    // Loop opens a nested block whose own break does not end the outer skip.
    let view = CommandView::new(vec![
        cmd(CommandKind::Loop),
        cmd(CommandKind::Text { text: "inner".to_string() }),
        cmd(CommandKind::Break),
        cmd(CommandKind::Break),
        cmd(CommandKind::Text { text: "after".to_string() }),
    ]);
    assert_eq!(view.break_until(0), 4);
    // Starting inside the nested block, the first break closes it.
    assert_eq!(view.break_until(1), 3);
}

#[test]
fn break_until_without_a_break_reaches_the_end() {
    let view = CommandView::new(vec![
        cmd(CommandKind::Comment { text: "note".to_string() }),
        cmd(CommandKind::Invalid { code: 999 }),
    ]);
    assert_eq!(view.break_until(0), 2);
}

#[test]
fn break_until_handles_conditional_and_else() {
    let view = CommandView::new(vec![
        cmd(CommandKind::Conditional),
        cmd(CommandKind::Else),
        cmd(CommandKind::Break),
        cmd(CommandKind::Break),
        cmd(CommandKind::Break),
    ]);
    assert_eq!(view.break_until(0), 5);
}

#[test]
fn file_paths_follow_the_layout() {
    assert_eq!(file_path(&FileId::Records(RecordKind::Actors)), "Data/Actors.rxdata");
    assert_eq!(file_path(&FileId::Records(RecordKind::CommonEvents)), "Data/CommonEvents.rxdata");
    assert_eq!(file_path(&FileId::Skills), "Data/Skills.rxdata");
    assert_eq!(file_path(&FileId::MapInfos), "Data/MapInfos.rxdata");
    assert_eq!(file_path(&FileId::System), "Data/System.rxdata");
    assert_eq!(file_path(&FileId::Scripts("xScripts".to_string())), "Data/xScripts.rxdata");
    assert_eq!(file_path(&FileId::MapFile(1)), "Data/Map001.rxdata");
    assert_eq!(file_path(&FileId::MapFile(42)), "Data/Map042.rxdata");
    assert_eq!(file_path(&FileId::MapFile(123)), "Data/Map123.rxdata");
    assert_eq!(file_path(&FileId::MapFile(4096)), "Data/Map4096.rxdata");
    assert_eq!(decimal_string(0), "0");
    assert_eq!(decimal_string(907), "907");
}
