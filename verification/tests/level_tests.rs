use std::collections::HashMap;
use std::rc::Rc;
use rogue_creator::entity::Entity;
use rogue_creator::level::{copy_grid, Level, LevelInst};
use rogue_creator::snippet::Snippet;
use rogue_creator::textrender::map::MapCommand;
use rogue_creator::tile::{TileInfo, TileItem};

fn cave() -> Rc<Level> {
    let mut ti = TileInfo::new();
    ti.add_tile("floor", TileItem::new(".".to_string(), false));
    ti.add_tile("wall", TileItem::new("#".to_string(), true));
    ti.set_default("floor");
    Rc::new(Level::new(3, 2, Rc::new(ti), Snippet::empty(), Snippet::empty()))
}

fn rat() -> Entity {
    Entity::new("r", Snippet::empty(), Snippet::empty(), Snippet::empty(), Snippet::empty())
}

#[test]
fn level_instance_starts_with_default_tiles() {
    let l: LevelInst<i64> = LevelInst::new(cave(), 3);
    assert_eq!(l.x_size(), 3);
    assert_eq!(l.y_size(), 2);
    assert_eq!(l.tile_at((2, 1)), Some(1));
    assert_eq!(l.get_data(), 3);
    assert!(l.level().init().text.is_none());
}

#[test]
fn tiles_read_back() {
    let mut l: LevelInst<i64> = LevelInst::new(cave(), 0);
    assert!(l.set_tile(2, (1, 0)));
    assert_eq!(l.tile_at((1, 0)), Some(2));
    assert_eq!(l.tile_at((0, 0)), Some(1));
    assert!(!l.set_tile(2, (3, 0)));
    assert!(!l.set_tile(2, (0, 2)));
}

#[test]
fn rectangles_and_columns() {
    let mut l: LevelInst<i64> = LevelInst::new(cave(), 0);
    l.fill_rect(2, 1, 9, 0, 1);
    assert_eq!(l.tile_at((0, 0)), Some(1));
    assert_eq!(l.tile_at((1, 0)), Some(2));
    assert_eq!(l.tile_at((2, 0)), Some(2));
    assert_eq!(l.tile_at((1, 1)), Some(1));
    l.paint_column(2, 0, 0, 5);
    assert_eq!(l.tile_at((0, 0)), Some(2));
    assert_eq!(l.tile_at((0, 1)), Some(2));
}

#[test]
fn instances_on_the_map() {
    let mut l: LevelInst<i64> = LevelInst::new(cave(), 0);
    l.add_instance(5, rat().new_instance("rat", 1));
    l.set_tile(2, (0, 1));
    assert!(!l.spawn_instance(5, (0, 1)));
    assert!(l.spawn_instance(5, (2, 1)));
    assert_eq!(l.location_of(5), Some((2, 1)));
    assert_eq!(l.instance_at((2, 1)), Some(5));
    assert_eq!(l.get_entity_name(5), "rat");
    l.set_entity_data(5, 9);
    assert_eq!(l.get_entity_data(5), 9);
    let cmds = l.send_text_map_data(&HashMap::new());
    assert_eq!(cmds.len(), 3);
    assert!(matches!(&cmds[2], MapCommand::Sprite((2, 1), _)));
    assert!(l.despawn_instance(5));
    assert_eq!(l.instance_at((2, 1)), None);
    assert!(l.remove_instance(5).is_some());
    assert!(!l.has_entity(5));
}

#[test]
fn copies_are_equal() {
    let mut l: LevelInst<i64> = LevelInst::new(cave(), 4);
    l.set_tile(2, (2, 0));
    let d = l.duplicate();
    assert_eq!(d.tile_at((2, 0)), Some(2));
    assert_eq!(d.get_data(), 4);
    let g = copy_grid(&vec![vec![1, 2], vec![3]]);
    assert_eq!(g, vec![vec![1, 2], vec![3]]);
}

#[test]
fn tile_ids_are_fresh_and_earlier_ones_stay() {
    let mut ti = TileInfo::new();
    assert!(ti.get_item(0).is_none());
    ti.add_tile("a", TileItem::new("a".to_string(), false));
    ti.add_tile("b", TileItem::new("b".to_string(), true));
    ti.set_default("b");
    ti.add_tile("a", TileItem::new("A".to_string(), true));
    assert_eq!(ti.get_id("a"), Some(3));
    assert_eq!(ti.get_id("b"), Some(2));
    assert_eq!(ti.get_item(1).unwrap().text.text, "a");
    assert_eq!(ti.get_item(3).unwrap().text.text, "A");
    assert!(ti.get_item(3).unwrap().collide);
    assert!(ti.get_item(0).is_none());
    assert!(ti.get_item(4).is_none());
    assert_eq!(ti.get_default(), 2);
}

#[test]
fn tile_kind_kept_across_later_additions() {
    let mut ti = TileInfo::new();
    ti.add_tile("door", TileItem::new("+".to_string(), true));
    for n in ["a", "b", "c", "d", "e"] {
        ti.add_tile(n, TileItem::new(n.to_string(), false));
    }
    assert_eq!(ti.get_id("door"), Some(1));
    assert_eq!(ti.get_item(ti.get_id("door").unwrap()).unwrap().text.text, "+");
    assert_eq!(ti.get_id("e"), Some(6));
    assert!(ti.get_item(0).is_none());
}
