use rogue_creator::error::{EngErr, RunCode};
use rogue_creator::global::Global;
use rogue_creator::json::Json;
use rogue_creator::state::State;
use rogue_creator::textrender::map::MapCommand;
use rogue_creator::tile::TileID;

fn s(x: &str) -> Json {
    Json::Str(x.to_string())
}

fn obj(es: Vec<(&str, Json)>) -> Json {
    Json::Object(es.into_iter().map(|(k, v)| (k.to_string(), v)).collect())
}

fn game() -> Global {
    let mut g = Global::new();
    let levels = obj(vec![
        (
            "tiles",
            obj(vec![
                ("collide", obj(vec![("wall", s("#"))])),
                ("nocollide", obj(vec![("floor", s("."))])),
                ("default", s("floor")),
            ]),
        ),
        (
            "levels",
            obj(vec![
                ("cave", obj(vec![("x", Json::Number(Some(4))), ("y", Json::Number(Some(3)))])),
                ("hall", obj(vec![("x", Json::Number(Some(2))), ("y", Json::Number(Some(2)))])),
            ]),
        ),
    ]);
    g.load_level_file("g/", &levels);
    let ents = obj(vec![(
        "entities",
        obj(vec![("player", obj(vec![("tile", s("@"))])), ("npc", obj(vec![("tile", s("n"))]))]),
    )]);
    g.load_entity_file("g/", &ents);
    g
}

fn tiles_of(st: &State<i64>) -> Vec<Vec<TileID>> {
    let cmds = st.prepare_render();
    match &cmds[1] {
        MapCommand::TileData(td) => td.clone(),
        _ => panic!("the second command is the tile data"),
    }
}

fn active_cave() -> (Global, State<i64>) {
    let g = game();
    let mut st: State<i64> = State::new(0);
    let id = st.create_level(&g, "cave").unwrap();
    st.set_active_level(id);
    (g, st)
}

#[test]
fn fresh_state() {
    let st: State<i64> = State::new(-1);
    assert_eq!(st.get_glob_obj(), -1);
    assert_eq!(st.get_active_level(), 0);
    assert_eq!(st.get_active_entity(), 0);
    assert_eq!(st.get_current_layout(), "");
    assert_eq!(st.get_last_key(), "");
    assert!(!st.active_level_exists());
}

#[test]
fn globals_layout_and_key() {
    let mut st: State<i64> = State::new(0);
    st.set_glob_obj(42);
    assert_eq!(st.get_glob_obj(), 42);
    st.set_current_layout("menu");
    assert_eq!(st.get_current_layout(), "menu");
    st.set_last_key("q");
    assert_eq!(st.get_last_key(), "q");
}

#[test]
fn ids_are_handed_out_in_order() {
    let g = game();
    let mut st: State<i64> = State::new(0);
    assert_eq!(st.create_level(&g, "cave"), Ok(1));
    assert!(matches!(st.set_active_level(1), Some(MapCommand::NewLevel(4, 3))));
    assert_eq!(st.create_local_entity(&g, "player"), Ok(2));
    assert_eq!(st.create_glob_entity(&g, "npc"), Ok(3));
    assert_eq!(st.clone_level(1), 4);
    assert_eq!(st.create_level(&g, "moon"), Err(EngErr::RunTime(RunCode::LevelClassNotFound)));
    assert_eq!(st.create_glob_entity(&g, "ghost"), Err(EngErr::RunTime(RunCode::EntityClassNotFound)));
    assert_eq!(st.create_level(&g, "hall"), Ok(5));
    assert!(st.level_exists(4));
    assert!(st.entity_exists(2));
    assert!(st.entity_exists(3));
    assert!(!st.entity_exists(6));
}

#[test]
fn new_level_is_default_tiles() {
    let (_g, st) = active_cave();
    assert_eq!(tiles_of(&st), vec![vec![2, 2, 2, 2], vec![2, 2, 2, 2], vec![2, 2, 2, 2]]);
    assert!(st.tile_known("wall"));
    assert!(!st.tile_known("lava"));
}

#[test]
fn fill_tiles_is_half_open() {
    let (_g, mut st) = active_cave();
    st.fill_tiles("wall", (2, 2), (0, 0));
    assert_eq!(tiles_of(&st), vec![vec![1, 1, 2, 2], vec![1, 1, 2, 2], vec![2, 2, 2, 2]]);
}

#[test]
fn fill_tiles_off_the_map_is_cut() {
    let (_g, mut st) = active_cave();
    st.fill_tiles("wall", (3, 2), (9, 9));
    assert_eq!(tiles_of(&st), vec![vec![2, 2, 2, 2], vec![2, 2, 2, 2], vec![2, 2, 2, 1]]);
}

#[test]
fn draw_line_follows_steps() {
    let (_g, mut st) = active_cave();
    st.draw_line("wall", (0, 0), (3, 2), &vec![0, 0, 1, 2]);
    assert_eq!(tiles_of(&st), vec![vec![1, 1, 1, 2], vec![2, 2, 1, 1], vec![2, 2, 2, 1]]);
}

#[test]
fn draw_line_rising_reaches_both_ends() {
    let (_g, mut st) = active_cave();
    st.draw_line("wall", (0, 2), (2, 0), &vec![0, 1, 2]);
    assert_eq!(tiles_of(&st), vec![vec![2, 2, 1, 2], vec![2, 1, 1, 2], vec![1, 1, 2, 2]]);
}

#[test]
fn draw_line_without_width_is_a_column() {
    let (_g, mut st) = active_cave();
    st.draw_line("wall", (1, 2), (1, 0), &vec![]);
    assert_eq!(tiles_of(&st), vec![vec![2, 1, 2, 2], vec![2, 1, 2, 2], vec![2, 1, 2, 2]]);
}

#[test]
fn spawn_locate_despawn() {
    let (g, mut st) = active_cave();
    let p = st.create_local_entity(&g, "player").unwrap();
    st.fill_tiles("wall", (0, 0), (1, 1));
    assert!(!st.spawn_entity(p as i64, (0, 0)));
    assert!(!st.spawn_entity(p as i64, (7, 0)));
    assert!(st.spawn_entity(p as i64, (2, 1)));
    assert_eq!(st.location_of(p as i64), Some((2, 1)));
    assert_eq!(st.instance_at((2, 1)), Some(p));
    assert_eq!(st.instance_at((1, 1)), None);
    let cmds = st.prepare_render();
    assert_eq!(cmds.len(), 3);
    match &cmds[2] {
        MapCommand::Sprite(c, t) => {
            assert_eq!(*c, (2, 1));
            assert_eq!(t.text, "@");
        },
        _ => panic!("a sprite for the player"),
    }
    assert!(st.despawn_entity(p as i64));
    assert_eq!(st.location_of(p as i64), None);
    assert!(!st.despawn_entity(p as i64));
}

#[test]
fn entity_data_round_trip() {
    let (g, mut st) = active_cave();
    let p = st.create_local_entity(&g, "player").unwrap();
    let n = st.create_glob_entity(&g, "npc").unwrap();
    assert_eq!(st.get_entity_obj(p), 0);
    st.set_entity_obj(p, 11);
    st.set_entity_obj(n, 22);
    assert_eq!(st.get_entity_obj(p), 11);
    assert_eq!(st.get_entity_obj(n), 22);
    assert_eq!(st.get_entity_name(p as i64), "player");
    assert_eq!(st.get_entity_name(n as i64), "npc");
    st.set_active_entity(n);
    assert_eq!(st.active_entity_obj(), 22);
    st.clear_active_entity();
    assert_eq!(st.active_entity_obj(), 0);
}

#[test]
fn delete_entity_removes_it() {
    let (g, mut st) = active_cave();
    let p = st.create_local_entity(&g, "player").unwrap();
    assert!(st.spawn_entity(p as i64, (1, 1)));
    st.delete_entity(p as i64);
    assert!(!st.entity_exists(p));
    assert_eq!(st.location_of(p as i64), None);
}

#[test]
fn level_data_and_deletion() {
    let (g, mut st) = active_cave();
    st.set_level_obj(5);
    assert_eq!(st.get_level_obj(), 5);
    let other = st.create_level(&g, "hall").unwrap();
    st.delete_level(other as i64);
    assert!(!st.level_exists(other));
    assert!(st.active_level_exists());
}

#[test]
fn two_phase_level_creation() {
    let (g, mut st) = active_cave();
    let (id, prev, cmd) = st.begin_level_create(&g, "hall").unwrap();
    assert_eq!(prev, 1);
    assert_eq!(st.get_active_level(), id);
    assert!(matches!(cmd, Some(MapCommand::NewLevel(2, 2))));
    let back = st.finish_level_create(prev, 99);
    assert!(matches!(back, Some(MapCommand::NewLevel(4, 3))));
    assert_eq!(st.get_active_level(), 1);
    st.set_active_level(id);
    assert_eq!(st.get_level_obj(), 99);
}

#[test]
fn two_phase_entity_creation() {
    let (g, mut st) = active_cave();
    st.set_active_entity(7);
    let (id, prev) = st.begin_entity_create(&g, "npc", true).unwrap();
    assert_eq!(prev, 7);
    assert_eq!(st.get_active_entity(), id);
    st.finish_entity_create(id, prev, 31);
    assert_eq!(st.get_active_entity(), 7);
    assert_eq!(st.get_entity_obj(id), 31);
    assert!(st.begin_entity_create(&g, "ghost", false).is_err());
}

#[test]
fn actions_leave_state() {
    let (g, mut st) = active_cave();
    let p = st.create_local_entity(&g, "player").unwrap();
    st.run_actions();
    assert!(st.entity_exists(p));
    assert_eq!(st.get_active_level(), 1);
}
