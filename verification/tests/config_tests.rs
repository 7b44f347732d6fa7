use rogue_creator::error::{EngErr, RunCode};
use rogue_creator::global::{
    check_entity_file, check_hub, check_layout_file, check_level_file, file_list, hub_files, Global, LoadError,
};
use rogue_creator::json::{read_imports, root_dir, Json};
use rogue_creator::layout::{key_of, InputKey};
use rogue_creator::tile::{build_tile_set, check_tiles};

fn s(x: &str) -> Json {
    Json::Str(x.to_string())
}

fn n(v: u64) -> Json {
    Json::Number(Some(v))
}

fn obj(es: Vec<(&str, Json)>) -> Json {
    Json::Object(es.into_iter().map(|(k, v)| (k.to_string(), v)).collect())
}

fn arr(v: Vec<Json>) -> Json {
    Json::Array(v)
}

fn hub() -> Json {
    obj(vec![
        ("source", arr(vec![s("main.scr")])),
        ("entities", arr(vec![s("ents.json")])),
        ("levels", arr(vec![s("levels.json")])),
        ("layouts", arr(vec![s("layouts.json")])),
        ("imports", obj(vec![("main.scr", s("m"))])),
        ("init", s("m::start()")),
        ("end", s("m::stop()")),
    ])
}

fn entity_file() -> Json {
    obj(vec![
        ("imports", obj(vec![("lib.scr", s("lib"))])),
        (
            "entities",
            obj(vec![
                ("player", obj(vec![("tile", s("@")), ("init", s("lib::make()"))])),
                ("rat", obj(vec![("tile", s("r")), ("action", s("lib::gnaw()"))])),
            ]),
        ),
    ])
}

fn level_file() -> Json {
    obj(vec![
        (
            "tiles",
            obj(vec![
                ("collide", obj(vec![("wall", s("#"))])),
                ("nocollide", obj(vec![("floor", s(".")), ("grass", s(","))])),
                ("default", s("floor")),
            ]),
        ),
        (
            "levels",
            obj(vec![("cave", obj(vec![("x", n(3)), ("y", n(2)), ("init", s("setup()"))]))]),
        ),
    ])
}

fn layout_file() -> Json {
    obj(vec![(
        "layouts",
        obj(vec![(
            "main",
            obj(vec![
                (
                    "inputs",
                    obj(vec![
                        ("enter", s("a()")),
                        ("x", s("b()")),
                        ("default", s("c()")),
                        ("left", s("d()")),
                    ]),
                ),
                ("render", s("r()")),
            ]),
        )]),
    )])
}

#[test]
fn root_dir_is_hub_directory() {
    assert_eq!(root_dir("rogue/hub.json"), "rogue/");
    assert_eq!(root_dir("games/rogue/hub.json"), "games/rogue/");
    assert_eq!(root_dir("hub.json"), "");
    assert_eq!(root_dir("/hub.json"), "/");
    assert_eq!(root_dir(""), "");
}

#[test]
fn json_get_takes_last_entry() {
    let j = obj(vec![("k", n(1)), ("k", n(2))]);
    assert_eq!(j.get("k").unwrap().as_u64(), Some(2));
    assert!(j.get("missing").is_none());
    assert!(s("x").get("k").is_none());
    assert_eq!(s("x").as_str().unwrap(), "x");
    assert!(n(3).as_str().is_none());
    assert_eq!(Json::Number(None).as_u64(), None);
}

#[test]
fn imports_are_rooted() {
    let data = entity_file();
    let imps = read_imports("rogue/", &data);
    assert_eq!(imps, vec![("lib".to_string(), "rogue/lib.scr".to_string())]);
    let none = read_imports("rogue/", &obj(vec![]));
    assert!(none.is_empty());
}

#[test]
fn hub_checks_and_lists() {
    let h = hub();
    assert!(check_hub(&h));
    assert_eq!(file_list("rogue/", &h, "entities"), vec!["rogue/ents.json".to_string()]);
    let bad = obj(vec![("source", arr(vec![n(1)]))]);
    assert!(!check_hub(&bad));
    let missing_lists = obj(vec![("source", arr(vec![]))]);
    assert!(!check_hub(&missing_lists));
}

#[test]
fn sources_and_scripts_load() {
    let h = hub();
    let mut g = Global::new();
    g.add_sources("rogue/", &h);
    assert_eq!(g.sources(), &vec!["rogue/main.scr".to_string()]);
    g.load_scripts("rogue/", &h);
    assert_eq!(g.init().text, Some("m::start()".to_string()));
    assert_eq!(g.init().imports, vec![("m".to_string(), "rogue/main.scr".to_string())]);
    assert_eq!(g.end().text, Some("m::stop()".to_string()));
    assert_eq!(g.tick().text, None);
}

#[test]
fn entity_file_loads_kinds() {
    let data = entity_file();
    assert!(check_entity_file(&data));
    let mut g = Global::new();
    g.load_entity_file("rogue/", &data);
    let p = g.new_entity_instance("player", 7i64).unwrap();
    assert_eq!(p.get_name(), "player");
    assert_eq!(p.get_tile().text, "@");
    assert_eq!(p.get_data(), 7);
    let init = g.entity_init("player").unwrap();
    assert_eq!(init.text, Some("lib::make()".to_string()));
    assert_eq!(init.imports, vec![("lib".to_string(), "rogue/lib.scr".to_string())]);
    assert_eq!(g.entity_action("player").unwrap().text, None);
    assert_eq!(g.entity_action("rat").unwrap().text, Some("lib::gnaw()".to_string()));
    assert_eq!(
        g.new_entity_instance("ghost", 0i64).err(),
        Some(EngErr::RunTime(RunCode::EntityClassNotFound))
    );
    assert_eq!(g.entity_delete("ghost").err(), Some(EngErr::RunTime(RunCode::EntityClassNotFound)));
}

#[test]
fn entity_file_checks() {
    let no_tile = obj(vec![("entities", obj(vec![("p", obj(vec![("init", s("x"))]))]))]);
    assert!(!check_entity_file(&no_tile));
    let bad_script = obj(vec![("entities", obj(vec![("p", obj(vec![("tile", s("@")), ("init", n(1))]))]))]);
    assert!(!check_entity_file(&bad_script));
    let bad_imports = obj(vec![("imports", arr(vec![])), ("entities", obj(vec![]))]);
    assert!(!check_entity_file(&bad_imports));
    assert!(!check_entity_file(&obj(vec![])));
}

#[test]
fn tile_set_ids_follow_file_order() {
    let data = level_file();
    let t = data.get("tiles").unwrap();
    assert!(check_tiles(t));
    let ti = build_tile_set(t);
    assert_eq!(ti.get_id("wall"), Some(1));
    assert_eq!(ti.get_id("floor"), Some(2));
    assert_eq!(ti.get_id("grass"), Some(3));
    assert_eq!(ti.get_default(), 2);
    assert!(ti.get_item(1).unwrap().collide);
    assert!(!ti.get_item(3).unwrap().collide);
    assert_eq!(ti.get_item(3).unwrap().text.text, ",");
}

#[test]
fn tiles_need_a_known_default() {
    let t = obj(vec![
        ("collide", obj(vec![("wall", s("#"))])),
        ("nocollide", obj(vec![])),
        ("default", s("lava")),
    ]);
    assert!(!check_tiles(&t));
    let no_nocollide = obj(vec![("collide", obj(vec![("wall", s("#"))])), ("default", s("wall"))]);
    assert!(!check_tiles(&no_nocollide));
}

#[test]
fn level_file_loads_kinds() {
    let data = level_file();
    assert!(check_level_file(&data));
    let mut g = Global::new();
    g.load_level_file("rogue/", &data);
    let l = g.new_level_instance("cave", 0i64).unwrap();
    assert_eq!(l.x_size(), 3);
    assert_eq!(l.y_size(), 2);
    assert_eq!(l.tile_at((0, 0)), Some(2));
    assert_eq!(l.tile_at((2, 1)), Some(2));
    assert_eq!(l.tile_at((3, 0)), None);
    assert_eq!(l.get_tile_id("grass"), Some(3));
    assert_eq!(g.level_init("cave").unwrap().text, Some("setup()".to_string()));
    assert_eq!(g.level_delete("cave").unwrap().text, None);
    assert_eq!(
        g.new_level_instance("moon", 0i64).err(),
        Some(EngErr::RunTime(RunCode::LevelClassNotFound))
    );
}

#[test]
fn level_file_checks() {
    let bad_size = obj(vec![
        ("tiles", level_tiles()),
        ("levels", obj(vec![("cave", obj(vec![("x", s("3")), ("y", n(2))]))])),
    ]);
    assert!(!check_level_file(&bad_size));
    let no_tiles = obj(vec![("levels", obj(vec![]))]);
    assert!(!check_level_file(&no_tiles));
}

fn level_tiles() -> Json {
    obj(vec![
        ("collide", obj(vec![("wall", s("#"))])),
        ("nocollide", obj(vec![("floor", s("."))])),
        ("default", s("floor")),
    ])
}

#[test]
fn layout_file_binds_keys() {
    let data = layout_file();
    assert!(check_layout_file(&data));
    let mut g = Global::new();
    g.load_layout_file("rogue/", &data);
    let enter = g.run_input("main", &InputKey::Character('\n')).unwrap();
    assert_eq!(enter.text, Some("a()".to_string()));
    let x = g.run_input("main", &InputKey::Character('x')).unwrap();
    assert_eq!(x.text, Some("b()".to_string()));
    let left = g.run_input("main", &InputKey::KeyLeft).unwrap();
    assert_eq!(left.text, Some("d()".to_string()));
    let other = g.run_input("main", &InputKey::Character('z')).unwrap();
    assert_eq!(other.text, Some("c()".to_string()));
    assert_eq!(g.run_render("main").text, Some("r()".to_string()));
    assert!(g.has_layout("main"));
    assert!(!g.has_layout("menu"));
}

#[test]
fn layout_without_default_ignores_other_keys() {
    let data = obj(vec![("layouts", obj(vec![("menu", obj(vec![("inputs", obj(vec![("q", s("quit()"))]))]))]))]);
    assert!(check_layout_file(&data));
    let mut g = Global::new();
    g.load_layout_file("r/", &data);
    assert!(g.run_input("menu", &InputKey::Character('w')).is_none());
    assert_eq!(g.run_render("menu").text, None);
}

#[test]
fn layout_file_checks() {
    let empty_key = obj(vec![("layouts", obj(vec![("m", obj(vec![("inputs", obj(vec![("", s("x"))]))]))]))]);
    assert!(!check_layout_file(&empty_key));
    let bad_script = obj(vec![("layouts", obj(vec![("m", obj(vec![("render", n(1))]))]))]);
    assert!(!check_layout_file(&bad_script));
}

#[test]
fn key_names() {
    assert_eq!(key_of("enter"), InputKey::Character('\n'));
    assert_eq!(key_of("space"), InputKey::Character(' '));
    assert_eq!(key_of("tab"), InputKey::Character('\t'));
    assert_eq!(key_of("backspace"), InputKey::KeyBackspace);
    assert_eq!(key_of("up"), InputKey::KeyUp);
    assert_eq!(key_of("down"), InputKey::KeyDown);
    assert_eq!(key_of("right"), InputKey::KeyRight);
    assert_eq!(key_of("left"), InputKey::KeyLeft);
    assert_eq!(key_of("qwerty"), InputKey::Character('q'));
}

#[test]
fn later_files_replace_kinds() {
    let mut g = Global::new();
    g.load_entity_file("r/", &entity_file());
    let again = obj(vec![("entities", obj(vec![("player", obj(vec![("tile", s("P"))]))]))]);
    g.load_entity_file("r/", &again);
    assert_eq!(g.new_entity_instance("player", 0i64).unwrap().get_tile().text, "P");
    assert_eq!(g.new_entity_instance("rat", 0i64).unwrap().get_tile().text, "r");
}

#[test]
fn init_game_loads_everything() {
    let mut g = Global::new();
    let second = obj(vec![("entities", obj(vec![("player", obj(vec![("tile", s("P"))]))]))]);
    g.init_game(
        "rogue/hub.json",
        &hub(),
        &vec![entity_file(), second],
        &vec![level_file()],
        &vec![layout_file()],
    );
    assert_eq!(g.sources(), &vec!["rogue/main.scr".to_string()]);
    assert_eq!(g.init().text, Some("m::start()".to_string()));
    assert_eq!(g.new_entity_instance("player", 0i64).unwrap().get_tile().text, "P");
    assert_eq!(g.entity_init("player").unwrap().text, None);
    assert_eq!(g.new_entity_instance("rat", 0i64).unwrap().get_tile().text, "r");
    assert_eq!(g.entity_action("rat").unwrap().imports, vec![("lib".to_string(), "rogue/lib.scr".to_string())]);
    assert_eq!(g.new_level_instance("cave", 0i64).unwrap().x_size(), 3);
    assert_eq!(g.run_render("main").text, Some("r()".to_string()));
}

#[test]
fn init_game_roots_files_at_hub_directory() {
    let mut g = Global::new();
    g.init_game("games/rogue/hub.json", &hub(), &vec![entity_file()], &vec![level_file()], &vec![layout_file()]);
    assert_eq!(g.sources(), &vec!["games/rogue/main.scr".to_string()]);
    assert_eq!(
        g.entity_action("rat").unwrap().imports,
        vec![("lib".to_string(), "games/rogue/lib.scr".to_string())]
    );
}

const HUB_TEXT: &str = r#"{"source": ["main.scr"], "entities": ["ents.json"], "levels": ["levels.json"],
    "layouts": ["layouts.json"], "imports": {"main.scr": "m"}, "init": "m::start()", "end": "m::stop()"}"#;

const ENTITY_TEXT: &str = r#"{"imports": {"lib.scr": "lib"}, "entities": {
    "player": {"tile": "@", "init": "lib::make()"}, "rat": {"tile": "r", "action": "lib::gnaw()"}}}"#;

const LEVEL_TEXT: &str = r##"{"tiles": {"collide": {"wall": "#"}, "nocollide": {"floor": "."}, "default": "floor"},
    "levels": {"cave": {"x": 3, "y": 2, "init": "setup()"}}}"##;

const LAYOUT_TEXT: &str = r#"{"layouts": {"main": {"inputs": {"enter": "a()"}, "render": "r()"}}}"#;

#[test]
fn hub_files_are_under_the_hub_directory() {
    let (e, l, y) = hub_files("games/rogue/hub.json", HUB_TEXT).unwrap();
    assert_eq!(e, vec!["games/rogue/ents.json".to_string()]);
    assert_eq!(l, vec!["games/rogue/levels.json".to_string()]);
    assert_eq!(y, vec!["games/rogue/layouts.json".to_string()]);
}

#[test]
fn hub_files_reports_bad_hubs() {
    assert_eq!(hub_files("hub.json", "{\"source\": ").err(), Some(LoadError::Syntax));
    assert_eq!(hub_files("hub.json", "{\"source\": 3}").err(), Some(LoadError::Malformed));
    assert_eq!(hub_files("hub.json", "[]").err(), Some(LoadError::Malformed));
}

#[test]
fn load_game_reads_the_texts() {
    let mut g = Global::new();
    let texts = |t: &str| vec![t.to_string()];
    let r = g.load_game_checked("games/rogue/hub.json", HUB_TEXT, &texts(ENTITY_TEXT), &texts(LEVEL_TEXT), &texts(LAYOUT_TEXT));
    assert_eq!(r, Ok(()));
    assert_eq!(g.sources(), &vec!["games/rogue/main.scr".to_string()]);
    assert_eq!(g.init().text, Some("m::start()".to_string()));
    assert_eq!(g.end().text, Some("m::stop()".to_string()));
    assert_eq!(g.new_entity_instance("rat", 0i64).unwrap().get_tile().text, "r");
    assert_eq!(
        g.entity_action("rat").unwrap().imports,
        vec![("lib".to_string(), "games/rogue/lib.scr".to_string())]
    );
    assert_eq!(g.new_level_instance("cave", 0i64).unwrap().x_size(), 3);
    assert_eq!(g.run_render("main").text, Some("r()".to_string()));
}

#[test]
fn load_game_stops_at_text_that_is_not_json() {
    let mut g = Global::new();
    let r = g.load_game("hub.json", HUB_TEXT, &vec!["{".to_string()], &vec![], &vec![]);
    assert_eq!(r, Err(LoadError::Syntax));
    assert!(g.sources().is_empty());
    assert_eq!(g.load_game("hub.json", "nope", &vec![], &vec![], &vec![]), Err(LoadError::Syntax));
    assert!(g.sources().is_empty());
}

#[test]
fn load_game_checked_reports_malformed_files() {
    let mut g = Global::new();
    let r = g.load_game_checked("hub.json", HUB_TEXT, &vec!["{\"entities\": 4}".to_string()], &vec![], &vec![]);
    assert_eq!(r, Err(LoadError::Malformed));
    assert!(g.sources().is_empty());
    let r = g.load_game_checked("hub.json", HUB_TEXT, &vec!["[".to_string()], &vec![], &vec![]);
    assert_eq!(r, Err(LoadError::Syntax));
}
