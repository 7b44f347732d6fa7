use rogue_creator::packages::control::control_call;
use rogue_creator::packages::entity::{entity_call, EntityCall};
use rogue_creator::packages::glob::{glob_call, GlobCall};
use rogue_creator::packages::level::{level_call, LevelCall};
use rogue_creator::packages::makemap::{makemap_call, MakemapCall};
use rogue_creator::packages::map::map_call;
use rogue_creator::packages::pbox::pbox_call;
use rogue_creator::packages::txtrend::txtrend_call;
use rogue_creator::packages::{int_arg, str_arg, to_coord, to_text_item, CallError, ScriptVal};
use rogue_creator::textitem::{TextColour, TextOption};
use rogue_creator::textrender::map::MapCommand;
use rogue_creator::textrender::printbox::PrintCommand;
use rogue_creator::textrender::RenderCommand;
use rogue_creator::MainCommand;

fn s(x: &str) -> ScriptVal {
    ScriptVal::Str(x.to_string())
}

fn i(v: i64) -> ScriptVal {
    ScriptVal::Int(v)
}

fn list(v: Vec<ScriptVal>) -> ScriptVal {
    ScriptVal::List(v)
}

fn obj(es: Vec<(&str, ScriptVal)>) -> ScriptVal {
    ScriptVal::Obj(es.into_iter().map(|(k, v)| (k.to_string(), v)).collect())
}

#[test]
fn coords_from_lists_and_objects() {
    assert_eq!(to_coord(&list(vec![i(3), i(4)])), Ok((3, 4)));
    assert_eq!(to_coord(&obj(vec![("x", ScriptVal::Float(2)), ("y", i(5))])), Ok((2, 5)));
    assert_eq!(to_coord(&list(vec![i(3), i(4), i(9)])), Ok((3, 4)));
    assert_eq!(to_coord(&list(vec![i(1)])), Err(CallError::TypeError));
    assert_eq!(to_coord(&obj(vec![("x", i(1))])), Err(CallError::TypeError));
    assert_eq!(to_coord(&list(vec![s("1"), i(2)])), Err(CallError::TypeError));
    assert_eq!(to_coord(&s("1,2")), Err(CallError::TypeError));
    assert_eq!(to_coord(&list(vec![i(-1), i(0)])), Ok((usize::MAX, 0)));
}

#[test]
fn coord_forms_agree() {
    let a = to_coord(&list(vec![i(7), ScriptVal::Float(8)]));
    let b = to_coord(&obj(vec![("y", ScriptVal::Float(8)), ("x", i(7))]));
    assert_eq!(a, b);
}

#[test]
fn text_item_from_string() {
    let t = to_text_item(&s("hello")).unwrap();
    assert_eq!(t.text, "hello");
    assert_eq!(t.colour, TextColour::Default);
    assert!(t.options.is_empty());
}

#[test]
fn text_item_from_object() {
    let v = obj(vec![
        ("text", s("abcdef")),
        ("len", i(3)),
        ("colour", s("red")),
        ("options", list(vec![s("bold"), s("blinking")])),
    ]);
    let t = to_text_item(&v).unwrap();
    assert_eq!(t.text, "abc");
    assert_eq!(t.colour, TextColour::Red);
    assert_eq!(t.options, vec![TextOption::Bold, TextOption::Blinking]);
    let one = to_text_item(&obj(vec![("text", s("hi")), ("options", s("bold")), ("len", i(10))])).unwrap();
    assert_eq!(one.text, "hi");
    assert_eq!(one.options, vec![TextOption::Bold]);
}

#[test]
fn text_item_type_errors() {
    assert!(matches!(to_text_item(&obj(vec![("len", i(3))])), Err(CallError::TypeError)));
    assert!(matches!(to_text_item(&obj(vec![("text", s("a")), ("len", s("3"))])), Err(CallError::TypeError)));
    assert!(matches!(to_text_item(&obj(vec![("text", s("a")), ("colour", i(1))])), Err(CallError::TypeError)));
    assert!(matches!(
        to_text_item(&obj(vec![("text", s("a")), ("options", list(vec![s("bold"), i(1)]))])),
        Err(CallError::TypeError)
    ));
    assert!(matches!(to_text_item(&i(4)), Err(CallError::TypeError)));
}

#[test]
fn int_and_str_args() {
    assert_eq!(int_arg(&i(5)), Ok(5));
    assert_eq!(int_arg(&s("5")), Err(CallError::TypeError));
    assert_eq!(str_arg(&s("a")).unwrap(), "a");
    assert!(str_arg(&ScriptVal::Null).is_err());
}

#[test]
fn control_calls() {
    assert_eq!(control_call("end_game", &[]), Ok(MainCommand::EndGame));
    assert_eq!(control_call("terminate_game", &[]), Ok(MainCommand::Terminate));
    assert_eq!(control_call("wait", &[i(250)]), Ok(MainCommand::Wait(250)));
    assert_eq!(control_call("end_game", &[i(1)]), Err(CallError::WrongNumberOfArguments));
    assert_eq!(control_call("wait", &[]), Err(CallError::WrongNumberOfArguments));
    assert_eq!(control_call("wait", &[s("soon")]), Err(CallError::TypeError));
    assert_eq!(control_call("explode", &[]), Err(CallError::FunctionNotFound));
}

#[test]
fn pbox_calls() {
    match pbox_call("print", &[s("msg")]) {
        Ok(PrintCommand::NewText(t)) => assert_eq!(t.text, "msg"),
        _ => panic!("print gives a new text"),
    }
    assert!(matches!(pbox_call("next", &[]), Ok(PrintCommand::Next)));
    assert!(matches!(pbox_call("clear", &[]), Ok(PrintCommand::Clear)));
    assert!(matches!(pbox_call("print", &[]), Err(CallError::WrongNumberOfArguments)));
    assert!(matches!(pbox_call("print", &[i(3)]), Err(CallError::TypeError)));
    assert!(matches!(pbox_call("next", &[i(3)]), Err(CallError::WrongNumberOfArguments)));
    assert!(matches!(pbox_call("shout", &[]), Err(CallError::FunctionNotFound)));
}

#[test]
fn txtrend_calls() {
    let tl = list(vec![i(0), i(0)]);
    let br = list(vec![i(10), i(2)]);
    assert!(matches!(
        txtrend_call("place_print", &[tl.clone_val(), br.clone_val()]),
        Ok(RenderCommand::PrintBox((0, 0), (10, 2)))
    ));
    assert!(matches!(
        txtrend_call("place_map", &[tl.clone_val(), br.clone_val()]),
        Ok(RenderCommand::TextMap((0, 0), (10, 2)))
    ));
    match txtrend_call("place_text", &[s("title"), tl.clone_val(), br.clone_val()]) {
        Ok(RenderCommand::Renderable(b, a, c)) => {
            assert_eq!(a, (0, 0));
            assert_eq!(c, (10, 2));
            let d = b.render(a, c);
            assert_eq!(d.text, "title");
            assert_eq!(d.max_len, 10);
        },
        _ => panic!("place_text gives a text box"),
    }
    assert!(matches!(txtrend_call("place_map", &[tl.clone_val()]), Err(CallError::WrongNumberOfArguments)));
    assert!(matches!(txtrend_call("place_map", &[tl.clone_val(), s("x")]), Err(CallError::TypeError)));
    assert!(matches!(txtrend_call("place_sound", &[]), Err(CallError::FunctionNotFound)));
}

trait CloneVal {
    fn clone_val(&self) -> ScriptVal;
}

impl CloneVal for ScriptVal {
    fn clone_val(&self) -> ScriptVal {
        match self {
            ScriptVal::Null => ScriptVal::Null,
            ScriptVal::Bool(b) => ScriptVal::Bool(*b),
            ScriptVal::Int(v) => ScriptVal::Int(*v),
            ScriptVal::Float(u) => ScriptVal::Float(*u),
            ScriptVal::Str(t) => ScriptVal::Str(t.clone()),
            ScriptVal::List(l) => ScriptVal::List(l.iter().map(|v| v.clone_val()).collect()),
            ScriptVal::Obj(o) => ScriptVal::Obj(o.iter().map(|(k, v)| (k.clone(), v.clone_val())).collect()),
            ScriptVal::Other => ScriptVal::Other,
        }
    }
}

#[test]
fn map_calls() {
    assert!(matches!(map_call("display", &[list(vec![i(1), i(2)])]), Ok(MapCommand::Display((1, 2)))));
    assert!(matches!(map_call("display", &[]), Err(CallError::WrongNumberOfArguments)));
    assert!(matches!(map_call("display", &[i(1)]), Err(CallError::TypeError)));
    assert!(matches!(map_call("zoom", &[]), Err(CallError::FunctionNotFound)));
}

#[test]
fn makemap_calls() {
    match makemap_call("fill_tile", &[s("wall"), list(vec![i(1), i(2)]), list(vec![i(4), i(5)])]) {
        Ok(MakemapCall::FillTile(n, a, b)) => {
            assert_eq!(n, "wall");
            assert_eq!(a, (1, 2));
            assert_eq!(b, (4, 5));
        },
        _ => panic!("fill_tile with two coordinates"),
    }
    match makemap_call("fill_tile", &[s("wall"), list(vec![i(1), i(2)])]) {
        Ok(MakemapCall::FillTile(_, a, b)) => {
            assert_eq!(a, (1, 2));
            assert_eq!(b, (2, 3));
        },
        _ => panic!("fill_tile with one coordinate"),
    }
    match makemap_call("draw_line", &[s("wall"), list(vec![i(0), i(0)]), list(vec![i(3), i(1)])]) {
        Ok(MakemapCall::DrawLine(n, a, b)) => {
            assert_eq!(n, "wall");
            assert_eq!(a, (0, 0));
            assert_eq!(b, (3, 1));
        },
        _ => panic!("draw_line"),
    }
    assert!(matches!(makemap_call("spawn", &[i(4), list(vec![i(1), i(1)])]), Ok(MakemapCall::Spawn(4, (1, 1)))));
    assert!(matches!(makemap_call("despawn", &[i(4)]), Ok(MakemapCall::Despawn(4))));
    assert!(matches!(makemap_call("fill_tile", &[s("wall")]), Err(CallError::WrongNumberOfArguments)));
    assert!(matches!(makemap_call("fill_tile", &[i(1), list(vec![i(1), i(2)])]), Err(CallError::TypeError)));
    assert!(matches!(makemap_call("spawn", &[s("4"), list(vec![i(1), i(1)])]), Err(CallError::TypeError)));
    assert!(matches!(makemap_call("move_entity", &[]), Err(CallError::FunctionNotFound)));
}

#[test]
fn glob_calls() {
    assert!(matches!(glob_call("obj", &[]), Ok(GlobCall::Obj)));
    assert!(matches!(glob_call("last_key", &[]), Ok(GlobCall::LastKey)));
    match glob_call("set_layout", &[s("menu")]) {
        Ok(GlobCall::SetLayout(n)) => assert_eq!(n, "menu"),
        _ => panic!("set_layout"),
    }
    assert!(matches!(glob_call("set_layout", &[i(1)]), Err(CallError::TypeError)));
    assert!(matches!(glob_call("obj", &[i(1)]), Err(CallError::WrongNumberOfArguments)));
    assert!(matches!(glob_call("data", &[]), Err(CallError::FunctionNotFound)));
}

#[test]
fn level_calls() {
    match level_call("create", &[s("cave")]) {
        Ok(LevelCall::Create(n)) => assert_eq!(n, "cave"),
        _ => panic!("create"),
    }
    assert!(matches!(level_call("delete", &[i(3)]), Ok(LevelCall::Delete(3))));
    assert!(matches!(level_call("load", &[i(3)]), Ok(LevelCall::Load(3))));
    assert!(matches!(level_call("clone", &[i(3)]), Ok(LevelCall::Clone(3))));
    assert!(matches!(level_call("data", &[]), Ok(LevelCall::Data)));
    assert!(matches!(
        level_call("instance_at", &[obj(vec![("x", i(2)), ("y", i(1))])]),
        Ok(LevelCall::InstanceAt((2, 1)))
    ));
    assert!(matches!(level_call("location_of", &[i(9)]), Ok(LevelCall::LocationOf(9))));
    assert!(matches!(level_call("load", &[s("3")]), Err(CallError::TypeError)));
    assert!(matches!(level_call("create", &[]), Err(CallError::WrongNumberOfArguments)));
    assert!(matches!(level_call("unload", &[]), Err(CallError::FunctionNotFound)));
}

#[test]
fn entity_calls() {
    match entity_call("create_global", &[s("npc")]) {
        Ok(EntityCall::CreateGlobal(n)) => assert_eq!(n, "npc"),
        _ => panic!("create_global"),
    }
    match entity_call("create", &[s("rat")]) {
        Ok(EntityCall::Create(n)) => assert_eq!(n, "rat"),
        _ => panic!("create"),
    }
    assert!(matches!(entity_call("delete", &[i(2)]), Ok(EntityCall::Delete(2))));
    assert!(matches!(entity_call("data", &[i(2)]), Ok(EntityCall::Data(2))));
    assert!(matches!(entity_call("this", &[]), Ok(EntityCall::This)));
    assert!(matches!(entity_call("run_actions", &[]), Ok(EntityCall::RunActions)));
    assert!(matches!(entity_call("run_actions", &[i(1)]), Err(CallError::WrongNumberOfArguments)));
    assert!(matches!(entity_call("data", &[s("2")]), Err(CallError::TypeError)));
    assert!(matches!(entity_call("clone", &[i(2)]), Err(CallError::FunctionNotFound)));
}
