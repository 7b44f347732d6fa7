use rogue_creator::error::{EngErr, RunCode};
use rogue_creator::textitem::{TextColour, TextItem, TextOption};

#[test]
fn colour_names() {
    assert_eq!(TextColour::from_str("red"), Some(TextColour::Red));
    assert_eq!(TextColour::from_str("grey"), Some(TextColour::Grey));
    assert_eq!(TextColour::from_str("default"), Some(TextColour::Default));
    assert_eq!(TextColour::from_str("Red"), None);
    assert_eq!(TextColour::from_str("gray"), None);
}

#[test]
fn option_names() {
    assert_eq!(TextOption::from_str("bold"), Some(TextOption::Bold));
    assert_eq!(TextOption::from_str("blinking"), Some(TextOption::Blinking));
    assert_eq!(TextOption::from_str("italic"), None);
}

#[test]
fn text_item_cut() {
    let t = TextItem::new("abcdef".to_string(), Some(3));
    assert_eq!(t.text, "abc");
    assert_eq!(t.colour, TextColour::Default);
    assert!(t.options.is_empty());
    let whole = TextItem::new("abc".to_string(), Some(10));
    assert_eq!(whole.text, "abc");
    let none = TextItem::new("abc".to_string(), None);
    assert_eq!(none.text, "abc");
    let utf = TextItem::new("héllo".to_string(), Some(3));
    assert_eq!(utf.text, "hé");
}

#[test]
fn text_item_char() {
    assert_eq!(TextItem::new_tile("#wall".to_string()).as_char(), '#');
    assert_eq!(TextItem::new_tile(String::new()).as_char(), ' ');
    let d = TextItem::new_tile("xy".to_string()).duplicate();
    assert_eq!(d.text, "xy");
}

#[test]
fn error_messages() {
    assert_eq!(
        EngErr::RunTime(RunCode::EntityClassNotFound).message(),
        "Internal runtime error: EntityClassNotFound"
    );
    assert_eq!(
        EngErr::RunTime(RunCode::LevelClassNotFound).message(),
        "Internal runtime error: LevelClassNotFound"
    );
}
