use std::rc::Rc;
use rogue_creator::textitem::{TextColour, TextItem};
use rogue_creator::textrender::map::{MapCommand, TextMap};
use rogue_creator::textrender::printbox::{PrintBox, PrintCommand};
use rogue_creator::textrender::textbox::TextBox;
use rogue_creator::tile::{TileInfo, TileItem};

fn item(t: &str) -> TextItem {
    TextItem::new(t.to_string(), None)
}

fn tiles() -> Rc<TileInfo> {
    let mut ti = TileInfo::new();
    ti.add_tile("floor", TileItem::new(".".to_string(), false));
    ti.add_tile("wall", TileItem::new("#".to_string(), true));
    Rc::new(ti)
}

#[test]
fn print_box_shows_first_message() {
    let mut pb = PrintBox::new();
    assert!(pb.render((0, 0), (10, 0)).is_none());
    pb.process_commands(vec![PrintCommand::NewText(item("first")), PrintCommand::NewText(item("second"))], 10);
    assert_eq!(pb.len(), 2);
    let d = pb.render((1, 5), (11, 5)).unwrap();
    assert_eq!(d.text, "first");
    assert_eq!((d.y, d.x, d.max_len), (5, 1, 10));
}

#[test]
fn print_box_next_and_clear() {
    let mut pb = PrintBox::new();
    pb.process_commands(
        vec![PrintCommand::NewText(item("a")), PrintCommand::NewText(item("b")), PrintCommand::Next],
        4,
    );
    assert_eq!(pb.render((0, 0), (4, 0)).unwrap().text, "b");
    pb.process_commands(vec![PrintCommand::Next, PrintCommand::Next], 4);
    assert_eq!(pb.len(), 0);
    pb.process_commands(vec![PrintCommand::NewText(item("c")), PrintCommand::Clear], 4);
    assert!(pb.render((0, 0), (4, 0)).is_none());
}

#[test]
fn print_box_batches_agree() {
    let mut one = PrintBox::new();
    one.process_commands(vec![PrintCommand::NewText(item("a")), PrintCommand::NewText(item("b")), PrintCommand::Next], 3);
    let mut two = PrintBox::new();
    two.process_commands(vec![PrintCommand::NewText(item("a"))], 3);
    two.process_commands(vec![PrintCommand::NewText(item("b")), PrintCommand::Next], 3);
    assert_eq!(one.len(), two.len());
    assert_eq!(one.render((0, 0), (3, 0)).unwrap().text, two.render((0, 0), (3, 0)).unwrap().text);
}

#[test]
fn print_box_splits_long_text() {
    let mut pb = PrintBox::new();
    let mut long = item("hello world");
    long.colour = TextColour::Red;
    pb.process_commands(vec![PrintCommand::NewText(long), PrintCommand::NewText(item("ok"))], 4);
    assert_eq!(pb.len(), 4);
    let shown: Vec<String> = (0..4)
        .map(|_| {
            let t = pb.render((0, 0), (4, 0)).unwrap().text;
            pb.process_commands(vec![PrintCommand::Next], 4);
            t
        })
        .collect();
    assert_eq!(shown, vec!["hell", "o wo", "rld", "ok"]);
    assert_eq!(pb.len(), 0);
}

#[test]
fn print_box_keeps_text_that_fits_or_has_no_width() {
    let mut pb = PrintBox::new();
    pb.process_commands(vec![PrintCommand::NewText(item("four")), PrintCommand::NewText(item("anything"))], 4);
    assert_eq!(pb.len(), 3);
    assert_eq!(pb.render((0, 0), (4, 0)).unwrap().text, "four");
    let mut zero = PrintBox::new();
    zero.process_commands(vec![PrintCommand::NewText(item("anything"))], 0);
    assert_eq!(zero.len(), 1);
    assert_eq!(zero.render((0, 0), (0, 0)).unwrap().text, "anything");
}

#[test]
fn text_box_renders_at_top_left() {
    let b = TextBox::new("hello".to_string());
    let d = b.render((2, 3), (6, 9));
    assert_eq!((d.y, d.x, d.max_len), (3, 2, 4));
    assert_eq!(d.text, "hello");
}

#[test]
fn map_draws_tiles_then_sprites() {
    let mut m = TextMap::new();
    m.process_commands(vec![
        MapCommand::NewLevel(3, 2),
        MapCommand::TileInfo(tiles()),
        MapCommand::TileData(vec![vec![1, 2, 1], vec![1, 1, 1]]),
        MapCommand::Sprite((1, 1), item("@")),
    ]);
    assert_eq!(m.sprite_count(), 1);
    let cells = m.render((0, 0), (3, 2));
    assert_eq!(
        cells,
        vec![
            (0, 0, '.'),
            (0, 1, '#'),
            (0, 2, '.'),
            (1, 0, '.'),
            (1, 1, '.'),
            (1, 2, '.'),
            (1, 1, '@'),
        ]
    );
}

#[test]
fn map_hides_and_scrolls() {
    let mut m = TextMap::new();
    m.process_commands(vec![
        MapCommand::NewLevel(3, 2),
        MapCommand::TileInfo(tiles()),
        MapCommand::TileData(vec![vec![1, 2, 1], vec![2, 1, 2]]),
        MapCommand::SetShowArea((0, 0), (1, 2), false),
        MapCommand::Display((1, 0)),
    ]);
    assert_eq!(m.display_top_left(), (1, 0));
    assert_eq!(m.is_shown((0, 1)), Some(false));
    assert_eq!(m.is_shown((1, 1)), Some(true));
    assert_eq!(m.is_shown((5, 1)), None);
    let cells = m.render((10, 10), (12, 11));
    assert_eq!(cells, vec![(10, 10, '#'), (10, 11, '.')]);
}

#[test]
fn map_forgets_sprites_each_frame() {
    let mut m = TextMap::new();
    m.process_commands(vec![MapCommand::NewLevel(1, 1), MapCommand::Sprite((0, 0), item("@"))]);
    assert_eq!(m.sprite_count(), 1);
    m.process_commands(vec![]);
    assert_eq!(m.sprite_count(), 0);
}

#[test]
fn map_range_check() {
    let m = TextMap::new();
    assert!(m.in_range(&(3, 3), &(2, 2)));
    assert!(!m.in_range(&(3, 3), &(3, 0)));
}

#[test]
fn map_batches_agree() {
    let mut one = TextMap::new();
    one.process_commands(vec![
        MapCommand::NewLevel(2, 1),
        MapCommand::TileInfo(tiles()),
        MapCommand::TileData(vec![vec![2, 1]]),
        MapCommand::Display((1, 0)),
    ]);
    let mut two = TextMap::new();
    two.process_commands(vec![MapCommand::NewLevel(2, 1), MapCommand::TileInfo(tiles())]);
    two.process_commands(vec![MapCommand::TileData(vec![vec![2, 1]]), MapCommand::Display((1, 0))]);
    assert_eq!(one.render((0, 0), (2, 1)), two.render((0, 0), (2, 1)));
    assert_eq!(one.render((0, 0), (2, 1)), vec![(0, 0, '.')]);
}
