use editor::choice::Ident;
use editor::globals::{Global, Globals};
use editor::header::{Header, HeaderEntry};
use editor::items::{Item, Items};
use editor::json::{Json, Step};
use editor::npcs::{NPCs, NPC};
use editor::prefixes::{Prefix, Prefixes};
use editor::table::{Record, RowFrame};
use editor::walls::{Wall, Walls};

fn obj(members: Vec<(&str, Json)>) -> Json {
    Json::Object(members.into_iter().map(|(k, v)| (k.to_string(), v)).collect())
}

fn keys(j: &Json) -> Vec<String> {
    match j {
        Json::Object(ms) => ms.iter().map(|(k, _)| k.clone()).collect(),
        _ => panic!("not an object"),
    }
}

#[test]
fn items_load_edit_save() {
    let mut items = Items::new();
    let j = Json::Array(vec![
        obj(vec![("id", Json::Int(1)), ("name", Json::Str("Sword".to_string()))]),
        obj(vec![("id", Json::Int(-3)), ("name", Json::Str("Coin".to_string()))]),
    ]);
    assert!(items.table.load(&j).is_ok());
    assert_eq!(items.table.entries().len(), 2);
    assert_eq!(items.table.add(), 2);
    assert!(items.table.set(2, Item { id: 7, name: "Bow".to_string() }));
    assert!(!items.table.set(9, Item::blank()));
    let saved = items.table.save();
    let mut again = Items::new();
    assert!(again.table.load(&saved).is_ok());
    let e = again.table.entries();
    assert_eq!((e[0].id, e[0].name.as_str()), (1, "Sword"));
    assert_eq!((e[1].id, e[1].name.as_str()), (-3, "Coin"));
    assert_eq!((e[2].id, e[2].name.as_str()), (7, "Bow"));
}

#[test]
fn items_need_both_members() {
    let mut items = Items::new();
    let j = Json::Array(vec![obj(vec![("id", Json::Int(1))])]);
    let e = items.table.load(&j).err().expect("fails");
    assert!(matches!(e.path.as_slice(), [Step::Index(0), Step::Key(k)] if k == "name"));
    assert!(items.table.entries().is_empty());
}

#[test]
fn table_delete_needs_confirmation() {
    let mut p = Prefixes::new();
    p.table.push(Prefix { id: 1, name: "Sharp".to_string() });
    p.table.push(Prefix { id: 2, name: "Dull".to_string() });
    assert!(p.table.request_delete(0));
    assert!(!p.table.request_delete(1));
    assert!(!p.table.resolve_delete(false));
    assert_eq!(p.table.entries().len(), 2);
    assert!(p.table.request_delete(1));
    assert!(p.table.resolve_delete(true));
    assert_eq!(p.table.entries().len(), 1);
    assert_eq!(p.table.entries()[0].name, "Sharp");
    assert!(!p.table.request_delete(1));
}

#[test]
fn npc_defaults_left_out_and_next_id() {
    let mut n = NPCs::new();
    assert_eq!(n.add_next(), 0);
    assert_eq!(n.table.entries()[0].id, 0);
    n.table.set(0, NPC { id: 41, name: "Guide".to_string(), head: 0, banner: 3 });
    assert_eq!(n.add_next(), 1);
    assert_eq!(n.table.entries()[1].id, 42);
    let j = n.table.entries()[0].encode();
    assert_eq!(keys(&j), vec!["id", "name", "banner"]);
    n.table.set(1, NPC { id: i32::MAX, name: String::new(), head: 0, banner: 0 });
    n.add_next();
    assert_eq!(n.table.entries()[2].id, i32::MAX);
}

#[test]
fn walls_reference_or_name() {
    let mut w = Walls::new();
    let j = Json::Array(vec![obj(vec![
        ("id", Json::Int(4)),
        ("ref", Json::Int(30)),
        ("color", Json::Str("#112233".to_string())),
        ("large", Json::Int(2)),
    ])]);
    assert!(w.table.load(&j).is_ok());
    let wall = &w.table.entries()[0];
    assert_eq!(wall.ident.reference(), Some(30));
    assert_eq!(wall.blend, 0);
    assert_eq!(wall.large, 2);
    let mut named = Wall::blank();
    named.ident = Ident::from_text("Stone Wall");
    named.color = "#000000".to_string();
    assert_eq!(keys(&named.encode()), vec!["id", "name", "color"]);
    let missing_color = Json::Array(vec![obj(vec![("id", Json::Int(4))])]);
    assert!(w.table.load(&missing_color).is_err());
    assert_eq!(w.table.entries().len(), 1);
}

#[test]
fn header_entries_and_reordering() {
    let mut h = Header::new();
    let j = Json::Array(vec![
        obj(vec![("name", Json::Str("a".to_string())), ("type", Json::Str("i32".to_string()))]),
        obj(vec![
            ("name", Json::Str("b".to_string())),
            ("type", Json::Str("u8".to_string())),
            ("num", Json::Int(4)),
            ("min", Json::Int(88)),
        ]),
        obj(vec![
            ("name", Json::Str("c".to_string())),
            ("type", Json::Str("s".to_string())),
            ("relnum", Json::Str("a".to_string())),
        ]),
    ]);
    assert!(h.table.load(&j).is_ok());
    assert_eq!(h.table.entries()[1].array.reference(), Some(4));
    assert_eq!(h.table.entries()[2].array.name(), Some("a".to_string()));
    assert!(h.table.move_down(0));
    assert!(!h.table.move_down(2));
    assert_eq!(h.table.entries()[0].name, "b");
    assert_eq!(h.table.entries()[1].name, "a");
    assert_eq!(keys(&h.table.entries()[0].encode()), vec!["name", "type", "num", "min"]);
    let e = HeaderEntry::blank();
    assert_eq!(keys(&e.encode()), vec!["name", "type"]);
}

#[test]
fn globals_round_trip() {
    let mut g = Globals::new();
    g.table.push(Global { id: "sky".to_string(), color: "#8080ff".to_string() });
    let saved = g.table.save();
    let mut again = Globals::new();
    assert!(again.table.load(&saved).is_ok());
    assert_eq!(again.table.entries()[0].id, "sky");
    assert_eq!(again.table.entries()[0].color, "#8080ff");
    assert!(again.table.load(&Json::Array(vec![Json::Null])).is_err());
}

#[test]
fn table_view_frames() {
    let mut items = Items::new();
    let add = RowFrame { add: true, move_down: None, delete: None, answer: None };
    items.view(add);
    items.view(add);
    assert_eq!(items.table.entries().len(), 2);
    items.view(RowFrame { add: false, move_down: None, delete: Some(1), answer: None });
    items.view(RowFrame { add: false, move_down: None, delete: Some(0), answer: None });
    assert_eq!(items.table.pending_delete(), Some(1));
    items.view(RowFrame { add: false, move_down: None, delete: None, answer: Some(true) });
    assert_eq!(items.table.entries().len(), 1);
    items.view(RowFrame { add: false, move_down: None, delete: None, answer: Some(true) });
    assert_eq!(items.table.entries().len(), 1);
    let mut n = NPCs::new();
    n.view(add);
    n.view(add);
    assert_eq!(n.table.entries()[1].id, 1);
    let mut h = Header::new();
    h.view(add);
    h.table.set(0, HeaderEntry { name: "a".to_string(), entry_type: "b".to_string(), array: Ident::Unset, min: 0 });
    h.view(RowFrame { add: true, move_down: Some(0), delete: None, answer: None });
    assert_eq!(h.table.entries()[1].name, "a");
}
