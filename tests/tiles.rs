use editor::choice::{Coord, Ident};
use editor::json::{Json, Step};
use editor::tile_codec::{decode_tile, decode_tiles, decode_variant, encode_tile, encode_tiles, encode_variant};
use editor::tiles::{
    default_dimension, facet_set, flags_from_facets, is_default, is_default_dimension, Facet,
    NodeAction, Tile, TileFrame, TileVariant, Tiles,
};

fn keys(j: &Json) -> Vec<String> {
    match j {
        Json::Object(ms) => ms.iter().map(|(k, _)| k.clone()).collect(),
        _ => panic!("not an object"),
    }
}

fn member<'a>(j: &'a Json, key: &str) -> Option<&'a Json> {
    match j {
        Json::Object(ms) => ms.iter().find(|(k, _)| k == key).map(|(_, v)| v),
        _ => None,
    }
}

fn variant(x: Coord, y: Coord, children: Vec<TileVariant>) -> TileVariant {
    let mut v = TileVariant::new();
    v.x = x;
    v.y = y;
    v.var = children;
    v
}

fn same_variant(a: &TileVariant, b: &TileVariant) -> bool {
    a.x == b.x
        && a.y == b.y
        && a.ident.text() == b.ident.text()
        && a.ident.reference() == b.ident.reference()
        && a.color == b.color
        && a.toppad == b.toppad
        && a.w == b.w
        && a.h == b.h
        && a.var.len() == b.var.len()
        && a.var.iter().zip(b.var.iter()).all(|(p, q)| same_variant(p, q))
}

fn same_tile(a: &Tile, b: &Tile) -> bool {
    a.id == b.id
        && a.ident.text() == b.ident.text()
        && a.ident.reference() == b.ident.reference()
        && a.color == b.color
        && a.flags == b.flags
        && a.merge == b.merge
        && a.blend == b.blend
        && a.skipy == b.skipy
        && a.toppad == b.toppad
        && a.w == b.w
        && a.h == b.h
        && a.var.len() == b.var.len()
        && a.var.iter().zip(b.var.iter()).all(|(p, q)| same_variant(p, q))
}

fn deep_tile() -> Tile {
    let leaf = {
        let mut v = variant(Coord::Below(45), Coord::Exact(-3), vec![]);
        v.ident = Ident::Name("leaf".to_string());
        v.color = Some("#102030".to_string());
        v.toppad = -2;
        v.w = 36;
        v
    };
    let mid = variant(Coord::Above(2), Coord::Any, vec![leaf, TileVariant::new()]);
    let top = {
        let mut v = variant(Coord::Exact(7), Coord::Below(0), vec![mid]);
        v.ident = Ident::Ref(12);
        v.h = 54;
        v
    };
    let mut t = Tile::new();
    t.id = 41;
    t.ident = Ident::Name("stone".to_string());
    t.color = Some("#808080".to_string());
    t.flags = 0x1 | 0x8 | 0x400;
    t.merge = "dirt".to_string();
    t.blend = "grass".to_string();
    t.skipy = 2;
    t.toppad = 4;
    t.w = 20;
    t.h = 22;
    t.var = vec![top, TileVariant::new()];
    t
}

#[test]
fn round_trip_nested_variants() {
    let tiles = vec![deep_tile(), Tile::new()];
    let j = encode_tiles(&tiles);
    let back = decode_tiles(&j).ok().expect("decodes");
    assert_eq!(back.len(), 2);
    assert!(same_tile(&back[0], &tiles[0]));
    assert!(same_tile(&back[1], &tiles[1]));
    assert_eq!(back[0].var[0].var[0].var.len(), 2);
    assert_eq!(back[0].var[0].var[0].var[0].x, Coord::Below(45));
}

#[test]
fn round_trip_empty_variant_list() {
    let t = Tile::new();
    let j = encode_tile(&t);
    assert!(member(&j, "var").is_none());
    let back = decode_tile(&j).ok().expect("decodes");
    assert!(back.var.is_empty());
    assert!(same_tile(&back, &t));
}

#[test]
fn default_tile_writes_only_its_id() {
    let t = Tile::new();
    assert_eq!(t.w, 18);
    assert_eq!(t.h, 18);
    assert_eq!(t.toppad, 0);
    assert_eq!(keys(&encode_tile(&t)), vec!["id".to_string()]);
}

#[test]
fn wide_tile_writes_only_w_of_the_layout() {
    let mut t = Tile::new();
    t.w = 32;
    let j = encode_tile(&t);
    assert_eq!(keys(&j), vec!["id".to_string(), "w".to_string()]);
    assert!(matches!(member(&j, "w"), Some(Json::Int(32))));
}

#[test]
fn missing_members_decode_to_defaults() {
    let j = Json::Object(vec![("id".to_string(), Json::Int(5))]);
    let t = decode_tile(&j).ok().expect("decodes");
    assert_eq!(t.id, 5);
    assert_eq!(t.flags, 0);
    assert_eq!(t.merge, "");
    assert_eq!(t.blend, "");
    assert_eq!(t.skipy, 0);
    assert_eq!(t.toppad, 0);
    assert_eq!(t.w, 18);
    assert_eq!(t.h, 18);
    assert!(t.var.is_empty());
    assert!(t.color.is_none());
    assert_eq!(t.ident.reference(), None);
    assert_eq!(t.ident.name(), None);
}

#[test]
fn full_tile_members_in_order() {
    let j = encode_tile(&deep_tile());
    assert_eq!(
        keys(&j),
        vec!["id", "name", "color", "flags", "merge", "blend", "skipy", "toppad", "w", "h", "var"]
    );
}

#[test]
fn variant_writes_one_key_per_coordinate() {
    let v = variant(Coord::Above(3), Coord::Below(9), vec![]);
    let j = encode_variant(&v);
    assert_eq!(keys(&j), vec!["minx".to_string(), "maxy".to_string()]);
    let back = decode_variant(&j).ok().expect("decodes");
    assert_eq!(back.x, Coord::Above(3));
    assert_eq!(back.y, Coord::Below(9));
}

#[test]
fn conflicting_members_pick_by_precedence() {
    let j = Json::Object(vec![
        ("maxx".to_string(), Json::Int(1)),
        ("x".to_string(), Json::Int(2)),
        ("name".to_string(), Json::Str("n".to_string())),
        ("ref".to_string(), Json::Int(4)),
    ]);
    let v = decode_variant(&j).ok().expect("decodes");
    assert_eq!(v.x, Coord::Exact(2));
    assert_eq!(v.ident.reference(), Some(4));
}

#[test]
fn null_optional_members_are_absent() {
    let j = Json::Object(vec![
        ("id".to_string(), Json::Int(1)),
        ("ref".to_string(), Json::Null),
        ("color".to_string(), Json::Null),
    ]);
    let t = decode_tile(&j).ok().expect("decodes");
    assert_eq!(t.ident.reference(), None);
    assert!(t.color.is_none());
}

fn path_of(e: &editor::json::DecodeError) -> Vec<String> {
    e.path
        .iter()
        .map(|s| match s {
            Step::Key(k) => k.clone(),
            Step::Index(i) => i.to_string(),
        })
        .collect()
}

#[test]
fn decode_error_carries_path() {
    let bad = Json::Object(vec![("x".to_string(), Json::Str("no".to_string()))]);
    let inner = Json::Object(vec![("var".to_string(), Json::Array(vec![Json::Object(vec![]), bad]))]);
    let tile = Json::Object(vec![
        ("id".to_string(), Json::Int(1)),
        ("var".to_string(), Json::Array(vec![inner])),
    ]);
    let ok_tile = Json::Object(vec![("id".to_string(), Json::Int(0))]);
    let e = decode_tiles(&Json::Array(vec![ok_tile, tile])).err().expect("fails");
    assert_eq!(path_of(&e), vec!["1", "var", "0", "var", "1", "x"]);
}

#[test]
fn decode_errors_for_each_shape() {
    assert!(path_of(&decode_tiles(&Json::Null).err().unwrap()).is_empty());
    let missing_id = Json::Array(vec![Json::Object(vec![])]);
    assert_eq!(path_of(&decode_tiles(&missing_id).err().unwrap()), vec!["0", "id"]);
    let big_flags = Json::Object(vec![
        ("id".to_string(), Json::Int(1)),
        ("flags".to_string(), Json::Int(70000)),
    ]);
    assert_eq!(path_of(&decode_tile(&big_flags).err().unwrap()), vec!["flags"]);
    let negative_w = Json::Object(vec![
        ("id".to_string(), Json::Int(1)),
        ("w".to_string(), Json::Int(-1)),
    ]);
    assert_eq!(path_of(&decode_tile(&negative_w).err().unwrap()), vec!["w"]);
    let float_id = Json::Object(vec![("id".to_string(), Json::Number("1.5".to_string()))]);
    assert_eq!(path_of(&decode_tile(&float_id).err().unwrap()), vec!["id"]);
    let var_not_list = Json::Object(vec![
        ("id".to_string(), Json::Int(1)),
        ("var".to_string(), Json::Int(3)),
    ]);
    assert_eq!(path_of(&decode_tile(&var_not_list).err().unwrap()), vec!["var"]);
    let var_item_not_object = Json::Object(vec![
        ("id".to_string(), Json::Int(1)),
        ("var".to_string(), Json::Array(vec![Json::Bool(true)])),
    ]);
    assert_eq!(path_of(&decode_tile(&var_item_not_object).err().unwrap()), vec!["var", "0"]);
}

#[test]
fn defaults_and_dimensions() {
    assert_eq!(default_dimension(), 18);
    assert!(is_default_dimension(&18));
    assert!(!is_default_dimension(&32));
    assert!(is_default(&0i32));
    assert!(!is_default(&-1i32));
    assert!(is_default(&0u16));
    assert!(is_default(&String::new()));
    assert!(!is_default(&"x".to_string()));
}

#[test]
fn flags_hold_only_the_facets() {
    let mut on = [false; 11];
    assert_eq!(flags_from_facets(on), 0);
    on[0] = true;
    on[10] = true;
    assert_eq!(flags_from_facets(on), 0x401);
    let all = [true; 11];
    assert_eq!(flags_from_facets(all), 0x7FF);
    assert_eq!(Facet::Moss.bit(), 0x100);
}

#[test]
fn rebuilding_flags_clears_stray_bits() {
    let old: u16 = 0x800 | 0x8 | 0x1;
    let facets = [
        Facet::Solid, Facet::Transparent, Facet::Dirt, Facet::Stone, Facet::Grass, Facet::Pile,
        Facet::Flip, Facet::Brick, Facet::Moss, Facet::Merge, Facet::Large,
    ];
    let mut on = [false; 11];
    for (k, f) in facets.iter().enumerate() {
        on[k] = facet_set(old, *f);
    }
    assert_eq!(flags_from_facets(on), 0x9);
    assert_eq!(flags_from_facets([false; 11]) & 0xF800, 0);
}

fn editor_with(tiles: Vec<Tile>) -> Tiles {
    let mut e = Tiles::new();
    assert!(e.load(&encode_tiles(&tiles)).is_ok());
    e
}

#[test]
fn navigator_open_descend_ascend() {
    let mut e = editor_with(vec![Tile::new(), deep_tile()]);
    assert!(!e.descend(0));
    assert!(!e.open(5));
    assert!(e.open(1));
    assert!(!e.open(0));
    assert!(e.descend(0));
    assert!(e.descend(0));
    assert!(!e.descend(2));
    assert_eq!(e.edit_path(), &vec![1, 0, 0]);
    assert_eq!(e.current_variant().unwrap().x, Coord::Above(2));
    assert_eq!(e.child_count(), 2);
    e.ascend();
    e.ascend();
    assert_eq!(e.edit_path(), &vec![1]);
    assert!(e.current_tile().is_some());
    e.ascend();
    assert!(e.edit_path().is_empty());
}

#[test]
fn removing_open_node_goes_up_one_level() {
    let mut e = editor_with(vec![deep_tile()]);
    assert!(e.open(0));
    assert!(e.descend(0));
    assert!(e.descend(0));
    assert!(e.remove_node(&vec![0, 0, 0]));
    assert_eq!(e.edit_path(), &vec![0, 0]);
    assert!(e.entries()[0].var[0].var.is_empty());
}

#[test]
fn removing_earlier_sibling_shifts_path() {
    let mut e = editor_with(vec![deep_tile()]);
    assert!(e.open(0));
    assert!(e.descend(0));
    assert!(e.descend(0));
    assert!(e.descend(1));
    assert!(e.remove_node(&vec![0, 0, 0, 0]));
    assert_eq!(e.edit_path(), &vec![0, 0, 0, 0]);
    assert!(same_variant(e.current_variant().unwrap(), &TileVariant::new()));
}

#[test]
fn removing_earlier_tile_shifts_path() {
    let mut e = editor_with(vec![Tile::new(), deep_tile()]);
    assert!(e.open(1));
    assert!(e.descend(0));
    assert!(e.remove_node(&vec![0]));
    assert_eq!(e.edit_path(), &vec![0, 0]);
    assert_eq!(e.current_variant().unwrap().x, Coord::Exact(7));
    assert!(!e.remove_node(&vec![3]));
}

#[test]
fn removing_elsewhere_keeps_path() {
    let mut e = editor_with(vec![deep_tile()]);
    assert!(e.open(0));
    assert!(e.descend(0));
    assert!(e.remove_node(&vec![0, 1]));
    assert_eq!(e.edit_path(), &vec![0, 0]);
    assert_eq!(e.current_variant().unwrap().x, Coord::Exact(7));
}

#[test]
fn delete_waits_for_confirmation_and_runs_once() {
    let mut e = editor_with(vec![deep_tile()]);
    assert!(e.open(0));
    assert!(e.request_delete(1));
    assert!(!e.request_delete(0));
    assert_eq!(e.pending_delete(), Some(&vec![0, 1]));
    assert!(e.resolve_delete(true));
    assert_eq!(e.pending_delete(), None);
    assert_eq!(e.entries()[0].var.len(), 1);
    assert!(!e.resolve_delete(true));
    assert_eq!(e.entries()[0].var.len(), 1);
    assert_eq!(e.edit_path(), &vec![0]);
}

#[test]
fn declined_delete_keeps_everything() {
    let mut e = editor_with(vec![Tile::new(), Tile::new()]);
    assert!(e.request_delete(0));
    assert!(!e.resolve_delete(false));
    assert_eq!(e.entries().len(), 2);
    assert!(e.request_delete(1));
    assert!(e.resolve_delete(true));
    assert_eq!(e.entries().len(), 1);
    assert!(!e.request_delete(4));
}

#[test]
fn edits_reach_the_open_node() {
    let mut e = editor_with(vec![Tile::new()]);
    assert!(!e.add_variant());
    assert!(e.open(0));
    assert!(e.add_variant());
    assert!(e.descend(0));
    assert!(e.add_variant());
    let mut v = TileVariant::new();
    v.x.set_text(">4");
    v.w = 40;
    assert!(e.set_variant_fields(v));
    assert_eq!(e.current_variant().unwrap().x, Coord::Above(4));
    assert_eq!(e.current_variant().unwrap().var.len(), 1);
    e.ascend();
    let mut t = Tile::new();
    t.id = 9;
    assert!(e.set_tile_fields(t));
    assert_eq!(e.entries()[0].id, 9);
    assert_eq!(e.entries()[0].var.len(), 1);
    assert_eq!(e.entries()[0].var[0].w, 40);
}

#[test]
fn load_failure_keeps_state() {
    let mut e = editor_with(vec![Tile::new()]);
    assert!(e.open(0));
    assert!(e.load(&Json::Int(3)).is_err());
    assert_eq!(e.entries().len(), 1);
    assert_eq!(e.edit_path(), &vec![0]);
    assert_eq!(e.add_tile(), 1);
    let saved = e.save();
    assert!(matches!(saved, Json::Array(ref items) if items.len() == 2));
}

fn frame(action: NodeAction, answer: Option<bool>) -> TileFrame {
    TileFrame { add_tile: false, open: None, delete_tile: None, action, answer }
}

#[test]
fn deleting_open_node_goes_up_one_level() {
    let mut e = editor_with(vec![deep_tile()]);
    assert!(e.open(0));
    assert!(e.descend(0));
    assert!(e.descend(0));
    assert!(e.request_delete_open());
    assert_eq!(e.pending_delete(), Some(&vec![0, 0, 0]));
    assert!(!e.set_variant_fields(TileVariant::new()));
    assert!(!e.add_variant());
    assert!(e.resolve_delete(true));
    assert_eq!(e.edit_path(), &vec![0, 0]);
    assert!(e.entries()[0].var[0].var.is_empty());
    assert_eq!(e.pending_delete(), None);
}

#[test]
fn view_frames_drive_the_editor() {
    let mut e = editor_with(vec![deep_tile()]);
    e.view(TileFrame { add_tile: true, open: Some(0), delete_tile: None, action: NodeAction::Edit(0), answer: None });
    assert_eq!(e.entries().len(), 2);
    assert_eq!(e.edit_path(), &vec![0, 0]);
    e.view(frame(NodeAction::Delete(0), None));
    assert_eq!(e.pending_delete(), Some(&vec![0, 0, 0]));
    e.view(frame(NodeAction::DeleteOpen, None));
    assert_eq!(e.pending_delete(), Some(&vec![0, 0, 0]));
    e.view(frame(NodeAction::Nothing, Some(true)));
    assert!(e.entries()[0].var[0].var.is_empty());
    assert_eq!(e.edit_path(), &vec![0, 0]);
    e.view(frame(NodeAction::DeleteOpen, Some(true)));
    assert_eq!(e.edit_path(), &vec![0]);
    assert_eq!(e.entries()[0].var.len(), 1);
    e.view(frame(NodeAction::Close, None));
    e.view(TileFrame { add_tile: false, open: None, delete_tile: Some(1), action: NodeAction::Nothing, answer: Some(false) });
    assert_eq!(e.entries().len(), 2);
    assert_eq!(e.pending_delete(), None);
}

#[test]
fn tile_with_one_empty_variant_decodes() {
    let j = Json::Array(vec![Json::Object(vec![
        ("id".to_string(), Json::Int(5)),
        ("var".to_string(), Json::Array(vec![Json::Object(vec![])])),
    ])]);
    let ts = decode_tiles(&j).ok().expect("decodes");
    assert_eq!(ts.len(), 1);
    assert_eq!(ts[0].id, 5);
    assert_eq!(ts[0].var.len(), 1);
    assert!(same_variant(&ts[0].var[0], &TileVariant::new()));
}
