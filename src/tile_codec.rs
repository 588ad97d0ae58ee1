//! The JSON form of tiles and variants. A member is left out when its field
//! holds the default, and of each group of alternatives only the one that is
//! set is written.
use vstd::prelude::*;
use crate::choice::{Coord, Ident, IdentView};
use crate::json::{
    at_key, distinct_keys, lemma_lookup_slot, slot_fields, Slot, error_at, error_here,
    error_within, fields_of, find, find_member, int_field, lemma_array_view, lemma_find_lookup,
    lemma_object_view, lookup, opt_int_field, opt_int_of, opt_str_of, opt_str_field, read_int,
    read_opt_int, read_opt_str, read_str, str_field, values_of, DecodeError, Fields, Json,
    JsonModel, Member, Step, StepModel, SlotValue, slots_agree, write_slots,
};
use crate::tiles::{
    is_default, is_default_dimension, lemma_variant_view, tile_models, variants_of, Tile,
    TileModel, TileVariant, VariantModel, DEFAULT_DIMENSION,
};

verus! {

/// The optional members of a variant, in the order they are written.
pub open spec fn variant_slots(v: VariantModel) -> Seq<Slot>
    decreases v, 0int,
{
    seq![
        (v.x is Exact, "x"@, JsonModel::Int(v.x->Exact_0 as int)),
        (v.x is Above, "minx"@, JsonModel::Int(v.x->Above_0 as int)),
        (v.x is Below, "maxx"@, JsonModel::Int(v.x->Below_0 as int)),
        (v.y is Exact, "y"@, JsonModel::Int(v.y->Exact_0 as int)),
        (v.y is Above, "miny"@, JsonModel::Int(v.y->Above_0 as int)),
        (v.y is Below, "maxy"@, JsonModel::Int(v.y->Below_0 as int)),
        (v.ident is Ref, "ref"@, JsonModel::Int(v.ident->Ref_0 as int)),
        (v.ident is Name, "name"@, JsonModel::Str(v.ident->Name_0)),
        (v.color is Some, "color"@, JsonModel::Str(v.color->0)),
        (v.toppad != 0, "toppad"@, JsonModel::Int(v.toppad as int)),
        (v.w != DEFAULT_DIMENSION, "w"@, JsonModel::Int(v.w as int)),
        (v.h != DEFAULT_DIMENSION, "h"@, JsonModel::Int(v.h as int)),
        (v.var.len() > 0, "var"@, JsonModel::Array(json_of_variants(v.var))),
    ]
}

/// The JSON form of a variant: an object with the members of
/// [`variant_slots`] that are set.
pub open spec fn json_of_variant(v: VariantModel) -> JsonModel
    decreases v, 1int,
{
    JsonModel::Object(slot_fields(variant_slots(v)))
}

/// The JSON forms of a list of variants.
pub open spec fn json_of_variants(vs: Seq<VariantModel>) -> Seq<JsonModel>
    decreases vs, 0int,
{
    Seq::new(
        vs.len(),
        |i: int|
            if 0 <= i < vs.len() {
                json_of_variant(vs[i])
            } else {
                JsonModel::Null
            },
    )
}

/// The members of a tile, in the order they are written; only `id` is
/// always there.
pub open spec fn tile_slots(t: TileModel) -> Seq<Slot> {
    seq![
        (true, "id"@, JsonModel::Int(t.id as int)),
        (t.ident is Ref, "ref"@, JsonModel::Int(t.ident->Ref_0 as int)),
        (t.ident is Name, "name"@, JsonModel::Str(t.ident->Name_0)),
        (t.color is Some, "color"@, JsonModel::Str(t.color->0)),
        (t.flags != 0, "flags"@, JsonModel::Int(t.flags as int)),
        (t.merge.len() > 0, "merge"@, JsonModel::Str(t.merge)),
        (t.blend.len() > 0, "blend"@, JsonModel::Str(t.blend)),
        (t.skipy != 0, "skipy"@, JsonModel::Int(t.skipy as int)),
        (t.toppad != 0, "toppad"@, JsonModel::Int(t.toppad as int)),
        (t.w != DEFAULT_DIMENSION, "w"@, JsonModel::Int(t.w as int)),
        (t.h != DEFAULT_DIMENSION, "h"@, JsonModel::Int(t.h as int)),
        (t.var.len() > 0, "var"@, JsonModel::Array(json_of_variants(t.var))),
    ]
}

/// The JSON form of a tile: an object with the members of [`tile_slots`]
/// that are set.
pub open spec fn json_of_tile(t: TileModel) -> JsonModel {
    JsonModel::Object(slot_fields(tile_slots(t)))
}

/// The JSON form of a list of tiles.
pub open spec fn json_of_tiles(ts: Seq<TileModel>) -> JsonModel {
    JsonModel::Array(Seq::new(ts.len(), |i: int| json_of_tile(ts[i])))
}

/// The coordinate that its three optional members give; when more than one
/// is present, the exact value wins over the lower bound, and that over the
/// upper bound.
pub open spec fn coord_from(exact: Option<int>, lower: Option<int>, upper: Option<int>) -> Coord {
    match exact {
        Some(n) => Coord::Exact(n as i32),
        None => match lower {
            Some(n) => Coord::Above(n as i32),
            None => match upper {
                Some(n) => Coord::Below(n as i32),
                None => Coord::Any,
            },
        },
    }
}

/// The identity that the optional `ref` and `name` members give; a
/// reference wins over a name.
pub open spec fn ident_from(reference: Option<int>, name: Option<Seq<char>>) -> IdentView {
    match reference {
        Some(r) => IdentView::Ref(r as i32),
        None => match name {
            Some(n) => IdentView::Name(n),
            None => IdentView::Unset,
        },
    }
}

/// The variants listed under the member `var`: none when it is absent.
pub open spec fn var_member(fs: Fields) -> Result<Seq<VariantModel>, Seq<StepModel>>
    decreases fs, 0int,
{
    let k = find(fs, "var"@);
    if 0 <= k < fs.len() {
        match fs[k].1 {
            JsonModel::Array(items) => match variants_of_json(items) {
                Ok(vs) => Ok(vs),
                Err(p) => Err(seq![StepModel::Key("var"@)] + p),
            },
            _ => Err(at_key("var"@)),
        }
    } else {
        Ok(Seq::empty())
    }
}

/// The variant that a JSON value describes, or the path to the first value
/// that does not fit.
pub open spec fn variant_of_json(j: JsonModel) -> Result<VariantModel, Seq<StepModel>>
    decreases j, 1int,
{
    match j {
        JsonModel::Object(fs) => {
            let lo = i32::MIN as int;
            let hi = i32::MAX as int;
            let x = read_opt_int(fs, "x"@, lo, hi);
            let minx = read_opt_int(fs, "minx"@, lo, hi);
            let maxx = read_opt_int(fs, "maxx"@, lo, hi);
            let y = read_opt_int(fs, "y"@, lo, hi);
            let miny = read_opt_int(fs, "miny"@, lo, hi);
            let maxy = read_opt_int(fs, "maxy"@, lo, hi);
            let reference = read_opt_int(fs, "ref"@, lo, hi);
            let name = read_opt_str(fs, "name"@);
            let color = read_opt_str(fs, "color"@);
            let toppad = read_int(fs, "toppad"@, lo, hi, Some(0));
            let w = read_int(fs, "w"@, 0, u32::MAX as int, Some(DEFAULT_DIMENSION as int));
            let h = read_int(fs, "h"@, 0, u32::MAX as int, Some(DEFAULT_DIMENSION as int));
            if x is None {
                Err(at_key("x"@))
            } else if minx is None {
                Err(at_key("minx"@))
            } else if maxx is None {
                Err(at_key("maxx"@))
            } else if y is None {
                Err(at_key("y"@))
            } else if miny is None {
                Err(at_key("miny"@))
            } else if maxy is None {
                Err(at_key("maxy"@))
            } else if reference is None {
                Err(at_key("ref"@))
            } else if name is None {
                Err(at_key("name"@))
            } else if color is None {
                Err(at_key("color"@))
            } else if toppad is None {
                Err(at_key("toppad"@))
            } else if w is None {
                Err(at_key("w"@))
            } else if h is None {
                Err(at_key("h"@))
            } else {
                match var_member(fs) {
                    Err(p) => Err(p),
                    Ok(vs) => Ok(
                        VariantModel {
                            x: coord_from(x->0, minx->0, maxx->0),
                            y: coord_from(y->0, miny->0, maxy->0),
                            ident: ident_from(reference->0, name->0),
                            color: color->0,
                            toppad: toppad->0 as i32,
                            w: w->0 as u32,
                            h: h->0 as u32,
                            var: vs,
                        },
                    ),
                }
            }
        },
        _ => Err(Seq::empty()),
    }
}

/// The variants that a list of JSON values describes, or the path to the
/// first value that does not fit.
pub open spec fn variants_of_json(items: Seq<JsonModel>) -> Result<Seq<VariantModel>, Seq<StepModel>>
    decreases items, 0int,
{
    if items.len() == 0 {
        Ok(Seq::empty())
    } else {
        let n = items.len() - 1;
        match variants_of_json(items.subrange(0, n)) {
            Err(p) => Err(p),
            Ok(vs) => match variant_of_json(items[n]) {
                Err(p) => Err(seq![StepModel::Index(n)] + p),
                Ok(v) => Ok(vs.push(v)),
            },
        }
    }
}


/// The tile that a JSON value describes, or the path to the first value
/// that does not fit.
pub open spec fn tile_of_json(j: JsonModel) -> Result<TileModel, Seq<StepModel>> {
    match j {
        JsonModel::Object(fs) => {
            let lo = i32::MIN as int;
            let hi = i32::MAX as int;
            let id = read_int(fs, "id"@, lo, hi, None);
            let reference = read_opt_int(fs, "ref"@, lo, hi);
            let name = read_opt_str(fs, "name"@);
            let color = read_opt_str(fs, "color"@);
            let flags = read_int(fs, "flags"@, 0, u16::MAX as int, Some(0));
            let merge = read_str(fs, "merge"@, false);
            let blend = read_str(fs, "blend"@, false);
            let skipy = read_int(fs, "skipy"@, 0, u32::MAX as int, Some(0));
            let toppad = read_int(fs, "toppad"@, lo, hi, Some(0));
            let w = read_int(fs, "w"@, 0, u32::MAX as int, Some(DEFAULT_DIMENSION as int));
            let h = read_int(fs, "h"@, 0, u32::MAX as int, Some(DEFAULT_DIMENSION as int));
            if id is None {
                Err(at_key("id"@))
            } else if reference is None {
                Err(at_key("ref"@))
            } else if name is None {
                Err(at_key("name"@))
            } else if color is None {
                Err(at_key("color"@))
            } else if flags is None {
                Err(at_key("flags"@))
            } else if merge is None {
                Err(at_key("merge"@))
            } else if blend is None {
                Err(at_key("blend"@))
            } else if skipy is None {
                Err(at_key("skipy"@))
            } else if toppad is None {
                Err(at_key("toppad"@))
            } else if w is None {
                Err(at_key("w"@))
            } else if h is None {
                Err(at_key("h"@))
            } else {
                match var_member(fs) {
                    Err(p) => Err(p),
                    Ok(vs) => Ok(
                        TileModel {
                            id: id->0 as i32,
                            ident: ident_from(reference->0, name->0),
                            color: color->0,
                            flags: flags->0 as u16,
                            merge: merge->0,
                            blend: blend->0,
                            skipy: skipy->0 as u32,
                            toppad: toppad->0 as i32,
                            w: w->0 as u32,
                            h: h->0 as u32,
                            var: vs,
                        },
                    ),
                }
            }
        },
        _ => Err(Seq::empty()),
    }
}

/// The tiles that a list of JSON values describes, or the path to the
/// first value that does not fit.
pub open spec fn tiles_of_items(items: Seq<JsonModel>) -> Result<Seq<TileModel>, Seq<StepModel>>
    decreases items.len(),
{
    if items.len() == 0 {
        Ok(Seq::empty())
    } else {
        let n = items.len() - 1;
        match tiles_of_items(items.subrange(0, n)) {
            Err(p) => Err(p),
            Ok(ts) => match tile_of_json(items[n]) {
                Err(p) => Err(seq![StepModel::Index(n)] + p),
                Ok(t) => Ok(ts.push(t)),
            },
        }
    }
}

/// The tiles that a JSON array describes, or the path to the first value
/// that does not fit.
pub open spec fn tiles_of_json(j: JsonModel) -> Result<Seq<TileModel>, Seq<StepModel>> {
    match j {
        JsonModel::Array(items) => tiles_of_items(items),
        _ => Err(Seq::empty()),
    }
}

/// The lengths and a few characters of the member names, enough to tell
/// any two of them apart.
proof fn lemma_key_text()
    ensures
        "id"@.len() == 2 && "id"@[0] == 'i' && "id"@[1] == 'd',
        "x"@.len() == 1 && "x"@[0] == 'x',
        "minx"@.len() == 4 && "minx"@[0] == 'm' && "minx"@[1] == 'i' && "minx"@[3] == 'x',
        "maxx"@.len() == 4 && "maxx"@[0] == 'm' && "maxx"@[1] == 'a' && "maxx"@[3] == 'x',
        "y"@.len() == 1 && "y"@[0] == 'y',
        "miny"@.len() == 4 && "miny"@[0] == 'm' && "miny"@[1] == 'i' && "miny"@[3] == 'y',
        "maxy"@.len() == 4 && "maxy"@[0] == 'm' && "maxy"@[1] == 'a' && "maxy"@[3] == 'y',
        "ref"@.len() == 3 && "ref"@[0] == 'r' && "ref"@[1] == 'e' && "ref"@[2] == 'f',
        "name"@.len() == 4 && "name"@[0] == 'n' && "name"@[1] == 'a' && "name"@[3] == 'e',
        "color"@.len() == 5 && "color"@[0] == 'c' && "color"@[1] == 'o' && "color"@[4] == 'r',
        "flags"@.len() == 5 && "flags"@[0] == 'f' && "flags"@[1] == 'l' && "flags"@[4] == 's',
        "merge"@.len() == 5 && "merge"@[0] == 'm' && "merge"@[1] == 'e' && "merge"@[4] == 'e',
        "blend"@.len() == 5 && "blend"@[0] == 'b' && "blend"@[1] == 'l' && "blend"@[4] == 'd',
        "skipy"@.len() == 5 && "skipy"@[0] == 's' && "skipy"@[1] == 'k' && "skipy"@[4] == 'y',
        "toppad"@.len() == 6 && "toppad"@[0] == 't' && "toppad"@[1] == 'o' && "toppad"@[5] == 'd',
        "w"@.len() == 1 && "w"@[0] == 'w',
        "h"@.len() == 1 && "h"@[0] == 'h',
        "var"@.len() == 3 && "var"@[0] == 'v' && "var"@[1] == 'a' && "var"@[2] == 'r',
{
    reveal_strlit("id");
    reveal_strlit("x");
    reveal_strlit("minx");
    reveal_strlit("maxx");
    reveal_strlit("y");
    reveal_strlit("miny");
    reveal_strlit("maxy");
    reveal_strlit("ref");
    reveal_strlit("name");
    reveal_strlit("color");
    reveal_strlit("flags");
    reveal_strlit("merge");
    reveal_strlit("blend");
    reveal_strlit("skipy");
    reveal_strlit("toppad");
    reveal_strlit("w");
    reveal_strlit("h");
    reveal_strlit("var");
}

/// Decoding the JSON form of a variant gives the variant back, at every
/// depth of nesting.
pub proof fn lemma_variant_round_trip(v: VariantModel)
    ensures
        variant_of_json(json_of_variant(v)) == Ok::<VariantModel, Seq<StepModel>>(v),
    decreases v, 1int,
{
    lemma_key_text();
    let slots = variant_slots(v);
    let fs = slot_fields(slots);
    assert(distinct_keys(slots));
    lemma_lookup_slot(slots, 0);
    lemma_lookup_slot(slots, 1);
    lemma_lookup_slot(slots, 2);
    lemma_lookup_slot(slots, 3);
    lemma_lookup_slot(slots, 4);
    lemma_lookup_slot(slots, 5);
    lemma_lookup_slot(slots, 6);
    lemma_lookup_slot(slots, 7);
    lemma_lookup_slot(slots, 8);
    lemma_lookup_slot(slots, 9);
    lemma_lookup_slot(slots, 10);
    lemma_lookup_slot(slots, 11);
    lemma_lookup_slot(slots, 12);
    lemma_find_lookup(fs, "var"@);
    lemma_variants_round_trip(v.var);
    if v.var.len() == 0 {
        assert(v.var =~= Seq::<VariantModel>::empty());
    }
    assert(var_member(fs) == Ok::<Seq<VariantModel>, Seq<StepModel>>(v.var));
}

/// Decoding the JSON forms of a list of variants gives the list back.
pub proof fn lemma_variants_round_trip(vs: Seq<VariantModel>)
    ensures
        variants_of_json(json_of_variants(vs)) == Ok::<Seq<VariantModel>, Seq<StepModel>>(vs),
    decreases vs, 0int,
{
    if vs.len() > 0 {
        let n = vs.len() - 1;
        assert(json_of_variants(vs).subrange(0, n) =~= json_of_variants(vs.subrange(0, n)));
        lemma_variants_round_trip(vs.subrange(0, n));
        lemma_variant_round_trip(vs[n]);
        assert(vs.subrange(0, n).push(vs[n]) =~= vs);
    } else {
        assert(vs =~= Seq::<VariantModel>::empty());
    }
}


/// Decoding the JSON form of a tile gives the tile back.
pub proof fn lemma_tile_round_trip(t: TileModel)
    ensures
        tile_of_json(json_of_tile(t)) == Ok::<TileModel, Seq<StepModel>>(t),
{
    lemma_key_text();
    let slots = tile_slots(t);
    let fs = slot_fields(slots);
    assert(distinct_keys(slots));
    lemma_lookup_slot(slots, 0);
    lemma_lookup_slot(slots, 1);
    lemma_lookup_slot(slots, 2);
    lemma_lookup_slot(slots, 3);
    lemma_lookup_slot(slots, 4);
    lemma_lookup_slot(slots, 5);
    lemma_lookup_slot(slots, 6);
    lemma_lookup_slot(slots, 7);
    lemma_lookup_slot(slots, 8);
    lemma_lookup_slot(slots, 9);
    lemma_lookup_slot(slots, 10);
    lemma_lookup_slot(slots, 11);
    lemma_find_lookup(fs, "var"@);
    lemma_variants_round_trip(t.var);
    if t.var.len() == 0 {
        assert(t.var =~= Seq::<VariantModel>::empty());
    }
    if t.merge.len() == 0 {
        assert(t.merge =~= Seq::<char>::empty());
    }
    if t.blend.len() == 0 {
        assert(t.blend =~= Seq::<char>::empty());
    }
    assert(var_member(fs) == Ok::<Seq<VariantModel>, Seq<StepModel>>(t.var));
}

/// Decoding the JSON form of a list of tiles gives the list back, whatever
/// the shape of each tile's tree of variants.
pub proof fn lemma_tiles_round_trip(ts: Seq<TileModel>)
    ensures
        tiles_of_json(json_of_tiles(ts)) == Ok::<Seq<TileModel>, Seq<StepModel>>(ts),
    decreases ts.len(),
{
    let items = Seq::new(ts.len(), |i: int| json_of_tile(ts[i]));
    if ts.len() > 0 {
        let n = ts.len() - 1;
        assert(items.subrange(0, n) =~= Seq::new(n as nat, |i: int| json_of_tile(ts.subrange(0, n)[i])));
        lemma_tiles_round_trip(ts.subrange(0, n));
        lemma_tile_round_trip(ts[n]);
        assert(ts.subrange(0, n).push(ts[n]) =~= ts);
    } else {
        assert(ts =~= Seq::<TileModel>::empty());
    }
}


pub proof fn lemma_variants_error(items: Seq<JsonModel>, i: int, p: Seq<StepModel>, n: int)
    requires
        0 <= i < n <= items.len(),
        variants_of_json(items.subrange(0, i)) is Ok,
        variant_of_json(items[i]) == Err::<VariantModel, Seq<StepModel>>(p),
    ensures
        variants_of_json(items.subrange(0, n)) == Err::<Seq<VariantModel>, Seq<StepModel>>(
            seq![StepModel::Index(i)] + p,
        ),
    decreases n,
{
    assert(items.subrange(0, n).subrange(0, n - 1) =~= items.subrange(0, n - 1));
    if n > i + 1 {
        lemma_variants_error(items, i, p, n - 1);
    }
}

pub proof fn lemma_tiles_error(items: Seq<JsonModel>, i: int, p: Seq<StepModel>, n: int)
    requires
        0 <= i < n <= items.len(),
        tiles_of_items(items.subrange(0, i)) is Ok,
        tile_of_json(items[i]) == Err::<TileModel, Seq<StepModel>>(p),
    ensures
        tiles_of_items(items.subrange(0, n)) == Err::<Seq<TileModel>, Seq<StepModel>>(
            seq![StepModel::Index(i)] + p,
        ),
    decreases n,
{
    assert(items.subrange(0, n).subrange(0, n - 1) =~= items.subrange(0, n - 1));
    if n > i + 1 {
        lemma_tiles_error(items, i, p, n - 1);
    }
}

/// A slot for an optional integer member.
pub(crate) fn opt_int_slot(key: &'static str, o: Option<i32>) -> (r: SlotValue)
    ensures
        r.0 == o is Some,
        r.1 == key,
        o is Some ==> r.2@ == JsonModel::Int(o->0 as int),
{
    match o {
        Some(n) => (true, key, Json::Int(n as i64)),
        None => (false, key, Json::Null),
    }
}

/// A slot for an optional string member.
pub(crate) fn opt_str_slot(key: &'static str, o: &Option<String>) -> (r: SlotValue)
    ensures
        r.0 == o is Some,
        r.1 == key,
        o is Some ==> r.2@ == JsonModel::Str(o->0@),
{
    match o {
        Some(s) => (true, key, Json::Str(s.clone())),
        None => (false, key, Json::Null),
    }
}

/// The JSON forms of a list of variants.
fn encode_variants(vs: &Vec<TileVariant>) -> (r: Json)
    ensures
        r@ == JsonModel::Array(json_of_variants(variants_of(vs@))),
    decreases vs, 0int,
{
    let mut items: Vec<Json> = Vec::new();
    let mut i: usize = 0;
    while i < vs.len()
        invariant
            i <= vs.len(),
            values_of(items@) =~= json_of_variants(variants_of(vs@)).subrange(0, i as int),
        decreases vs.len() - i,
    {
        let ghost prev = items@;
        let e = encode_variant(&vs[i]);
        items.push(e);
        assert(values_of(items@) =~= values_of(prev).push(e@));
        assert(json_of_variants(variants_of(vs@)).subrange(0, i + 1) =~= json_of_variants(
            variants_of(vs@),
        ).subrange(0, i as int).push(json_of_variant(vs@[i as int]@)));
        i = i + 1;
    }
    assert(json_of_variants(variants_of(vs@)).subrange(0, i as int) =~= json_of_variants(
        variants_of(vs@),
    ));
    proof {
        lemma_array_view(items);
    }
    Json::Array(items)
}

/// The JSON form of a variant; see [`json_of_variant`].
pub fn encode_variant(v: &TileVariant) -> (r: Json)
    ensures
        r@ == json_of_variant(v@),
    decreases v, 1int,
{
    proof {
        lemma_variant_view(*v);
    }
    let mut slots: Vec<SlotValue> = Vec::new();
    slots.push(opt_int_slot("x", v.x.exact()));
    slots.push(opt_int_slot("minx", v.x.lower()));
    slots.push(opt_int_slot("maxx", v.x.upper()));
    slots.push(opt_int_slot("y", v.y.exact()));
    slots.push(opt_int_slot("miny", v.y.lower()));
    slots.push(opt_int_slot("maxy", v.y.upper()));
    slots.push(opt_int_slot("ref", v.ident.reference()));
    slots.push(opt_str_slot("name", &v.ident.name()));
    slots.push(opt_str_slot("color", &v.color));
    slots.push((!is_default(&v.toppad), "toppad", Json::Int(v.toppad as i64)));
    slots.push((!is_default_dimension(&v.w), "w", Json::Int(v.w as i64)));
    slots.push((!is_default_dimension(&v.h), "h", Json::Int(v.h as i64)));
    if v.var.len() > 0 {
        slots.push((true, "var", encode_variants(&v.var)));
    } else {
        slots.push((false, "var", Json::Null));
    }
    let ghost spec = variant_slots(v@);
    assert(slots_agree(slots@, spec));
    let members = write_slots(slots, Ghost(spec));
    proof {
        lemma_object_view(members);
    }
    Json::Object(members)
}

/// The JSON form of a tile; see [`json_of_tile`].
pub fn encode_tile(t: &Tile) -> (r: Json)
    ensures
        r@ == json_of_tile(t@),
{
    let mut slots: Vec<SlotValue> = Vec::new();
    slots.push((true, "id", Json::Int(t.id as i64)));
    slots.push(opt_int_slot("ref", t.ident.reference()));
    slots.push(opt_str_slot("name", &t.ident.name()));
    slots.push(opt_str_slot("color", &t.color));
    slots.push((!is_default(&t.flags), "flags", Json::Int(t.flags as i64)));
    slots.push((!is_default(&t.merge), "merge", Json::Str(t.merge.clone())));
    slots.push((!is_default(&t.blend), "blend", Json::Str(t.blend.clone())));
    slots.push((!is_default(&t.skipy), "skipy", Json::Int(t.skipy as i64)));
    slots.push((!is_default(&t.toppad), "toppad", Json::Int(t.toppad as i64)));
    slots.push((!is_default_dimension(&t.w), "w", Json::Int(t.w as i64)));
    slots.push((!is_default_dimension(&t.h), "h", Json::Int(t.h as i64)));
    if t.var.len() > 0 {
        slots.push((true, "var", encode_variants(&t.var)));
    } else {
        slots.push((false, "var", Json::Null));
    }
    let ghost spec = tile_slots(t@);
    assert(slots_agree(slots@, spec));
    let members = write_slots(slots, Ghost(spec));
    proof {
        lemma_object_view(members);
    }
    Json::Object(members)
}

/// The JSON array of a list of tiles; see [`json_of_tiles`].
pub fn encode_tiles(ts: &Vec<Tile>) -> (r: Json)
    ensures
        r@ == json_of_tiles(tile_models(ts@)),
{
    let ghost models = tile_models(ts@);
    let mut items: Vec<Json> = Vec::new();
    let mut i: usize = 0;
    while i < ts.len()
        invariant
            i <= ts.len(),
            models == tile_models(ts@),
            values_of(items@) =~= Seq::new(i as nat, |k: int| json_of_tile(models[k])),
        decreases ts.len() - i,
    {
        let ghost prev = items@;
        let e = encode_tile(&ts[i]);
        items.push(e);
        assert(values_of(items@) =~= values_of(prev).push(e@));
        i = i + 1;
    }
    proof {
        lemma_array_view(items);
    }
    Json::Array(items)
}


/// The coordinate of three optional members; see [`coord_from`].
fn coord_of(exact: Option<i64>, lower: Option<i64>, upper: Option<i64>) -> (r: Coord)
    requires
        exact is Some ==> i32::MIN <= exact->0 <= i32::MAX,
        lower is Some ==> i32::MIN <= lower->0 <= i32::MAX,
        upper is Some ==> i32::MIN <= upper->0 <= i32::MAX,
    ensures
        r == coord_from(opt_int_of(exact), opt_int_of(lower), opt_int_of(upper)),
{
    match exact {
        Some(n) => Coord::Exact(n as i32),
        None => match lower {
            Some(n) => Coord::Above(n as i32),
            None => match upper {
                Some(n) => Coord::Below(n as i32),
                None => Coord::Any,
            },
        },
    }
}

/// The identity of the optional `ref` and `name` members; see [`ident_from`].
pub(crate) fn ident_of(reference: Option<i64>, name: Option<String>) -> (r: Ident)
    requires
        reference is Some ==> i32::MIN <= reference->0 <= i32::MAX,
    ensures
        r@ == ident_from(opt_int_of(reference), opt_str_of(name)),
{
    match reference {
        Some(n) => Ident::Ref(n as i32),
        None => match name {
            Some(s) => Ident::Name(s),
            None => Ident::Unset,
        },
    }
}

/// The variants under the member `var`; see [`var_member`].
fn decode_var_member(j: &Json, members: &Vec<Member>) -> (r: Result<Vec<TileVariant>, DecodeError>)
    requires
        *j == Json::Object(*members),
    ensures
        match var_member(fields_of(members@)) {
            Ok(m) => r matches Ok(vs) && variants_of(vs@) == m,
            Err(p) => r matches Err(e) && e@ == p,
        },
    decreases j, 0int,
{
    let ghost fs = fields_of(members@);
    let k = find_member(members, "var");
    proof {
        lemma_find_lookup(fs, "var"@);
    }
    if k < members.len() {
        match &members[k].1 {
            Json::Array(items) => {
                proof {
                    lemma_array_view(*items);
                    broadcast use vstd::std_specs::vec::axiom_vec_index_decreases;

                    assert(decreases_to!(*j => (*j)->Object_0));
                    assert(decreases_to!(*members => members[k as int]));
                    assert(decreases_to!(members[k as int] => members[k as int].1));
                    assert(decreases_to!(members[k as int].1 => members[k as int].1->Array_0));
                    assert(decreases_to!(*j => *items));
                }
                match decode_variants(items) {
                    Ok(vs) => Ok(vs),
                    Err(e) => Err(error_within(Step::Key("var".to_owned()), e)),
                }
            },
            _ => Err(error_at("var")),
        }
    } else {
        let r: Vec<TileVariant> = Vec::new();
        assert(variants_of(r@) =~= Seq::<VariantModel>::empty());
        Ok(r)
    }
}

/// Decodes a list of variants; see [`variants_of_json`].
fn decode_variants(items: &Vec<Json>) -> (r: Result<Vec<TileVariant>, DecodeError>)
    ensures
        match variants_of_json(values_of(items@)) {
            Ok(m) => r matches Ok(vs) && variants_of(vs@) == m,
            Err(p) => r matches Err(e) && e@ == p,
        },
    decreases items, 1int,
{
    let ghost all = values_of(items@);
    let mut out: Vec<TileVariant> = Vec::new();
    let mut i: usize = 0;
    assert(all.subrange(0, 0) =~= Seq::<JsonModel>::empty());
    assert(variants_of(out@) =~= Seq::<VariantModel>::empty());
    while i < items.len()
        invariant
            i <= items.len(),
            all == values_of(items@),
            variants_of_json(all.subrange(0, i as int)) == Ok::<Seq<VariantModel>, Seq<StepModel>>(
                variants_of(out@),
            ),
        decreases items.len() - i,
    {
        assert(all.subrange(0, i + 1).subrange(0, i as int) =~= all.subrange(0, i as int));
        match decode_variant(&items[i]) {
            Ok(v) => {
                let ghost prev = out@;
                out.push(v);
                assert(variants_of(out@) =~= variants_of(prev).push(v@));
            },
            Err(e) => {
                proof {
                    lemma_variants_error(all, i as int, e@, all.len() as int);
                    assert(all.subrange(0, all.len() as int) =~= all);
                }
                return Err(error_within(Step::Index(i), e));
            },
        }
        i = i + 1;
    }
    assert(all.subrange(0, i as int) =~= all);
    Ok(out)
}

/// Decodes a variant; see [`variant_of_json`].
pub fn decode_variant(j: &Json) -> (r: Result<TileVariant, DecodeError>)
    ensures
        match variant_of_json(j@) {
            Ok(m) => r matches Ok(v) && v@ == m,
            Err(p) => r matches Err(e) && e@ == p,
        },
    decreases j, 2int,
{
    let lo = i32::MIN as i64;
    let hi = i32::MAX as i64;
    match j {
        Json::Object(members) => {
            proof {
                lemma_object_view(*members);
            }
            let x = match opt_int_field(members, "x", lo, hi) {
                Ok(o) => o,
                Err(e) => return Err(e),
            };
            let minx = match opt_int_field(members, "minx", lo, hi) {
                Ok(o) => o,
                Err(e) => return Err(e),
            };
            let maxx = match opt_int_field(members, "maxx", lo, hi) {
                Ok(o) => o,
                Err(e) => return Err(e),
            };
            let y = match opt_int_field(members, "y", lo, hi) {
                Ok(o) => o,
                Err(e) => return Err(e),
            };
            let miny = match opt_int_field(members, "miny", lo, hi) {
                Ok(o) => o,
                Err(e) => return Err(e),
            };
            let maxy = match opt_int_field(members, "maxy", lo, hi) {
                Ok(o) => o,
                Err(e) => return Err(e),
            };
            let reference = match opt_int_field(members, "ref", lo, hi) {
                Ok(o) => o,
                Err(e) => return Err(e),
            };
            let name = match opt_str_field(members, "name") {
                Ok(o) => o,
                Err(e) => return Err(e),
            };
            let color = match opt_str_field(members, "color") {
                Ok(o) => o,
                Err(e) => return Err(e),
            };
            let toppad = match int_field(members, "toppad", lo, hi, Some(0)) {
                Ok(n) => n,
                Err(e) => return Err(e),
            };
            let w = match int_field(members, "w", 0, u32::MAX as i64, Some(DEFAULT_DIMENSION as i64)) {
                Ok(n) => n,
                Err(e) => return Err(e),
            };
            let h = match int_field(members, "h", 0, u32::MAX as i64, Some(DEFAULT_DIMENSION as i64)) {
                Ok(n) => n,
                Err(e) => return Err(e),
            };
            let var = match decode_var_member(j, members) {
                Ok(vs) => vs,
                Err(e) => return Err(e),
            };
            let v = TileVariant {
                x: coord_of(x, minx, maxx),
                y: coord_of(y, miny, maxy),
                ident: ident_of(reference, name),
                color,
                toppad: toppad as i32,
                w: w as u32,
                h: h as u32,
                var,
            };
            proof {
                lemma_variant_view(v);
            }
            Ok(v)
        },
        _ => Err(error_here()),
    }
}


/// Decodes a tile; see [`tile_of_json`].
pub fn decode_tile(j: &Json) -> (r: Result<Tile, DecodeError>)
    ensures
        match tile_of_json(j@) {
            Ok(m) => r matches Ok(t) && t@ == m,
            Err(p) => r matches Err(e) && e@ == p,
        },
{
    let lo = i32::MIN as i64;
    let hi = i32::MAX as i64;
    match j {
        Json::Object(members) => {
            proof {
                lemma_object_view(*members);
            }
            let id = match int_field(members, "id", lo, hi, None) {
                Ok(n) => n,
                Err(e) => return Err(e),
            };
            let reference = match opt_int_field(members, "ref", lo, hi) {
                Ok(o) => o,
                Err(e) => return Err(e),
            };
            let name = match opt_str_field(members, "name") {
                Ok(o) => o,
                Err(e) => return Err(e),
            };
            let color = match opt_str_field(members, "color") {
                Ok(o) => o,
                Err(e) => return Err(e),
            };
            let flags = match int_field(members, "flags", 0, u16::MAX as i64, Some(0)) {
                Ok(n) => n,
                Err(e) => return Err(e),
            };
            let merge = match str_field(members, "merge", false) {
                Ok(s) => s,
                Err(e) => return Err(e),
            };
            let blend = match str_field(members, "blend", false) {
                Ok(s) => s,
                Err(e) => return Err(e),
            };
            let skipy = match int_field(members, "skipy", 0, u32::MAX as i64, Some(0)) {
                Ok(n) => n,
                Err(e) => return Err(e),
            };
            let toppad = match int_field(members, "toppad", lo, hi, Some(0)) {
                Ok(n) => n,
                Err(e) => return Err(e),
            };
            let w = match int_field(members, "w", 0, u32::MAX as i64, Some(DEFAULT_DIMENSION as i64)) {
                Ok(n) => n,
                Err(e) => return Err(e),
            };
            let h = match int_field(members, "h", 0, u32::MAX as i64, Some(DEFAULT_DIMENSION as i64)) {
                Ok(n) => n,
                Err(e) => return Err(e),
            };
            let var = match decode_var_member(j, members) {
                Ok(vs) => vs,
                Err(e) => return Err(e),
            };
            Ok(
                Tile {
                    id: id as i32,
                    ident: ident_of(reference, name),
                    color,
                    flags: flags as u16,
                    merge,
                    blend,
                    skipy: skipy as u32,
                    toppad: toppad as i32,
                    w: w as u32,
                    h: h as u32,
                    var,
                },
            )
        },
        _ => Err(error_here()),
    }
}

/// Decodes a JSON array of tiles; see [`tiles_of_json`]. Nothing is kept
/// of a list that does not decode whole.
pub fn decode_tiles(j: &Json) -> (r: Result<Vec<Tile>, DecodeError>)
    ensures
        match tiles_of_json(j@) {
            Ok(m) => r matches Ok(ts) && tile_models(ts@) == m,
            Err(p) => r matches Err(e) && e@ == p,
        },
{
    match j {
        Json::Array(items) => {
            proof {
                lemma_array_view(*items);
            }
            let ghost all = values_of(items@);
            let mut out: Vec<Tile> = Vec::new();
            let mut i: usize = 0;
            assert(all.subrange(0, 0) =~= Seq::<JsonModel>::empty());
            assert(tile_models(out@) =~= Seq::<TileModel>::empty());
            while i < items.len()
                invariant
                    i <= items.len(),
                    all == values_of(items@),
                    j@ == JsonModel::Array(all),
                    tiles_of_items(all.subrange(0, i as int)) == Ok::<Seq<TileModel>, Seq<StepModel>>(
                        tile_models(out@),
                    ),
                decreases items.len() - i,
            {
                assert(all.subrange(0, i + 1).subrange(0, i as int) =~= all.subrange(0, i as int));
                match decode_tile(&items[i]) {
                    Ok(t) => {
                        let ghost prev = out@;
                        out.push(t);
                        assert(tile_models(out@) =~= tile_models(prev).push(t@));
                    },
                    Err(e) => {
                        proof {
                            lemma_tiles_error(all, i as int, e@, all.len() as int);
                            assert(all.subrange(0, all.len() as int) =~= all);
                        }
                        return Err(error_within(Step::Index(i), e));
                    },
                }
                i = i + 1;
            }
            assert(all.subrange(0, i as int) =~= all);
            Ok(out)
        },
        _ => Err(error_here()),
    }
}


/// A tile's field that holds its default has no member in the JSON form,
/// and a field that does not has one; `id` is always written.
pub proof fn lemma_tile_defaults_omitted(t: TileModel)
    ensures
        ({
            let fs = json_of_tile(t)->Object_0;
            &&& lookup(fs, "id"@) is Some
            &&& (lookup(fs, "ref"@) is None <==> !(t.ident is Ref))
            &&& (lookup(fs, "name"@) is None <==> !(t.ident is Name))
            &&& (lookup(fs, "color"@) is None <==> t.color is None)
            &&& (lookup(fs, "flags"@) is None <==> t.flags == 0)
            &&& (lookup(fs, "merge"@) is None <==> t.merge.len() == 0)
            &&& (lookup(fs, "blend"@) is None <==> t.blend.len() == 0)
            &&& (lookup(fs, "skipy"@) is None <==> t.skipy == 0)
            &&& (lookup(fs, "toppad"@) is None <==> t.toppad == 0)
            &&& (lookup(fs, "w"@) is None <==> t.w == DEFAULT_DIMENSION)
            &&& (lookup(fs, "h"@) is None <==> t.h == DEFAULT_DIMENSION)
            &&& (lookup(fs, "var"@) is None <==> t.var.len() == 0)
        }),
{
    lemma_key_text();
    let slots = tile_slots(t);
    assert(distinct_keys(slots));
    lemma_lookup_slot(slots, 0);
    lemma_lookup_slot(slots, 1);
    lemma_lookup_slot(slots, 2);
    lemma_lookup_slot(slots, 3);
    lemma_lookup_slot(slots, 4);
    lemma_lookup_slot(slots, 5);
    lemma_lookup_slot(slots, 6);
    lemma_lookup_slot(slots, 7);
    lemma_lookup_slot(slots, 8);
    lemma_lookup_slot(slots, 9);
    lemma_lookup_slot(slots, 10);
    lemma_lookup_slot(slots, 11);
}

/// A variant's field that holds its default has no member in the JSON form,
/// and a field that does not has one.
pub proof fn lemma_variant_defaults_omitted(v: VariantModel)
    ensures
        ({
            let fs = json_of_variant(v)->Object_0;
            &&& (lookup(fs, "x"@) is None <==> !(v.x is Exact))
            &&& (lookup(fs, "minx"@) is None <==> !(v.x is Above))
            &&& (lookup(fs, "maxx"@) is None <==> !(v.x is Below))
            &&& (lookup(fs, "y"@) is None <==> !(v.y is Exact))
            &&& (lookup(fs, "miny"@) is None <==> !(v.y is Above))
            &&& (lookup(fs, "maxy"@) is None <==> !(v.y is Below))
            &&& (lookup(fs, "ref"@) is None <==> !(v.ident is Ref))
            &&& (lookup(fs, "name"@) is None <==> !(v.ident is Name))
            &&& (lookup(fs, "color"@) is None <==> v.color is None)
            &&& (lookup(fs, "toppad"@) is None <==> v.toppad == 0)
            &&& (lookup(fs, "w"@) is None <==> v.w == DEFAULT_DIMENSION)
            &&& (lookup(fs, "h"@) is None <==> v.h == DEFAULT_DIMENSION)
            &&& (lookup(fs, "var"@) is None <==> v.var.len() == 0)
        }),
{
    lemma_key_text();
    let slots = variant_slots(v);
    assert(distinct_keys(slots));
    lemma_lookup_slot(slots, 0);
    lemma_lookup_slot(slots, 1);
    lemma_lookup_slot(slots, 2);
    lemma_lookup_slot(slots, 3);
    lemma_lookup_slot(slots, 4);
    lemma_lookup_slot(slots, 5);
    lemma_lookup_slot(slots, 6);
    lemma_lookup_slot(slots, 7);
    lemma_lookup_slot(slots, 8);
    lemma_lookup_slot(slots, 9);
    lemma_lookup_slot(slots, 10);
    lemma_lookup_slot(slots, 11);
    lemma_lookup_slot(slots, 12);
}

/// Decoding a tile object that lacks an optional member gives that field
/// its default.
pub proof fn lemma_tile_absent_members(fs: Fields)
    requires
        tile_of_json(JsonModel::Object(fs)) is Ok,
    ensures
        ({
            let t = tile_of_json(JsonModel::Object(fs))->Ok_0;
            &&& lookup(fs, "ref"@) is None && lookup(fs, "name"@) is None ==> t.ident is Unset
            &&& lookup(fs, "color"@) is None ==> t.color is None
            &&& lookup(fs, "flags"@) is None ==> t.flags == 0
            &&& lookup(fs, "merge"@) is None ==> t.merge.len() == 0
            &&& lookup(fs, "blend"@) is None ==> t.blend.len() == 0
            &&& lookup(fs, "skipy"@) is None ==> t.skipy == 0
            &&& lookup(fs, "toppad"@) is None ==> t.toppad == 0
            &&& lookup(fs, "w"@) is None ==> t.w == DEFAULT_DIMENSION
            &&& lookup(fs, "h"@) is None ==> t.h == DEFAULT_DIMENSION
            &&& lookup(fs, "var"@) is None ==> t.var.len() == 0
        }),
{
    lemma_find_lookup(fs, "var"@);
}

/// Decoding a variant object that lacks an optional member gives that
/// field its default.
pub proof fn lemma_variant_absent_members(fs: Fields)
    requires
        variant_of_json(JsonModel::Object(fs)) is Ok,
    ensures
        ({
            let v = variant_of_json(JsonModel::Object(fs))->Ok_0;
            &&& lookup(fs, "x"@) is None && lookup(fs, "minx"@) is None && lookup(fs, "maxx"@) is None
                ==> v.x is Any
            &&& lookup(fs, "y"@) is None && lookup(fs, "miny"@) is None && lookup(fs, "maxy"@) is None
                ==> v.y is Any
            &&& lookup(fs, "ref"@) is None && lookup(fs, "name"@) is None ==> v.ident is Unset
            &&& lookup(fs, "color"@) is None ==> v.color is None
            &&& lookup(fs, "toppad"@) is None ==> v.toppad == 0
            &&& lookup(fs, "w"@) is None ==> v.w == DEFAULT_DIMENSION
            &&& lookup(fs, "h"@) is None ==> v.h == DEFAULT_DIMENSION
            &&& lookup(fs, "var"@) is None ==> v.var.len() == 0
        }),
{
    lemma_find_lookup(fs, "var"@);
}

} // verus!
