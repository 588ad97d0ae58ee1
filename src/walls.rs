//! Walls: an id, a reference or a name, a color, and blend and size settings.
use vstd::prelude::*;
use crate::choice::{Ident, IdentView};
use crate::tile_codec::{ident_from, ident_of, opt_int_slot, opt_str_slot};
use crate::json::{
    at_key, distinct_keys, error_here, int_field, lemma_lookup_slot, lemma_object_view,
    opt_int_field, opt_str_field, read_int, read_opt_int, read_opt_str, read_str, slot_fields,
    slots_agree, str_field, write_slots, DecodeError, Json, JsonModel, Slot, SlotValue, StepModel,
};
use crate::table::{json_of_list, lemma_list_round_trip, list_of_json, table_step, Record, RowFrame, Table};

verus! {

/// Whether an integer field holds its default, zero; such a field is left
/// out of the JSON form.
pub fn is_default(t: &i32) -> (r: bool)
    ensures
        r == (*t == 0),
{
    *t == 0
}

/// One wall, known by a reference (`ref`) or a name.
#[derive(Clone, Debug)]
pub struct Wall {
    pub id: i32,
    pub ident: Ident,
    pub color: String,
    pub blend: i32,
    pub large: i32,
}

/// The mathematical form of a [`Wall`].
pub struct WallModel {
    pub id: i32,
    pub ident: IdentView,
    pub color: Seq<char>,
    pub blend: i32,
    pub large: i32,
}

impl View for Wall {
    type V = WallModel;

    open spec fn view(&self) -> WallModel {
        WallModel {
            id: self.id,
            ident: self.ident@,
            color: self.color@,
            blend: self.blend,
            large: self.large,
        }
    }
}

/// The members of a record, in the order they are written.
pub open spec fn record_slots(r: WallModel) -> Seq<Slot> {
    seq![
        (true, "id"@, JsonModel::Int(r.id as int)),
        (r.ident is Ref, "ref"@, JsonModel::Int(r.ident->Ref_0 as int)),
        (r.ident is Name, "name"@, JsonModel::Str(r.ident->Name_0)),
        (true, "color"@, JsonModel::Str(r.color)),
        (r.blend != 0, "blend"@, JsonModel::Int(r.blend as int)),
        (r.large != 0, "large"@, JsonModel::Int(r.large as int)),
    ]
}

/// The record that a JSON value describes, or the path to the first value
/// that does not fit.
pub open spec fn record_of_json(j: JsonModel) -> Result<WallModel, Seq<StepModel>> {
    match j {
        JsonModel::Object(fs) => {
            let id = read_int(fs, "id"@, i32::MIN as int, i32::MAX as int, None);
            let ident_ref = read_opt_int(fs, "ref"@, i32::MIN as int, i32::MAX as int);
            let ident_name = read_opt_str(fs, "name"@);
            let color = read_str(fs, "color"@, true);
            let blend = read_int(fs, "blend"@, i32::MIN as int, i32::MAX as int, Some(0));
            let large = read_int(fs, "large"@, i32::MIN as int, i32::MAX as int, Some(0));
            if id is None {
                Err(at_key("id"@))
            } else if ident_ref is None {
                Err(at_key("ref"@))
            } else if ident_name is None {
                Err(at_key("name"@))
            } else if color is None {
                Err(at_key("color"@))
            } else if blend is None {
                Err(at_key("blend"@))
            } else if large is None {
                Err(at_key("large"@))
            } else {
                Ok(
                    WallModel {
                        id: id->0 as i32,
                        ident: ident_from(ident_ref->0, ident_name->0),
                        color: color->0,
                        blend: blend->0 as i32,
                        large: large->0 as i32,
                    },
                )
            }
        },
        _ => Err(Seq::empty()),
    }
}

impl Record for Wall {
    open spec fn to_json(r: WallModel) -> JsonModel {
        JsonModel::Object(slot_fields(record_slots(r)))
    }

    open spec fn of_json(j: JsonModel) -> Result<WallModel, Seq<StepModel>> {
        record_of_json(j)
    }

    open spec fn blank_spec() -> WallModel {
        WallModel {
            id: 0,
            ident: IdentView::Unset,
            color: Seq::empty(),
            blend: 0,
            large: 0,
        }
    }

    fn encode(&self) -> (r: Json) {
        let mut slots: Vec<SlotValue> = Vec::new();
        slots.push((true, "id", Json::Int(self.id as i64)));
        slots.push(opt_int_slot("ref", self.ident.reference()));
        slots.push(opt_str_slot("name", &self.ident.name()));
        slots.push((true, "color", Json::Str(self.color.clone())));
        slots.push((!is_default(&self.blend), "blend", Json::Int(self.blend as i64)));
        slots.push((!is_default(&self.large), "large", Json::Int(self.large as i64)));
        let ghost spec = record_slots(self@);
        assert(slots_agree(slots@, spec));
        let members = write_slots(slots, Ghost(spec));
        proof {
            lemma_object_view(members);
        }
        Json::Object(members)
    }

    fn decode(j: &Json) -> (r: Result<Wall, DecodeError>) {
        let lo = i32::MIN as i64;
        let hi = i32::MAX as i64;
        match j {
            Json::Object(members) => {
                proof {
                    lemma_object_view(*members);
                }
                let id = match int_field(members, "id", lo, hi, None) {
                    Ok(x) => x,
                    Err(e) => return Err(e),
                };
                let ident_ref = match opt_int_field(members, "ref", lo, hi) {
                    Ok(x) => x,
                    Err(e) => return Err(e),
                };
                let ident_name = match opt_str_field(members, "name") {
                    Ok(x) => x,
                    Err(e) => return Err(e),
                };
                let color = match str_field(members, "color", true) {
                    Ok(x) => x,
                    Err(e) => return Err(e),
                };
                let blend = match int_field(members, "blend", lo, hi, Some(0)) {
                    Ok(x) => x,
                    Err(e) => return Err(e),
                };
                let large = match int_field(members, "large", lo, hi, Some(0)) {
                    Ok(x) => x,
                    Err(e) => return Err(e),
                };
                Ok(
                    Wall {
                        id: id as i32,
                        ident: ident_of(ident_ref, ident_name),
                        color,
                        blend: blend as i32,
                        large: large as i32,
                    },
                )
            },
            _ => Err(error_here()),
        }
    }

    fn blank() -> (r: Wall) {
        Wall {
            id: 0,
            ident: Ident::Unset,
            color: String::new(),
            blend: 0,
            large: 0,
        }
    }
}

/// The lengths and a few characters of the member names, enough to tell
/// any two of them apart.
proof fn lemma_key_text()
    ensures
        "id"@.len() == 2 && "id"@[0] == 'i' && "id"@[1] == 'd',
        "ref"@.len() == 3 && "ref"@[0] == 'r' && "ref"@[1] == 'e' && "ref"@[2] == 'f',
        "name"@.len() == 4 && "name"@[0] == 'n' && "name"@[1] == 'a' && "name"@[3] == 'e',
        "color"@.len() == 5 && "color"@[0] == 'c' && "color"@[1] == 'o' && "color"@[4] == 'r',
        "blend"@.len() == 5 && "blend"@[0] == 'b' && "blend"@[1] == 'l' && "blend"@[4] == 'd',
        "large"@.len() == 5 && "large"@[0] == 'l' && "large"@[1] == 'a' && "large"@[4] == 'e',
{
    reveal_strlit("id");
    reveal_strlit("ref");
    reveal_strlit("name");
    reveal_strlit("color");
    reveal_strlit("blend");
    reveal_strlit("large");
}

/// Decoding the JSON form of a record gives the record back.
pub proof fn lemma_record_round_trip(r: WallModel)
    ensures
        record_of_json(Wall::to_json(r)) == Ok::<WallModel, Seq<StepModel>>(r),
{
    lemma_key_text();
    let s = record_slots(r);
    assert(distinct_keys(s));
    lemma_lookup_slot(s, 0);
    lemma_lookup_slot(s, 1);
    lemma_lookup_slot(s, 2);
    lemma_lookup_slot(s, 3);
    lemma_lookup_slot(s, 4);
    lemma_lookup_slot(s, 5);
}

/// Decoding the JSON array of a list of records gives the list back.
pub proof fn lemma_round_trip(rs: Seq<WallModel>)
    ensures
        list_of_json::<Wall>(json_of_list::<Wall>(rs)) == Ok::<Seq<WallModel>, Seq<StepModel>>(rs),
{
    assert forall|r: WallModel| #[trigger] Wall::of_json(Wall::to_json(r)) == Ok::<WallModel, Seq<StepModel>>(r) by {
        lemma_record_round_trip(r);
    }
    lemma_list_round_trip::<Wall>(rs);
}

/// The walls being edited.
pub struct Walls {
    pub table: Table<Wall>,
}

impl Walls {
    /// An empty collection.
    pub fn new() -> (r: Walls)
        ensures
            r.table.rows() == Seq::<WallModel>::empty(),
            r.table.pending() is None,
    {
        Walls { table: Table::new() }
    }

    /// Carries out one frame of the table view; see [`Table::frame`]. An
    /// added row has every field at its default.
    pub fn view(&mut self, frame: RowFrame)
        ensures
            (final(self).table.rows(), final(self).table.pending()) == table_step(
                old(self).table.rows(),
                old(self).table.pending(),
                if frame.add {
                    Some(Wall::blank_spec())
                } else {
                    None
                },
                frame,
            ),
    {
        let add = if frame.add {
            Some(Wall::blank())
        } else {
            None
        };
        self.table.frame(add, frame);
    }
}

} // verus!
