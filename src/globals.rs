//! Global values: an identifier and a color each.
use vstd::prelude::*;
use crate::json::{
    at_key, distinct_keys, error_here, lemma_lookup_slot, lemma_object_view, read_str,
    slot_fields, slots_agree, str_field, write_slots, DecodeError, Json, JsonModel, Slot,
    SlotValue, StepModel,
};
use crate::table::{json_of_list, lemma_list_round_trip, list_of_json, table_step, Record, RowFrame, Table};

verus! {

/// One global value.
#[derive(Clone, Debug)]
pub struct Global {
    pub id: String,
    pub color: String,
}

/// The mathematical form of a [`Global`].
pub struct GlobalModel {
    pub id: Seq<char>,
    pub color: Seq<char>,
}

impl View for Global {
    type V = GlobalModel;

    open spec fn view(&self) -> GlobalModel {
        GlobalModel {
            id: self.id@,
            color: self.color@,
        }
    }
}

/// The members of a record, in the order they are written.
pub open spec fn record_slots(r: GlobalModel) -> Seq<Slot> {
    seq![
        (true, "id"@, JsonModel::Str(r.id)),
        (true, "color"@, JsonModel::Str(r.color)),
    ]
}

/// The record that a JSON value describes, or the path to the first value
/// that does not fit.
pub open spec fn record_of_json(j: JsonModel) -> Result<GlobalModel, Seq<StepModel>> {
    match j {
        JsonModel::Object(fs) => {
            let id = read_str(fs, "id"@, true);
            let color = read_str(fs, "color"@, true);
            if id is None {
                Err(at_key("id"@))
            } else if color is None {
                Err(at_key("color"@))
            } else {
                Ok(
                    GlobalModel {
                        id: id->0,
                        color: color->0,
                    },
                )
            }
        },
        _ => Err(Seq::empty()),
    }
}

impl Record for Global {
    open spec fn to_json(r: GlobalModel) -> JsonModel {
        JsonModel::Object(slot_fields(record_slots(r)))
    }

    open spec fn of_json(j: JsonModel) -> Result<GlobalModel, Seq<StepModel>> {
        record_of_json(j)
    }

    open spec fn blank_spec() -> GlobalModel {
        GlobalModel {
            id: Seq::empty(),
            color: Seq::empty(),
        }
    }

    fn encode(&self) -> (r: Json) {
        let mut slots: Vec<SlotValue> = Vec::new();
        slots.push((true, "id", Json::Str(self.id.clone())));
        slots.push((true, "color", Json::Str(self.color.clone())));
        let ghost spec = record_slots(self@);
        assert(slots_agree(slots@, spec));
        let members = write_slots(slots, Ghost(spec));
        proof {
            lemma_object_view(members);
        }
        Json::Object(members)
    }

    fn decode(j: &Json) -> (r: Result<Global, DecodeError>) {
        let lo = i32::MIN as i64;
        let hi = i32::MAX as i64;
        match j {
            Json::Object(members) => {
                proof {
                    lemma_object_view(*members);
                }
                let id = match str_field(members, "id", true) {
                    Ok(x) => x,
                    Err(e) => return Err(e),
                };
                let color = match str_field(members, "color", true) {
                    Ok(x) => x,
                    Err(e) => return Err(e),
                };
                Ok(
                    Global {
                        id,
                        color,
                    },
                )
            },
            _ => Err(error_here()),
        }
    }

    fn blank() -> (r: Global) {
        Global {
            id: String::new(),
            color: String::new(),
        }
    }
}

/// The lengths and a few characters of the member names, enough to tell
/// any two of them apart.
proof fn lemma_key_text()
    ensures
        "id"@.len() == 2 && "id"@[0] == 'i' && "id"@[1] == 'd',
        "color"@.len() == 5 && "color"@[0] == 'c' && "color"@[1] == 'o' && "color"@[4] == 'r',
{
    reveal_strlit("id");
    reveal_strlit("color");
}

/// Decoding the JSON form of a record gives the record back.
pub proof fn lemma_record_round_trip(r: GlobalModel)
    ensures
        record_of_json(Global::to_json(r)) == Ok::<GlobalModel, Seq<StepModel>>(r),
{
    lemma_key_text();
    let s = record_slots(r);
    assert(distinct_keys(s));
    lemma_lookup_slot(s, 0);
    lemma_lookup_slot(s, 1);
}

/// Decoding the JSON array of a list of records gives the list back.
pub proof fn lemma_round_trip(rs: Seq<GlobalModel>)
    ensures
        list_of_json::<Global>(json_of_list::<Global>(rs)) == Ok::<Seq<GlobalModel>, Seq<StepModel>>(rs),
{
    assert forall|r: GlobalModel| #[trigger] Global::of_json(Global::to_json(r)) == Ok::<GlobalModel, Seq<StepModel>>(r) by {
        lemma_record_round_trip(r);
    }
    lemma_list_round_trip::<Global>(rs);
}

/// The globals being edited.
pub struct Globals {
    pub table: Table<Global>,
}

impl Globals {
    /// An empty collection.
    pub fn new() -> (r: Globals)
        ensures
            r.table.rows() == Seq::<GlobalModel>::empty(),
            r.table.pending() is None,
    {
        Globals { table: Table::new() }
    }

    /// Carries out one frame of the table view; see [`Table::frame`]. An
    /// added row has every field at its default.
    pub fn view(&mut self, frame: RowFrame)
        ensures
            (final(self).table.rows(), final(self).table.pending()) == table_step(
                old(self).table.rows(),
                old(self).table.pending(),
                if frame.add {
                    Some(Global::blank_spec())
                } else {
                    None
                },
                frame,
            ),
    {
        let add = if frame.add {
            Some(Global::blank())
        } else {
            None
        };
        self.table.frame(add, frame);
    }
}

} // verus!
