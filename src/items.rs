//! Items: an id and a name each.
use vstd::prelude::*;
use crate::json::{
    at_key, distinct_keys, error_here, int_field, lemma_lookup_slot, lemma_object_view, read_int,
    read_str, slot_fields, slots_agree, str_field, write_slots, DecodeError, Json, JsonModel,
    Slot, SlotValue, StepModel,
};
use crate::table::{json_of_list, lemma_list_round_trip, list_of_json, table_step, Record, RowFrame, Table};

verus! {

/// One item.
#[derive(Clone, Debug)]
pub struct Item {
    pub id: i32,
    pub name: String,
}

/// The mathematical form of a [`Item`].
pub struct ItemModel {
    pub id: i32,
    pub name: Seq<char>,
}

impl View for Item {
    type V = ItemModel;

    open spec fn view(&self) -> ItemModel {
        ItemModel {
            id: self.id,
            name: self.name@,
        }
    }
}

/// The members of a record, in the order they are written.
pub open spec fn record_slots(r: ItemModel) -> Seq<Slot> {
    seq![
        (true, "id"@, JsonModel::Int(r.id as int)),
        (true, "name"@, JsonModel::Str(r.name)),
    ]
}

/// The record that a JSON value describes, or the path to the first value
/// that does not fit.
pub open spec fn record_of_json(j: JsonModel) -> Result<ItemModel, Seq<StepModel>> {
    match j {
        JsonModel::Object(fs) => {
            let id = read_int(fs, "id"@, i32::MIN as int, i32::MAX as int, None);
            let name = read_str(fs, "name"@, true);
            if id is None {
                Err(at_key("id"@))
            } else if name is None {
                Err(at_key("name"@))
            } else {
                Ok(
                    ItemModel {
                        id: id->0 as i32,
                        name: name->0,
                    },
                )
            }
        },
        _ => Err(Seq::empty()),
    }
}

impl Record for Item {
    open spec fn to_json(r: ItemModel) -> JsonModel {
        JsonModel::Object(slot_fields(record_slots(r)))
    }

    open spec fn of_json(j: JsonModel) -> Result<ItemModel, Seq<StepModel>> {
        record_of_json(j)
    }

    open spec fn blank_spec() -> ItemModel {
        ItemModel {
            id: 0,
            name: Seq::empty(),
        }
    }

    fn encode(&self) -> (r: Json) {
        let mut slots: Vec<SlotValue> = Vec::new();
        slots.push((true, "id", Json::Int(self.id as i64)));
        slots.push((true, "name", Json::Str(self.name.clone())));
        let ghost spec = record_slots(self@);
        assert(slots_agree(slots@, spec));
        let members = write_slots(slots, Ghost(spec));
        proof {
            lemma_object_view(members);
        }
        Json::Object(members)
    }

    fn decode(j: &Json) -> (r: Result<Item, DecodeError>) {
        let lo = i32::MIN as i64;
        let hi = i32::MAX as i64;
        match j {
            Json::Object(members) => {
                proof {
                    lemma_object_view(*members);
                }
                let id = match int_field(members, "id", lo, hi, None) {
                    Ok(x) => x,
                    Err(e) => return Err(e),
                };
                let name = match str_field(members, "name", true) {
                    Ok(x) => x,
                    Err(e) => return Err(e),
                };
                Ok(
                    Item {
                        id: id as i32,
                        name,
                    },
                )
            },
            _ => Err(error_here()),
        }
    }

    fn blank() -> (r: Item) {
        Item {
            id: 0,
            name: String::new(),
        }
    }
}

/// The lengths and a few characters of the member names, enough to tell
/// any two of them apart.
proof fn lemma_key_text()
    ensures
        "id"@.len() == 2 && "id"@[0] == 'i' && "id"@[1] == 'd',
        "name"@.len() == 4 && "name"@[0] == 'n' && "name"@[1] == 'a' && "name"@[3] == 'e',
{
    reveal_strlit("id");
    reveal_strlit("name");
}

/// Decoding the JSON form of a record gives the record back.
pub proof fn lemma_record_round_trip(r: ItemModel)
    ensures
        record_of_json(Item::to_json(r)) == Ok::<ItemModel, Seq<StepModel>>(r),
{
    lemma_key_text();
    let s = record_slots(r);
    assert(distinct_keys(s));
    lemma_lookup_slot(s, 0);
    lemma_lookup_slot(s, 1);
}

/// Decoding the JSON array of a list of records gives the list back.
pub proof fn lemma_round_trip(rs: Seq<ItemModel>)
    ensures
        list_of_json::<Item>(json_of_list::<Item>(rs)) == Ok::<Seq<ItemModel>, Seq<StepModel>>(rs),
{
    assert forall|r: ItemModel| #[trigger] Item::of_json(Item::to_json(r)) == Ok::<ItemModel, Seq<StepModel>>(r) by {
        lemma_record_round_trip(r);
    }
    lemma_list_round_trip::<Item>(rs);
}

/// The items being edited.
pub struct Items {
    pub table: Table<Item>,
}

impl Items {
    /// An empty collection.
    pub fn new() -> (r: Items)
        ensures
            r.table.rows() == Seq::<ItemModel>::empty(),
            r.table.pending() is None,
    {
        Items { table: Table::new() }
    }

    /// Carries out one frame of the table view; see [`Table::frame`]. An
    /// added row has every field at its default.
    pub fn view(&mut self, frame: RowFrame)
        ensures
            (final(self).table.rows(), final(self).table.pending()) == table_step(
                old(self).table.rows(),
                old(self).table.pending(),
                if frame.add {
                    Some(Item::blank_spec())
                } else {
                    None
                },
                frame,
            ),
    {
        let add = if frame.add {
            Some(Item::blank())
        } else {
            None
        };
        self.table.frame(add, frame);
    }
}

} // verus!
