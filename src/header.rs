//! Header entries: a named, typed value of the data header, optionally an array
//! whose length is a number or the name of another entry.
use vstd::prelude::*;
use crate::choice::{Ident, IdentView};
use crate::tile_codec::{ident_from, ident_of, opt_int_slot, opt_str_slot};
use crate::json::{
    at_key, distinct_keys, error_here, int_field, lemma_lookup_slot, lemma_object_view,
    opt_int_field, opt_str_field, read_int, read_opt_int, read_opt_str, read_str, slot_fields,
    slots_agree, str_field, write_slots, DecodeError, Json, JsonModel, Slot, SlotValue, StepModel,
};
use crate::table::{json_of_list, lemma_list_round_trip, list_of_json, table_step, Record, RowFrame, Table};

verus! {

/// Whether an integer field holds its default, zero; such a field is left
/// out of the JSON form.
pub fn is_default(t: &i32) -> (r: bool)
    ensures
        r == (*t == 0),
{
    *t == 0
}

/// One entry of the data header. When it is an array, `array` gives its
/// length: a number (`num`) or the name of another entry (`relnum`).
#[derive(Clone, Debug)]
pub struct HeaderEntry {
    pub name: String,
    pub entry_type: String,
    pub array: Ident,
    pub min: i32,
}

/// The mathematical form of a [`HeaderEntry`].
pub struct HeaderEntryModel {
    pub name: Seq<char>,
    pub entry_type: Seq<char>,
    pub array: IdentView,
    pub min: i32,
}

impl View for HeaderEntry {
    type V = HeaderEntryModel;

    open spec fn view(&self) -> HeaderEntryModel {
        HeaderEntryModel {
            name: self.name@,
            entry_type: self.entry_type@,
            array: self.array@,
            min: self.min,
        }
    }
}

/// The members of a record, in the order they are written.
pub open spec fn record_slots(r: HeaderEntryModel) -> Seq<Slot> {
    seq![
        (true, "name"@, JsonModel::Str(r.name)),
        (true, "type"@, JsonModel::Str(r.entry_type)),
        (r.array is Ref, "num"@, JsonModel::Int(r.array->Ref_0 as int)),
        (r.array is Name, "relnum"@, JsonModel::Str(r.array->Name_0)),
        (r.min != 0, "min"@, JsonModel::Int(r.min as int)),
    ]
}

/// The record that a JSON value describes, or the path to the first value
/// that does not fit.
pub open spec fn record_of_json(j: JsonModel) -> Result<HeaderEntryModel, Seq<StepModel>> {
    match j {
        JsonModel::Object(fs) => {
            let name = read_str(fs, "name"@, true);
            let entry_type = read_str(fs, "type"@, true);
            let array_ref = read_opt_int(fs, "num"@, i32::MIN as int, i32::MAX as int);
            let array_name = read_opt_str(fs, "relnum"@);
            let min = read_int(fs, "min"@, i32::MIN as int, i32::MAX as int, Some(0));
            if name is None {
                Err(at_key("name"@))
            } else if entry_type is None {
                Err(at_key("type"@))
            } else if array_ref is None {
                Err(at_key("num"@))
            } else if array_name is None {
                Err(at_key("relnum"@))
            } else if min is None {
                Err(at_key("min"@))
            } else {
                Ok(
                    HeaderEntryModel {
                        name: name->0,
                        entry_type: entry_type->0,
                        array: ident_from(array_ref->0, array_name->0),
                        min: min->0 as i32,
                    },
                )
            }
        },
        _ => Err(Seq::empty()),
    }
}

impl Record for HeaderEntry {
    open spec fn to_json(r: HeaderEntryModel) -> JsonModel {
        JsonModel::Object(slot_fields(record_slots(r)))
    }

    open spec fn of_json(j: JsonModel) -> Result<HeaderEntryModel, Seq<StepModel>> {
        record_of_json(j)
    }

    open spec fn blank_spec() -> HeaderEntryModel {
        HeaderEntryModel {
            name: Seq::empty(),
            entry_type: Seq::empty(),
            array: IdentView::Unset,
            min: 0,
        }
    }

    fn encode(&self) -> (r: Json) {
        let mut slots: Vec<SlotValue> = Vec::new();
        slots.push((true, "name", Json::Str(self.name.clone())));
        slots.push((true, "type", Json::Str(self.entry_type.clone())));
        slots.push(opt_int_slot("num", self.array.reference()));
        slots.push(opt_str_slot("relnum", &self.array.name()));
        slots.push((!is_default(&self.min), "min", Json::Int(self.min as i64)));
        let ghost spec = record_slots(self@);
        assert(slots_agree(slots@, spec));
        let members = write_slots(slots, Ghost(spec));
        proof {
            lemma_object_view(members);
        }
        Json::Object(members)
    }

    fn decode(j: &Json) -> (r: Result<HeaderEntry, DecodeError>) {
        let lo = i32::MIN as i64;
        let hi = i32::MAX as i64;
        match j {
            Json::Object(members) => {
                proof {
                    lemma_object_view(*members);
                }
                let name = match str_field(members, "name", true) {
                    Ok(x) => x,
                    Err(e) => return Err(e),
                };
                let entry_type = match str_field(members, "type", true) {
                    Ok(x) => x,
                    Err(e) => return Err(e),
                };
                let array_ref = match opt_int_field(members, "num", lo, hi) {
                    Ok(x) => x,
                    Err(e) => return Err(e),
                };
                let array_name = match opt_str_field(members, "relnum") {
                    Ok(x) => x,
                    Err(e) => return Err(e),
                };
                let min = match int_field(members, "min", lo, hi, Some(0)) {
                    Ok(x) => x,
                    Err(e) => return Err(e),
                };
                Ok(
                    HeaderEntry {
                        name,
                        entry_type,
                        array: ident_of(array_ref, array_name),
                        min: min as i32,
                    },
                )
            },
            _ => Err(error_here()),
        }
    }

    fn blank() -> (r: HeaderEntry) {
        HeaderEntry {
            name: String::new(),
            entry_type: String::new(),
            array: Ident::Unset,
            min: 0,
        }
    }
}

/// The lengths and a few characters of the member names, enough to tell
/// any two of them apart.
proof fn lemma_key_text()
    ensures
        "name"@.len() == 4 && "name"@[0] == 'n' && "name"@[1] == 'a' && "name"@[3] == 'e',
        "type"@.len() == 4 && "type"@[0] == 't' && "type"@[1] == 'y' && "type"@[3] == 'e',
        "num"@.len() == 3 && "num"@[0] == 'n' && "num"@[1] == 'u' && "num"@[2] == 'm',
        "relnum"@.len() == 6 && "relnum"@[0] == 'r' && "relnum"@[1] == 'e' && "relnum"@[5] == 'm',
        "min"@.len() == 3 && "min"@[0] == 'm' && "min"@[1] == 'i' && "min"@[2] == 'n',
{
    reveal_strlit("name");
    reveal_strlit("type");
    reveal_strlit("num");
    reveal_strlit("relnum");
    reveal_strlit("min");
}

/// Decoding the JSON form of a record gives the record back.
pub proof fn lemma_record_round_trip(r: HeaderEntryModel)
    ensures
        record_of_json(HeaderEntry::to_json(r)) == Ok::<HeaderEntryModel, Seq<StepModel>>(r),
{
    lemma_key_text();
    let s = record_slots(r);
    assert(distinct_keys(s));
    lemma_lookup_slot(s, 0);
    lemma_lookup_slot(s, 1);
    lemma_lookup_slot(s, 2);
    lemma_lookup_slot(s, 3);
    lemma_lookup_slot(s, 4);
}

/// Decoding the JSON array of a list of records gives the list back.
pub proof fn lemma_round_trip(rs: Seq<HeaderEntryModel>)
    ensures
        list_of_json::<HeaderEntry>(json_of_list::<HeaderEntry>(rs)) == Ok::<Seq<HeaderEntryModel>, Seq<StepModel>>(rs),
{
    assert forall|r: HeaderEntryModel| #[trigger] HeaderEntry::of_json(HeaderEntry::to_json(r)) == Ok::<HeaderEntryModel, Seq<StepModel>>(r) by {
        lemma_record_round_trip(r);
    }
    lemma_list_round_trip::<HeaderEntry>(rs);
}

/// The header entries being edited.
pub struct Header {
    pub table: Table<HeaderEntry>,
}

impl Header {
    /// An empty collection.
    pub fn new() -> (r: Header)
        ensures
            r.table.rows() == Seq::<HeaderEntryModel>::empty(),
            r.table.pending() is None,
    {
        Header { table: Table::new() }
    }

    /// Carries out one frame of the table view; see [`Table::frame`]. An
    /// added row has every field at its default.
    pub fn view(&mut self, frame: RowFrame)
        ensures
            (final(self).table.rows(), final(self).table.pending()) == table_step(
                old(self).table.rows(),
                old(self).table.pending(),
                if frame.add {
                    Some(HeaderEntry::blank_spec())
                } else {
                    None
                },
                frame,
            ),
    {
        let add = if frame.add {
            Some(HeaderEntry::blank())
        } else {
            None
        };
        self.table.frame(add, frame);
    }
}

} // verus!
