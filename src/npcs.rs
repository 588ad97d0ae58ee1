//! NPCs: an id, a name, and the ids of their head and banner.
use vstd::prelude::*;
use crate::json::{
    at_key, distinct_keys, error_here, int_field, lemma_lookup_slot, lemma_object_view, read_int,
    read_str, slot_fields, slots_agree, str_field, write_slots, DecodeError, Json, JsonModel,
    Slot, SlotValue, StepModel,
};
use crate::table::{json_of_list, lemma_list_round_trip, list_of_json, table_step, Record, RowFrame, Table};

verus! {

/// Whether an integer field holds its default, zero; such a field is left
/// out of the JSON form.
pub fn is_default(t: &i32) -> (r: bool)
    ensures
        r == (*t == 0),
{
    *t == 0
}

/// One NPC; `head` and `banner` are ids, zero for none.
#[derive(Clone, Debug)]
pub struct NPC {
    pub id: i32,
    pub name: String,
    pub head: i32,
    pub banner: i32,
}

/// The mathematical form of a [`NPC`].
pub struct NPCModel {
    pub id: i32,
    pub name: Seq<char>,
    pub head: i32,
    pub banner: i32,
}

impl View for NPC {
    type V = NPCModel;

    open spec fn view(&self) -> NPCModel {
        NPCModel {
            id: self.id,
            name: self.name@,
            head: self.head,
            banner: self.banner,
        }
    }
}

/// The members of a record, in the order they are written.
pub open spec fn record_slots(r: NPCModel) -> Seq<Slot> {
    seq![
        (true, "id"@, JsonModel::Int(r.id as int)),
        (true, "name"@, JsonModel::Str(r.name)),
        (r.head != 0, "head"@, JsonModel::Int(r.head as int)),
        (r.banner != 0, "banner"@, JsonModel::Int(r.banner as int)),
    ]
}

/// The record that a JSON value describes, or the path to the first value
/// that does not fit.
pub open spec fn record_of_json(j: JsonModel) -> Result<NPCModel, Seq<StepModel>> {
    match j {
        JsonModel::Object(fs) => {
            let id = read_int(fs, "id"@, i32::MIN as int, i32::MAX as int, None);
            let name = read_str(fs, "name"@, true);
            let head = read_int(fs, "head"@, i32::MIN as int, i32::MAX as int, Some(0));
            let banner = read_int(fs, "banner"@, i32::MIN as int, i32::MAX as int, Some(0));
            if id is None {
                Err(at_key("id"@))
            } else if name is None {
                Err(at_key("name"@))
            } else if head is None {
                Err(at_key("head"@))
            } else if banner is None {
                Err(at_key("banner"@))
            } else {
                Ok(
                    NPCModel {
                        id: id->0 as i32,
                        name: name->0,
                        head: head->0 as i32,
                        banner: banner->0 as i32,
                    },
                )
            }
        },
        _ => Err(Seq::empty()),
    }
}

impl Record for NPC {
    open spec fn to_json(r: NPCModel) -> JsonModel {
        JsonModel::Object(slot_fields(record_slots(r)))
    }

    open spec fn of_json(j: JsonModel) -> Result<NPCModel, Seq<StepModel>> {
        record_of_json(j)
    }

    open spec fn blank_spec() -> NPCModel {
        NPCModel {
            id: 0,
            name: Seq::empty(),
            head: 0,
            banner: 0,
        }
    }

    fn encode(&self) -> (r: Json) {
        let mut slots: Vec<SlotValue> = Vec::new();
        slots.push((true, "id", Json::Int(self.id as i64)));
        slots.push((true, "name", Json::Str(self.name.clone())));
        slots.push((!is_default(&self.head), "head", Json::Int(self.head as i64)));
        slots.push((!is_default(&self.banner), "banner", Json::Int(self.banner as i64)));
        let ghost spec = record_slots(self@);
        assert(slots_agree(slots@, spec));
        let members = write_slots(slots, Ghost(spec));
        proof {
            lemma_object_view(members);
        }
        Json::Object(members)
    }

    fn decode(j: &Json) -> (r: Result<NPC, DecodeError>) {
        let lo = i32::MIN as i64;
        let hi = i32::MAX as i64;
        match j {
            Json::Object(members) => {
                proof {
                    lemma_object_view(*members);
                }
                let id = match int_field(members, "id", lo, hi, None) {
                    Ok(x) => x,
                    Err(e) => return Err(e),
                };
                let name = match str_field(members, "name", true) {
                    Ok(x) => x,
                    Err(e) => return Err(e),
                };
                let head = match int_field(members, "head", lo, hi, Some(0)) {
                    Ok(x) => x,
                    Err(e) => return Err(e),
                };
                let banner = match int_field(members, "banner", lo, hi, Some(0)) {
                    Ok(x) => x,
                    Err(e) => return Err(e),
                };
                Ok(
                    NPC {
                        id: id as i32,
                        name,
                        head: head as i32,
                        banner: banner as i32,
                    },
                )
            },
            _ => Err(error_here()),
        }
    }

    fn blank() -> (r: NPC) {
        NPC {
            id: 0,
            name: String::new(),
            head: 0,
            banner: 0,
        }
    }
}

/// The lengths and a few characters of the member names, enough to tell
/// any two of them apart.
proof fn lemma_key_text()
    ensures
        "id"@.len() == 2 && "id"@[0] == 'i' && "id"@[1] == 'd',
        "name"@.len() == 4 && "name"@[0] == 'n' && "name"@[1] == 'a' && "name"@[3] == 'e',
        "head"@.len() == 4 && "head"@[0] == 'h' && "head"@[1] == 'e' && "head"@[3] == 'd',
        "banner"@.len() == 6 && "banner"@[0] == 'b' && "banner"@[1] == 'a' && "banner"@[5] == 'r',
{
    reveal_strlit("id");
    reveal_strlit("name");
    reveal_strlit("head");
    reveal_strlit("banner");
}

/// Decoding the JSON form of a record gives the record back.
pub proof fn lemma_record_round_trip(r: NPCModel)
    ensures
        record_of_json(NPC::to_json(r)) == Ok::<NPCModel, Seq<StepModel>>(r),
{
    lemma_key_text();
    let s = record_slots(r);
    assert(distinct_keys(s));
    lemma_lookup_slot(s, 0);
    lemma_lookup_slot(s, 1);
    lemma_lookup_slot(s, 2);
    lemma_lookup_slot(s, 3);
}

/// Decoding the JSON array of a list of records gives the list back.
pub proof fn lemma_round_trip(rs: Seq<NPCModel>)
    ensures
        list_of_json::<NPC>(json_of_list::<NPC>(rs)) == Ok::<Seq<NPCModel>, Seq<StepModel>>(rs),
{
    assert forall|r: NPCModel| #[trigger] NPC::of_json(NPC::to_json(r)) == Ok::<NPCModel, Seq<StepModel>>(r) by {
        lemma_record_round_trip(r);
    }
    lemma_list_round_trip::<NPC>(rs);
}

/// The NPCs being edited.
pub struct NPCs {
    pub table: Table<NPC>,
}

impl NPCs {
    /// An empty collection.
    pub fn new() -> (r: NPCs)
        ensures
            r.table.rows() == Seq::<NPCModel>::empty(),
            r.table.pending() is None,
    {
        NPCs { table: Table::new() }
    }

    /// An NPC with every field at its default but the id, which follows the
    /// last NPC's id.
    pub fn next_row(&self) -> (r: NPC)
        ensures
            r@ == (NPCModel { id: next_id(self.table.rows()), ..NPC::blank_spec() }),
    {
        let es = self.table.entries();
        let n = es.len();
        let id = if n == 0 {
            0
        } else {
            let last = es[n - 1].id;
            if last < i32::MAX {
                last + 1
            } else {
                last
            }
        };
        let mut rec = NPC::blank();
        rec.id = id;
        rec
    }

    /// Appends the NPC of [`NPCs::next_row`], and returns its index.
    pub fn add_next(&mut self) -> (r: usize)
        requires
            old(self).table.rows().len() < usize::MAX,
        ensures
            r == old(self).table.rows().len(),
            final(self).table.rows() == old(self).table.rows().push(
                NPCModel { id: next_id(old(self).table.rows()), ..NPC::blank_spec() },
            ),
            final(self).table.pending() == old(self).table.pending(),
    {
        let rec = self.next_row();
        self.table.push(rec)
    }

    /// Carries out one frame of the table view; see [`Table::frame`]. An
    /// added NPC is the one of [`NPCs::next_row`].
    pub fn view(&mut self, frame: RowFrame)
        ensures
            (final(self).table.rows(), final(self).table.pending()) == table_step(
                old(self).table.rows(),
                old(self).table.pending(),
                if frame.add {
                    Some(NPCModel { id: next_id(old(self).table.rows()), ..NPC::blank_spec() })
                } else {
                    None
                },
                frame,
            ),
    {
        let add = if frame.add {
            Some(self.next_row())
        } else {
            None
        };
        self.table.frame(add, frame);
    }
}

/// The id that a new NPC gets: one more than the last NPC's id, zero when
/// there is none, and the largest id again once that is reached.
pub open spec fn next_id(rows: Seq<NPCModel>) -> i32 {
    if rows.len() == 0 {
        0
    } else if rows.last().id < i32::MAX {
        (rows.last().id + 1) as i32
    } else {
        rows.last().id
    }
}

} // verus!
