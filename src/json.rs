//! A JSON value tree, the form in which records are read and written.
use vstd::prelude::*;

verus! {

/// One `"key": value` pair of a JSON object.
pub type Member = (String, Json);

/// A JSON value. Numbers that are integers in the range of `i64` are held as
/// `Int`; any other number is held as its text in `Number`.
pub enum Json {
    Null,
    Bool(bool),
    Int(i64),
    Number(String),
    Str(String),
    Array(Vec<Json>),
    Object(Vec<Member>),
}

/// The mathematical form of a [`Json`] value.
pub enum JsonModel {
    Null,
    Bool(bool),
    Int(int),
    Number(Seq<char>),
    Str(Seq<char>),
    Array(Seq<JsonModel>),
    Object(Seq<(Seq<char>, JsonModel)>),
}

impl View for Json {
    type V = JsonModel;

    open spec fn view(&self) -> JsonModel
        decreases self,
    {
        match self {
            Json::Null => JsonModel::Null,
            Json::Bool(b) => JsonModel::Bool(*b),
            Json::Int(n) => JsonModel::Int(*n as int),
            Json::Number(t) => JsonModel::Number(t@),
            Json::Str(s) => JsonModel::Str(s@),
            Json::Array(items) => JsonModel::Array(
                Seq::new(
                    items.len() as nat,
                    |i: int|
                        if 0 <= i < items.len() {
                            items[i].view()
                        } else {
                            JsonModel::Null
                        },
                ),
            ),
            Json::Object(members) => {
                let values = Seq::new(
                    members.len() as nat,
                    |i: int|
                        if 0 <= i < members.len() {
                            members[i].1.view()
                        } else {
                            JsonModel::Null
                        },
                );
                JsonModel::Object(Seq::new(members.len() as nat, |i: int| (members[i].0@, values[i])))
            },
        }
    }
}

/// The members of an object, as key/value pairs in order.
pub type Fields = Seq<(Seq<char>, JsonModel)>;

/// The mathematical form of a list of members.
pub open spec fn fields_of(members: Seq<Member>) -> Fields {
    Seq::new(members.len(), |i: int| (members[i].0@, members[i].1@))
}

/// The mathematical form of a list of values.
pub open spec fn values_of(items: Seq<Json>) -> Seq<JsonModel> {
    Seq::new(items.len(), |i: int| items[i]@)
}

/// The value of the first member named `key`, if any.
pub open spec fn lookup(fields: Fields, key: Seq<char>) -> Option<JsonModel>
    decreases fields.len(),
{
    if fields.len() == 0 {
        None
    } else if fields[0].0 == key {
        Some(fields[0].1)
    } else {
        lookup(fields.drop_first(), key)
    }
}

/// A single member when `present`, else nothing.
pub open spec fn entry_if(present: bool, key: Seq<char>, value: JsonModel) -> Fields {
    if present {
        seq![(key, value)]
    } else {
        Seq::empty()
    }
}

pub broadcast proof fn lemma_lookup_entry_if(present: bool, k1: Seq<char>, value: JsonModel, key: Seq<char>)
    ensures
        #[trigger] lookup(entry_if(present, k1, value), key) == (if present && k1 == key {
            Some(value)
        } else {
            None
        }),
{
    if present {
        assert(lookup(entry_if(present, k1, value).drop_first(), key) == None::<JsonModel>);
    }
}

pub broadcast proof fn lemma_lookup_append(a: Fields, b: Fields, key: Seq<char>)
    ensures
        #[trigger] lookup(a + b, key) == (match lookup(a, key) {
            Some(v) => Some(v),
            None => lookup(b, key),
        }),
    decreases a.len(),
{
    if a.len() == 0 {
        assert(a + b =~= b);
    } else {
        assert((a + b).drop_first() =~= a.drop_first() + b);
        lemma_lookup_append(a.drop_first(), b, key);
    }
}

/// A member that is written only when its flag is set.
pub type Slot = (bool, Seq<char>, JsonModel);

/// The members that a list of slots writes, in order.
pub open spec fn slot_fields(slots: Seq<Slot>) -> Fields
    decreases slots.len(),
{
    if slots.len() == 0 {
        Seq::empty()
    } else {
        entry_if(slots[0].0, slots[0].1, slots[0].2) + slot_fields(slots.drop_first())
    }
}

/// Whether no two slots share a key.
pub open spec fn distinct_keys(slots: Seq<Slot>) -> bool {
    forall|i: int, j: int| 0 <= i < slots.len() && 0 <= j < slots.len() && i != j ==> slots[i].1 != slots[j].1
}

pub proof fn lemma_lookup_absent(slots: Seq<Slot>, key: Seq<char>)
    requires
        forall|i: int| 0 <= i < slots.len() ==> slots[i].1 != key,
    ensures
        lookup(slot_fields(slots), key) == None::<JsonModel>,
    decreases slots.len(),
{
    broadcast use lemma_lookup_append, lemma_lookup_entry_if;

    if slots.len() > 0 {
        lemma_lookup_absent(slots.drop_first(), key);
    }
}

/// Looking up the key of a slot among slots with distinct keys finds its
/// value exactly when it is written.
pub proof fn lemma_lookup_slot(slots: Seq<Slot>, j: int)
    requires
        0 <= j < slots.len(),
        distinct_keys(slots),
    ensures
        lookup(slot_fields(slots), slots[j].1) == (if slots[j].0 {
            Some(slots[j].2)
        } else {
            None
        }),
    decreases slots.len(),
{
    broadcast use lemma_lookup_append, lemma_lookup_entry_if;

    let rest = slots.drop_first();
    if j == 0 {
        assert forall|i: int| 0 <= i < rest.len() implies rest[i].1 != slots[0].1 by {
            assert(rest[i] == slots[i + 1]);
        }
        lemma_lookup_absent(rest, slots[0].1);
    } else {
        assert(slots[0].1 != slots[j].1);
        assert(rest[j - 1] == slots[j]);
        lemma_lookup_slot(rest, j - 1);
    }
}

pub proof fn lemma_slot_fields_snoc(slots: Seq<Slot>, n: int)
    requires
        0 < n <= slots.len(),
    ensures
        slot_fields(slots.subrange(0, n)) == slot_fields(slots.subrange(0, n - 1)) + entry_if(
            slots[n - 1].0,
            slots[n - 1].1,
            slots[n - 1].2,
        ),
    decreases n,
{
    let s = slots.subrange(0, n);
    if n == 1 {
        assert(s.drop_first() =~= Seq::<Slot>::empty());
        assert(slots.subrange(0, 0) =~= Seq::<Slot>::empty());
        assert(s[0] == slots[0]);
        let e = entry_if(slots[0].0, slots[0].1, slots[0].2);
        assert(slot_fields(s.drop_first()) == Seq::<(Seq<char>, JsonModel)>::empty());
        assert(slot_fields(s) == e + Seq::<(Seq<char>, JsonModel)>::empty());
        assert(e + Seq::<(Seq<char>, JsonModel)>::empty() =~= e);
        assert(slot_fields(slots.subrange(0, 0)) == Seq::<(Seq<char>, JsonModel)>::empty());
        assert(Seq::<(Seq<char>, JsonModel)>::empty() + e =~= e);
    } else {
        lemma_slot_fields_snoc(slots.drop_first(), n - 1);
        assert(s.drop_first() =~= slots.drop_first().subrange(0, n - 1));
        assert(slots.subrange(0, n - 1).drop_first() =~= slots.drop_first().subrange(0, n - 2));
        assert(slots.drop_first()[n - 2] == slots[n - 1]);
        assert(slot_fields(s) =~= entry_if(slots[0].0, slots[0].1, slots[0].2) + (slot_fields(
            slots.drop_first().subrange(0, n - 2),
        ) + entry_if(slots[n - 1].0, slots[n - 1].1, slots[n - 1].2)));
    }
}

/// A member to write: whether to write it, its key and its value.
pub type SlotValue = (bool, &'static str, Json);

/// Whether the members to write agree with `spec` in their flags and keys,
/// and in their values where they are written.
pub open spec fn slots_agree(slots: Seq<SlotValue>, spec: Seq<Slot>) -> bool {
    &&& slots.len() == spec.len()
    &&& forall|i: int|
        0 <= i < slots.len() ==> {
            &&& #[trigger] slots[i].0 == spec[i].0
            &&& slots[i].1@ == spec[i].1
            &&& slots[i].0 ==> slots[i].2@ == spec[i].2
        }
}

/// The members among `slots` that are to be written, in order.
pub(crate) fn write_slots(slots: Vec<SlotValue>, Ghost(spec): Ghost<Seq<Slot>>) -> (r: Vec<Member>)
    requires
        slots_agree(slots@, spec),
    ensures
        fields_of(r@) == slot_fields(spec),
{
    let mut slots = slots;
    let mut out: Vec<Member> = Vec::new();
    assert(spec.subrange(0, spec.len() as int) =~= spec);
    assert(fields_of(out@) =~= Seq::empty());
    assert(slot_fields(spec) =~= slot_fields(spec.subrange(0, slots.len() as int)) + fields_of(out@));
    while slots.len() > 0
        invariant
            slots.len() <= spec.len(),
            slots_agree(slots@, spec.subrange(0, slots.len() as int)),
            slot_fields(spec) == slot_fields(spec.subrange(0, slots.len() as int)) + fields_of(out@),
        decreases slots.len(),
    {
        let ghost n = slots.len() as int;
        let ghost before = slots@;
        let (present, key, value) = slots.pop().unwrap();
        assert(before[n - 1] == (present, key, value));
        proof {
            lemma_slot_fields_snoc(spec, n);
            assert(spec.subrange(0, n)[n - 1] == spec[n - 1]);
            assert(spec.subrange(0, n - 1) =~= spec.subrange(0, n).subrange(0, n - 1));
        }
        let ghost old_out = out@;
        if present {
            out.insert(0, (key.to_owned(), value));
            assert(fields_of(out@) =~= seq![(key@, value@)] + fields_of(old_out));
        } else {
            assert(entry_if(spec[n - 1].0, spec[n - 1].1, spec[n - 1].2) =~= Seq::empty());
        }
        assert(slots_agree(slots@, spec.subrange(0, slots.len() as int))) by {
            assert forall|i: int| 0 <= i < slots.len() implies #[trigger] slots@[i].0 == spec.subrange(0, slots.len() as int)[i].0
                && slots@[i].1@ == spec.subrange(0, slots.len() as int)[i].1
                && (slots@[i].0 ==> slots@[i].2@ == spec.subrange(0, slots.len() as int)[i].2) by {
                assert(slots@[i] == before[i]);
            }
        }
        assert(slot_fields(spec) =~= slot_fields(spec.subrange(0, slots.len() as int)) + fields_of(out@));
    }
    out
}

/// The index of the first member named `key`, or the number of members
/// when there is none.
pub open spec fn find(fields: Fields, key: Seq<char>) -> int
    decreases fields.len(),
{
    if fields.len() == 0 {
        0
    } else if fields[0].0 == key {
        0
    } else {
        1 + find(fields.drop_first(), key)
    }
}

pub proof fn lemma_find_lookup(fields: Fields, key: Seq<char>)
    ensures
        0 <= find(fields, key) <= fields.len(),
        find(fields, key) < fields.len() ==> fields[find(fields, key)].0 == key,
        lookup(fields, key) == (if find(fields, key) < fields.len() {
            Some(fields[find(fields, key)].1)
        } else {
            None
        }),
    decreases fields.len(),
{
    if fields.len() > 0 && fields[0].0 != key {
        lemma_find_lookup(fields.drop_first(), key);
    }
}

pub proof fn lemma_object_view(members: Vec<Member>)
    ensures
        Json::Object(members)@ == JsonModel::Object(fields_of(members@)),
{
    let j = Json::Object(members);
    assert(j@->Object_0.len() == members@.len());
    assert(j@->Object_0 =~= fields_of(members@));
}

pub proof fn lemma_array_view(items: Vec<Json>)
    ensures
        Json::Array(items)@ == JsonModel::Array(values_of(items@)),
{
    assert(Json::Array(items)@->Array_0 =~= values_of(items@));
}

/// The index of the first member named `key`, or the number of members
/// when there is none.
pub fn find_member(members: &Vec<Member>, key: &str) -> (r: usize)
    ensures
        r == find(fields_of(members@), key@),
{
    let k = key.to_owned();
    let ghost fs = fields_of(members@);
    let mut i: usize = 0;
    assert(fs.subrange(0, fs.len() as int) =~= fs);
    while i < members.len()
        invariant
            i <= members.len(),
            fs == fields_of(members@),
            k@ == key@,
            find(fs, key@) == i + find(fs.subrange(i as int, fs.len() as int), key@),
        decreases members.len() - i,
    {
        assert(fs.subrange(i as int, fs.len() as int).drop_first() =~= fs.subrange(
            i + 1,
            fs.len() as int,
        ));
        if members[i].0 == k {
            return i;
        }
        i = i + 1;
    }
    i
}

/// One step of the path to a value inside a JSON tree.
#[derive(Clone, Debug)]
pub enum Step {
    Key(String),
    Index(usize),
}

/// The mathematical form of a [`Step`].
pub enum StepModel {
    Key(Seq<char>),
    Index(int),
}

impl View for Step {
    type V = StepModel;

    open spec fn view(&self) -> StepModel {
        match self {
            Step::Key(k) => StepModel::Key(k@),
            Step::Index(i) => StepModel::Index(*i as int),
        }
    }
}

/// A value that does not have the shape a record needs; `path` leads from
/// the decoded value to the offending one.
#[derive(Clone, Debug)]
pub struct DecodeError {
    pub path: Vec<Step>,
}

impl View for DecodeError {
    type V = Seq<StepModel>;

    open spec fn view(&self) -> Seq<StepModel> {
        Seq::new(self.path.len() as nat, |i: int| self.path[i]@)
    }
}

/// The path of an error found at the member `key`.
pub open spec fn at_key(key: Seq<char>) -> Seq<StepModel> {
    seq![StepModel::Key(key)]
}

/// An error at the member `key` of the object being decoded.
pub fn error_at(key: &str) -> (e: DecodeError)
    ensures
        e@ == at_key(key@),
{
    let mut path: Vec<Step> = Vec::new();
    path.push(Step::Key(key.to_owned()));
    let e = DecodeError { path };
    assert(e@ =~= at_key(key@));
    e
}

/// An error at the top of the value being decoded.
pub fn error_here() -> (e: DecodeError)
    ensures
        e@ == Seq::<StepModel>::empty(),
{
    let e = DecodeError { path: Vec::new() };
    assert(e@ =~= Seq::<StepModel>::empty());
    e
}

/// Prefixes the path of `e` with one step.
pub fn error_within(step: Step, e: DecodeError) -> (r: DecodeError)
    ensures
        r@ == seq![step@] + e@,
{
    let mut path = e.path;
    path.insert(0, step);
    let r = DecodeError { path };
    assert(r@ =~= seq![step@] + e@);
    r
}

/// Finds the first member named `key`.
pub fn get<'a>(members: &'a Vec<Member>, key: &str) -> (r: Option<&'a Json>)
    ensures
        match lookup(fields_of(members@), key@) {
            None => r is None,
            Some(v) => r is Some && r->0@ == v,
        },
{
    let k = key.to_owned();
    let ghost fs = fields_of(members@);
    let mut i: usize = 0;
    assert(fs.subrange(0, fs.len() as int) =~= fs);
    while i < members.len()
        invariant
            i <= members.len(),
            fs == fields_of(members@),
            k@ == key@,
            lookup(fs, key@) == lookup(fs.subrange(i as int, fs.len() as int), key@),
        decreases members.len() - i,
    {
        assert(fs.subrange(i as int, fs.len() as int).drop_first() =~= fs.subrange(
            i + 1,
            fs.len() as int,
        ));
        if members[i].0 == k {
            return Some(&members[i].1);
        }
        i = i + 1;
    }
    None
}

/// What an integer member holds, when it is within `lo..=hi`; an absent
/// member gives `default`.
pub open spec fn read_int(fields: Fields, key: Seq<char>, lo: int, hi: int, default: Option<int>) -> Option<int> {
    match lookup(fields, key) {
        None => default,
        Some(JsonModel::Int(n)) => if lo <= n <= hi {
            Some(n)
        } else {
            None
        },
        Some(_) => None,
    }
}

/// What an optional integer member holds: `Some(None)` when it is absent or
/// null, `None` when it is malformed.
pub open spec fn read_opt_int(fields: Fields, key: Seq<char>, lo: int, hi: int) -> Option<Option<int>> {
    match lookup(fields, key) {
        None => Some(None),
        Some(JsonModel::Null) => Some(None),
        Some(JsonModel::Int(n)) => if lo <= n <= hi {
            Some(Some(n))
        } else {
            None
        },
        Some(_) => None,
    }
}

/// What a string member holds; an absent one is an error when `required`,
/// else the empty string.
pub open spec fn read_str(fields: Fields, key: Seq<char>, required: bool) -> Option<Seq<char>> {
    match lookup(fields, key) {
        None => if required {
            None
        } else {
            Some(Seq::empty())
        },
        Some(JsonModel::Str(s)) => Some(s),
        Some(_) => None,
    }
}

/// What an optional string member holds: `Some(None)` when it is absent or
/// null, `None` when it is malformed.
pub open spec fn read_opt_str(fields: Fields, key: Seq<char>) -> Option<Option<Seq<char>>> {
    match lookup(fields, key) {
        None => Some(None),
        Some(JsonModel::Null) => Some(None),
        Some(JsonModel::Str(s)) => Some(Some(s)),
        Some(_) => None,
    }
}

/// An optional machine integer as an optional mathematical one.
pub open spec fn opt_int_of(o: Option<i64>) -> Option<int> {
    match o {
        Some(n) => Some(n as int),
        None => None,
    }
}

/// An optional string as an optional character sequence.
pub open spec fn opt_str_of(o: Option<String>) -> Option<Seq<char>> {
    match o {
        Some(s) => Some(s@),
        None => None,
    }
}

/// Reads an integer member; see [`read_int`].
pub fn int_field(members: &Vec<Member>, key: &str, lo: i64, hi: i64, default: Option<i64>) -> (r: Result<i64, DecodeError>)
    ensures
        match read_int(fields_of(members@), key@, lo as int, hi as int, opt_int_of(default)) {
            Some(n) => r matches Ok(m) && m == n,
            None => r matches Err(e) && e@ == at_key(key@),
        },
{
    match get(members, key) {
        None => match default {
            Some(d) => Ok(d),
            None => Err(error_at(key)),
        },
        Some(Json::Int(n)) => if lo <= *n && *n <= hi {
            Ok(*n)
        } else {
            Err(error_at(key))
        },
        Some(_) => Err(error_at(key)),
    }
}

/// Reads an optional integer member; see [`read_opt_int`].
pub fn opt_int_field(members: &Vec<Member>, key: &str, lo: i64, hi: i64) -> (r: Result<Option<i64>, DecodeError>)
    ensures
        match read_opt_int(fields_of(members@), key@, lo as int, hi as int) {
            Some(v) => r matches Ok(m) && opt_int_of(m) == v,
            None => r matches Err(e) && e@ == at_key(key@),
        },
{
    match get(members, key) {
        None => Ok(None),
        Some(Json::Null) => Ok(None),
        Some(Json::Int(n)) => if lo <= *n && *n <= hi {
            Ok(Some(*n))
        } else {
            Err(error_at(key))
        },
        Some(_) => Err(error_at(key)),
    }
}

/// Reads a string member; see [`read_str`].
pub fn str_field(members: &Vec<Member>, key: &str, required: bool) -> (r: Result<String, DecodeError>)
    ensures
        match read_str(fields_of(members@), key@, required) {
            Some(s) => r matches Ok(t) && t@ == s,
            None => r matches Err(e) && e@ == at_key(key@),
        },
{
    match get(members, key) {
        None => if required {
            Err(error_at(key))
        } else {
            Ok(String::new())
        },
        Some(Json::Str(s)) => Ok(s.clone()),
        Some(_) => Err(error_at(key)),
    }
}

/// Reads an optional string member; see [`read_opt_str`].
pub fn opt_str_field(members: &Vec<Member>, key: &str) -> (r: Result<Option<String>, DecodeError>)
    ensures
        match read_opt_str(fields_of(members@), key@) {
            Some(v) => r matches Ok(m) && opt_str_of(m) == v,
            None => r matches Err(e) && e@ == at_key(key@),
        },
{
    match get(members, key) {
        None => Ok(None),
        Some(Json::Null) => Ok(None),
        Some(Json::Str(s)) => Ok(Some(s.clone())),
        Some(_) => Err(error_at(key)),
    }
}

/// Appends the member `key: value`.
pub fn push_member(members: &mut Vec<Member>, key: &str, value: Json)
    ensures
        fields_of(final(members)@) == fields_of(old(members)@).push((key@, value@)),
{
    members.push((key.to_owned(), value));
    assert(fields_of(members@) =~= fields_of(old(members)@).push((key@, value@)));
}

} // verus!
