//! A collection of plain records edited as a table: rows are appended,
//! replaced, and removed once a confirmation is given. The collection is
//! read from and written to a JSON array of the records' JSON forms.
use vstd::prelude::*;
use crate::dialogs::Gate;
use crate::json::{
    error_here, error_within, lemma_array_view, values_of, DecodeError, Json, JsonModel, Step,
    StepModel,
};

verus! {

/// A record type with a JSON form.
pub trait Record: Sized + View {
    /// The JSON form of a record.
    spec fn to_json(r: Self::V) -> JsonModel;

    /// The record that a JSON value describes, or the path to the first
    /// value that does not fit.
    spec fn of_json(j: JsonModel) -> Result<Self::V, Seq<StepModel>>;

    /// A record with every field at its default.
    spec fn blank_spec() -> Self::V;

    fn encode(&self) -> (r: Json)
        ensures
            r@ == Self::to_json(self@),
    ;

    fn decode(j: &Json) -> (r: Result<Self, DecodeError>)
        ensures
            match Self::of_json(j@) {
                Ok(m) => r matches Ok(v) && v@ == m,
                Err(p) => r matches Err(e) && e@ == p,
            },
    ;

    fn blank() -> (r: Self)
        ensures
            r@ == Self::blank_spec(),
    ;
}

/// The mathematical form of a list of records.
pub open spec fn models<R: Record>(rs: Seq<R>) -> Seq<R::V> {
    Seq::new(rs.len(), |i: int| rs[i]@)
}

/// The JSON array of a list of records.
pub open spec fn json_of_list<R: Record>(rs: Seq<R::V>) -> JsonModel {
    JsonModel::Array(Seq::new(rs.len(), |i: int| R::to_json(rs[i])))
}

/// The records that a list of JSON values describes, or the path to the
/// first value that does not fit.
pub open spec fn list_of_items<R: Record>(items: Seq<JsonModel>) -> Result<Seq<R::V>, Seq<StepModel>>
    decreases items.len(),
{
    if items.len() == 0 {
        Ok(Seq::empty())
    } else {
        let n = items.len() - 1;
        match list_of_items::<R>(items.subrange(0, n)) {
            Err(p) => Err(p),
            Ok(rs) => match R::of_json(items[n]) {
                Err(p) => Err(seq![StepModel::Index(n)] + p),
                Ok(r) => Ok(rs.push(r)),
            },
        }
    }
}

/// The records that a JSON array describes, or the path to the first value
/// that does not fit.
pub open spec fn list_of_json<R: Record>(j: JsonModel) -> Result<Seq<R::V>, Seq<StepModel>> {
    match j {
        JsonModel::Array(items) => list_of_items::<R>(items),
        _ => Err(Seq::empty()),
    }
}

pub proof fn lemma_list_error<R: Record>(items: Seq<JsonModel>, i: int, p: Seq<StepModel>, n: int)
    requires
        0 <= i < n <= items.len(),
        list_of_items::<R>(items.subrange(0, i)) is Ok,
        R::of_json(items[i]) == Err::<R::V, Seq<StepModel>>(p),
    ensures
        list_of_items::<R>(items.subrange(0, n)) == Err::<Seq<R::V>, Seq<StepModel>>(
            seq![StepModel::Index(i)] + p,
        ),
    decreases n,
{
    assert(items.subrange(0, n).subrange(0, n - 1) =~= items.subrange(0, n - 1));
    if n > i + 1 {
        lemma_list_error::<R>(items, i, p, n - 1);
    }
}

/// Decoding the JSON array of a list of records gives the list back, given
/// that each record's JSON form decodes to it.
pub proof fn lemma_list_round_trip<R: Record>(rs: Seq<R::V>)
    requires
        forall|r: R::V| #[trigger] R::of_json(R::to_json(r)) == Ok::<R::V, Seq<StepModel>>(r),
    ensures
        list_of_json::<R>(json_of_list::<R>(rs)) == Ok::<Seq<R::V>, Seq<StepModel>>(rs),
    decreases rs.len(),
{
    let items = Seq::new(rs.len(), |i: int| R::to_json(rs[i]));
    if rs.len() > 0 {
        let n = rs.len() - 1;
        assert(items.subrange(0, n) =~= Seq::new(n as nat, |i: int| R::to_json(rs.subrange(0, n)[i])));
        lemma_list_round_trip::<R>(rs.subrange(0, n));
        assert(R::of_json(items[n]) == Ok::<R::V, Seq<StepModel>>(rs[n]));
        assert(rs.subrange(0, n).push(rs[n]) =~= rs);
    } else {
        assert(rs =~= Seq::<R::V>::empty());
    }
}

/// Decodes a JSON array of records; see [`list_of_json`]. Nothing is kept
/// of a list that does not decode whole.
pub fn decode_list<R: Record>(j: &Json) -> (r: Result<Vec<R>, DecodeError>)
    ensures
        match list_of_json::<R>(j@) {
            Ok(m) => r matches Ok(rs) && models(rs@) == m,
            Err(p) => r matches Err(e) && e@ == p,
        },
{
    match j {
        Json::Array(items) => {
            proof {
                lemma_array_view(*items);
            }
            let ghost all = values_of(items@);
            let mut out: Vec<R> = Vec::new();
            let mut i: usize = 0;
            assert(all.subrange(0, 0) =~= Seq::<JsonModel>::empty());
            assert(models(out@) =~= Seq::<R::V>::empty());
            while i < items.len()
                invariant
                    i <= items.len(),
                    out.len() == i,
                    all == values_of(items@),
                    j@ == JsonModel::Array(all),
                    list_of_items::<R>(all.subrange(0, i as int)) == Ok::<Seq<R::V>, Seq<StepModel>>(
                        models(out@),
                    ),
                decreases items.len() - i,
            {
                assert(all.subrange(0, i + 1).subrange(0, i as int) =~= all.subrange(0, i as int));
                match R::decode(&items[i]) {
                    Ok(rec) => {
                        let ghost prev = out@;
                        let ghost rv = rec@;
                        out.push(rec);
                        assert(models(out@) =~= models(prev).push(rv));
                    },
                    Err(e) => {
                        proof {
                            lemma_list_error::<R>(all, i as int, e@, all.len() as int);
                            assert(all.subrange(0, all.len() as int) =~= all);
                        }
                        return Err(error_within(Step::Index(i), e));
                    },
                }
                i = i + 1;
            }
            assert(all.subrange(0, i as int) =~= all);
            Ok(out)
        },
        _ => Err(error_here()),
    }
}

/// The JSON array of a list of records.
pub fn encode_list<R: Record>(rs: &Vec<R>) -> (r: Json)
    ensures
        r@ == json_of_list::<R>(models(rs@)),
{
    let mut items: Vec<Json> = Vec::new();
    let mut i: usize = 0;
    while i < rs.len()
        invariant
            i <= rs.len(),
            values_of(items@) =~= Seq::new(i as nat, |k: int| R::to_json(rs@[k]@)),
        decreases rs.len() - i,
    {
        let ghost prev = items@;
        let e = rs[i].encode();
        items.push(e);
        assert(values_of(items@) =~= values_of(prev).push(e@));
        i = i + 1;
    }
    assert(values_of(items@) =~= Seq::new(models(rs@).len(), |k: int| R::to_json(models(rs@)[k])));
    proof {
        lemma_array_view(items);
    }
    Json::Array(items)
}

/// What the user did in one frame of a table view: append a row, move a
/// row down, ask to remove a row, and answer a waiting removal.
#[derive(Clone, Copy)]
pub struct RowFrame {
    pub add: bool,
    pub move_down: Option<usize>,
    pub delete: Option<usize>,
    pub answer: Option<bool>,
}

/// The rows and the waiting removal after one frame in which `add`, if
/// any, is the row appended; see [`Table::frame`].
pub open spec fn table_step<V>(rows: Seq<V>, pending: Option<usize>, add: Option<V>, f: RowFrame) -> (Seq<V>, Option<usize>) {
    let rows1 = match add {
        Some(r) => if rows.len() < usize::MAX {
            rows.push(r)
        } else {
            rows
        },
        None => rows,
    };
    let rows2 = match f.move_down {
        Some(i) => if i + 1 < rows1.len() {
            rows1.update(i as int, rows1[i + 1]).update(i + 1, rows1[i as int])
        } else {
            rows1
        },
        None => rows1,
    };
    let p3 = match f.delete {
        Some(i) => if pending is None && i < rows2.len() {
            Some(i)
        } else {
            pending
        },
        None => pending,
    };
    match f.answer {
        Some(ok) => match p3 {
            Some(i) => (if ok && i < rows2.len() {
                rows2.remove(i as int)
            } else {
                rows2
            }, None),
            None => (rows2, None),
        },
        None => (rows2, p3),
    }
}

/// The rows of a table and the confirmation gate for removing one.
pub struct Table<R> {
    entries: Vec<R>,
    gate: Gate,
}

impl<R: Record> Table<R> {
    pub closed spec fn rows(&self) -> Seq<R::V> {
        models(self.entries@)
    }

    pub closed spec fn pending(&self) -> Option<usize> {
        self.gate.spec_pending()
    }

    /// An empty table.
    pub fn new() -> (r: Table<R>)
        ensures
            r.rows() == Seq::<R::V>::empty(),
            r.pending() is None,
    {
        let r = Table { entries: Vec::new(), gate: Gate::new() };
        assert(r.rows() =~= Seq::<R::V>::empty());
        r
    }

    /// The rows.
    pub fn entries(&self) -> (r: &Vec<R>)
        ensures
            models(r@) == self.rows(),
    {
        &self.entries
    }

    /// The row whose removal waits for confirmation, if any.
    pub fn pending_delete(&self) -> (r: Option<usize>)
        ensures
            r == self.pending(),
    {
        self.gate.pending()
    }

    /// Takes the rows that `j` describes in place of the present ones; no
    /// removal waits afterwards. A value that does not decode leaves the
    /// table unchanged.
    pub fn load(&mut self, j: &Json) -> (r: Result<(), DecodeError>)
        ensures
            match list_of_json::<R>(j@) {
                Ok(rs) => r is Ok && final(self).rows() == rs && final(self).pending() is None,
                Err(p) => r matches Err(e) && e@ == p && final(self).rows() == old(self).rows()
                    && final(self).pending() == old(self).pending(),
            },
    {
        match decode_list::<R>(j) {
            Ok(rs) => {
                self.entries = rs;
                self.gate = Gate::new();
                Ok(())
            },
            Err(e) => Err(e),
        }
    }

    /// The JSON array of the rows.
    pub fn save(&self) -> (r: Json)
        ensures
            r@ == json_of_list::<R>(self.rows()),
    {
        encode_list(&self.entries)
    }

    /// Appends `row`, and returns its index.
    pub fn push(&mut self, row: R) -> (r: usize)
        requires
            old(self).rows().len() < usize::MAX,
        ensures
            r == old(self).rows().len(),
            final(self).rows() == old(self).rows().push(row@),
            final(self).pending() == old(self).pending(),
    {
        let ghost v = row@;
        self.entries.push(row);
        assert(self.rows() =~= old(self).rows().push(v));
        self.entries.len() - 1
    }

    /// Appends a row with every field at its default, and returns its index.
    pub fn add(&mut self) -> (r: usize)
        requires
            old(self).rows().len() < usize::MAX,
        ensures
            r == old(self).rows().len(),
            final(self).rows() == old(self).rows().push(R::blank_spec()),
            final(self).pending() == old(self).pending(),
    {
        self.push(R::blank())
    }

    /// Replaces the row at `index`.
    pub fn set(&mut self, index: usize, row: R) -> (done: bool)
        ensures
            done == (index < old(self).rows().len()),
            done ==> final(self).rows() == old(self).rows().update(index as int, row@),
            !done ==> final(self).rows() == old(self).rows(),
            final(self).pending() == old(self).pending(),
    {
        if index >= self.entries.len() {
            return false;
        }
        let ghost v = row@;
        self.entries.remove(index);
        self.entries.insert(index, row);
        assert(self.rows() =~= old(self).rows().update(index as int, v));
        true
    }

    /// Swaps the row at `index` with the one after it.
    pub fn move_down(&mut self, index: usize) -> (done: bool)
        ensures
            done == (index + 1 < old(self).rows().len()),
            done ==> final(self).rows() == old(self).rows().update(
                index as int,
                old(self).rows()[index + 1],
            ).update(index + 1, old(self).rows()[index as int]),
            !done ==> final(self).rows() == old(self).rows(),
            final(self).pending() == old(self).pending(),
    {
        if index >= self.entries.len() || index + 1 >= self.entries.len() {
            return false;
        }
        let row = self.entries.remove(index + 1);
        self.entries.insert(index, row);
        assert(self.rows() =~= old(self).rows().update(index as int, old(self).rows()[index + 1]).update(
            index + 1,
            old(self).rows()[index as int],
        ));
        true
    }

    /// Asks to remove the row at `index`. Refused while another removal
    /// waits, or when there is no such row.
    pub fn request_delete(&mut self, index: usize) -> (accepted: bool)
        ensures
            accepted == (old(self).pending() is None && index < old(self).rows().len()),
            accepted ==> final(self).pending() == Some(index),
            !accepted ==> final(self).pending() == old(self).pending(),
            final(self).rows() == old(self).rows(),
    {
        if index < self.entries.len() {
            self.gate.request(index)
        } else {
            false
        }
    }

    /// Carries out one frame in the order of [`RowFrame`], with `add` the row
    /// to append, if any.
    pub fn frame(&mut self, add: Option<R>, f: RowFrame)
        ensures
            (final(self).rows(), final(self).pending()) == table_step(
                old(self).rows(),
                old(self).pending(),
                match add {
                    Some(row) => Some(row@),
                    None => None::<R::V>,
                },
                f,
            ),
    {
        match add {
            Some(row) => {
                if self.entries.len() < usize::MAX {
                    self.push(row);
                }
            },
            None => {},
        }
        match f.move_down {
            Some(i) => {
                self.move_down(i);
            },
            None => {},
        }
        match f.delete {
            Some(i) => {
                self.request_delete(i);
            },
            None => {},
        }
        match f.answer {
            Some(ok) => {
                self.resolve_delete(ok);
            },
            None => {},
        }
    }

    /// Answers the waiting question; when confirmed, the waiting row is
    /// removed. Nothing waits afterwards.
    pub fn resolve_delete(&mut self, confirmed: bool) -> (removed: bool)
        ensures
            final(self).pending() is None,
            removed == (confirmed && old(self).pending() is Some && old(self).pending()->0 < old(
                self,
            ).rows().len()),
            removed ==> final(self).rows() == old(self).rows().remove(old(self).pending()->0 as int),
            !removed ==> final(self).rows() == old(self).rows(),
    {
        match self.gate.resolve(confirmed) {
            Some(i) => {
                if i < self.entries.len() {
                    self.entries.remove(i);
                    assert(self.rows() =~= old(self).rows().remove(i as int));
                    true
                } else {
                    false
                }
            },
            None => false,
        }
    }
}

} // verus!
