//! Tile definitions: a tile record owns a tree of variants, each of which
//! may hold further variants to any depth.
use vstd::prelude::*;
use crate::choice::{Coord, Ident, IdentView};
use crate::json::{DecodeError, Json};
use crate::tile_codec::{decode_tiles, encode_tiles, json_of_tiles, tiles_of_json};
use crate::tile_tree::{
    adjust, apply_path, apply_vpath, children_at, is_prefix, lemma_remove_adjusts_path,
    lemma_apply_keeps_prefix, remove_path, same_node, tile_with_children, valid_path, valid_vpath,
    variant_at, variant_after, with_children, Op,
};

verus! {

/// Width and height that a tile or variant has unless it says otherwise.
pub const DEFAULT_DIMENSION: u32 = 18;

/// The width or height that an absent member gives.
pub fn default_dimension() -> (r: u32)
    ensures
        r == DEFAULT_DIMENSION,
{
    DEFAULT_DIMENSION
}

/// Whether a width or height is the one an absent member gives.
pub fn is_default_dimension(d: &u32) -> (r: bool)
    ensures
        r == (*d == DEFAULT_DIMENSION),
{
    *d == DEFAULT_DIMENSION
}

/// A field type whose default value is left out of the encoded form.
pub trait DefaultValue {
    spec fn spec_is_default(&self) -> bool;

    fn is_default_value(&self) -> (r: bool)
        ensures
            r == self.spec_is_default(),
    ;
}

impl DefaultValue for i32 {
    open spec fn spec_is_default(&self) -> bool {
        *self == 0
    }

    fn is_default_value(&self) -> (r: bool) {
        *self == 0
    }
}

impl DefaultValue for u16 {
    open spec fn spec_is_default(&self) -> bool {
        *self == 0
    }

    fn is_default_value(&self) -> (r: bool) {
        *self == 0
    }
}

impl DefaultValue for u32 {
    open spec fn spec_is_default(&self) -> bool {
        *self == 0
    }

    fn is_default_value(&self) -> (r: bool) {
        *self == 0
    }
}

impl DefaultValue for String {
    open spec fn spec_is_default(&self) -> bool {
        self@.len() == 0
    }

    fn is_default_value(&self) -> (r: bool) {
        self.as_str().unicode_len() == 0
    }
}

/// Whether a field holds its type's default value (zero, or the empty string).
pub fn is_default<T: DefaultValue>(t: &T) -> (r: bool)
    ensures
        r == t.spec_is_default(),
{
    t.is_default_value()
}

/// One of the facets that a tile's flags hold, one bit each.
#[derive(Clone, Copy, PartialEq, Eq, Structural, Debug)]
pub enum Facet {
    Solid,
    Transparent,
    Dirt,
    Stone,
    Grass,
    Pile,
    Flip,
    Brick,
    Moss,
    Merge,
    Large,
}

impl Facet {
    pub open spec fn spec_bit(self) -> u16 {
        match self {
            Facet::Solid => 0x1,
            Facet::Transparent => 0x2,
            Facet::Dirt => 0x4,
            Facet::Stone => 0x8,
            Facet::Grass => 0x10,
            Facet::Pile => 0x20,
            Facet::Flip => 0x40,
            Facet::Brick => 0x80,
            Facet::Moss => 0x100,
            Facet::Merge => 0x200,
            Facet::Large => 0x400,
        }
    }

    /// The bit of the flags that holds this facet.
    #[verifier::when_used_as_spec(spec_bit)]
    pub fn bit(self) -> (r: u16)
        ensures
            r == self.spec_bit(),
    {
        match self {
            Facet::Solid => 0x1,
            Facet::Transparent => 0x2,
            Facet::Dirt => 0x4,
            Facet::Stone => 0x8,
            Facet::Grass => 0x10,
            Facet::Pile => 0x20,
            Facet::Flip => 0x40,
            Facet::Brick => 0x80,
            Facet::Moss => 0x100,
            Facet::Merge => 0x200,
            Facet::Large => 0x400,
        }
    }
}

/// Whether `flags` has the facet `f`.
pub open spec fn has_facet(flags: u16, f: Facet) -> bool {
    flags & f.bit() != 0
}

impl Facet {
    /// The position of this facet among the eleven, and of its bit.
    pub open spec fn spec_index(self) -> int {
        match self {
            Facet::Solid => 0,
            Facet::Transparent => 1,
            Facet::Dirt => 2,
            Facet::Stone => 3,
            Facet::Grass => 4,
            Facet::Pile => 5,
            Facet::Flip => 6,
            Facet::Brick => 7,
            Facet::Moss => 8,
            Facet::Merge => 9,
            Facet::Large => 10,
        }
    }
}

/// Whether `flags` has the facet `f`; see [`has_facet`].
pub fn facet_set(flags: u16, f: Facet) -> (r: bool)
    ensures
        r == has_facet(flags, f),
{
    flags & f.bit() != 0
}

/// The flags that hold exactly the facets marked in `on`, the facet at
/// position `k` (see [`Facet::spec_index`]) in bit `k`, and no other bit.
pub fn flags_from_facets(on: [bool; 11]) -> (r: u16)
    ensures
        r & 0xF800 == 0,
        forall|f: Facet| #[trigger] has_facet(r, f) == on@[f.spec_index()],
{
    let x0: u16 = if on[0] { 1 } else { 0 };
    let x1: u16 = if on[1] { 1 } else { 0 };
    let x2: u16 = if on[2] { 1 } else { 0 };
    let x3: u16 = if on[3] { 1 } else { 0 };
    let x4: u16 = if on[4] { 1 } else { 0 };
    let x5: u16 = if on[5] { 1 } else { 0 };
    let x6: u16 = if on[6] { 1 } else { 0 };
    let x7: u16 = if on[7] { 1 } else { 0 };
    let x8: u16 = if on[8] { 1 } else { 0 };
    let x9: u16 = if on[9] { 1 } else { 0 };
    let x10: u16 = if on[10] { 1 } else { 0 };
    let r = x0 | (x1 << 1u16) | (x2 << 2u16) | (x3 << 3u16) | (x4 << 4u16) | (x5 << 5u16) | (x6 << 6u16) | (x7 << 7u16) | (x8 << 8u16) | (x9 << 9u16) | (x10 << 10u16);
    assert(r & 0xF800 == 0 && ((r & 0x1) != 0) == (x0 == 1) && ((r & 0x2) != 0) == (x1 == 1) && ((r & 0x4) != 0) == (x2 == 1) && ((r & 0x8) != 0) == (x3 == 1) && ((r & 0x10) != 0) == (x4 == 1) && ((r & 0x20) != 0) == (x5 == 1) && ((r & 0x40) != 0) == (x6 == 1) && ((r & 0x80) != 0) == (x7 == 1) && ((r & 0x100) != 0) == (x8 == 1) && ((r & 0x200) != 0) == (x9 == 1) && ((r & 0x400) != 0) == (x10 == 1)) by (bit_vector)
        requires
            x0 <= 1,
            x1 <= 1,
            x2 <= 1,
            x3 <= 1,
            x4 <= 1,
            x5 <= 1,
            x6 <= 1,
            x7 <= 1,
            x8 <= 1,
            x9 <= 1,
            x10 <= 1,
            r == x0 | (x1 << 1u16) | (x2 << 2u16) | (x3 << 3u16) | (x4 << 4u16) | (x5 << 5u16) | (x6 << 6u16) | (x7 << 7u16) | (x8 << 8u16) | (x9 << 9u16) | (x10 << 10u16),
    ;
    assert forall|f: Facet| #[trigger] has_facet(r, f) == on@[f.spec_index()] by {
        match f {
            Facet::Solid => {},
            Facet::Transparent => {},
            Facet::Dirt => {},
            Facet::Stone => {},
            Facet::Grass => {},
            Facet::Pile => {},
            Facet::Flip => {},
            Facet::Brick => {},
            Facet::Moss => {},
            Facet::Merge => {},
            Facet::Large => {},
        }
    }
    r
}

/// A conditional override of a tile's appearance, chosen by predicates on
/// the X and Y coordinates.
pub struct TileVariant {
    pub x: Coord,
    pub y: Coord,
    pub ident: Ident,
    pub color: Option<String>,
    pub toppad: i32,
    pub w: u32,
    pub h: u32,
    pub var: Vec<TileVariant>,
}

/// A tile definition.
pub struct Tile {
    pub id: i32,
    pub ident: Ident,
    pub color: Option<String>,
    pub flags: u16,
    pub merge: String,
    pub blend: String,
    pub skipy: u32,
    pub toppad: i32,
    pub w: u32,
    pub h: u32,
    pub var: Vec<TileVariant>,
}

/// The mathematical form of a [`TileVariant`].
pub struct VariantModel {
    pub x: Coord,
    pub y: Coord,
    pub ident: IdentView,
    pub color: Option<Seq<char>>,
    pub toppad: i32,
    pub w: u32,
    pub h: u32,
    pub var: Seq<VariantModel>,
}

/// The mathematical form of a [`Tile`].
pub struct TileModel {
    pub id: i32,
    pub ident: IdentView,
    pub color: Option<Seq<char>>,
    pub flags: u16,
    pub merge: Seq<char>,
    pub blend: Seq<char>,
    pub skipy: u32,
    pub toppad: i32,
    pub w: u32,
    pub h: u32,
    pub var: Seq<VariantModel>,
}

/// An optional string as an optional character sequence.
pub open spec fn opt_text(o: Option<String>) -> Option<Seq<char>> {
    match o {
        Some(s) => Some(s@),
        None => None,
    }
}

/// The mathematical form of a variant and its subtree.
pub open spec fn variant_model(v: TileVariant) -> VariantModel
    decreases v,
{
    VariantModel {
        x: v.x,
        y: v.y,
        ident: v.ident@,
        color: opt_text(v.color),
        toppad: v.toppad,
        w: v.w,
        h: v.h,
        var: Seq::new(
            v.var@.len(),
            |i: int|
                if 0 <= i < v.var@.len() {
                    variant_model(v.var@[i])
                } else {
                    default_variant()
                },
        ),
    }
}

impl View for TileVariant {
    type V = VariantModel;

    open spec fn view(&self) -> VariantModel {
        variant_model(*self)
    }
}

/// The mathematical form of a list of tiles.
pub open spec fn tile_models(ts: Seq<Tile>) -> Seq<TileModel> {
    Seq::new(ts.len(), |i: int| ts[i]@)
}

/// The mathematical form of a list of variants.
pub open spec fn variants_of(vs: Seq<TileVariant>) -> Seq<VariantModel> {
    Seq::new(vs.len(), |i: int| vs[i]@)
}

impl View for Tile {
    type V = TileModel;

    open spec fn view(&self) -> TileModel {
        TileModel {
            id: self.id,
            ident: self.ident@,
            color: opt_text(self.color),
            flags: self.flags,
            merge: self.merge@,
            blend: self.blend@,
            skipy: self.skipy,
            toppad: self.toppad,
            w: self.w,
            h: self.h,
            var: variants_of(self.var@),
        }
    }
}

pub proof fn lemma_variant_view(v: TileVariant)
    ensures
        v@.var == variants_of(v.var@),
{
    assert(v@.toppad == v.toppad);
    assert(v@.var.len() == v.var@.len());
    assert forall|i: int| 0 <= i < v.var@.len() implies v@.var[i] == variants_of(v.var@)[i] by {
        assert(v@.var[i] == v.var[i]@);
    }
    assert(v@.var =~= variants_of(v.var@));
}

/// A variant that matches everything and overrides nothing.
pub open spec fn default_variant() -> VariantModel {
    VariantModel {
        x: Coord::Any,
        y: Coord::Any,
        ident: IdentView::Unset,
        color: None,
        toppad: 0,
        w: DEFAULT_DIMENSION,
        h: DEFAULT_DIMENSION,
        var: Seq::empty(),
    }
}

/// A tile with every field at its default.
pub open spec fn default_tile() -> TileModel {
    TileModel {
        id: 0,
        ident: IdentView::Unset,
        color: None,
        flags: 0,
        merge: Seq::empty(),
        blend: Seq::empty(),
        skipy: 0,
        toppad: 0,
        w: DEFAULT_DIMENSION,
        h: DEFAULT_DIMENSION,
        var: Seq::empty(),
    }
}

impl TileVariant {
    /// A variant that matches everything and overrides nothing.
    pub fn new() -> (r: TileVariant)
        ensures
            r@ == default_variant(),
    {
        let r = TileVariant {
            x: Coord::Any,
            y: Coord::Any,
            ident: Ident::Unset,
            color: None,
            toppad: 0,
            w: DEFAULT_DIMENSION,
            h: DEFAULT_DIMENSION,
            var: Vec::new(),
        };
        assert(r@.var =~= Seq::<VariantModel>::empty());
        r
    }
}

impl Tile {
    /// A tile with every field at its default.
    pub fn new() -> (r: Tile)
        ensures
            r@ == default_tile(),
    {
        let r = Tile {
            id: 0,
            ident: Ident::Unset,
            color: None,
            flags: 0,
            merge: String::new(),
            blend: String::new(),
            skipy: 0,
            toppad: 0,
            w: DEFAULT_DIMENSION,
            h: DEFAULT_DIMENSION,
            var: Vec::new(),
        };
        assert(r@.var =~= Seq::<VariantModel>::empty());
        r
    }
}


/// A change to make at the open node; see [`Op`].
pub enum NodeEdit {
    AddChild,
    RemoveChild(usize),
    SetFields(TileVariant),
}

impl View for NodeEdit {
    type V = Op;

    open spec fn view(&self) -> Op {
        match self {
            NodeEdit::AddChild => Op::AddChild,
            NodeEdit::RemoveChild(c) => Op::RemoveChild(*c),
            NodeEdit::SetFields(v) => Op::SetFields(v@),
        }
    }
}

/// The part of a path from index `k` on.
pub open spec fn tail(p: Seq<usize>, k: int) -> Seq<usize> {
    p.subrange(k, p.len() as int)
}

proof fn lemma_tail(p: Seq<usize>, k: int)
    requires
        0 <= k < p.len(),
    ensures
        tail(p, k).len() == p.len() - k,
        tail(p, k)[0] == p[k],
        tail(p, k).drop_first() == tail(p, k + 1),
{
    assert(tail(p, k).drop_first() =~= tail(p, k + 1));
}

/// Whether `p` from index `k` on leads from `vars` to a variant.
fn vpath_valid(vars: &Vec<TileVariant>, p: &Vec<usize>, k: usize) -> (r: bool)
    requires
        k <= p.len(),
    ensures
        r == valid_vpath(variants_of(vars@), tail(p@, k as int)),
    decreases p.len() - k,
{
    if k >= p.len() {
        assert(tail(p@, k as int).len() == 0);
        true
    } else {
        proof {
            lemma_tail(p@, k as int);
        }
        let i = p[k];
        if i >= vars.len() {
            false
        } else {
            proof {
                lemma_variant_view(vars@[i as int]);
            }
            vpath_valid(&vars[i].var, p, k + 1)
        }
    }
}

/// The variant that `p` from index `k` on leads to from `vars`.
fn variant_ref<'a>(vars: &'a Vec<TileVariant>, p: &Vec<usize>, k: usize) -> (r: &'a TileVariant)
    requires
        k < p.len(),
        valid_vpath(variants_of(vars@), tail(p@, k as int)),
    ensures
        r@ == variant_at(variants_of(vars@), tail(p@, k as int)),
    decreases p.len() - k,
{
    proof {
        lemma_tail(p@, k as int);
    }
    let i = p[k];
    if k + 1 == p.len() {
        &vars[i]
    } else {
        proof {
            lemma_variant_view(vars@[i as int]);
        }
        variant_ref(&vars[i].var, p, k + 1)
    }
}

/// Whether an edit can be made at a node with `n` children.
pub open spec fn edit_fits(op: Op, n: int) -> bool {
    op is RemoveChild ==> op->RemoveChild_0 < n
}

/// Makes the change `op` at the variant that `p` from index `k` on leads to.
fn apply_in(vars: &mut Vec<TileVariant>, p: &Vec<usize>, k: usize, op: NodeEdit)
    requires
        k < p.len(),
        valid_vpath(variants_of(old(vars)@), tail(p@, k as int)),
        edit_fits(op@, variant_at(variants_of(old(vars)@), tail(p@, k as int)).var.len() as int),
    ensures
        variants_of(final(vars)@) == apply_vpath(variants_of(old(vars)@), tail(p@, k as int), op@),
    decreases p.len() - k,
{
    proof {
        lemma_tail(p@, k as int);
    }
    let ghost before = variants_of(vars@);
    let i = p[k];
    let mut v = vars.remove(i);
    proof {
        lemma_variant_view(v);
    }
    let ghost old_v = v@;
    assert(old_v == before[i as int]);
    if k + 1 == p.len() {
        let ghost old_children = v.var@;
        let ghost the_op = op@;
        match op {
            NodeEdit::AddChild => {
                v.var.push(TileVariant::new());
                assert(variants_of(v.var@) =~= variants_of(old_children).push(default_variant()));
            },
            NodeEdit::RemoveChild(c) => {
                v.var.remove(c);
                assert(variants_of(v.var@) =~= variants_of(old_children).remove(c as int));
            },
            NodeEdit::SetFields(n) => {
                let mut n = n;
                proof {
                    lemma_variant_view(n);
                }
                let ghost fields = n@;
                n.var = v.var;
                v = n;
                proof {
                    lemma_variant_view(v);
                }
                assert(v@ == with_children(fields, old_v.var));
            },
        }
        proof {
            lemma_variant_view(v);
        }
        assert(v@ =~= variant_after(old_v, the_op));
    } else {
        apply_in(&mut v.var, p, k + 1, op);
        proof {
            lemma_variant_view(v);
        }
        assert(v@ =~= with_children(old_v, apply_vpath(old_v.var, tail(p@, k + 1), op@)));
    }
    let ghost mid = vars@;
    vars.insert(i, v);
    assert(variants_of(vars@) =~= before.update(i as int, v@));
}

/// Makes the change `op` at the node that `p` leads to.
fn apply_at(entries: &mut Vec<Tile>, p: &Vec<usize>, op: NodeEdit)
    requires
        valid_path(tile_models(old(entries)@), p@),
        edit_fits(op@, children_at(tile_models(old(entries)@), p@).len() as int),
    ensures
        tile_models(final(entries)@) == apply_path(tile_models(old(entries)@), p@, op@),
        p@.len() > 1 ==> valid_path(tile_models(final(entries)@), p@),
{
    let ghost before = tile_models(entries@);
    let ghost the_op = op@;
    let i = p[0];
    let mut t = entries.remove(i);
    let ghost old_t = t@;
    assert(old_t == before[i as int]);
    if p.len() == 1 {
        let ghost old_children = t.var@;
        match op {
            NodeEdit::AddChild => {
                t.var.push(TileVariant::new());
                assert(variants_of(t.var@) =~= variants_of(old_children).push(default_variant()));
            },
            NodeEdit::RemoveChild(c) => {
                t.var.remove(c);
                assert(variants_of(t.var@) =~= variants_of(old_children).remove(c as int));
            },
            NodeEdit::SetFields(_) => {},
        }
    } else {
        proof {
            lemma_tail(p@, 0);
            assert(tail(p@, 1) == p@.drop_first());
        }
        apply_in(&mut t.var, p, 1, op);
        proof {
            assert(p@.drop_first().subrange(0, p@.len() - 1) =~= p@.drop_first());
            lemma_apply_keeps_prefix(old_t.var, p@.drop_first(), the_op, p@.drop_first());
        }
    }
    entries.insert(i, t);
    assert(tile_models(entries@) =~= before.update(i as int, t@));
}

/// The first `n` indices of `v`.
fn copy_prefix(v: &Vec<usize>, n: usize) -> (r: Vec<usize>)
    requires
        n <= v.len(),
    ensures
        r@ == v@.subrange(0, n as int),
{
    let mut r: Vec<usize> = Vec::new();
    let mut i: usize = 0;
    while i < n
        invariant
            i <= n <= v.len(),
            r@ == v@.subrange(0, i as int),
        decreases n - i,
    {
        r.push(v[i]);
        assert(r@ =~= v@.subrange(0, i + 1));
        i = i + 1;
    }
    r
}

/// Whether `a` and `b` agree on their first `n` indices.
fn same_prefix(a: &Vec<usize>, b: &Vec<usize>, n: usize) -> (r: bool)
    requires
        n <= a.len(),
        n <= b.len(),
    ensures
        r == (a@.subrange(0, n as int) == b@.subrange(0, n as int)),
{
    let mut i: usize = 0;
    while i < n
        invariant
            i <= n <= a.len(),
            n <= b.len(),
            a@.subrange(0, i as int) == b@.subrange(0, i as int),
        decreases n - i,
    {
        if a[i] != b[i] {
            assert(a@.subrange(0, n as int)[i as int] != b@.subrange(0, n as int)[i as int]);
            return false;
        }
        assert(a@.subrange(0, i + 1) =~= b@.subrange(0, i + 1));
        i = i + 1;
    }
    true
}

/// The open path `p` after the node that `q` leads to is removed; see
/// [`adjust`].
pub fn adjusted(p: &Vec<usize>, q: &Vec<usize>) -> (r: Vec<usize>)
    requires
        q.len() >= 1,
    ensures
        r@ == adjust(p@, q@),
{
    let k = q.len() - 1;
    if q.len() <= p.len() && same_prefix(p, q, q.len()) {
        assert(q@.subrange(0, q.len() as int) =~= q@);
        let r = copy_prefix(q, k);
        assert(r@ =~= q@.drop_last());
        r
    } else {
        proof {
            if q.len() <= p.len() {
                assert(q@.subrange(0, q.len() as int) =~= q@);
            }
        }
        let mut r = copy_prefix(p, p.len());
        assert(r@ =~= p@);
        if k < p.len() && same_prefix(p, q, k) && q[k] < p[k] {
            r.set(k, p[k] - 1);
        }
        r
    }
}

/// The tiles being edited, the edit path, and the node whose removal waits
/// for a yes or no.
///
/// The edit path is empty while no tile is open; otherwise it leads to the
/// open node: its first index picks a tile, each further one a variant among
/// the children of the node before. The path always leads to a node.
pub struct Tiles {
    entries: Vec<Tile>,
    to_delete: Option<Vec<usize>>,
    to_edit: Vec<usize>,
}

impl Tiles {
    pub closed spec fn tiles(&self) -> Seq<TileModel> {
        tile_models(self.entries@)
    }

    pub closed spec fn path(&self) -> Seq<usize> {
        self.to_edit@
    }

    /// The path of the node whose removal waits for an answer, if any.
    pub closed spec fn pending(&self) -> Option<Seq<usize>> {
        match self.to_delete {
            Some(q) => Some(q@),
            None => None,
        }
    }

    /// The edit path is closed or leads to a node, and a waiting removal
    /// leads to a node.
    pub open spec fn wf(&self) -> bool {
        &&& self.path().len() == 0 || valid_path(self.tiles(), self.path())
        &&& self.pending() is Some ==> valid_path(self.tiles(), self.pending()->0)
    }

    /// The whole state of the editor.
    pub open spec fn state(&self) -> EditState {
        EditState { tiles: self.tiles(), path: self.path(), pending: self.pending() }
    }

    /// An editor with no tiles.
    pub fn new() -> (r: Tiles)
        ensures
            r.wf(),
            r.tiles() == Seq::<TileModel>::empty(),
            r.path() == Seq::<usize>::empty(),
            r.pending() is None,
    {
        let r = Tiles { entries: Vec::new(), to_delete: None, to_edit: Vec::new() };
        assert(r.tiles() =~= Seq::<TileModel>::empty());
        r
    }

    /// The tiles.
    pub fn entries(&self) -> (r: &Vec<Tile>)
        ensures
            tile_models(r@) == self.tiles(),
    {
        &self.entries
    }

    /// The edit path; empty while no tile is open.
    pub fn edit_path(&self) -> (r: &Vec<usize>)
        ensures
            r@ == self.path(),
    {
        &self.to_edit
    }

    /// The path of the node whose removal waits for confirmation, if any.
    pub fn pending_delete(&self) -> (r: Option<&Vec<usize>>)
        ensures
            match r {
                Some(q) => self.pending() == Some(q@),
                None => self.pending() is None,
            },
    {
        match &self.to_delete {
            Some(q) => Some(q),
            None => None,
        }
    }

    /// Takes the tiles that `j` describes in place of the present ones; no
    /// tile is open and no removal waits afterwards. A value that does not
    /// decode leaves everything unchanged.
    pub fn load(&mut self, j: &Json) -> (r: Result<(), DecodeError>)
        requires
            old(self).wf(),
        ensures
            final(self).wf(),
            match tiles_of_json(j@) {
                Ok(ts) => r is Ok && final(self).tiles() == ts && final(self).path().len() == 0
                    && final(self).pending() is None,
                Err(p) => r matches Err(e) && e@ == p && final(self).tiles() == old(self).tiles()
                    && final(self).path() == old(self).path() && final(self).pending() == old(
                    self,
                ).pending(),
            },
    {
        match decode_tiles(j) {
            Ok(ts) => {
                self.entries = ts;
                self.to_edit = Vec::new();
                self.to_delete = None;
                Ok(())
            },
            Err(e) => Err(e),
        }
    }

    /// The JSON array of the tiles.
    pub fn save(&self) -> (r: Json)
        ensures
            r@ == json_of_tiles(self.tiles()),
    {
        encode_tiles(&self.entries)
    }

    /// Appends a tile with every field at its default, and returns its index.
    pub fn add_tile(&mut self) -> (r: usize)
        requires
            old(self).wf(),
            old(self).tiles().len() < usize::MAX,
        ensures
            final(self).wf(),
            r == old(self).tiles().len(),
            final(self).tiles() == old(self).tiles().push(default_tile()),
            final(self).path() == old(self).path(),
            final(self).pending() == old(self).pending(),
    {
        self.entries.push(Tile::new());
        assert(self.tiles() =~= old(self).tiles().push(default_tile()));
        if self.to_edit.len() > 0 {
            assert(self.tiles()[self.to_edit@[0] as int] == old(self).tiles()[self.to_edit@[0] as int]);
        }
        if let Some(q) = &self.to_delete {
            assert(self.tiles()[q@[0] as int] == old(self).tiles()[q@[0] as int]);
        }
        self.entries.len() - 1
    }

    /// Whether `p` leads to a node.
    pub fn node_exists(&self, p: &Vec<usize>) -> (r: bool)
        ensures
            r == valid_path(self.tiles(), p@),
    {
        if p.len() == 0 || p[0] >= self.entries.len() {
            false
        } else {
            proof {
                lemma_tail(p@, 0);
                assert(tail(p@, 1) == p@.drop_first());
            }
            vpath_valid(&self.entries[p[0]].var, p, 1)
        }
    }

    /// The open tile, when the path leads to a tile.
    pub fn current_tile(&self) -> (r: Option<&Tile>)
        requires
            self.wf(),
        ensures
            match r {
                Some(t) => self.path().len() == 1 && t@ == self.tiles()[self.path()[0] as int],
                None => self.path().len() != 1,
            },
    {
        if self.to_edit.len() == 1 {
            Some(&self.entries[self.to_edit[0]])
        } else {
            None
        }
    }

    /// The open variant, when the path leads to a variant.
    pub fn current_variant(&self) -> (r: Option<&TileVariant>)
        requires
            self.wf(),
        ensures
            match r {
                Some(v) => self.path().len() > 1 && v@ == variant_at(
                    self.tiles()[self.path()[0] as int].var,
                    self.path().drop_first(),
                ),
                None => self.path().len() <= 1,
            },
    {
        if self.to_edit.len() > 1 {
            proof {
                lemma_tail(self.to_edit@, 0);
                assert(tail(self.to_edit@, 1) == self.to_edit@.drop_first());
            }
            Some(variant_ref(&self.entries[self.to_edit[0]].var, &self.to_edit, 1))
        } else {
            None
        }
    }

    /// The number of children of the open node, or of tiles while none is
    /// open.
    pub fn child_count(&self) -> (r: usize)
        requires
            self.wf(),
        ensures
            r == (if self.path().len() == 0 {
                self.tiles().len()
            } else {
                children_at(self.tiles(), self.path()).len()
            }),
    {
        if self.to_edit.len() == 0 {
            self.entries.len()
        } else if self.to_edit.len() == 1 {
            proof {
                lemma_tiles_view(self.entries@, self.to_edit@[0] as int);
            }
            self.entries[self.to_edit[0]].var.len()
        } else {
            let v = match self.current_variant() {
                Some(v) => v,
                None => {
                    return 0;
                },
            };
            proof {
                lemma_variant_view(*v);
            }
            v.var.len()
        }
    }

    /// Opens the tile at `index` while nothing is open.
    pub fn open(&mut self, index: usize) -> (opened: bool)
        requires
            old(self).wf(),
        ensures
            final(self).wf(),
            opened == (old(self).path().len() == 0 && index < old(self).tiles().len()),
            opened ==> final(self).path() == seq![index],
            !opened ==> final(self).path() == old(self).path(),
            final(self).tiles() == old(self).tiles(),
            final(self).pending() == old(self).pending(),
    {
        if self.to_edit.len() == 0 && index < self.entries.len() {
            self.to_edit.push(index);
            assert(self.to_edit@ =~= seq![index]);
            assert(self.to_edit@.drop_first().len() == 0);
            true
        } else {
            false
        }
    }

    /// Opens the child at `child` of the open node.
    pub fn descend(&mut self, child: usize) -> (opened: bool)
        requires
            old(self).wf(),
        ensures
            final(self).wf(),
            opened == (old(self).path().len() > 0 && child < children_at(
                old(self).tiles(),
                old(self).path(),
            ).len()),
            opened ==> final(self).path() == old(self).path().push(child),
            !opened ==> final(self).path() == old(self).path(),
            final(self).tiles() == old(self).tiles(),
            final(self).pending() == old(self).pending(),
    {
        if self.to_edit.len() == 0 {
            return false;
        }
        let n = self.child_count();
        if child < n {
            proof {
                lemma_path_push(self.tiles(), self.to_edit@, child);
            }
            self.to_edit.push(child);
            true
        } else {
            false
        }
    }

    /// Closes the open node: its parent is open after, or nothing when it
    /// was a tile.
    pub fn ascend(&mut self)
        requires
            old(self).wf(),
        ensures
            final(self).wf(),
            final(self).path() == (if old(self).path().len() > 0 {
                old(self).path().drop_last()
            } else {
                old(self).path()
            }),
            final(self).tiles() == old(self).tiles(),
            final(self).pending() == old(self).pending(),
    {
        if self.to_edit.len() > 0 {
            proof {
                if self.to_edit@.len() > 1 {
                    lemma_path_prefix(self.tiles(), self.to_edit@, self.to_edit@.drop_last());
                }
            }
            self.to_edit.pop();
        }
    }
}

impl Tiles {
    /// Appends a variant with every field at its default to the open node.
    pub fn add_variant(&mut self) -> (added: bool)
        requires
            old(self).wf(),
        ensures
            final(self).wf(),
            added == (old(self).path().len() > 0 && old(self).pending() is None),
            added ==> final(self).tiles() == apply_path(old(self).tiles(), old(self).path(), Op::AddChild),
            !added ==> final(self).tiles() == old(self).tiles(),
            final(self).path() == old(self).path(),
            final(self).pending() == old(self).pending(),
    {
        if self.to_edit.len() == 0 || self.to_delete.is_some() {
            return false;
        }
        apply_at(&mut self.entries, &self.to_edit, NodeEdit::AddChild);
        if self.to_edit.len() == 1 {
            assert(self.to_edit@.drop_first().len() == 0);
        }
        true
    }

    /// Gives the open tile the fields of `t`; its variants stay. Refused
    /// while a removal waits.
    pub fn set_tile_fields(&mut self, t: Tile) -> (set: bool)
        requires
            old(self).wf(),
        ensures
            final(self).wf(),
            set == (old(self).path().len() == 1 && old(self).pending() is None),
            set ==> final(self).tiles() == old(self).tiles().update(
                old(self).path()[0] as int,
                tile_with_children(t@, old(self).tiles()[old(self).path()[0] as int].var),
            ),
            !set ==> final(self).tiles() == old(self).tiles(),
            final(self).path() == old(self).path(),
            final(self).pending() == old(self).pending(),
    {
        if self.to_edit.len() != 1 || self.to_delete.is_some() {
            return false;
        }
        let i = self.to_edit[0];
        let ghost before = self.tiles();
        let prev = self.entries.remove(i);
        let mut t = t;
        let ghost fields = t@;
        t.var = prev.var;
        self.entries.insert(i, t);
        assert(self.tiles() =~= before.update(i as int, tile_with_children(fields, before[i as int].var)));
        assert(self.to_edit@.drop_first().len() == 0);
        true
    }

    /// Gives the open variant the fields of `v`; its children stay. Refused
    /// while a removal waits.
    pub fn set_variant_fields(&mut self, v: TileVariant) -> (set: bool)
        requires
            old(self).wf(),
        ensures
            final(self).wf(),
            set == (old(self).path().len() > 1 && old(self).pending() is None),
            set ==> final(self).tiles() == apply_path(old(self).tiles(), old(self).path(), Op::SetFields(v@)),
            !set ==> final(self).tiles() == old(self).tiles(),
            final(self).path() == old(self).path(),
            final(self).pending() == old(self).pending(),
    {
        if self.to_edit.len() <= 1 || self.to_delete.is_some() {
            return false;
        }
        apply_at(&mut self.entries, &self.to_edit, NodeEdit::SetFields(v));
        true
    }

    /// Removes the node that `q` leads to, and adjusts the edit path as
    /// [`adjust`] says. A path that leads nowhere changes nothing, and so
    /// does any removal while another one waits for an answer.
    pub fn remove_node(&mut self, q: &Vec<usize>) -> (removed: bool)
        requires
            old(self).wf(),
        ensures
            final(self).wf(),
            removed == (old(self).pending() is None && valid_path(old(self).tiles(), q@)),
            removed ==> final(self).tiles() == remove_path(old(self).tiles(), q@) && final(self).path()
                == adjust(old(self).path(), q@),
            !removed ==> final(self).tiles() == old(self).tiles() && final(self).path() == old(
                self,
            ).path(),
            final(self).pending() == old(self).pending(),
    {
        if self.to_delete.is_some() || !self.node_exists(q) {
            return false;
        }
        let ghost before = self.tiles();
        proof {
            if self.to_edit@.len() > 0 {
                lemma_remove_adjusts_path(before, self.to_edit@, q@);
            }
        }
        let n = q.len();
        if n == 1 {
            self.entries.remove(q[0]);
            assert(self.tiles() =~= before.remove(q@[0] as int));
        } else {
            let r = copy_prefix(q, n - 1);
            assert(r@ =~= q@.drop_last());
            proof {
                crate::tiles::lemma_path_prefix(before, q@, r@);
                assert(q@.drop_last().push(q@.last()) =~= q@);
                lemma_remove_child_fits(before, q@);
            }
            apply_at(&mut self.entries, &r, NodeEdit::RemoveChild(q[n - 1]));
        }
        self.to_edit = adjusted(&self.to_edit, q);
        true
    }

    /// Asks to remove the child at `index` of the open node, or the tile at
    /// `index` while none is open. Refused while another removal waits, or
    /// when there is no such child.
    pub fn request_delete(&mut self, index: usize) -> (accepted: bool)
        requires
            old(self).wf(),
        ensures
            final(self).wf(),
            final(self).state() == after_request(old(self).state(), old(self).path().push(index)),
            accepted == (old(self).pending() is None && valid_path(
                old(self).tiles(),
                old(self).path().push(index),
            )),
    {
        let ghost q = self.to_edit@.push(index);
        proof {
            if self.to_edit@.len() > 0 && valid_path(self.tiles(), q) {
                assert(q.drop_last() =~= self.to_edit@);
                lemma_remove_child_fits(self.tiles(), q);
            }
        }
        if self.to_delete.is_some() || index >= self.child_count() {
            return false;
        }
        let mut target = copy_prefix(&self.to_edit, self.to_edit.len());
        assert(target@ =~= self.to_edit@);
        target.push(index);
        proof {
            if self.to_edit@.len() > 0 {
                lemma_path_push(self.tiles(), self.to_edit@, index);
            } else {
                assert(target@ =~= seq![index]);
                assert(target@.drop_first().len() == 0);
            }
        }
        self.to_delete = Some(target);
        true
    }

    /// Asks to remove the open node itself. Refused while another removal
    /// waits, or while nothing is open.
    pub fn request_delete_open(&mut self) -> (accepted: bool)
        requires
            old(self).wf(),
        ensures
            final(self).wf(),
            final(self).state() == after_request(old(self).state(), old(self).path()),
            accepted == (old(self).pending() is None && old(self).path().len() > 0),
    {
        if self.to_delete.is_some() || self.to_edit.len() == 0 {
            return false;
        }
        let target = copy_prefix(&self.to_edit, self.to_edit.len());
        assert(target@ =~= self.to_edit@);
        self.to_delete = Some(target);
        true
    }

    /// Answers the waiting question. When confirmed, the waiting node is
    /// removed and the edit path adjusted as [`adjust`] says: removing the
    /// open node takes the path up one level. Nothing waits afterwards.
    pub fn resolve_delete(&mut self, confirmed: bool) -> (removed: bool)
        requires
            old(self).wf(),
        ensures
            final(self).wf(),
            final(self).state() == after_resolve(old(self).state(), confirmed),
            removed == (confirmed && old(self).pending() is Some),
    {
        let target = self.to_delete.take();
        match target {
            Some(q) => {
                if confirmed {
                    self.remove_node(&q)
                } else {
                    false
                }
            },
            None => false,
        }
    }

    /// Carries out what the user did in one frame, in this order: adding a
    /// tile, opening a tile, asking to remove a tile, the action on the open
    /// node, and the answer to a waiting removal.
    pub fn view(&mut self, frame: TileFrame) -> (removed: bool)
        requires
            old(self).wf(),
        ensures
            final(self).wf(),
            final(self).state() == frame_step(old(self).state(), frame),
    {
        let ghost s0 = self.state();
        if frame.add_tile && self.entries.len() < usize::MAX {
            self.add_tile();
        }
        let ghost s1 = self.state();
        assert(s1 == (if frame.add_tile {
            after_add_tile(s0)
        } else {
            s0
        }));
        match frame.open {
            Some(i) => {
                self.open(i);
            },
            None => {},
        }
        let ghost s2 = self.state();
        assert(s2 == (match frame.open {
            Some(i) => after_open(s1, i),
            None => s1,
        }));
        match frame.delete_tile {
            Some(i) => {
                if self.to_edit.len() == 0 {
                    assert(seq![i] =~= self.to_edit@.push(i));
                    self.request_delete(i);
                }
            },
            None => {},
        }
        let ghost s3 = self.state();
        assert(s3 == (match frame.delete_tile {
            Some(i) => if s2.path.len() == 0 {
                after_request(s2, seq![i])
            } else {
                s2
            },
            None => s2,
        }));
        match frame.action {
            NodeAction::Nothing => {},
            NodeAction::Close => self.ascend(),
            NodeAction::Edit(c) => {
                self.descend(c);
            },
            NodeAction::Delete(c) => {
                if self.to_edit.len() > 0 {
                    self.request_delete(c);
                }
            },
            NodeAction::DeleteOpen => {
                self.request_delete_open();
            },
            NodeAction::AddVariant => {
                self.add_variant();
            },
        }
        let ghost s4 = self.state();
        assert(s4 == (match frame.action {
            NodeAction::Nothing => s3,
            NodeAction::Close => after_ascend(s3),
            NodeAction::Edit(c) => after_descend(s3, c),
            NodeAction::Delete(c) => if s3.path.len() > 0 {
                after_request(s3, s3.path.push(c))
            } else {
                s3
            },
            NodeAction::DeleteOpen => after_request(s3, s3.path),
            NodeAction::AddVariant => after_add_variant(s3),
        }));
        match frame.answer {
            Some(ok) => {
                if self.to_delete.is_some() {
                    self.resolve_delete(ok)
                } else {
                    false
                }
            },
            None => false,
        }
    }
}

/// The state of a tile editor: the tiles, the edit path, and the path of
/// the node whose removal waits for an answer.
pub struct EditState {
    pub tiles: Seq<TileModel>,
    pub path: Seq<usize>,
    pub pending: Option<Seq<usize>>,
}

/// The number of children of the open node, or of tiles while none is open.
pub open spec fn child_count_of(s: EditState) -> int {
    if s.path.len() == 0 {
        s.tiles.len() as int
    } else {
        children_at(s.tiles, s.path).len() as int
    }
}

/// After appending a default tile.
pub open spec fn after_add_tile(s: EditState) -> EditState {
    if s.tiles.len() < usize::MAX {
        EditState { tiles: s.tiles.push(default_tile()), ..s }
    } else {
        s
    }
}

/// After opening the tile `i` while nothing is open.
pub open spec fn after_open(s: EditState, i: usize) -> EditState {
    if s.path.len() == 0 && i < s.tiles.len() {
        EditState { path: seq![i], ..s }
    } else {
        s
    }
}

/// After opening the child `c` of the open node.
pub open spec fn after_descend(s: EditState, c: usize) -> EditState {
    if s.path.len() > 0 && c < child_count_of(s) {
        EditState { path: s.path.push(c), ..s }
    } else {
        s
    }
}

/// After closing the open node.
pub open spec fn after_ascend(s: EditState) -> EditState {
    if s.path.len() > 0 {
        EditState { path: s.path.drop_last(), ..s }
    } else {
        s
    }
}

/// After appending a default variant to the open node, which waits while a
/// removal waits.
pub open spec fn after_add_variant(s: EditState) -> EditState {
    if s.path.len() > 0 && s.pending is None {
        EditState { tiles: apply_path(s.tiles, s.path, Op::AddChild), ..s }
    } else {
        s
    }
}

/// After asking to remove the node that `q` leads to: the request waits
/// when nothing else waits and `q` leads to a node, and is refused
/// otherwise, the waiting one kept.
pub open spec fn after_request(s: EditState, q: Seq<usize>) -> EditState {
    if s.pending is None && valid_path(s.tiles, q) {
        EditState { pending: Some(q), ..s }
    } else {
        s
    }
}

/// After answering the waiting question: when confirmed, the waiting node
/// is removed and the path adjusted; nothing waits afterwards.
pub open spec fn after_resolve(s: EditState, confirmed: bool) -> EditState {
    match s.pending {
        Some(q) => if confirmed {
            EditState { tiles: remove_path(s.tiles, q), path: adjust(s.path, q), pending: None }
        } else {
            EditState { pending: None, ..s }
        },
        None => s,
    }
}

/// What the user did on the open node in one frame.
pub enum NodeAction {
    Nothing,
    Close,
    Edit(usize),
    Delete(usize),
    DeleteOpen,
    AddVariant,
}

/// What the user did in one frame of the tile editor.
pub struct TileFrame {
    pub add_tile: bool,
    pub open: Option<usize>,
    pub delete_tile: Option<usize>,
    pub action: NodeAction,
    pub answer: Option<bool>,
}

/// A removal asked for while another waits is refused and the waiting one
/// kept; answering carries out the waiting removal once, and a second
/// answer changes nothing.
pub proof fn lemma_single_waiting_removal(s: EditState, q: Seq<usize>, ok: bool)
    ensures
        s.pending is Some ==> after_request(s, q) == s,
        after_resolve(s, ok).pending is None,
        after_resolve(after_resolve(s, ok), ok) == after_resolve(s, ok),
{
}

/// What a confirmed removal does to the open edit path: removing the open
/// node takes the path up exactly one level; removing a node below it keeps
/// the path; removing any other node keeps the path leading to the same
/// node, its indices shifted where an earlier sibling went. The path after
/// is empty or leads to a node.
pub proof fn lemma_resolve_adjusts_path(s: EditState)
    requires
        s.path.len() > 0,
        valid_path(s.tiles, s.path),
        s.pending is Some,
        valid_path(s.tiles, s.pending->0),
    ensures
        ({
            let r = after_resolve(s, true);
            let q = s.pending->0;
            &&& q == s.path ==> r.path == s.path.drop_last()
            &&& is_prefix(s.path, q) && q != s.path ==> r.path == s.path
            &&& r.path.len() > 0 ==> valid_path(r.tiles, r.path)
            &&& !is_prefix(q, s.path) && !is_prefix(s.path, q) ==> r.path.len() == s.path.len()
                && same_node(r.tiles, r.path, s.tiles, s.path)
        }),
{
    lemma_remove_adjusts_path(s.tiles, s.path, s.pending->0);
}

/// The state after one frame; see [`Tiles::view`].
pub open spec fn frame_step(s: EditState, f: TileFrame) -> EditState {
    let s1 = if f.add_tile {
        after_add_tile(s)
    } else {
        s
    };
    let s2 = match f.open {
        Some(i) => after_open(s1, i),
        None => s1,
    };
    let s3 = match f.delete_tile {
        Some(i) => if s2.path.len() == 0 {
            after_request(s2, seq![i])
        } else {
            s2
        },
        None => s2,
    };
    let s4 = match f.action {
        NodeAction::Nothing => s3,
        NodeAction::Close => after_ascend(s3),
        NodeAction::Edit(c) => after_descend(s3, c),
        NodeAction::Delete(c) => if s3.path.len() > 0 {
            after_request(s3, s3.path.push(c))
        } else {
            s3
        },
        NodeAction::DeleteOpen => after_request(s3, s3.path),
        NodeAction::AddVariant => after_add_variant(s3),
    };
    match f.answer {
        Some(ok) => after_resolve(s4, ok),
        None => s4,
    }
}

/// The child removed by a path of two or more indices fits the list of
/// children of its parent.
proof fn lemma_remove_child_fits(tiles: Seq<TileModel>, q: Seq<usize>)
    requires
        valid_path(tiles, q),
        q.len() >= 2,
    ensures
        q.last() < children_at(tiles, q.drop_last()).len(),
{
    let q1 = q.drop_first();
    assert(q.drop_last().drop_first() =~= q1.drop_last());
    if q.len() == 2 {
        assert(q1.len() == 1);
    } else {
        lemma_vpath_last_fits(tiles[q[0] as int].var, q1);
    }
}

proof fn lemma_vpath_last_fits(vars: Seq<VariantModel>, s: Seq<usize>)
    requires
        valid_vpath(vars, s),
        s.len() >= 2,
    ensures
        s.last() < variant_at(vars, s.drop_last()).var.len(),
    decreases s.len(),
{
    let s1 = s.drop_first();
    assert(s.drop_last().drop_first() =~= s1.drop_last());
    assert(valid_vpath(vars[s[0] as int].var, s1));
    assert(s.drop_last()[0] == s[0]);
    if s.len() == 2 {
        assert(s1.len() == 1);
        assert(s1[0] == s.last());
        assert(variant_at(vars, s.drop_last()) == vars[s[0] as int]);
    } else {
        lemma_vpath_last_fits(vars[s[0] as int].var, s1);
        assert(s1.last() == s.last());
        assert(variant_at(vars, s.drop_last()) == variant_at(vars[s[0] as int].var, s.drop_last().drop_first()));
    }
}

pub proof fn lemma_tiles_view(ts: Seq<Tile>, i: int)
    requires
        0 <= i < ts.len(),
    ensures
        tile_models(ts)[i].var == variants_of(ts[i].var@),
{
}

/// A prefix of a path that leads to a node leads to a node.
proof fn lemma_path_prefix(tiles: Seq<TileModel>, p: Seq<usize>, s: Seq<usize>)
    requires
        valid_path(tiles, p),
        s.len() > 0,
        is_prefix(s, p),
    ensures
        valid_path(tiles, s),
{
    assert(s[0] == p[0]) by {
        assert(p.subrange(0, s.len() as int)[0] == p[0]);
    }
    assert(is_prefix(s.drop_first(), p.drop_first())) by {
        assert(p.drop_first().subrange(0, s.len() - 1) =~= p.subrange(0, s.len() as int).drop_first());
    }
    crate::tile_tree::lemma_valid_prefix(tiles[p[0] as int].var, p.drop_first(), s.drop_first());
}

/// A path to a node, followed by the index of one of its children, leads
/// to that child.
proof fn lemma_path_push(tiles: Seq<TileModel>, p: Seq<usize>, c: usize)
    requires
        valid_path(tiles, p),
        c < children_at(tiles, p).len(),
    ensures
        valid_path(tiles, p.push(c)),
{
    assert(p.push(c).drop_first() =~= p.drop_first().push(c));
    lemma_vpath_push(tiles[p[0] as int].var, p.drop_first(), c);
}

proof fn lemma_vpath_push(vars: Seq<VariantModel>, p: Seq<usize>, c: usize)
    requires
        valid_vpath(vars, p),
        p.len() == 0 ==> c < vars.len(),
        p.len() > 0 ==> c < variant_at(vars, p).var.len(),
    ensures
        valid_vpath(vars, p.push(c)),
    decreases p.len(),
{
    if p.len() == 0 {
        assert(p.push(c) =~= seq![c]);
        assert(p.push(c).drop_first().len() == 0);
        assert(valid_vpath(vars[c as int].var, p.push(c).drop_first()));
    } else {
        assert(p.push(c).drop_first() =~= p.drop_first().push(c));
        lemma_vpath_push(vars[p[0] as int].var, p.drop_first(), c);
    }
}

} // verus!
