//! Paths into the tree of tiles and variants, and the changes made at the
//! node a path leads to.
//!
//! A path is a list of indices: the first picks a tile, each further one a
//! variant among the children of the node before.
use vstd::prelude::*;
use crate::tiles::{default_variant, TileModel, VariantModel};

verus! {

/// A change made at one node of the tree.
pub enum Op {
    /// Appends a default variant to the node's children.
    AddChild,
    /// Removes the child at the index.
    RemoveChild(usize),
    /// Gives a variant node the fields of the given variant, keeping its
    /// children.
    SetFields(VariantModel),
}

/// `v` with the children `cs`.
pub open spec fn with_children(v: VariantModel, cs: Seq<VariantModel>) -> VariantModel {
    VariantModel { var: cs, ..v }
}

/// `t` with the children `cs`.
pub open spec fn tile_with_children(t: TileModel, cs: Seq<VariantModel>) -> TileModel {
    TileModel { var: cs, ..t }
}

/// The children after a change to the child list.
pub open spec fn children_after(cs: Seq<VariantModel>, op: Op) -> Seq<VariantModel> {
    match op {
        Op::AddChild => cs.push(default_variant()),
        Op::RemoveChild(c) => cs.remove(c as int),
        Op::SetFields(_) => cs,
    }
}

/// A variant after the change `op`.
pub open spec fn variant_after(v: VariantModel, op: Op) -> VariantModel {
    match op {
        Op::SetFields(n) => with_children(n, v.var),
        _ => with_children(v, children_after(v.var, op)),
    }
}

/// Whether `p` leads from the list `vars` to a variant.
pub open spec fn valid_vpath(vars: Seq<VariantModel>, p: Seq<usize>) -> bool
    decreases p.len(),
{
    p.len() == 0 || (p[0] < vars.len() && valid_vpath(vars[p[0] as int].var, p.drop_first()))
}

/// Whether `p` leads from the list of tiles to a tile or a variant.
pub open spec fn valid_path(tiles: Seq<TileModel>, p: Seq<usize>) -> bool {
    p.len() > 0 && p[0] < tiles.len() && valid_vpath(tiles[p[0] as int].var, p.drop_first())
}

/// The variant that a non-empty path leads to from `vars`.
pub open spec fn variant_at(vars: Seq<VariantModel>, p: Seq<usize>) -> VariantModel
    decreases p.len(),
{
    if p.len() <= 1 {
        vars[p[0] as int]
    } else {
        variant_at(vars[p[0] as int].var, p.drop_first())
    }
}

/// The children of the node that `p` leads to.
pub open spec fn children_at(tiles: Seq<TileModel>, p: Seq<usize>) -> Seq<VariantModel> {
    if p.len() == 1 {
        tiles[p[0] as int].var
    } else {
        variant_at(tiles[p[0] as int].var, p.drop_first()).var
    }
}

/// The list `vars` after the change `op` at the variant that `p` leads to.
pub open spec fn apply_vpath(vars: Seq<VariantModel>, p: Seq<usize>, op: Op) -> Seq<VariantModel>
    decreases p.len(),
{
    if p.len() <= 1 {
        vars.update(p[0] as int, variant_after(vars[p[0] as int], op))
    } else {
        vars.update(
            p[0] as int,
            with_children(vars[p[0] as int], apply_vpath(vars[p[0] as int].var, p.drop_first(), op)),
        )
    }
}

/// The tiles after the change `op` at the node that `p` leads to. Setting
/// fields is a change for variants only and leaves a tile as it is.
pub open spec fn apply_path(tiles: Seq<TileModel>, p: Seq<usize>, op: Op) -> Seq<TileModel> {
    let t = tiles[p[0] as int];
    if p.len() == 1 {
        tiles.update(p[0] as int, tile_with_children(t, children_after(t.var, op)))
    } else {
        tiles.update(p[0] as int, tile_with_children(t, apply_vpath(t.var, p.drop_first(), op)))
    }
}

/// The tiles without the node that `q` leads to.
pub open spec fn remove_path(tiles: Seq<TileModel>, q: Seq<usize>) -> Seq<TileModel> {
    if q.len() == 1 {
        tiles.remove(q[0] as int)
    } else {
        apply_path(tiles, q.drop_last(), Op::RemoveChild(q.last()))
    }
}

/// Whether `a` is a prefix of `b`.
pub open spec fn is_prefix(a: Seq<usize>, b: Seq<usize>) -> bool {
    a.len() <= b.len() && b.subrange(0, a.len() as int) == a
}

/// The open path `p` after the node that `q` leads to is removed: when the
/// removed node is the open one or one of its ancestors, the path goes up
/// to the removed node's parent; when the removed node is an earlier
/// sibling of a node on the path, that index moves down by one; otherwise
/// the path stays.
pub open spec fn adjust(p: Seq<usize>, q: Seq<usize>) -> Seq<usize> {
    let k = q.len() - 1;
    if is_prefix(q, p) {
        q.drop_last()
    } else if k < p.len() && p.subrange(0, k) == q.subrange(0, k) && q[k] < p[k] {
        p.update(k, (p[k] - 1) as usize)
    } else {
        p
    }
}


pub proof fn lemma_at_same_head(vs: Seq<VariantModel>, ws: Seq<VariantModel>, s: Seq<usize>, t: Seq<usize>)
    requires
        s.len() >= 1,
        t.len() >= 1,
        s[0] < vs.len(),
        t[0] < ws.len(),
        vs[s[0] as int] == ws[t[0] as int],
        s.drop_first() == t.drop_first(),
    ensures
        valid_vpath(vs, s) == valid_vpath(ws, t),
        variant_at(vs, s) == variant_at(ws, t),
{
    assert(s.drop_first().len() == t.drop_first().len());
    if s.len() > 1 {
        assert(variant_at(vs, s) == variant_at(vs[s[0] as int].var, s.drop_first()));
        assert(variant_at(ws, t) == variant_at(ws[t[0] as int].var, t.drop_first()));
    }
}

/// Removing one entry of a list keeps every path that starts at another
/// entry leading to the same variant, once its first index is moved down
/// past the removed entry.
pub proof fn lemma_list_remove(vs: Seq<VariantModel>, c: usize, p: Seq<usize>)
    requires
        c < vs.len(),
        p.len() >= 1,
        valid_vpath(vs, p),
        p[0] != c,
    ensures
        ({
            let p2 = if c < p[0] {
                p.update(0, (p[0] - 1) as usize)
            } else {
                p
            };
            valid_vpath(vs.remove(c as int), p2) && variant_at(vs.remove(c as int), p2) == variant_at(
                vs,
                p,
            )
        }),
{
    let p2 = if c < p[0] {
        p.update(0, (p[0] - 1) as usize)
    } else {
        p
    };
    assert(p2.drop_first() =~= p.drop_first());
    assert(vs.remove(c as int)[p2[0] as int] == vs[p[0] as int]);
    lemma_at_same_head(vs.remove(c as int), vs, p2, p);
}

pub proof fn lemma_adjust_cons(p: Seq<usize>, q: Seq<usize>)
    requires
        p.len() >= 1,
        q.len() >= 2,
        p[0] == q[0],
    ensures
        adjust(p, q) == seq![p[0]] + adjust(p.drop_first(), q.drop_first()),
{
    let p1 = p.drop_first();
    let q1 = q.drop_first();
    let k = q.len() - 1;
    assert(p =~= seq![p[0]] + p1);
    assert(q =~= seq![q[0]] + q1);
    if is_prefix(q, p) {
        assert(p1.subrange(0, q1.len() as int) =~= p.subrange(0, q.len() as int).drop_first());
        assert(is_prefix(q1, p1));
        assert(q.drop_last() =~= seq![p[0]] + q1.drop_last());
    } else if is_prefix(q1, p1) {
        assert(p.subrange(0, q.len() as int) =~= seq![p[0]] + p1.subrange(0, q1.len() as int));
    } else if k < p.len() && p.subrange(0, k) == q.subrange(0, k) && q[k] < p[k] {
        assert(p1.subrange(0, k - 1) =~= p.subrange(0, k).drop_first());
        assert(q1.subrange(0, k - 1) =~= q.subrange(0, k).drop_first());
        assert(p.update(k, (p[k] - 1) as usize) =~= seq![p[0]] + p1.update(k - 1, (p1[k - 1] - 1) as usize));
    } else {
        if k - 1 < p1.len() && p1.subrange(0, k - 1) == q1.subrange(0, k - 1) && q1[k - 1] < p1[k - 1] {
            assert(p.subrange(0, k) =~= seq![p[0]] + p1.subrange(0, k - 1));
            assert(q.subrange(0, k) =~= seq![q[0]] + q1.subrange(0, k - 1));
        }
    }
}

/// A change at the node that `r` leads to keeps every prefix of `r` a path.
pub proof fn lemma_apply_keeps_prefix(vars: Seq<VariantModel>, r: Seq<usize>, op: Op, s: Seq<usize>)
    requires
        r.len() >= 1,
        valid_vpath(vars, r),
        is_prefix(s, r),
    ensures
        valid_vpath(apply_vpath(vars, r, op), s),
    decreases r.len(),
{
    let new = apply_vpath(vars, r, op);
    if s.len() > 0 {
        assert(s[0] == r[0]) by {
            assert(r.subrange(0, s.len() as int)[0] == r[0]);
        }
        assert(new.len() == vars.len());
        assert(r[0] < vars.len());
        if s.len() == 1 {
            assert(s.drop_first().len() == 0);
            assert(valid_vpath(new[s[0] as int].var, s.drop_first()));
        } else {
            assert(is_prefix(s.drop_first(), r.drop_first())) by {
                assert(r.drop_first().subrange(0, s.len() - 1) =~= r.subrange(0, s.len() as int).drop_first());
            }
            lemma_apply_keeps_prefix(vars[r[0] as int].var, r.drop_first(), op, s.drop_first());
            assert(new[r[0] as int].var == apply_vpath(vars[r[0] as int].var, r.drop_first(), op));
        }
    }
}

/// Removing the child `c` of the variant that `r` leads to keeps every path
/// off the removed node's line leading to the same variant, once adjusted.
pub proof fn lemma_remove_in_vpath(vars: Seq<VariantModel>, r: Seq<usize>, c: usize, p: Seq<usize>)
    requires
        r.len() >= 1,
        valid_vpath(vars, r.push(c)),
        p.len() >= 1,
        valid_vpath(vars, p),
        !is_prefix(r.push(c), p),
        !is_prefix(p, r.push(c)),
    ensures
        valid_vpath(apply_vpath(vars, r, Op::RemoveChild(c)), adjust(p, r.push(c))),
        variant_at(apply_vpath(vars, r, Op::RemoveChild(c)), adjust(p, r.push(c))) == variant_at(vars, p),
    decreases r.len(),
{
    let q = r.push(c);
    let new = apply_vpath(vars, r, Op::RemoveChild(c));
    assert(q[0] == r[0]);
    if r[0] != p[0] {
        if q.len() - 1 < p.len() {
            assert(p.subrange(0, q.len() - 1)[0] == p[0]);
            assert(q.subrange(0, q.len() - 1)[0] == q[0]);
        }
        if q.len() <= p.len() {
            assert(p.subrange(0, q.len() as int)[0] == p[0]);
        }
        assert(adjust(p, q) == p);
        lemma_at_same_head(new, vars, p, p);
    } else {
        if p.len() == 1 {
            assert(q.subrange(0, 1) =~= p);
        }
        assert(p.len() >= 2);
        lemma_adjust_cons(p, q);
        let q1 = q.drop_first();
        let p1 = p.drop_first();
        let inner = vars[r[0] as int].var;
        assert(valid_vpath(inner, q1));
        if r.len() == 1 {
            assert(q1 =~= seq![c]);
            if p1[0] == c {
                assert(p.subrange(0, 2) =~= q);
            }
            lemma_list_remove(inner, c, p1);
            assert(adjust(p1, q1) == (if c < p1[0] {
                p1.update(0, (p1[0] - 1) as usize)
            } else {
                p1
            })) by {
                assert(!is_prefix(q1, p1));
                assert(p1.subrange(0, 0) =~= q1.subrange(0, 0));
            }
        } else {
            assert(q1 =~= r.drop_first().push(c));
            assert(!is_prefix(q1, p1)) by {
                if is_prefix(q1, p1) {
                    assert(p.subrange(0, q.len() as int) =~= seq![p[0]] + p1.subrange(0, q1.len() as int));
                    assert(q =~= seq![q[0]] + q1);
                }
            }
            assert(!is_prefix(p1, q1)) by {
                if is_prefix(p1, q1) {
                    assert(q.subrange(0, p.len() as int) =~= seq![q[0]] + q1.subrange(0, p1.len() as int));
                    assert(p =~= seq![p[0]] + p1);
                }
            }
            lemma_remove_in_vpath(inner, r.drop_first(), c, p1);
        }
        let a = adjust(p, q);
        assert(a.drop_first() =~= adjust(p1, q1));
        assert(a[0] == p[0]);
    }
}


pub proof fn lemma_valid_prefix(vars: Seq<VariantModel>, q: Seq<usize>, s: Seq<usize>)
    requires
        valid_vpath(vars, q),
        is_prefix(s, q),
    ensures
        valid_vpath(vars, s),
    decreases q.len(),
{
    if s.len() > 0 {
        assert(s[0] == q[0]) by {
            assert(q.subrange(0, s.len() as int)[0] == q[0]);
        }
        assert(is_prefix(s.drop_first(), q.drop_first())) by {
            assert(q.drop_first().subrange(0, s.len() - 1) =~= q.subrange(0, s.len() as int).drop_first());
        }
        lemma_valid_prefix(vars[q[0] as int].var, q.drop_first(), s.drop_first());
    }
}

/// Whether the node that `p1` leads to in `t1` equals the one that `p2`
/// leads to in `t2`.
pub open spec fn same_node(t1: Seq<TileModel>, p1: Seq<usize>, t2: Seq<TileModel>, p2: Seq<usize>) -> bool {
    if p2.len() == 1 {
        t1[p1[0] as int] == t2[p2[0] as int]
    } else {
        variant_at(t1[p1[0] as int].var, p1.drop_first()) == variant_at(
            t2[p2[0] as int].var,
            p2.drop_first(),
        )
    }
}

/// What removing a node does to the open edit path `p`, when the path is
/// adjusted as [`adjust`] says. Removing the open node itself takes the path
/// up exactly one level; removing a node below the open one leaves the path
/// as it is; removing any other node leaves the path leading to the same
/// node as before, its indices shifted where an earlier sibling went. The
/// adjusted path, when not empty, always leads to a node.
pub proof fn lemma_remove_adjusts_path(tiles: Seq<TileModel>, p: Seq<usize>, q: Seq<usize>)
    requires
        valid_path(tiles, p),
        valid_path(tiles, q),
    ensures
        q == p ==> adjust(p, q) == p.drop_last(),
        is_prefix(p, q) && p != q ==> adjust(p, q) == p,
        adjust(p, q).len() > 0 ==> valid_path(remove_path(tiles, q), adjust(p, q)),
        !is_prefix(q, p) && !is_prefix(p, q) ==> adjust(p, q).len() == p.len() && same_node(
            remove_path(tiles, q),
            adjust(p, q),
            tiles,
            p,
        ),
{
    let new = remove_path(tiles, q);
    let a = adjust(p, q);
    let c = q.last();
    let r = q.drop_last();
    if q == p {
        assert(p.subrange(0, p.len() as int) =~= p);
    }
    if is_prefix(q, p) {
        if is_prefix(p, q) {
            assert(p.subrange(0, q.len() as int) =~= p);
            assert(p =~= q);
        }
        if q.len() >= 2 {
            assert(r.len() >= 1);
            assert(r[0] == q[0]);
            let t = tiles[q[0] as int];
            if r.len() >= 2 {
                assert(is_prefix(r.drop_first(), q.drop_first())) by {
                    assert(q.drop_first().subrange(0, r.len() - 1) =~= r.drop_first());
                }
                lemma_valid_prefix(t.var, q.drop_first(), r.drop_first());
                assert(is_prefix(r.drop_first(), r.drop_first())) by {
                    assert(r.drop_first().subrange(0, r.len() - 1) =~= r.drop_first());
                }
                lemma_apply_keeps_prefix(t.var, r.drop_first(), Op::RemoveChild(c), r.drop_first());
            } else {
                assert(r.drop_first().len() == 0);
            }
            assert(valid_path(new, a));
        }
    } else if is_prefix(p, q) {
        if q.len() == p.len() {
            assert(q.subrange(0, q.len() as int) =~= q);
            assert(p.subrange(0, q.len() as int) =~= p);
        }
        assert(q.len() > p.len());
        assert(a == p);
        assert(is_prefix(p, r)) by {
            assert(r.subrange(0, p.len() as int) =~= q.subrange(0, p.len() as int));
        }
        assert(p[0] == q[0]) by {
            assert(q.subrange(0, p.len() as int)[0] == q[0]);
        }
        let t = tiles[q[0] as int];
        if p.len() >= 2 {
            assert(is_prefix(r.drop_first(), q.drop_first())) by {
                assert(q.drop_first().subrange(0, r.len() - 1) =~= r.drop_first());
            }
            lemma_valid_prefix(t.var, q.drop_first(), r.drop_first());
            assert(is_prefix(p.drop_first(), r.drop_first())) by {
                assert(r.drop_first().subrange(0, p.len() - 1) =~= r.subrange(0, p.len() as int).drop_first());
            }
            lemma_apply_keeps_prefix(t.var, r.drop_first(), Op::RemoveChild(c), p.drop_first());
        } else {
            assert(p.drop_first().len() == 0);
        }
        assert(valid_path(new, a));
    } else {
        if q.len() == 1 {
            if q[0] == p[0] {
                assert(p.subrange(0, 1) =~= q);
            }
            assert(p.subrange(0, 0) =~= q.subrange(0, 0));
            let vs = tiles;
            let p2 = a;
            assert(p2.drop_first() =~= p.drop_first());
            assert(new[p2[0] as int] == tiles[p[0] as int]);
        } else if q[0] != p[0] {
            if q.len() - 1 < p.len() {
                assert(p.subrange(0, q.len() - 1)[0] == p[0]);
                assert(q.subrange(0, q.len() - 1)[0] == q[0]);
            }
            assert(a == p);
            assert(r[0] == q[0]);
            assert(new[p[0] as int] == tiles[p[0] as int]);
        } else {
            if p.len() == 1 {
                assert(q.subrange(0, 1) =~= p);
            }
            assert(p.len() >= 2);
            lemma_adjust_cons(p, q);
            let p1 = p.drop_first();
            let q1 = q.drop_first();
            let t = tiles[p[0] as int];
            assert(!is_prefix(q1, p1)) by {
                if is_prefix(q1, p1) {
                    assert(p.subrange(0, q.len() as int) =~= seq![p[0]] + p1.subrange(0, q1.len() as int));
                    assert(q =~= seq![q[0]] + q1);
                }
            }
            assert(!is_prefix(p1, q1)) by {
                if is_prefix(p1, q1) {
                    assert(q.subrange(0, p.len() as int) =~= seq![q[0]] + q1.subrange(0, p1.len() as int));
                    assert(p =~= seq![p[0]] + p1);
                }
            }
            assert(r[0] == p[0]);
            if q1.len() == 1 {
                assert(q1 =~= seq![c]);
                if p1[0] == c {
                    assert(p.subrange(0, 2) =~= q);
                }
                lemma_list_remove(t.var, c, p1);
                assert(adjust(p1, q1) == (if c < p1[0] {
                    p1.update(0, (p1[0] - 1) as usize)
                } else {
                    p1
                })) by {
                    assert(p1.subrange(0, 0) =~= q1.subrange(0, 0));
                }
                assert(r =~= seq![p[0]]);
                assert(new[p[0] as int].var == t.var.remove(c as int));
            } else {
                let r1 = q1.drop_last();
                assert(q1 =~= r1.push(c));
                assert(r.drop_first() =~= r1);
                lemma_remove_in_vpath(t.var, r1, c, p1);
                assert(new[p[0] as int].var == apply_vpath(t.var, r1, Op::RemoveChild(c)));
            }
            assert(a.drop_first() =~= adjust(p1, q1));
            assert(a[0] == p[0]);
        }
    }
}

} // verus!
