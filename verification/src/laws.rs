//! What composition means: applying a composed edit does what applying its
//! parts in turn does.
use crate::apply::{
    apply_add_atoms, apply_add_one, apply_del_atoms, apply_del_one, apply_op_atoms,
    lemma_add_pre_first, lemma_apply_add_atoms, lemma_apply_add_group, lemma_apply_add_one,
    lemma_apply_add_split, lemma_apply_add_step,
    lemma_apply_del_atoms, lemma_apply_del_one, lemma_apply_del_split, lemma_apply_del_step, lemma_opt_cat_assoc, lemma_opt_cat_empty,
    opt_cat,
};
use crate::compose::{
    compose_del_atoms, del_del_one, del_del_walk, lemma_dd_walk_group, lemma_dd_walk_step,
};
use crate::compose_op::{
    compose_op_atoms, add_del_one, add_del_walk, compose_add_del_atoms, lemma_ad_one, lemma_ad_walk_basic,
    lemma_ad_walk_step, lemma_compose_add_del_atoms,
};
use crate::compose_add::{
    add_add_one, add_add_walk, compose_add_atoms, lemma_aa_walk_basic, lemma_aa_walk_group,
    lemma_aa_walk_step, lemma_compose_add_atoms,
};
use crate::doc::{
    add_atom_pre, add_pre, del_atom_post, del_post, lemma_add_pre_concat, lemma_del_post_concat,
    lemma_repeat, repeat, AddAtom, DelAtom, DocAtom,
};
use crate::transform_add::{add_styled, add_styled_one};
use vstd::prelude::*;

verus! {

// ---------------------------------------------------------------------------
// Deletions of groups that reach all of a group.

/// Every group that `a` deletes, of those it meets in `d`, has an inner
/// deletion that reaches each of its atoms, and so on inside kept groups.
pub open spec fn del_covers(d: Seq<DocAtom>, a: Seq<DelAtom>) -> bool
    decreases a, 0nat,
{
    if a.len() == 0 || d.len() == 0 {
        true
    } else {
        del_atom_covers(d[0], a[0]) && del_covers(d.drop_first(), a.drop_first())
    }
}

/// One atom of `del_covers`.
pub open spec fn del_atom_covers(x: DocAtom, y: DelAtom) -> bool
    decreases y, 1nat,
{
    match (x, y) {
        (DocAtom::Group(_, g), DelAtom::Group(inner)) => inner.len() >= g.len() && del_covers(g, inner),
        (DocAtom::Group(_, g), DelAtom::WithGroup(inner)) => del_covers(g, inner),
        _ => true,
    }
}

// ---------------------------------------------------------------------------
// Lemmas on applying deletions.

/// A deletion that applies is no longer than the document.
pub(crate) proof fn lemma_apply_del_len(d: Seq<DocAtom>, a: Seq<DelAtom>)
    requires
        apply_del_atoms(d, a) is Some,
    ensures
        a.len() <= d.len(),
    decreases a.len(),
{
    if a.len() > 0 {
        lemma_apply_del_len(d.drop_first(), a.drop_first());
    }
}

/// A deletion against a document cut where the deletion ends.
pub(crate) proof fn lemma_del_covers_take(d: Seq<DocAtom>, a: Seq<DelAtom>)
    requires
        a.len() <= d.len(),
    ensures
        del_covers(d, a) == del_covers(d.take(a.len() as int), a),
    decreases a.len(),
{
    if a.len() > 0 {
        let t = d.take(a.len() as int);
        assert(t[0] == d[0]);
        assert(t.drop_first() =~= d.drop_first().take(a.drop_first().len() as int));
        lemma_del_covers_take(d.drop_first(), a.drop_first());
    }
}

/// A deletion applied to two documents one after the other: the first takes
/// as much of the deletion as reaches it.
pub(crate) proof fn lemma_apply_del_cut(x: Seq<DocAtom>, y: Seq<DocAtom>, b: Seq<DelAtom>, k: int)
    requires
        k == if x.len() < b.len() { x.len() as int } else { b.len() as int },
    ensures
        apply_del_atoms(x + y, b) == opt_cat(apply_del_atoms(x, b.take(k)), apply_del_atoms(y, b.skip(k))),
{
    if k == x.len() {
        assert(b =~= b.take(k) + b.skip(k));
        lemma_apply_del_split(x, y, b.take(k), b.skip(k));
    } else {
        let x1 = x.take(k);
        let x2 = x.skip(k);
        assert(b.take(k) =~= b);
        assert(b.skip(k) =~= Seq::<DelAtom>::empty());
        assert(b + Seq::<DelAtom>::empty() =~= b);
        assert(x =~= x1 + x2);
        assert(x + y =~= x1 + (x2 + y));
        lemma_apply_del_split(x1, x2 + y, b, Seq::<DelAtom>::empty());
        lemma_apply_del_split(x1, x2, b, Seq::<DelAtom>::empty());
        lemma_opt_cat_assoc(apply_del_atoms(x1, b), Some(x2), Some(y));
        assert(apply_del_atoms(y, Seq::<DelAtom>::empty()) == Some(y));
        assert(apply_del_atoms(x2 + y, Seq::<DelAtom>::empty()) == Some(x2 + y));
        assert(apply_del_atoms(x2, Seq::<DelAtom>::empty()) == Some(x2));
    }
}

/// A document and a deletion: the document atoms that the deletion reaches,
/// then those it keeps as they are.
pub(crate) proof fn lemma_apply_del_rest(d: Seq<DocAtom>, a: Seq<DelAtom>)
    requires
        a.len() <= d.len(),
    ensures
        apply_del_atoms(d, a) == opt_cat(
            apply_del_atoms(d.take(a.len() as int), a),
            Some(d.skip(a.len() as int)),
        ),
{
    let n = a.len() as int;
    assert(d =~= d.take(n) + d.skip(n));
    assert(a + Seq::<DelAtom>::empty() =~= a);
    lemma_apply_del_split(d.take(n), d.skip(n), a, Seq::<DelAtom>::empty());
}

// ---------------------------------------------------------------------------
// Two deletions in turn.

/// One atom of a first deletion that keeps one atom `z` of the document
/// atom `d0`, against one atom of a second deletion: they compose to one
/// atom that does to `d0` what both do in turn.
proof fn lemma_dd_one_apply(d0: DocAtom, x: DelAtom, z: DocAtom, y: DelAtom)
    requires
        x is Skip || x is Styles || x is WithGroup,
        apply_del_one(d0, x) == Some(seq![z]),
        apply_del_one(z, y) is Some,
        del_atom_covers(d0, x),
    ensures
        del_del_one(x, y) matches Some(h) && h.len() == 1 && apply_del_one(d0, h[0]) == apply_del_one(
            z,
            y,
        ),
    decreases x, 0nat,
{
    reveal(del_del_one);
    lemma_apply_del_one(d0, x);
    lemma_apply_del_one(z, y);
    assert(apply_del_one(d0, x).unwrap()[0] == z);
    match del_del_one(x, y) {
        Some(h) => lemma_apply_del_one(d0, h[0]),
        None => {},
    }
    match x {
        DelAtom::Skip => {},
        DelAtom::Styles(sa) => {
            match (d0, y) {
                (DocAtom::Char(s, c), DelAtom::Styles(sb)) => {
                    assert(s.minus(sa).minus(sb) == s.minus(sa.union(sb)));
                },
                _ => {},
            }
        },
        DelAtom::WithGroup(ia) => {
            match (d0, y) {
                (DocAtom::Group(at, g), DelAtom::WithGroup(ib)) => {
                    compose_del_del_apply(g, ia, ib);
                },
                (DocAtom::Group(at, g), DelAtom::Group(ib)) => {
                    compose_del_del_apply(g, ia, ib);
                },
                _ => {},
            }
        },
        _ => {},
    }
}

/// What the walk of `a` and `b` does: it takes as much of `b` as reaches
/// what `a` makes of `d`, and what it writes, with what is left of `a`,
/// does to `d` what `a` then that much of `b` do.
pub open spec fn dd_walk_does(d: Seq<DocAtom>, a: Seq<DelAtom>, b: Seq<DelAtom>) -> bool {
    let e = apply_del_atoms(d, a).unwrap();
    let k = if b.len() < e.len() { b.len() as int } else { e.len() as int };
    &&& del_del_walk(a, b) is Some
    &&& del_del_walk(a, b).unwrap().2 == b.skip(k)
    &&& (del_del_walk(a, b).unwrap().0 + del_del_walk(a, b).unwrap().1).len() == a.len()
    &&& apply_del_atoms(d, del_del_walk(a, b).unwrap().0 + del_del_walk(a, b).unwrap().1)
        == apply_del_atoms(e, b.take(k))
}

/// Where the walk of `a` and `b` may start: `a` reaches each atom of `d`,
/// applies to it, and as much of `b` as reaches the result applies to that.
pub open spec fn dd_walk_fits(d: Seq<DocAtom>, a: Seq<DelAtom>, b: Seq<DelAtom>) -> bool {
    &&& d.len() == a.len()
    &&& apply_del_atoms(d, a) is Some
    &&& del_covers(d, a)
    &&& ({
        let e = apply_del_atoms(d, a).unwrap();
        let k = if b.len() < e.len() { b.len() as int } else { e.len() as int };
        apply_del_atoms(e, b.take(k)) is Some
    })
}

/// The walk of a first deletion that reaches each atom of the document and
/// a second deletion.
proof fn lemma_dd_walk_apply(d: Seq<DocAtom>, a: Seq<DelAtom>, b: Seq<DelAtom>)
    requires
        dd_walk_fits(d, a, b),
    ensures
        dd_walk_does(d, a, b),
    decreases a, 1nat,
{
    let e = apply_del_atoms(d, a).unwrap();
    if a.len() == 0 {
        reveal(del_del_walk);
        assert(b.skip(0) =~= b);
        assert(b.take(0) =~= Seq::<DelAtom>::empty());
        assert(Seq::<DelAtom>::empty() + Seq::<DelAtom>::empty() =~= Seq::<DelAtom>::empty());
    } else if b.len() == 0 {
        reveal(del_del_walk);
        assert(b.skip(0) =~= b);
        assert(b.take(0) =~= b);
        assert(Seq::<DelAtom>::empty() + a =~= a);
    } else {
        match a[0] {
            DelAtom::Text => lemma_dd_walk_apply_text(d, a, b),
            DelAtom::Group(_) => lemma_dd_walk_apply_group(d, a, b),
            _ => lemma_dd_walk_apply_one(d, a, b),
        }
    }
}

/// The parts of a document and a deletion after their first atoms.
proof fn lemma_dd_first(d: Seq<DocAtom>, a: Seq<DelAtom>, b: Seq<DelAtom>)
    requires
        dd_walk_fits(d, a, b),
        a.len() > 0,
    ensures
        ({
            let e = apply_del_atoms(d, a).unwrap();
            let k = if b.len() < e.len() { b.len() as int } else { e.len() as int };
            let e1 = apply_del_one(d[0], a[0]).unwrap();
            let e2 = apply_del_atoms(d.drop_first(), a.drop_first()).unwrap();
            let k1 = if e1.len() < k { e1.len() as int } else { k };
            &&& apply_del_one(d[0], a[0]) is Some
            &&& apply_del_atoms(d.drop_first(), a.drop_first()) is Some
            &&& e == e1 + e2
            &&& del_atom_covers(d[0], a[0])
            &&& del_covers(d.drop_first(), a.drop_first())
            &&& apply_del_atoms(e1, b.take(k).take(k1)) is Some
            &&& apply_del_atoms(e2, b.take(k).skip(k1)) is Some
            &&& apply_del_atoms(e, b.take(k)) == opt_cat(
                apply_del_atoms(e1, b.take(k).take(k1)),
                apply_del_atoms(e2, b.take(k).skip(k1)),
            )
        }),
{
    let e = apply_del_atoms(d, a).unwrap();
    let k = if b.len() < e.len() { b.len() as int } else { e.len() as int };
    let e1 = apply_del_one(d[0], a[0]).unwrap();
    let e2 = apply_del_atoms(d.drop_first(), a.drop_first()).unwrap();
    let k1 = if e1.len() < k { e1.len() as int } else { k };
    lemma_apply_del_cut(e1, e2, b.take(k), k1);
}

/// Deleted text in the first deletion.
#[verifier::spinoff_prover]
proof fn lemma_dd_walk_apply_text(d: Seq<DocAtom>, a: Seq<DelAtom>, b: Seq<DelAtom>)
    requires
        dd_walk_fits(d, a, b),
        a.len() > 0,
        b.len() > 0,
        a[0] is Text,
    ensures
        dd_walk_does(d, a, b),
    decreases a, 0nat,
{
    lemma_dd_first(d, a, b);
    let e = apply_del_atoms(d, a).unwrap();
    let k = if b.len() < e.len() { b.len() as int } else { e.len() as int };
    let d0 = d[0];
    let d1 = d.drop_first();
    let a1 = a.drop_first();
    let e1 = apply_del_one(d0, a[0]).unwrap();
    let e2 = apply_del_atoms(d1, a1).unwrap();
    assert(e1 =~= Seq::<DocAtom>::empty());
    assert(e2 =~= e);
    lemma_dd_walk_apply(d1, a1, b);
    reveal(del_del_walk);
    let w = del_del_walk(a1, b).unwrap();
    assert(del_del_walk(a, b) == Some((seq![DelAtom::Text] + w.0, w.1, w.2)));
    assert(seq![DelAtom::Text] + w.0 + w.1 =~= seq![DelAtom::Text] + (w.0 + w.1));
    assert(d =~= seq![d0] + d1);
    lemma_apply_del_step(d0, DelAtom::Text, d1, w.0 + w.1);
    lemma_opt_cat_empty(apply_del_atoms(d1, w.0 + w.1));
}

/// A group that the first deletion deletes, reaching all its atoms.
#[verifier::spinoff_prover]
proof fn lemma_dd_walk_apply_group(d: Seq<DocAtom>, a: Seq<DelAtom>, b: Seq<DelAtom>)
    requires
        dd_walk_fits(d, a, b),
        a.len() > 0,
        b.len() > 0,
        a[0] is Group,
    ensures
        dd_walk_does(d, a, b),
    decreases a, 0nat,
{
    lemma_dd_first(d, a, b);
    let e = apply_del_atoms(d, a).unwrap();
    let k = if b.len() < e.len() { b.len() as int } else { e.len() as int };
    let d0 = d[0];
    let d1 = d.drop_first();
    let a1 = a.drop_first();
    let inner = a[0]->Group_0;
    let e1 = apply_del_one(d0, a[0]).unwrap();
    let e2 = apply_del_atoms(d1, a1).unwrap();
    assert(d0 is Group);
    let g = d0->Group_1;
    assert(e1 == apply_del_atoms(g, inner).unwrap());
    lemma_apply_del_len(g, inner);
    let k1 = if b.len() < e1.len() { b.len() as int } else { e1.len() as int };
    let bk = b.take(k);
    assert(bk.take(k1) =~= b.take(k1));
    lemma_dd_walk_apply(g, inner, b);
    let wc = del_del_walk(inner, b).unwrap();
    let b2 = b.skip(k1);
    let k2 = if b2.len() < e2.len() { b2.len() as int } else { e2.len() as int };
    assert(bk.skip(k1) =~= b2.take(k2));
    lemma_dd_walk_apply(d1, a1, b2);
    let w = del_del_walk(a1, b2).unwrap();
    assert(a =~= seq![DelAtom::Group(inner)] + a1);
    lemma_dd_walk_group(inner, a1, b);
    assert(b2.skip(k2) =~= b.skip(k));
    let o = seq![DelAtom::Group(wc.0 + wc.1)] + w.0;
    assert(o + w.1 =~= seq![DelAtom::Group(wc.0 + wc.1)] + (w.0 + w.1));
    assert(d =~= seq![d0] + d1);
    lemma_apply_del_step(d0, DelAtom::Group(wc.0 + wc.1), d1, w.0 + w.1);
}

/// An atom of the first deletion that keeps one atom of the document.
#[verifier::spinoff_prover]
proof fn lemma_dd_walk_apply_one(d: Seq<DocAtom>, a: Seq<DelAtom>, b: Seq<DelAtom>)
    requires
        dd_walk_fits(d, a, b),
        a.len() > 0,
        b.len() > 0,
        a[0] is Skip || a[0] is Styles || a[0] is WithGroup,
    ensures
        dd_walk_does(d, a, b),
    decreases a, 0nat,
{
    lemma_dd_first(d, a, b);
    let e = apply_del_atoms(d, a).unwrap();
    let k = if b.len() < e.len() { b.len() as int } else { e.len() as int };
    let d0 = d[0];
    let x = a[0];
    let d1 = d.drop_first();
    let a1 = a.drop_first();
    let e1 = apply_del_one(d0, x).unwrap();
    let e2 = apply_del_atoms(d1, a1).unwrap();
    let z = e1[0];
    assert(e1 == seq![z]);
    let y = b[0];
    let b1 = b.skip(1);
    assert(k >= 1);
    assert(b.take(k) =~= seq![y] + b1.take(k - 1));
    assert(b.take(k).take(1) =~= seq![y]);
    assert(b.take(k).skip(1) =~= b1.take(k - 1));
    lemma_apply_del_step(z, y, Seq::<DocAtom>::empty(), Seq::<DelAtom>::empty());
    assert(seq![z] + Seq::<DocAtom>::empty() =~= seq![z]);
    assert(seq![y] + Seq::<DelAtom>::empty() =~= seq![y]);
    assert(apply_del_one(z, y) is Some);
    lemma_dd_one_apply(d0, x, z, y);
    let h = del_del_one(x, y).unwrap();
    let k2 = if b1.len() < e2.len() { b1.len() as int } else { e2.len() as int };
    assert(k2 == k - 1);
    lemma_dd_walk_apply(d1, a1, b1);
    let w = del_del_walk(a1, b1).unwrap();
    assert(a =~= seq![x] + a1);
    assert(b =~= seq![y] + b1);
    lemma_dd_walk_step(x, y, a1, b1);
    assert(b1.skip(k - 1) =~= b.skip(k));
    assert(h =~= seq![h[0]]);
    assert(h + w.0 + w.1 =~= seq![h[0]] + (w.0 + w.1));
    assert(d =~= seq![d0] + d1);
    lemma_apply_del_step(d0, h[0], d1, w.0 + w.1);
}

/// Composing two deletions: where the first reaches all of each group it
/// deletes, the composition applies where both apply in turn, and does the
/// same.
pub proof fn compose_del_del_apply(d: Seq<DocAtom>, a: Seq<DelAtom>, b: Seq<DelAtom>)
    requires
        apply_del_atoms(d, a) is Some,
        apply_del_atoms(apply_del_atoms(d, a).unwrap(), b) is Some,
        del_covers(d, a),
    ensures
        compose_del_atoms(a, b) is Some,
        apply_del_atoms(d, compose_del_atoms(a, b).unwrap()) == apply_del_atoms(
            apply_del_atoms(d, a).unwrap(),
            b,
        ),
    decreases a, 2nat,
{
    lemma_apply_del_len(d, a);
    let n = a.len() as int;
    let d1 = d.take(n);
    let d2 = d.skip(n);
    lemma_apply_del_rest(d, a);
    lemma_del_covers_take(d, a);
    let e1 = apply_del_atoms(d1, a).unwrap();
    let e = apply_del_atoms(d, a).unwrap();
    assert(e == e1 + d2);
    let k = if b.len() < e1.len() { b.len() as int } else { e1.len() as int };
    lemma_apply_del_cut(e1, d2, b, k);
    assert(apply_del_atoms(e1, b.take(k)) is Some);
    assert(dd_walk_fits(d1, a, b));
    lemma_dd_walk_apply(d1, a, b);
    let w = del_del_walk(a, b).unwrap();
    assert(d =~= d1 + d2);
    lemma_apply_del_split(d1, d2, w.0 + w.1, w.2);
    assert(w.0 + w.1 + w.2 =~= (w.0 + w.1) + w.2);
    crate::compose::lemma_compose_del_atoms(a, b);
}

// ---------------------------------------------------------------------------
// Lemmas on applying insertions.

/// An insertion that applies walks over no more than the document, and
/// makes one atom of each of its own.
pub(crate) proof fn lemma_apply_add_len(d: Seq<DocAtom>, a: Seq<AddAtom>)
    requires
        apply_add_atoms(d, a) is Some,
    ensures
        add_pre(a) <= d.len(),
        apply_add_atoms(d, a).unwrap().len() == a.len() + d.len() - add_pre(a),
    decreases a.len(),
{
    lemma_apply_add_atoms(d, a);
    if a.len() > 0 {
        lemma_add_pre_first(a);
        match a[0] {
            AddAtom::Text(st, c) => {
                lemma_apply_add_len(d, a.drop_first());
            },
            AddAtom::Group(attrs, inner) => {
                let n = add_pre(inner);
                lemma_apply_add_len(d.skip(n as int), a.drop_first());
            },
            _ => {
                lemma_apply_add_one(d[0], a[0]);
                lemma_apply_add_len(d.drop_first(), a.drop_first());
            },
        }
    }
}

/// An insertion against a document: what it walks over, then the rest as
/// it is.
pub(crate) proof fn lemma_apply_add_rest(x: Seq<DocAtom>, y: Seq<AddAtom>)
    requires
        add_pre(y) <= x.len(),
    ensures
        apply_add_atoms(x, y) == opt_cat(
            apply_add_atoms(x.take(add_pre(y) as int), y),
            Some(x.skip(add_pre(y) as int)),
        ),
{
    let n = add_pre(y) as int;
    assert(x =~= x.take(n) + x.skip(n));
    assert(y + Seq::<AddAtom>::empty() =~= y);
    lemma_apply_add_split(x.take(n), x.skip(n), y, Seq::<AddAtom>::empty());
    lemma_apply_add_atoms(x.skip(n), Seq::<AddAtom>::empty());
}

/// Two results with the same end are the same before it.
pub(crate) proof fn lemma_opt_cancel(p: Option<Seq<DocAtom>>, q: Option<Seq<DocAtom>>, r: Seq<DocAtom>)
    requires
        opt_cat(p, Some(r)) == opt_cat(q, Some(r)),
        q is Some,
    ensures
        p == q,
{
    let x = p.unwrap();
    let y = q.unwrap();
    assert(x + r == y + r);
    assert(x.len() == y.len());
    assert forall|i: int| 0 <= i < x.len() implies x[i] == y[i] by {
        assert((x + r)[i] == x[i]);
        assert((y + r)[i] == y[i]);
    }
    assert(x =~= y);
}

// ---------------------------------------------------------------------------
// Two insertions in turn.

/// Where the walk of insertions `a` and `b` may start: `a` walks over all
/// of `d`, and `b` applies to what `a` makes of it, followed by `t`.
pub open spec fn aa_walk_fits(d: Seq<DocAtom>, t: Seq<DocAtom>, a: Seq<AddAtom>, b: Seq<AddAtom>) -> bool {
    &&& add_pre(a) == d.len()
    &&& apply_add_atoms(d, a) is Some
    &&& apply_add_atoms(apply_add_atoms(d, a).unwrap() + t, b) is Some
}

/// What the walk of `a` and `b` does: it ends where either does, having
/// taken a first part of each; the first part of `b` walks over no less
/// than what the first part of `a` makes, and over just that where `a` goes
/// on; what it writes walks over what that part of `a` walked over and as
/// much more as `b` walks beyond; and what it writes, then what is left of
/// `b`, then what is left of `a`, does to `d` then `t` what `a` then `b` do.
pub open spec fn aa_walk_does(d: Seq<DocAtom>, t: Seq<DocAtom>, a: Seq<AddAtom>, b: Seq<AddAtom>) -> bool {
    let e = apply_add_atoms(d, a).unwrap();
    let w = add_add_walk(a, b).unwrap();
    let j = a.len() - w.1.len();
    let bw = b.take(b.len() - w.2.len());
    &&& add_add_walk(a, b) is Some
    &&& w.1.len() <= a.len()
    &&& w.2.len() <= b.len()
    &&& w.1 == a.skip(j)
    &&& w.2 == b.skip(b.len() - w.2.len())
    &&& (w.1.len() == 0 || w.2.len() == 0)
    &&& add_pre(bw) >= j
    &&& (w.1.len() > 0 ==> add_pre(bw) == j)
    &&& add_pre(w.0) + j == add_pre(a.take(j)) + add_pre(bw)
    &&& apply_add_atoms(d + t, w.0 + w.2 + w.1) == apply_add_atoms(e + t, b)
}

/// One atom of a first insertion, walking over `d0`, against one atom of a
/// second insertion that walks over the one atom `e0` that it makes: they
/// compose to one atom that walks over `d0` and makes what both do in turn.
proof fn lemma_aa_one_apply(d0: Seq<DocAtom>, x: AddAtom, e0: DocAtom, y: AddAtom)
    requires
        y is Skip || y is Styles || y is WithGroup,
        add_atom_pre(x) == d0.len(),
        apply_add_atoms(d0, seq![x]) == Some(seq![e0]),
        apply_add_one(e0, y) is Some,
    ensures
        add_add_one(x, y) matches Some(h) && h.len() == 1 && add_atom_pre(h[0]) == add_atom_pre(x)
            && apply_add_atoms(d0, seq![h[0]]) == apply_add_one(e0, y),
    decreases y, 0nat,
{
    reveal(add_add_one);
    lemma_apply_add_atoms(d0, seq![x]);
    lemma_apply_add_one(e0, y);
    assert(seq![x][0] == x);
    assert(seq![x].drop_first() =~= Seq::<AddAtom>::empty());
    match add_add_one(x, y) {
        Some(h) => {
            lemma_apply_add_atoms(d0, seq![h[0]]);
            assert(seq![h[0]][0] == h[0]);
            assert(seq![h[0]].drop_first() =~= Seq::<AddAtom>::empty());
        },
        None => {},
    }
    match x {
        AddAtom::Skip => {
            lemma_apply_add_one(d0[0], x);
            lemma_apply_add_one(d0[0], y);
            lemma_apply_add_atoms(d0.drop_first(), Seq::<AddAtom>::empty());
            assert(d0.drop_first() =~= Seq::<DocAtom>::empty());
            assert(seq![d0[0]] + Seq::<DocAtom>::empty() =~= seq![d0[0]]);
            assert(seq![e0][0] == e0);
            match apply_add_one(d0[0], y) {
                Some(r) => assert(r + Seq::<DocAtom>::empty() =~= r),
                None => {},
            }
        },
        AddAtom::Styles(sa) => {
            lemma_apply_add_one(d0[0], x);
            lemma_apply_add_atoms(d0.drop_first(), Seq::<AddAtom>::empty());
            assert(d0.drop_first() =~= Seq::<DocAtom>::empty());
            assert(seq![e0][0] == e0);
            match (d0[0], y) {
                (DocAtom::Char(s, c), AddAtom::Styles(sb)) => {
                    assert(s.union(sa).union(sb) == s.union(sa.union(sb)));
                    lemma_apply_add_one(d0[0], AddAtom::Styles(sa.union(sb)));
                },
                (DocAtom::Char(s, c), AddAtom::Skip) => {
                    lemma_apply_add_one(d0[0], AddAtom::Styles(sa));
                },
                _ => {},
            }
        },
        AddAtom::Text(st, c) => {
            lemma_apply_add_atoms(d0, Seq::<AddAtom>::empty());
            assert(seq![DocAtom::Char(st, c)] + d0 =~= seq![DocAtom::Char(st, c)]);
            assert(seq![e0][0] == e0);
            match y {
                AddAtom::Styles(sb) => {
                    assert(seq![DocAtom::Char(st.union(sb), c)] + d0 =~= seq![DocAtom::Char(st.union(sb), c)]);
                },
                _ => {},
            }
        },
        AddAtom::WithGroup(ia) => {
            lemma_apply_add_one(d0[0], x);
            lemma_apply_add_atoms(d0.drop_first(), Seq::<AddAtom>::empty());
            assert(d0.drop_first() =~= Seq::<DocAtom>::empty());
            assert(seq![e0][0] == e0);
            match (d0[0], y) {
                (DocAtom::Group(at, g), AddAtom::WithGroup(ib)) => {
                    compose_add_add_apply(g, ia, ib);
                    let c = compose_add_atoms(ia, ib).unwrap();
                    lemma_apply_add_one(d0[0], AddAtom::WithGroup(c));
                },
                _ => {},
            }
        },
        AddAtom::Group(at, ia) => {
            assert(d0.take(add_pre(ia) as int) =~= d0);
            assert(d0.skip(add_pre(ia) as int) =~= Seq::<DocAtom>::empty());
            lemma_apply_add_atoms(Seq::<DocAtom>::empty(), Seq::<AddAtom>::empty());
            assert(seq![e0][0] == e0);
            match y {
                AddAtom::WithGroup(ib) => {
                    let g = apply_add_atoms(d0, ia).unwrap();
                    lemma_apply_add_len(d0, ia);
                    lemma_apply_add_len(g, ib);
                    compose_add_add_apply(d0, ia, ib);
                    let c = compose_add_atoms(ia, ib).unwrap();
                    assert(d0.take(add_pre(c) as int) =~= d0);
                    assert(d0.skip(add_pre(c) as int) =~= Seq::<DocAtom>::empty());
                },
                _ => {},
            }
        },
    }
}

/// The walk of two insertions.
proof fn lemma_aa_walk_apply(d: Seq<DocAtom>, t: Seq<DocAtom>, a: Seq<AddAtom>, b: Seq<AddAtom>)
    requires
        aa_walk_fits(d, t, a, b),
    ensures
        aa_walk_does(d, t, a, b),
    decreases b, 1nat,
{
    let e = apply_add_atoms(d, a).unwrap();
    lemma_aa_walk_basic(a, b);
    lemma_apply_add_len(d, a);
    if a.len() == 0 {
        lemma_apply_add_atoms(d, a);
        assert(d =~= Seq::<DocAtom>::empty());
        assert(e =~= Seq::<DocAtom>::empty());
        assert(d + t =~= e + t);
        assert(Seq::<AddAtom>::empty() + b + a =~= b);
        assert(b.take(b.len() - b.len()) =~= Seq::<AddAtom>::empty());
        assert(b.skip(0) =~= b);
        assert(a.take(0) =~= Seq::<AddAtom>::empty());
        assert(a.skip(0) =~= a);
    } else if b.len() == 0 {
        lemma_apply_add_rest(d + t, a);
        assert((d + t).take(d.len() as int) =~= d);
        assert((d + t).skip(d.len() as int) =~= t);
        lemma_apply_add_atoms(e + t, b);
        assert(Seq::<AddAtom>::empty() + b + a =~= a);
        assert(b.take(0) =~= Seq::<AddAtom>::empty());
        assert(a.skip(0) =~= a);
        assert(a.take(0) =~= Seq::<AddAtom>::empty());
        assert(b.skip(0) =~= b);
    } else {
        match b[0] {
            AddAtom::Text(_, _) => lemma_aa_walk_apply_text(d, t, a, b),
            AddAtom::Group(_, _) => {
                let ib = b[0]->Group_1;
                assert(b =~= seq![b[0]] + b.drop_first());
                lemma_apply_add_group(b[0]->Group_0, ib, e + t, b.drop_first());
                lemma_apply_add_rest(e + t, ib);
                lemma_aa_walk_apply(d, t, a, ib);
                if add_add_walk(a, ib).unwrap().1.len() > 0 {
                    lemma_aa_walk_apply_group_whole(d, t, a, b);
                } else {
                    lemma_aa_walk_apply_group_part(d, t, a, b);
                }
            },
            _ => lemma_aa_walk_apply_one(d, t, a, b),
        }
    }
}

/// The first atom of a sequence is walked over first.
pub(crate) proof fn lemma_add_pre_cons(x: AddAtom, s: Seq<AddAtom>)
    ensures
        add_pre(seq![x] + s) == add_atom_pre(x) + add_pre(s),
        (seq![x] + s)[0] == x,
        (seq![x] + s).drop_first() == s,
{
    lemma_add_pre_first(seq![x] + s);
    assert((seq![x] + s).drop_first() =~= s);
}

/// Text that the second insertion inserts.
#[verifier::spinoff_prover]
proof fn lemma_aa_walk_apply_text(d: Seq<DocAtom>, t: Seq<DocAtom>, a: Seq<AddAtom>, b: Seq<AddAtom>)
    requires
        aa_walk_fits(d, t, a, b),
        a.len() > 0,
        b.len() > 0,
        b[0] is Text,
    ensures
        aa_walk_does(d, t, a, b),
    decreases b, 0nat,
{
    let e = apply_add_atoms(d, a).unwrap();
    let b0 = b[0];
    let b1 = b.drop_first();
    lemma_apply_add_atoms(e + t, b);
    lemma_aa_walk_apply(d, t, a, b1);
    lemma_aa_walk_basic(a, b);
    let w1 = add_add_walk(a, b1).unwrap();
    let m = b1.len() - w1.2.len();
    assert(b =~= seq![b0] + b1);
    assert(b.skip(1 + m) =~= b1.skip(m));
    assert(b.take(1 + m) =~= seq![b0] + b1.take(m));
    lemma_add_pre_cons(b0, b1.take(m));
    lemma_add_pre_cons(b0, w1.0);
    let out = seq![b0] + w1.0 + w1.2 + w1.1;
    assert(out =~= seq![b0] + (w1.0 + w1.2 + w1.1));
    lemma_add_pre_cons(b0, w1.0 + w1.2 + w1.1);
    lemma_apply_add_atoms(d + t, out);
}

/// An atom of the second insertion that walks over one atom of what the
/// first makes.
#[verifier::spinoff_prover]
#[verifier::rlimit(50)]
proof fn lemma_aa_walk_apply_one(d: Seq<DocAtom>, t: Seq<DocAtom>, a: Seq<AddAtom>, b: Seq<AddAtom>)
    requires
        aa_walk_fits(d, t, a, b),
        a.len() > 0,
        b.len() > 0,
        b[0] is Skip || b[0] is Styles || b[0] is WithGroup,
    ensures
        aa_walk_does(d, t, a, b),
    decreases b, 0nat,
{
    let e = apply_add_atoms(d, a).unwrap();
    let a0 = a[0];
    let a1 = a.drop_first();
    let b0 = b[0];
    let b1 = b.drop_first();
    let p0 = add_atom_pre(a0);
    assert(a =~= seq![a0] + a1);
    assert(b =~= seq![b0] + b1);
    lemma_add_pre_cons(a0, a1);
    lemma_add_pre_cons(a0, Seq::<AddAtom>::empty());
    assert(seq![a0] + Seq::<AddAtom>::empty() =~= seq![a0]);
    let d0 = d.take(p0 as int);
    let d1 = d.skip(p0 as int);
    assert(d =~= d0 + d1);
    lemma_apply_add_split(d0, d1, seq![a0], a1);
    lemma_apply_add_len(d0, seq![a0]);
    let big_e0 = apply_add_atoms(d0, seq![a0]).unwrap();
    let e0 = big_e0[0];
    assert(big_e0 =~= seq![e0]);
    let e1 = apply_add_atoms(d1, a1).unwrap();
    assert(e + t =~= seq![e0] + (e1 + t));
    lemma_apply_add_step(e0, b0, e1 + t, b1);
    lemma_aa_one_apply(d0, a0, e0, b0);
    let h = add_add_one(a0, b0).unwrap();
    let h0 = h[0];
    assert(h =~= seq![h0]);
    lemma_aa_walk_apply(d1, t, a1, b1);
    lemma_aa_walk_step(a0, b0, a1, b1);
    let w1 = add_add_walk(a1, b1).unwrap();
    let j1 = a1.len() - w1.1.len();
    let m = b1.len() - w1.2.len();
    assert(a.skip(1 + j1) =~= a1.skip(j1));
    assert(a.take(1 + j1) =~= seq![a0] + a1.take(j1));
    lemma_add_pre_cons(a0, a1.take(j1));
    assert(b.skip(1 + m) =~= b1.skip(m));
    assert(b.take(1 + m) =~= seq![b0] + b1.take(m));
    lemma_add_pre_cons(b0, b1.take(m));
    lemma_add_pre_cons(h0, w1.0);
    let rest = w1.0 + w1.2 + w1.1;
    assert(h + w1.0 + w1.2 + w1.1 =~= seq![h0] + rest);
    lemma_add_pre_cons(h0, Seq::<AddAtom>::empty());
    assert(seq![h0] + Seq::<AddAtom>::empty() =~= seq![h0]);
    assert(d + t =~= d0 + (d1 + t));
    lemma_apply_add_split(d0, d1 + t, seq![h0], rest);
}

/// A group that the second insertion inserts, whose contents end within
/// what the first makes.
#[verifier::spinoff_prover]
#[verifier::rlimit(80)]
proof fn lemma_aa_walk_apply_group_whole(d: Seq<DocAtom>, t: Seq<DocAtom>, a: Seq<AddAtom>, b: Seq<AddAtom>)
    requires
        aa_walk_fits(d, t, a, b),
        a.len() > 0,
        b.len() > 0,
        b[0] is Group,
        aa_walk_does(d, t, a, b[0]->Group_1),
        add_add_walk(a, b[0]->Group_1).unwrap().1.len() > 0,
    ensures
        aa_walk_does(d, t, a, b),
    decreases b, 0nat,
{
    let e = apply_add_atoms(d, a).unwrap();
    let at = b[0]->Group_0;
    let ib = b[0]->Group_1;
    let b0 = b[0];
    let b1 = b.drop_first();
    let n = add_pre(ib);
    assert(b =~= seq![b0] + b1);
    lemma_apply_add_group(at, ib, e + t, b1);
    let wc = add_add_walk(a, ib).unwrap();
    let oc = wc.0;
    let ra1 = wc.1;
    let rc = wc.2;
    let j1 = a.len() - ra1.len();
    assert(rc.len() == 0);
    assert(ib.take(ib.len() - rc.len()) =~= ib);
    let m = add_pre(oc);
    // The first insertion, split where the group's contents end.
    assert(a =~= a.take(j1) + ra1);
    lemma_add_pre_concat(a.take(j1), ra1);
    let da = d.take(m as int);
    let db = d.skip(m as int);
    assert(d =~= da + db);
    lemma_apply_add_split(da, db, a.take(j1), ra1);
    let ea = apply_add_atoms(da, a.take(j1)).unwrap();
    let eb = apply_add_atoms(db, ra1).unwrap();
    lemma_apply_add_len(da, a.take(j1));
    assert(e == ea + eb);
    assert((e + t).take(n as int) =~= ea);
    assert((e + t).skip(n as int) =~= eb + t);
    // What the group's contents make.
    assert(oc + rc + ra1 =~= oc + ra1);
    assert(d + t =~= da + (db + t));
    lemma_apply_add_split(da, db + t, oc, ra1);
    lemma_apply_add_rest(db + t, ra1);
    assert((db + t).take(db.len() as int) =~= db);
    assert((db + t).skip(db.len() as int) =~= t);
    lemma_apply_add_rest(e + t, ib);
    lemma_opt_cancel(apply_add_atoms(da, oc), apply_add_atoms(ea, ib), eb + t);
    // The rest of both.
    lemma_aa_walk_apply(db, t, ra1, b1);
    lemma_aa_walk_group(at, ib, a, b1);
    let w2 = add_add_walk(ra1, b1).unwrap();
    let j2 = ra1.len() - w2.1.len();
    let k = b1.len() - w2.2.len();
    assert(oc + rc =~= oc);
    let o = seq![AddAtom::Group(at, oc)] + w2.0;
    lemma_add_pre_cons(AddAtom::Group(at, oc), w2.0);
    assert(a.skip(j1 + j2) =~= ra1.skip(j2));
    assert(a.take(j1 + j2) =~= a.take(j1) + ra1.take(j2));
    lemma_add_pre_concat(a.take(j1), ra1.take(j2));
    assert(b.skip(1 + k) =~= b1.skip(k));
    assert(b.take(1 + k) =~= seq![b0] + b1.take(k));
    lemma_add_pre_cons(b0, b1.take(k));
    let out = o + w2.2 + w2.1;
    assert(out =~= seq![AddAtom::Group(at, oc)] + (w2.0 + w2.2 + w2.1));
    lemma_apply_add_group(at, oc, d + t, w2.0 + w2.2 + w2.1);
    assert((d + t).take(m as int) =~= da);
    assert((d + t).skip(m as int) =~= db + t);
}

/// A group that the second insertion inserts, whose contents reach beyond
/// what the first makes.
#[verifier::spinoff_prover]
#[verifier::rlimit(80)]
proof fn lemma_aa_walk_apply_group_part(d: Seq<DocAtom>, t: Seq<DocAtom>, a: Seq<AddAtom>, b: Seq<AddAtom>)
    requires
        aa_walk_fits(d, t, a, b),
        a.len() > 0,
        b.len() > 0,
        b[0] is Group,
        aa_walk_does(d, t, a, b[0]->Group_1),
        add_add_walk(a, b[0]->Group_1).unwrap().1.len() == 0,
    ensures
        aa_walk_does(d, t, a, b),
    decreases b, 0nat,
{
    let e = apply_add_atoms(d, a).unwrap();
    lemma_apply_add_len(d, a);
    let at = b[0]->Group_0;
    let ib = b[0]->Group_1;
    let b0 = b[0];
    let b1 = b.drop_first();
    let n = add_pre(ib);
    assert(b =~= seq![b0] + b1);
    lemma_apply_add_group(at, ib, e + t, b1);
    let wc = add_add_walk(a, ib).unwrap();
    let oc = wc.0;
    let ra1 = wc.1;
    let rc = wc.2;
    let ibw = ib.take(ib.len() - rc.len());
    assert(ib =~= ibw + rc);
    lemma_add_pre_concat(ibw, rc);
    assert(a.take(a.len() as int) =~= a);
    lemma_add_pre_concat(oc, rc);
    let m = add_pre(oc + rc);
    assert(oc + rc + ra1 =~= oc + rc);
    lemma_apply_add_rest(d + t, oc + rc);
    lemma_apply_add_rest(e + t, ib);
    assert((d + t).skip(m as int) =~= (e + t).skip(n as int));
    lemma_opt_cancel(
        apply_add_atoms((d + t).take(m as int), oc + rc),
        apply_add_atoms((e + t).take(n as int), ib),
        (e + t).skip(n as int),
    );
    lemma_aa_walk_group(at, ib, a, b1);
    lemma_aa_walk_basic(ra1, b1);
    let o = seq![AddAtom::Group(at, oc + rc)];
    assert(o + Seq::<AddAtom>::empty() =~= o);
    assert(o + b1 + ra1 =~= o + b1);
    lemma_apply_add_group(at, oc + rc, d + t, b1);
    lemma_add_pre_cons(AddAtom::Group(at, oc + rc), Seq::<AddAtom>::empty());
    assert(a.skip(a.len() as int) =~= Seq::<AddAtom>::empty());
    assert(b.skip(1) =~= b1);
    assert(b.take(1) =~= seq![b0]);
    lemma_add_pre_cons(b0, Seq::<AddAtom>::empty());
    assert(seq![b0] + Seq::<AddAtom>::empty() =~= seq![b0]);
}

/// Composing two insertions: wherever a document takes the first insertion
/// and what comes of it takes the second, the composed insertion applies to
/// the document and gives the same; and where the second walks over no more
/// than the first makes, the composition walks over what the first does.
pub proof fn compose_add_add_apply(d: Seq<DocAtom>, a: Seq<AddAtom>, b: Seq<AddAtom>)
    requires
        apply_add_atoms(d, a) is Some,
        apply_add_atoms(apply_add_atoms(d, a).unwrap(), b) is Some,
    ensures
        compose_add_atoms(a, b) is Some,
        apply_add_atoms(d, compose_add_atoms(a, b).unwrap()) == apply_add_atoms(
            apply_add_atoms(d, a).unwrap(),
            b,
        ),
        add_pre(b) <= a.len() ==> add_pre(compose_add_atoms(a, b).unwrap()) == add_pre(a),
    decreases b, 2nat,
{
    lemma_apply_add_len(d, a);
    let p = add_pre(a) as int;
    let dd = d.take(p);
    let t = d.skip(p);
    lemma_apply_add_rest(d, a);
    let e = apply_add_atoms(dd, a).unwrap();
    assert(apply_add_atoms(d, a).unwrap() == e + t);
    lemma_aa_walk_apply(dd, t, a, b);
    let w = add_add_walk(a, b).unwrap();
    assert(d =~= dd + t);
    lemma_compose_add_atoms(a, b);
    let j = a.len() - w.1.len();
    let bw = b.take(b.len() - w.2.len());
    assert(b =~= bw + w.2);
    lemma_add_pre_concat(bw, w.2);
    assert(a =~= a.take(j) + w.1);
    lemma_add_pre_concat(a.take(j), w.1);
    lemma_add_pre_concat(w.0, w.2);
    lemma_add_pre_concat(w.0 + w.2, w.1);
}

// ---------------------------------------------------------------------------
// Kept runs, and what deletions leave.

/// A run of kept atoms keeps the document it walks over.
pub(crate) proof fn lemma_del_skips(d: Seq<DocAtom>, n: nat)
    requires
        n <= d.len(),
    ensures
        apply_del_atoms(d, repeat(DelAtom::Skip, n)) == Some(d),
    decreases n,
{
    lemma_repeat(DelAtom::Skip, n);
    lemma_apply_del_atoms(d, repeat(DelAtom::Skip, n));
    if n > 0 {
        let r = repeat(DelAtom::Skip, n);
        assert(r.drop_first() =~= repeat(DelAtom::Skip, (n - 1) as nat)) by {
            lemma_repeat(DelAtom::Skip, (n - 1) as nat);
        }
        lemma_del_skips(d.drop_first(), (n - 1) as nat);
        lemma_apply_del_one(d[0], DelAtom::Skip);
        assert(seq![d[0]] + d.drop_first() =~= d);
    }
}

/// A run of kept atoms keeps the document it walks over.
pub(crate) proof fn lemma_add_skips(d: Seq<DocAtom>, n: nat)
    requires
        n <= d.len(),
    ensures
        apply_add_atoms(d, repeat(AddAtom::Skip, n)) == Some(d),
        add_pre(repeat(AddAtom::Skip, n)) == n,
    decreases n,
{
    lemma_repeat(AddAtom::Skip, n);
    crate::doc::lemma_add_pre_repeat(AddAtom::Skip, n);
    lemma_apply_add_atoms(d, repeat(AddAtom::Skip, n));
    if n > 0 {
        let r = repeat(AddAtom::Skip, n);
        assert(r.drop_first() =~= repeat(AddAtom::Skip, (n - 1) as nat)) by {
            lemma_repeat(AddAtom::Skip, (n - 1) as nat);
        }
        lemma_add_skips(d.drop_first(), (n - 1) as nat);
        lemma_apply_add_one(d[0], AddAtom::Skip);
        assert(seq![d[0]] + d.drop_first() =~= d);
    }
}

/// What a deletion leaves of its first atom, then of the rest.
proof fn lemma_del_post_first(r: Seq<DelAtom>)
    requires
        r.len() > 0,
    ensures
        del_post(r) == del_atom_post(r[0]) + del_post(r.drop_first()),
{
    assert(r =~= seq![r[0]] + r.drop_first());
    lemma_del_post_concat(seq![r[0]], r.drop_first());
    assert(seq![r[0]].drop_last() =~= Seq::<DelAtom>::empty());
    assert(seq![r[0]].last() == r[0]);
    assert(del_post(seq![r[0]]) == del_post(Seq::<DelAtom>::empty()) + del_atom_post(r[0]));
}

/// A deletion that reaches each atom of a document, and each atom of each
/// group that it deletes, leaves as many atoms as it counts.
#[verifier::spinoff_prover]
pub(crate) proof fn lemma_del_post_len(d: Seq<DocAtom>, r: Seq<DelAtom>)
    requires
        r.len() == d.len(),
        del_covers(d, r),
        apply_del_atoms(d, r) is Some,
    ensures
        apply_del_atoms(d, r).unwrap().len() == del_post(r),
    decreases r,
{
    lemma_apply_del_atoms(d, r);
    if r.len() > 0 {
        lemma_del_post_first(r);
        lemma_apply_del_one(d[0], r[0]);
        assert(del_atom_covers(d[0], r[0]));
        assert(del_covers(d.drop_first(), r.drop_first()));
        lemma_del_post_len(d.drop_first(), r.drop_first());
        match (d[0], r[0]) {
            (DocAtom::Group(_, g), DelAtom::Group(inner)) => {
                lemma_apply_del_len(g, inner);
                lemma_del_post_len(g, inner);
            },
            _ => {},
        }
    }
}

/// A deletion reaches all of two documents where each part reaches all of
/// its own.
pub proof fn lemma_del_covers_split(p: Seq<DocAtom>, q: Seq<DocAtom>, r: Seq<DelAtom>, s: Seq<DelAtom>)
    requires
        r.len() == p.len(),
    ensures
        del_covers(p + q, r + s) == (del_covers(p, r) && del_covers(q, s)),
    decreases r.len(),
{
    if r.len() == 0 {
        assert(p + q =~= q);
        assert(r + s =~= s);
    } else {
        assert((p + q)[0] == p[0]);
        assert((r + s)[0] == r[0]);
        assert((p + q).drop_first() =~= p.drop_first() + q);
        assert((r + s).drop_first() =~= r.drop_first() + s);
        lemma_del_covers_split(p.drop_first(), q, r.drop_first(), s);
    }
}

// ---------------------------------------------------------------------------
// An insertion, then a deletion.

/// A deletion atom against a single document atom.
pub(crate) proof fn lemma_del_single(z: DocAtom, y: DelAtom)
    ensures
        apply_del_atoms(seq![z], seq![y]) == apply_del_one(z, y),
{
    lemma_apply_del_step(z, y, Seq::<DocAtom>::empty(), Seq::<DelAtom>::empty());
    assert(seq![z] + Seq::<DocAtom>::empty() =~= seq![z]);
    assert(seq![y] + Seq::<DelAtom>::empty() =~= seq![y]);
    lemma_apply_del_atoms(Seq::<DocAtom>::empty(), Seq::<DelAtom>::empty());
    lemma_opt_cat_empty(apply_del_one(z, y));
}

/// An insertion atom that walks over one atom, against a single document
/// atom.
proof fn lemma_add_single(z: DocAtom, y: AddAtom)
    requires
        y is Skip || y is Styles || y is WithGroup,
    ensures
        apply_add_atoms(seq![z], seq![y]) == apply_add_one(z, y),
        add_pre(seq![y]) == 1,
{
    lemma_apply_add_step(z, y, Seq::<DocAtom>::empty(), Seq::<AddAtom>::empty());
    assert(seq![z] + Seq::<DocAtom>::empty() =~= seq![z]);
    assert(seq![y] + Seq::<AddAtom>::empty() =~= seq![y]);
    lemma_apply_add_atoms(Seq::<DocAtom>::empty(), Seq::<AddAtom>::empty());
    lemma_opt_cat_empty(apply_add_one(z, y));
    lemma_add_pre_cons(y, Seq::<AddAtom>::empty());
    assert(add_pre(Seq::<AddAtom>::empty()) == 0);
}

/// A single inserted character.
proof fn lemma_add_single_text(st: crate::rtf::StyleSet, c: char)
    ensures
        apply_add_atoms(Seq::<DocAtom>::empty(), seq![AddAtom::Text(st, c)]) == Some(
            seq![DocAtom::Char(st, c)],
        ),
        add_pre(seq![AddAtom::Text(st, c)]) == 0,
{
    let y = seq![AddAtom::Text(st, c)];
    lemma_apply_add_atoms(Seq::<DocAtom>::empty(), y);
    assert(y.drop_first() =~= Seq::<AddAtom>::empty());
    lemma_apply_add_atoms(Seq::<DocAtom>::empty(), Seq::<AddAtom>::empty());
    assert(seq![DocAtom::Char(st, c)] + Seq::<DocAtom>::empty() =~= seq![DocAtom::Char(st, c)]);
    lemma_add_pre_cons(AddAtom::Text(st, c), Seq::<AddAtom>::empty());
    assert(seq![AddAtom::Text(st, c)] + Seq::<AddAtom>::empty() =~= y);
}

/// A single inserted group over all of a document.
proof fn lemma_add_single_group(at: crate::rtf::Attrs, ia: Seq<AddAtom>, x: Seq<DocAtom>)
    requires
        add_pre(ia) == x.len(),
    ensures
        apply_add_atoms(x, seq![AddAtom::Group(at, ia)]) == match apply_add_atoms(x, ia) {
            Some(g) => Some(seq![DocAtom::Group(at, g)]),
            None => None,
        },
        add_pre(seq![AddAtom::Group(at, ia)]) == add_pre(ia),
{
    lemma_apply_add_group(at, ia, x, Seq::<AddAtom>::empty());
    assert(seq![AddAtom::Group(at, ia)] + Seq::<AddAtom>::empty() =~= seq![AddAtom::Group(at, ia)]);
    assert(x.take(x.len() as int) =~= x);
    assert(x.skip(x.len() as int) =~= Seq::<DocAtom>::empty());
    lemma_apply_add_atoms(Seq::<DocAtom>::empty(), Seq::<AddAtom>::empty());
    match apply_add_atoms(x, ia) {
        Some(g) => assert(seq![DocAtom::Group(at, g)] + Seq::<DocAtom>::empty() =~= seq![DocAtom::Group(at, g)]),
        None => {},
    }
}

/// What an insertion atom makes of the document atoms it walks over, as a
/// single atom.
proof fn lemma_add_made(x0: Seq<DocAtom>, a0: AddAtom, e0: DocAtom)
    requires
        add_atom_pre(a0) == x0.len(),
        apply_add_atoms(x0, seq![a0]) == Some(seq![e0]),
    ensures
        a0 matches AddAtom::Text(st, c) ==> e0 == DocAtom::Char(st, c) && x0.len() == 0,
        a0 matches AddAtom::Group(at, ia) ==> apply_add_atoms(x0, ia) is Some && e0 == DocAtom::Group(
            at,
            apply_add_atoms(x0, ia).unwrap(),
        ),
        (a0 is Skip || a0 is Styles || a0 is WithGroup) ==> x0.len() == 1 && x0 == seq![x0[0]]
            && apply_add_one(x0[0], a0) == Some(seq![e0]),
{
    match a0 {
        AddAtom::Text(st, c) => {
            assert(x0 =~= Seq::<DocAtom>::empty());
            lemma_add_single_text(st, c);
            assert(seq![e0][0] == e0);
        },
        AddAtom::Group(at, ia) => {
            lemma_add_single_group(at, ia, x0);
            assert(seq![e0][0] == e0);
        },
        _ => {
            assert(x0 =~= seq![x0[0]]);
            lemma_add_single(x0[0], a0);
        },
    }
}

/// One atom of an insertion, walking over `x0` and making `e0`, against one
/// atom of a deletion: the deletion and insertion atoms they compose to do
/// to `x0` what both do in turn.
#[verifier::spinoff_prover]
#[verifier::rlimit(80)]
proof fn lemma_ad_one_apply(x0: Seq<DocAtom>, a0: AddAtom, e0: DocAtom, b0: DelAtom)
    requires
        add_atom_pre(a0) == x0.len(),
        apply_add_atoms(x0, seq![a0]) == Some(seq![e0]),
        apply_del_one(e0, b0) is Some,
        del_atom_covers(e0, b0),
        add_del_one(a0, b0) is Some,
    ensures
        ({
            let (dh, ih) = add_del_one(a0, b0).unwrap();
            &&& dh.len() == x0.len()
            &&& apply_del_atoms(x0, dh) is Some
            &&& add_pre(ih) == apply_del_atoms(x0, dh).unwrap().len()
            &&& apply_add_atoms(apply_del_atoms(x0, dh).unwrap(), ih) == apply_del_one(e0, b0)
        }),
    decreases a0, 0nat,
{
    lemma_ad_one(a0, b0);
    lemma_add_made(x0, a0, e0);
    lemma_apply_del_one(e0, b0);
    lemma_apply_del_atoms(x0, Seq::<DelAtom>::empty());
    lemma_apply_add_atoms(Seq::<DocAtom>::empty(), Seq::<AddAtom>::empty());
    assert(add_pre(Seq::<AddAtom>::empty()) == 0);
    let (dh, ih) = add_del_one(a0, b0).unwrap();
    match a0 {
        AddAtom::Text(st, c) => {
            assert(x0 =~= Seq::<DocAtom>::empty());
            match b0 {
                DelAtom::Styles(bs) => lemma_add_single_text(st.minus(bs), c),
                DelAtom::Skip => lemma_add_single_text(st, c),
                _ => {},
            }
        },
        AddAtom::Group(at, ia) => {
            let g = apply_add_atoms(x0, ia).unwrap();
            match b0 {
                DelAtom::Skip => {
                    lemma_repeat(DelAtom::Skip, add_pre(ia));
                    lemma_del_skips(x0, add_pre(ia));
                    lemma_add_single_group(at, ia, x0);
                },
                DelAtom::WithGroup(ib) => {
                    compose_add_del_apply(x0, ia, ib);
                    let (d, i) = compose_add_del_atoms(ia, ib).unwrap();
                    let y = apply_del_atoms(x0, d).unwrap();
                    lemma_add_single_group(at, i, y);
                },
                DelAtom::Group(ib) => {
                    lemma_apply_add_len(x0, ia);
                    lemma_apply_del_len(g, ib);
                    compose_add_del_apply(x0, ia, ib);
                },
                _ => {},
            }
        },
        _ => {
            let z = x0[0];
            lemma_apply_add_one(z, a0);
            assert(apply_add_one(z, a0).unwrap()[0] == e0);
            match b0 {
                DelAtom::Text => {
                    lemma_del_single(z, DelAtom::Text);
                    lemma_apply_del_one(z, DelAtom::Text);
                },
                DelAtom::Styles(bs) => {
                    lemma_del_single(z, b0);
                    lemma_apply_del_one(z, b0);
                    match a0 {
                        AddAtom::Styles(sa) => {
                            match z {
                                DocAtom::Char(s, c) => {
                                    assert(s.minus(bs).union(sa.minus(bs)) == s.union(sa).minus(bs));
                                    lemma_add_single(DocAtom::Char(s.minus(bs), c), AddAtom::Styles(sa.minus(bs)));
                                    lemma_apply_add_one(DocAtom::Char(s.minus(bs), c), AddAtom::Styles(sa.minus(bs)));
                                },
                                _ => {},
                            }
                        },
                        _ => {
                            match z {
                                DocAtom::Char(s, c) => {
                                    lemma_add_single(DocAtom::Char(s.minus(bs), c), AddAtom::Skip);
                                    lemma_apply_add_one(DocAtom::Char(s.minus(bs), c), AddAtom::Skip);
                                },
                                _ => {},
                            }
                        },
                    }
                },
                DelAtom::Skip => {
                    lemma_del_single(z, DelAtom::Skip);
                    lemma_apply_del_one(z, DelAtom::Skip);
                    lemma_add_single(z, ih[0]);
                    assert(ih == seq![ih[0]]);
                },
                DelAtom::WithGroup(ib) => {
                    lemma_del_single(z, b0);
                    lemma_apply_del_one(z, b0);
                    match a0 {
                        AddAtom::WithGroup(ia) => {
                            let g = z->Group_1;
                            let at = z->Group_0;
                            compose_add_del_apply(g, ia, ib);
                            let (d, i) = compose_add_del_atoms(ia, ib).unwrap();
                            lemma_del_single(z, DelAtom::WithGroup(d));
                            lemma_apply_del_one(z, DelAtom::WithGroup(d));
                            let y = apply_del_atoms(g, d).unwrap();
                            lemma_add_single(DocAtom::Group(at, y), AddAtom::WithGroup(i));
                            lemma_apply_add_one(DocAtom::Group(at, y), AddAtom::WithGroup(i));
                        },
                        _ => {
                            let r = apply_del_one(z, b0).unwrap();
                            lemma_add_single(r[0], AddAtom::Skip);
                            lemma_apply_add_one(r[0], AddAtom::Skip);
                            assert(r == seq![r[0]]);
                        },
                    }
                },
                DelAtom::Group(ib) => {
                    match a0 {
                        AddAtom::WithGroup(ia) => {
                            let g = z->Group_1;
                            let gp = apply_add_atoms(g, ia).unwrap();
                            lemma_apply_add_len(g, ia);
                            lemma_apply_del_len(gp, ib);
                            compose_add_del_apply(g, ia, ib);
                            let (d, i) = compose_add_del_atoms(ia, ib).unwrap();
                            lemma_del_single(z, DelAtom::Group(d));
                            lemma_apply_del_one(z, DelAtom::Group(d));
                        },
                        _ => {
                            lemma_del_single(z, b0);
                            let g = z->Group_1;
                            lemma_apply_del_len(g, ib);
                            lemma_del_post_len(g, ib);
                            let r = apply_del_one(z, b0).unwrap();
                            lemma_add_skips(r, del_post(ib));
                        },
                    }
                },
            }
        },
    }
}

/// The shorter length of an insertion and a deletion: how far their walk
/// goes, pairing their atoms one by one.
pub open spec fn ad_reach(a: Seq<AddAtom>, b: Seq<DelAtom>) -> int {
    if a.len() < b.len() {
        a.len() as int
    } else {
        b.len() as int
    }
}

/// Where the walk of an insertion `a`, over all of `x`, and a deletion `b`
/// may start: the walk goes on, and as much of `b` as it pairs with `a`
/// applies to what that much of `a` makes, reaching all of each group it
/// deletes.
pub open spec fn ad_walk_fits(x: Seq<DocAtom>, a: Seq<AddAtom>, b: Seq<DelAtom>) -> bool {
    let e = apply_add_atoms(x, a).unwrap();
    let k = ad_reach(a, b);
    &&& add_pre(a) == x.len()
    &&& apply_add_atoms(x, a) is Some
    &&& add_del_walk(a, b) is Some
    &&& apply_del_atoms(e.take(k), b.take(k)) is Some
    &&& del_covers(e.take(k), b.take(k))
}

/// What the walk does: it pairs as much of each as the shorter holds; the
/// deletion it writes reaches what that part of `a` walks over, and the
/// insertion it writes walks over what the deletion leaves and makes what
/// that part of `a`, then of `b`, make.
pub open spec fn ad_walk_does(x: Seq<DocAtom>, a: Seq<AddAtom>, b: Seq<DelAtom>) -> bool {
    let e = apply_add_atoms(x, a).unwrap();
    let k = ad_reach(a, b);
    let w = add_del_walk(a, b).unwrap();
    let x1 = x.take(add_pre(a.take(k)) as int);
    &&& w.2 == a.skip(k)
    &&& w.3 == b.skip(k)
    &&& add_pre(a.take(k)) <= x.len()
    &&& w.0.len() == x1.len()
    &&& apply_del_atoms(x1, w.0) is Some
    &&& add_pre(w.1) == apply_del_atoms(x1, w.0).unwrap().len()
    &&& apply_add_atoms(apply_del_atoms(x1, w.0).unwrap(), w.1) == apply_del_atoms(e.take(k), b.take(k))
}

/// The walk of an insertion and a deletion.
#[verifier::spinoff_prover]
#[verifier::rlimit(80)]
proof fn lemma_ad_walk_apply(x: Seq<DocAtom>, a: Seq<AddAtom>, b: Seq<DelAtom>)
    requires
        ad_walk_fits(x, a, b),
    ensures
        ad_walk_does(x, a, b),
    decreases a, 1nat,
{
    let e = apply_add_atoms(x, a).unwrap();
    let k = ad_reach(a, b);
    lemma_ad_walk_basic(a, b);
    if a.len() == 0 || b.len() == 0 {
        assert(a.skip(0) =~= a);
        assert(b.skip(0) =~= b);
        assert(a.take(0) =~= Seq::<AddAtom>::empty());
        assert(b.take(0) =~= Seq::<DelAtom>::empty());
        assert(e.take(0) =~= Seq::<DocAtom>::empty());
        assert(add_pre(Seq::<AddAtom>::empty()) == 0);
        assert(x.take(0) =~= Seq::<DocAtom>::empty());
        lemma_apply_del_atoms(Seq::<DocAtom>::empty(), Seq::<DelAtom>::empty());
        lemma_apply_add_atoms(Seq::<DocAtom>::empty(), Seq::<AddAtom>::empty());
    } else {
        let a0 = a[0];
        let a1 = a.drop_first();
        let b0 = b[0];
        let b1 = b.drop_first();
        let p0 = add_atom_pre(a0);
        assert(a =~= seq![a0] + a1);
        assert(b =~= seq![b0] + b1);
        lemma_add_pre_cons(a0, a1);
        lemma_add_pre_cons(a0, Seq::<AddAtom>::empty());
        assert(seq![a0] + Seq::<AddAtom>::empty() =~= seq![a0]);
        let x0 = x.take(p0 as int);
        let xr = x.skip(p0 as int);
        assert(x =~= x0 + xr);
        lemma_apply_add_split(x0, xr, seq![a0], a1);
        lemma_apply_add_len(x0, seq![a0]);
        let big_e0 = apply_add_atoms(x0, seq![a0]).unwrap();
        let e0 = big_e0[0];
        assert(big_e0 =~= seq![e0]);
        let er = apply_add_atoms(xr, a1).unwrap();
        assert(e =~= seq![e0] + er);
        lemma_apply_add_len(xr, a1);
        assert(ad_reach(a1, b1) == k - 1);
        assert(e.take(k) =~= seq![e0] + er.take(k - 1));
        assert(b.take(k) =~= seq![b0] + b1.take(k - 1));
        lemma_apply_del_step(e0, b0, er.take(k - 1), b1.take(k - 1));
        assert(del_atom_covers(e0, b0) && del_covers(er.take(k - 1), b1.take(k - 1))) by {
            let ek = e.take(k);
            let bk = b.take(k);
            assert(ek[0] == e0);
            assert(bk[0] == b0);
            assert(ek.drop_first() =~= er.take(k - 1));
            assert(bk.drop_first() =~= b1.take(k - 1));
        }
        lemma_ad_walk_step(a0, b0, a1, b1);
        lemma_ad_one_apply(x0, a0, e0, b0);
        let (dh, ih) = add_del_one(a0, b0).unwrap();
        lemma_ad_walk_apply(xr, a1, b1);
        let w1 = add_del_walk(a1, b1).unwrap();
        assert(a.skip(k) =~= a1.skip(k - 1));
        assert(b.skip(k) =~= b1.skip(k - 1));
        assert(a.take(k) =~= seq![a0] + a1.take(k - 1));
        lemma_add_pre_cons(a0, a1.take(k - 1));
        let q = add_pre(a1.take(k - 1)) as int;
        let x1 = x.take(p0 + q);
        assert(x1 =~= x0 + xr.take(q));
        lemma_apply_del_split(x0, xr.take(q), dh, w1.0);
        let y0 = apply_del_atoms(x0, dh).unwrap();
        let y1 = apply_del_atoms(xr.take(q), w1.0).unwrap();
        lemma_add_pre_concat(ih, w1.1);
        lemma_apply_add_split(y0, y1, ih, w1.1);
    }
}

/// Composing an insertion with the deletion that follows it: wherever a
/// document takes the insertion and what comes of it takes the deletion,
/// reaching all of each group it deletes, the composed deletion applies to
/// the document and the composed insertion to what that leaves, and they
/// give the same. Where the insertion walks over all of the document, the
/// composed deletion reaches all of it and the composed insertion walks
/// over all that it leaves; so too where the deletion reaches all that the
/// insertion makes.
#[verifier::spinoff_prover]
#[verifier::rlimit(100)]
pub proof fn compose_add_del_apply(x: Seq<DocAtom>, a: Seq<AddAtom>, b: Seq<DelAtom>)
    requires
        apply_add_atoms(x, a) is Some,
        apply_del_atoms(apply_add_atoms(x, a).unwrap(), b) is Some,
        del_covers(apply_add_atoms(x, a).unwrap(), b),
        compose_add_del_atoms(a, b) is Some,
    ensures
        ({
            let (dd, ii) = compose_add_del_atoms(a, b).unwrap();
            let e = apply_add_atoms(x, a).unwrap();
            &&& apply_del_atoms(x, dd) is Some
            &&& apply_add_atoms(apply_del_atoms(x, dd).unwrap(), ii) == apply_del_atoms(e, b)
            &&& add_pre(a) == x.len() ==> dd.len() == x.len() && add_pre(ii) == apply_del_atoms(
                x,
                dd,
            ).unwrap().len()
            &&& b.len() == e.len() ==> add_pre(ii) == apply_del_atoms(x, dd).unwrap().len()
        }),
    decreases a, 2nat,
{
    let e = apply_add_atoms(x, a).unwrap();
    lemma_apply_add_len(x, a);
    let p = add_pre(a) as int;
    let xe = x.take(p);
    let t = x.skip(p);
    assert(x =~= xe + t);
    lemma_apply_add_rest(x, a);
    let ee = apply_add_atoms(xe, a).unwrap();
    lemma_apply_add_len(xe, a);
    assert(e =~= ee + t);
    lemma_apply_del_len(e, b);
    let k = ad_reach(a, b);
    lemma_apply_del_cut(ee, t, b, k);
    lemma_apply_del_rest(ee, b.take(k));
    assert(b.take(k).take(k) =~= b.take(k));
    assert(ee.take(b.take(k).len() as int) == ee.take(k));
    assert(ee.skip(b.take(k).len() as int) == ee.skip(k));
    if k == a.len() {
        assert(ee.take(k) =~= ee);
        assert(b =~= b.take(k) + b.skip(k));
        lemma_del_covers_split(ee, t, b.take(k), b.skip(k));
    } else {
        assert(b.take(k) =~= b);
        lemma_del_covers_take(e, b);
        assert(e.take(b.len() as int) =~= ee.take(k));
    }
    lemma_compose_add_del_atoms(a, b);
    lemma_ad_walk_apply(xe, a, b);
    let w = add_del_walk(a, b).unwrap();
    let (dd, ii) = compose_add_del_atoms(a, b).unwrap();
    let q = add_pre(a.take(k)) as int;
    let x1 = xe.take(q);
    let y1 = apply_del_atoms(x1, w.0).unwrap();
    let f1 = apply_del_atoms(ee.take(k), b.take(k)).unwrap();
    assert(a =~= a.take(k) + w.2);
    lemma_add_pre_concat(a.take(k), w.2);
    if k == b.len() {
        compose_add_del_short(x, a, b);
    } else {
        compose_add_del_long(x, a, b);
    }
}

/// The composition where the deletion ends within the insertion.
#[verifier::spinoff_prover]
#[verifier::rlimit(100)]
proof fn compose_add_del_short(x: Seq<DocAtom>, a: Seq<AddAtom>, b: Seq<DelAtom>)
    requires
        apply_add_atoms(x, a) is Some,
        apply_add_atoms(x.take(add_pre(a) as int), a) is Some,
        apply_del_atoms(apply_add_atoms(x, a).unwrap(), b) is Some,
        compose_add_del_atoms(a, b) is Some,
        b.len() <= a.len(),
        add_pre(a) <= x.len(),
        ad_walk_does(x.take(add_pre(a) as int), a, b),
        apply_add_atoms(x, a).unwrap() == apply_add_atoms(x.take(add_pre(a) as int), a).unwrap() + x.skip(
            add_pre(a) as int,
        ),
        apply_add_atoms(x.take(add_pre(a) as int), a).unwrap().len() == a.len(),
        apply_del_atoms(apply_add_atoms(x, a).unwrap(), b) == opt_cat(
            opt_cat(
                apply_del_atoms(apply_add_atoms(x.take(add_pre(a) as int), a).unwrap().take(b.len() as int), b),
                Some(apply_add_atoms(x.take(add_pre(a) as int), a).unwrap().skip(b.len() as int)),
            ),
            Some(x.skip(add_pre(a) as int)),
        ),
        compose_add_del_atoms(a, b) == Some(
            (
                add_del_walk(a, b).unwrap().0 + add_del_walk(a, b).unwrap().3 + repeat(
                    DelAtom::Skip,
                    add_pre(add_del_walk(a, b).unwrap().2),
                ),
                add_del_walk(a, b).unwrap().1 + repeat(AddAtom::Skip, del_post(add_del_walk(a, b).unwrap().3))
                    + add_del_walk(a, b).unwrap().2,
            ),
        ),
    ensures
        ({
            let (dd, ii) = compose_add_del_atoms(a, b).unwrap();
            let e = apply_add_atoms(x, a).unwrap();
            &&& apply_del_atoms(x, dd) is Some
            &&& apply_add_atoms(apply_del_atoms(x, dd).unwrap(), ii) == apply_del_atoms(e, b)
            &&& add_pre(a) == x.len() ==> dd.len() == x.len() && add_pre(ii) == apply_del_atoms(
                x,
                dd,
            ).unwrap().len()
            &&& b.len() == e.len() ==> add_pre(ii) == apply_del_atoms(x, dd).unwrap().len()
        }),
{
    let p = add_pre(a) as int;
    let xe = x.take(p);
    let t = x.skip(p);
    let ee = apply_add_atoms(xe, a).unwrap();
    let k = b.len() as int;
    assert(ad_reach(a, b) == k);
    let w = add_del_walk(a, b).unwrap();
    let (dd, ii) = compose_add_del_atoms(a, b).unwrap();
    let q = add_pre(a.take(k)) as int;
    let x1 = xe.take(q);
    let x2 = xe.skip(q);
    let y1 = apply_del_atoms(x1, w.0).unwrap();
    assert(b.take(k) =~= b);
    assert(w.3 =~= Seq::<DelAtom>::empty());
    assert(a =~= a.take(k) + w.2);
    lemma_add_pre_concat(a.take(k), w.2);
    assert(del_post(Seq::<DelAtom>::empty()) == 0);
    assert(repeat(AddAtom::Skip, 0) =~= Seq::<AddAtom>::empty());
    lemma_repeat(DelAtom::Skip, add_pre(w.2));
    assert(dd =~= w.0 + repeat(DelAtom::Skip, add_pre(w.2)));
    assert(ii =~= w.1 + w.2);
    assert(x =~= x1 + (x2 + t));
    lemma_apply_del_split(x1, x2 + t, w.0, repeat(DelAtom::Skip, add_pre(w.2)));
    lemma_del_skips(x2 + t, add_pre(w.2));
    lemma_apply_add_split(y1, x2 + t, w.1, w.2);
    lemma_apply_add_rest(x2 + t, w.2);
    assert((x2 + t).take(add_pre(w.2) as int) =~= x2);
    assert((x2 + t).skip(add_pre(w.2) as int) =~= t);
    assert(xe =~= x1 + x2);
    assert(add_pre(a.take(k)) <= xe.len());
    assert(x1.len() == q);
    assert(w.2 == a.skip(k));
    assert(a.take(k) + w.2 =~= a);
    lemma_apply_add_split(x1, x2, a.take(k), w.2);
    assert(apply_add_atoms(x1 + x2, a.take(k) + w.2) is Some);
    lemma_apply_add_len(x1, a.take(k));
    let big_e1 = apply_add_atoms(x1, a.take(k)).unwrap();
    let big_e2 = apply_add_atoms(x2, w.2).unwrap();
    assert(ee =~= big_e1 + big_e2);
    assert(ee.take(k) =~= big_e1);
    assert(ee.skip(k) =~= big_e2);
    lemma_add_pre_concat(w.1, w.2);
}

/// The composition where the insertion ends within the deletion.
#[verifier::spinoff_prover]
#[verifier::rlimit(100)]
proof fn compose_add_del_long(x: Seq<DocAtom>, a: Seq<AddAtom>, b: Seq<DelAtom>)
    requires
        apply_add_atoms(x, a) is Some,
        apply_add_atoms(x.take(add_pre(a) as int), a) is Some,
        apply_del_atoms(apply_add_atoms(x, a).unwrap(), b) is Some,
        compose_add_del_atoms(a, b) is Some,
        b.len() > a.len(),
        add_pre(a) <= x.len(),
        ad_walk_does(x.take(add_pre(a) as int), a, b),
        apply_add_atoms(x, a).unwrap() == apply_add_atoms(x.take(add_pre(a) as int), a).unwrap() + x.skip(
            add_pre(a) as int,
        ),
        apply_add_atoms(x.take(add_pre(a) as int), a).unwrap().len() == a.len(),
        apply_del_atoms(apply_add_atoms(x, a).unwrap(), b) == opt_cat(
            apply_del_atoms(apply_add_atoms(x.take(add_pre(a) as int), a).unwrap(), b.take(a.len() as int)),
            apply_del_atoms(x.skip(add_pre(a) as int), b.skip(a.len() as int)),
        ),
        del_covers(x.skip(add_pre(a) as int), b.skip(a.len() as int)),
        compose_add_del_atoms(a, b) == Some(
            (
                add_del_walk(a, b).unwrap().0 + add_del_walk(a, b).unwrap().3 + repeat(
                    DelAtom::Skip,
                    add_pre(add_del_walk(a, b).unwrap().2),
                ),
                add_del_walk(a, b).unwrap().1 + repeat(AddAtom::Skip, del_post(add_del_walk(a, b).unwrap().3))
                    + add_del_walk(a, b).unwrap().2,
            ),
        ),
    ensures
        ({
            let (dd, ii) = compose_add_del_atoms(a, b).unwrap();
            let e = apply_add_atoms(x, a).unwrap();
            &&& apply_del_atoms(x, dd) is Some
            &&& apply_add_atoms(apply_del_atoms(x, dd).unwrap(), ii) == apply_del_atoms(e, b)
            &&& add_pre(a) == x.len() ==> dd.len() == x.len() && add_pre(ii) == apply_del_atoms(
                x,
                dd,
            ).unwrap().len()
            &&& b.len() == e.len() ==> add_pre(ii) == apply_del_atoms(x, dd).unwrap().len()
        }),
{
    let p = add_pre(a) as int;
    let xe = x.take(p);
    let t = x.skip(p);
    let ee = apply_add_atoms(xe, a).unwrap();
    let k = a.len() as int;
    assert(ad_reach(a, b) == k);
    let w = add_del_walk(a, b).unwrap();
    let (dd, ii) = compose_add_del_atoms(a, b).unwrap();
    let bt = b.skip(k);
    assert(w.2 =~= Seq::<AddAtom>::empty());
    assert(a.take(k) =~= a);
    assert(xe.take(p) =~= xe);
    assert(ee.take(k) =~= ee);
    let y1 = apply_del_atoms(xe, w.0).unwrap();
    assert(add_pre(Seq::<AddAtom>::empty()) == 0);
    assert(repeat(DelAtom::Skip, 0) =~= Seq::<DelAtom>::empty());
    assert(dd =~= w.0 + bt);
    assert(ii =~= w.1 + repeat(AddAtom::Skip, del_post(bt)));
    lemma_apply_del_split(xe, t, w.0, bt);
    let tr = apply_del_atoms(t, bt).unwrap();
    lemma_apply_del_len(t, bt);
    lemma_apply_del_rest(t, bt);
    lemma_del_covers_take(t, bt);
    lemma_del_post_len(t.take(bt.len() as int), bt);
    lemma_add_skips(tr, del_post(bt));
    lemma_apply_add_split(y1, tr, w.1, repeat(AddAtom::Skip, del_post(bt)));
    lemma_add_pre_concat(w.1, repeat(AddAtom::Skip, del_post(bt)));
    assert(x =~= xe + t);
    assert(apply_del_atoms(x, dd) == Some(y1 + tr));
    assert(apply_add_atoms(y1, w.1) == apply_del_atoms(ee.take(k), b.take(k)));
    assert(apply_add_atoms(y1 + tr, ii) == opt_cat(apply_add_atoms(y1, w.1), Some(tr)));
}

// ---------------------------------------------------------------------------
// Whole operations.

/// An insertion without added styles and a deletion that follows it, each
/// atom of one against the atom it meets of the other, walk side by side to
/// the end of either.
proof fn lemma_ad_walk_some(x: Seq<DocAtom>, a: Seq<AddAtom>, b: Seq<DelAtom>)
    requires
        apply_add_atoms(x, a) is Some,
        apply_del_atoms(apply_add_atoms(x, a).unwrap(), b) is Some,
        del_covers(apply_add_atoms(x, a).unwrap(), b),
        !add_styled(a),
    ensures
        add_del_walk(a, b) is Some,
    decreases a,
{
    if a.len() == 0 || b.len() == 0 {
        lemma_ad_walk_basic(a, b);
    } else {
        let e = apply_add_atoms(x, a).unwrap();
        let a0 = a[0];
        let a1 = a.drop_first();
        let b0 = b[0];
        let b1 = b.drop_first();
        assert(a =~= seq![a0] + a1);
        assert(b =~= seq![b0] + b1);
        assert(decreases_to!(a => a0));
        assert(!add_styled_one(a0) && !add_styled(a1));
        lemma_ad_walk_step(a0, b0, a1, b1);
        lemma_ad_one(a0, b0);
        lemma_apply_add_atoms(x, a);
        match a0 {
            AddAtom::Text(st, c) => {
                let r = apply_add_atoms(x, a1).unwrap();
                assert(e =~= seq![DocAtom::Char(st, c)] + r);
                assert(e.drop_first() =~= r);
                lemma_apply_del_atoms(e, b);
                lemma_apply_del_one(e[0], b0);
                assert(del_atom_covers(e[0], b0) && del_covers(e.drop_first(), b1));
                lemma_ad_walk_some(x, a1, b1);
            },
            AddAtom::Group(at, ia) => {
                let n = add_pre(ia) as int;
                let gi = apply_add_atoms(x.take(n), ia).unwrap();
                let r = apply_add_atoms(x.skip(n), a1).unwrap();
                assert(e =~= seq![DocAtom::Group(at, gi)] + r);
                assert(e[0] == DocAtom::Group(at, gi));
                assert(e.drop_first() =~= r);
                lemma_apply_del_atoms(e, b);
                lemma_apply_del_one(e[0], b0);
                assert(del_atom_covers(e[0], b0) && del_covers(e.drop_first(), b1));
                assert(decreases_to!(a0 => ia));
                match b0 {
                    DelAtom::WithGroup(ib) => {
                        lemma_ad_walk_some(x.take(n), ia, ib);
                        lemma_compose_add_del_atoms(ia, ib);
                    },
                    DelAtom::Group(ib) => {
                        lemma_ad_walk_some(x.take(n), ia, ib);
                        lemma_compose_add_del_atoms(ia, ib);
                    },
                    _ => {},
                }
                lemma_ad_walk_some(x.skip(n), a1, b1);
            },
            _ => {
                lemma_apply_add_one(x[0], a0);
                let w = apply_add_one(x[0], a0).unwrap();
                let r = apply_add_atoms(x.drop_first(), a1).unwrap();
                assert(e =~= w + r);
                assert(w.len() == 1);
                assert(e[0] == w[0]);
                assert(e.drop_first() =~= r);
                lemma_apply_del_atoms(e, b);
                lemma_apply_del_one(e[0], b0);
                assert(del_atom_covers(e[0], b0) && del_covers(e.drop_first(), b1));
                match (a0, x[0]) {
                    (AddAtom::WithGroup(ia), DocAtom::Group(at, g)) => {
                        assert(decreases_to!(a0 => ia));
                        match b0 {
                            DelAtom::WithGroup(ib) => {
                                lemma_ad_walk_some(g, ia, ib);
                                lemma_compose_add_del_atoms(ia, ib);
                            },
                            DelAtom::Group(ib) => {
                                lemma_ad_walk_some(g, ia, ib);
                                lemma_compose_add_del_atoms(ia, ib);
                            },
                            _ => {},
                        }
                    },
                    _ => {},
                }
                lemma_ad_walk_some(x.drop_first(), a1, b1);
            },
        }
    }
}

/// An insertion that adds no styles always composes with a deletion that
/// follows it and reaches all of every group it deletes.
pub proof fn compose_add_del_total(x: Seq<DocAtom>, a: Seq<AddAtom>, b: Seq<DelAtom>)
    requires
        apply_add_atoms(x, a) is Some,
        apply_del_atoms(apply_add_atoms(x, a).unwrap(), b) is Some,
        del_covers(apply_add_atoms(x, a).unwrap(), b),
        !add_styled(a),
    ensures
        compose_add_del_atoms(a, b) is Some,
{
    lemma_ad_walk_some(x, a, b);
    lemma_compose_add_del_atoms(a, b);
}

/// Composing two operations: wherever a document takes the first operation
/// and what comes of it takes the second, each deletion reaching all of each
/// group it deletes, and the first operation's insertion composes with the
/// second's deletion, the composed operation applies to the document and
/// gives the same.
pub proof fn compose_apply(
    d: Seq<DocAtom>,
    ad: Seq<DelAtom>,
    aa: Seq<AddAtom>,
    bd: Seq<DelAtom>,
    ba: Seq<AddAtom>,
)
    requires
        apply_op_atoms(d, ad, aa) is Some,
        apply_op_atoms(apply_op_atoms(d, ad, aa).unwrap(), bd, ba) is Some,
        del_covers(d, ad),
        del_covers(apply_op_atoms(d, ad, aa).unwrap(), bd),
        compose_add_del_atoms(aa, bd) is Some,
    ensures
        compose_op_atoms(ad, aa, bd, ba) is Some,
        apply_op_atoms(d, compose_op_atoms(ad, aa, bd, ba).unwrap().0, compose_op_atoms(ad, aa, bd, ba).unwrap().1)
            == apply_op_atoms(apply_op_atoms(d, ad, aa).unwrap(), bd, ba),
{
    let y = apply_del_atoms(d, ad).unwrap();
    let x1 = apply_add_atoms(y, aa).unwrap();
    compose_add_del_apply(y, aa, bd);
    let (md, mi) = compose_add_del_atoms(aa, bd).unwrap();
    let y2 = apply_del_atoms(y, md).unwrap();
    compose_del_del_apply(d, ad, md);
    compose_add_add_apply(y2, mi, ba);
}

/// Composition agrees with applying in turn on documents: a document
/// merged at every level reached by the composed operation, and one reached
/// by applying `(ad, aa)` then `(bd, ba)`, are the same document.
pub proof fn compose_apply_documents(
    d: Seq<DocAtom>,
    ad: Seq<DelAtom>,
    aa: Seq<AddAtom>,
    bd: Seq<DelAtom>,
    ba: Seq<AddAtom>,
    x: Seq<crate::doc::DocNode>,
    y: Seq<crate::doc::DocNode>,
)
    requires
        apply_op_atoms(d, ad, aa) is Some,
        apply_op_atoms(apply_op_atoms(d, ad, aa).unwrap(), bd, ba) is Some,
        del_covers(d, ad),
        del_covers(apply_op_atoms(d, ad, aa).unwrap(), bd),
        compose_add_del_atoms(aa, bd) is Some,
        crate::doc::doc_span_wf(x),
        crate::doc::doc_span_wf(y),
        crate::place::doc_deep(x),
        crate::place::doc_deep(y),
        compose_op_atoms(ad, aa, bd, ba) matches Some(c) && apply_op_atoms(d, c.0, c.1) == Some(
            crate::doc::doc_atoms(x),
        ),
        apply_op_atoms(apply_op_atoms(d, ad, aa).unwrap(), bd, ba) == Some(crate::doc::doc_atoms(y)),
    ensures
        x == y,
{
    compose_apply(d, ad, aa, bd, ba);
    crate::place::lemma_doc_canonical_deep(x, y);
}


/// Composing two deletions agrees with deleting in turn on documents: a
/// document merged at every level reached by the composed deletion, and one
/// reached by deleting `a` then `b`, are the same document.
pub proof fn compose_del_del_apply_documents(
    d: Seq<DocAtom>,
    a: Seq<DelAtom>,
    b: Seq<DelAtom>,
    x: Seq<crate::doc::DocNode>,
    y: Seq<crate::doc::DocNode>,
)
    requires
        apply_del_atoms(d, a) is Some,
        apply_del_atoms(apply_del_atoms(d, a).unwrap(), b) is Some,
        del_covers(d, a),
        crate::doc::doc_span_wf(x),
        crate::doc::doc_span_wf(y),
        crate::place::doc_deep(x),
        crate::place::doc_deep(y),
        compose_del_atoms(a, b) matches Some(c) && apply_del_atoms(d, c) == Some(crate::doc::doc_atoms(x)),
        apply_del_atoms(apply_del_atoms(d, a).unwrap(), b) == Some(crate::doc::doc_atoms(y)),
    ensures
        x == y,
{
    compose_del_del_apply(d, a, b);
    crate::place::lemma_doc_canonical_deep(x, y);
}

/// Composing two insertions agrees with inserting in turn on documents: a
/// document merged at every level reached by the composed insertion, and
/// one reached by inserting `a` then `b`, are the same document.
pub proof fn compose_add_add_apply_documents(
    d: Seq<DocAtom>,
    a: Seq<AddAtom>,
    b: Seq<AddAtom>,
    x: Seq<crate::doc::DocNode>,
    y: Seq<crate::doc::DocNode>,
)
    requires
        apply_add_atoms(d, a) is Some,
        apply_add_atoms(apply_add_atoms(d, a).unwrap(), b) is Some,
        crate::doc::doc_span_wf(x),
        crate::doc::doc_span_wf(y),
        crate::place::doc_deep(x),
        crate::place::doc_deep(y),
        compose_add_atoms(a, b) matches Some(c) && apply_add_atoms(d, c) == Some(crate::doc::doc_atoms(x)),
        apply_add_atoms(apply_add_atoms(d, a).unwrap(), b) == Some(crate::doc::doc_atoms(y)),
    ensures
        x == y,
{
    compose_add_add_apply(d, a, b);
    crate::place::lemma_doc_canonical_deep(x, y);
}

/// An insertion followed by a deletion, rewritten as a deletion followed by
/// an insertion, gives the same document: of two documents merged at every
/// level, one reached by the rewritten pair and one by inserting `a` then
/// deleting `b`, each is the other.
pub proof fn compose_add_del_apply_documents(
    d: Seq<DocAtom>,
    a: Seq<AddAtom>,
    b: Seq<DelAtom>,
    x: Seq<crate::doc::DocNode>,
    y: Seq<crate::doc::DocNode>,
)
    requires
        apply_add_atoms(d, a) is Some,
        apply_del_atoms(apply_add_atoms(d, a).unwrap(), b) is Some,
        del_covers(apply_add_atoms(d, a).unwrap(), b),
        crate::doc::doc_span_wf(x),
        crate::doc::doc_span_wf(y),
        crate::place::doc_deep(x),
        crate::place::doc_deep(y),
        compose_add_del_atoms(a, b) matches Some(c) && apply_del_atoms(d, c.0) matches Some(e)
            && apply_add_atoms(e, c.1) == Some(crate::doc::doc_atoms(x)),
        apply_del_atoms(apply_add_atoms(d, a).unwrap(), b) == Some(crate::doc::doc_atoms(y)),
    ensures
        x == y,
{
    compose_add_del_apply(d, a, b);
    crate::place::lemma_doc_canonical_deep(x, y);
}

} // verus!
