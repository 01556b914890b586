//! What transforming an insertion against a deletion means: the insertion
//! then the deletion that follows it does what the deletion then the
//! insertion that follows it does.
use crate::apply::{
    apply_add_atoms, apply_add_one, apply_del_atoms, apply_del_one, lemma_apply_add_atoms, lemma_apply_add_group, lemma_apply_add_one, lemma_apply_add_split,
    lemma_apply_add_step, lemma_apply_del_atoms, lemma_apply_del_one, lemma_apply_del_split,
    };
use crate::compose::compose_del_atoms;
use crate::doc::{
    add_pre, del_post, lemma_add_pre_concat, lemma_repeat, repeat, AddAtom, DelAtom,
    DocAtom,
};
use crate::laws::{
    compose_del_del_apply, del_atom_covers, del_covers, lemma_add_pre_cons, lemma_add_skips,
    lemma_apply_add_len, lemma_apply_add_rest, lemma_apply_del_len, lemma_apply_del_rest,
    lemma_del_covers_split, lemma_del_post_len, lemma_del_single, lemma_del_skips,
};
use crate::convergence::lemma_unadd_apply;
use crate::laws::lemma_del_covers_take;
use crate::transform_add::{
    add_del_transform_walk, add_styled, lemma_ta_atoms, lemma_ta_walk_end, lemma_ta_walk_step,
    ta_prepend, transform_add_del_atoms, unadd_atoms,
};
use vstd::prelude::*;

verus! {

// ---------------------------------------------------------------------------
// One step of the walk.

/// What an atom of the insertion that walks over one document atom writes
/// against one atom of the deletion, where the walk moves on with both.
spec fn ta_one(x: AddAtom, y: DelAtom) -> Option<(Seq<DelAtom>, Seq<AddAtom>)> {
    match (x, y) {
        (AddAtom::Skip, DelAtom::Text) => Some((seq![DelAtom::Text], Seq::empty())),
        (AddAtom::Skip, DelAtom::Skip) => Some((seq![DelAtom::Skip], seq![AddAtom::Skip])),
        (AddAtom::Skip, DelAtom::WithGroup(sp)) => Some((seq![DelAtom::WithGroup(sp)], seq![AddAtom::Skip])),
        (AddAtom::Skip, DelAtom::Group(sp)) => Some((seq![DelAtom::Group(sp)], repeat(AddAtom::Skip, del_post(sp)))),
        (AddAtom::WithGroup(ins), DelAtom::Skip) => Some((seq![DelAtom::Skip], seq![AddAtom::WithGroup(ins)])),
        (AddAtom::WithGroup(ins), DelAtom::WithGroup(sp)) => match transform_add_del_atoms(ins, sp) {
            Some((d, i)) => Some((seq![DelAtom::WithGroup(d)], seq![AddAtom::WithGroup(i)])),
            None => None,
        },
        (AddAtom::WithGroup(ins), DelAtom::Group(sp)) => if del_post(sp) == 0 {
            if add_styled(ins) {
                None
            } else {
                match compose_del_atoms(unadd_atoms(ins), sp) {
                    Some(c) => Some((seq![DelAtom::Group(c)], Seq::empty())),
                    None => None,
                }
            }
        } else {
            match add_del_transform_walk(ins, sp) {
                Some((di, ai, rai, rbi)) => Some((
                    seq![DelAtom::Group(di + rbi + repeat(DelAtom::Skip, rai.len()))],
                    ai + repeat(AddAtom::Skip, del_post(rbi)) + rai,
                )),
                None => None,
            }
        },
        _ => None,
    }
}

/// A step of the walk where both move on.
proof fn lemma_ta_walk_one(x: AddAtom, y: DelAtom, a: Seq<AddAtom>, b: Seq<DelAtom>)
    requires
        !(x is Text) && !(x is Group),
    ensures
        add_del_transform_walk(seq![x] + a, seq![y] + b) == match ta_one(x, y) {
            Some((pd, pa)) => ta_prepend(pd, pa, add_del_transform_walk(a, b)),
            None => None,
        },
        ta_one(x, y) matches Some((pd, pa)) ==> pd.len() == 1,
{
    lemma_ta_walk_step(x, a, seq![y] + b);
    assert((seq![y] + b)[0] == y);
    assert((seq![y] + b).drop_first() =~= b);
}

/// The shape of a walk: one atom written to follow the insertion for each
/// atom of it that the walk reaches; the deletion reaches no further than
/// the insertion walks over, and all that way where it is not used up; what
/// is left of the deletion is its end.
proof fn lemma_ta_walk_shape(a: Seq<AddAtom>, b: Seq<DelAtom>)
    requires
        add_del_transform_walk(a, b) is Some,
    ensures
        ({
            let w = add_del_transform_walk(a, b).unwrap();
            &&& w.0.len() + w.2.len() == a.len()
            &&& w.3.len() <= b.len()
            &&& b.len() - w.3.len() <= add_pre(a)
            &&& w.3.len() > 0 ==> w.2.len() == 0 && b.len() - w.3.len() == add_pre(a)
            &&& w.3 == b.skip(b.len() - w.3.len())
        }),
    decreases a,
{
    if a.len() == 0 || b.len() == 0 {
        lemma_ta_walk_end(a, b);
        assert(b.skip(0) =~= b);
    } else {
        let x = a[0];
        let a1 = a.drop_first();
        assert(a =~= seq![x] + a1);
        lemma_add_pre_cons(x, a1);
        lemma_ta_walk_step(x, a1, b);
        assert(decreases_to!(a => x));
        match x {
            AddAtom::Text(_, _) => {
                lemma_ta_walk_shape(a1, b);
            },
            AddAtom::Group(at, inner) => {
                lemma_ta_walk_shape(inner, b);
                let wi = add_del_transform_walk(inner, b).unwrap();
                lemma_ta_walk_shape(a1, wi.3);
                let w1 = add_del_transform_walk(a1, wi.3).unwrap();
                assert(w1.3 =~= b.skip(b.len() - w1.3.len()));
            },
            _ => {
                let y = b[0];
                let b1 = b.drop_first();
                assert(b =~= seq![y] + b1);
                lemma_ta_walk_one(x, y, a1, b1);
                lemma_ta_walk_shape(a1, b1);
                let w1 = add_del_transform_walk(a1, b1).unwrap();
                assert(w1.3 =~= b.skip(b.len() - w1.3.len()));
            },
        }
    }
}

// ---------------------------------------------------------------------------
// What the walk does.

/// What is to follow the insertion: what the walk writes, then the rest of
/// the deletion, keeping what the rest of the insertion leaves.
pub open spec fn ta_after_add(w: (Seq<DelAtom>, Seq<AddAtom>, Seq<AddAtom>, Seq<DelAtom>)) -> Seq<DelAtom> {
    w.0 + w.3 + repeat(DelAtom::Skip, w.2.len())
}

/// What is to follow the deletion: what the walk writes, then the rest of
/// the insertion.
pub open spec fn ta_after_del(w: (Seq<DelAtom>, Seq<AddAtom>, Seq<AddAtom>, Seq<DelAtom>)) -> Seq<AddAtom> {
    w.1 + w.2
}

/// Both orders against one document atom, for a step where both move on.
#[verifier::spinoff_prover]
#[verifier::rlimit(50)]
proof fn lemma_ta_one_apply(z: DocAtom, x: AddAtom, y: DelAtom)
    requires
        apply_add_one(z, x) is Some,
        apply_del_one(z, y) is Some,
        del_atom_covers(z, y),
        !(x is Text) && !(x is Group),
        ta_one(x, y) is Some,
    ensures
        ({
            let ex = apply_add_one(z, x).unwrap();
            let ey = apply_del_one(z, y).unwrap();
            let p = ta_one(x, y).unwrap();
            &&& apply_del_atoms(ex, p.0) is Some
            &&& apply_del_atoms(ex, p.0) == apply_add_atoms(ey, p.1)
            &&& p.0.len() == ex.len()
            &&& add_pre(p.1) == ey.len()
        }),
    decreases x, 0nat,
{
    lemma_apply_add_one(z, x);
    lemma_apply_del_one(z, y);
    let ex = apply_add_one(z, x).unwrap();
    let ey = apply_del_one(z, y).unwrap();
    lemma_apply_add_atoms(Seq::<DocAtom>::empty(), Seq::<AddAtom>::empty());
    lemma_apply_del_atoms(Seq::<DocAtom>::empty(), Seq::<DelAtom>::empty());
    assert(add_pre(Seq::<AddAtom>::empty()) == 0);
    assert(repeat(AddAtom::Skip, 1) =~= seq![AddAtom::Skip]) by {
        lemma_repeat(AddAtom::Skip, 1);
    }
    match (x, y) {
        (AddAtom::Skip, DelAtom::Text) => {
            lemma_del_single(ex[0], DelAtom::Text);
            lemma_apply_del_one(ex[0], DelAtom::Text);
            assert(ex == seq![ex[0]]);
        },
        (AddAtom::Skip, DelAtom::Skip) => {
            lemma_del_single(ex[0], DelAtom::Skip);
            lemma_apply_del_one(ex[0], DelAtom::Skip);
            assert(ex == seq![ex[0]]);
            lemma_add_skips(ey, 1);
        },
        (AddAtom::Skip, DelAtom::WithGroup(sp)) => {
            lemma_del_single(z, y);
            assert(ex == seq![z]);
            lemma_add_skips(ey, 1);
        },
        (AddAtom::Skip, DelAtom::Group(sp)) => {
            lemma_del_single(z, y);
            assert(ex == seq![z]);
            match z {
                DocAtom::Group(_, g) => {
                    lemma_apply_del_len(g, sp);
                    lemma_del_post_len(g, sp);
                    lemma_add_skips(ey, del_post(sp));
                },
                _ => {},
            }
        },
        (AddAtom::WithGroup(ins), DelAtom::Skip) => {
            lemma_del_single(ex[0], DelAtom::Skip);
            lemma_apply_del_one(ex[0], DelAtom::Skip);
            assert(ex == seq![ex[0]]);
            assert(ey == seq![z]);
            lemma_apply_add_step(z, x, Seq::<DocAtom>::empty(), Seq::<AddAtom>::empty());
            assert(seq![z] + Seq::<DocAtom>::empty() =~= seq![z]);
            assert(seq![x] + Seq::<AddAtom>::empty() =~= seq![x]);
            lemma_add_pre_cons(x, Seq::<AddAtom>::empty());
        },
        (AddAtom::WithGroup(ins), DelAtom::WithGroup(sp)) => {
            match z {
                DocAtom::Group(at, g) => {
                    lemma_ta_atoms(ins, sp);
                    lemma_ta_apply(g, ins, sp);
                    let t = transform_add_del_atoms(ins, sp).unwrap();
                    let gi = apply_add_atoms(g, ins).unwrap();
                    let gs = apply_del_atoms(g, sp).unwrap();
                    lemma_del_single(DocAtom::Group(at, gi), DelAtom::WithGroup(t.0));
                    lemma_apply_del_one(DocAtom::Group(at, gi), DelAtom::WithGroup(t.0));
                    let zs = DocAtom::Group(at, gs);
                    let yi = AddAtom::WithGroup(t.1);
                    lemma_apply_add_step(zs, yi, Seq::<DocAtom>::empty(), Seq::<AddAtom>::empty());
                    assert(seq![zs] + Seq::<DocAtom>::empty() =~= seq![zs]);
                    assert(seq![yi] + Seq::<AddAtom>::empty() =~= seq![yi]);
                    lemma_apply_add_one(zs, yi);
                    lemma_add_pre_cons(yi, Seq::<AddAtom>::empty());
                },
                _ => {},
            }
        },
        (AddAtom::WithGroup(ins), DelAtom::Group(sp)) => {
            match z {
                DocAtom::Group(at, g) => {
                    let gi = apply_add_atoms(g, ins).unwrap();
                    let gs = apply_del_atoms(g, sp).unwrap();
                    lemma_apply_del_len(g, sp);
                    lemma_del_post_len(g, sp);
                    if del_post(sp) == 0 {
                        lemma_unadd_apply(g, ins);
                        compose_del_del_apply(gi, unadd_atoms(ins), sp);
                        let c = compose_del_atoms(unadd_atoms(ins), sp).unwrap();
                        lemma_del_single(DocAtom::Group(at, gi), DelAtom::Group(c));
                        lemma_apply_del_one(DocAtom::Group(at, gi), DelAtom::Group(c));
                        assert(gs =~= Seq::<DocAtom>::empty());
                    } else {
                        lemma_ta_group_emptied(at, g, ins, sp);
                    }
                },
                _ => {},
            }
        },
        _ => {},
    }
}

/// A group that the insertion walks into and the deletion deletes, where
/// the deletion leaves something of it.
#[verifier::spinoff_prover]
#[verifier::rlimit(50)]
proof fn lemma_ta_group_emptied(at: crate::rtf::Attrs, g: Seq<DocAtom>, ins: Seq<AddAtom>, sp: Seq<DelAtom>)
    requires
        apply_add_atoms(g, ins) is Some,
        apply_del_atoms(g, sp) is Some,
        sp.len() == g.len(),
        del_covers(g, sp),
        del_post(sp) > 0,
        add_del_transform_walk(ins, sp) is Some,
    ensures
        ({
            let wi = add_del_transform_walk(ins, sp).unwrap();
            let gi = apply_add_atoms(g, ins).unwrap();
            let gs = apply_del_atoms(g, sp).unwrap();
            let pd = seq![DelAtom::Group(wi.0 + wi.3 + repeat(DelAtom::Skip, wi.2.len()))];
            let pa = wi.1 + repeat(AddAtom::Skip, del_post(wi.3)) + wi.2;
            &&& apply_del_atoms(seq![DocAtom::Group(at, gi)], pd) is Some
            &&& apply_del_atoms(seq![DocAtom::Group(at, gi)], pd) == apply_add_atoms(gs, pa)
            &&& add_pre(pa) == gs.len()
        }),
    decreases ins, 3nat,
{
    let wi = add_del_transform_walk(ins, sp).unwrap();
    let gi = apply_add_atoms(g, ins).unwrap();
    let gs = apply_del_atoms(g, sp).unwrap();
    let dfin = wi.0 + wi.3 + repeat(DelAtom::Skip, wi.2.len());
    let pa = wi.1 + repeat(AddAtom::Skip, del_post(wi.3)) + wi.2;
    lemma_ta_walk_shape(ins, sp);
    lemma_ta_apply(g, ins, sp);
    lemma_apply_add_len(g, ins);
    lemma_del_post_len(g, sp);
    lemma_del_single(DocAtom::Group(at, gi), DelAtom::Group(dfin));
    lemma_apply_del_one(DocAtom::Group(at, gi), DelAtom::Group(dfin));
    assert(ta_after_add(wi) == dfin);
    if wi.3.len() == 0 {
        assert(wi.3 =~= Seq::<DelAtom>::empty());
        assert(del_post(Seq::<DelAtom>::empty()) == 0);
        assert(repeat(AddAtom::Skip, 0) =~= Seq::<AddAtom>::empty());
        assert(pa =~= wi.1 + wi.2);
    } else {
        let k = add_pre(ins) as int;
        assert(wi.2.len() == 0);
        assert(pa =~= wi.1 + repeat(AddAtom::Skip, del_post(wi.3)));
        assert(wi.1 + wi.2 =~= wi.1 + Seq::<AddAtom>::empty());
        assert(g =~= g.take(k) + g.skip(k));
        assert(sp =~= sp.take(k) + wi.3);
        lemma_apply_del_split(g.take(k), g.skip(k), sp.take(k), wi.3);
        lemma_del_covers_split(g.take(k), g.skip(k), sp.take(k), wi.3);
        let p1 = apply_del_atoms(g.take(k), sp.take(k)).unwrap();
        let p2 = apply_del_atoms(g.skip(k), wi.3).unwrap();
        lemma_del_post_len(g.skip(k), wi.3);
        lemma_add_skips(p2, del_post(wi.3));
        lemma_add_pre_concat(wi.1, repeat(AddAtom::Skip, del_post(wi.3)));
        lemma_apply_add_split(p1, p2, wi.1, repeat(AddAtom::Skip, del_post(wi.3)));
        lemma_apply_add_split(p1, p2, wi.1, Seq::<AddAtom>::empty());
        lemma_apply_add_atoms(p2, Seq::<AddAtom>::empty());
    }
}

/// The walk against a document: the insertion then what is to follow it
/// does what the deletion then what is to follow it does; what is to follow
/// the deletion walks over all it leaves where the insertion walks over all
/// of the document; and where the deletion is not used up, what the walk
/// writes to follow it walks over what the deletion makes of as much of the
/// document as the insertion walks over.
#[verifier::spinoff_prover]
#[verifier::rlimit(60)]
proof fn lemma_ta_apply(x: Seq<DocAtom>, a: Seq<AddAtom>, b: Seq<DelAtom>)
    requires
        apply_add_atoms(x, a) is Some,
        apply_del_atoms(x, b) is Some,
        del_covers(x, b),
        add_del_transform_walk(a, b) is Some,
    ensures
        ({
            let w = add_del_transform_walk(a, b).unwrap();
            let e = apply_add_atoms(x, a).unwrap();
            let f = apply_del_atoms(x, b).unwrap();
            &&& apply_del_atoms(e, ta_after_add(w)) is Some
            &&& apply_del_atoms(e, ta_after_add(w)) == apply_add_atoms(f, ta_after_del(w))
            &&& add_pre(a) == x.len() ==> add_pre(ta_after_del(w)) == f.len()
            &&& w.3.len() > 0 ==> apply_del_atoms(x.take(add_pre(a) as int), b.take(add_pre(a) as int)) is Some
                && add_pre(w.1) == apply_del_atoms(x.take(add_pre(a) as int), b.take(add_pre(a) as int)).unwrap().len()
        }),
    decreases a, 2nat,
{
    let w = add_del_transform_walk(a, b).unwrap();
    let e = apply_add_atoms(x, a).unwrap();
    let f = apply_del_atoms(x, b).unwrap();
    lemma_ta_walk_shape(a, b);
    lemma_apply_add_len(x, a);
    lemma_apply_del_len(x, b);
    if a.len() == 0 || b.len() == 0 {
        lemma_ta_walk_end(a, b);
        assert(x.take(0) =~= Seq::<DocAtom>::empty());
        assert(b.take(0) =~= Seq::<DelAtom>::empty());
        lemma_apply_del_atoms(Seq::<DocAtom>::empty(), Seq::<DelAtom>::empty());
        assert(add_pre(Seq::<AddAtom>::empty()) == 0);
        if a.len() == 0 {
            lemma_apply_add_atoms(x, a);
            lemma_apply_add_atoms(f, Seq::<AddAtom>::empty());
            assert(ta_after_add(w) =~= b);
            assert(ta_after_del(w) =~= Seq::<AddAtom>::empty());
        } else {
            lemma_apply_del_atoms(x, b);
            lemma_del_skips(e, a.len());
            assert(ta_after_add(w) =~= repeat(DelAtom::Skip, a.len()));
            assert(ta_after_del(w) =~= a);
        }
    } else {
        let xa = a[0];
        let a1 = a.drop_first();
        assert(a =~= seq![xa] + a1);
        lemma_add_pre_cons(xa, a1);
        assert(decreases_to!(a => xa));
        match xa {
            AddAtom::Text(st, c) => {
                lemma_ta_walk_step(xa, a1, b);
                lemma_apply_add_atoms(x, a);
                lemma_ta_apply(x, a1, b);
                let w1 = add_del_transform_walk(a1, b).unwrap();
                let e1 = apply_add_atoms(x, a1).unwrap();
                let ch = DocAtom::Char(st, c);
                assert(e =~= seq![ch] + e1);
                assert(ta_after_add(w) =~= seq![DelAtom::Skip] + ta_after_add(w1));
                assert(ta_after_del(w) =~= seq![xa] + ta_after_del(w1));
                lemma_apply_del_split(seq![ch], e1, seq![DelAtom::Skip], ta_after_add(w1));
                lemma_del_single(ch, DelAtom::Skip);
                lemma_apply_del_one(ch, DelAtom::Skip);
                let t = seq![xa] + ta_after_del(w1);
                assert(t[0] == xa);
                assert(t.drop_first() =~= ta_after_del(w1));
                lemma_apply_add_atoms(f, t);
                lemma_add_pre_cons(xa, ta_after_del(w1));
                lemma_add_pre_cons(xa, w1.1);
                assert(w.1 =~= seq![xa] + w1.1);
            },
            AddAtom::Group(at, inner) => {
                lemma_ta_walk_step(xa, a1, b);
                lemma_ta_walk_shape(inner, b);
                if add_del_transform_walk(inner, b).unwrap().3.len() > 0 {
                    lemma_ta_group_through(x, a, b);
                } else {
                    lemma_ta_group_cut(x, a, b);
                }
            },
            _ => {
                let z = x[0];
                let x1 = x.drop_first();
                let y = b[0];
                let b1 = b.drop_first();
                assert(x =~= seq![z] + x1);
                assert(b =~= seq![y] + b1);
                lemma_ta_walk_one(xa, y, a1, b1);
                lemma_apply_add_step(z, xa, x1, a1);
                lemma_apply_del_atoms(x, b);
                let p = ta_one(xa, y).unwrap();
                let ex = apply_add_one(z, xa).unwrap();
                let ey = apply_del_one(z, y).unwrap();
                assert(del_covers(x, b) == (del_atom_covers(z, y) && del_covers(x1, b1)));
                lemma_ta_one_apply(z, xa, y);
                lemma_ta_apply(x1, a1, b1);
                let w1 = add_del_transform_walk(a1, b1).unwrap();
                let e1 = apply_add_atoms(x1, a1).unwrap();
                let f1 = apply_del_atoms(x1, b1).unwrap();
                assert(ta_after_add(w) =~= p.0 + ta_after_add(w1));
                assert(ta_after_del(w) =~= p.1 + ta_after_del(w1));
                lemma_apply_del_split(ex, e1, p.0, ta_after_add(w1));
                lemma_apply_add_split(ey, f1, p.1, ta_after_del(w1));
                lemma_add_pre_concat(p.1, ta_after_del(w1));
                lemma_add_pre_concat(p.1, w1.1);
                if w.3.len() > 0 {
                    let k1 = add_pre(a1) as int;
                    let k = add_pre(a) as int;
                    assert(x.take(k) =~= seq![z] + x1.take(k1));
                    assert(b.take(k) =~= seq![y] + b1.take(k1));
                    lemma_apply_del_split(seq![z], x1.take(k1), seq![y], b1.take(k1));
                    lemma_del_single(z, y);
                }
            },
        }
    }
}

/// The walk against a document, from a group that the insertion inserts,
/// where the deletion goes on past it.
#[verifier::spinoff_prover]
#[verifier::rlimit(80)]
proof fn lemma_ta_group_through(x: Seq<DocAtom>, a: Seq<AddAtom>, b: Seq<DelAtom>)
    requires
        apply_add_atoms(x, a) is Some,
        apply_del_atoms(x, b) is Some,
        del_covers(x, b),
        add_del_transform_walk(a, b) is Some,
        a.len() > 0,
        b.len() > 0,
        a[0] is Group,
        add_del_transform_walk(a[0]->Group_1, b).unwrap().3.len() > 0,
    ensures
        ({
            let w = add_del_transform_walk(a, b).unwrap();
            let e = apply_add_atoms(x, a).unwrap();
            let f = apply_del_atoms(x, b).unwrap();
            &&& apply_del_atoms(e, ta_after_add(w)) is Some
            &&& apply_del_atoms(e, ta_after_add(w)) == apply_add_atoms(f, ta_after_del(w))
            &&& add_pre(a) == x.len() ==> add_pre(ta_after_del(w)) == f.len()
            &&& w.3.len() > 0 ==> apply_del_atoms(x.take(add_pre(a) as int), b.take(add_pre(a) as int)) is Some
                && add_pre(w.1) == apply_del_atoms(x.take(add_pre(a) as int), b.take(add_pre(a) as int)).unwrap().len()
        }),
    decreases a, 1nat,
{

    let w = add_del_transform_walk(a, b).unwrap();
    let e = apply_add_atoms(x, a).unwrap();
    let f = apply_del_atoms(x, b).unwrap();
    let xa = a[0];
    let a1 = a.drop_first();
    let at = xa->Group_0;
    let inner = xa->Group_1;
    assert(a =~= seq![xa] + a1);
    assert(decreases_to!(a => xa));
    lemma_add_pre_cons(xa, a1);
    let p = add_pre(inner) as int;
    lemma_ta_walk_step(xa, a1, b);
    lemma_ta_walk_shape(inner, b);
    lemma_apply_add_group(at, inner, x, a1);
    let wi = add_del_transform_walk(inner, b).unwrap();
    let w1 = add_del_transform_walk(a1, wi.3).unwrap();
    let xp = x.take(p);
    let xr = x.skip(p);
    assert(x =~= xp + xr);
    let ei = apply_add_atoms(xp, inner).unwrap();
    let y1 = apply_add_atoms(xr, a1).unwrap();
    let gz = DocAtom::Group(at, ei);
    assert(e =~= seq![gz] + y1);
    lemma_apply_add_len(xp, inner);
    lemma_apply_add_len(xr, a1);
    lemma_add_pre_cons(xa, Seq::<AddAtom>::empty());
    assert(add_pre(Seq::<AddAtom>::empty()) == 0);
    lemma_ta_walk_shape(a, b);
        assert(wi.3 =~= b.skip(p));
        lemma_apply_add_rest(x, inner);
        lemma_ta_apply(x, inner, b);
        let bp = b.take(p);
        assert(b =~= bp + wi.3);
        lemma_apply_del_split(xp, xr, bp, wi.3);
        lemma_del_covers_split(xp, xr, bp, wi.3);
        let pp = apply_del_atoms(xp, bp).unwrap();
        let q = apply_del_atoms(xr, wi.3).unwrap();
        assert(f =~= pp + q);
        assert(apply_add_atoms(x, inner).unwrap() =~= ei + xr);
        assert(ta_after_add(wi) =~= wi.0 + wi.3);
        assert(ta_after_del(wi) =~= wi.1 + Seq::<AddAtom>::empty());
        lemma_apply_del_split(ei, xr, wi.0, wi.3);
        lemma_apply_add_split(pp, q, wi.1, Seq::<AddAtom>::empty());
        lemma_apply_add_atoms(q, Seq::<AddAtom>::empty());
        crate::laws::lemma_opt_cancel(apply_del_atoms(ei, wi.0), apply_add_atoms(pp, wi.1), q);
        lemma_ta_apply(xr, a1, wi.3);
        let c01 = ta_after_add(w1);
        let c11 = ta_after_del(w1);
        assert(ta_after_add(w) =~= seq![DelAtom::WithGroup(wi.0)] + c01);
        assert(wi.1 + wi.2 =~= wi.1);
        assert(ta_after_del(w) =~= seq![AddAtom::Group(at, wi.1)] + c11);
        lemma_apply_del_split(seq![gz], y1, seq![DelAtom::WithGroup(wi.0)], c01);
        lemma_del_single(gz, DelAtom::WithGroup(wi.0));
        lemma_apply_del_one(gz, DelAtom::WithGroup(wi.0));
        lemma_apply_add_group(at, wi.1, f, c11);
        assert(f.take(pp.len() as int) =~= pp);
        assert(f.skip(pp.len() as int) =~= q);
        lemma_add_pre_cons(AddAtom::Group(at, wi.1), c11);
        lemma_add_pre_cons(AddAtom::Group(at, wi.1), w1.1);
        assert(w.1 =~= seq![AddAtom::Group(at, wi.1)] + w1.1);
        if w.3.len() > 0 {
            let k1 = add_pre(a1) as int;
            let k = add_pre(a) as int;
            assert(x.take(k) =~= xp + xr.take(k1));
            assert(b.take(k) =~= bp + wi.3.take(k1));
            lemma_apply_del_split(xp, xr.take(k1), bp, wi.3.take(k1));
        }
}

/// The walk against a document, from a group that the insertion inserts,
/// where the deletion ends within it.
#[verifier::spinoff_prover]
#[verifier::rlimit(80)]
proof fn lemma_ta_group_cut(x: Seq<DocAtom>, a: Seq<AddAtom>, b: Seq<DelAtom>)
    requires
        apply_add_atoms(x, a) is Some,
        apply_del_atoms(x, b) is Some,
        del_covers(x, b),
        add_del_transform_walk(a, b) is Some,
        a.len() > 0,
        b.len() > 0,
        a[0] is Group,
        add_del_transform_walk(a[0]->Group_1, b).unwrap().3.len() == 0,
    ensures
        ({
            let w = add_del_transform_walk(a, b).unwrap();
            let e = apply_add_atoms(x, a).unwrap();
            let f = apply_del_atoms(x, b).unwrap();
            &&& apply_del_atoms(e, ta_after_add(w)) is Some
            &&& apply_del_atoms(e, ta_after_add(w)) == apply_add_atoms(f, ta_after_del(w))
            &&& add_pre(a) == x.len() ==> add_pre(ta_after_del(w)) == f.len()
            &&& w.3.len() > 0 ==> apply_del_atoms(x.take(add_pre(a) as int), b.take(add_pre(a) as int)) is Some
                && add_pre(w.1) == apply_del_atoms(x.take(add_pre(a) as int), b.take(add_pre(a) as int)).unwrap().len()
        }),
    decreases a, 1nat,
{

    let w = add_del_transform_walk(a, b).unwrap();
    let e = apply_add_atoms(x, a).unwrap();
    let f = apply_del_atoms(x, b).unwrap();
    let xa = a[0];
    let a1 = a.drop_first();
    let at = xa->Group_0;
    let inner = xa->Group_1;
    assert(a =~= seq![xa] + a1);
    assert(decreases_to!(a => xa));
    lemma_add_pre_cons(xa, a1);
    let p = add_pre(inner) as int;
    lemma_ta_walk_step(xa, a1, b);
    lemma_ta_walk_shape(inner, b);
    lemma_apply_add_group(at, inner, x, a1);
    let wi = add_del_transform_walk(inner, b).unwrap();
    let w1 = add_del_transform_walk(a1, wi.3).unwrap();
    let xp = x.take(p);
    let xr = x.skip(p);
    assert(x =~= xp + xr);
    let ei = apply_add_atoms(xp, inner).unwrap();
    let y1 = apply_add_atoms(xr, a1).unwrap();
    let gz = DocAtom::Group(at, ei);
    assert(e =~= seq![gz] + y1);
    lemma_apply_add_len(xp, inner);
    lemma_apply_add_len(xr, a1);
    lemma_add_pre_cons(xa, Seq::<AddAtom>::empty());
    assert(add_pre(Seq::<AddAtom>::empty()) == 0);
    lemma_ta_walk_shape(a, b);
        lemma_ta_walk_end(a1, wi.3);
        assert(wi.3 =~= Seq::<DelAtom>::empty());
        let n = b.len() as int;
        lemma_apply_del_rest(x, b);
        lemma_apply_del_rest(xp, b);
        assert(xp.take(n) =~= x.take(n));
        lemma_del_covers_take(x, b);
        lemma_del_covers_take(xp, b);
        let pp = apply_del_atoms(xp, b).unwrap();
        assert(f =~= pp + xr);
        lemma_ta_apply(xp, inner, b);
        let d0 = wi.0;
        let r = wi.2.len();
        assert(ta_after_add(wi) =~= d0 + repeat(DelAtom::Skip, r));
        let m = d0.len() as int;
        assert(ei =~= ei.take(m) + ei.skip(m));
        lemma_apply_del_split(ei.take(m), ei.skip(m), d0, repeat(DelAtom::Skip, r));
        lemma_del_skips(ei.skip(m), r);
        lemma_apply_del_rest(ei, d0);
        lemma_apply_del_len(ei, d0);
        assert(ta_after_add(w) =~= seq![DelAtom::WithGroup(d0)] + repeat(DelAtom::Skip, a1.len()));
        assert(ta_after_del(w) =~= seq![AddAtom::Group(at, wi.1 + wi.2)] + a1);
        lemma_apply_del_split(seq![gz], y1, seq![DelAtom::WithGroup(d0)], repeat(DelAtom::Skip, a1.len()));
        lemma_del_single(gz, DelAtom::WithGroup(d0));
        lemma_apply_del_one(gz, DelAtom::WithGroup(d0));
        lemma_del_skips(y1, a1.len());
        lemma_apply_add_group(at, wi.1 + wi.2, f, a1);
        assert(f.take(pp.len() as int) =~= pp);
        assert(f.skip(pp.len() as int) =~= xr);
        lemma_add_pre_cons(AddAtom::Group(at, wi.1 + wi.2), a1);
}

// ---------------------------------------------------------------------------
// The law.

/// Transforming an insertion against a deletion keeps what both do: where
/// an insertion and a deletion both fit a document, and the deletion
/// reaches all of every group it deletes, the insertion followed by the
/// first part of their transform gives the same document as the deletion
/// followed by the second part.
pub proof fn transform_add_del_apply(x: Seq<DocAtom>, a: Seq<AddAtom>, b: Seq<DelAtom>)
    requires
        apply_add_atoms(x, a) is Some,
        apply_del_atoms(x, b) is Some,
        del_covers(x, b),
        transform_add_del_atoms(a, b) is Some,
    ensures
        apply_del_atoms(apply_add_atoms(x, a).unwrap(), transform_add_del_atoms(a, b).unwrap().0) is Some,
        apply_del_atoms(apply_add_atoms(x, a).unwrap(), transform_add_del_atoms(a, b).unwrap().0)
            == apply_add_atoms(apply_del_atoms(x, b).unwrap(), transform_add_del_atoms(a, b).unwrap().1),
{
    lemma_ta_atoms(a, b);
    lemma_ta_apply(x, a, b);
}


/// A concurrent insertion and deletion, each followed by the other's
/// transform, converge on documents: two documents merged at every level,
/// one reached by inserting `a` then deleting the transformed deletion, the
/// other by deleting `b` then inserting the transformed insertion, are the
/// same document.
pub proof fn transform_add_del_apply_documents(
    d: Seq<DocAtom>,
    a: Seq<AddAtom>,
    b: Seq<DelAtom>,
    x: Seq<crate::doc::DocNode>,
    y: Seq<crate::doc::DocNode>,
)
    requires
        apply_add_atoms(d, a) is Some,
        apply_del_atoms(d, b) is Some,
        del_covers(d, b),
        crate::doc::doc_span_wf(x),
        crate::doc::doc_span_wf(y),
        crate::place::doc_deep(x),
        crate::place::doc_deep(y),
        transform_add_del_atoms(a, b) matches Some(t) && apply_del_atoms(apply_add_atoms(d, a).unwrap(), t.0)
            == Some(crate::doc::doc_atoms(x)) && apply_add_atoms(apply_del_atoms(d, b).unwrap(), t.1) == Some(
            crate::doc::doc_atoms(y),
        ),
    ensures
        x == y,
{
    transform_add_del_apply(d, a, b);
    crate::place::lemma_doc_canonical_deep(x, y);
}

} // verus!
