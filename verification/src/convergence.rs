//! What transforming deletions means: two deletions of one document, each
//! followed by its transform against the other, end in one document.
use crate::apply::{
    apply_add_atoms, lemma_apply_add_atoms, lemma_apply_add_group, lemma_apply_add_one, lemma_apply_add_step,
    apply_del_atoms, apply_del_one, lemma_apply_del_atoms, lemma_apply_del_one, lemma_apply_del_split,
    };
use crate::doc::{add_pre, del_post, lemma_repeat, repeat, AddAtom, DelAtom, DocAtom};
use crate::laws::{
    del_atom_covers, del_covers, lemma_apply_del_len, lemma_apply_del_rest, lemma_del_covers_split,
    lemma_del_post_len, lemma_del_single, lemma_del_skips, lemma_apply_add_len,
};
use crate::transform_add::{add_styled, add_styled_one, unadd_atoms, unadd_one};
use crate::transform::{
    del_transform_atoms, del_transform_walk, dt_prepend, lemma_dt_atoms, lemma_dt_walk_end,
    lemma_dt_walk_step, undel_atoms, undel_one,
};
use vstd::prelude::*;

verus! {

// ---------------------------------------------------------------------------
// What a deletion leaves, kept.

/// After one deletion atom, what it leaves keeps what it made, atom for atom.
proof fn lemma_undel_apply_one(z: DocAtom, x: DelAtom)
    requires
        apply_del_one(z, x) is Some,
        del_atom_covers(z, x),
    ensures
        apply_del_atoms(apply_del_one(z, x).unwrap(), undel_one(x)) == apply_del_one(z, x),
        undel_one(x).len() == apply_del_one(z, x).unwrap().len(),
    decreases x, 0nat,
{
    lemma_apply_del_one(z, x);
    match x {
        DelAtom::Skip => {
            lemma_del_single(z, DelAtom::Skip);
            lemma_apply_del_one(z, DelAtom::Skip);
        },
        DelAtom::Styles(st) => {
            let e = apply_del_one(z, x).unwrap();
            lemma_del_single(e[0], DelAtom::Skip);
            lemma_apply_del_one(e[0], DelAtom::Skip);
            assert(e == seq![e[0]]);
        },
        DelAtom::Text => {
            lemma_apply_del_atoms(Seq::<DocAtom>::empty(), Seq::<DelAtom>::empty());
        },
        DelAtom::WithGroup(inner) => {
            match z {
                DocAtom::Group(at, g) => {
                    let r = apply_del_atoms(g, inner).unwrap();
                    lemma_undel_apply(g, inner);
                    lemma_del_single(DocAtom::Group(at, r), DelAtom::WithGroup(undel_atoms(inner)));
                    lemma_apply_del_one(DocAtom::Group(at, r), DelAtom::WithGroup(undel_atoms(inner)));
                },
                _ => {},
            }
        },
        DelAtom::Group(inner) => {
            match z {
                DocAtom::Group(at, g) => {
                    lemma_apply_del_len(g, inner);
                    lemma_undel_apply(g, inner);
                },
                _ => {},
            }
        },
    }
}

/// After a deletion, what it leaves keeps what it made; atom for atom where
/// the deletion reaches all of the document.
pub proof fn lemma_undel_apply(d: Seq<DocAtom>, x: Seq<DelAtom>)
    requires
        apply_del_atoms(d, x) is Some,
        del_covers(d, x),
    ensures
        apply_del_atoms(apply_del_atoms(d, x).unwrap(), undel_atoms(x)) == apply_del_atoms(d, x),
        undel_atoms(x).len() <= apply_del_atoms(d, x).unwrap().len(),
        x.len() == d.len() ==> undel_atoms(x).len() == apply_del_atoms(d, x).unwrap().len(),
    decreases x, 1nat,
{
    lemma_apply_del_atoms(d, x);
    if x.len() == 0 {
        lemma_apply_del_atoms(d, Seq::<DelAtom>::empty());
    } else {
        let e0 = apply_del_one(d[0], x[0]).unwrap();
        let e1 = apply_del_atoms(d.drop_first(), x.drop_first()).unwrap();
        assert(decreases_to!(x => x[0]));
        lemma_undel_apply_one(d[0], x[0]);
        lemma_undel_apply(d.drop_first(), x.drop_first());
        lemma_apply_del_split(e0, e1, undel_one(x[0]), undel_atoms(x.drop_first()));
    }
}

// ---------------------------------------------------------------------------
// One step of the walk.

/// What one atom of each deletion writes, where the walk moves on with both.
spec fn dt_one(x: DelAtom, y: DelAtom) -> Option<(Seq<DelAtom>, Seq<DelAtom>)> {
    match (x, y) {
        (DelAtom::Text, DelAtom::Text) => Some((Seq::empty(), Seq::empty())),
        (DelAtom::Text, DelAtom::Skip) => Some((Seq::empty(), seq![DelAtom::Text])),
        (DelAtom::Skip, DelAtom::Skip) => Some((seq![DelAtom::Skip], seq![DelAtom::Skip])),
        (DelAtom::Skip, DelAtom::Text) => Some((seq![DelAtom::Text], Seq::empty())),
        (DelAtom::Skip, DelAtom::Group(ib)) => Some((seq![DelAtom::Group(ib)], repeat(DelAtom::Skip, del_post(ib)))),
        (DelAtom::Skip, DelAtom::WithGroup(ib)) => Some((seq![DelAtom::WithGroup(ib)], seq![DelAtom::Skip])),
        (DelAtom::Group(ia), DelAtom::Skip) => Some((repeat(DelAtom::Skip, del_post(ia)), seq![DelAtom::Group(ia)])),
        (DelAtom::WithGroup(ia), DelAtom::Skip) => Some((seq![DelAtom::Skip], seq![DelAtom::WithGroup(ia)])),
        (DelAtom::Group(ia), DelAtom::Group(ib)) => del_transform_atoms(ia, ib),
        (DelAtom::WithGroup(ia), DelAtom::WithGroup(ib)) => match del_transform_atoms(ia, ib) {
            Some((ta, tb)) => Some((seq![DelAtom::WithGroup(ta)], seq![DelAtom::WithGroup(tb)])),
            None => None,
        },
        (DelAtom::Group(ia), DelAtom::WithGroup(ib)) => match del_transform_walk(ia, ib) {
            Some((oa, ob, ra, rb)) => if rb.len() == 0 {
                Some((oa + undel_atoms(ra), seq![DelAtom::Group(ob + ra)]))
            } else {
                None
            },
            None => None,
        },
        (DelAtom::WithGroup(ia), DelAtom::Group(ib)) => match del_transform_walk(ia, ib) {
            Some((oa, ob, ra, rb)) => if ra.len() == 0 {
                Some((seq![DelAtom::Group(oa + rb)], ob + undel_atoms(rb)))
            } else {
                None
            },
            None => None,
        },
        _ => None,
    }
}

/// A step of the walk where both move on.
proof fn lemma_dt_walk_one(x: DelAtom, y: DelAtom, a: Seq<DelAtom>, b: Seq<DelAtom>)
    requires
        !(x is Text && (y is Group || y is WithGroup)),
    ensures
        del_transform_walk(seq![x] + a, seq![y] + b) == match dt_one(x, y) {
            Some((pa, pb)) => dt_prepend(pa, pb, del_transform_walk(a, b)),
            None => None,
        },
{
    lemma_dt_walk_step(x, y, a, b);
}

/// Both deletions in turn against one atom of the document.
proof fn lemma_dt_one_apply(z: DocAtom, x: DelAtom, y: DelAtom)
    requires
        apply_del_one(z, x) is Some,
        apply_del_one(z, y) is Some,
        del_atom_covers(z, x),
        del_atom_covers(z, y),
        dt_one(x, y) is Some,
    ensures
        ({
            let ex = apply_del_one(z, x).unwrap();
            let ey = apply_del_one(z, y).unwrap();
            let p = dt_one(x, y).unwrap();
            &&& apply_del_atoms(ex, p.0) is Some
            &&& apply_del_atoms(ex, p.0) == apply_del_atoms(ey, p.1)
            &&& p.0.len() == ex.len()
            &&& p.1.len() == ey.len()
        }),
    decreases x, 0nat,
{
    lemma_apply_del_one(z, x);
    lemma_apply_del_one(z, y);
    let ex = apply_del_one(z, x).unwrap();
    let ey = apply_del_one(z, y).unwrap();
    lemma_apply_del_atoms(Seq::<DocAtom>::empty(), Seq::<DelAtom>::empty());
    match (x, y) {
        (DelAtom::Text, DelAtom::Text) => {},
        (DelAtom::Text, DelAtom::Skip) => {
            lemma_del_single(z, DelAtom::Text);
        },
        (DelAtom::Skip, DelAtom::Text) => {
            lemma_del_single(z, DelAtom::Text);
        },
        (DelAtom::Skip, DelAtom::Skip) => {
            lemma_del_single(z, DelAtom::Skip);
        },
        (DelAtom::Skip, DelAtom::Group(ib)) => {
            lemma_del_single(z, y);
            match z {
                DocAtom::Group(_, g) => {
                    lemma_apply_del_len(g, ib);
                    lemma_del_post_len(g, ib);
                    lemma_del_skips(ey, del_post(ib));
                    lemma_repeat(DelAtom::Skip, del_post(ib));
                },
                _ => {},
            }
        },
        (DelAtom::Group(ia), DelAtom::Skip) => {
            lemma_del_single(z, x);
            match z {
                DocAtom::Group(_, g) => {
                    lemma_apply_del_len(g, ia);
                    lemma_del_post_len(g, ia);
                    lemma_del_skips(ex, del_post(ia));
                    lemma_repeat(DelAtom::Skip, del_post(ia));
                },
                _ => {},
            }
        },
        (DelAtom::Skip, DelAtom::WithGroup(ib)) => {
            lemma_del_single(z, y);
            lemma_del_single(ey[0], DelAtom::Skip);
            lemma_apply_del_one(ey[0], DelAtom::Skip);
            assert(ey == seq![ey[0]]);
        },
        (DelAtom::WithGroup(ia), DelAtom::Skip) => {
            lemma_del_single(z, x);
            lemma_del_single(ex[0], DelAtom::Skip);
            lemma_apply_del_one(ex[0], DelAtom::Skip);
            assert(ex == seq![ex[0]]);
        },
        (DelAtom::Group(ia), DelAtom::Group(ib)) => {
            match z {
                DocAtom::Group(_, g) => {
                    lemma_apply_del_len(g, ia);
                    lemma_apply_del_len(g, ib);
                    lemma_dt_apply(g, ia, ib);
                },
                _ => {},
            }
        },
        (DelAtom::WithGroup(ia), DelAtom::WithGroup(ib)) => {
            match z {
                DocAtom::Group(at, g) => {
                    lemma_dt_apply(g, ia, ib);
                    let t = del_transform_atoms(ia, ib).unwrap();
                    let ra = apply_del_atoms(g, ia).unwrap();
                    let rb = apply_del_atoms(g, ib).unwrap();
                    lemma_del_single(DocAtom::Group(at, ra), DelAtom::WithGroup(t.0));
                    lemma_apply_del_one(DocAtom::Group(at, ra), DelAtom::WithGroup(t.0));
                    lemma_del_single(DocAtom::Group(at, rb), DelAtom::WithGroup(t.1));
                    lemma_apply_del_one(DocAtom::Group(at, rb), DelAtom::WithGroup(t.1));
                },
                _ => {},
            }
        },
        (DelAtom::Group(ia), DelAtom::WithGroup(ib)) => {
            match z {
                DocAtom::Group(at, g) => {
                    lemma_one_group_with(at, g, ia, ib);
                },
                _ => {},
            }
        },
        (DelAtom::WithGroup(ia), DelAtom::Group(ib)) => {
            match z {
                DocAtom::Group(at, g) => {
                    lemma_one_with_group(at, g, ia, ib);
                },
                _ => {},
            }
        },
        _ => {},
    }
}

/// A group that the first deletion deletes and the second keeps.
proof fn lemma_one_group_with(at: crate::rtf::Attrs, g: Seq<DocAtom>, ia: Seq<DelAtom>, ib: Seq<DelAtom>)
    requires
        apply_del_atoms(g, ia) is Some,
        apply_del_atoms(g, ib) is Some,
        ia.len() >= g.len(),
        del_covers(g, ia),
        del_covers(g, ib),
        del_transform_walk(ia, ib) is Some,
        del_transform_walk(ia, ib).unwrap().3.len() == 0,
    ensures
        ({
            let wi = del_transform_walk(ia, ib).unwrap();
            let ex = apply_del_atoms(g, ia).unwrap();
            let ey = seq![DocAtom::Group(at, apply_del_atoms(g, ib).unwrap())];
            let pa = wi.0 + undel_atoms(wi.2);
            let pb = seq![DelAtom::Group(wi.1 + wi.2)];
            &&& apply_del_atoms(ex, pa) is Some
            &&& apply_del_atoms(ex, pa) == apply_del_atoms(ey, pb)
            &&& pa.len() == ex.len()
            &&& pb.len() == ey.len()
        }),
    decreases ia, 1nat,
{
    let wi = del_transform_walk(ia, ib).unwrap();
    lemma_dt_walk_apply(g, ia, ib);
    lemma_apply_del_len(g, ia);
    lemma_apply_del_len(g, ib);
    let k = ib.len() as int;
    assert(ib.skip(k).len() == 0);
    let da = apply_del_atoms(g.take(k), ia.take(k)).unwrap();
    let db = apply_del_atoms(g.take(k), ib.take(k)).unwrap();
    assert(g =~= g.take(k) + g.skip(k));
    assert(ia =~= ia.take(k) + ia.skip(k));
    assert(ib.take(k) =~= ib);
    lemma_apply_del_split(g.take(k), g.skip(k), ia.take(k), ia.skip(k));
    lemma_del_covers_split(g.take(k), g.skip(k), ia.take(k), ia.skip(k));
    let e2 = apply_del_atoms(g.skip(k), wi.2).unwrap();
    lemma_undel_apply(g.skip(k), wi.2);
    lemma_apply_del_split(da, e2, wi.0, undel_atoms(wi.2));
    lemma_apply_del_rest(g, ib);
    let rbd = apply_del_atoms(g, ib).unwrap();
    lemma_del_single(DocAtom::Group(at, rbd), DelAtom::Group(wi.1 + wi.2));
    lemma_apply_del_one(DocAtom::Group(at, rbd), DelAtom::Group(wi.1 + wi.2));
    lemma_apply_del_split(db, g.skip(k), wi.1, wi.2);
}

/// A group that the first deletion keeps and the second deletes.
proof fn lemma_one_with_group(at: crate::rtf::Attrs, g: Seq<DocAtom>, ia: Seq<DelAtom>, ib: Seq<DelAtom>)
    requires
        apply_del_atoms(g, ia) is Some,
        apply_del_atoms(g, ib) is Some,
        ib.len() >= g.len(),
        del_covers(g, ia),
        del_covers(g, ib),
        del_transform_walk(ia, ib) is Some,
        del_transform_walk(ia, ib).unwrap().2.len() == 0,
    ensures
        ({
            let wi = del_transform_walk(ia, ib).unwrap();
            let ex = seq![DocAtom::Group(at, apply_del_atoms(g, ia).unwrap())];
            let ey = apply_del_atoms(g, ib).unwrap();
            let pa = seq![DelAtom::Group(wi.0 + wi.3)];
            let pb = wi.1 + undel_atoms(wi.3);
            &&& apply_del_atoms(ex, pa) is Some
            &&& apply_del_atoms(ex, pa) == apply_del_atoms(ey, pb)
            &&& pa.len() == ex.len()
            &&& pb.len() == ey.len()
        }),
    decreases ia, 1nat,
{
    let wi = del_transform_walk(ia, ib).unwrap();
    lemma_dt_walk_apply(g, ia, ib);
    lemma_apply_del_len(g, ia);
    lemma_apply_del_len(g, ib);
    let k = ia.len() as int;
    assert(ia.skip(k).len() == 0);
    let da = apply_del_atoms(g.take(k), ia.take(k)).unwrap();
    let db = apply_del_atoms(g.take(k), ib.take(k)).unwrap();
    assert(g =~= g.take(k) + g.skip(k));
    assert(ib =~= ib.take(k) + ib.skip(k));
    assert(ia.take(k) =~= ia);
    lemma_apply_del_split(g.take(k), g.skip(k), ib.take(k), ib.skip(k));
    lemma_del_covers_split(g.take(k), g.skip(k), ib.take(k), ib.skip(k));
    let e2 = apply_del_atoms(g.skip(k), wi.3).unwrap();
    lemma_undel_apply(g.skip(k), wi.3);
    lemma_apply_del_split(db, e2, wi.1, undel_atoms(wi.3));
    lemma_apply_del_rest(g, ia);
    let rad = apply_del_atoms(g, ia).unwrap();
    lemma_del_single(DocAtom::Group(at, rad), DelAtom::Group(wi.0 + wi.3));
    lemma_apply_del_one(DocAtom::Group(at, rad), DelAtom::Group(wi.0 + wi.3));
    lemma_apply_del_split(da, g.skip(k), wi.0, wi.3);
}

/// The walk against a document that both deletions fit: as far as it goes,
/// what it writes after each deletion makes one document of both.
proof fn lemma_dt_walk_apply(d: Seq<DocAtom>, a: Seq<DelAtom>, b: Seq<DelAtom>)
    requires
        apply_del_atoms(d, a) is Some,
        apply_del_atoms(d, b) is Some,
        del_covers(d, a),
        del_covers(d, b),
        del_transform_walk(a, b) is Some,
    ensures
        ({
            let w = del_transform_walk(a, b).unwrap();
            let k = if a.len() < b.len() { a.len() as int } else { b.len() as int };
            &&& k <= d.len()
            &&& w.2 == a.skip(k)
            &&& w.3 == b.skip(k)
            &&& apply_del_atoms(d.take(k), a.take(k)) is Some
            &&& apply_del_atoms(d.take(k), b.take(k)) is Some
            &&& apply_del_atoms(apply_del_atoms(d.take(k), a.take(k)).unwrap(), w.0) is Some
            &&& apply_del_atoms(apply_del_atoms(d.take(k), a.take(k)).unwrap(), w.0)
                == apply_del_atoms(apply_del_atoms(d.take(k), b.take(k)).unwrap(), w.1)
            &&& w.0.len() == apply_del_atoms(d.take(k), a.take(k)).unwrap().len()
            &&& w.1.len() == apply_del_atoms(d.take(k), b.take(k)).unwrap().len()
        }),
    decreases a, 0nat,
{
    lemma_apply_del_len(d, a);
    lemma_apply_del_len(d, b);
    if a.len() == 0 || b.len() == 0 {
        lemma_dt_walk_end(a, b);
        assert(d.take(0) =~= Seq::<DocAtom>::empty());
        assert(a.take(0) =~= Seq::<DelAtom>::empty());
        assert(b.take(0) =~= Seq::<DelAtom>::empty());
        assert(a.skip(0) =~= a);
        assert(b.skip(0) =~= b);
        lemma_apply_del_atoms(Seq::<DocAtom>::empty(), Seq::<DelAtom>::empty());
    } else {
        let z = d[0];
        let x = a[0];
        let y = b[0];
        let d1 = d.drop_first();
        let a1 = a.drop_first();
        let b1 = b.drop_first();
        lemma_apply_del_atoms(d, a);
        lemma_apply_del_atoms(d, b);
        lemma_apply_del_one(z, x);
        lemma_apply_del_one(z, y);
        assert(a =~= seq![x] + a1);
        assert(b =~= seq![y] + b1);
        lemma_dt_walk_one(x, y, a1, b1);
        assert(decreases_to!(a => x));
        lemma_dt_one_apply(z, x, y);
        lemma_dt_walk_apply(d1, a1, b1);
        let p = dt_one(x, y).unwrap();
        let w1 = del_transform_walk(a1, b1).unwrap();
        let k1 = if a1.len() < b1.len() { a1.len() as int } else { b1.len() as int };
        let k = k1 + 1;
        assert(d.take(k) =~= seq![z] + d1.take(k1));
        assert(a.take(k) =~= seq![x] + a1.take(k1));
        assert(b.take(k) =~= seq![y] + b1.take(k1));
        assert(a.skip(k) =~= a1.skip(k1));
        assert(b.skip(k) =~= b1.skip(k1));
        lemma_apply_del_split(seq![z], d1.take(k1), seq![x], a1.take(k1));
        lemma_apply_del_split(seq![z], d1.take(k1), seq![y], b1.take(k1));
        lemma_del_single(z, x);
        lemma_del_single(z, y);
        let ex = apply_del_one(z, x).unwrap();
        let ey = apply_del_one(z, y).unwrap();
        let da1 = apply_del_atoms(d1.take(k1), a1.take(k1)).unwrap();
        let db1 = apply_del_atoms(d1.take(k1), b1.take(k1)).unwrap();
        lemma_apply_del_split(ex, da1, p.0, w1.0);
        lemma_apply_del_split(ey, db1, p.1, w1.1);
    }
}

/// Two deletions of one document, each followed by its transform against
/// the other, make one document; each transform reaches all of what its
/// deletion made where both deletions reach all of the document.
proof fn lemma_dt_apply(d: Seq<DocAtom>, a: Seq<DelAtom>, b: Seq<DelAtom>)
    requires
        apply_del_atoms(d, a) is Some,
        apply_del_atoms(d, b) is Some,
        del_covers(d, a),
        del_covers(d, b),
        del_transform_atoms(a, b) is Some,
    ensures
        ({
            let t = del_transform_atoms(a, b).unwrap();
            &&& apply_del_atoms(apply_del_atoms(d, a).unwrap(), t.0) is Some
            &&& apply_del_atoms(apply_del_atoms(d, a).unwrap(), t.0) == apply_del_atoms(
                apply_del_atoms(d, b).unwrap(),
                t.1,
            )
            &&& (a.len() == d.len() && b.len() == d.len()) ==> t.0.len() == apply_del_atoms(d, a).unwrap().len()
                && t.1.len() == apply_del_atoms(d, b).unwrap().len()
        }),
    decreases a, 1nat,
{
    lemma_dt_atoms(a, b);
    lemma_dt_walk_apply(d, a, b);
    lemma_apply_del_len(d, a);
    lemma_apply_del_len(d, b);
    let w = del_transform_walk(a, b).unwrap();
    if a.len() <= b.len() {
        let k = a.len() as int;
        assert(w.2.len() == 0);
        assert(a.take(k) =~= a);
        lemma_apply_del_rest(d, a);
        let da = apply_del_atoms(d.take(k), a).unwrap();
        lemma_apply_del_split(da, d.skip(k), w.0, w.3);
        assert(d =~= d.take(k) + d.skip(k));
        assert(b =~= b.take(k) + w.3);
        lemma_apply_del_split(d.take(k), d.skip(k), b.take(k), w.3);
        let db = apply_del_atoms(d.take(k), b.take(k)).unwrap();
        let e3 = apply_del_atoms(d.skip(k), w.3).unwrap();
        assert(w.1 + w.2 =~= w.1 + Seq::<DelAtom>::empty());
        lemma_apply_del_split(db, e3, w.1, Seq::<DelAtom>::empty());
        lemma_apply_del_atoms(e3, Seq::<DelAtom>::empty());
        lemma_apply_del_atoms(d.skip(k), Seq::<DelAtom>::empty());
        if a.len() == d.len() && b.len() == d.len() {
            assert(d.skip(k).len() == 0);
            assert(w.3.len() == 0);
        }
    } else {
        let k = b.len() as int;
        assert(w.3.len() == 0);
        assert(b.take(k) =~= b);
        lemma_apply_del_rest(d, b);
        let db = apply_del_atoms(d.take(k), b).unwrap();
        lemma_apply_del_split(db, d.skip(k), w.1, w.2);
        assert(d =~= d.take(k) + d.skip(k));
        assert(a =~= a.take(k) + w.2);
        lemma_apply_del_split(d.take(k), d.skip(k), a.take(k), w.2);
        let da = apply_del_atoms(d.take(k), a.take(k)).unwrap();
        let e3 = apply_del_atoms(d.skip(k), w.2).unwrap();
        assert(w.0 + w.3 =~= w.0 + Seq::<DelAtom>::empty());
        lemma_apply_del_split(da, e3, w.0, Seq::<DelAtom>::empty());
        lemma_apply_del_atoms(e3, Seq::<DelAtom>::empty());
        lemma_apply_del_atoms(d.skip(k), Seq::<DelAtom>::empty());
    }
}

// ---------------------------------------------------------------------------
// The law.

/// Transformed deletions converge: where two deletions both fit a document
/// and each reaches all of every group it deletes, applying the first and
/// then the first part of their transform gives the same document as
/// applying the second and then the second part.
pub proof fn transform_deletions_apply(d: Seq<DocAtom>, a: Seq<DelAtom>, b: Seq<DelAtom>)
    requires
        apply_del_atoms(d, a) is Some,
        apply_del_atoms(d, b) is Some,
        del_covers(d, a),
        del_covers(d, b),
        del_transform_atoms(a, b) is Some,
    ensures
        apply_del_atoms(apply_del_atoms(d, a).unwrap(), del_transform_atoms(a, b).unwrap().0) is Some,
        apply_del_atoms(apply_del_atoms(d, a).unwrap(), del_transform_atoms(a, b).unwrap().0)
            == apply_del_atoms(apply_del_atoms(d, b).unwrap(), del_transform_atoms(a, b).unwrap().1),
{
    lemma_dt_apply(d, a, b);
}

/// A deletion atom that takes styles away, here or inside a group.
pub open spec fn del_styled_one(x: DelAtom) -> bool
    decreases x,
{
    match x {
        DelAtom::Styles(_) => true,
        DelAtom::WithGroup(inner) => del_styled(inner),
        DelAtom::Group(inner) => del_styled(inner),
        _ => false,
    }
}

/// A deletion that takes styles away somewhere.
pub open spec fn del_styled(a: Seq<DelAtom>) -> bool
    decreases a,
{
    if a.len() == 0 {
        false
    } else {
        del_styled_one(a[0]) || del_styled(a.drop_first())
    }
}

/// Two deletions of one document, without styles, walk side by side to the
/// end of the shorter one.
proof fn lemma_dt_walk_some(d: Seq<DocAtom>, a: Seq<DelAtom>, b: Seq<DelAtom>)
    requires
        apply_del_atoms(d, a) is Some,
        apply_del_atoms(d, b) is Some,
        del_covers(d, a),
        del_covers(d, b),
        !del_styled(a),
        !del_styled(b),
    ensures
        del_transform_walk(a, b) is Some,
        a.len() <= b.len() ==> del_transform_walk(a, b).unwrap().2.len() == 0,
        b.len() <= a.len() ==> del_transform_walk(a, b).unwrap().3.len() == 0,
    decreases a,
{
    if a.len() == 0 || b.len() == 0 {
        lemma_dt_walk_end(a, b);
    } else {
        lemma_apply_del_atoms(d, a);
        lemma_apply_del_atoms(d, b);
        let x = a[0];
        let y = b[0];
        let a1 = a.drop_first();
        let b1 = b.drop_first();
        let d1 = d.drop_first();
        assert(a =~= seq![x] + a1);
        assert(b =~= seq![y] + b1);
        assert(decreases_to!(a => x));
        lemma_dt_walk_step(x, y, a1, b1);
        lemma_apply_del_one(d[0], x);
        lemma_apply_del_one(d[0], y);
        assert(del_atom_covers(d[0], x) && del_covers(d1, a1));
        assert(del_atom_covers(d[0], y) && del_covers(d1, b1));
        assert(!del_styled_one(x) && !del_styled(a1));
        assert(!del_styled_one(y) && !del_styled(b1));
        lemma_dt_walk_some(d1, a1, b1);
        match d[0] {
            DocAtom::Group(at, g) => {
                match (x, y) {
                    (DelAtom::Group(ia), DelAtom::Group(ib)) => {
                        assert(decreases_to!(x => ia));
                        lemma_dt_walk_some(g, ia, ib);
                        lemma_dt_atoms(ia, ib);
                    },
                    (DelAtom::WithGroup(ia), DelAtom::WithGroup(ib)) => {
                        assert(decreases_to!(x => ia));
                        lemma_dt_walk_some(g, ia, ib);
                        lemma_dt_atoms(ia, ib);
                    },
                    (DelAtom::Group(ia), DelAtom::WithGroup(ib)) => {
                        assert(decreases_to!(x => ia));
                        lemma_apply_del_len(g, ib);
                        lemma_dt_walk_some(g, ia, ib);
                    },
                    (DelAtom::WithGroup(ia), DelAtom::Group(ib)) => {
                        assert(decreases_to!(x => ia));
                        lemma_apply_del_len(g, ia);
                        lemma_dt_walk_some(g, ia, ib);
                    },
                    _ => {},
                }
            },
            _ => {},
        }
    }
}

/// Two deletions of one document that take no styles away, and each reach
/// all of every group they delete, always have a transform.
pub proof fn transform_deletions_total(d: Seq<DocAtom>, a: Seq<DelAtom>, b: Seq<DelAtom>)
    requires
        apply_del_atoms(d, a) is Some,
        apply_del_atoms(d, b) is Some,
        del_covers(d, a),
        del_covers(d, b),
        !del_styled(a),
        !del_styled(b),
    ensures
        del_transform_atoms(a, b) is Some,
{
    lemma_dt_walk_some(d, a, b);
    lemma_dt_atoms(a, b);
}

// ---------------------------------------------------------------------------
// Undoing an insertion.

/// Taking out what an insertion without added styles inserts gives back the
/// document, reaching all of every group that it takes out.
pub proof fn lemma_unadd_apply(g: Seq<DocAtom>, ins: Seq<AddAtom>)
    requires
        apply_add_atoms(g, ins) is Some,
        !add_styled(ins),
    ensures
        apply_del_atoms(apply_add_atoms(g, ins).unwrap(), unadd_atoms(ins)) == Some(g),
        del_covers(apply_add_atoms(g, ins).unwrap(), unadd_atoms(ins)),
    decreases ins,
{
    lemma_apply_add_atoms(g, ins);
    if ins.len() == 0 {
        lemma_apply_del_atoms(g, Seq::<DelAtom>::empty());
    } else {
        let y = ins[0];
        let r = ins.drop_first();
        let u = unadd_atoms(ins);
        let ur = unadd_atoms(r);
        assert(u == seq![unadd_one(y)] + ur);
        assert(u[0] == unadd_one(y));
        assert(u.drop_first() =~= ur);
        assert(ins =~= seq![y] + r);
        assert(decreases_to!(ins => y));
        assert(add_styled(ins) == (add_styled_one(y) || add_styled(r)));
        match y {
            AddAtom::Text(st, c) => {
                lemma_unadd_apply(g, r);
                let e1 = apply_add_atoms(g, r).unwrap();
                let e = seq![DocAtom::Char(st, c)] + e1;
                assert(e[0] == DocAtom::Char(st, c));
                assert(e.drop_first() =~= e1);
                lemma_apply_del_atoms(e, u);
                lemma_apply_del_one(DocAtom::Char(st, c), DelAtom::Text);
                assert(del_covers(e, u) == (del_atom_covers(e[0], u[0]) && del_covers(e.drop_first(), u.drop_first())));
                assert(Seq::<DocAtom>::empty() + g =~= g);
            },
            AddAtom::Skip => {
                lemma_apply_add_step(g[0], y, g.drop_first(), r);
                assert(g =~= seq![g[0]] + g.drop_first());
                lemma_apply_add_one(g[0], y);
                lemma_unadd_apply(g.drop_first(), r);
                let e1 = apply_add_atoms(g.drop_first(), r).unwrap();
                let e = seq![g[0]] + e1;
                assert(e[0] == g[0]);
                assert(e.drop_first() =~= e1);
                lemma_apply_del_atoms(e, u);
                lemma_apply_del_one(g[0], DelAtom::Skip);
                assert(del_covers(e, u) == (del_atom_covers(e[0], u[0]) && del_covers(e.drop_first(), u.drop_first())));
            },
            AddAtom::WithGroup(i) => {
                lemma_apply_add_step(g[0], y, g.drop_first(), r);
                assert(g =~= seq![g[0]] + g.drop_first());
                lemma_apply_add_one(g[0], y);
                match g[0] {
                    DocAtom::Group(at, c) => {
                        assert(add_styled_one(y) == add_styled(i));
                        lemma_unadd_apply(c, i);
                        lemma_unadd_apply(g.drop_first(), r);
                        let ci = apply_add_atoms(c, i).unwrap();
                        let e1 = apply_add_atoms(g.drop_first(), r).unwrap();
                        let z = DocAtom::Group(at, ci);
                        let e = seq![z] + e1;
                        assert(e[0] == z);
                        assert(e.drop_first() =~= e1);
                        lemma_apply_del_atoms(e, u);
                        lemma_apply_del_one(z, DelAtom::WithGroup(unadd_atoms(i)));
                        assert(del_covers(e, u) == (del_atom_covers(e[0], u[0]) && del_covers(e.drop_first(), u.drop_first())));
                        assert(del_atom_covers(z, DelAtom::WithGroup(unadd_atoms(i))) == del_covers(ci, unadd_atoms(i)));
                    },
                    _ => {},
                }
            },
            AddAtom::Group(at, i) => {
                let p = add_pre(i);
                assert(add_styled_one(y) == add_styled(i));
                lemma_apply_add_group(at, i, g, r);
                lemma_unadd_apply(g.take(p as int), i);
                lemma_unadd_apply(g.skip(p as int), r);
                lemma_apply_add_len(g.take(p as int), i);
                crate::transform_add::lemma_unadd_size(i);
                let gi = apply_add_atoms(g.take(p as int), i).unwrap();
                let e1 = apply_add_atoms(g.skip(p as int), r).unwrap();
                let z = DocAtom::Group(at, gi);
                let e = seq![z] + e1;
                assert(e[0] == z);
                assert(e.drop_first() =~= e1);
                lemma_apply_del_atoms(e, u);
                lemma_apply_del_one(z, DelAtom::Group(unadd_atoms(i)));
                assert(del_covers(e, u) == (del_atom_covers(e[0], u[0]) && del_covers(e.drop_first(), u.drop_first())));
                assert(del_atom_covers(z, DelAtom::Group(unadd_atoms(i))) == (unadd_atoms(i).len() >= gi.len() && del_covers(gi, unadd_atoms(i))));
                assert(g.take(p as int) + g.skip(p as int) =~= g);
            },
            AddAtom::Styles(_) => {},
        }
    }
}


/// Transformed deletions converge on documents: two documents merged at
/// every level, one reached by deleting `a` then its transform, the other by
/// deleting `b` then its transform, are the same document.
pub proof fn transform_deletions_apply_documents(
    d: Seq<DocAtom>,
    a: Seq<DelAtom>,
    b: Seq<DelAtom>,
    x: Seq<crate::doc::DocNode>,
    y: Seq<crate::doc::DocNode>,
)
    requires
        apply_del_atoms(d, a) is Some,
        apply_del_atoms(d, b) is Some,
        del_covers(d, a),
        del_covers(d, b),
        crate::doc::doc_span_wf(x),
        crate::doc::doc_span_wf(y),
        crate::place::doc_deep(x),
        crate::place::doc_deep(y),
        del_transform_atoms(a, b) matches Some(t) && apply_del_atoms(apply_del_atoms(d, a).unwrap(), t.0)
            == Some(crate::doc::doc_atoms(x)) && apply_del_atoms(apply_del_atoms(d, b).unwrap(), t.1) == Some(
            crate::doc::doc_atoms(y),
        ),
    ensures
        x == y,
{
    transform_deletions_apply(d, a, b);
    crate::place::lemma_doc_canonical_deep(x, y);
}

} // verus!
