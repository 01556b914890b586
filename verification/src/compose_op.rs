//! Composing an insertion with a following deletion, and whole operations.
use crate::compose::{
    compose_del_atoms, del_kind_atom, del_run_elem, del_seq_size, dst_atoms, dst_ok, dst_take, lemma_del_elem_atoms_len,
    lemma_del_seq_size_first, lemma_del_seq_size_len, lemma_del_size_repeat, lemma_dst_atoms,
    lemma_dst_next, lemma_repeat_first_del,
};
use crate::compose_add::{
    add_kind_atom, compose_add_atoms, add_run_elem, add_seq_size, add_write, ast_atoms, ast_ok, ast_take,
    lemma_add_elem_atoms_len, lemma_add_seq_size_first, lemma_add_seq_size_len,
    lemma_add_size_flat, lemma_add_size_repeat, lemma_ast_atoms, lemma_ast_next,
    lemma_ast_set_head, lemma_repeat_first_add,
};
use crate::doc::{
    add_atom_pre, add_atoms, add_elem_atoms, add_elem_wf, add_pre, add_span_view, add_span_wf,
    add_text_atoms, del_atom_post, del_atoms, del_elem_atoms, del_elem_wf, del_post, del_span_view,
    del_span_wf, lemma_add_group_wf, lemma_del_group_wf, lemma_repeat, lemma_single_atoms,
    lemma_text_atoms, repeat, AddAtom, AddElement, AddGroup, AddNode, AddSkip, AddStyles, AddText,
    AddWithGroup, DelAtom, DelElement, DelGroup, DelNode, DelSkip, DelStyles, DelText,
    DelWithGroup, DocNode, Op,
};
use crate::place::{
    add_skip_pre_len, del_skip_post_len, lemma_add_place_all_ok, lemma_del_place_all_ok,
    lemma_del_place_atoms, lemma_del_place_ok, lemma_text_atoms_concat, AddPlaceable,
    DelPlaceable,
};
use crate::rtf::StyleSet;
use crate::stepper::{AddStepper, DelStepper};
use crate::place::{add_merged, del_merged};
use crate::place::{
    add_deep, add_deep_node, del_deep, del_deep_node, lemma_add_deep_at, lemma_add_place_all_deep,
    lemma_del_deep_at, lemma_del_place_all_deep, lemma_del_place_deep,
};
use crate::compose::{dst_deep, lemma_dst_deep_head, lemma_dst_deep_new, lemma_dst_deep_next};
use crate::compose_add::{ast_deep, lemma_ast_deep_head, lemma_ast_deep_new, lemma_ast_deep_next};
use vstd::prelude::*;

verus! {

// ---------------------------------------------------------------------------
// An insertion, then a deletion.

/// One atom of an insertion against the atom of a deletion that applies to
/// what it makes: the deletion atoms and the insertion atoms that do the
/// same, the deletion first; `None` where they do not fit.
#[verifier::opaque]
pub open spec fn add_del_one(x: AddAtom, y: DelAtom) -> Option<(Seq<DelAtom>, Seq<AddAtom>)>
    decreases x, 2nat,
{
    match (x, y) {
        (AddAtom::Text(_, _), DelAtom::Text) => Some((Seq::empty(), Seq::empty())),
        (AddAtom::Skip, DelAtom::Text) => Some((seq![DelAtom::Text], Seq::empty())),
        (AddAtom::Text(st, c), DelAtom::Styles(bs)) => Some(
            (Seq::empty(), seq![AddAtom::Text(st.minus(bs), c)]),
        ),
        (AddAtom::Styles(sa), DelAtom::Styles(bs)) => Some(
            (seq![DelAtom::Styles(bs)], seq![AddAtom::Styles(sa.minus(bs))]),
        ),
        (AddAtom::Skip, DelAtom::Styles(bs)) => Some(
            (seq![DelAtom::Styles(bs)], seq![AddAtom::Skip]),
        ),
        (AddAtom::Text(_, _), DelAtom::Skip) => Some((Seq::empty(), seq![x])),
        (AddAtom::Styles(_), DelAtom::Skip) => Some((seq![DelAtom::Skip], seq![x])),
        (AddAtom::Skip, DelAtom::Skip) => Some((seq![DelAtom::Skip], seq![AddAtom::Skip])),
        (AddAtom::WithGroup(_), DelAtom::Skip) => Some((seq![DelAtom::Skip], seq![x])),
        (AddAtom::Group(_, ia), DelAtom::Skip) => Some((repeat(DelAtom::Skip, add_pre(ia)), seq![x])),
        (AddAtom::Skip, DelAtom::WithGroup(_)) => Some((seq![y], seq![AddAtom::Skip])),
        (AddAtom::Skip, DelAtom::Group(ib)) => Some((seq![y], repeat(AddAtom::Skip, del_post(ib)))),
        (AddAtom::WithGroup(ia), DelAtom::WithGroup(ib)) => match compose_add_del_atoms(ia, ib) {
            Some((d, i)) => Some((seq![DelAtom::WithGroup(d)], seq![AddAtom::WithGroup(i)])),
            None => None,
        },
        (AddAtom::Group(at, ia), DelAtom::WithGroup(ib)) => match compose_add_del_atoms(ia, ib) {
            Some((d, i)) => Some((d, seq![AddAtom::Group(at, i)])),
            None => None,
        },
        (AddAtom::WithGroup(ia), DelAtom::Group(ib)) => match compose_add_del_atoms(ia, ib) {
            Some((d, i)) => Some((seq![DelAtom::Group(d)], i)),
            None => None,
        },
        (AddAtom::Group(_, ia), DelAtom::Group(ib)) => compose_add_del_atoms(ia, ib),
        _ => None,
    }
}

/// Writes `d` and `i` before what a walk writes.
pub open spec fn ad_prefix(
    d: Seq<DelAtom>,
    i: Seq<AddAtom>,
    w: Option<(Seq<DelAtom>, Seq<AddAtom>, Seq<AddAtom>, Seq<DelAtom>)>,
) -> Option<(Seq<DelAtom>, Seq<AddAtom>, Seq<AddAtom>, Seq<DelAtom>)> {
    match w {
        Some((wd, wi, ra, rb)) => Some((d + wd, i + wi, ra, rb)),
        None => None,
    }
}

/// Walks an insertion `a` and the deletion `b` that follows it atom by
/// atom, until either ends: the deletion and the insertion written, and what
/// is left of each.
#[verifier::opaque]
pub open spec fn add_del_walk(a: Seq<AddAtom>, b: Seq<DelAtom>) -> Option<
    (Seq<DelAtom>, Seq<AddAtom>, Seq<AddAtom>, Seq<DelAtom>),
>
    decreases a, 0nat,
{
    if a.len() == 0 || b.len() == 0 {
        Some((Seq::empty(), Seq::empty(), a, b))
    } else {
        match add_del_one(a[0], b[0]) {
            Some((d, i)) => ad_prefix(d, i, add_del_walk(a.drop_first(), b.drop_first())),
            None => None,
        }
    }
}

/// The deletion and the insertion that, in that order, do what the
/// insertion `a` then the deletion `b` do.
pub open spec fn compose_add_del_atoms(a: Seq<AddAtom>, b: Seq<DelAtom>) -> Option<
    (Seq<DelAtom>, Seq<AddAtom>),
>
    decreases a, 1nat,
{
    match add_del_walk(a, b) {
        Some((d, i, ra, rb)) => Some(
            (
                d + rb + repeat(DelAtom::Skip, add_pre(ra)),
                i + repeat(AddAtom::Skip, del_post(rb)) + ra,
            ),
        ),
        None => None,
    }
}

/// A composition of an insertion and a deletion, spelled out.
#[verifier::spinoff_prover]
pub proof fn lemma_compose_add_del_atoms(a: Seq<AddAtom>, b: Seq<DelAtom>)
    ensures
        compose_add_del_atoms(a, b) == match add_del_walk(a, b) {
            Some((d, i, ra, rb)) => Some(
                (
                    d + rb + repeat(DelAtom::Skip, add_pre(ra)),
                    i + repeat(AddAtom::Skip, del_post(rb)) + ra,
                ),
            ),
            None => None,
        },
{
    match add_del_walk(a, b) {
        Some(w) => {
            assert(compose_add_del_atoms(a, b) == Some(
                (
                    w.0 + w.3 + repeat(DelAtom::Skip, add_pre(w.2)),
                    w.1 + repeat(AddAtom::Skip, del_post(w.3)) + w.2,
                ),
            ));
        },
        None => {},
    }
}

/// A walk where either side is empty.
pub proof fn lemma_ad_walk_basic(a: Seq<AddAtom>, b: Seq<DelAtom>)
    ensures
        a.len() == 0 || b.len() == 0 ==> add_del_walk(a, b) == Some(
            (Seq::<DelAtom>::empty(), Seq::<AddAtom>::empty(), a, b),
        ),
{
    reveal(add_del_walk);
}

// ---------------------------------------------------------------------------
// Lemmas on walks of an insertion and a deletion.

pub proof fn lemma_ad_walk_step(x: AddAtom, y: DelAtom, a: Seq<AddAtom>, b: Seq<DelAtom>)
    ensures
        add_del_walk(seq![x] + a, seq![y] + b) == match add_del_one(x, y) {
            Some((d, i)) => ad_prefix(d, i, add_del_walk(a, b)),
            None => None,
        },
{
    reveal(add_del_walk);
    reveal(add_del_one);
    assert((seq![x] + a)[0] == x);
    assert((seq![x] + a).drop_first() =~= a);
    assert((seq![y] + b)[0] == y);
    assert((seq![y] + b).drop_first() =~= b);
}

/// The output of one pair in a run: one atom or none on each side.
pub open spec fn run_out<A>(present: bool, s: Seq<A>, k: int) -> Seq<A> {
    if present {
        seq![s[k]]
    } else {
        Seq::empty()
    }
}

pub open spec fn run_all<A>(present: bool, s: Seq<A>) -> Seq<A> {
    if present {
        s
    } else {
        Seq::empty()
    }
}

/// Runs of atoms against each other one by one.
pub proof fn lemma_ad_walk_zip(
    xs: Seq<AddAtom>,
    ys: Seq<DelAtom>,
    ds: Seq<DelAtom>,
    is: Seq<AddAtom>,
    dn: bool,
    inn: bool,
    a: Seq<AddAtom>,
    b: Seq<DelAtom>,
)
    requires
        xs.len() == ys.len(),
        dn ==> ds.len() == xs.len(),
        inn ==> is.len() == xs.len(),
        forall|k: int|
            0 <= k < xs.len() ==> add_del_one(#[trigger] xs[k], ys[k]) == Some(
                (run_out(dn, ds, k), run_out(inn, is, k)),
            ),
    ensures
        add_del_walk(xs + a, ys + b) == ad_prefix(run_all(dn, ds), run_all(inn, is), add_del_walk(a, b)),
    decreases xs.len(),
{
    if xs.len() == 0 {
        assert(xs + a =~= a);
        assert(ys + b =~= b);
        assert(run_all(dn, ds) =~= Seq::<DelAtom>::empty());
        assert(run_all(inn, is) =~= Seq::<AddAtom>::empty());
        match add_del_walk(a, b) {
            Some((wd, wi, ra, rb)) => {
                assert(Seq::<DelAtom>::empty() + wd =~= wd);
                assert(Seq::<AddAtom>::empty() + wi =~= wi);
            },
            None => {},
        }
    } else {
        assert(add_del_one(xs[0], ys[0]) == Some((run_out(dn, ds, 0), run_out(inn, is, 0))));
        assert(xs + a =~= seq![xs[0]] + (xs.drop_first() + a));
        assert(ys + b =~= seq![ys[0]] + (ys.drop_first() + b));
        lemma_ad_walk_step(xs[0], ys[0], xs.drop_first() + a, ys.drop_first() + b);
        let ds1 = if dn { ds.drop_first() } else { ds };
        let is1 = if inn { is.drop_first() } else { is };
        assert forall|k: int| 0 <= k < xs.drop_first().len() implies add_del_one(
            #[trigger] xs.drop_first()[k],
            ys.drop_first()[k],
        ) == Some((run_out(dn, ds1, k), run_out(inn, is1, k))) by {
            assert(xs.drop_first()[k] == xs[k + 1]);
            assert(ys.drop_first()[k] == ys[k + 1]);
            assert(add_del_one(xs[k + 1], ys[k + 1]) == Some((run_out(dn, ds, k + 1), run_out(inn, is, k + 1))));
            if dn {
                assert(ds1[k] == ds[k + 1]);
            }
            if inn {
                assert(is1[k] == is[k + 1]);
            }
        }
        lemma_ad_walk_zip(xs.drop_first(), ys.drop_first(), ds1, is1, dn, inn, a, b);
        match add_del_walk(a, b) {
            Some((wd, wi, ra, rb)) => {
                assert(run_out(dn, ds, 0) + (run_all(dn, ds1) + wd) =~= run_all(dn, ds) + wd);
                assert(run_out(inn, is, 0) + (run_all(inn, is1) + wi) =~= run_all(inn, is) + wi);
            },
            None => {},
        }
    }
}

/// What pairs of atoms make.
pub proof fn lemma_ad_one(x: AddAtom, y: DelAtom)
    ensures
        add_del_one(x, y) == match (x, y) {
            (AddAtom::Text(_, _), DelAtom::Text) => Some((Seq::empty(), Seq::empty())),
            (AddAtom::Skip, DelAtom::Text) => Some((seq![DelAtom::Text], Seq::empty())),
            (AddAtom::Text(st, c), DelAtom::Styles(bs)) => Some(
                (Seq::empty(), seq![AddAtom::Text(st.minus(bs), c)]),
            ),
            (AddAtom::Styles(sa), DelAtom::Styles(bs)) => Some(
                (seq![DelAtom::Styles(bs)], seq![AddAtom::Styles(sa.minus(bs))]),
            ),
            (AddAtom::Skip, DelAtom::Styles(bs)) => Some(
                (seq![DelAtom::Styles(bs)], seq![AddAtom::Skip]),
            ),
            (AddAtom::Text(_, _), DelAtom::Skip) => Some((Seq::empty(), seq![x])),
            (AddAtom::Styles(_), DelAtom::Skip) => Some((seq![DelAtom::Skip], seq![x])),
            (AddAtom::Skip, DelAtom::Skip) => Some((seq![DelAtom::Skip], seq![AddAtom::Skip])),
            (AddAtom::WithGroup(_), DelAtom::Skip) => Some((seq![DelAtom::Skip], seq![x])),
            (AddAtom::Group(_, ia), DelAtom::Skip) => Some(
                (repeat(DelAtom::Skip, add_pre(ia)), seq![x]),
            ),
            (AddAtom::Skip, DelAtom::WithGroup(_)) => Some((seq![y], seq![AddAtom::Skip])),
            (AddAtom::Skip, DelAtom::Group(ib)) => Some(
                (seq![y], repeat(AddAtom::Skip, del_post(ib))),
            ),
            (AddAtom::WithGroup(ia), DelAtom::WithGroup(ib)) => match compose_add_del_atoms(ia, ib) {
                Some((d, i)) => Some((seq![DelAtom::WithGroup(d)], seq![AddAtom::WithGroup(i)])),
                None => None,
            },
            (AddAtom::Group(at, ia), DelAtom::WithGroup(ib)) => match compose_add_del_atoms(ia, ib) {
                Some((d, i)) => Some((d, seq![AddAtom::Group(at, i)])),
                None => None,
            },
            (AddAtom::WithGroup(ia), DelAtom::Group(ib)) => match compose_add_del_atoms(ia, ib) {
                Some((d, i)) => Some((seq![DelAtom::Group(d)], i)),
                None => None,
            },
            (AddAtom::Group(_, ia), DelAtom::Group(ib)) => compose_add_del_atoms(ia, ib),
            _ => None,
        },
{
    reveal(add_del_one);
}

/// The walk of an insertion is no longer than its size.
pub proof fn lemma_add_pre_le_size(s: Seq<AddAtom>)
    ensures
        add_pre(s) <= add_seq_size(s),
    decreases s,
{
    if s.len() > 0 {
        lemma_add_pre_le_size(s.drop_last());
        crate::compose_add::lemma_add_atom_size(s.last());
        assert(add_pre(s) == add_pre(s.drop_last()) + add_atom_pre(s.last()));
        assert(add_seq_size(s) == add_seq_size(s.drop_last()) + crate::compose_add::add_atom_size(s.last()));
        match s.last() {
            AddAtom::Group(_, inner) => {
                assert(decreases_to!(s => s.last()));
                lemma_add_pre_le_size(inner);
            },
            _ => {},
        }
    }
}

/// What a deletion leaves is no longer than its size.
pub proof fn lemma_del_post_le_size(s: Seq<DelAtom>)
    ensures
        del_post(s) <= del_seq_size(s),
    decreases s,
{
    if s.len() > 0 {
        lemma_del_post_le_size(s.drop_last());
        crate::compose::lemma_del_atom_size(s.last());
        assert(del_post(s) == del_post(s.drop_last()) + del_atom_post(s.last()));
        assert(del_seq_size(s) == del_seq_size(s.drop_last()) + crate::compose::del_atom_size(s.last()));
        match s.last() {
            DelAtom::Group(inner) => {
                assert(decreases_to!(s => s.last()));
                lemma_del_post_le_size(inner);
            },
            _ => {},
        }
    }
}

// ---------------------------------------------------------------------------
// Composing an insertion with a deletion, step by step.

spec fn ad_inv(
    dres: Seq<DelElement>,
    ares: Seq<AddElement>,
    a: AddStepper,
    b: DelStepper,
    r0d: Seq<DelAtom>,
    r0a: Seq<AddAtom>,
    w0: (Seq<DelAtom>, Seq<AddAtom>, Seq<AddAtom>, Seq<DelAtom>),
    fuel: nat,
    bound: nat,
) -> bool {
    let w = add_del_walk(ast_atoms(a), dst_atoms(b));
    &&& ast_ok(a)
    &&& dst_ok(b)
    &&& del_span_wf(del_span_view(dres))
    &&& add_span_wf(add_span_view(ares))
    &&& w is Some
    &&& del_atoms(del_span_view(dres)) + w.unwrap().0 == r0d + w0.0
    &&& add_atoms(add_span_view(ares)) + w.unwrap().1 == r0a + w0.1
    &&& w.unwrap().2 == w0.2
    &&& w.unwrap().3 == w0.3
    &&& add_seq_size(ast_atoms(a)) <= fuel
    &&& del_atoms(del_span_view(dres)).len() + add_atoms(add_span_view(ares)).len() + 2 * (
    add_seq_size(ast_atoms(a)) + del_seq_size(dst_atoms(b))) <= bound
    &&& bound <= usize::MAX
}

/// What is written and both steppers are merged at every level.
spec fn ad_deep(dres: Seq<DelElement>, ares: Seq<AddElement>, a: AddStepper, b: DelStepper) -> bool {
    &&& ast_deep(a)
    &&& dst_deep(b)
    &&& del_deep(del_span_view(dres))
    &&& add_deep(add_span_view(ares))
}

spec fn ad_progress(a0: AddStepper, b0: DelStepper, a1: AddStepper, b1: DelStepper) -> bool {
    &&& ast_atoms(a1).len() + dst_atoms(b1).len() < ast_atoms(a0).len() + dst_atoms(b0).len()
}

/// The walk goes on from `a1` and `b1`, having written `dh` and `ih`.
proof fn lemma_ad_advance(
    a0: Seq<AddAtom>,
    b0: Seq<DelAtom>,
    a1: Seq<AddAtom>,
    b1: Seq<DelAtom>,
    dh: Seq<DelAtom>,
    ih: Seq<AddAtom>,
    rd: Seq<DelAtom>,
    ra: Seq<AddAtom>,
    r0d: Seq<DelAtom>,
    r0a: Seq<AddAtom>,
    w0: (Seq<DelAtom>, Seq<AddAtom>, Seq<AddAtom>, Seq<DelAtom>),
    fuel: nat,
    bound: nat,
)
    requires
        add_del_walk(a0, b0) == ad_prefix(dh, ih, add_del_walk(a1, b1)),
        add_del_walk(a0, b0) is Some,
        rd + add_del_walk(a0, b0).unwrap().0 == r0d + w0.0,
        ra + add_del_walk(a0, b0).unwrap().1 == r0a + w0.1,
        add_del_walk(a0, b0).unwrap().2 == w0.2,
        add_del_walk(a0, b0).unwrap().3 == w0.3,
        rd.len() + ra.len() + 2 * (add_seq_size(a0) + del_seq_size(b0)) <= bound,
        add_seq_size(a0) <= fuel,
        dh.len() + ih.len() + 2 * (add_seq_size(a1) + del_seq_size(b1)) <= 2 * (add_seq_size(a0)
            + del_seq_size(b0)),
        add_seq_size(a1) <= add_seq_size(a0),
    ensures
        add_del_walk(a1, b1) is Some,
        rd + dh + add_del_walk(a1, b1).unwrap().0 == r0d + w0.0,
        ra + ih + add_del_walk(a1, b1).unwrap().1 == r0a + w0.1,
        add_del_walk(a1, b1).unwrap().2 == w0.2,
        add_del_walk(a1, b1).unwrap().3 == w0.3,
        (rd + dh).len() + (ra + ih).len() + 2 * (add_seq_size(a1) + del_seq_size(b1)) <= bound,
        add_seq_size(a1) <= fuel,
        rd.len() + dh.len() + ra.len() + ih.len() <= bound,
{
    let wn = add_del_walk(a1, b1).unwrap();
    assert(rd + (dh + wn.0) =~= rd + dh + wn.0);
    assert(ra + (ih + wn.1) =~= ra + ih + wn.1);
}

/// Writes a deletion element at the end, where its atoms fit.
pub(crate) fn del_write(res: &mut Vec<DelElement>, e: DelElement, Ghost(bound): Ghost<nat>)
    requires
        del_span_wf(del_span_view(old(res)@)),
        del_elem_wf(e@),
        del_atoms(del_span_view(old(res)@)).len() + del_elem_atoms(e@).len() <= bound,
        bound <= usize::MAX,
    ensures
        del_merged(del_span_view(old(res)@)) ==> del_merged(del_span_view(final(res)@)),
        del_span_wf(del_span_view(final(res)@)),
        del_atoms(del_span_view(final(res)@)) == del_atoms(del_span_view(old(res)@)) + del_elem_atoms(e@),
        del_deep(del_span_view(old(res)@)) && del_deep_node(e@) ==> del_deep(del_span_view(final(res)@)),
{
    proof {
        lemma_del_place_ok(del_span_view(res@), e@);
        lemma_del_place_atoms(del_span_view(res@), e@);
        lemma_del_place_deep(del_span_view(res@), e@);
    }
    res.place(&e);
}

/// The insertion atom that a counted run of an insertion against a counted
/// run of a deletion makes.
spec fn ad_counted_add(akind: u8, sa: StyleSet, bkind: u8, sb: StyleSet) -> AddAtom {
    if akind == 0 {
        AddAtom::Skip
    } else if bkind == 0 {
        AddAtom::Styles(sa)
    } else {
        AddAtom::Styles(sa.minus(sb))
    }
}

/// The walk after `n` atoms of a counted run of an insertion against a
/// counted run of a deletion.
proof fn lemma_ad_counted_step(
    akind: u8,
    sa: StyleSet,
    bkind: u8,
    sb: StyleSet,
    ac: nat,
    bc: nat,
    n: nat,
    a_rest: Seq<AddAtom>,
    b_rest: Seq<DelAtom>,
    rd: Seq<DelAtom>,
    ra: Seq<AddAtom>,
    r0d: Seq<DelAtom>,
    r0a: Seq<AddAtom>,
    w0: (Seq<DelAtom>, Seq<AddAtom>, Seq<AddAtom>, Seq<DelAtom>),
    fuel: nat,
    bound: nat,
)
    requires
        akind == 0 || akind == 2,
        bkind <= 2,
        !(akind == 2 && bkind == 1),
        1 <= n <= ac,
        n <= bc,
        ({
            let a0 = repeat(add_kind_atom(akind, sa), ac) + a_rest;
            let b0 = repeat(del_kind_atom(bkind, sb), bc) + b_rest;
            &&& add_del_walk(a0, b0) is Some
            &&& rd + add_del_walk(a0, b0).unwrap().0 == r0d + w0.0
            &&& ra + add_del_walk(a0, b0).unwrap().1 == r0a + w0.1
            &&& add_del_walk(a0, b0).unwrap().2 == w0.2
            &&& add_del_walk(a0, b0).unwrap().3 == w0.3
            &&& rd.len() + ra.len() + 2 * (add_seq_size(a0) + del_seq_size(b0)) <= bound
            &&& add_seq_size(a0) <= fuel
        }),
    ensures
        ({
            let a1 = repeat(add_kind_atom(akind, sa), (ac - n) as nat) + a_rest;
            let b1 = repeat(del_kind_atom(bkind, sb), (bc - n) as nat) + b_rest;
            let dh = repeat(del_kind_atom(bkind, sb), n);
            let ih = run_all(bkind != 1, repeat(ad_counted_add(akind, sa, bkind, sb), n));
            &&& add_del_walk(a1, b1) is Some
            &&& rd + dh + add_del_walk(a1, b1).unwrap().0 == r0d + w0.0
            &&& ra + ih + add_del_walk(a1, b1).unwrap().1 == r0a + w0.1
            &&& add_del_walk(a1, b1).unwrap().2 == w0.2
            &&& add_del_walk(a1, b1).unwrap().3 == w0.3
            &&& (rd + dh).len() + (ra + ih).len() + 2 * (add_seq_size(a1) + del_seq_size(b1)) <= bound
            &&& add_seq_size(a1) <= fuel
            &&& rd.len() + dh.len() + ra.len() + ih.len() <= bound
            &&& a1.len() + n == (repeat(add_kind_atom(akind, sa), ac) + a_rest).len()
            &&& b1.len() + n == (repeat(del_kind_atom(bkind, sb), bc) + b_rest).len()
        }),
{
    let x = add_kind_atom(akind, sa);
    let y = del_kind_atom(bkind, sb);
    let iz = ad_counted_add(akind, sa, bkind, sb);
    let inn = bkind != 1;
    lemma_repeat(x, n);
    lemma_repeat(y, n);
    lemma_repeat(iz, n);
    assert forall|k: int| 0 <= k < repeat(x, n).len() implies add_del_one(
        #[trigger] repeat(x, n)[k],
        repeat(y, n)[k],
    ) == Some((run_out(true, repeat(y, n), k), run_out(inn, repeat(iz, n), k))) by {
        lemma_ad_one(x, y);
    }
    lemma_ad_walk_zip(
        repeat(x, n),
        repeat(y, n),
        repeat(y, n),
        repeat(iz, n),
        true,
        inn,
        repeat(x, (ac - n) as nat) + a_rest,
        repeat(y, (bc - n) as nat) + b_rest,
    );
    crate::place::lemma_repeat_add(x, n, (ac - n) as nat);
    crate::place::lemma_repeat_add(y, n, (bc - n) as nat);
    assert(repeat(x, ac) + a_rest =~= repeat(x, n) + (repeat(x, (ac - n) as nat) + a_rest));
    assert(repeat(y, bc) + b_rest =~= repeat(y, n) + (repeat(y, (bc - n) as nat) + b_rest));
    lemma_add_size_repeat(x, ac, a_rest);
    lemma_add_size_repeat(x, (ac - n) as nat, a_rest);
    lemma_del_size_repeat(y, bc, b_rest);
    lemma_del_size_repeat(y, (bc - n) as nat, b_rest);
    assert(run_all(true, repeat(y, n)) == repeat(y, n));
    lemma_ad_advance(
        repeat(x, ac) + a_rest,
        repeat(y, bc) + b_rest,
        repeat(x, (ac - n) as nat) + a_rest,
        repeat(y, (bc - n) as nat) + b_rest,
        repeat(y, n),
        run_all(inn, repeat(iz, n)),
        rd,
        ra,
        r0d,
        r0a,
        w0,
        fuel,
        bound,
    );
}

/// The styles of inserted text after a deletion keeps it or takes styles
/// off it.
spec fn ad_text_styles(st: StyleSet, bkind: u8, sb: StyleSet) -> StyleSet {
    if bkind == 0 {
        st
    } else {
        st.minus(sb)
    }
}

/// The walk after `n` inserted characters against a counted run of a
/// deletion.
proof fn lemma_ad_text_step(
    st: StyleSet,
    v: Seq<char>,
    bkind: u8,
    sb: StyleSet,
    bc: nat,
    n: nat,
    a_rest: Seq<AddAtom>,
    b_rest: Seq<DelAtom>,
    rd: Seq<DelAtom>,
    ra: Seq<AddAtom>,
    r0d: Seq<DelAtom>,
    r0a: Seq<AddAtom>,
    w0: (Seq<DelAtom>, Seq<AddAtom>, Seq<AddAtom>, Seq<DelAtom>),
    fuel: nat,
    bound: nat,
)
    requires
        bkind <= 2,
        1 <= n <= v.len(),
        n <= bc,
        ({
            let a0 = add_text_atoms(st, v) + a_rest;
            let b0 = repeat(del_kind_atom(bkind, sb), bc) + b_rest;
            &&& add_del_walk(a0, b0) is Some
            &&& rd + add_del_walk(a0, b0).unwrap().0 == r0d + w0.0
            &&& ra + add_del_walk(a0, b0).unwrap().1 == r0a + w0.1
            &&& add_del_walk(a0, b0).unwrap().2 == w0.2
            &&& add_del_walk(a0, b0).unwrap().3 == w0.3
            &&& rd.len() + ra.len() + 2 * (add_seq_size(a0) + del_seq_size(b0)) <= bound
            &&& add_seq_size(a0) <= fuel
        }),
    ensures
        ({
            let a1 = add_text_atoms(st, v.skip(n as int)) + a_rest;
            let b1 = repeat(del_kind_atom(bkind, sb), (bc - n) as nat) + b_rest;
            let ih = run_all(bkind != 1, add_text_atoms(ad_text_styles(st, bkind, sb), v.take(n as int)));
            &&& add_del_walk(a1, b1) is Some
            &&& rd + Seq::<DelAtom>::empty() + add_del_walk(a1, b1).unwrap().0 == r0d + w0.0
            &&& ra + ih + add_del_walk(a1, b1).unwrap().1 == r0a + w0.1
            &&& add_del_walk(a1, b1).unwrap().2 == w0.2
            &&& add_del_walk(a1, b1).unwrap().3 == w0.3
            &&& rd.len() + (ra + ih).len() + 2 * (add_seq_size(a1) + del_seq_size(b1)) <= bound
            &&& add_seq_size(a1) <= fuel
            &&& rd.len() + ra.len() + ih.len() <= bound
            &&& a1.len() + n == (add_text_atoms(st, v) + a_rest).len()
            &&& b1.len() + n == (repeat(del_kind_atom(bkind, sb), bc) + b_rest).len()
        }),
{
    let y = del_kind_atom(bkind, sb);
    let st2 = ad_text_styles(st, bkind, sb);
    let inn = bkind != 1;
    let t1 = v.take(n as int);
    let t2 = v.skip(n as int);
    assert(t1 + t2 =~= v);
    lemma_text_atoms_concat(st, t1, t2);
    lemma_text_atoms(st, t1);
    lemma_text_atoms(st2, t1);
    lemma_text_atoms(st, t2);
    lemma_repeat(y, n);
    assert forall|k: int| 0 <= k < add_text_atoms(st, t1).len() implies add_del_one(
        #[trigger] add_text_atoms(st, t1)[k],
        repeat(y, n)[k],
    ) == Some((run_out(false, Seq::<DelAtom>::empty(), k), run_out(inn, add_text_atoms(st2, t1), k))) by {
        lemma_ad_one(add_text_atoms(st, t1)[k], y);
    }
    lemma_ad_walk_zip(
        add_text_atoms(st, t1),
        repeat(y, n),
        Seq::<DelAtom>::empty(),
        add_text_atoms(st2, t1),
        false,
        inn,
        add_text_atoms(st, t2) + a_rest,
        repeat(y, (bc - n) as nat) + b_rest,
    );
    crate::place::lemma_repeat_add(y, n, (bc - n) as nat);
    assert(add_text_atoms(st, v) + a_rest =~= add_text_atoms(st, t1) + (add_text_atoms(st, t2) + a_rest));
    assert(repeat(y, bc) + b_rest =~= repeat(y, n) + (repeat(y, (bc - n) as nat) + b_rest));
    assert forall|i: int| 0 <= i < add_text_atoms(st, t1).len() implies !(#[trigger] add_text_atoms(st, t1)[i] is WithGroup) && !(add_text_atoms(st, t1)[i] is Group) by {}
    assert forall|i: int| 0 <= i < add_text_atoms(st, t2).len() implies !(#[trigger] add_text_atoms(st, t2)[i] is WithGroup) && !(add_text_atoms(st, t2)[i] is Group) by {}
    lemma_add_size_flat(add_text_atoms(st, t1), add_text_atoms(st, t2) + a_rest);
    lemma_add_size_flat(add_text_atoms(st, t2), a_rest);
    lemma_del_size_repeat(y, bc, b_rest);
    lemma_del_size_repeat(y, (bc - n) as nat, b_rest);
    assert(run_all(false, Seq::<DelAtom>::empty()) =~= Seq::<DelAtom>::empty());
    lemma_ad_advance(
        add_text_atoms(st, v) + a_rest,
        repeat(y, bc) + b_rest,
        add_text_atoms(st, t2) + a_rest,
        repeat(y, (bc - n) as nat) + b_rest,
        Seq::<DelAtom>::empty(),
        run_all(inn, add_text_atoms(st2, t1)),
        rd,
        ra,
        r0d,
        r0a,
        w0,
        fuel,
        bound,
    );
}

/// The insertion element that counted runs of an insertion and a deletion
/// make for `n` atoms.
fn ad_counted_out(akind: u8, sa: StyleSet, bkind: u8, sb: StyleSet, n: usize) -> (res: AddElement)
    ensures
        add_elem_atoms(res@) == repeat(ad_counted_add(akind, sa, bkind, sb), n as nat),
        n > 0 ==> add_elem_wf(res@),
        add_deep_node(res@),
{
    if akind == 0 {
        AddSkip(n)
    } else if bkind == 0 {
        AddStyles(n, sa)
    } else {
        let mut st = sa;
        st.remove_set(&sb);
        AddStyles(n, st)
    }
}

/// A counted run of the insertion against a counted run of the deletion.
#[verifier::spinoff_prover]
#[verifier::rlimit(100)]
fn ad_step_counted(
    dres: &mut Vec<DelElement>,
    ares: &mut Vec<AddElement>,
    a: &mut AddStepper,
    b: &mut DelStepper,
    Ghost(r0d): Ghost<Seq<DelAtom>>,
    Ghost(r0a): Ghost<Seq<AddAtom>>,
    Ghost(w0): Ghost<(Seq<DelAtom>, Seq<AddAtom>, Seq<AddAtom>, Seq<DelAtom>)>,
    Ghost(fuel): Ghost<nat>,
    Ghost(bound): Ghost<nat>,
)
    requires
        ad_inv(old(dres)@, old(ares)@, *old(a), *old(b), r0d, r0a, w0, fuel, bound),
        old(a).head matches Some(h) && (h is AddSkip || h is AddStyles),
        old(b).head matches Some(h) && (h is DelSkip || h is DelText || h is DelStyles),
        !(old(a).head.unwrap() is AddStyles && old(b).head.unwrap() is DelText),
    ensures
        del_merged(del_span_view(old(dres)@)) ==> del_merged(del_span_view(final(dres)@)),
        add_merged(add_span_view(old(ares)@)) ==> add_merged(add_span_view(final(ares)@)),
        ad_inv(final(dres)@, final(ares)@, *final(a), *final(b), r0d, r0a, w0, fuel, bound),
        ad_deep(old(dres)@, old(ares)@, *old(a), *old(b)) ==> ad_deep(final(dres)@, final(ares)@, *final(a), *final(b)),
        ad_progress(*old(a), *old(b), *final(a), *final(b)),
{
    proof {
        lemma_ast_atoms(*a);
        lemma_dst_atoms(*b);
        lemma_ast_deep_head(*a);
        lemma_dst_deep_head(*b);
    }
    let ghost a_rest = add_atoms(a.rest_view());
    let ghost b_rest = del_atoms(b.rest_view());
    let ghost rd = del_atoms(del_span_view(dres@));
    let ghost ra = add_atoms(add_span_view(ares@));
    let ghost a0 = *a;
    let ghost b0 = *b;
    let (ac, sa, akind): (usize, StyleSet, u8) = match a.get_head() {
        AddSkip(c) => (c, StyleSet::new(), 0),
        AddStyles(c, s) => (c, s, 2),
        _ => {
            proof {
                assert(false);
            }
            return ;
        },
    };
    let (bc, sb, bkind): (usize, StyleSet, u8) = match b.get_head() {
        DelSkip(c) => (c, StyleSet::new(), 0),
        DelText(c) => (c, StyleSet::new(), 1),
        DelStyles(c, s) => (c, s, 2),
        _ => {
            proof {
                assert(false);
            }
            return ;
        },
    };
    let n = if ac < bc {
        ac
    } else {
        bc
    };
    proof {
        assert(ast_atoms(a0) == repeat(add_kind_atom(akind, sa), ac as nat) + a_rest);
        assert(dst_atoms(b0) == repeat(del_kind_atom(bkind, sb), bc as nat) + b_rest);
        lemma_ad_counted_step(akind, sa, bkind, sb, ac as nat, bc as nat, n as nat, a_rest, b_rest, rd, ra, r0d, r0a, w0, fuel, bound);
        lemma_repeat(del_kind_atom(bkind, sb), n as nat);
        lemma_repeat(ad_counted_add(akind, sa, bkind, sb), n as nat);
    }
    del_write(dres, del_run_elem(bkind, sb, n), Ghost(bound));
    if bkind != 1 {
        let out = ad_counted_out(akind, sa, bkind, sb, n);
        add_write(ares, out, Ghost(bound));
    } else {
        proof {
            assert(ra + Seq::<AddAtom>::empty() =~= ra);
        }
    }
    ast_take(a, n, ac, add_run_elem(akind, sa, ac - n), Ghost(add_kind_atom(akind, sa)));
    dst_take(b, n, bc, del_run_elem(bkind, sb, bc - n), Ghost(del_kind_atom(bkind, sb)));
}

/// Inserted text against a counted run of the deletion.
#[verifier::spinoff_prover]
fn ad_step_text(
    dres: &Vec<DelElement>,
    ares: &mut Vec<AddElement>,
    a: &mut AddStepper,
    b: &mut DelStepper,
    Ghost(r0d): Ghost<Seq<DelAtom>>,
    Ghost(r0a): Ghost<Seq<AddAtom>>,
    Ghost(w0): Ghost<(Seq<DelAtom>, Seq<AddAtom>, Seq<AddAtom>, Seq<DelAtom>)>,
    Ghost(fuel): Ghost<nat>,
    Ghost(bound): Ghost<nat>,
)
    requires
        ad_inv(dres@, old(ares)@, *old(a), *old(b), r0d, r0a, w0, fuel, bound),
        old(a).head matches Some(h) && h is AddText,
        old(b).head matches Some(h) && (h is DelSkip || h is DelText || h is DelStyles),
    ensures
        add_merged(add_span_view(old(ares)@)) ==> add_merged(add_span_view(final(ares)@)),
        ad_inv(dres@, final(ares)@, *final(a), *final(b), r0d, r0a, w0, fuel, bound),
        ad_progress(*old(a), *old(b), *final(a), *final(b)),
        ad_deep(dres@, old(ares)@, *old(a), *old(b)) ==> ad_deep(dres@, final(ares)@, *final(a), *final(b)),
{
    proof {
        lemma_ast_atoms(*a);
        lemma_dst_atoms(*b);
        lemma_ast_deep_head(*a);
        lemma_dst_deep_head(*b);
    }
    let ghost a_rest = add_atoms(a.rest_view());
    let ghost b_rest = del_atoms(b.rest_view());
    let ghost rd = del_atoms(del_span_view(dres@));
    let ghost ra = add_atoms(add_span_view(ares@));
    let ghost a0 = *a;
    let ghost b0 = *b;
    let (st, v) = match a.get_head() {
        AddText(st, v) => (st, v),
        _ => {
            proof {
                assert(false);
            }
            return ;
        },
    };
    let (bc, sb, bkind): (usize, StyleSet, u8) = match b.get_head() {
        DelSkip(c) => (c, StyleSet::new(), 0),
        DelText(c) => (c, StyleSet::new(), 1),
        DelStyles(c, s) => (c, s, 2),
        _ => {
            proof {
                assert(false);
            }
            return ;
        },
    };
    let len = v.char_len();
    let n = if bc < len {
        bc
    } else {
        len
    };
    let mut out_styles = st;
    if bkind == 2 {
        out_styles.remove_set(&sb);
    }
    proof {
        assert(ast_atoms(a0) == add_text_atoms(st, v@) + a_rest);
        assert(dst_atoms(b0) == repeat(del_kind_atom(bkind, sb), bc as nat) + b_rest);
        lemma_ad_text_step(st, v@, bkind, sb, bc as nat, n as nat, a_rest, b_rest, rd, ra, r0d, r0a, w0, fuel, bound);
        lemma_text_atoms(ad_text_styles(st, bkind, sb), v@.take(n as int));
        assert(rd + Seq::<DelAtom>::empty() =~= rd);
    }
    if n < len {
        let (left, right) = v.split_at(n);
        if bkind != 1 {
            add_write(ares, AddText(out_styles, left), Ghost(bound));
        } else {
            proof {
                assert(ra + Seq::<AddAtom>::empty() =~= ra);
            }
        }
        let ghost before = *a;
        let rem = AddText(st, right);
        a.head = Some(rem);
        proof {
            lemma_text_atoms(st, right@);
            lemma_ast_set_head(before, *a, rem);
            crate::compose_add::lemma_ast_deep_set_head(before, *a, rem);
        }
    } else {
        proof {
            assert(v@.take(n as int) =~= v@);
            assert(v@.skip(n as int) =~= Seq::<char>::empty());
            assert(add_text_atoms(st, v@.skip(n as int)) =~= Seq::<AddAtom>::empty());
            assert(Seq::<AddAtom>::empty() + a_rest =~= a_rest);
        }
        if bkind != 1 {
            add_write(ares, AddText(out_styles, v), Ghost(bound));
        } else {
            proof {
                assert(ra + Seq::<AddAtom>::empty() =~= ra);
            }
        }
        let ghost before = *a;
        a.next();
        proof {
            lemma_ast_next(before, *a);
            lemma_ast_deep_next(before, *a);
        }
    }
    dst_take(b, n, bc, del_run_elem(bkind, sb, bc - n), Ghost(del_kind_atom(bkind, sb)));
}

/// The walk after one atom of each that make `dh` and `ih`.
proof fn lemma_ad_one_step(
    x: AddAtom,
    y: DelAtom,
    dh: Seq<DelAtom>,
    ih: Seq<AddAtom>,
    a_rest: Seq<AddAtom>,
    b_rest: Seq<DelAtom>,
    rd: Seq<DelAtom>,
    ra: Seq<AddAtom>,
    r0d: Seq<DelAtom>,
    r0a: Seq<AddAtom>,
    w0: (Seq<DelAtom>, Seq<AddAtom>, Seq<AddAtom>, Seq<DelAtom>),
    fuel: nat,
    bound: nat,
)
    requires
        add_del_one(x, y) == Some((dh, ih)),
        dh.len() + ih.len() <= 2 * (crate::compose_add::add_atom_size(x) + crate::compose::del_atom_size(y)),
        add_del_walk(seq![x] + a_rest, seq![y] + b_rest) is Some,
        rd + add_del_walk(seq![x] + a_rest, seq![y] + b_rest).unwrap().0 == r0d + w0.0,
        ra + add_del_walk(seq![x] + a_rest, seq![y] + b_rest).unwrap().1 == r0a + w0.1,
        add_del_walk(seq![x] + a_rest, seq![y] + b_rest).unwrap().2 == w0.2,
        add_del_walk(seq![x] + a_rest, seq![y] + b_rest).unwrap().3 == w0.3,
        rd.len() + ra.len() + 2 * (add_seq_size(seq![x] + a_rest) + del_seq_size(seq![y] + b_rest)) <= bound,
        add_seq_size(seq![x] + a_rest) <= fuel,
    ensures
        add_del_walk(a_rest, b_rest) is Some,
        rd + dh + add_del_walk(a_rest, b_rest).unwrap().0 == r0d + w0.0,
        ra + ih + add_del_walk(a_rest, b_rest).unwrap().1 == r0a + w0.1,
        add_del_walk(a_rest, b_rest).unwrap().2 == w0.2,
        add_del_walk(a_rest, b_rest).unwrap().3 == w0.3,
        (rd + dh).len() + (ra + ih).len() + 2 * (add_seq_size(a_rest) + del_seq_size(b_rest)) <= bound,
        add_seq_size(a_rest) <= fuel,
        rd.len() + dh.len() + ra.len() + ih.len() <= bound,
{
    lemma_ad_walk_step(x, y, a_rest, b_rest);
    lemma_add_seq_size_first(seq![x] + a_rest);
    lemma_del_seq_size_first(seq![y] + b_rest);
    assert((seq![x] + a_rest)[0] == x);
    assert((seq![x] + a_rest).drop_first() =~= a_rest);
    assert((seq![y] + b_rest)[0] == y);
    assert((seq![y] + b_rest).drop_first() =~= b_rest);
    lemma_ad_advance(
        seq![x] + a_rest,
        seq![y] + b_rest,
        a_rest,
        b_rest,
        dh,
        ih,
        rd,
        ra,
        r0d,
        r0a,
        w0,
        fuel,
        bound,
    );
}

/// The sizes of the first atoms of two sequences.
proof fn lemma_ad_first_sizes(x: AddAtom, y: DelAtom, a_rest: Seq<AddAtom>, b_rest: Seq<DelAtom>)
    ensures
        add_seq_size(seq![x] + a_rest) == crate::compose_add::add_atom_size(x) + add_seq_size(a_rest),
        del_seq_size(seq![y] + b_rest) == crate::compose::del_atom_size(y) + del_seq_size(b_rest),
{
    lemma_add_seq_size_first(seq![x] + a_rest);
    lemma_del_seq_size_first(seq![y] + b_rest);
    assert((seq![x] + a_rest)[0] == x);
    assert((seq![x] + a_rest).drop_first() =~= a_rest);
    assert((seq![y] + b_rest)[0] == y);
    assert((seq![y] + b_rest).drop_first() =~= b_rest);
}

/// Writes a whole deletion span at the end, where its atoms fit.
fn del_write_all(res: &mut Vec<DelElement>, span: &Vec<DelElement>, Ghost(bound): Ghost<nat>)
    requires
        del_span_wf(del_span_view(old(res)@)),
        del_span_wf(del_span_view(span@)),
        del_atoms(del_span_view(old(res)@)).len() + del_atoms(del_span_view(span@)).len() <= bound,
        bound <= usize::MAX,
    ensures
        del_merged(del_span_view(old(res)@)) ==> del_merged(del_span_view(final(res)@)),
        del_span_wf(del_span_view(final(res)@)),
        del_atoms(del_span_view(final(res)@)) == del_atoms(del_span_view(old(res)@)) + del_atoms(
            del_span_view(span@),
        ),
        del_deep(del_span_view(old(res)@)) && (del_deep(del_span_view(span@)) || forall|i: int|
            0 <= i < del_span_view(span@).len() ==> del_deep_node(#[trigger] del_span_view(span@)[i]))
            ==> del_deep(del_span_view(final(res)@)),
{
    proof {
        lemma_del_place_all_ok(del_span_view(res@), del_span_view(span@));
        lemma_del_deep_at(del_span_view(span@));
        lemma_del_place_all_deep(del_span_view(res@), del_span_view(span@));
    }
    res.place_all(span.as_slice());
}

/// Writes a whole insertion span at the end, where its atoms fit.
fn add_write_all(res: &mut Vec<AddElement>, span: &Vec<AddElement>, Ghost(bound): Ghost<nat>)
    requires
        add_span_wf(add_span_view(old(res)@)),
        add_span_wf(add_span_view(span@)),
        add_atoms(add_span_view(old(res)@)).len() + add_atoms(add_span_view(span@)).len() <= bound,
        bound <= usize::MAX,
    ensures
        add_merged(add_span_view(old(res)@)) ==> add_merged(add_span_view(final(res)@)),
        add_span_wf(add_span_view(final(res)@)),
        add_atoms(add_span_view(final(res)@)) == add_atoms(add_span_view(old(res)@)) + add_atoms(
            add_span_view(span@),
        ),
        add_deep(add_span_view(old(res)@)) && (add_deep(add_span_view(span@)) || forall|i: int|
            0 <= i < add_span_view(span@).len() ==> add_deep_node(#[trigger] add_span_view(span@)[i]))
            ==> add_deep(add_span_view(final(res)@)),
{
    proof {
        lemma_add_place_all_ok(add_span_view(res@), add_span_view(span@));
        lemma_add_deep_at(add_span_view(span@));
        lemma_add_place_all_deep(add_span_view(res@), add_span_view(span@));
    }
    res.place_all(span.as_slice());
}

/// A kept or inserted group of the insertion that the deletion keeps.
#[verifier::spinoff_prover]
#[verifier::rlimit(50)]
fn ad_step_group_skip(
    dres: &mut Vec<DelElement>,
    ares: &mut Vec<AddElement>,
    a: &mut AddStepper,
    b: &mut DelStepper,
    Ghost(r0d): Ghost<Seq<DelAtom>>,
    Ghost(r0a): Ghost<Seq<AddAtom>>,
    Ghost(w0): Ghost<(Seq<DelAtom>, Seq<AddAtom>, Seq<AddAtom>, Seq<DelAtom>)>,
    Ghost(fuel): Ghost<nat>,
    Ghost(bound): Ghost<nat>,
)
    requires
        ad_inv(old(dres)@, old(ares)@, *old(a), *old(b), r0d, r0a, w0, fuel, bound),
        old(a).head matches Some(h) && (h is AddWithGroup || h is AddGroup),
        old(b).head matches Some(h) && h is DelSkip,
    ensures
        del_merged(del_span_view(old(dres)@)) ==> del_merged(del_span_view(final(dres)@)),
        add_merged(add_span_view(old(ares)@)) ==> add_merged(add_span_view(final(ares)@)),
        ad_inv(final(dres)@, final(ares)@, *final(a), *final(b), r0d, r0a, w0, fuel, bound),
        ad_deep(old(dres)@, old(ares)@, *old(a), *old(b)) ==> ad_deep(final(dres)@, final(ares)@, *final(a), *final(b)),
        ad_progress(*old(a), *old(b), *final(a), *final(b)),
{
    proof {
        lemma_ast_atoms(*a);
        lemma_dst_atoms(*b);
        lemma_ast_deep_head(*a);
        lemma_dst_deep_head(*b);
    }
    let ghost a_rest = add_atoms(a.rest_view());
    let ghost b_rest = del_atoms(b.rest_view());
    let ghost rd = del_atoms(del_span_view(dres@));
    let ghost ra = add_atoms(add_span_view(ares@));
    let ghost a0 = *a;
    let ghost b0 = *b;
    let bc = match b.get_head() {
        DelSkip(c) => c,
        _ => {
            proof {
                assert(false);
            }
            return ;
        },
    };
    let ghost x = add_elem_atoms(a0.head.unwrap()@)[0];
    let ah = a.next().unwrap();
    proof {
        lemma_ast_next(a0, *a);
        lemma_ast_deep_next(a0, *a);
        lemma_add_elem_atoms_len(ah@);
        assert(add_elem_atoms(ah@) == seq![x]);
        lemma_repeat_first_del(DelAtom::Skip, bc as nat);
        assert(ast_atoms(a0) =~= seq![x] + a_rest);
        assert(dst_atoms(b0) =~= seq![DelAtom::Skip] + (repeat(DelAtom::Skip, (bc - 1) as nat) + b_rest));
        lemma_ad_one(x, DelAtom::Skip);
        lemma_ad_first_sizes(x, DelAtom::Skip, a_rest, repeat(DelAtom::Skip, (bc - 1) as nat) + b_rest);
        crate::compose::lemma_del_atom_size(DelAtom::Skip);
        lemma_repeat(DelAtom::Skip, (bc - 1) as nat);
    }
    match &ah {
        AddGroup(_, aspan) => {
            let ghost ia = add_atoms(add_span_view(aspan@));
            proof {
                assert(x == AddAtom::Group(ah@->Group_0, ia));
                lemma_add_pre_le_size(ia);
                lemma_repeat(DelAtom::Skip, add_pre(ia));
                lemma_ad_one_step(x, DelAtom::Skip, repeat(DelAtom::Skip, add_pre(ia)), seq![x], a_rest, repeat(DelAtom::Skip, (bc - 1) as nat) + b_rest, rd, ra, r0d, r0a, w0, fuel, bound);
            }
            let pre = add_skip_pre_len(aspan);
            if pre > 0 {
                proof {
                    assert(del_elem_atoms(DelSkip(pre)@) == repeat(DelAtom::Skip, add_pre(ia)));
                }
                del_write(dres, DelSkip(pre), Ghost(bound));
                proof {
                    assert(del_atoms(del_span_view(dres@)) == rd + repeat(DelAtom::Skip, add_pre(ia)));
                }
            } else {
                proof {
                    assert(repeat(DelAtom::Skip, 0) =~= Seq::<DelAtom>::empty());
                    assert(rd + Seq::<DelAtom>::empty() =~= rd);
                }
            }
        },
        _ => {
            proof {
                assert(x is WithGroup);
                lemma_ad_one_step(x, DelAtom::Skip, seq![DelAtom::Skip], seq![x], a_rest, repeat(DelAtom::Skip, (bc - 1) as nat) + b_rest, rd, ra, r0d, r0a, w0, fuel, bound);
                lemma_repeat(DelAtom::Skip, 1);
            }
            proof {
                assert(del_elem_atoms(DelSkip(1)@) =~= seq![DelAtom::Skip]);
            }
            del_write(dres, DelSkip(1), Ghost(bound));
        },
    }
    add_write(ares, ah, Ghost(bound));
    dst_take(b, 1, bc, DelSkip(bc - 1), Ghost(DelAtom::Skip));
}

/// A kept atom of the insertion against a kept or deleted group of the
/// deletion.
#[verifier::spinoff_prover]
#[verifier::rlimit(50)]
fn ad_step_skip_group(
    dres: &mut Vec<DelElement>,
    ares: &mut Vec<AddElement>,
    a: &mut AddStepper,
    b: &mut DelStepper,
    Ghost(r0d): Ghost<Seq<DelAtom>>,
    Ghost(r0a): Ghost<Seq<AddAtom>>,
    Ghost(w0): Ghost<(Seq<DelAtom>, Seq<AddAtom>, Seq<AddAtom>, Seq<DelAtom>)>,
    Ghost(fuel): Ghost<nat>,
    Ghost(bound): Ghost<nat>,
)
    requires
        ad_inv(old(dres)@, old(ares)@, *old(a), *old(b), r0d, r0a, w0, fuel, bound),
        old(a).head matches Some(h) && h is AddSkip,
        old(b).head matches Some(h) && (h is DelWithGroup || h is DelGroup),
    ensures
        del_merged(del_span_view(old(dres)@)) ==> del_merged(del_span_view(final(dres)@)),
        add_merged(add_span_view(old(ares)@)) ==> add_merged(add_span_view(final(ares)@)),
        ad_inv(final(dres)@, final(ares)@, *final(a), *final(b), r0d, r0a, w0, fuel, bound),
        ad_deep(old(dres)@, old(ares)@, *old(a), *old(b)) ==> ad_deep(final(dres)@, final(ares)@, *final(a), *final(b)),
        ad_progress(*old(a), *old(b), *final(a), *final(b)),
{
    proof {
        lemma_ast_atoms(*a);
        lemma_dst_atoms(*b);
        lemma_ast_deep_head(*a);
        lemma_dst_deep_head(*b);
    }
    let ghost a_rest = add_atoms(a.rest_view());
    let ghost b_rest = del_atoms(b.rest_view());
    let ghost rd = del_atoms(del_span_view(dres@));
    let ghost ra = add_atoms(add_span_view(ares@));
    let ghost a0 = *a;
    let ghost b0 = *b;
    let ac = match a.get_head() {
        AddSkip(c) => c,
        _ => {
            proof {
                assert(false);
            }
            return ;
        },
    };
    let ghost y = del_elem_atoms(b0.head.unwrap()@)[0];
    let bh = b.next().unwrap();
    proof {
        lemma_dst_next(b0, *b);
        lemma_dst_deep_next(b0, *b);
        lemma_del_elem_atoms_len(bh@);
        assert(del_elem_atoms(bh@) == seq![y]);
        lemma_repeat_first_add(AddAtom::Skip, ac as nat);
        assert(ast_atoms(a0) =~= seq![AddAtom::Skip] + (repeat(AddAtom::Skip, (ac - 1) as nat) + a_rest));
        assert(dst_atoms(b0) =~= seq![y] + b_rest);
        lemma_ad_one(AddAtom::Skip, y);
        lemma_ad_first_sizes(AddAtom::Skip, y, repeat(AddAtom::Skip, (ac - 1) as nat) + a_rest, b_rest);
        crate::compose_add::lemma_add_atom_size(AddAtom::Skip);
        lemma_repeat(AddAtom::Skip, (ac - 1) as nat);
    }
    match &bh {
        DelGroup(bspan) => {
            let ghost ib = del_atoms(del_span_view(bspan@));
            proof {
                assert(y == DelAtom::Group(ib));
                lemma_del_post_le_size(ib);
                lemma_repeat(AddAtom::Skip, del_post(ib));
                lemma_ad_one_step(AddAtom::Skip, y, seq![y], repeat(AddAtom::Skip, del_post(ib)), repeat(AddAtom::Skip, (ac - 1) as nat) + a_rest, b_rest, rd, ra, r0d, r0a, w0, fuel, bound);
            }
            let post = del_skip_post_len(bspan);
            if post > 0 {
                proof {
                    assert(add_elem_atoms(AddSkip(post)@) == repeat(AddAtom::Skip, del_post(ib)));
                }
                add_write(ares, AddSkip(post), Ghost(bound));
                proof {
                    assert(add_atoms(add_span_view(ares@)) == ra + repeat(AddAtom::Skip, del_post(ib)));
                }
            } else {
                proof {
                    assert(repeat(AddAtom::Skip, 0) =~= Seq::<AddAtom>::empty());
                    assert(ra + Seq::<AddAtom>::empty() =~= ra);
                }
            }
        },
        _ => {
            proof {
                assert(y is WithGroup);
                lemma_ad_one_step(AddAtom::Skip, y, seq![y], seq![AddAtom::Skip], repeat(AddAtom::Skip, (ac - 1) as nat) + a_rest, b_rest, rd, ra, r0d, r0a, w0, fuel, bound);
                lemma_repeat(AddAtom::Skip, 1);
            }
            proof {
                assert(add_elem_atoms(AddSkip(1)@) =~= seq![AddAtom::Skip]);
            }
            add_write(ares, AddSkip(1), Ghost(bound));
        },
    }
    del_write(dres, bh, Ghost(bound));
    ast_take(a, 1, ac, AddSkip(ac - 1), Ghost(AddAtom::Skip));
}

/// Kept or inserted groups of the insertion against kept or deleted groups
/// of the deletion: the composition of their contents.
#[verifier::spinoff_prover]
#[verifier::rlimit(50)]
fn ad_step_group_group(
    dres: &mut Vec<DelElement>,
    ares: &mut Vec<AddElement>,
    a: &mut AddStepper,
    b: &mut DelStepper,
    Ghost(r0d): Ghost<Seq<DelAtom>>,
    Ghost(r0a): Ghost<Seq<AddAtom>>,
    Ghost(w0): Ghost<(Seq<DelAtom>, Seq<AddAtom>, Seq<AddAtom>, Seq<DelAtom>)>,
    Ghost(fuel): Ghost<nat>,
    Ghost(bound): Ghost<nat>,
)
    requires
        ad_inv(old(dres)@, old(ares)@, *old(a), *old(b), r0d, r0a, w0, fuel, bound),
        old(a).head matches Some(h) && (h is AddWithGroup || h is AddGroup),
        old(b).head matches Some(h) && (h is DelWithGroup || h is DelGroup),
    ensures
        del_merged(del_span_view(old(dres)@)) ==> del_merged(del_span_view(final(dres)@)),
        add_merged(add_span_view(old(ares)@)) ==> add_merged(add_span_view(final(ares)@)),
        ad_inv(final(dres)@, final(ares)@, *final(a), *final(b), r0d, r0a, w0, fuel, bound),
        ad_deep(old(dres)@, old(ares)@, *old(a), *old(b)) ==> ad_deep(final(dres)@, final(ares)@, *final(a), *final(b)),
        ad_progress(*old(a), *old(b), *final(a), *final(b)),
    decreases fuel, 0nat,
{
    proof {
        lemma_ast_atoms(*a);
        lemma_dst_atoms(*b);
        lemma_ast_deep_head(*a);
        lemma_dst_deep_head(*b);
    }
    let ghost a_rest = add_atoms(a.rest_view());
    let ghost b_rest = del_atoms(b.rest_view());
    let ghost rd = del_atoms(del_span_view(dres@));
    let ghost ra = add_atoms(add_span_view(ares@));
    let ghost a0 = *a;
    let ghost b0 = *b;
    let ghost x = add_elem_atoms(a0.head.unwrap()@)[0];
    let ghost y = del_elem_atoms(b0.head.unwrap()@)[0];
    let ah = a.next().unwrap();
    let bh = b.next().unwrap();
    proof {
        lemma_ast_next(a0, *a);
        lemma_ast_deep_next(a0, *a);
        lemma_dst_next(b0, *b);
        lemma_dst_deep_next(b0, *b);
        lemma_add_elem_atoms_len(ah@);
        lemma_del_elem_atoms_len(bh@);
        assert(add_elem_atoms(ah@) == seq![x]);
        assert(del_elem_atoms(bh@) == seq![y]);
        assert(ast_atoms(a0) =~= seq![x] + a_rest);
        assert(dst_atoms(b0) =~= seq![y] + b_rest);
        lemma_ad_walk_step(x, y, a_rest, b_rest);
        lemma_ad_one(x, y);
        lemma_ad_first_sizes(x, y, a_rest, b_rest);
        lemma_add_group_wf(ah@);
        lemma_del_group_wf(bh@);
        lemma_ad_group_sizes(x, y, a_rest, b_rest, rd, ra, fuel, bound);
    }
    let ghost ahv = ah@;
    let (ia, a_attrs) = match ah {
        AddWithGroup(ia) => (ia, None),
        AddGroup(at, ia) => (ia, Some(at)),
        _ => {
            proof {
                assert(false);
            }
            return ;
        },
    };
    let a_with = a_attrs.is_none();
    let (ib, b_with) = match &bh {
        DelWithGroup(ib) => (ib, true),
        DelGroup(ib) => (ib, false),
        _ => {
            proof {
                assert(false);
            }
            return ;
        },
    };
    let ghost iav = add_atoms(add_span_view(ia@));
    let ghost ibv = del_atoms(del_span_view(ib@));
    proof {
        assert(add_seq_size(iav) < fuel);
    }
    let Op(d, i) = compose_add_del_fuel(&ia, ib, Ghost(add_seq_size(iav)));
    let ghost dv = del_atoms(del_span_view(d@));
    let ghost iv = add_atoms(add_span_view(i@));
    if b_with {
        let ae = match a_attrs {
            Some(at) => AddGroup(at, i),
            None => AddWithGroup(i),
        };
        proof {
            lemma_add_group_wf(ae@);
            lemma_single_atoms(DocNode::Text(StyleSet::empty(), Seq::empty()), DelNode::Skip(1), ae@);
        }
        if a_with {
            let de = DelWithGroup(d);
            proof {
                lemma_del_group_wf(de@);
                lemma_ad_one_step(x, y, seq![DelAtom::WithGroup(dv)], add_elem_atoms(ae@), a_rest, b_rest, rd, ra, r0d, r0a, w0, fuel, bound);
            }
            del_write(dres, de, Ghost(bound));
        } else {
            proof {
                lemma_ad_one_step(x, y, dv, add_elem_atoms(ae@), a_rest, b_rest, rd, ra, r0d, r0a, w0, fuel, bound);
            }
            del_write_all(dres, &d, Ghost(bound));
        }
        add_write(ares, ae, Ghost(bound));
    } else {
        if a_with {
            let de = DelGroup(d);
            proof {
                lemma_del_group_wf(de@);
                lemma_ad_one_step(x, y, seq![DelAtom::Group(dv)], iv, a_rest, b_rest, rd, ra, r0d, r0a, w0, fuel, bound);
            }
            del_write(dres, de, Ghost(bound));
        } else {
            proof {
                lemma_ad_one_step(x, y, dv, iv, a_rest, b_rest, rd, ra, r0d, r0a, w0, fuel, bound);
            }
            del_write_all(dres, &d, Ghost(bound));
        }
        add_write_all(ares, &i, Ghost(bound));
    }
}

/// The sizes of two groups at the front of walks within the bound.
proof fn lemma_ad_group_sizes(
    x: AddAtom,
    y: DelAtom,
    a_rest: Seq<AddAtom>,
    b_rest: Seq<DelAtom>,
    rd: Seq<DelAtom>,
    ra: Seq<AddAtom>,
    fuel: nat,
    bound: nat,
)
    requires
        rd.len() + ra.len() + 2 * (add_seq_size(seq![x] + a_rest) + del_seq_size(seq![y] + b_rest))
            <= bound,
        add_seq_size(seq![x] + a_rest) <= fuel,
    ensures
        crate::compose_add::add_atom_size(x) <= fuel,
        2 * (crate::compose_add::add_atom_size(x) + crate::compose::del_atom_size(y)) <= bound,
{
    lemma_ad_first_sizes(x, y, a_rest, b_rest);
}

/// Whether the first elements of an insertion and of the deletion that
/// follows it can be walked together.
pub open spec fn ad_heads_fit(x: AddNode, y: DelNode) -> bool {
    match x {
        AddNode::Text(_, _) => !(y is WithGroup) && !(y is Group),
        AddNode::Styles(_, _) => y is Skip || y is Styles,
        AddNode::Skip(_) => true,
        _ => y is Skip || y is WithGroup || y is Group,
    }
}

/// A walk that goes on starts with elements that fit.
proof fn lemma_ad_fit(a: AddStepper, b: DelStepper)
    requires
        ast_ok(a),
        dst_ok(b),
        a.head is Some,
        b.head is Some,
        add_del_walk(ast_atoms(a), dst_atoms(b)) is Some,
    ensures
        ad_heads_fit(a.head.unwrap()@, b.head.unwrap()@),
{
    lemma_ast_atoms(a);
    lemma_dst_atoms(b);
    let xs = add_elem_atoms(a.head.unwrap()@);
    let ys = del_elem_atoms(b.head.unwrap()@);
    lemma_add_elem_atoms_len(a.head.unwrap()@);
    lemma_del_elem_atoms_len(b.head.unwrap()@);
    match a.head.unwrap()@ {
        AddNode::Text(st, v) => lemma_text_atoms(st, v),
        AddNode::Styles(n, st) => lemma_repeat(AddAtom::Styles(st), n),
        AddNode::Skip(n) => lemma_repeat(AddAtom::Skip, n),
        _ => {},
    }
    match b.head.unwrap()@ {
        DelNode::Skip(n) => lemma_repeat(DelAtom::Skip, n),
        DelNode::Text(n) => lemma_repeat(DelAtom::Text, n),
        DelNode::Styles(n, st) => lemma_repeat(DelAtom::Styles(st), n),
        _ => {},
    }
    lemma_ad_one(xs[0], ys[0]);
    assert(ast_atoms(a) =~= seq![xs[0]] + (xs.drop_first() + add_atoms(a.rest_view())));
    assert(dst_atoms(b) =~= seq![ys[0]] + (ys.drop_first() + del_atoms(b.rest_view())));
    lemma_ad_walk_step(xs[0], ys[0], xs.drop_first() + add_atoms(a.rest_view()), ys.drop_first() + del_atoms(b.rest_view()));
}

/// Walks an insertion and the deletion that follows it side by side,
/// until either ends.
#[verifier::spinoff_prover]
fn compose_add_del_walk(
    dres: &mut Vec<DelElement>,
    ares: &mut Vec<AddElement>,
    a: &mut AddStepper,
    b: &mut DelStepper,
    Ghost(fuel): Ghost<nat>,
)
    requires
        ast_ok(*old(a)),
        dst_ok(*old(b)),
        del_span_wf(del_span_view(old(dres)@)),
        add_span_wf(add_span_view(old(ares)@)),
        add_del_walk(ast_atoms(*old(a)), dst_atoms(*old(b))) is Some,
        add_seq_size(ast_atoms(*old(a))) <= fuel,
        del_atoms(del_span_view(old(dres)@)).len() + add_atoms(add_span_view(old(ares)@)).len() + 2 * (
        add_seq_size(ast_atoms(*old(a))) + del_seq_size(dst_atoms(*old(b)))) <= usize::MAX,
    ensures
        del_merged(del_span_view(old(dres)@)) ==> del_merged(del_span_view(final(dres)@)),
        add_merged(add_span_view(old(ares)@)) ==> add_merged(add_span_view(final(ares)@)),
        ad_deep(old(dres)@, old(ares)@, *old(a), *old(b)) ==> ad_deep(final(dres)@, final(ares)@, *final(a), *final(b)),
        ({
            let w = add_del_walk(ast_atoms(*old(a)), dst_atoms(*old(b))).unwrap();
            &&& ast_ok(*final(a))
            &&& dst_ok(*final(b))
            &&& del_span_wf(del_span_view(final(dres)@))
            &&& add_span_wf(add_span_view(final(ares)@))
            &&& del_atoms(del_span_view(final(dres)@)) == del_atoms(del_span_view(old(dres)@)) + w.0
            &&& add_atoms(add_span_view(final(ares)@)) == add_atoms(add_span_view(old(ares)@)) + w.1
            &&& ast_atoms(*final(a)) == w.2
            &&& dst_atoms(*final(b)) == w.3
            &&& del_atoms(del_span_view(final(dres)@)).len() + add_atoms(add_span_view(final(ares)@)).len()
                + 2 * (add_seq_size(w.2) + del_seq_size(w.3)) <= del_atoms(del_span_view(old(dres)@)).len()
                + add_atoms(add_span_view(old(ares)@)).len() + 2 * (add_seq_size(ast_atoms(*old(a)))
                + del_seq_size(dst_atoms(*old(b))))
        }),
    decreases fuel, 1nat,
{
    let ghost r0d = del_atoms(del_span_view(dres@));
    let ghost r0a = add_atoms(add_span_view(ares@));
    let ghost w0 = add_del_walk(ast_atoms(*a), dst_atoms(*b)).unwrap();
    let ghost bound = r0d.len() + r0a.len() + 2 * (add_seq_size(ast_atoms(*a)) + del_seq_size(dst_atoms(*b)));
    proof {
        assert(r0d + w0.0 == r0d + w0.0);
    }
    while !b.is_done() && !a.is_done()
        invariant
            ad_inv(dres@, ares@, *a, *b, r0d, r0a, w0, fuel, bound),
            del_merged(del_span_view(old(dres)@)) ==> del_merged(del_span_view(dres@)),
            add_merged(add_span_view(old(ares)@)) ==> add_merged(add_span_view(ares@)),
            ad_deep(old(dres)@, old(ares)@, *old(a), *old(b)) ==> ad_deep(dres@, ares@, *a, *b),
        decreases ast_atoms(*a).len() + dst_atoms(*b).len(),
    {
        proof {
            lemma_ad_fit(*a, *b);
        }
        let ak: u8 = match &a.head {
            Some(AddText(..)) => 0,
            Some(AddStyles(..)) => 1,
            Some(AddSkip(_)) => 2,
            _ => 3,
        };
        let bk: u8 = match &b.head {
            Some(DelSkip(_)) => 0,
            Some(DelText(_)) => 1,
            Some(DelStyles(..)) => 1,
            _ => 3,
        };
        if ak == 0 {
            ad_step_text(dres, ares, a, b, Ghost(r0d), Ghost(r0a), Ghost(w0), Ghost(fuel), Ghost(bound));
        } else if ak == 3 {
            if bk == 0 {
                ad_step_group_skip(dres, ares, a, b, Ghost(r0d), Ghost(r0a), Ghost(w0), Ghost(fuel), Ghost(bound));
            } else {
                ad_step_group_group(dres, ares, a, b, Ghost(r0d), Ghost(r0a), Ghost(w0), Ghost(fuel), Ghost(bound));
            }
        } else if bk == 3 {
            ad_step_skip_group(dres, ares, a, b, Ghost(r0d), Ghost(r0a), Ghost(w0), Ghost(fuel), Ghost(bound));
        } else {
            ad_step_counted(dres, ares, a, b, Ghost(r0d), Ghost(r0a), Ghost(w0), Ghost(fuel), Ghost(bound));
        }
    }
    proof {
        lemma_ast_atoms(*a);
        lemma_dst_atoms(*b);
        lemma_ast_deep_head(*a);
        lemma_dst_deep_head(*b);
        reveal(add_del_walk);
        let w = add_del_walk(ast_atoms(*a), dst_atoms(*b)).unwrap();
        assert(w.0 =~= Seq::<DelAtom>::empty());
        assert(w.1 =~= Seq::<AddAtom>::empty());
        assert(del_atoms(del_span_view(dres@)) + w.0 =~= del_atoms(del_span_view(dres@)));
        assert(add_atoms(add_span_view(ares@)) + w.1 =~= add_atoms(add_span_view(ares@)));
    }
}

/// Composes an insertion with the deletion that follows it, given a bound
/// on the size of the insertion.
#[verifier::spinoff_prover]
#[verifier::rlimit(50)]
fn compose_add_del_fuel(avec: &Vec<AddElement>, bvec: &Vec<DelElement>, Ghost(fuel): Ghost<nat>) -> (res: Op)
    requires
        add_span_wf(add_span_view(avec@)),
        del_span_wf(del_span_view(bvec@)),
        compose_add_del_atoms(add_atoms(add_span_view(avec@)), del_atoms(del_span_view(bvec@))) is Some,
        2 * (add_seq_size(add_atoms(add_span_view(avec@))) + del_seq_size(del_atoms(del_span_view(bvec@))))
            <= usize::MAX,
        add_seq_size(add_atoms(add_span_view(avec@))) <= fuel,
    ensures
        del_merged(del_span_view(res.0@)),
        add_merged(add_span_view(res.1@)),
        del_span_wf(del_span_view(res.0@)),
        add_span_wf(add_span_view(res.1@)),
        compose_add_del_atoms(add_atoms(add_span_view(avec@)), del_atoms(del_span_view(bvec@))) == Some(
            (del_atoms(del_span_view(res.0@)), add_atoms(add_span_view(res.1@))),
        ),
        add_deep(add_span_view(avec@)) && del_deep(del_span_view(bvec@)) ==> del_deep(del_span_view(res.0@))
            && add_deep(add_span_view(res.1@)),
        del_atoms(del_span_view(res.0@)).len() + add_atoms(add_span_view(res.1@)).len() <= 2 * (
        add_seq_size(add_atoms(add_span_view(avec@))) + del_seq_size(del_atoms(del_span_view(bvec@)))),
    decreases fuel, 2nat,
{
    let ghost bound = 2 * (add_seq_size(add_atoms(add_span_view(avec@))) + del_seq_size(
        del_atoms(del_span_view(bvec@)),
    ));
    let mut dres: Vec<DelElement> = Vec::new();
    let mut ares: Vec<AddElement> = Vec::new();
    let mut a = AddStepper::new(avec);
    let mut b = DelStepper::new(bvec);
    proof {
        assert(del_span_view(dres@) =~= Seq::<DelNode>::empty());
        assert(del_atoms(del_span_view(dres@)) =~= Seq::<DelAtom>::empty());
        assert(add_span_view(ares@) =~= Seq::<AddNode>::empty());
        assert(add_atoms(add_span_view(ares@)) =~= Seq::<AddAtom>::empty());
        lemma_ast_deep_new(a, add_span_view(avec@));
        lemma_dst_deep_new(b, del_span_view(bvec@));
        lemma_del_deep_at(Seq::<DelNode>::empty());
        lemma_add_deep_at(Seq::<AddNode>::empty());
    }
    compose_add_del_walk(&mut dres, &mut ares, &mut a, &mut b, Ghost(fuel));
    let ghost w = add_del_walk(add_atoms(add_span_view(avec@)), del_atoms(del_span_view(bvec@))).unwrap();
    proof {
        lemma_ast_atoms(a);
        lemma_dst_atoms(b);
        lemma_add_seq_size_len(w.2);
        lemma_del_seq_size_len(w.3);
        lemma_add_pre_le_size(w.2);
        lemma_del_post_le_size(w.3);
        lemma_repeat(DelAtom::Skip, add_pre(w.2));
        lemma_repeat(AddAtom::Skip, del_post(w.3));
        assert(Seq::<DelAtom>::empty() + w.0 =~= w.0);
        assert(Seq::<AddAtom>::empty() + w.1 =~= w.1);
    }
    if !b.is_done() {
        let rest = b.into_span();
        proof {
            assert(del_atoms(del_span_view(rest@)) == w.3);
        }
        let post = del_skip_post_len(&rest);
        if post > 0 {
            proof {
                assert(add_elem_atoms(AddSkip(post)@) == repeat(AddAtom::Skip, del_post(w.3)));
            }
            add_write(&mut ares, AddSkip(post), Ghost(bound));
        } else {
            proof {
                assert(repeat(AddAtom::Skip, 0) =~= Seq::<AddAtom>::empty());
                assert(w.1 + Seq::<AddAtom>::empty() =~= w.1);
            }
        }
        del_write_all(&mut dres, &rest, Ghost(bound));
    } else {
        proof {
            assert(w.3 =~= Seq::<DelAtom>::empty());
            assert(repeat(AddAtom::Skip, 0) =~= Seq::<AddAtom>::empty());
            assert(w.0 + w.3 =~= w.0);
            assert(w.1 + repeat(AddAtom::Skip, del_post(w.3)) =~= w.1);
        }
    }
    if !a.is_done() {
        let rest = a.into_span();
        proof {
            assert(add_atoms(add_span_view(rest@)) == w.2);
        }
        let pre = add_skip_pre_len(&rest);
        if pre > 0 {
            proof {
                assert(del_elem_atoms(DelSkip(pre)@) == repeat(DelAtom::Skip, add_pre(w.2)));
            }
            del_write(&mut dres, DelSkip(pre), Ghost(bound));
        } else {
            proof {
                assert(repeat(DelAtom::Skip, 0) =~= Seq::<DelAtom>::empty());
                assert(w.0 + w.3 + Seq::<DelAtom>::empty() =~= w.0 + w.3);
            }
        }
        add_write_all(&mut ares, &rest, Ghost(bound));
    } else {
        proof {
            assert(w.2 =~= Seq::<AddAtom>::empty());
            assert(repeat(DelAtom::Skip, 0) =~= Seq::<DelAtom>::empty());
            assert(w.0 + w.3 + repeat(DelAtom::Skip, add_pre(w.2)) =~= w.0 + w.3);
            assert(w.1 + repeat(AddAtom::Skip, del_post(w.3)) + w.2 =~= w.1 + repeat(AddAtom::Skip, del_post(w.3)));
        }
    }
    Op(dres, ares)
}

/// Composes an insertion with the deletion that follows it: a deletion and
/// an insertion that, applied in that order, do what `avec` then `bvec` do.
pub fn compose_add_del(avec: &Vec<AddElement>, bvec: &Vec<DelElement>) -> (res: Op)
    requires
        add_span_wf(add_span_view(avec@)),
        del_span_wf(del_span_view(bvec@)),
        compose_add_del_atoms(add_atoms(add_span_view(avec@)), del_atoms(del_span_view(bvec@))) is Some,
        2 * (add_seq_size(add_atoms(add_span_view(avec@))) + del_seq_size(del_atoms(del_span_view(bvec@))))
            <= usize::MAX,
    ensures
        del_merged(del_span_view(res.0@)),
        add_merged(add_span_view(res.1@)),
        del_span_wf(del_span_view(res.0@)),
        add_span_wf(add_span_view(res.1@)),
        compose_add_del_atoms(add_atoms(add_span_view(avec@)), del_atoms(del_span_view(bvec@))) == Some(
            (del_atoms(del_span_view(res.0@)), add_atoms(add_span_view(res.1@))),
        ),
        add_deep(add_span_view(avec@)) && del_deep(del_span_view(bvec@)) ==> del_deep(del_span_view(res.0@))
            && add_deep(add_span_view(res.1@)),
{
    compose_add_del_fuel(avec, bvec, Ghost(add_seq_size(add_atoms(add_span_view(avec@)))))
}

// ---------------------------------------------------------------------------
// Whole operations.

/// The operation, as deletion atoms and insertion atoms, that does what the
/// operation `(ad, aa)` then the operation `(bd, ba)` do: the insertion of
/// the first meets the deletion of the second, and what comes of that is
/// composed with the deletion of the first and the insertion of the second.
pub open spec fn compose_op_atoms(
    ad: Seq<DelAtom>,
    aa: Seq<AddAtom>,
    bd: Seq<DelAtom>,
    ba: Seq<AddAtom>,
) -> Option<(Seq<DelAtom>, Seq<AddAtom>)> {
    match compose_add_del_atoms(aa, bd) {
        Some((md, mi)) => match (compose_del_atoms(ad, md), compose_add_atoms(mi, ba)) {
            (Some(d), Some(i)) => Some((d, i)),
            _ => None,
        },
        None => None,
    }
}

/// The sizes of the parts of a composition of operations fit in a machine
/// word.
pub open spec fn compose_op_fits(
    ad: Seq<DelAtom>,
    aa: Seq<AddAtom>,
    bd: Seq<DelAtom>,
    ba: Seq<AddAtom>,
) -> bool {
    let m = compose_add_del_atoms(aa, bd).unwrap();
    &&& 2 * (add_seq_size(aa) + del_seq_size(bd)) <= usize::MAX
    &&& del_seq_size(ad) + del_seq_size(m.0) <= usize::MAX
    &&& add_seq_size(m.1) + add_seq_size(ba) <= usize::MAX
}

/// Composes two operations: the operation that does what `a` then `b` do.
pub fn compose(a: &Op, b: &Op) -> (res: Op)
    requires
        del_span_wf(del_span_view(a.0@)),
        add_span_wf(add_span_view(a.1@)),
        del_span_wf(del_span_view(b.0@)),
        add_span_wf(add_span_view(b.1@)),
        compose_op_atoms(
            del_atoms(del_span_view(a.0@)),
            add_atoms(add_span_view(a.1@)),
            del_atoms(del_span_view(b.0@)),
            add_atoms(add_span_view(b.1@)),
        ) is Some,
        compose_op_fits(
            del_atoms(del_span_view(a.0@)),
            add_atoms(add_span_view(a.1@)),
            del_atoms(del_span_view(b.0@)),
            add_atoms(add_span_view(b.1@)),
        ),
    ensures
        del_span_wf(del_span_view(res.0@)),
        add_span_wf(add_span_view(res.1@)),
        compose_op_atoms(
            del_atoms(del_span_view(a.0@)),
            add_atoms(add_span_view(a.1@)),
            del_atoms(del_span_view(b.0@)),
            add_atoms(add_span_view(b.1@)),
        ) == Some((del_atoms(del_span_view(res.0@)), add_atoms(add_span_view(res.1@)))),
        del_merged(del_span_view(res.0@)),
        add_merged(add_span_view(res.1@)),
        del_deep(del_span_view(a.0@)) && add_deep(add_span_view(a.1@)) && del_deep(del_span_view(b.0@))
            && add_deep(add_span_view(b.1@)) ==> del_deep(del_span_view(res.0@)) && add_deep(
            add_span_view(res.1@),
        ),
{
    let Op(adel, ains) = a;
    let Op(bdel, bins) = b;
    let Op(mdel, mins) = compose_add_del(ains, bdel);
    let d = crate::compose::compose_del_del(adel, &mdel);
    let i = crate::compose_add::compose_add_add(&mins, bins);
    Op(d, i)
}

} // verus!
