//! Applying deletions and insertions to documents.
use crate::doc::{
    add_atoms, add_elem_atoms, add_span_view, clone_add_elem, clone_del_elem, clone_doc_elem,
    clone_doc_span, del_atoms, del_elem_atoms, del_span_view, doc_atoms, doc_elem_atoms,
    doc_span_view, lemma_add_atoms_skip, lemma_add_span_view, lemma_del_atoms_skip,
    lemma_del_span_view, lemma_doc_atoms_skip, lemma_doc_span_view, lemma_repeat, lemma_doc_view_push, lemma_single_atoms, lemma_doc_group_wf, lemma_del_group_wf,
    lemma_add_group_wf, lemma_doc_wf_push,
    lemma_text_atoms, repeat, text_atoms, add_atom_pre, add_pre, lemma_add_pre_concat,
    lemma_add_pre_repeat, lemma_add_pre_text, add_text_atoms, AddAtom, AddElement, DelAtom,
    DelElement, DocAtom, DocElement, DocNode, Op, DelNode, AddNode, DocText, DocGroup, DelSkip,
    DelText, DelStyles, DelGroup, DelWithGroup, AddSkip, AddStyles, AddText, AddGroup,
    AddWithGroup, doc_span_wf, del_span_wf, doc_elem_wf, del_elem_wf, add_span_wf, add_elem_wf,
};
use crate::place::{lemma_doc_place_wf, lemma_doc_place_atoms, lemma_doc_place_all_wf,
    lemma_doc_place_all_atoms, lemma_doc_atoms_push, DocPlaceable};
use crate::place::{lemma_repeat_add, lemma_text_atoms_concat};
use crate::place::{doc_deep, doc_deep_node, lemma_doc_deep_at, lemma_doc_push_deep};
use crate::place::{
    doc_like, doc_merged, lemma_doc_like_joinable, lemma_doc_merged_at, lemma_doc_merged_push,
    lemma_doc_merged_push_group, lemma_doc_place_last,
};
use crate::rtf::{Attrs, StyleSet};
use vstd::prelude::*;

verus! {

// ---------------------------------------------------------------------------
// The meaning of operations, atom by atom.

/// Both parts, joined, where both are there.
pub open spec fn opt_cat<A>(a: Option<Seq<A>>, b: Option<Seq<A>>) -> Option<Seq<A>> {
    match (a, b) {
        (Some(x), Some(y)) => Some(x + y),
        _ => None,
    }
}

/// What a deletion atom makes of one document atom; `None` where it does
/// not fit it.
pub open spec fn apply_del_one(d: DocAtom, x: DelAtom) -> Option<Seq<DocAtom>>
    decreases x,
{
    match x {
        DelAtom::Skip => Some(seq![d]),
        DelAtom::Text => match d {
            DocAtom::Char(..) => Some(Seq::empty()),
            DocAtom::Group(..) => None,
        },
        DelAtom::Styles(st) => match d {
            DocAtom::Char(s, c) => Some(seq![DocAtom::Char(s.minus(st), c)]),
            DocAtom::Group(..) => None,
        },
        DelAtom::WithGroup(inner) => match d {
            DocAtom::Group(attrs, g) => match apply_del_atoms(g, inner) {
                Some(r) => Some(seq![DocAtom::Group(attrs, r)]),
                None => None,
            },
            DocAtom::Char(..) => None,
        },
        DelAtom::Group(inner) => match d {
            DocAtom::Group(_, g) => apply_del_atoms(g, inner),
            DocAtom::Char(..) => None,
        },
    }
}

/// The document that a deletion makes of `d`: each deletion atom takes one
/// document atom, and what the deletion does not reach stays as it is.
/// `None` where the deletion does not fit the document.
pub open spec fn apply_del_atoms(d: Seq<DocAtom>, x: Seq<DelAtom>) -> Option<Seq<DocAtom>>
    decreases x,
{
    if x.len() == 0 {
        Some(d)
    } else if d.len() == 0 {
        None
    } else {
        opt_cat(apply_del_one(d[0], x[0]), apply_del_atoms(d.drop_first(), x.drop_first()))
    }
}

/// What an insertion atom that walks over one document atom makes of it;
/// `None` where it does not fit it.
pub open spec fn apply_add_one(d: DocAtom, y: AddAtom) -> Option<Seq<DocAtom>>
    decreases y,
{
    match y {
        AddAtom::Skip => Some(seq![d]),
        AddAtom::Styles(st) => match d {
            DocAtom::Char(s, c) => Some(seq![DocAtom::Char(s.union(st), c)]),
            DocAtom::Group(..) => None,
        },
        AddAtom::WithGroup(inner) => match d {
            DocAtom::Group(attrs, g) => match apply_add_atoms(g, inner) {
                Some(r) => Some(seq![DocAtom::Group(attrs, r)]),
                None => None,
            },
            DocAtom::Char(..) => None,
        },
        _ => None,
    }
}

/// The document that an insertion makes of `d`. Inserted text takes no
/// document atom; an inserted group wraps what its inner insertion makes of
/// the document atoms that it walks over; any other atom takes one document
/// atom. What the insertion does not reach stays as it is. `None` where the
/// insertion does not fit the document.
pub open spec fn apply_add_atoms(d: Seq<DocAtom>, y: Seq<AddAtom>) -> Option<Seq<DocAtom>>
    decreases y,
{
    if y.len() == 0 {
        Some(d)
    } else {
        match y[0] {
            AddAtom::Text(st, c) => opt_cat(
                Some(seq![DocAtom::Char(st, c)]),
                apply_add_atoms(d, y.drop_first()),
            ),
            AddAtom::Group(attrs, inner) => {
                let n = add_pre(inner);
                if n > d.len() {
                    None
                } else {
                    match apply_add_atoms(d.take(n as int), inner) {
                        Some(g) => opt_cat(
                            Some(seq![DocAtom::Group(attrs, g)]),
                            apply_add_atoms(d.skip(n as int), y.drop_first()),
                        ),
                        None => None,
                    }
                }
            },
            _ => if d.len() == 0 {
                None
            } else {
                opt_cat(apply_add_one(d[0], y[0]), apply_add_atoms(d.drop_first(), y.drop_first()))
            },
        }
    }
}

/// What a deletion atom makes of one document atom, spelled out.
pub proof fn lemma_apply_del_one(d: DocAtom, x: DelAtom)
    ensures
        apply_del_one(d, x) == match x {
            DelAtom::Skip => Some(seq![d]),
            DelAtom::Text => match d {
                DocAtom::Char(..) => Some(Seq::empty()),
                DocAtom::Group(..) => None,
            },
            DelAtom::Styles(st) => match d {
                DocAtom::Char(s, c) => Some(seq![DocAtom::Char(s.minus(st), c)]),
                DocAtom::Group(..) => None,
            },
            DelAtom::WithGroup(inner) => match d {
                DocAtom::Group(attrs, g) => match apply_del_atoms(g, inner) {
                    Some(r) => Some(seq![DocAtom::Group(attrs, r)]),
                    None => None,
                },
                DocAtom::Char(..) => None,
            },
            DelAtom::Group(inner) => match d {
                DocAtom::Group(_, g) => apply_del_atoms(g, inner),
                DocAtom::Char(..) => None,
            },
        },
{
}

/// A deletion against a document, spelled out.
pub proof fn lemma_apply_del_atoms(d: Seq<DocAtom>, x: Seq<DelAtom>)
    ensures
        apply_del_atoms(d, x) == if x.len() == 0 {
            Some(d)
        } else if d.len() == 0 {
            None
        } else {
            opt_cat(apply_del_one(d[0], x[0]), apply_del_atoms(d.drop_first(), x.drop_first()))
        },
{
}

/// What an insertion atom makes of one document atom, spelled out.
pub proof fn lemma_apply_add_one(d: DocAtom, y: AddAtom)
    ensures
        apply_add_one(d, y) == match y {
            AddAtom::Skip => Some(seq![d]),
            AddAtom::Styles(st) => match d {
                DocAtom::Char(s, c) => Some(seq![DocAtom::Char(s.union(st), c)]),
                DocAtom::Group(..) => None,
            },
            AddAtom::WithGroup(inner) => match d {
                DocAtom::Group(attrs, g) => match apply_add_atoms(g, inner) {
                    Some(r) => Some(seq![DocAtom::Group(attrs, r)]),
                    None => None,
                },
                DocAtom::Char(..) => None,
            },
            _ => None,
        },
{
}

/// An insertion against a document, spelled out.
pub proof fn lemma_apply_add_atoms(d: Seq<DocAtom>, y: Seq<AddAtom>)
    ensures
        apply_add_atoms(d, y) == if y.len() == 0 {
            Some(d)
        } else {
            match y[0] {
                AddAtom::Text(st, c) => opt_cat(
                    Some(seq![DocAtom::Char(st, c)]),
                    apply_add_atoms(d, y.drop_first()),
                ),
                AddAtom::Group(attrs, inner) => {
                    let n = add_pre(inner);
                    if n > d.len() {
                        None
                    } else {
                        match apply_add_atoms(d.take(n as int), inner) {
                            Some(g) => opt_cat(
                                Some(seq![DocAtom::Group(attrs, g)]),
                                apply_add_atoms(d.skip(n as int), y.drop_first()),
                            ),
                            None => None,
                        }
                    }
                },
                _ => if d.len() == 0 {
                    None
                } else {
                    opt_cat(apply_add_one(d[0], y[0]), apply_add_atoms(d.drop_first(), y.drop_first()))
                },
            }
        },
{
}

// ---------------------------------------------------------------------------
// Lemmas on the meaning of operations.

pub proof fn lemma_opt_cat_assoc<A>(a: Option<Seq<A>>, b: Option<Seq<A>>, c: Option<Seq<A>>)
    ensures
        opt_cat(opt_cat(a, b), c) == opt_cat(a, opt_cat(b, c)),
{
    match (a, b, c) {
        (Some(x), Some(y), Some(z)) => {
            assert(x + y + z =~= x + (y + z));
        },
        _ => {},
    }
}

pub proof fn lemma_opt_cat_empty<A>(b: Option<Seq<A>>)
    ensures
        opt_cat(Some(Seq::<A>::empty()), b) == b,
        opt_cat(b, Some(Seq::<A>::empty())) == b,
{
    match b {
        Some(y) => {
            assert(Seq::<A>::empty() + y =~= y);
            assert(y + Seq::<A>::empty() =~= y);
        },
        None => {},
    }
}

/// A deletion splits where the document does: each deletion atom takes one
/// document atom.
pub proof fn lemma_apply_del_split(p: Seq<DocAtom>, q: Seq<DocAtom>, r: Seq<DelAtom>, s: Seq<DelAtom>)
    requires
        r.len() == p.len(),
    ensures
        apply_del_atoms(p + q, r + s) == opt_cat(apply_del_atoms(p, r), apply_del_atoms(q, s)),
    decreases r.len(),
{
    if r.len() == 0 {
        assert(p + q =~= q);
        assert(r + s =~= s);
        lemma_opt_cat_empty(apply_del_atoms(q, s));
    } else {
        assert((p + q)[0] == p[0]);
        assert((r + s)[0] == r[0]);
        assert((p + q).drop_first() =~= p.drop_first() + q);
        assert((r + s).drop_first() =~= r.drop_first() + s);
        lemma_apply_del_split(p.drop_first(), q, r.drop_first(), s);
        lemma_opt_cat_assoc(
            apply_del_one(p[0], r[0]),
            apply_del_atoms(p.drop_first(), r.drop_first()),
            apply_del_atoms(q, s),
        );
    }
}

/// What a run of counted deletion atoms makes of a run of text.
pub open spec fn del_run_result(st: StyleSet, t: Seq<char>, x: DelAtom) -> Seq<DocAtom> {
    match x {
        DelAtom::Text => Seq::empty(),
        DelAtom::Styles(s) => text_atoms(st.minus(s), t),
        _ => text_atoms(st, t),
    }
}

pub proof fn lemma_apply_del_run(st: StyleSet, t: Seq<char>, x: DelAtom)
    requires
        x is Skip || x is Text || x is Styles,
    ensures
        apply_del_atoms(text_atoms(st, t), repeat(x, t.len())) == Some(del_run_result(st, t, x)),
    decreases t.len(),
{
    if t.len() == 0 {
        assert(text_atoms(st, t) =~= Seq::<DocAtom>::empty());
        match x {
            DelAtom::Styles(s) => assert(text_atoms(st.minus(s), t) =~= Seq::<DocAtom>::empty()),
            _ => {},
        }
    } else {
        let t1 = t.drop_last();
        let n = t.len();
        lemma_apply_del_run(st, t1, x);
        lemma_text_atoms(st, t1);
        lemma_repeat(x, (n - 1) as nat);
        let c = DocAtom::Char(st, t.last());
        assert(text_atoms(st, t) == text_atoms(st, t1) + seq![c]);
        assert(repeat(x, n) == repeat(x, (n - 1) as nat) + seq![x]);
        lemma_apply_del_split(text_atoms(st, t1), seq![c], repeat(x, (n - 1) as nat), seq![x]);
        assert(seq![c].drop_first() =~= Seq::<DocAtom>::empty());
        assert(seq![x].drop_first() =~= Seq::<DelAtom>::empty());
        lemma_opt_cat_empty(apply_del_one(c, x));
        assert(apply_del_atoms(Seq::<DocAtom>::empty(), Seq::<DelAtom>::empty()) == Some(
            Seq::<DocAtom>::empty(),
        ));
        assert(apply_del_atoms(seq![c], seq![x]) == apply_del_one(c, x));
        match x {
            DelAtom::Styles(s) => {
                assert(text_atoms(st.minus(s), t) == text_atoms(st.minus(s), t1) + seq![
                    DocAtom::Char(st.minus(s), t.last()),
                ]);
            },
            DelAtom::Text => {
                assert(Seq::<DocAtom>::empty() + Seq::<DocAtom>::empty() =~= Seq::<DocAtom>::empty());
            },
            _ => {},
        }
    }
}

/// One deletion atom against one document atom, then the rest.
pub proof fn lemma_apply_del_step(a: DocAtom, x: DelAtom, p: Seq<DocAtom>, r: Seq<DelAtom>)
    ensures
        apply_del_atoms(seq![a] + p, seq![x] + r) == opt_cat(apply_del_one(a, x), apply_del_atoms(p, r)),
{
    assert((seq![a] + p)[0] == a);
    assert((seq![a] + p).drop_first() =~= p);
    assert((seq![x] + r)[0] == x);
    assert((seq![x] + r).drop_first() =~= r);
}

/// `n` atoms of a run of counted deletion atoms against `n` characters of a
/// run of text, then the rest.
pub proof fn lemma_apply_del_text_step(
    st: StyleSet,
    v: Seq<char>,
    x: DelAtom,
    c: nat,
    n: nat,
    pd: Seq<DocAtom>,
    px: Seq<DelAtom>,
)
    requires
        x is Skip || x is Text || x is Styles,
        n <= c,
        n <= v.len(),
    ensures
        apply_del_atoms(text_atoms(st, v) + pd, repeat(x, c) + px) == opt_cat(
            Some(del_run_result(st, v.take(n as int), x)),
            apply_del_atoms(text_atoms(st, v.skip(n as int)) + pd, repeat(x, (c - n) as nat) + px),
        ),
{
    let t1 = v.take(n as int);
    let t2 = v.skip(n as int);
    assert(t1 + t2 =~= v);
    lemma_text_atoms_concat(st, t1, t2);
    lemma_repeat_add(x, n, (c - n) as nat);
    lemma_text_atoms(st, t1);
    lemma_repeat(x, n);
    assert(text_atoms(st, v) + pd =~= text_atoms(st, t1) + (text_atoms(st, t2) + pd));
    assert(repeat(x, c) + px =~= repeat(x, n) + (repeat(x, (c - n) as nat) + px));
    lemma_apply_del_split(
        text_atoms(st, t1),
        text_atoms(st, t2) + pd,
        repeat(x, n),
        repeat(x, (c - n) as nat) + px,
    );
    lemma_apply_del_run(st, t1, x);
}

/// The first of a run of repeated atoms.
pub proof fn lemma_repeat_first<A>(a: A, n: nat)
    requires
        n > 0,
    ensures
        repeat(a, n) == seq![a] + repeat(a, (n - 1) as nat),
{
    lemma_repeat_add(a, 1, (n - 1) as nat);
    assert(repeat(a, 0) =~= Seq::<A>::empty());
    assert(repeat(a, 1) =~= seq![a]);
}

// ---------------------------------------------------------------------------
// Lemmas on insertions.

/// The walk of an insertion starts with that of its first atom.
pub proof fn lemma_add_pre_first(r: Seq<AddAtom>)
    requires
        r.len() > 0,
    ensures
        add_pre(r) == add_atom_pre(r[0]) + add_pre(r.drop_first()),
{
    assert(r =~= seq![r[0]] + r.drop_first());
    lemma_add_pre_concat(seq![r[0]], r.drop_first());
    assert(seq![r[0]].drop_last() =~= Seq::<AddAtom>::empty());
    assert(add_pre(seq![r[0]]) == add_pre(Seq::<AddAtom>::empty()) + add_atom_pre(r[0]));
}

/// An insertion splits where the document does, once its first part has
/// walked over the first part of the document.
pub proof fn lemma_apply_add_split(p: Seq<DocAtom>, q: Seq<DocAtom>, r: Seq<AddAtom>, s: Seq<AddAtom>)
    requires
        add_pre(r) == p.len(),
    ensures
        apply_add_atoms(p + q, r + s) == opt_cat(apply_add_atoms(p, r), apply_add_atoms(q, s)),
    decreases r.len(),
{
    if r.len() == 0 {
        assert(p =~= Seq::<DocAtom>::empty());
        assert(p + q =~= q);
        assert(r + s =~= s);
        lemma_opt_cat_empty(apply_add_atoms(q, s));
    } else {
        lemma_add_pre_first(r);
        assert((r + s)[0] == r[0]);
        assert((r + s).drop_first() =~= r.drop_first() + s);
        match r[0] {
            AddAtom::Text(st, c) => {
                lemma_apply_add_split(p, q, r.drop_first(), s);
                lemma_opt_cat_assoc(
                    Some(seq![DocAtom::Char(st, c)]),
                    apply_add_atoms(p, r.drop_first()),
                    apply_add_atoms(q, s),
                );
            },
            AddAtom::Group(attrs, inner) => {
                let n = add_pre(inner);
                assert((p + q).take(n as int) =~= p.take(n as int));
                assert((p + q).skip(n as int) =~= p.skip(n as int) + q);
                lemma_apply_add_split(p.skip(n as int), q, r.drop_first(), s);
                match apply_add_atoms(p.take(n as int), inner) {
                    Some(g) => {
                        lemma_opt_cat_assoc(
                            Some(seq![DocAtom::Group(attrs, g)]),
                            apply_add_atoms(p.skip(n as int), r.drop_first()),
                            apply_add_atoms(q, s),
                        );
                    },
                    None => {},
                }
            },
            _ => {
                assert((p + q)[0] == p[0]);
                assert((p + q).drop_first() =~= p.drop_first() + q);
                lemma_apply_add_split(p.drop_first(), q, r.drop_first(), s);
                lemma_opt_cat_assoc(
                    apply_add_one(p[0], r[0]),
                    apply_add_atoms(p.drop_first(), r.drop_first()),
                    apply_add_atoms(q, s),
                );
            },
        }
    }
}

/// What a run of counted insertion atoms makes of a run of text.
pub open spec fn add_run_result(st: StyleSet, t: Seq<char>, x: AddAtom) -> Seq<DocAtom> {
    match x {
        AddAtom::Styles(s) => text_atoms(st.union(s), t),
        _ => text_atoms(st, t),
    }
}

pub proof fn lemma_apply_add_run(st: StyleSet, t: Seq<char>, x: AddAtom)
    requires
        x is Skip || x is Styles,
    ensures
        add_pre(repeat(x, t.len())) == t.len(),
        apply_add_atoms(text_atoms(st, t), repeat(x, t.len())) == Some(add_run_result(st, t, x)),
    decreases t.len(),
{
    lemma_add_pre_repeat(x, t.len());
    if t.len() == 0 {
        assert(text_atoms(st, t) =~= Seq::<DocAtom>::empty());
        match x {
            AddAtom::Styles(s) => assert(text_atoms(st.union(s), t) =~= Seq::<DocAtom>::empty()),
            _ => {},
        }
    } else {
        let t1 = t.drop_last();
        let n = t.len();
        lemma_apply_add_run(st, t1, x);
        lemma_text_atoms(st, t1);
        lemma_repeat(x, (n - 1) as nat);
        let c = DocAtom::Char(st, t.last());
        assert(text_atoms(st, t) == text_atoms(st, t1) + seq![c]);
        assert(repeat(x, n) == repeat(x, (n - 1) as nat) + seq![x]);
        lemma_apply_add_split(text_atoms(st, t1), seq![c], repeat(x, (n - 1) as nat), seq![x]);
        assert(seq![c].drop_first() =~= Seq::<DocAtom>::empty());
        assert(seq![x].drop_first() =~= Seq::<AddAtom>::empty());
        lemma_opt_cat_empty(apply_add_one(c, x));
        assert(apply_add_atoms(Seq::<DocAtom>::empty(), Seq::<AddAtom>::empty()) == Some(
            Seq::<DocAtom>::empty(),
        ));
        assert(apply_add_atoms(seq![c], seq![x]) == apply_add_one(c, x));
        match x {
            AddAtom::Styles(s) => {
                assert(text_atoms(st.union(s), t) == text_atoms(st.union(s), t1) + seq![
                    DocAtom::Char(st.union(s), t.last()),
                ]);
            },
            _ => {},
        }
    }
}

/// `n` atoms of a run of counted insertion atoms against `n` characters of
/// a run of text, then the rest.
pub proof fn lemma_apply_add_text_step(
    st: StyleSet,
    v: Seq<char>,
    x: AddAtom,
    c: nat,
    n: nat,
    pd: Seq<DocAtom>,
    py: Seq<AddAtom>,
)
    requires
        x is Skip || x is Styles,
        n <= c,
        n <= v.len(),
    ensures
        apply_add_atoms(text_atoms(st, v) + pd, repeat(x, c) + py) == opt_cat(
            Some(add_run_result(st, v.take(n as int), x)),
            apply_add_atoms(text_atoms(st, v.skip(n as int)) + pd, repeat(x, (c - n) as nat) + py),
        ),
        add_pre(repeat(x, c) + py) == n + add_pre(repeat(x, (c - n) as nat) + py),
{
    let t1 = v.take(n as int);
    let t2 = v.skip(n as int);
    assert(t1 + t2 =~= v);
    lemma_text_atoms_concat(st, t1, t2);
    lemma_repeat_add(x, n, (c - n) as nat);
    lemma_text_atoms(st, t1);
    lemma_repeat(x, n);
    assert(text_atoms(st, v) + pd =~= text_atoms(st, t1) + (text_atoms(st, t2) + pd));
    assert(repeat(x, c) + py =~= repeat(x, n) + (repeat(x, (c - n) as nat) + py));
    lemma_apply_add_run(st, t1, x);
    lemma_apply_add_split(
        text_atoms(st, t1),
        text_atoms(st, t2) + pd,
        repeat(x, n),
        repeat(x, (c - n) as nat) + py,
    );
    lemma_add_pre_concat(repeat(x, n), repeat(x, (c - n) as nat) + py);
}

/// Inserted text takes no document atom.
pub proof fn lemma_apply_add_text_insert(st: StyleSet, v: Seq<char>, d: Seq<DocAtom>, py: Seq<AddAtom>)
    ensures
        apply_add_atoms(d, add_text_atoms(st, v) + py) == opt_cat(
            Some(text_atoms(st, v)),
            apply_add_atoms(d, py),
        ),
        add_pre(add_text_atoms(st, v) + py) == add_pre(py),
    decreases v.len(),
{
    lemma_add_pre_text(st, v);
    lemma_add_pre_concat(add_text_atoms(st, v), py);
    if v.len() == 0 {
        assert(add_text_atoms(st, v) + py =~= py);
        assert(text_atoms(st, v) =~= Seq::<DocAtom>::empty());
        lemma_opt_cat_empty(apply_add_atoms(d, py));
    } else {
        let v1 = v.drop_first();
        lemma_text_atoms(st, v);
        lemma_text_atoms(st, v1);
        assert(add_text_atoms(st, v) =~= seq![AddAtom::Text(st, v[0])] + add_text_atoms(st, v1));
        assert(text_atoms(st, v) =~= seq![DocAtom::Char(st, v[0])] + text_atoms(st, v1));
        let y = add_text_atoms(st, v) + py;
        assert(y[0] == AddAtom::Text(st, v[0]));
        assert(y.drop_first() =~= add_text_atoms(st, v1) + py);
        lemma_apply_add_text_insert(st, v1, d, py);
        lemma_opt_cat_assoc(
            Some(seq![DocAtom::Char(st, v[0])]),
            Some(text_atoms(st, v1)),
            apply_add_atoms(d, py),
        );
    }
}

/// One insertion atom that walks over one document atom, then the rest.
pub proof fn lemma_apply_add_step(a: DocAtom, y: AddAtom, p: Seq<DocAtom>, r: Seq<AddAtom>)
    requires
        y is Skip || y is Styles || y is WithGroup,
    ensures
        apply_add_atoms(seq![a] + p, seq![y] + r) == opt_cat(apply_add_one(a, y), apply_add_atoms(p, r)),
        add_pre(seq![y] + r) == 1 + add_pre(r),
{
    assert((seq![a] + p)[0] == a);
    assert((seq![a] + p).drop_first() =~= p);
    assert((seq![y] + r)[0] == y);
    assert((seq![y] + r).drop_first() =~= r);
    lemma_add_pre_first(seq![y] + r);
}

/// An inserted group wraps what its inner insertion makes of the atoms that
/// it walks over.
pub proof fn lemma_apply_add_group(attrs: Attrs, inner: Seq<AddAtom>, d: Seq<DocAtom>, r: Seq<AddAtom>)
    ensures
        apply_add_atoms(d, seq![AddAtom::Group(attrs, inner)] + r) == (if add_pre(inner) > d.len() {
            None
        } else {
            match apply_add_atoms(d.take(add_pre(inner) as int), inner) {
                Some(g) => opt_cat(
                    Some(seq![DocAtom::Group(attrs, g)]),
                    apply_add_atoms(d.skip(add_pre(inner) as int), r),
                ),
                None => None,
            }
        }),
        add_pre(seq![AddAtom::Group(attrs, inner)] + r) == add_pre(inner) + add_pre(r),
{
    let y = seq![AddAtom::Group(attrs, inner)] + r;
    assert(y[0] == AddAtom::Group(attrs, inner));
    assert(y.drop_first() =~= r);
    lemma_add_pre_first(y);
}

// ---------------------------------------------------------------------------
// Walking spans element by element.

/// The atoms of the element at hand, if there is one.
pub open spec fn opt_doc_atoms(f: Option<DocElement>) -> Seq<DocAtom> {
    match f {
        Some(e) => doc_elem_atoms(e@),
        None => Seq::empty(),
    }
}

pub open spec fn opt_del_atoms(f: Option<DelElement>) -> Seq<DelAtom> {
    match f {
        Some(e) => del_elem_atoms(e@),
        None => Seq::empty(),
    }
}

pub open spec fn opt_add_atoms(f: Option<AddElement>) -> Seq<AddAtom> {
    match f {
        Some(e) => add_elem_atoms(e@),
        None => Seq::empty(),
    }
}

/// The element at `*i`, if any, moving `*i` past it.
fn fetch_doc(span: &Vec<DocElement>, i: &mut usize) -> (res: Option<DocElement>)
    requires
        *old(i) <= span@.len(),
    ensures
        *final(i) <= span@.len(),
        res.is_none() == (*old(i) == span@.len()),
        res.is_none() ==> *final(i) == *old(i),
        res.is_some() ==> *final(i) == *old(i) + 1 && res.unwrap()@ == doc_span_view(span@)[*old(
            i,
        ) as int],
        opt_doc_atoms(res) + doc_atoms(doc_span_view(span@).skip(*final(i) as int)) == doc_atoms(
            doc_span_view(span@).skip(*old(i) as int),
        ),
        doc_span_wf(doc_span_view(span@)) ==> (res matches Some(e) ==> doc_elem_wf(e@)),
{
    proof {
        lemma_doc_span_view(span@);
        lemma_doc_atoms_skip(doc_span_view(span@), *i as int);
    }
    if *i < span.len() {
        let e = clone_doc_elem(&span[*i]);
        proof {
            if doc_span_wf(doc_span_view(span@)) {
                assert(doc_elem_wf(doc_span_view(span@)[*i as int]));
            }
        }
        *i = *i + 1;
        Some(e)
    } else {
        proof {
            assert(Seq::<DocAtom>::empty() + doc_atoms(doc_span_view(span@).skip(*i as int))
                =~= doc_atoms(doc_span_view(span@).skip(*i as int)));
        }
        None
    }
}

fn fetch_del(span: &Vec<DelElement>, i: &mut usize) -> (res: Option<DelElement>)
    requires
        *old(i) <= span@.len(),
    ensures
        *final(i) <= span@.len(),
        res.is_none() == (*old(i) == span@.len()),
        res.is_none() ==> *final(i) == *old(i),
        res.is_some() ==> *final(i) == *old(i) + 1 && res.unwrap()@ == del_span_view(span@)[*old(
            i,
        ) as int],
        opt_del_atoms(res) + del_atoms(del_span_view(span@).skip(*final(i) as int)) == del_atoms(
            del_span_view(span@).skip(*old(i) as int),
        ),
        del_span_wf(del_span_view(span@)) ==> (res matches Some(e) ==> del_elem_wf(e@)),
{
    proof {
        lemma_del_span_view(span@);
        lemma_del_atoms_skip(del_span_view(span@), *i as int);
    }
    if *i < span.len() {
        let e = clone_del_elem(&span[*i]);
        proof {
            if del_span_wf(del_span_view(span@)) {
                assert(del_elem_wf(del_span_view(span@)[*i as int]));
            }
        }
        *i = *i + 1;
        Some(e)
    } else {
        proof {
            assert(Seq::<DelAtom>::empty() + del_atoms(del_span_view(span@).skip(*i as int))
                =~= del_atoms(del_span_view(span@).skip(*i as int)));
        }
        None
    }
}

pub(crate) fn fetch_add(span: &Vec<AddElement>, i: &mut usize) -> (res: Option<AddElement>)
    requires
        *old(i) <= span@.len(),
    ensures
        *final(i) <= span@.len(),
        res.is_none() == (*old(i) == span@.len()),
        res.is_none() ==> *final(i) == *old(i),
        res.is_some() ==> *final(i) == *old(i) + 1 && res.unwrap()@ == add_span_view(span@)[*old(
            i,
        ) as int],
        opt_add_atoms(res) + add_atoms(add_span_view(span@).skip(*final(i) as int)) == add_atoms(
            add_span_view(span@).skip(*old(i) as int),
        ),
        add_span_wf(add_span_view(span@)) ==> (res matches Some(e) ==> add_elem_wf(e@)),
{
    proof {
        lemma_add_span_view(span@);
        lemma_add_atoms_skip(add_span_view(span@), *i as int);
    }
    if *i < span.len() {
        let e = clone_add_elem(&span[*i]);
        proof {
            if add_span_wf(add_span_view(span@)) {
                assert(add_elem_wf(add_span_view(span@)[*i as int]));
            }
        }
        *i = *i + 1;
        Some(e)
    } else {
        proof {
            assert(Seq::<AddAtom>::empty() + add_atoms(add_span_view(span@).skip(*i as int))
                =~= add_atoms(add_span_view(span@).skip(*i as int)));
        }
        None
    }
}

/// A well-formed deletion element has at least one atom.
pub proof fn lemma_del_elem_atoms_len(x: DelNode)
    requires
        del_elem_wf(x),
    ensures
        del_elem_atoms(x).len() > 0,
{
    match x {
        DelNode::Skip(n) => lemma_repeat(DelAtom::Skip, n),
        DelNode::Text(n) => lemma_repeat(DelAtom::Text, n),
        DelNode::Styles(n, st) => lemma_repeat(DelAtom::Styles(st), n),
        _ => {},
    }
}

/// The first atom of a nonempty run of text.
pub proof fn lemma_text_atoms_first(st: StyleSet, v: Seq<char>, pd: Seq<DocAtom>)
    requires
        v.len() > 0,
    ensures
        (text_atoms(st, v) + pd).len() > 0,
        (text_atoms(st, v) + pd)[0] == DocAtom::Char(st, v[0]),
{
    lemma_text_atoms(st, v);
}

// ---------------------------------------------------------------------------
// Applying a deletion.

/// The state of a walk of a deletion over a document: what is written, the
/// document element at hand and the deletion element at hand (either of them
/// possibly what is left of a counted element or a run of text), and the
/// indices of the elements that follow them.
struct DelWalk {
    res: Vec<DocElement>,
    first: Option<DocElement>,
    d: Option<DelElement>,
    i: usize,
    j: usize,
    fresh: bool,
}

/// What the rest of the deletion makes of the rest of the document.
spec fn del_walk_rest(w: DelWalk, dv: Seq<DocNode>, xv: Seq<DelNode>) -> Option<Seq<DocAtom>> {
    apply_del_atoms(
        opt_doc_atoms(w.first) + doc_atoms(dv.skip(w.i as int)),
        opt_del_atoms(w.d) + del_atoms(xv.skip(w.j as int)),
    )
}

/// The number of deletion atoms left.
spec fn del_walk_measure(w: DelWalk, xv: Seq<DelNode>) -> nat {
    opt_del_atoms(w.d).len() + del_atoms(xv.skip(w.j as int)).len()
}

spec fn del_walk_inv(w: DelWalk, span: Seq<DocElement>, del: Seq<DelElement>, target: Seq<DocAtom>) -> bool {
    let dv = doc_span_view(span);
    let xv = del_span_view(del);
    &&& doc_span_wf(dv)
    &&& del_span_wf(xv)
    &&& w.i <= span.len()
    &&& w.j <= del.len()
    &&& w.first.is_none() ==> w.i == span.len()
    &&& w.d.is_none() ==> w.j == del.len()
    &&& (w.first matches Some(f) ==> doc_elem_wf(f@))
    &&& (w.d matches Some(x) ==> del_elem_wf(x@))
    &&& (w.first matches Some(f) ==> (f is DocGroup ==> 1 <= w.i && f@ == dv[w.i - 1]))
    &&& (w.d matches Some(x) ==> ((x is DelGroup || x is DelWithGroup) ==> 1 <= w.j && x@ == xv[w.j
        - 1]))
    &&& doc_span_wf(doc_span_view(w.res@))
    &&& doc_merged(doc_span_view(w.res@))
    &&& (w.first matches Some(f) ==> 1 <= w.i && doc_like(f@, dv[w.i - 1]))
    &&& doc_deep(dv) ==> doc_deep(doc_span_view(w.res@))
    &&& doc_deep(dv) ==> (w.first matches Some(f) ==> doc_deep_node(f@))
    &&& del_walk_rest(w, dv, xv) is Some
    &&& doc_atoms(doc_span_view(w.res@)) + del_walk_rest(w, dv, xv).unwrap() == target
}

/// One step of a counted deletion element over a run of text.
#[verifier::spinoff_prover]
#[verifier::rlimit(100)]
fn del_walk_text(
    w: &mut DelWalk,
    span: &Vec<DocElement>,
    del: &Vec<DelElement>,
    Ghost(target): Ghost<Seq<DocAtom>>,
)
    requires
        del_walk_inv(*old(w), span@, del@, target),
        old(w).first matches Some(f) && f is DocText,
        old(w).d matches Some(x) && (x is DelSkip || x is DelText || x is DelStyles),
    ensures
        del_walk_inv(*final(w), span@, del@, target),
        del_walk_measure(*final(w), del_span_view(del@)) < del_walk_measure(*old(w), del_span_view(del@)),
{
    let ghost dv = doc_span_view(span@);
    let ghost xv = del_span_view(del@);
    let ghost old_res = doc_atoms(doc_span_view(w.res@));
    let ghost pd = doc_atoms(dv.skip(w.i as int));
    let ghost px = del_atoms(xv.skip(w.j as int));
    let ghost rest = del_walk_rest(*w, dv, xv).unwrap();
    let ghost old_d = w.d;
    let dd = w.d.take().unwrap();
    let ff = w.first.take().unwrap();
    let (st, v) = match ff {
        DocText(st, v) => (st, v),
        DocGroup(..) => {
            proof {
                assert(false);
            }
            return ;
        },
    };
    let len = v.char_len();
    let (c, styles, is_skip, is_text) = match dd {
        DelSkip(c) => (c, StyleSet::new(), true, false),
        DelText(c) => (c, StyleSet::new(), false, true),
        DelStyles(c, s) => (c, s, false, false),
        _ => {
            proof {
                assert(false);
            }
            return ;
        },
    };
    let ghost x = if is_skip {
        DelAtom::Skip
    } else if is_text {
        DelAtom::Text
    } else {
        DelAtom::Styles(styles)
    };
    proof {
        assert(opt_del_atoms(old_d) == repeat(x, c as nat));
    }
    let n = if c < len {
        c
    } else {
        len
    };
    proof {
        lemma_apply_del_text_step(st, v@, x, c as nat, n as nat, pd, px);
        lemma_text_atoms(st, v@.take(n as int));
    }
    let (left, right) = if n < len {
        let (l, r) = v.split_at(n);
        (l, Some(r))
    } else {
        proof {
            assert(v@.take(n as int) =~= v@);
            assert(v@.skip(n as int) =~= Seq::<char>::empty());
            assert(text_atoms(st, v@.skip(n as int)) =~= Seq::<DocAtom>::empty());
            assert(Seq::<DocAtom>::empty() + pd =~= pd);
        }
        (v, None)
    };
    if !is_text {
        let mut out_styles = st;
        if !is_skip {
            out_styles.remove_set(&styles);
        }
        proof {
            lemma_doc_place_wf(doc_span_view(w.res@), DocText(out_styles, left)@);
            lemma_doc_place_atoms(doc_span_view(w.res@), DocText(out_styles, left)@);
            assert(doc_deep_node(DocText(out_styles, left)@));
        }
        w.res.place(&DocText(out_styles, left));
        assert(doc_deep(dv) ==> doc_deep(doc_span_view(w.res@)));
    } else {
        proof {
            assert(old_res + Seq::<DocAtom>::empty() =~= old_res);
        }
    }
    assert(doc_deep(dv) ==> doc_deep(doc_span_view(w.res@)));
    match right {
        Some(r) => {
            w.first = Some(DocText(st, r));
            assert(doc_deep_node(DocText(st, r)@));
            w.fresh = false;
        },
        None => {
            w.first = fetch_doc(span, &mut w.i);
            proof {
                lemma_doc_span_view(span@);
                if w.first.is_some() {
                    lemma_doc_deep_at(dv, w.i - 1);
                }
            }
            w.fresh = true;
        },
    }
    if n < c {
        w.d = Some(
            if is_skip {
                DelSkip(c - n)
            } else if is_text {
                DelText(c - n)
            } else {
                DelStyles(c - n, styles)
            },
        );
    } else {
        proof {
            assert(repeat(x, 0) =~= Seq::<DelAtom>::empty());
            assert(Seq::<DelAtom>::empty() + px =~= px);
        }
        w.d = fetch_del(del, &mut w.j);
    }
    proof {
        lemma_repeat(x, (c - n) as nat);
        lemma_repeat(x, c as nat);
        assert(opt_del_atoms(w.d) + del_atoms(xv.skip(w.j as int)) == repeat(x, (c - n) as nat)
            + px);
        let r2 = del_walk_rest(*w, dv, xv).unwrap();
        let out = del_run_result(st, v@.take(n as int), x);
        assert(rest == out + r2);
        assert(doc_atoms(doc_span_view(w.res@)) == old_res + out);
        assert(old_res + (out + r2) =~= old_res + out + r2);
    }
    assert(doc_deep(dv) ==> (w.first matches Some(f) ==> doc_deep_node(f@)));
    assert(doc_deep(dv) ==> doc_deep(doc_span_view(w.res@)));
}

/// One step of a deletion element over a group.
#[verifier::spinoff_prover]
#[verifier::rlimit(100)]
fn del_walk_group(
    w: &mut DelWalk,
    span: &Vec<DocElement>,
    del: &Vec<DelElement>,
    Ghost(target): Ghost<Seq<DocAtom>>,
)
    requires
        del_walk_inv(*old(w), span@, del@, target),
        old(w).first matches Some(f) && f is DocGroup,
        old(w).d is Some,
    ensures
        del_walk_inv(*final(w), span@, del@, target),
        del_walk_measure(*final(w), del_span_view(del@)) < del_walk_measure(*old(w), del_span_view(del@)),
    decreases span, 0nat,
{
    let ghost dv = doc_span_view(span@);
    let ghost xv = del_span_view(del@);
    let ghost old_res = doc_atoms(doc_span_view(w.res@));
    let ghost pd = doc_atoms(dv.skip(w.i as int));
    let ghost px = del_atoms(xv.skip(w.j as int));
    let ghost rest = del_walk_rest(*w, dv, xv).unwrap();
    let ghost old_d = w.d;
    let ghost old_first = w.first;
    proof {
        lemma_doc_span_view(span@);
        lemma_del_span_view(del@);
    }
    let dd = w.d.take().unwrap();
    let ff = w.first.take().unwrap();
    let ghost g_atom = doc_elem_atoms(ff@)[0];
    proof {
        assert(doc_elem_atoms(ff@) == seq![g_atom]);
    }
    match dd {
        DelSkip(c) => {
            proof {
                lemma_repeat_first(DelAtom::Skip, c as nat);
                lemma_repeat(DelAtom::Skip, c as nat);
                lemma_apply_del_step(g_atom, DelAtom::Skip, pd, repeat(DelAtom::Skip, (c - 1) as nat) + px);
                assert(repeat(DelAtom::Skip, c as nat) + px =~= seq![DelAtom::Skip] + (repeat(DelAtom::Skip, (c - 1) as nat) + px));
                lemma_doc_view_push(w.res@, ff);
                lemma_doc_merged_push_group(doc_span_view(w.res@), ff@);
                if doc_deep(dv) {
                    assert(doc_deep(doc_span_view(w.res@)));
                    assert(doc_deep_node(ff@));
                    lemma_doc_push_deep(doc_span_view(w.res@), ff@);
                    assert(doc_deep(doc_span_view(w.res@).push(ff@)));
                }
                lemma_doc_atoms_push(doc_span_view(w.res@), ff@);
                lemma_doc_wf_push(doc_span_view(w.res@), ff@);
                assert(opt_doc_atoms(old_first) + pd == seq![g_atom] + pd);
            }
            w.res.push(ff);
            assert(doc_deep(dv) ==> doc_deep(doc_span_view(w.res@)));
            w.first = fetch_doc(span, &mut w.i);
            proof {
                lemma_doc_span_view(span@);
                if w.first.is_some() {
                    lemma_doc_deep_at(dv, w.i - 1);
                }
            }
            w.fresh = true;
            if c > 1 {
                w.d = Some(DelSkip(c - 1));
            } else {
                proof {
                    assert(repeat(DelAtom::Skip, 0) =~= Seq::<DelAtom>::empty());
                    assert(Seq::<DelAtom>::empty() + px =~= px);
                }
                w.d = fetch_del(del, &mut w.j);
            }
            proof {
                lemma_repeat(DelAtom::Skip, (c - 1) as nat);
                assert(opt_del_atoms(w.d) + del_atoms(xv.skip(w.j as int)) == repeat(DelAtom::Skip, (c - 1) as nat) + px);
                let r2 = del_walk_rest(*w, dv, xv).unwrap();
                assert(rest == seq![g_atom] + r2);
                assert(old_res + (seq![g_atom] + r2) =~= old_res + seq![g_atom] + r2);
            }
            assert(doc_deep(dv) ==> doc_deep(doc_span_view(w.res@)));
        },
        DelWithGroup(_) | DelGroup(_) => {
            let k = w.i - 1;
            let m = w.j - 1;
            proof {
                assert(doc_elem_wf(dv[k as int]));
                assert(del_elem_wf(xv[m as int]));
                assert(decreases_to!(span => span@[k as int]));
                lemma_apply_del_step(g_atom, del_elem_atoms(dd@)[0], pd, px);
                assert(del_elem_atoms(dd@) == seq![del_elem_atoms(dd@)[0]]);
            }
            match (&span[k], &del[m]) {
                (DocGroup(a0, g0), DelWithGroup(inner0)) => {
                    proof {
                        assert(dv[k as int] == DocNode::Group(*a0, doc_span_view(g0@)));
                        assert(xv[m as int] == DelNode::WithGroup(del_span_view(inner0@)));
                        lemma_doc_group_wf(DocNode::Group(*a0, doc_span_view(g0@)));
                        lemma_del_group_wf(xv[m as int]);
                        lemma_doc_deep_at(dv, k as int);
                    }
                    let r = apply_delete(g0, inner0);
                    proof {
                        lemma_doc_deep_at(doc_span_view(r@), 0);
                    }
                    let elem = DocGroup(a0.clone(), r);
                    proof {
                        lemma_doc_view_push(w.res@, elem);
                        lemma_doc_merged_push_group(doc_span_view(w.res@), elem@);
                        if doc_deep(dv) {
                            lemma_doc_push_deep(doc_span_view(w.res@), elem@);
                        }
                        lemma_doc_atoms_push(doc_span_view(w.res@), elem@);
                        lemma_doc_group_wf(DocNode::Group(*a0, doc_span_view(r@)));
                        lemma_doc_wf_push(doc_span_view(w.res@), elem@);
                        lemma_single_atoms(elem@, DelNode::Skip(1), AddNode::Skip(1));
                    }
                    w.res.push(elem);
                    assert(doc_deep(dv) ==> doc_deep(doc_span_view(w.res@)));
                },
                (DocGroup(a0, g0), DelGroup(inner0)) => {
                    proof {
                        assert(dv[k as int] == DocNode::Group(*a0, doc_span_view(g0@)));
                        assert(xv[m as int] == DelNode::Group(del_span_view(inner0@)));
                        lemma_doc_group_wf(DocNode::Group(*a0, doc_span_view(g0@)));
                        lemma_del_group_wf(xv[m as int]);
                        lemma_doc_deep_at(dv, k as int);
                    }
                    let r = apply_delete(g0, inner0);
                    proof {
                        lemma_doc_deep_at(doc_span_view(r@), 0);
                    }
                    proof {
                        lemma_doc_place_all_wf(doc_span_view(w.res@), doc_span_view(r@));
                        lemma_doc_place_all_atoms(doc_span_view(w.res@), doc_span_view(r@));
                        lemma_doc_span_view(r@);
                        if doc_deep(dv) {
                            assert(doc_deep(doc_span_view(r@)));
                            assert(forall|i: int| 0 <= i < doc_span_view(r@).len() ==> doc_deep_node(#[trigger] doc_span_view(r@)[i]));
                        }
                    }
                    let rs = r.as_slice();
                    assert(rs@ == r@);
                    w.res.place_all(rs);
                    assert(doc_deep(dv) ==> doc_deep(doc_span_view(w.res@)));
                },
                _ => {
                    proof {
                        assert(false);
                    }
                },
            }
            w.first = fetch_doc(span, &mut w.i);
            proof {
                lemma_doc_span_view(span@);
                if w.first.is_some() {
                    lemma_doc_deep_at(dv, w.i - 1);
                }
            }
            w.fresh = true;
            w.d = fetch_del(del, &mut w.j);
            proof {
                let r2 = del_walk_rest(*w, dv, xv).unwrap();
                let out = apply_del_one(g_atom, del_elem_atoms(dd@)[0]).unwrap();
                assert(rest == out + r2);
                assert(doc_atoms(doc_span_view(w.res@)) == old_res + out);
                assert(old_res + (out + r2) =~= old_res + out + r2);
                assert(opt_del_atoms(old_d).len() == 1);
            }
        },
        _ => {
            proof {
                lemma_del_elem_atoms_len(dd@);
                let xa = del_elem_atoms(dd@);
                assert(xa + px =~= seq![xa[0]] + (xa.drop_first() + px));
                lemma_apply_del_step(g_atom, xa[0], pd, xa.drop_first() + px);
                assert(g_atom is Group);
                match dd@ {
                    DelNode::Text(n) => lemma_repeat(DelAtom::Text, n),
                    DelNode::Styles(n, st) => lemma_repeat(DelAtom::Styles(st), n),
                    _ => {},
                }
                assert(opt_doc_atoms(old_first) + pd == seq![g_atom] + pd);
                assert(false);
            }
        },
    }
}

/// Applies a deletion to a document span: what the deletion walks over is
/// kept, deleted or unstyled atom by atom, and what it does not reach is
/// kept as it is.
pub fn apply_delete(spanvec: &Vec<DocElement>, delvec: &Vec<DelElement>) -> (res: Vec<DocElement>)
    requires
        doc_span_wf(doc_span_view(spanvec@)),
        del_span_wf(del_span_view(delvec@)),
        apply_del_atoms(doc_atoms(doc_span_view(spanvec@)), del_atoms(del_span_view(delvec@))) is Some,
    ensures
        doc_span_wf(doc_span_view(res@)),
        apply_del_atoms(doc_atoms(doc_span_view(spanvec@)), del_atoms(del_span_view(delvec@)))
            == Some(doc_atoms(doc_span_view(res@))),
        doc_merged(doc_span_view(spanvec@)) ==> doc_merged(doc_span_view(res@)),
        doc_deep(doc_span_view(spanvec@)) ==> doc_deep(doc_span_view(res@)),
    decreases spanvec, 1nat,
{
    let ghost dv = doc_span_view(spanvec@);
    let ghost xv = del_span_view(delvec@);
    let ghost target = apply_del_atoms(doc_atoms(dv), del_atoms(xv)).unwrap();
    proof {
        lemma_doc_span_view(spanvec@);
        lemma_del_span_view(delvec@);
    }
    if delvec.len() == 0 {
        return clone_doc_span(spanvec);
    }
    let mut w = DelWalk { res: Vec::new(), first: None, d: None, i: 0, j: 0, fresh: true };
    proof {
        assert(dv.skip(0) =~= dv);
        assert(xv.skip(0) =~= xv);
    }
    w.first = fetch_doc(spanvec, &mut w.i);
    proof {
        lemma_doc_deep_at(dv, 0);
        lemma_doc_deep_at(doc_span_view(w.res@), 0);
    }
    w.d = fetch_del(delvec, &mut w.j);
    proof {
        assert(doc_span_view(w.res@) =~= Seq::<DocNode>::empty());
        assert(doc_atoms(doc_span_view(w.res@)) =~= Seq::<DocAtom>::empty());
        assert(Seq::<DocAtom>::empty() + target =~= target);
    }
    while w.d.is_some()
        invariant
            dv == doc_span_view(spanvec@),
            xv == del_span_view(delvec@),
            dv.len() == spanvec@.len(),
            xv.len() == delvec@.len(),
            del_walk_inv(w, spanvec@, delvec@, target),
        decreases del_walk_measure(w, del_span_view(delvec@)),
    {
        let first_kind: u8 = match &w.first {
            Some(DocText(..)) => 1,
            Some(DocGroup(..)) => 2,
            None => 0,
        };
        let counted = match &w.d {
            Some(DelSkip(_)) | Some(DelText(_)) | Some(DelStyles(..)) => true,
            _ => false,
        };
        if first_kind == 2 {
            del_walk_group(&mut w, spanvec, delvec, Ghost(target));
        } else if first_kind == 1 && counted {
            del_walk_text(&mut w, spanvec, delvec, Ghost(target));
        } else {
            proof {
                let pd = doc_atoms(dv.skip(w.i as int));
                let px = del_atoms(xv.skip(w.j as int));
                let x = w.d.unwrap()@;
                lemma_del_elem_atoms_len(x);
                let xa = del_elem_atoms(x);
                assert(xa + px =~= seq![xa[0]] + (xa.drop_first() + px));
                if first_kind == 0 {
                    lemma_doc_atoms_skip(dv, w.i as int);
                    assert(opt_doc_atoms(w.first) + pd =~= Seq::<DocAtom>::empty());
                } else {
                    match w.first.unwrap() {
                        DocText(st, v) => {
                            lemma_text_atoms_first(st, v@, pd);
                            let rd = text_atoms(st, v@) + pd;
                            assert(rd =~= seq![rd[0]] + rd.drop_first());
                            lemma_apply_del_step(rd[0], xa[0], rd.drop_first(), xa.drop_first() + px);
                        },
                        _ => {},
                    }
                }
                assert(false);
            }
            return w.res;
        }
    }
    proof {
        lemma_del_atoms_skip(xv, w.j as int);
        assert(opt_del_atoms(w.d) + del_atoms(xv.skip(w.j as int)) =~= Seq::<DelAtom>::empty());
    }
    let DelWalk { mut res, first, i, fresh, .. } = w;
    let mut i = i;
    match first {
        Some(f) => {
            proof {
                lemma_doc_place_last(doc_span_view(res@), f@);
                lemma_doc_like_joinable(f@, dv[i - 1], f@);
                lemma_doc_place_wf(doc_span_view(res@), f@);
                lemma_doc_place_atoms(doc_span_view(res@), f@);
                assert(doc_atoms(doc_span_view(res@)) + (doc_elem_atoms(f@) + doc_atoms(dv.skip(i as int))) =~= doc_atoms(doc_span_view(res@)) + doc_elem_atoms(f@) + doc_atoms(dv.skip(i as int)));
            }
            res.place(&f);
        },
        None => {
            proof {
                assert(Seq::<DocAtom>::empty() + doc_atoms(dv.skip(i as int)) =~= doc_atoms(dv.skip(i as int)));
            }
        },
    }
    if !fresh && i < spanvec.len() {
        proof {
            lemma_doc_deep_at(dv, i as int);
            assert(doc_elem_wf(dv[i as int]));
            lemma_doc_atoms_skip(dv, i as int);
            lemma_doc_place_wf(doc_span_view(res@), dv[i as int]);
            lemma_doc_place_last(doc_span_view(res@), dv[i as int]);
            lemma_doc_place_atoms(doc_span_view(res@), dv[i as int]);
            assert(doc_atoms(doc_span_view(res@)) + (doc_elem_atoms(dv[i as int]) + doc_atoms(dv.skip(i + 1))) =~= doc_atoms(doc_span_view(res@)) + doc_elem_atoms(dv[i as int]) + doc_atoms(dv.skip(i + 1)));
        }
        res.place(&spanvec[i]);
        i = i + 1;
    }
    while i < spanvec.len()
        invariant
            dv == doc_span_view(spanvec@),
            dv.len() == spanvec@.len(),
            forall|k: int| 0 <= k < spanvec@.len() ==> #[trigger] dv[k] == spanvec@[k]@,
            doc_span_wf(dv),
            i <= spanvec@.len(),
            doc_span_wf(doc_span_view(res@)),
            doc_atoms(doc_span_view(res@)) + doc_atoms(dv.skip(i as int)) == target,
            doc_merged(dv) ==> doc_merged(doc_span_view(res@)),
            doc_deep(dv) ==> doc_deep(doc_span_view(res@)),
            i < dv.len() ==> 1 <= i && doc_span_view(res@).len() > 0 && doc_like(
                doc_span_view(res@).last(),
                dv[i - 1],
            ),
        decreases spanvec@.len() - i,
    {
        let e = clone_doc_elem(&spanvec[i]);
        proof {
            assert(doc_elem_wf(dv[i as int]));
            lemma_doc_atoms_skip(dv, i as int);
            lemma_doc_view_push(res@, e);
            lemma_doc_atoms_push(doc_span_view(res@), e@);
            if doc_merged(dv) {
                lemma_doc_merged_at(dv, i as int);
                lemma_doc_like_joinable(doc_span_view(res@).last(), dv[i - 1], dv[i as int]);
                lemma_doc_merged_push(doc_span_view(res@), e@);
            }
            if doc_deep(dv) {
                lemma_doc_deep_at(dv, i as int);
                lemma_doc_merged_at(dv, i as int);
                lemma_doc_like_joinable(doc_span_view(res@).last(), dv[i - 1], dv[i as int]);
                assert(doc_deep_node(dv[i as int]));
                lemma_doc_push_deep(doc_span_view(res@), e@);
            }
            assert(doc_atoms(doc_span_view(res@)) + (doc_elem_atoms(e@) + doc_atoms(dv.skip(i + 1))) =~= doc_atoms(doc_span_view(res@)) + doc_elem_atoms(e@) + doc_atoms(dv.skip(i + 1)));
        }
        res.push(e);
        i = i + 1;
    }
    proof {
        lemma_doc_atoms_skip(dv, i as int);
        assert(doc_atoms(doc_span_view(res@)) + Seq::<DocAtom>::empty() =~= doc_atoms(doc_span_view(res@)));
    }
    res
}

// ---------------------------------------------------------------------------
// Applying an insertion.

/// The state of a walk of an insertion over a document: what is written,
/// the document still to walk (the element at hand, then the elements of
/// `doc` from `i`), the insertion element at hand and the index of the
/// insertion elements that follow it.
struct AddWalk {
    res: Vec<DocElement>,
    doc: Vec<DocElement>,
    first: Option<DocElement>,
    d: Option<AddElement>,
    i: usize,
    j: usize,
}

/// The document atoms still to walk.
spec fn add_walk_rd(w: AddWalk) -> Seq<DocAtom> {
    opt_doc_atoms(w.first) + doc_atoms(doc_span_view(w.doc@).skip(w.i as int))
}

/// The insertion atoms still to walk.
spec fn add_walk_ry(w: AddWalk, yv: Seq<AddNode>) -> Seq<AddAtom> {
    opt_add_atoms(w.d) + add_atoms(yv.skip(w.j as int))
}

spec fn add_walk_inv(w: AddWalk, add: Seq<AddElement>, dd: Seq<DocAtom>, target: Seq<DocAtom>) -> bool {
    let yv = add_span_view(add);
    let rd = add_walk_rd(w);
    let ry = add_walk_ry(w, yv);
    &&& doc_span_wf(doc_span_view(w.doc@))
    &&& add_span_wf(yv)
    &&& w.i <= w.doc@.len()
    &&& w.j <= add.len()
    &&& w.first.is_none() ==> w.i == w.doc@.len()
    &&& w.d.is_none() ==> w.j == add.len()
    &&& (w.first matches Some(f) ==> doc_elem_wf(f@))
    &&& (w.d matches Some(x) ==> add_elem_wf(x@))
    &&& (w.d matches Some(x) ==> ((x is AddGroup || x is AddWithGroup) ==> 1 <= w.j && x@ == yv[w.j
        - 1]))
    &&& doc_span_wf(doc_span_view(w.res@))
    &&& doc_merged(doc_span_view(w.res@))
    &&& rd.len() <= dd.len()
    &&& rd == dd.skip(dd.len() - rd.len())
    &&& (dd.len() - rd.len()) + add_pre(ry) == add_pre(add_atoms(yv))
    &&& apply_add_atoms(rd, ry) is Some
    &&& doc_atoms(doc_span_view(w.res@)) + apply_add_atoms(rd, ry).unwrap() == target
}

/// A walk over a document merged at every level: what is written is so,
/// and the element at hand is of the kind of the one it came from.
spec fn add_walk_deep(w: AddWalk) -> bool {
    &&& doc_deep(doc_span_view(w.doc@))
    &&& doc_deep(doc_span_view(w.res@))
    &&& (w.first matches Some(f) ==> doc_deep_node(f@) && 1 <= w.i && w.i <= w.doc@.len() && doc_like(
        f@,
        doc_span_view(w.doc@)[w.i - 1],
    ))
}

/// One step of a counted insertion element over a run of text.
#[verifier::spinoff_prover]
#[verifier::rlimit(100)]
fn add_walk_text(
    w: &mut AddWalk,
    add: &Vec<AddElement>,
    Ghost(dd): Ghost<Seq<DocAtom>>,
    Ghost(target): Ghost<Seq<DocAtom>>,
    Ghost(deep): Ghost<bool>,
)
    requires
        add_walk_inv(*old(w), add@, dd, target),
        deep ==> add_walk_deep(*old(w)),
        old(w).first matches Some(f) && f is DocText,
        old(w).d matches Some(x) && (x is AddSkip || x is AddStyles),
    ensures
        add_walk_inv(*final(w), add@, dd, target),
        deep ==> add_walk_deep(*final(w)),
        add_walk_ry(*final(w), add_span_view(add@)).len() < add_walk_ry(*old(w), add_span_view(add@)).len(),
{
    let ghost yv = add_span_view(add@);
    let ghost old_res = doc_atoms(doc_span_view(w.res@));
    let ghost pd = doc_atoms(doc_span_view(w.doc@).skip(w.i as int));
    let ghost py = add_atoms(yv.skip(w.j as int));
    let ghost rest = apply_add_atoms(add_walk_rd(*w), add_walk_ry(*w, yv)).unwrap();
    let ghost old_d = w.d;
    let ghost old_rd = add_walk_rd(*w);
    let dx = w.d.take().unwrap();
    let ff = w.first.take().unwrap();
    let (st, v) = match ff {
        DocText(st, v) => (st, v),
        DocGroup(..) => {
            proof {
                assert(false);
            }
            return ;
        },
    };
    let len = v.char_len();
    let (c, styles, is_skip) = match dx {
        AddSkip(c) => (c, StyleSet::new(), true),
        AddStyles(c, s) => (c, s, false),
        _ => {
            proof {
                assert(false);
            }
            return ;
        },
    };
    let ghost x = if is_skip {
        AddAtom::Skip
    } else {
        AddAtom::Styles(styles)
    };
    proof {
        assert(opt_add_atoms(old_d) == repeat(x, c as nat));
    }
    let n = if c < len {
        c
    } else {
        len
    };
    proof {
        lemma_apply_add_text_step(st, v@, x, c as nat, n as nat, pd, py);
        lemma_text_atoms(st, v@.take(n as int));
        lemma_text_atoms(st, v@);
        lemma_text_atoms(st, v@.skip(n as int));
    }
    let (left, right) = if n < len {
        let (l, r) = v.split_at(n);
        (l, Some(r))
    } else {
        proof {
            assert(v@.take(n as int) =~= v@);
            assert(v@.skip(n as int) =~= Seq::<char>::empty());
            assert(text_atoms(st, v@.skip(n as int)) =~= Seq::<DocAtom>::empty());
            assert(Seq::<DocAtom>::empty() + pd =~= pd);
        }
        (v, None)
    };
    let mut out_styles = st;
    if !is_skip {
        out_styles.extend(&styles);
    }
    proof {
        lemma_doc_place_wf(doc_span_view(w.res@), DocText(out_styles, left)@);
        lemma_doc_place_atoms(doc_span_view(w.res@), DocText(out_styles, left)@);
    }
    w.res.place(&DocText(out_styles, left));
    match right {
        Some(r) => {
            w.first = Some(DocText(st, r));
        },
        None => {
            w.first = fetch_doc(&w.doc, &mut w.i);
            proof {
                lemma_doc_span_view(w.doc@);
                if w.first.is_some() {
                    lemma_doc_deep_at(doc_span_view(w.doc@), w.i - 1);
                }
            }
        },
    }
    if n < c {
        w.d = Some(
            if is_skip {
                AddSkip(c - n)
            } else {
                AddStyles(c - n, styles)
            },
        );
    } else {
        proof {
            assert(repeat(x, 0) =~= Seq::<AddAtom>::empty());
            assert(Seq::<AddAtom>::empty() + py =~= py);
        }
        w.d = fetch_add(add, &mut w.j);
    }
    proof {
        lemma_repeat(x, (c - n) as nat);
        lemma_repeat(x, c as nat);
        assert(add_walk_ry(*w, yv) == repeat(x, (c - n) as nat) + py);
        assert(add_walk_rd(*w) == text_atoms(st, v@.skip(n as int)) + pd);
        assert(old_rd == text_atoms(st, v@) + pd);
        assert(add_walk_rd(*w) =~= old_rd.skip(n as int));
        assert(add_walk_rd(*w) =~= dd.skip(dd.len() - add_walk_rd(*w).len()));
        let r2 = apply_add_atoms(add_walk_rd(*w), add_walk_ry(*w, yv)).unwrap();
        let out = add_run_result(st, v@.take(n as int), x);
        assert(rest == out + r2);
        assert(doc_atoms(doc_span_view(w.res@)) == old_res + out);
        assert(old_res + (out + r2) =~= old_res + out + r2);
    }
}

/// An insertion of text.
#[verifier::spinoff_prover]
fn add_walk_insert(
    w: &mut AddWalk,
    add: &Vec<AddElement>,
    Ghost(dd): Ghost<Seq<DocAtom>>,
    Ghost(target): Ghost<Seq<DocAtom>>,
    Ghost(deep): Ghost<bool>,
)
    requires
        add_walk_inv(*old(w), add@, dd, target),
        deep ==> add_walk_deep(*old(w)),
        old(w).d matches Some(x) && x is AddText,
    ensures
        add_walk_inv(*final(w), add@, dd, target),
        deep ==> add_walk_deep(*final(w)),
        add_walk_ry(*final(w), add_span_view(add@)).len() < add_walk_ry(*old(w), add_span_view(add@)).len(),
{
    let ghost yv = add_span_view(add@);
    let ghost old_res = doc_atoms(doc_span_view(w.res@));
    let ghost rd = add_walk_rd(*w);
    let ghost py = add_atoms(yv.skip(w.j as int));
    let ghost rest = apply_add_atoms(add_walk_rd(*w), add_walk_ry(*w, yv)).unwrap();
    let dx = w.d.take().unwrap();
    match dx {
        AddText(st, v) => {
            proof {
                lemma_apply_add_text_insert(st, v@, rd, py);
                lemma_text_atoms(st, v@);
                lemma_doc_place_wf(doc_span_view(w.res@), DocText(st, v)@);
                lemma_doc_place_atoms(doc_span_view(w.res@), DocText(st, v)@);
            }
            w.res.place(&DocText(st, v));
            w.d = fetch_add(add, &mut w.j);
            proof {
                assert(add_walk_ry(*w, yv) == py);
                let r2 = apply_add_atoms(add_walk_rd(*w), add_walk_ry(*w, yv)).unwrap();
                assert(rest == text_atoms(st, v@) + r2);
                assert(old_res + (text_atoms(st, v@) + r2) =~= old_res + text_atoms(st, v@) + r2);
            }
        },
        _ => {
            proof {
                assert(false);
            }
        },
    }
}

/// One step of an insertion element that walks over a group.
#[verifier::spinoff_prover]
#[verifier::rlimit(100)]
fn add_walk_group(
    w: &mut AddWalk,
    add: &Vec<AddElement>,
    Ghost(dd): Ghost<Seq<DocAtom>>,
    Ghost(target): Ghost<Seq<DocAtom>>,
    Ghost(deep): Ghost<bool>,
)
    requires
        add_walk_inv(*old(w), add@, dd, target),
        deep ==> add_walk_deep(*old(w)),
        old(w).first matches Some(f) && f is DocGroup,
        old(w).d matches Some(x) && (x is AddSkip || x is AddStyles || x is AddWithGroup),
    ensures
        add_walk_inv(*final(w), add@, dd, target),
        deep ==> add_walk_deep(*final(w)),
        add_walk_ry(*final(w), add_span_view(add@)).len() < add_walk_ry(*old(w), add_span_view(add@)).len(),
    decreases add, 1nat,
{
    let ghost yv = add_span_view(add@);
    let ghost old_res = doc_atoms(doc_span_view(w.res@));
    let ghost pd = doc_atoms(doc_span_view(w.doc@).skip(w.i as int));
    let ghost py = add_atoms(yv.skip(w.j as int));
    let ghost rest = apply_add_atoms(add_walk_rd(*w), add_walk_ry(*w, yv)).unwrap();
    let ghost old_d = w.d;
    let ghost old_first = w.first;
    let ghost old_rd = add_walk_rd(*w);
    proof {
        lemma_add_span_view(add@);
    }
    let dx = w.d.take().unwrap();
    let ff = w.first.take().unwrap();
    let ghost g_atom = doc_elem_atoms(ff@)[0];
    proof {
        assert(doc_elem_atoms(ff@) == seq![g_atom]);
        assert(g_atom is Group);
        assert(old_rd == seq![g_atom] + pd);
    }
    match dx {
        AddSkip(c) => {
            proof {
                lemma_repeat_first(AddAtom::Skip, c as nat);
                lemma_repeat(AddAtom::Skip, c as nat);
                lemma_apply_add_step(g_atom, AddAtom::Skip, pd, repeat(AddAtom::Skip, (c - 1) as nat) + py);
                assert(repeat(AddAtom::Skip, c as nat) + py =~= seq![AddAtom::Skip] + (repeat(AddAtom::Skip, (c - 1) as nat) + py));
                lemma_doc_view_push(w.res@, ff);
                lemma_doc_merged_push_group(doc_span_view(w.res@), ff@);
                if deep {
                    lemma_doc_push_deep(doc_span_view(w.res@), ff@);
                }
                lemma_doc_atoms_push(doc_span_view(w.res@), ff@);
                lemma_doc_wf_push(doc_span_view(w.res@), ff@);
            }
            w.res.push(ff);
            w.first = fetch_doc(&w.doc, &mut w.i);
            proof {
                lemma_doc_span_view(w.doc@);
                if w.first.is_some() {
                    lemma_doc_deep_at(doc_span_view(w.doc@), w.i - 1);
                }
            }
            if c > 1 {
                w.d = Some(AddSkip(c - 1));
            } else {
                proof {
                    assert(repeat(AddAtom::Skip, 0) =~= Seq::<AddAtom>::empty());
                    assert(Seq::<AddAtom>::empty() + py =~= py);
                }
                w.d = fetch_add(add, &mut w.j);
            }
            proof {
                lemma_repeat(AddAtom::Skip, (c - 1) as nat);
                assert(add_walk_ry(*w, yv) == repeat(AddAtom::Skip, (c - 1) as nat) + py);
                assert(add_walk_rd(*w) == pd);
                assert(pd =~= old_rd.skip(1));
                assert(add_walk_rd(*w) =~= dd.skip(dd.len() - add_walk_rd(*w).len()));
                let r2 = apply_add_atoms(add_walk_rd(*w), add_walk_ry(*w, yv)).unwrap();
                assert(rest == seq![g_atom] + r2);
                assert(old_res + (seq![g_atom] + r2) =~= old_res + seq![g_atom] + r2);
            }
        },
        AddWithGroup(_) => {
            let m = w.j - 1;
            let (a0, g0) = match ff {
                DocGroup(a0, g0) => (a0, g0),
                DocText(..) => {
                    proof {
                        assert(false);
                    }
                    return ;
                },
            };
            proof {
                assert(add_elem_wf(yv[m as int]));
                assert(decreases_to!(add => add@[m as int]));
                lemma_apply_add_step(g_atom, add_elem_atoms(dx@)[0], pd, py);
                assert(add_elem_atoms(dx@) == seq![add_elem_atoms(dx@)[0]]);
            }
            match &add[m] {
                AddWithGroup(inner0) => {
                    proof {
                        assert(yv[m as int] == AddNode::WithGroup(add_span_view(inner0@)));
                        lemma_doc_group_wf(DocNode::Group(a0, doc_span_view(g0@)));
                        lemma_add_group_wf(yv[m as int]);
                    }
                    let r = apply_add(&g0, inner0);
                    let elem = DocGroup(a0, r);
                    proof {
                        lemma_doc_view_push(w.res@, elem);
                        lemma_doc_merged_push_group(doc_span_view(w.res@), elem@);
                        if deep {
                            lemma_doc_push_deep(doc_span_view(w.res@), elem@);
                        }
                        lemma_doc_atoms_push(doc_span_view(w.res@), elem@);
                        lemma_doc_group_wf(DocNode::Group(a0, doc_span_view(r@)));
                        lemma_doc_wf_push(doc_span_view(w.res@), elem@);
                    }
                    w.res.push(elem);
                },
                _ => {
                    proof {
                        assert(false);
                    }
                },
            }
            w.first = fetch_doc(&w.doc, &mut w.i);
            proof {
                lemma_doc_span_view(w.doc@);
                if w.first.is_some() {
                    lemma_doc_deep_at(doc_span_view(w.doc@), w.i - 1);
                }
            }
            w.d = fetch_add(add, &mut w.j);
            proof {
                assert(add_walk_ry(*w, yv) == py);
                assert(add_walk_rd(*w) == pd);
                assert(pd =~= old_rd.skip(1));
                assert(add_walk_rd(*w) =~= dd.skip(dd.len() - add_walk_rd(*w).len()));
                let r2 = apply_add_atoms(add_walk_rd(*w), add_walk_ry(*w, yv)).unwrap();
                let out = apply_add_one(g_atom, add_elem_atoms(dx@)[0]).unwrap();
                assert(rest == out + r2);
                assert(doc_atoms(doc_span_view(w.res@)) == old_res + out);
                assert(old_res + (out + r2) =~= old_res + out + r2);
            }
        },
        _ => {
            proof {
                let xa = add_elem_atoms(dx@);
                match dx@ {
                    AddNode::Styles(n, st) => lemma_repeat(AddAtom::Styles(st), n),
                    _ => {},
                }
                assert(xa + py =~= seq![xa[0]] + (xa.drop_first() + py));
                lemma_apply_add_step(g_atom, xa[0], pd, xa.drop_first() + py);
                assert(false);
            }
        },
    }
}

/// An inserted group: its inner insertion walks the rest of the document,
/// and what it walks over goes inside the group.
#[verifier::spinoff_prover]
#[verifier::rlimit(100)]
fn add_walk_new_group(
    w: &mut AddWalk,
    add: &Vec<AddElement>,
    Ghost(dd): Ghost<Seq<DocAtom>>,
    Ghost(target): Ghost<Seq<DocAtom>>,
    Ghost(deep): Ghost<bool>,
)
    requires
        add_walk_inv(*old(w), add@, dd, target),
        deep ==> add_walk_deep(*old(w)),
        old(w).d matches Some(x) && x is AddGroup,
    ensures
        add_walk_inv(*final(w), add@, dd, target),
        deep ==> add_walk_deep(*final(w)),
        add_walk_ry(*final(w), add_span_view(add@)).len() < add_walk_ry(*old(w), add_span_view(add@)).len(),
    decreases add, 1nat,
{
    let ghost yv = add_span_view(add@);
    let ghost old_res = doc_atoms(doc_span_view(w.res@));
    let ghost rd = add_walk_rd(*w);
    let ghost py = add_atoms(yv.skip(w.j as int));
    let ghost rest = apply_add_atoms(add_walk_rd(*w), add_walk_ry(*w, yv)).unwrap();
    let ghost dv = doc_span_view(w.doc@);
    proof {
        lemma_add_span_view(add@);
        lemma_doc_span_view(w.doc@);
    }
    let m = w.j - 1;
    proof {
        assert(add_elem_wf(yv[m as int]));
        assert(decreases_to!(add => add@[m as int]));
    }
    let mut subdoc: Vec<DocElement> = Vec::new();
    proof {
        assert(doc_span_view(subdoc@) =~= Seq::<DocNode>::empty());
    }
    proof {
        lemma_doc_deep_at(doc_span_view(subdoc@), 0);
    }
    let ghost i0 = w.i;
    let ghost first0 = w.first;
    match w.first.take() {
        Some(f) => {
            proof {
                if deep {
                    lemma_doc_push_deep(doc_span_view(subdoc@), f@);
                }
                lemma_doc_view_push(subdoc@, f);
                lemma_doc_atoms_push(doc_span_view(subdoc@), f@);
                lemma_doc_wf_push(doc_span_view(subdoc@), f@);
            }
            subdoc.push(f);
        },
        None => {},
    }
    let mut k = w.i;
    while k < w.doc.len()
        invariant
            dv == doc_span_view(w.doc@),
            dv.len() == w.doc@.len(),
            forall|q: int| 0 <= q < w.doc@.len() ==> #[trigger] dv[q] == w.doc@[q]@,
            doc_span_wf(dv),
            w.i <= k <= w.doc@.len(),
            doc_span_wf(doc_span_view(subdoc@)),
            doc_atoms(doc_span_view(subdoc@)) + doc_atoms(dv.skip(k as int)) == rd,
            deep ==> doc_deep(dv) && doc_deep(doc_span_view(subdoc@)),
            deep && k < dv.len() ==> (doc_span_view(subdoc@).len() == 0 || (1 <= k && doc_like(
                doc_span_view(subdoc@).last(),
                dv[k - 1],
            ))),
        decreases w.doc@.len() - k,
    {
        let e = clone_doc_elem(&w.doc[k]);
        proof {
            assert(doc_elem_wf(dv[k as int]));
            lemma_doc_atoms_skip(dv, k as int);
            lemma_doc_view_push(subdoc@, e);
            lemma_doc_atoms_push(doc_span_view(subdoc@), e@);
            if deep {
                lemma_doc_deep_at(dv, k as int);
                if doc_span_view(subdoc@).len() > 0 {
                    lemma_doc_merged_at(dv, k as int);
                    lemma_doc_like_joinable(doc_span_view(subdoc@).last(), dv[k - 1], dv[k as int]);
                }
                lemma_doc_push_deep(doc_span_view(subdoc@), e@);
            }
            lemma_doc_wf_push(doc_span_view(subdoc@), e@);
            assert(doc_atoms(doc_span_view(subdoc@)) + (doc_elem_atoms(e@) + doc_atoms(dv.skip(k + 1))) =~= doc_atoms(doc_span_view(subdoc@)) + doc_elem_atoms(e@) + doc_atoms(dv.skip(k + 1)));
        }
        subdoc.push(e);
        k = k + 1;
    }
    proof {
        lemma_doc_atoms_skip(dv, k as int);
        assert(doc_atoms(doc_span_view(subdoc@)) + Seq::<DocAtom>::empty() =~= doc_atoms(doc_span_view(subdoc@)));
    }
    match &add[m] {
        AddGroup(attrs0, inner0) => {
            let ghost ia = add_atoms(add_span_view(inner0@));
            let ghost n = add_pre(ia);
            proof {
                assert(yv[m as int] == AddNode::Group(*attrs0, add_span_view(inner0@)));
                lemma_add_group_wf(yv[m as int]);
                assert(add_walk_ry(*old(w), yv) == seq![AddAtom::Group(*attrs0, ia)] + py);
                lemma_apply_add_group(*attrs0, ia, rd, py);
                assert(n <= rd.len());
                assert(rd =~= rd.take(n as int) + rd.skip(n as int));
                assert(ia =~= ia + Seq::<AddAtom>::empty());
                lemma_apply_add_split(rd.take(n as int), rd.skip(n as int), ia, Seq::<AddAtom>::empty());
            }
            let (g, remaining) = apply_add_inner(&subdoc, inner0);
            let elem = DocGroup(attrs0.clone(), g);
            proof {
                lemma_doc_group_wf(DocNode::Group(*attrs0, doc_span_view(g@)));
                lemma_doc_place_wf(doc_span_view(w.res@), elem@);
                lemma_doc_place_atoms(doc_span_view(w.res@), elem@);
                lemma_single_atoms(elem@, DelNode::Skip(1), AddNode::Skip(1));
            }
            proof {
                if deep {
                    assert(doc_deep_node(elem@));
                }
            }
            w.res.place(&elem);
            w.doc = remaining;
            w.i = 0;
            proof {
                assert(doc_span_view(w.doc@).skip(0) =~= doc_span_view(w.doc@));
            }
            w.first = fetch_doc(&w.doc, &mut w.i);
            proof {
                lemma_doc_span_view(w.doc@);
                if w.first.is_some() {
                    lemma_doc_deep_at(doc_span_view(w.doc@), w.i - 1);
                }
            }
            w.d = fetch_add(add, &mut w.j);
            proof {
                assert(add_walk_ry(*w, yv) == py);
                assert(add_walk_rd(*w) == rd.skip(n as int));
                assert(add_walk_rd(*w) =~= dd.skip(dd.len() - add_walk_rd(*w).len()));
                let gg = apply_add_atoms(rd.take(n as int), ia).unwrap();
                let r2 = apply_add_atoms(add_walk_rd(*w), add_walk_ry(*w, yv)).unwrap();
                assert(rest == seq![DocAtom::Group(*attrs0, gg)] + r2);
                assert(doc_atoms(doc_span_view(w.res@)) == old_res + seq![DocAtom::Group(*attrs0, gg)]);
                assert(old_res + (seq![DocAtom::Group(*attrs0, gg)] + r2) =~= old_res + seq![DocAtom::Group(*attrs0, gg)] + r2);
            }
        },
        _ => {
            proof {
                assert(false);
            }
        },
    }
}

/// Two sequences with the same suffix after them are equal.
pub(crate) proof fn lemma_cancel_suffix<A>(a: Seq<A>, b: Seq<A>, c: Seq<A>)
    requires
        a + c == b + c,
    ensures
        a == b,
{
    assert((a + c).len() == (b + c).len());
    assert((a + c).len() == a.len() + c.len());
    assert((b + c).len() == b.len() + c.len());
    assert(a.len() == b.len());
    assert(a =~= (a + c).take(a.len() as int));
    assert(b =~= (b + c).take(b.len() as int));
}

/// Applies an insertion to the start of a document span: the result of
/// what the insertion walks over, and the elements that it does not reach.
#[verifier::spinoff_prover]
#[verifier::rlimit(100)]
fn apply_add_inner(doc: &Vec<DocElement>, add: &Vec<AddElement>) -> (res: (Vec<DocElement>, Vec<DocElement>))
    requires
        doc_span_wf(doc_span_view(doc@)),
        add_span_wf(add_span_view(add@)),
        apply_add_atoms(doc_atoms(doc_span_view(doc@)), add_atoms(add_span_view(add@))) is Some,
    ensures
        doc_span_wf(doc_span_view(res.0@)),
        doc_span_wf(doc_span_view(res.1@)),
        doc_merged(doc_span_view(res.0@)),
        doc_deep(doc_span_view(doc@)) ==> doc_deep(doc_span_view(res.0@)) && doc_deep(doc_span_view(res.1@)),
        add_pre(add_atoms(add_span_view(add@))) <= doc_atoms(doc_span_view(doc@)).len(),
        Some(doc_atoms(doc_span_view(res.0@))) == apply_add_atoms(
            doc_atoms(doc_span_view(doc@)).take(add_pre(add_atoms(add_span_view(add@))) as int),
            add_atoms(add_span_view(add@)),
        ),
        doc_atoms(doc_span_view(res.1@)) == doc_atoms(doc_span_view(doc@)).skip(
            add_pre(add_atoms(add_span_view(add@))) as int,
        ),
    decreases add, 2nat,
{
    let ghost dd = doc_atoms(doc_span_view(doc@));
    let ghost yv = add_span_view(add@);
    let ghost ya = add_atoms(yv);
    let ghost target = apply_add_atoms(dd, ya).unwrap();
    let ghost deep = doc_deep(doc_span_view(doc@));
    proof {
        lemma_add_span_view(add@);
    }
    if add.len() == 0 {
        proof {
            assert(ya =~= Seq::<AddAtom>::empty());
            assert(dd.take(0) =~= Seq::<DocAtom>::empty());
            assert(dd.skip(0) =~= dd);
        }
        let empty: Vec<DocElement> = Vec::new();
        proof {
            assert(doc_span_view(empty@) =~= Seq::<DocNode>::empty());
            assert(doc_merged(doc_span_view(empty@)));
            lemma_doc_deep_at(doc_span_view(empty@), 0);
            assert(doc_atoms(doc_span_view(empty@)) =~= Seq::<DocAtom>::empty());
        }
        return (empty, clone_doc_span(doc));
    }
    let mut w = AddWalk { res: Vec::new(), doc: clone_doc_span(doc), first: None, d: None, i: 0, j: 0 };
    proof {
        assert(doc_span_view(w.doc@).skip(0) =~= doc_span_view(w.doc@));
        assert(yv.skip(0) =~= yv);
    }
    w.first = fetch_doc(&w.doc, &mut w.i);
    w.d = fetch_add(add, &mut w.j);
    proof {
        lemma_doc_span_view(w.doc@);
        lemma_doc_deep_at(doc_span_view(w.doc@), 0);
        lemma_doc_deep_at(doc_span_view(w.res@), 0);
        assert(doc_span_view(w.res@) =~= Seq::<DocNode>::empty());
    }
    proof {
        assert(doc_span_view(w.res@) =~= Seq::<DocNode>::empty());
        assert(doc_atoms(doc_span_view(w.res@)) =~= Seq::<DocAtom>::empty());
        assert(Seq::<DocAtom>::empty() + target =~= target);
        assert(dd.skip(0) =~= dd);
    }
    while w.d.is_some()
        invariant
            yv == add_span_view(add@),
            ya == add_atoms(yv),
            target == apply_add_atoms(dd, ya).unwrap(),
            add_walk_inv(w, add@, dd, target),
            deep ==> add_walk_deep(w),
        decreases add_walk_ry(w, yv).len(),
    {
        let first_kind: u8 = match &w.first {
            Some(DocText(..)) => 1,
            Some(DocGroup(..)) => 2,
            None => 0,
        };
        let add_kind: u8 = match &w.d {
            Some(AddText(..)) => 1,
            Some(AddGroup(..)) => 2,
            Some(AddSkip(_)) | Some(AddStyles(..)) => 3,
            _ => 4,
        };
        if add_kind == 1 {
            add_walk_insert(&mut w, add, Ghost(dd), Ghost(target), Ghost(deep));
        } else if add_kind == 2 {
            add_walk_new_group(&mut w, add, Ghost(dd), Ghost(target), Ghost(deep));
        } else if first_kind == 2 {
            add_walk_group(&mut w, add, Ghost(dd), Ghost(target), Ghost(deep));
        } else if first_kind == 1 && add_kind == 3 {
            add_walk_text(&mut w, add, Ghost(dd), Ghost(target), Ghost(deep));
        } else {
            proof {
                let pd = doc_atoms(doc_span_view(w.doc@).skip(w.i as int));
                let py = add_atoms(yv.skip(w.j as int));
                let x = w.d.unwrap()@;
                let xa = add_elem_atoms(x);
                match x {
                    AddNode::Skip(n) => lemma_repeat(AddAtom::Skip, n),
                    AddNode::Styles(n, st) => lemma_repeat(AddAtom::Styles(st), n),
                    _ => {},
                }
                assert(xa + py =~= seq![xa[0]] + (xa.drop_first() + py));
                if first_kind == 0 {
                    lemma_doc_span_view(w.doc@);
                    lemma_doc_atoms_skip(doc_span_view(w.doc@), w.i as int);
                    assert(add_walk_rd(w) =~= Seq::<DocAtom>::empty());
                    assert((seq![xa[0]] + (xa.drop_first() + py))[0] == xa[0]);
                } else {
                    match w.first.unwrap() {
                        DocText(st, v) => {
                            lemma_text_atoms_first(st, v@, pd);
                            let rd = text_atoms(st, v@) + pd;
                            assert(rd =~= seq![rd[0]] + rd.drop_first());
                            lemma_apply_add_step(rd[0], xa[0], rd.drop_first(), xa.drop_first() + py);
                        },
                        _ => {},
                    }
                }
                assert(false);
            }
            return (w.res, w.doc);
        }
    }
    proof {
        lemma_add_atoms_skip(yv, w.j as int);
        assert(add_walk_ry(w, yv) =~= Seq::<AddAtom>::empty());
    }
    let AddWalk { res, doc: rest_doc, first, i, .. } = w;
    let ghost rd = opt_doc_atoms(first) + doc_atoms(doc_span_view(rest_doc@).skip(i as int));
    let ghost rv = doc_span_view(rest_doc@);
    proof {
        lemma_doc_span_view(rest_doc@);
    }
    let mut remaining: Vec<DocElement> = Vec::new();
    proof {
        assert(doc_span_view(remaining@) =~= Seq::<DocNode>::empty());
        assert(doc_atoms(doc_span_view(remaining@)) =~= Seq::<DocAtom>::empty());
    }
    proof {
        lemma_doc_deep_at(doc_span_view(remaining@), 0);
    }
    match first {
        Some(f) => {
            proof {
                if deep {
                    lemma_doc_push_deep(doc_span_view(remaining@), f@);
                }
                lemma_doc_view_push(remaining@, f);
                lemma_doc_atoms_push(doc_span_view(remaining@), f@);
                lemma_doc_wf_push(doc_span_view(remaining@), f@);
            }
            remaining.push(f);
        },
        None => {},
    }
    let mut k = i;
    while k < rest_doc.len()
        invariant
            rv == doc_span_view(rest_doc@),
            rv.len() == rest_doc@.len(),
            forall|q: int| 0 <= q < rest_doc@.len() ==> #[trigger] rv[q] == rest_doc@[q]@,
            doc_span_wf(rv),
            i <= k <= rest_doc@.len(),
            doc_span_wf(doc_span_view(remaining@)),
            doc_atoms(doc_span_view(remaining@)) + doc_atoms(rv.skip(k as int)) == rd,
            deep ==> doc_deep(rv) && doc_deep(doc_span_view(remaining@)),
            deep && k < rv.len() ==> (doc_span_view(remaining@).len() == 0 || (1 <= k && doc_like(
                doc_span_view(remaining@).last(),
                rv[k - 1],
            ))),
        decreases rest_doc@.len() - k,
    {
        let e = clone_doc_elem(&rest_doc[k]);
        proof {
            assert(doc_elem_wf(rv[k as int]));
            lemma_doc_atoms_skip(rv, k as int);
            lemma_doc_view_push(remaining@, e);
            lemma_doc_atoms_push(doc_span_view(remaining@), e@);
            if deep {
                lemma_doc_deep_at(rv, k as int);
                if doc_span_view(remaining@).len() > 0 {
                    lemma_doc_merged_at(rv, k as int);
                    lemma_doc_like_joinable(doc_span_view(remaining@).last(), rv[k - 1], rv[k as int]);
                }
                lemma_doc_push_deep(doc_span_view(remaining@), e@);
            }
            lemma_doc_wf_push(doc_span_view(remaining@), e@);
            assert(doc_atoms(doc_span_view(remaining@)) + (doc_elem_atoms(e@) + doc_atoms(rv.skip(k + 1))) =~= doc_atoms(doc_span_view(remaining@)) + doc_elem_atoms(e@) + doc_atoms(rv.skip(k + 1)));
        }
        remaining.push(e);
        k = k + 1;
    }
    proof {
        lemma_doc_atoms_skip(rv, k as int);
        assert(doc_atoms(doc_span_view(remaining@)) + Seq::<DocAtom>::empty() =~= doc_atoms(doc_span_view(remaining@)));
        let n = add_pre(ya);
        assert(rd =~= dd.skip(n as int));
        assert(dd =~= dd.take(n as int) + dd.skip(n as int));
        assert(ya =~= ya + Seq::<AddAtom>::empty());
        lemma_apply_add_split(dd.take(n as int), dd.skip(n as int), ya, Seq::<AddAtom>::empty());
        let a = apply_add_atoms(dd.take(n as int), ya).unwrap();
        assert(target == a + dd.skip(n as int));
        lemma_cancel_suffix(doc_atoms(doc_span_view(res@)), a, dd.skip(n as int));
    }
    (res, remaining)
}

/// Applies an insertion to a document span: text and groups are inserted,
/// what the insertion walks over is kept or styled atom by atom, and what it
/// does not reach is kept as it is.
pub fn apply_add(spanvec: &Vec<DocElement>, add: &Vec<AddElement>) -> (res: Vec<DocElement>)
    requires
        doc_span_wf(doc_span_view(spanvec@)),
        add_span_wf(add_span_view(add@)),
        apply_add_atoms(doc_atoms(doc_span_view(spanvec@)), add_atoms(add_span_view(add@))) is Some,
    ensures
        doc_span_wf(doc_span_view(res@)),
        apply_add_atoms(doc_atoms(doc_span_view(spanvec@)), add_atoms(add_span_view(add@)))
            == Some(doc_atoms(doc_span_view(res@))),
        doc_merged(doc_span_view(res@)),
        doc_deep(doc_span_view(spanvec@)) ==> doc_deep(doc_span_view(res@)),
    decreases add, 3nat,
{
    let ghost dd = doc_atoms(doc_span_view(spanvec@));
    let ghost ya = add_atoms(add_span_view(add@));
    let (mut res, remaining) = apply_add_inner(spanvec, add);
    proof {
        let n = add_pre(ya);
        assert(dd =~= dd.take(n as int) + dd.skip(n as int));
        assert(ya =~= ya + Seq::<AddAtom>::empty());
        lemma_apply_add_split(dd.take(n as int), dd.skip(n as int), ya, Seq::<AddAtom>::empty());
        lemma_doc_place_all_wf(doc_span_view(res@), doc_span_view(remaining@));
        lemma_doc_place_all_atoms(doc_span_view(res@), doc_span_view(remaining@));
        lemma_doc_deep_at(doc_span_view(remaining@), 0);
        lemma_doc_span_view(remaining@);
    }
    if remaining.len() > 0 {
        let rs = remaining.as_slice();
        assert(rs@ == remaining@);
        res.place_all(rs);
    } else {
        proof {
            assert(doc_span_view(remaining@) =~= Seq::<DocNode>::empty());
            assert(doc_atoms(doc_span_view(remaining@)) =~= Seq::<DocAtom>::empty());
            assert(doc_atoms(doc_span_view(res@)) + Seq::<DocAtom>::empty() =~= doc_atoms(doc_span_view(res@)));
        }
    }
    res
}

/// What an operation makes of a document: its deletion, then its insertion.
pub open spec fn apply_op_atoms(d: Seq<DocAtom>, x: Seq<DelAtom>, y: Seq<AddAtom>) -> Option<Seq<DocAtom>> {
    match apply_del_atoms(d, x) {
        Some(e) => apply_add_atoms(e, y),
        None => None,
    }
}

/// Applies an operation to a document span: its deletion, then its insertion.
pub fn apply_operation(spanvec: &Vec<DocElement>, op: &Op) -> (res: Vec<DocElement>)
    requires
        doc_span_wf(doc_span_view(spanvec@)),
        del_span_wf(del_span_view(op.0@)),
        add_span_wf(add_span_view(op.1@)),
        apply_op_atoms(
            doc_atoms(doc_span_view(spanvec@)),
            del_atoms(del_span_view(op.0@)),
            add_atoms(add_span_view(op.1@)),
        ) is Some,
    ensures
        doc_span_wf(doc_span_view(res@)),
        apply_op_atoms(
            doc_atoms(doc_span_view(spanvec@)),
            del_atoms(del_span_view(op.0@)),
            add_atoms(add_span_view(op.1@)),
        ) == Some(doc_atoms(doc_span_view(res@))),
        doc_merged(doc_span_view(res@)),
        doc_deep(doc_span_view(spanvec@)) ==> doc_deep(doc_span_view(res@)),
{
    let Op(delvec, addvec) = op;
    let postdel = apply_delete(spanvec, delvec);
    apply_add(&postdel, addvec)
}


// ---------------------------------------------------------------------------
// Taking styles off text.

/// The styles of a character after a deletion takes the styles `st` off
/// characters styled `s`: exactly those of `s` not in `st`.
pub open spec fn styles_taken_off(s: crate::rtf::StyleSet, st: crate::rtf::StyleSet, out: crate::rtf::StyleSet) -> bool {
    forall|r: crate::rtf::RtfStyle| #[trigger] out.has(r) <==> (s.has(r) && !st.has(r))
}

/// Taking styles off a character keeps the character, keeps every style not
/// taken off, and leaves none of the styles taken off.
pub proof fn del_styles_on_char(s: crate::rtf::StyleSet, c: char, st: crate::rtf::StyleSet)
    ensures
        apply_del_one(DocAtom::Char(s, c), DelAtom::Styles(st)) is Some,
        apply_del_one(DocAtom::Char(s, c), DelAtom::Styles(st)).unwrap().len() == 1,
        apply_del_one(DocAtom::Char(s, c), DelAtom::Styles(st)).unwrap()[0] is Char,
        apply_del_one(DocAtom::Char(s, c), DelAtom::Styles(st)).unwrap()[0]->Char_1 == c,
        styles_taken_off(s, st, apply_del_one(DocAtom::Char(s, c), DelAtom::Styles(st)).unwrap()[0]->Char_0),
{
}

/// Taking the styles `st` off a run of text, one deletion atom per
/// character, keeps every character in its place with exactly its styles not
/// in `st`.
pub proof fn del_styles_on_text(d: Seq<DocAtom>, st: crate::rtf::StyleSet)
    requires
        forall|i: int| 0 <= i < d.len() ==> #[trigger] d[i] is Char,
    ensures
        apply_del_atoms(d, repeat(DelAtom::Styles(st), d.len())) is Some,
        ({
            let out = apply_del_atoms(d, repeat(DelAtom::Styles(st), d.len())).unwrap();
            &&& out.len() == d.len()
            &&& forall|i: int| 0 <= i < d.len() ==> #[trigger] out[i] is Char && out[i]->Char_1 == d[i]->Char_1
                && styles_taken_off(d[i]->Char_0, st, out[i]->Char_0)
        }),
    decreases d.len(),
{
    let x = repeat(DelAtom::Styles(st), d.len());
    lemma_repeat(DelAtom::Styles(st), d.len());
    if d.len() > 0 {
        let rest = d.drop_first();
        assert forall|i: int| 0 <= i < rest.len() implies #[trigger] rest[i] is Char by {
            assert(rest[i] == d[i + 1]);
        }
        del_styles_on_text(rest, st);
        lemma_repeat(DelAtom::Styles(st), rest.len());
        assert(x.drop_first() =~= repeat(DelAtom::Styles(st), rest.len()));
        assert(x[0] == DelAtom::Styles(st));
        assert(d[0] is Char);
        let s0 = d[0]->Char_0;
        let c0 = d[0]->Char_1;
        assert(d[0] == DocAtom::Char(s0, c0));
        del_styles_on_char(s0, c0, st);
        let head = apply_del_one(d[0], x[0]).unwrap();
        let tail = apply_del_atoms(rest, x.drop_first()).unwrap();
        let out = head + tail;
        assert(apply_del_atoms(d, x) == Some(out));
        assert forall|i: int| 0 <= i < d.len() implies #[trigger] out[i] is Char && out[i]->Char_1 == d[i]->Char_1
            && styles_taken_off(d[i]->Char_0, st, out[i]->Char_0) by {
            if i > 0 {
                assert(out[i] == tail[i - 1]);
                assert(d[i] == rest[i - 1]);
            } else {
                assert(out[0] == head[0]);
            }
        }
    } else {
        assert(x =~= Seq::<DelAtom>::empty());
    }
}

} // verus!

