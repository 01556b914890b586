//! Transforming two concurrent insertions of one document against each
//! other: text, kept atoms and kept groups. Text that both insert at one
//! place is ordered with the first insertion's text first.
use crate::apply::{fetch_add, opt_add_atoms};
use crate::compose::del_seq_size;
use crate::compose_add::{add_seq_size, add_write, lemma_add_elem_atoms_len, lemma_add_seq_size_concat, lemma_add_seq_size_len};
use crate::compose_op::del_write;
use crate::doc::{
    add_atoms, add_elem_atoms, add_elem_wf, add_span_view, add_span_wf, add_text_atoms, del_atoms,
    del_elem_atoms, del_span_view, del_span_wf, lemma_add_group_wf, lemma_del_group_wf, lemma_repeat, repeat, AddAtom,
    AddElement, AddNode, AddSkip, AddText, AddWithGroup, DelAtom, DelElement, DelNode, DelSkip,
    DelWithGroup, Op,
};
use crate::place::{
    add_deep, add_deep_node, add_merged, del_deep, del_merged, lemma_add_deep_at, lemma_del_deep_at,
};
use crate::apply::{
    apply_add_atoms, apply_add_one, apply_del_atoms, apply_del_one, apply_op_atoms, lemma_apply_add_atoms,
    lemma_apply_add_one, lemma_apply_add_step, lemma_apply_del_atoms, lemma_apply_del_one,
    lemma_apply_del_step, opt_cat,
};
use crate::doc::{doc_atoms, doc_span_wf, DocAtom, DocNode};
use crate::place::{doc_deep, lemma_doc_canonical_deep};
use crate::compose::compose_del_atoms;
use crate::laws::del_covers;
use crate::transform::del_transform_atoms;
use crate::transform_add::{transform_add_del_atoms, transform_add_del_fits};
use vstd::prelude::*;

verus! {

// ---------------------------------------------------------------------------
// What can be transformed.

/// An insertion atom of text, a kept atom, or a kept group whose inner
/// insertion is of the same kind.
pub open spec fn ins_plain_one(x: AddAtom) -> bool
    decreases x,
{
    match x {
        AddAtom::Skip => true,
        AddAtom::Text(..) => true,
        AddAtom::WithGroup(inner) => ins_plain(inner),
        _ => false,
    }
}

/// An insertion that inserts no group and adds no styles, here or inside
/// the groups it keeps.
pub open spec fn ins_plain(a: Seq<AddAtom>) -> bool
    decreases a,
{
    a.len() == 0 || (ins_plain_one(a[0]) && ins_plain(a.drop_first()))
}

// ---------------------------------------------------------------------------
// The transform, atom by atom.

/// The four outputs of a walk with `p` written before those of `w`.
pub open spec fn iw_prefix(
    p: (Seq<DelAtom>, Seq<AddAtom>, Seq<DelAtom>, Seq<AddAtom>),
    w: (Seq<DelAtom>, Seq<AddAtom>, Seq<DelAtom>, Seq<AddAtom>),
) -> (Seq<DelAtom>, Seq<AddAtom>, Seq<DelAtom>, Seq<AddAtom>) {
    (p.0 + w.0, p.1 + w.1, p.2 + w.2, p.3 + w.3)
}

/// Nothing written.
pub open spec fn iw_empty() -> (Seq<DelAtom>, Seq<AddAtom>, Seq<DelAtom>, Seq<AddAtom>) {
    (Seq::empty(), Seq::empty(), Seq::empty(), Seq::empty())
}

/// The transform of two insertions `a` and `b` of one document: an
/// operation to follow `a` (so as to do what `b` does) and one to follow `b`
/// (so as to do what `a` does), each a deletion that keeps everything, then
/// an insertion. Text of `a` comes first: it is kept by the operation that
/// follows `a` and inserted by the one that follows `b`; then text of `b`,
/// the other way round. A kept atom is kept on both sides; a kept group on
/// one side only is passed on to the other; a group that both keep takes
/// the transform of their inner insertions. Where one insertion has ended,
/// the other walks on over the rest of the document.
pub open spec fn ins_walk(a: Seq<AddAtom>, b: Seq<AddAtom>) -> (
    Seq<DelAtom>,
    Seq<AddAtom>,
    Seq<DelAtom>,
    Seq<AddAtom>,
)
    decreases a, b,
{
    if a.len() > 0 && a[0] is Text {
        iw_prefix(
            (seq![DelAtom::Skip], seq![AddAtom::Skip], Seq::empty(), seq![a[0]]),
            ins_walk(a.drop_first(), b),
        )
    } else if b.len() > 0 && b[0] is Text {
        iw_prefix(
            (Seq::empty(), seq![b[0]], seq![DelAtom::Skip], seq![AddAtom::Skip]),
            ins_walk(a, b.drop_first()),
        )
    } else if a.len() == 0 && b.len() == 0 {
        iw_empty()
    } else if a.len() == 0 {
        match b[0] {
            AddAtom::Skip => iw_prefix(
                (seq![DelAtom::Skip], seq![AddAtom::Skip], seq![DelAtom::Skip], seq![AddAtom::Skip]),
                ins_walk(a, b.drop_first()),
            ),
            AddAtom::WithGroup(_) => iw_prefix(
                (Seq::empty(), seq![b[0]], seq![DelAtom::Skip], seq![AddAtom::Skip]),
                ins_walk(a, b.drop_first()),
            ),
            _ => iw_empty(),
        }
    } else if b.len() == 0 {
        match a[0] {
            AddAtom::Skip => iw_prefix(
                (seq![DelAtom::Skip], seq![AddAtom::Skip], seq![DelAtom::Skip], seq![AddAtom::Skip]),
                ins_walk(a.drop_first(), b),
            ),
            AddAtom::WithGroup(_) => iw_prefix(
                (seq![DelAtom::Skip], seq![AddAtom::Skip], Seq::empty(), seq![a[0]]),
                ins_walk(a.drop_first(), b),
            ),
            _ => iw_empty(),
        }
    } else {
        match (a[0], b[0]) {
            (AddAtom::Skip, AddAtom::Skip) => iw_prefix(
                (seq![DelAtom::Skip], seq![AddAtom::Skip], seq![DelAtom::Skip], seq![AddAtom::Skip]),
                ins_walk(a.drop_first(), b.drop_first()),
            ),
            (AddAtom::WithGroup(_), AddAtom::Skip) => iw_prefix(
                (seq![DelAtom::Skip], seq![AddAtom::Skip], seq![DelAtom::Skip], seq![a[0]]),
                ins_walk(a.drop_first(), b.drop_first()),
            ),
            (AddAtom::Skip, AddAtom::WithGroup(_)) => iw_prefix(
                (seq![DelAtom::Skip], seq![b[0]], seq![DelAtom::Skip], seq![AddAtom::Skip]),
                ins_walk(a.drop_first(), b.drop_first()),
            ),
            (AddAtom::WithGroup(ia), AddAtom::WithGroup(ib)) => {
                let r = ins_walk(ia, ib);
                iw_prefix(
                    (
                        seq![DelAtom::WithGroup(r.0)],
                        seq![AddAtom::WithGroup(r.1)],
                        seq![DelAtom::WithGroup(r.2)],
                        seq![AddAtom::WithGroup(r.3)],
                    ),
                    ins_walk(a.drop_first(), b.drop_first()),
                )
            },
            _ => iw_empty(),
        }
    }
}


// ---------------------------------------------------------------------------
// Lemmas on the walk.

/// Two prefixes in turn are one.
proof fn lemma_iw_prefix_twice(
    p: (Seq<DelAtom>, Seq<AddAtom>, Seq<DelAtom>, Seq<AddAtom>),
    q: (Seq<DelAtom>, Seq<AddAtom>, Seq<DelAtom>, Seq<AddAtom>),
    w: (Seq<DelAtom>, Seq<AddAtom>, Seq<DelAtom>, Seq<AddAtom>),
)
    ensures
        iw_prefix(p, iw_prefix(q, w)) == iw_prefix((p.0 + q.0, p.1 + q.1, p.2 + q.2, p.3 + q.3), w),
{
    assert(p.0 + (q.0 + w.0) =~= p.0 + q.0 + w.0);
    assert(p.1 + (q.1 + w.1) =~= p.1 + q.1 + w.1);
    assert(p.2 + (q.2 + w.2) =~= p.2 + q.2 + w.2);
    assert(p.3 + (q.3 + w.3) =~= p.3 + q.3 + w.3);
}

/// Inserted text: its first atom, then the rest.
proof fn lemma_add_text_front(st: crate::rtf::StyleSet, t: Seq<char>)
    requires
        t.len() > 0,
    ensures
        add_text_atoms(st, t) == seq![add_text_atoms(st, t)[0]] + add_text_atoms(st, t.drop_first()),
        add_text_atoms(st, t)[0] == AddAtom::Text(st, t[0]),
        add_text_atoms(st, t)[0] is Text,
{
    crate::place::lemma_add_text_atoms(st, t);
    crate::place::lemma_add_text_atoms(st, t.drop_first());
    let l = add_text_atoms(st, t);
    let r = seq![l[0]] + add_text_atoms(st, t.drop_first());
    assert forall|i: int| 0 <= i < l.len() implies l[i] == r[i] by {
        if i > 0 {
            assert(r[i] == add_text_atoms(st, t.drop_first())[i - 1]);
            assert(t.drop_first()[i - 1] == t[i]);
        }
    }
    assert(l =~= r);
}

/// Text of the first insertion: kept after it, inserted after the second.
proof fn lemma_iw_text_a(st: crate::rtf::StyleSet, t: Seq<char>, ra: Seq<AddAtom>, rb: Seq<AddAtom>)
    ensures
        ins_walk(add_text_atoms(st, t) + ra, rb) == iw_prefix(
            (repeat(DelAtom::Skip, t.len()), repeat(AddAtom::Skip, t.len()), Seq::empty(), add_text_atoms(st, t)),
            ins_walk(ra, rb),
        ),
    decreases t.len(),
{
    if t.len() == 0 {
        crate::place::lemma_add_text_atoms(st, t);
        assert(add_text_atoms(st, t) + ra =~= ra);
        assert(repeat(DelAtom::Skip, 0) =~= Seq::<DelAtom>::empty());
        assert(repeat(AddAtom::Skip, 0) =~= Seq::<AddAtom>::empty());
        let w = ins_walk(ra, rb);
        assert(Seq::<DelAtom>::empty() + w.0 =~= w.0);
        assert(Seq::<AddAtom>::empty() + w.1 =~= w.1);
        assert(Seq::<DelAtom>::empty() + w.2 =~= w.2);
        assert(add_text_atoms(st, t) + w.3 =~= w.3);
    } else {
        lemma_add_text_front(st, t);
        let t1 = t.drop_first();
        let x = add_text_atoms(st, t)[0];
        let a = add_text_atoms(st, t) + ra;
        assert(a =~= seq![x] + (add_text_atoms(st, t1) + ra));
        assert(a[0] == x);
        assert(a.drop_first() =~= add_text_atoms(st, t1) + ra);
        lemma_iw_text_a(st, t1, ra, rb);
        lemma_iw_prefix_twice(
            (seq![DelAtom::Skip], seq![AddAtom::Skip], Seq::empty(), seq![x]),
            (repeat(DelAtom::Skip, t1.len()), repeat(AddAtom::Skip, t1.len()), Seq::empty(), add_text_atoms(st, t1)),
            ins_walk(ra, rb),
        );
        crate::apply::lemma_repeat_first(DelAtom::Skip, t.len());
        crate::apply::lemma_repeat_first(AddAtom::Skip, t.len());
        assert(Seq::<DelAtom>::empty() + Seq::<DelAtom>::empty() =~= Seq::<DelAtom>::empty());
    }
}

/// Text of the second insertion, where the first has no text at hand:
/// inserted after the first, kept after the second.
proof fn lemma_iw_text_b(st: crate::rtf::StyleSet, t: Seq<char>, ra: Seq<AddAtom>, rb: Seq<AddAtom>)
    requires
        !(ra.len() > 0 && ra[0] is Text),
    ensures
        ins_walk(ra, add_text_atoms(st, t) + rb) == iw_prefix(
            (Seq::empty(), add_text_atoms(st, t), repeat(DelAtom::Skip, t.len()), repeat(AddAtom::Skip, t.len())),
            ins_walk(ra, rb),
        ),
    decreases t.len(),
{
    if t.len() == 0 {
        crate::place::lemma_add_text_atoms(st, t);
        assert(add_text_atoms(st, t) + rb =~= rb);
        assert(repeat(DelAtom::Skip, 0) =~= Seq::<DelAtom>::empty());
        assert(repeat(AddAtom::Skip, 0) =~= Seq::<AddAtom>::empty());
        let w = ins_walk(ra, rb);
        assert(Seq::<DelAtom>::empty() + w.0 =~= w.0);
        assert(add_text_atoms(st, t) + w.1 =~= w.1);
        assert(Seq::<DelAtom>::empty() + w.2 =~= w.2);
        assert(Seq::<AddAtom>::empty() + w.3 =~= w.3);
    } else {
        lemma_add_text_front(st, t);
        let t1 = t.drop_first();
        let y = add_text_atoms(st, t)[0];
        let b = add_text_atoms(st, t) + rb;
        assert(b =~= seq![y] + (add_text_atoms(st, t1) + rb));
        assert(b[0] == y);
        assert(b.drop_first() =~= add_text_atoms(st, t1) + rb);
        lemma_iw_text_b(st, t1, ra, rb);
        lemma_iw_prefix_twice(
            (Seq::empty(), seq![y], seq![DelAtom::Skip], seq![AddAtom::Skip]),
            (Seq::empty(), add_text_atoms(st, t1), repeat(DelAtom::Skip, t1.len()), repeat(AddAtom::Skip, t1.len())),
            ins_walk(ra, rb),
        );
        crate::apply::lemma_repeat_first(DelAtom::Skip, t.len());
        crate::apply::lemma_repeat_first(AddAtom::Skip, t.len());
        assert(Seq::<DelAtom>::empty() + Seq::<DelAtom>::empty() =~= Seq::<DelAtom>::empty());
    }
}

/// What is left of an insertion: the element at hand, then the elements
/// from `i` on.
pub open spec fn ins_rest(h: Option<AddElement>, v: Seq<AddNode>, i: int) -> Seq<AddAtom> {
    opt_add_atoms(h) + add_atoms(v.skip(i))
}

/// What follows a plain insertion's first atoms is plain too.
proof fn lemma_ins_plain_skip(p: Seq<AddAtom>, q: Seq<AddAtom>)
    requires
        ins_plain(p + q),
    ensures
        ins_plain(q),
    decreases p.len(),
{
    if p.len() > 0 {
        assert((p + q).drop_first() =~= p.drop_first() + q);
        lemma_ins_plain_skip(p.drop_first(), q);
    } else {
        assert(p + q =~= q);
    }
}

/// A run of one kept atom, its first, then the rest.
proof fn lemma_skip_front(n: nat, rest: Seq<AddAtom>)
    requires
        n > 0,
    ensures
        (repeat(AddAtom::Skip, n) + rest)[0] == AddAtom::Skip,
        (repeat(AddAtom::Skip, n) + rest).drop_first() =~= repeat(AddAtom::Skip, (n - 1) as nat) + rest,
{
    crate::apply::lemma_repeat_first(AddAtom::Skip, n);
    assert(repeat(AddAtom::Skip, n) + rest =~= seq![AddAtom::Skip] + (repeat(AddAtom::Skip, (n - 1) as nat) + rest));
}

/// One kept atom, as written.
proof fn lemma_one_skip()
    ensures
        del_elem_atoms(DelNode::Skip(1)) == seq![DelAtom::Skip],
        add_elem_atoms(AddNode::Skip(1)) == seq![AddAtom::Skip],
{
    lemma_repeat(DelAtom::Skip, 1);
    lemma_repeat(AddAtom::Skip, 1);
    assert(repeat(DelAtom::Skip, 1) =~= seq![DelAtom::Skip]);
    assert(repeat(AddAtom::Skip, 1) =~= seq![AddAtom::Skip]);
}

/// The state of a walk, as atoms: what is written, then the walk of what
/// is left.
pub open spec fn iw_state(
    da: Seq<DelElement>,
    xa: Seq<AddElement>,
    db: Seq<DelElement>,
    xb: Seq<AddElement>,
    ra: Seq<AddAtom>,
    rb: Seq<AddAtom>,
) -> (Seq<DelAtom>, Seq<AddAtom>, Seq<DelAtom>, Seq<AddAtom>) {
    iw_prefix(
        (
            del_atoms(del_span_view(da)),
            add_atoms(add_span_view(xa)),
            del_atoms(del_span_view(db)),
            add_atoms(add_span_view(xb)),
        ),
        ins_walk(ra, rb),
    )
}

/// The sizes of what is written, against what was there.
pub open spec fn iw_bounded(
    da: Seq<DelElement>,
    xa: Seq<AddElement>,
    db: Seq<DelElement>,
    xb: Seq<AddElement>,
    ra: Seq<AddAtom>,
    rb: Seq<AddAtom>,
    total: nat,
) -> bool {
    &&& del_atoms(del_span_view(da)).len() + ra.len() + rb.len() <= total
    &&& add_atoms(add_span_view(xa)).len() + ra.len() + rb.len() <= total
    &&& del_atoms(del_span_view(db)).len() + ra.len() + rb.len() <= total
    &&& add_atoms(add_span_view(xb)).len() + ra.len() + rb.len() <= total
}

/// The first atom of an insertion element.
pub open spec fn first_add_atom(e: AddNode) -> AddAtom {
    match e {
        AddNode::Skip(_) => AddAtom::Skip,
        AddNode::Styles(_, st) => AddAtom::Styles(st),
        AddNode::Text(st, t) => AddAtom::Text(st, t[0]),
        AddNode::WithGroup(s) => AddAtom::WithGroup(add_atoms(s)),
        AddNode::Group(at, s) => AddAtom::Group(at, add_atoms(s)),
    }
}

/// An element at hand, then the rest: its first atom comes first.
proof fn lemma_rest_first(e: AddNode, p: Seq<AddAtom>)
    requires
        add_elem_wf(e),
    ensures
        (add_elem_atoms(e) + p).len() > 0,
        (add_elem_atoms(e) + p)[0] == first_add_atom(e),
        add_elem_atoms(e).len() >= 1,
        (e is WithGroup || e is Group) ==> (add_elem_atoms(e) + p).drop_first() == p,
{
    lemma_add_elem_atoms_len(e);
    match e {
        AddNode::Skip(k) => lemma_repeat(AddAtom::Skip, k),
        AddNode::Styles(k, st) => lemma_repeat(AddAtom::Styles(st), k),
        AddNode::Text(st, t) => crate::place::lemma_add_text_atoms(st, t),
        _ => {
            assert((add_elem_atoms(e) + p).drop_first() =~= p);
        },
    }
}

/// A copy of an insertion span.
fn clone_span(s: &Vec<AddElement>) -> (res: Vec<AddElement>)
    ensures
        add_span_view(res@) == add_span_view(s@),
{
    crate::doc::clone_add_span(s)
}

/// Moves past the first atom of a kept run or kept group at hand.
fn ins_consume(h: Option<AddElement>, v: &Vec<AddElement>, i: &mut usize) -> (res: Option<AddElement>)
    requires
        *old(i) <= v@.len(),
        h matches Some(e) && (e is AddSkip || e is AddWithGroup) && add_elem_wf(e@),
        add_span_wf(add_span_view(v@)),
    ensures
        *final(i) <= v@.len(),
        res.is_none() ==> *final(i) == v@.len(),
        res matches Some(e) ==> add_elem_wf(e@),
        add_deep(add_span_view(v@)) ==> (res matches Some(e) ==> add_deep_node(e@)),
        ins_rest(h, add_span_view(v@), *old(i) as int).len() > 0,
        ins_rest(res, add_span_view(v@), *final(i) as int) == ins_rest(h, add_span_view(v@), *old(i) as int).drop_first(),
        ins_rest(h, add_span_view(v@), *old(i) as int)[0] == match h.unwrap() {
            AddWithGroup(inner) => AddAtom::WithGroup(add_atoms(add_span_view(inner@))),
            _ => AddAtom::Skip,
        },
{
    let ghost rest = add_atoms(add_span_view(v@).skip(*i as int));
    proof {
        lemma_add_deep_at(add_span_view(v@));
        crate::doc::lemma_add_span_view(v@);
    }
    let e = h.unwrap();
    match e {
        AddSkip(n) => {
            proof {
                lemma_skip_front(n as nat, rest);
            }
            if n > 1 {
                let r = Some(AddSkip(n - 1));
                r
            } else {
                proof {
                    lemma_repeat(AddAtom::Skip, 0);
                    assert(repeat(AddAtom::Skip, 0) + rest =~= rest);
                }
                fetch_add(v, i)
            }
        },
        AddWithGroup(inner) => {
            let ghost x = AddAtom::WithGroup(add_atoms(add_span_view(inner@)));
            proof {
                assert(seq![x] + rest =~= seq![x] + rest);
                assert((seq![x] + rest).drop_first() =~= rest);
            }
            fetch_add(v, i)
        },
        _ => {
            proof {
                assert(false);
            }
            None
        },
    }
}

/// The walk of two plain insertions, given a bound on their sizes.
#[verifier::spinoff_prover]
#[verifier::rlimit(100)]
fn ins_transform_fuel(avec: &Vec<AddElement>, bvec: &Vec<AddElement>, Ghost(fuel): Ghost<nat>) -> (res: (Op, Op))
    requires
        add_span_wf(add_span_view(avec@)),
        add_span_wf(add_span_view(bvec@)),
        ins_plain(add_atoms(add_span_view(avec@))),
        ins_plain(add_atoms(add_span_view(bvec@))),
        add_seq_size(add_atoms(add_span_view(avec@))) + add_seq_size(add_atoms(add_span_view(bvec@))) <= fuel,
        fuel <= usize::MAX,
    ensures
        del_span_wf(del_span_view(res.0.0@)),
        add_span_wf(add_span_view(res.0.1@)),
        del_span_wf(del_span_view(res.1.0@)),
        add_span_wf(add_span_view(res.1.1@)),
        del_merged(del_span_view(res.0.0@)),
        add_merged(add_span_view(res.0.1@)),
        del_merged(del_span_view(res.1.0@)),
        add_merged(add_span_view(res.1.1@)),
        ins_walk(add_atoms(add_span_view(avec@)), add_atoms(add_span_view(bvec@))) == (
            del_atoms(del_span_view(res.0.0@)),
            add_atoms(add_span_view(res.0.1@)),
            del_atoms(del_span_view(res.1.0@)),
            add_atoms(add_span_view(res.1.1@)),
        ),
        add_deep(add_span_view(avec@)) && add_deep(add_span_view(bvec@)) ==> del_deep(del_span_view(res.0.0@))
            && add_deep(add_span_view(res.0.1@)) && del_deep(del_span_view(res.1.0@)) && add_deep(
            add_span_view(res.1.1@),
        ),
    decreases fuel,
{
    let ghost av = add_span_view(avec@);
    let ghost bv = add_span_view(bvec@);
    let ghost total = add_atoms(av).len() + add_atoms(bv).len();
    let ghost w0 = ins_walk(add_atoms(av), add_atoms(bv));
    let mut da: Vec<DelElement> = Vec::new();
    let mut xa: Vec<AddElement> = Vec::new();
    let mut db: Vec<DelElement> = Vec::new();
    let mut xb: Vec<AddElement> = Vec::new();
    let mut ai: usize = 0;
    let mut bi: usize = 0;
    proof {
        crate::doc::lemma_add_span_view(avec@);
        crate::doc::lemma_add_span_view(bvec@);
        assert(av.skip(0) =~= av);
        assert(bv.skip(0) =~= bv);
        lemma_add_seq_size_len(add_atoms(av));
        lemma_add_seq_size_len(add_atoms(bv));
    }
    let mut ah = fetch_add(avec, &mut ai);
    let mut bh = fetch_add(bvec, &mut bi);
    proof {
        lemma_add_deep_at(av);
        lemma_add_deep_at(bv);
        lemma_add_deep_at(Seq::<AddNode>::empty());
        lemma_del_deep_at(Seq::<DelNode>::empty());
        assert(del_span_view(da@) =~= Seq::<DelNode>::empty());
        assert(add_span_view(xa@) =~= Seq::<AddNode>::empty());
        assert(del_atoms(Seq::<DelNode>::empty()) =~= Seq::<DelAtom>::empty());
        assert(add_atoms(Seq::<AddNode>::empty()) =~= Seq::<AddAtom>::empty());
        let w = ins_walk(add_atoms(av), add_atoms(bv));
        assert(Seq::<DelAtom>::empty() + w.0 =~= w.0);
        assert(Seq::<AddAtom>::empty() + w.1 =~= w.1);
        assert(Seq::<DelAtom>::empty() + w.2 =~= w.2);
        assert(Seq::<AddAtom>::empty() + w.3 =~= w.3);
    }
    loop
        invariant
            av == add_span_view(avec@),
            bv == add_span_view(bvec@),
            av.len() == avec@.len(),
            bv.len() == bvec@.len(),
            add_span_wf(av),
            add_span_wf(bv),
            ai <= avec@.len(),
            bi <= bvec@.len(),
            ah.is_none() ==> ai == avec@.len(),
            bh.is_none() ==> bi == bvec@.len(),
            ah matches Some(e) ==> add_elem_wf(e@),
            bh matches Some(e) ==> add_elem_wf(e@),
            ins_plain(ins_rest(ah, av, ai as int)),
            ins_plain(ins_rest(bh, bv, bi as int)),
            add_seq_size(ins_rest(ah, av, ai as int)) + add_seq_size(ins_rest(bh, bv, bi as int)) <= fuel,
            fuel <= usize::MAX,
            total <= usize::MAX,
            del_span_wf(del_span_view(da@)),
            add_span_wf(add_span_view(xa@)),
            del_span_wf(del_span_view(db@)),
            add_span_wf(add_span_view(xb@)),
            del_merged(del_span_view(da@)),
            add_merged(add_span_view(xa@)),
            del_merged(del_span_view(db@)),
            add_merged(add_span_view(xb@)),
            add_deep(av) ==> forall|k: int| 0 <= k < av.len() ==> add_deep_node(#[trigger] av[k]),
            add_deep(bv) ==> forall|k: int| 0 <= k < bv.len() ==> add_deep_node(#[trigger] bv[k]),
            add_deep(av) ==> (ah matches Some(e) ==> add_deep_node(e@)),
            add_deep(bv) ==> (bh matches Some(e) ==> add_deep_node(e@)),
            add_deep(av) && add_deep(bv) ==> del_deep(del_span_view(da@)) && add_deep(add_span_view(xa@))
                && del_deep(del_span_view(db@)) && add_deep(add_span_view(xb@)),
            iw_bounded(da@, xa@, db@, xb@, ins_rest(ah, av, ai as int), ins_rest(bh, bv, bi as int), total),
            iw_state(da@, xa@, db@, xb@, ins_rest(ah, av, ai as int), ins_rest(bh, bv, bi as int)) == w0,
        ensures
            ah.is_none() && bh.is_none(),
        decreases ins_rest(ah, av, ai as int).len() + ins_rest(bh, bv, bi as int).len(),
    {
        let ghost ra = ins_rest(ah, av, ai as int);
        let ghost rb = ins_rest(bh, bv, bi as int);
        let ghost pa = add_atoms(av.skip(ai as int));
        let ghost pb = add_atoms(bv.skip(bi as int));
        let a_text = match &ah {
            Some(AddText(..)) => true,
            _ => false,
        };
        let b_text = match &bh {
            Some(AddText(..)) => true,
            _ => false,
        };
        if a_text {
            let e = ah.unwrap();
            match e {
                AddText(st, t) => {
                    let n = t.char_len();
                    proof {
                        lemma_iw_text_a(st, t@, pa, rb);
                        lemma_repeat(DelAtom::Skip, n as nat);
                        lemma_repeat(AddAtom::Skip, n as nat);
                        crate::place::lemma_add_text_atoms(st, t@);
                        lemma_ins_plain_skip(add_text_atoms(st, t@), pa);
                        lemma_add_seq_size_concat(add_text_atoms(st, t@), pa);
                    }
                    del_write(&mut da, DelSkip(n), Ghost(total));
                    add_write(&mut xa, AddSkip(n), Ghost(total));
                    add_write(&mut xb, AddText(st, t), Ghost(total));
                },
                _ => {
                    proof {
                        assert(false);
                    }
                },
            }
            ah = fetch_add(avec, &mut ai);
            proof {
                lemma_iw_prefix_twice(
                    (del_atoms(del_span_view(da@)), add_atoms(add_span_view(xa@)), del_atoms(del_span_view(db@)), add_atoms(add_span_view(xb@))),
                    (Seq::empty(), Seq::empty(), Seq::empty(), Seq::empty()),
                    ins_walk(pa, rb),
                );
            }
        } else if b_text {
            let e = bh.unwrap();
            match e {
                AddText(st, t) => {
                    let n = t.char_len();
                    proof {
                        if ah.is_some() {
                            let hv = ah.unwrap()@;
                            lemma_rest_first(hv, pa);
                        } else {
                            assert(av.skip(ai as int) =~= Seq::<AddNode>::empty());
                            assert(add_atoms(Seq::<AddNode>::empty()) =~= Seq::<AddAtom>::empty());
                            assert(ra =~= Seq::<AddAtom>::empty());
                        }
                        lemma_iw_text_b(st, t@, ra, pb);
                        lemma_repeat(DelAtom::Skip, n as nat);
                        lemma_repeat(AddAtom::Skip, n as nat);
                        crate::place::lemma_add_text_atoms(st, t@);
                        lemma_ins_plain_skip(add_text_atoms(st, t@), pb);
                        lemma_add_seq_size_concat(add_text_atoms(st, t@), pb);
                    }
                    add_write(&mut xa, AddText(st, t), Ghost(total));
                    del_write(&mut db, DelSkip(n), Ghost(total));
                    add_write(&mut xb, AddSkip(n), Ghost(total));
                },
                _ => {
                    proof {
                        assert(false);
                    }
                },
            }
            bh = fetch_add(bvec, &mut bi);
        } else if ah.is_none() && bh.is_none() {
            break;
        } else {
            proof {
                lemma_one_skip();
                if ah.is_some() {
                    lemma_add_elem_atoms_len(ah.unwrap()@);
                    assert(ra =~= seq![ra[0]] + ra.drop_first());
                    lemma_add_seq_size_concat(seq![ra[0]], ra.drop_first());
                } else {
                    assert(av.skip(ai as int) =~= Seq::<AddNode>::empty());
                    assert(add_atoms(Seq::<AddNode>::empty()) =~= Seq::<AddAtom>::empty());
                }
                if bh.is_some() {
                    lemma_add_elem_atoms_len(bh.unwrap()@);
                    assert(rb =~= seq![rb[0]] + rb.drop_first());
                    lemma_add_seq_size_concat(seq![rb[0]], rb.drop_first());
                } else {
                    assert(bv.skip(bi as int) =~= Seq::<AddNode>::empty());
                    assert(add_atoms(Seq::<AddNode>::empty()) =~= Seq::<AddAtom>::empty());
                }
            }
            let ak: u8 = match &ah {
                Some(AddSkip(_)) => 1,
                Some(AddWithGroup(_)) => 2,
                Some(_) => 3,
                None => 0,
            };
            let bk: u8 = match &bh {
                Some(AddSkip(_)) => 1,
                Some(AddWithGroup(_)) => 2,
                Some(_) => 3,
                None => 0,
            };
            if ak == 3 || bk == 3 {
                proof {
                    if ak == 3 {
                        let hv = ah.unwrap()@;
                        lemma_rest_first(hv, pa);
                        assert(ra[0] == first_add_atom(hv));
                        assert(hv is Styles || hv is Group);
                        assert(!ins_plain_one(ra[0]));
                    } else {
                        let hv = bh.unwrap()@;
                        lemma_rest_first(hv, pb);
                        assert(rb[0] == first_add_atom(hv));
                        assert(hv is Styles || hv is Group);
                        assert(!ins_plain_one(rb[0]));
                    }
                }
                assert(false);
                break;
            }
            if ak == 2 && bk == 2 {
                let (ia, ib) = match (&ah, &bh) {
                    (Some(AddWithGroup(x)), Some(AddWithGroup(y))) => (clone_span(x), clone_span(y)),
                    _ => {
                        proof {
                            assert(false);
                        }
                        (Vec::new(), Vec::new())
                    },
                };
                proof {
                    lemma_rest_first(ah.unwrap()@, pa);
                    lemma_rest_first(bh.unwrap()@, pb);
                    lemma_add_group_wf(ah.unwrap()@);
                    lemma_add_group_wf(bh.unwrap()@);
                    let xa0 = AddAtom::WithGroup(add_atoms(add_span_view(ia@)));
                    let xb0 = AddAtom::WithGroup(add_atoms(add_span_view(ib@)));
                    assert(ra == seq![xa0] + pa);
                    assert(rb == seq![xb0] + pb);
                    assert(ra[0] == xa0);
                    assert(rb[0] == xb0);
                    lemma_add_seq_size_concat(seq![xa0], pa);
                    lemma_add_seq_size_concat(seq![xb0], pb);
                    assert(seq![xa0].drop_last() =~= Seq::<AddAtom>::empty());
                    assert(seq![xb0].drop_last() =~= Seq::<AddAtom>::empty());
                    assert(seq![xa0].last() == xa0);
                    assert(seq![xb0].last() == xb0);
                    assert(add_seq_size(Seq::<AddAtom>::empty()) == 0);
                    assert(add_seq_size(seq![xa0]) == add_seq_size(Seq::<AddAtom>::empty()) + crate::compose_add::add_atom_size(xa0));
                    assert(add_seq_size(seq![xb0]) == add_seq_size(Seq::<AddAtom>::empty()) + crate::compose_add::add_atom_size(xb0));
                    assert(add_seq_size(seq![xa0]) == 1 + add_seq_size(add_atoms(add_span_view(ia@))));
                    assert(add_seq_size(seq![xb0]) == 1 + add_seq_size(add_atoms(add_span_view(ib@))));
                    assert(ins_plain_one(xa0));
                    assert(ins_plain_one(xb0));
                    assert(add_span_wf(add_span_view(ia@)));
                    assert(add_span_wf(add_span_view(ib@)));
                }
                let (oa, ob) = ins_transform_fuel(&ia, &ib, Ghost((fuel - 1) as nat));
                let Op(oad, oaa) = oa;
                let Op(obd, oba) = ob;
                proof {
                    lemma_del_group_wf(DelNode::WithGroup(del_span_view(oad@)));
                    lemma_add_group_wf(AddNode::WithGroup(add_span_view(oaa@)));
                    lemma_del_group_wf(DelNode::WithGroup(del_span_view(obd@)));
                    lemma_add_group_wf(AddNode::WithGroup(add_span_view(oba@)));
                }
                del_write(&mut da, DelWithGroup(oad), Ghost(total));
                add_write(&mut xa, AddWithGroup(oaa), Ghost(total));
                del_write(&mut db, DelWithGroup(obd), Ghost(total));
                add_write(&mut xb, AddWithGroup(oba), Ghost(total));
                ah = ins_consume(ah, avec, &mut ai);
                bh = ins_consume(bh, bvec, &mut bi);
            } else {
                // Kept atoms and kept groups on one side.
                if ak == 2 {
                    let wa = match &ah {
                        Some(AddWithGroup(x)) => AddWithGroup(clone_span(x)),
                        _ => AddSkip(1),
                    };
                    del_write(&mut da, DelSkip(1), Ghost(total));
                    add_write(&mut xa, AddSkip(1), Ghost(total));
                    if bk == 1 {
                        del_write(&mut db, DelSkip(1), Ghost(total));
                    }
                    add_write(&mut xb, wa, Ghost(total));
                } else if bk == 2 {
                    let wb = match &bh {
                        Some(AddWithGroup(x)) => AddWithGroup(clone_span(x)),
                        _ => AddSkip(1),
                    };
                    if ak == 1 {
                        del_write(&mut da, DelSkip(1), Ghost(total));
                    }
                    add_write(&mut xa, wb, Ghost(total));
                    del_write(&mut db, DelSkip(1), Ghost(total));
                    add_write(&mut xb, AddSkip(1), Ghost(total));
                } else {
                    del_write(&mut da, DelSkip(1), Ghost(total));
                    add_write(&mut xa, AddSkip(1), Ghost(total));
                    del_write(&mut db, DelSkip(1), Ghost(total));
                    add_write(&mut xb, AddSkip(1), Ghost(total));
                }
                if ak != 0 {
                    ah = ins_consume(ah, avec, &mut ai);
                }
                if bk != 0 {
                    bh = ins_consume(bh, bvec, &mut bi);
                }
            }
        }
    }
    proof {
        assert(av.skip(ai as int) =~= Seq::<AddNode>::empty());
        assert(bv.skip(bi as int) =~= Seq::<AddNode>::empty());
        assert(add_atoms(Seq::<AddNode>::empty()) =~= Seq::<AddAtom>::empty());
        let w = w0;
        assert(del_atoms(del_span_view(da@)) + Seq::<DelAtom>::empty() =~= del_atoms(del_span_view(da@)));
        assert(add_atoms(add_span_view(xa@)) + Seq::<AddAtom>::empty() =~= add_atoms(add_span_view(xa@)));
        assert(del_atoms(del_span_view(db@)) + Seq::<DelAtom>::empty() =~= del_atoms(del_span_view(db@)));
        assert(add_atoms(add_span_view(xb@)) + Seq::<AddAtom>::empty() =~= add_atoms(add_span_view(xb@)));
    }
    (Op(da, xa), Op(db, xb))
}

/// Transforms two concurrent insertions of one document, each made of
/// text, kept atoms and kept groups: an operation to follow the first (so
/// as to do what the second does) and one to follow the second (so as to do
/// what the first does). Each operation deletes nothing.
pub fn transform_insertions(avec: &Vec<AddElement>, bvec: &Vec<AddElement>) -> (res: (Op, Op))
    requires
        add_span_wf(add_span_view(avec@)),
        add_span_wf(add_span_view(bvec@)),
        ins_plain(add_atoms(add_span_view(avec@))),
        ins_plain(add_atoms(add_span_view(bvec@))),
        add_seq_size(add_atoms(add_span_view(avec@))) + add_seq_size(add_atoms(add_span_view(bvec@)))
            <= usize::MAX,
    ensures
        del_span_wf(del_span_view(res.0.0@)),
        add_span_wf(add_span_view(res.0.1@)),
        del_span_wf(del_span_view(res.1.0@)),
        add_span_wf(add_span_view(res.1.1@)),
        del_merged(del_span_view(res.0.0@)),
        add_merged(add_span_view(res.0.1@)),
        del_merged(del_span_view(res.1.0@)),
        add_merged(add_span_view(res.1.1@)),
        ins_walk(add_atoms(add_span_view(avec@)), add_atoms(add_span_view(bvec@))) == (
            del_atoms(del_span_view(res.0.0@)),
            add_atoms(add_span_view(res.0.1@)),
            del_atoms(del_span_view(res.1.0@)),
            add_atoms(add_span_view(res.1.1@)),
        ),
        add_deep(add_span_view(avec@)) && add_deep(add_span_view(bvec@)) ==> del_deep(del_span_view(res.0.0@))
            && add_deep(add_span_view(res.0.1@)) && del_deep(del_span_view(res.1.0@)) && add_deep(
            add_span_view(res.1.1@),
        ),
{
    ins_transform_fuel(
        avec,
        bvec,
        Ghost(add_seq_size(add_atoms(add_span_view(avec@))) + add_seq_size(add_atoms(add_span_view(bvec@)))),
    )
}

// ---------------------------------------------------------------------------
// The transform converges.

/// A kept atom, on either side.
proof fn lemma_keep_front(e0: DocAtom, r: Seq<DocAtom>, x: Seq<DelAtom>, y: Seq<AddAtom>)
    ensures
        apply_del_atoms(seq![e0] + r, seq![DelAtom::Skip] + x) == opt_cat(Some(seq![e0]), apply_del_atoms(r, x)),
        apply_add_atoms(seq![e0] + r, seq![AddAtom::Skip] + y) == opt_cat(Some(seq![e0]), apply_add_atoms(r, y)),
{
    lemma_apply_del_step(e0, DelAtom::Skip, r, x);
    lemma_apply_del_one(e0, DelAtom::Skip);
    lemma_apply_add_step(e0, AddAtom::Skip, r, y);
    lemma_apply_add_one(e0, AddAtom::Skip);
}

/// An inserted character, in front of the rest.
proof fn lemma_text_front(e: Seq<DocAtom>, x: AddAtom, y: Seq<AddAtom>)
    requires
        x is Text,
    ensures
        apply_add_atoms(e, seq![x] + y) == opt_cat(
            Some(seq![DocAtom::Char(x->Text_0, x->Text_1)]),
            apply_add_atoms(e, y),
        ),
{
    lemma_apply_add_atoms(e, seq![x] + y);
    assert((seq![x] + y)[0] == x);
    assert((seq![x] + y).drop_first() =~= y);
}

/// What an insertion that walks over the first document atom makes: what
/// that atom becomes, then the rest.
proof fn lemma_walk_front(d: Seq<DocAtom>, a: Seq<AddAtom>)
    requires
        apply_add_atoms(d, a) is Some,
        a.len() > 0,
        a[0] is Skip || a[0] is WithGroup,
    ensures
        d.len() > 0,
        apply_add_one(d[0], a[0]) is Some,
        apply_add_atoms(d.drop_first(), a.drop_first()) is Some,
        apply_add_atoms(d, a).unwrap() == apply_add_one(d[0], a[0]).unwrap() + apply_add_atoms(
            d.drop_first(),
            a.drop_first(),
        ).unwrap(),
{
    lemma_apply_add_atoms(d, a);
}

/// What an insertion whose first atom is text makes.
proof fn lemma_text_walk(d: Seq<DocAtom>, a: Seq<AddAtom>)
    requires
        apply_add_atoms(d, a) is Some,
        a.len() > 0,
        a[0] is Text,
    ensures
        apply_add_atoms(d, a.drop_first()) is Some,
        apply_add_atoms(d, a).unwrap() == seq![DocAtom::Char(a[0]->Text_0, a[0]->Text_1)] + apply_add_atoms(
            d,
            a.drop_first(),
        ).unwrap(),
{
    lemma_apply_add_atoms(d, a);
}

/// The walk of two plain insertions converges: after the first insertion
/// its output deletion keeps everything and after the second so does the
/// other; their insertions then make one document. Where one insertion is
/// empty, the deletion that follows it is a run of kept atoms.
proof fn lemma_iw_apply(d: Seq<DocAtom>, a: Seq<AddAtom>, b: Seq<AddAtom>)
    requires
        apply_add_atoms(d, a) is Some,
        apply_add_atoms(d, b) is Some,
        ins_plain(a),
        ins_plain(b),
    ensures
        ({
            let w = ins_walk(a, b);
            let ea = apply_add_atoms(d, a).unwrap();
            let eb = apply_add_atoms(d, b).unwrap();
            &&& apply_del_atoms(ea, w.0) == Some(ea)
            &&& apply_del_atoms(eb, w.2) == Some(eb)
            &&& apply_add_atoms(ea, w.1) is Some
            &&& apply_add_atoms(ea, w.1) == apply_add_atoms(eb, w.3)
            &&& a.len() == 0 ==> w.0 == repeat(DelAtom::Skip, w.0.len()) && w.0.len() <= ea.len()
            &&& b.len() == 0 ==> w.2 == repeat(DelAtom::Skip, w.2.len()) && w.2.len() <= eb.len()
        }),
    decreases a, b,
{
    let w = ins_walk(a, b);
    let ea = apply_add_atoms(d, a).unwrap();
    let eb = apply_add_atoms(d, b).unwrap();
    if a.len() > 0 && a[0] is Text {
        let x = a[0];
        let a1 = a.drop_first();
        lemma_text_walk(d, a);
        let ea1 = apply_add_atoms(d, a1).unwrap();
        lemma_iw_apply(d, a1, b);
        let w1 = ins_walk(a1, b);
        let c = DocAtom::Char(x->Text_0, x->Text_1);
        lemma_keep_front(c, ea1, w1.0, w1.1);
        lemma_text_front(eb, x, w1.3);
        assert(w.0 == seq![DelAtom::Skip] + w1.0);
        assert(w.1 == seq![AddAtom::Skip] + w1.1);
        assert(w.2 == Seq::<DelAtom>::empty() + w1.2);
        assert(Seq::<DelAtom>::empty() + w1.2 =~= w1.2);
        assert(w.3 == seq![x] + w1.3);
    } else if b.len() > 0 && b[0] is Text {
        let y = b[0];
        let b1 = b.drop_first();
        lemma_text_walk(d, b);
        let eb1 = apply_add_atoms(d, b1).unwrap();
        lemma_iw_apply(d, a, b1);
        let w1 = ins_walk(a, b1);
        let c = DocAtom::Char(y->Text_0, y->Text_1);
        lemma_keep_front(c, eb1, w1.2, w1.3);
        lemma_text_front(ea, y, w1.1);
        assert(w.0 == Seq::<DelAtom>::empty() + w1.0);
        assert(Seq::<DelAtom>::empty() + w1.0 =~= w1.0);
        assert(w.1 == seq![y] + w1.1);
        assert(w.2 == seq![DelAtom::Skip] + w1.2);
        assert(w.3 == seq![AddAtom::Skip] + w1.3);
        if a.len() == 0 {
            assert(w.0 == w1.0);
        }
    } else if a.len() == 0 && b.len() == 0 {
        lemma_apply_add_atoms(d, a);
        lemma_apply_add_atoms(d, b);
        lemma_apply_del_atoms(ea, w.0);
        lemma_apply_del_atoms(eb, w.2);
        lemma_apply_add_atoms(ea, w.1);
        lemma_apply_add_atoms(eb, w.3);
        assert(repeat(DelAtom::Skip, 0) =~= Seq::<DelAtom>::empty()) by {
            lemma_repeat(DelAtom::Skip, 0);
        }
    } else if a.len() == 0 {
        lemma_apply_add_atoms(d, a);
        assert(ea == d);
        assert(ins_plain_one(b[0]));
        let b1 = b.drop_first();
        lemma_walk_front(d, b);
        let d1 = d.drop_first();
        let d0 = d[0];
        assert(d =~= seq![d0] + d1);
        lemma_apply_add_atoms(d1, a);
        lemma_iw_apply(d1, a, b1);
        let w1 = ins_walk(a, b1);
        let eb1 = apply_add_atoms(d1, b1).unwrap();
        lemma_apply_add_one(d0, b[0]);
        let g0 = apply_add_one(d0, b[0]).unwrap();
        assert(g0.len() == 1);
        assert(eb =~= seq![g0[0]] + eb1);
        lemma_keep_front(g0[0], eb1, w1.2, w1.3);
        lemma_repeat(DelAtom::Skip, w1.0.len());
        match b[0] {
            AddAtom::Skip => {
                lemma_keep_front(d0, d1, w1.0, w1.1);
                assert(w.0 == seq![DelAtom::Skip] + w1.0);
                assert(w.1 == seq![AddAtom::Skip] + w1.1);
                lemma_repeat(DelAtom::Skip, w.0.len());
                assert(w.0 =~= repeat(DelAtom::Skip, w.0.len()));
            },
            AddAtom::WithGroup(ib) => {
                assert(w.0 == Seq::<DelAtom>::empty() + w1.0);
                assert(Seq::<DelAtom>::empty() + w1.0 =~= w1.0);
                crate::laws::lemma_del_skips(d, w1.0.len());
                assert(w.1 == seq![b[0]] + w1.1);
                lemma_apply_add_step(d0, b[0], d1, w1.1);
            },
            _ => {},
        }
        assert(w.2 == seq![DelAtom::Skip] + w1.2);
        assert(w.3 == seq![AddAtom::Skip] + w1.3);
    } else if b.len() == 0 {
        lemma_apply_add_atoms(d, b);
        assert(eb == d);
        assert(ins_plain_one(a[0]));
        let a1 = a.drop_first();
        lemma_walk_front(d, a);
        let d1 = d.drop_first();
        let d0 = d[0];
        assert(d =~= seq![d0] + d1);
        lemma_apply_add_atoms(d1, b);
        lemma_iw_apply(d1, a1, b);
        let w1 = ins_walk(a1, b);
        let ea1 = apply_add_atoms(d1, a1).unwrap();
        lemma_apply_add_one(d0, a[0]);
        let g0 = apply_add_one(d0, a[0]).unwrap();
        assert(g0.len() == 1);
        assert(ea =~= seq![g0[0]] + ea1);
        lemma_keep_front(g0[0], ea1, w1.0, w1.1);
        lemma_repeat(DelAtom::Skip, w1.2.len());
        match a[0] {
            AddAtom::Skip => {
                lemma_keep_front(d0, d1, w1.2, w1.3);
                assert(w.2 == seq![DelAtom::Skip] + w1.2);
                assert(w.3 == seq![AddAtom::Skip] + w1.3);
                lemma_repeat(DelAtom::Skip, w.2.len());
                assert(w.2 =~= repeat(DelAtom::Skip, w.2.len()));
            },
            AddAtom::WithGroup(ia) => {
                assert(w.2 == Seq::<DelAtom>::empty() + w1.2);
                assert(Seq::<DelAtom>::empty() + w1.2 =~= w1.2);
                crate::laws::lemma_del_skips(d, w1.2.len());
                assert(w.3 == seq![a[0]] + w1.3);
                lemma_apply_add_step(d0, a[0], d1, w1.3);
            },
            _ => {},
        }
        assert(w.0 == seq![DelAtom::Skip] + w1.0);
        assert(w.1 == seq![AddAtom::Skip] + w1.1);
    } else {
        assert(ins_plain_one(a[0]));
        assert(ins_plain_one(b[0]));
        let a1 = a.drop_first();
        let b1 = b.drop_first();
        lemma_walk_front(d, a);
        lemma_walk_front(d, b);
        let d1 = d.drop_first();
        let d0 = d[0];
        lemma_iw_apply(d1, a1, b1);
        let w1 = ins_walk(a1, b1);
        let ea1 = apply_add_atoms(d1, a1).unwrap();
        let eb1 = apply_add_atoms(d1, b1).unwrap();
        lemma_apply_add_one(d0, a[0]);
        lemma_apply_add_one(d0, b[0]);
        let ga = apply_add_one(d0, a[0]).unwrap();
        let gb = apply_add_one(d0, b[0]).unwrap();
        assert(ga.len() == 1);
        assert(gb.len() == 1);
        assert(ea =~= seq![ga[0]] + ea1);
        assert(eb =~= seq![gb[0]] + eb1);
        match (a[0], b[0]) {
            (AddAtom::WithGroup(ia), AddAtom::WithGroup(ib)) => {
                assert(decreases_to!(a => a[0]));
                match d0 {
                    DocAtom::Group(at, g) => {
                        lemma_iw_apply(g, ia, ib);
                        let r = ins_walk(ia, ib);
                        let ga_in = apply_add_atoms(g, ia).unwrap();
                        let gb_in = apply_add_atoms(g, ib).unwrap();
                        assert(ga[0] == DocAtom::Group(at, ga_in));
                        assert(gb[0] == DocAtom::Group(at, gb_in));
                        lemma_apply_del_step(ga[0], DelAtom::WithGroup(r.0), ea1, w1.0);
                        lemma_apply_del_one(ga[0], DelAtom::WithGroup(r.0));
                        lemma_apply_del_step(gb[0], DelAtom::WithGroup(r.2), eb1, w1.2);
                        lemma_apply_del_one(gb[0], DelAtom::WithGroup(r.2));
                        lemma_apply_add_step(ga[0], AddAtom::WithGroup(r.1), ea1, w1.1);
                        lemma_apply_add_one(ga[0], AddAtom::WithGroup(r.1));
                        lemma_apply_add_step(gb[0], AddAtom::WithGroup(r.3), eb1, w1.3);
                        lemma_apply_add_one(gb[0], AddAtom::WithGroup(r.3));
                        assert(w.0 == seq![DelAtom::WithGroup(r.0)] + w1.0);
                        assert(w.1 == seq![AddAtom::WithGroup(r.1)] + w1.1);
                        assert(w.2 == seq![DelAtom::WithGroup(r.2)] + w1.2);
                        assert(w.3 == seq![AddAtom::WithGroup(r.3)] + w1.3);
                    },
                    _ => {},
                }
            },
            (AddAtom::WithGroup(ia), AddAtom::Skip) => {
                lemma_keep_front(ga[0], ea1, w1.0, w1.1);
                lemma_keep_front(gb[0], eb1, w1.2, w1.3);
                assert(gb[0] == d0);
                lemma_apply_add_step(d0, a[0], eb1, w1.3);
                assert(w.0 == seq![DelAtom::Skip] + w1.0);
                assert(w.1 == seq![AddAtom::Skip] + w1.1);
                assert(w.2 == seq![DelAtom::Skip] + w1.2);
                assert(w.3 == seq![a[0]] + w1.3);
            },
            (AddAtom::Skip, AddAtom::WithGroup(ib)) => {
                lemma_keep_front(ga[0], ea1, w1.0, w1.1);
                lemma_keep_front(gb[0], eb1, w1.2, w1.3);
                assert(ga[0] == d0);
                lemma_apply_add_step(d0, b[0], ea1, w1.1);
                assert(w.0 == seq![DelAtom::Skip] + w1.0);
                assert(w.1 == seq![b[0]] + w1.1);
                assert(w.2 == seq![DelAtom::Skip] + w1.2);
                assert(w.3 == seq![AddAtom::Skip] + w1.3);
            },
            _ => {
                lemma_keep_front(ga[0], ea1, w1.0, w1.1);
                lemma_keep_front(gb[0], eb1, w1.2, w1.3);
                assert(w.0 == seq![DelAtom::Skip] + w1.0);
                assert(w.1 == seq![AddAtom::Skip] + w1.1);
                assert(w.2 == seq![DelAtom::Skip] + w1.2);
                assert(w.3 == seq![AddAtom::Skip] + w1.3);
            },
        }
    }
}

/// Transformed insertions converge: where two insertions of text, kept
/// atoms and kept groups both fit a document, applying the first and then
/// the first operation of their transform gives the same document as
/// applying the second and then the second operation.
pub proof fn transform_insertions_apply(d: Seq<DocAtom>, a: Seq<AddAtom>, b: Seq<AddAtom>)
    requires
        apply_add_atoms(d, a) is Some,
        apply_add_atoms(d, b) is Some,
        ins_plain(a),
        ins_plain(b),
    ensures
        apply_op_atoms(apply_add_atoms(d, a).unwrap(), ins_walk(a, b).0, ins_walk(a, b).1) is Some,
        apply_op_atoms(apply_add_atoms(d, a).unwrap(), ins_walk(a, b).0, ins_walk(a, b).1)
            == apply_op_atoms(apply_add_atoms(d, b).unwrap(), ins_walk(a, b).2, ins_walk(a, b).3),
{
    lemma_iw_apply(d, a, b);
}

// ---------------------------------------------------------------------------
// Whole operations.

/// The stages of the transform of two operations `(ad, aa)` and `(bd, ba)`:
/// the transform of their deletions; each insertion against the deletion
/// that now follows its own; the transform of the insertions that come of
/// that.
pub open spec fn transform_op_stages(ad: Seq<DelAtom>, aa: Seq<AddAtom>, bd: Seq<DelAtom>, ba: Seq<AddAtom>) -> (
    (Seq<DelAtom>, Seq<DelAtom>),
    (Seq<DelAtom>, Seq<AddAtom>),
    (Seq<DelAtom>, Seq<AddAtom>),
    (Seq<DelAtom>, Seq<AddAtom>, Seq<DelAtom>, Seq<AddAtom>),
) {
    let t0 = del_transform_atoms(ad, bd).unwrap();
    let ta = transform_add_del_atoms(aa, t0.0).unwrap();
    let tb = transform_add_del_atoms(ba, t0.1).unwrap();
    (t0, ta, tb, ins_walk(ta.1, tb.1))
}

/// Where each stage of the transform of two operations has a result that
/// fits a `usize`, and the insertions that meet are plain.
pub open spec fn transform_op_ok(ad: Seq<DelAtom>, aa: Seq<AddAtom>, bd: Seq<DelAtom>, ba: Seq<AddAtom>) -> bool {
    &&& del_transform_atoms(ad, bd) is Some
    &&& 2 * (del_seq_size(ad) + del_seq_size(bd)) <= usize::MAX
    &&& {
        let t0 = del_transform_atoms(ad, bd).unwrap();
        &&& transform_add_del_atoms(aa, t0.0) is Some
        &&& transform_add_del_atoms(ba, t0.1) is Some
        &&& transform_add_del_fits(aa, t0.0)
        &&& transform_add_del_fits(ba, t0.1)
        &&& {
            let st = transform_op_stages(ad, aa, bd, ba);
            let (ta, tb, w) = (st.1, st.2, st.3);
            &&& ins_plain(ta.1)
            &&& ins_plain(tb.1)
            &&& add_seq_size(ta.1) + add_seq_size(tb.1) <= usize::MAX
            &&& compose_del_atoms(ta.0, w.0) is Some
            &&& compose_del_atoms(tb.0, w.2) is Some
            &&& del_seq_size(ta.0) + del_seq_size(w.0) <= usize::MAX
            &&& del_seq_size(tb.0) + del_seq_size(w.2) <= usize::MAX
        }
    }
}

/// The transform of two operations: the operation that follows the first,
/// then the one that follows the second.
pub open spec fn transform_op_atoms(ad: Seq<DelAtom>, aa: Seq<AddAtom>, bd: Seq<DelAtom>, ba: Seq<AddAtom>) -> (
    (Seq<DelAtom>, Seq<AddAtom>),
    (Seq<DelAtom>, Seq<AddAtom>),
) {
    let st = transform_op_stages(ad, aa, bd, ba);
    let (ta, tb, w) = (st.1, st.2, st.3);
    (
        (compose_del_atoms(ta.0, w.0).unwrap(), w.1),
        (compose_del_atoms(tb.0, w.2).unwrap(), w.3),
    )
}

/// Transforms two concurrent operations of one document against each
/// other: the deletions against each other, each insertion against the
/// deletion that now follows its own, the resulting insertions against each
/// other, and the deletions that follow each side composed.
pub fn transform(a: &Op, b: &Op) -> (res: (Op, Op))
    requires
        del_span_wf(del_span_view(a.0@)),
        add_span_wf(add_span_view(a.1@)),
        del_span_wf(del_span_view(b.0@)),
        add_span_wf(add_span_view(b.1@)),
        transform_op_ok(
            del_atoms(del_span_view(a.0@)),
            add_atoms(add_span_view(a.1@)),
            del_atoms(del_span_view(b.0@)),
            add_atoms(add_span_view(b.1@)),
        ),
    ensures
        del_span_wf(del_span_view(res.0.0@)),
        add_span_wf(add_span_view(res.0.1@)),
        del_span_wf(del_span_view(res.1.0@)),
        add_span_wf(add_span_view(res.1.1@)),
        del_merged(del_span_view(res.0.0@)),
        add_merged(add_span_view(res.0.1@)),
        del_merged(del_span_view(res.1.0@)),
        add_merged(add_span_view(res.1.1@)),
        transform_op_atoms(
            del_atoms(del_span_view(a.0@)),
            add_atoms(add_span_view(a.1@)),
            del_atoms(del_span_view(b.0@)),
            add_atoms(add_span_view(b.1@)),
        ) == (
            (del_atoms(del_span_view(res.0.0@)), add_atoms(add_span_view(res.0.1@))),
            (del_atoms(del_span_view(res.1.0@)), add_atoms(add_span_view(res.1.1@))),
        ),
        del_deep(del_span_view(a.0@)) && add_deep(add_span_view(a.1@)) && del_deep(del_span_view(b.0@))
            && add_deep(add_span_view(b.1@)) ==> del_deep(del_span_view(res.0.0@)) && add_deep(
            add_span_view(res.0.1@),
        ) && del_deep(del_span_view(res.1.0@)) && add_deep(add_span_view(res.1.1@)),
{
    let (a_del_0, b_del_0) = crate::transform::transform_deletions(&a.0, &b.0);
    let Op(a_del_1, a_ins_1) = crate::transform_add::transform_add_del(&a.1, &a_del_0);
    let Op(b_del_1, b_ins_1) = crate::transform_add::transform_add_del(&b.1, &b_del_0);
    let (Op(a_del_2, a_ins_2), Op(b_del_2, b_ins_2)) = transform_insertions(&a_ins_1, &b_ins_1);
    let a_del_3 = crate::compose::compose_del_del(&a_del_1, &a_del_2);
    let b_del_3 = crate::compose::compose_del_del(&b_del_1, &b_del_2);
    (Op(a_del_3, a_ins_2), Op(b_del_3, b_ins_2))
}

/// Transformed operations converge: where two operations both apply to a
/// document, and each deletion on the way (theirs, and the ones that the
/// transform makes to follow them) reaches all of every group it deletes,
/// applying the first operation and then the first part of their transform
/// gives the same document as applying the second and then the second part.
pub proof fn transform_apply(d: Seq<DocAtom>, ad: Seq<DelAtom>, aa: Seq<AddAtom>, bd: Seq<DelAtom>, ba: Seq<AddAtom>)
    requires
        apply_op_atoms(d, ad, aa) is Some,
        apply_op_atoms(d, bd, ba) is Some,
        del_covers(d, ad),
        del_covers(d, bd),
        del_transform_atoms(ad, bd) is Some,
        transform_add_del_atoms(aa, del_transform_atoms(ad, bd).unwrap().0) is Some,
        transform_add_del_atoms(ba, del_transform_atoms(ad, bd).unwrap().1) is Some,
        ins_plain(transform_op_stages(ad, aa, bd, ba).1.1),
        ins_plain(transform_op_stages(ad, aa, bd, ba).2.1),
        del_covers(apply_del_atoms(d, ad).unwrap(), del_transform_atoms(ad, bd).unwrap().0),
        del_covers(apply_del_atoms(d, bd).unwrap(), del_transform_atoms(ad, bd).unwrap().1),
        del_covers(apply_op_atoms(d, ad, aa).unwrap(), transform_op_stages(ad, aa, bd, ba).1.0),
        del_covers(apply_op_atoms(d, bd, ba).unwrap(), transform_op_stages(ad, aa, bd, ba).2.0),
    ensures
        ({
            let r = transform_op_atoms(ad, aa, bd, ba);
            &&& apply_op_atoms(apply_op_atoms(d, ad, aa).unwrap(), r.0.0, r.0.1) is Some
            &&& apply_op_atoms(apply_op_atoms(d, ad, aa).unwrap(), r.0.0, r.0.1) == apply_op_atoms(
                apply_op_atoms(d, bd, ba).unwrap(),
                r.1.0,
                r.1.1,
            )
        }),
{
    let st = transform_op_stages(ad, aa, bd, ba);
    let (t0, ta, tb, w) = (st.0, st.1, st.2, st.3);
    let y = apply_del_atoms(d, ad).unwrap();
    let z = apply_del_atoms(d, bd).unwrap();
    crate::convergence::transform_deletions_apply(d, ad, bd);
    let x = apply_del_atoms(y, t0.0).unwrap();
    crate::exchange::transform_add_del_apply(y, aa, t0.0);
    crate::exchange::transform_add_del_apply(z, ba, t0.1);
    let da = apply_add_atoms(y, aa).unwrap();
    let db = apply_add_atoms(z, ba).unwrap();
    transform_insertions_apply(x, ta.1, tb.1);
    crate::laws::compose_del_del_apply(da, ta.0, w.0);
    crate::laws::compose_del_del_apply(db, tb.0, w.2);
}
/// Transformed operations converge on documents: two documents merged at
/// every level, one reached by applying `(ad, aa)` and then its transform,
/// the other by applying `(bd, ba)` and then its transform, are the same
/// document.
pub proof fn transform_apply_documents(
    d: Seq<DocAtom>,
    ad: Seq<DelAtom>,
    aa: Seq<AddAtom>,
    bd: Seq<DelAtom>,
    ba: Seq<AddAtom>,
    x: Seq<DocNode>,
    y: Seq<DocNode>,
)
    requires
        apply_op_atoms(d, ad, aa) is Some,
        apply_op_atoms(d, bd, ba) is Some,
        del_covers(d, ad),
        del_covers(d, bd),
        del_transform_atoms(ad, bd) is Some,
        transform_add_del_atoms(aa, del_transform_atoms(ad, bd).unwrap().0) is Some,
        transform_add_del_atoms(ba, del_transform_atoms(ad, bd).unwrap().1) is Some,
        ins_plain(transform_op_stages(ad, aa, bd, ba).1.1),
        ins_plain(transform_op_stages(ad, aa, bd, ba).2.1),
        del_covers(apply_del_atoms(d, ad).unwrap(), del_transform_atoms(ad, bd).unwrap().0),
        del_covers(apply_del_atoms(d, bd).unwrap(), del_transform_atoms(ad, bd).unwrap().1),
        del_covers(apply_op_atoms(d, ad, aa).unwrap(), transform_op_stages(ad, aa, bd, ba).1.0),
        del_covers(apply_op_atoms(d, bd, ba).unwrap(), transform_op_stages(ad, aa, bd, ba).2.0),
        doc_span_wf(x),
        doc_span_wf(y),
        doc_deep(x),
        doc_deep(y),
        apply_op_atoms(
            apply_op_atoms(d, ad, aa).unwrap(),
            transform_op_atoms(ad, aa, bd, ba).0.0,
            transform_op_atoms(ad, aa, bd, ba).0.1,
        ) == Some(doc_atoms(x)),
        apply_op_atoms(
            apply_op_atoms(d, bd, ba).unwrap(),
            transform_op_atoms(ad, aa, bd, ba).1.0,
            transform_op_atoms(ad, aa, bd, ba).1.1,
        ) == Some(doc_atoms(y)),
    ensures
        x == y,
{
    transform_apply(d, ad, aa, bd, ba);
    lemma_doc_canonical_deep(x, y);
}

} // verus!
