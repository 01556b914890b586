//! Transforming an insertion against a concurrent deletion of one document:
//! a deletion to follow the insertion, and an insertion to follow the
//! deletion.
use crate::apply::lemma_repeat_first;
use crate::compose::{
    compose_del_atoms, del_run_elem, del_seq_size, dst_atoms, dst_ok, dst_take,
    lemma_del_seq_size_concat, lemma_del_seq_size_first, lemma_dst_atoms, lemma_dst_next,
};
use crate::compose_add::{
    add_seq_size, ast_atoms, ast_ok, ast_take, lemma_add_seq_size_concat, lemma_add_seq_size_first,
    lemma_ast_next,
};
use crate::doc::{
    add_atoms, add_elem_atoms, add_elem_wf, add_span_view, add_span_wf, del_atoms, del_post,
    del_span_view, del_span_wf, lemma_add_atoms_concat, lemma_add_span_view, lemma_repeat, repeat,
    AddAtom, AddElement, AddGroup, AddNode, AddSkip, AddStyles, AddText, AddWithGroup, DelAtom,
    DelElement, DelGroup, DelNode, DelSkip, DelStyles, DelText, DelWithGroup, Op,
};
use crate::place::{lemma_add_place_all_ok, lemma_add_place_ok, AddPlaceable};
use crate::stepper::{AddStepper, DelStepper};
use crate::transform::{dt_place, dt_place_all, dt_place_skips, lemma_dst_first};
use crate::place::{
    add_deep, add_deep_node, add_merged, del_deep, del_merged, lemma_add_deep_at,
    lemma_add_place_all_deep, lemma_add_place_deep, lemma_del_deep_at,
};
use crate::compose::{dst_deep, lemma_dst_deep_head, lemma_dst_deep_new, lemma_dst_deep_next};
use crate::compose_add::{ast_deep, lemma_ast_deep_head, lemma_ast_deep_new, lemma_ast_deep_next};
use vstd::prelude::*;

verus! {

// ---------------------------------------------------------------------------
// Undoing an insertion.

/// A deletion that takes out what `y` inserts and keeps what it walks over.
pub open spec fn unadd_one(y: AddAtom) -> DelAtom
    decreases y,
{
    match y {
        AddAtom::Skip => DelAtom::Skip,
        AddAtom::Styles(_) => DelAtom::Skip,
        AddAtom::Text(..) => DelAtom::Text,
        AddAtom::WithGroup(inner) => DelAtom::WithGroup(unadd_atoms(inner)),
        AddAtom::Group(_, inner) => DelAtom::Group(unadd_atoms(inner)),
    }
}

/// A deletion that takes out everything that `a` inserts, atom for atom.
pub open spec fn unadd_atoms(a: Seq<AddAtom>) -> Seq<DelAtom>
    decreases a,
{
    if a.len() == 0 {
        Seq::empty()
    } else {
        seq![unadd_one(a[0])] + unadd_atoms(a.drop_first())
    }
}

/// `unadd_atoms` of a concatenation.
pub proof fn lemma_unadd_concat(a: Seq<AddAtom>, b: Seq<AddAtom>)
    ensures
        unadd_atoms(a + b) == unadd_atoms(a) + unadd_atoms(b),
    decreases a.len(),
{
    if a.len() == 0 {
        assert(a + b =~= b);
        assert(unadd_atoms(a) + unadd_atoms(b) =~= unadd_atoms(b));
    } else {
        assert((a + b)[0] == a[0]);
        assert((a + b).drop_first() =~= a.drop_first() + b);
        lemma_unadd_concat(a.drop_first(), b);
        assert(seq![unadd_one(a[0])] + (unadd_atoms(a.drop_first()) + unadd_atoms(b)) =~= seq![
            unadd_one(a[0]),
        ] + unadd_atoms(a.drop_first()) + unadd_atoms(b));
    }
}

/// `unadd_atoms` of atoms that are all of one kind outside groups.
pub proof fn lemma_unadd_flat(xs: Seq<AddAtom>, z: DelAtom)
    requires
        forall|i: int| 0 <= i < xs.len() ==> #[trigger] unadd_one(xs[i]) == z,
    ensures
        unadd_atoms(xs) == repeat(z, xs.len()),
    decreases xs.len(),
{
    if xs.len() == 0 {
        assert(repeat(z, 0) =~= Seq::<DelAtom>::empty());
    } else {
        assert(unadd_one(xs[0]) == z);
        assert forall|i: int| 0 <= i < xs.drop_first().len() implies #[trigger] unadd_one(xs.drop_first()[i]) == z by {
            assert(xs.drop_first()[i] == xs[i + 1]);
        }
        lemma_unadd_flat(xs.drop_first(), z);
        lemma_repeat_first(z, xs.len());
    }
}

/// A deletion that takes out what an insertion inserts is as large as it.
pub proof fn lemma_unadd_size(a: Seq<AddAtom>)
    ensures
        del_seq_size(unadd_atoms(a)) == add_seq_size(a),
        unadd_atoms(a).len() == a.len(),
    decreases a,
{
    if a.len() > 0 {
        lemma_unadd_size(a.drop_first());
        lemma_add_seq_size_first(a);
        let u = unadd_atoms(a);
        assert(u.drop_first() =~= unadd_atoms(a.drop_first()));
        assert(u[0] == unadd_one(a[0]));
        lemma_del_seq_size_first(u);
        crate::compose_add::lemma_add_atom_size(a[0]);
        crate::compose::lemma_del_atom_size(u[0]);
        assert(decreases_to!(a => a[0]));
        match a[0] {
            AddAtom::WithGroup(inner) => {
                lemma_unadd_size(inner);
            },
            AddAtom::Group(_, inner) => {
                lemma_unadd_size(inner);
            },
            _ => {},
        }
    } else {
        assert(del_seq_size(Seq::<DelAtom>::empty()) == 0);
        assert(add_seq_size(Seq::<AddAtom>::empty()) == 0);
    }
}

/// `unadd_atoms` of what one element inserts.
proof fn lemma_unadd_elem(e: AddNode)
    ensures
        e matches AddNode::Skip(n) ==> unadd_atoms(add_elem_atoms(e)) == repeat(DelAtom::Skip, n),
        e matches AddNode::Styles(n, _) ==> unadd_atoms(add_elem_atoms(e)) == repeat(DelAtom::Skip, n),
        e matches AddNode::Text(_, t) ==> unadd_atoms(add_elem_atoms(e)) == repeat(DelAtom::Text, t.len()),
        e matches AddNode::WithGroup(s) ==> unadd_atoms(add_elem_atoms(e)) == seq![DelAtom::WithGroup(unadd_atoms(add_atoms(s)))],
        e matches AddNode::Group(_, s) ==> unadd_atoms(add_elem_atoms(e)) == seq![DelAtom::Group(unadd_atoms(add_atoms(s)))],
{
    match e {
        AddNode::Skip(n) => {
            lemma_repeat(AddAtom::Skip, n);
            lemma_unadd_flat(repeat(AddAtom::Skip, n), DelAtom::Skip);
        },
        AddNode::Styles(n, st) => {
            lemma_repeat(AddAtom::Styles(st), n);
            lemma_unadd_flat(repeat(AddAtom::Styles(st), n), DelAtom::Skip);
        },
        AddNode::Text(st, t) => {
            crate::doc::lemma_text_atoms(st, t);
            lemma_unadd_flat(crate::doc::add_text_atoms(st, t), DelAtom::Text);
        },
        _ => {
            let x = add_elem_atoms(e)[0];
            assert(add_elem_atoms(e) == seq![x]);
            assert(seq![x].drop_first() =~= Seq::<AddAtom>::empty());
            assert(seq![x][0] == x);
            assert(unadd_atoms(Seq::<AddAtom>::empty()) == Seq::<DelAtom>::empty());
            assert(unadd_atoms(seq![x]) == seq![unadd_one(x)] + unadd_atoms(Seq::<AddAtom>::empty()));
            assert(unadd_atoms(seq![x]) =~= seq![unadd_one(x)]);
        },
    }
}

/// A deletion that takes out everything that `add` inserts.
pub fn unadd(add: &Vec<AddElement>) -> (res: Vec<DelElement>)
    requires
        add_span_wf(add_span_view(add@)),
        add_seq_size(add_atoms(add_span_view(add@))) <= usize::MAX,
    ensures
        del_span_wf(del_span_view(res@)),
        del_atoms(del_span_view(res@)) == unadd_atoms(add_atoms(add_span_view(add@))),
        del_deep(del_span_view(res@)),
    decreases add,
{
    let ghost v = add_span_view(add@);
    proof {
        lemma_add_span_view(add@);
    }
    let mut del: Vec<DelElement> = Vec::new();
    proof {
        assert(del_span_view(del@) =~= Seq::<DelNode>::empty());
        assert(v.take(0) =~= Seq::<AddNode>::empty());
        assert(unadd_atoms(add_atoms(v.take(0))) =~= Seq::<DelAtom>::empty());
        lemma_del_deep_at(Seq::<DelNode>::empty());
    }
    for i in 0..add.len()
        invariant
            v == add_span_view(add@),
            v.len() == add@.len(),
            forall|j: int| 0 <= j < v.len() ==> #[trigger] v[j] == add@[j]@,
            add_span_wf(v),
            add_seq_size(add_atoms(v)) <= usize::MAX,
            del_span_wf(del_span_view(del@)),
            del_atoms(del_span_view(del@)) == unadd_atoms(add_atoms(v.take(i as int))),
            del_deep(del_span_view(del@)),
    {
        let ghost e = v[i as int];
        let ghost before = add_atoms(v.take(i as int));
        proof {
            assert(v.take(i + 1).drop_last() =~= v.take(i as int));
            assert(v.take(i + 1).last() == e);
            assert(add_atoms(v.take(i + 1)) == before + add_elem_atoms(e));
            lemma_add_atoms_concat(v.take(i + 1), v.skip(i + 1));
            assert(v.take(i + 1) + v.skip(i + 1) =~= v);
            lemma_add_seq_size_concat(before, add_elem_atoms(e));
            lemma_add_seq_size_concat(add_atoms(v.take(i + 1)), add_atoms(v.skip(i + 1)));
            lemma_unadd_concat(before, add_elem_atoms(e));
            lemma_unadd_size(add_atoms(v.take(i + 1)));
            lemma_unadd_elem(e);
            assert(add_elem_wf(e));
            crate::doc::lemma_add_group_wf(e);
            assert(decreases_to!(add => add@[i as int]));
        }
        match &add[i] {
            AddSkip(n) => {
                crate::transform::dt_place(&mut del, DelSkip(*n));
            },
            AddStyles(n, _) => {
                crate::transform::dt_place(&mut del, DelSkip(*n));
            },
            AddText(_, t) => {
                let n = t.char_len();
                crate::transform::dt_place(&mut del, DelText(n));
            },
            AddWithGroup(inner) => {
                proof {
                    lemma_add_seq_size_first(add_elem_atoms(e));
                    lemma_add_seq_size_concat(before, add_elem_atoms(e));
                }
                let u = unadd(inner);
                let out = DelWithGroup(u);
                proof {
                    crate::doc::lemma_del_group_wf(out@);
                }
                crate::transform::dt_place(&mut del, out);
            },
            AddGroup(_, inner) => {
                proof {
                    lemma_add_seq_size_first(add_elem_atoms(e));
                    lemma_add_seq_size_concat(before, add_elem_atoms(e));
                }
                let u = unadd(inner);
                let out = DelGroup(u);
                proof {
                    crate::doc::lemma_del_group_wf(out@);
                }
                crate::transform::dt_place(&mut del, out);
            },
        }
    }
    proof {
        assert(v.take(add.len() as int) =~= v);
    }
    del
}

/// The number of atoms that an insertion leaves: one for each atom it walks
/// over or inserts.
pub fn add_skip_post_len(span: &Vec<AddElement>) -> (res: usize)
    requires
        add_atoms(add_span_view(span@)).len() <= usize::MAX,
    ensures
        res == add_atoms(add_span_view(span@)).len(),
{
    let ghost v = add_span_view(span@);
    proof {
        lemma_add_span_view(span@);
    }
    let mut ret: usize = 0;
    for i in 0..span.len()
        invariant
            v == add_span_view(span@),
            v.len() == span@.len(),
            forall|j: int| 0 <= j < v.len() ==> #[trigger] v[j] == span@[j]@,
            add_atoms(v).len() <= usize::MAX,
            ret == add_atoms(v.take(i as int)).len(),
    {
        proof {
            assert(v.take(i + 1).drop_last() =~= v.take(i as int));
            assert(v.take(i + 1).last() == v[i as int]);
            assert(add_atoms(v.take(i + 1)) == add_atoms(v.take(i as int)) + add_elem_atoms(v[i as int]));
            lemma_add_atoms_concat(v.take(i + 1), v.skip(i + 1));
            assert(v.take(i + 1) + v.skip(i + 1) =~= v);
            match v[i as int] {
                AddNode::Skip(n) => lemma_repeat(AddAtom::Skip, n),
                AddNode::Styles(n, st) => lemma_repeat(AddAtom::Styles(st), n),
                AddNode::Text(st, t) => crate::doc::lemma_text_atoms(st, t),
                _ => {},
            }
        }
        let n = match &span[i] {
            AddSkip(n) => *n,
            AddStyles(n, _) => *n,
            AddText(_, t) => t.char_len(),
            AddWithGroup(_) => 1,
            AddGroup(..) => 1,
        };
        ret = ret + n;
    }
    proof {
        assert(v.take(span.len() as int) =~= v);
    }
    ret
}

/// Whether an insertion adds styles anywhere, inside groups too.
pub open spec fn add_styled_one(x: AddAtom) -> bool
    decreases x,
{
    match x {
        AddAtom::Styles(_) => true,
        AddAtom::WithGroup(inner) => add_styled(inner),
        AddAtom::Group(_, inner) => add_styled(inner),
        _ => false,
    }
}

pub open spec fn add_styled(a: Seq<AddAtom>) -> bool
    decreases a,
{
    if a.len() == 0 {
        false
    } else {
        add_styled_one(a[0]) || add_styled(a.drop_first())
    }
}

// ---------------------------------------------------------------------------
// An insertion and a deletion of one document, side by side.

/// The outputs of a walk with `x` and `y` written before those of `w`.
pub open spec fn ta_prepend(
    x: Seq<DelAtom>,
    y: Seq<AddAtom>,
    w: Option<(Seq<DelAtom>, Seq<AddAtom>, Seq<AddAtom>, Seq<DelAtom>)>,
) -> Option<(Seq<DelAtom>, Seq<AddAtom>, Seq<AddAtom>, Seq<DelAtom>)> {
    match w {
        Some((od, oa, ra, rb)) => Some((x + od, y + oa, ra, rb)),
        None => None,
    }
}

/// Walks an insertion `a` and a deletion `b` of one document side by side
/// until either ends. It writes a deletion that is to follow `a` (so as to do
/// what `b` does), an insertion that is to follow `b` (so as to do what `a`
/// does), and gives what is left of each. Inserted text is kept by the
/// deletion and inserted after `b`; an inserted group wraps what its
/// contents' walk against `b` makes, which the deletion walks into. A group
/// that `a` walks into and `b` deletes is deleted after `a`: where `b`
/// leaves nothing of it, with what `a` inserted into it; else with the walk
/// of their contents, whose insertion is written in place of the group.
/// `None` where they do not fit: styles on either side (added styles that
/// `a` puts into a group that `b` empties too), or a group that `a` walks
/// into where `b` deletes text.
#[verifier::opaque]
pub open spec fn add_del_transform_walk(a: Seq<AddAtom>, b: Seq<DelAtom>) -> Option<
    (Seq<DelAtom>, Seq<AddAtom>, Seq<AddAtom>, Seq<DelAtom>),
>
    decreases a, 0nat,
{
    if a.len() == 0 || b.len() == 0 {
        Some((Seq::empty(), Seq::empty(), a, b))
    } else {
        match (a[0], b[0]) {
            (AddAtom::Text(_, _), DelAtom::Styles(_)) => None,
            (AddAtom::Text(st, c), _) => ta_prepend(
                seq![DelAtom::Skip],
                seq![AddAtom::Text(st, c)],
                add_del_transform_walk(a.drop_first(), b),
            ),
            (AddAtom::Group(at, inner), _) => match add_del_transform_walk(inner, b) {
                Some((di, ai, rai, rbi)) => ta_prepend(
                    seq![DelAtom::WithGroup(di)],
                    seq![AddAtom::Group(at, ai + rai)],
                    add_del_transform_walk(a.drop_first(), rbi),
                ),
                None => None,
            },
            (AddAtom::Skip, DelAtom::Text) => ta_prepend(
                seq![DelAtom::Text],
                Seq::empty(),
                add_del_transform_walk(a.drop_first(), b.drop_first()),
            ),
            (AddAtom::Skip, DelAtom::Skip) => ta_prepend(
                seq![DelAtom::Skip],
                seq![AddAtom::Skip],
                add_del_transform_walk(a.drop_first(), b.drop_first()),
            ),
            (AddAtom::Skip, DelAtom::WithGroup(sp)) => ta_prepend(
                seq![DelAtom::WithGroup(sp)],
                seq![AddAtom::Skip],
                add_del_transform_walk(a.drop_first(), b.drop_first()),
            ),
            (AddAtom::Skip, DelAtom::Group(sp)) => ta_prepend(
                seq![DelAtom::Group(sp)],
                repeat(AddAtom::Skip, del_post(sp)),
                add_del_transform_walk(a.drop_first(), b.drop_first()),
            ),
            (AddAtom::WithGroup(ins), DelAtom::Skip) => ta_prepend(
                seq![DelAtom::Skip],
                seq![AddAtom::WithGroup(ins)],
                add_del_transform_walk(a.drop_first(), b.drop_first()),
            ),
            (AddAtom::WithGroup(ins), DelAtom::WithGroup(sp)) => match transform_add_del_atoms(ins, sp) {
                Some((d, i)) => ta_prepend(
                    seq![DelAtom::WithGroup(d)],
                    seq![AddAtom::WithGroup(i)],
                    add_del_transform_walk(a.drop_first(), b.drop_first()),
                ),
                None => None,
            },
            (AddAtom::WithGroup(ins), DelAtom::Group(sp)) => if del_post(sp) == 0 {
                if add_styled(ins) {
                    None
                } else {
                    match compose_del_atoms(unadd_atoms(ins), sp) {
                        Some(c) => ta_prepend(
                            seq![DelAtom::Group(c)],
                            Seq::empty(),
                            add_del_transform_walk(a.drop_first(), b.drop_first()),
                        ),
                        None => None,
                    }
                }
            } else {
                match add_del_transform_walk(ins, sp) {
                    Some((di, ai, rai, rbi)) => ta_prepend(
                        seq![DelAtom::Group(di + rbi + repeat(DelAtom::Skip, rai.len()))],
                        ai + repeat(AddAtom::Skip, del_post(rbi)) + rai,
                        add_del_transform_walk(a.drop_first(), b.drop_first()),
                    ),
                    None => None,
                }
            },
            _ => None,
        }
    }
}

/// The transform of an insertion `a` against a deletion `b` of one
/// document: a deletion to follow `a` and an insertion to follow `b`, so that
/// both orders end in one document. Their walk, then what is left of each:
/// the rest of `b` follows `a`, which keeps what the rest of `a` leaves, and
/// the rest of `a` follows `b`.
pub open spec fn transform_add_del_atoms(a: Seq<AddAtom>, b: Seq<DelAtom>) -> Option<
    (Seq<DelAtom>, Seq<AddAtom>),
>
    decreases a, 1nat,
{
    match add_del_transform_walk(a, b) {
        Some((od, oa, ra, rb)) => Some((od + rb + repeat(DelAtom::Skip, ra.len()), oa + ra)),
        None => None,
    }
}

/// A transform is a walk, then what is left of each.
#[verifier::spinoff_prover]
pub proof fn lemma_ta_atoms(a: Seq<AddAtom>, b: Seq<DelAtom>)
    ensures
        transform_add_del_atoms(a, b) == match add_del_transform_walk(a, b) {
            Some((od, oa, ra, rb)) => Some((od + rb + repeat(DelAtom::Skip, ra.len()), oa + ra)),
            None => None,
        },
{
}

/// A walk where either side is used up writes nothing.
pub proof fn lemma_ta_walk_end(a: Seq<AddAtom>, b: Seq<DelAtom>)
    requires
        a.len() == 0 || b.len() == 0,
    ensures
        add_del_transform_walk(a, b) == Some((Seq::<DelAtom>::empty(), Seq::<AddAtom>::empty(), a, b)),
{
    reveal(add_del_transform_walk);
}

/// One step of a walk, for a first atom of the insertion.
pub proof fn lemma_ta_walk_step(x: AddAtom, a: Seq<AddAtom>, b: Seq<DelAtom>)
    requires
        b.len() > 0,
    ensures
        add_del_transform_walk(seq![x] + a, b) == match (x, b[0]) {
            (AddAtom::Text(_, _), DelAtom::Styles(_)) => None,
            (AddAtom::Text(st, c), _) => ta_prepend(seq![DelAtom::Skip], seq![AddAtom::Text(st, c)], add_del_transform_walk(a, b)),
            (AddAtom::Group(at, inner), _) => match add_del_transform_walk(inner, b) {
                Some((di, ai, rai, rbi)) => ta_prepend(
                    seq![DelAtom::WithGroup(di)],
                    seq![AddAtom::Group(at, ai + rai)],
                    add_del_transform_walk(a, rbi),
                ),
                None => None,
            },
            (AddAtom::Skip, DelAtom::Text) => ta_prepend(seq![DelAtom::Text], Seq::empty(), add_del_transform_walk(a, b.drop_first())),
            (AddAtom::Skip, DelAtom::Skip) => ta_prepend(seq![DelAtom::Skip], seq![AddAtom::Skip], add_del_transform_walk(a, b.drop_first())),
            (AddAtom::Skip, DelAtom::WithGroup(sp)) => ta_prepend(
                seq![DelAtom::WithGroup(sp)],
                seq![AddAtom::Skip],
                add_del_transform_walk(a, b.drop_first()),
            ),
            (AddAtom::Skip, DelAtom::Group(sp)) => ta_prepend(
                seq![DelAtom::Group(sp)],
                repeat(AddAtom::Skip, del_post(sp)),
                add_del_transform_walk(a, b.drop_first()),
            ),
            (AddAtom::WithGroup(ins), DelAtom::Skip) => ta_prepend(
                seq![DelAtom::Skip],
                seq![AddAtom::WithGroup(ins)],
                add_del_transform_walk(a, b.drop_first()),
            ),
            (AddAtom::WithGroup(ins), DelAtom::WithGroup(sp)) => match transform_add_del_atoms(ins, sp) {
                Some((d, i)) => ta_prepend(
                    seq![DelAtom::WithGroup(d)],
                    seq![AddAtom::WithGroup(i)],
                    add_del_transform_walk(a, b.drop_first()),
                ),
                None => None,
            },
            (AddAtom::WithGroup(ins), DelAtom::Group(sp)) => if del_post(sp) == 0 {
                if add_styled(ins) {
                    None
                } else {
                    match compose_del_atoms(unadd_atoms(ins), sp) {
                        Some(c) => ta_prepend(seq![DelAtom::Group(c)], Seq::empty(), add_del_transform_walk(a, b.drop_first())),
                        None => None,
                    }
                }
            } else {
                match add_del_transform_walk(ins, sp) {
                    Some((di, ai, rai, rbi)) => ta_prepend(
                        seq![DelAtom::Group(di + rbi + repeat(DelAtom::Skip, rai.len()))],
                        ai + repeat(AddAtom::Skip, del_post(rbi)) + rai,
                        add_del_transform_walk(a, b.drop_first()),
                    ),
                    None => None,
                }
            },
            _ => None,
        },
{
    reveal(add_del_transform_walk);
    assert((seq![x] + a)[0] == x);
    assert((seq![x] + a).drop_first() =~= a);
}

/// Two prepends in turn are one.
pub proof fn lemma_ta_prepend_twice(
    x1: Seq<DelAtom>,
    y1: Seq<AddAtom>,
    x2: Seq<DelAtom>,
    y2: Seq<AddAtom>,
    w: Option<(Seq<DelAtom>, Seq<AddAtom>, Seq<AddAtom>, Seq<DelAtom>)>,
)
    ensures
        ta_prepend(x1, y1, ta_prepend(x2, y2, w)) == ta_prepend(x1 + x2, y1 + y2, w),
{
    match w {
        Some((od, oa, ra, rb)) => {
            assert(x1 + (x2 + od) =~= x1 + x2 + od);
            assert(y1 + (y2 + oa) =~= y1 + y2 + oa);
        },
        None => {},
    }
}

/// Inserted text against a deletion that is not at styles: kept by the
/// deletion, inserted after it.
pub proof fn lemma_ta_text_run(xs: Seq<AddAtom>, ar: Seq<AddAtom>, b: Seq<DelAtom>)
    requires
        forall|i: int| 0 <= i < xs.len() ==> #[trigger] xs[i] is Text,
        b.len() > 0,
        !(b[0] is Styles),
    ensures
        add_del_transform_walk(xs + ar, b) == ta_prepend(
            repeat(DelAtom::Skip, xs.len()),
            xs,
            add_del_transform_walk(ar, b),
        ),
    decreases xs.len(),
{
    if xs.len() == 0 {
        assert(xs + ar =~= ar);
        assert(repeat(DelAtom::Skip, 0) =~= Seq::<DelAtom>::empty());
        match add_del_transform_walk(ar, b) {
            Some((od, oa, ra, rb)) => {
                assert(Seq::<DelAtom>::empty() + od =~= od);
                assert(xs + oa =~= oa);
            },
            None => {},
        }
    } else {
        let x = xs[0];
        let xs1 = xs.drop_first();
        assert(xs + ar =~= seq![x] + (xs1 + ar));
        assert(x is Text);
        lemma_ta_walk_step(x, xs1 + ar, b);
        assert forall|i: int| 0 <= i < xs1.len() implies #[trigger] xs1[i] is Text by {
            assert(xs1[i] == xs[i + 1]);
        }
        lemma_ta_text_run(xs1, ar, b);
        lemma_ta_prepend_twice(seq![DelAtom::Skip], seq![x], repeat(DelAtom::Skip, xs1.len()), xs1, add_del_transform_walk(ar, b));
        lemma_repeat_first(DelAtom::Skip, xs.len());
        assert(seq![x] + xs1 =~= xs);
    }
}

/// What kept atoms of the insertion write against kept or deleted text of
/// the deletion, to follow the insertion.
pub open spec fn ta_counted_del(y: DelAtom) -> DelAtom {
    if y is Text { DelAtom::Text } else { DelAtom::Skip }
}

/// `n` kept atoms of the insertion against kept or deleted text.
pub proof fn lemma_ta_counted(y: DelAtom, ac: nat, bc: nat, n: nat, ar: Seq<AddAtom>, br: Seq<DelAtom>)
    requires
        y is Skip || y is Text,
        n <= ac,
        n <= bc,
    ensures
        add_del_transform_walk(repeat(AddAtom::Skip, ac) + ar, repeat(y, bc) + br) == ta_prepend(
            repeat(ta_counted_del(y), n),
            if y is Skip { repeat(AddAtom::Skip, n) } else { Seq::empty() },
            add_del_transform_walk(repeat(AddAtom::Skip, (ac - n) as nat) + ar, repeat(y, (bc - n) as nat) + br),
        ),
    decreases n,
{
    let ya = if y is Skip { repeat(AddAtom::Skip, n) } else { Seq::<AddAtom>::empty() };
    if n == 0 {
        assert(repeat(ta_counted_del(y), 0) =~= Seq::<DelAtom>::empty());
        assert(repeat(AddAtom::Skip, 0) =~= Seq::<AddAtom>::empty());
        match add_del_transform_walk(repeat(AddAtom::Skip, ac) + ar, repeat(y, bc) + br) {
            Some((od, oa, ra, rb)) => {
                assert(Seq::<DelAtom>::empty() + od =~= od);
                assert(Seq::<AddAtom>::empty() + oa =~= oa);
            },
            None => {},
        }
    } else {
        lemma_repeat_first(AddAtom::Skip, ac);
        lemma_repeat_first(y, bc);
        let a1 = repeat(AddAtom::Skip, (ac - 1) as nat) + ar;
        let b1 = repeat(y, (bc - 1) as nat) + br;
        assert(repeat(AddAtom::Skip, ac) + ar =~= seq![AddAtom::Skip] + a1);
        assert(repeat(y, bc) + br =~= seq![y] + b1);
        lemma_ta_walk_step(AddAtom::Skip, a1, seq![y] + b1);
        assert((seq![y] + b1)[0] == y);
        assert((seq![y] + b1).drop_first() =~= b1);
        lemma_ta_counted(y, (ac - 1) as nat, (bc - 1) as nat, (n - 1) as nat, ar, br);
        let pd = seq![ta_counted_del(y)];
        let pa = if y is Skip { seq![AddAtom::Skip] } else { Seq::<AddAtom>::empty() };
        lemma_ta_prepend_twice(
            pd,
            pa,
            repeat(ta_counted_del(y), (n - 1) as nat),
            if y is Skip { repeat(AddAtom::Skip, (n - 1) as nat) } else { Seq::empty() },
            add_del_transform_walk(repeat(AddAtom::Skip, (ac - n) as nat) + ar, repeat(y, (bc - n) as nat) + br),
        );
        lemma_repeat_first(ta_counted_del(y), n);
        lemma_repeat_first(AddAtom::Skip, n);
        assert(Seq::<AddAtom>::empty() + Seq::<AddAtom>::empty() =~= Seq::<AddAtom>::empty());
    }
}

// ---------------------------------------------------------------------------
// The walk, step by step.

/// The state of a walk of an insertion and a deletion: what is written to
/// follow each and both steppers, against the walk of what was there at the
/// start.
pub open spec fn ta_inv(
    dres: Seq<DelElement>,
    ares: Seq<AddElement>,
    a: AddStepper,
    b: DelStepper,
    r0d: Seq<DelAtom>,
    r0a: Seq<AddAtom>,
    w0: (Seq<DelAtom>, Seq<AddAtom>, Seq<AddAtom>, Seq<DelAtom>),
    fuel: nat,
    bound: nat,
) -> bool {
    let w = add_del_transform_walk(ast_atoms(a), dst_atoms(b));
    &&& ast_ok(a)
    &&& dst_ok(b)
    &&& del_span_wf(del_span_view(dres))
    &&& add_span_wf(add_span_view(ares))
    &&& w is Some
    &&& del_atoms(del_span_view(dres)) + w.unwrap().0 == r0d + w0.0
    &&& add_atoms(add_span_view(ares)) + w.unwrap().1 == r0a + w0.1
    &&& w.unwrap().2 == w0.2
    &&& w.unwrap().3 == w0.3
    &&& del_seq_size(r0d + w0.0) <= usize::MAX
    &&& add_seq_size(r0a + w0.1) <= usize::MAX
    &&& add_seq_size(ast_atoms(a)) <= fuel
    &&& add_seq_size(ast_atoms(a)) + del_seq_size(dst_atoms(b)) <= bound
    &&& bound <= usize::MAX
}

/// A step leaves less of both walks, and no more of either.
/// What is written and both steppers are merged at every level.
pub open spec fn ta_deep(dres: Seq<DelElement>, ares: Seq<AddElement>, a: AddStepper, b: DelStepper) -> bool {
    &&& ast_deep(a)
    &&& dst_deep(b)
    &&& del_deep(del_span_view(dres))
    &&& add_deep(add_span_view(ares))
}

pub open spec fn ta_progress(a0: AddStepper, b0: DelStepper, a1: AddStepper, b1: DelStepper) -> bool {
    &&& ast_atoms(a1).len() <= ast_atoms(a0).len()
    &&& dst_atoms(b1).len() <= dst_atoms(b0).len()
    &&& ast_atoms(a1).len() + dst_atoms(b1).len() < ast_atoms(a0).len() + dst_atoms(b0).len()
    &&& add_seq_size(ast_atoms(a1)) <= add_seq_size(ast_atoms(a0))
    &&& del_seq_size(dst_atoms(b1)) <= del_seq_size(dst_atoms(b0))
}

/// A part of what is written is no larger than all of it.
proof fn lemma_add_size_prefix(p: Seq<AddAtom>, q: Seq<AddAtom>)
    ensures
        add_seq_size(p) <= add_seq_size(p + q),
        p.len() <= add_seq_size(p),
{
    lemma_add_seq_size_concat(p, q);
    crate::compose_add::lemma_add_seq_size_len(p);
}

proof fn lemma_del_size_prefix(p: Seq<DelAtom>, q: Seq<DelAtom>)
    ensures
        del_seq_size(p) <= del_seq_size(p + q),
        p.len() <= del_seq_size(p),
{
    lemma_del_seq_size_concat(p, q);
    crate::compose::lemma_del_seq_size_len(p);
}

/// A step of the walk that writes `pd` and `pa`: what is written still
/// leads to the same end, and fits.
proof fn lemma_ta_advance(
    xd: Seq<DelAtom>,
    xa: Seq<AddAtom>,
    a0: Seq<AddAtom>,
    b0: Seq<DelAtom>,
    a1: Seq<AddAtom>,
    b1: Seq<DelAtom>,
    pd: Seq<DelAtom>,
    pa: Seq<AddAtom>,
    r0d: Seq<DelAtom>,
    r0a: Seq<AddAtom>,
    w0: (Seq<DelAtom>, Seq<AddAtom>, Seq<AddAtom>, Seq<DelAtom>),
)
    requires
        add_del_transform_walk(a0, b0) == ta_prepend(pd, pa, add_del_transform_walk(a1, b1)),
        add_del_transform_walk(a0, b0) is Some,
        xd + add_del_transform_walk(a0, b0).unwrap().0 == r0d + w0.0,
        xa + add_del_transform_walk(a0, b0).unwrap().1 == r0a + w0.1,
        add_del_transform_walk(a0, b0).unwrap().2 == w0.2,
        add_del_transform_walk(a0, b0).unwrap().3 == w0.3,
        del_seq_size(r0d + w0.0) <= usize::MAX,
        add_seq_size(r0a + w0.1) <= usize::MAX,
    ensures
        add_del_transform_walk(a1, b1) is Some,
        xd + pd + add_del_transform_walk(a1, b1).unwrap().0 == r0d + w0.0,
        xa + pa + add_del_transform_walk(a1, b1).unwrap().1 == r0a + w0.1,
        add_del_transform_walk(a1, b1).unwrap().2 == w0.2,
        add_del_transform_walk(a1, b1).unwrap().3 == w0.3,
        del_seq_size(xd + pd) <= usize::MAX,
        add_seq_size(xa + pa) <= usize::MAX,
        del_seq_size(pd) <= usize::MAX,
        add_seq_size(pa) <= usize::MAX,
{
    let w1 = add_del_transform_walk(a1, b1).unwrap();
    assert(xd + (pd + w1.0) =~= xd + pd + w1.0);
    assert(xa + (pa + w1.1) =~= xa + pa + w1.1);
    lemma_del_size_prefix(xd + pd, w1.0);
    lemma_add_size_prefix(xa + pa, w1.1);
    lemma_del_seq_size_concat(xd, pd);
    lemma_add_seq_size_concat(xa, pa);
}

/// Places one element at the end of a written insertion.
pub(crate) fn ta_place_add(res: &mut Vec<AddElement>, e: AddElement)
    requires
        add_span_wf(add_span_view(old(res)@)),
        add_elem_wf(e@),
        add_seq_size(add_atoms(add_span_view(old(res)@)) + add_elem_atoms(e@)) <= usize::MAX,
    ensures
        add_merged(add_span_view(old(res)@)) ==> add_merged(add_span_view(final(res)@)),
        add_span_wf(add_span_view(final(res)@)),
        add_atoms(add_span_view(final(res)@)) == add_atoms(add_span_view(old(res)@)) + add_elem_atoms(e@),
        add_deep(add_span_view(old(res)@)) && add_deep_node(e@) ==> add_deep(add_span_view(final(res)@)),
{
    proof {
        crate::compose_add::lemma_add_seq_size_len(add_atoms(add_span_view(res@)) + add_elem_atoms(e@));
        lemma_add_place_ok(add_span_view(res@), e@);
        lemma_add_place_deep(add_span_view(res@), e@);
    }
    res.place(&e);
}

/// Places every element of a span at the end of a written insertion.
pub(crate) fn ta_place_add_all(res: &mut Vec<AddElement>, span: &Vec<AddElement>)
    requires
        add_span_wf(add_span_view(old(res)@)),
        add_span_wf(add_span_view(span@)),
        add_seq_size(add_atoms(add_span_view(old(res)@)) + add_atoms(add_span_view(span@))) <= usize::MAX,
    ensures
        add_merged(add_span_view(old(res)@)) ==> add_merged(add_span_view(final(res)@)),
        add_span_wf(add_span_view(final(res)@)),
        add_atoms(add_span_view(final(res)@)) == add_atoms(add_span_view(old(res)@)) + add_atoms(add_span_view(span@)),
        add_deep(add_span_view(old(res)@)) && (add_deep(add_span_view(span@)) || forall|i: int|
            0 <= i < add_span_view(span@).len() ==> add_deep_node(#[trigger] add_span_view(span@)[i]))
            ==> add_deep(add_span_view(final(res)@)),
{
    proof {
        crate::compose_add::lemma_add_seq_size_len(add_atoms(add_span_view(res@)) + add_atoms(add_span_view(span@)));
        lemma_add_place_all_ok(add_span_view(res@), add_span_view(span@));
        lemma_add_deep_at(add_span_view(span@));
        lemma_add_place_all_deep(add_span_view(res@), add_span_view(span@));
    }
    res.place_all(span);
}

/// Places a run of kept atoms in a written insertion, where it is not empty.
pub(crate) fn ta_place_add_skips(res: &mut Vec<AddElement>, n: usize)
    requires
        add_span_wf(add_span_view(old(res)@)),
        add_seq_size(add_atoms(add_span_view(old(res)@)) + repeat(AddAtom::Skip, n as nat)) <= usize::MAX,
    ensures
        add_merged(add_span_view(old(res)@)) ==> add_merged(add_span_view(final(res)@)),
        add_span_wf(add_span_view(final(res)@)),
        add_atoms(add_span_view(final(res)@)) == add_atoms(add_span_view(old(res)@)) + repeat(AddAtom::Skip, n as nat),
        add_deep(add_span_view(old(res)@)) ==> add_deep(add_span_view(final(res)@)),
{
    if n > 0 {
        ta_place_add(res, AddSkip(n));
    } else {
        proof {
            assert(add_atoms(add_span_view(res@)) + repeat(AddAtom::Skip, 0) =~= add_atoms(add_span_view(res@)));
        }
    }
}

/// The first atoms of an insertion stepper, by the kind of its head.
proof fn lemma_ast_first(s: AddStepper)
    requires
        ast_ok(s),
        s.head is Some,
    ensures
        ast_atoms(s).len() > 0,
        add_elem_wf(s.head.unwrap()@),
        ast_atoms(s) == add_elem_atoms(s.head.unwrap()@) + add_atoms(s.rest_view()),
        add_seq_size(ast_atoms(s)) == add_seq_size(add_elem_atoms(s.head.unwrap()@)) + add_seq_size(add_atoms(s.rest_view())),
        s.head.unwrap()@ matches AddNode::Skip(n) ==> n > 0 && ast_atoms(s) == repeat(AddAtom::Skip, n) + add_atoms(s.rest_view())
            && ast_atoms(s)[0] == AddAtom::Skip,
        s.head.unwrap()@ matches AddNode::Styles(n, st) ==> n > 0 && ast_atoms(s)[0] == AddAtom::Styles(st),
        s.head.unwrap()@ matches AddNode::Text(st, t) ==> t.len() > 0 && ast_atoms(s)[0] is Text
            && (forall|i: int| 0 <= i < t.len() ==> #[trigger] crate::doc::add_text_atoms(st, t)[i] is Text)
            && crate::doc::add_text_atoms(st, t).len() == t.len(),
        s.head.unwrap()@ matches AddNode::Group(at, sp) ==> ast_atoms(s) == seq![AddAtom::Group(at, add_atoms(sp))]
            + add_atoms(s.rest_view()) && add_span_wf(sp),
        s.head.unwrap()@ matches AddNode::WithGroup(sp) ==> ast_atoms(s) == seq![AddAtom::WithGroup(add_atoms(sp))]
            + add_atoms(s.rest_view()) && add_span_wf(sp),
{
    crate::compose_add::lemma_ast_atoms(s);
    let h = s.head.unwrap()@;
    crate::doc::lemma_add_group_wf(h);
    lemma_add_seq_size_concat(add_elem_atoms(h), add_atoms(s.rest_view()));
    match h {
        AddNode::Skip(n) => lemma_repeat(AddAtom::Skip, n),
        AddNode::Styles(n, st) => lemma_repeat(AddAtom::Styles(st), n),
        AddNode::Text(st, t) => crate::doc::lemma_text_atoms(st, t),
        _ => {},
    }
}

/// Inserted text: kept by the deletion that follows the insertion, and
/// inserted after the deletion.
#[verifier::spinoff_prover]
fn ta_step_text(
    dres: &mut Vec<DelElement>,
    ares: &mut Vec<AddElement>,
    a: &mut AddStepper,
    b: &mut DelStepper,
    Ghost(r0d): Ghost<Seq<DelAtom>>,
    Ghost(r0a): Ghost<Seq<AddAtom>>,
    Ghost(w0): Ghost<(Seq<DelAtom>, Seq<AddAtom>, Seq<AddAtom>, Seq<DelAtom>)>,
    Ghost(fuel): Ghost<nat>,
    Ghost(bound): Ghost<nat>,
)
    requires
        ta_inv(old(dres)@, old(ares)@, *old(a), *old(b), r0d, r0a, w0, fuel, bound),
        old(a).head matches Some(h) && h is AddText,
        old(b).head is Some,
    ensures
        del_merged(del_span_view(old(dres)@)) ==> del_merged(del_span_view(final(dres)@)),
        add_merged(add_span_view(old(ares)@)) ==> add_merged(add_span_view(final(ares)@)),
        ta_inv(final(dres)@, final(ares)@, *final(a), *final(b), r0d, r0a, w0, fuel, bound),
        ta_deep(old(dres)@, old(ares)@, *old(a), *old(b)) ==> ta_deep(final(dres)@, final(ares)@, *final(a), *final(b)),
        ta_progress(*old(a), *old(b), *final(a), *final(b)),
{
    proof {
        lemma_ast_deep_head(*a);
        lemma_dst_deep_head(*b);
        lemma_ast_first(*a);
        lemma_dst_first(*b);
    }
    let ghost ar = add_atoms(a.rest_view());
    let ghost a0 = *a;
    let ghost b0 = *b;
    let ghost xd = del_atoms(del_span_view(dres@));
    let ghost xa = add_atoms(add_span_view(ares@));
    let is_styles = match &b.head {
        Some(DelStyles(..)) => true,
        _ => false,
    };
    if is_styles {
        proof {
            let aa = ast_atoms(a0);
            assert(aa =~= seq![aa[0]] + aa.drop_first());
            lemma_ta_walk_step(aa[0], aa.drop_first(), dst_atoms(b0));
        }
        return ;
    }
    let h = a.get_head();
    let n = match &h {
        AddText(_, t) => t.char_len(),
        _ => {
            proof {
                assert(false);
            }
            return ;
        },
    };
    let ghost xs = add_elem_atoms(h@);
    proof {
        lemma_ta_text_run(xs, ar, dst_atoms(b0));
        lemma_ta_advance(xd, xa, ast_atoms(a0), dst_atoms(b0), ar, dst_atoms(b0), repeat(DelAtom::Skip, n as nat), xs, r0d, r0a, w0);
        crate::compose_add::lemma_add_size_flat(xs, ar);
    }
    dt_place(dres, DelSkip(n));
    ta_place_add(ares, h);
    a.next();
    proof {
        lemma_ast_next(a0, *a);
        lemma_ast_deep_next(a0, *a);
    }
}

/// Kept atoms of the insertion: what the deletion does there follows the
/// insertion, and the insertion keeps what the deletion leaves.
#[verifier::spinoff_prover]
fn ta_step_skip(
    dres: &mut Vec<DelElement>,
    ares: &mut Vec<AddElement>,
    a: &mut AddStepper,
    b: &mut DelStepper,
    Ghost(r0d): Ghost<Seq<DelAtom>>,
    Ghost(r0a): Ghost<Seq<AddAtom>>,
    Ghost(w0): Ghost<(Seq<DelAtom>, Seq<AddAtom>, Seq<AddAtom>, Seq<DelAtom>)>,
    Ghost(fuel): Ghost<nat>,
    Ghost(bound): Ghost<nat>,
)
    requires
        ta_inv(old(dres)@, old(ares)@, *old(a), *old(b), r0d, r0a, w0, fuel, bound),
        old(a).head matches Some(h) && h is AddSkip,
        old(b).head is Some,
    ensures
        del_merged(del_span_view(old(dres)@)) ==> del_merged(del_span_view(final(dres)@)),
        add_merged(add_span_view(old(ares)@)) ==> add_merged(add_span_view(final(ares)@)),
        ta_inv(final(dres)@, final(ares)@, *final(a), *final(b), r0d, r0a, w0, fuel, bound),
        ta_deep(old(dres)@, old(ares)@, *old(a), *old(b)) ==> ta_deep(final(dres)@, final(ares)@, *final(a), *final(b)),
        ta_progress(*old(a), *old(b), *final(a), *final(b)),
{
    proof {
        lemma_ast_deep_head(*a);
        lemma_dst_deep_head(*b);
        lemma_ast_first(*a);
        lemma_dst_first(*b);
    }
    let ghost ar = add_atoms(a.rest_view());
    let ghost br = del_atoms(b.rest_view());
    let ghost a0 = *a;
    let ghost b0 = *b;
    let ghost xd = del_atoms(del_span_view(dres@));
    let ghost xa = add_atoms(add_span_view(ares@));
    let c = match a.get_head() {
        AddSkip(c) => c,
        _ => {
            proof {
                assert(false);
            }
            return ;
        },
    };
    let bk: u8 = match &b.head {
        Some(DelSkip(_)) => 0,
        Some(DelText(_)) => 1,
        Some(DelGroup(_)) => 2,
        Some(DelWithGroup(_)) => 3,
        _ => 4,
    };
    let ghost a1 = repeat(AddAtom::Skip, (c - 1) as nat) + ar;
    proof {
        lemma_repeat_first(AddAtom::Skip, c as nat);
        assert(ast_atoms(a0) =~= seq![AddAtom::Skip] + a1);
        crate::compose_add::lemma_add_size_repeat(AddAtom::Skip, c as nat, ar);
        crate::compose_add::lemma_add_size_repeat(AddAtom::Skip, (c - 1) as nat, ar);
        lemma_repeat(AddAtom::Skip, (c - 1) as nat);
    }
    if bk == 4 {
        proof {
            lemma_ta_walk_step(AddAtom::Skip, a1, dst_atoms(b0));
        }
        return ;
    }
    if bk <= 1 {
        let d = match b.get_head() {
            DelSkip(d) => d,
            DelText(d) => d,
            _ => {
                proof {
                    assert(false);
                }
                return ;
            },
        };
        let n = if c < d {
            c
        } else {
            d
        };
        let ghost y = if bk == 1 {
            DelAtom::Text
        } else {
            DelAtom::Skip
        };
        let ghost an = repeat(AddAtom::Skip, (c - n) as nat) + ar;
        let ghost bn = repeat(y, (d - n) as nat) + br;
        let ghost pd = repeat(ta_counted_del(y), n as nat);
        let ghost pa = if y is Skip { repeat(AddAtom::Skip, n as nat) } else { Seq::<AddAtom>::empty() };
        proof {
            lemma_ta_counted(y, c as nat, d as nat, n as nat, ar, br);
            lemma_ta_advance(xd, xa, ast_atoms(a0), dst_atoms(b0), an, bn, pd, pa, r0d, r0a, w0);
            crate::compose_add::lemma_add_size_repeat(AddAtom::Skip, (c - n) as nat, ar);
            crate::compose::lemma_del_size_repeat(y, d as nat, br);
            crate::compose::lemma_del_size_repeat(y, (d - n) as nat, br);
        }
        if bk == 0 {
            dt_place(dres, DelSkip(n));
            ta_place_add(ares, AddSkip(n));
        } else {
            dt_place(dres, DelText(n));
            proof {
                assert(xa + pa =~= xa);
            }
        }
        ast_take(a, n, c, AddSkip(c - n), Ghost(AddAtom::Skip));
        dst_take(b, n, d, del_run_elem(if bk == 1 { 1 } else { 0 }, crate::rtf::StyleSet::new(), d - n), Ghost(y));
    } else {
        let ghost y = dst_atoms(b0)[0];
        proof {
            lemma_ta_walk_step(AddAtom::Skip, a1, dst_atoms(b0));
            assert(dst_atoms(b0).drop_first() =~= br);
            lemma_del_seq_size_first(dst_atoms(b0));
        }
        let bh = b.next().unwrap();
        proof {
            lemma_dst_next(b0, *b);
            lemma_dst_deep_next(b0, *b);
        }
        if bk == 2 {
            let post = match &bh {
                DelGroup(inner) => {
                    proof {
                        let pa = repeat(AddAtom::Skip, del_post(del_atoms(del_span_view(inner@))));
                        lemma_ta_advance(xd, xa, ast_atoms(a0), dst_atoms(b0), a1, br, seq![y], pa, r0d, r0a, w0);
                        crate::compose_add::lemma_add_size_repeat(AddAtom::Skip, del_post(del_atoms(del_span_view(inner@))), Seq::empty());
                        assert(pa + Seq::<AddAtom>::empty() =~= pa);
                        lemma_repeat(AddAtom::Skip, del_post(del_atoms(del_span_view(inner@))));
                    }
                    crate::place::del_skip_post_len(inner)
                },
                _ => {
                    proof {
                        assert(false);
                    }
                    return ;
                },
            };
            dt_place(dres, bh);
            ta_place_add_skips(ares, post);
        } else {
            proof {
                lemma_ta_advance(xd, xa, ast_atoms(a0), dst_atoms(b0), a1, br, seq![y], seq![AddAtom::Skip], r0d, r0a, w0);
                lemma_repeat(AddAtom::Skip, 1);
                assert(repeat(AddAtom::Skip, 1) =~= seq![AddAtom::Skip]);
            }
            dt_place(dres, bh);
            ta_place_add(ares, AddSkip(1));
        }
        ast_take(a, 1, c, AddSkip(c - 1), Ghost(AddAtom::Skip));
    }
}

/// A group that the insertion walks into, where the deletion keeps the atom.
#[verifier::spinoff_prover]
fn ta_step_with_skip(
    dres: &mut Vec<DelElement>,
    ares: &mut Vec<AddElement>,
    a: &mut AddStepper,
    b: &mut DelStepper,
    Ghost(r0d): Ghost<Seq<DelAtom>>,
    Ghost(r0a): Ghost<Seq<AddAtom>>,
    Ghost(w0): Ghost<(Seq<DelAtom>, Seq<AddAtom>, Seq<AddAtom>, Seq<DelAtom>)>,
    Ghost(fuel): Ghost<nat>,
    Ghost(bound): Ghost<nat>,
)
    requires
        ta_inv(old(dres)@, old(ares)@, *old(a), *old(b), r0d, r0a, w0, fuel, bound),
        old(a).head matches Some(h) && h is AddWithGroup,
        old(b).head matches Some(h) && h is DelSkip,
    ensures
        del_merged(del_span_view(old(dres)@)) ==> del_merged(del_span_view(final(dres)@)),
        add_merged(add_span_view(old(ares)@)) ==> add_merged(add_span_view(final(ares)@)),
        ta_inv(final(dres)@, final(ares)@, *final(a), *final(b), r0d, r0a, w0, fuel, bound),
        ta_deep(old(dres)@, old(ares)@, *old(a), *old(b)) ==> ta_deep(final(dres)@, final(ares)@, *final(a), *final(b)),
        ta_progress(*old(a), *old(b), *final(a), *final(b)),
{
    proof {
        lemma_ast_deep_head(*a);
        lemma_dst_deep_head(*b);
        lemma_ast_first(*a);
        lemma_dst_first(*b);
    }
    let ghost ar = add_atoms(a.rest_view());
    let ghost br = del_atoms(b.rest_view());
    let ghost a0 = *a;
    let ghost b0 = *b;
    let ghost xd = del_atoms(del_span_view(dres@));
    let ghost xa = add_atoms(add_span_view(ares@));
    let d = match b.get_head() {
        DelSkip(d) => d,
        _ => {
            proof {
                assert(false);
            }
            return ;
        },
    };
    let ghost x = ast_atoms(a0)[0];
    let ghost b1 = repeat(DelAtom::Skip, (d - 1) as nat) + br;
    proof {
        lemma_repeat_first(DelAtom::Skip, d as nat);
        assert(dst_atoms(b0) =~= seq![DelAtom::Skip] + b1);
        assert(ast_atoms(a0).drop_first() =~= ar);
        assert(ast_atoms(a0) =~= seq![x] + ar);
        lemma_ta_walk_step(x, ar, dst_atoms(b0));
        assert(dst_atoms(b0).drop_first() =~= b1);
        lemma_ta_advance(xd, xa, ast_atoms(a0), dst_atoms(b0), ar, b1, seq![DelAtom::Skip], seq![x], r0d, r0a, w0);
        crate::compose::lemma_del_size_repeat(DelAtom::Skip, d as nat, br);
        crate::compose::lemma_del_size_repeat(DelAtom::Skip, (d - 1) as nat, br);
        lemma_repeat(DelAtom::Skip, (d - 1) as nat);
        lemma_add_seq_size_first(ast_atoms(a0));
        lemma_repeat(DelAtom::Skip, 1);
        assert(repeat(DelAtom::Skip, 1) =~= seq![DelAtom::Skip]);
    }
    let ah = a.next().unwrap();
    proof {
        lemma_ast_next(a0, *a);
        lemma_ast_deep_next(a0, *a);
    }
    dt_place(dres, DelSkip(1));
    ta_place_add(ares, ah);
    dst_take(b, 1, d, DelSkip(d - 1), Ghost(DelAtom::Skip));
}

/// A group that the insertion inserts: its contents walk against the
/// deletion, which walks into the group after the insertion.
#[verifier::spinoff_prover]
fn ta_step_group(
    dres: &mut Vec<DelElement>,
    ares: &mut Vec<AddElement>,
    a: &mut AddStepper,
    b: &mut DelStepper,
    Ghost(r0d): Ghost<Seq<DelAtom>>,
    Ghost(r0a): Ghost<Seq<AddAtom>>,
    Ghost(w0): Ghost<(Seq<DelAtom>, Seq<AddAtom>, Seq<AddAtom>, Seq<DelAtom>)>,
    Ghost(fuel): Ghost<nat>,
    Ghost(bound): Ghost<nat>,
)
    requires
        ta_inv(old(dres)@, old(ares)@, *old(a), *old(b), r0d, r0a, w0, fuel, bound),
        old(a).head matches Some(h) && h is AddGroup,
        old(b).head is Some,
    ensures
        del_merged(del_span_view(old(dres)@)) ==> del_merged(del_span_view(final(dres)@)),
        add_merged(add_span_view(old(ares)@)) ==> add_merged(add_span_view(final(ares)@)),
        ta_inv(final(dres)@, final(ares)@, *final(a), *final(b), r0d, r0a, w0, fuel, bound),
        ta_deep(old(dres)@, old(ares)@, *old(a), *old(b)) ==> ta_deep(final(dres)@, final(ares)@, *final(a), *final(b)),
        ta_progress(*old(a), *old(b), *final(a), *final(b)),
    decreases fuel, 0nat,
{
    proof {
        lemma_ast_deep_head(*a);
        lemma_dst_deep_head(*b);
        lemma_ast_first(*a);
        lemma_dst_first(*b);
    }
    let ghost ar = add_atoms(a.rest_view());
    let ghost a0 = *a;
    let ghost b0 = *b;
    let ghost xd = del_atoms(del_span_view(dres@));
    let ghost xa = add_atoms(add_span_view(ares@));
    let ghost x = ast_atoms(a0)[0];
    proof {
        assert(ast_atoms(a0) =~= seq![x] + ar);
        lemma_ta_walk_step(x, ar, dst_atoms(b0));
        lemma_add_seq_size_first(ast_atoms(a0));
        assert(ast_atoms(a0).drop_first() =~= ar);
    }
    let ah = a.next().unwrap();
    proof {
        lemma_ast_next(a0, *a);
        lemma_ast_deep_next(a0, *a);
        crate::doc::lemma_add_group_wf(ah@);
    }
    match ah {
        AddGroup(at, inner) => {
            let ghost iv = add_atoms(add_span_view(inner@));
            let ghost wi = add_del_transform_walk(iv, dst_atoms(b0)).unwrap();
            let mut di: Vec<DelElement> = Vec::new();
            let mut ai: Vec<AddElement> = Vec::new();
            let mut a_inner = AddStepper::new(&inner);
            proof {
                lemma_ast_deep_new(a_inner, add_span_view(inner@));
                lemma_del_deep_at(Seq::<DelNode>::empty());
                lemma_add_deep_at(Seq::<AddNode>::empty());
                let pd = seq![DelAtom::WithGroup(wi.0)];
                let pa = seq![AddAtom::Group(at, wi.1 + wi.2)];
                lemma_ta_advance(xd, xa, ast_atoms(a0), dst_atoms(b0), ar, wi.3, pd, pa, r0d, r0a, w0);
                lemma_del_seq_size_first(pd);
                lemma_add_seq_size_first(pa);
                lemma_add_size_prefix(wi.1, wi.2);
                assert(del_span_view(di@) =~= Seq::<DelNode>::empty());
                assert(add_span_view(ai@) =~= Seq::<AddNode>::empty());
                assert(del_atoms(Seq::<DelNode>::empty()) =~= Seq::<DelAtom>::empty());
                assert(add_atoms(Seq::<AddNode>::empty()) =~= Seq::<AddAtom>::empty());
                assert(Seq::<DelAtom>::empty() + wi.0 =~= wi.0);
                assert(Seq::<AddAtom>::empty() + wi.1 =~= wi.1);
            }
            ta_walk(&mut di, &mut ai, &mut a_inner, b, Ghost(add_seq_size(iv)), Ghost(bound));
            proof {
                crate::compose_add::lemma_ast_atoms(a_inner);
            }
            let rest = a_inner.into_span();
            ta_place_add_all(&mut ai, &rest);
            let g = AddGroup(at, ai);
            let w = DelWithGroup(di);
            proof {
                crate::doc::lemma_add_group_wf(g@);
                crate::doc::lemma_del_group_wf(w@);
            }
            ta_place_add(ares, g);
            dt_place(dres, w);
        },
        _ => {
            proof {
                assert(false);
            }
        },
    }
}

/// A group that the insertion walks into and the deletion keeps: the
/// transform of their contents.
#[verifier::spinoff_prover]
fn ta_step_with_with(
    dres: &mut Vec<DelElement>,
    ares: &mut Vec<AddElement>,
    a: &mut AddStepper,
    b: &mut DelStepper,
    Ghost(r0d): Ghost<Seq<DelAtom>>,
    Ghost(r0a): Ghost<Seq<AddAtom>>,
    Ghost(w0): Ghost<(Seq<DelAtom>, Seq<AddAtom>, Seq<AddAtom>, Seq<DelAtom>)>,
    Ghost(fuel): Ghost<nat>,
    Ghost(bound): Ghost<nat>,
)
    requires
        ta_inv(old(dres)@, old(ares)@, *old(a), *old(b), r0d, r0a, w0, fuel, bound),
        old(a).head matches Some(h) && h is AddWithGroup,
        old(b).head matches Some(h) && h is DelWithGroup,
    ensures
        del_merged(del_span_view(old(dres)@)) ==> del_merged(del_span_view(final(dres)@)),
        add_merged(add_span_view(old(ares)@)) ==> add_merged(add_span_view(final(ares)@)),
        ta_inv(final(dres)@, final(ares)@, *final(a), *final(b), r0d, r0a, w0, fuel, bound),
        ta_deep(old(dres)@, old(ares)@, *old(a), *old(b)) ==> ta_deep(final(dres)@, final(ares)@, *final(a), *final(b)),
        ta_progress(*old(a), *old(b), *final(a), *final(b)),
    decreases fuel, 0nat,
{
    proof {
        lemma_ast_deep_head(*a);
        lemma_dst_deep_head(*b);
        lemma_ast_first(*a);
        lemma_dst_first(*b);
    }
    let ghost ar = add_atoms(a.rest_view());
    let ghost br = del_atoms(b.rest_view());
    let ghost a0 = *a;
    let ghost b0 = *b;
    let ghost xd = del_atoms(del_span_view(dres@));
    let ghost xa = add_atoms(add_span_view(ares@));
    let ghost x = ast_atoms(a0)[0];
    proof {
        assert(ast_atoms(a0) =~= seq![x] + ar);
        lemma_ta_walk_step(x, ar, dst_atoms(b0));
        assert(dst_atoms(b0).drop_first() =~= br);
        lemma_add_seq_size_first(ast_atoms(a0));
        lemma_del_seq_size_first(dst_atoms(b0));
        assert(ast_atoms(a0).drop_first() =~= ar);
    }
    let ah = a.next().unwrap();
    let bh = b.next().unwrap();
    proof {
        lemma_ast_next(a0, *a);
        lemma_ast_deep_next(a0, *a);
        lemma_dst_next(b0, *b);
        lemma_dst_deep_next(b0, *b);
        crate::doc::lemma_add_group_wf(ah@);
        crate::doc::lemma_del_group_wf(bh@);
    }
    match (ah, bh) {
        (AddWithGroup(ins), DelWithGroup(sp)) => {
            let ghost t = transform_add_del_atoms(add_atoms(add_span_view(ins@)), del_atoms(del_span_view(sp@))).unwrap();
            proof {
                let pd = seq![DelAtom::WithGroup(t.0)];
                let pa = seq![AddAtom::WithGroup(t.1)];
                lemma_ta_advance(xd, xa, ast_atoms(a0), dst_atoms(b0), ar, br, pd, pa, r0d, r0a, w0);
                lemma_del_seq_size_first(pd);
                lemma_add_seq_size_first(pa);
            }
            let (d, i) = transform_add_fuel(&ins, &sp, Ghost(add_seq_size(add_atoms(add_span_view(ins@)))), Ghost(bound));
            let od = DelWithGroup(d);
            let oa = AddWithGroup(i);
            proof {
                crate::doc::lemma_del_group_wf(od@);
                crate::doc::lemma_add_group_wf(oa@);
            }
            dt_place(dres, od);
            ta_place_add(ares, oa);
        },
        _ => {
            proof {
                assert(false);
            }
        },
    }
}

/// A group that the insertion walks into and the deletion deletes: deleted
/// after the insertion, with what the insertion put into it where the
/// deletion leaves nothing of it, and else with the walk of their contents.
#[verifier::spinoff_prover]
#[verifier::rlimit(40)]
fn ta_step_with_group(
    dres: &mut Vec<DelElement>,
    ares: &mut Vec<AddElement>,
    a: &mut AddStepper,
    b: &mut DelStepper,
    Ghost(r0d): Ghost<Seq<DelAtom>>,
    Ghost(r0a): Ghost<Seq<AddAtom>>,
    Ghost(w0): Ghost<(Seq<DelAtom>, Seq<AddAtom>, Seq<AddAtom>, Seq<DelAtom>)>,
    Ghost(fuel): Ghost<nat>,
    Ghost(bound): Ghost<nat>,
)
    requires
        ta_inv(old(dres)@, old(ares)@, *old(a), *old(b), r0d, r0a, w0, fuel, bound),
        old(a).head matches Some(h) && h is AddWithGroup,
        old(b).head matches Some(h) && h is DelGroup,
    ensures
        del_merged(del_span_view(old(dres)@)) ==> del_merged(del_span_view(final(dres)@)),
        add_merged(add_span_view(old(ares)@)) ==> add_merged(add_span_view(final(ares)@)),
        ta_inv(final(dres)@, final(ares)@, *final(a), *final(b), r0d, r0a, w0, fuel, bound),
        ta_deep(old(dres)@, old(ares)@, *old(a), *old(b)) ==> ta_deep(final(dres)@, final(ares)@, *final(a), *final(b)),
        ta_progress(*old(a), *old(b), *final(a), *final(b)),
    decreases fuel, 0nat,
{
    proof {
        lemma_ast_deep_head(*a);
        lemma_dst_deep_head(*b);
        lemma_ast_first(*a);
        lemma_dst_first(*b);
    }
    let ghost ar = add_atoms(a.rest_view());
    let ghost br = del_atoms(b.rest_view());
    let ghost a0 = *a;
    let ghost b0 = *b;
    let ghost xd = del_atoms(del_span_view(dres@));
    let ghost xa = add_atoms(add_span_view(ares@));
    let ghost x = ast_atoms(a0)[0];
    proof {
        assert(ast_atoms(a0) =~= seq![x] + ar);
        lemma_ta_walk_step(x, ar, dst_atoms(b0));
        assert(dst_atoms(b0).drop_first() =~= br);
        lemma_add_seq_size_first(ast_atoms(a0));
        lemma_del_seq_size_first(dst_atoms(b0));
        assert(ast_atoms(a0).drop_first() =~= ar);
    }
    let ah = a.next().unwrap();
    let bh = b.next().unwrap();
    proof {
        lemma_ast_next(a0, *a);
        lemma_ast_deep_next(a0, *a);
        lemma_dst_next(b0, *b);
        lemma_dst_deep_next(b0, *b);
        crate::doc::lemma_add_group_wf(ah@);
        crate::doc::lemma_del_group_wf(bh@);
    }
    let (ins, sp) = match (ah, bh) {
        (AddWithGroup(ins), DelGroup(sp)) => (ins, sp),
        _ => {
            proof {
                assert(false);
            }
            return ;
        },
    };
    let ghost iv = add_atoms(add_span_view(ins@));
    let ghost sv = del_atoms(del_span_view(sp@));
    proof {
        crate::compose_op::lemma_del_post_le_size(sv);
    }
    let post = crate::place::del_skip_post_len(&sp);
    if post == 0 {
        let ghost c = compose_del_atoms(unadd_atoms(iv), sv).unwrap();
        proof {
            let pd = seq![DelAtom::Group(c)];
            lemma_ta_advance(xd, xa, ast_atoms(a0), dst_atoms(b0), ar, br, pd, Seq::empty(), r0d, r0a, w0);
            assert(xa + Seq::<AddAtom>::empty() =~= xa);
            lemma_unadd_size(iv);
        }
        let u = unadd(&ins);
        let c = crate::compose::compose_del_del(&u, &sp);
        let g = DelGroup(c);
        proof {
            crate::doc::lemma_del_group_wf(g@);
        }
        dt_place(dres, g);
    } else {
        let ghost wi = add_del_transform_walk(iv, sv).unwrap();
        let ghost dfin = wi.0 + wi.3 + repeat(DelAtom::Skip, wi.2.len());
        let ghost afin = wi.1 + repeat(AddAtom::Skip, del_post(wi.3)) + wi.2;
        let mut di: Vec<DelElement> = Vec::new();
        let mut ai: Vec<AddElement> = Vec::new();
        let mut a_inner = AddStepper::new(&ins);
        let mut b_inner = DelStepper::new(&sp);
        proof {
            lemma_ast_deep_new(a_inner, add_span_view(ins@));
            lemma_dst_deep_new(b_inner, del_span_view(sp@));
            lemma_del_deep_at(Seq::<DelNode>::empty());
            lemma_add_deep_at(Seq::<AddNode>::empty());
            let pd = seq![DelAtom::Group(dfin)];
            lemma_ta_advance(xd, xa, ast_atoms(a0), dst_atoms(b0), ar, br, pd, afin, r0d, r0a, w0);
            lemma_del_seq_size_first(pd);
            lemma_del_size_prefix(wi.0 + wi.3, repeat(DelAtom::Skip, wi.2.len()));
            lemma_del_size_prefix(wi.0, wi.3);
            lemma_add_size_prefix(wi.1 + repeat(AddAtom::Skip, del_post(wi.3)), wi.2);
            lemma_add_size_prefix(wi.1, repeat(AddAtom::Skip, del_post(wi.3)));
            lemma_del_seq_size_concat(wi.0 + wi.3, repeat(DelAtom::Skip, wi.2.len()));
            lemma_del_seq_size_concat(wi.0, wi.3);
            lemma_add_seq_size_concat(wi.1 + repeat(AddAtom::Skip, del_post(wi.3)), wi.2);
            lemma_add_seq_size_concat(wi.1, repeat(AddAtom::Skip, del_post(wi.3)));
            crate::compose_add::lemma_add_size_repeat(AddAtom::Skip, del_post(wi.3), Seq::empty());
            assert(repeat(AddAtom::Skip, del_post(wi.3)) + Seq::<AddAtom>::empty() =~= repeat(AddAtom::Skip, del_post(wi.3)));
            crate::compose_add::lemma_add_seq_size_len(wi.2);
            assert(del_span_view(di@) =~= Seq::<DelNode>::empty());
            assert(add_span_view(ai@) =~= Seq::<AddNode>::empty());
            assert(del_atoms(Seq::<DelNode>::empty()) =~= Seq::<DelAtom>::empty());
            assert(add_atoms(Seq::<AddNode>::empty()) =~= Seq::<AddAtom>::empty());
            assert(Seq::<DelAtom>::empty() + wi.0 =~= wi.0);
            assert(Seq::<AddAtom>::empty() + wi.1 =~= wi.1);
        }
        ta_walk(&mut di, &mut ai, &mut a_inner, &mut b_inner, Ghost(add_seq_size(iv)), Ghost(bound));
        proof {
            crate::compose_add::lemma_ast_atoms(a_inner);
            lemma_dst_atoms(b_inner);
        }
        let rb = b_inner.into_span();
        let ra = a_inner.into_span();
        dt_place_all(&mut di, &rb);
        let nra = add_skip_post_len(&ra);
        dt_place_skips(&mut di, nra);
        let nrb = crate::place::del_skip_post_len(&rb);
        ta_place_add_skips(&mut ai, nrb);
        ta_place_add_all(&mut ai, &ra);
        let g = DelGroup(di);
        proof {
            crate::doc::lemma_del_group_wf(g@);
        }
        dt_place(dres, g);
        ta_place_add_all(ares, &ai);
    }
}

/// Walks an insertion and a deletion of one document side by side until
/// either ends.
#[verifier::spinoff_prover]
fn ta_walk(
    dres: &mut Vec<DelElement>,
    ares: &mut Vec<AddElement>,
    a: &mut AddStepper,
    b: &mut DelStepper,
    Ghost(fuel): Ghost<nat>,
    Ghost(bound): Ghost<nat>,
)
    requires
        ast_ok(*old(a)),
        dst_ok(*old(b)),
        del_span_wf(del_span_view(old(dres)@)),
        add_span_wf(add_span_view(old(ares)@)),
        add_del_transform_walk(ast_atoms(*old(a)), dst_atoms(*old(b))) is Some,
        del_seq_size(del_atoms(del_span_view(old(dres)@)) + add_del_transform_walk(ast_atoms(*old(a)), dst_atoms(*old(b))).unwrap().0) <= usize::MAX,
        add_seq_size(add_atoms(add_span_view(old(ares)@)) + add_del_transform_walk(ast_atoms(*old(a)), dst_atoms(*old(b))).unwrap().1) <= usize::MAX,
        add_seq_size(ast_atoms(*old(a))) <= fuel,
        add_seq_size(ast_atoms(*old(a))) + del_seq_size(dst_atoms(*old(b))) <= bound,
        bound <= usize::MAX,
    ensures
        del_merged(del_span_view(old(dres)@)) ==> del_merged(del_span_view(final(dres)@)),
        add_merged(add_span_view(old(ares)@)) ==> add_merged(add_span_view(final(ares)@)),
        ast_ok(*final(a)),
        dst_ok(*final(b)),
        del_span_wf(del_span_view(final(dres)@)),
        add_span_wf(add_span_view(final(ares)@)),
        del_atoms(del_span_view(final(dres)@)) == del_atoms(del_span_view(old(dres)@)) + add_del_transform_walk(ast_atoms(*old(a)), dst_atoms(*old(b))).unwrap().0,
        add_atoms(add_span_view(final(ares)@)) == add_atoms(add_span_view(old(ares)@)) + add_del_transform_walk(ast_atoms(*old(a)), dst_atoms(*old(b))).unwrap().1,
        ast_atoms(*final(a)) == add_del_transform_walk(ast_atoms(*old(a)), dst_atoms(*old(b))).unwrap().2,
        dst_atoms(*final(b)) == add_del_transform_walk(ast_atoms(*old(a)), dst_atoms(*old(b))).unwrap().3,
        dst_atoms(*final(b)).len() <= dst_atoms(*old(b)).len(),
        del_seq_size(dst_atoms(*final(b))) <= del_seq_size(dst_atoms(*old(b))),
        ta_deep(old(dres)@, old(ares)@, *old(a), *old(b)) ==> ta_deep(final(dres)@, final(ares)@, *final(a), *final(b)),
    decreases fuel, 1nat,
{
    let ghost r0d = del_atoms(del_span_view(dres@));
    let ghost r0a = add_atoms(add_span_view(ares@));
    let ghost w0 = add_del_transform_walk(ast_atoms(*a), dst_atoms(*b)).unwrap();
    let ghost blen0 = dst_atoms(*b).len();
    let ghost bsize0 = del_seq_size(dst_atoms(*b));
    while !a.is_done() && !b.is_done()
        invariant
            del_merged(del_span_view(old(dres)@)) ==> del_merged(del_span_view(dres@)),
            add_merged(add_span_view(old(ares)@)) ==> add_merged(add_span_view(ares@)),
            ta_inv(dres@, ares@, *a, *b, r0d, r0a, w0, fuel, bound),
            dst_atoms(*b).len() <= blen0,
            del_seq_size(dst_atoms(*b)) <= bsize0,
            ta_deep(old(dres)@, old(ares)@, *old(a), *old(b)) ==> ta_deep(dres@, ares@, *a, *b),
        decreases ast_atoms(*a).len() + dst_atoms(*b).len(),
    {
        let ak: u8 = match &a.head {
            Some(AddText(..)) => 0,
            Some(AddGroup(..)) => 1,
            Some(AddSkip(_)) => 2,
            Some(AddWithGroup(_)) => 3,
            _ => 4,
        };
        let bk: u8 = match &b.head {
            Some(DelSkip(_)) => 0,
            Some(DelWithGroup(_)) => 1,
            Some(DelGroup(_)) => 2,
            _ => 3,
        };
        if ak == 0 {
            ta_step_text(dres, ares, a, b, Ghost(r0d), Ghost(r0a), Ghost(w0), Ghost(fuel), Ghost(bound));
        } else if ak == 1 {
            ta_step_group(dres, ares, a, b, Ghost(r0d), Ghost(r0a), Ghost(w0), Ghost(fuel), Ghost(bound));
        } else if ak == 2 {
            ta_step_skip(dres, ares, a, b, Ghost(r0d), Ghost(r0a), Ghost(w0), Ghost(fuel), Ghost(bound));
        } else if ak == 3 && bk == 0 {
            ta_step_with_skip(dres, ares, a, b, Ghost(r0d), Ghost(r0a), Ghost(w0), Ghost(fuel), Ghost(bound));
        } else if ak == 3 && bk == 1 {
            ta_step_with_with(dres, ares, a, b, Ghost(r0d), Ghost(r0a), Ghost(w0), Ghost(fuel), Ghost(bound));
        } else if ak == 3 && bk == 2 {
            ta_step_with_group(dres, ares, a, b, Ghost(r0d), Ghost(r0a), Ghost(w0), Ghost(fuel), Ghost(bound));
        } else {
            proof {
                lemma_ast_first(*a);
                lemma_dst_first(*b);
                let aa = ast_atoms(*a);
                assert(aa =~= seq![aa[0]] + aa.drop_first());
                lemma_ta_walk_step(aa[0], aa.drop_first(), dst_atoms(*b));
            }
            return ;
        }
    }
    proof {
        crate::compose_add::lemma_ast_atoms(*a);
        lemma_dst_atoms(*b);
        lemma_ta_walk_end(ast_atoms(*a), dst_atoms(*b));
        assert(del_atoms(del_span_view(dres@)) + Seq::<DelAtom>::empty() =~= del_atoms(del_span_view(dres@)));
        assert(add_atoms(add_span_view(ares@)) + Seq::<AddAtom>::empty() =~= add_atoms(add_span_view(ares@)));
    }
}

/// Where an insertion and a deletion, and their transform, fit a `usize`.
pub open spec fn transform_add_del_fits(a: Seq<AddAtom>, b: Seq<DelAtom>) -> bool {
    &&& add_seq_size(a) + del_seq_size(b) <= usize::MAX
    &&& transform_add_del_atoms(a, b) matches Some((d, i)) && del_seq_size(d) <= usize::MAX && add_seq_size(i) <= usize::MAX
}

/// Transforms an insertion against a deletion, given a bound on the size
/// of the insertion.
#[verifier::spinoff_prover]
fn transform_add_fuel(
    avec: &Vec<AddElement>,
    bvec: &Vec<DelElement>,
    Ghost(fuel): Ghost<nat>,
    Ghost(bound): Ghost<nat>,
) -> (res: (Vec<DelElement>, Vec<AddElement>))
    requires
        add_span_wf(add_span_view(avec@)),
        del_span_wf(del_span_view(bvec@)),
        transform_add_del_fits(add_atoms(add_span_view(avec@)), del_atoms(del_span_view(bvec@))),
        add_seq_size(add_atoms(add_span_view(avec@))) + del_seq_size(del_atoms(del_span_view(bvec@))) <= bound,
        bound <= usize::MAX,
        add_seq_size(add_atoms(add_span_view(avec@))) <= fuel,
    ensures
        del_merged(del_span_view(res.0@)),
        add_merged(add_span_view(res.1@)),
        del_span_wf(del_span_view(res.0@)),
        add_span_wf(add_span_view(res.1@)),
        transform_add_del_atoms(add_atoms(add_span_view(avec@)), del_atoms(del_span_view(bvec@))) == Some(
            (del_atoms(del_span_view(res.0@)), add_atoms(add_span_view(res.1@))),
        ),
        add_deep(add_span_view(avec@)) && del_deep(del_span_view(bvec@)) ==> del_deep(del_span_view(res.0@))
            && add_deep(add_span_view(res.1@)),
    decreases fuel, 2nat,
{
    let ghost w = add_del_transform_walk(add_atoms(add_span_view(avec@)), del_atoms(del_span_view(bvec@))).unwrap();
    let mut delres: Vec<DelElement> = Vec::new();
    let mut addres: Vec<AddElement> = Vec::new();
    let mut a = AddStepper::new(avec);
    let mut b = DelStepper::new(bvec);
    proof {
        lemma_ta_atoms(add_atoms(add_span_view(avec@)), del_atoms(del_span_view(bvec@)));
        assert(del_span_view(delres@) =~= Seq::<DelNode>::empty());
        assert(add_span_view(addres@) =~= Seq::<AddNode>::empty());
        assert(del_atoms(Seq::<DelNode>::empty()) =~= Seq::<DelAtom>::empty());
        assert(add_atoms(Seq::<AddNode>::empty()) =~= Seq::<AddAtom>::empty());
        assert(Seq::<DelAtom>::empty() + w.0 =~= w.0);
        assert(Seq::<AddAtom>::empty() + w.1 =~= w.1);
        lemma_del_size_prefix(w.0 + w.3, repeat(DelAtom::Skip, w.2.len()));
        lemma_del_size_prefix(w.0, w.3);
        lemma_add_size_prefix(w.1, w.2);
        lemma_del_seq_size_concat(w.0 + w.3, repeat(DelAtom::Skip, w.2.len()));
        crate::compose::lemma_del_size_repeat(DelAtom::Skip, w.2.len(), Seq::empty());
        assert(repeat(DelAtom::Skip, w.2.len()) + Seq::<DelAtom>::empty() =~= repeat(DelAtom::Skip, w.2.len()));
        crate::compose_add::lemma_add_seq_size_len(w.2);
        lemma_add_size_prefix(w.1 + w.2, Seq::empty());
        lemma_ast_deep_new(a, add_span_view(avec@));
        lemma_dst_deep_new(b, del_span_view(bvec@));
        lemma_del_deep_at(Seq::<DelNode>::empty());
        lemma_add_deep_at(Seq::<AddNode>::empty());
    }
    ta_walk(&mut delres, &mut addres, &mut a, &mut b, Ghost(fuel), Ghost(bound));
    proof {
        crate::compose_add::lemma_ast_atoms(a);
        lemma_dst_atoms(b);
    }
    let rb = b.into_span();
    dt_place_all(&mut delres, &rb);
    let ra = a.into_span();
    let n = add_skip_post_len(&ra);
    dt_place_skips(&mut delres, n);
    ta_place_add_all(&mut addres, &ra);
    (delres, addres)
}

// ---------------------------------------------------------------------------
// Transforming an insertion against a deletion.

/// Walks an insertion and a deletion of one document side by side until
/// either ends, writing to `delres` a deletion to follow the insertion and
/// to `addres` an insertion to follow the deletion, and leaving in each
/// stepper what the walk did not reach.
pub fn transform_add_del_inner(
    delres: &mut Vec<DelElement>,
    addres: &mut Vec<AddElement>,
    a: &mut AddStepper,
    b: &mut DelStepper,
)
    requires
        ast_ok(*old(a)),
        dst_ok(*old(b)),
        del_span_wf(del_span_view(old(delres)@)),
        add_span_wf(add_span_view(old(addres)@)),
        add_del_transform_walk(ast_atoms(*old(a)), dst_atoms(*old(b))) is Some,
        del_seq_size(del_atoms(del_span_view(old(delres)@)) + add_del_transform_walk(ast_atoms(*old(a)), dst_atoms(*old(b))).unwrap().0) <= usize::MAX,
        add_seq_size(add_atoms(add_span_view(old(addres)@)) + add_del_transform_walk(ast_atoms(*old(a)), dst_atoms(*old(b))).unwrap().1) <= usize::MAX,
        add_seq_size(ast_atoms(*old(a))) + del_seq_size(dst_atoms(*old(b))) <= usize::MAX,
    ensures
        del_merged(del_span_view(old(delres)@)) ==> del_merged(del_span_view(final(delres)@)),
        add_merged(add_span_view(old(addres)@)) ==> add_merged(add_span_view(final(addres)@)),
        ast_ok(*final(a)),
        dst_ok(*final(b)),
        del_span_wf(del_span_view(final(delres)@)),
        add_span_wf(add_span_view(final(addres)@)),
        del_atoms(del_span_view(final(delres)@)) == del_atoms(del_span_view(old(delres)@)) + add_del_transform_walk(ast_atoms(*old(a)), dst_atoms(*old(b))).unwrap().0,
        add_atoms(add_span_view(final(addres)@)) == add_atoms(add_span_view(old(addres)@)) + add_del_transform_walk(ast_atoms(*old(a)), dst_atoms(*old(b))).unwrap().1,
        ast_atoms(*final(a)) == add_del_transform_walk(ast_atoms(*old(a)), dst_atoms(*old(b))).unwrap().2,
        dst_atoms(*final(b)) == add_del_transform_walk(ast_atoms(*old(a)), dst_atoms(*old(b))).unwrap().3,
{
    let ghost fuel = add_seq_size(ast_atoms(*a));
    let ghost bound = add_seq_size(ast_atoms(*a)) + del_seq_size(dst_atoms(*b));
    ta_walk(delres, addres, a, b, Ghost(fuel), Ghost(bound));
}

/// Transforms an insertion preceding a deletion into a deletion preceding
/// an insertion: given an insertion `avec` and a deletion `bvec` of one
/// document, the deletion returned is to follow `avec` and the insertion
/// returned is to follow `bvec`, so that both orders do the same.
pub fn transform_add_del(avec: &Vec<AddElement>, bvec: &Vec<DelElement>) -> (res: Op)
    requires
        add_span_wf(add_span_view(avec@)),
        del_span_wf(del_span_view(bvec@)),
        transform_add_del_atoms(add_atoms(add_span_view(avec@)), del_atoms(del_span_view(bvec@))) is Some,
        transform_add_del_fits(add_atoms(add_span_view(avec@)), del_atoms(del_span_view(bvec@))),
    ensures
        del_merged(del_span_view(res.0@)),
        add_merged(add_span_view(res.1@)),
        del_span_wf(del_span_view(res.0@)),
        add_span_wf(add_span_view(res.1@)),
        transform_add_del_atoms(add_atoms(add_span_view(avec@)), del_atoms(del_span_view(bvec@))) == Some(
            (del_atoms(del_span_view(res.0@)), add_atoms(add_span_view(res.1@))),
        ),
        add_deep(add_span_view(avec@)) && del_deep(del_span_view(bvec@)) ==> del_deep(del_span_view(res.0@))
            && add_deep(add_span_view(res.1@)),
{
    let ghost size = add_seq_size(add_atoms(add_span_view(avec@)));
    let ghost bound = size + del_seq_size(del_atoms(del_span_view(bvec@)));
    let (d, i) = transform_add_fuel(avec, bvec, Ghost(size), Ghost(bound));
    Op(d, i)
}

} // verus!
