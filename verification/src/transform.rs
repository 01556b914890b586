//! Transforming two concurrent deletions of one document against each
//! other, so that each can follow the other.
use crate::apply::lemma_repeat_first;
use crate::compose::{
    del_atom_size, del_run_elem, del_seq_size, dst_atoms, dst_ok, dst_take, lemma_del_atom_size,
    lemma_del_seq_size_concat, lemma_del_seq_size_first, lemma_dst_atoms, lemma_dst_next, dst_deep,
    lemma_dst_deep_head, lemma_dst_deep_new, lemma_dst_deep_next,
};
use crate::doc::{
    del_atoms, del_elem_atoms, del_elem_wf, del_post, del_span_view, del_span_wf,
    lemma_del_atoms_concat, lemma_del_span_view, lemma_repeat, repeat, DelAtom, DelElement,
    DelGroup, DelNode, DelSkip, DelStyles, DelText, DelWithGroup,
};
use crate::place::{lemma_del_place_all_ok, lemma_del_place_atoms, lemma_del_place_ok, DelPlaceable};
use crate::stepper::DelStepper;
use crate::place::{
    add_merged, del_deep, del_deep_node, del_merged, lemma_del_deep_at, lemma_del_place_all_deep,
    lemma_del_place_deep,
};
use vstd::prelude::*;

verus! {

// ---------------------------------------------------------------------------
// What a deletion leaves behind.

/// A deletion that keeps what `x` leaves of the atom it walks over: a kept
/// atom for each atom that remains, and kept groups where `x` keeps one.
pub open spec fn undel_one(x: DelAtom) -> Seq<DelAtom>
    decreases x,
{
    match x {
        DelAtom::Skip => seq![DelAtom::Skip],
        DelAtom::Styles(_) => seq![DelAtom::Skip],
        DelAtom::Text => Seq::empty(),
        DelAtom::WithGroup(inner) => seq![DelAtom::WithGroup(undel_atoms(inner))],
        DelAtom::Group(inner) => undel_atoms(inner),
    }
}

/// A deletion that keeps everything that `a` leaves of what it walks over.
pub open spec fn undel_atoms(a: Seq<DelAtom>) -> Seq<DelAtom>
    decreases a,
{
    if a.len() == 0 {
        Seq::empty()
    } else {
        undel_one(a[0]) + undel_atoms(a.drop_first())
    }
}

/// `undel_atoms` of a concatenation.
pub proof fn lemma_undel_concat(a: Seq<DelAtom>, b: Seq<DelAtom>)
    ensures
        undel_atoms(a + b) == undel_atoms(a) + undel_atoms(b),
    decreases a.len(),
{
    if a.len() == 0 {
        assert(a + b =~= b);
        assert(undel_atoms(a) + undel_atoms(b) =~= undel_atoms(b));
    } else {
        assert((a + b)[0] == a[0]);
        assert((a + b).drop_first() =~= a.drop_first() + b);
        lemma_undel_concat(a.drop_first(), b);
        assert(undel_one(a[0]) + (undel_atoms(a.drop_first()) + undel_atoms(b)) =~= undel_one(a[0])
            + undel_atoms(a.drop_first()) + undel_atoms(b));
    }
}

/// `undel_atoms` of a run of one atom outside groups.
pub proof fn lemma_undel_repeat(x: DelAtom, n: nat)
    requires
        !(x is Group) && !(x is WithGroup),
    ensures
        undel_atoms(repeat(x, n)) == repeat(DelAtom::Skip, if x is Text { 0 } else { n }),
    decreases n,
{
    if n > 0 {
        lemma_undel_repeat(x, (n - 1) as nat);
        lemma_undel_concat(repeat(x, (n - 1) as nat), seq![x]);
        assert(repeat(x, n) == repeat(x, (n - 1) as nat).push(x));
        assert(repeat(x, (n - 1) as nat).push(x) =~= repeat(x, (n - 1) as nat) + seq![x]);
        assert(seq![x].drop_first() =~= Seq::<DelAtom>::empty());
        assert(undel_atoms(seq![x]) == undel_one(x) + undel_atoms(Seq::<DelAtom>::empty()));
        assert(undel_one(x) + Seq::<DelAtom>::empty() =~= undel_one(x));
        if !(x is Text) {
            assert(repeat(DelAtom::Skip, (n - 1) as nat) + seq![DelAtom::Skip] =~= repeat(
                DelAtom::Skip,
                (n - 1) as nat,
            ).push(DelAtom::Skip));
        } else {
            assert(repeat(DelAtom::Skip, 0) + Seq::<DelAtom>::empty() =~= repeat(DelAtom::Skip, 0));
        }
    } else {
        assert(repeat(x, 0) =~= Seq::<DelAtom>::empty());
    }
}

/// `undel_atoms` of a single atom.
pub proof fn lemma_undel_single(x: DelAtom)
    ensures
        undel_atoms(seq![x]) == undel_one(x),
{
    assert(seq![x].drop_first() =~= Seq::<DelAtom>::empty());
    assert(seq![x][0] == x);
    assert(undel_atoms(Seq::<DelAtom>::empty()) == Seq::<DelAtom>::empty());
    assert(undel_one(x) + Seq::<DelAtom>::empty() =~= undel_one(x));
}

/// What a deletion leaves is no larger than the deletion.
pub proof fn lemma_undel_one_size(x: DelAtom)
    ensures
        del_seq_size(undel_one(x)) <= del_atom_size(x),
    decreases x,
{
    match x {
        DelAtom::WithGroup(inner) => {
            lemma_undel_size(inner);
            let one = seq![DelAtom::WithGroup(undel_atoms(inner))];
            lemma_del_seq_size_first(one);
            assert(one.drop_first() =~= Seq::<DelAtom>::empty());
        },
        DelAtom::Group(inner) => {
            lemma_undel_size(inner);
        },
        DelAtom::Text => {
            assert(del_seq_size(Seq::<DelAtom>::empty()) == 0);
        },
        _ => {
            let one = seq![DelAtom::Skip];
            lemma_del_seq_size_first(one);
            assert(one.drop_first() =~= Seq::<DelAtom>::empty());
        },
    }
}

pub proof fn lemma_undel_size(a: Seq<DelAtom>)
    ensures
        del_seq_size(undel_atoms(a)) <= del_seq_size(a),
    decreases a,
{
    if a.len() > 0 {
        lemma_undel_one_size(a[0]);
        lemma_undel_size(a.drop_first());
        lemma_del_seq_size_first(a);
        lemma_del_seq_size_concat(undel_one(a[0]), undel_atoms(a.drop_first()));
    }
}

/// The run that a counted element leaves.
proof fn lemma_undel_elem(e: DelNode)
    ensures
        e matches DelNode::Skip(n) ==> undel_atoms(del_elem_atoms(e)) == repeat(DelAtom::Skip, n),
        e matches DelNode::Styles(n, _) ==> undel_atoms(del_elem_atoms(e)) == repeat(DelAtom::Skip, n),
        e is Text ==> undel_atoms(del_elem_atoms(e)) == Seq::<DelAtom>::empty(),
        e matches DelNode::WithGroup(s) ==> undel_atoms(del_elem_atoms(e)) == seq![DelAtom::WithGroup(undel_atoms(del_atoms(s)))],
        e matches DelNode::Group(s) ==> undel_atoms(del_elem_atoms(e)) == undel_atoms(del_atoms(s)),
{
    match e {
        DelNode::Skip(n) => lemma_undel_repeat(DelAtom::Skip, n),
        DelNode::Styles(n, st) => lemma_undel_repeat(DelAtom::Styles(st), n),
        DelNode::Text(n) => {
            lemma_undel_repeat(DelAtom::Text, n);
            assert(repeat(DelAtom::Skip, 0) =~= Seq::<DelAtom>::empty());
        },
        DelNode::WithGroup(s) => lemma_undel_single(DelAtom::WithGroup(del_atoms(s))),
        DelNode::Group(s) => lemma_undel_single(DelAtom::Group(del_atoms(s))),
    }
}

/// A deletion that keeps everything that `input_del` leaves of what it
/// walks over.
pub fn undel(input_del: &Vec<DelElement>) -> (res: Vec<DelElement>)
    requires
        del_span_wf(del_span_view(input_del@)),
        del_seq_size(del_atoms(del_span_view(input_del@))) <= usize::MAX,
    ensures
        del_span_wf(del_span_view(res@)),
        del_atoms(del_span_view(res@)) == undel_atoms(del_atoms(del_span_view(input_del@))),
        del_deep(del_span_view(res@)),
    decreases input_del,
{
    let ghost v = del_span_view(input_del@);
    proof {
        lemma_del_span_view(input_del@);
    }
    let mut del: Vec<DelElement> = Vec::new();
    proof {
        assert(del_span_view(del@) =~= Seq::<DelNode>::empty());
        assert(v.take(0) =~= Seq::<DelNode>::empty());
        assert(undel_atoms(del_atoms(v.take(0))) =~= Seq::<DelAtom>::empty());
        lemma_del_deep_at(Seq::<DelNode>::empty());
    }
    for i in 0..input_del.len()
        invariant
            v == del_span_view(input_del@),
            v.len() == input_del@.len(),
            forall|j: int| 0 <= j < v.len() ==> #[trigger] v[j] == input_del@[j]@,
            del_span_wf(v),
            del_seq_size(del_atoms(v)) <= usize::MAX,
            del_span_wf(del_span_view(del@)),
            del_atoms(del_span_view(del@)) == undel_atoms(del_atoms(v.take(i as int))),
            del_deep(del_span_view(del@)),
    {
        let ghost e = v[i as int];
        let ghost before = del_atoms(v.take(i as int));
        proof {
            assert(v.take(i + 1).drop_last() =~= v.take(i as int));
            assert(v.take(i + 1).last() == e);
            assert(del_atoms(v.take(i + 1)) == before + del_elem_atoms(e));
            lemma_del_atoms_concat(v.take(i + 1), v.skip(i + 1));
            assert(v.take(i + 1) + v.skip(i + 1) =~= v);
            lemma_del_seq_size_concat(before, del_elem_atoms(e));
            lemma_del_seq_size_concat(del_atoms(v.take(i + 1)), del_atoms(v.skip(i + 1)));
            lemma_undel_concat(before, del_elem_atoms(e));
            lemma_undel_size(del_atoms(v.take(i + 1)));
            crate::compose::lemma_del_seq_size_len(undel_atoms(del_atoms(v.take(i + 1))));
            lemma_undel_elem(e);
            assert(del_elem_wf(e));
            crate::doc::lemma_del_group_wf(e);
            assert(decreases_to!(input_del => input_del@[i as int]));
        }
        match &input_del[i] {
            DelText(_) => {
                proof {
                    assert(undel_atoms(before) + Seq::<DelAtom>::empty() =~= undel_atoms(before));
                }
            },
            DelSkip(n) => {
                proof {
                    lemma_del_place_ok(del_span_view(del@), DelSkip(*n)@);
                    lemma_del_place_atoms(del_span_view(del@), DelSkip(*n)@);
                    lemma_del_place_deep(del_span_view(del@), DelSkip(*n)@);
                }
                del.place(&DelSkip(*n));
            },
            DelStyles(n, _) => {
                proof {
                    lemma_del_place_ok(del_span_view(del@), DelSkip(*n)@);
                    lemma_del_place_atoms(del_span_view(del@), DelSkip(*n)@);
                    lemma_del_place_deep(del_span_view(del@), DelSkip(*n)@);
                }
                del.place(&DelSkip(*n));
            },
            DelWithGroup(inner) => {
                proof {
                    let g = seq![DelAtom::WithGroup(del_atoms(del_span_view(inner@)))];
                    lemma_del_seq_size_first(g);
                    lemma_del_seq_size_concat(before, g);
                }
                let u = undel(inner);
                let out = DelWithGroup(u);
                proof {
                    crate::doc::lemma_del_group_wf(out@);
                    lemma_del_place_ok(del_span_view(del@), out@);
                    lemma_del_place_atoms(del_span_view(del@), out@);
                    lemma_del_place_deep(del_span_view(del@), out@);
                }
                del.place(&out);
            },
            DelGroup(inner) => {
                proof {
                    let g = seq![DelAtom::Group(del_atoms(del_span_view(inner@)))];
                    lemma_del_seq_size_first(g);
                    lemma_del_seq_size_concat(before, g);
                }
                let u = undel(inner);
                proof {
                    lemma_del_place_all_ok(del_span_view(del@), del_span_view(u@));
                    lemma_del_deep_at(del_span_view(u@));
                    lemma_del_place_all_deep(del_span_view(del@), del_span_view(u@));
                }
                del.place_all(&u);
            },
        }
    }
    proof {
        assert(v.take(input_del.len() as int) =~= v);
    }
    del
}

// ---------------------------------------------------------------------------
// Two deletions of one document, side by side.

/// The outputs of a walk with `x` and `y` written before those of `w`.
pub open spec fn dt_prepend(
    x: Seq<DelAtom>,
    y: Seq<DelAtom>,
    w: Option<(Seq<DelAtom>, Seq<DelAtom>, Seq<DelAtom>, Seq<DelAtom>)>,
) -> Option<(Seq<DelAtom>, Seq<DelAtom>, Seq<DelAtom>, Seq<DelAtom>)> {
    match w {
        Some((oa, ob, ra, rb)) => Some((x + oa, y + ob, ra, rb)),
        None => None,
    }
}

/// Walks two deletions `a` and `b` of one document side by side until either
/// ends. It writes what is to follow `a` (so as to do what `b` does) and what
/// is to follow `b` (so as to do what `a` does), and gives what is left of
/// each. Text that `a` deletes is deleted after `b`; where `b` is at a group
/// there, `b` waits. A group that both delete takes the transform of their
/// contents, written in place of the group; a group that one deletes and the
/// other keeps is deleted after the other, with as much of the contents'
/// deletions as reaches them. `None` where they do not fit: a deletion of
/// styles, a group of `a` where `b` is at text, or a kept group whose
/// contents' deletion reaches further than that of the deleted one.
#[verifier::opaque]
pub open spec fn del_transform_walk(a: Seq<DelAtom>, b: Seq<DelAtom>) -> Option<
    (Seq<DelAtom>, Seq<DelAtom>, Seq<DelAtom>, Seq<DelAtom>),
>
    decreases a, 0nat,
{
    if a.len() == 0 || b.len() == 0 {
        Some((Seq::empty(), Seq::empty(), a, b))
    } else {
        match (a[0], b[0]) {
            (DelAtom::Text, DelAtom::Text) => dt_prepend(
                Seq::empty(),
                Seq::empty(),
                del_transform_walk(a.drop_first(), b.drop_first()),
            ),
            (DelAtom::Text, DelAtom::Skip) => dt_prepend(
                Seq::empty(),
                seq![DelAtom::Text],
                del_transform_walk(a.drop_first(), b.drop_first()),
            ),
            (DelAtom::Text, DelAtom::Group(_)) | (DelAtom::Text, DelAtom::WithGroup(_)) => dt_prepend(
                Seq::empty(),
                seq![DelAtom::Text],
                del_transform_walk(a.drop_first(), b),
            ),
            (DelAtom::Skip, DelAtom::Skip) => dt_prepend(
                seq![DelAtom::Skip],
                seq![DelAtom::Skip],
                del_transform_walk(a.drop_first(), b.drop_first()),
            ),
            (DelAtom::Skip, DelAtom::Text) => dt_prepend(
                seq![DelAtom::Text],
                Seq::empty(),
                del_transform_walk(a.drop_first(), b.drop_first()),
            ),
            (DelAtom::Skip, DelAtom::Group(ib)) => dt_prepend(
                seq![DelAtom::Group(ib)],
                repeat(DelAtom::Skip, del_post(ib)),
                del_transform_walk(a.drop_first(), b.drop_first()),
            ),
            (DelAtom::Skip, DelAtom::WithGroup(ib)) => dt_prepend(
                seq![DelAtom::WithGroup(ib)],
                seq![DelAtom::Skip],
                del_transform_walk(a.drop_first(), b.drop_first()),
            ),
            (DelAtom::Group(ia), DelAtom::Skip) => dt_prepend(
                repeat(DelAtom::Skip, del_post(ia)),
                seq![DelAtom::Group(ia)],
                del_transform_walk(a.drop_first(), b.drop_first()),
            ),
            (DelAtom::WithGroup(ia), DelAtom::Skip) => dt_prepend(
                seq![DelAtom::Skip],
                seq![DelAtom::WithGroup(ia)],
                del_transform_walk(a.drop_first(), b.drop_first()),
            ),
            (DelAtom::Group(ia), DelAtom::Group(ib)) => match del_transform_atoms(ia, ib) {
                Some((ta, tb)) => dt_prepend(ta, tb, del_transform_walk(a.drop_first(), b.drop_first())),
                None => None,
            },
            (DelAtom::WithGroup(ia), DelAtom::WithGroup(ib)) => match del_transform_atoms(ia, ib) {
                Some((ta, tb)) => dt_prepend(
                    seq![DelAtom::WithGroup(ta)],
                    seq![DelAtom::WithGroup(tb)],
                    del_transform_walk(a.drop_first(), b.drop_first()),
                ),
                None => None,
            },
            (DelAtom::Group(ia), DelAtom::WithGroup(ib)) => match del_transform_walk(ia, ib) {
                Some((oa, ob, ra, rb)) => if rb.len() == 0 {
                    dt_prepend(
                        oa + undel_atoms(ra),
                        seq![DelAtom::Group(ob + ra)],
                        del_transform_walk(a.drop_first(), b.drop_first()),
                    )
                } else {
                    None
                },
                None => None,
            },
            (DelAtom::WithGroup(ia), DelAtom::Group(ib)) => match del_transform_walk(ia, ib) {
                Some((oa, ob, ra, rb)) => if ra.len() == 0 {
                    dt_prepend(
                        seq![DelAtom::Group(oa + rb)],
                        ob + undel_atoms(rb),
                        del_transform_walk(a.drop_first(), b.drop_first()),
                    )
                } else {
                    None
                },
                None => None,
            },
            _ => None,
        }
    }
}

/// The transform of two deletions `a` and `b` of one document: a deletion
/// to follow `a` and one to follow `b`, so that both orders end in one
/// document. Their walk, then what is left of the other.
pub open spec fn del_transform_atoms(a: Seq<DelAtom>, b: Seq<DelAtom>) -> Option<
    (Seq<DelAtom>, Seq<DelAtom>),
>
    decreases a, 1nat,
{
    match del_transform_walk(a, b) {
        Some((oa, ob, ra, rb)) => Some((oa + rb, ob + ra)),
        None => None,
    }
}

/// A transform is a walk, then what is left of the other.
#[verifier::spinoff_prover]
pub proof fn lemma_dt_atoms(a: Seq<DelAtom>, b: Seq<DelAtom>)
    ensures
        del_transform_atoms(a, b) == match del_transform_walk(a, b) {
            Some((oa, ob, ra, rb)) => Some((oa + rb, ob + ra)),
            None => None,
        },
{
}

/// A walk where either deletion is used up writes nothing.
pub proof fn lemma_dt_walk_end(a: Seq<DelAtom>, b: Seq<DelAtom>)
    requires
        a.len() == 0 || b.len() == 0,
    ensures
        del_transform_walk(a, b) == Some((Seq::<DelAtom>::empty(), Seq::<DelAtom>::empty(), a, b)),
{
    reveal(del_transform_walk);
}

/// One step of a walk, for a first atom of each.
pub proof fn lemma_dt_walk_step(x: DelAtom, y: DelAtom, a: Seq<DelAtom>, b: Seq<DelAtom>)
    ensures
        del_transform_walk(seq![x] + a, seq![y] + b) == match (x, y) {
            (DelAtom::Text, DelAtom::Text) => dt_prepend(Seq::empty(), Seq::empty(), del_transform_walk(a, b)),
            (DelAtom::Text, DelAtom::Skip) => dt_prepend(Seq::empty(), seq![DelAtom::Text], del_transform_walk(a, b)),
            (DelAtom::Text, DelAtom::Group(_)) | (DelAtom::Text, DelAtom::WithGroup(_)) => dt_prepend(Seq::empty(), seq![DelAtom::Text], del_transform_walk(a, seq![y] + b)),
            (DelAtom::Skip, DelAtom::Skip) => dt_prepend(seq![DelAtom::Skip], seq![DelAtom::Skip], del_transform_walk(a, b)),
            (DelAtom::Skip, DelAtom::Text) => dt_prepend(seq![DelAtom::Text], Seq::empty(), del_transform_walk(a, b)),
            (DelAtom::Skip, DelAtom::Group(ib)) => dt_prepend(
                seq![DelAtom::Group(ib)],
                repeat(DelAtom::Skip, del_post(ib)),
                del_transform_walk(a, b),
            ),
            (DelAtom::Skip, DelAtom::WithGroup(ib)) => dt_prepend(
                seq![DelAtom::WithGroup(ib)],
                seq![DelAtom::Skip],
                del_transform_walk(a, b),
            ),
            (DelAtom::Group(ia), DelAtom::Skip) => dt_prepend(
                repeat(DelAtom::Skip, del_post(ia)),
                seq![DelAtom::Group(ia)],
                del_transform_walk(a, b),
            ),
            (DelAtom::WithGroup(ia), DelAtom::Skip) => dt_prepend(
                seq![DelAtom::Skip],
                seq![DelAtom::WithGroup(ia)],
                del_transform_walk(a, b),
            ),
            (DelAtom::Group(ia), DelAtom::Group(ib)) => match del_transform_atoms(ia, ib) {
                Some((ta, tb)) => dt_prepend(ta, tb, del_transform_walk(a, b)),
                None => None,
            },
            (DelAtom::WithGroup(ia), DelAtom::WithGroup(ib)) => match del_transform_atoms(ia, ib) {
                Some((ta, tb)) => dt_prepend(
                    seq![DelAtom::WithGroup(ta)],
                    seq![DelAtom::WithGroup(tb)],
                    del_transform_walk(a, b),
                ),
                None => None,
            },
            (DelAtom::Group(ia), DelAtom::WithGroup(ib)) => match del_transform_walk(ia, ib) {
                Some((oa, ob, ra, rb)) => if rb.len() == 0 {
                    dt_prepend(oa + undel_atoms(ra), seq![DelAtom::Group(ob + ra)], del_transform_walk(a, b))
                } else {
                    None
                },
                None => None,
            },
            (DelAtom::WithGroup(ia), DelAtom::Group(ib)) => match del_transform_walk(ia, ib) {
                Some((oa, ob, ra, rb)) => if ra.len() == 0 {
                    dt_prepend(seq![DelAtom::Group(oa + rb)], ob + undel_atoms(rb), del_transform_walk(a, b))
                } else {
                    None
                },
                None => None,
            },
            _ => None,
        },
{
    reveal(del_transform_walk);
    assert((seq![x] + a)[0] == x);
    assert((seq![y] + b)[0] == y);
    assert((seq![x] + a).drop_first() =~= a);
    assert((seq![y] + b).drop_first() =~= b);
}

/// Two prepends in turn are one.
pub proof fn lemma_dt_prepend_twice(
    x1: Seq<DelAtom>,
    y1: Seq<DelAtom>,
    x2: Seq<DelAtom>,
    y2: Seq<DelAtom>,
    w: Option<(Seq<DelAtom>, Seq<DelAtom>, Seq<DelAtom>, Seq<DelAtom>)>,
)
    ensures
        dt_prepend(x1, y1, dt_prepend(x2, y2, w)) == dt_prepend(x1 + x2, y1 + y2, w),
{
    match w {
        Some((oa, ob, ra, rb)) => {
            assert(x1 + (x2 + oa) =~= x1 + x2 + oa);
            assert(y1 + (y2 + ob) =~= y1 + y2 + ob);
        },
        None => {},
    }
}

/// A run of text that the first deletion deletes, where the second is at a
/// group or a deletion of styles: the second waits.
pub proof fn lemma_dt_text_run(c: nat, ar: Seq<DelAtom>, b: Seq<DelAtom>)
    requires
        b.len() > 0,
        b[0] is Group || b[0] is WithGroup,
    ensures
        del_transform_walk(repeat(DelAtom::Text, c) + ar, b) == dt_prepend(
            Seq::empty(),
            repeat(DelAtom::Text, c),
            del_transform_walk(ar, b),
        ),
    decreases c,
{
    if c == 0 {
        assert(repeat(DelAtom::Text, 0) + ar =~= ar);
        match del_transform_walk(ar, b) {
            Some((oa, ob, ra, rb)) => {
                assert(Seq::<DelAtom>::empty() + oa =~= oa);
                assert(repeat(DelAtom::Text, 0) + ob =~= ob);
            },
            None => {},
        }
    } else {
        lemma_repeat_first(DelAtom::Text, c);
        let a1 = repeat(DelAtom::Text, (c - 1) as nat) + ar;
        assert(repeat(DelAtom::Text, c) + ar =~= seq![DelAtom::Text] + a1);
        assert(b =~= seq![b[0]] + b.drop_first());
        lemma_dt_walk_step(DelAtom::Text, b[0], a1, b.drop_first());
        lemma_dt_text_run((c - 1) as nat, ar, b);
        lemma_dt_prepend_twice(
            Seq::empty(),
            seq![DelAtom::Text],
            Seq::empty(),
            repeat(DelAtom::Text, (c - 1) as nat),
            del_transform_walk(ar, b),
        );
        assert(Seq::<DelAtom>::empty() + Seq::<DelAtom>::empty() =~= Seq::<DelAtom>::empty());
    }
}

/// `n` copies of an atom where there is one, else nothing.
pub open spec fn opt_rep(z: Option<DelAtom>, n: nat) -> Seq<DelAtom> {
    match z {
        Some(z) => repeat(z, n),
        None => Seq::empty(),
    }
}

/// What a pair of counted atoms writes to follow the first deletion.
pub open spec fn dt_counted_a(x: DelAtom, y: DelAtom) -> Option<DelAtom> {
    if x is Skip { Some(y) } else { None }
}

/// What a pair of counted atoms writes to follow the second deletion.
pub open spec fn dt_counted_b(x: DelAtom, y: DelAtom) -> Option<DelAtom> {
    if y is Skip { Some(x) } else { None }
}

/// `n` atoms of two runs of kept or deleted text against each other.
pub proof fn lemma_dt_counted(
    x: DelAtom,
    y: DelAtom,
    ac: nat,
    bc: nat,
    n: nat,
    ar: Seq<DelAtom>,
    br: Seq<DelAtom>,
)
    requires
        x is Skip || x is Text,
        y is Skip || y is Text,
        n <= ac,
        n <= bc,
    ensures
        del_transform_walk(repeat(x, ac) + ar, repeat(y, bc) + br) == dt_prepend(
            opt_rep(dt_counted_a(x, y), n),
            opt_rep(dt_counted_b(x, y), n),
            del_transform_walk(repeat(x, (ac - n) as nat) + ar, repeat(y, (bc - n) as nat) + br),
        ),
    decreases n,
{
    let w = del_transform_walk(repeat(x, ac) + ar, repeat(y, bc) + br);
    if n == 0 {
        assert(opt_rep(dt_counted_a(x, y), 0) =~= Seq::<DelAtom>::empty());
        assert(opt_rep(dt_counted_b(x, y), 0) =~= Seq::<DelAtom>::empty());
        match w {
            Some((oa, ob, ra, rb)) => {
                assert(Seq::<DelAtom>::empty() + oa =~= oa);
                assert(Seq::<DelAtom>::empty() + ob =~= ob);
            },
            None => {},
        }
    } else {
        lemma_repeat_first(x, ac);
        lemma_repeat_first(y, bc);
        let a1 = repeat(x, (ac - 1) as nat) + ar;
        let b1 = repeat(y, (bc - 1) as nat) + br;
        assert(repeat(x, ac) + ar =~= seq![x] + a1);
        assert(repeat(y, bc) + br =~= seq![y] + b1);
        lemma_dt_walk_step(x, y, a1, b1);
        lemma_dt_counted(x, y, (ac - 1) as nat, (bc - 1) as nat, (n - 1) as nat, ar, br);
        let pa = opt_rep(dt_counted_a(x, y), 1);
        let pb = opt_rep(dt_counted_b(x, y), 1);
        assert(repeat(x, 0) =~= Seq::<DelAtom>::empty());
        assert(repeat(y, 0) =~= Seq::<DelAtom>::empty());
        assert(repeat(x, 1) =~= seq![x]);
        assert(repeat(y, 1) =~= seq![y]);
        assert(del_transform_walk(seq![x] + a1, seq![y] + b1) == dt_prepend(pa, pb, del_transform_walk(a1, b1)));
        lemma_dt_prepend_twice(
            pa,
            pb,
            opt_rep(dt_counted_a(x, y), (n - 1) as nat),
            opt_rep(dt_counted_b(x, y), (n - 1) as nat),
            del_transform_walk(repeat(x, (ac - n) as nat) + ar, repeat(y, (bc - n) as nat) + br),
        );
        match dt_counted_a(x, y) {
            Some(z) => {
                lemma_repeat_first(z, n);
            },
            None => {
                assert(Seq::<DelAtom>::empty() + Seq::<DelAtom>::empty() =~= Seq::<DelAtom>::empty());
            },
        }
        match dt_counted_b(x, y) {
            Some(z) => {
                lemma_repeat_first(z, n);
            },
            None => {
                assert(Seq::<DelAtom>::empty() + Seq::<DelAtom>::empty() =~= Seq::<DelAtom>::empty());
            },
        }
    }
}

// ---------------------------------------------------------------------------
// The walk, step by step.

/// The state of a walk of two deletions: what is written to follow each and
/// both steppers, against the walk of what was there at the start.
pub open spec fn dt_inv(
    res_a: Seq<DelElement>,
    res_b: Seq<DelElement>,
    a: DelStepper,
    b: DelStepper,
    r0a: Seq<DelAtom>,
    r0b: Seq<DelAtom>,
    w0: (Seq<DelAtom>, Seq<DelAtom>, Seq<DelAtom>, Seq<DelAtom>),
    fuel: nat,
) -> bool {
    let w = del_transform_walk(dst_atoms(a), dst_atoms(b));
    &&& dst_ok(a)
    &&& dst_ok(b)
    &&& del_span_wf(del_span_view(res_a))
    &&& del_span_wf(del_span_view(res_b))
    &&& w is Some
    &&& del_atoms(del_span_view(res_a)) + w.unwrap().0 == r0a + w0.0
    &&& del_atoms(del_span_view(res_b)) + w.unwrap().1 == r0b + w0.1
    &&& w.unwrap().2 == w0.2
    &&& w.unwrap().3 == w0.3
    &&& del_seq_size(r0a + w0.0) <= usize::MAX
    &&& del_seq_size(r0b + w0.1) <= usize::MAX
    &&& del_seq_size(dst_atoms(a)) <= fuel
}

/// What both walks wrote and both steppers are merged at every level.
pub open spec fn dt_deep(res_a: Seq<DelElement>, res_b: Seq<DelElement>, a: DelStepper, b: DelStepper) -> bool {
    &&& dst_deep(a)
    &&& dst_deep(b)
    &&& del_deep(del_span_view(res_a))
    &&& del_deep(del_span_view(res_b))
}

/// A step leaves less of both walks, and no more of either.
pub open spec fn dt_progress(a0: DelStepper, b0: DelStepper, a1: DelStepper, b1: DelStepper) -> bool {
    &&& dst_atoms(a1).len() <= dst_atoms(a0).len()
    &&& dst_atoms(b1).len() <= dst_atoms(b0).len()
    &&& dst_atoms(a1).len() + dst_atoms(b1).len() < dst_atoms(a0).len() + dst_atoms(b0).len()
}

/// A part of what is written is no larger than all of it.
proof fn lemma_size_prefix(p: Seq<DelAtom>, q: Seq<DelAtom>)
    ensures
        del_seq_size(p) <= del_seq_size(p + q),
        p.len() <= del_seq_size(p),
{
    lemma_del_seq_size_concat(p, q);
    crate::compose::lemma_del_seq_size_len(p);
}

/// A step of the walk that writes `pa` and `pb`: what is written still
/// leads to the same end, and fits.
proof fn lemma_dt_advance(
    xa: Seq<DelAtom>,
    xb: Seq<DelAtom>,
    a0: Seq<DelAtom>,
    b0: Seq<DelAtom>,
    a1: Seq<DelAtom>,
    b1: Seq<DelAtom>,
    pa: Seq<DelAtom>,
    pb: Seq<DelAtom>,
    r0a: Seq<DelAtom>,
    r0b: Seq<DelAtom>,
    w0: (Seq<DelAtom>, Seq<DelAtom>, Seq<DelAtom>, Seq<DelAtom>),
)
    requires
        del_transform_walk(a0, b0) == dt_prepend(pa, pb, del_transform_walk(a1, b1)),
        del_transform_walk(a0, b0) is Some,
        xa + del_transform_walk(a0, b0).unwrap().0 == r0a + w0.0,
        xb + del_transform_walk(a0, b0).unwrap().1 == r0b + w0.1,
        del_transform_walk(a0, b0).unwrap().2 == w0.2,
        del_transform_walk(a0, b0).unwrap().3 == w0.3,
        del_seq_size(r0a + w0.0) <= usize::MAX,
        del_seq_size(r0b + w0.1) <= usize::MAX,
    ensures
        del_transform_walk(a1, b1) is Some,
        xa + pa + del_transform_walk(a1, b1).unwrap().0 == r0a + w0.0,
        xb + pb + del_transform_walk(a1, b1).unwrap().1 == r0b + w0.1,
        del_transform_walk(a1, b1).unwrap().2 == w0.2,
        del_transform_walk(a1, b1).unwrap().3 == w0.3,
        del_seq_size(xa + pa) <= usize::MAX,
        del_seq_size(xb + pb) <= usize::MAX,
        del_seq_size(pa) <= usize::MAX,
        del_seq_size(pb) <= usize::MAX,
{
    let w1 = del_transform_walk(a1, b1).unwrap();
    assert(xa + (pa + w1.0) =~= xa + pa + w1.0);
    assert(xb + (pb + w1.1) =~= xb + pb + w1.1);
    lemma_size_prefix(xa + pa, w1.0);
    lemma_size_prefix(xb + pb, w1.1);
    lemma_del_seq_size_concat(xa, pa);
    lemma_del_seq_size_concat(xb, pb);
}

/// Places one element at the end of a written deletion.
pub(crate) fn dt_place(res: &mut Vec<DelElement>, e: DelElement)
    requires
        del_span_wf(del_span_view(old(res)@)),
        del_elem_wf(e@),
        del_seq_size(del_atoms(del_span_view(old(res)@)) + del_elem_atoms(e@)) <= usize::MAX,
    ensures
        del_merged(del_span_view(old(res)@)) ==> del_merged(del_span_view(final(res)@)),
        del_span_wf(del_span_view(final(res)@)),
        del_atoms(del_span_view(final(res)@)) == del_atoms(del_span_view(old(res)@)) + del_elem_atoms(e@),
        del_deep(del_span_view(old(res)@)) && del_deep_node(e@) ==> del_deep(del_span_view(final(res)@)),
{
    proof {
        crate::compose::lemma_del_seq_size_len(del_atoms(del_span_view(res@)) + del_elem_atoms(e@));
        lemma_del_place_ok(del_span_view(res@), e@);
        lemma_del_place_atoms(del_span_view(res@), e@);
        lemma_del_place_deep(del_span_view(res@), e@);
    }
    res.place(&e);
}

/// Places a run of kept atoms, where it is not empty.
pub(crate) fn dt_place_skips(res: &mut Vec<DelElement>, n: usize)
    requires
        del_span_wf(del_span_view(old(res)@)),
        del_seq_size(del_atoms(del_span_view(old(res)@)) + repeat(DelAtom::Skip, n as nat)) <= usize::MAX,
    ensures
        del_merged(del_span_view(old(res)@)) ==> del_merged(del_span_view(final(res)@)),
        del_span_wf(del_span_view(final(res)@)),
        del_atoms(del_span_view(final(res)@)) == del_atoms(del_span_view(old(res)@)) + repeat(DelAtom::Skip, n as nat),
        del_deep(del_span_view(old(res)@)) ==> del_deep(del_span_view(final(res)@)),
{
    if n > 0 {
        dt_place(res, DelSkip(n));
    } else {
        proof {
            assert(del_atoms(del_span_view(res@)) + repeat(DelAtom::Skip, 0) =~= del_atoms(del_span_view(res@)));
        }
    }
}

/// Places every element of a span.
pub(crate) fn dt_place_all(res: &mut Vec<DelElement>, span: &Vec<DelElement>)
    requires
        del_span_wf(del_span_view(old(res)@)),
        del_span_wf(del_span_view(span@)),
        del_seq_size(del_atoms(del_span_view(old(res)@)) + del_atoms(del_span_view(span@))) <= usize::MAX,
    ensures
        del_merged(del_span_view(old(res)@)) ==> del_merged(del_span_view(final(res)@)),
        del_span_wf(del_span_view(final(res)@)),
        del_atoms(del_span_view(final(res)@)) == del_atoms(del_span_view(old(res)@)) + del_atoms(del_span_view(span@)),
        del_deep(del_span_view(old(res)@)) && (del_deep(del_span_view(span@)) || forall|i: int|
            0 <= i < del_span_view(span@).len() ==> del_deep_node(#[trigger] del_span_view(span@)[i]))
            ==> del_deep(del_span_view(final(res)@)),
{
    proof {
        crate::compose::lemma_del_seq_size_len(del_atoms(del_span_view(res@)) + del_atoms(del_span_view(span@)));
        lemma_del_place_all_ok(del_span_view(res@), del_span_view(span@));
        lemma_del_deep_at(del_span_view(span@));
        lemma_del_place_all_deep(del_span_view(res@), del_span_view(span@));
    }
    res.place_all(span);
}

/// The first atoms of a stepper, by the kind of its head.
pub(crate) proof fn lemma_dst_first(s: DelStepper)
    requires
        dst_ok(s),
        s.head is Some,
    ensures
        dst_atoms(s).len() > 0,
        s.head.unwrap()@ matches DelNode::Skip(n) ==> n > 0 && dst_atoms(s) == repeat(DelAtom::Skip, n) + del_atoms(s.rest_view())
            && dst_atoms(s)[0] == DelAtom::Skip,
        s.head.unwrap()@ matches DelNode::Text(n) ==> n > 0 && dst_atoms(s) == repeat(DelAtom::Text, n) + del_atoms(s.rest_view())
            && dst_atoms(s)[0] == DelAtom::Text,
        s.head.unwrap()@ matches DelNode::Styles(n, st) ==> n > 0 && dst_atoms(s)[0] == DelAtom::Styles(st),
        s.head.unwrap()@ matches DelNode::Group(sp) ==> dst_atoms(s) == seq![DelAtom::Group(del_atoms(sp))]
            + del_atoms(s.rest_view()) && del_span_wf(sp),
        s.head.unwrap()@ matches DelNode::WithGroup(sp) ==> dst_atoms(s) == seq![DelAtom::WithGroup(del_atoms(sp))]
            + del_atoms(s.rest_view()) && del_span_wf(sp),
        del_seq_size(dst_atoms(s)) == del_seq_size(del_elem_atoms(s.head.unwrap()@)) + del_seq_size(del_atoms(s.rest_view())),
        del_elem_wf(s.head.unwrap()@),
        dst_atoms(s) == del_elem_atoms(s.head.unwrap()@) + del_atoms(s.rest_view()),
{
    lemma_dst_atoms(s);
    let h = s.head.unwrap()@;
    crate::compose::lemma_del_elem_atoms_len(h);
    crate::doc::lemma_del_group_wf(h);
    lemma_del_seq_size_concat(del_elem_atoms(h), del_atoms(s.rest_view()));
    match h {
        DelNode::Skip(n) => lemma_repeat(DelAtom::Skip, n),
        DelNode::Text(n) => lemma_repeat(DelAtom::Text, n),
        DelNode::Styles(n, st) => lemma_repeat(DelAtom::Styles(st), n),
        _ => {},
    }
}

/// Text that the first deletion deletes: deleted after the second, which
/// moves on with it only where it keeps or deletes the same text.
#[verifier::spinoff_prover]
fn dt_step_text(
    res_a: &mut Vec<DelElement>,
    res_b: &mut Vec<DelElement>,
    a: &mut DelStepper,
    b: &mut DelStepper,
    Ghost(r0a): Ghost<Seq<DelAtom>>,
    Ghost(r0b): Ghost<Seq<DelAtom>>,
    Ghost(w0): Ghost<(Seq<DelAtom>, Seq<DelAtom>, Seq<DelAtom>, Seq<DelAtom>)>,
    Ghost(fuel): Ghost<nat>,
)
    requires
        dt_inv(old(res_a)@, old(res_b)@, *old(a), *old(b), r0a, r0b, w0, fuel),
        old(a).head matches Some(h) && h is DelText,
        old(b).head is Some,
    ensures
        del_merged(del_span_view(old(res_a)@)) ==> del_merged(del_span_view(final(res_a)@)),
        del_merged(del_span_view(old(res_b)@)) ==> del_merged(del_span_view(final(res_b)@)),
        dt_inv(final(res_a)@, final(res_b)@, *final(a), *final(b), r0a, r0b, w0, fuel),
        dt_progress(*old(a), *old(b), *final(a), *final(b)),
        dt_deep(old(res_a)@, old(res_b)@, *old(a), *old(b)) ==> dt_deep(final(res_a)@, final(res_b)@, *final(a), *final(b)),
{
    proof {
        lemma_dst_first(*a);
        lemma_dst_first(*b);
        lemma_dst_deep_head(*a);
        lemma_dst_deep_head(*b);
    }
    let ghost ar = del_atoms(a.rest_view());
    let ghost br = del_atoms(b.rest_view());
    let ghost a0 = *a;
    let ghost b0 = *b;
    let ghost xa = del_atoms(del_span_view(res_a@));
    let ghost xb = del_atoms(del_span_view(res_b@));
    let c = match a.get_head() {
        DelText(c) => c,
        _ => {
            proof {
                assert(false);
            }
            return ;
        },
    };
    let bk: u8 = match &b.head {
        Some(DelSkip(_)) => 0,
        Some(DelText(_)) => 1,
        Some(DelStyles(..)) => 3,
        _ => 2,
    };
    if bk == 3 {
        proof {
            lemma_dt_walk_none(dst_atoms(a0), dst_atoms(b0));
        }
        return ;
    }
    if bk == 2 {
        proof {
            let bb = dst_atoms(b0);
            lemma_dt_text_run(c as nat, ar, bb);
            assert(xa + Seq::<DelAtom>::empty() =~= xa);
            lemma_dt_advance(xa, xb, dst_atoms(a0), bb, ar, bb, Seq::empty(), repeat(DelAtom::Text, c as nat), r0a, r0b, w0);
            crate::compose::lemma_del_size_repeat(DelAtom::Text, c as nat, ar);
        }
        dt_place(res_b, DelText(c));
        a.next();
        proof {
            lemma_dst_next(a0, *a);
            lemma_dst_deep_next(a0, *a);
        }
    } else {
        let d = match b.get_head() {
            DelSkip(d) => d,
            DelText(d) => d,
            _ => {
                proof {
                    assert(false);
                }
                return ;
            },
        };
        let n = if c < d {
            c
        } else {
            d
        };
        let ghost y = if bk == 1 {
            DelAtom::Text
        } else {
            DelAtom::Skip
        };
        let ghost a1 = repeat(DelAtom::Text, (c - n) as nat) + ar;
        let ghost b1 = repeat(y, (d - n) as nat) + br;
        let ghost pb = opt_rep(dt_counted_b(DelAtom::Text, y), n as nat);
        proof {
            lemma_dt_counted(DelAtom::Text, y, c as nat, d as nat, n as nat, ar, br);
            assert(opt_rep(dt_counted_a(DelAtom::Text, y), n as nat) == Seq::<DelAtom>::empty());
            assert(xa + Seq::<DelAtom>::empty() =~= xa);
            lemma_dt_advance(xa, xb, dst_atoms(a0), dst_atoms(b0), a1, b1, Seq::empty(), pb, r0a, r0b, w0);
            crate::compose::lemma_del_size_repeat(DelAtom::Text, c as nat, ar);
            crate::compose::lemma_del_size_repeat(DelAtom::Text, (c - n) as nat, ar);
            crate::compose::lemma_del_size_repeat(y, d as nat, br);
            crate::compose::lemma_del_size_repeat(y, (d - n) as nat, br);
        }
        if bk == 0 {
            dt_place(res_b, DelText(n));
        } else {
            proof {
                assert(xb + pb =~= xb);
            }
        }
        dst_take(a, n, c, del_run_elem(1, crate::rtf::StyleSet::new(), c - n), Ghost(DelAtom::Text));
        dst_take(b, n, d, del_run_elem(if bk == 1 { 1 } else { 0 }, crate::rtf::StyleSet::new(), d - n), Ghost(y));
    }
}

/// An atom that the first deletion keeps: what the second does there
/// follows the first, and the second keeps what is left of it.
#[verifier::spinoff_prover]
fn dt_step_skip(
    res_a: &mut Vec<DelElement>,
    res_b: &mut Vec<DelElement>,
    a: &mut DelStepper,
    b: &mut DelStepper,
    Ghost(r0a): Ghost<Seq<DelAtom>>,
    Ghost(r0b): Ghost<Seq<DelAtom>>,
    Ghost(w0): Ghost<(Seq<DelAtom>, Seq<DelAtom>, Seq<DelAtom>, Seq<DelAtom>)>,
    Ghost(fuel): Ghost<nat>,
)
    requires
        dt_inv(old(res_a)@, old(res_b)@, *old(a), *old(b), r0a, r0b, w0, fuel),
        old(a).head matches Some(h) && h is DelSkip,
        old(b).head is Some,
    ensures
        del_merged(del_span_view(old(res_a)@)) ==> del_merged(del_span_view(final(res_a)@)),
        del_merged(del_span_view(old(res_b)@)) ==> del_merged(del_span_view(final(res_b)@)),
        dt_inv(final(res_a)@, final(res_b)@, *final(a), *final(b), r0a, r0b, w0, fuel),
        dt_progress(*old(a), *old(b), *final(a), *final(b)),
        dt_deep(old(res_a)@, old(res_b)@, *old(a), *old(b)) ==> dt_deep(final(res_a)@, final(res_b)@, *final(a), *final(b)),
{
    proof {
        lemma_dst_first(*a);
        lemma_dst_first(*b);
        lemma_dst_deep_head(*a);
        lemma_dst_deep_head(*b);
    }
    let ghost ar = del_atoms(a.rest_view());
    let ghost br = del_atoms(b.rest_view());
    let ghost a0 = *a;
    let ghost b0 = *b;
    let ghost xa = del_atoms(del_span_view(res_a@));
    let ghost xb = del_atoms(del_span_view(res_b@));
    let c = match a.get_head() {
        DelSkip(c) => c,
        _ => {
            proof {
                assert(false);
            }
            return ;
        },
    };
    let bk: u8 = match &b.head {
        Some(DelSkip(_)) => 0,
        Some(DelText(_)) => 1,
        Some(DelGroup(_)) => 2,
        Some(DelWithGroup(_)) => 3,
        _ => 4,
    };
    if bk == 4 {
        proof {
            let bb = dst_atoms(b0);
            lemma_repeat_first(DelAtom::Skip, c as nat);
            assert(dst_atoms(a0) =~= seq![DelAtom::Skip] + (repeat(DelAtom::Skip, (c - 1) as nat) + ar));
            assert(bb =~= seq![bb[0]] + bb.drop_first());
            lemma_dt_walk_step(DelAtom::Skip, bb[0], repeat(DelAtom::Skip, (c - 1) as nat) + ar, bb.drop_first());
            assert(false);
        }
        return ;
    }
    if bk <= 1 {
        let d = match b.get_head() {
            DelSkip(d) => d,
            DelText(d) => d,
            _ => {
                proof {
                    assert(false);
                }
                return ;
            },
        };
        let n = if c < d {
            c
        } else {
            d
        };
        let ghost y = if bk == 1 {
            DelAtom::Text
        } else {
            DelAtom::Skip
        };
        let ghost a1 = repeat(DelAtom::Skip, (c - n) as nat) + ar;
        let ghost b1 = repeat(y, (d - n) as nat) + br;
        let ghost pa = opt_rep(dt_counted_a(DelAtom::Skip, y), n as nat);
        let ghost pb = opt_rep(dt_counted_b(DelAtom::Skip, y), n as nat);
        proof {
            lemma_dt_counted(DelAtom::Skip, y, c as nat, d as nat, n as nat, ar, br);
            lemma_dt_advance(xa, xb, dst_atoms(a0), dst_atoms(b0), a1, b1, pa, pb, r0a, r0b, w0);
            crate::compose::lemma_del_size_repeat(DelAtom::Skip, c as nat, ar);
            crate::compose::lemma_del_size_repeat(DelAtom::Skip, (c - n) as nat, ar);
            crate::compose::lemma_del_size_repeat(y, d as nat, br);
            crate::compose::lemma_del_size_repeat(y, (d - n) as nat, br);
        }
        if bk == 0 {
            dt_place(res_a, DelSkip(n));
            dt_place(res_b, DelSkip(n));
        } else {
            dt_place(res_a, DelText(n));
            proof {
                assert(xb + pb =~= xb);
            }
        }
        dst_take(a, n, c, DelSkip(c - n), Ghost(DelAtom::Skip));
        dst_take(b, n, d, del_run_elem(if bk == 1 { 1 } else { 0 }, crate::rtf::StyleSet::new(), d - n), Ghost(y));
    } else {
        let ghost a1 = repeat(DelAtom::Skip, (c - 1) as nat) + ar;
        let ghost y = dst_atoms(b0)[0];
        proof {
            lemma_repeat_first(DelAtom::Skip, c as nat);
            assert(dst_atoms(a0) =~= seq![DelAtom::Skip] + a1);
            lemma_dt_walk_step(DelAtom::Skip, y, a1, br);
            crate::compose::lemma_del_size_repeat(DelAtom::Skip, c as nat, ar);
            crate::compose::lemma_del_size_repeat(DelAtom::Skip, (c - 1) as nat, ar);
            lemma_repeat(DelAtom::Skip, (c - 1) as nat);
        }
        let bh = b.next().unwrap();
        proof {
            lemma_dst_next(b0, *b);
            lemma_dst_deep_next(b0, *b);
        }
        if bk == 2 {
            let post = match &bh {
                DelGroup(inner) => {
                    proof {
                        let pb = repeat(DelAtom::Skip, del_post(del_atoms(del_span_view(inner@))));
                        lemma_dt_advance(xa, xb, dst_atoms(a0), dst_atoms(b0), a1, br, seq![y], pb, r0a, r0b, w0);
                        crate::compose::lemma_del_size_repeat(DelAtom::Skip, del_post(del_atoms(del_span_view(inner@))), Seq::empty());
                        assert(pb + Seq::<DelAtom>::empty() =~= pb);
                    }
                    crate::place::del_skip_post_len(inner)
                },
                _ => {
                    proof {
                        assert(false);
                    }
                    return ;
                },
            };
            dt_place(res_a, bh);
            dt_place_skips(res_b, post);
        } else {
            proof {
                lemma_dt_advance(xa, xb, dst_atoms(a0), dst_atoms(b0), a1, br, seq![y], seq![DelAtom::Skip], r0a, r0b, w0);
                lemma_repeat(DelAtom::Skip, 1);
                assert(repeat(DelAtom::Skip, 1) =~= seq![DelAtom::Skip]);
            }
            dt_place(res_a, bh);
            dt_place(res_b, DelSkip(1));
        }
        dst_take(a, 1, c, DelSkip(c - 1), Ghost(DelAtom::Skip));
    }
}

/// Where the walk does not fit: a deletion of styles in the first, or a
/// group of the first against text of the second.
proof fn lemma_dt_walk_none(a: Seq<DelAtom>, b: Seq<DelAtom>)
    requires
        a.len() > 0,
        b.len() > 0,
        a[0] is Styles || ((a[0] is Group || a[0] is WithGroup) && (b[0] is Text || b[0] is Styles))
            || ((a[0] is Skip || a[0] is Text) && b[0] is Styles),
    ensures
        del_transform_walk(a, b) is None,
{
    assert(a =~= seq![a[0]] + a.drop_first());
    assert(b =~= seq![b[0]] + b.drop_first());
    lemma_dt_walk_step(a[0], b[0], a.drop_first(), b.drop_first());
}

/// A group of the first deletion against an atom that the second keeps.
#[verifier::spinoff_prover]
fn dt_step_group_skip(
    res_a: &mut Vec<DelElement>,
    res_b: &mut Vec<DelElement>,
    a: &mut DelStepper,
    b: &mut DelStepper,
    Ghost(r0a): Ghost<Seq<DelAtom>>,
    Ghost(r0b): Ghost<Seq<DelAtom>>,
    Ghost(w0): Ghost<(Seq<DelAtom>, Seq<DelAtom>, Seq<DelAtom>, Seq<DelAtom>)>,
    Ghost(fuel): Ghost<nat>,
)
    requires
        dt_inv(old(res_a)@, old(res_b)@, *old(a), *old(b), r0a, r0b, w0, fuel),
        old(a).head matches Some(h) && (h is DelGroup || h is DelWithGroup),
        old(b).head matches Some(h) && h is DelSkip,
    ensures
        del_merged(del_span_view(old(res_a)@)) ==> del_merged(del_span_view(final(res_a)@)),
        del_merged(del_span_view(old(res_b)@)) ==> del_merged(del_span_view(final(res_b)@)),
        dt_inv(final(res_a)@, final(res_b)@, *final(a), *final(b), r0a, r0b, w0, fuel),
        dt_progress(*old(a), *old(b), *final(a), *final(b)),
        dt_deep(old(res_a)@, old(res_b)@, *old(a), *old(b)) ==> dt_deep(final(res_a)@, final(res_b)@, *final(a), *final(b)),
{
    proof {
        lemma_dst_first(*a);
        lemma_dst_first(*b);
        lemma_dst_deep_head(*a);
        lemma_dst_deep_head(*b);
    }
    let ghost ar = del_atoms(a.rest_view());
    let ghost br = del_atoms(b.rest_view());
    let ghost a0 = *a;
    let ghost b0 = *b;
    let ghost xa = del_atoms(del_span_view(res_a@));
    let ghost xb = del_atoms(del_span_view(res_b@));
    let d = match b.get_head() {
        DelSkip(d) => d,
        _ => {
            proof {
                assert(false);
            }
            return ;
        },
    };
    let ghost x = dst_atoms(a0)[0];
    let ghost b1 = repeat(DelAtom::Skip, (d - 1) as nat) + br;
    proof {
        lemma_repeat_first(DelAtom::Skip, d as nat);
        assert(dst_atoms(b0) =~= seq![DelAtom::Skip] + b1);
        lemma_dt_walk_step(x, DelAtom::Skip, ar, b1);
        crate::compose::lemma_del_size_repeat(DelAtom::Skip, d as nat, br);
        crate::compose::lemma_del_size_repeat(DelAtom::Skip, (d - 1) as nat, br);
        lemma_repeat(DelAtom::Skip, (d - 1) as nat);
        lemma_del_seq_size_first(dst_atoms(a0));
        assert(dst_atoms(a0).drop_first() =~= ar);
    }
    let ah = a.next().unwrap();
    proof {
        lemma_dst_next(a0, *a);
        lemma_dst_deep_next(a0, *a);
    }
    match &ah {
        DelGroup(inner) => {
            let ghost pa = repeat(DelAtom::Skip, del_post(del_atoms(del_span_view(inner@))));
            proof {
                lemma_dt_advance(xa, xb, dst_atoms(a0), dst_atoms(b0), ar, b1, pa, seq![x], r0a, r0b, w0);
                crate::compose::lemma_del_size_repeat(DelAtom::Skip, del_post(del_atoms(del_span_view(inner@))), Seq::empty());
                assert(pa + Seq::<DelAtom>::empty() =~= pa);
            }
            let post = crate::place::del_skip_post_len(inner);
            dt_place_skips(res_a, post);
        },
        _ => {
            proof {
                lemma_dt_advance(xa, xb, dst_atoms(a0), dst_atoms(b0), ar, b1, seq![DelAtom::Skip], seq![x], r0a, r0b, w0);
                lemma_repeat(DelAtom::Skip, 1);
                assert(repeat(DelAtom::Skip, 1) =~= seq![DelAtom::Skip]);
            }
            dt_place(res_a, DelSkip(1));
        },
    }
    dt_place(res_b, ah);
    dst_take(b, 1, d, DelSkip(d - 1), Ghost(DelAtom::Skip));
}

/// Two groups that both deletions delete, or both keep: the transform of
/// their contents.
#[verifier::spinoff_prover]
fn dt_step_group_group(
    res_a: &mut Vec<DelElement>,
    res_b: &mut Vec<DelElement>,
    a: &mut DelStepper,
    b: &mut DelStepper,
    Ghost(r0a): Ghost<Seq<DelAtom>>,
    Ghost(r0b): Ghost<Seq<DelAtom>>,
    Ghost(w0): Ghost<(Seq<DelAtom>, Seq<DelAtom>, Seq<DelAtom>, Seq<DelAtom>)>,
    Ghost(fuel): Ghost<nat>,
)
    requires
        dt_inv(old(res_a)@, old(res_b)@, *old(a), *old(b), r0a, r0b, w0, fuel),
        (old(a).head matches Some(h) && h is DelGroup) && (old(b).head matches Some(h) && h is DelGroup)
            || (old(a).head matches Some(h) && h is DelWithGroup) && (old(b).head matches Some(h) && h is DelWithGroup),
    ensures
        del_merged(del_span_view(old(res_a)@)) ==> del_merged(del_span_view(final(res_a)@)),
        del_merged(del_span_view(old(res_b)@)) ==> del_merged(del_span_view(final(res_b)@)),
        dt_inv(final(res_a)@, final(res_b)@, *final(a), *final(b), r0a, r0b, w0, fuel),
        dt_progress(*old(a), *old(b), *final(a), *final(b)),
        dt_deep(old(res_a)@, old(res_b)@, *old(a), *old(b)) ==> dt_deep(final(res_a)@, final(res_b)@, *final(a), *final(b)),
    decreases fuel, 0nat,
{
    proof {
        lemma_dst_first(*a);
        lemma_dst_first(*b);
        lemma_dst_deep_head(*a);
        lemma_dst_deep_head(*b);
    }
    let ghost ar = del_atoms(a.rest_view());
    let ghost br = del_atoms(b.rest_view());
    let ghost a0 = *a;
    let ghost b0 = *b;
    let ghost xa = del_atoms(del_span_view(res_a@));
    let ghost xb = del_atoms(del_span_view(res_b@));
    let ghost x = dst_atoms(a0)[0];
    let ghost y = dst_atoms(b0)[0];
    proof {
        lemma_dt_walk_step(x, y, ar, br);
        lemma_del_seq_size_first(dst_atoms(a0));
        assert(dst_atoms(a0).drop_first() =~= ar);
    }
    let ah = a.next().unwrap();
    let bh = b.next().unwrap();
    proof {
        lemma_dst_next(a0, *a);
        lemma_dst_deep_next(a0, *a);
        lemma_dst_next(b0, *b);
        lemma_dst_deep_next(b0, *b);
        crate::doc::lemma_del_group_wf(ah@);
        crate::doc::lemma_del_group_wf(bh@);
    }
    match (ah, bh) {
        (DelGroup(ia), DelGroup(ib)) => {
            let ghost t = del_transform_atoms(del_atoms(del_span_view(ia@)), del_atoms(del_span_view(ib@))).unwrap();
            proof {
                lemma_dt_advance(xa, xb, dst_atoms(a0), dst_atoms(b0), ar, br, t.0, t.1, r0a, r0b, w0);
            }
            let (ta, tb) = transform_fuel(&ia, &ib, Ghost(del_seq_size(del_atoms(del_span_view(ia@)))));
            dt_place_all(res_a, &ta);
            dt_place_all(res_b, &tb);
        },
        (DelWithGroup(ia), DelWithGroup(ib)) => {
            let ghost t = del_transform_atoms(del_atoms(del_span_view(ia@)), del_atoms(del_span_view(ib@))).unwrap();
            proof {
                let pa = seq![DelAtom::WithGroup(t.0)];
                let pb = seq![DelAtom::WithGroup(t.1)];
                lemma_dt_advance(xa, xb, dst_atoms(a0), dst_atoms(b0), ar, br, pa, pb, r0a, r0b, w0);
                lemma_del_seq_size_first(pa);
                lemma_del_seq_size_first(pb);
            }
            let (ta, tb) = transform_fuel(&ia, &ib, Ghost(del_seq_size(del_atoms(del_span_view(ia@)))));
            let oa = DelWithGroup(ta);
            let ob = DelWithGroup(tb);
            proof {
                crate::doc::lemma_del_group_wf(oa@);
                crate::doc::lemma_del_group_wf(ob@);
            }
            dt_place(res_a, oa);
            dt_place(res_b, ob);
        },
        _ => {
            proof {
                assert(false);
            }
        },
    }
}

/// A group that one deletion deletes and the other keeps: their contents
/// walk side by side, and what is left of the deleted group's contents is
/// deleted after the other.
#[verifier::spinoff_prover]
#[verifier::rlimit(30)]
fn dt_step_group_mixed(
    res_a: &mut Vec<DelElement>,
    res_b: &mut Vec<DelElement>,
    a: &mut DelStepper,
    b: &mut DelStepper,
    Ghost(r0a): Ghost<Seq<DelAtom>>,
    Ghost(r0b): Ghost<Seq<DelAtom>>,
    Ghost(w0): Ghost<(Seq<DelAtom>, Seq<DelAtom>, Seq<DelAtom>, Seq<DelAtom>)>,
    Ghost(fuel): Ghost<nat>,
)
    requires
        dt_inv(old(res_a)@, old(res_b)@, *old(a), *old(b), r0a, r0b, w0, fuel),
        (old(a).head matches Some(h) && h is DelGroup) && (old(b).head matches Some(h) && h is DelWithGroup)
            || (old(a).head matches Some(h) && h is DelWithGroup) && (old(b).head matches Some(h) && h is DelGroup),
    ensures
        del_merged(del_span_view(old(res_a)@)) ==> del_merged(del_span_view(final(res_a)@)),
        del_merged(del_span_view(old(res_b)@)) ==> del_merged(del_span_view(final(res_b)@)),
        dt_inv(final(res_a)@, final(res_b)@, *final(a), *final(b), r0a, r0b, w0, fuel),
        dt_progress(*old(a), *old(b), *final(a), *final(b)),
        dt_deep(old(res_a)@, old(res_b)@, *old(a), *old(b)) ==> dt_deep(final(res_a)@, final(res_b)@, *final(a), *final(b)),
    decreases fuel, 0nat,
{
    proof {
        lemma_dst_first(*a);
        lemma_dst_first(*b);
        lemma_dst_deep_head(*a);
        lemma_dst_deep_head(*b);
    }
    let ghost ar = del_atoms(a.rest_view());
    let ghost br = del_atoms(b.rest_view());
    let ghost a0 = *a;
    let ghost b0 = *b;
    let ghost xa = del_atoms(del_span_view(res_a@));
    let ghost xb = del_atoms(del_span_view(res_b@));
    let ghost x = dst_atoms(a0)[0];
    let ghost y = dst_atoms(b0)[0];
    proof {
        lemma_dt_walk_step(x, y, ar, br);
        lemma_del_seq_size_first(dst_atoms(a0));
        assert(dst_atoms(a0).drop_first() =~= ar);
    }
    let ah = a.next().unwrap();
    let bh = b.next().unwrap();
    proof {
        lemma_dst_next(a0, *a);
        lemma_dst_deep_next(a0, *a);
        lemma_dst_next(b0, *b);
        lemma_dst_deep_next(b0, *b);
        crate::doc::lemma_del_group_wf(ah@);
        crate::doc::lemma_del_group_wf(bh@);
    }
    let (ia, ib, a_deletes) = match (ah, bh) {
        (DelGroup(ia), DelWithGroup(ib)) => (ia, ib, true),
        (DelWithGroup(ia), DelGroup(ib)) => (ia, ib, false),
        _ => {
            proof {
                assert(false);
            }
            return ;
        },
    };
    let ghost iav = del_atoms(del_span_view(ia@));
    let ghost ibv = del_atoms(del_span_view(ib@));
    let ghost wi = del_transform_walk(iav, ibv).unwrap();
    let mut a_inner_del: Vec<DelElement> = Vec::new();
    let mut b_inner_del: Vec<DelElement> = Vec::new();
    let mut a_inner_step = DelStepper::new(&ia);
    let mut b_inner_step = DelStepper::new(&ib);
    proof {
        lemma_dst_deep_new(a_inner_step, del_span_view(ia@));
        lemma_dst_deep_new(b_inner_step, del_span_view(ib@));
        lemma_del_deep_at(Seq::<DelNode>::empty());
        assert(del_span_view(a_inner_del@) =~= Seq::<DelNode>::empty());
        assert(del_span_view(b_inner_del@) =~= Seq::<DelNode>::empty());
        assert(del_atoms(Seq::<DelNode>::empty()) =~= Seq::<DelAtom>::empty());
        assert(Seq::<DelAtom>::empty() + wi.0 =~= wi.0);
        assert(Seq::<DelAtom>::empty() + wi.1 =~= wi.1);
        if a_deletes {
            let pa = wi.0 + undel_atoms(wi.2);
            let pb = seq![DelAtom::Group(wi.1 + wi.2)];
            lemma_dt_advance(xa, xb, dst_atoms(a0), dst_atoms(b0), ar, br, pa, pb, r0a, r0b, w0);
            lemma_del_seq_size_first(pb);
            lemma_size_prefix(wi.0, undel_atoms(wi.2));
            lemma_size_prefix(wi.1, wi.2);
            lemma_del_seq_size_concat(wi.1, wi.2);
        } else {
            let pa = seq![DelAtom::Group(wi.0 + wi.3)];
            let pb = wi.1 + undel_atoms(wi.3);
            lemma_dt_advance(xa, xb, dst_atoms(a0), dst_atoms(b0), ar, br, pa, pb, r0a, r0b, w0);
            lemma_del_seq_size_first(pa);
            lemma_size_prefix(wi.1, undel_atoms(wi.3));
            lemma_size_prefix(wi.0, wi.3);
            lemma_del_seq_size_concat(wi.0, wi.3);
        }
    }
    dt_walk(&mut a_inner_del, &mut b_inner_del, &mut a_inner_step, &mut b_inner_step, Ghost(del_seq_size(iav)));
    proof {
        lemma_dst_atoms(a_inner_step);
        lemma_dst_atoms(b_inner_step);
    }
    if a_deletes {
        let del_span = a_inner_step.into_span();
        proof {
            lemma_del_seq_size_concat(wi.1, wi.2);
        }
        let u = undel(&del_span);
        dt_place_all(&mut a_inner_del, &u);
        dt_place_all(&mut b_inner_del, &del_span);
        dt_place_all(res_a, &a_inner_del);
        let g = DelGroup(b_inner_del);
        proof {
            crate::doc::lemma_del_group_wf(g@);
        }
        dt_place(res_b, g);
    } else {
        let del_span = b_inner_step.into_span();
        proof {
            lemma_del_seq_size_concat(wi.0, wi.3);
        }
        let u = undel(&del_span);
        dt_place_all(&mut a_inner_del, &del_span);
        dt_place_all(&mut b_inner_del, &u);
        let g = DelGroup(a_inner_del);
        proof {
            crate::doc::lemma_del_group_wf(g@);
        }
        dt_place(res_a, g);
        dt_place_all(res_b, &b_inner_del);
    }
}

/// Walks two deletions side by side until either ends.
#[verifier::spinoff_prover]
fn dt_walk(
    res_a: &mut Vec<DelElement>,
    res_b: &mut Vec<DelElement>,
    a: &mut DelStepper,
    b: &mut DelStepper,
    Ghost(fuel): Ghost<nat>,
)
    requires
        dst_ok(*old(a)),
        dst_ok(*old(b)),
        del_span_wf(del_span_view(old(res_a)@)),
        del_span_wf(del_span_view(old(res_b)@)),
        del_transform_walk(dst_atoms(*old(a)), dst_atoms(*old(b))) is Some,
        del_seq_size(del_atoms(del_span_view(old(res_a)@)) + del_transform_walk(dst_atoms(*old(a)), dst_atoms(*old(b))).unwrap().0) <= usize::MAX,
        del_seq_size(del_atoms(del_span_view(old(res_b)@)) + del_transform_walk(dst_atoms(*old(a)), dst_atoms(*old(b))).unwrap().1) <= usize::MAX,
        del_seq_size(dst_atoms(*old(a))) <= fuel,
    ensures
        del_merged(del_span_view(old(res_a)@)) ==> del_merged(del_span_view(final(res_a)@)),
        del_merged(del_span_view(old(res_b)@)) ==> del_merged(del_span_view(final(res_b)@)),
        dst_ok(*final(a)),
        dst_ok(*final(b)),
        del_span_wf(del_span_view(final(res_a)@)),
        del_span_wf(del_span_view(final(res_b)@)),
        del_atoms(del_span_view(final(res_a)@)) == del_atoms(del_span_view(old(res_a)@)) + del_transform_walk(dst_atoms(*old(a)), dst_atoms(*old(b))).unwrap().0,
        del_atoms(del_span_view(final(res_b)@)) == del_atoms(del_span_view(old(res_b)@)) + del_transform_walk(dst_atoms(*old(a)), dst_atoms(*old(b))).unwrap().1,
        dst_atoms(*final(a)) == del_transform_walk(dst_atoms(*old(a)), dst_atoms(*old(b))).unwrap().2,
        dst_atoms(*final(b)) == del_transform_walk(dst_atoms(*old(a)), dst_atoms(*old(b))).unwrap().3,
        dt_deep(old(res_a)@, old(res_b)@, *old(a), *old(b)) ==> dt_deep(final(res_a)@, final(res_b)@, *final(a), *final(b)),
    decreases fuel, 1nat,
{
    let ghost r0a = del_atoms(del_span_view(res_a@));
    let ghost r0b = del_atoms(del_span_view(res_b@));
    let ghost w0 = del_transform_walk(dst_atoms(*a), dst_atoms(*b)).unwrap();
    while !a.is_done() && !b.is_done()
        invariant
            del_merged(del_span_view(old(res_a)@)) ==> del_merged(del_span_view(res_a@)),
            del_merged(del_span_view(old(res_b)@)) ==> del_merged(del_span_view(res_b@)),
            dt_inv(res_a@, res_b@, *a, *b, r0a, r0b, w0, fuel),
            dt_deep(old(res_a)@, old(res_b)@, *old(a), *old(b)) ==> dt_deep(res_a@, res_b@, *a, *b),
        decreases dst_atoms(*a).len() + dst_atoms(*b).len(),
    {
        let ak: u8 = match &a.head {
            Some(DelText(_)) => 0,
            Some(DelSkip(_)) => 1,
            Some(DelGroup(_)) => 2,
            Some(DelWithGroup(_)) => 3,
            _ => 4,
        };
        let bk: u8 = match &b.head {
            Some(DelSkip(_)) => 1,
            Some(DelGroup(_)) => 2,
            Some(DelWithGroup(_)) => 3,
            _ => 0,
        };
        if ak == 0 {
            dt_step_text(res_a, res_b, a, b, Ghost(r0a), Ghost(r0b), Ghost(w0), Ghost(fuel));
        } else if ak == 1 {
            dt_step_skip(res_a, res_b, a, b, Ghost(r0a), Ghost(r0b), Ghost(w0), Ghost(fuel));
        } else if ak == 4 || bk == 0 {
            proof {
                lemma_dst_first(*a);
                lemma_dst_first(*b);
                lemma_dt_walk_none(dst_atoms(*a), dst_atoms(*b));
            }
            return ;
        } else if bk == 1 {
            dt_step_group_skip(res_a, res_b, a, b, Ghost(r0a), Ghost(r0b), Ghost(w0), Ghost(fuel));
        } else if ak == bk {
            dt_step_group_group(res_a, res_b, a, b, Ghost(r0a), Ghost(r0b), Ghost(w0), Ghost(fuel));
        } else {
            dt_step_group_mixed(res_a, res_b, a, b, Ghost(r0a), Ghost(r0b), Ghost(w0), Ghost(fuel));
        }
    }
    proof {
        lemma_dst_atoms(*a);
        lemma_dst_atoms(*b);
        lemma_dt_walk_end(dst_atoms(*a), dst_atoms(*b));
        assert(del_atoms(del_span_view(res_a@)) + Seq::<DelAtom>::empty() =~= del_atoms(del_span_view(res_a@)));
        assert(del_atoms(del_span_view(res_b@)) + Seq::<DelAtom>::empty() =~= del_atoms(del_span_view(res_b@)));
    }
}

/// Transforms two deletions, given a bound on the size of the first.
#[verifier::spinoff_prover]
fn transform_fuel(avec: &Vec<DelElement>, bvec: &Vec<DelElement>, Ghost(fuel): Ghost<nat>) -> (res: (Vec<DelElement>, Vec<DelElement>))
    requires
        del_span_wf(del_span_view(avec@)),
        del_span_wf(del_span_view(bvec@)),
        del_transform_atoms(del_atoms(del_span_view(avec@)), del_atoms(del_span_view(bvec@))) is Some,
        del_seq_size(del_transform_atoms(del_atoms(del_span_view(avec@)), del_atoms(del_span_view(bvec@))).unwrap().0) <= usize::MAX,
        del_seq_size(del_transform_atoms(del_atoms(del_span_view(avec@)), del_atoms(del_span_view(bvec@))).unwrap().1) <= usize::MAX,
        del_seq_size(del_atoms(del_span_view(avec@))) <= fuel,
    ensures
        del_merged(del_span_view(res.0@)),
        del_merged(del_span_view(res.1@)),
        del_span_wf(del_span_view(res.0@)),
        del_span_wf(del_span_view(res.1@)),
        del_transform_atoms(del_atoms(del_span_view(avec@)), del_atoms(del_span_view(bvec@))) == Some(
            (del_atoms(del_span_view(res.0@)), del_atoms(del_span_view(res.1@))),
        ),
        del_deep(del_span_view(avec@)) && del_deep(del_span_view(bvec@)) ==> del_deep(del_span_view(res.0@))
            && del_deep(del_span_view(res.1@)),
    decreases fuel, 2nat,
{
    let ghost w = del_transform_walk(del_atoms(del_span_view(avec@)), del_atoms(del_span_view(bvec@))).unwrap();
    let mut a_del: Vec<DelElement> = Vec::new();
    let mut b_del: Vec<DelElement> = Vec::new();
    let mut a = DelStepper::new(avec);
    let mut b = DelStepper::new(bvec);
    proof {
        assert(del_span_view(a_del@) =~= Seq::<DelNode>::empty());
        assert(del_span_view(b_del@) =~= Seq::<DelNode>::empty());
        assert(del_atoms(Seq::<DelNode>::empty()) =~= Seq::<DelAtom>::empty());
        assert(Seq::<DelAtom>::empty() + w.0 =~= w.0);
        assert(Seq::<DelAtom>::empty() + w.1 =~= w.1);
        lemma_size_prefix(w.0, w.3);
        lemma_size_prefix(w.1, w.2);
        lemma_dst_deep_new(a, del_span_view(avec@));
        lemma_dst_deep_new(b, del_span_view(bvec@));
        lemma_del_deep_at(Seq::<DelNode>::empty());
    }
    dt_walk(&mut a_del, &mut b_del, &mut a, &mut b, Ghost(fuel));
    proof {
        lemma_dst_atoms(a);
        lemma_dst_atoms(b);
    }
    let rest_b = b.into_span();
    dt_place_all(&mut a_del, &rest_b);
    let rest_a = a.into_span();
    dt_place_all(&mut b_del, &rest_a);
    (a_del, b_del)
}

// ---------------------------------------------------------------------------
// How large a transform is.

/// A run of kept atoms has a size of its length.
proof fn lemma_skips_size(n: nat)
    ensures
        del_seq_size(repeat(DelAtom::Skip, n)) == n,
{
    crate::compose::lemma_del_size_repeat(DelAtom::Skip, n, Seq::empty());
    assert(repeat(DelAtom::Skip, n) + Seq::<DelAtom>::empty() =~= repeat(DelAtom::Skip, n));
}

/// What a walk writes, with twice what it leaves, is at most twice what it
/// walks.
pub proof fn lemma_dt_walk_size(a: Seq<DelAtom>, b: Seq<DelAtom>)
    requires
        del_transform_walk(a, b) is Some,
    ensures
        ({
            let w = del_transform_walk(a, b).unwrap();
            del_seq_size(w.0) + del_seq_size(w.1) + 2 * del_seq_size(w.2) + 2 * del_seq_size(w.3)
                <= 2 * (del_seq_size(a) + del_seq_size(b))
        }),
    decreases a, 0nat,
{
    if a.len() == 0 || b.len() == 0 {
        lemma_dt_walk_end(a, b);
        assert(del_seq_size(Seq::<DelAtom>::empty()) == 0);
    } else {
        let x = a[0];
        let y = b[0];
        let a1 = a.drop_first();
        let b1 = b.drop_first();
        assert(a =~= seq![x] + a1);
        assert(b =~= seq![y] + b1);
        lemma_dt_walk_step(x, y, a1, b1);
        lemma_del_seq_size_first(a);
        lemma_del_seq_size_first(b);
        lemma_del_atom_size(x);
        lemma_del_atom_size(y);
        match (x, y) {
            (DelAtom::Text, DelAtom::Text) | (DelAtom::Text, DelAtom::Skip) | (DelAtom::Skip, DelAtom::Skip) | (DelAtom::Skip, DelAtom::Text) => {
                lemma_dt_walk_size(a1, b1);
                let w1 = del_transform_walk(a1, b1).unwrap();
                lemma_del_seq_size_first(seq![DelAtom::Skip] + w1.0);
                lemma_del_seq_size_first(seq![DelAtom::Skip] + w1.1);
                lemma_del_seq_size_first(seq![DelAtom::Text] + w1.0);
                lemma_del_seq_size_first(seq![DelAtom::Text] + w1.1);
                assert((seq![DelAtom::Skip] + w1.0).drop_first() =~= w1.0);
                assert((seq![DelAtom::Skip] + w1.1).drop_first() =~= w1.1);
                assert((seq![DelAtom::Text] + w1.0).drop_first() =~= w1.0);
                assert((seq![DelAtom::Text] + w1.1).drop_first() =~= w1.1);
                assert(Seq::<DelAtom>::empty() + w1.0 =~= w1.0);
                assert(Seq::<DelAtom>::empty() + w1.1 =~= w1.1);
            },
            (DelAtom::Text, _) => {
                lemma_dt_walk_size(a1, b);
                let w1 = del_transform_walk(a1, b).unwrap();
                lemma_del_seq_size_first(seq![DelAtom::Text] + w1.1);
                assert((seq![DelAtom::Text] + w1.1).drop_first() =~= w1.1);
                assert(Seq::<DelAtom>::empty() + w1.0 =~= w1.0);
            },
            (DelAtom::Skip, DelAtom::Group(ib)) => {
                lemma_dt_walk_size(a1, b1);
                let w1 = del_transform_walk(a1, b1).unwrap();
                lemma_del_seq_size_first(seq![DelAtom::Group(ib)] + w1.0);
                assert((seq![DelAtom::Group(ib)] + w1.0).drop_first() =~= w1.0);
                lemma_del_seq_size_concat(repeat(DelAtom::Skip, del_post(ib)), w1.1);
                lemma_skips_size(del_post(ib));
                crate::compose_op::lemma_del_post_le_size(ib);
            },
            (DelAtom::Group(ia), DelAtom::Skip) => {
                lemma_dt_walk_size(a1, b1);
                let w1 = del_transform_walk(a1, b1).unwrap();
                lemma_del_seq_size_first(seq![DelAtom::Group(ia)] + w1.1);
                assert((seq![DelAtom::Group(ia)] + w1.1).drop_first() =~= w1.1);
                lemma_del_seq_size_concat(repeat(DelAtom::Skip, del_post(ia)), w1.0);
                lemma_skips_size(del_post(ia));
                crate::compose_op::lemma_del_post_le_size(ia);
            },
            (DelAtom::Skip, DelAtom::WithGroup(ib)) => {
                lemma_dt_walk_size(a1, b1);
                let w1 = del_transform_walk(a1, b1).unwrap();
                lemma_del_seq_size_first(seq![DelAtom::WithGroup(ib)] + w1.0);
                assert((seq![DelAtom::WithGroup(ib)] + w1.0).drop_first() =~= w1.0);
                lemma_del_seq_size_first(seq![DelAtom::Skip] + w1.1);
                assert((seq![DelAtom::Skip] + w1.1).drop_first() =~= w1.1);
            },
            (DelAtom::WithGroup(ia), DelAtom::Skip) => {
                lemma_dt_walk_size(a1, b1);
                let w1 = del_transform_walk(a1, b1).unwrap();
                lemma_del_seq_size_first(seq![DelAtom::WithGroup(ia)] + w1.1);
                assert((seq![DelAtom::WithGroup(ia)] + w1.1).drop_first() =~= w1.1);
                lemma_del_seq_size_first(seq![DelAtom::Skip] + w1.0);
                assert((seq![DelAtom::Skip] + w1.0).drop_first() =~= w1.0);
            },
            (DelAtom::Group(ia), DelAtom::Group(ib)) => {
                lemma_dt_size(ia, ib);
                let t = del_transform_atoms(ia, ib).unwrap();
                lemma_dt_walk_size(a1, b1);
                let w1 = del_transform_walk(a1, b1).unwrap();
                lemma_del_seq_size_concat(t.0, w1.0);
                lemma_del_seq_size_concat(t.1, w1.1);
            },
            (DelAtom::WithGroup(ia), DelAtom::WithGroup(ib)) => {
                lemma_dt_size(ia, ib);
                let t = del_transform_atoms(ia, ib).unwrap();
                lemma_dt_walk_size(a1, b1);
                let w1 = del_transform_walk(a1, b1).unwrap();
                lemma_del_seq_size_first(seq![DelAtom::WithGroup(t.0)] + w1.0);
                assert((seq![DelAtom::WithGroup(t.0)] + w1.0).drop_first() =~= w1.0);
                lemma_del_seq_size_first(seq![DelAtom::WithGroup(t.1)] + w1.1);
                assert((seq![DelAtom::WithGroup(t.1)] + w1.1).drop_first() =~= w1.1);
            },
            (DelAtom::Group(ia), DelAtom::WithGroup(ib)) => {
                lemma_dt_walk_size(ia, ib);
                let wi = del_transform_walk(ia, ib).unwrap();
                lemma_dt_walk_size(a1, b1);
                let w1 = del_transform_walk(a1, b1).unwrap();
                lemma_undel_size(wi.2);
                lemma_del_seq_size_concat(wi.0, undel_atoms(wi.2));
                lemma_del_seq_size_concat(wi.0 + undel_atoms(wi.2), w1.0);
                lemma_del_seq_size_concat(wi.1, wi.2);
                let g = DelAtom::Group(wi.1 + wi.2);
                lemma_del_seq_size_first(seq![g] + w1.1);
                assert((seq![g] + w1.1).drop_first() =~= w1.1);
                assert(wi.3.len() == 0);
                assert(del_seq_size(wi.3) == 0);
            },
            (DelAtom::WithGroup(ia), DelAtom::Group(ib)) => {
                lemma_dt_walk_size(ia, ib);
                let wi = del_transform_walk(ia, ib).unwrap();
                lemma_dt_walk_size(a1, b1);
                let w1 = del_transform_walk(a1, b1).unwrap();
                lemma_undel_size(wi.3);
                lemma_del_seq_size_concat(wi.1, undel_atoms(wi.3));
                lemma_del_seq_size_concat(wi.1 + undel_atoms(wi.3), w1.1);
                lemma_del_seq_size_concat(wi.0, wi.3);
                let g = DelAtom::Group(wi.0 + wi.3);
                lemma_del_seq_size_first(seq![g] + w1.0);
                assert((seq![g] + w1.0).drop_first() =~= w1.0);
                assert(wi.2.len() == 0);
                assert(del_seq_size(wi.2) == 0);
            },
            _ => {},
        }
    }
}

/// A transform is at most twice as large as the two deletions.
pub proof fn lemma_dt_size(a: Seq<DelAtom>, b: Seq<DelAtom>)
    requires
        del_transform_atoms(a, b) is Some,
    ensures
        del_seq_size(del_transform_atoms(a, b).unwrap().0) + del_seq_size(del_transform_atoms(a, b).unwrap().1)
            <= 2 * (del_seq_size(a) + del_seq_size(b)),
    decreases a, 1nat,
{
    lemma_dt_atoms(a, b);
    lemma_dt_walk_size(a, b);
    let w = del_transform_walk(a, b).unwrap();
    lemma_del_seq_size_concat(w.0, w.3);
    lemma_del_seq_size_concat(w.1, w.2);
}

// ---------------------------------------------------------------------------
// Transforming deletions.

/// Walks two deletions of one document side by side until either ends,
/// writing to `a_del` what is to follow the first and to `b_del` what is to
/// follow the second, and leaving in each stepper what the walk did not
/// reach.
pub fn transform_del_del_inner(
    a_del: &mut Vec<DelElement>,
    b_del: &mut Vec<DelElement>,
    a: &mut DelStepper,
    b: &mut DelStepper,
)
    requires
        dst_ok(*old(a)),
        dst_ok(*old(b)),
        del_span_wf(del_span_view(old(a_del)@)),
        del_span_wf(del_span_view(old(b_del)@)),
        del_transform_walk(dst_atoms(*old(a)), dst_atoms(*old(b))) is Some,
        del_seq_size(del_atoms(del_span_view(old(a_del)@)) + del_transform_walk(dst_atoms(*old(a)), dst_atoms(*old(b))).unwrap().0) <= usize::MAX,
        del_seq_size(del_atoms(del_span_view(old(b_del)@)) + del_transform_walk(dst_atoms(*old(a)), dst_atoms(*old(b))).unwrap().1) <= usize::MAX,
    ensures
        del_merged(del_span_view(old(a_del)@)) ==> del_merged(del_span_view(final(a_del)@)),
        del_merged(del_span_view(old(b_del)@)) ==> del_merged(del_span_view(final(b_del)@)),
        dst_ok(*final(a)),
        dst_ok(*final(b)),
        del_span_wf(del_span_view(final(a_del)@)),
        del_span_wf(del_span_view(final(b_del)@)),
        del_atoms(del_span_view(final(a_del)@)) == del_atoms(del_span_view(old(a_del)@)) + del_transform_walk(dst_atoms(*old(a)), dst_atoms(*old(b))).unwrap().0,
        del_atoms(del_span_view(final(b_del)@)) == del_atoms(del_span_view(old(b_del)@)) + del_transform_walk(dst_atoms(*old(a)), dst_atoms(*old(b))).unwrap().1,
        dst_atoms(*final(a)) == del_transform_walk(dst_atoms(*old(a)), dst_atoms(*old(b))).unwrap().2,
        dst_atoms(*final(b)) == del_transform_walk(dst_atoms(*old(a)), dst_atoms(*old(b))).unwrap().3,
        dst_deep(*old(a)) && dst_deep(*old(b)) && del_deep(del_span_view(old(a_del)@)) && del_deep(
            del_span_view(old(b_del)@),
        ) ==> dst_deep(*final(a)) && dst_deep(*final(b)) && del_deep(del_span_view(final(a_del)@))
            && del_deep(del_span_view(final(b_del)@)),
{
    let ghost fuel = del_seq_size(dst_atoms(*a));
    dt_walk(a_del, b_del, a, b, Ghost(fuel));
}

/// Transforms two deletions of one document against each other: the first
/// deletion returned is to follow `avec`, the second to follow `bvec`, so
/// that both orders do the same.
pub fn transform_deletions(avec: &Vec<DelElement>, bvec: &Vec<DelElement>) -> (res: (Vec<DelElement>, Vec<DelElement>))
    requires
        del_span_wf(del_span_view(avec@)),
        del_span_wf(del_span_view(bvec@)),
        del_transform_atoms(del_atoms(del_span_view(avec@)), del_atoms(del_span_view(bvec@))) is Some,
        del_seq_size(del_transform_atoms(del_atoms(del_span_view(avec@)), del_atoms(del_span_view(bvec@))).unwrap().0)
            <= usize::MAX,
        del_seq_size(del_transform_atoms(del_atoms(del_span_view(avec@)), del_atoms(del_span_view(bvec@))).unwrap().1)
            <= usize::MAX,
    ensures
        del_merged(del_span_view(res.0@)),
        del_merged(del_span_view(res.1@)),
        del_span_wf(del_span_view(res.0@)),
        del_span_wf(del_span_view(res.1@)),
        del_transform_atoms(del_atoms(del_span_view(avec@)), del_atoms(del_span_view(bvec@))) == Some(
            (del_atoms(del_span_view(res.0@)), del_atoms(del_span_view(res.1@))),
        ),
        del_deep(del_span_view(avec@)) && del_deep(del_span_view(bvec@)) ==> del_deep(del_span_view(res.0@))
            && del_deep(del_span_view(res.1@)),
{
    transform_fuel(avec, bvec, Ghost(del_seq_size(del_atoms(del_span_view(avec@)))))
}

} // verus!
