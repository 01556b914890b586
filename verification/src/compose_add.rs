//! Composing two insertions.
use crate::compose::walk_prefix;
use crate::doc::{
    add_atoms, add_elem_atoms, add_elem_wf, add_span_view, add_span_wf, add_text_atoms,
    lemma_add_atoms_concat, lemma_add_span_view, lemma_repeat, lemma_single_atoms,
    lemma_text_atoms, lemma_add_group_wf, repeat, AddAtom, AddElement, AddNode, DelNode, DocNode,
    AddSkip, AddStyles, AddText, AddGroup, AddWithGroup,
};
use crate::place::{lemma_add_place_ok, lemma_add_place_all_ok, lemma_add_push, lemma_text_atoms_concat, AddPlaceable};
use crate::rtf::StyleSet;
use crate::stepper::AddStepper;
use crate::place::{
    add_deep, add_deep_node, add_merged, add_texts_merged, lemma_add_deep_at, lemma_add_place_all_deep,
    lemma_add_place_deep, lemma_add_push_texts_merged,
};
use vstd::prelude::*;

verus! {

// ---------------------------------------------------------------------------
// Sizes, for termination.

/// The number of atoms of an insertion, counting those inside groups.
pub open spec fn add_atom_size(x: AddAtom) -> nat
    decreases x,
{
    match x {
        AddAtom::WithGroup(inner) => 1 + add_seq_size(inner),
        AddAtom::Group(_, inner) => 1 + add_seq_size(inner),
        _ => 1,
    }
}

pub open spec fn add_seq_size(s: Seq<AddAtom>) -> nat
    decreases s,
{
    if s.len() == 0 {
        0
    } else {
        add_seq_size(s.drop_last()) + add_atom_size(s.last())
    }
}

// ---------------------------------------------------------------------------
// Two insertions in turn.

/// One atom of a first insertion against one atom of a second insertion
/// that walks over what the first makes of it; `None` where they do not fit.
#[verifier::opaque]
pub open spec fn add_add_one(x: AddAtom, y: AddAtom) -> Option<Seq<AddAtom>>
    decreases y, 2nat,
{
    match (x, y) {
        (AddAtom::Skip, _) => Some(seq![y]),
        (AddAtom::Styles(sa), AddAtom::Skip) => Some(seq![x]),
        (AddAtom::Styles(sa), AddAtom::Styles(sb)) => Some(seq![AddAtom::Styles(sa.union(sb))]),
        (AddAtom::Text(_, _), AddAtom::Skip) => Some(seq![x]),
        (AddAtom::Text(st, c), AddAtom::Styles(sb)) => Some(seq![AddAtom::Text(st.union(sb), c)]),
        (AddAtom::WithGroup(_), AddAtom::Skip) => Some(seq![x]),
        (AddAtom::WithGroup(_), AddAtom::Styles(_)) => Some(seq![x]),
        (AddAtom::Group(_, _), AddAtom::Skip) => Some(seq![x]),
        (AddAtom::Group(_, _), AddAtom::Styles(_)) => Some(seq![x]),
        (AddAtom::WithGroup(ia), AddAtom::WithGroup(ib)) => match compose_add_atoms(ia, ib) {
            Some(c) => Some(seq![AddAtom::WithGroup(c)]),
            None => None,
        },
        (AddAtom::Group(at, ia), AddAtom::WithGroup(ib)) => match compose_add_atoms(ia, ib) {
            Some(c) => Some(seq![AddAtom::Group(at, c)]),
            None => None,
        },
        _ => None,
    }
}

/// Writes `h` before what a walk writes.
pub open spec fn add_walk_prefix(
    h: Seq<AddAtom>,
    w: Option<(Seq<AddAtom>, Seq<AddAtom>, Seq<AddAtom>)>,
) -> Option<(Seq<AddAtom>, Seq<AddAtom>, Seq<AddAtom>)> {
    match w {
        Some((o, ra, rb)) => Some((h + o, ra, rb)),
        None => None,
    }
}

/// Walks a first insertion `a` and a second insertion `b` side by side,
/// as `b` goes, until either ends: what is written, and what is left of
/// each. Text that `b` inserts is written as it is; a group that `b`
/// inserts takes in the composition of its contents with as much of `a` as
/// they walk over.
#[verifier::opaque]
pub open spec fn add_add_walk(a: Seq<AddAtom>, b: Seq<AddAtom>) -> Option<
    (Seq<AddAtom>, Seq<AddAtom>, Seq<AddAtom>),
>
    decreases b, 0nat,
{
    if a.len() == 0 || b.len() == 0 {
        Some((Seq::empty(), a, b))
    } else {
        match b[0] {
            AddAtom::Text(_, _) => add_walk_prefix(seq![b[0]], add_add_walk(a, b.drop_first())),
            AddAtom::Group(at, ib) => match add_add_walk(a, ib) {
                Some((oc, ra1, rc)) => add_walk_prefix(
                    seq![AddAtom::Group(at, oc + rc)],
                    add_add_walk(ra1, b.drop_first()),
                ),
                None => None,
            },
            _ => match add_add_one(a[0], b[0]) {
                Some(h) => add_walk_prefix(h, add_add_walk(a.drop_first(), b.drop_first())),
                None => None,
            },
        }
    }
}

/// The insertion that does what `a` then `b` do: the walk of both, then
/// what is left of either.
pub open spec fn compose_add_atoms(a: Seq<AddAtom>, b: Seq<AddAtom>) -> Option<Seq<AddAtom>>
    decreases b, 1nat,
{
    match add_add_walk(a, b) {
        Some((o, ra, rb)) => Some(o + rb + ra),
        None => None,
    }
}

/// A composition of insertions is what their walk writes, then what is
/// left of the second, then what is left of the first.
#[verifier::spinoff_prover]
pub proof fn lemma_compose_add_atoms(a: Seq<AddAtom>, b: Seq<AddAtom>)
    ensures
        compose_add_atoms(a, b) == match add_add_walk(a, b) {
            Some((o, ra, rb)) => Some(o + rb + ra),
            None => None,
        },
{
    match add_add_walk(a, b) {
        Some(w) => {
            assert(compose_add_atoms(a, b) == Some(w.0 + w.2 + w.1));
        },
        None => {},
    }
}

/// Walks where either side is empty, and one step of a second insertion
/// that inserts text.
pub proof fn lemma_aa_walk_basic(a: Seq<AddAtom>, b: Seq<AddAtom>)
    ensures
        a.len() == 0 || b.len() == 0 ==> add_add_walk(a, b) == Some((Seq::<AddAtom>::empty(), a, b)),
        a.len() > 0 && b.len() > 0 && b[0] is Text ==> add_add_walk(a, b) == add_walk_prefix(
            seq![b[0]],
            add_add_walk(a, b.drop_first()),
        ),
{
    reveal(add_add_walk);
}

// ---------------------------------------------------------------------------
// Lemmas on sizes and walks.

pub proof fn lemma_add_seq_size_concat(a: Seq<AddAtom>, b: Seq<AddAtom>)
    ensures
        add_seq_size(a + b) == add_seq_size(a) + add_seq_size(b),
    decreases b.len(),
{
    if b.len() == 0 {
        assert(a + b =~= a);
    } else {
        lemma_add_seq_size_concat(a, b.drop_last());
        assert((a + b).drop_last() =~= a + b.drop_last());
        assert((a + b).last() == b.last());
    }
}

/// The size of a sequence is at least its length, and that of a run of
/// atoms outside groups is its length.
pub proof fn lemma_add_seq_size_len(a: Seq<AddAtom>)
    ensures
        add_seq_size(a) >= a.len(),
        (forall|i: int| 0 <= i < a.len() ==> !(#[trigger] a[i] is WithGroup) && !(a[i] is Group))
            ==> add_seq_size(a) == a.len(),
    decreases a.len(),
{
    if a.len() > 0 {
        lemma_add_seq_size_len(a.drop_last());
        lemma_add_atom_size(a.last());
        assert(a.last() == a[a.len() - 1]);
        assert forall|i: int| 0 <= i < a.drop_last().len() implies a.drop_last()[i] == a[i] by {}
    }
}

/// The first atom of a sequence and the rest.
pub proof fn lemma_add_seq_size_first(a: Seq<AddAtom>)
    requires
        a.len() > 0,
    ensures
        add_seq_size(a) == add_atom_size(a[0]) + add_seq_size(a.drop_first()),
{
    assert(a =~= seq![a[0]] + a.drop_first());
    lemma_add_seq_size_concat(seq![a[0]], a.drop_first());
    assert(seq![a[0]].drop_last() =~= Seq::<AddAtom>::empty());
    assert(seq![a[0]].last() == a[0]);
    assert(add_seq_size(Seq::<AddAtom>::empty()) == 0);
    assert(add_seq_size(seq![a[0]]) == add_seq_size(seq![a[0]].drop_last()) + add_atom_size(
        seq![a[0]].last(),
    ));
}

/// Every atom has size at least one; one outside groups.
pub proof fn lemma_add_atom_size(x: AddAtom)
    ensures
        add_atom_size(x) >= 1,
        !(x is WithGroup) && !(x is Group) ==> add_atom_size(x) == 1,
{
    match x {
        AddAtom::WithGroup(inner) => {},
        AddAtom::Group(_, inner) => {},
        _ => {},
    }
}

/// The size of a run of atoms outside groups is its length.
pub proof fn lemma_add_size_repeat(x: AddAtom, k: nat, rest: Seq<AddAtom>)
    requires
        !(x is WithGroup),
        !(x is Group),
    ensures
        add_seq_size(repeat(x, k) + rest) == k + add_seq_size(rest),
        (repeat(x, k) + rest).len() == k + rest.len(),
{
    lemma_repeat(x, k);
    lemma_add_seq_size_len(repeat(x, k));
    lemma_add_seq_size_concat(repeat(x, k), rest);
}


/// One atom of each, where the second inserts nothing.
pub proof fn lemma_aa_walk_step(x: AddAtom, y: AddAtom, a: Seq<AddAtom>, b: Seq<AddAtom>)
    requires
        !(y is Text),
        !(y is Group),
    ensures
        add_add_walk(seq![x] + a, seq![y] + b) == match add_add_one(x, y) {
            Some(h) => add_walk_prefix(h, add_add_walk(a, b)),
            None => None,
        },
{
    reveal(add_add_walk);
    reveal(add_add_one);
    assert((seq![x] + a)[0] == x);
    assert((seq![x] + a).drop_first() =~= a);
    assert((seq![y] + b)[0] == y);
    assert((seq![y] + b).drop_first() =~= b);
}

/// Runs of atoms against each other one by one, each pair making one atom.
pub proof fn lemma_aa_walk_zip(
    xs: Seq<AddAtom>,
    ys: Seq<AddAtom>,
    zs: Seq<AddAtom>,
    a: Seq<AddAtom>,
    b: Seq<AddAtom>,
)
    requires
        xs.len() == ys.len(),
        ys.len() == zs.len(),
        forall|i: int|
            0 <= i < xs.len() ==> !(#[trigger] ys[i] is Text) && !(ys[i] is Group) && add_add_one(
                xs[i],
                ys[i],
            ) == Some(seq![zs[i]]),
    ensures
        add_add_walk(xs + a, ys + b) == add_walk_prefix(zs, add_add_walk(a, b)),
    decreases xs.len(),
{
    if xs.len() == 0 {
        assert(xs + a =~= a);
        assert(ys + b =~= b);
        match add_add_walk(a, b) {
            Some((o, ra, rb)) => assert(zs + o =~= o),
            None => {},
        }
    } else {
        assert(!(ys[0] is Text) && !(ys[0] is Group) && add_add_one(xs[0], ys[0]) == Some(seq![zs[0]]));
        assert(xs + a =~= seq![xs[0]] + (xs.drop_first() + a));
        assert(ys + b =~= seq![ys[0]] + (ys.drop_first() + b));
        lemma_aa_walk_step(xs[0], ys[0], xs.drop_first() + a, ys.drop_first() + b);
        assert forall|i: int| 0 <= i < xs.drop_first().len() implies !(
        #[trigger] ys.drop_first()[i] is Text) && !(ys.drop_first()[i] is Group) && add_add_one(
            xs.drop_first()[i],
            ys.drop_first()[i],
        ) == Some(seq![zs.drop_first()[i]]) by {
            assert(ys.drop_first()[i] == ys[i + 1]);
            assert(!(ys[i + 1] is Text) && !(ys[i + 1] is Group) && add_add_one(xs[i + 1], ys[i + 1]) == Some(seq![zs[i + 1]]));
        }
        lemma_aa_walk_zip(xs.drop_first(), ys.drop_first(), zs.drop_first(), a, b);
        match add_add_walk(a, b) {
            Some((o, ra, rb)) => assert(seq![zs[0]] + (zs.drop_first() + o) =~= zs + o),
            None => {},
        }
    }
}

/// Text that the second insertion inserts is written as it is.
pub proof fn lemma_aa_walk_text(st: StyleSet, v: Seq<char>, a: Seq<AddAtom>, b: Seq<AddAtom>)
    requires
        a.len() > 0,
    ensures
        add_add_walk(a, add_text_atoms(st, v) + b) == add_walk_prefix(
            add_text_atoms(st, v),
            add_add_walk(a, b),
        ),
    decreases v.len(),
{
    reveal(add_add_walk);
    reveal(add_add_one);
    lemma_text_atoms(st, v);
    if v.len() == 0 {
        assert(add_text_atoms(st, v) + b =~= b);
        match add_add_walk(a, b) {
            Some((o, ra, rb)) => assert(add_text_atoms(st, v) + o =~= o),
            None => {},
        }
    } else {
        let v1 = v.drop_first();
        lemma_text_atoms(st, v1);
        let y = add_text_atoms(st, v) + b;
        assert(add_text_atoms(st, v) =~= seq![AddAtom::Text(st, v[0])] + add_text_atoms(st, v1));
        assert(y[0] == AddAtom::Text(st, v[0]));
        assert(y.drop_first() =~= add_text_atoms(st, v1) + b);
        lemma_aa_walk_text(st, v1, a, b);
        match add_add_walk(a, b) {
            Some((o, ra, rb)) => assert(seq![y[0]] + (add_text_atoms(st, v1) + o) =~= add_text_atoms(
                st,
                v,
            ) + o),
            None => {},
        }
    }
}

/// A group that the second insertion inserts.
pub proof fn lemma_aa_walk_group(at: crate::rtf::Attrs, ib: Seq<AddAtom>, a: Seq<AddAtom>, b: Seq<AddAtom>)
    requires
        a.len() > 0,
    ensures
        add_add_walk(a, seq![AddAtom::Group(at, ib)] + b) == match add_add_walk(a, ib) {
            Some((oc, ra1, rc)) => add_walk_prefix(
                seq![AddAtom::Group(at, oc + rc)],
                add_add_walk(ra1, b),
            ),
            None => None,
        },
{
    reveal(add_add_walk);
    reveal(add_add_one);
    assert((seq![AddAtom::Group(at, ib)] + b)[0] == AddAtom::Group(at, ib));
    assert((seq![AddAtom::Group(at, ib)] + b).drop_first() =~= b);
}

/// What pairs of atoms make.
pub proof fn lemma_aa_one(x: AddAtom, y: AddAtom)
    ensures
        x is Skip ==> add_add_one(x, y) == Some(seq![y]),
        x matches AddAtom::Styles(sa) ==> (y is Skip ==> add_add_one(x, y) == Some(seq![x])),
        x matches AddAtom::Styles(sa) ==> (y matches AddAtom::Styles(sb) ==> add_add_one(x, y) == Some(
            seq![AddAtom::Styles(sa.union(sb))],
        )),
        x matches AddAtom::Text(st, c) ==> (y is Skip ==> add_add_one(x, y) == Some(seq![x])),
        x matches AddAtom::Text(st, c) ==> (y matches AddAtom::Styles(sb) ==> add_add_one(x, y)
            == Some(seq![AddAtom::Text(st.union(sb), c)])),
        (x is WithGroup || x is Group) && (y is Skip || y is Styles) ==> add_add_one(x, y) == Some(
            seq![x],
        ),
        x matches AddAtom::WithGroup(ia) ==> (y matches AddAtom::WithGroup(ib) ==> add_add_one(x, y)
            == match compose_add_atoms(ia, ib) {
            Some(c) => Some(seq![AddAtom::WithGroup(c)]),
            None => None,
        }),
        x matches AddAtom::Group(at, ia) ==> (y matches AddAtom::WithGroup(ib) ==> add_add_one(x, y)
            == match compose_add_atoms(ia, ib) {
            Some(c) => Some(seq![AddAtom::Group(at, c)]),
            None => None,
        }),
        (x is Text || x is Styles) && y is WithGroup ==> add_add_one(x, y) is None,
{
    reveal(add_add_one);
}

// ---------------------------------------------------------------------------
// Steppers over insertions, by their atoms.

/// A stepper that has not entered a group, with a head where anything is
/// left, over a well-formed span.
pub open spec fn ast_ok(s: AddStepper) -> bool {
    &&& s.head.is_none() ==> s.rest@.len() == 0
    &&& s.stack@.len() == 0
    &&& add_span_wf(s.span_view())
}

/// What is left of a stepper, atom by atom.
pub open spec fn ast_atoms(s: AddStepper) -> Seq<AddAtom> {
    add_atoms(s.span_view())
}

/// The atoms of a stepper are those of its head, then those of the rest.
pub proof fn lemma_ast_atoms(s: AddStepper)
    requires
        ast_ok(s),
    ensures
        s.head.is_none() ==> ast_atoms(s) == Seq::<AddAtom>::empty(),
        s.head matches Some(h) ==> ast_atoms(s) == add_elem_atoms(h@) + add_atoms(s.rest_view())
            && add_elem_wf(h@) && add_span_wf(s.rest_view()),
{
    match s.head {
        Some(h) => {
            lemma_add_atoms_concat(seq![h@], s.rest_view());
            lemma_single_atoms(DocNode::Text(StyleSet::empty(), Seq::empty()), DelNode::Skip(1), h@);
            assert(add_elem_wf(s.span_view()[0]));
            assert forall|i: int| 0 <= i < s.rest_view().len() implies #[trigger] add_elem_wf(
                s.rest_view()[i],
            ) by {
                assert(s.span_view()[i + 1] == s.rest_view()[i]);
                assert(add_elem_wf(s.span_view()[i + 1]));
            }
        },
        None => {
            assert(s.span_view() =~= Seq::<AddNode>::empty());
        },
    }
}

/// A stepper whose head is replaced by `h`, of the same span otherwise.
pub proof fn lemma_ast_set_head(s: AddStepper, t: AddStepper, h: AddElement)
    requires
        ast_ok(s),
        s.head is Some,
        t.head == Some(h),
        t.rest == s.rest,
        t.stack == s.stack,
        add_elem_wf(h@),
    ensures
        ast_ok(t),
        ast_atoms(t) == add_elem_atoms(h@) + add_atoms(s.rest_view()),
{
    lemma_ast_atoms(s);
    assert forall|i: int| 0 <= i < t.span_view().len() implies #[trigger] add_elem_wf(
        t.span_view()[i],
    ) by {
        if i > 0 {
            assert(t.span_view()[i] == s.span_view()[i]);
        }
    }
    lemma_ast_atoms(t);
}

/// A stepper moved to its next element.
pub proof fn lemma_ast_next(s: AddStepper, t: AddStepper)
    requires
        ast_ok(s),
        s.head is Some,
        s.rest@.len() > 0 ==> t.head.is_some() && t.head.unwrap()@ == s.rest@[0]@ && t.rest_view()
            == s.rest_view().drop_first(),
        s.rest@.len() == 0 ==> t.head.is_none() && t.rest@.len() == 0,
        t.stack == s.stack,
    ensures
        ast_ok(t),
        ast_atoms(t) == add_atoms(s.rest_view()),
{
    lemma_ast_atoms(s);
    lemma_add_span_view(s.rest@);
    if s.rest@.len() > 0 {
        assert(t.span_view() =~= s.rest_view());
    } else {
        assert(t.span_view() =~= Seq::<AddNode>::empty());
        assert(s.rest_view() =~= Seq::<AddNode>::empty());
    }
}

/// Every element left in a stepper is merged at every level.
pub open spec fn ast_deep(s: AddStepper) -> bool {
    forall|i: int| 0 <= i < s.span_view().len() ==> add_deep_node(#[trigger] s.span_view()[i])
}

/// What is written and both steppers are merged at every level.
spec fn aa_deep(res: Seq<AddElement>, a: AddStepper, b: AddStepper) -> bool {
    &&& ast_deep(a)
    &&& ast_deep(b)
    &&& add_deep(add_span_view(res))
}

/// The head and the rest of a stepper merged at every level are so too.
pub(crate) proof fn lemma_ast_deep_head(s: AddStepper)
    ensures
        ast_deep(s) && s.head is Some ==> add_deep_node(s.head.unwrap()@) && forall|i: int|
            0 <= i < s.rest_view().len() ==> add_deep_node(#[trigger] s.rest_view()[i]),
{
    if ast_deep(s) && s.head is Some {
        assert(s.span_view()[0] == s.head.unwrap()@);
        assert forall|i: int| 0 <= i < s.rest_view().len() implies add_deep_node(
            #[trigger] s.rest_view()[i],
        ) by {
            assert(s.span_view()[i + 1] == s.rest_view()[i]);
        }
    }
}

/// A stepper over a span merged at every level.
pub(crate) proof fn lemma_ast_deep_new(s: AddStepper, v: Seq<AddNode>)
    requires
        s.span_view() == v,
    ensures
        add_deep(v) ==> ast_deep(s),
{
    lemma_add_deep_at(v);
}

/// Moving a stepper on keeps it merged at every level.
pub(crate) proof fn lemma_ast_deep_next(s: AddStepper, t: AddStepper)
    requires
        s.head is Some,
        s.rest@.len() > 0 ==> t.head.is_some() && t.head.unwrap()@ == s.rest@[0]@ && t.rest_view()
            == s.rest_view().drop_first(),
        s.rest@.len() == 0 ==> t.head.is_none(),
    ensures
        ast_deep(s) ==> ast_deep(t),
{
    lemma_add_span_view(s.rest@);
    if ast_deep(s) && s.rest@.len() > 0 {
        assert(t.span_view() =~= s.rest_view());
        assert forall|i: int| 0 <= i < t.span_view().len() implies add_deep_node(
            #[trigger] t.span_view()[i],
        ) by {
            assert(s.span_view()[i + 1] == t.span_view()[i]);
        }
    }
}

/// A stepper whose head is replaced by one merged at every level.
pub(crate) proof fn lemma_ast_deep_set_head(s: AddStepper, t: AddStepper, h: AddElement)
    requires
        s.head is Some,
        t.head == Some(h),
        t.rest == s.rest,
    ensures
        ast_deep(s) && add_deep_node(h@) ==> ast_deep(t),
{
    if ast_deep(s) && add_deep_node(h@) {
        assert forall|i: int| 0 <= i < t.span_view().len() implies add_deep_node(
            #[trigger] t.span_view()[i],
        ) by {
            if i > 0 {
                assert(t.span_view()[i] == s.span_view()[i]);
            }
        }
    }
}

/// Takes `n` atoms off the counted head of a stepper.
pub(crate) fn ast_take(
    s: &mut AddStepper,
    n: usize,
    count: usize,
    rem: AddElement,
    Ghost(x): Ghost<AddAtom>,
)
    requires
        ast_ok(*old(s)),
        old(s).head is Some,
        ast_atoms(*old(s)) == repeat(x, count as nat) + add_atoms(old(s).rest_view()),
        n <= count,
        n < count ==> add_elem_atoms(rem@) == repeat(x, (count - n) as nat) && add_elem_wf(rem@),
    ensures
        ast_ok(*final(s)),
        ast_atoms(*final(s)) == repeat(x, (count - n) as nat) + add_atoms(old(s).rest_view()),
        ast_deep(*old(s)) && (n < count ==> add_deep_node(rem@)) ==> ast_deep(*final(s)),
{
    if n < count {
        let ghost before = *s;
        s.head = Some(rem);
        proof {
            lemma_ast_set_head(before, *s, rem);
            lemma_ast_deep_set_head(before, *s, rem);
        }
    } else {
        let ghost before = *s;
        s.next();
        proof {
            lemma_ast_next(before, *s);
            lemma_ast_deep_next(before, *s);
            assert(repeat(x, 0) + add_atoms(before.rest_view()) =~= add_atoms(before.rest_view()));
        }
    }
}

/// The size of a sequence with no group in it is its length.
pub proof fn lemma_add_size_flat(xs: Seq<AddAtom>, rest: Seq<AddAtom>)
    requires
        forall|i: int| 0 <= i < xs.len() ==> !(#[trigger] xs[i] is WithGroup) && !(xs[i] is Group),
    ensures
        add_seq_size(xs + rest) == xs.len() + add_seq_size(rest),
{
    lemma_add_seq_size_len(xs);
    lemma_add_seq_size_concat(xs, rest);
}

// ---------------------------------------------------------------------------
// Composing two insertions, step by step.

spec fn aa_inv(
    res: Seq<AddElement>,
    a: AddStepper,
    b: AddStepper,
    r0: Seq<AddAtom>,
    w0: (Seq<AddAtom>, Seq<AddAtom>, Seq<AddAtom>),
    fuel: nat,
    bound: nat,
) -> bool {
    let w = add_add_walk(ast_atoms(a), ast_atoms(b));
    &&& ast_ok(a)
    &&& ast_ok(b)
    &&& add_span_wf(add_span_view(res))
    &&& w is Some
    &&& add_atoms(add_span_view(res)) + w.unwrap().0 == r0 + w0.0
    &&& w.unwrap().1 == w0.1
    &&& w.unwrap().2 == w0.2
    &&& add_seq_size(ast_atoms(b)) <= fuel
    &&& add_atoms(add_span_view(res)).len() + add_seq_size(ast_atoms(a)) + add_seq_size(ast_atoms(b))
        <= bound
    &&& bound <= usize::MAX
}

spec fn aa_progress(a0: AddStepper, b0: AddStepper, a1: AddStepper, b1: AddStepper) -> bool {
    &&& ast_atoms(a1).len() <= ast_atoms(a0).len()
    &&& ast_atoms(b1).len() <= ast_atoms(b0).len()
    &&& ast_atoms(a1).len() + ast_atoms(b1).len() < ast_atoms(a0).len() + ast_atoms(b0).len()
}

/// The walk goes on from `a1` and `b1`, having written `h`.
proof fn lemma_aa_advance(
    a0: Seq<AddAtom>,
    b0: Seq<AddAtom>,
    a1: Seq<AddAtom>,
    b1: Seq<AddAtom>,
    h: Seq<AddAtom>,
    r_old: Seq<AddAtom>,
    r0: Seq<AddAtom>,
    w0: (Seq<AddAtom>, Seq<AddAtom>, Seq<AddAtom>),
    fuel: nat,
    bound: nat,
)
    requires
        add_add_walk(a0, b0) == add_walk_prefix(h, add_add_walk(a1, b1)),
        add_add_walk(a0, b0) is Some,
        r_old + add_add_walk(a0, b0).unwrap().0 == r0 + w0.0,
        add_add_walk(a0, b0).unwrap().1 == w0.1,
        add_add_walk(a0, b0).unwrap().2 == w0.2,
        r_old.len() + add_seq_size(a0) + add_seq_size(b0) <= bound,
        add_seq_size(b0) <= fuel,
        h.len() + add_seq_size(a1) + add_seq_size(b1) <= add_seq_size(a0) + add_seq_size(b0),
        add_seq_size(b1) <= add_seq_size(b0),
    ensures
        add_add_walk(a1, b1) is Some,
        r_old + h + add_add_walk(a1, b1).unwrap().0 == r0 + w0.0,
        add_add_walk(a1, b1).unwrap().1 == w0.1,
        add_add_walk(a1, b1).unwrap().2 == w0.2,
        (r_old + h).len() + add_seq_size(a1) + add_seq_size(b1) <= bound,
        add_seq_size(b1) <= fuel,
        r_old.len() + h.len() <= bound,
{
    let wn = add_add_walk(a1, b1).unwrap();
    assert(r_old + (h + wn.0) =~= r_old + h + wn.0);
}

/// Writes an element at the end, where its atoms fit.
pub(crate) fn add_write(res: &mut Vec<AddElement>, e: AddElement, Ghost(bound): Ghost<nat>)
    requires
        add_span_wf(add_span_view(old(res)@)),
        add_elem_wf(e@),
        add_atoms(add_span_view(old(res)@)).len() + add_elem_atoms(e@).len() <= bound,
        bound <= usize::MAX,
    ensures
        add_span_wf(add_span_view(final(res)@)),
        add_atoms(add_span_view(final(res)@)) == add_atoms(add_span_view(old(res)@)) + add_elem_atoms(e@),
        add_texts_merged(add_span_view(old(res)@)) ==> add_texts_merged(add_span_view(final(res)@)),
        add_merged(add_span_view(old(res)@)) ==> add_merged(add_span_view(final(res)@)),
        add_deep(add_span_view(old(res)@)) && add_deep_node(e@) ==> add_deep(add_span_view(final(res)@)),
{
    proof {
        lemma_add_place_ok(add_span_view(res@), e@);
        lemma_add_place_deep(add_span_view(res@), e@);
    }
    res.place(&e);
}

/// Text that the second insertion inserts.
#[verifier::spinoff_prover]
fn aa_step_text(
    res: &mut Vec<AddElement>,
    a: &AddStepper,
    b: &mut AddStepper,
    Ghost(r0): Ghost<Seq<AddAtom>>,
    Ghost(w0): Ghost<(Seq<AddAtom>, Seq<AddAtom>, Seq<AddAtom>)>,
    Ghost(fuel): Ghost<nat>,
    Ghost(bound): Ghost<nat>,
)
    requires
        aa_inv(old(res)@, *a, *old(b), r0, w0, fuel, bound),
        a.head is Some,
        old(b).head matches Some(h) && h is AddText,
    ensures
        add_texts_merged(add_span_view(old(res)@)) ==> add_texts_merged(add_span_view(final(res)@)),
        add_merged(add_span_view(old(res)@)) ==> add_merged(add_span_view(final(res)@)),
        aa_inv(final(res)@, *a, *final(b), r0, w0, fuel, bound),
        aa_deep(old(res)@, *a, *old(b)) ==> aa_deep(final(res)@, *a, *final(b)),
        aa_progress(*a, *old(b), *a, *final(b)),
{
    proof {
        lemma_ast_atoms(*a);
        lemma_ast_atoms(*b);
        lemma_ast_deep_head(*a);
        lemma_ast_deep_head(*b);
        lemma_add_elem_atoms_len(a.head.unwrap()@);
    }
    let ghost b0 = *b;
    let ghost b_rest = add_atoms(b.rest_view());
    let bh = b.next().unwrap();
    proof {
        lemma_ast_next(b0, *b);
        lemma_ast_deep_next(b0, *b);
        match bh@ {
            AddNode::Text(st, v) => {
                lemma_aa_walk_text(st, v, ast_atoms(*a), b_rest);
                lemma_text_atoms(st, v);
                assert forall|i: int| 0 <= i < add_text_atoms(st, v).len() implies !(#[trigger] add_text_atoms(st, v)[i] is WithGroup) && !(add_text_atoms(st, v)[i] is Group) by {}
                lemma_add_size_flat(add_text_atoms(st, v), b_rest);
                lemma_add_seq_size_len(b_rest);
            },
            _ => {},
        }
        lemma_aa_advance(ast_atoms(*a), ast_atoms(b0), ast_atoms(*a), b_rest, add_elem_atoms(bh@), add_atoms(add_span_view(res@)), r0, w0, fuel, bound);
    }
    add_write(res, bh, Ghost(bound));
}

/// The atoms of a well-formed insertion element.
pub proof fn lemma_add_elem_atoms_len(x: AddNode)
    requires
        add_elem_wf(x),
    ensures
        add_elem_atoms(x).len() > 0,
        (x is Group || x is WithGroup) ==> add_elem_atoms(x).len() == 1,
{
    match x {
        AddNode::Skip(n) => lemma_repeat(AddAtom::Skip, n),
        AddNode::Styles(n, st) => lemma_repeat(AddAtom::Styles(st), n),
        AddNode::Text(st, v) => lemma_text_atoms(st, v),
        _ => {},
    }
}

/// The atom of a counted insertion element of kind `kind`: 0 keeps, 2 adds
/// styles.
pub open spec fn add_kind_atom(kind: u8, st: StyleSet) -> AddAtom {
    if kind == 0 {
        AddAtom::Skip
    } else {
        AddAtom::Styles(st)
    }
}

/// A counted insertion element of kind `kind`.
pub(crate) fn add_run_elem(kind: u8, st: StyleSet, k: usize) -> (res: AddElement)
    ensures
        add_elem_atoms(res@) == repeat(add_kind_atom(kind, st), k as nat),
        k > 0 ==> add_elem_wf(res@),
        res is AddSkip || res is AddStyles,
{
    if kind == 0 {
        AddSkip(k)
    } else {
        AddStyles(k, st)
    }
}

/// A run of `n` copies of an atom that is no group.
pub proof fn lemma_flat_repeat(x: AddAtom, n: nat)
    requires
        !(x is WithGroup),
        !(x is Group),
    ensures
        forall|i: int| 0 <= i < repeat(x, n).len() ==> !(#[trigger] repeat(x, n)[i] is WithGroup) && !(
        repeat(x, n)[i] is Group),
        repeat(x, n).len() == n,
{
    lemma_repeat(x, n);
}

/// What two counted insertion atoms make together.
spec fn aa_counted_atom(akind: u8, sa: StyleSet, bkind: u8, sb: StyleSet) -> AddAtom {
    if akind == 0 {
        add_kind_atom(bkind, sb)
    } else if bkind == 0 {
        AddAtom::Styles(sa)
    } else {
        AddAtom::Styles(sa.union(sb))
    }
}

/// The element that two counted insertion elements make for `n` atoms.
fn aa_counted_out(akind: u8, sa: StyleSet, bkind: u8, sb: StyleSet, n: usize) -> (res: AddElement)
    ensures
        add_elem_atoms(res@) == repeat(aa_counted_atom(akind, sa, bkind, sb), n as nat),
        n > 0 ==> add_elem_wf(res@),
        res is AddSkip || res is AddStyles,
{
    if akind == 0 {
        add_run_elem(bkind, sb, n)
    } else if bkind == 0 {
        AddStyles(n, sa)
    } else {
        let mut both = sb;
        both.extend(&sa);
        AddStyles(n, both)
    }
}

/// The walk after `n` atoms of two counted runs.
proof fn lemma_aa_counted_step(
    akind: u8,
    sa: StyleSet,
    bkind: u8,
    sb: StyleSet,
    ac: nat,
    bc: nat,
    n: nat,
    a_rest: Seq<AddAtom>,
    b_rest: Seq<AddAtom>,
    r_old: Seq<AddAtom>,
    r0: Seq<AddAtom>,
    w0: (Seq<AddAtom>, Seq<AddAtom>, Seq<AddAtom>),
    fuel: nat,
    bound: nat,
)
    requires
        1 <= n <= ac,
        n <= bc,
        ({
            let a0 = repeat(add_kind_atom(akind, sa), ac) + a_rest;
            let b0 = repeat(add_kind_atom(bkind, sb), bc) + b_rest;
            &&& add_add_walk(a0, b0) is Some
            &&& r_old + add_add_walk(a0, b0).unwrap().0 == r0 + w0.0
            &&& add_add_walk(a0, b0).unwrap().1 == w0.1
            &&& add_add_walk(a0, b0).unwrap().2 == w0.2
            &&& r_old.len() + add_seq_size(a0) + add_seq_size(b0) <= bound
            &&& add_seq_size(b0) <= fuel
        }),
    ensures
        ({
            let a0 = repeat(add_kind_atom(akind, sa), ac) + a_rest;
            let b0 = repeat(add_kind_atom(bkind, sb), bc) + b_rest;
            let a1 = repeat(add_kind_atom(akind, sa), (ac - n) as nat) + a_rest;
            let b1 = repeat(add_kind_atom(bkind, sb), (bc - n) as nat) + b_rest;
            let h = repeat(aa_counted_atom(akind, sa, bkind, sb), n);
            &&& add_add_walk(a1, b1) is Some
            &&& r_old + h + add_add_walk(a1, b1).unwrap().0 == r0 + w0.0
            &&& add_add_walk(a1, b1).unwrap().1 == w0.1
            &&& add_add_walk(a1, b1).unwrap().2 == w0.2
            &&& (r_old + h).len() + add_seq_size(a1) + add_seq_size(b1) <= bound
            &&& add_seq_size(b1) <= fuel
            &&& r_old.len() + h.len() <= bound
            &&& a1.len() + n == a0.len()
            &&& b1.len() + n == b0.len()
        }),
{
    let x = add_kind_atom(akind, sa);
    let y = add_kind_atom(bkind, sb);
    let z = aa_counted_atom(akind, sa, bkind, sb);
    lemma_repeat(x, n);
    lemma_repeat(y, n);
    lemma_repeat(z, n);
    lemma_aa_one(x, y);
    assert forall|i: int| 0 <= i < repeat(x, n).len() implies !(#[trigger] repeat(y, n)[i] is Text)
        && !(repeat(y, n)[i] is Group) && add_add_one(repeat(x, n)[i], repeat(y, n)[i]) == Some(
        seq![repeat(z, n)[i]],
    ) by {}
    lemma_aa_walk_zip(
        repeat(x, n),
        repeat(y, n),
        repeat(z, n),
        repeat(x, (ac - n) as nat) + a_rest,
        repeat(y, (bc - n) as nat) + b_rest,
    );
    crate::place::lemma_repeat_add(x, n, (ac - n) as nat);
    crate::place::lemma_repeat_add(y, n, (bc - n) as nat);
    assert(repeat(x, ac) + a_rest =~= repeat(x, n) + (repeat(x, (ac - n) as nat) + a_rest));
    assert(repeat(y, bc) + b_rest =~= repeat(y, n) + (repeat(y, (bc - n) as nat) + b_rest));
    lemma_flat_repeat(x, n);
    lemma_flat_repeat(y, n);
    lemma_flat_repeat(x, (ac - n) as nat);
    lemma_flat_repeat(y, (bc - n) as nat);
    lemma_add_size_flat(repeat(x, n), repeat(x, (ac - n) as nat) + a_rest);
    lemma_add_size_flat(repeat(y, n), repeat(y, (bc - n) as nat) + b_rest);
    lemma_add_size_flat(repeat(x, (ac - n) as nat), a_rest);
    lemma_add_size_flat(repeat(y, (bc - n) as nat), b_rest);
    lemma_aa_advance(
        repeat(x, ac) + a_rest,
        repeat(y, bc) + b_rest,
        repeat(x, (ac - n) as nat) + a_rest,
        repeat(y, (bc - n) as nat) + b_rest,
        repeat(z, n),
        r_old,
        r0,
        w0,
        fuel,
        bound,
    );
}

/// Two counted runs against each other.
#[verifier::spinoff_prover]
fn aa_step_counted(
    res: &mut Vec<AddElement>,
    a: &mut AddStepper,
    b: &mut AddStepper,
    Ghost(r0): Ghost<Seq<AddAtom>>,
    Ghost(w0): Ghost<(Seq<AddAtom>, Seq<AddAtom>, Seq<AddAtom>)>,
    Ghost(fuel): Ghost<nat>,
    Ghost(bound): Ghost<nat>,
)
    requires
        aa_inv(old(res)@, *old(a), *old(b), r0, w0, fuel, bound),
        old(a).head matches Some(h) && (h is AddSkip || h is AddStyles),
        old(b).head matches Some(h) && (h is AddSkip || h is AddStyles),
    ensures
        add_texts_merged(add_span_view(old(res)@)) ==> add_texts_merged(add_span_view(final(res)@)),
        add_merged(add_span_view(old(res)@)) ==> add_merged(add_span_view(final(res)@)),
        aa_inv(final(res)@, *final(a), *final(b), r0, w0, fuel, bound),
        aa_deep(old(res)@, *old(a), *old(b)) ==> aa_deep(final(res)@, *final(a), *final(b)),
        aa_progress(*old(a), *old(b), *final(a), *final(b)),
{
    proof {
        lemma_ast_atoms(*a);
        lemma_ast_atoms(*b);
        lemma_ast_deep_head(*a);
        lemma_ast_deep_head(*b);
    }
    let ghost a_rest = add_atoms(a.rest_view());
    let ghost b_rest = add_atoms(b.rest_view());
    let ghost old_res = add_atoms(add_span_view(res@));
    let ghost a0 = *a;
    let ghost b0 = *b;
    let (ac, sa, akind): (usize, StyleSet, u8) = match a.get_head() {
        AddSkip(c) => (c, StyleSet::new(), 0),
        AddStyles(c, s) => (c, s, 2),
        _ => {
            proof {
                assert(false);
            }
            return ;
        },
    };
    let (bc, sb, bkind): (usize, StyleSet, u8) = match b.get_head() {
        AddSkip(c) => (c, StyleSet::new(), 0),
        AddStyles(c, s) => (c, s, 2),
        _ => {
            proof {
                assert(false);
            }
            return ;
        },
    };
    let n = if ac < bc {
        ac
    } else {
        bc
    };
    let out = aa_counted_out(akind, sa, bkind, sb, n);
    proof {
        assert(ast_atoms(a0) == repeat(add_kind_atom(akind, sa), ac as nat) + a_rest);
        assert(ast_atoms(b0) == repeat(add_kind_atom(bkind, sb), bc as nat) + b_rest);
        lemma_aa_counted_step(akind, sa, bkind, sb, ac as nat, bc as nat, n as nat, a_rest, b_rest, old_res, r0, w0, fuel, bound);
        lemma_repeat(aa_counted_atom(akind, sa, bkind, sb), n as nat);
    }
    add_write(res, out, Ghost(bound));
    ast_take(a, n, ac, add_run_elem(akind, sa, ac - n), Ghost(add_kind_atom(akind, sa)));
    ast_take(b, n, bc, add_run_elem(bkind, sb, bc - n), Ghost(add_kind_atom(bkind, sb)));
}

/// The styles of inserted text after a second insertion keeps it or adds
/// styles to it.
spec fn aa_text_styles(st: StyleSet, bkind: u8, sb: StyleSet) -> StyleSet {
    if bkind == 0 {
        st
    } else {
        st.union(sb)
    }
}

/// The walk after `n` inserted characters of the first insertion against a
/// counted run of the second.
proof fn lemma_aa_text_step(
    st: StyleSet,
    v: Seq<char>,
    bkind: u8,
    sb: StyleSet,
    bc: nat,
    n: nat,
    a_rest: Seq<AddAtom>,
    b_rest: Seq<AddAtom>,
    r_old: Seq<AddAtom>,
    r0: Seq<AddAtom>,
    w0: (Seq<AddAtom>, Seq<AddAtom>, Seq<AddAtom>),
    fuel: nat,
    bound: nat,
)
    requires
        1 <= n <= v.len(),
        n <= bc,
        ({
            let a0 = add_text_atoms(st, v) + a_rest;
            let b0 = repeat(add_kind_atom(bkind, sb), bc) + b_rest;
            &&& add_add_walk(a0, b0) is Some
            &&& r_old + add_add_walk(a0, b0).unwrap().0 == r0 + w0.0
            &&& add_add_walk(a0, b0).unwrap().1 == w0.1
            &&& add_add_walk(a0, b0).unwrap().2 == w0.2
            &&& r_old.len() + add_seq_size(a0) + add_seq_size(b0) <= bound
            &&& add_seq_size(b0) <= fuel
        }),
    ensures
        ({
            let a0 = add_text_atoms(st, v) + a_rest;
            let b0 = repeat(add_kind_atom(bkind, sb), bc) + b_rest;
            let a1 = add_text_atoms(st, v.skip(n as int)) + a_rest;
            let b1 = repeat(add_kind_atom(bkind, sb), (bc - n) as nat) + b_rest;
            let h = add_text_atoms(aa_text_styles(st, bkind, sb), v.take(n as int));
            &&& add_add_walk(a1, b1) is Some
            &&& r_old + h + add_add_walk(a1, b1).unwrap().0 == r0 + w0.0
            &&& add_add_walk(a1, b1).unwrap().1 == w0.1
            &&& add_add_walk(a1, b1).unwrap().2 == w0.2
            &&& (r_old + h).len() + add_seq_size(a1) + add_seq_size(b1) <= bound
            &&& add_seq_size(b1) <= fuel
            &&& r_old.len() + h.len() <= bound
            &&& a1.len() + n == a0.len()
            &&& b1.len() + n == b0.len()
        }),
{
    let y = add_kind_atom(bkind, sb);
    let st2 = aa_text_styles(st, bkind, sb);
    let t1 = v.take(n as int);
    let t2 = v.skip(n as int);
    assert(t1 + t2 =~= v);
    lemma_text_atoms_concat(st, t1, t2);
    lemma_text_atoms(st, t1);
    lemma_text_atoms(st2, t1);
    lemma_text_atoms(st, t2);
    lemma_repeat(y, n);
    assert forall|i: int| 0 <= i < add_text_atoms(st, t1).len() implies !(#[trigger] repeat(y, n)[i] is Text)
        && !(repeat(y, n)[i] is Group) && add_add_one(add_text_atoms(st, t1)[i], repeat(y, n)[i]) == Some(
        seq![add_text_atoms(st2, t1)[i]],
    ) by {
        lemma_aa_one(add_text_atoms(st, t1)[i], y);
    }
    lemma_aa_walk_zip(
        add_text_atoms(st, t1),
        repeat(y, n),
        add_text_atoms(st2, t1),
        add_text_atoms(st, t2) + a_rest,
        repeat(y, (bc - n) as nat) + b_rest,
    );
    crate::place::lemma_repeat_add(y, n, (bc - n) as nat);
    assert(add_text_atoms(st, v) + a_rest =~= add_text_atoms(st, t1) + (add_text_atoms(st, t2) + a_rest));
    assert(repeat(y, bc) + b_rest =~= repeat(y, n) + (repeat(y, (bc - n) as nat) + b_rest));
    assert forall|i: int| 0 <= i < add_text_atoms(st, t1).len() implies !(#[trigger] add_text_atoms(st, t1)[i] is WithGroup) && !(add_text_atoms(st, t1)[i] is Group) by {}
    assert forall|i: int| 0 <= i < add_text_atoms(st, t2).len() implies !(#[trigger] add_text_atoms(st, t2)[i] is WithGroup) && !(add_text_atoms(st, t2)[i] is Group) by {}
    lemma_flat_repeat(y, n);
    lemma_flat_repeat(y, (bc - n) as nat);
    lemma_add_size_flat(add_text_atoms(st, t1), add_text_atoms(st, t2) + a_rest);
    lemma_add_size_flat(add_text_atoms(st, t2), a_rest);
    lemma_add_size_flat(repeat(y, n), repeat(y, (bc - n) as nat) + b_rest);
    lemma_add_size_flat(repeat(y, (bc - n) as nat), b_rest);
    lemma_aa_advance(
        add_text_atoms(st, v) + a_rest,
        repeat(y, bc) + b_rest,
        add_text_atoms(st, t2) + a_rest,
        repeat(y, (bc - n) as nat) + b_rest,
        add_text_atoms(st2, t1),
        r_old,
        r0,
        w0,
        fuel,
        bound,
    );
}

/// Inserted text of the first insertion against a counted run of the
/// second.
#[verifier::spinoff_prover]
fn aa_step_text_counted(
    res: &mut Vec<AddElement>,
    a: &mut AddStepper,
    b: &mut AddStepper,
    Ghost(r0): Ghost<Seq<AddAtom>>,
    Ghost(w0): Ghost<(Seq<AddAtom>, Seq<AddAtom>, Seq<AddAtom>)>,
    Ghost(fuel): Ghost<nat>,
    Ghost(bound): Ghost<nat>,
)
    requires
        aa_inv(old(res)@, *old(a), *old(b), r0, w0, fuel, bound),
        old(a).head matches Some(h) && h is AddText,
        old(b).head matches Some(h) && (h is AddSkip || h is AddStyles),
    ensures
        add_texts_merged(add_span_view(old(res)@)) ==> add_texts_merged(add_span_view(final(res)@)),
        add_merged(add_span_view(old(res)@)) ==> add_merged(add_span_view(final(res)@)),
        aa_inv(final(res)@, *final(a), *final(b), r0, w0, fuel, bound),
        aa_deep(old(res)@, *old(a), *old(b)) ==> aa_deep(final(res)@, *final(a), *final(b)),
        aa_progress(*old(a), *old(b), *final(a), *final(b)),
{
    proof {
        lemma_ast_atoms(*a);
        lemma_ast_atoms(*b);
        lemma_ast_deep_head(*a);
        lemma_ast_deep_head(*b);
    }
    let ghost a_rest = add_atoms(a.rest_view());
    let ghost b_rest = add_atoms(b.rest_view());
    let ghost old_res = add_atoms(add_span_view(res@));
    let ghost a0 = *a;
    let ghost b0 = *b;
    let (st, v) = match a.get_head() {
        AddText(st, v) => (st, v),
        _ => {
            proof {
                assert(false);
            }
            return ;
        },
    };
    let (bc, sb, bkind): (usize, StyleSet, u8) = match b.get_head() {
        AddSkip(c) => (c, StyleSet::new(), 0),
        AddStyles(c, s) => (c, s, 2),
        _ => {
            proof {
                assert(false);
            }
            return ;
        },
    };
    let len = v.char_len();
    let n = if bc < len {
        bc
    } else {
        len
    };
    let mut out_styles = st;
    if bkind != 0 {
        out_styles.extend(&sb);
    }
    proof {
        assert(ast_atoms(a0) == add_text_atoms(st, v@) + a_rest);
        assert(ast_atoms(b0) == repeat(add_kind_atom(bkind, sb), bc as nat) + b_rest);
        lemma_aa_text_step(st, v@, bkind, sb, bc as nat, n as nat, a_rest, b_rest, old_res, r0, w0, fuel, bound);
        lemma_text_atoms(aa_text_styles(st, bkind, sb), v@.take(n as int));
    }
    if n < len {
        let (left, right) = v.split_at(n);
        add_write(res, AddText(out_styles, left), Ghost(bound));
        let ghost before = *a;
        let rem = AddText(st, right);
        a.head = Some(rem);
        proof {
            lemma_text_atoms(st, right@);
            lemma_ast_set_head(before, *a, rem);
            lemma_ast_deep_set_head(before, *a, rem);
        }
    } else {
        proof {
            assert(v@.take(n as int) =~= v@);
            assert(v@.skip(n as int) =~= Seq::<char>::empty());
            assert(add_text_atoms(st, v@.skip(n as int)) =~= Seq::<AddAtom>::empty());
            assert(Seq::<AddAtom>::empty() + a_rest =~= a_rest);
        }
        add_write(res, AddText(out_styles, v), Ghost(bound));
        let ghost before = *a;
        a.next();
        proof {
            lemma_ast_next(before, *a);
            lemma_ast_deep_next(before, *a);
        }
    }
    ast_take(b, n, bc, add_run_elem(bkind, sb, bc - n), Ghost(add_kind_atom(bkind, sb)));
}

/// The walk after one atom of each, where the second inserts nothing and
/// the two make `h`.
proof fn lemma_aa_one_step(
    x: AddAtom,
    y: AddAtom,
    h: Seq<AddAtom>,
    a_rest: Seq<AddAtom>,
    b_rest: Seq<AddAtom>,
    r_old: Seq<AddAtom>,
    r0: Seq<AddAtom>,
    w0: (Seq<AddAtom>, Seq<AddAtom>, Seq<AddAtom>),
    fuel: nat,
    bound: nat,
)
    requires
        !(y is Text),
        !(y is Group),
        add_add_one(x, y) == Some(h),
        h.len() == 1,
        add_add_walk(seq![x] + a_rest, seq![y] + b_rest) is Some,
        r_old + add_add_walk(seq![x] + a_rest, seq![y] + b_rest).unwrap().0 == r0 + w0.0,
        add_add_walk(seq![x] + a_rest, seq![y] + b_rest).unwrap().1 == w0.1,
        add_add_walk(seq![x] + a_rest, seq![y] + b_rest).unwrap().2 == w0.2,
        r_old.len() + add_seq_size(seq![x] + a_rest) + add_seq_size(seq![y] + b_rest) <= bound,
        add_seq_size(seq![y] + b_rest) <= fuel,
    ensures
        add_add_walk(a_rest, b_rest) is Some,
        r_old + h + add_add_walk(a_rest, b_rest).unwrap().0 == r0 + w0.0,
        add_add_walk(a_rest, b_rest).unwrap().1 == w0.1,
        add_add_walk(a_rest, b_rest).unwrap().2 == w0.2,
        (r_old + h).len() + add_seq_size(a_rest) + add_seq_size(b_rest) + 1 <= bound,
        add_seq_size(b_rest) < fuel,
        r_old.len() + 1 <= bound,
        add_atom_size(x) + add_atom_size(y) + add_seq_size(a_rest) + add_seq_size(b_rest)
            + r_old.len() <= bound,
        add_atom_size(y) + add_seq_size(b_rest) <= fuel,
{
    lemma_aa_walk_step(x, y, a_rest, b_rest);
    lemma_add_seq_size_first(seq![x] + a_rest);
    lemma_add_seq_size_first(seq![y] + b_rest);
    assert((seq![x] + a_rest)[0] == x);
    assert((seq![x] + a_rest).drop_first() =~= a_rest);
    assert((seq![y] + b_rest)[0] == y);
    assert((seq![y] + b_rest).drop_first() =~= b_rest);
    lemma_add_atom_size(x);
    lemma_add_atom_size(y);
    let wn = add_add_walk(a_rest, b_rest).unwrap();
    assert(r_old + (h + wn.0) =~= r_old + h + wn.0);
}

/// A group of the first insertion that the second keeps or styles passes
/// as it is.
#[verifier::spinoff_prover]
fn aa_step_group_pass(
    res: &mut Vec<AddElement>,
    a: &mut AddStepper,
    b: &mut AddStepper,
    Ghost(r0): Ghost<Seq<AddAtom>>,
    Ghost(w0): Ghost<(Seq<AddAtom>, Seq<AddAtom>, Seq<AddAtom>)>,
    Ghost(fuel): Ghost<nat>,
    Ghost(bound): Ghost<nat>,
)
    requires
        aa_inv(old(res)@, *old(a), *old(b), r0, w0, fuel, bound),
        old(a).head matches Some(h) && (h is AddWithGroup || h is AddGroup),
        old(b).head matches Some(h) && (h is AddSkip || h is AddStyles),
    ensures
        add_texts_merged(add_span_view(old(res)@)) ==> add_texts_merged(add_span_view(final(res)@)),
        add_merged(add_span_view(old(res)@)) ==> add_merged(add_span_view(final(res)@)),
        aa_inv(final(res)@, *final(a), *final(b), r0, w0, fuel, bound),
        aa_deep(old(res)@, *old(a), *old(b)) ==> aa_deep(final(res)@, *final(a), *final(b)),
        aa_progress(*old(a), *old(b), *final(a), *final(b)),
{
    proof {
        lemma_ast_atoms(*a);
        lemma_ast_atoms(*b);
        lemma_ast_deep_head(*a);
        lemma_ast_deep_head(*b);
    }
    let ghost a_rest = add_atoms(a.rest_view());
    let ghost b_rest = add_atoms(b.rest_view());
    let ghost old_res = add_atoms(add_span_view(res@));
    let ghost a0 = *a;
    let ghost b0 = *b;
    let (bc, sb, bkind): (usize, StyleSet, u8) = match b.get_head() {
        AddSkip(c) => (c, StyleSet::new(), 0),
        AddStyles(c, s) => (c, s, 2),
        _ => {
            proof {
                assert(false);
            }
            return ;
        },
    };
    let ghost x = add_elem_atoms(a0.head.unwrap()@)[0];
    let ghost y = add_kind_atom(bkind, sb);
    proof {
        lemma_add_elem_atoms_len(a0.head.unwrap()@);
        assert(add_elem_atoms(a0.head.unwrap()@) == seq![x]);
        lemma_repeat_first_add(y, bc as nat);
        assert(ast_atoms(b0) =~= seq![y] + (repeat(y, (bc - 1) as nat) + b_rest));
        assert(ast_atoms(a0) =~= seq![x] + a_rest);
        lemma_aa_one(x, y);
        lemma_aa_one_step(x, y, seq![x], a_rest, repeat(y, (bc - 1) as nat) + b_rest, old_res, r0, w0, fuel, bound);
        lemma_repeat(y, (bc - 1) as nat);
    }
    let ah = a.next().unwrap();
    proof {
        lemma_ast_next(a0, *a);
        lemma_ast_deep_next(a0, *a);
    }
    add_write(res, ah, Ghost(bound));
    ast_take(b, 1, bc, add_run_elem(bkind, sb, bc - 1), Ghost(y));
}

/// The first of a run of repeated atoms.
pub proof fn lemma_repeat_first_add(a: AddAtom, n: nat)
    requires
        n > 0,
    ensures
        repeat(a, n) == seq![a] + repeat(a, (n - 1) as nat),
{
    crate::apply::lemma_repeat_first(a, n);
}

/// A kept atom of the first insertion against a kept group of the second.
#[verifier::spinoff_prover]
fn aa_step_with_group_skip(
    res: &mut Vec<AddElement>,
    a: &mut AddStepper,
    b: &mut AddStepper,
    Ghost(r0): Ghost<Seq<AddAtom>>,
    Ghost(w0): Ghost<(Seq<AddAtom>, Seq<AddAtom>, Seq<AddAtom>)>,
    Ghost(fuel): Ghost<nat>,
    Ghost(bound): Ghost<nat>,
)
    requires
        aa_inv(old(res)@, *old(a), *old(b), r0, w0, fuel, bound),
        old(a).head matches Some(h) && h is AddSkip,
        old(b).head matches Some(h) && h is AddWithGroup,
    ensures
        add_texts_merged(add_span_view(old(res)@)) ==> add_texts_merged(add_span_view(final(res)@)),
        add_merged(add_span_view(old(res)@)) ==> add_merged(add_span_view(final(res)@)),
        aa_inv(final(res)@, *final(a), *final(b), r0, w0, fuel, bound),
        aa_deep(old(res)@, *old(a), *old(b)) ==> aa_deep(final(res)@, *final(a), *final(b)),
        aa_progress(*old(a), *old(b), *final(a), *final(b)),
{
    proof {
        lemma_ast_atoms(*a);
        lemma_ast_atoms(*b);
        lemma_ast_deep_head(*a);
        lemma_ast_deep_head(*b);
    }
    let ghost a_rest = add_atoms(a.rest_view());
    let ghost b_rest = add_atoms(b.rest_view());
    let ghost old_res = add_atoms(add_span_view(res@));
    let ghost a0 = *a;
    let ghost b0 = *b;
    let ac = match a.get_head() {
        AddSkip(c) => c,
        _ => {
            proof {
                assert(false);
            }
            return ;
        },
    };
    let ghost y = add_elem_atoms(b0.head.unwrap()@)[0];
    proof {
        lemma_add_elem_atoms_len(b0.head.unwrap()@);
        assert(add_elem_atoms(b0.head.unwrap()@) == seq![y]);
        lemma_repeat_first_add(AddAtom::Skip, ac as nat);
        assert(ast_atoms(a0) =~= seq![AddAtom::Skip] + (repeat(AddAtom::Skip, (ac - 1) as nat) + a_rest));
        assert(ast_atoms(b0) =~= seq![y] + b_rest);
        lemma_aa_one(AddAtom::Skip, y);
        lemma_aa_one_step(AddAtom::Skip, y, seq![y], repeat(AddAtom::Skip, (ac - 1) as nat) + a_rest, b_rest, old_res, r0, w0, fuel, bound);
        lemma_repeat(AddAtom::Skip, (ac - 1) as nat);
    }
    ast_take(a, 1, ac, AddSkip(ac - 1), Ghost(AddAtom::Skip));
    let bh = b.next().unwrap();
    proof {
        lemma_ast_next(b0, *b);
        lemma_ast_deep_next(b0, *b);
    }
    add_write(res, bh, Ghost(bound));
}

/// A kept or inserted group of the first insertion against a kept group of
/// the second: the composition of their contents.
#[verifier::spinoff_prover]
fn aa_step_with_group_group(
    res: &mut Vec<AddElement>,
    a: &mut AddStepper,
    b: &mut AddStepper,
    Ghost(r0): Ghost<Seq<AddAtom>>,
    Ghost(w0): Ghost<(Seq<AddAtom>, Seq<AddAtom>, Seq<AddAtom>)>,
    Ghost(fuel): Ghost<nat>,
    Ghost(bound): Ghost<nat>,
)
    requires
        aa_inv(old(res)@, *old(a), *old(b), r0, w0, fuel, bound),
        old(a).head matches Some(h) && (h is AddWithGroup || h is AddGroup),
        old(b).head matches Some(h) && h is AddWithGroup,
    ensures
        add_texts_merged(add_span_view(old(res)@)) ==> add_texts_merged(add_span_view(final(res)@)),
        add_merged(add_span_view(old(res)@)) ==> add_merged(add_span_view(final(res)@)),
        aa_inv(final(res)@, *final(a), *final(b), r0, w0, fuel, bound),
        aa_deep(old(res)@, *old(a), *old(b)) ==> aa_deep(final(res)@, *final(a), *final(b)),
        aa_progress(*old(a), *old(b), *final(a), *final(b)),
    decreases fuel, 0nat,
{
    proof {
        lemma_ast_atoms(*a);
        lemma_ast_atoms(*b);
        lemma_ast_deep_head(*a);
        lemma_ast_deep_head(*b);
    }
    let ghost a_rest = add_atoms(a.rest_view());
    let ghost b_rest = add_atoms(b.rest_view());
    let ghost old_res = add_atoms(add_span_view(res@));
    let ghost a0 = *a;
    let ghost b0 = *b;
    let ghost x = add_elem_atoms(a0.head.unwrap()@)[0];
    let ghost y = add_elem_atoms(b0.head.unwrap()@)[0];
    let ah = a.next().unwrap();
    let bh = b.next().unwrap();
    proof {
        lemma_ast_next(a0, *a);
        lemma_ast_deep_next(a0, *a);
        lemma_ast_next(b0, *b);
        lemma_ast_deep_next(b0, *b);
        lemma_add_elem_atoms_len(ah@);
        lemma_add_elem_atoms_len(bh@);
        assert(add_elem_atoms(ah@) == seq![x]);
        assert(add_elem_atoms(bh@) == seq![y]);
        assert(ast_atoms(a0) =~= seq![x] + a_rest);
        assert(ast_atoms(b0) =~= seq![y] + b_rest);
        lemma_aa_walk_step(x, y, a_rest, b_rest);
        lemma_aa_one(x, y);
    }
    let ib = match bh {
        AddWithGroup(ib) => ib,
        _ => {
            proof {
                assert(false);
            }
            return ;
        },
    };
    let ghost ibv = add_atoms(add_span_view(ib@));
    proof {
        lemma_add_group_wf(AddNode::WithGroup(add_span_view(ib@)));
        lemma_add_seq_size_first(seq![y] + b_rest);
        assert((seq![y] + b_rest)[0] == y);
        assert((seq![y] + b_rest).drop_first() =~= b_rest);
        assert(y == AddAtom::WithGroup(ibv));
        assert(add_seq_size(ibv) < fuel);
    }
    let out = match ah {
        AddWithGroup(ia) => {
            proof {
                assert(x == AddAtom::WithGroup(add_atoms(add_span_view(ia@))));
                lemma_add_group_wf(AddNode::WithGroup(add_span_view(ia@)));
                lemma_add_one_step_facts(x, y, a_rest, b_rest, old_res, r0, w0, fuel, bound);
            }
            let inner = compose_add_add_fuel(&ia, &ib, Ghost(add_seq_size(ibv)));
            AddWithGroup(inner)
        },
        AddGroup(at, ia) => {
            proof {
                assert(x == AddAtom::Group(at, add_atoms(add_span_view(ia@))));
                lemma_add_group_wf(AddNode::Group(at, add_span_view(ia@)));
                lemma_add_one_step_facts(x, y, a_rest, b_rest, old_res, r0, w0, fuel, bound);
            }
            let inner = compose_add_add_fuel(&ia, &ib, Ghost(add_seq_size(ibv)));
            AddGroup(at, inner)
        },
        _ => {
            proof {
                assert(false);
            }
            return ;
        },
    };
    proof {
        lemma_add_group_wf(out@);
        lemma_single_atoms(DocNode::Text(StyleSet::empty(), Seq::empty()), DelNode::Skip(1), out@);
        let h = add_add_one(x, y).unwrap();
        assert(add_elem_atoms(out@) == h);
        lemma_aa_one_step(x, y, h, a_rest, b_rest, old_res, r0, w0, fuel, bound);
    }
    add_write(res, out, Ghost(bound));
}

/// The sizes of two atoms that start walks within the bound.
proof fn lemma_add_one_step_facts(
    x: AddAtom,
    y: AddAtom,
    a_rest: Seq<AddAtom>,
    b_rest: Seq<AddAtom>,
    r_old: Seq<AddAtom>,
    r0: Seq<AddAtom>,
    w0: (Seq<AddAtom>, Seq<AddAtom>, Seq<AddAtom>),
    fuel: nat,
    bound: nat,
)
    requires
        r_old.len() + add_seq_size(seq![x] + a_rest) + add_seq_size(seq![y] + b_rest) <= bound,
    ensures
        add_atom_size(x) + add_atom_size(y) <= bound,
{
    lemma_add_seq_size_first(seq![x] + a_rest);
    lemma_add_seq_size_first(seq![y] + b_rest);
    assert((seq![x] + a_rest)[0] == x);
    assert((seq![y] + b_rest)[0] == y);
}

/// The walk after a group that the second insertion inserts, whose
/// contents took in `aa` up to `ra1`.
proof fn lemma_aa_group_step(
    at: crate::rtf::Attrs,
    ib: Seq<AddAtom>,
    aa: Seq<AddAtom>,
    b_rest: Seq<AddAtom>,
    oc: Seq<AddAtom>,
    ra1: Seq<AddAtom>,
    rc: Seq<AddAtom>,
    r_old: Seq<AddAtom>,
    r0: Seq<AddAtom>,
    w0: (Seq<AddAtom>, Seq<AddAtom>, Seq<AddAtom>),
    fuel: nat,
    bound: nat,
)
    requires
        aa.len() > 0,
        add_add_walk(aa, ib) == Some((oc, ra1, rc)),
        add_add_walk(aa, seq![AddAtom::Group(at, ib)] + b_rest) is Some,
        r_old + add_add_walk(aa, seq![AddAtom::Group(at, ib)] + b_rest).unwrap().0 == r0 + w0.0,
        add_add_walk(aa, seq![AddAtom::Group(at, ib)] + b_rest).unwrap().1 == w0.1,
        add_add_walk(aa, seq![AddAtom::Group(at, ib)] + b_rest).unwrap().2 == w0.2,
        r_old.len() + add_seq_size(aa) + add_seq_size(seq![AddAtom::Group(at, ib)] + b_rest) <= bound,
        add_seq_size(seq![AddAtom::Group(at, ib)] + b_rest) <= fuel,
        oc.len() + add_seq_size(ra1) + add_seq_size(rc) <= add_seq_size(aa) + add_seq_size(ib),
    ensures
        ({
            let g = seq![AddAtom::Group(at, oc + rc)];
            let w = add_add_walk(ra1, b_rest);
            &&& w is Some
            &&& r_old + g + w.unwrap().0 == r0 + w0.0
            &&& w.unwrap().1 == w0.1
            &&& w.unwrap().2 == w0.2
            &&& (r_old + g).len() + add_seq_size(ra1) + add_seq_size(b_rest) <= bound
            &&& add_seq_size(b_rest) <= fuel
        }),
        add_seq_size(ib) < fuel,
        add_seq_size(aa) + add_seq_size(ib) <= bound,
        r_old.len() + 1 <= bound,
{
    lemma_aa_walk_group(at, ib, aa, b_rest);
    lemma_add_seq_size_first(seq![AddAtom::Group(at, ib)] + b_rest);
    assert((seq![AddAtom::Group(at, ib)] + b_rest)[0] == AddAtom::Group(at, ib));
    assert((seq![AddAtom::Group(at, ib)] + b_rest).drop_first() =~= b_rest);
    let g = seq![AddAtom::Group(at, oc + rc)];
    let wn = add_add_walk(ra1, b_rest).unwrap();
    assert(r_old + (g + wn.0) =~= r_old + g + wn.0);
}

/// A group that the second insertion inserts: its contents walk against
/// the first insertion, and the group takes what they make.
#[verifier::spinoff_prover]
fn aa_step_group(
    res: &mut Vec<AddElement>,
    a: &mut AddStepper,
    b: &mut AddStepper,
    Ghost(r0): Ghost<Seq<AddAtom>>,
    Ghost(w0): Ghost<(Seq<AddAtom>, Seq<AddAtom>, Seq<AddAtom>)>,
    Ghost(fuel): Ghost<nat>,
    Ghost(bound): Ghost<nat>,
)
    requires
        aa_inv(old(res)@, *old(a), *old(b), r0, w0, fuel, bound),
        old(a).head is Some,
        old(b).head matches Some(h) && h is AddGroup,
    ensures
        add_texts_merged(add_span_view(old(res)@)) ==> add_texts_merged(add_span_view(final(res)@)),
        add_merged(add_span_view(old(res)@)) ==> add_merged(add_span_view(final(res)@)),
        aa_inv(final(res)@, *final(a), *final(b), r0, w0, fuel, bound),
        aa_deep(old(res)@, *old(a), *old(b)) ==> aa_deep(final(res)@, *final(a), *final(b)),
        aa_progress(*old(a), *old(b), *final(a), *final(b)),
    decreases fuel, 0nat,
{
    proof {
        lemma_ast_atoms(*a);
        lemma_ast_atoms(*b);
        lemma_ast_deep_head(*a);
        lemma_ast_deep_head(*b);
        lemma_add_elem_atoms_len(a.head.unwrap()@);
    }
    let ghost b_rest = add_atoms(b.rest_view());
    let ghost aa = ast_atoms(*a);
    let ghost old_res = add_atoms(add_span_view(res@));
    let ghost b0 = *b;
    let (at, span) = match b.get_head() {
        AddGroup(at, span) => (at, span),
        _ => {
            proof {
                assert(false);
            }
            return ;
        },
    };
    let ghost ib = add_atoms(add_span_view(span@));
    proof {
        assert(ast_atoms(b0) == seq![AddAtom::Group(at, ib)] + b_rest);
        lemma_aa_walk_group(at, ib, aa, b_rest);
        lemma_add_group_wf(AddNode::Group(at, add_span_view(span@)));
        lemma_add_seq_size_first(seq![AddAtom::Group(at, ib)] + b_rest);
        assert((seq![AddAtom::Group(at, ib)] + b_rest)[0] == AddAtom::Group(at, ib));
    }
    let mut c = AddStepper::new(&span);
    let mut inner: Vec<AddElement> = Vec::new();
    proof {
        lemma_ast_deep_head(b0);
        lemma_ast_deep_new(c, add_span_view(span@));
        lemma_add_deep_at(Seq::<AddNode>::empty());
        assert(add_span_view(inner@) =~= Seq::<AddNode>::empty());
        assert(add_atoms(add_span_view(inner@)) =~= Seq::<AddAtom>::empty());
    }
    compose_add_walk(&mut inner, a, &mut c, Ghost(add_seq_size(ib)));
    let ghost wc = add_add_walk(aa, ib).unwrap();
    proof {
        lemma_aa_group_step(at, ib, aa, b_rest, wc.0, wc.1, wc.2, old_res, r0, w0, fuel, bound);
        lemma_add_seq_size_len(wc.2);
        lemma_ast_atoms(c);
        lemma_ast_deep_head(c);
    }
    if !c.is_done() {
        let h = c.get_head();
        proof {
            lemma_add_place_ok(add_span_view(inner@), h@);
            lemma_add_place_deep(add_span_view(inner@), h@);
        }
        inner.place(&h);
        proof {
            lemma_add_place_all_ok(add_span_view(inner@), c.rest_view());
            lemma_add_place_all_deep(add_span_view(inner@), c.rest_view());
        }
        inner.place_all(&c.rest);
        proof {
            assert(wc.0 + add_elem_atoms(h@) + add_atoms(c.rest_view()) =~= wc.0 + wc.2);
        }
    } else {
        proof {
            assert(wc.0 + wc.2 =~= wc.0);
        }
    }
    let out = AddGroup(at, inner);
    proof {
        lemma_add_group_wf(out@);
        lemma_single_atoms(DocNode::Text(StyleSet::empty(), Seq::empty()), DelNode::Skip(1), out@);
    }
    add_write(res, out, Ghost(bound));
    b.next();
    proof {
        lemma_ast_next(b0, *b);
        lemma_ast_deep_next(b0, *b);
    }
}

/// Walks two insertions side by side, as the second goes, until either
/// ends.
#[verifier::spinoff_prover]
fn compose_add_walk(
    res: &mut Vec<AddElement>,
    a: &mut AddStepper,
    b: &mut AddStepper,
    Ghost(fuel): Ghost<nat>,
)
    requires
        ast_ok(*old(a)),
        ast_ok(*old(b)),
        add_span_wf(add_span_view(old(res)@)),
        add_add_walk(ast_atoms(*old(a)), ast_atoms(*old(b))) is Some,
        add_seq_size(ast_atoms(*old(b))) <= fuel,
        add_atoms(add_span_view(old(res)@)).len() + add_seq_size(ast_atoms(*old(a))) + add_seq_size(
            ast_atoms(*old(b)),
        ) <= usize::MAX,
    ensures
        add_texts_merged(add_span_view(old(res)@)) ==> add_texts_merged(add_span_view(final(res)@)),
        add_merged(add_span_view(old(res)@)) ==> add_merged(add_span_view(final(res)@)),
        ast_ok(*final(a)),
        ast_ok(*final(b)),
        add_span_wf(add_span_view(final(res)@)),
        add_atoms(add_span_view(final(res)@)) == add_atoms(add_span_view(old(res)@)) + add_add_walk(
            ast_atoms(*old(a)),
            ast_atoms(*old(b)),
        ).unwrap().0,
        ast_atoms(*final(a)) == add_add_walk(ast_atoms(*old(a)), ast_atoms(*old(b))).unwrap().1,
        ast_atoms(*final(b)) == add_add_walk(ast_atoms(*old(a)), ast_atoms(*old(b))).unwrap().2,
        add_atoms(add_span_view(final(res)@)).len() + add_seq_size(ast_atoms(*final(a)))
            + add_seq_size(ast_atoms(*final(b))) <= add_atoms(add_span_view(old(res)@)).len()
            + add_seq_size(ast_atoms(*old(a))) + add_seq_size(ast_atoms(*old(b))),
        ast_atoms(*final(a)).len() <= ast_atoms(*old(a)).len(),
        aa_deep(old(res)@, *old(a), *old(b)) ==> aa_deep(final(res)@, *final(a), *final(b)),
    decreases fuel, 1nat,
{
    let ghost r0 = add_atoms(add_span_view(res@));
    let ghost w0 = add_add_walk(ast_atoms(*a), ast_atoms(*b)).unwrap();
    let ghost bound = r0.len() + add_seq_size(ast_atoms(*a)) + add_seq_size(ast_atoms(*b));
    let ghost a_len0 = ast_atoms(*a).len();
    while !b.is_done() && !a.is_done()
        invariant
            aa_inv(res@, *a, *b, r0, w0, fuel, bound),
            ast_atoms(*a).len() <= a_len0,
            add_texts_merged(add_span_view(old(res)@)) ==> add_texts_merged(add_span_view(res@)),
            aa_deep(old(res)@, *old(a), *old(b)) ==> aa_deep(res@, *a, *b),
            add_merged(add_span_view(old(res)@)) ==> add_merged(add_span_view(res@)),
        decreases ast_atoms(*a).len() + ast_atoms(*b).len(),
    {
        let ak: u8 = match &a.head {
            Some(AddText(..)) => 0,
            Some(AddStyles(..)) => 1,
            Some(AddSkip(_)) => 2,
            _ => 3,
        };
        let bk: u8 = match &b.head {
            Some(AddText(..)) => 0,
            Some(AddGroup(..)) => 1,
            Some(AddWithGroup(_)) => 2,
            _ => 3,
        };
        if bk == 0 {
            aa_step_text(res, a, b, Ghost(r0), Ghost(w0), Ghost(fuel), Ghost(bound));
        } else if bk == 1 {
            aa_step_group(res, a, b, Ghost(r0), Ghost(w0), Ghost(fuel), Ghost(bound));
        } else if bk == 2 {
            if ak == 2 {
                aa_step_with_group_skip(res, a, b, Ghost(r0), Ghost(w0), Ghost(fuel), Ghost(bound));
            } else if ak == 3 {
                aa_step_with_group_group(res, a, b, Ghost(r0), Ghost(w0), Ghost(fuel), Ghost(bound));
            } else {
                proof {
                    lemma_ast_atoms(*a);
                    lemma_ast_atoms(*b);
                    let xs = add_elem_atoms(a.head.unwrap()@);
                    let y = add_elem_atoms(b.head.unwrap()@)[0];
                    lemma_add_elem_atoms_len(a.head.unwrap()@);
                    lemma_add_elem_atoms_len(b.head.unwrap()@);
                    match a.head.unwrap()@ {
                        AddNode::Text(st, v) => lemma_text_atoms(st, v),
                        AddNode::Styles(n, st) => lemma_repeat(AddAtom::Styles(st), n),
                        _ => {},
                    }
                    lemma_aa_one(xs[0], y);
                    assert(ast_atoms(*a) =~= seq![xs[0]] + (xs.drop_first() + add_atoms(a.rest_view())));
                    assert(ast_atoms(*b) =~= seq![y] + add_atoms(b.rest_view()));
                    lemma_aa_walk_step(xs[0], y, xs.drop_first() + add_atoms(a.rest_view()), add_atoms(b.rest_view()));
                    assert(false);
                }
                return ;
            }
        } else if ak == 0 {
            aa_step_text_counted(res, a, b, Ghost(r0), Ghost(w0), Ghost(fuel), Ghost(bound));
        } else if ak == 3 {
            aa_step_group_pass(res, a, b, Ghost(r0), Ghost(w0), Ghost(fuel), Ghost(bound));
        } else {
            aa_step_counted(res, a, b, Ghost(r0), Ghost(w0), Ghost(fuel), Ghost(bound));
        }
    }
    proof {
        lemma_ast_atoms(*a);
        lemma_ast_atoms(*b);
        lemma_ast_deep_head(*a);
        lemma_ast_deep_head(*b);
        reveal(add_add_walk);
        let w = add_add_walk(ast_atoms(*a), ast_atoms(*b)).unwrap();
        assert(w.0 =~= Seq::<AddAtom>::empty());
        assert(add_atoms(add_span_view(res@)) + w.0 =~= add_atoms(add_span_view(res@)));
    }
}

/// Composes two insertions, given a bound on the size of the second.
#[verifier::spinoff_prover]
fn compose_add_add_fuel(avec: &Vec<AddElement>, bvec: &Vec<AddElement>, Ghost(fuel): Ghost<nat>) -> (res: Vec<AddElement>)
    requires
        add_span_wf(add_span_view(avec@)),
        add_span_wf(add_span_view(bvec@)),
        compose_add_atoms(add_atoms(add_span_view(avec@)), add_atoms(add_span_view(bvec@))) is Some,
        add_seq_size(add_atoms(add_span_view(avec@))) + add_seq_size(add_atoms(add_span_view(bvec@)))
            <= usize::MAX,
        add_seq_size(add_atoms(add_span_view(bvec@))) <= fuel,
    ensures
        add_texts_merged(add_span_view(res@)),
        add_merged(add_span_view(res@)),
        add_span_wf(add_span_view(res@)),
        compose_add_atoms(add_atoms(add_span_view(avec@)), add_atoms(add_span_view(bvec@))) == Some(
            add_atoms(add_span_view(res@)),
        ),
        add_deep(add_span_view(avec@)) && add_deep(add_span_view(bvec@)) ==> add_deep(
            add_span_view(res@),
        ),
    decreases fuel, 2nat,
{
    let mut res: Vec<AddElement> = Vec::new();
    let mut a = AddStepper::new(avec);
    let mut b = AddStepper::new(bvec);
    proof {
        assert(add_span_view(res@) =~= Seq::<AddNode>::empty());
        assert(add_atoms(add_span_view(res@)) =~= Seq::<AddAtom>::empty());
        lemma_ast_deep_new(a, add_span_view(avec@));
        lemma_ast_deep_new(b, add_span_view(bvec@));
        lemma_add_deep_at(Seq::<AddNode>::empty());
    }
    compose_add_walk(&mut res, &mut a, &mut b, Ghost(fuel));
    let ghost w = add_add_walk(add_atoms(add_span_view(avec@)), add_atoms(add_span_view(bvec@))).unwrap();
    proof {
        lemma_ast_atoms(a);
        lemma_ast_atoms(b);
        lemma_add_seq_size_len(w.1);
        lemma_add_seq_size_len(w.2);
        assert(Seq::<AddAtom>::empty() + w.0 =~= w.0);
    }
    if !b.is_done() {
        let h = b.get_head();
        proof {
            lemma_ast_deep_head(b);
            lemma_add_place_ok(add_span_view(res@), h@);
            lemma_add_place_deep(add_span_view(res@), h@);
        }
        res.place(&h);
        proof {
            lemma_add_place_all_ok(add_span_view(res@), b.rest_view());
            lemma_add_place_all_deep(add_span_view(res@), b.rest_view());
        }
        res.place_all(&b.rest);
        proof {
            assert(w.0 + add_elem_atoms(h@) + add_atoms(b.rest_view()) =~= w.0 + w.2);
        }
    } else {
        proof {
            assert(w.0 + w.2 =~= w.0);
        }
    }
    if !a.is_done() {
        let h = a.get_head();
        proof {
            lemma_ast_deep_head(a);
            lemma_add_place_ok(add_span_view(res@), h@);
            lemma_add_place_deep(add_span_view(res@), h@);
        }
        res.place(&h);
        proof {
            lemma_add_place_all_ok(add_span_view(res@), a.rest_view());
            lemma_add_place_all_deep(add_span_view(res@), a.rest_view());
        }
        res.place_all(&a.rest);
        proof {
            assert(w.0 + w.2 + add_elem_atoms(h@) + add_atoms(a.rest_view()) =~= w.0 + w.2 + w.1);
        }
    } else {
        proof {
            assert(w.0 + w.2 + w.1 =~= w.0 + w.2);
        }
    }
    res
}

/// Composes two insertions: the insertion that does what `avec` then
/// `bvec` do.
pub fn compose_add_add(avec: &Vec<AddElement>, bvec: &Vec<AddElement>) -> (res: Vec<AddElement>)
    requires
        add_span_wf(add_span_view(avec@)),
        add_span_wf(add_span_view(bvec@)),
        compose_add_atoms(add_atoms(add_span_view(avec@)), add_atoms(add_span_view(bvec@))) is Some,
        add_seq_size(add_atoms(add_span_view(avec@))) + add_seq_size(add_atoms(add_span_view(bvec@)))
            <= usize::MAX,
    ensures
        add_texts_merged(add_span_view(res@)),
        add_merged(add_span_view(res@)),
        add_span_wf(add_span_view(res@)),
        compose_add_atoms(add_atoms(add_span_view(avec@)), add_atoms(add_span_view(bvec@))) == Some(
            add_atoms(add_span_view(res@)),
        ),
        add_deep(add_span_view(avec@)) && add_deep(add_span_view(bvec@)) ==> add_deep(
            add_span_view(res@),
        ),
{
    compose_add_add_fuel(avec, bvec, Ghost(add_seq_size(add_atoms(add_span_view(bvec@)))))
}

} // verus!
