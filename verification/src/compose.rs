//! Composing operations: one operation that does what two do in turn.
pub use crate::compose_add::compose_add_add;
pub use crate::compose_op::{compose, compose_add_del};
use crate::apply::opt_cat;
use crate::doc::{
    del_atoms, del_elem_atoms, del_elem_wf, del_span_view, del_span_wf, lemma_del_atoms_concat,
    lemma_del_span_view, lemma_single_atoms, repeat, AddNode, DelAtom, DelElement, DelNode,
    DocNode, lemma_repeat, lemma_del_group_wf, DelSkip, DelText, DelStyles, DelGroup, DelWithGroup,
};
use crate::place::{lemma_del_place_ok, lemma_del_place_atoms, lemma_del_place_all_ok, DelPlaceable};
use crate::stepper::DelStepper;
use crate::rtf::StyleSet;
use crate::place::{
    del_deep, del_deep_node, del_merged, lemma_del_deep_at, lemma_del_place_all_deep,
    lemma_del_place_deep,
};
use vstd::prelude::*;

verus! {

// ---------------------------------------------------------------------------
// Sizes, for termination.

/// The number of atoms of a deletion, counting those inside groups.
pub open spec fn del_atom_size(x: DelAtom) -> nat
    decreases x,
{
    match x {
        DelAtom::WithGroup(inner) => 1 + del_seq_size(inner),
        DelAtom::Group(inner) => 1 + del_seq_size(inner),
        _ => 1,
    }
}

pub open spec fn del_seq_size(s: Seq<DelAtom>) -> nat
    decreases s,
{
    if s.len() == 0 {
        0
    } else {
        del_seq_size(s.drop_last()) + del_atom_size(s.last())
    }
}

// ---------------------------------------------------------------------------
// Two deletions in turn.

/// One atom of a first deletion against one atom of a second deletion that
/// applies to what the first leaves of it; `None` where they do not fit.
#[verifier::opaque]
pub open spec fn del_del_one(x: DelAtom, y: DelAtom) -> Option<Seq<DelAtom>>
    decreases x, 2nat,
{
    match (x, y) {
        (DelAtom::Skip, _) => Some(seq![y]),
        (DelAtom::Styles(sa), DelAtom::Skip) => Some(seq![DelAtom::Styles(sa)]),
        (DelAtom::Styles(sa), DelAtom::Styles(sb)) => Some(seq![DelAtom::Styles(sa.union(sb))]),
        (DelAtom::Styles(_), DelAtom::Text) => Some(seq![DelAtom::Text]),
        (DelAtom::WithGroup(ia), DelAtom::Skip) => Some(seq![DelAtom::WithGroup(ia)]),
        (DelAtom::WithGroup(ia), DelAtom::WithGroup(ib)) => match compose_del_atoms(ia, ib) {
            Some(c) => Some(seq![DelAtom::WithGroup(c)]),
            None => None,
        },
        (DelAtom::WithGroup(ia), DelAtom::Group(ib)) => match compose_del_atoms(ia, ib) {
            Some(c) => Some(seq![DelAtom::Group(c)]),
            None => None,
        },
        _ => None,
    }
}

/// Walks a first deletion `a` and a second deletion `b` side by side until
/// either ends: what is written, and what is left of each. Deleted text of
/// `a` is written as it is; a group that `a` deletes takes in its contents'
/// composition with as much of `b` as applies to them.
#[verifier::opaque]
pub open spec fn del_del_walk(a: Seq<DelAtom>, b: Seq<DelAtom>) -> Option<
    (Seq<DelAtom>, Seq<DelAtom>, Seq<DelAtom>),
>
    decreases a, 0nat,
{
    if a.len() == 0 || b.len() == 0 {
        Some((Seq::empty(), a, b))
    } else {
        match a[0] {
            DelAtom::Text => match del_del_walk(a.drop_first(), b) {
                Some((o, ra, rb)) => Some((seq![DelAtom::Text] + o, ra, rb)),
                None => None,
            },
            DelAtom::Group(inner) => match del_del_walk(inner, b) {
                Some((oc, rc, rb1)) => match del_del_walk(a.drop_first(), rb1) {
                    Some((o, ra, rb)) => Some((seq![DelAtom::Group(oc + rc)] + o, ra, rb)),
                    None => None,
                },
                None => None,
            },
            _ => match del_del_one(a[0], b[0]) {
                Some(h) => match del_del_walk(a.drop_first(), b.drop_first()) {
                    Some((o, ra, rb)) => Some((h + o, ra, rb)),
                    None => None,
                },
                None => None,
            },
        }
    }
}

/// The deletion that does what `a` then `b` do: the walk of both, then what
/// is left of either.
pub open spec fn compose_del_atoms(a: Seq<DelAtom>, b: Seq<DelAtom>) -> Option<Seq<DelAtom>>
    decreases a, 1nat,
{
    match del_del_walk(a, b) {
        Some((o, ra, rb)) => Some(o + ra + rb),
        None => None,
    }
}

/// A composition of deletions is what their walk writes, then what is left
/// of each.
#[verifier::spinoff_prover]
pub proof fn lemma_compose_del_atoms(a: Seq<DelAtom>, b: Seq<DelAtom>)
    ensures
        compose_del_atoms(a, b) == match del_del_walk(a, b) {
            Some((o, ra, rb)) => Some(o + ra + rb),
            None => None,
        },
{
    match del_del_walk(a, b) {
        Some(w) => {
            assert(compose_del_atoms(a, b) == Some(w.0 + w.1 + w.2));
        },
        None => {},
    }
}

// ---------------------------------------------------------------------------
// Lemmas on sizes and walks.

pub proof fn lemma_del_seq_size_concat(a: Seq<DelAtom>, b: Seq<DelAtom>)
    ensures
        del_seq_size(a + b) == del_seq_size(a) + del_seq_size(b),
    decreases b.len(),
{
    if b.len() == 0 {
        assert(a + b =~= a);
    } else {
        lemma_del_seq_size_concat(a, b.drop_last());
        assert((a + b).drop_last() =~= a + b.drop_last());
        assert((a + b).last() == b.last());
    }
}

/// The size of a sequence is at least its length, and that of a run of
/// atoms outside groups is its length.
pub proof fn lemma_del_seq_size_len(a: Seq<DelAtom>)
    ensures
        del_seq_size(a) >= a.len(),
        (forall|i: int| 0 <= i < a.len() ==> !(#[trigger] a[i] is WithGroup) && !(a[i] is Group))
            ==> del_seq_size(a) == a.len(),
    decreases a.len(),
{
    if a.len() > 0 {
        lemma_del_seq_size_len(a.drop_last());
        lemma_del_atom_size(a.last());
        assert(a.last() == a[a.len() - 1]);
        assert forall|i: int| 0 <= i < a.drop_last().len() implies a.drop_last()[i] == a[i] by {}
    }
}

/// The first atom of a sequence and the rest.
pub proof fn lemma_del_seq_size_first(a: Seq<DelAtom>)
    requires
        a.len() > 0,
    ensures
        del_seq_size(a) == del_atom_size(a[0]) + del_seq_size(a.drop_first()),
{
    assert(a =~= seq![a[0]] + a.drop_first());
    lemma_del_seq_size_concat(seq![a[0]], a.drop_first());
    assert(seq![a[0]].drop_last() =~= Seq::<DelAtom>::empty());
    assert(seq![a[0]].last() == a[0]);
    assert(del_seq_size(Seq::<DelAtom>::empty()) == 0);
    assert(del_seq_size(seq![a[0]]) == del_seq_size(seq![a[0]].drop_last()) + del_atom_size(
        seq![a[0]].last(),
    ));
}

/// Every atom has size at least one; one outside groups.
pub proof fn lemma_del_atom_size(x: DelAtom)
    ensures
        del_atom_size(x) >= 1,
        !(x is WithGroup) && !(x is Group) ==> del_atom_size(x) == 1,
{
    match x {
        DelAtom::WithGroup(inner) => {},
        DelAtom::Group(inner) => {},
        _ => {},
    }
}

/// Writes `h` before what a walk writes.
pub open spec fn walk_prefix(
    h: Seq<DelAtom>,
    w: Option<(Seq<DelAtom>, Seq<DelAtom>, Seq<DelAtom>)>,
) -> Option<(Seq<DelAtom>, Seq<DelAtom>, Seq<DelAtom>)> {
    match w {
        Some((o, ra, rb)) => Some((h + o, ra, rb)),
        None => None,
    }
}

/// A run of deleted text in the first deletion is written as it is.
pub proof fn lemma_dd_walk_text(n: nat, a: Seq<DelAtom>, b: Seq<DelAtom>)
    requires
        b.len() > 0,
    ensures
        del_del_walk(repeat(DelAtom::Text, n) + a, b) == walk_prefix(
            repeat(DelAtom::Text, n),
            del_del_walk(a, b),
        ),
    decreases n,
{
    reveal(del_del_walk);
    reveal(del_del_one);
    if n == 0 {
        assert(repeat(DelAtom::Text, 0) + a =~= a);
        match del_del_walk(a, b) {
            Some((o, ra, rb)) => assert(Seq::<DelAtom>::empty() + o =~= o),
            None => {},
        }
    } else {
        lemma_repeat_first_del(DelAtom::Text, n);
        let s = repeat(DelAtom::Text, n) + a;
        let t = repeat(DelAtom::Text, (n - 1) as nat) + a;
        assert(s =~= seq![DelAtom::Text] + t);
        assert(s[0] == DelAtom::Text);
        assert(s.drop_first() =~= t);
        lemma_dd_walk_text((n - 1) as nat, a, b);
        match del_del_walk(a, b) {
            Some((o, ra, rb)) => {
                assert(seq![DelAtom::Text] + (repeat(DelAtom::Text, (n - 1) as nat) + o)
                    =~= repeat(DelAtom::Text, n) + o);
            },
            None => {},
        }
    }
}

/// The first of a run of repeated atoms.
pub proof fn lemma_repeat_first_del(a: DelAtom, n: nat)
    requires
        n > 0,
    ensures
        repeat(a, n) == seq![a] + repeat(a, (n - 1) as nat),
{
    crate::apply::lemma_repeat_first(a, n);
}

/// `n` atoms of two counted runs against each other.
pub proof fn lemma_dd_walk_counted(
    x: DelAtom,
    y: DelAtom,
    z: DelAtom,
    ac: nat,
    bc: nat,
    n: nat,
    a: Seq<DelAtom>,
    b: Seq<DelAtom>,
)
    requires
        x is Skip || x is Styles,
        del_del_one(x, y) == Some(seq![z]),
        n <= ac,
        n <= bc,
    ensures
        del_del_walk(repeat(x, ac) + a, repeat(y, bc) + b) == walk_prefix(
            repeat(z, n),
            del_del_walk(repeat(x, (ac - n) as nat) + a, repeat(y, (bc - n) as nat) + b),
        ),
    decreases n,
{
    reveal(del_del_walk);
    reveal(del_del_one);
    if n == 0 {
        match del_del_walk(repeat(x, ac) + a, repeat(y, bc) + b) {
            Some((o, ra, rb)) => {
                assert(repeat(z, 0) + o =~= o);
            },
            None => {},
        }
    } else {
        lemma_repeat_first_del(x, ac);
        lemma_repeat_first_del(y, bc);
        let s = repeat(x, ac) + a;
        let t = repeat(y, bc) + b;
        assert(s =~= seq![x] + (repeat(x, (ac - 1) as nat) + a));
        assert(t =~= seq![y] + (repeat(y, (bc - 1) as nat) + b));
        assert(s[0] == x);
        assert(t[0] == y);
        assert(s.drop_first() =~= repeat(x, (ac - 1) as nat) + a);
        assert(t.drop_first() =~= repeat(y, (bc - 1) as nat) + b);
        lemma_dd_walk_counted(x, y, z, (ac - 1) as nat, (bc - 1) as nat, (n - 1) as nat, a, b);
        lemma_repeat_first_del(z, n);
        assert((ac - 1) as nat - (n - 1) as nat == ac - n);
        assert((bc - 1) as nat - (n - 1) as nat == bc - n);
        match del_del_walk(repeat(x, (ac - n) as nat) + a, repeat(y, (bc - n) as nat) + b) {
            Some((o, ra, rb)) => {
                assert(seq![z] + (repeat(z, (n - 1) as nat) + o) =~= repeat(z, n) + o);
            },
            None => {},
        }
    }
}

/// One atom of each, neither deleted text nor a deleted group in the first.
pub proof fn lemma_dd_walk_step(x: DelAtom, y: DelAtom, a: Seq<DelAtom>, b: Seq<DelAtom>)
    requires
        !(x is Text),
        !(x is Group),
    ensures
        del_del_walk(seq![x] + a, seq![y] + b) == match del_del_one(x, y) {
            Some(h) => walk_prefix(h, del_del_walk(a, b)),
            None => None,
        },
{
    reveal(del_del_walk);
    reveal(del_del_one);
    assert((seq![x] + a)[0] == x);
    assert((seq![x] + a).drop_first() =~= a);
    assert((seq![y] + b)[0] == y);
    assert((seq![y] + b).drop_first() =~= b);
}

/// A deleted group in the first deletion.
pub proof fn lemma_dd_walk_group(inner: Seq<DelAtom>, a: Seq<DelAtom>, b: Seq<DelAtom>)
    requires
        b.len() > 0,
    ensures
        del_del_walk(seq![DelAtom::Group(inner)] + a, b) == match del_del_walk(inner, b) {
            Some((oc, rc, rb1)) => walk_prefix(
                seq![DelAtom::Group(oc + rc)],
                del_del_walk(a, rb1),
            ),
            None => None,
        },
{
    reveal(del_del_walk);
    reveal(del_del_one);
    assert((seq![DelAtom::Group(inner)] + a)[0] == DelAtom::Group(inner));
    assert((seq![DelAtom::Group(inner)] + a).drop_first() =~= a);
}

// ---------------------------------------------------------------------------
// Steppers over deletions, by their atoms.

/// A stepper that has not entered a group, with a head where anything is
/// left, over a well-formed span.
pub open spec fn dst_ok(s: DelStepper) -> bool {
    &&& s.head.is_none() ==> s.rest@.len() == 0
    &&& s.stack@.len() == 0
    &&& del_span_wf(s.span_view())
}

/// What is left of a stepper, atom by atom.
pub open spec fn dst_atoms(s: DelStepper) -> Seq<DelAtom> {
    del_atoms(s.span_view())
}

/// The atoms of a stepper are those of its head, then those of the rest.
pub proof fn lemma_dst_atoms(s: DelStepper)
    requires
        dst_ok(s),
    ensures
        s.head.is_none() ==> dst_atoms(s) == Seq::<DelAtom>::empty(),
        s.head matches Some(h) ==> dst_atoms(s) == del_elem_atoms(h@) + del_atoms(s.rest_view())
            && del_elem_wf(h@) && del_span_wf(s.rest_view()),
{
    match s.head {
        Some(h) => {
            lemma_del_atoms_concat(seq![h@], s.rest_view());
            lemma_single_atoms(DocNode::Text(StyleSet::empty(), Seq::empty()), h@, AddNode::Skip(1));
            assert(del_elem_wf(s.span_view()[0]));
            assert forall|i: int| 0 <= i < s.rest_view().len() implies #[trigger] del_elem_wf(
                s.rest_view()[i],
            ) by {
                assert(s.span_view()[i + 1] == s.rest_view()[i]);
                assert(del_elem_wf(s.span_view()[i + 1]));
            }
        },
        None => {
            assert(s.span_view() =~= Seq::<DelNode>::empty());
        },
    }
}

/// A stepper whose head is replaced by `h`, of the same span otherwise.
pub proof fn lemma_dst_set_head(s: DelStepper, t: DelStepper, h: DelElement)
    requires
        dst_ok(s),
        s.head is Some,
        t.head == Some(h),
        t.rest == s.rest,
        t.stack == s.stack,
        del_elem_wf(h@),
    ensures
        dst_ok(t),
        dst_atoms(t) == del_elem_atoms(h@) + del_atoms(s.rest_view()),
{
    lemma_dst_atoms(s);
    assert forall|i: int| 0 <= i < t.span_view().len() implies #[trigger] del_elem_wf(
        t.span_view()[i],
    ) by {
        if i > 0 {
            assert(t.span_view()[i] == s.span_view()[i]);
        }
    }
    lemma_dst_atoms(t);
}

/// A stepper moved to its next element.
pub proof fn lemma_dst_next(s: DelStepper, t: DelStepper)
    requires
        dst_ok(s),
        s.head is Some,
        s.rest@.len() > 0 ==> t.head.is_some() && t.head.unwrap()@ == s.rest@[0]@ && t.rest_view()
            == s.rest_view().drop_first(),
        s.rest@.len() == 0 ==> t.head.is_none() && t.rest@.len() == 0,
        t.stack == s.stack,
    ensures
        dst_ok(t),
        dst_atoms(t) == del_atoms(s.rest_view()),
{
    lemma_dst_atoms(s);
    lemma_del_span_view(s.rest@);
    if s.rest@.len() > 0 {
        assert(t.span_view() =~= s.rest_view());
    } else {
        assert(t.span_view() =~= Seq::<DelNode>::empty());
        assert(s.rest_view() =~= Seq::<DelNode>::empty());
    }
}

/// Every element left in a stepper is merged at every level.
pub open spec fn dst_deep(s: DelStepper) -> bool {
    forall|i: int| 0 <= i < s.span_view().len() ==> del_deep_node(#[trigger] s.span_view()[i])
}

/// What is written and both steppers are merged at every level.
spec fn dd_deep(res: Seq<DelElement>, a: DelStepper, b: DelStepper) -> bool {
    &&& dst_deep(a)
    &&& dst_deep(b)
    &&& del_deep(del_span_view(res))
}

/// The head and the rest of a stepper merged at every level are so too.
pub(crate) proof fn lemma_dst_deep_head(s: DelStepper)
    ensures
        dst_deep(s) && s.head is Some ==> del_deep_node(s.head.unwrap()@) && forall|i: int|
            0 <= i < s.rest_view().len() ==> del_deep_node(#[trigger] s.rest_view()[i]),
{
    if dst_deep(s) && s.head is Some {
        assert(s.span_view()[0] == s.head.unwrap()@);
        assert forall|i: int| 0 <= i < s.rest_view().len() implies del_deep_node(
            #[trigger] s.rest_view()[i],
        ) by {
            assert(s.span_view()[i + 1] == s.rest_view()[i]);
        }
    }
}

/// A stepper over a span merged at every level.
pub(crate) proof fn lemma_dst_deep_new(s: DelStepper, v: Seq<DelNode>)
    requires
        s.span_view() == v,
    ensures
        del_deep(v) ==> dst_deep(s),
{
    lemma_del_deep_at(v);
}

/// Moving a stepper on keeps it merged at every level.
pub(crate) proof fn lemma_dst_deep_next(s: DelStepper, t: DelStepper)
    requires
        s.head is Some,
        s.rest@.len() > 0 ==> t.head.is_some() && t.head.unwrap()@ == s.rest@[0]@ && t.rest_view()
            == s.rest_view().drop_first(),
        s.rest@.len() == 0 ==> t.head.is_none(),
    ensures
        dst_deep(s) ==> dst_deep(t),
{
    lemma_del_span_view(s.rest@);
    if dst_deep(s) && s.rest@.len() > 0 {
        assert(t.span_view() =~= s.rest_view());
        assert forall|i: int| 0 <= i < t.span_view().len() implies del_deep_node(
            #[trigger] t.span_view()[i],
        ) by {
            assert(s.span_view()[i + 1] == t.span_view()[i]);
        }
    }
}

/// A stepper whose head is replaced by one merged at every level.
pub(crate) proof fn lemma_dst_deep_set_head(s: DelStepper, t: DelStepper, h: DelElement)
    requires
        s.head is Some,
        t.head == Some(h),
        t.rest == s.rest,
    ensures
        dst_deep(s) && del_deep_node(h@) ==> dst_deep(t),
{
    if dst_deep(s) && del_deep_node(h@) {
        assert forall|i: int| 0 <= i < t.span_view().len() implies del_deep_node(
            #[trigger] t.span_view()[i],
        ) by {
            if i > 0 {
                assert(t.span_view()[i] == s.span_view()[i]);
            }
        }
    }
}

/// The size of a run of atoms outside groups is its length.
pub proof fn lemma_del_size_repeat(x: DelAtom, k: nat, rest: Seq<DelAtom>)
    requires
        !(x is WithGroup),
        !(x is Group),
    ensures
        del_seq_size(repeat(x, k) + rest) == k + del_seq_size(rest),
        (repeat(x, k) + rest).len() == k + rest.len(),
{
    lemma_repeat(x, k);
    lemma_del_seq_size_len(repeat(x, k));
    lemma_del_seq_size_concat(repeat(x, k), rest);
}

// ---------------------------------------------------------------------------
// Composing two deletions, step by step.

/// The state of a walk of two deletions: what is written and both
/// steppers, against the walk of what was there at the start.
spec fn dd_inv(
    res: Seq<DelElement>,
    a: DelStepper,
    b: DelStepper,
    r0: Seq<DelAtom>,
    w0: (Seq<DelAtom>, Seq<DelAtom>, Seq<DelAtom>),
    fuel: nat,
    bound: nat,
) -> bool {
    let w = del_del_walk(dst_atoms(a), dst_atoms(b));
    &&& dst_ok(a)
    &&& dst_ok(b)
    &&& del_span_wf(del_span_view(res))
    &&& w is Some
    &&& del_atoms(del_span_view(res)) + w.unwrap().0 == r0 + w0.0
    &&& w.unwrap().1 == w0.1
    &&& w.unwrap().2 == w0.2
    &&& del_seq_size(dst_atoms(a)) <= fuel
    &&& del_atoms(del_span_view(res)).len() + del_seq_size(dst_atoms(a)) + del_seq_size(dst_atoms(b))
        <= bound
    &&& bound <= usize::MAX
}

/// A step leaves less of both walks, and no more of either.
spec fn dd_progress(a0: DelStepper, b0: DelStepper, a1: DelStepper, b1: DelStepper) -> bool {
    &&& dst_atoms(a1).len() <= dst_atoms(a0).len()
    &&& dst_atoms(b1).len() <= dst_atoms(b0).len()
    &&& dst_atoms(a1).len() + dst_atoms(b1).len() < dst_atoms(a0).len() + dst_atoms(b0).len()
}

/// The atom of a counted deletion element of kind `kind`: 0 keeps, 1
/// deletes text, 2 takes off styles.
pub open spec fn del_kind_atom(kind: u8, st: StyleSet) -> DelAtom {
    if kind == 0 {
        DelAtom::Skip
    } else if kind == 1 {
        DelAtom::Text
    } else {
        DelAtom::Styles(st)
    }
}

/// What two counted deletion atoms make together.
spec fn dd_counted_atom(akind: u8, sa: StyleSet, bkind: u8, sb: StyleSet) -> DelAtom {
    if bkind == 1 {
        DelAtom::Text
    } else if akind == 0 {
        del_kind_atom(bkind, sb)
    } else if bkind == 0 {
        DelAtom::Styles(sa)
    } else {
        DelAtom::Styles(sa.union(sb))
    }
}

/// A counted deletion element of kind `kind`.
pub(crate) fn del_run_elem(kind: u8, st: StyleSet, k: usize) -> (res: DelElement)
    ensures
        del_elem_atoms(res@) == repeat(del_kind_atom(kind, st), k as nat),
        k > 0 ==> del_elem_wf(res@),
        !(res is DelGroup) && !(res is DelWithGroup),
        del_deep_node(res@),
{
    if kind == 0 {
        DelSkip(k)
    } else if kind == 1 {
        DelText(k)
    } else {
        DelStyles(k, st)
    }
}

/// Takes `n` atoms off the counted head of a stepper.
pub(crate) fn dst_take(
    s: &mut DelStepper,
    n: usize,
    count: usize,
    rem: DelElement,
    Ghost(x): Ghost<DelAtom>,
)
    requires
        dst_ok(*old(s)),
        old(s).head is Some,
        dst_atoms(*old(s)) == repeat(x, count as nat) + del_atoms(old(s).rest_view()),
        n <= count,
        n < count ==> del_elem_atoms(rem@) == repeat(x, (count - n) as nat) && del_elem_wf(rem@),
    ensures
        dst_ok(*final(s)),
        dst_atoms(*final(s)) == repeat(x, (count - n) as nat) + del_atoms(old(s).rest_view()),
        dst_deep(*old(s)) && (n < count ==> del_deep_node(rem@)) ==> dst_deep(*final(s)),
{
    if n < count {
        let ghost before = *s;
        s.head = Some(rem);
        proof {
            lemma_dst_set_head(before, *s, rem);
            lemma_dst_deep_set_head(before, *s, rem);
        }
    } else {
        let ghost before = *s;
        s.next();
        proof {
            lemma_dst_next(before, *s);
            lemma_dst_deep_next(before, *s);
            assert(repeat(x, 0) + del_atoms(before.rest_view()) =~= del_atoms(before.rest_view()));
        }
    }
}

/// Two counted deletion atoms make one.
proof fn lemma_dd_counted_one(akind: u8, sa: StyleSet, bkind: u8, sb: StyleSet)
    requires
        akind == 0 || akind == 2,
        bkind <= 2,
    ensures
        del_del_one(del_kind_atom(akind, sa), del_kind_atom(bkind, sb)) == Some(
            seq![dd_counted_atom(akind, sa, bkind, sb)],
        ),
{
    reveal(del_del_one);
}

/// The element that two counted deletion elements make for `n` atoms.
fn dd_counted_out(akind: u8, sa: StyleSet, bkind: u8, sb: StyleSet, n: usize) -> (res: DelElement)
    requires
        akind == 0 || akind == 2,
        bkind <= 2,
    ensures
        del_elem_atoms(res@) == repeat(dd_counted_atom(akind, sa, bkind, sb), n as nat),
        n > 0 ==> del_elem_wf(res@),
        del_deep_node(res@),
{
    if bkind == 1 {
        DelText(n)
    } else if akind == 0 {
        del_run_elem(bkind, sb, n)
    } else if bkind == 0 {
        DelStyles(n, sa)
    } else {
        let mut both = sa;
        both.extend(&sb);
        DelStyles(n, both)
    }
}

/// The walk after `n` atoms of two counted runs.
proof fn lemma_dd_counted_step(
    x: DelAtom,
    y: DelAtom,
    z: DelAtom,
    ac: nat,
    bc: nat,
    n: nat,
    a_rest: Seq<DelAtom>,
    b_rest: Seq<DelAtom>,
    r_old: Seq<DelAtom>,
    r0: Seq<DelAtom>,
    w0: (Seq<DelAtom>, Seq<DelAtom>, Seq<DelAtom>),
    fuel: nat,
    bound: nat,
)
    requires
        x is Skip || x is Styles,
        !(y is Group) && !(y is WithGroup),
        del_del_one(x, y) == Some(seq![z]),
        1 <= n <= ac,
        n <= bc,
        del_del_walk(repeat(x, ac) + a_rest, repeat(y, bc) + b_rest) is Some,
        r_old + del_del_walk(repeat(x, ac) + a_rest, repeat(y, bc) + b_rest).unwrap().0 == r0 + w0.0,
        del_del_walk(repeat(x, ac) + a_rest, repeat(y, bc) + b_rest).unwrap().1 == w0.1,
        del_del_walk(repeat(x, ac) + a_rest, repeat(y, bc) + b_rest).unwrap().2 == w0.2,
        r_old.len() + del_seq_size(repeat(x, ac) + a_rest) + del_seq_size(repeat(y, bc) + b_rest)
            <= bound,
        del_seq_size(repeat(x, ac) + a_rest) <= fuel,
    ensures
        ({
            let a1 = repeat(x, (ac - n) as nat) + a_rest;
            let b1 = repeat(y, (bc - n) as nat) + b_rest;
            let w = del_del_walk(a1, b1);
            &&& w is Some
            &&& r_old + repeat(z, n) + w.unwrap().0 == r0 + w0.0
            &&& w.unwrap().1 == w0.1
            &&& w.unwrap().2 == w0.2
            &&& (r_old + repeat(z, n)).len() + del_seq_size(a1) + del_seq_size(b1) <= bound
            &&& del_seq_size(a1) <= fuel
            &&& a1.len() + n == (repeat(x, ac) + a_rest).len()
            &&& b1.len() + n == (repeat(y, bc) + b_rest).len()
        }),
        r_old.len() + n <= bound,
{
    lemma_dd_walk_counted(x, y, z, ac, bc, n, a_rest, b_rest);
    lemma_del_size_repeat(x, ac, a_rest);
    lemma_del_size_repeat(y, bc, b_rest);
    lemma_del_size_repeat(x, (ac - n) as nat, a_rest);
    lemma_del_size_repeat(y, (bc - n) as nat, b_rest);
    lemma_repeat(z, n);
    let a1 = repeat(x, (ac - n) as nat) + a_rest;
    let b1 = repeat(y, (bc - n) as nat) + b_rest;
    let wn = del_del_walk(a1, b1).unwrap();
    assert(r_old + (repeat(z, n) + wn.0) =~= r_old + repeat(z, n) + wn.0);
}

/// Two counted runs against each other.
#[verifier::spinoff_prover]
fn dd_step_counted(
    res: &mut Vec<DelElement>,
    a: &mut DelStepper,
    b: &mut DelStepper,
    Ghost(r0): Ghost<Seq<DelAtom>>,
    Ghost(w0): Ghost<(Seq<DelAtom>, Seq<DelAtom>, Seq<DelAtom>)>,
    Ghost(fuel): Ghost<nat>,
    Ghost(bound): Ghost<nat>,
)
    requires
        dd_inv(old(res)@, *old(a), *old(b), r0, w0, fuel, bound),
        old(a).head matches Some(h) && (h is DelSkip || h is DelStyles),
        old(b).head matches Some(h) && (h is DelSkip || h is DelText || h is DelStyles),
    ensures
        del_merged(del_span_view(old(res)@)) ==> del_merged(del_span_view(final(res)@)),
        dd_inv(final(res)@, *final(a), *final(b), r0, w0, fuel, bound),
        dd_progress(*old(a), *old(b), *final(a), *final(b)),
        dd_deep(old(res)@, *old(a), *old(b)) ==> dd_deep(final(res)@, *final(a), *final(b)),
{
    proof {
        lemma_dst_atoms(*a);
        lemma_dst_atoms(*b);
    }
    let ghost a_rest = del_atoms(a.rest_view());
    let ghost b_rest = del_atoms(b.rest_view());
    let ghost old_res = del_atoms(del_span_view(res@));
    let ghost a0 = *a;
    let ghost b0 = *b;
    let (ac, sa, akind): (usize, StyleSet, u8) = match a.get_head() {
        DelSkip(c) => (c, StyleSet::new(), 0),
        DelStyles(c, s) => (c, s, 2),
        _ => {
            proof {
                assert(false);
            }
            return ;
        },
    };
    let (bc, sb, bkind): (usize, StyleSet, u8) = match b.get_head() {
        DelSkip(c) => (c, StyleSet::new(), 0),
        DelText(c) => (c, StyleSet::new(), 1),
        DelStyles(c, s) => (c, s, 2),
        _ => {
            proof {
                assert(false);
            }
            return ;
        },
    };
    let ghost x = del_kind_atom(akind, sa);
    let ghost y = del_kind_atom(bkind, sb);
    let ghost z = dd_counted_atom(akind, sa, bkind, sb);
    let n = if ac < bc {
        ac
    } else {
        bc
    };
    let out = dd_counted_out(akind, sa, bkind, sb, n);
    proof {
        assert(dst_atoms(a0) == repeat(x, ac as nat) + a_rest);
        assert(dst_atoms(b0) == repeat(y, bc as nat) + b_rest);
        lemma_dd_counted_one(akind, sa, bkind, sb);
        lemma_dd_counted_step(x, y, z, ac as nat, bc as nat, n as nat, a_rest, b_rest, old_res, r0, w0, fuel, bound);
        lemma_del_seq_size_len(del_atoms(del_span_view(res@)));
        lemma_repeat(z, n as nat);
        lemma_del_place_ok(del_span_view(res@), out@);
        lemma_del_place_atoms(del_span_view(res@), out@);
        lemma_del_place_deep(del_span_view(res@), out@);
    }
    res.place(&out);
    dst_take(a, n, ac, del_run_elem(akind, sa, ac - n), Ghost(x));
    dst_take(b, n, bc, del_run_elem(bkind, sb, bc - n), Ghost(y));
}

/// The walk after a run of deleted text of the first deletion.
proof fn lemma_dd_text_step(
    c: nat,
    a_rest: Seq<DelAtom>,
    bb: Seq<DelAtom>,
    r_old: Seq<DelAtom>,
    r0: Seq<DelAtom>,
    w0: (Seq<DelAtom>, Seq<DelAtom>, Seq<DelAtom>),
    fuel: nat,
    bound: nat,
)
    requires
        c >= 1,
        bb.len() > 0,
        del_del_walk(repeat(DelAtom::Text, c) + a_rest, bb) is Some,
        r_old + del_del_walk(repeat(DelAtom::Text, c) + a_rest, bb).unwrap().0 == r0 + w0.0,
        del_del_walk(repeat(DelAtom::Text, c) + a_rest, bb).unwrap().1 == w0.1,
        del_del_walk(repeat(DelAtom::Text, c) + a_rest, bb).unwrap().2 == w0.2,
        r_old.len() + del_seq_size(repeat(DelAtom::Text, c) + a_rest) + del_seq_size(bb) <= bound,
        del_seq_size(repeat(DelAtom::Text, c) + a_rest) <= fuel,
    ensures
        ({
            let w = del_del_walk(a_rest, bb);
            &&& w is Some
            &&& r_old + repeat(DelAtom::Text, c) + w.unwrap().0 == r0 + w0.0
            &&& w.unwrap().1 == w0.1
            &&& w.unwrap().2 == w0.2
            &&& (r_old + repeat(DelAtom::Text, c)).len() + del_seq_size(a_rest) + del_seq_size(bb)
                <= bound
            &&& del_seq_size(a_rest) <= fuel
            &&& a_rest.len() < (repeat(DelAtom::Text, c) + a_rest).len()
        }),
        r_old.len() + c <= bound,
{
    lemma_dd_walk_text(c, a_rest, bb);
    lemma_del_size_repeat(DelAtom::Text, c, a_rest);
    lemma_repeat(DelAtom::Text, c);
    let wn = del_del_walk(a_rest, bb).unwrap();
    assert(r_old + (repeat(DelAtom::Text, c) + wn.0) =~= r_old + repeat(DelAtom::Text, c) + wn.0);
}

/// The walk after one atom of each, where the first is no deleted text or
/// group and the two make `h`.
proof fn lemma_dd_one_step(
    x: DelAtom,
    y: DelAtom,
    h: Seq<DelAtom>,
    a_rest: Seq<DelAtom>,
    b_rest: Seq<DelAtom>,
    r_old: Seq<DelAtom>,
    r0: Seq<DelAtom>,
    w0: (Seq<DelAtom>, Seq<DelAtom>, Seq<DelAtom>),
    fuel: nat,
    bound: nat,
)
    requires
        !(x is Text),
        !(x is Group),
        del_del_one(x, y) == Some(h),
        h.len() == 1,
        del_del_walk(seq![x] + a_rest, seq![y] + b_rest) is Some,
        r_old + del_del_walk(seq![x] + a_rest, seq![y] + b_rest).unwrap().0 == r0 + w0.0,
        del_del_walk(seq![x] + a_rest, seq![y] + b_rest).unwrap().1 == w0.1,
        del_del_walk(seq![x] + a_rest, seq![y] + b_rest).unwrap().2 == w0.2,
        r_old.len() + del_seq_size(seq![x] + a_rest) + del_seq_size(seq![y] + b_rest) <= bound,
        del_seq_size(seq![x] + a_rest) <= fuel,
    ensures
        ({
            let w = del_del_walk(a_rest, b_rest);
            &&& w is Some
            &&& r_old + h + w.unwrap().0 == r0 + w0.0
            &&& w.unwrap().1 == w0.1
            &&& w.unwrap().2 == w0.2
            &&& (r_old + h).len() + del_seq_size(a_rest) + del_seq_size(b_rest) + 1 <= bound
            &&& del_seq_size(a_rest) < fuel
        }),
        r_old.len() + 1 <= bound,
        del_atom_size(x) + del_atom_size(y) + del_seq_size(a_rest) + del_seq_size(b_rest)
            + r_old.len() <= bound,
{
    lemma_dd_walk_step(x, y, a_rest, b_rest);
    lemma_del_seq_size_first(seq![x] + a_rest);
    lemma_del_seq_size_first(seq![y] + b_rest);
    assert((seq![x] + a_rest)[0] == x);
    assert((seq![x] + a_rest).drop_first() =~= a_rest);
    assert((seq![y] + b_rest)[0] == y);
    assert((seq![y] + b_rest).drop_first() =~= b_rest);
    lemma_del_atom_size(x);
    lemma_del_atom_size(y);
    let wn = del_del_walk(a_rest, b_rest).unwrap();
    assert(r_old + (h + wn.0) =~= r_old + h + wn.0);
}

/// Two atoms that make the second.
proof fn lemma_dd_one_skip(y: DelAtom)
    ensures
        del_del_one(DelAtom::Skip, y) == Some(seq![y]),
{
    reveal(del_del_one);
}

/// A kept group of the first against a kept or deleted one of the second.
proof fn lemma_dd_one_with_group(ia: Seq<DelAtom>, y: DelAtom)
    ensures
        y is Skip ==> del_del_one(DelAtom::WithGroup(ia), y) == Some(seq![DelAtom::WithGroup(ia)]),
        y matches DelAtom::WithGroup(ib) ==> del_del_one(DelAtom::WithGroup(ia), y) == match compose_del_atoms(ia, ib) {
            Some(c) => Some(seq![DelAtom::WithGroup(c)]),
            None => None,
        },
        y matches DelAtom::Group(ib) ==> del_del_one(DelAtom::WithGroup(ia), y) == match compose_del_atoms(ia, ib) {
            Some(c) => Some(seq![DelAtom::Group(c)]),
            None => None,
        },
        (y is Text || y is Styles) ==> del_del_one(DelAtom::WithGroup(ia), y) is None,
{
    reveal(del_del_one);
}

/// A styled run of the first against a group of the second does not fit.
proof fn lemma_dd_one_styles_group(sa: StyleSet, y: DelAtom)
    requires
        y is Group || y is WithGroup,
    ensures
        del_del_one(DelAtom::Styles(sa), y) is None,
{
    reveal(del_del_one);
}

/// The walk after a deleted group of the first deletion, whose contents
/// took in `bb` up to `rb1`.
proof fn lemma_dd_group_step(
    ia: Seq<DelAtom>,
    a_rest: Seq<DelAtom>,
    bb: Seq<DelAtom>,
    oc: Seq<DelAtom>,
    rc: Seq<DelAtom>,
    rb1: Seq<DelAtom>,
    r_old: Seq<DelAtom>,
    r0: Seq<DelAtom>,
    w0: (Seq<DelAtom>, Seq<DelAtom>, Seq<DelAtom>),
    fuel: nat,
    bound: nat,
)
    requires
        bb.len() > 0,
        del_del_walk(ia, bb) == Some((oc, rc, rb1)),
        del_del_walk(seq![DelAtom::Group(ia)] + a_rest, bb) is Some,
        r_old + del_del_walk(seq![DelAtom::Group(ia)] + a_rest, bb).unwrap().0 == r0 + w0.0,
        del_del_walk(seq![DelAtom::Group(ia)] + a_rest, bb).unwrap().1 == w0.1,
        del_del_walk(seq![DelAtom::Group(ia)] + a_rest, bb).unwrap().2 == w0.2,
        r_old.len() + del_seq_size(seq![DelAtom::Group(ia)] + a_rest) + del_seq_size(bb) <= bound,
        del_seq_size(seq![DelAtom::Group(ia)] + a_rest) <= fuel,
        oc.len() + del_seq_size(rc) + del_seq_size(rb1) <= del_seq_size(ia) + del_seq_size(bb),
    ensures
        ({
            let g = seq![DelAtom::Group(oc + rc)];
            let w = del_del_walk(a_rest, rb1);
            &&& w is Some
            &&& r_old + g + w.unwrap().0 == r0 + w0.0
            &&& w.unwrap().1 == w0.1
            &&& w.unwrap().2 == w0.2
            &&& (r_old + g).len() + del_seq_size(a_rest) + del_seq_size(rb1) <= bound
            &&& del_seq_size(a_rest) <= fuel
        }),
        del_seq_size(ia) < fuel,
        del_seq_size(ia) + del_seq_size(bb) <= bound,
        r_old.len() + 1 <= bound,
{
    lemma_dd_walk_group(ia, a_rest, bb);
    lemma_del_seq_size_first(seq![DelAtom::Group(ia)] + a_rest);
    assert((seq![DelAtom::Group(ia)] + a_rest)[0] == DelAtom::Group(ia));
    assert((seq![DelAtom::Group(ia)] + a_rest).drop_first() =~= a_rest);
    let g = seq![DelAtom::Group(oc + rc)];
    let wn = del_del_walk(a_rest, rb1).unwrap();
    assert(r_old + (g + wn.0) =~= r_old + g + wn.0);
}

/// A run of deleted text of the first deletion is written as it is.
#[verifier::spinoff_prover]
fn dd_step_text(
    res: &mut Vec<DelElement>,
    a: &mut DelStepper,
    b: &DelStepper,
    Ghost(r0): Ghost<Seq<DelAtom>>,
    Ghost(w0): Ghost<(Seq<DelAtom>, Seq<DelAtom>, Seq<DelAtom>)>,
    Ghost(fuel): Ghost<nat>,
    Ghost(bound): Ghost<nat>,
)
    requires
        dd_inv(old(res)@, *old(a), *b, r0, w0, fuel, bound),
        old(a).head matches Some(h) && h is DelText,
        b.head is Some,
    ensures
        del_merged(del_span_view(old(res)@)) ==> del_merged(del_span_view(final(res)@)),
        dd_inv(final(res)@, *final(a), *b, r0, w0, fuel, bound),
        dd_progress(*old(a), *b, *final(a), *b),
        dd_deep(old(res)@, *old(a), *b) ==> dd_deep(final(res)@, *final(a), *b),
{
    proof {
        lemma_dst_atoms(*a);
        lemma_dst_atoms(*b);
        lemma_del_elem_atoms_len(b.head.unwrap()@);
    }
    let ghost a_rest = del_atoms(a.rest_view());
    let ghost old_res = del_atoms(del_span_view(res@));
    let ghost a0 = *a;
    let c = match a.get_head() {
        DelText(c) => c,
        _ => {
            proof {
                assert(false);
            }
            return ;
        },
    };
    proof {
        lemma_dd_text_step(c as nat, a_rest, dst_atoms(*b), old_res, r0, w0, fuel, bound);
        lemma_repeat(DelAtom::Text, c as nat);
        lemma_del_place_ok(del_span_view(res@), DelText(c)@);
        lemma_del_place_atoms(del_span_view(res@), DelText(c)@);
        lemma_del_place_deep(del_span_view(res@), DelText(c)@);
    }
    res.place(&DelText(c));
    a.next();
    proof {
        lemma_dst_next(a0, *a);
        lemma_dst_deep_next(a0, *a);
    }
}

/// A kept atom of the first deletion against a group of the second: the
/// group's element as it is.
#[verifier::spinoff_prover]
fn dd_step_skip_group(
    res: &mut Vec<DelElement>,
    a: &mut DelStepper,
    b: &mut DelStepper,
    Ghost(r0): Ghost<Seq<DelAtom>>,
    Ghost(w0): Ghost<(Seq<DelAtom>, Seq<DelAtom>, Seq<DelAtom>)>,
    Ghost(fuel): Ghost<nat>,
    Ghost(bound): Ghost<nat>,
)
    requires
        dd_inv(old(res)@, *old(a), *old(b), r0, w0, fuel, bound),
        old(a).head matches Some(h) && h is DelSkip,
        old(b).head matches Some(h) && (h is DelGroup || h is DelWithGroup),
    ensures
        del_merged(del_span_view(old(res)@)) ==> del_merged(del_span_view(final(res)@)),
        dd_inv(final(res)@, *final(a), *final(b), r0, w0, fuel, bound),
        dd_progress(*old(a), *old(b), *final(a), *final(b)),
        dd_deep(old(res)@, *old(a), *old(b)) ==> dd_deep(final(res)@, *final(a), *final(b)),
{
    proof {
        lemma_dst_atoms(*a);
        lemma_dst_atoms(*b);
    }
    let ghost a_rest = del_atoms(a.rest_view());
    let ghost b_rest = del_atoms(b.rest_view());
    let ghost old_res = del_atoms(del_span_view(res@));
    let ghost a0 = *a;
    let ghost b0 = *b;
    let ac = match a.get_head() {
        DelSkip(c) => c,
        _ => {
            proof {
                assert(false);
            }
            return ;
        },
    };
    let ghost y = del_elem_atoms(b0.head.unwrap()@)[0];
    proof {
        assert(del_elem_atoms(b0.head.unwrap()@) == seq![y]);
        lemma_repeat_first_del(DelAtom::Skip, ac as nat);
        assert(dst_atoms(a0) =~= seq![DelAtom::Skip] + (repeat(DelAtom::Skip, (ac - 1) as nat)
            + a_rest));
        lemma_dd_one_skip(y);
        lemma_dd_one_step(
            DelAtom::Skip,
            y,
            seq![y],
            repeat(DelAtom::Skip, (ac - 1) as nat) + a_rest,
            b_rest,
            old_res,
            r0,
            w0,
            fuel,
            bound,
        );
        lemma_repeat(DelAtom::Skip, (ac - 1) as nat);
    }
    dst_take(a, 1, ac, DelSkip(ac - 1), Ghost(DelAtom::Skip));
    let bh = b.next().unwrap();
    proof {
        lemma_dst_next(b0, *b);
        lemma_dst_deep_next(b0, *b);
        lemma_dst_deep_head(b0);
        lemma_del_place_ok(del_span_view(res@), bh@);
        lemma_del_place_atoms(del_span_view(res@), bh@);
        lemma_del_place_deep(del_span_view(res@), bh@);
    }
    res.place(&bh);
}

/// A kept group of the first deletion against a kept atom of the second.
#[verifier::spinoff_prover]
fn dd_step_with_group_skip(
    res: &mut Vec<DelElement>,
    a: &mut DelStepper,
    b: &mut DelStepper,
    Ghost(r0): Ghost<Seq<DelAtom>>,
    Ghost(w0): Ghost<(Seq<DelAtom>, Seq<DelAtom>, Seq<DelAtom>)>,
    Ghost(fuel): Ghost<nat>,
    Ghost(bound): Ghost<nat>,
)
    requires
        dd_inv(old(res)@, *old(a), *old(b), r0, w0, fuel, bound),
        old(a).head matches Some(h) && h is DelWithGroup,
        old(b).head matches Some(h) && h is DelSkip,
    ensures
        del_merged(del_span_view(old(res)@)) ==> del_merged(del_span_view(final(res)@)),
        dd_inv(final(res)@, *final(a), *final(b), r0, w0, fuel, bound),
        dd_progress(*old(a), *old(b), *final(a), *final(b)),
        dd_deep(old(res)@, *old(a), *old(b)) ==> dd_deep(final(res)@, *final(a), *final(b)),
{
    proof {
        lemma_dst_atoms(*a);
        lemma_dst_atoms(*b);
    }
    let ghost a_rest = del_atoms(a.rest_view());
    let ghost b_rest = del_atoms(b.rest_view());
    let ghost old_res = del_atoms(del_span_view(res@));
    let ghost a0 = *a;
    let ghost b0 = *b;
    let bc = match b.get_head() {
        DelSkip(c) => c,
        _ => {
            proof {
                assert(false);
            }
            return ;
        },
    };
    let ghost x = del_elem_atoms(a0.head.unwrap()@)[0];
    proof {
        assert(del_elem_atoms(a0.head.unwrap()@) == seq![x]);
        lemma_repeat_first_del(DelAtom::Skip, bc as nat);
        assert(dst_atoms(b0) =~= seq![DelAtom::Skip] + (repeat(DelAtom::Skip, (bc - 1) as nat)
            + b_rest));
        lemma_dd_one_with_group(x->WithGroup_0, DelAtom::Skip);
        lemma_dd_one_step(
            x,
            DelAtom::Skip,
            seq![x],
            a_rest,
            repeat(DelAtom::Skip, (bc - 1) as nat) + b_rest,
            old_res,
            r0,
            w0,
            fuel,
            bound,
        );
        lemma_repeat(DelAtom::Skip, (bc - 1) as nat);
    }
    dst_take(b, 1, bc, DelSkip(bc - 1), Ghost(DelAtom::Skip));
    let ah = a.next().unwrap();
    proof {
        lemma_dst_next(a0, *a);
        lemma_dst_deep_next(a0, *a);
        lemma_dst_deep_head(a0);
        lemma_del_place_ok(del_span_view(res@), ah@);
        lemma_del_place_atoms(del_span_view(res@), ah@);
        lemma_del_place_deep(del_span_view(res@), ah@);
    }
    res.place(&ah);
}

/// The atoms of a well-formed deletion element.
pub proof fn lemma_del_elem_atoms_len(x: DelNode)
    requires
        del_elem_wf(x),
    ensures
        del_elem_atoms(x).len() > 0,
        (x is Group || x is WithGroup) ==> del_elem_atoms(x).len() == 1,
{
    crate::apply::lemma_del_elem_atoms_len(x);
}

/// A kept group of the first deletion against a kept or deleted group of
/// the second: the composition of their contents.
#[verifier::spinoff_prover]
fn dd_step_with_group_group(
    res: &mut Vec<DelElement>,
    a: &mut DelStepper,
    b: &mut DelStepper,
    Ghost(r0): Ghost<Seq<DelAtom>>,
    Ghost(w0): Ghost<(Seq<DelAtom>, Seq<DelAtom>, Seq<DelAtom>)>,
    Ghost(fuel): Ghost<nat>,
    Ghost(bound): Ghost<nat>,
)
    requires
        dd_inv(old(res)@, *old(a), *old(b), r0, w0, fuel, bound),
        old(a).head matches Some(h) && h is DelWithGroup,
        old(b).head matches Some(h) && (h is DelWithGroup || h is DelGroup),
    ensures
        del_merged(del_span_view(old(res)@)) ==> del_merged(del_span_view(final(res)@)),
        dd_inv(final(res)@, *final(a), *final(b), r0, w0, fuel, bound),
        dd_progress(*old(a), *old(b), *final(a), *final(b)),
        dd_deep(old(res)@, *old(a), *old(b)) ==> dd_deep(final(res)@, *final(a), *final(b)),
    decreases fuel, 0nat,
{
    proof {
        lemma_dst_atoms(*a);
        lemma_dst_atoms(*b);
    }
    let ghost a_rest = del_atoms(a.rest_view());
    let ghost b_rest = del_atoms(b.rest_view());
    let ghost old_res = del_atoms(del_span_view(res@));
    let ghost a0 = *a;
    let ghost b0 = *b;
    let ghost x = del_elem_atoms(a0.head.unwrap()@)[0];
    let ghost y = del_elem_atoms(b0.head.unwrap()@)[0];
    let ah = a.next().unwrap();
    let bh = b.next().unwrap();
    proof {
        lemma_dst_next(a0, *a);
        lemma_dst_next(b0, *b);
        lemma_dst_deep_next(a0, *a);
        lemma_dst_deep_next(b0, *b);
        lemma_dst_deep_head(a0);
        lemma_dst_deep_head(b0);
        assert(del_elem_atoms(ah@) == seq![x]);
        assert(del_elem_atoms(bh@) == seq![y]);
        lemma_dd_one_with_group(x->WithGroup_0, y);
    }
    match (ah, bh) {
        (DelWithGroup(ia), bh) => {
            let (ib, keep) = match bh {
                DelWithGroup(ib) => (ib, true),
                DelGroup(ib) => (ib, false),
                _ => {
                    proof {
                        assert(false);
                    }
                    return ;
                },
            };
            let ghost iav = del_atoms(del_span_view(ia@));
            let ghost ibv = del_atoms(del_span_view(ib@));
            let ghost h = del_del_one(x, y).unwrap();
            proof {
                assert(x == DelAtom::WithGroup(iav));
                assert(dst_atoms(a0) =~= seq![x] + a_rest);
                assert(dst_atoms(b0) =~= seq![y] + b_rest);
                lemma_dd_walk_step(x, y, a_rest, b_rest);
                lemma_del_seq_size_first(seq![x] + a_rest);
                assert((seq![x] + a_rest)[0] == x);
                assert((seq![x] + a_rest).drop_first() =~= a_rest);
                assert(del_seq_size(iav) < fuel);
                lemma_dd_one_step(x, y, h, a_rest, b_rest, old_res, r0, w0, fuel, bound);
                lemma_del_group_wf(DelNode::WithGroup(del_span_view(ia@)));
                lemma_del_group_wf(y_node(keep, del_span_view(ib@)));
                lemma_del_seq_size_first(seq![x]);
                assert(seq![x].drop_first() =~= Seq::<DelAtom>::empty());
            }
            let inner = compose_del_del_fuel(&ia, &ib, Ghost(del_seq_size(iav)));
            let out = if keep {
                DelWithGroup(inner)
            } else {
                DelGroup(inner)
            };
            proof {
                lemma_del_group_wf(out@);
                lemma_single_atoms(DocNode::Text(StyleSet::empty(), Seq::empty()), out@, AddNode::Skip(1));
                assert(del_elem_atoms(out@) == h);
                lemma_del_place_ok(del_span_view(res@), out@);
                lemma_del_place_atoms(del_span_view(res@), out@);
                lemma_del_place_deep(del_span_view(res@), out@);
            }
            res.place(&out);
        },
        _ => {
            proof {
                assert(false);
            }
        },
    }
}

/// The deletion node of a group that is kept or deleted.
spec fn y_node(keep: bool, s: Seq<DelNode>) -> DelNode {
    if keep {
        DelNode::WithGroup(s)
    } else {
        DelNode::Group(s)
    }
}

/// A deleted group of the first deletion: its contents walk against the
/// second deletion, and the group takes what they make.
#[verifier::spinoff_prover]
fn dd_step_group(
    res: &mut Vec<DelElement>,
    a: &mut DelStepper,
    b: &mut DelStepper,
    Ghost(r0): Ghost<Seq<DelAtom>>,
    Ghost(w0): Ghost<(Seq<DelAtom>, Seq<DelAtom>, Seq<DelAtom>)>,
    Ghost(fuel): Ghost<nat>,
    Ghost(bound): Ghost<nat>,
)
    requires
        dd_inv(old(res)@, *old(a), *old(b), r0, w0, fuel, bound),
        old(a).head matches Some(h) && h is DelGroup,
        old(b).head is Some,
    ensures
        del_merged(del_span_view(old(res)@)) ==> del_merged(del_span_view(final(res)@)),
        dd_inv(final(res)@, *final(a), *final(b), r0, w0, fuel, bound),
        dd_progress(*old(a), *old(b), *final(a), *final(b)),
        dd_deep(old(res)@, *old(a), *old(b)) ==> dd_deep(final(res)@, *final(a), *final(b)),
    decreases fuel, 0nat,
{
    proof {
        lemma_dst_atoms(*a);
        lemma_dst_atoms(*b);
        lemma_del_elem_atoms_len(b.head.unwrap()@);
    }
    let ghost a_rest = del_atoms(a.rest_view());
    let ghost bb = dst_atoms(*b);
    let ghost old_res = del_atoms(del_span_view(res@));
    let ghost a0 = *a;
    let span = match a.get_head() {
        DelGroup(span) => span,
        _ => {
            proof {
                assert(false);
            }
            return ;
        },
    };
    let ghost ia = del_atoms(del_span_view(span@));
    proof {
        assert(dst_atoms(a0) == seq![DelAtom::Group(ia)] + a_rest);
        lemma_dd_walk_group(ia, a_rest, bb);
        lemma_del_group_wf(DelNode::Group(del_span_view(span@)));
        lemma_del_seq_size_first(seq![DelAtom::Group(ia)] + a_rest);
        assert((seq![DelAtom::Group(ia)] + a_rest)[0] == DelAtom::Group(ia));
    }
    let mut c = DelStepper::new(&span);
    let mut inner: Vec<DelElement> = Vec::new();
    proof {
        lemma_dst_deep_head(a0);
        lemma_dst_deep_new(c, del_span_view(span@));
        lemma_del_deep_at(Seq::<DelNode>::empty());
        assert(del_span_view(inner@) =~= Seq::<DelNode>::empty());
        assert(del_atoms(del_span_view(inner@)) =~= Seq::<DelAtom>::empty());
    }
    compose_del_walk(&mut inner, &mut c, b, Ghost(del_seq_size(ia)));
    let ghost wc = del_del_walk(ia, bb).unwrap();
    proof {
        lemma_dd_group_step(ia, a_rest, bb, wc.0, wc.1, wc.2, old_res, r0, w0, fuel, bound);
        lemma_del_seq_size_len(wc.1);
        lemma_dst_atoms(c);
        lemma_dst_deep_head(c);
    }
    if !c.is_done() {
        let h = c.get_head();
        proof {
            lemma_del_place_ok(del_span_view(inner@), h@);
            lemma_del_place_atoms(del_span_view(inner@), h@);
            lemma_del_place_deep(del_span_view(inner@), h@);
        }
        inner.place(&h);
        proof {
            lemma_del_place_all_ok(del_span_view(inner@), c.rest_view());
            lemma_del_place_all_deep(del_span_view(inner@), c.rest_view());
        }
        inner.place_all(&c.rest);
        proof {
            assert(wc.0 + del_elem_atoms(h@) + del_atoms(c.rest_view()) =~= wc.0 + wc.1);
        }
    } else {
        proof {
            assert(wc.0 + wc.1 =~= wc.0);
        }
    }
    let out = DelGroup(inner);
    proof {
        lemma_del_group_wf(out@);
        lemma_single_atoms(DocNode::Text(StyleSet::empty(), Seq::empty()), out@, AddNode::Skip(1));
        lemma_del_place_ok(del_span_view(res@), out@);
        lemma_del_place_atoms(del_span_view(res@), out@);
        lemma_del_place_deep(del_span_view(res@), out@);
    }
    res.place(&out);
    a.next();
    proof {
        lemma_dst_next(a0, *a);
        lemma_dst_deep_next(a0, *a);
    }
}

/// Walks two deletions side by side until either ends.
#[verifier::spinoff_prover]
fn compose_del_walk(
    res: &mut Vec<DelElement>,
    a: &mut DelStepper,
    b: &mut DelStepper,
    Ghost(fuel): Ghost<nat>,
)
    requires
        dst_ok(*old(a)),
        dst_ok(*old(b)),
        del_span_wf(del_span_view(old(res)@)),
        del_del_walk(dst_atoms(*old(a)), dst_atoms(*old(b))) is Some,
        del_seq_size(dst_atoms(*old(a))) <= fuel,
        del_atoms(del_span_view(old(res)@)).len() + del_seq_size(dst_atoms(*old(a))) + del_seq_size(
            dst_atoms(*old(b)),
        ) <= usize::MAX,
    ensures
        del_merged(del_span_view(old(res)@)) ==> del_merged(del_span_view(final(res)@)),
        dst_ok(*final(a)),
        dst_ok(*final(b)),
        del_span_wf(del_span_view(final(res)@)),
        del_atoms(del_span_view(final(res)@)) == del_atoms(del_span_view(old(res)@)) + del_del_walk(
            dst_atoms(*old(a)),
            dst_atoms(*old(b)),
        ).unwrap().0,
        dst_atoms(*final(a)) == del_del_walk(dst_atoms(*old(a)), dst_atoms(*old(b))).unwrap().1,
        dst_atoms(*final(b)) == del_del_walk(dst_atoms(*old(a)), dst_atoms(*old(b))).unwrap().2,
        del_atoms(del_span_view(final(res)@)).len() + del_seq_size(dst_atoms(*final(a)))
            + del_seq_size(dst_atoms(*final(b))) <= del_atoms(del_span_view(old(res)@)).len()
            + del_seq_size(dst_atoms(*old(a))) + del_seq_size(dst_atoms(*old(b))),
        dst_atoms(*final(b)).len() <= dst_atoms(*old(b)).len(),
        dd_deep(old(res)@, *old(a), *old(b)) ==> dd_deep(final(res)@, *final(a), *final(b)),
    decreases fuel, 1nat,
{
    let ghost r0 = del_atoms(del_span_view(res@));
    let ghost w0 = del_del_walk(dst_atoms(*a), dst_atoms(*b)).unwrap();
    let ghost bound = r0.len() + del_seq_size(dst_atoms(*a)) + del_seq_size(dst_atoms(*b));
    let ghost b_len0 = dst_atoms(*b).len();
    proof {
        assert(r0 + w0.0 =~= r0 + w0.0);
    }
    while !a.is_done() && !b.is_done()
        invariant
            dd_inv(res@, *a, *b, r0, w0, fuel, bound),
            dst_atoms(*b).len() <= b_len0,
            del_merged(del_span_view(old(res)@)) ==> del_merged(del_span_view(res@)),
            dd_deep(old(res)@, *old(a), *old(b)) ==> dd_deep(res@, *a, *b),
        decreases dst_atoms(*a).len() + dst_atoms(*b).len(),
    {
        let ak: u8 = match &a.head {
            Some(DelText(_)) => 0,
            Some(DelGroup(_)) => 1,
            Some(DelWithGroup(_)) => 2,
            Some(DelSkip(_)) => 3,
            _ => 4,
        };
        let bk: u8 = match &b.head {
            Some(DelWithGroup(_)) => 1,
            Some(DelGroup(_)) => 2,
            Some(DelSkip(_)) => 3,
            _ => 0,
        };
        if ak == 0 {
            dd_step_text(res, a, b, Ghost(r0), Ghost(w0), Ghost(fuel), Ghost(bound));
        } else if ak == 1 {
            dd_step_group(res, a, b, Ghost(r0), Ghost(w0), Ghost(fuel), Ghost(bound));
        } else if ak == 2 {
            if bk == 3 {
                dd_step_with_group_skip(res, a, b, Ghost(r0), Ghost(w0), Ghost(fuel), Ghost(bound));
            } else if bk == 1 || bk == 2 {
                dd_step_with_group_group(res, a, b, Ghost(r0), Ghost(w0), Ghost(fuel), Ghost(bound));
            } else {
                proof {
                    lemma_dst_atoms(*a);
                    lemma_dst_atoms(*b);
                    let x = del_elem_atoms(a.head.unwrap()@)[0];
                    let ys = del_elem_atoms(b.head.unwrap()@);
                    lemma_del_elem_atoms_len(b.head.unwrap()@);
                    match b.head.unwrap()@ {
                        DelNode::Text(n) => lemma_repeat(DelAtom::Text, n),
                        DelNode::Styles(n, st) => lemma_repeat(DelAtom::Styles(st), n),
                        _ => {},
                    }
                    lemma_dd_one_with_group(x->WithGroup_0, ys[0]);
                    assert(dst_atoms(*a) =~= seq![x] + del_atoms(a.rest_view()));
                    assert(dst_atoms(*b) =~= seq![ys[0]] + (ys.drop_first() + del_atoms(b.rest_view())));
                    lemma_dd_walk_step(x, ys[0], del_atoms(a.rest_view()), ys.drop_first() + del_atoms(b.rest_view()));
                    assert(false);
                }
                return ;
            }
        } else if bk == 1 || bk == 2 {
            if ak == 3 {
                dd_step_skip_group(res, a, b, Ghost(r0), Ghost(w0), Ghost(fuel), Ghost(bound));
            } else {
                proof {
                    lemma_dst_atoms(*a);
                    lemma_dst_atoms(*b);
                    let xs = del_elem_atoms(a.head.unwrap()@);
                    let y = del_elem_atoms(b.head.unwrap()@)[0];
                    lemma_del_elem_atoms_len(a.head.unwrap()@);
                    let sa = a.head.unwrap()@->Styles_1;
                    let n = a.head.unwrap()@->Styles_0;
                    lemma_repeat(DelAtom::Styles(sa), n);
                    lemma_dd_one_styles_group(sa, y);
                    assert(dst_atoms(*a) =~= seq![xs[0]] + (xs.drop_first() + del_atoms(a.rest_view())));
                    assert(dst_atoms(*b) =~= seq![y] + del_atoms(b.rest_view()));
                    lemma_dd_walk_step(xs[0], y, xs.drop_first() + del_atoms(a.rest_view()), del_atoms(b.rest_view()));
                    assert(false);
                }
                return ;
            }
        } else {
            dd_step_counted(res, a, b, Ghost(r0), Ghost(w0), Ghost(fuel), Ghost(bound));
        }
    }
    proof {
        lemma_dst_atoms(*a);
        lemma_dst_atoms(*b);
        reveal(del_del_walk);
        let w = del_del_walk(dst_atoms(*a), dst_atoms(*b)).unwrap();
        assert(w.0 =~= Seq::<DelAtom>::empty());
        assert(del_atoms(del_span_view(res@)) + w.0 =~= del_atoms(del_span_view(res@)));
    }
}

/// Composes two deletions, given a bound on the size of the first.
#[verifier::spinoff_prover]
fn compose_del_del_fuel(avec: &Vec<DelElement>, bvec: &Vec<DelElement>, Ghost(fuel): Ghost<nat>) -> (res: Vec<DelElement>)
    requires
        del_span_wf(del_span_view(avec@)),
        del_span_wf(del_span_view(bvec@)),
        compose_del_atoms(del_atoms(del_span_view(avec@)), del_atoms(del_span_view(bvec@))) is Some,
        del_seq_size(del_atoms(del_span_view(avec@))) + del_seq_size(del_atoms(del_span_view(bvec@)))
            <= usize::MAX,
        del_seq_size(del_atoms(del_span_view(avec@))) <= fuel,
    ensures
        del_merged(del_span_view(res@)),
        del_span_wf(del_span_view(res@)),
        compose_del_atoms(del_atoms(del_span_view(avec@)), del_atoms(del_span_view(bvec@))) == Some(
            del_atoms(del_span_view(res@)),
        ),
        del_deep(del_span_view(avec@)) && del_deep(del_span_view(bvec@)) ==> del_deep(
            del_span_view(res@),
        ),
    decreases fuel, 2nat,
{
    let mut res: Vec<DelElement> = Vec::new();
    let mut a = DelStepper::new(avec);
    let mut b = DelStepper::new(bvec);
    proof {
        assert(del_span_view(res@) =~= Seq::<DelNode>::empty());
        assert(del_atoms(del_span_view(res@)) =~= Seq::<DelAtom>::empty());
        lemma_dst_deep_new(a, del_span_view(avec@));
        lemma_dst_deep_new(b, del_span_view(bvec@));
        lemma_del_deep_at(Seq::<DelNode>::empty());
    }
    compose_del_walk(&mut res, &mut a, &mut b, Ghost(fuel));
    let ghost w = del_del_walk(del_atoms(del_span_view(avec@)), del_atoms(del_span_view(bvec@))).unwrap();
    proof {
        lemma_dst_atoms(a);
        lemma_dst_atoms(b);
        lemma_del_seq_size_len(w.1);
        lemma_del_seq_size_len(w.2);
        assert(Seq::<DelAtom>::empty() + w.0 =~= w.0);
    }
    if !a.is_done() {
        let h = a.get_head();
        proof {
            lemma_dst_deep_head(a);
            lemma_del_place_ok(del_span_view(res@), h@);
            lemma_del_place_atoms(del_span_view(res@), h@);
            lemma_del_place_deep(del_span_view(res@), h@);
        }
        res.place(&h);
        proof {
            lemma_del_place_all_ok(del_span_view(res@), a.rest_view());
            lemma_del_place_all_deep(del_span_view(res@), a.rest_view());
        }
        res.place_all(&a.rest);
        proof {
            assert(w.0 + del_elem_atoms(h@) + del_atoms(a.rest_view()) =~= w.0 + w.1);
        }
    } else {
        proof {
            assert(w.0 + w.1 =~= w.0);
        }
    }
    if !b.is_done() {
        let h = b.get_head();
        proof {
            lemma_dst_deep_head(b);
            lemma_del_place_ok(del_span_view(res@), h@);
            lemma_del_place_atoms(del_span_view(res@), h@);
            lemma_del_place_deep(del_span_view(res@), h@);
        }
        res.place(&h);
        proof {
            lemma_del_place_all_ok(del_span_view(res@), b.rest_view());
            lemma_del_place_all_deep(del_span_view(res@), b.rest_view());
        }
        res.place_all(&b.rest);
        proof {
            assert(w.0 + w.1 + del_elem_atoms(h@) + del_atoms(b.rest_view()) =~= w.0 + w.1 + w.2);
        }
    } else {
        proof {
            assert(w.0 + w.1 + w.2 =~= w.0 + w.1);
        }
    }
    res
}

/// Composes two deletions: the deletion that does what `avec` then `bvec`
/// do.
pub fn compose_del_del(avec: &Vec<DelElement>, bvec: &Vec<DelElement>) -> (res: Vec<DelElement>)
    requires
        del_span_wf(del_span_view(avec@)),
        del_span_wf(del_span_view(bvec@)),
        compose_del_atoms(del_atoms(del_span_view(avec@)), del_atoms(del_span_view(bvec@))) is Some,
        del_seq_size(del_atoms(del_span_view(avec@))) + del_seq_size(del_atoms(del_span_view(bvec@)))
            <= usize::MAX,
    ensures
        del_merged(del_span_view(res@)),
        del_span_wf(del_span_view(res@)),
        compose_del_atoms(del_atoms(del_span_view(avec@)), del_atoms(del_span_view(bvec@))) == Some(
            del_atoms(del_span_view(res@)),
        ),
        del_deep(del_span_view(avec@)) && del_deep(del_span_view(bvec@)) ==> del_deep(
            del_span_view(res@),
        ),
{
    compose_del_del_fuel(avec, bvec, Ghost(del_seq_size(del_atoms(del_span_view(avec@)))))
}

} // verus!