//! Normal forms of operations: kept groups whose contents are only kept
//! become kept atoms, and kept atoms at the end of a span are dropped.
use crate::compose::{del_seq_size, lemma_del_seq_size_concat, lemma_del_seq_size_len};
use crate::compose_add::{add_seq_size, lemma_add_seq_size_concat, lemma_add_seq_size_len};
use crate::doc::{
    add_atom_pre, add_pre, add_atoms, add_elem_atoms, add_elem_wf, add_span_view, add_span_wf, del_atoms, del_elem_atoms,
    del_elem_wf, del_span_view, del_span_wf, lemma_add_group_wf, lemma_del_group_wf, lemma_repeat,
    lemma_single_atoms, repeat, AddAtom, AddElement, AddGroup, AddNode, AddSkip, AddStyles,
    AddText, AddWithGroup, DelAtom, DelElement, DelGroup, DelNode, DelSkip, DelStyles, DelText,
    DelWithGroup, DocAtom, DocNode, Op,
};
use crate::place::{
    lemma_add_place_atoms, lemma_add_place_ok, lemma_del_place_atoms, lemma_del_place_ok,
    AddPlaceable, DelPlaceable,
};
use crate::apply::{
    apply_add_atoms, apply_add_one, apply_del_atoms, apply_del_one, apply_op_atoms, lemma_apply_add_atoms,
    lemma_add_pre_first, lemma_apply_add_group, lemma_apply_add_one, lemma_apply_add_split, lemma_apply_add_step,
    lemma_apply_del_atoms, lemma_apply_del_one, lemma_apply_del_split,
};
use crate::rtf::StyleSet;
use crate::place::{add_merged, del_merged};
use crate::place::{
    add_deep, add_deep_node, del_deep, del_deep_node, lemma_add_deep_at, lemma_add_place_deep,
    lemma_deep_drop_last, lemma_del_deep_at, lemma_del_place_deep,
};
use vstd::prelude::*;

verus! {

// ---------------------------------------------------------------------------
// Deletions.

/// The normal form of one deletion atom: a kept group whose normalized
/// contents are empty is kept as a plain atom.
pub open spec fn del_norm_atom(x: DelAtom) -> DelAtom
    decreases x, 0nat,
{
    match x {
        DelAtom::WithGroup(inner) => if del_norm_seq(inner, true).len() == 0 {
            DelAtom::Skip
        } else {
            DelAtom::WithGroup(del_norm_seq(inner, true))
        },
        DelAtom::Group(inner) => DelAtom::Group(del_norm_seq(inner, false)),
        _ => x,
    }
}

/// Each atom in its normal form.
pub open spec fn del_norm_map(s: Seq<DelAtom>) -> Seq<DelAtom>
    decreases s, 1nat,
{
    if s.len() == 0 {
        Seq::empty()
    } else {
        proof {
            assert(decreases_to!(s => s[s.len() - 1]));
        }
        del_norm_map(s.drop_last()).push(del_norm_atom(s.last()))
    }
}

/// `s` without the kept atoms at its end.
pub open spec fn del_strip(s: Seq<DelAtom>) -> Seq<DelAtom>
    decreases s.len(),
{
    if s.len() > 0 && s.last() is Skip {
        del_strip(s.drop_last())
    } else {
        s
    }
}

/// The normal form of a deletion, with the kept atoms at its end dropped
/// where `trim` holds.
pub open spec fn del_norm_seq(s: Seq<DelAtom>, trim: bool) -> Seq<DelAtom>
    decreases s, 2nat,
{
    if trim {
        del_strip(del_norm_map(s))
    } else {
        del_norm_map(s)
    }
}

/// No two kept runs stand side by side.
pub open spec fn del_no_skip_pair(s: Seq<DelNode>) -> bool
    decreases s.len(),
{
    s.len() < 2 || (!(s[s.len() - 2] is Skip && s[s.len() - 1] is Skip) && del_no_skip_pair(
        s.drop_last(),
    ))
}

proof fn lemma_del_place_no_pair(s: Seq<DelNode>, e: DelNode)
    requires
        del_no_skip_pair(s),
    ensures
        del_no_skip_pair(crate::place::del_place_spec(s, e)),
{
    let r = crate::place::del_place_spec(s, e);
    if s.len() > 0 {
        match (s.last(), e) {
            (DelNode::Text(m), DelNode::Text(n)) => {
                assert(r.drop_last() =~= s.drop_last());
            },
            (DelNode::Skip(m), DelNode::Skip(n)) => {
                assert(r.drop_last() =~= s.drop_last());
            },
            (DelNode::Styles(m, lst), DelNode::Styles(n, st)) => {
                if lst == st {
                    assert(r.drop_last() =~= s.drop_last());
                } else {
                    assert(r.drop_last() =~= s);
                }
            },
            _ => {
                assert(r.drop_last() =~= s);
            },
        }
    } else {
        assert(r =~= seq![e]);
    }
}

proof fn lemma_del_strip_skips(x: Seq<DelAtom>, n: nat)
    ensures
        del_strip(x + repeat(DelAtom::Skip, n)) == del_strip(x),
    decreases n,
{
    if n > 0 {
        let r = repeat(DelAtom::Skip, n);
        assert((x + r).drop_last() =~= x + repeat(DelAtom::Skip, (n - 1) as nat));
        assert((x + r).last() == DelAtom::Skip);
        lemma_del_strip_skips(x, (n - 1) as nat);
    } else {
        assert(x + repeat(DelAtom::Skip, 0) =~= x);
    }
}

/// The atoms of a well-formed span whose last element keeps nothing do not
/// end with a kept atom.
proof fn lemma_del_last_atom(s: Seq<DelNode>)
    requires
        del_span_wf(s),
        s.len() > 0,
        !(s.last() is Skip),
    ensures
        del_atoms(s).len() > 0,
        !(del_atoms(s).last() is Skip),
{
    let p = s.drop_last();
    assert(s == p.push(s.last()));
    crate::place::lemma_del_atoms_push(p, s.last());
    assert(del_elem_wf(s[s.len() - 1]));
    crate::compose::lemma_del_elem_atoms_len(s.last());
    match s.last() {
        DelNode::Text(n) => lemma_repeat(DelAtom::Text, n),
        DelNode::Styles(n, st) => lemma_repeat(DelAtom::Styles(st), n),
        _ => {},
    }
}

/// Dropping the kept atoms at the end of a span drops its last element if
/// it keeps, and nothing else.
proof fn lemma_del_strip_span(s: Seq<DelNode>)
    requires
        del_span_wf(s),
        del_no_skip_pair(s),
    ensures
        del_strip(del_atoms(s)) == if s.len() > 0 && s.last() is Skip {
            del_atoms(s.drop_last())
        } else {
            del_atoms(s)
        },
{
    if s.len() > 0 && s.last() is Skip {
        let p = s.drop_last();
        assert(s == p.push(s.last()));
        crate::place::lemma_del_atoms_push(p, s.last());
        lemma_del_strip_skips(del_atoms(p), s.last()->Skip_0);
        assert(del_span_wf(p)) by {
            assert forall|i: int| 0 <= i < p.len() implies #[trigger] del_elem_wf(p[i]) by {
                assert(p[i] == s[i]);
            }
        }
        if p.len() > 0 {
            lemma_del_last_atom(p);
        }
    } else if s.len() > 0 {
        lemma_del_last_atom(s);
    }
}

/// Normal forms go atom by atom.
proof fn lemma_del_norm_concat(x: Seq<DelAtom>, y: Seq<DelAtom>)
    ensures
        del_norm_map(x + y) == del_norm_map(x) + del_norm_map(y),
        del_norm_map(x).len() == x.len(),
    decreases y.len(),
{
    if y.len() == 0 {
        assert(x + y =~= x);
        assert(del_norm_map(x) + del_norm_map(y) =~= del_norm_map(x));
        lemma_del_norm_len(x);
    } else {
        assert((x + y).drop_last() =~= x + y.drop_last());
        assert((x + y).last() == y.last());
        lemma_del_norm_concat(x, y.drop_last());
        assert(del_norm_map(x) + del_norm_map(y) =~= del_norm_map(x) + del_norm_map(y.drop_last())
            + seq![del_norm_atom(y.last())]);
    }
}

proof fn lemma_del_norm_len(x: Seq<DelAtom>)
    ensures
        del_norm_map(x).len() == x.len(),
    decreases x.len(),
{
    if x.len() > 0 {
        lemma_del_norm_len(x.drop_last());
    }
}

/// A run of atoms outside groups is its own normal form.
#[verifier::spinoff_prover]
proof fn lemma_del_norm_run(x: DelAtom, n: nat)
    requires
        !(x is WithGroup) && !(x is Group),
    ensures
        del_norm_map(repeat(x, n)) == repeat(x, n),
    decreases n,
{
    if n > 0 {
        lemma_del_norm_run(x, (n - 1) as nat);
        assert(repeat(x, n).drop_last() =~= repeat(x, (n - 1) as nat));
        assert(repeat(x, n).last() == x);
        assert(del_norm_atom(x) == x);
    } else {
        assert(del_norm_map(repeat(x, 0)) =~= Seq::<DelAtom>::empty());
    }
}

proof fn lemma_del_strip_len(s: Seq<DelAtom>)
    ensures
        del_strip(s).len() <= s.len(),
    decreases s.len(),
{
    if s.len() > 0 && s.last() is Skip {
        lemma_del_strip_len(s.drop_last());
    }
}

/// The normal form of one deletion element.
fn normalize_del_element(e: &DelElement) -> (res: DelElement)
    requires
        del_elem_wf(e@),
        del_seq_size(del_elem_atoms(e@)) <= usize::MAX,
    ensures
        del_elem_wf(res@),
        del_elem_atoms(res@) == del_norm_map(del_elem_atoms(e@)),
        del_deep_node(res@),
    decreases e,
{
    proof {
        lemma_del_group_wf(e@);
    }
    match e {
        DelGroup(span) => {
            proof {
                lemma_del_seq_size_first_one(DelAtom::Group(del_atoms(del_span_view(span@))));
            }
            let inner = normalize_del_span(span, false);
            let res = DelGroup(inner);
            proof {
                lemma_del_group_wf(res@);
                lemma_del_norm_one(DelAtom::Group(del_atoms(del_span_view(span@))));
            }
            res
        },
        DelWithGroup(span) => {
            proof {
                lemma_del_seq_size_first_one(DelAtom::WithGroup(del_atoms(del_span_view(span@))));
            }
            let inner = normalize_del_span(span, true);
            proof {
                lemma_del_norm_one(DelAtom::WithGroup(del_atoms(del_span_view(span@))));
                lemma_del_atoms_nonempty(del_span_view(inner@));
            }
            if inner.len() == 0 {
                proof {
                    lemma_repeat(DelAtom::Skip, 1);
                    assert(repeat(DelAtom::Skip, 1) =~= seq![DelAtom::Skip]);
                }
                DelSkip(1)
            } else {
                let res = DelWithGroup(inner);
                proof {
                    lemma_del_group_wf(res@);
                }
                res
            }
        },
        DelSkip(n) => {
            proof {
                lemma_del_norm_run(DelAtom::Skip, *n as nat);
            }
            DelSkip(*n)
        },
        DelText(n) => {
            proof {
                lemma_del_norm_run(DelAtom::Text, *n as nat);
            }
            DelText(*n)
        },
        DelStyles(n, st) => {
            proof {
                lemma_del_norm_run(DelAtom::Styles(*st), *n as nat);
            }
            DelStyles(*n, *st)
        },
    }
}

/// The size of a single atom.
proof fn lemma_del_seq_size_first_one(x: DelAtom)
    ensures
        del_seq_size(seq![x]) == crate::compose::del_atom_size(x),
{
    crate::compose::lemma_del_seq_size_first(seq![x]);
    assert(seq![x].drop_first() =~= Seq::<DelAtom>::empty());
}

/// The normal form of a single atom.
#[verifier::spinoff_prover]
proof fn lemma_del_norm_one(x: DelAtom)
    ensures
        del_norm_map(seq![x]) == seq![del_norm_atom(x)],
{
    assert(seq![x].drop_last() =~= Seq::<DelAtom>::empty());
    assert(seq![x].last() == x);
    assert(del_norm_map(Seq::<DelAtom>::empty()) =~= Seq::<DelAtom>::empty());
    assert(Seq::<DelAtom>::empty().push(del_norm_atom(x)) =~= seq![del_norm_atom(x)]);
}

/// The normal form of a deletion span, with its kept end dropped where
/// `trim` holds.
fn normalize_del_span(span: &Vec<DelElement>, trim: bool) -> (res: Vec<DelElement>)
    requires
        del_span_wf(del_span_view(span@)),
        del_seq_size(del_atoms(del_span_view(span@))) <= usize::MAX,
    ensures
        del_span_wf(del_span_view(res@)),
        del_merged(del_span_view(res@)),
        del_deep(del_span_view(res@)),
        del_atoms(del_span_view(res@)) == del_norm_seq(del_atoms(del_span_view(span@)), trim),
    decreases span,
{
    let ghost v = del_span_view(span@);
    proof {
        crate::doc::lemma_del_span_view(span@);
        lemma_del_seq_size_len(del_atoms(v));
    }
    let mut ret: Vec<DelElement> = Vec::new();
    proof {
        assert(del_span_view(ret@) =~= Seq::<DelNode>::empty());
        assert(v.take(0) =~= Seq::<DelNode>::empty());
        lemma_del_deep_at(Seq::<DelNode>::empty());
    }
    for i in 0..span.len()
        invariant
            v == del_span_view(span@),
            v.len() == span@.len(),
            forall|j: int| 0 <= j < v.len() ==> #[trigger] v[j] == span@[j]@,
            del_span_wf(v),
            del_seq_size(del_atoms(v)) <= usize::MAX,
            del_atoms(v).len() <= usize::MAX,
            del_span_wf(del_span_view(ret@)),
            del_no_skip_pair(del_span_view(ret@)),
            del_merged(del_span_view(ret@)),
            del_deep(del_span_view(ret@)),
            del_atoms(del_span_view(ret@)) == del_norm_map(del_atoms(v.take(i as int))),
    {
        let ghost before = del_span_view(ret@);
        proof {
            assert(v.take(i + 1) =~= v.take(i as int).push(v[i as int]));
            crate::place::lemma_del_atoms_push(v.take(i as int), v[i as int]);
            crate::doc::lemma_del_atoms_concat(v.take(i + 1), v.skip(i + 1));
            assert(v.take(i + 1) + v.skip(i + 1) =~= v);
            lemma_del_seq_size_concat(del_atoms(v.take(i + 1)), del_atoms(v.skip(i + 1)));
            lemma_del_seq_size_concat(del_atoms(v.take(i as int)), del_elem_atoms(v[i as int]));
            lemma_del_seq_size_len(del_atoms(v.take(i + 1)));
            assert(del_elem_wf(v[i as int]));
            assert(decreases_to!(span => span@[i as int]));
        }
        let e = normalize_del_element(&span[i]);
        proof {
            lemma_del_norm_concat(del_atoms(v.take(i as int)), del_elem_atoms(v[i as int]));
            lemma_del_norm_len(del_elem_atoms(v[i as int]));
            lemma_del_place_ok(before, e@);
            lemma_del_place_atoms(before, e@);
            lemma_del_place_no_pair(before, e@);
            lemma_del_place_deep(before, e@);
        }
        ret.place(&e);
    }
    proof {
        assert(v.take(span.len() as int) =~= v);
        lemma_del_strip_span(del_span_view(ret@));
        lemma_del_norm_seq(del_atoms(v), trim);
        crate::doc::lemma_del_span_view(ret@);
    }
    if trim {
        let n = ret.len();
        if n > 0 {
            let is_skip = match &ret[n - 1] {
                DelSkip(_) => true,
                _ => false,
            };
            if is_skip {
                let ghost full = del_span_view(ret@);
                proof {
                    assert(full.last() is Skip);
                }
                ret.pop();
                proof {
                    assert(del_span_view(ret@) =~= full.drop_last());
                    assert(del_merged(full.drop_last()));
                    lemma_deep_drop_last(full, Seq::<AddNode>::empty());
                    assert(del_span_wf(del_span_view(ret@))) by {
                        assert forall|j: int| 0 <= j < del_span_view(ret@).len() implies #[trigger] del_elem_wf(
                            del_span_view(ret@)[j],
                        ) by {
                            assert(del_span_view(ret@)[j] == full[j]);
                        }
                    }
                }
            }
        }
    }
    ret
}

/// A well-formed span has atoms just where it has elements.
proof fn lemma_del_atoms_nonempty(s: Seq<DelNode>)
    requires
        del_span_wf(s),
    ensures
        (s.len() == 0) == (del_atoms(s).len() == 0),
{
    if s.len() > 0 {
        let p = s.drop_last();
        assert(s == p.push(s.last()));
        crate::place::lemma_del_atoms_push(p, s.last());
        assert(del_elem_wf(s[s.len() - 1]));
        crate::compose::lemma_del_elem_atoms_len(s.last());
    }
}

/// The normal form of a deletion, spelled out.
#[verifier::spinoff_prover]
proof fn lemma_del_norm_seq(x: Seq<DelAtom>, trim: bool)
    ensures
        del_norm_seq(x, trim) == if trim {
            del_strip(del_norm_map(x))
        } else {
            del_norm_map(x)
        },
{
}

// ---------------------------------------------------------------------------
// Insertions.

/// The normal form of one insertion atom: a kept group whose normalized
/// contents are empty is kept as a plain atom.
pub open spec fn add_norm_atom(x: AddAtom) -> AddAtom
    decreases x, 0nat,
{
    match x {
        AddAtom::WithGroup(inner) => if add_norm_seq(inner, true).len() == 0 {
            AddAtom::Skip
        } else {
            AddAtom::WithGroup(add_norm_seq(inner, true))
        },
        AddAtom::Group(at, inner) => AddAtom::Group(at, add_norm_seq(inner, false)),
        _ => x,
    }
}

/// Each atom in its normal form.
pub open spec fn add_norm_map(s: Seq<AddAtom>) -> Seq<AddAtom>
    decreases s, 1nat,
{
    if s.len() == 0 {
        Seq::empty()
    } else {
        proof {
            assert(decreases_to!(s => s[s.len() - 1]));
        }
        add_norm_map(s.drop_last()).push(add_norm_atom(s.last()))
    }
}

/// `s` without the kept atoms at its end.
pub open spec fn add_strip(s: Seq<AddAtom>) -> Seq<AddAtom>
    decreases s.len(),
{
    if s.len() > 0 && s.last() is Skip {
        add_strip(s.drop_last())
    } else {
        s
    }
}

/// The normal form of a insertion, with the kept atoms at its end dropped
/// where `trim` holds.
pub open spec fn add_norm_seq(s: Seq<AddAtom>, trim: bool) -> Seq<AddAtom>
    decreases s, 2nat,
{
    if trim {
        add_strip(add_norm_map(s))
    } else {
        add_norm_map(s)
    }
}

/// No two kept runs stand side by side.
pub open spec fn add_no_skip_pair(s: Seq<AddNode>) -> bool
    decreases s.len(),
{
    s.len() < 2 || (!(s[s.len() - 2] is Skip && s[s.len() - 1] is Skip) && add_no_skip_pair(
        s.drop_last(),
    ))
}

proof fn lemma_add_place_no_pair(s: Seq<AddNode>, e: AddNode)
    requires
        add_no_skip_pair(s),
    ensures
        add_no_skip_pair(crate::place::add_place_spec(s, e)),
{
    let r = crate::place::add_place_spec(s, e);
    if s.len() > 0 {
        match (s.last(), e) {
            (AddNode::Text(lst, lt), AddNode::Text(st, t)) => {
                if lst == st {
                    assert(r.drop_last() =~= s.drop_last());
                } else {
                    assert(r.drop_last() =~= s);
                }
            },
            (AddNode::Skip(m), AddNode::Skip(n)) => {
                assert(r.drop_last() =~= s.drop_last());
            },
            (AddNode::Styles(m, lst), AddNode::Styles(n, st)) => {
                if lst == st {
                    assert(r.drop_last() =~= s.drop_last());
                } else {
                    assert(r.drop_last() =~= s);
                }
            },
            _ => {
                assert(r.drop_last() =~= s);
            },
        }
    } else {
        assert(r =~= seq![e]);
    }
}

proof fn lemma_add_strip_skips(x: Seq<AddAtom>, n: nat)
    ensures
        add_strip(x + repeat(AddAtom::Skip, n)) == add_strip(x),
    decreases n,
{
    if n > 0 {
        let r = repeat(AddAtom::Skip, n);
        assert((x + r).drop_last() =~= x + repeat(AddAtom::Skip, (n - 1) as nat));
        assert((x + r).last() == AddAtom::Skip);
        lemma_add_strip_skips(x, (n - 1) as nat);
    } else {
        assert(x + repeat(AddAtom::Skip, 0) =~= x);
    }
}

/// The atoms of a well-formed span whose last element keeps nothing do not
/// end with a kept atom.
proof fn lemma_add_last_atom(s: Seq<AddNode>)
    requires
        add_span_wf(s),
        s.len() > 0,
        !(s.last() is Skip),
    ensures
        add_atoms(s).len() > 0,
        !(add_atoms(s).last() is Skip),
{
    let p = s.drop_last();
    assert(s == p.push(s.last()));
    crate::place::lemma_add_atoms_push(p, s.last());
    assert(add_elem_wf(s[s.len() - 1]));
    crate::compose_add::lemma_add_elem_atoms_len(s.last());
    match s.last() {
        AddNode::Text(st, t) => crate::doc::lemma_text_atoms(st, t),
        AddNode::Styles(n, st) => lemma_repeat(AddAtom::Styles(st), n),
        _ => {},
    }
}

/// Dropping the kept atoms at the end of a span drops its last element if
/// it keeps, and nothing else.
proof fn lemma_add_strip_span(s: Seq<AddNode>)
    requires
        add_span_wf(s),
        add_no_skip_pair(s),
    ensures
        add_strip(add_atoms(s)) == if s.len() > 0 && s.last() is Skip {
            add_atoms(s.drop_last())
        } else {
            add_atoms(s)
        },
{
    if s.len() > 0 && s.last() is Skip {
        let p = s.drop_last();
        assert(s == p.push(s.last()));
        crate::place::lemma_add_atoms_push(p, s.last());
        lemma_add_strip_skips(add_atoms(p), s.last()->Skip_0);
        assert(add_span_wf(p)) by {
            assert forall|i: int| 0 <= i < p.len() implies #[trigger] add_elem_wf(p[i]) by {
                assert(p[i] == s[i]);
            }
        }
        if p.len() > 0 {
            lemma_add_last_atom(p);
        }
    } else if s.len() > 0 {
        lemma_add_last_atom(s);
    }
}

/// Normal forms go atom by atom.
proof fn lemma_add_norm_concat(x: Seq<AddAtom>, y: Seq<AddAtom>)
    ensures
        add_norm_map(x + y) == add_norm_map(x) + add_norm_map(y),
        add_norm_map(x).len() == x.len(),
    decreases y.len(),
{
    if y.len() == 0 {
        assert(x + y =~= x);
        assert(add_norm_map(x) + add_norm_map(y) =~= add_norm_map(x));
        lemma_add_norm_len(x);
    } else {
        assert((x + y).drop_last() =~= x + y.drop_last());
        assert((x + y).last() == y.last());
        lemma_add_norm_concat(x, y.drop_last());
        assert(add_norm_map(x) + add_norm_map(y) =~= add_norm_map(x) + add_norm_map(y.drop_last())
            + seq![add_norm_atom(y.last())]);
    }
}

proof fn lemma_add_norm_len(x: Seq<AddAtom>)
    ensures
        add_norm_map(x).len() == x.len(),
    decreases x.len(),
{
    if x.len() > 0 {
        lemma_add_norm_len(x.drop_last());
    }
}

/// A run of atoms outside groups is its own normal form.
#[verifier::spinoff_prover]
proof fn lemma_add_norm_run(x: AddAtom, n: nat)
    requires
        !(x is WithGroup) && !(x is Group),
    ensures
        add_norm_map(repeat(x, n)) == repeat(x, n),
    decreases n,
{
    if n > 0 {
        lemma_add_norm_run(x, (n - 1) as nat);
        assert(repeat(x, n).drop_last() =~= repeat(x, (n - 1) as nat));
        assert(repeat(x, n).last() == x);
        assert(add_norm_atom(x) == x);
    } else {
        assert(add_norm_map(repeat(x, 0)) =~= Seq::<AddAtom>::empty());
    }
}

proof fn lemma_add_strip_len(s: Seq<AddAtom>)
    ensures
        add_strip(s).len() <= s.len(),
    decreases s.len(),
{
    if s.len() > 0 && s.last() is Skip {
        lemma_add_strip_len(s.drop_last());
    }
}

/// The normal form of one insertion element.
fn normalize_add_element(e: &AddElement) -> (res: AddElement)
    requires
        add_elem_wf(e@),
        add_seq_size(add_elem_atoms(e@)) <= usize::MAX,
    ensures
        add_elem_wf(res@),
        add_elem_atoms(res@) == add_norm_map(add_elem_atoms(e@)),
        add_deep_node(res@),
    decreases e,
{
    proof {
        lemma_add_group_wf(e@);
    }
    match e {
        AddGroup(at, span) => {
            proof {
                lemma_add_seq_size_first_one(AddAtom::Group(*at, add_atoms(add_span_view(span@))));
            }
            let inner = normalize_add_span(span, false);
            let res = AddGroup(at.clone(), inner);
            proof {
                lemma_add_group_wf(res@);
                lemma_add_norm_one(AddAtom::Group(*at, add_atoms(add_span_view(span@))));
            }
            res
        },
        AddWithGroup(span) => {
            proof {
                lemma_add_seq_size_first_one(AddAtom::WithGroup(add_atoms(add_span_view(span@))));
            }
            let inner = normalize_add_span(span, true);
            proof {
                lemma_add_norm_one(AddAtom::WithGroup(add_atoms(add_span_view(span@))));
                lemma_add_atoms_nonempty(add_span_view(inner@));
            }
            if inner.len() == 0 {
                proof {
                    lemma_repeat(AddAtom::Skip, 1);
                    assert(repeat(AddAtom::Skip, 1) =~= seq![AddAtom::Skip]);
                }
                AddSkip(1)
            } else {
                let res = AddWithGroup(inner);
                proof {
                    lemma_add_group_wf(res@);
                }
                res
            }
        },
        AddSkip(n) => {
            proof {
                lemma_add_norm_run(AddAtom::Skip, *n as nat);
            }
            AddSkip(*n)
        },
        AddText(st, t) => {
            proof {
                lemma_add_norm_text(*st, t@);
            }
            AddText(*st, t.clone())
        },
        AddStyles(n, st) => {
            proof {
                lemma_add_norm_run(AddAtom::Styles(*st), *n as nat);
            }
            AddStyles(*n, *st)
        },
    }
}

/// Inserted text is its own normal form.
#[verifier::spinoff_prover]
proof fn lemma_add_norm_text(st: StyleSet, t: Seq<char>)
    ensures
        add_norm_map(crate::doc::add_text_atoms(st, t)) == crate::doc::add_text_atoms(st, t),
    decreases t.len(),
{
    let x = crate::doc::add_text_atoms(st, t);
    crate::doc::lemma_text_atoms(st, t);
    if t.len() > 0 {
        lemma_add_norm_text(st, t.drop_last());
        crate::doc::lemma_text_atoms(st, t.drop_last());
        assert(x.drop_last() =~= crate::doc::add_text_atoms(st, t.drop_last()));
        assert(x.last() is Text);
        assert(add_norm_atom(x.last()) == x.last());
        assert(add_norm_map(x) == add_norm_map(x.drop_last()).push(add_norm_atom(x.last())));
        assert(x =~= x.drop_last().push(x.last()));
    } else {
        assert(x =~= Seq::<AddAtom>::empty());
        assert(add_norm_map(Seq::<AddAtom>::empty()) =~= Seq::<AddAtom>::empty());
    }
}

/// The size of a single atom.
proof fn lemma_add_seq_size_first_one(x: AddAtom)
    ensures
        add_seq_size(seq![x]) == crate::compose_add::add_atom_size(x),
{
    crate::compose_add::lemma_add_seq_size_first(seq![x]);
    assert(seq![x].drop_first() =~= Seq::<AddAtom>::empty());
}

/// The normal form of a single atom.
#[verifier::spinoff_prover]
proof fn lemma_add_norm_one(x: AddAtom)
    ensures
        add_norm_map(seq![x]) == seq![add_norm_atom(x)],
{
    assert(seq![x].drop_last() =~= Seq::<AddAtom>::empty());
    assert(seq![x].last() == x);
    assert(add_norm_map(Seq::<AddAtom>::empty()) =~= Seq::<AddAtom>::empty());
    assert(Seq::<AddAtom>::empty().push(add_norm_atom(x)) =~= seq![add_norm_atom(x)]);
}

/// The normal form of a insertion span, with its kept end dropped where
/// `trim` holds.
fn normalize_add_span(span: &Vec<AddElement>, trim: bool) -> (res: Vec<AddElement>)
    requires
        add_span_wf(add_span_view(span@)),
        add_seq_size(add_atoms(add_span_view(span@))) <= usize::MAX,
    ensures
        add_span_wf(add_span_view(res@)),
        add_merged(add_span_view(res@)),
        add_deep(add_span_view(res@)),
        add_atoms(add_span_view(res@)) == add_norm_seq(add_atoms(add_span_view(span@)), trim),
    decreases span,
{
    let ghost v = add_span_view(span@);
    proof {
        crate::doc::lemma_add_span_view(span@);
        lemma_add_seq_size_len(add_atoms(v));
    }
    let mut ret: Vec<AddElement> = Vec::new();
    proof {
        assert(add_span_view(ret@) =~= Seq::<AddNode>::empty());
        assert(v.take(0) =~= Seq::<AddNode>::empty());
        lemma_add_deep_at(Seq::<AddNode>::empty());
    }
    for i in 0..span.len()
        invariant
            v == add_span_view(span@),
            v.len() == span@.len(),
            forall|j: int| 0 <= j < v.len() ==> #[trigger] v[j] == span@[j]@,
            add_span_wf(v),
            add_seq_size(add_atoms(v)) <= usize::MAX,
            add_atoms(v).len() <= usize::MAX,
            add_span_wf(add_span_view(ret@)),
            add_no_skip_pair(add_span_view(ret@)),
            add_merged(add_span_view(ret@)),
            add_deep(add_span_view(ret@)),
            add_atoms(add_span_view(ret@)) == add_norm_map(add_atoms(v.take(i as int))),
    {
        let ghost before = add_span_view(ret@);
        proof {
            assert(v.take(i + 1) =~= v.take(i as int).push(v[i as int]));
            crate::place::lemma_add_atoms_push(v.take(i as int), v[i as int]);
            crate::doc::lemma_add_atoms_concat(v.take(i + 1), v.skip(i + 1));
            assert(v.take(i + 1) + v.skip(i + 1) =~= v);
            lemma_add_seq_size_concat(add_atoms(v.take(i + 1)), add_atoms(v.skip(i + 1)));
            lemma_add_seq_size_concat(add_atoms(v.take(i as int)), add_elem_atoms(v[i as int]));
            lemma_add_seq_size_len(add_atoms(v.take(i + 1)));
            assert(add_elem_wf(v[i as int]));
            assert(decreases_to!(span => span@[i as int]));
        }
        let e = normalize_add_element(&span[i]);
        proof {
            lemma_add_norm_concat(add_atoms(v.take(i as int)), add_elem_atoms(v[i as int]));
            lemma_add_norm_len(add_elem_atoms(v[i as int]));
            lemma_add_place_ok(before, e@);
            lemma_add_place_atoms(before, e@);
            lemma_add_place_no_pair(before, e@);
            lemma_add_place_deep(before, e@);
        }
        ret.place(&e);
    }
    proof {
        assert(v.take(span.len() as int) =~= v);
        lemma_add_strip_span(add_span_view(ret@));
        lemma_add_norm_seq(add_atoms(v), trim);
        crate::doc::lemma_add_span_view(ret@);
    }
    if trim {
        let n = ret.len();
        if n > 0 {
            let is_skip = match &ret[n - 1] {
                AddSkip(_) => true,
                _ => false,
            };
            if is_skip {
                let ghost full = add_span_view(ret@);
                proof {
                    assert(full.last() is Skip);
                }
                ret.pop();
                proof {
                    assert(add_span_view(ret@) =~= full.drop_last());
                    assert(add_merged(full.drop_last()));
                    lemma_deep_drop_last(Seq::<DelNode>::empty(), full);
                    assert(add_span_wf(add_span_view(ret@))) by {
                        assert forall|j: int| 0 <= j < add_span_view(ret@).len() implies #[trigger] add_elem_wf(
                            add_span_view(ret@)[j],
                        ) by {
                            assert(add_span_view(ret@)[j] == full[j]);
                        }
                    }
                }
            }
        }
    }
    ret
}

/// A well-formed span has atoms just where it has elements.
proof fn lemma_add_atoms_nonempty(s: Seq<AddNode>)
    requires
        add_span_wf(s),
    ensures
        (s.len() == 0) == (add_atoms(s).len() == 0),
{
    if s.len() > 0 {
        let p = s.drop_last();
        assert(s == p.push(s.last()));
        crate::place::lemma_add_atoms_push(p, s.last());
        assert(add_elem_wf(s[s.len() - 1]));
        crate::compose_add::lemma_add_elem_atoms_len(s.last());
    }
}

/// The normal form of a insertion, spelled out.
#[verifier::spinoff_prover]
proof fn lemma_add_norm_seq(x: Seq<AddAtom>, trim: bool)
    ensures
        add_norm_seq(x, trim) == if trim {
            add_strip(add_norm_map(x))
        } else {
            add_norm_map(x)
        },
{
}

// ---------------------------------------------------------------------------
// Operations.

/// The normal form of an operation: of its deletion and of its insertion,
/// each without the kept atoms at its end.
pub fn normalize(op: Op) -> (res: Op)
    requires
        del_span_wf(del_span_view(op.0@)),
        add_span_wf(add_span_view(op.1@)),
        del_seq_size(del_atoms(del_span_view(op.0@))) <= usize::MAX,
        add_seq_size(add_atoms(add_span_view(op.1@))) <= usize::MAX,
    ensures
        del_merged(del_span_view(res.0@)),
        add_merged(add_span_view(res.1@)),
        del_deep(del_span_view(res.0@)),
        add_deep(add_span_view(res.1@)),
        del_span_wf(del_span_view(res.0@)),
        add_span_wf(add_span_view(res.1@)),
        del_atoms(del_span_view(res.0@)) == del_norm_seq(del_atoms(del_span_view(op.0@)), true),
        add_atoms(add_span_view(res.1@)) == add_norm_seq(add_atoms(add_span_view(op.1@)), true),
{
    let d = normalize_del_span(&op.0, true);
    let a = normalize_add_span(&op.1, true);
    Op(d, a)
}

// ---------------------------------------------------------------------------
// A normal form does what the operation does.

/// The normal form of a single atom, as a sequence.
proof fn lemma_del_map_single(x: DelAtom)
    ensures
        del_norm_map(seq![x]) == seq![del_norm_atom(x)],
{
    assert(seq![x].drop_last() =~= Seq::<DelAtom>::empty());
    assert(seq![x].last() == x);
    assert(del_norm_map(Seq::<DelAtom>::empty()) =~= Seq::<DelAtom>::empty());
    assert(Seq::<DelAtom>::empty().push(del_norm_atom(x)) =~= seq![del_norm_atom(x)]);
}

/// A deletion atom in normal form does what it does.
proof fn lemma_del_norm_atom_apply(z: DocAtom, x: DelAtom)
    requires
        apply_del_one(z, x) is Some,
    ensures
        apply_del_one(z, del_norm_atom(x)) == apply_del_one(z, x),
    decreases x, 0nat,
{
    lemma_apply_del_one(z, x);
    lemma_apply_del_one(z, del_norm_atom(x));
    match x {
        DelAtom::WithGroup(inner) => {
            match z {
                DocAtom::Group(at, g) => {
                    lemma_del_norm_seq_apply(g, inner, true);
                    lemma_apply_del_atoms(g, Seq::<DelAtom>::empty());
                    lemma_apply_del_one(z, DelAtom::Skip);
                },
                _ => {},
            }
        },
        DelAtom::Group(inner) => {
            match z {
                DocAtom::Group(at, g) => {
                    lemma_del_norm_map_apply(g, inner);
                },
                _ => {},
            }
        },
        _ => {},
    }
}

/// A deletion with each atom in normal form does what it does.
proof fn lemma_del_norm_map_apply(d: Seq<DocAtom>, x: Seq<DelAtom>)
    requires
        apply_del_atoms(d, x) is Some,
    ensures
        apply_del_atoms(d, del_norm_map(x)) == apply_del_atoms(d, x),
    decreases x, 1nat,
{
    lemma_apply_del_atoms(d, x);
    if x.len() == 0 {
        assert(del_norm_map(x) =~= Seq::<DelAtom>::empty());
    } else {
        let x0 = x[0];
        let x1 = x.drop_first();
        assert(x =~= seq![x0] + x1);
        assert(decreases_to!(x => x0));
        lemma_del_norm_concat(seq![x0], x1);
        lemma_del_map_single(x0);
        let m = del_norm_map(x);
        assert(m =~= seq![del_norm_atom(x0)] + del_norm_map(x1));
        assert(m[0] == del_norm_atom(x0));
        assert(m.drop_first() =~= del_norm_map(x1));
        lemma_apply_del_atoms(d, m);
        lemma_del_norm_atom_apply(d[0], x0);
        lemma_del_norm_map_apply(d.drop_first(), x1);
    }
}

/// Kept atoms at the end of a deletion do nothing.
proof fn lemma_del_strip_apply(d: Seq<DocAtom>, x: Seq<DelAtom>)
    requires
        apply_del_atoms(d, x) is Some,
    ensures
        apply_del_atoms(d, del_strip(x)) == apply_del_atoms(d, x),
    decreases x.len(),
{
    if x.len() > 0 && x.last() is Skip {
        let x1 = x.drop_last();
        assert(x =~= x1 + seq![DelAtom::Skip]);
        crate::laws::lemma_apply_del_len(d, x);
        let n = x1.len() as int;
        assert(d =~= d.take(n) + d.skip(n));
        lemma_apply_del_split(d.take(n), d.skip(n), x1, seq![DelAtom::Skip]);
        assert(d.skip(n) =~= seq![d.skip(n)[0]] + d.skip(n).drop_first());
        assert(seq![DelAtom::Skip] =~= seq![DelAtom::Skip] + Seq::<DelAtom>::empty());
        lemma_apply_del_split(seq![d.skip(n)[0]], d.skip(n).drop_first(), seq![DelAtom::Skip], Seq::<DelAtom>::empty());
        crate::laws::lemma_del_single(d.skip(n)[0], DelAtom::Skip);
        lemma_apply_del_one(d.skip(n)[0], DelAtom::Skip);
        lemma_apply_del_atoms(d.skip(n).drop_first(), Seq::<DelAtom>::empty());
        crate::laws::lemma_apply_del_rest(d, x1);
        lemma_del_strip_apply(d, x1);
    }
}

/// A deletion in normal form does what it does.
proof fn lemma_del_norm_seq_apply(d: Seq<DocAtom>, x: Seq<DelAtom>, trim: bool)
    requires
        apply_del_atoms(d, x) is Some,
    ensures
        apply_del_atoms(d, del_norm_seq(x, trim)) == apply_del_atoms(d, x),
    decreases x, 2nat,
{
    lemma_del_norm_map_apply(d, x);
    if trim {
        lemma_del_strip_apply(d, del_norm_map(x));
    }
}


/// The normal form of an insertion atom walks over as much as the atom.
proof fn lemma_add_norm_atom_pre(y: AddAtom)
    ensures
        add_atom_pre(add_norm_atom(y)) == add_atom_pre(y),
    decreases y, 0nat,
{
    match y {
        AddAtom::Group(at, inner) => {
            lemma_add_norm_map_pre(inner);
        },
        _ => {},
    }
}

/// The normal form of an insertion, atom by atom, walks over as much as it.
proof fn lemma_add_norm_map_pre(x: Seq<AddAtom>)
    ensures
        add_pre(add_norm_map(x)) == add_pre(x),
    decreases x, 1nat,
{
    if x.len() > 0 {
        assert(decreases_to!(x => x[x.len() - 1]));
        lemma_add_norm_map_pre(x.drop_last());
        lemma_add_norm_atom_pre(x.last());
        let m = add_norm_map(x);
        assert(m.drop_last() =~= add_norm_map(x.drop_last()));
        assert(m.last() == add_norm_atom(x.last()));
    }
}

/// The normal form of a single insertion atom, as a sequence.
proof fn lemma_add_map_single(y: AddAtom)
    ensures
        add_norm_map(seq![y]) == seq![add_norm_atom(y)],
{
    assert(seq![y].drop_last() =~= Seq::<AddAtom>::empty());
    assert(seq![y].last() == y);
    assert(add_norm_map(Seq::<AddAtom>::empty()) =~= Seq::<AddAtom>::empty());
    assert(Seq::<AddAtom>::empty().push(add_norm_atom(y)) =~= seq![add_norm_atom(y)]);
}

/// An insertion atom that walks over one document atom does, in normal
/// form, what it does.
proof fn lemma_add_norm_atom_apply(z: DocAtom, y: AddAtom)
    requires
        apply_add_one(z, y) is Some,
    ensures
        apply_add_one(z, add_norm_atom(y)) == apply_add_one(z, y),
    decreases y, 0nat,
{
    lemma_apply_add_one(z, y);
    lemma_apply_add_one(z, add_norm_atom(y));
    match y {
        AddAtom::WithGroup(inner) => {
            match z {
                DocAtom::Group(at, g) => {
                    lemma_add_norm_seq_apply(g, inner, true);
                    lemma_apply_add_atoms(g, Seq::<AddAtom>::empty());
                    lemma_apply_add_one(z, AddAtom::Skip);
                },
                _ => {},
            }
        },
        _ => {},
    }
}

/// An insertion with each atom in normal form does what it does.
proof fn lemma_add_norm_map_apply(d: Seq<DocAtom>, y: Seq<AddAtom>)
    requires
        apply_add_atoms(d, y) is Some,
    ensures
        apply_add_atoms(d, add_norm_map(y)) == apply_add_atoms(d, y),
    decreases y, 1nat,
{
    lemma_apply_add_atoms(d, y);
    if y.len() == 0 {
        assert(add_norm_map(y) =~= Seq::<AddAtom>::empty());
    } else {
        let y0 = y[0];
        let y1 = y.drop_first();
        assert(y =~= seq![y0] + y1);
        assert(decreases_to!(y => y0));
        lemma_add_norm_concat(seq![y0], y1);
        lemma_add_map_single(y0);
        let m = add_norm_map(y);
        assert(m =~= seq![add_norm_atom(y0)] + add_norm_map(y1));
        assert(m[0] == add_norm_atom(y0));
        assert(m.drop_first() =~= add_norm_map(y1));
        lemma_apply_add_atoms(d, m);
        match y0 {
            AddAtom::Text(st, c) => {
                lemma_add_norm_map_apply(d, y1);
            },
            AddAtom::Group(at, inner) => {
                assert(decreases_to!(y0 => inner));
                let n = add_pre(inner);
                lemma_add_norm_map_pre(inner);
                lemma_add_norm_map_apply(d.take(n as int), inner);
                lemma_add_norm_map_apply(d.skip(n as int), y1);
            },
            _ => {
                lemma_add_norm_atom_apply(d[0], y0);
                lemma_add_norm_map_apply(d.drop_first(), y1);
            },
        }
    }
}

/// Kept atoms at the end of an insertion do nothing.
proof fn lemma_add_strip_apply(d: Seq<DocAtom>, y: Seq<AddAtom>)
    requires
        apply_add_atoms(d, y) is Some,
    ensures
        apply_add_atoms(d, add_strip(y)) == apply_add_atoms(d, y),
    decreases y.len(),
{
    if y.len() > 0 && y.last() is Skip {
        let y1 = y.drop_last();
        assert(y =~= y1 + seq![AddAtom::Skip]);
        crate::laws::lemma_apply_add_len(d, y);
        crate::doc::lemma_add_pre_concat(y1, seq![AddAtom::Skip]);
        lemma_add_pre_first(seq![AddAtom::Skip]);
        assert(seq![AddAtom::Skip].drop_first() =~= Seq::<AddAtom>::empty());
        let n = add_pre(y1) as int;
        assert(d =~= d.take(n) + d.skip(n));
        lemma_apply_add_split(d.take(n), d.skip(n), y1, seq![AddAtom::Skip]);
        let q = d.skip(n);
        assert(q =~= seq![q[0]] + q.drop_first());
        assert(seq![AddAtom::Skip] =~= seq![AddAtom::Skip] + Seq::<AddAtom>::empty());
        lemma_apply_add_step(q[0], AddAtom::Skip, q.drop_first(), Seq::<AddAtom>::empty());
        lemma_apply_add_one(q[0], AddAtom::Skip);
        lemma_apply_add_atoms(q.drop_first(), Seq::<AddAtom>::empty());
        crate::laws::lemma_apply_add_rest(d, y1);
        lemma_add_strip_apply(d, y1);
    }
}

/// An insertion in normal form does what it does.
proof fn lemma_add_norm_seq_apply(d: Seq<DocAtom>, y: Seq<AddAtom>, trim: bool)
    requires
        apply_add_atoms(d, y) is Some,
    ensures
        apply_add_atoms(d, add_norm_seq(y, trim)) == apply_add_atoms(d, y),
    decreases y, 2nat,
{
    lemma_add_norm_map_apply(d, y);
    if trim {
        lemma_add_strip_apply(d, add_norm_map(y));
    }
}

/// Normalizing an operation does not change what it does: wherever an
/// operation applies to a document, its normal form applies too and gives
/// the same document.
pub proof fn normalize_apply(d: Seq<DocAtom>, x: Seq<DelAtom>, y: Seq<AddAtom>)
    requires
        apply_op_atoms(d, x, y) is Some,
    ensures
        apply_op_atoms(d, del_norm_seq(x, true), add_norm_seq(y, true)) == apply_op_atoms(d, x, y),
{
    lemma_del_norm_seq_apply(d, x, true);
    let e = apply_del_atoms(d, x).unwrap();
    lemma_add_norm_seq_apply(e, y, true);
}

} // verus!
