//! Random edits of a document: insertions and deletions that apply to it.
use crate::apply::{
    apply_add_atoms, apply_del_atoms, lemma_apply_add_atoms, lemma_apply_add_one,
    lemma_apply_add_run, lemma_apply_add_split, lemma_apply_add_step,
    lemma_apply_add_text_insert, lemma_apply_del_atoms, lemma_apply_del_one, lemma_apply_del_run,
    lemma_apply_del_split, lemma_apply_del_step, lemma_opt_cat_empty,
};
use crate::compose_add::add_write;
use crate::doc::{
    add_atoms, add_elem_atoms, add_pre, add_span_view, add_span_wf, add_text_atoms, del_atoms,
    del_elem_atoms, del_span_view, del_span_wf, doc_atoms, doc_elem_atoms, doc_span_view,
    doc_span_wf, lemma_add_group_wf, lemma_add_pre_concat, lemma_del_group_wf, lemma_repeat,
    lemma_single_atoms, lemma_text_atoms, repeat, text_atoms, AddAtom, AddElement, AddGroup,
    AddNode, AddSkip, AddText, AddWithGroup, DelAtom, DelElement, DelGroup, DelNode, DelSkip,
    DelText, DelWithGroup, DocAtom, DocElement, DocGroup, DocNode, DocString, DocText,
};
use crate::laws::{del_atom_covers, del_covers};
use crate::rtf::{Attrs, StyleSet};
use vstd::prelude::*;

verus! {

// ---------------------------------------------------------------------------
// Chance.

/// `rand::random_range` over `lo..hi`: the contract claims only that the
/// value lies in the range, which must not be empty.
#[verifier::external_body]
fn random_in(lo: usize, hi: usize) -> (r: usize)
    requires
        lo < hi,
    ensures
        lo <= r < hi,
{
    rand::random_range(lo..hi)
}

/// `rand::random_ratio(1, 2)`: either answer may come.
#[verifier::external_body]
fn random_half() -> bool {
    rand::random_ratio(1, 2)
}

/// Whether a character is an ASCII letter or digit.
pub open spec fn is_ascii_alphanumeric(c: char) -> bool {
    let u = c as u32;
    ||| 0x30 <= u <= 0x39
    ||| 0x41 <= u <= 0x5a
    ||| 0x61 <= u <= 0x7a
}

/// A sample of `rand::distr::Alphanumeric` from `rand::rng()`: the
/// contract claims only that it is an ASCII letter or digit.
#[verifier::external_body]
fn random_alphanumeric() -> (c: char)
    ensures
        is_ascii_alphanumeric(c),
{
    rand::RngExt::sample(&mut rand::rng(), rand::distr::Alphanumeric) as char
}

// ---------------------------------------------------------------------------
// What random insertions insert.

/// An atom of a random insertion: a kept atom, an ASCII letter or digit
/// without styles, an empty group, or a kept group with such atoms inside.
pub open spec fn add_random_atom(x: AddAtom) -> bool
    decreases x,
{
    match x {
        AddAtom::Skip => true,
        AddAtom::Text(st, c) => st == StyleSet::empty() && is_ascii_alphanumeric(c),
        AddAtom::Group(_, inner) => inner.len() == 0,
        AddAtom::WithGroup(inner) => forall|i: int| 0 <= i < inner.len() ==> add_random_atom(#[trigger] inner[i]),
        AddAtom::Styles(_) => false,
    }
}

/// Every atom of an insertion is one of a random insertion.
pub open spec fn add_random(a: Seq<AddAtom>) -> bool {
    forall|i: int| 0 <= i < a.len() ==> add_random_atom(#[trigger] a[i])
}

/// The atoms of unstyled letters and digits.
proof fn lemma_add_random_text(t: Seq<char>)
    requires
        forall|i: int| 0 <= i < t.len() ==> is_ascii_alphanumeric(#[trigger] t[i]),
    ensures
        add_random(add_text_atoms(StyleSet::empty(), t)),
    decreases t.len(),
{
    if t.len() > 0 {
        let p = t.drop_last();
        assert forall|i: int| 0 <= i < p.len() implies is_ascii_alphanumeric(#[trigger] p[i]) by {
            assert(p[i] == t[i]);
        }
        lemma_add_random_text(p);
        let r = add_text_atoms(StyleSet::empty(), t);
        assert(r == add_text_atoms(StyleSet::empty(), p).push(crate::doc::add_char_atom(StyleSet::empty(), t.last())));
        assert(is_ascii_alphanumeric(t[t.len() - 1]));
        assert forall|i: int| 0 <= i < r.len() implies add_random_atom(#[trigger] r[i]) by {
            if i < r.len() - 1 {
                assert(r[i] == add_text_atoms(StyleSet::empty(), p)[i]);
            }
        }
    }
}

/// Random insertions one after another.
proof fn lemma_add_random_concat(a: Seq<AddAtom>, b: Seq<AddAtom>)
    requires
        add_random(a),
        add_random(b),
    ensures
        add_random(a + b),
{
    assert forall|i: int| 0 <= i < (a + b).len() implies add_random_atom(#[trigger] (a + b)[i]) by {
        if i < a.len() {
            assert((a + b)[i] == a[i]);
        } else {
            assert((a + b)[i] == b[i - a.len()]);
        }
    }
}

// ---------------------------------------------------------------------------
// Sizes of documents.

pub open spec fn doc_atom_size(x: DocAtom) -> nat
    decreases x,
{
    match x {
        DocAtom::Group(_, inner) => 1 + doc_seq_size(inner),
        _ => 1,
    }
}

/// The number of atoms of a document, those inside groups included.
pub open spec fn doc_seq_size(s: Seq<DocAtom>) -> nat
    decreases s,
{
    if s.len() == 0 {
        0
    } else {
        doc_seq_size(s.drop_last()) + doc_atom_size(s.last())
    }
}

proof fn lemma_doc_size_concat(a: Seq<DocAtom>, b: Seq<DocAtom>)
    ensures
        doc_seq_size(a + b) == doc_seq_size(a) + doc_seq_size(b),
    decreases b.len(),
{
    if b.len() == 0 {
        assert(a + b =~= a);
    } else {
        lemma_doc_size_concat(a, b.drop_last());
        assert((a + b).drop_last() =~= a + b.drop_last());
        assert((a + b).last() == b.last());
        assert(doc_seq_size(a + b) == doc_seq_size((a + b).drop_last()) + doc_atom_size((a + b).last()));
        assert(doc_seq_size(b) == doc_seq_size(b.drop_last()) + doc_atom_size(b.last()));
    }
}

proof fn lemma_doc_size_len(a: Seq<DocAtom>)
    ensures
        doc_seq_size(a) >= a.len(),
    decreases a.len(),
{
    if a.len() > 0 {
        lemma_doc_size_len(a.drop_last());
        assert(doc_seq_size(a) == doc_seq_size(a.drop_last()) + doc_atom_size(a.last()));
        assert(doc_atom_size(a.last()) >= 1);
    }
}

proof fn lemma_doc_size_one(x: DocAtom)
    ensures
        doc_seq_size(seq![x]) == doc_atom_size(x),
{
    assert(seq![x].drop_last() =~= Seq::<DocAtom>::empty());
    assert(seq![x].last() == x);
    assert(doc_seq_size(Seq::<DocAtom>::empty()) == 0);
    assert(doc_seq_size(seq![x]) == doc_seq_size(seq![x].drop_last()) + doc_atom_size(seq![x].last()));
}

/// A run of text has one atom a character.
proof fn lemma_doc_size_text(st: StyleSet, t: Seq<char>)
    ensures
        doc_seq_size(text_atoms(st, t)) == t.len(),
    decreases t.len(),
{
    lemma_text_atoms(st, t);
    if t.len() > 0 {
        lemma_doc_size_text(st, t.drop_last());
        lemma_text_atoms(st, t.drop_last());
        let x = text_atoms(st, t);
        assert(x.drop_last() =~= text_atoms(st, t.drop_last()));
        assert(doc_seq_size(x) == doc_seq_size(x.drop_last()) + doc_atom_size(x.last()));
        assert(x.last() is Char);
    } else {
        assert(text_atoms(st, t) =~= Seq::<DocAtom>::empty());
        assert(doc_seq_size(Seq::<DocAtom>::empty()) == 0);
    }
}

// ---------------------------------------------------------------------------
// Edits that fit a document.

/// An insertion that walks over all of `d` and applies to it.
pub open spec fn add_fits(d: Seq<DocAtom>, a: Seq<AddAtom>) -> bool {
    &&& add_pre(a) == d.len()
    &&& apply_add_atoms(d, a) is Some
}

/// A deletion that reaches each atom of `d`, and each atom of each group
/// that it deletes, and applies to it.
pub open spec fn del_fits(d: Seq<DocAtom>, x: Seq<DelAtom>) -> bool {
    &&& x.len() == d.len()
    &&& apply_del_atoms(d, x) is Some
    &&& del_covers(d, x)
}

proof fn lemma_add_fits_concat(d1: Seq<DocAtom>, d2: Seq<DocAtom>, a1: Seq<AddAtom>, a2: Seq<AddAtom>)
    requires
        add_fits(d1, a1),
        add_fits(d2, a2),
    ensures
        add_fits(d1 + d2, a1 + a2),
{
    lemma_apply_add_split(d1, d2, a1, a2);
    lemma_add_pre_concat(a1, a2);
}

proof fn lemma_del_fits_concat(d1: Seq<DocAtom>, d2: Seq<DocAtom>, x1: Seq<DelAtom>, x2: Seq<DelAtom>)
    requires
        del_fits(d1, x1),
        del_fits(d2, x2),
    ensures
        del_fits(d1 + d2, x1 + x2),
{
    lemma_apply_del_split(d1, d2, x1, x2);
    crate::laws::lemma_del_covers_split(d1, d2, x1, x2);
}

proof fn lemma_add_fits_empty()
    ensures
        add_fits(Seq::<DocAtom>::empty(), Seq::<AddAtom>::empty()),
{
    lemma_apply_add_atoms(Seq::<DocAtom>::empty(), Seq::<AddAtom>::empty());
    assert(add_pre(Seq::<AddAtom>::empty()) == 0);
}

proof fn lemma_del_fits_empty()
    ensures
        del_fits(Seq::<DocAtom>::empty(), Seq::<DelAtom>::empty()),
{
    lemma_apply_del_atoms(Seq::<DocAtom>::empty(), Seq::<DelAtom>::empty());
}

/// Runs of kept or deleted characters over text.
proof fn lemma_del_fits_run(st: StyleSet, t: Seq<char>, x: DelAtom)
    requires
        x is Skip || x is Text,
    ensures
        del_fits(text_atoms(st, t), repeat(x, t.len())),
    decreases t.len(),
{
    lemma_apply_del_run(st, t, x);
    lemma_text_atoms(st, t);
    lemma_repeat(x, t.len());
    lemma_del_covers_flat(text_atoms(st, t), repeat(x, t.len()));
}

/// A deletion outside groups reaches all it meets.
proof fn lemma_del_covers_flat(d: Seq<DocAtom>, x: Seq<DelAtom>)
    requires
        forall|i: int| 0 <= i < x.len() ==> !(#[trigger] x[i] is Group) && !(x[i] is WithGroup),
    ensures
        del_covers(d, x),
    decreases x.len(),
{
    if x.len() > 0 && d.len() > 0 {
        assert forall|i: int| 0 <= i < x.drop_first().len() implies !(#[trigger] x.drop_first()[i] is Group)
            && !(x.drop_first()[i] is WithGroup) by {
            assert(x.drop_first()[i] == x[i + 1]);
        }
        lemma_del_covers_flat(d.drop_first(), x.drop_first());
        assert(del_atom_covers(d[0], x[0]));
    }
}

// ---------------------------------------------------------------------------
// Random insertions.

/// A word of `len` random ASCII letters and digits.
fn random_word(len: usize) -> (res: DocString)
    ensures
        res@.len() == len,
        forall|i: int| 0 <= i < res@.len() ==> is_ascii_alphanumeric(#[trigger] res@[i]),
{
    let mut v: Vec<char> = Vec::new();
    for i in 0..len
        invariant
            v@.len() == i,
            forall|k: int| 0 <= k < v@.len() ==> is_ascii_alphanumeric(#[trigger] v@[k]),
    {
        v.push(random_alphanumeric());
    }
    DocString::from_string(crate::parse::string_of(&v))
}

/// What can be inserted where an insertion skips: text, or an empty group.
proof fn lemma_add_fits_insert(e: AddNode)
    requires
        e is Text || (e matches AddNode::Group(_, span) && span.len() == 0),
    ensures
        add_fits(Seq::<DocAtom>::empty(), add_elem_atoms(e)),
{
    lemma_apply_add_atoms(Seq::<DocAtom>::empty(), Seq::<AddAtom>::empty());
    assert(add_pre(Seq::<AddAtom>::empty()) == 0);
    match e {
        AddNode::Text(st, v) => {
            lemma_apply_add_text_insert(st, v, Seq::<DocAtom>::empty(), Seq::<AddAtom>::empty());
            assert(add_text_atoms(st, v) + Seq::<AddAtom>::empty() =~= add_text_atoms(st, v));
            assert(text_atoms(st, v) + Seq::<DocAtom>::empty() =~= text_atoms(st, v));
        },
        AddNode::Group(at, span) => {
            assert(crate::doc::add_atoms(span) =~= Seq::<AddAtom>::empty());
            crate::apply::lemma_apply_add_group(at, Seq::<AddAtom>::empty(), Seq::<DocAtom>::empty(), Seq::<AddAtom>::empty());
            let one = seq![AddAtom::Group(at, Seq::<AddAtom>::empty())];
            assert(one + Seq::<AddAtom>::empty() =~= one);
            assert(Seq::<DocAtom>::empty().take(0) =~= Seq::<DocAtom>::empty());
            assert(Seq::<DocAtom>::empty().skip(0) =~= Seq::<DocAtom>::empty());
            let g = seq![DocAtom::Group(at, Seq::<DocAtom>::empty())];
            assert(g + Seq::<DocAtom>::empty() =~= g);
        },
        _ => {},
    }
}

/// Random kept runs over the text `value`, each but the last followed, and
/// the last maybe followed, by inserted text or an inserted empty group.
#[verifier::rlimit(80)]
fn random_add_text(
    res: &mut Vec<AddElement>,
    st: StyleSet,
    value: &DocString,
    Ghost(prefix): Ghost<Seq<DocAtom>>,
    Ghost(bound): Ghost<nat>,
)
    requires
        add_span_wf(add_span_view(old(res)@)),
        add_fits(prefix, add_atoms(add_span_view(old(res)@))),
        add_atoms(add_span_view(old(res)@)).len() + 5 * value@.len() <= bound,
        bound <= usize::MAX,
    ensures
        add_span_wf(add_span_view(final(res)@)),
        add_fits(prefix + text_atoms(st, value@), add_atoms(add_span_view(final(res)@))),
        add_atoms(add_span_view(final(res)@)).len() <= add_atoms(add_span_view(old(res)@)).len() + 5
            * value@.len(),
        add_random(add_atoms(add_span_view(old(res)@))) ==> add_random(add_atoms(add_span_view(final(res)@))),
{
    let ghost start = add_atoms(add_span_view(res@));
    let max = value.char_len();
    let ghost v = value@;
    let ghost r0 = add_atoms(add_span_view(res@)).len();
    let mut n: usize = 0;
    proof {
        assert(v.take(0) =~= Seq::<char>::empty());
        lemma_text_atoms(st, Seq::<char>::empty());
        assert(prefix + text_atoms(st, v.take(0)) =~= prefix);
    }
    while n < max
        invariant
            max == v.len(),
            n <= max,
            add_span_wf(add_span_view(res@)),
            add_fits(prefix + text_atoms(st, v.take(n as int)), add_atoms(add_span_view(res@))),
            add_atoms(add_span_view(res@)).len() <= r0 + 5 * n,
            r0 + 5 * max <= bound,
            bound <= usize::MAX,
            add_random(start) ==> add_random(add_atoms(add_span_view(res@))),
        decreases max - n,
    {
        let ghost before = add_atoms(add_span_view(res@));
        let slice = random_in(1, max - n + 1);
        let ghost sub = v.subrange(n as int, n + slice);
        proof {
            lemma_repeat(AddAtom::Skip, slice as nat);
            lemma_apply_add_run(st, sub, AddAtom::Skip);
            lemma_text_atoms(st, sub);
            assert(sub.len() == slice);
            assert(v.take(n + slice) =~= v.take(n as int) + sub);
            crate::place::lemma_text_atoms_concat(st, v.take(n as int), sub);
            lemma_add_fits_concat(prefix + text_atoms(st, v.take(n as int)), text_atoms(st, sub), before, repeat(AddAtom::Skip, slice as nat));
            assert(prefix + text_atoms(st, v.take(n as int)) + text_atoms(st, sub) =~= prefix + text_atoms(st, v.take(n + slice)));
        }
        proof {
            assert(add_random(repeat(AddAtom::Skip, slice as nat)));
            if add_random(before) {
                lemma_add_random_concat(before, repeat(AddAtom::Skip, slice as nat));
            }
        }
        add_write(res, AddSkip(slice), Ghost(bound));
        n = n + slice;
        if n < max || random_half() {
            let ghost mid = add_atoms(add_span_view(res@));
            let e = if random_half() {
                let len = random_in(1, 5);
                AddText(StyleSet::new(), random_word(len))
            } else {
                let empty: Vec<AddElement> = Vec::new();
                proof {
                    assert(add_span_view(empty@) =~= Seq::<AddNode>::empty());
                }
                AddGroup(Attrs::Para, empty)
            };
            proof {
                lemma_add_group_wf(e@);
                lemma_add_fits_insert(e@);
                lemma_text_atoms(StyleSet::empty(), e@->Text_1);
                lemma_add_fits_concat(prefix + text_atoms(st, v.take(n as int)), Seq::<DocAtom>::empty(), mid, add_elem_atoms(e@));
                match e@ {
                    AddNode::Text(_, w) => {
                        lemma_add_random_text(w);
                    },
                    _ => {
                        assert(add_random_atom(add_elem_atoms(e@)[0]));
                    },
                }
                if add_random(mid) {
                    lemma_add_random_concat(mid, add_elem_atoms(e@));
                }
                assert(prefix + text_atoms(st, v.take(n as int)) + Seq::<DocAtom>::empty() =~= prefix + text_atoms(st, v.take(n as int)));
            }
            add_write(res, e, Ghost(bound));
        }
    }
    proof {
        assert(v.take(max as int) =~= v);
    }
}

/// A random insertion that applies to the document span `input`: kept runs
/// over its text with text or empty groups inserted after them, and each
/// group kept as it is or with a random insertion inside.
pub fn random_add_span(input: &Vec<DocElement>) -> (res: Vec<AddElement>)
    requires
        doc_span_wf(doc_span_view(input@)),
        5 * doc_seq_size(doc_atoms(doc_span_view(input@))) <= usize::MAX,
    ensures
        add_span_wf(add_span_view(res@)),
        add_fits(doc_atoms(doc_span_view(input@)), add_atoms(add_span_view(res@))),
        add_atoms(add_span_view(res@)).len() <= 5 * doc_seq_size(doc_atoms(doc_span_view(input@))),
        add_random(add_atoms(add_span_view(res@))),
    decreases input,
{
    let ghost dv = doc_span_view(input@);
    let ghost bound = 5 * doc_seq_size(doc_atoms(dv));
    proof {
        crate::doc::lemma_doc_span_view(input@);
    }
    let mut res: Vec<AddElement> = Vec::new();
    proof {
        assert(add_span_view(res@) =~= Seq::<AddNode>::empty());
        assert(add_atoms(add_span_view(res@)) =~= Seq::<AddAtom>::empty());
        assert(dv.take(0) =~= Seq::<DocNode>::empty());
        assert(doc_atoms(dv.take(0)) =~= Seq::<DocAtom>::empty());
        lemma_add_fits_empty();
    }
    for i in 0..input.len()
        invariant
            dv == doc_span_view(input@),
            dv.len() == input@.len(),
            forall|j: int| 0 <= j < dv.len() ==> #[trigger] dv[j] == input@[j]@,
            doc_span_wf(dv),
            bound == 5 * doc_seq_size(doc_atoms(dv)),
            bound <= usize::MAX,
            add_span_wf(add_span_view(res@)),
            add_fits(doc_atoms(dv.take(i as int)), add_atoms(add_span_view(res@))),
            add_atoms(add_span_view(res@)).len() <= 5 * doc_seq_size(doc_atoms(dv.take(i as int))),
            add_random(add_atoms(add_span_view(res@))),
    {
        let ghost pre = doc_atoms(dv.take(i as int));
        let ghost here = doc_elem_atoms(dv[i as int]);
        proof {
            assert(dv.take(i + 1) =~= dv.take(i as int).push(dv[i as int]));
            crate::place::lemma_doc_atoms_push(dv.take(i as int), dv[i as int]);
            crate::doc::lemma_doc_atoms_concat(dv.take(i + 1), dv.skip(i + 1));
            assert(dv.take(i + 1) + dv.skip(i + 1) =~= dv);
            lemma_doc_size_concat(doc_atoms(dv.take(i + 1)), doc_atoms(dv.skip(i + 1)));
            lemma_doc_size_concat(pre, here);
            assert(crate::doc::doc_elem_wf(dv[i as int]));
            assert(decreases_to!(input => input@[i as int]));
        }
        match &input[i] {
            DocText(st, value) => {
                proof {
                    lemma_doc_size_text(*st, value@);
                }
                random_add_text(&mut res, *st, value, Ghost(pre), Ghost(bound));
            },
            DocGroup(at, span) => {
                let ghost g = doc_atoms(doc_span_view(span@));
                let ghost before = add_atoms(add_span_view(res@));
                proof {
                    crate::doc::lemma_doc_group_wf(dv[i as int]);
                    lemma_doc_size_one(DocAtom::Group(*at, g));
                    assert(decreases_to!(input@[i as int] => *span));
                }
                let e = if random_half() {
                    let inner = random_add_span(span);
                    AddWithGroup(inner)
                } else {
                    AddSkip(1)
                };
                proof {
                    lemma_add_group_wf(e@);
                    lemma_repeat(AddAtom::Skip, 1);
                    lemma_add_fits_group(*at, g, e@);
                    lemma_add_fits_concat(pre, here, before, add_elem_atoms(e@));
                    crate::compose_add::lemma_add_elem_atoms_len(e@);
                    assert(add_random_atom(add_elem_atoms(e@)[0]));
                    lemma_add_random_concat(before, add_elem_atoms(e@));
                }
                add_write(&mut res, e, Ghost(bound));
            },
        }
    }
    proof {
        assert(dv.take(input@.len() as int) =~= dv);
    }
    res
}

/// A group kept as it is, or with an insertion that fits its contents.
proof fn lemma_add_fits_group(at: Attrs, g: Seq<DocAtom>, e: AddNode)
    requires
        e == AddNode::Skip(1) || (e matches AddNode::WithGroup(span) && add_fits(g, crate::doc::add_atoms(span))),
    ensures
        add_fits(seq![DocAtom::Group(at, g)], add_elem_atoms(e)),
{
    let d = DocAtom::Group(at, g);
    match e {
        AddNode::Skip(_) => {
            lemma_repeat(AddAtom::Skip, 1);
            assert(repeat(AddAtom::Skip, 1) =~= seq![AddAtom::Skip]);
            lemma_single_add(d, AddAtom::Skip);
            lemma_apply_add_one(d, AddAtom::Skip);
        },
        AddNode::WithGroup(span) => {
            lemma_single_add(d, AddAtom::WithGroup(crate::doc::add_atoms(span)));
            lemma_apply_add_one(d, AddAtom::WithGroup(crate::doc::add_atoms(span)));
        },
        _ => {},
    }
}

/// An insertion atom that walks over one atom, against a single document
/// atom.
proof fn lemma_single_add(z: DocAtom, y: AddAtom)
    requires
        y is Skip || y is Styles || y is WithGroup,
    ensures
        apply_add_atoms(seq![z], seq![y]) == crate::apply::apply_add_one(z, y),
        add_pre(seq![y]) == 1,
{
    lemma_apply_add_step(z, y, Seq::<DocAtom>::empty(), Seq::<AddAtom>::empty());
    assert(seq![z] + Seq::<DocAtom>::empty() =~= seq![z]);
    assert(seq![y] + Seq::<AddAtom>::empty() =~= seq![y]);
    lemma_apply_add_atoms(Seq::<DocAtom>::empty(), Seq::<AddAtom>::empty());
    lemma_opt_cat_empty(crate::apply::apply_add_one(z, y));
    assert(add_pre(Seq::<AddAtom>::empty()) == 0);
}

// ---------------------------------------------------------------------------
// Random deletions.

/// Pushes a deletion element, with nothing merged.
fn del_push(res: &mut Vec<DelElement>, e: DelElement)
    requires
        del_span_wf(del_span_view(old(res)@)),
        crate::doc::del_elem_wf(e@),
    ensures
        del_span_wf(del_span_view(final(res)@)),
        del_atoms(del_span_view(final(res)@)) == del_atoms(del_span_view(old(res)@)) + del_elem_atoms(e@),
{
    let ghost s = del_span_view(res@);
    let ghost ev = e@;
    res.push(e);
    proof {
        crate::doc::lemma_del_span_view(res@);
        assert(del_span_view(res@) =~= s.push(ev)) by {
            crate::doc::lemma_del_span_view(old(res)@);
        }
        crate::place::lemma_del_atoms_push(s, ev);
        assert forall|j: int| 0 <= j < s.push(ev).len() implies #[trigger] crate::doc::del_elem_wf(s.push(ev)[j]) by {
            if j < s.len() {
                assert(s.push(ev)[j] == s[j]);
            }
        }
    }
}

/// A run of `k` atoms of kind `x` over the characters `sub` of a text.
proof fn lemma_del_fits_step(
    prefix: Seq<DocAtom>,
    st: StyleSet,
    done: Seq<char>,
    sub: Seq<char>,
    x: DelAtom,
    r: Seq<DelAtom>,
)
    requires
        x is Skip || x is Text,
        del_fits(prefix + text_atoms(st, done), r),
    ensures
        del_fits(prefix + text_atoms(st, done + sub), r + repeat(x, sub.len())),
{
    lemma_del_fits_run(st, sub, x);
    lemma_del_fits_concat(prefix + text_atoms(st, done), text_atoms(st, sub), r, repeat(x, sub.len()));
    crate::place::lemma_text_atoms_concat(st, done, sub);
    assert(prefix + text_atoms(st, done) + text_atoms(st, sub) =~= prefix + text_atoms(st, done + sub));
}

/// Random kept and deleted runs over the text `value`, the last character
/// of each run of more than one deleted.
#[verifier::rlimit(80)]
fn random_del_text(
    res: &mut Vec<DelElement>,
    st: StyleSet,
    value: &DocString,
    Ghost(prefix): Ghost<Seq<DocAtom>>,
)
    requires
        del_span_wf(del_span_view(old(res)@)),
        del_fits(prefix, del_atoms(del_span_view(old(res)@))),
    ensures
        del_span_wf(del_span_view(final(res)@)),
        del_fits(prefix + text_atoms(st, value@), del_atoms(del_span_view(final(res)@))),
        del_atoms(del_span_view(final(res)@)).len() == del_atoms(del_span_view(old(res)@)).len() + value@.len(),
        del_atoms(del_span_view(final(res)@)).take(del_atoms(del_span_view(old(res)@)).len() as int)
            == del_atoms(del_span_view(old(res)@)),
        value@.len() > 0 ==> del_atoms(del_span_view(final(res)@))[del_atoms(
            del_span_view(old(res)@),
        ).len() as int] is Skip,
{
    let ghost r0 = del_atoms(del_span_view(res@));
    let max = value.char_len();
    let ghost v = value@;
    let mut n: usize = 0;
    proof {
        assert(v.take(0) =~= Seq::<char>::empty());
        lemma_text_atoms(st, Seq::<char>::empty());
        assert(prefix + text_atoms(st, v.take(0)) =~= prefix);
    }
    while n < max
        invariant
            max == v.len(),
            n <= max,
            del_span_wf(del_span_view(res@)),
            del_fits(prefix + text_atoms(st, v.take(n as int)), del_atoms(del_span_view(res@))),
            del_atoms(del_span_view(res@)).len() == r0.len() + n,
            del_atoms(del_span_view(res@)).take(r0.len() as int) == r0,
            n > 0 ==> del_atoms(del_span_view(res@))[r0.len() as int] is Skip,
        decreases max - n,
    {
        if max - n == 1 {
            let ghost r = del_atoms(del_span_view(res@));
            proof {
                lemma_del_fits_step(prefix, st, v.take(n as int), v.subrange(n as int, n + 1), DelAtom::Skip, r);
                assert(v.take(n as int) + v.subrange(n as int, n + 1) =~= v.take(n + 1));
            }
            del_push(res, DelSkip(1));
            proof {
                lemma_repeat(DelAtom::Skip, 1);
                let r2 = del_atoms(del_span_view(res@));
                assert(r2.take(r0.len() as int) =~= r.take(r0.len() as int));
                if n == 0 {
                    assert(r2[r0.len() as int] == repeat(DelAtom::Skip, 1)[0]);
                } else {
                    assert(r2[r0.len() as int] == r[r0.len() as int]);
                }
            }
            n = n + 1;
        } else {
            let slice = random_in(1, max - n) + 1;
            let keep = if slice == 2 {
                1
            } else {
                random_in(1, slice - 1)
            };
            let ghost r = del_atoms(del_span_view(res@));
            let ghost a = v.subrange(n as int, n + keep);
            let ghost b = v.subrange(n + keep, n + slice);
            proof {
                lemma_del_fits_step(prefix, st, v.take(n as int), a, DelAtom::Skip, r);
                assert(v.take(n as int) + a =~= v.take(n + keep));
                lemma_del_fits_step(prefix, st, v.take(n + keep), b, DelAtom::Text, r + repeat(DelAtom::Skip, keep as nat));
                assert(v.take(n + keep) + b =~= v.take(n + slice));
            }
            del_push(res, DelSkip(keep));
            del_push(res, DelText(slice - keep));
            proof {
                lemma_repeat(DelAtom::Skip, keep as nat);
                lemma_repeat(DelAtom::Text, (slice - keep) as nat);
                let r2 = del_atoms(del_span_view(res@));
                assert(r2 == r + repeat(DelAtom::Skip, keep as nat) + repeat(DelAtom::Text, (slice - keep) as nat));
                assert(r2.take(r0.len() as int) =~= r.take(r0.len() as int));
                if n == 0 {
                    assert(r2[r0.len() as int] == repeat(DelAtom::Skip, keep as nat)[0]);
                } else {
                    assert(r2[r0.len() as int] == r[r0.len() as int]);
                }
                assert(a.len() == keep);
                assert(b.len() == slice - keep);
            }
            n = n + slice;
        }
    }
    proof {
        assert(v.take(max as int) =~= v);
    }
}

/// A group kept as it is, kept with a deletion inside, or deleted with a
/// deletion of its contents.
proof fn lemma_del_fits_group(at: Attrs, g: Seq<DocAtom>, e: DelNode)
    requires
        e == DelNode::Skip(1) || (e matches DelNode::WithGroup(span) && del_fits(g, del_atoms(span)))
            || (e matches DelNode::Group(span) && del_fits(g, del_atoms(span))),
    ensures
        del_fits(seq![DocAtom::Group(at, g)], del_elem_atoms(e)),
{
    let d = DocAtom::Group(at, g);
    let y = match e {
        DelNode::WithGroup(span) => DelAtom::WithGroup(del_atoms(span)),
        DelNode::Group(span) => DelAtom::Group(del_atoms(span)),
        _ => DelAtom::Skip,
    };
    if e is Skip {
        lemma_repeat(DelAtom::Skip, 1);
        assert(repeat(DelAtom::Skip, 1) =~= seq![DelAtom::Skip]);
    }
    assert(del_elem_atoms(e) == seq![y]);
    lemma_apply_del_step(d, y, Seq::<DocAtom>::empty(), Seq::<DelAtom>::empty());
    assert(seq![d] + Seq::<DocAtom>::empty() =~= seq![d]);
    assert(seq![y] + Seq::<DelAtom>::empty() =~= seq![y]);
    lemma_apply_del_atoms(Seq::<DocAtom>::empty(), Seq::<DelAtom>::empty());
    lemma_apply_del_one(d, y);
    lemma_opt_cat_empty(crate::apply::apply_del_one(d, y));
    assert(seq![d][0] == d);
    assert(seq![y][0] == y);
    assert(seq![d].drop_first() =~= Seq::<DocAtom>::empty());
    assert(seq![y].drop_first() =~= Seq::<DelAtom>::empty());
    assert(del_atom_covers(d, y));
    assert(del_covers(Seq::<DocAtom>::empty(), Seq::<DelAtom>::empty()));
}

/// A random deletion that applies to the document span `input`: kept and
/// deleted runs over its text, and each group kept as it is, kept with a
/// random deletion inside, or deleted with a random deletion of its
/// contents; it reaches all of each group it deletes.
pub fn random_del_span(input: &Vec<DocElement>) -> (res: Vec<DelElement>)
    requires
        doc_span_wf(doc_span_view(input@)),
        doc_seq_size(doc_atoms(doc_span_view(input@))) <= usize::MAX,
    ensures
        del_span_wf(del_span_view(res@)),
        del_fits(doc_atoms(doc_span_view(input@)), del_atoms(del_span_view(res@))),
        forall|k: int|
            0 <= k < input@.len() && #[trigger] doc_span_view(input@)[k] is Text ==> doc_atoms(
                doc_span_view(input@).take(k),
            ).len() < del_atoms(del_span_view(res@)).len() && del_atoms(del_span_view(res@))[doc_atoms(
                doc_span_view(input@).take(k),
            ).len() as int] is Skip,
    decreases input,
{
    let ghost dv = doc_span_view(input@);
    proof {
        crate::doc::lemma_doc_span_view(input@);
    }
    let mut res: Vec<DelElement> = Vec::new();
    proof {
        assert(del_span_view(res@) =~= Seq::<DelNode>::empty());
        assert(del_atoms(del_span_view(res@)) =~= Seq::<DelAtom>::empty());
        assert(dv.take(0) =~= Seq::<DocNode>::empty());
        assert(doc_atoms(dv.take(0)) =~= Seq::<DocAtom>::empty());
        lemma_del_fits_empty();
    }
    for i in 0..input.len()
        invariant
            dv == doc_span_view(input@),
            dv.len() == input@.len(),
            forall|j: int| 0 <= j < dv.len() ==> #[trigger] dv[j] == input@[j]@,
            doc_span_wf(dv),
            doc_seq_size(doc_atoms(dv)) <= usize::MAX,
            del_span_wf(del_span_view(res@)),
            del_fits(doc_atoms(dv.take(i as int)), del_atoms(del_span_view(res@))),
            del_atoms(del_span_view(res@)).len() == doc_atoms(dv.take(i as int)).len(),
            forall|k: int|
                0 <= k < i && #[trigger] dv[k] is Text ==> doc_atoms(dv.take(k)).len() < del_atoms(
                    del_span_view(res@),
                ).len() && del_atoms(del_span_view(res@))[doc_atoms(dv.take(k)).len() as int] is Skip,
    {
        let ghost before_all = del_atoms(del_span_view(res@));
        let ghost pre = doc_atoms(dv.take(i as int));
        let ghost here = doc_elem_atoms(dv[i as int]);
        proof {
            assert(dv.take(i + 1) =~= dv.take(i as int).push(dv[i as int]));
            crate::place::lemma_doc_atoms_push(dv.take(i as int), dv[i as int]);
            crate::doc::lemma_doc_atoms_concat(dv.take(i + 1), dv.skip(i + 1));
            assert(dv.take(i + 1) + dv.skip(i + 1) =~= dv);
            lemma_doc_size_concat(doc_atoms(dv.take(i + 1)), doc_atoms(dv.skip(i + 1)));
            lemma_doc_size_concat(pre, here);
            lemma_doc_size_len(doc_atoms(dv.take(i + 1)));
            assert(crate::doc::doc_elem_wf(dv[i as int]));
            assert(decreases_to!(input => input@[i as int]));
        }
        match &input[i] {
            DocText(st, value) => {
                random_del_text(&mut res, *st, value, Ghost(pre));
                proof {
                    lemma_text_atoms(*st, value@);
                    assert(crate::doc::doc_elem_wf(dv[i as int]));
                    let r2 = del_atoms(del_span_view(res@));
                    assert forall|k: int| 0 <= k < i + 1 && #[trigger] dv[k] is Text implies doc_atoms(dv.take(k)).len() < r2.len()
                        && r2[doc_atoms(dv.take(k)).len() as int] is Skip by {
                        if k < i {
                            let idx = doc_atoms(dv.take(k)).len() as int;
                            assert(r2.take(before_all.len() as int)[idx] == r2[idx]);
                        }
                    }
                }
            },
            DocGroup(at, span) => {
                let ghost g = doc_atoms(doc_span_view(span@));
                let ghost before = del_atoms(del_span_view(res@));
                proof {
                    crate::doc::lemma_doc_group_wf(dv[i as int]);
                    lemma_doc_size_one(DocAtom::Group(*at, g));
                    assert(decreases_to!(input@[i as int] => *span));
                }
                let choice = random_in(0, 3);
                let e = if choice == 0 {
                    DelWithGroup(random_del_span(span))
                } else if choice == 1 {
                    DelGroup(random_del_span(span))
                } else {
                    DelSkip(1)
                };
                proof {
                    lemma_del_group_wf(e@);
                    lemma_del_fits_group(*at, g, e@);
                    lemma_del_fits_concat(pre, here, before, del_elem_atoms(e@));
                    crate::compose::lemma_del_elem_atoms_len(e@);
                    crate::place::lemma_del_place_ok(del_span_view(res@), e@);
                    crate::place::lemma_del_place_atoms(del_span_view(res@), e@);
                }
                crate::place::DelPlaceable::place(&mut res, &e);
                proof {
                    let r2 = del_atoms(del_span_view(res@));
                    assert(r2 == before_all + del_elem_atoms(e@));
                    assert forall|k: int| 0 <= k < i + 1 && #[trigger] dv[k] is Text implies doc_atoms(dv.take(k)).len() < r2.len()
                        && r2[doc_atoms(dv.take(k)).len() as int] is Skip by {
                        let idx = doc_atoms(dv.take(k)).len() as int;
                        assert(r2[idx] == before_all[idx]);
                    }
                }
            },
        }
    }
    proof {
        assert(dv.take(input@.len() as int) =~= dv);
    }
    res
}

} // verus!
