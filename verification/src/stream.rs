//! A document as a flat stream: its characters, and where each group
//! opens and closes.
use crate::doc::{
    doc_atoms, doc_elem_atoms, doc_span_view, doc_span_wf, lemma_doc_span_view, lemma_text_atoms,
    text_atoms, DocAtom, DocElement, DocGroup, DocNode, DocString, DocText,
};
use crate::rtf::{Attrs, StyleSet};
use vstd::prelude::*;

verus! {

/// One item of the stream of a document.
#[derive(Debug, PartialEq)]
pub enum Atom {
    Char(char),
    Enter(Attrs),
    Leave,
}

impl Clone for Atom {
    fn clone(&self) -> (res: Self)
        ensures
            res == *self,
    {
        match self {
            Atom::Char(c) => Atom::Char(*c),
            Atom::Enter(at) => Atom::Enter(at.clone()),
            Atom::Leave => Atom::Leave,
        }
    }
}

/// The stream of one document atom.
pub open spec fn atom_stream(x: DocAtom) -> Seq<Atom>
    decreases x, 0nat,
{
    match x {
        DocAtom::Char(_, c) => seq![Atom::Char(c)],
        DocAtom::Group(at, inner) => seq![Atom::Enter(at)] + stream(inner) + seq![Atom::Leave],
    }
}

/// The stream of a document: each character, and each group as where it
/// opens, what it holds, and where it closes.
pub open spec fn stream(s: Seq<DocAtom>) -> Seq<Atom>
    decreases s, 1nat,
{
    if s.len() == 0 {
        Seq::empty()
    } else {
        proof {
            assert(decreases_to!(s => s[s.len() - 1]));
        }
        stream(s.drop_last()) + atom_stream(s.last())
    }
}

#[verifier::spinoff_prover]
proof fn lemma_stream_concat(a: Seq<DocAtom>, b: Seq<DocAtom>)
    ensures
        stream(a + b) == stream(a) + stream(b),
    decreases b.len(),
{
    if b.len() == 0 {
        assert(a + b =~= a);
        assert(stream(b) =~= Seq::<Atom>::empty());
        assert(stream(a) + stream(b) =~= stream(a));
    } else {
        lemma_stream_concat(a, b.drop_last());
        assert((a + b).drop_last() =~= a + b.drop_last());
        assert((a + b).last() == b.last());
        assert(stream(a + b) == stream((a + b).drop_last()) + atom_stream((a + b).last()));
        assert(stream(b) == stream(b.drop_last()) + atom_stream(b.last()));
        assert(stream(a) + stream(b) =~= stream(a) + stream(b.drop_last()) + atom_stream(b.last()));
    }
}

#[verifier::spinoff_prover]
proof fn lemma_stream_one(x: DocAtom)
    ensures
        stream(seq![x]) == atom_stream(x),
{
    assert(seq![x].drop_last() =~= Seq::<DocAtom>::empty());
    assert(seq![x].last() == x);
    assert(stream(Seq::<DocAtom>::empty()) =~= Seq::<Atom>::empty());
    assert(stream(seq![x]) == stream(seq![x].drop_last()) + atom_stream(seq![x].last()));
    assert(Seq::<Atom>::empty() + atom_stream(x) =~= atom_stream(x));
}

/// Appends the stream of the characters of a run of text.
fn push_chars(out: &mut Vec<Atom>, st: StyleSet, value: &DocString)
    ensures
        final(out)@ == old(out)@ + stream(text_atoms(st, value@)),
{
    let s = value.as_str();
    let n = s.unicode_len();
    let ghost v = value@;
    proof {
        assert(v.take(0) =~= Seq::<char>::empty());
        lemma_text_atoms(st, Seq::<char>::empty());
        assert(stream(text_atoms(st, v.take(0))) =~= Seq::<Atom>::empty());
        assert(old(out)@ + Seq::<Atom>::empty() =~= old(out)@);
    }
    for i in 0..n
        invariant
            n == v.len(),
            s@ == v,
            out@ == old(out)@ + stream(text_atoms(st, v.take(i as int))),
    {
        let c = s.get_char(i);
        proof {
            assert(v.take(i + 1) =~= v.take(i as int).push(c));
            lemma_text_atoms(st, v.take(i + 1));
            lemma_text_atoms(st, v.take(i as int));
            assert(text_atoms(st, v.take(i + 1)) =~= text_atoms(st, v.take(i as int)) + seq![DocAtom::Char(st, c)]);
            lemma_stream_concat(text_atoms(st, v.take(i as int)), seq![DocAtom::Char(st, c)]);
            lemma_stream_one(DocAtom::Char(st, c));
        }
        out.push(Atom::Char(c));
        proof {
            assert(out@ =~= old(out)@ + stream(text_atoms(st, v.take(i + 1))));
        }
    }
    proof {
        assert(v.take(n as int) =~= v);
    }
}

/// The stream of a document span.
pub fn iterate(span: &Vec<DocElement>) -> (res: Vec<Atom>)
    ensures
        res@ == stream(doc_atoms(doc_span_view(span@))),
    decreases span,
{
    let ghost dv = doc_span_view(span@);
    proof {
        lemma_doc_span_view(span@);
    }
    let mut atoms: Vec<Atom> = Vec::new();
    proof {
        assert(dv.take(0) =~= Seq::<DocNode>::empty());
        assert(doc_atoms(dv.take(0)) =~= Seq::<DocAtom>::empty());
        assert(stream(Seq::<DocAtom>::empty()) =~= Seq::<Atom>::empty());
    }
    for i in 0..span.len()
        invariant
            dv == doc_span_view(span@),
            dv.len() == span@.len(),
            forall|j: int| 0 <= j < dv.len() ==> #[trigger] dv[j] == span@[j]@,
            atoms@ == stream(doc_atoms(dv.take(i as int))),
    {
        proof {
            assert(dv.take(i + 1) =~= dv.take(i as int).push(dv[i as int]));
            crate::place::lemma_doc_atoms_push(dv.take(i as int), dv[i as int]);
            lemma_stream_concat(doc_atoms(dv.take(i as int)), doc_elem_atoms(dv[i as int]));
            assert(decreases_to!(span => span@[i as int]));
        }
        match &span[i] {
            DocText(st, value) => {
                push_chars(&mut atoms, *st, value);
            },
            DocGroup(attrs, inner) => {
                proof {
                    assert(decreases_to!(span@[i as int] => *inner));
                    lemma_stream_one(DocAtom::Group(*attrs, doc_atoms(doc_span_view(inner@))));
                }
                atoms.push(Atom::Enter(attrs.clone()));
                let mut sub = iterate(inner);
                atoms.append(&mut sub);
                atoms.push(Atom::Leave);
            },
        }
    }
    proof {
        assert(dv.take(span@.len() as int) =~= dv);
    }
    atoms
}

/// A small document: a line of text, then an empty paragraph.
pub fn simple() -> (res: Vec<DocElement>)
    ensures
        doc_span_wf(doc_span_view(res@)),
        doc_atoms(doc_span_view(res@)) == text_atoms(StyleSet::empty(), "Hello world!"@) + seq![
            DocAtom::Group(Attrs::Para, Seq::empty()),
        ],
{
    let text = DocText(StyleSet::new(), DocString::from_str("Hello world!"));
    let empty: Vec<DocElement> = Vec::new();
    proof {
        assert(doc_span_view(empty@) =~= Seq::<DocNode>::empty());
    }
    let group = DocGroup(Attrs::Para, empty);
    let ghost tv = text@;
    let ghost gv = group@;
    let res = vec![text, group];
    proof {
        reveal_strlit("Hello world!");
        lemma_doc_span_view(res@);
        assert(doc_span_view(res@) =~= seq![tv, gv]);
        assert(seq![tv, gv] =~= seq![tv].push(gv));
        crate::place::lemma_doc_atoms_push(seq![tv], gv);
        crate::doc::lemma_single_atoms(tv, crate::doc::DelNode::Skip(1), crate::doc::AddNode::Skip(1));
    }
    res
}

} // verus!
