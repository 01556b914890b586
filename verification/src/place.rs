//! Placing elements at the end of spans, merging them into the last element
//! where both are runs of the same kind, and the lengths of spans.
use crate::doc::{
    clone_add_elem, clone_cur_elem, clone_del_elem, clone_doc_elem, lemma_add_atoms_concat,
    lemma_add_span_view, lemma_add_view_push, lemma_add_view_subrange, lemma_cur_atoms_concat,
    lemma_cur_span_view, lemma_cur_view_push, lemma_cur_view_subrange, lemma_del_atoms_concat,
    lemma_del_span_view, lemma_del_view_push, lemma_del_view_subrange, lemma_doc_atoms_concat,
    lemma_doc_span_view, lemma_doc_view_push, lemma_doc_view_subrange, lemma_repeat,
    lemma_text_atoms, add_span_view, cur_span_view, del_span_view, doc_span_view, AddElement,
    CurElement, DelElement, DocElement, DocGroup, DocText, DelSkip, DelText, DelStyles, DelGroup,
    DelWithGroup, lemma_del_post_concat, lemma_del_post_repeat, del_post, del_atom_post,
    lemma_del_view_update, lemma_add_view_update, lemma_cur_view_update, AddSkip, AddText,
    AddStyles, AddGroup, AddWithGroup, CurSkip, CurGroup, CurChar, CurWithGroup, add_pre,
    add_atom_pre, lemma_add_pre_concat, lemma_add_pre_repeat, lemma_add_pre_text,
    add_atoms, add_elem_atoms, add_text_atoms, cur_atoms, cur_elem_atoms, del_atoms,
    del_elem_atoms, doc_atoms, doc_elem_atoms, repeat, text_atoms, AddAtom, CurAtom, DelAtom,
    AddNode, CurNode, DelNode, DocNode, doc_elem_wf, doc_span_wf, del_elem_wf, del_span_wf,
    add_elem_wf, add_span_wf,
};
use crate::rtf::StyleSet;
use vstd::prelude::*;

verus! {

// ---------------------------------------------------------------------------
// Placement, stated over values.

/// `s` with `e` placed at its end.
pub open spec fn doc_place_spec(s: Seq<DocNode>, e: DocNode) -> Seq<DocNode> {
    if s.len() == 0 {
        s.push(e)
    } else {
        match (s.last(), e) {
            (DocNode::Text(lst, ltext), DocNode::Text(st, text)) => if lst == st {
                s.drop_last().push(DocNode::Text(st, ltext + text))
            } else {
                s.push(e)
            },
            _ => s.push(e),
        }
    }
}

pub open spec fn del_place_spec(s: Seq<DelNode>, e: DelNode) -> Seq<DelNode> {
    if s.len() == 0 {
        s.push(e)
    } else {
        match (s.last(), e) {
            (DelNode::Text(m), DelNode::Text(n)) => s.drop_last().push(DelNode::Text(m + n)),
            (DelNode::Skip(m), DelNode::Skip(n)) => s.drop_last().push(DelNode::Skip(m + n)),
            (DelNode::Styles(m, lst), DelNode::Styles(n, st)) => if lst == st {
                s.drop_last().push(DelNode::Styles(m + n, st))
            } else {
                s.push(e)
            },
            _ => s.push(e),
        }
    }
}

pub open spec fn add_place_spec(s: Seq<AddNode>, e: AddNode) -> Seq<AddNode> {
    if s.len() == 0 {
        s.push(e)
    } else {
        match (s.last(), e) {
            (AddNode::Text(lst, ltext), AddNode::Text(st, text)) => if lst == st {
                s.drop_last().push(AddNode::Text(st, ltext + text))
            } else {
                s.push(e)
            },
            (AddNode::Skip(m), AddNode::Skip(n)) => s.drop_last().push(AddNode::Skip(m + n)),
            (AddNode::Styles(m, lst), AddNode::Styles(n, st)) => if lst == st {
                s.drop_last().push(AddNode::Styles(m + n, st))
            } else {
                s.push(e)
            },
            _ => s.push(e),
        }
    }
}

pub open spec fn cur_place_spec(s: Seq<CurNode>, e: CurNode) -> Seq<CurNode> {
    if s.len() == 0 {
        s.push(e)
    } else {
        match (s.last(), e) {
            (CurNode::Skip(m), CurNode::Skip(n)) => s.drop_last().push(CurNode::Skip(m + n)),
            _ => s.push(e),
        }
    }
}

/// The count of a counted element.
pub open spec fn del_count(e: DelNode) -> nat {
    match e {
        DelNode::Skip(n) => n,
        DelNode::Text(n) => n,
        DelNode::Styles(n, _) => n,
        _ => 0,
    }
}

pub open spec fn add_count(e: AddNode) -> nat {
    match e {
        AddNode::Skip(n) => n,
        AddNode::Styles(n, _) => n,
        _ => 0,
    }
}

pub open spec fn cur_count(e: CurNode) -> nat {
    match e {
        CurNode::Skip(n) => n,
        _ => 0,
    }
}

/// An element may be placed: a count or a run at its top is not empty, and a
/// merged count fits a `usize`.
pub open spec fn doc_place_ok(s: Seq<DocNode>, e: DocNode) -> bool {
    match e {
        DocNode::Text(_, text) => text.len() > 0,
        _ => true,
    }
}

pub open spec fn del_place_ok(s: Seq<DelNode>, e: DelNode) -> bool {
    match e {
        DelNode::Text(n) | DelNode::Skip(n) | DelNode::Styles(n, _) => n > 0 && del_count(
            del_place_spec(s, e).last(),
        ) <= usize::MAX,
        _ => true,
    }
}

pub open spec fn add_place_ok(s: Seq<AddNode>, e: AddNode) -> bool {
    match e {
        AddNode::Text(_, text) => text.len() > 0,
        AddNode::Skip(n) | AddNode::Styles(n, _) => n > 0 && add_count(
            add_place_spec(s, e).last(),
        ) <= usize::MAX,
        _ => true,
    }
}

pub open spec fn cur_place_ok(s: Seq<CurNode>, e: CurNode) -> bool {
    match e {
        CurNode::Skip(n) => n > 0 && cur_count(cur_place_spec(s, e).last()) <= usize::MAX,
        _ => true,
    }
}

/// `s` with every element of `all` placed, in order.
pub open spec fn doc_place_all_spec(s: Seq<DocNode>, all: Seq<DocNode>) -> Seq<DocNode>
    decreases all.len(),
{
    if all.len() == 0 {
        s
    } else {
        doc_place_spec(doc_place_all_spec(s, all.drop_last()), all.last())
    }
}

pub open spec fn doc_place_all_ok(s: Seq<DocNode>, all: Seq<DocNode>) -> bool
    decreases all.len(),
{
    if all.len() == 0 {
        true
    } else {
        doc_place_all_ok(s, all.drop_last()) && doc_place_ok(
            doc_place_all_spec(s, all.drop_last()),
            all.last(),
        )
    }
}

pub open spec fn del_place_all_spec(s: Seq<DelNode>, all: Seq<DelNode>) -> Seq<DelNode>
    decreases all.len(),
{
    if all.len() == 0 {
        s
    } else {
        del_place_spec(del_place_all_spec(s, all.drop_last()), all.last())
    }
}

pub open spec fn del_place_all_ok(s: Seq<DelNode>, all: Seq<DelNode>) -> bool
    decreases all.len(),
{
    if all.len() == 0 {
        true
    } else {
        del_place_all_ok(s, all.drop_last()) && del_place_ok(
            del_place_all_spec(s, all.drop_last()),
            all.last(),
        )
    }
}

pub open spec fn add_place_all_spec(s: Seq<AddNode>, all: Seq<AddNode>) -> Seq<AddNode>
    decreases all.len(),
{
    if all.len() == 0 {
        s
    } else {
        add_place_spec(add_place_all_spec(s, all.drop_last()), all.last())
    }
}

pub open spec fn add_place_all_ok(s: Seq<AddNode>, all: Seq<AddNode>) -> bool
    decreases all.len(),
{
    if all.len() == 0 {
        true
    } else {
        add_place_all_ok(s, all.drop_last()) && add_place_ok(
            add_place_all_spec(s, all.drop_last()),
            all.last(),
        )
    }
}

pub open spec fn cur_place_all_spec(s: Seq<CurNode>, all: Seq<CurNode>) -> Seq<CurNode>
    decreases all.len(),
{
    if all.len() == 0 {
        s
    } else {
        cur_place_spec(cur_place_all_spec(s, all.drop_last()), all.last())
    }
}

pub open spec fn cur_place_all_ok(s: Seq<CurNode>, all: Seq<CurNode>) -> bool
    decreases all.len(),
{
    if all.len() == 0 {
        true
    } else {
        cur_place_all_ok(s, all.drop_last()) && cur_place_ok(
            cur_place_all_spec(s, all.drop_last()),
            all.last(),
        )
    }
}

// ---------------------------------------------------------------------------
// Placement keeps the meaning of a span.

pub proof fn lemma_repeat_add<A>(a: A, m: nat, n: nat)
    ensures
        repeat(a, m) + repeat(a, n) == repeat(a, m + n),
{
    lemma_repeat(a, m);
    lemma_repeat(a, n);
    lemma_repeat(a, m + n);
    assert(repeat(a, m) + repeat(a, n) =~= repeat(a, m + n));
}

pub proof fn lemma_text_atoms_concat(st: StyleSet, a: Seq<char>, b: Seq<char>)
    ensures
        text_atoms(st, a + b) == text_atoms(st, a) + text_atoms(st, b),
        add_text_atoms(st, a + b) == add_text_atoms(st, a) + add_text_atoms(st, b),
{
    lemma_text_atoms(st, a);
    lemma_text_atoms(st, b);
    lemma_text_atoms(st, a + b);
    assert(text_atoms(st, a + b) =~= text_atoms(st, a) + text_atoms(st, b));
    assert(add_text_atoms(st, a + b) =~= add_text_atoms(st, a) + add_text_atoms(st, b));
}

/// The atoms of a span with an element pushed.
pub proof fn lemma_doc_atoms_push(s: Seq<DocNode>, x: DocNode)
    ensures
        doc_atoms(s.push(x)) == doc_atoms(s) + doc_elem_atoms(x),
{
    assert(s.push(x).drop_last() =~= s);
}

pub proof fn lemma_del_atoms_push(s: Seq<DelNode>, x: DelNode)
    ensures
        del_atoms(s.push(x)) == del_atoms(s) + del_elem_atoms(x),
{
    assert(s.push(x).drop_last() =~= s);
}

pub proof fn lemma_add_atoms_push(s: Seq<AddNode>, x: AddNode)
    ensures
        add_atoms(s.push(x)) == add_atoms(s) + add_elem_atoms(x),
{
    assert(s.push(x).drop_last() =~= s);
}

pub proof fn lemma_cur_atoms_push(s: Seq<CurNode>, x: CurNode)
    ensures
        cur_atoms(s.push(x)) == cur_atoms(s) + cur_elem_atoms(x),
{
    assert(s.push(x).drop_last() =~= s);
}

/// Placing an element adds its atoms at the end of the span's atoms.
pub proof fn lemma_doc_place_atoms(s: Seq<DocNode>, e: DocNode)
    ensures
        doc_atoms(doc_place_spec(s, e)) == doc_atoms(s) + doc_elem_atoms(e),
{
    lemma_doc_atoms_push(s, e);
    if s.len() > 0 {
        let p = s.drop_last();
        assert(s == p.push(s.last()));
        lemma_doc_atoms_push(p, s.last());
        match (s.last(), e) {
            (DocNode::Text(lst, ltext), DocNode::Text(st, text)) => {
                if lst == st {
                    lemma_doc_atoms_push(p, DocNode::Text(st, ltext + text));
                    lemma_text_atoms_concat(st, ltext, text);
                    assert(doc_atoms(p) + (text_atoms(st, ltext) + text_atoms(st, text))
                        =~= doc_atoms(p) + text_atoms(st, ltext) + text_atoms(st, text));
                }
            },
            _ => {},
        }
    }
}

pub proof fn lemma_del_place_atoms(s: Seq<DelNode>, e: DelNode)
    ensures
        del_atoms(del_place_spec(s, e)) == del_atoms(s) + del_elem_atoms(e),
{
    lemma_del_atoms_push(s, e);
    if s.len() > 0 {
        let p = s.drop_last();
        assert(s == p.push(s.last()));
        lemma_del_atoms_push(p, s.last());
        match (s.last(), e) {
            (DelNode::Text(m), DelNode::Text(n)) => {
                lemma_del_atoms_push(p, DelNode::Text(m + n));
                lemma_repeat_add(DelAtom::Text, m, n);
                assert(del_atoms(p) + (repeat(DelAtom::Text, m) + repeat(DelAtom::Text, n))
                    =~= del_atoms(p) + repeat(DelAtom::Text, m) + repeat(DelAtom::Text, n));
            },
            (DelNode::Skip(m), DelNode::Skip(n)) => {
                lemma_del_atoms_push(p, DelNode::Skip(m + n));
                lemma_repeat_add(DelAtom::Skip, m, n);
                assert(del_atoms(p) + (repeat(DelAtom::Skip, m) + repeat(DelAtom::Skip, n))
                    =~= del_atoms(p) + repeat(DelAtom::Skip, m) + repeat(DelAtom::Skip, n));
            },
            (DelNode::Styles(m, lst), DelNode::Styles(n, st)) => {
                if lst == st {
                    lemma_del_atoms_push(p, DelNode::Styles(m + n, st));
                    lemma_repeat_add(DelAtom::Styles(st), m, n);
                    assert(del_atoms(p) + (repeat(DelAtom::Styles(st), m) + repeat(
                        DelAtom::Styles(st),
                        n,
                    )) =~= del_atoms(p) + repeat(DelAtom::Styles(st), m) + repeat(
                        DelAtom::Styles(st),
                        n,
                    ));
                }
            },
            _ => {},
        }
    }
}

pub proof fn lemma_add_place_atoms(s: Seq<AddNode>, e: AddNode)
    ensures
        add_atoms(add_place_spec(s, e)) == add_atoms(s) + add_elem_atoms(e),
{
    lemma_add_atoms_push(s, e);
    if s.len() > 0 {
        let p = s.drop_last();
        assert(s == p.push(s.last()));
        lemma_add_atoms_push(p, s.last());
        match (s.last(), e) {
            (AddNode::Text(lst, ltext), AddNode::Text(st, text)) => {
                if lst == st {
                    lemma_add_atoms_push(p, AddNode::Text(st, ltext + text));
                    lemma_text_atoms_concat(st, ltext, text);
                    assert(add_atoms(p) + (add_text_atoms(st, ltext) + add_text_atoms(st, text))
                        =~= add_atoms(p) + add_text_atoms(st, ltext) + add_text_atoms(st, text));
                }
            },
            (AddNode::Skip(m), AddNode::Skip(n)) => {
                lemma_add_atoms_push(p, AddNode::Skip(m + n));
                lemma_repeat_add(AddAtom::Skip, m, n);
                assert(add_atoms(p) + (repeat(AddAtom::Skip, m) + repeat(AddAtom::Skip, n))
                    =~= add_atoms(p) + repeat(AddAtom::Skip, m) + repeat(AddAtom::Skip, n));
            },
            (AddNode::Styles(m, lst), AddNode::Styles(n, st)) => {
                if lst == st {
                    lemma_add_atoms_push(p, AddNode::Styles(m + n, st));
                    lemma_repeat_add(AddAtom::Styles(st), m, n);
                    assert(add_atoms(p) + (repeat(AddAtom::Styles(st), m) + repeat(
                        AddAtom::Styles(st),
                        n,
                    )) =~= add_atoms(p) + repeat(AddAtom::Styles(st), m) + repeat(
                        AddAtom::Styles(st),
                        n,
                    ));
                }
            },
            _ => {},
        }
    }
}

pub proof fn lemma_cur_place_atoms(s: Seq<CurNode>, e: CurNode)
    ensures
        cur_atoms(cur_place_spec(s, e)) == cur_atoms(s) + cur_elem_atoms(e),
{
    lemma_cur_atoms_push(s, e);
    if s.len() > 0 {
        let p = s.drop_last();
        assert(s == p.push(s.last()));
        lemma_cur_atoms_push(p, s.last());
        match (s.last(), e) {
            (CurNode::Skip(m), CurNode::Skip(n)) => {
                lemma_cur_atoms_push(p, CurNode::Skip(m + n));
                lemma_repeat_add(CurAtom::Skip, m, n);
                assert(cur_atoms(p) + (repeat(CurAtom::Skip, m) + repeat(CurAtom::Skip, n))
                    =~= cur_atoms(p) + repeat(CurAtom::Skip, m) + repeat(CurAtom::Skip, n));
            },
            _ => {},
        }
    }
}

/// Placing a whole span adds its atoms at the end.
pub proof fn lemma_doc_place_all_atoms(s: Seq<DocNode>, all: Seq<DocNode>)
    ensures
        doc_atoms(doc_place_all_spec(s, all)) == doc_atoms(s) + doc_atoms(all),
    decreases all.len(),
{
    if all.len() > 0 {
        lemma_doc_place_all_atoms(s, all.drop_last());
        lemma_doc_place_atoms(doc_place_all_spec(s, all.drop_last()), all.last());
        assert(doc_atoms(s) + doc_atoms(all) =~= doc_atoms(s) + doc_atoms(all.drop_last())
            + doc_elem_atoms(all.last()));
    } else {
        assert(doc_atoms(s) + doc_atoms(all) =~= doc_atoms(s));
    }
}

pub proof fn lemma_del_place_all_atoms(s: Seq<DelNode>, all: Seq<DelNode>)
    ensures
        del_atoms(del_place_all_spec(s, all)) == del_atoms(s) + del_atoms(all),
    decreases all.len(),
{
    if all.len() > 0 {
        lemma_del_place_all_atoms(s, all.drop_last());
        lemma_del_place_atoms(del_place_all_spec(s, all.drop_last()), all.last());
        assert(del_atoms(s) + del_atoms(all) =~= del_atoms(s) + del_atoms(all.drop_last())
            + del_elem_atoms(all.last()));
    } else {
        assert(del_atoms(s) + del_atoms(all) =~= del_atoms(s));
    }
}

pub proof fn lemma_add_place_all_atoms(s: Seq<AddNode>, all: Seq<AddNode>)
    ensures
        add_atoms(add_place_all_spec(s, all)) == add_atoms(s) + add_atoms(all),
    decreases all.len(),
{
    if all.len() > 0 {
        lemma_add_place_all_atoms(s, all.drop_last());
        lemma_add_place_atoms(add_place_all_spec(s, all.drop_last()), all.last());
        assert(add_atoms(s) + add_atoms(all) =~= add_atoms(s) + add_atoms(all.drop_last())
            + add_elem_atoms(all.last()));
    } else {
        assert(add_atoms(s) + add_atoms(all) =~= add_atoms(s));
    }
}

pub proof fn lemma_cur_place_all_atoms(s: Seq<CurNode>, all: Seq<CurNode>)
    ensures
        cur_atoms(cur_place_all_spec(s, all)) == cur_atoms(s) + cur_atoms(all),
    decreases all.len(),
{
    if all.len() > 0 {
        lemma_cur_place_all_atoms(s, all.drop_last());
        lemma_cur_place_atoms(cur_place_all_spec(s, all.drop_last()), all.last());
        assert(cur_atoms(s) + cur_atoms(all) =~= cur_atoms(s) + cur_atoms(all.drop_last())
            + cur_elem_atoms(all.last()));
    } else {
        assert(cur_atoms(s) + cur_atoms(all) =~= cur_atoms(s));
    }
}

/// Placing a prefix of `all` may be done where placing all of it may.
pub proof fn lemma_doc_place_all_ok_prefix(s: Seq<DocNode>, all: Seq<DocNode>, k: int)
    requires
        doc_place_all_ok(s, all),
        0 <= k <= all.len(),
    ensures
        doc_place_all_ok(s, all.take(k)),
    decreases all.len(),
{
    if k < all.len() {
        lemma_doc_place_all_ok_prefix(s, all.drop_last(), k);
        assert(all.drop_last().take(k) =~= all.take(k));
    } else {
        assert(all.take(k) =~= all);
    }
}

/// Placing a prefix of `all` may be done where placing all of it may.
pub proof fn lemma_del_place_all_ok_prefix(s: Seq<DelNode>, all: Seq<DelNode>, k: int)
    requires
        del_place_all_ok(s, all),
        0 <= k <= all.len(),
    ensures
        del_place_all_ok(s, all.take(k)),
    decreases all.len(),
{
    if k < all.len() {
        lemma_del_place_all_ok_prefix(s, all.drop_last(), k);
        assert(all.drop_last().take(k) =~= all.take(k));
    } else {
        assert(all.take(k) =~= all);
    }
}

/// Placing a prefix of `all` may be done where placing all of it may.
pub proof fn lemma_add_place_all_ok_prefix(s: Seq<AddNode>, all: Seq<AddNode>, k: int)
    requires
        add_place_all_ok(s, all),
        0 <= k <= all.len(),
    ensures
        add_place_all_ok(s, all.take(k)),
    decreases all.len(),
{
    if k < all.len() {
        lemma_add_place_all_ok_prefix(s, all.drop_last(), k);
        assert(all.drop_last().take(k) =~= all.take(k));
    } else {
        assert(all.take(k) =~= all);
    }
}

/// Placing a prefix of `all` may be done where placing all of it may.
pub proof fn lemma_cur_place_all_ok_prefix(s: Seq<CurNode>, all: Seq<CurNode>, k: int)
    requires
        cur_place_all_ok(s, all),
        0 <= k <= all.len(),
    ensures
        cur_place_all_ok(s, all.take(k)),
    decreases all.len(),
{
    if k < all.len() {
        lemma_cur_place_all_ok_prefix(s, all.drop_last(), k);
        assert(all.drop_last().take(k) =~= all.take(k));
    } else {
        assert(all.take(k) =~= all);
    }
}

// ---------------------------------------------------------------------------
// Merged spans: no two neighbours that placement would join.

/// Two document elements that placement joins: text with the same styles.
pub open spec fn doc_joinable(x: DocNode, y: DocNode) -> bool {
    match (x, y) {
        (DocNode::Text(a, _), DocNode::Text(b, _)) => a == b,
        _ => false,
    }
}

/// Two deletion elements that placement joins: deleted text, kept atoms, or
/// styles taken away with the same styles.
pub open spec fn del_joinable(x: DelNode, y: DelNode) -> bool {
    match (x, y) {
        (DelNode::Text(_), DelNode::Text(_)) => true,
        (DelNode::Skip(_), DelNode::Skip(_)) => true,
        (DelNode::Styles(_, a), DelNode::Styles(_, b)) => a == b,
        _ => false,
    }
}

/// Two insertion elements that placement joins: inserted text with the same
/// styles, kept atoms, or added styles with the same styles.
pub open spec fn add_joinable(x: AddNode, y: AddNode) -> bool {
    match (x, y) {
        (AddNode::Text(a, _), AddNode::Text(b, _)) => a == b,
        (AddNode::Skip(_), AddNode::Skip(_)) => true,
        (AddNode::Styles(_, a), AddNode::Styles(_, b)) => a == b,
        _ => false,
    }
}

/// Two cursor elements that placement joins: kept atoms.
pub open spec fn cur_joinable(x: CurNode, y: CurNode) -> bool {
    x is Skip && y is Skip
}

/// A document span with no two neighbours that placement would join.
pub open spec fn doc_merged(s: Seq<DocNode>) -> bool
    decreases s.len(),
{
    s.len() < 2 || (!doc_joinable(s[s.len() - 2], s[s.len() - 1]) && doc_merged(s.drop_last()))
}

/// A deletion span with no two neighbours that placement would join.
pub open spec fn del_merged(s: Seq<DelNode>) -> bool
    decreases s.len(),
{
    s.len() < 2 || (!del_joinable(s[s.len() - 2], s[s.len() - 1]) && del_merged(s.drop_last()))
}

/// An insertion span with no two neighbours that placement would join.
pub open spec fn add_merged(s: Seq<AddNode>) -> bool
    decreases s.len(),
{
    s.len() < 2 || (!add_joinable(s[s.len() - 2], s[s.len() - 1]) && add_merged(s.drop_last()))
}

/// A cursor span with no two neighbours that placement would join.
pub open spec fn cur_merged(s: Seq<CurNode>) -> bool
    decreases s.len(),
{
    s.len() < 2 || (!cur_joinable(s[s.len() - 2], s[s.len() - 1]) && cur_merged(s.drop_last()))
}

/// Placing an element keeps a span merged.
pub proof fn lemma_doc_place_merged(s: Seq<DocNode>, e: DocNode)
    ensures
        doc_merged(s) ==> doc_merged(doc_place_spec(s, e)),
{
    let r = doc_place_spec(s, e);
    if doc_merged(s) && s.len() > 0 {
        assert(r.drop_last() =~= s.drop_last() || r.drop_last() =~= s);
        if r.len() >= 2 && r.drop_last() =~= s.drop_last() {
            assert(r[r.len() - 2] == s[s.len() - 2]);
        }
    }
}

pub proof fn lemma_del_place_merged(s: Seq<DelNode>, e: DelNode)
    ensures
        del_merged(s) ==> del_merged(del_place_spec(s, e)),
{
    let r = del_place_spec(s, e);
    if del_merged(s) && s.len() > 0 {
        assert(r.drop_last() =~= s.drop_last() || r.drop_last() =~= s);
        if r.len() >= 2 && r.drop_last() =~= s.drop_last() {
            assert(r[r.len() - 2] == s[s.len() - 2]);
        }
    }
}

pub proof fn lemma_add_place_merged(s: Seq<AddNode>, e: AddNode)
    ensures
        add_merged(s) ==> add_merged(add_place_spec(s, e)),
{
    let r = add_place_spec(s, e);
    if add_merged(s) && s.len() > 0 {
        assert(r.drop_last() =~= s.drop_last() || r.drop_last() =~= s);
        if r.len() >= 2 && r.drop_last() =~= s.drop_last() {
            assert(r[r.len() - 2] == s[s.len() - 2]);
        }
    }
}

pub proof fn lemma_cur_place_merged(s: Seq<CurNode>, e: CurNode)
    ensures
        cur_merged(s) ==> cur_merged(cur_place_spec(s, e)),
{
    let r = cur_place_spec(s, e);
    if cur_merged(s) && s.len() > 0 {
        assert(r.drop_last() =~= s.drop_last() || r.drop_last() =~= s);
        if r.len() >= 2 && r.drop_last() =~= s.drop_last() {
            assert(r[r.len() - 2] == s[s.len() - 2]);
        }
    }
}

/// Placing elements one after another keeps a span merged.
pub proof fn lemma_doc_place_all_merged(s: Seq<DocNode>, all: Seq<DocNode>)
    ensures
        doc_merged(s) ==> doc_merged(doc_place_all_spec(s, all)),
    decreases all.len(),
{
    if all.len() > 0 {
        lemma_doc_place_all_merged(s, all.drop_last());
        lemma_doc_place_merged(doc_place_all_spec(s, all.drop_last()), all.last());
    }
}

pub proof fn lemma_del_place_all_merged(s: Seq<DelNode>, all: Seq<DelNode>)
    ensures
        del_merged(s) ==> del_merged(del_place_all_spec(s, all)),
    decreases all.len(),
{
    if all.len() > 0 {
        lemma_del_place_all_merged(s, all.drop_last());
        lemma_del_place_merged(del_place_all_spec(s, all.drop_last()), all.last());
    }
}

pub proof fn lemma_add_place_all_merged(s: Seq<AddNode>, all: Seq<AddNode>)
    ensures
        add_merged(s) ==> add_merged(add_place_all_spec(s, all)),
    decreases all.len(),
{
    if all.len() > 0 {
        lemma_add_place_all_merged(s, all.drop_last());
        lemma_add_place_merged(add_place_all_spec(s, all.drop_last()), all.last());
    }
}

pub proof fn lemma_cur_place_all_merged(s: Seq<CurNode>, all: Seq<CurNode>)
    ensures
        cur_merged(s) ==> cur_merged(cur_place_all_spec(s, all)),
    decreases all.len(),
{
    if all.len() > 0 {
        lemma_cur_place_all_merged(s, all.drop_last());
        lemma_cur_place_merged(cur_place_all_spec(s, all.drop_last()), all.last());
    }
}

/// Two document elements of one kind: groups, or text with the same styles.
pub open spec fn doc_like(x: DocNode, y: DocNode) -> bool {
    match (x, y) {
        (DocNode::Text(a, _), DocNode::Text(b, _)) => a == b,
        (DocNode::Group(..), DocNode::Group(..)) => true,
        _ => false,
    }
}

/// Placing an element leaves one of its kind at the end.
pub proof fn lemma_doc_place_last(s: Seq<DocNode>, e: DocNode)
    ensures
        doc_place_spec(s, e).len() > 0,
        doc_like(doc_place_spec(s, e).last(), e),
{
}

/// Neighbours in a merged span are not joinable.
pub proof fn lemma_doc_merged_at(s: Seq<DocNode>, k: int)
    requires
        doc_merged(s),
        1 <= k < s.len(),
    ensures
        !doc_joinable(s[k - 1], s[k]),
    decreases s.len(),
{
    if k < s.len() - 1 {
        lemma_doc_merged_at(s.drop_last(), k);
    }
}

/// An element that does not join the last one keeps a span merged.
pub proof fn lemma_doc_merged_push(s: Seq<DocNode>, e: DocNode)
    requires
        doc_merged(s),
        s.len() == 0 || !doc_joinable(s.last(), e),
    ensures
        doc_merged(s.push(e)),
{
    assert(s.push(e).drop_last() =~= s);
}

/// A group keeps a span merged.
pub proof fn lemma_doc_merged_push_group(s: Seq<DocNode>, e: DocNode)
    requires
        doc_merged(s),
        e is Group,
    ensures
        doc_merged(s.push(e)),
{
    assert(s.push(e).drop_last() =~= s);
}

/// Whether an element joins another depends only on their kinds.
pub proof fn lemma_doc_like_joinable(x: DocNode, y: DocNode, z: DocNode)
    requires
        doc_like(x, y),
    ensures
        doc_joinable(x, z) == doc_joinable(y, z),
        doc_like(y, x),
{
}

/// An insertion span with no two neighbouring texts of the same styles.
pub open spec fn add_texts_merged(s: Seq<AddNode>) -> bool
    decreases s.len(),
{
    s.len() < 2 || (!(s[s.len() - 2] is Text && add_joinable(s[s.len() - 2], s[s.len() - 1]))
        && add_texts_merged(s.drop_last()))
}

/// A merged insertion span has no two neighbouring texts of the same
/// styles.
pub proof fn lemma_add_merged_texts(s: Seq<AddNode>)
    requires
        add_merged(s),
    ensures
        add_texts_merged(s),
    decreases s.len(),
{
    if s.len() >= 2 {
        lemma_add_merged_texts(s.drop_last());
    }
}

/// Placing an element keeps the texts of a span merged.
pub proof fn lemma_add_place_texts_merged(s: Seq<AddNode>, e: AddNode)
    ensures
        add_texts_merged(s) ==> add_texts_merged(add_place_spec(s, e)),
{
    let r = add_place_spec(s, e);
    if add_texts_merged(s) && s.len() > 0 {
        assert(r.drop_last() =~= s.drop_last() || r.drop_last() =~= s);
        if r.len() >= 2 && r.drop_last() =~= s.drop_last() {
            assert(r[r.len() - 2] == s[s.len() - 2]);
        }
    }
}

pub proof fn lemma_add_place_all_texts_merged(s: Seq<AddNode>, all: Seq<AddNode>)
    ensures
        add_texts_merged(s) ==> add_texts_merged(add_place_all_spec(s, all)),
    decreases all.len(),
{
    if all.len() > 0 {
        lemma_add_place_all_texts_merged(s, all.drop_last());
        lemma_add_place_texts_merged(add_place_all_spec(s, all.drop_last()), all.last());
    }
}

/// An element other than text keeps the texts of a span merged.
pub proof fn lemma_add_push_texts_merged(s: Seq<AddNode>, e: AddNode)
    requires
        !(e is Text),
    ensures
        add_texts_merged(s) ==> add_texts_merged(s.push(e)),
{
    assert(s.push(e).drop_last() =~= s);
}

// ---------------------------------------------------------------------------
// A merged span without groups is fixed by its atoms.

/// A deletion span without groups.
pub open spec fn del_flat(s: Seq<DelNode>) -> bool {
    forall|i: int| 0 <= i < s.len() ==> !(#[trigger] s[i] is Group) && !(s[i] is WithGroup)
}

/// The atom that a deletion element outside groups repeats, and how often.
pub open spec fn del_run_atom(e: DelNode) -> DelAtom {
    match e {
        DelNode::Text(_) => DelAtom::Text,
        DelNode::Styles(_, st) => DelAtom::Styles(st),
        _ => DelAtom::Skip,
    }
}

pub open spec fn del_run_count(e: DelNode) -> nat {
    match e {
        DelNode::Text(n) => n,
        DelNode::Styles(n, _) => n,
        DelNode::Skip(n) => n,
        _ => 0,
    }
}

/// An element outside groups is a run of its atom.
proof fn lemma_del_run(e: DelNode)
    requires
        !(e is Group) && !(e is WithGroup),
    ensures
        del_elem_atoms(e) == repeat(del_run_atom(e), del_run_count(e)),
        e == match del_run_atom(e) {
            DelAtom::Text => DelNode::Text(del_run_count(e)),
            DelAtom::Styles(st) => DelNode::Styles(del_run_count(e), st),
            _ => DelNode::Skip(del_run_count(e)),
        },
{
}

/// Of two merged deletion spans without groups, with the same atoms, the
/// last elements are the same.
proof fn lemma_del_canonical_last(s: Seq<DelNode>, t: Seq<DelNode>)
    requires
        del_span_wf(s),
        del_span_wf(t),
        del_merged(s),
        del_merged(t),
        del_flat(s),
        del_flat(t),
        del_atoms(s) == del_atoms(t),
        s.len() > 0,
        t.len() > 0,
        del_run_count(s.last()) <= del_run_count(t.last()),
    ensures
        s.last() == t.last(),
        del_atoms(s.drop_last()) == del_atoms(t.drop_last()),
{
    let e = s.last();
    let f = t.last();
    let m = del_run_count(e);
    let n = del_run_count(f);
    assert(del_elem_wf(s[s.len() - 1]));
    assert(del_elem_wf(t[t.len() - 1]));
    assert(!(s[s.len() - 1] is Group) && !(s[s.len() - 1] is WithGroup));
    assert(!(t[t.len() - 1] is Group) && !(t[t.len() - 1] is WithGroup));
    lemma_del_run(e);
    lemma_del_run(f);
    let x = del_atoms(s);
    let ps = del_atoms(s.drop_last());
    let pt = del_atoms(t.drop_last());
    assert(s.drop_last().push(e) =~= s);
    assert(t.drop_last().push(f) =~= t);
    lemma_del_atoms_push(s.drop_last(), e);
    lemma_del_atoms_push(t.drop_last(), f);
    crate::doc::lemma_repeat(del_run_atom(e), m);
    crate::doc::lemma_repeat(del_run_atom(f), n);
    assert(x[x.len() - 1] == del_run_atom(e));
    assert(x[x.len() - 1] == del_run_atom(f));
    if m < n {
        let k = x.len() - m - 1;
        assert(x[k] == del_run_atom(f));
        if s.len() >= 2 {
            let g = s[s.len() - 2];
            assert(del_elem_wf(g));
            assert(!(g is Group) && !(g is WithGroup));
            lemma_del_run(g);
            assert(s.drop_last().drop_last().push(g) =~= s.drop_last());
            lemma_del_atoms_push(s.drop_last().drop_last(), g);
            crate::doc::lemma_repeat(del_run_atom(g), del_run_count(g));
            assert(ps[ps.len() - 1] == del_run_atom(g));
            assert(x[k] == ps[ps.len() - 1]);
            assert(!del_joinable(g, e));
        } else {
            assert(s.drop_last() =~= Seq::<DelNode>::empty());
            assert(ps =~= Seq::<DelAtom>::empty());
        }
    }
    assert(m == n);
    assert(ps =~= x.take(x.len() - m));
    assert(pt =~= x.take(x.len() - n));
}

/// A merged deletion span without groups is fixed by its atoms.
pub proof fn lemma_del_canonical(s: Seq<DelNode>, t: Seq<DelNode>)
    requires
        del_span_wf(s),
        del_span_wf(t),
        del_merged(s),
        del_merged(t),
        del_flat(s),
        del_flat(t),
        del_atoms(s) == del_atoms(t),
    ensures
        s == t,
    decreases s.len() + t.len(),
{
    if s.len() == 0 || t.len() == 0 {
        if s.len() > 0 {
            assert(del_elem_wf(s[s.len() - 1]));
            assert(!(s[s.len() - 1] is Group) && !(s[s.len() - 1] is WithGroup));
            lemma_del_run(s.last());
            lemma_del_atoms_push(s.drop_last(), s.last());
            assert(s.drop_last().push(s.last()) =~= s);
            crate::doc::lemma_repeat(del_run_atom(s.last()), del_run_count(s.last()));
            assert(del_atoms(s).len() > 0);
            assert(del_atoms(Seq::<DelNode>::empty()) =~= Seq::<DelAtom>::empty());
        }
        if t.len() > 0 {
            assert(del_elem_wf(t[t.len() - 1]));
            assert(!(t[t.len() - 1] is Group) && !(t[t.len() - 1] is WithGroup));
            lemma_del_run(t.last());
            lemma_del_atoms_push(t.drop_last(), t.last());
            assert(t.drop_last().push(t.last()) =~= t);
            crate::doc::lemma_repeat(del_run_atom(t.last()), del_run_count(t.last()));
            assert(del_atoms(t).len() > 0);
            assert(del_atoms(Seq::<DelNode>::empty()) =~= Seq::<DelAtom>::empty());
        }
        assert(s =~= t);
    } else {
        if del_run_count(s.last()) <= del_run_count(t.last()) {
            lemma_del_canonical_last(s, t);
        } else {
            lemma_del_canonical_last(t, s);
        }
        let s1 = s.drop_last();
        let t1 = t.drop_last();
        assert forall|i: int| 0 <= i < s1.len() implies #[trigger] del_elem_wf(s1[i]) by {
            assert(s1[i] == s[i]);
        }
        assert forall|i: int| 0 <= i < t1.len() implies #[trigger] del_elem_wf(t1[i]) by {
            assert(t1[i] == t[i]);
        }
        assert forall|i: int| 0 <= i < s1.len() implies !(#[trigger] s1[i] is Group) && !(s1[i] is WithGroup) by {
            assert(s1[i] == s[i]);
        }
        assert forall|i: int| 0 <= i < t1.len() implies !(#[trigger] t1[i] is Group) && !(t1[i] is WithGroup) by {
            assert(t1[i] == t[i]);
        }
        lemma_del_canonical(s1, t1);
        assert(s =~= s1.push(s.last()));
        assert(t =~= t1.push(t.last()));
    }
}

/// A document span without groups.
pub open spec fn doc_flat(s: Seq<DocNode>) -> bool {
    forall|i: int| 0 <= i < s.len() ==> #[trigger] s[i] is Text
}

/// Of two merged document spans without groups, with the same atoms, the
/// last elements are the same.
proof fn lemma_doc_canonical_last(s: Seq<DocNode>, t: Seq<DocNode>)
    requires
        doc_span_wf(s),
        doc_span_wf(t),
        doc_merged(s),
        doc_merged(t),
        doc_flat(s),
        doc_flat(t),
        doc_atoms(s) == doc_atoms(t),
        s.len() > 0,
        t.len() > 0,
        s.last()->Text_1.len() <= t.last()->Text_1.len(),
    ensures
        s.last() == t.last(),
        doc_atoms(s.drop_last()) == doc_atoms(t.drop_last()),
{
    let e = s.last();
    let f = t.last();
    assert(s[s.len() - 1] is Text);
    assert(t[t.len() - 1] is Text);
    let (st1, c1) = (e->Text_0, e->Text_1);
    let (st2, c2) = (f->Text_0, f->Text_1);
    assert(doc_elem_wf(s[s.len() - 1]));
    assert(doc_elem_wf(t[t.len() - 1]));
    let m = c1.len();
    let n = c2.len();
    let x = doc_atoms(s);
    let ps = doc_atoms(s.drop_last());
    let pt = doc_atoms(t.drop_last());
    assert(s.drop_last().push(e) =~= s);
    assert(t.drop_last().push(f) =~= t);
    lemma_doc_atoms_push(s.drop_last(), e);
    lemma_doc_atoms_push(t.drop_last(), f);
    crate::doc::lemma_text_atoms(st1, c1);
    crate::doc::lemma_text_atoms(st2, c2);
    assert(x == ps + text_atoms(st1, c1));
    assert(x == pt + text_atoms(st2, c2));
    assert(x[x.len() - 1] == text_atoms(st1, c1)[m - 1]);
    assert(x[x.len() - 1] == text_atoms(st2, c2)[n - 1]);
    assert(st1 == st2);
    if m < n {
        let k = x.len() - m - 1;
        assert(x[k] == text_atoms(st2, c2)[n - m - 1]);
        if s.len() >= 2 {
            let g = s[s.len() - 2];
            assert(g is Text);
            assert(doc_elem_wf(g));
            assert(s.drop_last().drop_last().push(g) =~= s.drop_last());
            lemma_doc_atoms_push(s.drop_last().drop_last(), g);
            crate::doc::lemma_text_atoms(g->Text_0, g->Text_1);
            assert(ps[ps.len() - 1] == text_atoms(g->Text_0, g->Text_1)[g->Text_1.len() - 1]);
            assert(x[k] == ps[ps.len() - 1]);
            assert(!doc_joinable(g, e));
        } else {
            assert(s.drop_last() =~= Seq::<DocNode>::empty());
            assert(ps =~= Seq::<crate::doc::DocAtom>::empty());
        }
    }
    assert(m == n);
    assert(ps =~= x.take(x.len() - m));
    assert(pt =~= x.take(x.len() - n));
    assert forall|i: int| 0 <= i < m implies c1[i] == c2[i] by {
        assert(x[ps.len() + i] == text_atoms(st1, c1)[i]);
        assert(x[pt.len() + i] == text_atoms(st2, c2)[i]);
    }
    assert(c1 =~= c2);
}

/// A merged document span without groups is fixed by its atoms.
pub proof fn lemma_doc_canonical(s: Seq<DocNode>, t: Seq<DocNode>)
    requires
        doc_span_wf(s),
        doc_span_wf(t),
        doc_merged(s),
        doc_merged(t),
        doc_flat(s),
        doc_flat(t),
        doc_atoms(s) == doc_atoms(t),
    ensures
        s == t,
    decreases s.len() + t.len(),
{
    if s.len() == 0 || t.len() == 0 {
        if s.len() > 0 {
            assert(doc_elem_wf(s[s.len() - 1]));
            assert(s[s.len() - 1] is Text);
            lemma_doc_atoms_push(s.drop_last(), s.last());
            assert(s.drop_last().push(s.last()) =~= s);
            crate::doc::lemma_text_atoms(s.last()->Text_0, s.last()->Text_1);
            assert(doc_atoms(s).len() > 0);
            assert(doc_atoms(Seq::<DocNode>::empty()) =~= Seq::<crate::doc::DocAtom>::empty());
        }
        if t.len() > 0 {
            assert(doc_elem_wf(t[t.len() - 1]));
            assert(t[t.len() - 1] is Text);
            lemma_doc_atoms_push(t.drop_last(), t.last());
            assert(t.drop_last().push(t.last()) =~= t);
            crate::doc::lemma_text_atoms(t.last()->Text_0, t.last()->Text_1);
            assert(doc_atoms(t).len() > 0);
            assert(doc_atoms(Seq::<DocNode>::empty()) =~= Seq::<crate::doc::DocAtom>::empty());
        }
        assert(s =~= t);
    } else {
        assert(s[s.len() - 1] is Text);
        assert(t[t.len() - 1] is Text);
        if s.last()->Text_1.len() <= t.last()->Text_1.len() {
            lemma_doc_canonical_last(s, t);
        } else {
            lemma_doc_canonical_last(t, s);
        }
        let s1 = s.drop_last();
        let t1 = t.drop_last();
        assert forall|i: int| 0 <= i < s1.len() implies #[trigger] doc_elem_wf(s1[i]) by {
            assert(s1[i] == s[i]);
        }
        assert forall|i: int| 0 <= i < t1.len() implies #[trigger] doc_elem_wf(t1[i]) by {
            assert(t1[i] == t[i]);
        }
        assert forall|i: int| 0 <= i < s1.len() implies #[trigger] s1[i] is Text by {
            assert(s1[i] == s[i]);
        }
        assert forall|i: int| 0 <= i < t1.len() implies #[trigger] t1[i] is Text by {
            assert(t1[i] == t[i]);
        }
        lemma_doc_canonical(s1, t1);
        assert(s =~= s1.push(s.last()));
        assert(t =~= t1.push(t.last()));
    }
}

/// The atoms of inserted text, one by one.
pub proof fn lemma_add_text_atoms(st: StyleSet, t: Seq<char>)
    ensures
        add_text_atoms(st, t).len() == t.len(),
        forall|i: int| 0 <= i < t.len() ==> #[trigger] add_text_atoms(st, t)[i] == AddAtom::Text(st, t[i]),
    decreases t.len(),
{
    if t.len() > 0 {
        lemma_add_text_atoms(st, t.drop_last());
        assert forall|i: int| 0 <= i < t.len() implies #[trigger] add_text_atoms(st, t)[i] == AddAtom::Text(st, t[i]) by {
            if i < t.len() - 1 {
                assert(t.drop_last()[i] == t[i]);
            }
        }
    }
}

/// An insertion span without groups.
pub open spec fn add_flat(s: Seq<AddNode>) -> bool {
    forall|i: int| 0 <= i < s.len() ==> !(#[trigger] s[i] is Group) && !(s[i] is WithGroup)
}

/// Two insertion atoms of one kind: kept, added styles alike, or text with
/// the same styles.
pub open spec fn add_atom_like(x: AddAtom, y: AddAtom) -> bool {
    match (x, y) {
        (AddAtom::Skip, AddAtom::Skip) => true,
        (AddAtom::Styles(a), AddAtom::Styles(b)) => a == b,
        (AddAtom::Text(a, _), AddAtom::Text(b, _)) => a == b,
        _ => false,
    }
}

/// The number of atoms of an insertion element outside groups.
pub open spec fn add_run_count(e: AddNode) -> nat {
    match e {
        AddNode::Skip(n) => n,
        AddNode::Styles(n, _) => n,
        AddNode::Text(_, t) => t.len(),
        _ => 0,
    }
}

/// The atoms of an insertion element outside groups, one by one: each of
/// its kind.
proof fn lemma_add_run(e: AddNode)
    requires
        !(e is Group) && !(e is WithGroup),
    ensures
        add_elem_atoms(e).len() == add_run_count(e),
        forall|i: int| 0 <= i < add_run_count(e) ==> match e {
            AddNode::Skip(_) => #[trigger] add_elem_atoms(e)[i] == AddAtom::Skip,
            AddNode::Styles(_, st) => add_elem_atoms(e)[i] == AddAtom::Styles(st),
            AddNode::Text(st, t) => add_elem_atoms(e)[i] == AddAtom::Text(st, t[i]),
            _ => true,
        },
{
    match e {
        AddNode::Skip(n) => crate::doc::lemma_repeat(AddAtom::Skip, n),
        AddNode::Styles(n, st) => crate::doc::lemma_repeat(AddAtom::Styles(st), n),
        AddNode::Text(st, t) => lemma_add_text_atoms(st, t),
        _ => {},
    }
}

/// Of two merged insertion spans without groups, with the same atoms, the
/// last elements are the same.
proof fn lemma_add_canonical_last(s: Seq<AddNode>, t: Seq<AddNode>)
    requires
        add_span_wf(s),
        add_span_wf(t),
        add_merged(s),
        add_merged(t),
        add_flat(s),
        add_flat(t),
        add_atoms(s) == add_atoms(t),
        s.len() > 0,
        t.len() > 0,
        add_run_count(s.last()) <= add_run_count(t.last()),
    ensures
        s.last() == t.last(),
        add_atoms(s.drop_last()) == add_atoms(t.drop_last()),
{
    let e = s.last();
    let f = t.last();
    assert(add_elem_wf(s[s.len() - 1]));
    assert(add_elem_wf(t[t.len() - 1]));
    assert(!(s[s.len() - 1] is Group) && !(s[s.len() - 1] is WithGroup));
    assert(!(t[t.len() - 1] is Group) && !(t[t.len() - 1] is WithGroup));
    let m = add_run_count(e);
    let n = add_run_count(f);
    lemma_add_run(e);
    lemma_add_run(f);
    let x = add_atoms(s);
    let ps = add_atoms(s.drop_last());
    let pt = add_atoms(t.drop_last());
    assert(s.drop_last().push(e) =~= s);
    assert(t.drop_last().push(f) =~= t);
    lemma_add_atoms_push(s.drop_last(), e);
    lemma_add_atoms_push(t.drop_last(), f);
    let ae = add_elem_atoms(e);
    let af = add_elem_atoms(f);
    assert(x[x.len() - 1] == ae[m - 1]);
    assert(x[x.len() - 1] == af[n - 1]);
    assert(add_atom_like(ae[m - 1], af[n - 1]));
    if m < n {
        let k = x.len() - m - 1;
        assert(x[k] == af[n - m - 1]);
        assert(add_atom_like(af[n - m - 1], ae[m - 1]));
        if s.len() >= 2 {
            let g = s[s.len() - 2];
            assert(add_elem_wf(g));
            assert(!(g is Group) && !(g is WithGroup));
            lemma_add_run(g);
            assert(s.drop_last().drop_last().push(g) =~= s.drop_last());
            lemma_add_atoms_push(s.drop_last().drop_last(), g);
            let ag = add_elem_atoms(g);
            assert(ps[ps.len() - 1] == ag[add_run_count(g) - 1]);
            assert(x[k] == ps[ps.len() - 1]);
            assert(!add_joinable(g, e));
        } else {
            assert(s.drop_last() =~= Seq::<AddNode>::empty());
            assert(ps =~= Seq::<AddAtom>::empty());
        }
    }
    assert(m == n);
    assert(ps =~= x.take(x.len() - m));
    assert(pt =~= x.take(x.len() - n));
    assert forall|i: int| 0 <= i < m implies ae[i] == af[i] by {
        assert(x[ps.len() + i] == ae[i]);
        assert(x[pt.len() + i] == af[i]);
    }
    match (e, f) {
        (AddNode::Text(_, c1), AddNode::Text(_, c2)) => {
            assert forall|i: int| 0 <= i < m implies c1[i] == c2[i] by {
                assert(ae[i] == af[i]);
            }
            assert(c1 =~= c2);
        },
        _ => {},
    }
}

/// A merged insertion span without groups is fixed by its atoms.
pub proof fn lemma_add_canonical(s: Seq<AddNode>, t: Seq<AddNode>)
    requires
        add_span_wf(s),
        add_span_wf(t),
        add_merged(s),
        add_merged(t),
        add_flat(s),
        add_flat(t),
        add_atoms(s) == add_atoms(t),
    ensures
        s == t,
    decreases s.len() + t.len(),
{
    if s.len() == 0 || t.len() == 0 {
        if s.len() > 0 {
            assert(add_elem_wf(s[s.len() - 1]));
            assert(!(s[s.len() - 1] is Group) && !(s[s.len() - 1] is WithGroup));
            lemma_add_run(s.last());
            lemma_add_atoms_push(s.drop_last(), s.last());
            assert(s.drop_last().push(s.last()) =~= s);
            assert(add_atoms(s).len() > 0);
            assert(add_atoms(Seq::<AddNode>::empty()) =~= Seq::<AddAtom>::empty());
        }
        if t.len() > 0 {
            assert(add_elem_wf(t[t.len() - 1]));
            assert(!(t[t.len() - 1] is Group) && !(t[t.len() - 1] is WithGroup));
            lemma_add_run(t.last());
            lemma_add_atoms_push(t.drop_last(), t.last());
            assert(t.drop_last().push(t.last()) =~= t);
            assert(add_atoms(t).len() > 0);
            assert(add_atoms(Seq::<AddNode>::empty()) =~= Seq::<AddAtom>::empty());
        }
        assert(s =~= t);
    } else {
        if add_run_count(s.last()) <= add_run_count(t.last()) {
            lemma_add_canonical_last(s, t);
        } else {
            lemma_add_canonical_last(t, s);
        }
        let s1 = s.drop_last();
        let t1 = t.drop_last();
        assert forall|i: int| 0 <= i < s1.len() implies #[trigger] add_elem_wf(s1[i]) by {
            assert(s1[i] == s[i]);
        }
        assert forall|i: int| 0 <= i < t1.len() implies #[trigger] add_elem_wf(t1[i]) by {
            assert(t1[i] == t[i]);
        }
        assert forall|i: int| 0 <= i < s1.len() implies !(#[trigger] s1[i] is Group) && !(s1[i] is WithGroup) by {
            assert(s1[i] == s[i]);
        }
        assert forall|i: int| 0 <= i < t1.len() implies !(#[trigger] t1[i] is Group) && !(t1[i] is WithGroup) by {
            assert(t1[i] == t[i]);
        }
        lemma_add_canonical(s1, t1);
        assert(s =~= s1.push(s.last()));
        assert(t =~= t1.push(t.last()));
    }
}

// ---------------------------------------------------------------------------
// Merged at every level.

/// A document element whose group contents are merged at every level.
pub open spec fn doc_deep_node(e: DocNode) -> bool
    decreases e, 1nat,
{
    match e {
        DocNode::Text(..) => true,
        DocNode::Group(_, s) => doc_deep(s),
    }
}

/// A document span merged at every level: no two neighbours that placement
/// would join, here or inside any group.
#[verifier::opaque]
pub open spec fn doc_deep(s: Seq<DocNode>) -> bool
    decreases s, 0nat,
{
    &&& doc_merged(s)
    &&& forall|i: int| 0 <= i < s.len() ==> doc_deep_node(#[trigger] s[i])
}

/// An element of a span merged at every level is so itself, and the span
/// is merged; the empty span is merged at every level.
pub proof fn lemma_doc_deep_at(s: Seq<DocNode>, i: int)
    ensures
        doc_deep(s) && 0 <= i < s.len() ==> doc_deep_node(s[i]),
        doc_deep(s) ==> doc_merged(s),
        doc_deep(s) ==> forall|k: int| 0 <= k < s.len() ==> doc_deep_node(#[trigger] s[k]),
        doc_deep(Seq::<DocNode>::empty()),
{
    reveal(doc_deep);
}

/// The last atom of a document element.
proof fn lemma_doc_last_atom(e: DocNode)
    requires
        doc_elem_wf(e),
    ensures
        doc_elem_atoms(e).len() > 0,
        match e {
            DocNode::Text(st, t) => doc_elem_atoms(e).last() == crate::doc::DocAtom::Char(st, t.last()),
            DocNode::Group(at, g) => doc_elem_atoms(e) == seq![crate::doc::DocAtom::Group(at, doc_atoms(g))],
        },
{
    match e {
        DocNode::Text(st, t) => crate::doc::lemma_text_atoms(st, t),
        _ => {},
    }
}

/// Of two document spans merged at every level, with the same atoms, the
/// last elements are the same.
proof fn lemma_doc_deep_last(s: Seq<DocNode>, t: Seq<DocNode>)
    requires
        doc_span_wf(s),
        doc_span_wf(t),
        doc_deep(s),
        doc_deep(t),
        doc_atoms(s) == doc_atoms(t),
        s.len() > 0,
        t.len() > 0,
    ensures
        s.last() == t.last(),
        doc_atoms(s.drop_last()) == doc_atoms(t.drop_last()),
    decreases s, 0nat,
{
    reveal(doc_deep);
    let e = s.last();
    let f = t.last();
    assert(doc_elem_wf(s[s.len() - 1]));
    assert(doc_elem_wf(t[t.len() - 1]));
    assert(doc_deep_node(s[s.len() - 1]));
    assert(doc_deep_node(t[t.len() - 1]));
    let ae = doc_elem_atoms(e);
    let af = doc_elem_atoms(f);
    let m = ae.len();
    let n = af.len();
    let x = doc_atoms(s);
    let ps = doc_atoms(s.drop_last());
    let pt = doc_atoms(t.drop_last());
    assert(s.drop_last().push(e) =~= s);
    assert(t.drop_last().push(f) =~= t);
    lemma_doc_atoms_push(s.drop_last(), e);
    lemma_doc_atoms_push(t.drop_last(), f);
    lemma_doc_last_atom(e);
    lemma_doc_last_atom(f);
    assert(x == ps + ae);
    assert(x == pt + af);
    assert(x[x.len() - 1] == ae[m - 1]);
    assert(x[x.len() - 1] == af[n - 1]);
    match (e, f) {
        (DocNode::Text(st1, c1), DocNode::Text(st2, c2)) => {
            crate::doc::lemma_text_atoms(st1, c1);
            crate::doc::lemma_text_atoms(st2, c2);
            assert(st1 == st2);
            if m < n {
                let k = x.len() - m - 1;
                assert(x[k] == af[n - m - 1]);
                if s.len() >= 2 {
                    let g = s[s.len() - 2];
                    assert(doc_elem_wf(g));
                    assert(s.drop_last().drop_last().push(g) =~= s.drop_last());
                    lemma_doc_atoms_push(s.drop_last().drop_last(), g);
                    lemma_doc_last_atom(g);
                    assert(ps[ps.len() - 1] == doc_elem_atoms(g).last());
                    assert(x[k] == ps[ps.len() - 1]);
                    assert(!doc_joinable(g, e));
                } else {
                    assert(s.drop_last() =~= Seq::<DocNode>::empty());
                    assert(ps =~= Seq::<crate::doc::DocAtom>::empty());
                }
            }
            if n < m {
                let k = x.len() - n - 1;
                assert(x[k] == ae[m - n - 1]);
                if t.len() >= 2 {
                    let g = t[t.len() - 2];
                    assert(doc_elem_wf(g));
                    assert(t.drop_last().drop_last().push(g) =~= t.drop_last());
                    lemma_doc_atoms_push(t.drop_last().drop_last(), g);
                    lemma_doc_last_atom(g);
                    assert(pt[pt.len() - 1] == doc_elem_atoms(g).last());
                    assert(x[k] == pt[pt.len() - 1]);
                    assert(!doc_joinable(g, f));
                } else {
                    assert(t.drop_last() =~= Seq::<DocNode>::empty());
                    assert(pt =~= Seq::<crate::doc::DocAtom>::empty());
                }
            }
            assert(m == n);
            assert(ps =~= x.take(x.len() - m));
            assert(pt =~= x.take(x.len() - n));
            assert forall|i: int| 0 <= i < m implies c1[i] == c2[i] by {
                assert(x[ps.len() + i] == ae[i]);
                assert(x[pt.len() + i] == af[i]);
            }
            assert(c1 =~= c2);
        },
        (DocNode::Group(at1, g1), DocNode::Group(at2, g2)) => {
            assert(m == 1 && n == 1);
            assert(at1 == at2);
            assert(doc_atoms(g1) == doc_atoms(g2));
            crate::doc::lemma_doc_group_wf(e);
            crate::doc::lemma_doc_group_wf(f);
            assert(decreases_to!(s => s[s.len() - 1]));
            lemma_doc_canonical_deep(g1, g2);
            assert(ps =~= x.take(x.len() - 1));
            assert(pt =~= x.take(x.len() - 1));
        },
        _ => {
            assert(false);
        },
    }
}

/// A document span merged at every level is fixed by its atoms.
pub proof fn lemma_doc_canonical_deep(s: Seq<DocNode>, t: Seq<DocNode>)
    requires
        doc_span_wf(s),
        doc_span_wf(t),
        doc_deep(s),
        doc_deep(t),
        doc_atoms(s) == doc_atoms(t),
    ensures
        s == t,
    decreases s, 1nat,
{
    if s.len() == 0 || t.len() == 0 {
        if s.len() > 0 {
            assert(doc_elem_wf(s[s.len() - 1]));
            lemma_doc_last_atom(s.last());
            lemma_doc_atoms_push(s.drop_last(), s.last());
            assert(s.drop_last().push(s.last()) =~= s);
            assert(doc_atoms(Seq::<DocNode>::empty()) =~= Seq::<crate::doc::DocAtom>::empty());
        }
        if t.len() > 0 {
            assert(doc_elem_wf(t[t.len() - 1]));
            lemma_doc_last_atom(t.last());
            lemma_doc_atoms_push(t.drop_last(), t.last());
            assert(t.drop_last().push(t.last()) =~= t);
            assert(doc_atoms(Seq::<DocNode>::empty()) =~= Seq::<crate::doc::DocAtom>::empty());
        }
        assert(s =~= t);
    } else {
        lemma_doc_deep_last(s, t);
        let s1 = s.drop_last();
        let t1 = t.drop_last();
        reveal(doc_deep);
        assert forall|i: int| 0 <= i < s1.len() implies #[trigger] doc_elem_wf(s1[i]) by {
            assert(s1[i] == s[i]);
        }
        assert forall|i: int| 0 <= i < t1.len() implies #[trigger] doc_elem_wf(t1[i]) by {
            assert(t1[i] == t[i]);
        }
        assert forall|i: int| 0 <= i < s1.len() implies doc_deep_node(#[trigger] s1[i]) by {
            assert(s1[i] == s[i]);
        }
        assert forall|i: int| 0 <= i < t1.len() implies doc_deep_node(#[trigger] t1[i]) by {
            assert(t1[i] == t[i]);
        }
        assert(doc_deep(s1));
        assert(doc_deep(t1));
        lemma_doc_canonical_deep(s1, t1);
        assert(s =~= s1.push(s.last()));
        assert(t =~= t1.push(t.last()));
    }
}

/// Placing an element merged at every level keeps a span so.
pub proof fn lemma_doc_place_deep(s: Seq<DocNode>, e: DocNode)
    ensures
        doc_deep(s) && doc_deep_node(e) ==> doc_deep(doc_place_spec(s, e)),
{
    reveal(doc_deep);
    lemma_doc_place_merged(s, e);
    let r = doc_place_spec(s, e);
    if doc_deep(s) && doc_deep_node(e) {
        assert forall|i: int| 0 <= i < r.len() implies doc_deep_node(#[trigger] r[i]) by {
            if i < s.len() && i < r.len() - 1 {
                assert(r[i] == s[i]);
            }
        }
    }
}

pub proof fn lemma_doc_place_all_deep(s: Seq<DocNode>, all: Seq<DocNode>)
    ensures
        doc_deep(s) && (forall|i: int| 0 <= i < all.len() ==> doc_deep_node(#[trigger] all[i])) ==> doc_deep(
            doc_place_all_spec(s, all),
        ),
    decreases all.len(),
{
    reveal(doc_deep);
    if all.len() > 0 && doc_deep(s) && (forall|i: int| 0 <= i < all.len() ==> doc_deep_node(#[trigger] all[i])) {
        let p = all.drop_last();
        assert forall|i: int| 0 <= i < p.len() implies doc_deep_node(#[trigger] p[i]) by {
            assert(p[i] == all[i]);
        }
        lemma_doc_place_all_deep(s, p);
        assert(doc_deep_node(all[all.len() - 1]));
        lemma_doc_place_deep(doc_place_all_spec(s, p), all.last());
    }
}

/// An element that does not join the last one keeps a span merged at every
/// level.
pub proof fn lemma_doc_push_deep(s: Seq<DocNode>, e: DocNode)
    requires
        doc_deep(s),
        doc_deep_node(e),
        s.len() == 0 || !doc_joinable(s.last(), e),
    ensures
        doc_deep(s.push(e)),
{
    reveal(doc_deep);
    lemma_doc_merged_push(s, e);
    assert forall|i: int| 0 <= i < s.push(e).len() implies doc_deep_node(#[trigger] s.push(e)[i]) by {
        if i < s.len() {
            assert(s.push(e)[i] == s[i]);
        }
    }
}

/// A deletion element whose group contents are merged at every level.
pub open spec fn del_deep_node(e: DelNode) -> bool
    decreases e, 1nat,
{
    match e {
        DelNode::Group(s) => del_deep(s),
        DelNode::WithGroup(s) => del_deep(s),
        _ => true,
    }
}

/// A deletion span merged at every level: no two neighbours that placement
/// would join, here or inside any group.
#[verifier::opaque]
pub open spec fn del_deep(s: Seq<DelNode>) -> bool
    decreases s, 0nat,
{
    &&& del_merged(s)
    &&& forall|i: int| 0 <= i < s.len() ==> del_deep_node(#[trigger] s[i])
}

/// What a deletion span merged at every level says of its elements.
pub proof fn lemma_del_deep_at(s: Seq<DelNode>)
    ensures
        del_deep(s) ==> del_merged(s),
        del_deep(s) ==> forall|k: int| 0 <= k < s.len() ==> del_deep_node(#[trigger] s[k]),
        del_merged(s) && (forall|k: int| 0 <= k < s.len() ==> del_deep_node(#[trigger] s[k]))
            ==> del_deep(s),
        del_deep(Seq::<DelNode>::empty()),
{
    reveal(del_deep);
}

/// Placing an element merged at every level keeps a span so.
pub proof fn lemma_del_place_deep(s: Seq<DelNode>, e: DelNode)
    ensures
        del_deep(s) && del_deep_node(e) ==> del_deep(del_place_spec(s, e)),
{
    reveal(del_deep);
    lemma_del_place_merged(s, e);
    let r = del_place_spec(s, e);
    if del_deep(s) && del_deep_node(e) {
        assert forall|i: int| 0 <= i < r.len() implies del_deep_node(#[trigger] r[i]) by {
            if i < s.len() && i < r.len() - 1 {
                assert(r[i] == s[i]);
            }
        }
    }
}

/// Placing elements merged at every level keeps a span so.
pub proof fn lemma_del_place_all_deep(s: Seq<DelNode>, all: Seq<DelNode>)
    ensures
        del_deep(s) && (forall|i: int| 0 <= i < all.len() ==> del_deep_node(#[trigger] all[i])) ==> del_deep(
            del_place_all_spec(s, all),
        ),
    decreases all.len(),
{
    reveal(del_deep);
    if all.len() > 0 && del_deep(s) && (forall|i: int| 0 <= i < all.len() ==> del_deep_node(#[trigger] all[i])) {
        let p = all.drop_last();
        assert forall|i: int| 0 <= i < p.len() implies del_deep_node(#[trigger] p[i]) by {
            assert(p[i] == all[i]);
        }
        lemma_del_place_all_deep(s, p);
        assert(del_deep_node(all[all.len() - 1]));
        lemma_del_place_deep(del_place_all_spec(s, p), all.last());
    }
}

/// An insertion element whose group contents are merged at every level.
pub open spec fn add_deep_node(e: AddNode) -> bool
    decreases e, 1nat,
{
    match e {
        AddNode::Group(_, s) => add_deep(s),
        AddNode::WithGroup(s) => add_deep(s),
        _ => true,
    }
}

/// An insertion span merged at every level: no two neighbours that
/// placement would join, here or inside any group.
#[verifier::opaque]
pub open spec fn add_deep(s: Seq<AddNode>) -> bool
    decreases s, 0nat,
{
    &&& add_merged(s)
    &&& forall|i: int| 0 <= i < s.len() ==> add_deep_node(#[trigger] s[i])
}

/// What an insertion span merged at every level says of its elements.
pub proof fn lemma_add_deep_at(s: Seq<AddNode>)
    ensures
        add_deep(s) ==> add_merged(s),
        add_deep(s) ==> forall|k: int| 0 <= k < s.len() ==> add_deep_node(#[trigger] s[k]),
        add_merged(s) && (forall|k: int| 0 <= k < s.len() ==> add_deep_node(#[trigger] s[k]))
            ==> add_deep(s),
        add_deep(Seq::<AddNode>::empty()),
{
    reveal(add_deep);
}

/// Placing an element merged at every level keeps a span so.
pub proof fn lemma_add_place_deep(s: Seq<AddNode>, e: AddNode)
    ensures
        add_deep(s) && add_deep_node(e) ==> add_deep(add_place_spec(s, e)),
{
    reveal(add_deep);
    lemma_add_place_merged(s, e);
    let r = add_place_spec(s, e);
    if add_deep(s) && add_deep_node(e) {
        assert forall|i: int| 0 <= i < r.len() implies add_deep_node(#[trigger] r[i]) by {
            if i < s.len() && i < r.len() - 1 {
                assert(r[i] == s[i]);
            }
        }
    }
}

/// Placing elements merged at every level keeps a span so.
pub proof fn lemma_add_place_all_deep(s: Seq<AddNode>, all: Seq<AddNode>)
    ensures
        add_deep(s) && (forall|i: int| 0 <= i < all.len() ==> add_deep_node(#[trigger] all[i])) ==> add_deep(
            add_place_all_spec(s, all),
        ),
    decreases all.len(),
{
    reveal(add_deep);
    if all.len() > 0 && add_deep(s) && (forall|i: int| 0 <= i < all.len() ==> add_deep_node(#[trigger] all[i])) {
        let p = all.drop_last();
        assert forall|i: int| 0 <= i < p.len() implies add_deep_node(#[trigger] p[i]) by {
            assert(p[i] == all[i]);
        }
        lemma_add_place_all_deep(s, p);
        assert(add_deep_node(all[all.len() - 1]));
        lemma_add_place_deep(add_place_all_spec(s, p), all.last());
    }
}

/// The last atom of a well-formed deletion element.
proof fn lemma_del_last_atom(e: DelNode)
    requires
        del_elem_wf(e),
    ensures
        del_elem_atoms(e).len() > 0,
        !(e is Group) && !(e is WithGroup) ==> del_elem_atoms(e) == repeat(del_run_atom(e), del_run_count(e))
            && del_run_count(e) > 0 && del_elem_atoms(e).last() == del_run_atom(e),
        e matches DelNode::Group(g) ==> del_elem_atoms(e) == seq![DelAtom::Group(del_atoms(g))],
        e matches DelNode::WithGroup(g) ==> del_elem_atoms(e) == seq![DelAtom::WithGroup(del_atoms(g))],
{
    if !(e is Group) && !(e is WithGroup) {
        lemma_del_run(e);
        crate::doc::lemma_repeat(del_run_atom(e), del_run_count(e));
    }
}

/// Of two deletion spans merged at every level, with the same atoms, the
/// last elements are the same.
proof fn lemma_del_deep_last(s: Seq<DelNode>, t: Seq<DelNode>)
    requires
        del_span_wf(s),
        del_span_wf(t),
        del_deep(s),
        del_deep(t),
        del_atoms(s) == del_atoms(t),
        s.len() > 0,
        t.len() > 0,
    ensures
        s.last() == t.last(),
        del_atoms(s.drop_last()) == del_atoms(t.drop_last()),
    decreases s, 0nat,
{
    reveal(del_deep);
    let e = s.last();
    let f = t.last();
    assert(del_elem_wf(s[s.len() - 1]));
    assert(del_elem_wf(t[t.len() - 1]));
    assert(del_deep_node(s[s.len() - 1]));
    assert(del_deep_node(t[t.len() - 1]));
    let ae = del_elem_atoms(e);
    let af = del_elem_atoms(f);
    let m = ae.len();
    let n = af.len();
    let x = del_atoms(s);
    let ps = del_atoms(s.drop_last());
    let pt = del_atoms(t.drop_last());
    assert(s.drop_last().push(e) =~= s);
    assert(t.drop_last().push(f) =~= t);
    lemma_del_atoms_push(s.drop_last(), e);
    lemma_del_atoms_push(t.drop_last(), f);
    lemma_del_last_atom(e);
    lemma_del_last_atom(f);
    assert(x == ps + ae);
    assert(x == pt + af);
    assert(x[x.len() - 1] == ae[m - 1]);
    assert(x[x.len() - 1] == af[n - 1]);
    if !(e is Group) && !(e is WithGroup) && !(f is Group) && !(f is WithGroup) {
        crate::doc::lemma_repeat(del_run_atom(e), del_run_count(e));
        crate::doc::lemma_repeat(del_run_atom(f), del_run_count(f));
        if m < n {
            let k = x.len() - m - 1;
            assert(x[k] == af[n - m - 1]);
            if s.len() >= 2 {
                let g = s[s.len() - 2];
                assert(del_elem_wf(g));
                assert(s.drop_last().drop_last().push(g) =~= s.drop_last());
                lemma_del_atoms_push(s.drop_last().drop_last(), g);
                lemma_del_last_atom(g);
                assert(ps[ps.len() - 1] == del_elem_atoms(g).last());
                assert(x[k] == ps[ps.len() - 1]);
                assert(!del_joinable(g, e));
            } else {
                assert(s.drop_last() =~= Seq::<DelNode>::empty());
                assert(ps =~= Seq::<DelAtom>::empty());
            }
        }
        if n < m {
            let k = x.len() - n - 1;
            assert(x[k] == ae[m - n - 1]);
            if t.len() >= 2 {
                let g = t[t.len() - 2];
                assert(del_elem_wf(g));
                assert(t.drop_last().drop_last().push(g) =~= t.drop_last());
                lemma_del_atoms_push(t.drop_last().drop_last(), g);
                lemma_del_last_atom(g);
                assert(pt[pt.len() - 1] == del_elem_atoms(g).last());
                assert(x[k] == pt[pt.len() - 1]);
                assert(!del_joinable(g, f));
            } else {
                assert(t.drop_last() =~= Seq::<DelNode>::empty());
                assert(pt =~= Seq::<DelAtom>::empty());
            }
        }
        assert(m == n);
        lemma_del_run(e);
        lemma_del_run(f);
        assert(ps =~= x.take(x.len() - m));
        assert(pt =~= x.take(x.len() - n));
    } else {
        match (e, f) {
            (DelNode::Group(g1), DelNode::Group(g2)) => {
                crate::doc::lemma_del_group_wf(e);
                crate::doc::lemma_del_group_wf(f);
                assert(decreases_to!(s => s[s.len() - 1]));
                lemma_del_canonical_deep(g1, g2);
                assert(ps =~= x.take(x.len() - 1));
                assert(pt =~= x.take(x.len() - 1));
            },
            (DelNode::WithGroup(g1), DelNode::WithGroup(g2)) => {
                crate::doc::lemma_del_group_wf(e);
                crate::doc::lemma_del_group_wf(f);
                assert(decreases_to!(s => s[s.len() - 1]));
                lemma_del_canonical_deep(g1, g2);
                assert(ps =~= x.take(x.len() - 1));
                assert(pt =~= x.take(x.len() - 1));
            },
            _ => {
                assert(false);
            },
        }
    }
}

/// A deletion span merged at every level is fixed by its atoms.
pub proof fn lemma_del_canonical_deep(s: Seq<DelNode>, t: Seq<DelNode>)
    requires
        del_span_wf(s),
        del_span_wf(t),
        del_deep(s),
        del_deep(t),
        del_atoms(s) == del_atoms(t),
    ensures
        s == t,
    decreases s, 1nat,
{
    if s.len() == 0 || t.len() == 0 {
        if s.len() > 0 {
            assert(del_elem_wf(s[s.len() - 1]));
            lemma_del_last_atom(s.last());
            lemma_del_atoms_push(s.drop_last(), s.last());
            assert(s.drop_last().push(s.last()) =~= s);
            assert(del_atoms(Seq::<DelNode>::empty()) =~= Seq::<DelAtom>::empty());
        }
        if t.len() > 0 {
            assert(del_elem_wf(t[t.len() - 1]));
            lemma_del_last_atom(t.last());
            lemma_del_atoms_push(t.drop_last(), t.last());
            assert(t.drop_last().push(t.last()) =~= t);
            assert(del_atoms(Seq::<DelNode>::empty()) =~= Seq::<DelAtom>::empty());
        }
        assert(s =~= t);
    } else {
        lemma_del_deep_last(s, t);
        let s1 = s.drop_last();
        let t1 = t.drop_last();
        reveal(del_deep);
        assert forall|i: int| 0 <= i < s1.len() implies #[trigger] del_elem_wf(s1[i]) by {
            assert(s1[i] == s[i]);
        }
        assert forall|i: int| 0 <= i < t1.len() implies #[trigger] del_elem_wf(t1[i]) by {
            assert(t1[i] == t[i]);
        }
        assert forall|i: int| 0 <= i < s1.len() implies del_deep_node(#[trigger] s1[i]) by {
            assert(s1[i] == s[i]);
        }
        assert forall|i: int| 0 <= i < t1.len() implies del_deep_node(#[trigger] t1[i]) by {
            assert(t1[i] == t[i]);
        }
        assert(del_deep(s1));
        assert(del_deep(t1));
        lemma_del_canonical_deep(s1, t1);
        assert(s =~= s1.push(s.last()));
        assert(t =~= t1.push(t.last()));
    }
}

/// The last atom of a well-formed insertion element.
proof fn lemma_add_last_atom(e: AddNode)
    requires
        add_elem_wf(e),
    ensures
        add_elem_atoms(e).len() > 0,
        !(e is Group) && !(e is WithGroup) ==> add_elem_atoms(e).len() == add_run_count(e)
            && add_run_count(e) > 0,
        e matches AddNode::Group(at, g) ==> add_elem_atoms(e) == seq![AddAtom::Group(at, add_atoms(g))],
        e matches AddNode::WithGroup(g) ==> add_elem_atoms(e) == seq![AddAtom::WithGroup(add_atoms(g))],
        !(e is Group) && !(e is WithGroup) ==> !(add_elem_atoms(e).last() is Group) && !(
        add_elem_atoms(e).last() is WithGroup),
{
    if !(e is Group) && !(e is WithGroup) {
        lemma_add_run(e);
        let k = add_run_count(e) - 1;
        assert(add_elem_atoms(e)[k] == add_elem_atoms(e).last());
    }
}

/// Of two insertion spans merged at every level, with the same atoms, the
/// last elements are the same.
proof fn lemma_add_deep_last(s: Seq<AddNode>, t: Seq<AddNode>)
    requires
        add_span_wf(s),
        add_span_wf(t),
        add_deep(s),
        add_deep(t),
        add_atoms(s) == add_atoms(t),
        s.len() > 0,
        t.len() > 0,
    ensures
        s.last() == t.last(),
        add_atoms(s.drop_last()) == add_atoms(t.drop_last()),
    decreases s, 0nat,
{
    reveal(add_deep);
    let e = s.last();
    let f = t.last();
    assert(add_elem_wf(s[s.len() - 1]));
    assert(add_elem_wf(t[t.len() - 1]));
    assert(add_deep_node(s[s.len() - 1]));
    assert(add_deep_node(t[t.len() - 1]));
    let ae = add_elem_atoms(e);
    let af = add_elem_atoms(f);
    let m = ae.len();
    let n = af.len();
    let x = add_atoms(s);
    let ps = add_atoms(s.drop_last());
    let pt = add_atoms(t.drop_last());
    assert(s.drop_last().push(e) =~= s);
    assert(t.drop_last().push(f) =~= t);
    lemma_add_atoms_push(s.drop_last(), e);
    lemma_add_atoms_push(t.drop_last(), f);
    lemma_add_last_atom(e);
    lemma_add_last_atom(f);
    assert(x == ps + ae);
    assert(x == pt + af);
    assert(x[x.len() - 1] == ae[m - 1]);
    assert(x[x.len() - 1] == af[n - 1]);
    if !(e is Group) && !(e is WithGroup) && !(f is Group) && !(f is WithGroup) {
        lemma_add_run(e);
        lemma_add_run(f);
        assert(add_atom_like(ae[m - 1], af[n - 1]));
        if m < n {
            let k = x.len() - m - 1;
            assert(x[k] == af[n - m - 1]);
            assert(add_atom_like(af[n - m - 1], ae[m - 1]));
            if s.len() >= 2 {
                let g = s[s.len() - 2];
                assert(add_elem_wf(g));
                assert(s.drop_last().drop_last().push(g) =~= s.drop_last());
                lemma_add_atoms_push(s.drop_last().drop_last(), g);
                lemma_add_last_atom(g);
                let ag = add_elem_atoms(g);
                assert(ps[ps.len() - 1] == ag.last());
                assert(x[k] == ps[ps.len() - 1]);
                if !(g is Group) && !(g is WithGroup) {
                    lemma_add_run(g);
                    assert(ag.last() == ag[add_run_count(g) - 1]);
                }
                assert(!add_joinable(g, e));
            } else {
                assert(s.drop_last() =~= Seq::<AddNode>::empty());
                assert(ps =~= Seq::<AddAtom>::empty());
            }
        }
        if n < m {
            let k = x.len() - n - 1;
            assert(x[k] == ae[m - n - 1]);
            assert(add_atom_like(ae[m - n - 1], af[n - 1]));
            if t.len() >= 2 {
                let g = t[t.len() - 2];
                assert(add_elem_wf(g));
                assert(t.drop_last().drop_last().push(g) =~= t.drop_last());
                lemma_add_atoms_push(t.drop_last().drop_last(), g);
                lemma_add_last_atom(g);
                let ag = add_elem_atoms(g);
                assert(pt[pt.len() - 1] == ag.last());
                assert(x[k] == pt[pt.len() - 1]);
                if !(g is Group) && !(g is WithGroup) {
                    lemma_add_run(g);
                    assert(ag.last() == ag[add_run_count(g) - 1]);
                }
                assert(!add_joinable(g, f));
            } else {
                assert(t.drop_last() =~= Seq::<AddNode>::empty());
                assert(pt =~= Seq::<AddAtom>::empty());
            }
        }
        assert(m == n);
        assert(ps =~= x.take(x.len() - m));
        assert(pt =~= x.take(x.len() - n));
        assert forall|i: int| 0 <= i < m implies ae[i] == af[i] by {
            assert(x[ps.len() + i] == ae[i]);
            assert(x[pt.len() + i] == af[i]);
        }
        match (e, f) {
            (AddNode::Text(_, c1), AddNode::Text(_, c2)) => {
                assert forall|i: int| 0 <= i < m implies c1[i] == c2[i] by {
                    assert(ae[i] == af[i]);
                }
                assert(c1 =~= c2);
            },
            _ => {},
        }
    } else {
        match (e, f) {
            (AddNode::Group(at1, g1), AddNode::Group(at2, g2)) => {
                crate::doc::lemma_add_group_wf(e);
                crate::doc::lemma_add_group_wf(f);
                assert(decreases_to!(s => s[s.len() - 1]));
                lemma_add_canonical_deep(g1, g2);
                assert(ps =~= x.take(x.len() - 1));
                assert(pt =~= x.take(x.len() - 1));
            },
            (AddNode::WithGroup(g1), AddNode::WithGroup(g2)) => {
                crate::doc::lemma_add_group_wf(e);
                crate::doc::lemma_add_group_wf(f);
                assert(decreases_to!(s => s[s.len() - 1]));
                lemma_add_canonical_deep(g1, g2);
                assert(ps =~= x.take(x.len() - 1));
                assert(pt =~= x.take(x.len() - 1));
            },
            _ => {
                assert(false);
            },
        }
    }
}

/// An insertion span merged at every level is fixed by its atoms.
pub proof fn lemma_add_canonical_deep(s: Seq<AddNode>, t: Seq<AddNode>)
    requires
        add_span_wf(s),
        add_span_wf(t),
        add_deep(s),
        add_deep(t),
        add_atoms(s) == add_atoms(t),
    ensures
        s == t,
    decreases s, 1nat,
{
    if s.len() == 0 || t.len() == 0 {
        if s.len() > 0 {
            assert(add_elem_wf(s[s.len() - 1]));
            lemma_add_last_atom(s.last());
            lemma_add_atoms_push(s.drop_last(), s.last());
            assert(s.drop_last().push(s.last()) =~= s);
            assert(add_atoms(Seq::<AddNode>::empty()) =~= Seq::<AddAtom>::empty());
        }
        if t.len() > 0 {
            assert(add_elem_wf(t[t.len() - 1]));
            lemma_add_last_atom(t.last());
            lemma_add_atoms_push(t.drop_last(), t.last());
            assert(t.drop_last().push(t.last()) =~= t);
            assert(add_atoms(Seq::<AddNode>::empty()) =~= Seq::<AddAtom>::empty());
        }
        assert(s =~= t);
    } else {
        lemma_add_deep_last(s, t);
        let s1 = s.drop_last();
        let t1 = t.drop_last();
        reveal(add_deep);
        assert forall|i: int| 0 <= i < s1.len() implies #[trigger] add_elem_wf(s1[i]) by {
            assert(s1[i] == s[i]);
        }
        assert forall|i: int| 0 <= i < t1.len() implies #[trigger] add_elem_wf(t1[i]) by {
            assert(t1[i] == t[i]);
        }
        assert forall|i: int| 0 <= i < s1.len() implies add_deep_node(#[trigger] s1[i]) by {
            assert(s1[i] == s[i]);
        }
        assert forall|i: int| 0 <= i < t1.len() implies add_deep_node(#[trigger] t1[i]) by {
            assert(t1[i] == t[i]);
        }
        assert(add_deep(s1));
        assert(add_deep(t1));
        lemma_add_canonical_deep(s1, t1);
        assert(s =~= s1.push(s.last()));
        assert(t =~= t1.push(t.last()));
    }
}

/// Dropping the last element keeps a span merged at every level.
pub proof fn lemma_deep_drop_last(d: Seq<DelNode>, a: Seq<AddNode>)
    ensures
        d.len() > 0 && del_deep(d) ==> del_deep(d.drop_last()),
        a.len() > 0 && add_deep(a) ==> add_deep(a.drop_last()),
{
    reveal(del_deep);
    reveal(add_deep);
    if d.len() > 0 && del_deep(d) {
        assert forall|i: int| 0 <= i < d.drop_last().len() implies del_deep_node(#[trigger] d.drop_last()[i]) by {
            assert(d.drop_last()[i] == d[i]);
        }
        if d.len() >= 2 {
            assert(d.drop_last().drop_last() =~= d.drop_last().drop_last());
        }
    }
    if a.len() > 0 && add_deep(a) {
        assert forall|i: int| 0 <= i < a.drop_last().len() implies add_deep_node(#[trigger] a.drop_last()[i]) by {
            assert(a.drop_last()[i] == a[i]);
        }
    }
}

/// Placing elements into an empty span gives a merged span.
pub proof fn lemma_merged_empty()
    ensures
        doc_merged(Seq::<DocNode>::empty()),
        del_merged(Seq::<DelNode>::empty()),
        add_merged(Seq::<AddNode>::empty()),
        cur_merged(Seq::<CurNode>::empty()),
{
}

// ---------------------------------------------------------------------------
// Placement on spans.

/// Spans that take elements at their end.
pub trait DocPlaceable: View<V = Seq<DocElement>> + Sized {
    /// The number of atoms of the span.
    fn skip_len(&self) -> (res: usize)
        requires
            doc_atoms(doc_span_view(self@)).len() <= usize::MAX,
        ensures
            res == doc_atoms(doc_span_view(self@)).len(),
    ;

    fn place_all(&mut self, all: &[DocElement])
        requires
            doc_place_all_ok(doc_span_view(old(self)@), doc_span_view(all@)),
        ensures
            doc_span_view(final(self)@) == doc_place_all_spec(
                doc_span_view(old(self)@),
                doc_span_view(all@),
            ),
            doc_merged(doc_span_view(old(self)@)) ==> doc_merged(doc_span_view(final(self)@)),
            doc_deep(doc_span_view(old(self)@)) && (forall|i: int|
                0 <= i < all@.len() ==> doc_deep_node(#[trigger] doc_span_view(all@)[i])) ==> doc_deep(
                doc_span_view(final(self)@),
            ),
    ;

    fn place(&mut self, value: &DocElement)
        requires
            doc_place_ok(doc_span_view(old(self)@), value@),
        ensures
            doc_span_view(final(self)@) == doc_place_spec(doc_span_view(old(self)@), value@),
            doc_merged(doc_span_view(old(self)@)) ==> doc_merged(doc_span_view(final(self)@)),
            doc_deep(doc_span_view(old(self)@)) && doc_deep_node(value@) ==> doc_deep(doc_span_view(final(self)@)),
    ;
}

impl DocPlaceable for Vec<DocElement> {
    fn skip_len(&self) -> (res: usize) {
        let ghost v = doc_span_view(self@);
        proof {
            lemma_doc_span_view(self@);
        }
        let mut ret: usize = 0;
        for i in 0..self.len()
            invariant
                v == doc_span_view(self@),
                v.len() == self@.len(),
                forall|j: int| 0 <= j < v.len() ==> #[trigger] v[j] == self@[j]@,
                doc_atoms(v).len() <= usize::MAX,
                ret == doc_atoms(v.take(i as int)).len(),
        {
            proof {
                assert(v.take(i + 1).drop_last() =~= v.take(i as int));
                assert(v.take(i + 1).last() == v[i as int]);
                assert(doc_atoms(v.take(i + 1)) == doc_atoms(v.take(i as int)) + doc_elem_atoms(
                    v[i as int],
                ));
                lemma_doc_atoms_concat(v.take(i + 1), v.skip(i + 1));
                assert(v.take(i + 1) + v.skip(i + 1) =~= v);
                match v[i as int] {
                    DocNode::Text(st, t) => lemma_text_atoms(st, t),
                    _ => {},
                }
            }
            let n = match &self[i] {
                DocText(_, text) => text.char_len(),
                DocGroup(..) => 1,
            };
            ret = ret + n;
        }
        proof {
            assert(v.take(self.len() as int) =~= v);
        }
        ret
    }

    fn place_all(&mut self, all: &[DocElement]) {
        let ghost s0 = doc_span_view(self@);
        let ghost av = doc_span_view(all@);
        proof {
            lemma_doc_place_all_merged(s0, av);
            lemma_doc_place_all_deep(s0, av);
            lemma_doc_span_view(all@);
        }
        for i in 0..all.len()
            invariant
                av == doc_span_view(all@),
                av.len() == all@.len(),
                forall|j: int| 0 <= j < all@.len() ==> #[trigger] av[j] == all@[j]@,
                doc_place_all_ok(s0, av),
                doc_span_view(self@) == doc_place_all_spec(s0, av.take(i as int)),
        {
            proof {
                assert(av.take(i + 1).drop_last() =~= av.take(i as int));
                lemma_doc_place_all_ok_prefix(s0, av, i + 1);
            }
            self.place(&all[i]);
        }
        proof {
            assert(av.take(all.len() as int) =~= av);
        }
    }

    fn place(&mut self, value: &DocElement) {
        let ghost s = doc_span_view(self@);
        proof {
            lemma_doc_place_merged(s, value@);
            lemma_doc_place_deep(s, value@);
            lemma_doc_span_view(self@);
        }
        let len = self.len();
        match value {
            DocText(styles, text) => {
                if len > 0 {
                    let same = match &self[len - 1] {
                        DocText(prev_styles, _) => *prev_styles == *styles,
                        _ => false,
                    };
                    if same {
                        let last = self.pop().unwrap();
                        proof {
                            assert(self@ =~= old(self)@.drop_last());
                            lemma_doc_view_subrange(old(self)@, 0, len - 1);
                        }
                        match last {
                            DocText(st, mut prev) => {
                                prev.push_doc_string(text);
                                let merged = DocText(st, prev);
                                proof {
                                    lemma_doc_view_push(self@, merged);
                                    assert(s.drop_last() =~= s.subrange(0, len - 1));
                                }
                                self.push(merged);
                                return;
                            },
                            DocGroup(..) => {
                                proof {
                                    assert(false);
                                }
                                return;
                            },
                        }
                    }
                }
                let copy = clone_doc_elem(value);
                proof {
                    lemma_doc_view_push(self@, copy);
                }
                self.push(copy);
            },
            DocGroup(..) => {
                let copy = clone_doc_elem(value);
                proof {
                    lemma_doc_view_push(self@, copy);
                }
                self.push(copy);
            },
        }
    }
}

pub trait DelPlaceable: View<V = Seq<DelElement>> + Sized {
    fn place_all(&mut self, all: &[DelElement])
        requires
            del_place_all_ok(del_span_view(old(self)@), del_span_view(all@)),
        ensures
            del_span_view(final(self)@) == del_place_all_spec(
                del_span_view(old(self)@),
                del_span_view(all@),
            ),
            del_merged(del_span_view(old(self)@)) ==> del_merged(del_span_view(final(self)@)),
    ;

    fn place(&mut self, value: &DelElement)
        requires
            del_place_ok(del_span_view(old(self)@), value@),
        ensures
            del_span_view(final(self)@) == del_place_spec(del_span_view(old(self)@), value@),
            del_merged(del_span_view(old(self)@)) ==> del_merged(del_span_view(final(self)@)),
    ;

    /// The length of the document that the deletion walks over.
    fn skip_pre_len(&self) -> (res: usize)
        requires
            del_atoms(del_span_view(self@)).len() <= usize::MAX,
        ensures
            res == del_atoms(del_span_view(self@)).len(),
    ;

    /// The length of what the deletion leaves of what it walks over.
    fn skip_post_len(&self) -> (res: usize)
        requires
            del_post(del_atoms(del_span_view(self@))) <= usize::MAX,
        ensures
            res == del_post(del_atoms(del_span_view(self@))),
    ;

    /// Whether the span is empty or a single skip.
    fn is_continuous_skip(&self) -> (res: bool)
        ensures
            res == (self@.len() == 0 || (self@.len() == 1 && self@[0] is DelSkip)),
    ;
}

impl DelPlaceable for Vec<DelElement> {
    fn place_all(&mut self, all: &[DelElement]) {
        let ghost s0 = del_span_view(self@);
        let ghost av = del_span_view(all@);
        proof {
            lemma_del_place_all_merged(s0, av);
            lemma_del_span_view(all@);
        }
        for i in 0..all.len()
            invariant
                av == del_span_view(all@),
                av.len() == all@.len(),
                forall|j: int| 0 <= j < all@.len() ==> #[trigger] av[j] == all@[j]@,
                del_place_all_ok(s0, av),
                del_span_view(self@) == del_place_all_spec(s0, av.take(i as int)),
        {
            proof {
                assert(av.take(i + 1).drop_last() =~= av.take(i as int));
                lemma_del_place_all_ok_prefix(s0, av, i + 1);
            }
            self.place(&all[i]);
        }
        proof {
            assert(av.take(all.len() as int) =~= av);
        }
    }

    fn place(&mut self, value: &DelElement) {
        let ghost s = del_span_view(self@);
        proof {
            lemma_del_place_merged(s, value@);
            lemma_del_span_view(self@);
        }
        let len = self.len();
        match value {
            DelText(count) => {
                if len > 0 {
                    let merged: Option<DelElement> = match &self[len - 1] {
                        DelText(prev) => Some(DelText(*prev + *count)),
                        _ => None,
                    };
                    if let Some(m) = merged {
                        proof {
                            lemma_del_view_update(self@, len - 1, m);
                            assert(s.drop_last().push(m@) =~= s.update(len - 1, m@));
                        }
                        self.set(len - 1, m);
                        return;
                    }
                }
                let copy = clone_del_elem(value);
                proof {
                    lemma_del_view_push(self@, copy);
                }
                self.push(copy);
            },
            DelSkip(count) => {
                if len > 0 {
                    let merged: Option<DelElement> = match &self[len - 1] {
                        DelSkip(prev) => Some(DelSkip(*prev + *count)),
                        _ => None,
                    };
                    if let Some(m) = merged {
                        proof {
                            lemma_del_view_update(self@, len - 1, m);
                            assert(s.drop_last().push(m@) =~= s.update(len - 1, m@));
                        }
                        self.set(len - 1, m);
                        return;
                    }
                }
                let copy = clone_del_elem(value);
                proof {
                    lemma_del_view_push(self@, copy);
                }
                self.push(copy);
            },
            DelStyles(count, styles) => {
                if len > 0 {
                    let merged: Option<DelElement> = match &self[len - 1] {
                        DelStyles(prev, prev_styles) => if *prev_styles == *styles {
                            Some(DelStyles(*prev + *count, *styles))
                        } else {
                            None
                        },
                        _ => None,
                    };
                    if let Some(m) = merged {
                        proof {
                            lemma_del_view_update(self@, len - 1, m);
                            assert(s.drop_last().push(m@) =~= s.update(len - 1, m@));
                        }
                        self.set(len - 1, m);
                        return;
                    }
                }
                let copy = clone_del_elem(value);
                proof {
                    lemma_del_view_push(self@, copy);
                }
                self.push(copy);
            },
            DelGroup(..) | DelWithGroup(..) => {
                let copy = clone_del_elem(value);
                proof {
                    lemma_del_view_push(self@, copy);
                }
                self.push(copy);
            },
        }
    }

    fn skip_pre_len(&self) -> (res: usize) {
        let ghost v = del_span_view(self@);
        proof {
            lemma_del_span_view(self@);
        }
        let mut ret: usize = 0;
        for i in 0..self.len()
            invariant
                v == del_span_view(self@),
                v.len() == self@.len(),
                forall|j: int| 0 <= j < v.len() ==> #[trigger] v[j] == self@[j]@,
                del_atoms(v).len() <= usize::MAX,
                ret == del_atoms(v.take(i as int)).len(),
        {
            proof {
                assert(v.take(i + 1).drop_last() =~= v.take(i as int));
                assert(v.take(i + 1).last() == v[i as int]);
                assert(del_atoms(v.take(i + 1)) == del_atoms(v.take(i as int)) + del_elem_atoms(
                    v[i as int],
                ));
                lemma_del_atoms_concat(v.take(i + 1), v.skip(i + 1));
                assert(v.take(i + 1) + v.skip(i + 1) =~= v);
                match v[i as int] {
                    DelNode::Skip(n) => lemma_repeat(DelAtom::Skip, n),
                    DelNode::Text(n) => lemma_repeat(DelAtom::Text, n),
                    DelNode::Styles(n, st) => lemma_repeat(DelAtom::Styles(st), n),
                    _ => {},
                }
            }
            let n = match &self[i] {
                DelSkip(n) => *n,
                DelText(n) => *n,
                DelStyles(n, _) => *n,
                DelGroup(..) | DelWithGroup(..) => 1,
            };
            ret = ret + n;
        }
        proof {
            assert(v.take(self.len() as int) =~= v);
        }
        ret
    }

    fn skip_post_len(&self) -> (res: usize) {
        del_skip_post_len(self)
    }

    fn is_continuous_skip(&self) -> (res: bool) {
        if self.len() > 1 {
            false
        } else if self.len() == 0 {
            true
        } else {
            match &self[0] {
                DelSkip(_) => true,
                _ => false,
            }
        }
    }
}

/// The length of what a deletion leaves of what it walks over.
pub fn del_skip_post_len(span: &Vec<DelElement>) -> (res: usize)
    requires
        del_post(del_atoms(del_span_view(span@))) <= usize::MAX,
    ensures
        res == del_post(del_atoms(del_span_view(span@))),
    decreases span,
{
    let ghost v = del_span_view(span@);
    proof {
        lemma_del_span_view(span@);
    }
    let mut ret: usize = 0;
    for i in 0..span.len()
        invariant
            v == del_span_view(span@),
            v.len() == span@.len(),
            forall|j: int| 0 <= j < v.len() ==> #[trigger] v[j] == span@[j]@,
            del_post(del_atoms(v)) <= usize::MAX,
            ret == del_post(del_atoms(v.take(i as int))),
    {
        proof {
            assert(v.take(i + 1).drop_last() =~= v.take(i as int));
            assert(v.take(i + 1).last() == v[i as int]);
            assert(del_atoms(v.take(i + 1)) == del_atoms(v.take(i as int)) + del_elem_atoms(
                v[i as int],
            ));
            lemma_del_post_concat(del_atoms(v.take(i as int)), del_elem_atoms(v[i as int]));
            lemma_del_atoms_concat(v.take(i + 1), v.skip(i + 1));
            assert(v.take(i + 1) + v.skip(i + 1) =~= v);
            lemma_del_post_concat(del_atoms(v.take(i + 1)), del_atoms(v.skip(i + 1)));
            match v[i as int] {
                DelNode::Skip(n) => {
                    lemma_del_post_repeat(DelAtom::Skip, n);
                    assert(del_atom_post(DelAtom::Skip) == 1);
                    assert(del_post(del_elem_atoms(v[i as int])) == n);
                },
                DelNode::Text(n) => {
                    lemma_del_post_repeat(DelAtom::Text, n);
                    assert(del_atom_post(DelAtom::Text) == 0);
                    assert(del_post(del_elem_atoms(v[i as int])) == 0);
                },
                DelNode::Styles(n, st) => {
                    lemma_del_post_repeat(DelAtom::Styles(st), n);
                    assert(del_atom_post(DelAtom::Styles(st)) == 1);
                    assert(del_post(del_elem_atoms(v[i as int])) == n);
                },
                DelNode::Group(inner) => {
                    let one = seq![DelAtom::Group(del_atoms(inner))];
                    assert(one.len() == 1);
                    assert(one.drop_last() =~= Seq::<DelAtom>::empty());
                    assert(del_post(one.drop_last()) == 0);
                    assert(del_post(one) == del_post(one.drop_last()) + del_atom_post(one.last()));
                },
                DelNode::WithGroup(inner) => {
                    let one = seq![DelAtom::WithGroup(del_atoms(inner))];
                    assert(one.len() == 1);
                    assert(one.drop_last() =~= Seq::<DelAtom>::empty());
                    assert(del_post(one.drop_last()) == 0);
                    assert(del_post(one) == del_post(one.drop_last()) + del_atom_post(one.last()));
                },
            }
            assert(decreases_to!(span => span@[i as int]));
        }
        let n = match &span[i] {
            DelSkip(n) => *n,
            DelText(_) => 0,
            DelStyles(n, _) => *n,
            DelWithGroup(_) => 1,
            DelGroup(inner) => del_skip_post_len(inner),
        };
        ret = ret + n;
    }
    proof {
        assert(v.take(span.len() as int) =~= v);
    }
    ret
}

pub trait AddPlaceable: View<V = Seq<AddElement>> + Sized {
    fn place_all(&mut self, all: &[AddElement])
        requires
            add_place_all_ok(add_span_view(old(self)@), add_span_view(all@)),
        ensures
            add_span_view(final(self)@) == add_place_all_spec(
                add_span_view(old(self)@),
                add_span_view(all@),
            ),
            add_merged(add_span_view(old(self)@)) ==> add_merged(add_span_view(final(self)@)),
            add_texts_merged(add_span_view(old(self)@)) ==> add_texts_merged(add_span_view(final(self)@)),
    ;

    fn place(&mut self, value: &AddElement)
        requires
            add_place_ok(add_span_view(old(self)@), value@),
        ensures
            add_span_view(final(self)@) == add_place_spec(add_span_view(old(self)@), value@),
            add_merged(add_span_view(old(self)@)) ==> add_merged(add_span_view(final(self)@)),
            add_texts_merged(add_span_view(old(self)@)) ==> add_texts_merged(add_span_view(final(self)@)),
    ;

    /// The length of the document that the insertion walks over.
    fn skip_pre_len(&self) -> (res: usize)
        requires
            add_pre(add_atoms(add_span_view(self@))) <= usize::MAX,
        ensures
            res == add_pre(add_atoms(add_span_view(self@))),
    ;

    /// The length of the document after the insertion, over what it walks.
    fn skip_post_len(&self) -> (res: usize)
        requires
            add_atoms(add_span_view(self@)).len() <= usize::MAX,
        ensures
            res == add_atoms(add_span_view(self@)).len(),
    ;

    /// Whether the span is empty or a single skip.
    fn is_continuous_skip(&self) -> (res: bool)
        ensures
            res == (self@.len() == 0 || (self@.len() == 1 && self@[0] is AddSkip)),
    ;
}

impl AddPlaceable for Vec<AddElement> {
    fn place_all(&mut self, all: &[AddElement]) {
        let ghost s0 = add_span_view(self@);
        let ghost av = add_span_view(all@);
        proof {
            lemma_add_place_all_merged(s0, av);
            lemma_add_place_all_texts_merged(s0, av);
            lemma_add_span_view(all@);
        }
        for i in 0..all.len()
            invariant
                av == add_span_view(all@),
                av.len() == all@.len(),
                forall|j: int| 0 <= j < all@.len() ==> #[trigger] av[j] == all@[j]@,
                add_place_all_ok(s0, av),
                add_span_view(self@) == add_place_all_spec(s0, av.take(i as int)),
        {
            proof {
                assert(av.take(i + 1).drop_last() =~= av.take(i as int));
                lemma_add_place_all_ok_prefix(s0, av, i + 1);
            }
            self.place(&all[i]);
        }
        proof {
            assert(av.take(all.len() as int) =~= av);
        }
    }

    fn place(&mut self, value: &AddElement) {
        let ghost s = add_span_view(self@);
        proof {
            lemma_add_place_merged(s, value@);
            lemma_add_place_texts_merged(s, value@);
            lemma_add_span_view(self@);
        }
        let len = self.len();
        match value {
            AddText(styles, text) => {
                if len > 0 {
                    let same = match &self[len - 1] {
                        AddText(prev_styles, _) => *prev_styles == *styles,
                        _ => false,
                    };
                    if same {
                        let last = self.pop().unwrap();
                        proof {
                            assert(self@ =~= old(self)@.drop_last());
                            lemma_add_view_subrange(old(self)@, 0, len - 1);
                        }
                        match last {
                            AddText(st, mut prev) => {
                                prev.push_doc_string(text);
                                let merged = AddText(st, prev);
                                proof {
                                    lemma_add_view_push(self@, merged);
                                    assert(s.drop_last() =~= s.subrange(0, len - 1));
                                }
                                self.push(merged);
                                return;
                            },
                            _ => {
                                proof {
                                    assert(false);
                                }
                                return;
                            },
                        }
                    }
                }
                let copy = clone_add_elem(value);
                proof {
                    lemma_add_view_push(self@, copy);
                }
                self.push(copy);
            },
            AddSkip(count) => {
                if len > 0 {
                    let merged: Option<AddElement> = match &self[len - 1] {
                        AddSkip(prev) => Some(AddSkip(*prev + *count)),
                        _ => None,
                    };
                    if let Some(m) = merged {
                        proof {
                            lemma_add_view_update(self@, len - 1, m);
                            assert(s.drop_last().push(m@) =~= s.update(len - 1, m@));
                        }
                        self.set(len - 1, m);
                        return;
                    }
                }
                let copy = clone_add_elem(value);
                proof {
                    lemma_add_view_push(self@, copy);
                }
                self.push(copy);
            },
            AddStyles(count, styles) => {
                if len > 0 {
                    let merged: Option<AddElement> = match &self[len - 1] {
                        AddStyles(prev, prev_styles) => if *prev_styles == *styles {
                            Some(AddStyles(*prev + *count, *styles))
                        } else {
                            None
                        },
                        _ => None,
                    };
                    if let Some(m) = merged {
                        proof {
                            lemma_add_view_update(self@, len - 1, m);
                            assert(s.drop_last().push(m@) =~= s.update(len - 1, m@));
                        }
                        self.set(len - 1, m);
                        return;
                    }
                }
                let copy = clone_add_elem(value);
                proof {
                    lemma_add_view_push(self@, copy);
                }
                self.push(copy);
            },
            AddGroup(..) | AddWithGroup(..) => {
                let copy = clone_add_elem(value);
                proof {
                    lemma_add_view_push(self@, copy);
                }
                self.push(copy);
            },
        }
    }

    fn skip_pre_len(&self) -> (res: usize) {
        add_skip_pre_len(self)
    }

    fn skip_post_len(&self) -> (res: usize) {
        let ghost v = add_span_view(self@);
        proof {
            lemma_add_span_view(self@);
        }
        let mut ret: usize = 0;
        for i in 0..self.len()
            invariant
                v == add_span_view(self@),
                v.len() == self@.len(),
                forall|j: int| 0 <= j < v.len() ==> #[trigger] v[j] == self@[j]@,
                add_atoms(v).len() <= usize::MAX,
                ret == add_atoms(v.take(i as int)).len(),
        {
            proof {
                assert(v.take(i + 1).drop_last() =~= v.take(i as int));
                assert(v.take(i + 1).last() == v[i as int]);
                assert(add_atoms(v.take(i + 1)) == add_atoms(v.take(i as int)) + add_elem_atoms(
                    v[i as int],
                ));
                lemma_add_atoms_concat(v.take(i + 1), v.skip(i + 1));
                assert(v.take(i + 1) + v.skip(i + 1) =~= v);
                match v[i as int] {
                    AddNode::Skip(n) => lemma_repeat(AddAtom::Skip, n),
                    AddNode::Styles(n, st) => lemma_repeat(AddAtom::Styles(st), n),
                    AddNode::Text(st, t) => lemma_text_atoms(st, t),
                    _ => {},
                }
            }
            let n = match &self[i] {
                AddSkip(n) => *n,
                AddStyles(n, _) => *n,
                AddText(_, text) => text.char_len(),
                AddGroup(..) | AddWithGroup(..) => 1,
            };
            ret = ret + n;
        }
        proof {
            assert(v.take(self.len() as int) =~= v);
        }
        ret
    }

    fn is_continuous_skip(&self) -> (res: bool) {
        if self.len() > 1 {
            false
        } else if self.len() == 0 {
            true
        } else {
            match &self[0] {
                AddSkip(_) => true,
                _ => false,
            }
        }
    }
}

/// Places an element at the end of an insertion, merging it into the last
/// element where both are runs of one kind.
pub fn add_place_any(res: &mut Vec<AddElement>, value: &AddElement)
    requires
        add_place_ok(add_span_view(old(res)@), value@),
    ensures
        add_span_view(final(res)@) == add_place_spec(add_span_view(old(res)@), value@),
{
    res.place(value);
}

/// The length of the document that an insertion walks over.
pub fn add_skip_pre_len(span: &Vec<AddElement>) -> (res: usize)
    requires
        add_pre(add_atoms(add_span_view(span@))) <= usize::MAX,
    ensures
        res == add_pre(add_atoms(add_span_view(span@))),
    decreases span,
{
    let ghost v = add_span_view(span@);
    proof {
        lemma_add_span_view(span@);
    }
    let mut ret: usize = 0;
    for i in 0..span.len()
        invariant
            v == add_span_view(span@),
            v.len() == span@.len(),
            forall|j: int| 0 <= j < v.len() ==> #[trigger] v[j] == span@[j]@,
            add_pre(add_atoms(v)) <= usize::MAX,
            ret == add_pre(add_atoms(v.take(i as int))),
    {
        proof {
            assert(v.take(i + 1).drop_last() =~= v.take(i as int));
            assert(v.take(i + 1).last() == v[i as int]);
            assert(add_atoms(v.take(i + 1)) == add_atoms(v.take(i as int)) + add_elem_atoms(
                v[i as int],
            ));
            lemma_add_pre_concat(add_atoms(v.take(i as int)), add_elem_atoms(v[i as int]));
            lemma_add_atoms_concat(v.take(i + 1), v.skip(i + 1));
            assert(v.take(i + 1) + v.skip(i + 1) =~= v);
            lemma_add_pre_concat(add_atoms(v.take(i + 1)), add_atoms(v.skip(i + 1)));
            match v[i as int] {
                AddNode::Skip(n) => {
                    lemma_add_pre_repeat(AddAtom::Skip, n);
                    assert(add_atom_pre(AddAtom::Skip) == 1);
                    assert(add_pre(add_elem_atoms(v[i as int])) == n);
                },
                AddNode::Styles(n, st) => {
                    lemma_add_pre_repeat(AddAtom::Styles(st), n);
                    assert(add_atom_pre(AddAtom::Styles(st)) == 1);
                    assert(add_pre(add_elem_atoms(v[i as int])) == n);
                },
                AddNode::Text(st, t) => {
                    lemma_add_pre_text(st, t);
                },
                AddNode::Group(attrs, inner) => {
                    let one = seq![AddAtom::Group(attrs, add_atoms(inner))];
                    assert(one.len() == 1);
                    assert(one.drop_last() =~= Seq::<AddAtom>::empty());
                    assert(add_pre(one.drop_last()) == 0);
                    assert(add_pre(one) == add_pre(one.drop_last()) + add_atom_pre(one.last()));
                },
                AddNode::WithGroup(inner) => {
                    let one = seq![AddAtom::WithGroup(add_atoms(inner))];
                    assert(one.len() == 1);
                    assert(one.drop_last() =~= Seq::<AddAtom>::empty());
                    assert(add_pre(one.drop_last()) == 0);
                    assert(add_pre(one) == add_pre(one.drop_last()) + add_atom_pre(one.last()));
                },
            }
            assert(decreases_to!(span => span@[i as int]));
        }
        let n = match &span[i] {
            AddSkip(n) => *n,
            AddStyles(n, _) => *n,
            AddText(..) => 0,
            AddWithGroup(_) => 1,
            AddGroup(_, inner) => add_skip_pre_len(inner),
        };
        ret = ret + n;
    }
    proof {
        assert(v.take(span.len() as int) =~= v);
    }
    ret
}

pub trait CurPlaceable: View<V = Seq<CurElement>> + Sized {
    fn place_all(&mut self, all: &[CurElement])
        requires
            cur_place_all_ok(cur_span_view(old(self)@), cur_span_view(all@)),
        ensures
            cur_span_view(final(self)@) == cur_place_all_spec(
                cur_span_view(old(self)@),
                cur_span_view(all@),
            ),
            cur_merged(cur_span_view(old(self)@)) ==> cur_merged(cur_span_view(final(self)@)),
    ;

    fn place(&mut self, value: &CurElement)
        requires
            cur_place_ok(cur_span_view(old(self)@), value@),
        ensures
            cur_span_view(final(self)@) == cur_place_spec(cur_span_view(old(self)@), value@),
            cur_merged(cur_span_view(old(self)@)) ==> cur_merged(cur_span_view(final(self)@)),
    ;
}

impl CurPlaceable for Vec<CurElement> {
    fn place_all(&mut self, all: &[CurElement]) {
        let ghost s0 = cur_span_view(self@);
        let ghost av = cur_span_view(all@);
        proof {
            lemma_cur_place_all_merged(s0, av);
            lemma_cur_span_view(all@);
        }
        for i in 0..all.len()
            invariant
                av == cur_span_view(all@),
                av.len() == all@.len(),
                forall|j: int| 0 <= j < all@.len() ==> #[trigger] av[j] == all@[j]@,
                cur_place_all_ok(s0, av),
                cur_span_view(self@) == cur_place_all_spec(s0, av.take(i as int)),
        {
            proof {
                assert(av.take(i + 1).drop_last() =~= av.take(i as int));
                lemma_cur_place_all_ok_prefix(s0, av, i + 1);
            }
            self.place(&all[i]);
        }
        proof {
            assert(av.take(all.len() as int) =~= av);
        }
    }

    fn place(&mut self, value: &CurElement) {
        let ghost s = cur_span_view(self@);
        proof {
            lemma_cur_place_merged(s, value@);
            lemma_cur_span_view(self@);
        }
        let len = self.len();
        match value {
            CurSkip(count) => {
                if len > 0 {
                    let merged: Option<CurElement> = match &self[len - 1] {
                        CurSkip(prev) => Some(CurSkip(*prev + *count)),
                        _ => None,
                    };
                    if let Some(m) = merged {
                        proof {
                            lemma_cur_view_update(self@, len - 1, m);
                            assert(s.drop_last().push(m@) =~= s.update(len - 1, m@));
                        }
                        self.set(len - 1, m);
                        return;
                    }
                }
                let copy = clone_cur_elem(value);
                proof {
                    lemma_cur_view_push(self@, copy);
                }
                self.push(copy);
            },
            CurGroup | CurChar | CurWithGroup(..) => {
                let copy = clone_cur_elem(value);
                proof {
                    lemma_cur_view_push(self@, copy);
                }
                self.push(copy);
            },
        }
    }
}

// ---------------------------------------------------------------------------
// Placement keeps spans well formed.

pub proof fn lemma_doc_place_wf(s: Seq<DocNode>, e: DocNode)
    requires
        doc_span_wf(s),
        doc_elem_wf(e),
    ensures
        doc_place_ok(s, e),
        doc_span_wf(doc_place_spec(s, e)),
{
    let r = doc_place_spec(s, e);
    assert forall|i: int| 0 <= i < r.len() implies #[trigger] doc_elem_wf(r[i]) by {
        if i < s.len() - 1 || r == s.push(e) {
            if i < s.len() {
                assert(doc_elem_wf(s[i]));
            }
        } else {
            match (s.last(), e) {
                (DocNode::Text(lst, ltext), DocNode::Text(st, text)) => {
                    assert(doc_elem_wf(s[s.len() - 1]));
                },
                _ => {},
            }
        }
    }
}

pub proof fn lemma_doc_place_all_wf(s: Seq<DocNode>, all: Seq<DocNode>)
    requires
        doc_span_wf(s),
        doc_span_wf(all),
    ensures
        doc_place_all_ok(s, all),
        doc_span_wf(doc_place_all_spec(s, all)),
    decreases all.len(),
{
    if all.len() > 0 {
        let p = all.drop_last();
        assert forall|i: int| 0 <= i < p.len() implies #[trigger] doc_elem_wf(p[i]) by {
            assert(doc_elem_wf(all[i]));
        }
        lemma_doc_place_all_wf(s, p);
        assert(doc_elem_wf(all[all.len() - 1]));
        lemma_doc_place_wf(doc_place_all_spec(s, p), all.last());
    }
}

/// The count of the last element of a span is at most its number of atoms.
pub proof fn lemma_del_count_bound(s: Seq<DelNode>)
    requires
        s.len() > 0,
    ensures
        del_count(s.last()) <= del_atoms(s).len(),
{
    assert(s == s.drop_last().push(s.last()));
    lemma_del_atoms_push(s.drop_last(), s.last());
    match s.last() {
        DelNode::Skip(n) => lemma_repeat(DelAtom::Skip, n),
        DelNode::Text(n) => lemma_repeat(DelAtom::Text, n),
        DelNode::Styles(n, st) => lemma_repeat(DelAtom::Styles(st), n),
        _ => {},
    }
}

/// A well-formed element may be placed where the atoms fit a `usize`.
pub proof fn lemma_del_place_ok(s: Seq<DelNode>, e: DelNode)
    requires
        del_span_wf(s),
        del_elem_wf(e),
        del_atoms(s).len() + del_elem_atoms(e).len() <= usize::MAX,
    ensures
        del_place_ok(s, e),
        del_span_wf(del_place_spec(s, e)),
{
    lemma_del_place_atoms(s, e);
    let r = del_place_spec(s, e);
    match e {
        DelNode::Text(_) | DelNode::Skip(_) | DelNode::Styles(_, _) => {
            lemma_del_count_bound(r);
        },
        _ => {},
    }
    assert forall|i: int| 0 <= i < r.len() implies #[trigger] del_elem_wf(r[i]) by {
        if i < s.len() - 1 || r == s.push(e) {
            if i < s.len() {
                assert(del_elem_wf(s[i]));
            }
        } else {
            assert(del_elem_wf(s[s.len() - 1]));
        }
    }
}

pub proof fn lemma_del_place_all_ok(s: Seq<DelNode>, all: Seq<DelNode>)
    requires
        del_span_wf(s),
        del_span_wf(all),
        del_atoms(s).len() + del_atoms(all).len() <= usize::MAX,
    ensures
        del_place_all_ok(s, all),
        del_span_wf(del_place_all_spec(s, all)),
        del_atoms(del_place_all_spec(s, all)) == del_atoms(s) + del_atoms(all),
    decreases all.len(),
{
    lemma_del_place_all_atoms(s, all);
    if all.len() > 0 {
        let p = all.drop_last();
        assert forall|i: int| 0 <= i < p.len() implies #[trigger] del_elem_wf(p[i]) by {
            assert(del_elem_wf(all[i]));
        }
        assert(all == p.push(all.last()));
        lemma_del_atoms_push(p, all.last());
        lemma_del_place_all_ok(s, p);
        assert(del_elem_wf(all[all.len() - 1]));
        lemma_del_place_ok(del_place_all_spec(s, p), all.last());
    }
}

pub proof fn lemma_add_count_bound(s: Seq<AddNode>)
    requires
        s.len() > 0,
    ensures
        add_count(s.last()) <= add_atoms(s).len(),
{
    assert(s == s.drop_last().push(s.last()));
    lemma_add_atoms_push(s.drop_last(), s.last());
    match s.last() {
        AddNode::Skip(n) => lemma_repeat(AddAtom::Skip, n),
        AddNode::Styles(n, st) => lemma_repeat(AddAtom::Styles(st), n),
        _ => {},
    }
}

/// A well-formed insertion element may be placed where the atoms fit a
/// `usize`.
pub proof fn lemma_add_place_ok(s: Seq<AddNode>, e: AddNode)
    requires
        add_span_wf(s),
        add_elem_wf(e),
        add_atoms(s).len() + add_elem_atoms(e).len() <= usize::MAX,
    ensures
        add_place_ok(s, e),
        add_span_wf(add_place_spec(s, e)),
        add_atoms(add_place_spec(s, e)) == add_atoms(s) + add_elem_atoms(e),
{
    lemma_add_place_atoms(s, e);
    let r = add_place_spec(s, e);
    match e {
        AddNode::Skip(_) | AddNode::Styles(_, _) => {
            lemma_add_count_bound(r);
        },
        _ => {},
    }
    assert forall|i: int| 0 <= i < r.len() implies #[trigger] add_elem_wf(r[i]) by {
        if i < s.len() - 1 || r == s.push(e) {
            if i < s.len() {
                assert(add_elem_wf(s[i]));
            }
        } else {
            assert(add_elem_wf(s[s.len() - 1]));
        }
    }
}

pub proof fn lemma_add_place_all_ok(s: Seq<AddNode>, all: Seq<AddNode>)
    requires
        add_span_wf(s),
        add_span_wf(all),
        add_atoms(s).len() + add_atoms(all).len() <= usize::MAX,
    ensures
        add_place_all_ok(s, all),
        add_span_wf(add_place_all_spec(s, all)),
        add_atoms(add_place_all_spec(s, all)) == add_atoms(s) + add_atoms(all),
    decreases all.len(),
{
    lemma_add_place_all_atoms(s, all);
    if all.len() > 0 {
        let p = all.drop_last();
        assert forall|i: int| 0 <= i < p.len() implies #[trigger] add_elem_wf(p[i]) by {
            assert(add_elem_wf(all[i]));
        }
        assert(all == p.push(all.last()));
        lemma_add_atoms_push(p, all.last());
        lemma_add_place_all_ok(s, p);
        assert(add_elem_wf(all[all.len() - 1]));
        lemma_add_place_ok(add_place_all_spec(s, p), all.last());
    }
}

/// Pushing a well-formed element keeps an insertion well formed.
pub proof fn lemma_add_push(v: Seq<AddElement>, e: AddElement)
    requires
        add_span_wf(add_span_view(v)),
        add_elem_wf(e@),
    ensures
        add_span_wf(add_span_view(v.push(e))),
        add_atoms(add_span_view(v.push(e))) == add_atoms(add_span_view(v)) + add_elem_atoms(e@),
{
    lemma_add_view_push(v, e);
    lemma_add_atoms_push(add_span_view(v), e@);
    let s = add_span_view(v);
    assert forall|i: int| 0 <= i < s.push(e@).len() implies #[trigger] add_elem_wf(s.push(e@)[i]) by {
        if i < s.len() {
            assert(s.push(e@)[i] == s[i]);
        }
    }
}

/// Pushing a well-formed element keeps a deletion well formed.
pub proof fn lemma_del_push(v: Seq<DelElement>, e: DelElement)
    requires
        del_span_wf(del_span_view(v)),
        del_elem_wf(e@),
    ensures
        del_span_wf(del_span_view(v.push(e))),
        del_atoms(del_span_view(v.push(e))) == del_atoms(del_span_view(v)) + del_elem_atoms(e@),
{
    lemma_del_view_push(v, e);
    lemma_del_atoms_push(del_span_view(v), e@);
    let s = del_span_view(v);
    assert forall|i: int| 0 <= i < s.push(e@).len() implies #[trigger] del_elem_wf(s.push(e@)[i]) by {
        if i < s.len() {
            assert(s.push(e@)[i] == s[i]);
        }
    }
}

} // verus!
