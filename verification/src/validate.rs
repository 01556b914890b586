//! Checking that a document is well nested: every group stands where its
//! kind may stand, text stands inside blocks, and no client has two carets.
use crate::doc::{doc_span_view, lemma_doc_span_view, DocElement, DocGroup, DocNode, DocText};
use crate::rtf::{spec_track_type, Attrs, RtfSchema, RtfTrack};
use vstd::prelude::*;

verus! {

/// What is wrong with a document.
#[derive(Debug)]
pub enum ValidateError {
    /// A second caret of this client.
    MultipleCarets(String),
    /// A group inside a group where its kind may not stand.
    IncorrectParent,
    /// A group at the top where its kind may not stand.
    IncorrectRootParent,
    /// A run of text with no characters.
    EmptyText,
    /// Text inside a group that is no block.
    CharOutsideBlock,
    /// Text at the top of the document.
    CharInRoot,
}

/// The value of a `ValidateError`, with the client of a caret as its
/// characters.
pub enum ValidateFault {
    MultipleCarets(Seq<char>),
    IncorrectParent,
    IncorrectRootParent,
    EmptyText,
    CharOutsideBlock,
    CharInRoot,
}

pub open spec fn fault_view(e: ValidateError) -> ValidateFault {
    match e {
        ValidateError::MultipleCarets(c) => ValidateFault::MultipleCarets(c@),
        ValidateError::IncorrectParent => ValidateFault::IncorrectParent,
        ValidateError::IncorrectRootParent => ValidateFault::IncorrectRootParent,
        ValidateError::EmptyText => ValidateFault::EmptyText,
        ValidateError::CharOutsideBlock => ValidateFault::CharOutsideBlock,
        ValidateError::CharInRoot => ValidateFault::CharInRoot,
    }
}

/// Where a check of a document stands: the groups it is inside, innermost
/// last, and the clients whose carets it has met.
pub struct ValidateContext {
    pub stack: Vec<Attrs>,
    pub carets: Vec<String>,
}

impl ValidateContext {
    /// A check at the top of a document, that has met no caret.
    pub fn new() -> (res: ValidateContext)
        ensures
            res.carets@ == Seq::<String>::empty(),
            res.carets_distinct(),
            res.stack@ == Seq::<Attrs>::empty(),
            res.carets_view() == Set::<Seq<char>>::empty(),
    {
        let res = ValidateContext { stack: Vec::new(), carets: Vec::new() };
        proof {
            assert(res.carets_view() =~= Set::<Seq<char>>::empty());
        }
        res
    }

    /// No client is listed twice among the carets met.
    pub open spec fn carets_distinct(self) -> bool {
        forall|i: int, j: int| 0 <= i < j < self.carets@.len() ==> #[trigger] self.carets@[i]@ != #[trigger] self.carets@[j]@
    }

    /// The clients whose carets the check has met.
    pub open spec fn carets_view(self) -> Set<Seq<char>> {
        Set::new(|c: Seq<char>| exists|i: int| 0 <= i < self.carets@.len() && #[trigger] self.carets@[i]@ == c)
    }

    /// The group that the check is inside, if any.
    pub open spec fn parent(self) -> Option<Attrs> {
        if self.stack@.len() == 0 {
            None
        } else {
            Some(self.stack@.last())
        }
    }
}

/// The check of one element inside `parent`, having met the carets of
/// `seen`: the first fault in document order, with the carets met by then.
/// A group's caret is checked when the group is met, its parent once its
/// contents pass.
pub open spec fn validate_node(e: DocNode, parent: Option<Attrs>, seen: Set<Seq<char>>) -> (
    Result<(), ValidateFault>,
    Set<Seq<char>>,
)
    decreases e,
{
    match e {
        DocNode::Group(attrs, inner) => {
            let (fresh, seen1) = match attrs {
                Attrs::Caret { client_id, .. } => if seen.contains(client_id@) {
                    (false, seen)
                } else {
                    (true, seen.insert(client_id@))
                },
                _ => (true, seen),
            };
            if !fresh {
                (Err(ValidateFault::MultipleCarets(attrs->client_id@)), seen1)
            } else {
                let (r, seen2) = validate_nodes(inner, Some(attrs), seen1);
                if r is Err {
                    (r, seen2)
                } else {
                    match parent {
                        Some(p) => if spec_track_type(attrs).spec_parents().contains(spec_track_type(p)) {
                            (Ok(()), seen2)
                        } else {
                            (Err(ValidateFault::IncorrectParent), seen2)
                        },
                        None => if allowed_in_root(spec_track_type(attrs)) {
                            (Ok(()), seen2)
                        } else {
                            (Err(ValidateFault::IncorrectRootParent), seen2)
                        },
                    }
                }
            }
        },
        DocNode::Text(_, t) => if t.len() == 0 {
            (Err(ValidateFault::EmptyText), seen)
        } else {
            match parent {
                Some(p) => if allowed_in_root(spec_track_type(p)) {
                    (Ok(()), seen)
                } else {
                    (Err(ValidateFault::CharOutsideBlock), seen)
                },
                None => (Err(ValidateFault::CharInRoot), seen),
            }
        },
    }
}

/// The check of a span inside `parent`: element by element, up to the first
/// fault.
pub open spec fn validate_nodes(s: Seq<DocNode>, parent: Option<Attrs>, seen: Set<Seq<char>>) -> (
    Result<(), ValidateFault>,
    Set<Seq<char>>,
)
    decreases s,
{
    if s.len() == 0 {
        (Ok(()), seen)
    } else {
        let (r, seen1) = validate_node(s[0], parent, seen);
        if r is Err {
            (r, seen1)
        } else {
            validate_nodes(s.drop_first(), parent, seen1)
        }
    }
}

/// Whether a track may stand at the top of a document.
pub open spec fn allowed_in_root(t: RtfTrack) -> bool {
    t == RtfTrack::Blocks || t == RtfTrack::ListItems || t == RtfTrack::BlockObjects
}


/// A span's check: its first element's, then the rest's where that passes.
#[verifier::spinoff_prover]
proof fn lemma_validate_nodes(s: Seq<DocNode>, parent: Option<Attrs>, seen: Set<Seq<char>>)
    requires
        s.len() > 0,
    ensures
        validate_nodes(s, parent, seen) == ({
            let (r, seen1) = validate_node(s[0], parent, seen);
            if r is Err {
                (r, seen1)
            } else {
                validate_nodes(s.drop_first(), parent, seen1)
            }
        }),
{
}

/// A group's check, by its caret and its contents.
#[verifier::spinoff_prover]
proof fn lemma_validate_group(attrs: Attrs, inner: Seq<DocNode>, parent: Option<Attrs>, seen: Set<Seq<char>>)
    ensures
        validate_node(DocNode::Group(attrs, inner), parent, seen) == ({
            let (fresh, seen1) = match attrs {
                Attrs::Caret { client_id, .. } => if seen.contains(client_id@) {
                    (false, seen)
                } else {
                    (true, seen.insert(client_id@))
                },
                _ => (true, seen),
            };
            if !fresh {
                (Err(ValidateFault::MultipleCarets(attrs->client_id@)), seen1)
            } else {
                let (r, seen2) = validate_nodes(inner, Some(attrs), seen1);
                if r is Err {
                    (r, seen2)
                } else {
                    match parent {
                        Some(p) => if spec_track_type(attrs).spec_parents().contains(spec_track_type(p)) {
                            (Ok(()), seen2)
                        } else {
                            (Err(ValidateFault::IncorrectParent), seen2)
                        },
                        None => if allowed_in_root(spec_track_type(attrs)) {
                            (Ok(()), seen2)
                        } else {
                            (Err(ValidateFault::IncorrectRootParent), seen2)
                        },
                    }
                }
            }
        }),
{
}

/// The clients of the carets met, after one more.
proof fn lemma_carets_push(before: Seq<String>, after: Seq<String>, s: String)
    requires
        after == before.push(s),
    ensures
        Set::new(|c: Seq<char>| exists|i: int| 0 <= i < after.len() && #[trigger] after[i]@ == c)
            == Set::new(|c: Seq<char>| exists|i: int| 0 <= i < before.len() && #[trigger] before[i]@ == c).insert(s@),
{
    let sa = Set::new(|c: Seq<char>| exists|i: int| 0 <= i < after.len() && #[trigger] after[i]@ == c);
    let sb = Set::new(|c: Seq<char>| exists|i: int| 0 <= i < before.len() && #[trigger] before[i]@ == c);
    assert forall|c: Seq<char>| sa.contains(c) <==> sb.insert(s@).contains(c) by {
        if sa.contains(c) {
            let k = choose|k: int| 0 <= k < after.len() && #[trigger] after[k]@ == c;
            if k < before.len() {
                assert(before[k] == after[k]);
                assert(sb.contains(c));
            } else {
                assert(after[k] == s);
            }
        }
        if sb.contains(c) {
            let k = choose|k: int| 0 <= k < before.len() && #[trigger] before[k]@ == c;
            assert(after[k] == before[k]);
            assert(sa.contains(c));
        }
        if c == s@ {
            assert(after[before.len() as int] == s);
            assert(sa.contains(c));
        }
    }
    assert(sa =~= sb.insert(s@));
}

/// Whether the check has met a caret of `client`.
fn has_caret(ctx: &ValidateContext, client: &String) -> (res: bool)
    ensures
        res == ctx.carets_view().contains(client@),
{
    let mut i: usize = 0;
    while i < ctx.carets.len()
        invariant
            i <= ctx.carets@.len(),
            forall|j: int| 0 <= j < i ==> ctx.carets@[j]@ != client@,
        decreases ctx.carets@.len() - i,
    {
        if ctx.carets[i] == *client {
            proof {
                assert(ctx.carets@[i as int]@ == client@);
            }
            return true;
        }
        i = i + 1;
    }
    false
}

/// Whether `list` holds `t`.
fn tracks_contain(list: &Vec<RtfTrack>, t: RtfTrack) -> (res: bool)
    ensures
        res == list@.contains(t),
{
    let mut i: usize = 0;
    while i < list.len()
        invariant
            i <= list@.len(),
            forall|j: int| 0 <= j < i ==> list@[j] != t,
        decreases list@.len() - i,
    {
        if list[i] == t {
            proof {
                assert(list@[i as int] == t);
            }
            return true;
        }
        i = i + 1;
    }
    false
}

/// The track of a group kind.
fn track_of(attrs: &Attrs) -> (res: RtfTrack)
    ensures
        res == spec_track_type(*attrs),
{
    match RtfSchema::track_type_from_attrs(attrs) {
        Some(t) => t,
        None => {
            proof {
                assert(false);
            }
            RtfTrack::Blocks
        },
    }
}

/// Checks a span inside the group that `ctx` is in: every group stands where
/// its kind may stand, text stands in blocks and is not empty, and no
/// client has two carets. Returns the first fault in document order. Where
/// all is well, `ctx` is inside the same groups as before; either way it has
/// met the carets that the check met.
pub fn validate_doc_span(ctx: &mut ValidateContext, span: &Vec<DocElement>) -> (res: Result<(), ValidateError>)
    ensures
        ({
            let (r, seen) = validate_nodes(doc_span_view(span@), old(ctx).parent(), old(ctx).carets_view());
            &&& match res {
                Ok(()) => r is Ok,
                Err(e) => r == Err::<(), ValidateFault>(fault_view(e)),
            }
            &&& final(ctx).carets_view() == seen
            &&& res is Ok ==> final(ctx).stack@ == old(ctx).stack@
            &&& old(ctx).carets_distinct() ==> final(ctx).carets_distinct()
        }),
    decreases span,
{
    let ghost v = doc_span_view(span@);
    let ghost parent0 = ctx.parent();
    let ghost stack0 = ctx.stack@;
    proof {
        lemma_doc_span_view(span@);
        assert(v.skip(0) =~= v);
    }
    let mut i: usize = 0;
    while i < span.len()
        invariant
            v == doc_span_view(span@),
            v.len() == span@.len(),
            forall|j: int| 0 <= j < v.len() ==> #[trigger] v[j] == span@[j]@,
            0 <= i <= span.len(),
            ctx.stack@ == stack0,
            ctx.parent() == parent0,
            parent0 == old(ctx).parent(),
            stack0 == old(ctx).stack@,
            validate_nodes(v, parent0, old(ctx).carets_view()) == validate_nodes(v.skip(i as int), parent0, ctx.carets_view()),
            old(ctx).carets_distinct() ==> ctx.carets_distinct(),
        decreases span.len() - i,
    {
        let ghost seen = ctx.carets_view();
        let ghost rest = v.skip(i as int);
        proof {
            assert(rest[0] == v[i as int]);
            assert(rest.drop_first() =~= v.skip(i + 1));
            assert(decreases_to!(span => span@[i as int]));
            lemma_validate_nodes(rest, parent0, seen);
        }
        match &span[i] {
            DocGroup(attrs, inner) => {
                proof {
                    lemma_validate_group(*attrs, doc_span_view(inner@), parent0, seen);
                }
                match attrs {
                    Attrs::Caret { client_id, .. } => {
                        if has_caret(ctx, client_id) {
                            let c = client_id.clone();
                            proof {
                                assert(c@ == client_id@);
                                assert(v[i as int] == DocNode::Group(*attrs, doc_span_view(inner@)));
                            }
                            return Err(ValidateError::MultipleCarets(c));
                        }
                        let ghost before = ctx.carets@;
                        ctx.carets.push(client_id.clone());
                        proof {
                            lemma_carets_push(before, ctx.carets@, *client_id);
                            assert forall|k: int| 0 <= k < before.len() implies before[k]@ != client_id@ by {
                                if before[k]@ == client_id@ {
                                    assert(before[k]@ == client_id@);
                                }
                            }
                            assert(ctx.carets@ == before.push(*client_id));
                        }
                    },
                    _ => {},
                }
                let ghost seen1 = ctx.carets_view();
                ctx.stack.push(attrs.clone());
                proof {
                    assert(ctx.parent() == Some(*attrs));
                    assert(v[i as int] == DocNode::Group(*attrs, doc_span_view(inner@)));
                }
                let r = validate_doc_span(ctx, inner);
                match r {
                    Err(e) => {
                        proof {
                            let (ri, s2) = validate_nodes(doc_span_view(inner@), Some(*attrs), seen1);
                            assert(ri == Err::<(), ValidateFault>(fault_view(e)));
                            assert(validate_node(v[i as int], parent0, seen) == (ri, s2));
                        }
                        return Err(e);
                    },
                    Ok(()) => {},
                }
                ctx.stack.pop();
                let cur = track_of(attrs);
                if ctx.stack.len() > 0 {
                    let parent = track_of(&ctx.stack[ctx.stack.len() - 1]);
                    if !tracks_contain(&cur.parents(), parent) {
                        return Err(ValidateError::IncorrectParent);
                    }
                } else if !cur.allowed_in_root() {
                    return Err(ValidateError::IncorrectRootParent);
                }
            },
            DocText(_, text) => {
                if text.char_len() == 0 {
                    return Err(ValidateError::EmptyText);
                }
                if ctx.stack.len() > 0 {
                    let block = track_of(&ctx.stack[ctx.stack.len() - 1]);
                    if !block.allowed_in_root() {
                        return Err(ValidateError::CharOutsideBlock);
                    }
                } else {
                    return Err(ValidateError::CharInRoot);
                }
            },
        }
        i = i + 1;
    }
    proof {
        assert(v.skip(i as int) =~= Seq::<DocNode>::empty());
    }
    Ok(())
}


// ---------------------------------------------------------------------------
// Where each kind of group may stand.

/// Whether a group of kind `a` may stand directly inside a group of kind
/// `p`: a caret inside a paragraph, heading, code block or raw block; every
/// other kind (list items, blocks and rules) inside a list item.
pub open spec fn may_stand_in(a: Attrs, p: Attrs) -> bool {
    match a {
        Attrs::Caret { .. } => p is Para || p is Header || p is Code || p is Html,
        _ => p is ListItem,
    }
}

/// Whether a group of kind `a` may stand at the top of a document: every
/// kind but a caret.
pub open spec fn may_stand_at_top(a: Attrs) -> bool {
    !(a is Caret)
}

/// The clients met once a group of kind `a` is met.
pub open spec fn caret_seen(a: Attrs, seen: Set<Seq<char>>) -> Set<Seq<char>> {
    match a {
        Attrs::Caret { client_id, .. } => seen.insert(client_id@),
        _ => seen,
    }
}

/// A group whose caret (if it is one) is new and whose contents pass is
/// accepted exactly where its kind may stand: inside a parent of a kind that
/// may hold it, or at the top where its kind may stand there. Elsewhere the
/// fault is a wrong parent.
pub proof fn validate_group_placement(a: Attrs, inner: Seq<DocNode>, p: Option<Attrs>, seen: Set<Seq<char>>)
    requires
        a matches Attrs::Caret { client_id, .. } ==> !seen.contains(client_id@),
        validate_nodes(inner, Some(a), caret_seen(a, seen)).0 is Ok,
    ensures
        validate_node(DocNode::Group(a, inner), p, seen).0 is Ok <==> match p {
            Some(q) => may_stand_in(a, q),
            None => may_stand_at_top(a),
        },
        validate_node(DocNode::Group(a, inner), p, seen).0 is Err ==> validate_node(
            DocNode::Group(a, inner),
            p,
            seen,
        ).0 == match p {
            Some(_) => Err::<(), ValidateFault>(ValidateFault::IncorrectParent),
            None => Err::<(), ValidateFault>(ValidateFault::IncorrectRootParent),
        },
        validate_node(DocNode::Group(a, inner), p, seen).1 == validate_nodes(inner, Some(a), caret_seen(a, seen)).1,
{
    lemma_validate_group(a, inner, p, seen);
    let ta = spec_track_type(a);
    match p {
        Some(q) => {
            let tq = spec_track_type(q);
            let ps = ta.spec_parents();
            if ps.contains(tq) {
                let k = choose|k: int| 0 <= k < ps.len() && ps[k] == tq;
                assert(ps[k] == tq);
            }
            if may_stand_in(a, q) {
                match a {
                    Attrs::Caret { .. } => assert(ps[0] == tq),
                    _ => assert(ps[0] == tq),
                }
            }
        },
        None => {},
    }
}

/// Non-empty text is accepted exactly inside a group that is not a caret;
/// at the top of a document it is refused.
pub proof fn validate_text_placement(
    st: crate::rtf::StyleSet,
    t: Seq<char>,
    p: Option<Attrs>,
    seen: Set<Seq<char>>,
)
    requires
        t.len() > 0,
    ensures
        validate_node(DocNode::Text(st, t), p, seen) == (
            match p {
                Some(q) => if !(q is Caret) {
                    Ok::<(), ValidateFault>(())
                } else {
                    Err::<(), ValidateFault>(ValidateFault::CharOutsideBlock)
                },
                None => Err::<(), ValidateFault>(ValidateFault::CharInRoot),
            },
            seen,
        ),
{
}

/// A second caret of a client already met is refused, whatever it holds
/// and wherever it stands, and nothing more is met.
pub proof fn validate_second_caret(client: String, focus: bool, inner: Seq<DocNode>, p: Option<Attrs>, seen: Set<Seq<char>>)
    requires
        seen.contains(client@),
    ensures
        validate_node(DocNode::Group(Attrs::Caret { client_id: client, focus }, inner), p, seen) == (
            Err::<(), ValidateFault>(ValidateFault::MultipleCarets(client@)),
            seen,
        ),
{
}

} // verus!

