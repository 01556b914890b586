//! Writers that build spans left to right, one group level at a time.
use crate::doc::{
    add_span_view, cur_span_view, del_span_view, doc_span_view, lemma_add_span_view,
    lemma_cur_span_view, lemma_del_span_view, lemma_doc_span_view, AddElement, AddGroup, AddNode,
    AddSkip, AddWithGroup, CurElement, CurNode, CurWithGroup, DelElement, DelGroup, DelNode,
    DelSkip, DelWithGroup, DocElement, DocGroup, DocNode, Op,
};
use crate::place::{
    add_place_all_ok, add_place_all_spec, add_place_ok, add_place_spec, cur_place_all_ok,
    cur_place_all_spec, cur_place_ok, cur_place_spec, del_place_all_ok, del_place_all_spec,
    del_place_ok, del_place_spec, doc_place_all_ok, doc_place_all_spec, doc_place_ok,
    doc_place_spec, AddPlaceable, CurPlaceable, DelPlaceable, DocPlaceable,
};
use crate::rtf::Attrs;
use vstd::prelude::*;

verus! {

// ---------------------------------------------------------------------------
// Leaving a group.

/// What leaving a group of a deletion places in the enclosing level: a
/// single skip where the group is left as it is, else the group's deletion.
pub open spec fn del_exit_elem(inner: Seq<DelNode>) -> DelNode {
    if inner.len() == 0 || (inner.len() == 1 && inner[0] is Skip) {
        DelNode::Skip(1)
    } else {
        DelNode::WithGroup(inner)
    }
}

/// The enclosing levels after leaving every open group, innermost first.
pub open spec fn del_exit_all_spec(past: Seq<DelNode>, stack: Seq<Seq<DelNode>>) -> Seq<DelNode>
    decreases stack.len(),
{
    if stack.len() == 0 {
        past
    } else {
        del_exit_all_spec(del_place_spec(stack.last(), del_exit_elem(past)), stack.drop_last())
    }
}

/// Every exit of `del_exit_all_spec` places an element that may be placed.
pub open spec fn del_exit_all_ok(past: Seq<DelNode>, stack: Seq<Seq<DelNode>>) -> bool
    decreases stack.len(),
{
    stack.len() == 0 || (del_place_ok(stack.last(), del_exit_elem(past)) && del_exit_all_ok(
        del_place_spec(stack.last(), del_exit_elem(past)),
        stack.drop_last(),
    ))
}

pub open spec fn add_exit_elem(inner: Seq<AddNode>) -> AddNode {
    if inner.len() == 0 || (inner.len() == 1 && inner[0] is Skip) {
        AddNode::Skip(1)
    } else {
        AddNode::WithGroup(inner)
    }
}

pub open spec fn add_exit_all_spec(past: Seq<AddNode>, stack: Seq<Seq<AddNode>>) -> Seq<AddNode>
    decreases stack.len(),
{
    if stack.len() == 0 {
        past
    } else {
        add_exit_all_spec(add_place_spec(stack.last(), add_exit_elem(past)), stack.drop_last())
    }
}

pub open spec fn add_exit_all_ok(past: Seq<AddNode>, stack: Seq<Seq<AddNode>>) -> bool
    decreases stack.len(),
{
    stack.len() == 0 || (add_place_ok(stack.last(), add_exit_elem(past)) && add_exit_all_ok(
        add_place_spec(stack.last(), add_exit_elem(past)),
        stack.drop_last(),
    ))
}

pub open spec fn cur_exit_all_spec(past: Seq<CurNode>, stack: Seq<Seq<CurNode>>) -> Seq<CurNode>
    decreases stack.len(),
{
    if stack.len() == 0 {
        past
    } else {
        cur_exit_all_spec(stack.last().push(CurNode::WithGroup(past)), stack.drop_last())
    }
}

// ---------------------------------------------------------------------------
// Deletions.

/// Builds a deletion span.
#[derive(Debug)]
pub struct DelWriter {
    past: Vec<DelElement>,
    stack: Vec<Vec<DelElement>>,
}

impl DelWriter {
    /// The span written at the current level.
    pub closed spec fn past_view(self) -> Seq<DelNode> {
        del_span_view(self.past@)
    }

    /// The enclosing levels, innermost last.
    pub closed spec fn stack_view(self) -> Seq<Seq<DelNode>> {
        Seq::new(self.stack@.len(), |i: int| del_span_view(self.stack@[i]@))
    }

    pub fn new() -> (res: DelWriter)
        ensures
            res.past_view() == Seq::<DelNode>::empty(),
            res.stack_view() == Seq::<Seq<DelNode>>::empty(),
    {
        let res = DelWriter { past: Vec::new(), stack: Vec::new() };
        proof {
            assert(res.stack_view() =~= Seq::<Seq<DelNode>>::empty());
        }
        res
    }

    /// Opens a group level.
    pub fn begin(&mut self)
        ensures
            final(self).past_view() == Seq::<DelNode>::empty(),
            final(self).stack_view() == old(self).stack_view().push(old(self).past_view()),
    {
        let mut past = Vec::new();
        core::mem::swap(&mut past, &mut self.past);
        self.stack.push(past);
        proof {
            assert(self.stack_view() =~= old(self).stack_view().push(old(self).past_view()));
        }
    }

    /// Leaves the current group, keeping it.
    pub fn exit(&mut self)
        requires
            old(self).stack_view().len() > 0,
            del_place_ok(old(self).stack_view().last(), del_exit_elem(old(self).past_view())),
        ensures
            final(self).stack_view() == old(self).stack_view().drop_last(),
            final(self).past_view() == del_place_spec(
                old(self).stack_view().last(),
                del_exit_elem(old(self).past_view()),
            ),
    {
        let mut past = self.stack.pop().unwrap();
        core::mem::swap(&mut past, &mut self.past);
        proof {
            assert(self.stack_view() =~= old(self).stack_view().drop_last());
            lemma_del_span_view(past@);
        }
        if past.is_continuous_skip() {
            self.past.place(&DelSkip(1));
        } else {
            self.past.place(&DelWithGroup(past));
        }
    }

    /// Leaves the current group, deleting it and keeping its contents.
    pub fn close(&mut self)
        requires
            old(self).stack_view().len() > 0,
        ensures
            final(self).stack_view() == old(self).stack_view().drop_last(),
            final(self).past_view() == del_place_spec(
                old(self).stack_view().last(),
                DelNode::Group(old(self).past_view()),
            ),
    {
        let mut past = self.stack.pop().unwrap();
        core::mem::swap(&mut past, &mut self.past);
        proof {
            assert(self.stack_view() =~= old(self).stack_view().drop_last());
        }
        self.past.place(&DelGroup(past));
    }

    /// Leaves every open group.
    pub fn exit_all(&mut self)
        requires
            del_exit_all_ok(old(self).past_view(), old(self).stack_view()),
        ensures
            final(self).stack_view().len() == 0,
            final(self).past_view() == del_exit_all_spec(
                old(self).past_view(),
                old(self).stack_view(),
            ),
    {
        let ghost target = del_exit_all_spec(self.past_view(), self.stack_view());
        while self.stack.len() > 0
            invariant
                del_exit_all_ok(self.past_view(), self.stack_view()),
                del_exit_all_spec(self.past_view(), self.stack_view()) == target,
            decreases self.stack_view().len(),
        {
            self.exit();
        }
        proof {
            assert(self.stack_view().len() == 0);
        }
    }

    pub fn place(&mut self, elem: &DelElement)
        requires
            del_place_ok(old(self).past_view(), elem@),
        ensures
            final(self).past_view() == del_place_spec(old(self).past_view(), elem@),
            final(self).stack_view() == old(self).stack_view(),
    {
        self.past.place(elem);
    }

    pub fn place_all(&mut self, span: &Vec<DelElement>)
        requires
            del_place_all_ok(old(self).past_view(), del_span_view(span@)),
        ensures
            final(self).past_view() == del_place_all_spec(
                old(self).past_view(),
                del_span_view(span@),
            ),
            final(self).stack_view() == old(self).stack_view(),
    {
        self.past.place_all(span.as_slice());
    }

    /// The span written, once every group is left.
    pub fn result(self) -> (res: Vec<DelElement>)
        requires
            self.stack_view().len() == 0,
        ensures
            del_span_view(res@) == self.past_view(),
    {
        self.past
    }
}

// ---------------------------------------------------------------------------
// Insertions.

/// Builds a insertion span.
#[derive(Debug)]
pub struct AddWriter {
    past: Vec<AddElement>,
    stack: Vec<Vec<AddElement>>,
}

impl AddWriter {
    /// The span written at the current level.
    pub closed spec fn past_view(self) -> Seq<AddNode> {
        add_span_view(self.past@)
    }

    /// The enclosing levels, innermost last.
    pub closed spec fn stack_view(self) -> Seq<Seq<AddNode>> {
        Seq::new(self.stack@.len(), |i: int| add_span_view(self.stack@[i]@))
    }

    pub fn new() -> (res: AddWriter)
        ensures
            res.past_view() == Seq::<AddNode>::empty(),
            res.stack_view() == Seq::<Seq<AddNode>>::empty(),
    {
        let res = AddWriter { past: Vec::new(), stack: Vec::new() };
        proof {
            assert(res.stack_view() =~= Seq::<Seq<AddNode>>::empty());
        }
        res
    }

    /// Opens a group level.
    pub fn begin(&mut self)
        ensures
            final(self).past_view() == Seq::<AddNode>::empty(),
            final(self).stack_view() == old(self).stack_view().push(old(self).past_view()),
    {
        let mut past = Vec::new();
        core::mem::swap(&mut past, &mut self.past);
        self.stack.push(past);
        proof {
            assert(self.stack_view() =~= old(self).stack_view().push(old(self).past_view()));
        }
    }

    /// Leaves the current group, keeping it.
    pub fn exit(&mut self)
        requires
            old(self).stack_view().len() > 0,
            add_place_ok(old(self).stack_view().last(), add_exit_elem(old(self).past_view())),
        ensures
            final(self).stack_view() == old(self).stack_view().drop_last(),
            final(self).past_view() == add_place_spec(
                old(self).stack_view().last(),
                add_exit_elem(old(self).past_view()),
            ),
    {
        let mut past = self.stack.pop().unwrap();
        core::mem::swap(&mut past, &mut self.past);
        proof {
            assert(self.stack_view() =~= old(self).stack_view().drop_last());
            lemma_add_span_view(past@);
        }
        if past.is_continuous_skip() {
            self.past.place(&AddSkip(1));
        } else {
            self.past.place(&AddWithGroup(past));
        }
    }

    /// Leaves the current group, inserting a group with `attrs` around what it wrote.
    pub fn close(&mut self, attrs: Attrs)
        requires
            old(self).stack_view().len() > 0,
        ensures
            final(self).stack_view() == old(self).stack_view().drop_last(),
            final(self).past_view() == add_place_spec(
                old(self).stack_view().last(),
                AddNode::Group(attrs, old(self).past_view()),
            ),
    {
        let mut past = self.stack.pop().unwrap();
        core::mem::swap(&mut past, &mut self.past);
        proof {
            assert(self.stack_view() =~= old(self).stack_view().drop_last());
        }
        self.past.place(&AddGroup(attrs, past));
    }

    /// Leaves every open group.
    pub fn exit_all(&mut self)
        requires
            add_exit_all_ok(old(self).past_view(), old(self).stack_view()),
        ensures
            final(self).stack_view().len() == 0,
            final(self).past_view() == add_exit_all_spec(
                old(self).past_view(),
                old(self).stack_view(),
            ),
    {
        let ghost target = add_exit_all_spec(self.past_view(), self.stack_view());
        while self.stack.len() > 0
            invariant
                add_exit_all_ok(self.past_view(), self.stack_view()),
                add_exit_all_spec(self.past_view(), self.stack_view()) == target,
            decreases self.stack_view().len(),
        {
            self.exit();
        }
        proof {
            assert(self.stack_view().len() == 0);
        }
    }

    pub fn place(&mut self, elem: &AddElement)
        requires
            add_place_ok(old(self).past_view(), elem@),
        ensures
            final(self).past_view() == add_place_spec(old(self).past_view(), elem@),
            final(self).stack_view() == old(self).stack_view(),
    {
        self.past.place(elem);
    }

    pub fn place_all(&mut self, span: &Vec<AddElement>)
        requires
            add_place_all_ok(old(self).past_view(), add_span_view(span@)),
        ensures
            final(self).past_view() == add_place_all_spec(
                old(self).past_view(),
                add_span_view(span@),
            ),
            final(self).stack_view() == old(self).stack_view(),
    {
        self.past.place_all(span.as_slice());
    }

    /// The span written, once every group is left.
    pub fn result(self) -> (res: Vec<AddElement>)
        requires
            self.stack_view().len() == 0,
        ensures
            add_span_view(res@) == self.past_view(),
    {
        self.past
    }
}

// ---------------------------------------------------------------------------
// Cursors.

/// Builds a cursor span.
#[derive(Debug)]
pub struct CurWriter {
    past: Vec<CurElement>,
    stack: Vec<Vec<CurElement>>,
}

impl CurWriter {
    /// The span written at the current level.
    pub closed spec fn past_view(self) -> Seq<CurNode> {
        cur_span_view(self.past@)
    }

    /// The enclosing levels, innermost last.
    pub closed spec fn stack_view(self) -> Seq<Seq<CurNode>> {
        Seq::new(self.stack@.len(), |i: int| cur_span_view(self.stack@[i]@))
    }

    pub fn new() -> (res: CurWriter)
        ensures
            res.past_view() == Seq::<CurNode>::empty(),
            res.stack_view() == Seq::<Seq<CurNode>>::empty(),
    {
        let res = CurWriter { past: Vec::new(), stack: Vec::new() };
        proof {
            assert(res.stack_view() =~= Seq::<Seq<CurNode>>::empty());
        }
        res
    }

    /// Opens a group level.
    pub fn begin(&mut self)
        ensures
            final(self).past_view() == Seq::<CurNode>::empty(),
            final(self).stack_view() == old(self).stack_view().push(old(self).past_view()),
    {
        let mut past = Vec::new();
        core::mem::swap(&mut past, &mut self.past);
        self.stack.push(past);
        proof {
            assert(self.stack_view() =~= old(self).stack_view().push(old(self).past_view()));
        }
    }

    /// Leaves the current group.
    pub fn exit(&mut self)
        requires
            old(self).stack_view().len() > 0,
        ensures
            final(self).stack_view() == old(self).stack_view().drop_last(),
            final(self).past_view() == old(self).stack_view().last().push(
                CurNode::WithGroup(old(self).past_view()),
            ),
    {
        let mut past = self.stack.pop().unwrap();
        core::mem::swap(&mut past, &mut self.past);
        proof {
            assert(self.stack_view() =~= old(self).stack_view().drop_last());
            lemma_cur_span_view(self.past@.push(CurWithGroup(past)));
            assert(self.past@.push(CurWithGroup(past)).drop_last() =~= self.past@);
        }
        self.past.push(CurWithGroup(past));
    }

    /// Leaves every open group.
    pub fn exit_all(&mut self)
        ensures
            final(self).stack_view().len() == 0,
            final(self).past_view() == cur_exit_all_spec(
                old(self).past_view(),
                old(self).stack_view(),
            ),
    {
        let ghost target = cur_exit_all_spec(self.past_view(), self.stack_view());
        while self.stack.len() > 0
            invariant
                cur_exit_all_spec(self.past_view(), self.stack_view()) == target,
            decreases self.stack_view().len(),
        {
            self.exit();
        }
    }

    pub fn place(&mut self, elem: &CurElement)
        requires
            cur_place_ok(old(self).past_view(), elem@),
        ensures
            final(self).past_view() == cur_place_spec(old(self).past_view(), elem@),
            final(self).stack_view() == old(self).stack_view(),
    {
        self.past.place(elem);
    }

    pub fn place_all(&mut self, span: &Vec<CurElement>)
        requires
            cur_place_all_ok(old(self).past_view(), cur_span_view(span@)),
        ensures
            final(self).past_view() == cur_place_all_spec(
                old(self).past_view(),
                cur_span_view(span@),
            ),
            final(self).stack_view() == old(self).stack_view(),
    {
        self.past.place_all(span.as_slice());
    }

    /// The span written, once every group is left.
    pub fn result(self) -> (res: Vec<CurElement>)
        requires
            self.stack_view().len() == 0,
        ensures
            cur_span_view(res@) == self.past_view(),
    {
        self.past
    }
}

// ---------------------------------------------------------------------------
// Documents.

/// Why a writer could not give its result.
#[derive(Debug, PartialEq, Eq, Structural)]
pub enum WriterError {
    /// A group is still open.
    GroupsOpen,
}

/// Builds a document span.
#[derive(Debug)]
pub struct DocWriter {
    past: Vec<DocElement>,
    stack: Vec<Vec<DocElement>>,
}

impl DocWriter {
    /// The span written at the current level.
    pub closed spec fn past_view(self) -> Seq<DocNode> {
        doc_span_view(self.past@)
    }

    /// The enclosing levels, innermost last.
    pub closed spec fn stack_view(self) -> Seq<Seq<DocNode>> {
        Seq::new(self.stack@.len(), |i: int| doc_span_view(self.stack@[i]@))
    }

    pub fn new() -> (res: DocWriter)
        ensures
            res.past_view() == Seq::<DocNode>::empty(),
            res.stack_view() == Seq::<Seq<DocNode>>::empty(),
    {
        let res = DocWriter { past: Vec::new(), stack: Vec::new() };
        proof {
            assert(res.stack_view() =~= Seq::<Seq<DocNode>>::empty());
        }
        res
    }

    /// Opens a group level.
    pub fn begin(&mut self)
        ensures
            final(self).past_view() == Seq::<DocNode>::empty(),
            final(self).stack_view() == old(self).stack_view().push(old(self).past_view()),
    {
        let mut past = Vec::new();
        core::mem::swap(&mut past, &mut self.past);
        self.stack.push(past);
        proof {
            assert(self.stack_view() =~= old(self).stack_view().push(old(self).past_view()));
        }
    }

    /// Leaves the current group, making what it wrote a group with `attrs`.
    pub fn close(&mut self, attrs: Attrs)
        requires
            old(self).stack_view().len() > 0,
        ensures
            final(self).stack_view() == old(self).stack_view().drop_last(),
            final(self).past_view() == old(self).stack_view().last().push(
                DocNode::Group(attrs, old(self).past_view()),
            ),
    {
        let mut past = self.stack.pop().unwrap();
        core::mem::swap(&mut past, &mut self.past);
        proof {
            assert(self.stack_view() =~= old(self).stack_view().drop_last());
            lemma_doc_span_view(self.past@.push(DocGroup(attrs, past)));
            assert(self.past@.push(DocGroup(attrs, past)).drop_last() =~= self.past@);
        }
        self.past.push(DocGroup(attrs, past));
    }

    pub fn place(&mut self, elem: &DocElement)
        requires
            doc_place_ok(old(self).past_view(), elem@),
        ensures
            final(self).past_view() == doc_place_spec(old(self).past_view(), elem@),
            final(self).stack_view() == old(self).stack_view(),
    {
        self.past.place(elem);
    }

    pub fn place_all(&mut self, span: &Vec<DocElement>)
        requires
            doc_place_all_ok(old(self).past_view(), doc_span_view(span@)),
        ensures
            final(self).past_view() == doc_place_all_spec(
                old(self).past_view(),
                doc_span_view(span@),
            ),
            final(self).stack_view() == old(self).stack_view(),
    {
        self.past.place_all(span.as_slice());
    }

    /// The span written; an error while a group is open.
    pub fn result(self) -> (res: Result<Vec<DocElement>, WriterError>)
        ensures
            self.stack_view().len() == 0 <==> res is Ok,
            res matches Ok(span) ==> doc_span_view(span@) == self.past_view(),
            res matches Err(e) ==> e == WriterError::GroupsOpen,
    {
        if self.stack.len() > 0 {
            Err(WriterError::GroupsOpen)
        } else {
            Ok(self.past)
        }
    }
}

// ---------------------------------------------------------------------------
// Operations.

/// Builds an operation: a deletion and an insertion side by side.
#[derive(Debug)]
pub struct OpWriter {
    pub del: DelWriter,
    pub add: AddWriter,
}

impl OpWriter {
    /// Leaves every open group of both writers and gives the operation.
    pub fn exit_result(self) -> (res: Op)
        requires
            del_exit_all_ok(self.del.past_view(), self.del.stack_view()),
            add_exit_all_ok(self.add.past_view(), self.add.stack_view()),
        ensures
            del_span_view(res.0@) == del_exit_all_spec(
                self.del.past_view(),
                self.del.stack_view(),
            ),
            add_span_view(res.1@) == add_exit_all_spec(
                self.add.past_view(),
                self.add.stack_view(),
            ),
    {
        let mut w = self;
        w.del.exit_all();
        w.add.exit_all();
        w.result()
    }

    /// The operation written, once every group of both writers is left.
    pub fn result(self) -> (res: Op)
        requires
            self.del.stack_view().len() == 0,
            self.add.stack_view().len() == 0,
        ensures
            del_span_view(res.0@) == self.del.past_view(),
            add_span_view(res.1@) == self.add.past_view(),
    {
        let OpWriter { del, add } = self;
        Op(del.result(), add.result())
    }
}

} // verus!
