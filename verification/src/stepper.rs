//! Stepping through spans element by element.
use crate::doc::{
    add_span_view, clone_add_elem, clone_add_span, clone_cur_elem, clone_cur_span, clone_del_elem,
    clone_del_span, cur_span_view, del_span_view, lemma_add_span_view, lemma_add_view_subrange,
    lemma_cur_span_view, lemma_cur_view_subrange, lemma_del_span_view, lemma_del_view_subrange,
    AddElement, AddGroup, AddNode, AddWithGroup, CurElement, CurNode, CurSkip, CurWithGroup,
    DelElement, DelGroup, DelNode, DelWithGroup, cur_atoms, cur_elem_atoms, cur_elem_wf,
    lemma_cur_atoms_concat, lemma_repeat, repeat, CurAtom,
};
use vstd::prelude::*;

verus! {

/// Steps through a del span element by element, entering groups.
#[derive(Debug)]
pub struct DelStepper {
    pub head: Option<DelElement>,
    pub rest: Vec<DelElement>,
    pub stack: Vec<Vec<DelElement>>,
}

impl DelStepper {
    /// The view of the head.
    pub open spec fn head_view(self) -> Option<DelNode> {
        match self.head {
            Some(e) => Some(e@),
            None => None,
        }
    }

    /// The view of what follows the head at this level.
    pub open spec fn rest_view(self) -> Seq<DelNode> {
        del_span_view(self.rest@)
    }

    /// What is left at this level: the head, then the rest.
    pub open spec fn span_view(self) -> Seq<DelNode> {
        match self.head_view() {
            Some(h) => seq![h] + self.rest_view(),
            None => seq![],
        }
    }

    /// The views of the levels that entering groups left behind.
    pub open spec fn stack_view(self) -> Seq<Seq<DelNode>> {
        Seq::new(self.stack@.len(), |i: int| del_span_view(self.stack@[i]@))
    }

    /// A stepper at the first element of `span`.
    pub fn new(span: &Vec<DelElement>) -> (res: DelStepper)
        ensures
            res.span_view() == del_span_view(span@),
            res.head.is_none() ==> res.rest@.len() == 0,
            res.stack@.len() == 0,
    {
        let copy = clone_del_span(span);
        let ghost c = copy@;
        let mut ret = DelStepper { head: None, rest: copy, stack: Vec::new() };
        ret.next();
        proof {
            lemma_del_span_view(span@);
            lemma_del_span_view(c);
            if c.len() > 0 {
                assert(seq![c[0]@] + del_span_view(c).drop_first() =~= del_span_view(c));
            } else {
                assert(del_span_view(c) =~= Seq::<DelNode>::empty());
            }
        }
        ret
    }

    /// Moves to the next element at this level, returning the old head.
    pub fn next(&mut self) -> (res: Option<DelElement>)
        ensures
            res.is_some() == old(self).head.is_some(),
            res.is_some() ==> res.unwrap()@ == old(self).head.unwrap()@,
            old(self).rest@.len() > 0 ==> final(self).head.is_some() && final(self).head.unwrap()@
                == old(self).rest@[0]@ && final(self).rest_view() == old(self).rest_view().drop_first(),
            old(self).rest@.len() == 0 ==> final(self).head.is_none() && final(self).rest@.len()
                == 0,
            final(self).stack == old(self).stack,
    {
        let res = self.head.take();
        if self.rest.len() > 0 {
            let h = self.rest.remove(0);
            proof {
                lemma_del_view_subrange(old(self).rest@, 1, old(self).rest@.len() as int);
                assert(self.rest@ =~= old(self).rest@.subrange(1, old(self).rest@.len() as int));
                lemma_del_span_view(old(self).rest@);
                assert(del_span_view(old(self).rest@).drop_first() =~= del_span_view(
                    old(self).rest@,
                ).subrange(1, old(self).rest@.len() as int));
            }
            self.head = Some(h);
        }
        res
    }

    /// A copy of the head, which must be there.
    pub fn get_head(&self) -> (res: DelElement)
        requires
            self.head.is_some(),
        ensures
            res@ == self.head.unwrap()@,
    {
        match &self.head {
            Some(h) => clone_del_elem(h),
            None => {
                proof {
                    assert(false);
                }
                clone_del_elem(&self.rest[0])
            },
        }
    }

    /// Whether the stepper is at the end of the outermost level.
    pub fn is_done(&self) -> (res: bool)
        ensures
            res == (self.head.is_none() && self.stack@.len() == 0),
    {
        self.head.is_none() && self.stack.len() == 0
    }

    /// Steps into the group at the head, a deletion of a group or one that keeps it.
    pub fn enter(&mut self)
        requires
            old(self).head matches Some(DelGroup(span) | DelWithGroup(span)),
        ensures
            final(self).stack@ == old(self).stack@.push(old(self).rest),
            old(self).head matches Some(DelGroup(span)) ==> final(self).span_view()
                == del_span_view(span@),
            old(self).head matches Some(DelWithGroup(span)) ==> final(self).span_view()
                == del_span_view(span@),
            final(self).head.is_none() ==> final(self).rest@.len() == 0,
    {
        let inner = match &self.head {
            Some(DelGroup(span) | DelWithGroup(span)) => clone_del_span(span),
            _ => {
                proof {
                    assert(false);
                }
                Vec::new()
            },
        };
        let mut rest = inner;
        core::mem::swap(&mut rest, &mut self.rest);
        self.stack.push(rest);
        self.head = None;
        let ghost mid = *self;
        self.next();
        proof {
            let v = inner@;
            lemma_del_span_view(v);
            if v.len() > 0 {
                lemma_del_view_subrange(v, 1, v.len() as int);
                assert(seq![v[0]@] + del_span_view(v.drop_first()) =~= del_span_view(v));
            }
        }
    }

    /// Steps out of the current group to the element after it.
    pub fn exit(&mut self)
        requires
            old(self).stack@.len() > 0,
        ensures
            final(self).stack@ == old(self).stack@.drop_last(),
            final(self).span_view() == del_span_view(old(self).stack@.last()@),
            final(self).head.is_none() ==> final(self).rest@.len() == 0,
    {
        let last = self.stack.pop().unwrap();
        self.rest = last;
        self.head = None;
        self.next();
        proof {
            let v = old(self).stack@.last()@;
            lemma_del_span_view(v);
            if v.len() > 0 {
                lemma_del_view_subrange(v, 1, v.len() as int);
                assert(seq![v[0]@] + del_span_view(v.drop_first()) =~= del_span_view(v));
            }
        }
    }

    /// What is left at this level, as a span.
    pub fn into_span(self) -> (res: Vec<DelElement>)
        ensures
            del_span_view(res@) == self.span_view(),
    {
        let DelStepper { head, rest, .. } = self;
        match head {
            Some(head) => {
                let mut out = rest;
                out.insert(0, head);
                proof {
                    lemma_del_span_view(out@);
                    lemma_del_span_view(rest@);
                    assert(del_span_view(out@) =~= seq![head@] + del_span_view(rest@));
                }
                out
            },
            None => Vec::new(),
        }
    }
}

/// Steps through a add span element by element, entering groups.
#[derive(Debug)]
pub struct AddStepper {
    pub head: Option<AddElement>,
    pub rest: Vec<AddElement>,
    pub stack: Vec<Vec<AddElement>>,
}

impl AddStepper {
    /// The view of the head.
    pub open spec fn head_view(self) -> Option<AddNode> {
        match self.head {
            Some(e) => Some(e@),
            None => None,
        }
    }

    /// The view of what follows the head at this level.
    pub open spec fn rest_view(self) -> Seq<AddNode> {
        add_span_view(self.rest@)
    }

    /// What is left at this level: the head, then the rest.
    pub open spec fn span_view(self) -> Seq<AddNode> {
        match self.head_view() {
            Some(h) => seq![h] + self.rest_view(),
            None => seq![],
        }
    }

    /// The views of the levels that entering groups left behind.
    pub open spec fn stack_view(self) -> Seq<Seq<AddNode>> {
        Seq::new(self.stack@.len(), |i: int| add_span_view(self.stack@[i]@))
    }

    /// A stepper at the first element of `span`.
    pub fn new(span: &Vec<AddElement>) -> (res: AddStepper)
        ensures
            res.span_view() == add_span_view(span@),
            res.head.is_none() ==> res.rest@.len() == 0,
            res.stack@.len() == 0,
    {
        let copy = clone_add_span(span);
        let ghost c = copy@;
        let mut ret = AddStepper { head: None, rest: copy, stack: Vec::new() };
        ret.next();
        proof {
            lemma_add_span_view(span@);
            lemma_add_span_view(c);
            if c.len() > 0 {
                assert(seq![c[0]@] + add_span_view(c).drop_first() =~= add_span_view(c));
            } else {
                assert(add_span_view(c) =~= Seq::<AddNode>::empty());
            }
        }
        ret
    }

    /// Moves to the next element at this level, returning the old head.
    pub fn next(&mut self) -> (res: Option<AddElement>)
        ensures
            res.is_some() == old(self).head.is_some(),
            res.is_some() ==> res.unwrap()@ == old(self).head.unwrap()@,
            old(self).rest@.len() > 0 ==> final(self).head.is_some() && final(self).head.unwrap()@
                == old(self).rest@[0]@ && final(self).rest_view() == old(self).rest_view().drop_first(),
            old(self).rest@.len() == 0 ==> final(self).head.is_none() && final(self).rest@.len()
                == 0,
            final(self).stack == old(self).stack,
    {
        let res = self.head.take();
        if self.rest.len() > 0 {
            let h = self.rest.remove(0);
            proof {
                lemma_add_view_subrange(old(self).rest@, 1, old(self).rest@.len() as int);
                assert(self.rest@ =~= old(self).rest@.subrange(1, old(self).rest@.len() as int));
                lemma_add_span_view(old(self).rest@);
                assert(add_span_view(old(self).rest@).drop_first() =~= add_span_view(
                    old(self).rest@,
                ).subrange(1, old(self).rest@.len() as int));
            }
            self.head = Some(h);
        }
        res
    }

    /// A copy of the head, which must be there.
    pub fn get_head(&self) -> (res: AddElement)
        requires
            self.head.is_some(),
        ensures
            res@ == self.head.unwrap()@,
    {
        match &self.head {
            Some(h) => clone_add_elem(h),
            None => {
                proof {
                    assert(false);
                }
                clone_add_elem(&self.rest[0])
            },
        }
    }

    /// Whether the stepper is at the end of the outermost level.
    pub fn is_done(&self) -> (res: bool)
        ensures
            res == (self.head.is_none() && self.stack@.len() == 0),
    {
        self.head.is_none() && self.stack.len() == 0
    }

    /// Steps into the group at the head, an inserted group or one that is kept.
    pub fn enter(&mut self)
        requires
            old(self).head matches Some(AddGroup(_, span) | AddWithGroup(span)),
        ensures
            final(self).stack@ == old(self).stack@.push(old(self).rest),
            old(self).head matches Some(AddGroup(_, span)) ==> final(self).span_view()
                == add_span_view(span@),
            old(self).head matches Some(AddWithGroup(span)) ==> final(self).span_view()
                == add_span_view(span@),
            final(self).head.is_none() ==> final(self).rest@.len() == 0,
    {
        let inner = match &self.head {
            Some(AddGroup(_, span) | AddWithGroup(span)) => clone_add_span(span),
            _ => {
                proof {
                    assert(false);
                }
                Vec::new()
            },
        };
        let mut rest = inner;
        core::mem::swap(&mut rest, &mut self.rest);
        self.stack.push(rest);
        self.head = None;
        let ghost mid = *self;
        self.next();
        proof {
            let v = inner@;
            lemma_add_span_view(v);
            if v.len() > 0 {
                lemma_add_view_subrange(v, 1, v.len() as int);
                assert(seq![v[0]@] + add_span_view(v.drop_first()) =~= add_span_view(v));
            }
        }
    }

    /// Steps out of the current group to the element after it.
    pub fn exit(&mut self)
        requires
            old(self).stack@.len() > 0,
        ensures
            final(self).stack@ == old(self).stack@.drop_last(),
            final(self).span_view() == add_span_view(old(self).stack@.last()@),
            final(self).head.is_none() ==> final(self).rest@.len() == 0,
    {
        let last = self.stack.pop().unwrap();
        self.rest = last;
        self.head = None;
        self.next();
        proof {
            let v = old(self).stack@.last()@;
            lemma_add_span_view(v);
            if v.len() > 0 {
                lemma_add_view_subrange(v, 1, v.len() as int);
                assert(seq![v[0]@] + add_span_view(v.drop_first()) =~= add_span_view(v));
            }
        }
    }

    /// What is left at this level, as a span.
    pub fn into_span(self) -> (res: Vec<AddElement>)
        ensures
            add_span_view(res@) == self.span_view(),
    {
        let AddStepper { head, rest, .. } = self;
        match head {
            Some(head) => {
                let mut out = rest;
                out.insert(0, head);
                proof {
                    lemma_add_span_view(out@);
                    lemma_add_span_view(rest@);
                    assert(add_span_view(out@) =~= seq![head@] + add_span_view(rest@));
                }
                out
            },
            None => Vec::new(),
        }
    }
}

/// Steps through a cursor span atom by atom, entering groups.
#[derive(Debug)]
pub struct CurStepper {
    head: Option<CurElement>,
    rest: Vec<CurElement>,
    stack: Vec<Vec<CurElement>>,
}

impl CurStepper {
    /// The view of the head.
    pub closed spec fn head_view(self) -> Option<CurNode> {
        match self.head {
            Some(e) => Some(e@),
            None => None,
        }
    }

    /// The view of what follows the head at this level.
    pub closed spec fn rest_view(self) -> Seq<CurNode> {
        cur_span_view(self.rest@)
    }

    /// What is left at this level: the head, then the rest.
    pub closed spec fn span_view(self) -> Seq<CurNode> {
        match self.head_view() {
            Some(h) => seq![h] + cur_span_view(self.rest@),
            None => seq![],
        }
    }

    /// The views of the levels that entering groups left behind, innermost last.
    pub closed spec fn stack_view(self) -> Seq<Seq<CurNode>> {
        Seq::new(self.stack@.len(), |i: int| cur_span_view(self.stack@[i]@))
    }

    /// Whether a head is there exactly when something is left at this level.
    pub closed spec fn inv(self) -> bool {
        self.head.is_none() ==> self.rest@.len() == 0
    }

    /// A stepper at the first element of `span`.
    pub fn new(span: &Vec<CurElement>) -> (res: CurStepper)
        ensures
            res.inv(),
            res.span_view() == cur_span_view(span@),
            res.stack_view().len() == 0,
    {
        let copy = clone_cur_span(span);
        let ghost c = copy@;
        let mut ret = CurStepper { head: None, rest: copy, stack: Vec::new() };
        ret.next();
        proof {
            lemma_cur_span_view(span@);
            lemma_cur_span_view(c);
            if c.len() > 0 {
                assert(seq![c[0]@] + cur_span_view(c).drop_first() =~= cur_span_view(c));
            } else {
                assert(cur_span_view(c) =~= Seq::<CurNode>::empty());
            }
        }
        ret
    }

    /// Moves to the next element at this level, returning the old head.
    pub fn next(&mut self) -> (res: Option<CurElement>)
        ensures
            final(self).inv(),
            res.is_some() == old(self).head_view().is_some(),
            res.is_some() ==> res.unwrap()@ == old(self).head_view().unwrap(),
            final(self).span_view() == old(self).rest_view(),
            old(self).inv() ==> res.is_some() == (old(self).span_view().len() > 0),
            old(self).inv() && res.is_some() ==> res.unwrap()@ == old(self).span_view()[0],
            old(self).inv() ==> final(self).span_view() == if old(self).span_view().len() > 0 {
                old(self).span_view().drop_first()
            } else {
                old(self).span_view()
            },
            final(self).stack_view() == old(self).stack_view(),
    {
        let res = self.head.take();
        if self.rest.len() > 0 {
            let h = self.rest.remove(0);
            proof {
                lemma_cur_view_subrange(old(self).rest@, 1, old(self).rest@.len() as int);
                assert(self.rest@ =~= old(self).rest@.subrange(1, old(self).rest@.len() as int));
                lemma_cur_span_view(old(self).rest@);
                let v = cur_span_view(old(self).rest@);
                assert(v =~= seq![v[0]] + v.subrange(1, v.len() as int));
            }
            self.head = Some(h);
        }
        proof {
            if old(self).head.is_some() {
                assert((seq![old(self).head.unwrap()@] + cur_span_view(old(self).rest@)).drop_first()
                    =~= cur_span_view(old(self).rest@));
            }
        }
        res
    }

    /// A copy of the head.
    pub fn head(&self) -> (res: Option<CurElement>)
        requires
            self.inv(),
        ensures
            res.is_some() == (self.span_view().len() > 0),
            res.is_some() ==> res.unwrap()@ == self.span_view()[0],
    {
        match &self.head {
            Some(h) => Some(clone_cur_elem(h)),
            None => None,
        }
    }

    /// Whether the stepper is at the end of the outermost level.
    pub fn is_done(&self) -> (res: bool)
        requires
            self.inv(),
        ensures
            res == (self.span_view().len() == 0 && self.stack_view().len() == 0),
    {
        self.head.is_none() && self.stack.len() == 0
    }

    /// Moves past one atom: one of a run of skips, or the element at the head.
    pub fn skip(&mut self)
        requires
            old(self).inv(),
            old(self).span_view().len() > 0,
            cur_elem_wf(old(self).span_view()[0]),
        ensures
            final(self).inv(),
            cur_atoms(final(self).span_view()) == cur_atoms(old(self).span_view()).drop_first(),
            final(self).stack_view() == old(self).stack_view(),
            old(self).span_view()[0] matches CurNode::Skip(n) ==> final(self).span_view() == if n > 1 {
                seq![CurNode::Skip((n - 1) as nat)] + old(self).span_view().drop_first()
            } else {
                old(self).span_view().drop_first()
            },
            !(old(self).span_view()[0] is Skip) ==> final(self).span_view() == old(self).span_view().drop_first(),
    {
        let ghost old_span = self.span_view();
        let count = match &self.head {
            Some(CurSkip(count)) => *count,
            _ => 0,
        };
        proof {
            let h = old_span[0];
            let r = cur_span_view(self.rest@);
            assert(old_span.drop_last() + seq![old_span.last()] =~= old_span);
            assert(old_span =~= seq![h] + r);
            lemma_cur_atoms_concat(seq![h], r);
            assert(seq![h].drop_last() =~= Seq::<CurNode>::empty());
            assert(cur_atoms(Seq::<CurNode>::empty()) =~= Seq::<CurAtom>::empty());
            assert(Seq::<CurAtom>::empty() + cur_elem_atoms(h) =~= cur_elem_atoms(h));
            assert(cur_atoms(seq![h]) == cur_elem_atoms(h));
        }
        if count > 1 {
            self.head = Some(CurSkip(count - 1));
            proof {
                let r = cur_span_view(self.rest@);
                let h2 = CurNode::Skip((count - 1) as nat);
                lemma_cur_atoms_concat(seq![h2], r);
                assert(seq![h2].drop_last() =~= Seq::<CurNode>::empty());
                assert(Seq::<CurAtom>::empty() + cur_elem_atoms(h2) =~= cur_elem_atoms(h2));
                assert(cur_atoms(seq![h2]) == cur_elem_atoms(h2));
                lemma_repeat(CurAtom::Skip, count as nat);
                lemma_repeat(CurAtom::Skip, (count - 1) as nat);
                assert(repeat(CurAtom::Skip, count as nat).drop_first() =~= repeat(
                    CurAtom::Skip,
                    (count - 1) as nat,
                ));
                assert((repeat(CurAtom::Skip, count as nat) + cur_atoms(r)).drop_first()
                    =~= repeat(CurAtom::Skip, (count - 1) as nat) + cur_atoms(r));
            }
        } else {
            self.next();
            proof {
                let h = old_span[0];
                let r = cur_span_view(old(self).rest@);
                assert(cur_elem_atoms(h).len() == 1) by {
                    match h {
                        CurNode::Skip(n) => {
                            lemma_repeat(CurAtom::Skip, n);
                        },
                        _ => {},
                    }
                }
                assert((cur_elem_atoms(h) + cur_atoms(r)).drop_first() =~= cur_atoms(r));
                assert(old_span.drop_first() =~= r);
            }
        }
    }

    /// Steps into the group at the head.
    pub fn enter(&mut self)
        requires
            old(self).inv(),
            old(self).span_view().len() > 0,
            old(self).span_view()[0] is WithGroup,
        ensures
            final(self).inv(),
            final(self).span_view() == old(self).span_view()[0]->WithGroup_0,
            final(self).stack_view() == old(self).stack_view().push(old(self).span_view().drop_first()),
    {
        let ghost old_span = self.span_view();
        let inner = match &self.head {
            Some(CurWithGroup(span)) => clone_cur_span(span),
            _ => {
                proof {
                    assert(false);
                }
                Vec::new()
            },
        };
        let ghost c = inner@;
        let mut rest = inner;
        core::mem::swap(&mut rest, &mut self.rest);
        proof {
            assert((seq![old(self).head.unwrap()@] + cur_span_view(rest@)).drop_first()
                =~= cur_span_view(rest@));
        }
        self.stack.push(rest);
        self.head = None;
        self.next();
        proof {
            lemma_cur_span_view(c);
            if c.len() > 0 {
                assert(seq![c[0]@] + cur_span_view(c).drop_first() =~= cur_span_view(c));
            } else {
                assert(cur_span_view(c) =~= Seq::<CurNode>::empty());
            }
            assert(self.stack_view() =~= old(self).stack_view().push(old_span.drop_first()));
        }
    }

    /// Steps out of the current group to the element after it.
    pub fn exit(&mut self)
        requires
            old(self).inv(),
            old(self).stack_view().len() > 0,
        ensures
            final(self).inv(),
            final(self).stack_view() == old(self).stack_view().drop_last(),
            final(self).span_view() == old(self).stack_view().last(),
    {
        let last = self.stack.pop().unwrap();
        let ghost c = last@;
        self.rest = last;
        self.head = None;
        proof {
            assert(self.stack_view() =~= old(self).stack_view().drop_last());
        }
        self.next();
        proof {
            lemma_cur_span_view(c);
            if c.len() > 0 {
                assert(seq![c[0]@] + cur_span_view(c).drop_first() =~= cur_span_view(c));
            } else {
                assert(cur_span_view(c) =~= Seq::<CurNode>::empty());
            }
        }
    }
}

} // verus!
