//! Documents, the operations that edit them, and cursors.
//!
//! A document is a sequence of elements: runs of styled text and groups that
//! hold a document of their own. Deletions and insertions are spans of
//! elements that walk a document and say, element by element, what becomes of
//! it. Counts in a span compress runs: `DelSkip(3)` is three skips.
//!
//! Each span has an expansion into atoms, where every count is spelled out
//! one by one and every run of text is spelled out char by char. Two spans
//! with the same expansion mean the same thing; the contracts of this crate
//! are stated over expansions.
use crate::rtf::{Attrs, StyleSet};
use vstd::prelude::*;
use vstd::string::{StrSliceExecFns, StringExecFns};

verus! {

/// A run of characters.
#[derive(Debug)]
pub struct DocString(String);

impl View for DocString {
    type V = Seq<char>;

    closed spec fn view(&self) -> Seq<char> {
        self.0@
    }
}

impl Clone for DocString {
    fn clone(&self) -> (res: Self)
        ensures
            res == *self,
    {
        DocString(self.0.clone())
    }
}

impl PartialEq for DocString {
    fn eq(&self, other: &Self) -> (res: bool) {
        self.0 == other.0
    }
}

impl vstd::std_specs::cmp::PartialEqSpecImpl for DocString {
    open spec fn obeys_eq_spec() -> bool {
        true
    }

    open spec fn eq_spec(&self, other: &Self) -> bool {
        self@ == other@
    }
}

impl DocString {
    pub fn from_string(input: String) -> (res: DocString)
        ensures
            res@ == input@,
    {
        DocString(input)
    }

    pub fn from_str(input: &str) -> (res: DocString)
        ensures
            res@ == input@,
    {
        DocString(<String as StringExecFns>::from_str(input))
    }

    pub fn as_str(&self) -> (res: &str)
        ensures
            res@ == self@,
    {
        self.0.as_str()
    }

    /// Appends `input` to the end of the run.
    pub fn push_str(&mut self, input: &str)
        ensures
            final(self)@ == old(self)@ + input@,
    {
        self.0.append(input);
    }

    /// Appends the characters of another run.
    pub fn push_doc_string(&mut self, input: &DocString)
        ensures
            final(self)@ == old(self)@ + input@,
    {
        self.0.append(input.0.as_str());
    }

    /// Splits the run before its character `char_boundary`, which must be a
    /// character of the run.
    pub fn split_at(&self, char_boundary: usize) -> (res: (DocString, DocString))
        requires
            char_boundary < self@.len(),
        ensures
            res.0@ == self@.take(char_boundary as int),
            res.1@ == self@.skip(char_boundary as int),
    {
        let s = self.0.as_str();
        let n = s.unicode_len();
        let left = s.substring_char(0, char_boundary).to_owned();
        let right = s.substring_char(char_boundary, n).to_owned();
        (DocString(left), DocString(right))
    }

    pub fn to_string(&self) -> (res: String)
        ensures
            res@ == self@,
    {
        self.0.clone()
    }

    pub fn is_empty(&self) -> (res: bool)
        ensures
            res == (self@.len() == 0),
    {
        self.0.as_str().unicode_len() == 0
    }

    pub fn into_string(self) -> (res: String)
        ensures
            res@ == self@,
    {
        self.0
    }

    /// The number of characters of the run.
    pub fn char_len(&self) -> (res: usize)
        ensures
            res == self@.len(),
    {
        self.0.as_str().unicode_len()
    }
}

/// An element of a document.
#[derive(Debug, PartialEq)]
pub enum DocElement {
    DocText(StyleSet, DocString),
    DocGroup(Attrs, Vec<DocElement>),
}

pub use DocElement::{DocGroup, DocText};

pub type DocSpan = Vec<DocElement>;

/// A whole document.
#[derive(Debug, PartialEq)]
pub struct Doc(pub Vec<DocElement>);

/// An element of a deletion.
#[derive(Debug, PartialEq)]
pub enum DelElement {
    /// Keeps this many elements.
    DelSkip(usize),
    /// Keeps the group and applies the inner deletion to its contents.
    DelWithGroup(Vec<DelElement>),
    /// Deletes this many characters.
    DelText(usize),
    /// Deletes the group itself, keeping its contents after the inner deletion.
    DelGroup(Vec<DelElement>),
    /// Takes these styles off this many characters.
    DelStyles(usize, StyleSet),
}

pub use DelElement::{DelGroup, DelSkip, DelStyles, DelText, DelWithGroup};

pub type DelSpan = Vec<DelElement>;

/// An element of an insertion.
#[derive(Debug, PartialEq)]
pub enum AddElement {
    /// Keeps this many elements.
    AddSkip(usize),
    /// Keeps the group and applies the inner insertion to its contents.
    AddWithGroup(Vec<AddElement>),
    /// Inserts styled text.
    AddText(StyleSet, DocString),
    /// Inserts a group wrapping what the inner insertion walks over.
    AddGroup(Attrs, Vec<AddElement>),
    /// Adds these styles to this many characters.
    AddStyles(usize, StyleSet),
}

pub use AddElement::{AddGroup, AddSkip, AddStyles, AddText, AddWithGroup};

pub type AddSpan = Vec<AddElement>;

/// An element of a cursor.
#[derive(Debug, PartialEq)]
pub enum CurElement {
    CurSkip(usize),
    CurWithGroup(Vec<CurElement>),
    CurGroup,
    CurChar,
}

pub use CurElement::{CurChar, CurGroup, CurSkip, CurWithGroup};

pub type CurSpan = Vec<CurElement>;

/// An operation: a deletion, then an insertion.
#[derive(Debug, PartialEq)]
pub struct Op(pub Vec<DelElement>, pub Vec<AddElement>);

// ---------------------------------------------------------------------------
// Values: what an element holds, with runs of text as sequences of chars.

/// The value of a document element.
pub enum DocNode {
    Text(StyleSet, Seq<char>),
    Group(Attrs, Seq<DocNode>),
}

/// The value of a deletion element.
pub enum DelNode {
    Skip(nat),
    WithGroup(Seq<DelNode>),
    Text(nat),
    Group(Seq<DelNode>),
    Styles(nat, StyleSet),
}

/// The value of an insertion element.
pub enum AddNode {
    Skip(nat),
    WithGroup(Seq<AddNode>),
    Text(StyleSet, Seq<char>),
    Group(Attrs, Seq<AddNode>),
    Styles(nat, StyleSet),
}

/// The value of a cursor element.
pub enum CurNode {
    Skip(nat),
    WithGroup(Seq<CurNode>),
    Group,
    Char,
}

pub open spec fn doc_elem_view(e: DocElement) -> DocNode
    decreases e,
{
    match e {
        DocText(st, text) => DocNode::Text(st, text@),
        DocGroup(attrs, span) => DocNode::Group(attrs, doc_span_view(span@)),
    }
}

pub open spec fn doc_span_view(s: Seq<DocElement>) -> Seq<DocNode>
    decreases s,
{
    if s.len() == 0 {
        seq![]
    } else {
        doc_span_view(s.drop_last()).push(doc_elem_view(s.last()))
    }
}

pub open spec fn del_elem_view(e: DelElement) -> DelNode
    decreases e,
{
    match e {
        DelSkip(n) => DelNode::Skip(n as nat),
        DelText(n) => DelNode::Text(n as nat),
        DelStyles(n, st) => DelNode::Styles(n as nat, st),
        DelWithGroup(span) => DelNode::WithGroup(del_span_view(span@)),
        DelGroup(span) => DelNode::Group(del_span_view(span@)),
    }
}

pub open spec fn del_span_view(s: Seq<DelElement>) -> Seq<DelNode>
    decreases s,
{
    if s.len() == 0 {
        seq![]
    } else {
        del_span_view(s.drop_last()).push(del_elem_view(s.last()))
    }
}

pub open spec fn add_elem_view(e: AddElement) -> AddNode
    decreases e,
{
    match e {
        AddSkip(n) => AddNode::Skip(n as nat),
        AddStyles(n, st) => AddNode::Styles(n as nat, st),
        AddText(st, text) => AddNode::Text(st, text@),
        AddWithGroup(span) => AddNode::WithGroup(add_span_view(span@)),
        AddGroup(attrs, span) => AddNode::Group(attrs, add_span_view(span@)),
    }
}

pub open spec fn add_span_view(s: Seq<AddElement>) -> Seq<AddNode>
    decreases s,
{
    if s.len() == 0 {
        seq![]
    } else {
        add_span_view(s.drop_last()).push(add_elem_view(s.last()))
    }
}

pub open spec fn cur_elem_view(e: CurElement) -> CurNode
    decreases e,
{
    match e {
        CurSkip(n) => CurNode::Skip(n as nat),
        CurGroup => CurNode::Group,
        CurChar => CurNode::Char,
        CurWithGroup(span) => CurNode::WithGroup(cur_span_view(span@)),
    }
}

pub open spec fn cur_span_view(s: Seq<CurElement>) -> Seq<CurNode>
    decreases s,
{
    if s.len() == 0 {
        seq![]
    } else {
        cur_span_view(s.drop_last()).push(cur_elem_view(s.last()))
    }
}

impl View for DocElement {
    type V = DocNode;

    open spec fn view(&self) -> DocNode {
        doc_elem_view(*self)
    }
}

impl View for DelElement {
    type V = DelNode;

    open spec fn view(&self) -> DelNode {
        del_elem_view(*self)
    }
}

impl View for AddElement {
    type V = AddNode;

    open spec fn view(&self) -> AddNode {
        add_elem_view(*self)
    }
}

impl View for CurElement {
    type V = CurNode;

    open spec fn view(&self) -> CurNode {
        cur_elem_view(*self)
    }
}

/// The view of a span is the view of each of its elements.
pub proof fn lemma_doc_span_view(s: Seq<DocElement>)
    ensures
        doc_span_view(s).len() == s.len(),
        forall|i: int| 0 <= i < s.len() ==> #[trigger] doc_span_view(s)[i] == s[i]@,
    decreases s.len(),
{
    if s.len() > 0 {
        lemma_doc_span_view(s.drop_last());
    }
}

pub proof fn lemma_del_span_view(s: Seq<DelElement>)
    ensures
        del_span_view(s).len() == s.len(),
        forall|i: int| 0 <= i < s.len() ==> #[trigger] del_span_view(s)[i] == s[i]@,
    decreases s.len(),
{
    if s.len() > 0 {
        lemma_del_span_view(s.drop_last());
    }
}

pub proof fn lemma_add_span_view(s: Seq<AddElement>)
    ensures
        add_span_view(s).len() == s.len(),
        forall|i: int| 0 <= i < s.len() ==> #[trigger] add_span_view(s)[i] == s[i]@,
    decreases s.len(),
{
    if s.len() > 0 {
        lemma_add_span_view(s.drop_last());
    }
}

pub proof fn lemma_cur_span_view(s: Seq<CurElement>)
    ensures
        cur_span_view(s).len() == s.len(),
        forall|i: int| 0 <= i < s.len() ==> #[trigger] cur_span_view(s)[i] == s[i]@,
    decreases s.len(),
{
    if s.len() > 0 {
        lemma_cur_span_view(s.drop_last());
    }
}

/// Two spans whose elements have the same views have the same view.
pub proof fn lemma_doc_span_view_eq(a: Seq<DocElement>, b: Seq<DocElement>)
    requires
        a.len() == b.len(),
        forall|i: int| 0 <= i < a.len() ==> a[i]@ == b[i]@,
    ensures
        doc_span_view(a) == doc_span_view(b),
{
    lemma_doc_span_view(a);
    lemma_doc_span_view(b);
    assert(doc_span_view(a) =~= doc_span_view(b));
}

pub proof fn lemma_del_span_view_eq(a: Seq<DelElement>, b: Seq<DelElement>)
    requires
        a.len() == b.len(),
        forall|i: int| 0 <= i < a.len() ==> a[i]@ == b[i]@,
    ensures
        del_span_view(a) == del_span_view(b),
{
    lemma_del_span_view(a);
    lemma_del_span_view(b);
    assert(del_span_view(a) =~= del_span_view(b));
}

pub proof fn lemma_add_span_view_eq(a: Seq<AddElement>, b: Seq<AddElement>)
    requires
        a.len() == b.len(),
        forall|i: int| 0 <= i < a.len() ==> a[i]@ == b[i]@,
    ensures
        add_span_view(a) == add_span_view(b),
{
    lemma_add_span_view(a);
    lemma_add_span_view(b);
    assert(add_span_view(a) =~= add_span_view(b));
}

pub proof fn lemma_cur_span_view_eq(a: Seq<CurElement>, b: Seq<CurElement>)
    requires
        a.len() == b.len(),
        forall|i: int| 0 <= i < a.len() ==> a[i]@ == b[i]@,
    ensures
        cur_span_view(a) == cur_span_view(b),
{
    lemma_cur_span_view(a);
    lemma_cur_span_view(b);
    assert(cur_span_view(a) =~= cur_span_view(b));
}

/// A copy of a document element.
pub fn clone_doc_elem(e: &DocElement) -> (res: DocElement)
    ensures
        res@ == e@,
    decreases e,
{
    match e {
        DocText(st, text) => DocText(*st, text.clone()),
        DocGroup(attrs, span) => DocGroup(attrs.clone(), clone_doc_span(span)),
    }
}

/// A copy of a document span.
pub fn clone_doc_span(s: &Vec<DocElement>) -> (res: Vec<DocElement>)
    ensures
        doc_span_view(res@) == doc_span_view(s@),
    decreases s,
{
    let mut res: Vec<DocElement> = Vec::new();
    for i in 0..s.len()
        invariant
            res.len() == i,
            forall|j: int| 0 <= j < i ==> #[trigger] res@[j]@ == s@[j]@,
    {
        proof {
            assert(decreases_to!(s => s@[i as int]));
        }
        res.push(clone_doc_elem(&s[i]));
    }
    proof {
        lemma_doc_span_view_eq(res@, s@);
    }
    res
}

impl Clone for DocElement {
    fn clone(&self) -> (res: Self)
        ensures
            res@ == self@,
    {
        clone_doc_elem(self)
    }
}

/// A copy of a deletion element.
pub fn clone_del_elem(e: &DelElement) -> (res: DelElement)
    ensures
        res@ == e@,
    decreases e,
{
    match e {
        DelSkip(n) => DelSkip(*n),
        DelText(n) => DelText(*n),
        DelStyles(n, st) => DelStyles(*n, *st),
        DelWithGroup(span) => DelWithGroup(clone_del_span(span)),
        DelGroup(span) => DelGroup(clone_del_span(span)),
    }
}

/// A copy of a deletion span.
pub fn clone_del_span(s: &Vec<DelElement>) -> (res: Vec<DelElement>)
    ensures
        del_span_view(res@) == del_span_view(s@),
    decreases s,
{
    let mut res: Vec<DelElement> = Vec::new();
    for i in 0..s.len()
        invariant
            res.len() == i,
            forall|j: int| 0 <= j < i ==> #[trigger] res@[j]@ == s@[j]@,
    {
        proof {
            assert(decreases_to!(s => s@[i as int]));
        }
        res.push(clone_del_elem(&s[i]));
    }
    proof {
        lemma_del_span_view_eq(res@, s@);
    }
    res
}

impl Clone for DelElement {
    fn clone(&self) -> (res: Self)
        ensures
            res@ == self@,
    {
        clone_del_elem(self)
    }
}

/// A copy of a insertion element.
pub fn clone_add_elem(e: &AddElement) -> (res: AddElement)
    ensures
        res@ == e@,
    decreases e,
{
    match e {
        AddSkip(n) => AddSkip(*n),
        AddStyles(n, st) => AddStyles(*n, *st),
        AddText(st, text) => AddText(*st, text.clone()),
        AddWithGroup(span) => AddWithGroup(clone_add_span(span)),
        AddGroup(attrs, span) => AddGroup(attrs.clone(), clone_add_span(span)),
    }
}

/// A copy of a insertion span.
pub fn clone_add_span(s: &Vec<AddElement>) -> (res: Vec<AddElement>)
    ensures
        add_span_view(res@) == add_span_view(s@),
    decreases s,
{
    let mut res: Vec<AddElement> = Vec::new();
    for i in 0..s.len()
        invariant
            res.len() == i,
            forall|j: int| 0 <= j < i ==> #[trigger] res@[j]@ == s@[j]@,
    {
        proof {
            assert(decreases_to!(s => s@[i as int]));
        }
        res.push(clone_add_elem(&s[i]));
    }
    proof {
        lemma_add_span_view_eq(res@, s@);
    }
    res
}

impl Clone for AddElement {
    fn clone(&self) -> (res: Self)
        ensures
            res@ == self@,
    {
        clone_add_elem(self)
    }
}

/// A copy of a cursor element.
pub fn clone_cur_elem(e: &CurElement) -> (res: CurElement)
    ensures
        res@ == e@,
    decreases e,
{
    match e {
        CurSkip(n) => CurSkip(*n),
        CurGroup => CurGroup,
        CurChar => CurChar,
        CurWithGroup(span) => CurWithGroup(clone_cur_span(span)),
    }
}

/// A copy of a cursor span.
pub fn clone_cur_span(s: &Vec<CurElement>) -> (res: Vec<CurElement>)
    ensures
        cur_span_view(res@) == cur_span_view(s@),
    decreases s,
{
    let mut res: Vec<CurElement> = Vec::new();
    for i in 0..s.len()
        invariant
            res.len() == i,
            forall|j: int| 0 <= j < i ==> #[trigger] res@[j]@ == s@[j]@,
    {
        proof {
            assert(decreases_to!(s => s@[i as int]));
        }
        res.push(clone_cur_elem(&s[i]));
    }
    proof {
        lemma_cur_span_view_eq(res@, s@);
    }
    res
}

impl Clone for CurElement {
    fn clone(&self) -> (res: Self)
        ensures
            res@ == self@,
    {
        clone_cur_elem(self)
    }
}

impl Clone for Op {
    fn clone(&self) -> (res: Self)
        ensures
            del_span_view(res.0@) == del_span_view(self.0@),
            add_span_view(res.1@) == add_span_view(self.1@),
    {
        Op(clone_del_span(&self.0), clone_add_span(&self.1))
    }
}

impl Clone for Doc {
    fn clone(&self) -> (res: Self)
        ensures
            doc_span_view(res.0@) == doc_span_view(self.0@),
    {
        Doc(clone_doc_span(&self.0))
    }
}

// ---------------------------------------------------------------------------
// Atoms

/// One atom of a document: a character or a group.
pub enum DocAtom {
    Char(StyleSet, char),
    Group(Attrs, Seq<DocAtom>),
}

/// One atom of a deletion: what becomes of one atom of the document.
pub enum DelAtom {
    Skip,
    Text,
    Styles(StyleSet),
    WithGroup(Seq<DelAtom>),
    Group(Seq<DelAtom>),
}

/// One atom of an insertion.
pub enum AddAtom {
    Skip,
    Text(StyleSet, char),
    Styles(StyleSet),
    WithGroup(Seq<AddAtom>),
    Group(Attrs, Seq<AddAtom>),
}

/// One atom of a cursor.
pub enum CurAtom {
    Skip,
    WithGroup(Seq<CurAtom>),
    Group,
    Char,
}

/// `n` copies of `a`.
pub open spec fn repeat<A>(a: A, n: nat) -> Seq<A>
    decreases n,
{
    if n == 0 {
        Seq::empty()
    } else {
        repeat(a, (n - 1) as nat).push(a)
    }
}

/// A styled character.
pub open spec fn char_atom(styles: StyleSet, c: char) -> DocAtom {
    DocAtom::Char(styles, c)
}

/// An inserted styled character.
pub open spec fn add_char_atom(styles: StyleSet, c: char) -> AddAtom {
    AddAtom::Text(styles, c)
}

/// The characters of a run with their styles.
pub open spec fn text_atoms(styles: StyleSet, text: Seq<char>) -> Seq<DocAtom>
    decreases text.len(),
{
    if text.len() == 0 {
        Seq::empty()
    } else {
        text_atoms(styles, text.drop_last()).push(char_atom(styles, text.last()))
    }
}

/// The inserted characters of a run with their styles.
pub open spec fn add_text_atoms(styles: StyleSet, text: Seq<char>) -> Seq<AddAtom>
    decreases text.len(),
{
    if text.len() == 0 {
        Seq::empty()
    } else {
        add_text_atoms(styles, text.drop_last()).push(add_char_atom(styles, text.last()))
    }
}

pub proof fn lemma_repeat<A>(a: A, n: nat)
    ensures
        repeat(a, n).len() == n,
        forall|i: int| 0 <= i < n ==> #[trigger] repeat(a, n)[i] == a,
    decreases n,
{
    if n > 0 {
        lemma_repeat(a, (n - 1) as nat);
    }
}

pub proof fn lemma_text_atoms(styles: StyleSet, text: Seq<char>)
    ensures
        text_atoms(styles, text).len() == text.len(),
        forall|i: int|
            0 <= i < text.len() ==> #[trigger] text_atoms(styles, text)[i] == char_atom(
                styles,
                text[i],
            ),
        add_text_atoms(styles, text).len() == text.len(),
        forall|i: int|
            0 <= i < text.len() ==> #[trigger] add_text_atoms(styles, text)[i] == add_char_atom(
                styles,
                text[i],
            ),
    decreases text.len(),
{
    if text.len() > 0 {
        lemma_text_atoms(styles, text.drop_last());
    }
}

pub open spec fn doc_elem_atoms(e: DocNode) -> Seq<DocAtom>
    decreases e,
{
    match e {
        DocNode::Text(st, text) => text_atoms(st, text),
        DocNode::Group(attrs, span) => seq![DocAtom::Group(attrs, doc_atoms(span))],
    }
}

/// The expansion of a document span.
pub open spec fn doc_atoms(s: Seq<DocNode>) -> Seq<DocAtom>
    decreases s,
{
    if s.len() == 0 {
        seq![]
    } else {
        doc_atoms(s.drop_last()) + doc_elem_atoms(s.last())
    }
}

pub open spec fn del_elem_atoms(e: DelNode) -> Seq<DelAtom>
    decreases e,
{
    match e {
        DelNode::Skip(n) => repeat(DelAtom::Skip, n),
        DelNode::Text(n) => repeat(DelAtom::Text, n),
        DelNode::Styles(n, st) => repeat(DelAtom::Styles(st), n),
        DelNode::WithGroup(span) => seq![DelAtom::WithGroup(del_atoms(span))],
        DelNode::Group(span) => seq![DelAtom::Group(del_atoms(span))],
    }
}

/// The expansion of a deletion span.
pub open spec fn del_atoms(s: Seq<DelNode>) -> Seq<DelAtom>
    decreases s,
{
    if s.len() == 0 {
        seq![]
    } else {
        del_atoms(s.drop_last()) + del_elem_atoms(s.last())
    }
}

pub open spec fn add_elem_atoms(e: AddNode) -> Seq<AddAtom>
    decreases e,
{
    match e {
        AddNode::Skip(n) => repeat(AddAtom::Skip, n),
        AddNode::Styles(n, st) => repeat(AddAtom::Styles(st), n),
        AddNode::Text(st, text) => add_text_atoms(st, text),
        AddNode::WithGroup(span) => seq![AddAtom::WithGroup(add_atoms(span))],
        AddNode::Group(attrs, span) => seq![AddAtom::Group(attrs, add_atoms(span))],
    }
}

/// The expansion of an insertion span.
pub open spec fn add_atoms(s: Seq<AddNode>) -> Seq<AddAtom>
    decreases s,
{
    if s.len() == 0 {
        seq![]
    } else {
        add_atoms(s.drop_last()) + add_elem_atoms(s.last())
    }
}

pub open spec fn cur_elem_atoms(e: CurNode) -> Seq<CurAtom>
    decreases e,
{
    match e {
        CurNode::Skip(n) => repeat(CurAtom::Skip, n),
        CurNode::Group => seq![CurAtom::Group],
        CurNode::Char => seq![CurAtom::Char],
        CurNode::WithGroup(span) => seq![CurAtom::WithGroup(cur_atoms(span))],
    }
}

/// The expansion of a cursor span.
pub open spec fn cur_atoms(s: Seq<CurNode>) -> Seq<CurAtom>
    decreases s,
{
    if s.len() == 0 {
        seq![]
    } else {
        cur_atoms(s.drop_last()) + cur_elem_atoms(s.last())
    }
}

// ---------------------------------------------------------------------------
// Well-formed spans: no count is zero and no run of text is empty.

pub open spec fn doc_elem_wf(e: DocNode) -> bool
    decreases e,
{
    match e {
        DocNode::Text(_, text) => text.len() > 0,
        DocNode::Group(_, span) => doc_nodes_wf(span),
    }
}

/// Every element of the span is well formed, stated element by element
/// from the end.
pub open spec fn doc_nodes_wf(s: Seq<DocNode>) -> bool
    decreases s,
{
    if s.len() == 0 {
        true
    } else {
        doc_nodes_wf(s.drop_last()) && doc_elem_wf(s.last())
    }
}

pub open spec fn doc_span_wf(s: Seq<DocNode>) -> bool {
    forall|i: int| 0 <= i < s.len() ==> #[trigger] doc_elem_wf(s[i])
}

pub open spec fn del_elem_wf(e: DelNode) -> bool
    decreases e,
{
    match e {
        DelNode::Skip(n) => n > 0,
        DelNode::Text(n) => n > 0,
        DelNode::Styles(n, _) => n > 0,
        DelNode::WithGroup(span) => del_nodes_wf(span),
        DelNode::Group(span) => del_nodes_wf(span),
    }
}

pub open spec fn del_nodes_wf(s: Seq<DelNode>) -> bool
    decreases s,
{
    if s.len() == 0 {
        true
    } else {
        del_nodes_wf(s.drop_last()) && del_elem_wf(s.last())
    }
}

pub open spec fn del_span_wf(s: Seq<DelNode>) -> bool {
    forall|i: int| 0 <= i < s.len() ==> #[trigger] del_elem_wf(s[i])
}

pub open spec fn add_elem_wf(e: AddNode) -> bool
    decreases e,
{
    match e {
        AddNode::Skip(n) => n > 0,
        AddNode::Styles(n, _) => n > 0,
        AddNode::Text(_, text) => text.len() > 0,
        AddNode::WithGroup(span) => add_nodes_wf(span),
        AddNode::Group(_, span) => add_nodes_wf(span),
    }
}

pub open spec fn add_nodes_wf(s: Seq<AddNode>) -> bool
    decreases s,
{
    if s.len() == 0 {
        true
    } else {
        add_nodes_wf(s.drop_last()) && add_elem_wf(s.last())
    }
}

pub open spec fn add_span_wf(s: Seq<AddNode>) -> bool {
    forall|i: int| 0 <= i < s.len() ==> #[trigger] add_elem_wf(s[i])
}

pub open spec fn cur_elem_wf(e: CurNode) -> bool
    decreases e,
{
    match e {
        CurNode::Skip(n) => n > 0,
        CurNode::WithGroup(span) => cur_nodes_wf(span),
        _ => true,
    }
}

pub open spec fn cur_nodes_wf(s: Seq<CurNode>) -> bool
    decreases s,
{
    if s.len() == 0 {
        true
    } else {
        cur_nodes_wf(s.drop_last()) && cur_elem_wf(s.last())
    }
}

pub open spec fn cur_span_wf(s: Seq<CurNode>) -> bool {
    forall|i: int| 0 <= i < s.len() ==> #[trigger] cur_elem_wf(s[i])
}

/// The two statements of a well-formed span agree.
pub proof fn lemma_nodes_wf(d: Seq<DocNode>, x: Seq<DelNode>, y: Seq<AddNode>, c: Seq<CurNode>)
    ensures
        doc_nodes_wf(d) <==> doc_span_wf(d),
        del_nodes_wf(x) <==> del_span_wf(x),
        add_nodes_wf(y) <==> add_span_wf(y),
        cur_nodes_wf(c) <==> cur_span_wf(c),
    decreases d.len() + x.len() + y.len() + c.len(),
{
    if d.len() > 0 {
        lemma_nodes_wf(d.drop_last(), Seq::empty(), Seq::empty(), Seq::empty());
        assert forall|i: int| 0 <= i < d.len() - 1 implies d.drop_last()[i] == d[i] by {}
        if doc_span_wf(d) {
            assert(doc_elem_wf(d[d.len() - 1]));
            assert forall|i: int| 0 <= i < d.drop_last().len() implies #[trigger] doc_elem_wf(
                d.drop_last()[i],
            ) by {
                assert(doc_elem_wf(d[i]));
            }
        }
        if doc_nodes_wf(d) {
            assert forall|i: int| 0 <= i < d.len() implies #[trigger] doc_elem_wf(d[i]) by {
                if i < d.len() - 1 {
                    assert(doc_elem_wf(d.drop_last()[i]));
                }
            }
        }
    }
    if x.len() > 0 {
        lemma_nodes_wf(Seq::empty(), x.drop_last(), Seq::empty(), Seq::empty());
        if del_span_wf(x) {
            assert(del_elem_wf(x[x.len() - 1]));
            assert forall|i: int| 0 <= i < x.drop_last().len() implies #[trigger] del_elem_wf(
                x.drop_last()[i],
            ) by {
                assert(del_elem_wf(x[i]));
            }
        }
        if del_nodes_wf(x) {
            assert forall|i: int| 0 <= i < x.len() implies #[trigger] del_elem_wf(x[i]) by {
                if i < x.len() - 1 {
                    assert(del_elem_wf(x.drop_last()[i]));
                }
            }
        }
    }
    if y.len() > 0 {
        lemma_nodes_wf(Seq::empty(), Seq::empty(), y.drop_last(), Seq::empty());
        if add_span_wf(y) {
            assert(add_elem_wf(y[y.len() - 1]));
            assert forall|i: int| 0 <= i < y.drop_last().len() implies #[trigger] add_elem_wf(
                y.drop_last()[i],
            ) by {
                assert(add_elem_wf(y[i]));
            }
        }
        if add_nodes_wf(y) {
            assert forall|i: int| 0 <= i < y.len() implies #[trigger] add_elem_wf(y[i]) by {
                if i < y.len() - 1 {
                    assert(add_elem_wf(y.drop_last()[i]));
                }
            }
        }
    }
    if c.len() > 0 {
        lemma_nodes_wf(Seq::empty(), Seq::empty(), Seq::empty(), c.drop_last());
        if cur_span_wf(c) {
            assert(cur_elem_wf(c[c.len() - 1]));
            assert forall|i: int| 0 <= i < c.drop_last().len() implies #[trigger] cur_elem_wf(
                c.drop_last()[i],
            ) by {
                assert(cur_elem_wf(c[i]));
            }
        }
        if cur_nodes_wf(c) {
            assert forall|i: int| 0 <= i < c.len() implies #[trigger] cur_elem_wf(c[i]) by {
                if i < c.len() - 1 {
                    assert(cur_elem_wf(c.drop_last()[i]));
                }
            }
        }
    }
}

// ---------------------------------------------------------------------------
// Lengths over atoms

/// The number of document atoms that remain of what a deletion atom walks over.
pub open spec fn del_atom_post(x: DelAtom) -> nat
    decreases x,
{
    match x {
        DelAtom::Skip => 1,
        DelAtom::Styles(_) => 1,
        DelAtom::WithGroup(_) => 1,
        DelAtom::Text => 0,
        DelAtom::Group(inner) => del_post(inner),
    }
}

/// The length of the document that a deletion leaves of what it walks over.
pub open spec fn del_post(a: Seq<DelAtom>) -> nat
    decreases a,
{
    if a.len() == 0 {
        0
    } else {
        del_post(a.drop_last()) + del_atom_post(a.last())
    }
}

/// The number of document atoms that an insertion atom walks over.
pub open spec fn add_atom_pre(x: AddAtom) -> nat
    decreases x,
{
    match x {
        AddAtom::Skip => 1,
        AddAtom::Styles(_) => 1,
        AddAtom::WithGroup(_) => 1,
        AddAtom::Text(..) => 0,
        AddAtom::Group(_, inner) => add_pre(inner),
    }
}

/// The length of the document that an insertion walks over.
pub open spec fn add_pre(a: Seq<AddAtom>) -> nat
    decreases a,
{
    if a.len() == 0 {
        0
    } else {
        add_pre(a.drop_last()) + add_atom_pre(a.last())
    }
}

pub proof fn lemma_del_post_concat(a: Seq<DelAtom>, b: Seq<DelAtom>)
    ensures
        del_post(a + b) == del_post(a) + del_post(b),
    decreases b.len(),
{
    if b.len() == 0 {
        assert(a + b =~= a);
    } else {
        lemma_del_post_concat(a, b.drop_last());
        assert((a + b).drop_last() =~= a + b.drop_last());
    }
}

pub proof fn lemma_add_pre_concat(a: Seq<AddAtom>, b: Seq<AddAtom>)
    ensures
        add_pre(a + b) == add_pre(a) + add_pre(b),
    decreases b.len(),
{
    if b.len() == 0 {
        assert(a + b =~= a);
    } else {
        lemma_add_pre_concat(a, b.drop_last());
        assert((a + b).drop_last() =~= a + b.drop_last());
    }
}

/// Each repeated atom counts the same.
pub proof fn lemma_del_post_repeat(x: DelAtom, n: nat)
    ensures
        del_post(repeat(x, n)) == n * del_atom_post(x),
        del_atom_post(x) == 1 ==> del_post(repeat(x, n)) == n,
        del_atom_post(x) == 0 ==> del_post(repeat(x, n)) == 0,
    decreases n,
{
    if n > 0 {
        lemma_del_post_repeat(x, (n - 1) as nat);
        let r = repeat(x, n);
        assert(r == repeat(x, (n - 1) as nat).push(x));
        assert(r.drop_last() =~= repeat(x, (n - 1) as nat));
        assert(r.last() == x);
        assert(del_post(r) == del_post(r.drop_last()) + del_atom_post(r.last()));
        assert(repeat(x, n).last() == x);
        assert(del_post(repeat(x, n)) == del_post(repeat(x, (n - 1) as nat)) + del_atom_post(x));
        let m = (n - 1) as nat;
        assert(n * del_atom_post(x) == m * del_atom_post(x) + del_atom_post(x)) by (
        nonlinear_arith)
            requires
                m + 1 == n,
        ;
        assert(del_post(r) == n * del_atom_post(x));
    } else {
        assert(del_post(repeat(x, n)) == 0);
        assert(n * del_atom_post(x) == 0);
    }
}

pub proof fn lemma_add_pre_repeat(x: AddAtom, n: nat)
    ensures
        add_pre(repeat(x, n)) == n * add_atom_pre(x),
        add_atom_pre(x) == 1 ==> add_pre(repeat(x, n)) == n,
        add_atom_pre(x) == 0 ==> add_pre(repeat(x, n)) == 0,
    decreases n,
{
    if n > 0 {
        lemma_add_pre_repeat(x, (n - 1) as nat);
        let r = repeat(x, n);
        assert(r == repeat(x, (n - 1) as nat).push(x));
        assert(r.drop_last() =~= repeat(x, (n - 1) as nat));
        assert(r.last() == x);
        assert(add_pre(r) == add_pre(r.drop_last()) + add_atom_pre(r.last()));
        assert(repeat(x, n).last() == x);
        assert(add_pre(repeat(x, n)) == add_pre(repeat(x, (n - 1) as nat)) + add_atom_pre(x));
        let m = (n - 1) as nat;
        assert(n * add_atom_pre(x) == m * add_atom_pre(x) + add_atom_pre(x)) by (nonlinear_arith)
            requires
                m + 1 == n,
        ;
        assert(add_pre(r) == n * add_atom_pre(x));
    } else {
        assert(add_pre(repeat(x, n)) == 0);
        assert(n * add_atom_pre(x) == 0);
    }
}

pub proof fn lemma_add_pre_text(st: StyleSet, text: Seq<char>)
    ensures
        add_pre(add_text_atoms(st, text)) == 0,
    decreases text.len(),
{
    if text.len() > 0 {
        lemma_add_pre_text(st, text.drop_last());
        let r = add_text_atoms(st, text);
        assert(r == add_text_atoms(st, text.drop_last()).push(add_char_atom(st, text.last())));
        assert(r.len() > 0);
        assert(r.drop_last() =~= add_text_atoms(st, text.drop_last()));
        assert(r.last() == add_char_atom(st, text.last()));
        assert(add_atom_pre(r.last()) == 0);
        assert(add_pre(r) == add_pre(r.drop_last()) + add_atom_pre(r.last()));
    }
}

pub proof fn lemma_doc_atoms_concat(a: Seq<DocNode>, b: Seq<DocNode>)
    ensures
        doc_atoms(a + b) == doc_atoms(a) + doc_atoms(b),
    decreases b.len(),
{
    if b.len() == 0 {
        assert(a + b =~= a);
        assert(doc_atoms(a) + doc_atoms(b) =~= doc_atoms(a));
    } else {
        lemma_doc_atoms_concat(a, b.drop_last());
        assert((a + b).drop_last() =~= a + b.drop_last());
        assert(doc_atoms(a) + doc_atoms(b.drop_last()) + doc_elem_atoms(b.last()) =~= doc_atoms(a)
            + (doc_atoms(b.drop_last()) + doc_elem_atoms(b.last())));
    }
}

pub proof fn lemma_del_atoms_concat(a: Seq<DelNode>, b: Seq<DelNode>)
    ensures
        del_atoms(a + b) == del_atoms(a) + del_atoms(b),
    decreases b.len(),
{
    if b.len() == 0 {
        assert(a + b =~= a);
        assert(del_atoms(a) + del_atoms(b) =~= del_atoms(a));
    } else {
        lemma_del_atoms_concat(a, b.drop_last());
        assert((a + b).drop_last() =~= a + b.drop_last());
        assert(del_atoms(a) + del_atoms(b.drop_last()) + del_elem_atoms(b.last()) =~= del_atoms(a)
            + (del_atoms(b.drop_last()) + del_elem_atoms(b.last())));
    }
}

pub proof fn lemma_add_atoms_concat(a: Seq<AddNode>, b: Seq<AddNode>)
    ensures
        add_atoms(a + b) == add_atoms(a) + add_atoms(b),
    decreases b.len(),
{
    if b.len() == 0 {
        assert(a + b =~= a);
        assert(add_atoms(a) + add_atoms(b) =~= add_atoms(a));
    } else {
        lemma_add_atoms_concat(a, b.drop_last());
        assert((a + b).drop_last() =~= a + b.drop_last());
        assert(add_atoms(a) + add_atoms(b.drop_last()) + add_elem_atoms(b.last()) =~= add_atoms(a)
            + (add_atoms(b.drop_last()) + add_elem_atoms(b.last())));
    }
}

pub proof fn lemma_cur_atoms_concat(a: Seq<CurNode>, b: Seq<CurNode>)
    ensures
        cur_atoms(a + b) == cur_atoms(a) + cur_atoms(b),
    decreases b.len(),
{
    if b.len() == 0 {
        assert(a + b =~= a);
        assert(cur_atoms(a) + cur_atoms(b) =~= cur_atoms(a));
    } else {
        lemma_cur_atoms_concat(a, b.drop_last());
        assert((a + b).drop_last() =~= a + b.drop_last());
        assert(cur_atoms(a) + cur_atoms(b.drop_last()) + cur_elem_atoms(b.last()) =~= cur_atoms(a)
            + (cur_atoms(b.drop_last()) + cur_elem_atoms(b.last())));
    }
}

/// The view of a span after a push or an update.
pub proof fn lemma_doc_view_push(v: Seq<DocElement>, x: DocElement)
    ensures
        doc_span_view(v.push(x)) == doc_span_view(v).push(x@),
{
    assert(v.push(x).drop_last() =~= v);
}

pub proof fn lemma_doc_view_update(v: Seq<DocElement>, i: int, x: DocElement)
    requires
        0 <= i < v.len(),
    ensures
        doc_span_view(v.update(i, x)) == doc_span_view(v).update(i, x@),
{
    lemma_doc_span_view(v);
    lemma_doc_span_view(v.update(i, x));
    assert(doc_span_view(v.update(i, x)) =~= doc_span_view(v).update(i, x@));
}

pub proof fn lemma_doc_view_subrange(v: Seq<DocElement>, i: int, j: int)
    requires
        0 <= i <= j <= v.len(),
    ensures
        doc_span_view(v.subrange(i, j)) == doc_span_view(v).subrange(i, j),
{
    lemma_doc_span_view(v);
    lemma_doc_span_view(v.subrange(i, j));
    assert(doc_span_view(v.subrange(i, j)) =~= doc_span_view(v).subrange(i, j));
}

pub proof fn lemma_doc_view_concat(a: Seq<DocElement>, b: Seq<DocElement>)
    ensures
        doc_span_view(a + b) == doc_span_view(a) + doc_span_view(b),
{
    lemma_doc_span_view(a);
    lemma_doc_span_view(b);
    lemma_doc_span_view(a + b);
    assert(doc_span_view(a + b) =~= doc_span_view(a) + doc_span_view(b));
}

/// The view of a span after a push or an update.
pub proof fn lemma_del_view_push(v: Seq<DelElement>, x: DelElement)
    ensures
        del_span_view(v.push(x)) == del_span_view(v).push(x@),
{
    assert(v.push(x).drop_last() =~= v);
}

pub proof fn lemma_del_view_update(v: Seq<DelElement>, i: int, x: DelElement)
    requires
        0 <= i < v.len(),
    ensures
        del_span_view(v.update(i, x)) == del_span_view(v).update(i, x@),
{
    lemma_del_span_view(v);
    lemma_del_span_view(v.update(i, x));
    assert(del_span_view(v.update(i, x)) =~= del_span_view(v).update(i, x@));
}

pub proof fn lemma_del_view_subrange(v: Seq<DelElement>, i: int, j: int)
    requires
        0 <= i <= j <= v.len(),
    ensures
        del_span_view(v.subrange(i, j)) == del_span_view(v).subrange(i, j),
{
    lemma_del_span_view(v);
    lemma_del_span_view(v.subrange(i, j));
    assert(del_span_view(v.subrange(i, j)) =~= del_span_view(v).subrange(i, j));
}

pub proof fn lemma_del_view_concat(a: Seq<DelElement>, b: Seq<DelElement>)
    ensures
        del_span_view(a + b) == del_span_view(a) + del_span_view(b),
{
    lemma_del_span_view(a);
    lemma_del_span_view(b);
    lemma_del_span_view(a + b);
    assert(del_span_view(a + b) =~= del_span_view(a) + del_span_view(b));
}

/// The view of a span after a push or an update.
pub proof fn lemma_add_view_push(v: Seq<AddElement>, x: AddElement)
    ensures
        add_span_view(v.push(x)) == add_span_view(v).push(x@),
{
    assert(v.push(x).drop_last() =~= v);
}

pub proof fn lemma_add_view_update(v: Seq<AddElement>, i: int, x: AddElement)
    requires
        0 <= i < v.len(),
    ensures
        add_span_view(v.update(i, x)) == add_span_view(v).update(i, x@),
{
    lemma_add_span_view(v);
    lemma_add_span_view(v.update(i, x));
    assert(add_span_view(v.update(i, x)) =~= add_span_view(v).update(i, x@));
}

pub proof fn lemma_add_view_subrange(v: Seq<AddElement>, i: int, j: int)
    requires
        0 <= i <= j <= v.len(),
    ensures
        add_span_view(v.subrange(i, j)) == add_span_view(v).subrange(i, j),
{
    lemma_add_span_view(v);
    lemma_add_span_view(v.subrange(i, j));
    assert(add_span_view(v.subrange(i, j)) =~= add_span_view(v).subrange(i, j));
}

pub proof fn lemma_add_view_concat(a: Seq<AddElement>, b: Seq<AddElement>)
    ensures
        add_span_view(a + b) == add_span_view(a) + add_span_view(b),
{
    lemma_add_span_view(a);
    lemma_add_span_view(b);
    lemma_add_span_view(a + b);
    assert(add_span_view(a + b) =~= add_span_view(a) + add_span_view(b));
}

/// The view of a span after a push or an update.
pub proof fn lemma_cur_view_push(v: Seq<CurElement>, x: CurElement)
    ensures
        cur_span_view(v.push(x)) == cur_span_view(v).push(x@),
{
    assert(v.push(x).drop_last() =~= v);
}

pub proof fn lemma_cur_view_update(v: Seq<CurElement>, i: int, x: CurElement)
    requires
        0 <= i < v.len(),
    ensures
        cur_span_view(v.update(i, x)) == cur_span_view(v).update(i, x@),
{
    lemma_cur_span_view(v);
    lemma_cur_span_view(v.update(i, x));
    assert(cur_span_view(v.update(i, x)) =~= cur_span_view(v).update(i, x@));
}

pub proof fn lemma_cur_view_subrange(v: Seq<CurElement>, i: int, j: int)
    requires
        0 <= i <= j <= v.len(),
    ensures
        cur_span_view(v.subrange(i, j)) == cur_span_view(v).subrange(i, j),
{
    lemma_cur_span_view(v);
    lemma_cur_span_view(v.subrange(i, j));
    assert(cur_span_view(v.subrange(i, j)) =~= cur_span_view(v).subrange(i, j));
}

pub proof fn lemma_cur_view_concat(a: Seq<CurElement>, b: Seq<CurElement>)
    ensures
        cur_span_view(a + b) == cur_span_view(a) + cur_span_view(b),
{
    lemma_cur_span_view(a);
    lemma_cur_span_view(b);
    lemma_cur_span_view(a + b);
    assert(cur_span_view(a + b) =~= cur_span_view(a) + cur_span_view(b));
}

/// The atoms of a suffix of a span: those of its first element, then those
/// of the rest.
pub proof fn lemma_doc_atoms_skip(v: Seq<DocNode>, i: int)
    requires
        0 <= i <= v.len(),
    ensures
        i < v.len() ==> doc_atoms(v.skip(i)) == doc_elem_atoms(v[i]) + doc_atoms(v.skip(i + 1)),
        i == v.len() ==> doc_atoms(v.skip(i)) == Seq::<DocAtom>::empty(),
{
    if i < v.len() {
        assert(v.skip(i) =~= seq![v[i]] + v.skip(i + 1));
        lemma_doc_atoms_concat(seq![v[i]], v.skip(i + 1));
        assert(seq![v[i]].drop_last() =~= Seq::<DocNode>::empty());
        assert(doc_atoms(Seq::<DocNode>::empty()) =~= Seq::<DocAtom>::empty());
        assert(Seq::<DocAtom>::empty() + doc_elem_atoms(v[i]) =~= doc_elem_atoms(v[i]));
    } else {
        assert(v.skip(i) =~= Seq::<DocNode>::empty());
    }
}

pub proof fn lemma_del_atoms_skip(v: Seq<DelNode>, i: int)
    requires
        0 <= i <= v.len(),
    ensures
        i < v.len() ==> del_atoms(v.skip(i)) == del_elem_atoms(v[i]) + del_atoms(v.skip(i + 1)),
        i == v.len() ==> del_atoms(v.skip(i)) == Seq::<DelAtom>::empty(),
{
    if i < v.len() {
        assert(v.skip(i) =~= seq![v[i]] + v.skip(i + 1));
        lemma_del_atoms_concat(seq![v[i]], v.skip(i + 1));
        assert(seq![v[i]].drop_last() =~= Seq::<DelNode>::empty());
        assert(del_atoms(Seq::<DelNode>::empty()) =~= Seq::<DelAtom>::empty());
        assert(Seq::<DelAtom>::empty() + del_elem_atoms(v[i]) =~= del_elem_atoms(v[i]));
    } else {
        assert(v.skip(i) =~= Seq::<DelNode>::empty());
    }
}

pub proof fn lemma_add_atoms_skip(v: Seq<AddNode>, i: int)
    requires
        0 <= i <= v.len(),
    ensures
        i < v.len() ==> add_atoms(v.skip(i)) == add_elem_atoms(v[i]) + add_atoms(v.skip(i + 1)),
        i == v.len() ==> add_atoms(v.skip(i)) == Seq::<AddAtom>::empty(),
{
    if i < v.len() {
        assert(v.skip(i) =~= seq![v[i]] + v.skip(i + 1));
        lemma_add_atoms_concat(seq![v[i]], v.skip(i + 1));
        assert(seq![v[i]].drop_last() =~= Seq::<AddNode>::empty());
        assert(add_atoms(Seq::<AddNode>::empty()) =~= Seq::<AddAtom>::empty());
        assert(Seq::<AddAtom>::empty() + add_elem_atoms(v[i]) =~= add_elem_atoms(v[i]));
    } else {
        assert(v.skip(i) =~= Seq::<AddNode>::empty());
    }
}

/// The atoms of a one-element span are those of the element.
pub proof fn lemma_single_atoms(d: DocNode, x: DelNode, y: AddNode)
    ensures
        doc_atoms(seq![d]) == doc_elem_atoms(d),
        del_atoms(seq![x]) == del_elem_atoms(x),
        add_atoms(seq![y]) == add_elem_atoms(y),
{
    assert(seq![d].drop_last() =~= Seq::<DocNode>::empty());
    assert(seq![d].last() == d);
    assert(doc_atoms(Seq::<DocNode>::empty()) =~= Seq::<DocAtom>::empty());
    assert(Seq::<DocAtom>::empty() + doc_elem_atoms(d) =~= doc_elem_atoms(d));
    assert(seq![x].drop_last() =~= Seq::<DelNode>::empty());
    assert(seq![x].last() == x);
    assert(del_atoms(Seq::<DelNode>::empty()) =~= Seq::<DelAtom>::empty());
    assert(Seq::<DelAtom>::empty() + del_elem_atoms(x) =~= del_elem_atoms(x));
    assert(seq![y].drop_last() =~= Seq::<AddNode>::empty());
    assert(seq![y].last() == y);
    assert(add_atoms(Seq::<AddNode>::empty()) =~= Seq::<AddAtom>::empty());
    assert(Seq::<AddAtom>::empty() + add_elem_atoms(y) =~= add_elem_atoms(y));
}

/// The contents of a well-formed group are well formed.
pub proof fn lemma_doc_group_wf(e: DocNode)
    ensures
        e matches DocNode::Group(_, s) ==> (doc_elem_wf(e) <==> doc_span_wf(s)),
{
    match e {
        DocNode::Group(_, s) => lemma_nodes_wf(s, Seq::empty(), Seq::empty(), Seq::empty()),
        _ => {},
    }
}

pub proof fn lemma_del_group_wf(e: DelNode)
    ensures
        e matches DelNode::Group(s) ==> (del_elem_wf(e) <==> del_span_wf(s)),
        e matches DelNode::WithGroup(s) ==> (del_elem_wf(e) <==> del_span_wf(s)),
{
    match e {
        DelNode::Group(s) => lemma_nodes_wf(Seq::empty(), s, Seq::empty(), Seq::empty()),
        DelNode::WithGroup(s) => lemma_nodes_wf(Seq::empty(), s, Seq::empty(), Seq::empty()),
        _ => {},
    }
}

pub proof fn lemma_add_group_wf(e: AddNode)
    ensures
        e matches AddNode::Group(_, s) ==> (add_elem_wf(e) <==> add_span_wf(s)),
        e matches AddNode::WithGroup(s) ==> (add_elem_wf(e) <==> add_span_wf(s)),
{
    match e {
        AddNode::Group(_, s) => lemma_nodes_wf(Seq::empty(), Seq::empty(), s, Seq::empty()),
        AddNode::WithGroup(s) => lemma_nodes_wf(Seq::empty(), Seq::empty(), s, Seq::empty()),
        _ => {},
    }
}

pub proof fn lemma_cur_group_wf(e: CurNode)
    ensures
        e matches CurNode::WithGroup(s) ==> (cur_elem_wf(e) <==> cur_span_wf(s)),
{
    match e {
        CurNode::WithGroup(s) => lemma_nodes_wf(Seq::empty(), Seq::empty(), Seq::empty(), s),
        _ => {},
    }
}

/// Pushing a well-formed element keeps a span well formed.
pub proof fn lemma_doc_wf_push(s: Seq<DocNode>, e: DocNode)
    requires
        doc_span_wf(s),
        doc_elem_wf(e),
    ensures
        doc_span_wf(s.push(e)),
{
    assert forall|i: int| 0 <= i < s.push(e).len() implies #[trigger] doc_elem_wf(s.push(e)[i]) by {
        if i < s.len() {
            assert(s.push(e)[i] == s[i]);
        }
    }
}

} // verus!
