//! The rich-text schema: the group kinds a document can hold, the styles a run
//! of text can carry, and the tracks that classify groups.
use vstd::prelude::*;

verus! {

/// What a group of the document is: a block, a list item, a rule or a caret.
#[derive(Debug)]
pub enum Attrs {
    Header(u8),
    Para,
    Code,
    Html,
    ListItem,
    Rule,
    Caret { client_id: String, focus: bool },
}

impl Clone for Attrs {
    fn clone(&self) -> (res: Self)
        ensures
            res == *self,
    {
        match self {
            Attrs::Header(n) => Attrs::Header(*n),
            Attrs::Para => Attrs::Para,
            Attrs::Code => Attrs::Code,
            Attrs::Html => Attrs::Html,
            Attrs::ListItem => Attrs::ListItem,
            Attrs::Rule => Attrs::Rule,
            Attrs::Caret { client_id, focus } => Attrs::Caret {
                client_id: client_id.clone(),
                focus: *focus,
            },
        }
    }
}

/// Two attribute values are the same group kind, carets compared by the text
/// of their client id.
pub open spec fn attrs_same(a: Attrs, b: Attrs) -> bool {
    match (a, b) {
        (Attrs::Header(x), Attrs::Header(y)) => x == y,
        (Attrs::Para, Attrs::Para) => true,
        (Attrs::Code, Attrs::Code) => true,
        (Attrs::Html, Attrs::Html) => true,
        (Attrs::ListItem, Attrs::ListItem) => true,
        (Attrs::Rule, Attrs::Rule) => true,
        (
            Attrs::Caret { client_id: c1, focus: f1 },
            Attrs::Caret { client_id: c2, focus: f2 },
        ) => c1@ == c2@ && f1 == f2,
        _ => false,
    }
}

impl PartialEq for Attrs {
    fn eq(&self, other: &Self) -> (res: bool) {
        match (self, other) {
            (Attrs::Header(x), Attrs::Header(y)) => *x == *y,
            (Attrs::Para, Attrs::Para) => true,
            (Attrs::Code, Attrs::Code) => true,
            (Attrs::Html, Attrs::Html) => true,
            (Attrs::ListItem, Attrs::ListItem) => true,
            (Attrs::Rule, Attrs::Rule) => true,
            (
                Attrs::Caret { client_id: c1, focus: f1 },
                Attrs::Caret { client_id: c2, focus: f2 },
            ) => *c1 == *c2 && *f1 == *f2,
            _ => false,
        }
    }
}

impl vstd::std_specs::cmp::PartialEqSpecImpl for Attrs {
    open spec fn obeys_eq_spec() -> bool {
        true
    }

    open spec fn eq_spec(&self, other: &Self) -> bool {
        attrs_same(*self, *other)
    }
}

/// A style that a run of text can carry.
#[derive(Debug, Clone, Copy, PartialEq, Eq, Structural, Hash)]
pub enum RtfStyle {
    Bold,
    Italic,
}

/// The set of styles of a run of text. There are two styles, so the set is
/// held as one flag per style.
#[derive(Debug, Clone, Copy, PartialEq, Eq, Structural)]
pub struct StyleSet {
    pub bold: bool,
    pub italic: bool,
}

impl StyleSet {
    /// Whether the set holds `style`.
    pub open spec fn has(self, style: RtfStyle) -> bool {
        match style {
            RtfStyle::Bold => self.bold,
            RtfStyle::Italic => self.italic,
        }
    }

    /// The styles of either set.
    pub open spec fn union(self, other: StyleSet) -> StyleSet {
        StyleSet { bold: self.bold || other.bold, italic: self.italic || other.italic }
    }

    /// The styles of `self` that `other` does not hold.
    pub open spec fn minus(self, other: StyleSet) -> StyleSet {
        StyleSet { bold: self.bold && !other.bold, italic: self.italic && !other.italic }
    }

    /// The empty set of styles.
    pub open spec fn empty() -> StyleSet {
        StyleSet { bold: false, italic: false }
    }

    /// The set with `style` added or taken out.
    pub open spec fn with(self, style: RtfStyle, present: bool) -> StyleSet {
        match style {
            RtfStyle::Bold => StyleSet { bold: present, italic: self.italic },
            RtfStyle::Italic => StyleSet { bold: self.bold, italic: present },
        }
    }

    pub fn new() -> (res: StyleSet)
        ensures
            res == StyleSet::empty(),
    {
        StyleSet { bold: false, italic: false }
    }

    /// The set of the styles listed in `styles`.
    pub fn from(styles: &[RtfStyle]) -> (res: StyleSet)
        ensures
            forall|s: RtfStyle| res.has(s) <==> styles@.contains(s),
    {
        let mut res = StyleSet::new();
        for i in 0..styles.len()
            invariant
                forall|s: RtfStyle| res.has(s) <==> styles@.take(i as int).contains(s),
        {
            let ghost prev = styles@.take(i as int);
            let ghost next = styles@.take(i + 1);
            assert(next == prev.push(styles@[i as int]));
            let ghost old_res = res;
            res.insert(styles[i]);
            assert forall|s: RtfStyle| res.has(s) <==> next.contains(s) by {
                assert(old_res.has(s) <==> prev.contains(s));
                if next.contains(s) && s != styles@[i as int] {
                    let k = choose|k: int| 0 <= k < next.len() && next[k] == s;
                    assert(prev[k] == s);
                }
                if prev.contains(s) {
                    let k = choose|k: int| 0 <= k < prev.len() && prev[k] == s;
                    assert(next[k] == s);
                }
                if s == styles@[i as int] {
                    assert(next[i as int] == s);
                }
            }
        }
        assert(styles@.take(styles.len() as int) == styles@);
        res
    }

    pub fn insert(&mut self, style: RtfStyle)
        ensures
            *final(self) == old(self).with(style, true),
    {
        match style {
            RtfStyle::Bold => self.bold = true,
            RtfStyle::Italic => self.italic = true,
        }
    }

    pub fn remove(&mut self, style: &RtfStyle)
        ensures
            *final(self) == old(self).with(*style, false),
    {
        match style {
            RtfStyle::Bold => self.bold = false,
            RtfStyle::Italic => self.italic = false,
        }
    }

    pub fn contains(&self, style: &RtfStyle) -> (res: bool)
        ensures
            res == self.has(*style),
    {
        match style {
            RtfStyle::Bold => self.bold,
            RtfStyle::Italic => self.italic,
        }
    }

    pub fn is_empty(&self) -> (res: bool)
        ensures
            res == (*self == StyleSet::empty()),
    {
        !self.bold && !self.italic
    }

    /// Adds every style of `set`.
    pub fn extend(&mut self, set: &StyleSet)
        ensures
            *final(self) == old(self).union(*set),
    {
        self.bold = self.bold || set.bold;
        self.italic = self.italic || set.italic;
    }

    /// Takes out every style of `set`.
    pub fn remove_set(&mut self, set: &StyleSet)
        ensures
            *final(self) == old(self).minus(*set),
    {
        self.bold = self.bold && !set.bold;
        self.italic = self.italic && !set.italic;
    }

    /// The styles of the set, in the order of `RtfStyle`.
    pub fn styles(&self) -> (res: Vec<RtfStyle>)
        ensures
            forall|s: RtfStyle| res@.contains(s) <==> self.has(s),
            res@.no_duplicates(),
    {
        let mut res: Vec<RtfStyle> = Vec::new();
        if self.bold {
            res.push(RtfStyle::Bold);
        }
        if self.italic {
            res.push(RtfStyle::Italic);
        }
        proof {
            assert forall|s: RtfStyle| res@.contains(s) <==> self.has(s) by {
                if self.has(s) {
                    match s {
                        RtfStyle::Bold => assert(res@[0] == s),
                        RtfStyle::Italic => assert(res@[res@.len() - 1] == s),
                    }
                }
            }
        }
        res
    }
}

impl Default for StyleSet {
    fn default() -> (res: StyleSet)
        ensures
            res == StyleSet::empty(),
    {
        StyleSet::new()
    }
}

/// Kinds of groups, by where they may stand in a document.
#[derive(Debug, Clone, Copy, PartialEq, Eq, Structural)]
pub enum RtfTrack {
    ListItems,
    BlockQuotes,
    Blocks,
    BlockObjects,
    Inlines,
    InlineObjects,
}

impl RtfTrack {
    pub fn do_split(&self) -> (res: bool)
        ensures
            res,
    {
        true
    }

    pub fn do_open_split(&self) -> (res: bool)
        ensures
            res == (*self == RtfTrack::Inlines),
    {
        match self {
            RtfTrack::Inlines => true,
            _ => false,
        }
    }

    pub fn supports_text(&self) -> (res: bool)
        ensures
            res == (*self == RtfTrack::Blocks || *self == RtfTrack::Inlines),
    {
        match self {
            RtfTrack::Blocks | RtfTrack::Inlines => true,
            _ => false,
        }
    }

    pub fn allowed_in_root(&self) -> (res: bool)
        ensures
            res == (*self == RtfTrack::Blocks || *self == RtfTrack::ListItems || *self
                == RtfTrack::BlockObjects),
    {
        match self {
            RtfTrack::Blocks | RtfTrack::ListItems | RtfTrack::BlockObjects => true,
            _ => false,
        }
    }

    pub fn is_object(&self) -> (res: bool)
        ensures
            res == (*self == RtfTrack::BlockObjects || *self == RtfTrack::InlineObjects),
    {
        match self {
            RtfTrack::BlockObjects | RtfTrack::InlineObjects => true,
            _ => false,
        }
    }

    /// The tracks that a group of this track may stand directly inside.
    pub open spec fn spec_parents(self) -> Seq<RtfTrack> {
        match self {
            RtfTrack::ListItems => seq![RtfTrack::ListItems, RtfTrack::BlockQuotes],
            RtfTrack::BlockQuotes => seq![RtfTrack::ListItems, RtfTrack::BlockQuotes],
            RtfTrack::Blocks => seq![RtfTrack::ListItems, RtfTrack::BlockQuotes],
            RtfTrack::BlockObjects => seq![RtfTrack::ListItems, RtfTrack::BlockQuotes],
            RtfTrack::Inlines | RtfTrack::InlineObjects => seq![RtfTrack::Blocks],
        }
    }

    /// The tracks that a group of this track may stand somewhere inside.
    pub open spec fn spec_ancestors(self) -> Seq<RtfTrack> {
        match self {
            RtfTrack::ListItems => seq![RtfTrack::ListItems, RtfTrack::BlockQuotes],
            RtfTrack::BlockQuotes => seq![RtfTrack::ListItems, RtfTrack::BlockQuotes],
            RtfTrack::Blocks => seq![RtfTrack::ListItems, RtfTrack::BlockObjects],
            RtfTrack::BlockObjects => seq![RtfTrack::ListItems, RtfTrack::BlockQuotes],
            RtfTrack::Inlines | RtfTrack::InlineObjects => seq![
                RtfTrack::ListItems,
                RtfTrack::BlockQuotes,
                RtfTrack::Blocks,
            ],
        }
    }

    pub fn parents(&self) -> (res: Vec<RtfTrack>)
        ensures
            res@ == self.spec_parents(),
    {
        match self {
            RtfTrack::ListItems => vec![RtfTrack::ListItems, RtfTrack::BlockQuotes],
            RtfTrack::BlockQuotes => vec![RtfTrack::ListItems, RtfTrack::BlockQuotes],
            RtfTrack::Blocks => vec![RtfTrack::ListItems, RtfTrack::BlockQuotes],
            RtfTrack::BlockObjects => vec![RtfTrack::ListItems, RtfTrack::BlockQuotes],
            RtfTrack::Inlines | RtfTrack::InlineObjects => vec![RtfTrack::Blocks],
        }
    }

    pub fn ancestors(&self) -> (res: Vec<RtfTrack>)
        ensures
            res@ == self.spec_ancestors(),
    {
        match self {
            RtfTrack::ListItems => vec![RtfTrack::ListItems, RtfTrack::BlockQuotes],
            RtfTrack::BlockQuotes => vec![RtfTrack::ListItems, RtfTrack::BlockQuotes],
            RtfTrack::Blocks => vec![RtfTrack::ListItems, RtfTrack::BlockObjects],
            RtfTrack::BlockObjects => vec![RtfTrack::ListItems, RtfTrack::BlockQuotes],
            RtfTrack::Inlines | RtfTrack::InlineObjects => vec![
                RtfTrack::ListItems,
                RtfTrack::BlockQuotes,
                RtfTrack::Blocks,
            ],
        }
    }
}

/// The rich-text schema.
#[derive(Debug, Clone, Copy, PartialEq, Eq, Structural)]
pub struct RtfSchema;

/// The track of a group kind.
pub open spec fn spec_track_type(attrs: Attrs) -> RtfTrack {
    match attrs {
        Attrs::ListItem => RtfTrack::ListItems,
        Attrs::Para | Attrs::Header(..) | Attrs::Code | Attrs::Html => RtfTrack::Blocks,
        Attrs::Caret { .. } => RtfTrack::InlineObjects,
        Attrs::Rule => RtfTrack::BlockObjects,
    }
}

impl RtfSchema {
    /// Whether two group kinds are the same.
    pub fn attrs_eq(a: &Attrs, b: &Attrs) -> (res: bool)
        ensures
            res == attrs_same(*a, *b),
    {
        *a == *b
    }

    /// Two group kinds never merge in this schema.
    pub fn merge_attrs(_a: &Attrs, _b: &Attrs) -> (res: Option<Attrs>)
        ensures
            res.is_none(),
    {
        None
    }

    /// The track of a group kind; every kind has one.
    pub fn track_type_from_attrs(attrs: &Attrs) -> (res: Option<RtfTrack>)
        ensures
            res == Some(spec_track_type(*attrs)),
    {
        match attrs {
            Attrs::ListItem => Some(RtfTrack::ListItems),
            Attrs::Para | Attrs::Header(..) | Attrs::Code | Attrs::Html => Some(RtfTrack::Blocks),
            Attrs::Caret { .. } => Some(RtfTrack::InlineObjects),
            Attrs::Rule => Some(RtfTrack::BlockObjects),
        }
    }
}


// ---------------------------------------------------------------------------
// Laws of the schema.

/// Every group kind has its track: list items are list items, paragraphs,
/// headings, code and raw blocks are blocks, a rule is a block object and a
/// caret an inline object.
pub proof fn track_of_each_kind(level: u8, client: String, focus: bool)
    ensures
        spec_track_type(Attrs::ListItem) == RtfTrack::ListItems,
        spec_track_type(Attrs::Header(level)) == RtfTrack::Blocks,
        spec_track_type(Attrs::Para) == RtfTrack::Blocks,
        spec_track_type(Attrs::Code) == RtfTrack::Blocks,
        spec_track_type(Attrs::Html) == RtfTrack::Blocks,
        spec_track_type(Attrs::Rule) == RtfTrack::BlockObjects,
        spec_track_type(Attrs::Caret { client_id: client, focus }) == RtfTrack::InlineObjects,
{
}

/// Inline kinds stand directly inside blocks only; every other track
/// stands directly inside list items and block quotes only.
pub proof fn parents_of_each_track(t: RtfTrack, u: RtfTrack)
    ensures
        t.spec_parents().contains(u) <==> if t == RtfTrack::Inlines || t == RtfTrack::InlineObjects {
            u == RtfTrack::Blocks
        } else {
            u == RtfTrack::ListItems || u == RtfTrack::BlockQuotes
        },
{
    let ps = t.spec_parents();
    if ps.contains(u) {
        let k = choose|k: int| 0 <= k < ps.len() && ps[k] == u;
        assert(ps[k] == u);
    }
    if t == RtfTrack::Inlines || t == RtfTrack::InlineObjects {
        if u == RtfTrack::Blocks {
            assert(ps[0] == u);
        }
    } else {
        if u == RtfTrack::ListItems {
            assert(ps[0] == u);
        }
        if u == RtfTrack::BlockQuotes {
            assert(ps[1] == u);
        }
    }
}

/// Taking a set of styles off leaves exactly the styles not in that set.
pub proof fn minus_keeps_only_other_styles(s: StyleSet, st: StyleSet, r: RtfStyle)
    ensures
        s.minus(st).has(r) <==> (s.has(r) && !st.has(r)),
{
}

/// Adding a set of styles gives exactly the styles of either set.
pub proof fn union_holds_both(s: StyleSet, st: StyleSet, r: RtfStyle)
    ensures
        s.union(st).has(r) <==> (s.has(r) || st.has(r)),
{
}

/// A style added and then taken off again is gone, and taking off what was
/// added leaves what was there and not added.
pub proof fn union_then_minus(s: StyleSet, st: StyleSet, r: RtfStyle)
    ensures
        !s.union(st).minus(st).has(r) || !st.has(r),
        s.union(st).minus(st).has(r) <==> (s.has(r) && !st.has(r)),
{
}

/// Setting one style in or out changes that style alone.
pub proof fn with_changes_one_style(s: StyleSet, style: RtfStyle, present: bool, r: RtfStyle)
    ensures
        s.with(style, present).has(r) == if r == style {
            present
        } else {
            s.has(r)
        },
{
}

/// The empty set holds no style.
pub proof fn empty_holds_nothing(r: RtfStyle)
    ensures
        !StyleSet::empty().has(r),
{
}

/// Where each track may stand somewhere inside: list items, block quotes
/// and block objects inside list items and block quotes; blocks inside list
/// items and block objects; inline kinds inside list items, block quotes and
/// blocks.
pub proof fn ancestors_of_each_track(t: RtfTrack, u: RtfTrack)
    ensures
        t.spec_ancestors().contains(u) <==> if t == RtfTrack::Inlines || t == RtfTrack::InlineObjects {
            u == RtfTrack::ListItems || u == RtfTrack::BlockQuotes || u == RtfTrack::Blocks
        } else if t == RtfTrack::Blocks {
            u == RtfTrack::ListItems || u == RtfTrack::BlockObjects
        } else {
            u == RtfTrack::ListItems || u == RtfTrack::BlockQuotes
        },
{
    let ps = t.spec_ancestors();
    if ps.contains(u) {
        let k = choose|k: int| 0 <= k < ps.len() && ps[k] == u;
        assert(ps[k] == u);
    }
    if u == RtfTrack::ListItems {
        assert(ps[0] == u);
    }
    if t == RtfTrack::Inlines || t == RtfTrack::InlineObjects {
        if u == RtfTrack::BlockQuotes {
            assert(ps[1] == u);
        }
        if u == RtfTrack::Blocks {
            assert(ps[2] == u);
        }
    } else if t == RtfTrack::Blocks {
        if u == RtfTrack::BlockObjects {
            assert(ps[1] == u);
        }
    } else {
        if u == RtfTrack::BlockQuotes {
            assert(ps[1] == u);
        }
    }
}

} // verus!

