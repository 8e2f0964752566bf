//! Blocks, inline runs and inline attributes.

use vstd::prelude::*;
use crate::document::runs::{runs_text, runs_view};
use crate::ids::fresh_id;

verus! {

// ─── Inline attributes ────────────────────────────────────────────────────────

/// What an inline attribute is, with its link text as characters.
pub enum AttrV {
    Bold,
    Italic,
    Underline,
    Strikethrough,
    Superscript,
    Subscript,
    TextColor(u32),
    Highlight(u32),
    Link(Seq<char>),
}

/// A single inline formatting attribute.
#[derive(Debug, Clone)]
pub enum InlineAttr {
    Bold,
    Italic,
    Underline,
    Strikethrough,
    Superscript,
    Subscript,
    /// Foreground colour as 0xRRGGBB.
    TextColor(u32),
    /// Background highlight colour as 0xRRGGBB.
    Highlight(u32),
    /// Hyperlink URL.
    Link(String),
}

impl View for InlineAttr {
    type V = AttrV;

    open spec fn view(&self) -> AttrV {
        match self {
            InlineAttr::Bold => AttrV::Bold,
            InlineAttr::Italic => AttrV::Italic,
            InlineAttr::Underline => AttrV::Underline,
            InlineAttr::Strikethrough => AttrV::Strikethrough,
            InlineAttr::Superscript => AttrV::Superscript,
            InlineAttr::Subscript => AttrV::Subscript,
            InlineAttr::TextColor(c) => AttrV::TextColor(*c),
            InlineAttr::Highlight(c) => AttrV::Highlight(*c),
            InlineAttr::Link(s) => AttrV::Link(s@),
        }
    }
}

impl PartialEq for InlineAttr {
    fn eq(&self, other: &Self) -> (r: bool) {
        match (self, other) {
            (InlineAttr::Bold, InlineAttr::Bold) => true,
            (InlineAttr::Italic, InlineAttr::Italic) => true,
            (InlineAttr::Underline, InlineAttr::Underline) => true,
            (InlineAttr::Strikethrough, InlineAttr::Strikethrough) => true,
            (InlineAttr::Superscript, InlineAttr::Superscript) => true,
            (InlineAttr::Subscript, InlineAttr::Subscript) => true,
            (InlineAttr::TextColor(a), InlineAttr::TextColor(b)) => *a == *b,
            (InlineAttr::Highlight(a), InlineAttr::Highlight(b)) => *a == *b,
            (InlineAttr::Link(a), InlineAttr::Link(b)) => a.eq(b),
            _ => false,
        }
    }
}

impl vstd::std_specs::cmp::PartialEqSpecImpl for InlineAttr {
    open spec fn obeys_eq_spec() -> bool {
        true
    }

    open spec fn eq_spec(&self, other: &Self) -> bool {
        self@ == other@
    }
}

impl InlineAttr {
    /// A copy of this attribute.
    pub fn copied(&self) -> (r: InlineAttr)
        ensures
            r@ == self@,
    {
        match self {
            InlineAttr::Bold => InlineAttr::Bold,
            InlineAttr::Italic => InlineAttr::Italic,
            InlineAttr::Underline => InlineAttr::Underline,
            InlineAttr::Strikethrough => InlineAttr::Strikethrough,
            InlineAttr::Superscript => InlineAttr::Superscript,
            InlineAttr::Subscript => InlineAttr::Subscript,
            InlineAttr::TextColor(c) => InlineAttr::TextColor(*c),
            InlineAttr::Highlight(c) => InlineAttr::Highlight(*c),
            InlineAttr::Link(s) => InlineAttr::Link(s.clone()),
        }
    }
}

/// The views of a list of attributes.
pub open spec fn attrs_view(attrs: Seq<InlineAttr>) -> Seq<AttrV> {
    attrs.map_values(|a: InlineAttr| a@)
}

/// `x` occurs in the attribute list.
pub fn attrs_contain(attrs: &Vec<InlineAttr>, x: &InlineAttr) -> (r: bool)
    ensures
        r == attrs_view(attrs@).contains(x@),
{
    let mut i: usize = 0;
    while i < attrs.len()
        invariant
            i <= attrs@.len(),
            forall|j: int| 0 <= j < i ==> attrs@[j]@ != x@,
        decreases attrs@.len() - i,
    {
        if attrs[i].eq(x) {
            assert(attrs_view(attrs@)[i as int] == x@);
            return true;
        }
        i = i + 1;
    }
    proof {
        if attrs_view(attrs@).contains(x@) {
            let k = choose|k: int| 0 <= k < attrs_view(attrs@).len() && attrs_view(attrs@)[k] == x@;
            assert(attrs@[k]@ == x@);
        }
    }
    false
}

/// Two attribute lists hold the same attributes in the same order.
pub fn attrs_equal(a: &Vec<InlineAttr>, b: &Vec<InlineAttr>) -> (r: bool)
    ensures
        r == (attrs_view(a@) == attrs_view(b@)),
{
    if a.len() != b.len() {
        proof {
            assert(attrs_view(a@).len() != attrs_view(b@).len());
        }
        return false;
    }
    let mut i: usize = 0;
    while i < a.len()
        invariant
            a@.len() == b@.len(),
            i <= a@.len(),
            forall|j: int| 0 <= j < i ==> a@[j]@ == b@[j]@,
        decreases a@.len() - i,
    {
        if !a[i].eq(&b[i]) {
            proof {
                assert(attrs_view(a@)[i as int] != attrs_view(b@)[i as int]);
            }
            return false;
        }
        i = i + 1;
    }
    proof {
        assert(attrs_view(a@) =~= attrs_view(b@));
    }
    true
}

/// A copy of an attribute list.
pub fn attrs_copied(a: &Vec<InlineAttr>) -> (r: Vec<InlineAttr>)
    ensures
        attrs_view(r@) == attrs_view(a@),
{
    let mut out: Vec<InlineAttr> = Vec::new();
    let mut i: usize = 0;
    while i < a.len()
        invariant
            i <= a@.len(),
            out@.len() == i,
            forall|j: int| 0 <= j < i ==> out@[j]@ == a@[j]@,
        decreases a@.len() - i,
    {
        out.push(a[i].copied());
        i = i + 1;
    }
    proof {
        assert(attrs_view(out@) =~= attrs_view(a@));
    }
    out
}

// ─── Inline run ───────────────────────────────────────────────────────────────

/// What a run is: its characters and its attributes.
pub struct RunV {
    pub text: Seq<char>,
    pub attrs: Seq<AttrV>,
}

/// A run of text sharing the same set of inline attributes.
#[derive(Debug, Clone)]
pub struct InlineRun {
    pub text: String,
    pub attrs: Vec<InlineAttr>,
}

impl View for InlineRun {
    type V = RunV;

    open spec fn view(&self) -> RunV {
        RunV { text: self.text@, attrs: attrs_view(self.attrs@) }
    }
}

impl InlineRun {
    /// A run holding `text` with no attributes.
    pub fn plain(text: &str) -> (r: InlineRun)
        ensures
            r@.text == text@,
            r@.attrs == Seq::<AttrV>::empty(),
    {
        let r = InlineRun { text: text.to_owned(), attrs: Vec::new() };
        proof {
            assert(attrs_view(r.attrs@) =~= Seq::<AttrV>::empty());
        }
        r
    }

    /// `attr` is one of this run's attributes.
    pub fn has_attr(&self, attr: &InlineAttr) -> (r: bool)
        ensures
            r == self@.attrs.contains(attr@),
    {
        attrs_contain(&self.attrs, attr)
    }

    /// A copy of this run.
    pub fn copied(&self) -> (r: InlineRun)
        ensures
            r@ == self@,
    {
        InlineRun { text: self.text.clone(), attrs: attrs_copied(&self.attrs) }
    }
}

impl PartialEq for InlineRun {
    fn eq(&self, other: &Self) -> (r: bool) {
        self.text == other.text && attrs_equal(&self.attrs, &other.attrs)
    }
}

impl vstd::std_specs::cmp::PartialEqSpecImpl for InlineRun {
    open spec fn obeys_eq_spec() -> bool {
        true
    }

    open spec fn eq_spec(&self, other: &Self) -> bool {
        self@ == other@
    }
}

/// Two run lists hold equal runs in the same order.
pub fn runs_equal(a: &Vec<InlineRun>, b: &Vec<InlineRun>) -> (r: bool)
    ensures
        r == (runs_view(a@) == runs_view(b@)),
{
    if a.len() != b.len() {
        proof {
            assert(runs_view(a@).len() != runs_view(b@).len());
        }
        return false;
    }
    let mut i: usize = 0;
    while i < a.len()
        invariant
            a@.len() == b@.len(),
            i <= a@.len(),
            forall|j: int| 0 <= j < i ==> a@[j]@ == b@[j]@,
        decreases a@.len() - i,
    {
        if !a[i].eq(&b[i]) {
            proof {
                assert(runs_view(a@)[i as int] != runs_view(b@)[i as int]);
            }
            return false;
        }
        i = i + 1;
    }
    proof {
        assert(runs_view(a@) =~= runs_view(b@));
    }
    true
}

// ─── Block kinds ─────────────────────────────────────────────────────────────

/// What a block kind is, with the image caption as characters.
pub enum KindV {
    Paragraph,
    Title,
    Heading1,
    Heading2,
    Caption,
    Quote,
    Code,
    BulletItem,
    OrderedItem { index: u32 },
    CheckItem { checked: bool },
    Divider,
    Image { asset_id: u128, alt: Seq<char> },
}

/// Every structural element type the document can contain.
#[derive(Debug, Clone)]
pub enum BlockKind {
    /// Normal body paragraph.
    Paragraph,
    /// Document title (outermost heading).
    Title,
    /// Heading level 1 (h2 in HTML equivalent).
    Heading1,
    /// Heading level 2 (h3 in HTML equivalent).
    Heading2,
    /// Small caption text.
    Caption,
    /// Block quote.
    Quote,
    /// Preformatted code block.
    Code,
    /// Unordered bullet list item.
    BulletItem,
    /// Ordered list item. `index` is the display number.
    OrderedItem { index: u32 },
    /// Checklist item.
    CheckItem { checked: bool },
    /// Horizontal rule / divider.
    Divider,
    /// Embedded image asset, identified by the 128-bit value of its UUID.
    Image { asset_id: u128, alt: String },
}

impl View for BlockKind {
    type V = KindV;

    open spec fn view(&self) -> KindV {
        match self {
            BlockKind::Paragraph => KindV::Paragraph,
            BlockKind::Title => KindV::Title,
            BlockKind::Heading1 => KindV::Heading1,
            BlockKind::Heading2 => KindV::Heading2,
            BlockKind::Caption => KindV::Caption,
            BlockKind::Quote => KindV::Quote,
            BlockKind::Code => KindV::Code,
            BlockKind::BulletItem => KindV::BulletItem,
            BlockKind::OrderedItem { index } => KindV::OrderedItem { index: *index },
            BlockKind::CheckItem { checked } => KindV::CheckItem { checked: *checked },
            BlockKind::Divider => KindV::Divider,
            BlockKind::Image { asset_id, alt } => KindV::Image { asset_id: *asset_id, alt: alt@ },
        }
    }
}

impl PartialEq for BlockKind {
    fn eq(&self, other: &Self) -> (r: bool) {
        match (self, other) {
            (BlockKind::Paragraph, BlockKind::Paragraph) => true,
            (BlockKind::Title, BlockKind::Title) => true,
            (BlockKind::Heading1, BlockKind::Heading1) => true,
            (BlockKind::Heading2, BlockKind::Heading2) => true,
            (BlockKind::Caption, BlockKind::Caption) => true,
            (BlockKind::Quote, BlockKind::Quote) => true,
            (BlockKind::Code, BlockKind::Code) => true,
            (BlockKind::BulletItem, BlockKind::BulletItem) => true,
            (BlockKind::OrderedItem { index: a }, BlockKind::OrderedItem { index: b }) => *a == *b,
            (BlockKind::CheckItem { checked: a }, BlockKind::CheckItem { checked: b }) => *a == *b,
            (BlockKind::Divider, BlockKind::Divider) => true,
            (
                BlockKind::Image { asset_id: a, alt: x },
                BlockKind::Image { asset_id: b, alt: y },
            ) => *a == *b && x.eq(y),
            _ => false,
        }
    }
}

impl vstd::std_specs::cmp::PartialEqSpecImpl for BlockKind {
    open spec fn obeys_eq_spec() -> bool {
        true
    }

    open spec fn eq_spec(&self, other: &Self) -> bool {
        self@ == other@
    }
}

impl BlockKind {
    /// A copy of this kind.
    pub fn copied(&self) -> (r: BlockKind)
        ensures
            r@ == self@,
    {
        match self {
            BlockKind::Paragraph => BlockKind::Paragraph,
            BlockKind::Title => BlockKind::Title,
            BlockKind::Heading1 => BlockKind::Heading1,
            BlockKind::Heading2 => BlockKind::Heading2,
            BlockKind::Caption => BlockKind::Caption,
            BlockKind::Quote => BlockKind::Quote,
            BlockKind::Code => BlockKind::Code,
            BlockKind::BulletItem => BlockKind::BulletItem,
            BlockKind::OrderedItem { index } => BlockKind::OrderedItem { index: *index },
            BlockKind::CheckItem { checked } => BlockKind::CheckItem { checked: *checked },
            BlockKind::Divider => BlockKind::Divider,
            BlockKind::Image { asset_id, alt } => BlockKind::Image {
                asset_id: *asset_id,
                alt: alt.clone(),
            },
        }
    }
}

// ─── Block layout overrides ───────────────────────────────────────────────────

/// Text alignment of a block.
#[derive(Debug, Clone, Copy, PartialEq, Eq, Structural)]
pub enum Alignment {
    Left,
    Center,
    Right,
    Justified,
}

/// Per-block layout overrides. The three lengths are millimetre values held
/// as the bit patterns of IEEE-754 doubles (`f64::to_bits`); the library
/// carries them unchanged and the renderer reads them.
#[derive(Debug, Clone, Copy, PartialEq, Eq, Structural)]
pub struct BlockLayout {
    /// Left indent in mm (0 = no indent).
    pub indent_mm_bits: u64,
    /// Extra space before block in mm.
    pub space_before_mm_bits: u64,
    /// Extra space after block in mm.
    pub space_after_mm_bits: u64,
    /// Text alignment.
    pub alignment: Alignment,
}

/// The default layout: no indent, no extra space, left aligned.
pub open spec fn default_layout() -> BlockLayout {
    BlockLayout {
        indent_mm_bits: 0,
        space_before_mm_bits: 0,
        space_after_mm_bits: 0,
        alignment: Alignment::Left,
    }
}

impl Default for BlockLayout {
    fn default() -> (r: Self)
        ensures
            r == default_layout(),
    {
        BlockLayout {
            indent_mm_bits: 0,
            space_before_mm_bits: 0,
            space_after_mm_bits: 0,
            alignment: Alignment::Left,
        }
    }
}

// ─── Block ───────────────────────────────────────────────────────────────────

/// What a block is.
pub struct BlockV {
    pub id: u128,
    pub kind: KindV,
    pub content: Seq<RunV>,
    pub layout: BlockLayout,
}

/// A single logical block in the document.
#[derive(Debug, Clone)]
pub struct Block {
    /// Stable unique ID (the 128-bit value of a random UUID).
    pub id: u128,
    pub kind: BlockKind,
    /// Inline content. Empty for Divider and Image blocks.
    pub content: Vec<InlineRun>,
    /// Per-block layout overrides (indent level, space before/after, etc.)
    pub layout: BlockLayout,
}

impl View for Block {
    type V = BlockV;

    open spec fn view(&self) -> BlockV {
        BlockV {
            id: self.id,
            kind: self.kind@,
            content: runs_view(self.content@),
            layout: self.layout,
        }
    }
}

impl PartialEq for Block {
    fn eq(&self, other: &Self) -> (r: bool) {
        self.id == other.id && self.kind.eq(&other.kind) && runs_equal(&self.content, &other.content)
            && self.layout == other.layout
    }
}

impl vstd::std_specs::cmp::PartialEqSpecImpl for Block {
    open spec fn obeys_eq_spec() -> bool {
        true
    }

    open spec fn eq_spec(&self, other: &Self) -> bool {
        self@ == other@
    }
}

/// The flat text of a block.
pub open spec fn block_text(b: BlockV) -> Seq<char> {
    runs_text(b.content)
}

impl Block {
    /// An empty block of the given kind with a fresh random id.
    pub fn new(kind: BlockKind) -> (b: Block)
        ensures
            b@.kind == kind@,
            b@.content == Seq::<RunV>::empty(),
            b@.layout == default_layout(),
            (b.id >> 76u128) & 0xfu128 == 4,
            (b.id >> 62u128) & 0x3u128 == 2,
    {
        let b = Block { id: fresh_id(), kind, content: Vec::new(), layout: BlockLayout::default() };
        proof {
            assert(runs_view(b.content@) =~= Seq::<RunV>::empty());
        }
        b
    }

    /// A paragraph holding `text` as one plain run, with a fresh random id.
    pub fn paragraph(text: &str) -> (b: Block)
        ensures
            b@.kind == KindV::Paragraph,
            b@.content == seq![RunV { text: text@, attrs: Seq::<AttrV>::empty() }],
            b@.layout == default_layout(),
            (b.id >> 76u128) & 0xfu128 == 4,
            (b.id >> 62u128) & 0x3u128 == 2,
    {
        let mut b = Block::new(BlockKind::Paragraph);
        let mut content: Vec<InlineRun> = Vec::new();
        content.push(InlineRun::plain(text));
        b.content = content;
        proof {
            assert(runs_view(b.content@) =~= seq![
                RunV { text: text@, attrs: Seq::<AttrV>::empty() },
            ]);
        }
        b
    }

    /// Flat text content, ignoring inline attributes.
    pub fn plain_text(&self) -> (s: String)
        ensures
            s@ == block_text(self@),
    {
        crate::document::runs::runs_plain_text(&self.content)
    }
}

} // verus!
