use vstd::prelude::*;
use vstd::string::*;
use crate::cascade::{resolved_style, style_for_element, StyleSet, Rule};
use crate::dom::{later, Document, NodeData, NodeId};
use crate::values::{
    initial_values,
    transparent, ComputedValues, FontFamily, FontStyle, FontWeight, Rgba,
};

verus! {

/// A concrete font: family name, style, weight and pixel size.
#[derive(Debug, PartialEq, Eq)]
pub struct Font {
    pub family: String,
    pub style: FontStyle,
    pub weight: FontWeight,
    pub size: u32,
}

/// What the font backend reports of a font, in device units.
#[derive(Clone, Copy, Debug, PartialEq, Eq, Structural)]
pub struct FontMetrics {
    pub space_width: u64,
    pub linespacing: u64,
}

/// The font manager and text shaper that layout measures with.
/// Both answers depend on the backend and their arguments alone.
pub trait FontBackend {
    /// The metrics of a font.
    spec fn metrics_of(&self, font: FontKey) -> FontMetrics;

    /// The advance width of a word shaped with a font, or `None` where the
    /// font cannot shape it.
    spec fn shaped_width(&self, word: Seq<char>, font: FontKey) -> Option<u64>;

    /// The metrics of `font`.
    fn font_metrics(&self, font: &Font) -> (r: FontMetrics)
        ensures
            r == self.metrics_of(font_key(*font)),
    ;

    /// The advance width of `word` shaped with `font`, or `None` where the
    /// font cannot shape it.
    fn advance_width(&self, word: &str, font: &Font) -> (r: Option<u64>)
        ensures
            r == self.shaped_width(word@, font_key(*font)),
    ;
}

pub enum InlineBoxContent {
    Space,
    Linebreak,
    Text(String),
}

/// One unit of the inline flow.
pub struct InlineBox {
    pub content: InlineBoxContent,
    pub width: u64,
    pub linespacing: u64,
    pub font: Font,
    pub color: Rgba,
}

/// The documents and rules a layout pass reads.
pub struct Context<'a> {
    pub document: &'a Document,
    pub author_styles: &'a StyleSet,
}

/// A word the backend could not shape.
#[derive(Debug, PartialEq, Eq)]
pub struct ShapingError {
    pub word: String,
}

/// The graphics state a drawing backend is configured with.
#[derive(Debug, PartialEq, Eq)]
pub struct GContext {
    pub color: Rgba,
    pub font_family: String,
    pub font_style: FontStyle,
    pub font_weight: FontWeight,
    pub font_size: u32,
}

/// The identity of a font, as values.
pub struct FontKey {
    pub family: Seq<char>,
    pub style: FontStyle,
    pub weight: FontWeight,
    pub size: u32,
}


/// What a box is.
pub enum Piece {
    Space,
    Linebreak,
    Word(Seq<char>),
}

/// A box as values: what it is, its measurements, its font and its color.
pub struct BoxView {
    pub piece: Piece,
    pub width: u64,
    pub linespacing: u64,
    pub font: FontKey,
    pub color: Rgba,
}

pub open spec fn font_key(f: Font) -> FontKey {
    FontKey { family: f.family@, style: f.style, weight: f.weight, size: f.size }
}

pub open spec fn box_view(b: InlineBox) -> BoxView {
    BoxView {
        piece: match b.content {
            InlineBoxContent::Space => Piece::Space,
            InlineBoxContent::Linebreak => Piece::Linebreak,
            InlineBoxContent::Text(s) => Piece::Word(s@),
        },
        width: b.width,
        linespacing: b.linespacing,
        font: font_key(b.font),
        color: b.color,
    }
}

pub open spec fn views(bs: Seq<InlineBox>) -> Seq<BoxView> {
    bs.map_values(|b: InlineBox| box_view(b))
}

/// The family name a font family is loaded under; fantasy and cursive fall
/// back to the sans family.
pub open spec fn family_name(f: FontFamily) -> Seq<char> {
    match f {
        FontFamily::GenericSans => "sans"@,
        FontFamily::GenericSerif => "serif"@,
        FontFamily::GenericMonospace => "mono"@,
        FontFamily::FamilyName(s) => s@,
        _ => "sans"@,
    }
}

pub open spec fn font_key_for(style: ComputedValues) -> FontKey {
    FontKey {
        family: family_name(style.font.font_family),
        style: style.font.font_style,
        weight: style.font.font_weight,
        size: style.font.font_size.0,
    }
}

/// A space box: as wide as the font's space, carrying no color.
pub open spec fn space_view(font: FontKey, m: FontMetrics) -> BoxView {
    BoxView {
        piece: Piece::Space,
        width: m.space_width,
        linespacing: m.linespacing,
        font,
        color: transparent(),
    }
}

/// A line break box: no advance, the font's line spacing, no color.
pub open spec fn linebreak_view(font: FontKey, m: FontMetrics) -> BoxView {
    BoxView { piece: Piece::Linebreak, width: 0, linespacing: m.linespacing, font, color: transparent() }
}

/// The box of word `w`, with the width it was shaped to.
pub open spec fn word_view(w: Seq<char>, width: u64, m: FontMetrics, font: FontKey, color: Rgba) -> BoxView {
    BoxView { piece: Piece::Word(w), width, linespacing: m.linespacing, font, color }
}

/// A space after `bs`, unless `bs` is empty or ends in a space or a break.
pub open spec fn space_if_open(bs: Seq<BoxView>, font: FontKey, m: FontMetrics) -> Seq<BoxView> {
    if bs.len() > 0 && bs.last().piece is Word {
        bs.push(space_view(font, m))
    } else {
        bs
    }
}

/// `bs` without its last box where that box is a space.
pub open spec fn without_trailing_space(bs: Seq<BoxView>) -> Seq<BoxView> {
    if bs.len() > 0 && bs.last().piece is Space {
        bs.drop_last()
    } else {
        bs
    }
}

/// A line break after `bs`, with a trailing space removed first.
pub open spec fn newline_layout(bs: Seq<BoxView>, font: FontKey, m: FontMetrics) -> Seq<BoxView> {
    without_trailing_space(bs).push(linebreak_view(font, m))
}

/// ASCII whitespace: space, tab, line feed, form feed, carriage return.
pub open spec fn is_ascii_ws(c: char) -> bool {
    c == ' ' || c == '\t' || c == '\n' || c == '\x0C' || c == '\r'
}

/// Scanning `t` left to right: the words completed so far (each closed by a
/// whitespace character) and where the word in progress starts.
pub open spec fn scan_words(t: Seq<char>) -> (Seq<Seq<char>>, int)
    decreases t.len(),
{
    if t.len() == 0 {
        (Seq::empty(), 0)
    } else {
        let (ws, start) = scan_words(t.drop_last());
        let i = t.len() - 1;
        if is_ascii_ws(t[i]) {
            if start < i {
                (ws.push(t.subrange(start, i)), i + 1)
            } else {
                (ws, i + 1)
            }
        } else {
            (ws, start)
        }
    }
}

/// The maximal runs of non-whitespace characters of `t`, in order.
#[verifier::opaque]
pub open spec fn words(t: Seq<char>) -> Seq<Seq<char>> {
    let (ws, start) = scan_words(t);
    if start < t.len() {
        ws.push(t.subrange(start, t.len() as int))
    } else {
        ws
    }
}

/// Whether the backend can shape every word of `ws` with `font`.
pub open spec fn all_shaped<B: FontBackend>(be: B, ws: Seq<Seq<char>>, font: FontKey) -> bool {
    forall|k: int| 0 <= k < ws.len() ==> (#[trigger] be.shaped_width(ws[k], font)) is Some
}

/// The width the backend shaped `w` to (zero where it could not).
pub open spec fn width_of<B: FontBackend>(be: B, w: Seq<char>, font: FontKey) -> u64 {
    match be.shaped_width(w, font) {
        Some(x) => x,
        None => 0,
    }
}

/// Each word of `ws` followed by a space, after `bs`.
pub open spec fn push_words<B: FontBackend>(
    be: B,
    bs: Seq<BoxView>,
    ws: Seq<Seq<char>>,
    font: FontKey,
    color: Rgba,
) -> Seq<BoxView>
    decreases ws.len(),
{
    if ws.len() == 0 {
        bs
    } else {
        let m = be.metrics_of(font);
        push_words(be, bs, ws.drop_last(), font, color).push(
            word_view(ws.last(), width_of(be, ws.last(), font), m, font, color),
        ).push(space_view(font, m))
    }
}

pub open spec fn starts_with_ws(t: Seq<char>) -> bool {
    t.len() > 0 && is_ascii_ws(t[0])
}

pub open spec fn ends_with_ws(t: Seq<char>) -> bool {
    t.len() > 0 && is_ascii_ws(t.last())
}

/// The boxes after laying out text `t` behind `bs`: leading whitespace gives
/// a space where the flow is open, each word gives a word box and a space, and
/// the space after the last word goes again unless `t` ends in whitespace.
pub open spec fn text_layout<B: FontBackend>(
    be: B,
    bs: Seq<BoxView>,
    t: Seq<char>,
    font: FontKey,
    color: Rgba,
) -> Seq<BoxView> {
    let b1 = if starts_with_ws(t) {
        space_if_open(bs, font, be.metrics_of(font))
    } else {
        bs
    };
    let b2 = push_words(be, b1, words(t), font, color);
    if t.len() > 0 && !ends_with_ws(t) {
        without_trailing_space(b2)
    } else {
        b2
    }
}

pub open spec fn link_rank(link: Option<NodeId>, len: nat) -> int {
    match link {
        Some(c) => len - c,
        None => 0,
    }
}

/// The boxes after laying out node `n` and its descendants behind `bs`, with
/// `parent` the resolved style of its parent; `None` where some word cannot
/// be shaped.
pub open spec fn node_layout<B: FontBackend>(
    be: B,
    rules: Seq<Rule>,
    doc: Document,
    n: int,
    parent: ComputedValues,
    bs: Seq<BoxView>,
) -> Option<Seq<BoxView>>
    decreases doc.len() - n, 0int,
{
    if n < 0 || n >= doc.len() {
        Some(bs)
    } else {
        let style = resolved_style(rules, doc, n, Some(parent));
        let font = font_key_for(style);
        let b1 = match doc.node_data(n) {
            NodeData::Element { name } => if name@ == "br"@ {
                Some(newline_layout(bs, font, be.metrics_of(font)))
            } else {
                Some(bs)
            },
            NodeData::Text { contents } => if all_shaped(be, words(contents@), font) {
                Some(text_layout(be, bs, contents@, font, style.color.color))
            } else {
                None
            },
            NodeData::Other => Some(bs),
        };
        match b1 {
            None => None,
            Some(b1) => if later(doc.first_child_of(n), n, doc.len() as int) {
                children_layout(be, rules, doc, doc.first_child_of(n), style, b1)
            } else {
                Some(b1)
            },
        }
    }
}

/// The boxes after laying out `child` and its following siblings, in order.
pub open spec fn children_layout<B: FontBackend>(
    be: B,
    rules: Seq<Rule>,
    doc: Document,
    child: Option<NodeId>,
    parent: ComputedValues,
    bs: Seq<BoxView>,
) -> Option<Seq<BoxView>>
    decreases link_rank(child, doc.len()), 1int,
{
    match child {
        None => Some(bs),
        Some(c) => if c < doc.len() && later(doc.next_sibling_of(c as int), c as int, doc.len() as int) {
            match node_layout(be, rules, doc, c as int, parent, bs) {
                None => None,
                Some(b2) => children_layout(be, rules, doc, doc.next_sibling_of(c as int), parent, b2),
            }
        } else {
            Some(bs)
        },
    }
}

/// The boxes of a whole document: the root is laid out with the initial
/// values as its parent's style.
pub open spec fn document_layout<B: FontBackend>(be: B, rules: Seq<Rule>, doc: Document) -> Option<
    Seq<BoxView>,
> {
    node_layout(be, rules, doc, 0, initial_values(), Seq::empty())
}

/// Every space directly follows a word.
#[verifier::opaque]
pub open spec fn spaces_follow_words(bs: Seq<BoxView>) -> bool {
    forall|i: int|
        0 <= i < bs.len() && (#[trigger] bs[i]).piece is Space ==> i > 0 && bs[i - 1].piece is Word
}

/// A line break after a trailing space replaces that space.
pub proof fn lemma_break_trims_space(bs: Seq<BoxView>, font: FontKey, m: FontMetrics)
    requires
        bs.len() > 0,
        bs.last().piece is Space,
    ensures
        newline_layout(bs, font, m) == bs.drop_last().push(linebreak_view(font, m)),
{
}

proof fn lemma_push_keeps_spacing(bs: Seq<BoxView>, b: BoxView)
    requires
        spaces_follow_words(bs),
        b.piece is Space ==> bs.len() > 0 && bs.last().piece is Word,
    ensures
        spaces_follow_words(bs.push(b)),
{
    reveal(spaces_follow_words);
    let r = bs.push(b);
    assert forall|i: int| 0 <= i < r.len() && (#[trigger] r[i]).piece is Space implies i > 0
        && r[i - 1].piece is Word by {
        if i < bs.len() {
            assert(r[i] == bs[i]);
        }
    }
}

proof fn lemma_words_keep_spacing<B: FontBackend>(
    be: B,
    bs: Seq<BoxView>,
    ws: Seq<Seq<char>>,
    font: FontKey,
    color: Rgba,
)
    requires
        spaces_follow_words(bs),
    ensures
        spaces_follow_words(push_words(be, bs, ws, font, color)),
    decreases ws.len(),
{
    if ws.len() > 0 {
        let m = be.metrics_of(font);
        let pre = push_words(be, bs, ws.drop_last(), font, color);
        lemma_words_keep_spacing(be, bs, ws.drop_last(), font, color);
        let wb = word_view(ws.last(), width_of(be, ws.last(), font), m, font, color);
        lemma_push_keeps_spacing(pre, wb);
        lemma_push_keeps_spacing(pre.push(wb), space_view(font, m));
    }
}

proof fn lemma_trim_keeps_spacing(bs: Seq<BoxView>)
    requires
        spaces_follow_words(bs),
    ensures
        spaces_follow_words(without_trailing_space(bs)),
{
    reveal(spaces_follow_words);
    let r = without_trailing_space(bs);
    assert forall|i: int| 0 <= i < r.len() && (#[trigger] r[i]).piece is Space implies i > 0
        && r[i - 1].piece is Word by {
        assert(r[i] == bs[i]);
    }
}

proof fn lemma_open_space_keeps_spacing(bs: Seq<BoxView>, font: FontKey, m: FontMetrics)
    requires
        spaces_follow_words(bs),
    ensures
        spaces_follow_words(space_if_open(bs, font, m)),
{
    if bs.len() > 0 && bs.last().piece is Word {
        lemma_push_keeps_spacing(bs, space_view(font, m));
    }
}

proof fn lemma_text_keeps_spacing<B: FontBackend>(
    be: B,
    bs: Seq<BoxView>,
    t: Seq<char>,
    font: FontKey,
    color: Rgba,
)
    requires
        spaces_follow_words(bs),
    ensures
        spaces_follow_words(text_layout(be, bs, t, font, color)),
{
    let b1 = if starts_with_ws(t) {
        space_if_open(bs, font, be.metrics_of(font))
    } else {
        bs
    };
    if starts_with_ws(t) {
        lemma_open_space_keeps_spacing(bs, font, be.metrics_of(font));
    }
    let ws = words(t);
    let b2 = push_words(be, b1, ws, font, color);
    lemma_words_keep_spacing(be, b1, ws, font, color);
    lemma_trim_keeps_spacing(b2);
}

proof fn lemma_node_keeps_spacing<B: FontBackend>(
    be: B,
    rules: Seq<Rule>,
    doc: Document,
    n: int,
    parent: ComputedValues,
    bs: Seq<BoxView>,
)
    requires
        spaces_follow_words(bs),
    ensures
        node_layout(be, rules, doc, n, parent, bs) matches Some(r) ==> spaces_follow_words(r),
    decreases doc.len() - n, 0int,
{
    if 0 <= n < doc.len() {
        let style = resolved_style(rules, doc, n, Some(parent));
        let font = font_key_for(style);
        let m = be.metrics_of(font);
        match doc.node_data(n) {
            NodeData::Element { name } => {
                if name@ == "br"@ {
                    lemma_trim_keeps_spacing(bs);
                    lemma_push_keeps_spacing(without_trailing_space(bs), linebreak_view(font, m));
                }
            },
            NodeData::Text { contents } => {
                lemma_text_keeps_spacing(be, bs, contents@, font, style.color.color);
            },
            NodeData::Other => {},
        }
        let b1 = match doc.node_data(n) {
            NodeData::Element { name } => if name@ == "br"@ {
                Some(newline_layout(bs, font, m))
            } else {
                Some(bs)
            },
            NodeData::Text { contents } => if all_shaped(be, words(contents@), font) {
                Some(text_layout(be, bs, contents@, font, style.color.color))
            } else {
                None
            },
            NodeData::Other => Some(bs),
        };
        if let Some(b1) = b1 {
            if later(doc.first_child_of(n), n, doc.len() as int) {
                lemma_children_keep_spacing(be, rules, doc, doc.first_child_of(n), style, b1);
            }
        }
    }
}

proof fn lemma_children_keep_spacing<B: FontBackend>(
    be: B,
    rules: Seq<Rule>,
    doc: Document,
    child: Option<NodeId>,
    parent: ComputedValues,
    bs: Seq<BoxView>,
)
    requires
        spaces_follow_words(bs),
    ensures
        children_layout(be, rules, doc, child, parent, bs) matches Some(r) ==> spaces_follow_words(r),
    decreases link_rank(child, doc.len()), 1int,
{
    if let Some(c) = child {
        if c < doc.len() && later(doc.next_sibling_of(c as int), c as int, doc.len() as int) {
            lemma_node_keeps_spacing(be, rules, doc, c as int, parent, bs);
            if let Some(b2) = node_layout(be, rules, doc, c as int, parent, bs) {
                lemma_children_keep_spacing(be, rules, doc, doc.next_sibling_of(c as int), parent, b2);
            }
        }
    }
}

/// Whitespace is never doubled: in the boxes of any document, every space
/// directly follows a word, so no two spaces are adjacent (also where they
/// come from different text nodes), none starts the flow and none follows a
/// line break.
pub proof fn lemma_no_duplicate_spaces<B: FontBackend>(be: B, rules: Seq<Rule>, doc: Document)
    ensures
        document_layout(be, rules, doc) matches Some(r) ==> spaces_follow_words(r),
{
    assert(spaces_follow_words(Seq::<BoxView>::empty())) by {
        reveal(spaces_follow_words);
    }
    lemma_node_keeps_spacing(be, rules, doc, 0, initial_values(), Seq::empty());
}

/// The words found while scanning a prefix of `t` begin the words of `t`.
proof fn lemma_scan_prefix(t: Seq<char>, i: int)
    requires
        0 <= i <= t.len(),
    ensures
        scan_words(t.take(i)).0.len() <= words(t).len(),
        forall|k: int|
            0 <= k < scan_words(t.take(i)).0.len() ==> #[trigger] scan_words(t.take(i)).0[k]
                == words(t)[k],
    decreases t.len() - i,
{
    reveal(words);
    let a = scan_words(t.take(i)).0;
    if i == t.len() {
        assert(t.take(i) =~= t);
        assert forall|k: int| 0 <= k < a.len() implies #[trigger] a[k] == words(t)[k] by {}
    } else {
        lemma_scan_prefix(t, i + 1);
        assert(t.take(i + 1).drop_last() =~= t.take(i));
        let b = scan_words(t.take(i + 1)).0;
        assert(b.len() >= a.len());
        assert forall|k: int| 0 <= k < a.len() implies #[trigger] a[k] == words(t)[k] by {
            assert(a[k] == b[k]);
            assert(b[k] == words(t)[k]);
        }
    }
}

proof fn lemma_scan_start(t: Seq<char>)
    ensures
        0 <= scan_words(t).1 <= t.len(),
    decreases t.len(),
{
    if t.len() > 0 {
        lemma_scan_start(t.drop_last());
    }
}

proof fn lemma_words_extend<B: FontBackend>(
    be: B,
    bs: Seq<BoxView>,
    ws: Seq<Seq<char>>,
    font: FontKey,
    color: Rgba,
)
    ensures
        push_words(be, bs, ws, font, color).len() == bs.len() + 2 * ws.len(),
        push_words(be, bs, ws, font, color).subrange(0, bs.len() as int) == bs,
    decreases ws.len(),
{
    if ws.len() > 0 {
        lemma_words_extend(be, bs, ws.drop_last(), font, color);
        let r = push_words(be, bs, ws, font, color);
        let pre = push_words(be, bs, ws.drop_last(), font, color);
        assert(r.subrange(0, bs.len() as int) =~= pre.subrange(0, bs.len() as int));
    } else {
        assert(bs.subrange(0, bs.len() as int) =~= bs);
    }
}

/// Laying out text never changes the boxes already there: they stay a prefix
/// of the result (only the space added after the text's own last word can be
/// taken away again).
pub proof fn lemma_text_extends<B: FontBackend>(
    be: B,
    bs: Seq<BoxView>,
    t: Seq<char>,
    font: FontKey,
    color: Rgba,
)
    ensures
        text_layout(be, bs, t, font, color).len() >= bs.len(),
        text_layout(be, bs, t, font, color).subrange(0, bs.len() as int) == bs,
{
    reveal(words);
    let b1 = if starts_with_ws(t) {
        space_if_open(bs, font, be.metrics_of(font))
    } else {
        bs
    };
    assert(b1.subrange(0, bs.len() as int) =~= bs);
    let ws = words(t);
    lemma_words_extend(be, b1, ws, font, color);
    let b2 = push_words(be, b1, ws, font, color);
    assert(b2.subrange(0, bs.len() as int) =~= b1.subrange(0, bs.len() as int));
    if t.len() > 0 && !ends_with_ws(t) {
        lemma_scan_start(t.drop_last());
        assert(t.drop_last() =~= t.take(t.len() - 1));
        assert(ws.len() > 0);
        let r = without_trailing_space(b2);
        assert(r.subrange(0, bs.len() as int) =~= b2.subrange(0, bs.len() as int));
    }
}

/// Collapse idempotence: the boxes of a text depend only on its words and on
/// whether it is empty, starts or ends with whitespace; so a text whose
/// whitespace runs are collapsed lays out exactly as the text itself.
pub proof fn lemma_collapse_idempotent<B: FontBackend>(
    be: B,
    bs: Seq<BoxView>,
    t1: Seq<char>,
    t2: Seq<char>,
    font: FontKey,
    color: Rgba,
)
    requires
        words(t1) == words(t2),
        starts_with_ws(t1) == starts_with_ws(t2),
        ends_with_ws(t1) == ends_with_ws(t2),
        (t1.len() == 0) == (t2.len() == 0),
    ensures
        text_layout(be, bs, t1, font, color) == text_layout(be, bs, t2, font, color),
{
}

pub proof fn lemma_views_push(bs: Seq<InlineBox>, b: InlineBox)
    ensures
        views(bs.push(b)) == views(bs).push(box_view(b)),
{
    assert(views(bs.push(b)) =~= views(bs).push(box_view(b)));
}

pub proof fn lemma_views_drop_last(bs: Seq<InlineBox>)
    requires
        bs.len() > 0,
    ensures
        views(bs.drop_last()) == views(bs).drop_last(),
{
    assert(views(bs.drop_last()) =~= views(bs).drop_last());
}

impl Font {
    /// An owned copy of this font.
    pub fn copy(&self) -> (r: Font)
        ensures
            r == *self,
    {
        Font { family: self.family.clone(), style: self.style, weight: self.weight, size: self.size }
    }
}

/// The name a font family is loaded under.
pub fn family_name_of(f: &FontFamily) -> (r: String)
    ensures
        r@ == family_name(*f),
{
    match f {
        FontFamily::GenericSans => "sans".to_string(),
        FontFamily::GenericSerif => "serif".to_string(),
        FontFamily::GenericMonospace => "mono".to_string(),
        FontFamily::FamilyName(s) => s.clone(),
        _ => "sans".to_string(),
    }
}

/// The font that a resolved style selects.
pub fn retrieve_font(style: &ComputedValues) -> (r: Font)
    ensures
        font_key(r) == font_key_for(*style),
{
    Font {
        family: family_name_of(&style.font.font_family),
        style: style.font.font_style,
        weight: style.font.font_weight,
        size: style.font.font_size.0,
    }
}

/// The graphics state `gc` with color and font taken from `style`.
pub fn apply_style_attributes(style: &ComputedValues, gc: &GContext) -> (r: GContext)
    ensures
        r.color == style.color.color,
        r.font_family@ == family_name(style.font.font_family),
        r.font_style == style.font.font_style,
        r.font_weight == style.font.font_weight,
        r.font_size == style.font.font_size.0,
{
    let mut gc_new = GContext {
        color: gc.color,
        font_family: gc.font_family.clone(),
        font_style: gc.font_style,
        font_weight: gc.font_weight,
        font_size: gc.font_size,
    };
    gc_new.color = style.color.color;
    gc_new.font_style = style.font.font_style;
    gc_new.font_weight = style.font.font_weight;
    gc_new.font_size = style.font.font_size.0;
    gc_new.font_family = family_name_of(&style.font.font_family);
    gc_new
}


/// Unconditionally appends a space box.
fn add_space(boxes: &mut Vec<InlineBox>, fm: &FontMetrics, font: &Font)
    ensures
        final(boxes)@.drop_last() == old(boxes)@,
        final(boxes)@.len() == old(boxes)@.len() + 1,
        final(boxes)@.last().font == *font,
        views(final(boxes)@) == views(old(boxes)@).push(space_view(font_key(*font), *fm)),
{
    let b = InlineBox {
        content: InlineBoxContent::Space,
        width: fm.space_width,
        linespacing: fm.linespacing,
        font: font.copy(),
        color: Rgba(0, 0, 0, 0),
    };
    proof {
        lemma_views_push(boxes@, b);
    }
    boxes.push(b);
    assert(boxes@.drop_last() =~= old(boxes)@);
}

/// Appends a space unless the list is empty or already ends in a space or a break.
fn maybe_add_space(boxes: &mut Vec<InlineBox>, fm: &FontMetrics, font: &Font)
    ensures
        final(boxes)@.len() >= old(boxes)@.len(),
        final(boxes)@.subrange(0, old(boxes)@.len() as int) == old(boxes)@,
        views(final(boxes)@) == space_if_open(views(old(boxes)@), font_key(*font), *fm),
{
    let n = boxes.len();
    if n > 0 {
        match boxes[n - 1].content {
            InlineBoxContent::Space => {},
            InlineBoxContent::Linebreak => {},
            _ => add_space(boxes, fm, font),
        }
    }
    assert(boxes@.subrange(0, n as int) =~= old(boxes)@);
}

/// Removes the last box if it is a space.
fn maybe_remove_space(boxes: &mut Vec<InlineBox>)
    ensures
        final(boxes)@ == if old(boxes)@.len() > 0 && old(boxes)@.last().content is Space {
            old(boxes)@.drop_last()
        } else {
            old(boxes)@
        },
        views(final(boxes)@) == without_trailing_space(views(old(boxes)@)),
{
    let n = boxes.len();
    if n > 0 {
        if let InlineBoxContent::Space = boxes[n - 1].content {
            proof {
                lemma_views_drop_last(boxes@);
            }
            boxes.pop();
        }
    }
}

pub fn is_ascii_whitespace(c: char) -> (r: bool)
    ensures
        r == is_ascii_ws(c),
{
    c == ' ' || c == '\t' || c == '\n' || c == '\x0C' || c == '\r'
}


/// Shapes `word` and appends its box and a space after it.
fn push_word<B: FontBackend>(
    boxes: &mut Vec<InlineBox>,
    word: &str,
    fm: &FontMetrics,
    font: &Font,
    color: Rgba,
    backend: &B,
) -> (r: Result<(), ShapingError>)
    ensures
        r is Ok <==> backend.shaped_width(word@, font_key(*font)) is Some,
        r is Ok ==> views(final(boxes)@) == views(old(boxes)@).push(
            word_view(word@, width_of(*backend, word@, font_key(*font)), *fm, font_key(*font), color),
        ).push(space_view(font_key(*font), *fm)),
        r matches Err(e) ==> e.word@ == word@,
{
    match backend.advance_width(word, font) {
        Some(w) => {
            let b = InlineBox {
                content: InlineBoxContent::Text(word.to_string()),
                width: w,
                linespacing: fm.linespacing,
                font: font.copy(),
                color,
            };
            proof {
                lemma_views_push(boxes@, b);
            }
            boxes.push(b);
            add_space(boxes, fm, font);
            Ok(())
        },
        None => Err(ShapingError { word: word.to_string() }),
    }
}

/// Appends the boxes of text `text`, collapsing whitespace against the boxes
/// already there. It succeeds exactly when every word of the text can be
/// shaped; otherwise it reports a word that cannot.
pub fn make_text_boxes<B: FontBackend>(
    boxes: &mut Vec<InlineBox>,
    text: &str,
    font: &Font,
    color: Rgba,
    backend: &B,
) -> (r: Result<(), ShapingError>)
    ensures
        words(text@).len() == 0 ==> r is Ok,
        r is Ok <==> all_shaped(*backend, words(text@), font_key(*font)),
        r is Ok ==> views(final(boxes)@) == text_layout(
            *backend,
            views(old(boxes)@),
            text@,
            font_key(*font),
            color,
        ),
        r matches Err(e) ==> backend.shaped_width(e.word@, font_key(*font)) is None,
{
    let fm = backend.font_metrics(font);
    let ghost t = text@;
    let ghost fk = font_key(*font);
    let ghost be = *backend;
    let n = text.unicode_len();
    let leading = n > 0 && is_ascii_whitespace(text.get_char(0));
    if leading {
        maybe_add_space(boxes, &fm, font);
    }
    let ghost b1 = views(boxes@);
    let mut start: usize = 0;
    let mut i: usize = 0;
    while i < n
        invariant
            n == t.len(),
            t == text@,
            fk == font_key(*font),
            be == *backend,
            fm == be.metrics_of(fk),
            i <= n,
            start <= i,
            scan_words(t.take(i as int)).1 == start,
            all_shaped(be, scan_words(t.take(i as int)).0, fk),
            views(boxes@) == push_words(be, b1, scan_words(t.take(i as int)).0, fk, color),
        decreases n - i,
    {
        let ghost pre = t.take(i as int);
        let ghost cur = t.take(i + 1);
        assert(cur.drop_last() =~= pre);
        assert(cur[i as int] == t[i as int]);
        let c = text.get_char(i);
        if is_ascii_whitespace(c) {
            if start < i {
                let word = text.substring_char(start, i);
                assert(word@ =~= cur.subrange(start as int, i as int));
                let ghost ws = scan_words(pre).0;
                assert(ws.push(word@).drop_last() =~= ws);
                match push_word(boxes, word, &fm, font, color, backend) {
                    Ok(()) => {},
                    Err(e) => {
                        proof {
                            lemma_scan_prefix(t, i + 1);
                            assert(scan_words(cur).0[ws.len() as int] == word@);
                            assert(words(t)[ws.len() as int] == word@);
                        }
                        return Err(e);
                    },
                }
                assert forall|k: int| 0 <= k < ws.push(word@).len() implies (#[trigger] be.shaped_width(
                    ws.push(word@)[k],
                    fk,
                )) is Some by {
                    if k < ws.len() {
                        assert(ws.push(word@)[k] == ws[k]);
                    }
                }
            }
            start = i + 1;
        }
        i = i + 1;
    }
    assert(t.take(n as int) =~= t);
    proof {
        reveal(words);
    }
    if start < n {
        let word = text.substring_char(start, n);
        let ghost ws = scan_words(t).0;
        assert(ws.push(word@).drop_last() =~= ws);
        match push_word(boxes, word, &fm, font, color, backend) {
            Ok(()) => {},
            Err(e) => {
                assert(words(t)[ws.len() as int] == word@);
                return Err(e);
            },
        }
        assert forall|k: int| 0 <= k < ws.push(word@).len() implies (#[trigger] be.shaped_width(
            ws.push(word@)[k],
            fk,
        )) is Some by {
            if k < ws.len() {
                assert(ws.push(word@)[k] == ws[k]);
            }
        }
    }
    let trailing = n > 0 && is_ascii_whitespace(text.get_char(n - 1));
    if n > 0 && !trailing {
        maybe_remove_space(boxes);
    }
    Ok(())
}

/// Whether a tag name is that of a line break element.
fn is_line_break(name: &String) -> (r: bool)
    ensures
        r == (name@ == "br"@),
{
    proof {
        reveal_strlit("br");
    }
    let s = name.as_str();
    if s.unicode_len() != 2 {
        return false;
    }
    let r = s.get_char(0) == 'b' && s.get_char(1) == 'r';
    assert(r ==> name@ =~= "br"@);
    r
}


/// Lays out node `node_id` and its descendants, depth first, appending to
/// `boxes`. It succeeds exactly when every word in the subtree can be shaped.
fn process_node<B: FontBackend>(
    boxes: &mut Vec<InlineBox>,
    node_id: NodeId,
    parent_element_style: &ComputedValues,
    context: &Context,
    backend: &B,
) -> (r: Result<(), ShapingError>)
    requires
        context.document.wf(),
        node_id < context.document.len(),
    ensures
        r is Ok <==> node_layout(
            *backend,
            context.author_styles.rules@,
            *context.document,
            node_id as int,
            *parent_element_style,
            views(old(boxes)@),
        ) is Some,
        r is Ok ==> Some(views(final(boxes)@)) == node_layout(
            *backend,
            context.author_styles.rules@,
            *context.document,
            node_id as int,
            *parent_element_style,
            views(old(boxes)@),
        ),
    decreases context.document.len() - node_id,
{
    let ghost rules = context.author_styles.rules@;
    let ghost doc = *context.document;
    let ghost be = *backend;
    let ghost start_views = views(boxes@);
    let style = style_for_element(
        context.author_styles,
        context.document,
        node_id,
        Some(parent_element_style),
    );
    let font = retrieve_font(&style);
    match context.document.data(node_id) {
        NodeData::Element { name } => {
            if is_line_break(name) {
                add_newline(boxes, &font, backend);
            }
        },
        NodeData::Text { contents } => {
            match make_text_boxes(boxes, contents.as_str(), &font, style.color.color, backend) {
                Ok(()) => {},
                Err(e) => {
                    return Err(e);
                },
            }
        },
        NodeData::Other => {},
    }
    let ghost b1 = views(boxes@);
    let first = context.document.first_child(node_id);
    proof {
        doc.lemma_links(node_id as int);
    }
    assert(node_layout(be, rules, doc, node_id as int, *parent_element_style, start_views)
        == children_layout(be, rules, doc, first, style, b1));
    let mut cur = first;
    while cur.is_some()
        invariant
            context.document.wf(),
            doc == *context.document,
            rules == context.author_styles.rules@,
            be == *backend,
            node_id < doc.len(),
            later(cur, node_id as int, doc.len() as int),
            node_layout(be, rules, doc, node_id as int, *parent_element_style, start_views)
                == children_layout(be, rules, doc, first, style, b1),
            start_views == views(old(boxes)@),
            children_layout(be, rules, doc, first, style, b1) == children_layout(
                be,
                rules,
                doc,
                cur,
                style,
                views(boxes@),
            ),
        decreases link_rank(cur, doc.len()),
    {
        let c = cur.unwrap();
        proof {
            doc.lemma_links(c as int);
        }
        let ghost before = views(boxes@);
        match process_node(boxes, c, &style, context, backend) {
            Ok(()) => {},
            Err(e) => {
                assert(children_layout(be, rules, doc, cur, style, before) is None);
                return Err(e);
            },
        }
        cur = context.document.next_sibling(c);
    }
    Ok(())
}

/// Lays out a whole document into its inline boxes. It succeeds exactly when
/// every word of the document can be shaped.
pub fn layout_document<B: FontBackend>(context: &Context, backend: &B) -> (r: Result<
    Vec<InlineBox>,
    ShapingError,
>)
    requires
        context.document.wf(),
    ensures
        r is Ok <==> document_layout(*backend, context.author_styles.rules@, *context.document) is Some,
        r matches Ok(bs) ==> Some(views(bs@)) == document_layout(
            *backend,
            context.author_styles.rules@,
            *context.document,
        ),
{
    let mut inline_boxes: Vec<InlineBox> = Vec::new();
    let root_element = context.document.root_element();
    let style = ComputedValues::initial();
    assert(views(inline_boxes@) =~= Seq::<BoxView>::empty());
    match process_node(&mut inline_boxes, root_element, &style, context, backend) {
        Ok(()) => Ok(inline_boxes),
        Err(e) => Err(e),
    }
}

/// Appends a line break, removing a trailing space first.
fn add_newline<B: FontBackend>(boxes: &mut Vec<InlineBox>, font: &Font, backend: &B)
    ensures
        views(final(boxes)@) == newline_layout(
            views(old(boxes)@),
            font_key(*font),
            backend.metrics_of(font_key(*font)),
        ),
        final(boxes)@.last().font == *font,
{
    let fm = backend.font_metrics(font);
    maybe_remove_space(boxes);
    let b = InlineBox {
        content: InlineBoxContent::Linebreak,
        width: 0,
        linespacing: fm.linespacing,
        font: font.copy(),
        color: Rgba(0, 0, 0, 0),
    };
    proof {
        lemma_views_push(boxes@, b);
    }
    boxes.push(b);
}

} // verus!
