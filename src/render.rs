use vstd::prelude::*;
use crate::layout::{
    box_view, document_layout, font_key, layout_document, views, BoxView, Context, Font,
    FontBackend, FontKey, InlineBox, InlineBoxContent, Piece, ShapingError,
};
use crate::values::Rgba;

verus! {

/// One text run to draw at an absolute position.
pub struct DrawCommand {
    pub text: String,
    pub x: u64,
    pub y: u64,
    pub font: Font,
    pub color: Rgba,
}

/// Why rendering a document failed.
pub enum RenderError {
    /// The font backend could not shape a word.
    Shaping(ShapingError),
    /// A drawing position does not fit in a `u64`.
    CoordinateOverflow,
}

pub struct DrawView {
    pub text: Seq<char>,
    pub x: int,
    pub y: int,
    pub font: FontKey,
    pub color: Rgba,
}

pub open spec fn draw_view(d: DrawCommand) -> DrawView {
    DrawView { text: d.text@, x: d.x as int, y: d.y as int, font: font_key(d.font), color: d.color }
}

/// The renderer's cursor after one box: spaces and words advance `x`, a line
/// break returns `x` to zero and advances `y` by its line spacing.
pub open spec fn step(cursor: (int, int), b: BoxView) -> (int, int) {
    match b.piece {
        Piece::Linebreak => (0, cursor.1 + b.linespacing),
        _ => (cursor.0 + b.width, cursor.1),
    }
}

/// The cursor after all of `bs`, starting from `(0, 0)`.
pub open spec fn cursor_after(bs: Seq<BoxView>) -> (int, int)
    decreases bs.len(),
{
    if bs.len() == 0 {
        (0, 0)
    } else {
        step(cursor_after(bs.drop_last()), bs.last())
    }
}

/// The sum of the widths of the spaces and words of `bs`.
pub open spec fn advance_sum(bs: Seq<BoxView>) -> int
    decreases bs.len(),
{
    if bs.len() == 0 {
        0
    } else {
        advance_sum(bs.drop_last()) + match bs.last().piece {
            Piece::Linebreak => 0,
            _ => bs.last().width as int,
        }
    }
}

/// The sum of the line spacings of the line breaks of `bs`.
pub open spec fn linebreak_sum(bs: Seq<BoxView>) -> int
    decreases bs.len(),
{
    if bs.len() == 0 {
        0
    } else {
        linebreak_sum(bs.drop_last()) + match bs.last().piece {
            Piece::Linebreak => bs.last().linespacing as int,
            _ => 0,
        }
    }
}

/// The index just past the last line break of `bs`, or `0` without one.
pub open spec fn line_start(bs: Seq<BoxView>) -> int
    decreases bs.len(),
{
    if bs.len() == 0 {
        0
    } else {
        match bs.last().piece {
            Piece::Linebreak => bs.len() as int,
            _ => line_start(bs.drop_last()),
        }
    }
}

/// The draw calls for `bs` with the cursor origin at `(x0, y0)`: one per
/// word, at the cursor reached before it.
pub open spec fn draws(bs: Seq<BoxView>, x0: int, y0: int) -> Seq<DrawView>
    decreases bs.len(),
{
    if bs.len() == 0 {
        Seq::empty()
    } else {
        let earlier = draws(bs.drop_last(), x0, y0);
        let b = bs.last();
        let c = cursor_after(bs.drop_last());
        match b.piece {
            Piece::Word(s) => earlier.push(
                DrawView { text: s, x: x0 + c.0, y: y0 + c.1, font: b.font, color: b.color },
            ),
            _ => earlier,
        }
    }
}

/// Whether every drawing position of `bs` fits in a `u64` from `(x0, y0)`.
pub open spec fn fits(bs: Seq<BoxView>, x0: int, y0: int) -> bool {
    x0 + advance_sum(bs) <= u64::MAX && y0 + linebreak_sum(bs) <= u64::MAX
}

/// The cursor law: after any sequence of boxes, `x` is the sum of the widths
/// of the spaces and words since the last line break, and `y` the sum of the
/// line spacings of all line breaks.
pub proof fn lemma_cursor_law(bs: Seq<BoxView>)
    ensures
        0 <= line_start(bs) <= bs.len(),
        cursor_after(bs).0 == advance_sum(bs.subrange(line_start(bs), bs.len() as int)),
        cursor_after(bs).1 == linebreak_sum(bs),
    decreases bs.len(),
{
    if bs.len() > 0 {
        let pre = bs.drop_last();
        lemma_cursor_law(pre);
        let k = line_start(bs);
        let tail = bs.subrange(k, bs.len() as int);
        match bs.last().piece {
            Piece::Linebreak => {
                assert(tail =~= Seq::<BoxView>::empty());
            },
            _ => {
                assert(tail.drop_last() =~= pre.subrange(k, pre.len() as int));
            },
        }
    } else {
        assert(bs.subrange(0, 0) =~= Seq::<BoxView>::empty());
    }
}

proof fn lemma_cursor_bounds(bs: Seq<BoxView>)
    ensures
        0 <= cursor_after(bs).0 <= advance_sum(bs),
        0 <= cursor_after(bs).1 == linebreak_sum(bs),
        0 <= advance_sum(bs),
    decreases bs.len(),
{
    if bs.len() > 0 {
        lemma_cursor_bounds(bs.drop_last());
    }
}

proof fn lemma_prefix_sums(bs: Seq<BoxView>, i: int)
    requires
        0 <= i <= bs.len(),
    ensures
        advance_sum(bs.take(i)) <= advance_sum(bs),
        linebreak_sum(bs.take(i)) <= linebreak_sum(bs),
    decreases bs.len(),
{
    if i == bs.len() {
        assert(bs.take(i) =~= bs);
    } else {
        lemma_prefix_sums(bs.drop_last(), i);
        assert(bs.drop_last().take(i) =~= bs.take(i));
    }
}

/// Places the words of `inline_boxes` in one pass, starting at `(x0, y0)`.
pub fn render_inline_boxes(inline_boxes: &Vec<InlineBox>, x0: u64, y0: u64) -> (r: Vec<
    DrawCommand,
>)
    requires
        fits(views(inline_boxes@), x0 as int, y0 as int),
    ensures
        r@.map_values(|d: DrawCommand| draw_view(d)) == draws(
            views(inline_boxes@),
            x0 as int,
            y0 as int,
        ),
{
    let ghost bs = views(inline_boxes@);
    let mut out: Vec<DrawCommand> = Vec::new();
    let mut x: u64 = 0;
    let mut y: u64 = 0;
    let mut i: usize = 0;
    assert(bs.take(0) =~= Seq::<BoxView>::empty());
    assert(out@.map_values(|d: DrawCommand| draw_view(d)) =~= Seq::<DrawView>::empty());
    while i < inline_boxes.len()
        invariant
            bs == views(inline_boxes@),
            i <= bs.len(),
            fits(bs, x0 as int, y0 as int),
            x == cursor_after(bs.take(i as int)).0,
            y == cursor_after(bs.take(i as int)).1,
            out@.map_values(|d: DrawCommand| draw_view(d)) == draws(
                bs.take(i as int),
                x0 as int,
                y0 as int,
            ),
        decreases bs.len() - i,
    {
        let ghost cur = bs.take(i + 1);
        assert(cur.drop_last() =~= bs.take(i as int));
        assert(cur.last() == box_view(inline_boxes@[i as int]));
        proof {
            lemma_cursor_bounds(cur);
            lemma_prefix_sums(bs, i + 1);
        }
        let b = &inline_boxes[i];
        match &b.content {
            InlineBoxContent::Space => {
                x = x + b.width;
            },
            InlineBoxContent::Linebreak => {
                x = 0;
                y = y + b.linespacing;
            },
            InlineBoxContent::Text(word) => {
                proof {
                    lemma_cursor_bounds(bs.take(i as int));
                    lemma_prefix_sums(bs, i as int);
                }
                let d = DrawCommand {
                    text: word.clone(),
                    x: x0 + x,
                    y: y0 + y,
                    font: b.font.copy(),
                    color: b.color,
                };
                let ghost before = out@;
                out.push(d);
                assert(out@.map_values(|d: DrawCommand| draw_view(d)) =~= before.map_values(
                    |d: DrawCommand| draw_view(d),
                ).push(draw_view(d)));
                x = x + b.width;
            },
        }
        i = i + 1;
    }
    assert(bs.take(bs.len() as int) =~= bs);
    out
}

/// Whether every drawing position of `inline_boxes` fits in a `u64` when
/// the cursor starts at `(x0, y0)`.
pub fn coordinates_fit(inline_boxes: &Vec<InlineBox>, x0: u64, y0: u64) -> (r: bool)
    ensures
        r == fits(views(inline_boxes@), x0 as int, y0 as int),
{
    let ghost bs = views(inline_boxes@);
    let mut ax: u64 = x0;
    let mut ay: u64 = y0;
    let mut i: usize = 0;
    assert(bs.take(0) =~= Seq::<BoxView>::empty());
    while i < inline_boxes.len()
        invariant
            bs == views(inline_boxes@),
            i <= bs.len(),
            ax == x0 + advance_sum(bs.take(i as int)),
            ay == y0 + linebreak_sum(bs.take(i as int)),
        decreases bs.len() - i,
    {
        let ghost cur = bs.take(i + 1);
        assert(cur.drop_last() =~= bs.take(i as int));
        assert(cur.last() == box_view(inline_boxes@[i as int]));
        proof {
            lemma_prefix_sums(bs, i + 1);
        }
        let b = &inline_boxes[i];
        match &b.content {
            InlineBoxContent::Linebreak => {
                match ay.checked_add(b.linespacing) {
                    Some(v) => {
                        ay = v;
                    },
                    None => {
                        return false;
                    },
                }
            },
            _ => {
                match ax.checked_add(b.width) {
                    Some(v) => {
                        ax = v;
                    },
                    None => {
                        return false;
                    },
                }
            },
        }
        i = i + 1;
    }
    assert(bs.take(bs.len() as int) =~= bs);
    true
}

/// Lays out the document of `context` and places its words, starting the
/// cursor at `(x0, y0)`. It fails exactly when a word cannot be shaped, or
/// when a drawing position would not fit in a `u64`.
pub fn render_html<B: FontBackend>(context: &Context, backend: &B, x0: u64, y0: u64) -> (r:
    Result<Vec<DrawCommand>, RenderError>)
    requires
        context.document.wf(),
    ensures
        match document_layout(*backend, context.author_styles.rules@, *context.document) {
            None => r is Err && r->Err_0 is Shaping,
            Some(bs) => if fits(bs, x0 as int, y0 as int) {
                r is Ok && r->Ok_0@.map_values(|d: DrawCommand| draw_view(d)) == draws(
                    bs,
                    x0 as int,
                    y0 as int,
                )
            } else {
                r is Err && r->Err_0 is CoordinateOverflow
            },
        },
{
    match layout_document(context, backend) {
        Ok(inline_boxes) => {
            if coordinates_fit(&inline_boxes, x0, y0) {
                Ok(render_inline_boxes(&inline_boxes, x0, y0))
            } else {
                Err(RenderError::CoordinateOverflow)
            }
        },
        Err(e) => Err(RenderError::Shaping(e)),
    }
}

} // verus!
