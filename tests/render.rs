use vstd::prelude::Seq;
use mdlayout::dom::Document;
use mdlayout::cascade::StyleSet;
use mdlayout::layout::{Context, Font, FontBackend, FontKey, FontMetrics, InlineBox, InlineBoxContent};
use mdlayout::render::{coordinates_fit, render_html, render_inline_boxes, RenderError};
use mdlayout::values::{FontStyle, FontWeight, Rgba};

struct Wide(u64);

impl FontBackend for Wide {
    // Contract-level members: only the verifier reads them.
    fn metrics_of(&self, _font: FontKey) -> FontMetrics {
        unreachable!()
    }

    fn shaped_width(&self, _word: Seq<char>, _font: FontKey) -> Option<u64> {
        unreachable!()
    }

    fn font_metrics(&self, _font: &Font) -> FontMetrics {
        FontMetrics { space_width: self.0, linespacing: 20 }
    }

    fn advance_width(&self, word: &str, _font: &Font) -> Option<u64> {
        Some(self.0 * word.len() as u64)
    }
}

fn font() -> Font {
    Font { family: "sans".to_string(), style: FontStyle::Normal, weight: FontWeight::Normal, size: 16 }
}

fn bx(content: InlineBoxContent, width: u64, linespacing: u64) -> InlineBox {
    InlineBox { content, width, linespacing, font: font(), color: Rgba(1, 2, 3, 255) }
}

fn word(s: &str, width: u64) -> InlineBox {
    bx(InlineBoxContent::Text(s.to_string()), width, 20)
}

#[test]
fn cursor_advances_and_breaks() {
    let boxes = vec![
        word("a", 10),
        bx(InlineBoxContent::Space, 4, 20),
        word("bc", 20),
        bx(InlineBoxContent::Linebreak, 0, 25),
        word("d", 10),
        bx(InlineBoxContent::Space, 4, 20),
        bx(InlineBoxContent::Linebreak, 0, 30),
        bx(InlineBoxContent::Space, 4, 20),
        word("e", 10),
    ];
    let draws = render_inline_boxes(&boxes, 7, 100);
    let placed: Vec<(String, u64, u64)> = draws.iter().map(|d| (d.text.clone(), d.x, d.y)).collect();
    assert_eq!(
        placed,
        vec![
            ("a".to_string(), 7, 100),
            ("bc".to_string(), 21, 100),
            ("d".to_string(), 7, 125),
            ("e".to_string(), 11, 155),
        ]
    );
    assert_eq!(draws[0].color, Rgba(1, 2, 3, 255));
    assert_eq!(draws[0].font, font());
}

#[test]
fn empty_box_list_draws_nothing() {
    let boxes: Vec<InlineBox> = Vec::new();
    assert!(render_inline_boxes(&boxes, 0, 0).is_empty());
}

#[test]
fn coordinate_bounds() {
    let boxes = vec![word("a", u64::MAX - 5), bx(InlineBoxContent::Space, 4, 20)];
    assert!(coordinates_fit(&boxes, 1, 0));
    assert!(!coordinates_fit(&boxes, 2, 0));
    let breaks = vec![bx(InlineBoxContent::Linebreak, 0, u64::MAX)];
    assert!(coordinates_fit(&breaks, 0, 0));
    assert!(!coordinates_fit(&breaks, 0, 1));
}

#[test]
fn render_document_end_to_end() {
    let mut doc = Document::new("body");
    let body = doc.root_element();
    doc.append_text(body, "ab cd");
    doc.append_element(body, "br");
    doc.append_text(body, "e");
    let styles = StyleSet::new();
    let context = Context { document: &doc, author_styles: &styles };
    let draws = match render_html(&context, &Wide(10), 3, 5) {
        Ok(d) => d,
        Err(_) => panic!("render failed"),
    };
    let placed: Vec<(String, u64, u64)> = draws.iter().map(|d| (d.text.clone(), d.x, d.y)).collect();
    assert_eq!(
        placed,
        vec![("ab".to_string(), 3, 5), ("cd".to_string(), 33, 5), ("e".to_string(), 3, 25)]
    );
    assert_eq!(draws[0].color, Rgba(0, 0, 0, 255));
}

#[test]
fn render_document_overflow() {
    let mut doc = Document::new("body");
    let body = doc.root_element();
    doc.append_text(body, "ab cd");
    let styles = StyleSet::new();
    let context = Context { document: &doc, author_styles: &styles };
    let r = render_html(&context, &Wide(u64::MAX / 4), 0, 0);
    assert!(matches!(r, Err(RenderError::CoordinateOverflow)));
}
