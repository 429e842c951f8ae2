use mdlayout::cascade::{style_for_element, Declaration, Rule, Selector, StyleSet};
use mdlayout::dom::{Document, NodeData};
use mdlayout::values::{ComputedValues, FontFamily, FontSize, FontStyle, FontWeight, Rgba, SpecifiedLength};

fn rule(selector: Selector, declarations: Vec<Declaration>) -> Rule {
    Rule { selector, declarations }
}

fn tag(name: &str) -> Selector {
    Selector::Type(name.to_string())
}

/// `<html><head></head><body><p>Hello world</p></body></html>`
fn hello_document() -> (Document, usize, usize, usize, usize, usize) {
    let mut doc = Document::new("html");
    let html = doc.root_element();
    let head = doc.append_element(html, "head");
    let body = doc.append_element(html, "body");
    let p = doc.append_element(body, "p");
    let text = doc.append_text(p, "Hello world");
    (doc, html, head, body, p, text)
}

fn red_green() -> StyleSet {
    let mut styles = StyleSet::new();
    styles.add_rule(rule(tag("p"), vec![Declaration::Color(Rgba(255, 0, 0, 255))]));
    styles.add_rule(rule(tag("body"), vec![Declaration::Color(Rgba(0, 128, 0, 255))]));
    styles
}

fn element_name(doc: &Document, id: usize) -> String {
    match doc.data(id) {
        NodeData::Element { name } => name.clone(),
        _ => panic!("not an element"),
    }
}

#[test]
fn selectors() {
    let (document, _, _, _, _, _) = hello_document();
    let author_styles = red_green();

    let node_id = document.root_element();
    assert_eq!(element_name(&document, node_id), "html");
    // default color is black
    let style = style_for_element(&author_styles, &document, node_id, None);
    assert_eq!(style.color.color, Rgba(0, 0, 0, 255));

    let node_id = document.first_child(node_id).unwrap();
    assert_eq!(element_name(&document, node_id), "head");

    let node_id = document.next_sibling(node_id).unwrap();
    assert_eq!(element_name(&document, node_id), "body");
    let style = style_for_element(&author_styles, &document, node_id, None);
    assert_eq!(style.color.color, Rgba(0, 128, 0, 255));

    let node_id = document.first_child(node_id).unwrap();
    assert_eq!(element_name(&document, node_id), "p");
    let style = style_for_element(&author_styles, &document, node_id, None);
    assert_eq!(style.color.color, Rgba(255, 0, 0, 255));

    let node_id = document.first_child(node_id).unwrap();
    match document.data(node_id) {
        NodeData::Text { contents } => assert_eq!(contents, "Hello world"),
        _ => panic!("not a text node"),
    }
    // without a parent style nothing is inherited, so this is the default again
    let style = style_for_element(&author_styles, &document, node_id, None);
    assert_eq!(style.color.color, Rgba(0, 0, 0, 255));
}

#[test]
fn text_inherits_from_nearest_element() {
    let (doc, html, _, body, p, text) = hello_document();
    let styles = red_green();
    let html_style = style_for_element(&styles, &doc, html, None);
    let body_style = style_for_element(&styles, &doc, body, Some(&html_style));
    let p_style = style_for_element(&styles, &doc, p, Some(&body_style));
    let text_style = style_for_element(&styles, &doc, text, Some(&p_style));
    assert_eq!(body_style.color.color, Rgba(0, 128, 0, 255));
    assert_eq!(p_style.color.color, Rgba(255, 0, 0, 255));
    assert_eq!(text_style.color.color, Rgba(255, 0, 0, 255));
}

#[test]
fn initial_values_at_root() {
    let (doc, html, _, _, _, _) = hello_document();
    let styles = StyleSet::new();
    let s = style_for_element(&styles, &doc, html, None);
    assert_eq!(s.color.color, Rgba(0, 0, 0, 255));
    assert_eq!(s.background.background_color, Rgba(0, 0, 0, 0));
    assert_eq!(s.font.font_family, FontFamily::GenericSans);
    assert_eq!(s.font.font_style, FontStyle::Normal);
    assert_eq!(s.font.font_weight, FontWeight::Normal);
    assert_eq!(s.font.font_size, FontSize(16));
}

#[test]
fn background_is_not_inherited() {
    let (doc, html, _, body, p, _) = hello_document();
    let mut styles = StyleSet::new();
    styles.add_rule(rule(tag("body"), vec![Declaration::BackgroundColor(Rgba(1, 2, 3, 255))]));
    let html_style = style_for_element(&styles, &doc, html, None);
    let body_style = style_for_element(&styles, &doc, body, Some(&html_style));
    let p_style = style_for_element(&styles, &doc, p, Some(&body_style));
    assert_eq!(body_style.background.background_color, Rgba(1, 2, 3, 255));
    assert_eq!(p_style.background.background_color, Rgba(0, 0, 0, 0));
}

#[test]
fn later_rule_wins_at_equal_specificity() {
    let (doc, _, _, _, p, _) = hello_document();
    let mut styles = StyleSet::new();
    styles.add_rule(rule(tag("p"), vec![Declaration::Color(Rgba(1, 1, 1, 255))]));
    styles.add_rule(rule(tag("p"), vec![Declaration::Color(Rgba(2, 2, 2, 255))]));
    let s = style_for_element(&styles, &doc, p, None);
    assert_eq!(s.color.color, Rgba(2, 2, 2, 255));
}

#[test]
fn higher_specificity_wins_regardless_of_order() {
    let (doc, _, _, _, p, _) = hello_document();
    let mut styles = StyleSet::new();
    styles.add_rule(rule(tag("p"), vec![Declaration::Color(Rgba(1, 1, 1, 255))]));
    styles.add_rule(rule(Selector::Universal, vec![Declaration::Color(Rgba(2, 2, 2, 255))]));
    let s = style_for_element(&styles, &doc, p, None);
    assert_eq!(s.color.color, Rgba(1, 1, 1, 255));
}

#[test]
fn last_declaration_in_a_block_wins() {
    let (doc, _, _, _, p, _) = hello_document();
    let mut styles = StyleSet::new();
    styles.add_rule(rule(
        tag("p"),
        vec![
            Declaration::FontWeight(FontWeight::Bold),
            Declaration::FontStyle(FontStyle::Italic),
            Declaration::FontWeight(FontWeight::Normal),
        ],
    ));
    let s = style_for_element(&styles, &doc, p, None);
    assert_eq!(s.font.font_weight, FontWeight::Normal);
    assert_eq!(s.font.font_style, FontStyle::Italic);
}

#[test]
fn relative_font_size_scales_parent() {
    let (doc, html, _, body, p, text) = hello_document();
    let mut styles = StyleSet::new();
    styles.add_rule(rule(tag("body"), vec![Declaration::FontSize(SpecifiedLength::Absolute(20))]));
    styles.add_rule(rule(tag("p"), vec![Declaration::FontSize(SpecifiedLength::Em(1500))]));
    let html_style = style_for_element(&styles, &doc, html, None);
    let body_style = style_for_element(&styles, &doc, body, Some(&html_style));
    let p_style = style_for_element(&styles, &doc, p, Some(&body_style));
    let text_style = style_for_element(&styles, &doc, text, Some(&p_style));
    assert_eq!(html_style.font.font_size, FontSize(16));
    assert_eq!(body_style.font.font_size, FontSize(20));
    assert_eq!(p_style.font.font_size, FontSize(30));
    assert_eq!(text_style.font.font_size, FontSize(30));
}

#[test]
fn font_size_resolution_formula() {
    let parent = FontSize(16);
    assert_eq!(FontSize::early_from_specified(&SpecifiedLength::Em(1000), &parent), FontSize(16));
    assert_eq!(FontSize::early_from_specified(&SpecifiedLength::Em(2500), &parent), FontSize(40));
    assert_eq!(FontSize::early_from_specified(&SpecifiedLength::Em(333), &parent), FontSize(5));
    assert_eq!(FontSize::early_from_specified(&SpecifiedLength::Absolute(9), &parent), FontSize(9));
    let big = FontSize(u32::MAX);
    assert_eq!(FontSize::early_from_specified(&SpecifiedLength::Em(2000), &big), FontSize(u32::MAX));
}

#[test]
fn family_declaration_replaces_inherited_family() {
    let (doc, _, _, _, p, _) = hello_document();
    let mut styles = StyleSet::new();
    styles.add_rule(rule(tag("p"), vec![Declaration::FontFamily(FontFamily::FamilyName("Inter".to_string()))]));
    let parent = ComputedValues::initial();
    let s = style_for_element(&styles, &doc, p, Some(&parent));
    assert_eq!(s.font.font_family, FontFamily::FamilyName("Inter".to_string()));
}

#[test]
fn type_selector_does_not_match_text() {
    let (doc, _, _, _, _, text) = hello_document();
    let mut styles = StyleSet::new();
    styles.add_rule(rule(tag("p"), vec![Declaration::Color(Rgba(9, 9, 9, 255))]));
    let s = style_for_element(&styles, &doc, text, None);
    assert_eq!(s.color.color, Rgba(0, 0, 0, 255));
}

fn descendant(ancestor: &str, name: &str) -> Selector {
    Selector::Descendant(ancestor.to_string(), name.to_string())
}

#[test]
fn descendant_selector_matches_through_ancestry() {
    let (doc, _, _, _, p, text) = hello_document();
    let mut styles = StyleSet::new();
    styles.add_rule(rule(descendant("html", "p"), vec![Declaration::Color(Rgba(7, 7, 7, 255))]));
    styles.add_rule(rule(descendant("head", "p"), vec![Declaration::BackgroundColor(Rgba(8, 8, 8, 255))]));
    let s = style_for_element(&styles, &doc, p, None);
    assert_eq!(s.color.color, Rgba(7, 7, 7, 255));
    assert_eq!(s.background.background_color, Rgba(0, 0, 0, 0));
    let t = style_for_element(&styles, &doc, text, None);
    assert_eq!(t.color.color, Rgba(0, 0, 0, 255));
}

#[test]
fn descendant_selector_outranks_type_selector() {
    let (doc, _, _, body, p, _) = hello_document();
    let mut styles = StyleSet::new();
    styles.add_rule(rule(descendant("body", "p"), vec![Declaration::Color(Rgba(3, 3, 3, 255))]));
    styles.add_rule(rule(tag("p"), vec![Declaration::Color(Rgba(4, 4, 4, 255))]));
    styles.add_rule(rule(Selector::Universal, vec![Declaration::Color(Rgba(5, 5, 5, 255))]));
    assert_eq!(style_for_element(&styles, &doc, p, None).color.color, Rgba(3, 3, 3, 255));
    assert_eq!(style_for_element(&styles, &doc, body, None).color.color, Rgba(5, 5, 5, 255));
}

#[test]
fn root_has_no_ancestor() {
    let (doc, html, _, _, _, _) = hello_document();
    let mut styles = StyleSet::new();
    styles.add_rule(rule(descendant("html", "html"), vec![Declaration::Color(Rgba(6, 6, 6, 255))]));
    assert_eq!(style_for_element(&styles, &doc, html, None).color.color, Rgba(0, 0, 0, 255));
}

#[test]
fn universal_selector_skips_text() {
    let (doc, _, _, _, p, text) = hello_document();
    let mut styles = StyleSet::new();
    styles.add_rule(rule(Selector::Universal, vec![Declaration::Color(Rgba(0, 0, 255, 255))]));
    styles.add_rule(rule(tag("p"), vec![Declaration::Color(Rgba(255, 0, 0, 255))]));
    let p_style = style_for_element(&styles, &doc, p, None);
    let text_style = style_for_element(&styles, &doc, text, Some(&p_style));
    assert_eq!(text_style.color.color, Rgba(255, 0, 0, 255));
}
