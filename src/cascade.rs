use vstd::prelude::*;
use crate::dom::{Document, NodeData, NodeId};
use crate::values::{
    initial_values, resolved_font_size, copy_family, BackgroundProps, ColorProps, ComputedValues,
    FontFamily, FontProps, FontSize, FontStyle, FontWeight, Rgba, SpecifiedLength,
};

verus! {

/// Which nodes a rule applies to.
pub enum Selector {
    /// Every element.
    Universal,
    /// Elements with this tag name.
    Type(String),
    /// Elements with the second tag name that have an ancestor element with the first.
    Descendant(String, String),
}

/// One property set by a rule.
pub enum Declaration {
    Color(Rgba),
    BackgroundColor(Rgba),
    FontFamily(FontFamily),
    FontStyle(FontStyle),
    FontWeight(FontWeight),
    FontSize(SpecifiedLength),
}

#[derive(Clone, Copy, Debug, PartialEq, Eq, Structural)]
pub enum PropertyId {
    Color,
    BackgroundColor,
    FontFamily,
    FontStyle,
    FontWeight,
    FontSize,
}

pub struct Rule {
    pub selector: Selector,
    pub declarations: Vec<Declaration>,
}

/// The author rules of a document, in source order.
pub struct StyleSet {
    pub rules: Vec<Rule>,
}

pub open spec fn property_of(d: Declaration) -> PropertyId {
    match d {
        Declaration::Color(_) => PropertyId::Color,
        Declaration::BackgroundColor(_) => PropertyId::BackgroundColor,
        Declaration::FontFamily(_) => PropertyId::FontFamily,
        Declaration::FontStyle(_) => PropertyId::FontStyle,
        Declaration::FontWeight(_) => PropertyId::FontWeight,
        Declaration::FontSize(_) => PropertyId::FontSize,
    }
}

pub open spec fn specificity(s: Selector) -> u32 {
    match s {
        Selector::Universal => 0,
        Selector::Type(_) => 1,
        Selector::Descendant(_, _) => 2,
    }
}

/// Whether node `n` of `doc` is an element with tag name `tag`.
pub open spec fn element_named(doc: Document, n: int, tag: Seq<char>) -> bool {
    0 <= n < doc.len() && match doc.node_data(n) {
        NodeData::Element { name } => name@ == tag,
        _ => false,
    }
}

/// Whether some proper ancestor of node `n` is an element with tag name `tag`.
pub open spec fn has_ancestor_named(doc: Document, n: int, tag: Seq<char>) -> bool
    decreases n,
{
    if n <= 0 || n >= doc.len() {
        false
    } else {
        match doc.parent_of(n) {
            Some(p) => if 0 <= p < n {
                element_named(doc, p as int, tag) || has_ancestor_named(doc, p as int, tag)
            } else {
                false
            },
            None => false,
        }
    }
}

/// Whether `sel` applies to node `node` of `doc`.
pub open spec fn selector_matches(sel: Selector, doc: Document, node: int) -> bool {
    match sel {
        Selector::Universal => doc.node_data(node) is Element,
        Selector::Type(tag) => match doc.node_data(node) {
            NodeData::Element { name } => name@ == tag@,
            _ => false,
        },
        Selector::Descendant(ancestor, tag) => element_named(doc, node, tag@) && has_ancestor_named(
            doc,
            node,
            ancestor@,
        ),
    }
}

/// The last declaration of property `p` in a declaration block.
pub open spec fn last_declaration(ds: Seq<Declaration>, p: PropertyId) -> Option<Declaration>
    decreases ds.len(),
{
    if ds.len() == 0 {
        None
    } else if property_of(ds.last()) == p {
        Some(ds.last())
    } else {
        last_declaration(ds.drop_last(), p)
    }
}

/// The declaration of `p` that wins the cascade among `rules` for `node`, with
/// its specificity: the highest specificity wins, and among equals the one
/// declared last.
pub open spec fn cascaded(rules: Seq<Rule>, doc: Document, node: int, p: PropertyId) -> Option<
    (u32, Declaration),
>
    decreases rules.len(),
{
    if rules.len() == 0 {
        None
    } else {
        let earlier = cascaded(rules.drop_last(), doc, node, p);
        let r = rules.last();
        let s = specificity(r.selector);
        if selector_matches(r.selector, doc, node) {
            match last_declaration(r.declarations@, p) {
                Some(d) => match earlier {
                    Some((s0, d0)) => if s0 <= s {
                        Some((s, d))
                    } else {
                        Some((s0, d0))
                    },
                    None => Some((s, d)),
                },
                None => earlier,
            }
        } else {
            earlier
        }
    }
}

/// The values that node `node` inherits: its parent's, or the initial ones at the root.
pub open spec fn inherited_values(parent: Option<ComputedValues>) -> ComputedValues {
    match parent {
        Some(p) => p,
        None => initial_values(),
    }
}

/// The resolved style of `node`, given its parent's resolved style.
pub open spec fn resolved_style(
    rules: Seq<Rule>,
    doc: Document,
    node: int,
    parent: Option<ComputedValues>,
) -> ComputedValues {
    let inh = inherited_values(parent);
    ComputedValues {
        color: ColorProps {
            color: match cascaded(rules, doc, node, PropertyId::Color) {
                Some((_, Declaration::Color(c))) => c,
                _ => inh.color.color,
            },
        },
        font: FontProps {
            font_family: match cascaded(rules, doc, node, PropertyId::FontFamily) {
                Some((_, Declaration::FontFamily(f))) => f,
                _ => inh.font.font_family,
            },
            font_style: match cascaded(rules, doc, node, PropertyId::FontStyle) {
                Some((_, Declaration::FontStyle(f))) => f,
                _ => inh.font.font_style,
            },
            font_weight: match cascaded(rules, doc, node, PropertyId::FontWeight) {
                Some((_, Declaration::FontWeight(f))) => f,
                _ => inh.font.font_weight,
            },
            font_size: match cascaded(rules, doc, node, PropertyId::FontSize) {
                Some((_, Declaration::FontSize(s))) => FontSize(
                    resolved_font_size(s, inh.font.font_size.0),
                ),
                _ => inh.font.font_size,
            },
        },
        background: BackgroundProps {
            background_color: match cascaded(rules, doc, node, PropertyId::BackgroundColor) {
                Some((_, Declaration::BackgroundColor(c))) => c,
                _ => initial_values().background.background_color,
            },
        },
    }
}

/// Inheritance: a node with a parent takes the parent's resolved value for
/// every inherited property that no matching rule declares, and the initial
/// value, whatever the parent holds, for a non-inherited one.
pub proof fn lemma_inheritance(
    rules: Seq<Rule>,
    doc: Document,
    node: int,
    parent: ComputedValues,
)
    ensures
        ({
            let r = resolved_style(rules, doc, node, Some(parent));
            &&& cascaded(rules, doc, node, PropertyId::Color) is None ==> r.color.color
                == parent.color.color
            &&& cascaded(rules, doc, node, PropertyId::FontFamily) is None ==> r.font.font_family
                == parent.font.font_family
            &&& cascaded(rules, doc, node, PropertyId::FontStyle) is None ==> r.font.font_style
                == parent.font.font_style
            &&& cascaded(rules, doc, node, PropertyId::FontWeight) is None ==> r.font.font_weight
                == parent.font.font_weight
            &&& cascaded(rules, doc, node, PropertyId::FontSize) is None ==> r.font.font_size
                == parent.font.font_size
            &&& cascaded(rules, doc, node, PropertyId::BackgroundColor) is None
                ==> r.background.background_color
                == initial_values().background.background_color
        }),
{
}

/// Cascade precedence: of two matching rules that both declare `p`, the one
/// with higher specificity wins whichever comes first, and with equal
/// specificity the later one wins.
pub proof fn lemma_cascade_precedence(
    first: Rule,
    second: Rule,
    doc: Document,
    node: int,
    p: PropertyId,
)
    requires
        selector_matches(first.selector, doc, node),
        selector_matches(second.selector, doc, node),
        last_declaration(first.declarations@, p) is Some,
        last_declaration(second.declarations@, p) is Some,
    ensures
        specificity(first.selector) <= specificity(second.selector) ==> cascaded(
            seq![first, second],
            doc,
            node,
            p,
        ) == Some(
            (specificity(second.selector), last_declaration(second.declarations@, p)->0),
        ),
        specificity(first.selector) > specificity(second.selector) ==> cascaded(
            seq![first, second],
            doc,
            node,
            p,
        ) == Some((specificity(first.selector), last_declaration(first.declarations@, p)->0)),
{
    let two = seq![first, second];
    assert(two.drop_last() =~= seq![first]);
    assert(seq![first].drop_last() =~= Seq::<Rule>::empty());
    assert(cascaded(Seq::<Rule>::empty(), doc, node, p) is None);
    assert(cascaded(seq![first], doc, node, p) == Some(
        (specificity(first.selector), last_declaration(first.declarations@, p)->0),
    ));
}

/// Whether rule `r` applies to `node` and declares `p`.
pub open spec fn declares(r: Rule, doc: Document, node: int, p: PropertyId) -> bool {
    selector_matches(r.selector, doc, node) && last_declaration(r.declarations@, p) is Some
}

proof fn lemma_cascaded_bound(rules: Seq<Rule>, doc: Document, node: int, p: PropertyId, b: u32)
    requires
        forall|k: int|
            0 <= k < rules.len() && declares(#[trigger] rules[k], doc, node, p) ==> specificity(
                rules[k].selector,
            ) <= b,
    ensures
        cascaded(rules, doc, node, p) matches Some((s, _)) ==> s <= b,
    decreases rules.len(),
{
    if rules.len() > 0 {
        let pre = rules.drop_last();
        assert forall|k: int| 0 <= k < pre.len() && declares(#[trigger] pre[k], doc, node, p) implies specificity(
            pre[k].selector,
        ) <= b by {
            assert(pre[k] == rules[k]);
        }
        lemma_cascaded_bound(pre, doc, node, p, b);
        assert(declares(rules[rules.len() - 1], doc, node, p) ==> specificity(
            rules.last().selector,
        ) <= b);
    }
}

/// Cascade precedence over any list of rules: among the rules that match and
/// declare `p`, the winner is the one of highest specificity, and of several
/// with that specificity the one declared last, wherever the others stand.
pub proof fn lemma_cascade_winner(rules: Seq<Rule>, doc: Document, node: int, p: PropertyId, j: int)
    requires
        0 <= j < rules.len(),
        declares(rules[j], doc, node, p),
        forall|k: int|
            0 <= k < rules.len() && declares(#[trigger] rules[k], doc, node, p) ==> specificity(
                rules[k].selector,
            ) <= specificity(rules[j].selector),
        forall|k: int|
            j < k < rules.len() && declares(#[trigger] rules[k], doc, node, p) ==> specificity(
                rules[k].selector,
            ) < specificity(rules[j].selector),
    ensures
        cascaded(rules, doc, node, p) == Some(
            (specificity(rules[j].selector), last_declaration(rules[j].declarations@, p)->0),
        ),
    decreases rules.len(),
{
    let pre = rules.drop_last();
    let sj = specificity(rules[j].selector);
    if j == rules.len() - 1 {
        assert forall|k: int| 0 <= k < pre.len() && declares(#[trigger] pre[k], doc, node, p) implies specificity(
            pre[k].selector,
        ) <= sj by {
            assert(pre[k] == rules[k]);
        }
        lemma_cascaded_bound(pre, doc, node, p, sj);
    } else {
        assert(pre[j] == rules[j]);
        assert forall|k: int| 0 <= k < pre.len() && declares(#[trigger] pre[k], doc, node, p) implies specificity(
            pre[k].selector,
        ) <= sj by {
            assert(pre[k] == rules[k]);
        }
        assert forall|k: int| j < k < pre.len() && declares(#[trigger] pre[k], doc, node, p) implies specificity(
            pre[k].selector,
        ) < sj by {
            assert(pre[k] == rules[k]);
        }
        lemma_cascade_winner(pre, doc, node, p, j);
        assert(declares(rules[rules.len() - 1], doc, node, p) ==> specificity(
            rules.last().selector,
        ) < sj);
    }
}

/// Makes an owned copy of a declaration.
pub fn copy_declaration(d: &Declaration) -> (r: Declaration)
    ensures
        r == *d,
{
    match d {
        Declaration::Color(c) => Declaration::Color(*c),
        Declaration::BackgroundColor(c) => Declaration::BackgroundColor(*c),
        Declaration::FontFamily(f) => Declaration::FontFamily(copy_family(f)),
        Declaration::FontStyle(f) => Declaration::FontStyle(*f),
        Declaration::FontWeight(f) => Declaration::FontWeight(*f),
        Declaration::FontSize(s) => Declaration::FontSize(*s),
    }
}

pub fn declaration_property(d: &Declaration) -> (r: PropertyId)
    ensures
        r == property_of(*d),
{
    match d {
        Declaration::Color(_) => PropertyId::Color,
        Declaration::BackgroundColor(_) => PropertyId::BackgroundColor,
        Declaration::FontFamily(_) => PropertyId::FontFamily,
        Declaration::FontStyle(_) => PropertyId::FontStyle,
        Declaration::FontWeight(_) => PropertyId::FontWeight,
        Declaration::FontSize(_) => PropertyId::FontSize,
    }
}

impl Selector {
    pub fn specificity(&self) -> (r: u32)
        ensures
            r == specificity(*self),
    {
        match self {
            Selector::Universal => 0,
            Selector::Type(_) => 1,
            Selector::Descendant(_, _) => 2,
        }
    }

    pub fn matches(&self, doc: &Document, node: NodeId) -> (r: bool)
        requires
            doc.wf(),
            node < doc.len(),
        ensures
            r == selector_matches(*self, *doc, node as int),
    {
        match self {
            Selector::Universal => match doc.data(node) {
                NodeData::Element { .. } => true,
                _ => false,
            },
            Selector::Type(tag) => is_element_named(doc, node, tag),
            Selector::Descendant(ancestor, tag) => is_element_named(doc, node, tag)
                && has_ancestor(doc, node, ancestor),
        }
    }
}

/// Whether node `n` is an element with tag name `tag`.
pub fn is_element_named(doc: &Document, n: NodeId, tag: &String) -> (r: bool)
    requires
        doc.wf(),
        n < doc.len(),
    ensures
        r == element_named(*doc, n as int, tag@),
{
    match doc.data(n) {
        NodeData::Element { name } => name.eq(tag),
        _ => false,
    }
}

/// Whether some proper ancestor of node `n` is an element with tag name `tag`.
pub fn has_ancestor(doc: &Document, n: NodeId, tag: &String) -> (r: bool)
    requires
        doc.wf(),
        n < doc.len(),
    ensures
        r == has_ancestor_named(*doc, n as int, tag@),
{
    let mut cur: NodeId = n;
    proof {
        doc.lemma_links(cur as int);
    }
    while cur > 0
        invariant
            doc.wf(),
            cur <= n < doc.len(),
            has_ancestor_named(*doc, n as int, tag@) == has_ancestor_named(*doc, cur as int, tag@),
        decreases cur,
    {
        proof {
            doc.lemma_links(cur as int);
        }
        match doc.parent(cur) {
            Some(p) => {
                if is_element_named(doc, p, tag) {
                    return true;
                }
                cur = p;
            },
            None => {
                return false;
            },
        }
    }
    false
}

/// The last declaration of `p` in `ds`.
pub fn find_last_declaration(ds: &Vec<Declaration>, p: PropertyId) -> (r: Option<Declaration>)
    ensures
        r == last_declaration(ds@, p),
{
    let mut i: usize = ds.len();
    assert(ds@.take(i as int) =~= ds@);
    while i > 0
        invariant
            i <= ds@.len(),
            last_declaration(ds@, p) == last_declaration(ds@.take(i as int), p),
        decreases i,
    {
        let ghost pre = ds@.take(i as int);
        assert(pre.drop_last() =~= ds@.take(i - 1));
        if declaration_property(&ds[i - 1]) == p {
            return Some(copy_declaration(&ds[i - 1]));
        }
        i = i - 1;
    }
    assert(ds@.take(0) =~= Seq::<Declaration>::empty());
    None
}

/// The winning declaration of `p` for `node`, with its specificity.
pub fn cascade_property(rules: &Vec<Rule>, doc: &Document, node: NodeId, p: PropertyId) -> (r:
    Option<(u32, Declaration)>)
    requires
        doc.wf(),
        node < doc.len(),
    ensures
        r == cascaded(rules@, *doc, node as int, p),
{
    let mut best: Option<(u32, Declaration)> = None;
    let mut i: usize = 0;
    while i < rules.len()
        invariant
            i <= rules@.len(),
            doc.wf(),
            node < doc.len(),
            best == cascaded(rules@.take(i as int), *doc, node as int, p),
        decreases rules@.len() - i,
    {
        let ghost next = rules@.take(i + 1);
        assert(next.drop_last() =~= rules@.take(i as int));
        assert(next.last() == rules@[i as int]);
        let rule = &rules[i];
        if rule.selector.matches(doc, node) {
            let s = rule.selector.specificity();
            match find_last_declaration(&rule.declarations, p) {
                Some(d) => {
                    let replace = match &best {
                        Some((s0, _)) => *s0 <= s,
                        None => true,
                    };
                    if replace {
                        best = Some((s, d));
                    }
                },
                None => {},
            }
        }
        i = i + 1;
    }
    assert(rules@.take(rules@.len() as int) =~= rules@);
    best
}

impl StyleSet {
    pub fn new() -> (r: StyleSet)
        ensures
            r.rules@.len() == 0,
    {
        StyleSet { rules: Vec::new() }
    }

    /// Appends a rule after all earlier ones.
    pub fn add_rule(&mut self, rule: Rule)
        ensures
            final(self).rules@ == old(self).rules@.push(rule),
    {
        self.rules.push(rule);
    }
}

/// Resolves the style of `node_id`: the winning declarations of the matching
/// rules, over the parent's values for inherited properties (the initial ones
/// without a parent) and the initial values for non-inherited ones; a relative
/// font size is resolved against the inherited size.
pub fn style_for_element(
    author_styles: &StyleSet,
    document: &Document,
    node_id: NodeId,
    parent: Option<&ComputedValues>,
) -> (r: ComputedValues)
    requires
        document.wf(),
        node_id < document.len(),
    ensures
        r == resolved_style(
            author_styles.rules@,
            *document,
            node_id as int,
            match parent {
                Some(p) => Some(*p),
                None => None,
            },
        ),
{
    let inh = match parent {
        Some(p) => p.copy(),
        None => ComputedValues::initial(),
    };
    let rules = &author_styles.rules;
    let color = match cascade_property(rules, document, node_id, PropertyId::Color) {
        Some((_, Declaration::Color(c))) => c,
        _ => inh.color.color,
    };
    let font_family = match cascade_property(rules, document, node_id, PropertyId::FontFamily) {
        Some((_, Declaration::FontFamily(f))) => f,
        _ => inh.font.font_family,
    };
    let font_style = match cascade_property(rules, document, node_id, PropertyId::FontStyle) {
        Some((_, Declaration::FontStyle(f))) => f,
        _ => inh.font.font_style,
    };
    let font_weight = match cascade_property(rules, document, node_id, PropertyId::FontWeight) {
        Some((_, Declaration::FontWeight(f))) => f,
        _ => inh.font.font_weight,
    };
    let font_size = match cascade_property(rules, document, node_id, PropertyId::FontSize) {
        Some((_, Declaration::FontSize(s))) => FontSize::early_from_specified(
            &s,
            &inh.font.font_size,
        ),
        _ => inh.font.font_size,
    };
    let background_color = match cascade_property(
        rules,
        document,
        node_id,
        PropertyId::BackgroundColor,
    ) {
        Some((_, Declaration::BackgroundColor(c))) => c,
        _ => Rgba(0, 0, 0, 0),
    };
    ComputedValues {
        color: ColorProps { color },
        font: FontProps { font_family, font_style, font_weight, font_size },
        background: BackgroundProps { background_color },
    }
}

} // verus!
