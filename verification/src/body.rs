//! The body side of the component tree: raw pass-through content, the
//! accordion text leaf, the closed set of body components, and the body
//! container itself.  Every render states its exact output text.

use vstd::prelude::*;
use vstd::string::*;
use crate::attributes::pairs_map;
use crate::attributes::Attributes;
use crate::context::Context;
use crate::header::Header;
use crate::parser::Element;
use crate::parser::Node;
use crate::size::spec_parse;
use crate::size::Size;
use crate::strutil::is_prefix;
use crate::strutil::starts_with;
use crate::tag::attrs_str;
use crate::tag::style_attr;
use crate::tag::tag_close;
use crate::tag::tag_open;
use crate::tag::tag_render;

verus! {

/// A structural fault that aborts the whole compilation.
#[derive(Clone, Debug)]
pub enum RenderError {
    /// A tag stood where the document may not put it.
    UnexpectedElement(String),
}

/// Content kept as it stands in the source: text, comments, and plain
/// markup the dialect does not interpret.
pub enum RawElement {
    Comment(String),
    Text(String),
    Node(RawNode),
}

/// An uninterpreted element, emitted as it was written.
pub struct RawNode {
    pub tag: String,
    pub attributes: Vec<(String, String)>,
    pub children: Vec<RawElement>,
}

/// Exact output of one raw element.
pub open spec fn raw_render(e: RawElement, keep_comments: bool) -> Seq<char>
    decreases e,
{
    match e {
        RawElement::Text(t) => t@,
        RawElement::Comment(c) => if keep_comments {
            "<!--"@ + c@ + "-->"@
        } else {
            Seq::<char>::empty()
        },
        RawElement::Node(n) => if n.children@.len() == 0 {
            "<"@ + n.tag@ + attrs_str(n.attributes.deep_view()) + " />"@
        } else {
            "<"@ + n.tag@ + attrs_str(n.attributes.deep_view()) + ">"@ + raws_render(
                n.children@,
                n.children@.len() as int,
                keep_comments,
            ) + tag_close(n.tag@)
        },
    }
}

/// Exact output of the first `k` raw elements, in order.
pub open spec fn raws_render(s: Seq<RawElement>, k: int, keep_comments: bool) -> Seq<char>
    decreases s, k,
{
    if k <= 0 || k > s.len() {
        Seq::<char>::empty()
    } else {
        raws_render(s, k - 1, keep_comments) + raw_render(s[k - 1], keep_comments)
    }
}

pub fn clone_pairs(v: &Vec<(String, String)>) -> (r: Vec<(String, String)>)
    ensures
        r@ == v@,
{
    let mut out: Vec<(String, String)> = Vec::new();
    let n = v.len();
    let mut i: usize = 0;
    while i < n
        invariant
            n == v@.len(),
            i <= n,
            out@ =~= v@.take(i as int),
        decreases n - i,
    {
        out.push((v[i].0.clone(), v[i].1.clone()));
        proof {
            assert(out@ =~= v@.take(i + 1));
        }
        i = i + 1;
    }
    proof {
        assert(v@.take(n as int) =~= v@);
    }
    out
}


/// May this element stand as raw content?  With `only_raw`, a dialect
/// tag (name starting `mj-`) anywhere in the subtree is refused.
pub open spec fn raw_ok(e: Element, only_raw: bool) -> bool
    decreases e,
{
    match e {
        Element::Text(_) => true,
        Element::Comment(_) => true,
        Element::Node(n) => !(only_raw && is_prefix("mj-"@, n.name@)) && (forall|i: int|
            0 <= i < n.children@.len() ==> raw_ok(#[trigger] n.children@[i], only_raw)),
    }
}

/// The raw reading of a source element: tag name, attributes and
/// children carried over verbatim, in order.
pub open spec fn raw_matches(e: Element, r: RawElement) -> bool
    decreases e,
{
    match e {
        Element::Text(t) => r == RawElement::Text(t),
        Element::Comment(c) => r == RawElement::Comment(c),
        Element::Node(n) => r is Node && (r->Node_0).tag == n.name && (r->Node_0).attributes@
            == n.attributes@ && (r->Node_0).children@.len() == n.children@.len() && (forall|i: int|
            0 <= i < n.children@.len() ==> raw_matches(
                #[trigger] n.children@[i],
                (r->Node_0).children@[i],
            )),
    }
}

impl RawElement {
    /// Take one source element over as raw content.  With `only_raw`
    /// set, a dialect tag (name starting `mj-`) is a structural fault.
    #[verifier::loop_isolation(false)]
    pub fn conditional_parse(element: &Element, header: &Header, only_raw: bool) -> (r: Result<
        RawElement,
        RenderError,
    >)
        ensures
            (r is Ok) == raw_ok(*element, only_raw),
            match r {
                Ok(e) => raw_matches(*element, e),
                Err(_) => true,
            },
        decreases *element,
    {
        match element {
            Element::Text(t) => Ok(RawElement::Text(t.clone())),
            Element::Comment(c) => Ok(RawElement::Comment(c.clone())),
            Element::Node(n) => {
                if only_raw && starts_with(n.name.as_str(), "mj-") {
                    return Err(RenderError::UnexpectedElement(n.name.clone()));
                }
                let mut children: Vec<RawElement> = Vec::new();
                let cn = n.children.len();
                let mut i: usize = 0;
                while i < cn
                    invariant
                        cn == n.children@.len(),
                        i <= cn,
                        children@.len() == i,
                        forall|j: int|
                            0 <= j < i ==> raw_ok(#[trigger] n.children@[j], only_raw),
                        forall|j: int|
                            0 <= j < i ==> raw_matches(#[trigger] n.children@[j], children@[j]),
                    decreases cn - i,
                {
                    let child = match RawElement::conditional_parse(&n.children[i], header, only_raw) {
                        Ok(c) => c,
                        Err(e) => {
                            assert(!raw_ok(*element, only_raw)) by {
                                assert(!raw_ok(n.children@[i as int], only_raw));
                            }
                            return Err(e);
                        },
                    };
                    children.push(child);
                    i = i + 1;
                }
                let out = RawElement::Node(
                    RawNode {
                        tag: n.name.clone(),
                        attributes: clone_pairs(&n.attributes),
                        children,
                    },
                );
                proof {
                    assert(raw_matches(*element, out));
                    assert(raw_ok(*element, only_raw));
                }
                Ok(out)
            },
        }
    }

    /// Emit this raw content exactly as `raw_render` states.
    #[verifier::loop_isolation(false)]
    pub fn render(&self, header: &Header) -> (r: Result<String, RenderError>)
        ensures
            match r {
                Ok(s) => s@ == raw_render(*self, header.keep_comments_spec()),
                Err(_) => false,
            },
        decreases *self,
    {
        match self {
            RawElement::Text(t) => Ok(t.clone()),
            RawElement::Comment(c) => {
                if header.keep_comments() {
                    let mut out = String::new();
                    out.append("<!--");
                    out.append(c.as_str());
                    out.append("-->");
                    proof {
                        assert(out@ =~= raw_render(*self, header.keep_comments_spec()));
                    }
                    Ok(out)
                } else {
                    let out = String::new();
                    proof {
                        assert(out@ =~= raw_render(*self, header.keep_comments_spec()));
                    }
                    Ok(out)
                }
            },
            RawElement::Node(n) => {
                let mut out = String::new();
                out.append("<");
                out.append(n.tag.as_str());
                crate::tag::push_attrs(&mut out, &n.attributes);
                if n.children.len() == 0 {
                    out.append(" />");
                    proof {
                        assert(out@ =~= raw_render(*self, header.keep_comments_spec()));
                    }
                    Ok(out)
                } else {
                    out.append(">");
                    let cn = n.children.len();
                    let mut i: usize = 0;
                    while i < cn
                        invariant
                            cn == n.children@.len(),
                            n == self->Node_0,
                            out@ == "<"@ + n.tag@ + attrs_str(n.attributes.deep_view()) + ">"@
                                + raws_render(
                                n.children@,
                                i as int,
                                header.keep_comments_spec(),
                            ),
                            i <= cn,
                        decreases cn - i,
                    {
                        let piece = n.children[i].render(header)?;
                        out.append(piece.as_str());
                        proof {
                            assert(out@ =~= "<"@ + n.tag@ + attrs_str(n.attributes.deep_view())
                                + ">"@ + raws_render(
                                n.children@,
                                i + 1,
                                header.keep_comments_spec(),
                            ));
                        }
                        i = i + 1;
                    }
                    out.append("</");
                    out.append(n.tag.as_str());
                    out.append(">");
                    proof {
                        assert(out@ =~= raw_render(*self, header.keep_comments_spec()));
                    }
                    Ok(out)
                }
            },
        }
    }
}

/// One optional inline style, fed by one attribute.
pub open spec fn maybe_style(
    m: Map<Seq<char>, Seq<char>>,
    attr: Seq<char>,
    css: Seq<char>,
) -> Seq<(Seq<char>, Seq<char>)> {
    if m.contains_key(attr) {
        seq![(css, m[attr])]
    } else {
        Seq::<(Seq<char>, Seq<char>)>::empty()
    }
}

/// One optional output attribute, fed by one source attribute.
pub open spec fn maybe_attr(
    m: Map<Seq<char>, Seq<char>>,
    attr: Seq<char>,
    out: Seq<char>,
) -> Seq<(Seq<char>, Seq<char>)> {
    if m.contains_key(attr) {
        seq![(out, m[attr])]
    } else {
        Seq::<(Seq<char>, Seq<char>)>::empty()
    }
}

/// Append the style named `css` when the attribute `attr` is present.
pub fn maybe_push_style(
    styles: &mut Vec<(String, String)>,
    attrs: &Attributes,
    attr: &str,
    css: &str,
)
    requires
        attrs.wf(),
    ensures
        final(styles).deep_view() == old(styles).deep_view() + maybe_style(
            attrs.as_map(),
            attr@,
            css@,
        ),
{
    match attrs.get(attr) {
        Some(v) => {
            styles.push((css.to_owned(), v));
            proof {
                assert(final(styles).deep_view() =~= old(styles).deep_view() + maybe_style(
                    attrs.as_map(),
                    attr@,
                    css@,
                ));
            }
        },
        None => {
            proof {
                assert(final(styles).deep_view() =~= old(styles).deep_view() + maybe_style(
                    attrs.as_map(),
                    attr@,
                    css@,
                ));
            }
        },
    }
}

/// Append the output attribute `out` when the attribute `attr` is present.
pub fn maybe_push_attr(
    pairs: &mut Vec<(String, String)>,
    attrs: &Attributes,
    attr: &str,
    out: &str,
)
    requires
        attrs.wf(),
    ensures
        final(pairs).deep_view() == old(pairs).deep_view() + maybe_attr(
            attrs.as_map(),
            attr@,
            out@,
        ),
{
    match attrs.get(attr) {
        Some(v) => {
            pairs.push((out.to_owned(), v));
            proof {
                assert(final(pairs).deep_view() =~= old(pairs).deep_view() + maybe_attr(
                    attrs.as_map(),
                    attr@,
                    out@,
                ));
            }
        },
        None => {
            proof {
                assert(final(pairs).deep_view() =~= old(pairs).deep_view() + maybe_attr(
                    attrs.as_map(),
                    attr@,
                    out@,
                ));
            }
        },
    }
}

/// Emit `<name attrs style>content</name>`.
pub fn render_tag(
    name: &str,
    attrs: &Vec<(String, String)>,
    styles: &Vec<(String, String)>,
    content: &str,
) -> (r: String)
    ensures
        r@ == tag_render(name@, attrs.deep_view(), styles.deep_view(), content@),
{
    let mut out = String::new();
    out.append("<");
    out.append(name);
    crate::tag::push_attrs(&mut out, attrs);
    crate::tag::push_style_attr(&mut out, styles);
    out.append(">");
    out.append(content);
    out.append("</");
    out.append(name);
    out.append(">");
    proof {
        assert(out@ =~= tag_render(name@, attrs.deep_view(), styles.deep_view(), content@));
    }
    out
}




/// A well-formed dimension list: one to four space-separated values,
/// each a dimension the grammar accepts.
pub open spec fn dim_list_valid(s: Seq<char>) -> bool {
    1 <= crate::strutil::space_words_from(s, 0).len() <= 4 && (forall|k: int|
        0 <= k < crate::strutil::space_words_from(s, 0).len() ==> spec_parse(
            #[trigger] crate::strutil::space_words_from(s, 0)[k],
        ) is Some)
}

/// Exec test of `dim_list_valid`.
#[verifier::loop_isolation(false)]
pub fn dim_list_ok(s: &str) -> (r: bool)
    ensures
        r == dim_list_valid(s@),
{
    let words = crate::strutil::split_spaces(s);
    let n = words.len();
    if n < 1 || n > 4 {
        return false;
    }
    let mut k: usize = 0;
    while k < n
        invariant
            n == words@.len(),
            words.deep_view() == crate::strutil::space_words_from(s@, 0),
            k <= n,
            forall|j: int|
                0 <= j < k ==> spec_parse(
                    #[trigger] crate::strutil::space_words_from(s@, 0)[j],
                ) is Some,
        decreases n - k,
    {
        assert(words.deep_view()[k as int] == words@[k as int]@);
        if Size::parse(words[k].as_str()).is_err() {
            return false;
        }
        k = k + 1;
    }
    true
}

/// One optional style fed by a dimension-list attribute: a present but
/// malformed value degrades to absent, per the tolerated-error policy.
pub open spec fn maybe_dims_style(
    m: Map<Seq<char>, Seq<char>>,
    attr: Seq<char>,
    css: Seq<char>,
) -> Seq<(Seq<char>, Seq<char>)> {
    if m.contains_key(attr) && dim_list_valid(m[attr]) {
        seq![(css, m[attr])]
    } else {
        Seq::<(Seq<char>, Seq<char>)>::empty()
    }
}

/// One optional style fed by a single-dimension attribute, under the
/// same degrade-on-failure policy.
pub open spec fn maybe_size_style(
    m: Map<Seq<char>, Seq<char>>,
    attr: Seq<char>,
    css: Seq<char>,
) -> Seq<(Seq<char>, Seq<char>)> {
    if m.contains_key(attr) && spec_parse(m[attr]) is Some {
        seq![(css, m[attr])]
    } else {
        Seq::<(Seq<char>, Seq<char>)>::empty()
    }
}

/// Append the style named `css` when `attr` holds a well-formed
/// dimension list.
pub fn maybe_push_dims_style(
    styles: &mut Vec<(String, String)>,
    attrs: &Attributes,
    attr: &str,
    css: &str,
)
    requires
        attrs.wf(),
    ensures
        final(styles).deep_view() == old(styles).deep_view() + maybe_dims_style(
            attrs.as_map(),
            attr@,
            css@,
        ),
{
    match attrs.get(attr) {
        Some(v) => {
            if dim_list_ok(v.as_str()) {
                styles.push((css.to_owned(), v));
            }
            proof {
                assert(final(styles).deep_view() =~= old(styles).deep_view() + maybe_dims_style(
                    attrs.as_map(),
                    attr@,
                    css@,
                ));
            }
        },
        None => {
            proof {
                assert(final(styles).deep_view() =~= old(styles).deep_view() + maybe_dims_style(
                    attrs.as_map(),
                    attr@,
                    css@,
                ));
            }
        },
    }
}

/// Append the style named `css` when `attr` holds one well-formed
/// dimension.
pub fn maybe_push_size_style(
    styles: &mut Vec<(String, String)>,
    attrs: &Attributes,
    attr: &str,
    css: &str,
)
    requires
        attrs.wf(),
    ensures
        final(styles).deep_view() == old(styles).deep_view() + maybe_size_style(
            attrs.as_map(),
            attr@,
            css@,
        ),
{
    match attrs.get_size(attr) {
        Some(_) => {
            match attrs.get(attr) {
                Some(v) => {
                    styles.push((css.to_owned(), v));
                },
                None => {},
            }
            proof {
                assert(final(styles).deep_view() =~= old(styles).deep_view() + maybe_size_style(
                    attrs.as_map(),
                    attr@,
                    css@,
                ));
            }
        },
        None => {
            proof {
                assert(final(styles).deep_view() =~= old(styles).deep_view() + maybe_size_style(
                    attrs.as_map(),
                    attr@,
                    css@,
                ));
            }
        },
    }
}

/// Styles of the accordion text cell, one per present attribute.
pub open spec fn td_styles(m: Map<Seq<char>, Seq<char>>) -> Seq<(Seq<char>, Seq<char>)> {
    maybe_style(m, "background-color"@, "background"@) + maybe_style(m, "color"@, "color"@)
        + maybe_style(m, "font-family"@, "font-family"@) + maybe_style(m, "font-size"@, "font-size"@)
        + maybe_dims_style(m, "padding"@, "padding"@) + maybe_size_style(
        m,
        "padding-top"@,
        "padding-top"@,
    ) + maybe_size_style(m, "padding-right"@, "padding-right"@) + maybe_size_style(
        m,
        "padding-bottom"@,
        "padding-bottom"@,
    ) + maybe_size_style(m, "padding-left"@, "padding-left"@)
}


/// The resolved attribute set of an accordion text pane: intrinsic
/// defaults, the document-declared defaults, the attributes a parent
/// forces, and the node's own attributes, in increasing precedence.
pub open spec fn accordion_attrs(
    node: Node,
    defaults: crate::header::DefaultAttributes,
    extra: Map<Seq<char>, Seq<char>>,
) -> Map<Seq<char>, Seq<char>> {
    Map::<Seq<char>, Seq<char>>::empty().insert("font-size"@, "13px"@).insert(
        "padding"@,
        "16px"@,
    ).union_prefer_right(defaults.all_map()).union_prefer_right(
        defaults.tag_map(node.name@),
    ).union_prefer_right(defaults.class_map(pairs_map(node.attributes@))).union_prefer_right(
        extra,
    ).union_prefer_right(pairs_map(node.attributes@))
}

/// The text pane of an accordion entry.
pub struct MJAccordionText {
    attributes: Attributes,
    context: Option<Context>,
    children: Vec<RawElement>,
}

impl MJAccordionText {
    pub closed spec fn attrs_map(self) -> Map<Seq<char>, Seq<char>> {
        self.attributes.as_map()
    }

    pub closed spec fn children_view(self) -> Seq<RawElement> {
        self.children@
    }

    pub closed spec fn context_spec(self) -> Option<Context> {
        self.context
    }

    pub closed spec fn wf(self) -> bool {
        self.attributes.wf()
    }

    /// Exact output of the content cell.
    pub open spec fn spec_render_content(self, keep_comments: bool) -> Seq<char> {
        tag_render(
            "td"@,
            maybe_attr(self.attrs_map(), "css-class"@, "class"@),
            td_styles(self.attrs_map()),
            raws_render(self.children_view(), self.children_view().len() as int, keep_comments),
        )
    }

    /// Exact output: a content cell inside a one-row table inside the
    /// accordion content wrapper.
    pub open spec fn spec_render(self, keep_comments: bool) -> Seq<char> {
        let tr = tag_render("tr"@, Seq::empty(), Seq::empty(), self.spec_render_content(keep_comments));
        let tbody = tag_render("tbody"@, Seq::empty(), Seq::empty(), tr);
        let table = tag_render(
            "table"@,
            seq![("cellspacing"@, "0"@), ("cellpadding"@, "0"@)],
            seq![("width"@, "100%"@)] + maybe_style(self.attrs_map(), "border"@, "border-bottom"@),
            tbody,
        );
        tag_render("div"@, seq![("class"@, "mj-accordion-content"@)], Seq::empty(), table)
    }

    /// Intrinsic defaults merged with the document-declared ones.
    fn default_attributes(node: &Node, header: &Header) -> (r: Attributes)
        requires
            header.wf(),
        ensures
            r.wf(),
            r.as_map() == Map::<Seq<char>, Seq<char>>::empty().insert("font-size"@, "13px"@).insert(
                "padding"@,
                "16px"@,
            ).union_prefer_right(header.defaults_spec().all_map()).union_prefer_right(
                header.defaults_spec().tag_map(node.name@),
            ).union_prefer_right(
                header.defaults_spec().class_map(pairs_map(node.attributes@)),
            ),
    {
        let base = Attributes::new().add("font-size", "13px").add("padding", "16px");
        header.default_attributes().get_attributes(node, base)
    }

    /// Read one accordion text pane from its node.  Any other tag name
    /// is a structural fault; the children are taken as raw content,
    /// so a dialect tag among them is a structural fault too.
    #[verifier::loop_isolation(false)]
    pub fn parse(node: &Node, header: &Header, attrs: &Attributes) -> (r: Result<
        MJAccordionText,
        RenderError,
    >)
        requires
            header.wf(),
            attrs.wf(),
        ensures
            (r is Ok) == (node.name@ == "mj-accordion-text"@ && (forall|i: int|
                0 <= i < node.children@.len() ==> raw_ok(#[trigger] node.children@[i], true))),
            match r {
                Ok(e) => node.name@ == "mj-accordion-text"@ && e.wf() && e.context_spec() is None
                    && e.attrs_map() == accordion_attrs(*node, header.defaults_spec(), attrs.as_map())
                    && e.children_view().len() == node.children@.len() && (forall|i: int|
                    0 <= i < node.children@.len() ==> raw_matches(
                        #[trigger] node.children@[i],
                        e.children_view()[i],
                    )),
                Err(_) => true,
            },
            node.name@ != "mj-accordion-text"@ ==> r == Err::<MJAccordionText, RenderError>(
                RenderError::UnexpectedElement(node.name),
            ),
    {
        let expected: String = String::from_str("mj-accordion-text");
        if !(node.name == expected) {
            return Err(RenderError::UnexpectedElement(node.name.clone()));
        }
        let attributes = Self::default_attributes(node, header).concat(attrs).concat_pairs(
            &node.attributes,
        );
        let ghost amap = attributes.as_map();
        let mut element = MJAccordionText::new(attributes);
        let cn = node.children.len();
        let mut i: usize = 0;
        while i < cn
            invariant
                cn == node.children@.len(),
                i <= cn,
                element.wf(),
                element.context_spec() is None,
                element.attrs_map() == amap,
                element.children_view().len() == i,
                forall|j: int| 0 <= j < i ==> raw_ok(#[trigger] node.children@[j], true),
                forall|j: int|
                    0 <= j < i ==> raw_matches(
                        #[trigger] node.children@[j],
                        element.children_view()[j],
                    ),
            decreases cn - i,
        {
            let child = match RawElement::conditional_parse(&node.children[i], header, true) {
                Ok(c) => c,
                Err(e) => {
                    return Err(e);
                },
            };
            element.children.push(child);
            i = i + 1;
        }
        Ok(element)
    }

    /// An accordion text pane with these resolved attributes and no
    /// content yet.
    pub fn new(attributes: Attributes) -> (r: MJAccordionText)
        ensures
            r.attrs_map() == attributes.as_map(),
            r.wf() == attributes.wf(),
            r.children_view() == Seq::<RawElement>::empty(),
            r.context_spec() is None,
    {
        MJAccordionText { attributes, context: None, children: Vec::new() }
    }

    /// Look one resolved attribute up.
    pub fn get_attribute(&self, name: &str) -> (r: Option<String>)
        requires
            self.wf(),
        ensures
            match r {
                Some(v) => self.attrs_map().contains_key(name@) && v@ == self.attrs_map()[name@],
                None => !self.attrs_map().contains_key(name@),
            },
    {
        self.attributes.get(name)
    }

    /// Contribute this pane's font family to the aggregator.
    pub fn update_header(&self, header: &mut Header)
        requires
            self.wf(),
            old(header).wf(),
        ensures
            final(header).wf(),
            final(header).fonts_view() == (if self.attrs_map().contains_key("font-family"@) {
                crate::header::fonts_after(
                    old(header).fonts_view(),
                    old(header).registry_view(),
                    crate::strutil::csv_from(self.attrs_map()["font-family"@], 0),
                    0,
                )
            } else {
                old(header).fonts_view()
            }),
            final(header).mq_view() == old(header).mq_view(),
            final(header).styles_view() == old(header).styles_view(),
            final(header).title_view() == old(header).title_view(),
            final(header).preview_view() == old(header).preview_view(),
            final(header).breakpoint_spec() == old(header).breakpoint_spec(),
            final(header).registry_view() == old(header).registry_view(),
            final(header).defaults_spec() == old(header).defaults_spec(),
            final(header).keep_comments_spec() == old(header).keep_comments_spec(),
    {
        match self.attributes.get("font-family") {
            Some(v) => {
                header.add_font_families(v.as_str());
            },
            None => {},
        }
    }

    pub fn context(&self) -> (r: &Option<Context>)
        ensures
            *r == self.context_spec(),
    {
        &self.context
    }

    pub fn set_context(&mut self, ctx: Context)
        ensures
            final(self).context_spec() == Some(ctx),
            final(self).attrs_map() == old(self).attrs_map(),
            final(self).children_view() == old(self).children_view(),
            final(self).wf() == old(self).wf(),
    {
        self.context = Some(ctx);
    }

    /// This leaf derives no width of its own.
    pub fn get_current_width(&self) -> (r: Option<Size>)
        ensures
            r is None,
    {
        None
    }

    /// Concatenated raw content.
    #[verifier::loop_isolation(false)]
    fn render_children(&self, header: &Header) -> (r: Result<String, RenderError>)
        ensures
            match r {
                Ok(s) => s@ == raws_render(
                    self.children_view(),
                    self.children_view().len() as int,
                    header.keep_comments_spec(),
                ),
                Err(_) => false,
            },
    {
        let mut out = String::new();
        let cn = self.children.len();
        let mut i: usize = 0;
        while i < cn
            invariant
                cn == self.children@.len(),
                i <= cn,
                out@ == raws_render(self.children@, i as int, header.keep_comments_spec()),
            decreases cn - i,
        {
            let piece = self.children[i].render(header)?;
            out.append(piece.as_str());
            proof {
                assert(out@ =~= raws_render(self.children@, i + 1, header.keep_comments_spec()));
            }
            i = i + 1;
        }
        Ok(out)
    }

    /// The content cell, exactly as `spec_render_content` states.
    fn render_content(&self, header: &Header) -> (r: Result<String, RenderError>)
        requires
            self.wf(),
        ensures
            match r {
                Ok(s) => s@ == self.spec_render_content(header.keep_comments_spec()),
                Err(_) => false,
            },
    {
        let content = self.render_children(header)?;
        let mut attrs: Vec<(String, String)> = Vec::new();
        maybe_push_attr(&mut attrs, &self.attributes, "css-class", "class");
        let mut styles: Vec<(String, String)> = Vec::new();
        maybe_push_style(&mut styles, &self.attributes, "background-color", "background");
        maybe_push_style(&mut styles, &self.attributes, "color", "color");
        maybe_push_style(&mut styles, &self.attributes, "font-family", "font-family");
        maybe_push_style(&mut styles, &self.attributes, "font-size", "font-size");
        maybe_push_dims_style(&mut styles, &self.attributes, "padding", "padding");
        maybe_push_size_style(&mut styles, &self.attributes, "padding-top", "padding-top");
        maybe_push_size_style(&mut styles, &self.attributes, "padding-right", "padding-right");
        maybe_push_size_style(&mut styles, &self.attributes, "padding-bottom", "padding-bottom");
        maybe_push_size_style(&mut styles, &self.attributes, "padding-left", "padding-left");
        proof {
            assert(attrs.deep_view() =~= maybe_attr(self.attrs_map(), "css-class"@, "class"@));
            assert(styles.deep_view() =~= td_styles(self.attrs_map()));
        }
        let out = render_tag("td", &attrs, &styles, content.as_str());
        Ok(out)
    }

    /// The whole pane, exactly as `spec_render` states.
    pub fn render(&self, header: &Header) -> (r: Result<String, RenderError>)
        requires
            self.wf(),
        ensures
            match r {
                Ok(s) => s@ == self.spec_render(header.keep_comments_spec()),
                Err(_) => false,
            },
    {
        let content = self.render_content(header)?;
        let none_attrs: Vec<(String, String)> = Vec::new();
        let none_styles: Vec<(String, String)> = Vec::new();
        proof {
            assert(none_attrs.deep_view() =~= Seq::<(Seq<char>, Seq<char>)>::empty());
            assert(none_styles.deep_view() =~= Seq::<(Seq<char>, Seq<char>)>::empty());
        }
        let tr = render_tag("tr", &none_attrs, &none_styles, content.as_str());
        let tbody = render_tag("tbody", &none_attrs, &none_styles, tr.as_str());
        let mut table_attrs: Vec<(String, String)> = Vec::new();
        table_attrs.push((String::from_str("cellspacing"), String::from_str("0")));
        table_attrs.push((String::from_str("cellpadding"), String::from_str("0")));
        let mut table_styles: Vec<(String, String)> = Vec::new();
        table_styles.push((String::from_str("width"), String::from_str("100%")));
        maybe_push_style(&mut table_styles, &self.attributes, "border", "border-bottom");
        proof {
            assert(table_attrs.deep_view() =~= seq![
                ("cellspacing"@, "0"@),
                ("cellpadding"@, "0"@),
            ]);
            assert(table_styles.deep_view() =~= seq![("width"@, "100%"@)] + maybe_style(
                self.attrs_map(),
                "border"@,
                "border-bottom"@,
            ));
        }
        let table = render_tag("table", &table_attrs, &table_styles, tbody.as_str());
        let mut div_attrs: Vec<(String, String)> = Vec::new();
        div_attrs.push((String::from_str("class"), String::from_str("mj-accordion-content")));
        proof {
            assert(div_attrs.deep_view() =~= seq![("class"@, "mj-accordion-content"@)]);
        }
        let div = render_tag("div", &div_attrs, &none_styles, table.as_str());
        Ok(div)
    }
}



/// The closed set of body components.
pub enum BodyElement {
    AccordionText(MJAccordionText),
    Raw(RawElement),
}

/// Exact output of one body component.
pub open spec fn body_elem_render(e: BodyElement, keep_comments: bool) -> Seq<char> {
    match e {
        BodyElement::AccordionText(a) => a.spec_render(keep_comments),
        BodyElement::Raw(r) => raw_render(r, keep_comments),
    }
}

/// Exact output of the first `k` body components, in order.
pub open spec fn body_elems_render(s: Seq<BodyElement>, k: int, keep_comments: bool) -> Seq<char>
    decreases k,
{
    if k <= 0 || k > s.len() {
        Seq::<char>::empty()
    } else {
        body_elems_render(s, k - 1, keep_comments) + body_elem_render(s[k - 1], keep_comments)
    }
}

pub open spec fn body_elem_wf(e: BodyElement) -> bool {
    match e {
        BodyElement::AccordionText(a) => a.wf(),
        BodyElement::Raw(_) => true,
    }
}


/// May this source element stand as a body child?  A known dialect tag
/// must carry valid raw content; an unknown dialect tag is refused;
/// everything else passes through.
pub open spec fn body_elem_ok(e: Element) -> bool {
    match e {
        Element::Node(n) => if n.name@ == "mj-accordion-text"@ {
            forall|i: int| 0 <= i < n.children@.len() ==> raw_ok(#[trigger] n.children@[i], true)
        } else if is_prefix("mj-"@, n.name@) {
            false
        } else {
            raw_ok(e, false)
        },
        _ => true,
    }
}

/// The typed reading of one body child from its source element, with
/// the document defaults and the attributes a parent forces.
pub open spec fn body_elem_matches(
    e: Element,
    be: BodyElement,
    defaults: crate::header::DefaultAttributes,
    extra: Map<Seq<char>, Seq<char>>,
) -> bool {
    match e {
        Element::Node(n) => if n.name@ == "mj-accordion-text"@ {
            be is AccordionText && (be->AccordionText_0).wf() && (be->AccordionText_0).attrs_map()
                == accordion_attrs(n, defaults, extra) && (be->AccordionText_0).children_view().len()
                == n.children@.len() && (forall|i: int|
                0 <= i < n.children@.len() ==> raw_matches(
                    #[trigger] n.children@[i],
                    (be->AccordionText_0).children_view()[i],
                ))
        } else {
            be is Raw && raw_matches(e, be->Raw_0)
        },
        _ => be is Raw && raw_matches(e, be->Raw_0),
    }
}

impl BodyElement {
    /// Typed construction of one body child.  A known dialect tag
    /// becomes its component; an unknown dialect tag is a structural
    /// fault; anything else passes through as raw content.
    pub fn parse(element: &Element, header: &Header, extra: Option<&Attributes>) -> (r: Result<
        BodyElement,
        RenderError,
    >)
        requires
            header.wf(),
            match extra {
                Some(a) => a.wf(),
                None => true,
            },
        ensures
            (r is Ok) == body_elem_ok(*element),
            match r {
                Ok(e) => body_elem_wf(e) && body_elem_matches(
                    *element,
                    e,
                    header.defaults_spec(),
                    (match extra {
                        Some(a) => a.as_map(),
                        None => Map::<Seq<char>, Seq<char>>::empty(),
                    }),
                ),
                Err(_) => true,
            },
            (match element {
                Element::Node(n) => is_prefix("mj-"@, n.name@) && n.name@ != "mj-accordion-text"@,
                _ => false,
            }) ==> r == Err::<BodyElement, RenderError>(
                RenderError::UnexpectedElement(element->Node_0.name),
            ),
    {
        match element {
            Element::Node(n) => {
                let accordion_text: String = String::from_str("mj-accordion-text");
                if n.name == accordion_text {
                    let empty_attrs = Attributes::new();
                    let at = match extra {
                        Some(a) => MJAccordionText::parse(n, header, a)?,
                        None => MJAccordionText::parse(n, header, &empty_attrs)?,
                    };
                    Ok(BodyElement::AccordionText(at))
                } else if starts_with(n.name.as_str(), "mj-") {
                    Err(RenderError::UnexpectedElement(n.name.clone()))
                } else {
                    let raw = RawElement::conditional_parse(element, header, false)?;
                    Ok(BodyElement::Raw(raw))
                }
            },
            _ => {
                let raw = RawElement::conditional_parse(element, header, false)?;
                Ok(BodyElement::Raw(raw))
            },
        }
    }

    /// Does this child occupy no layout space?
    pub fn is_raw(&self) -> (r: bool)
        ensures
            r == (self is Raw),
    {
        matches!(self, BodyElement::Raw(_))
    }

    /// Contribute to the metadata aggregator.
    pub fn update_header(&self, header: &mut Header)
        requires
            body_elem_wf(*self),
            old(header).wf(),
        ensures
            final(header).wf(),
            final(header).fonts_view() == crate::body::elem_fonts(
                old(header).fonts_view(),
                old(header).registry_view(),
                *self,
            ),
            final(header).mq_view() == old(header).mq_view(),
            final(header).styles_view() == old(header).styles_view(),
            final(header).title_view() == old(header).title_view(),
            final(header).preview_view() == old(header).preview_view(),
            final(header).breakpoint_spec() == old(header).breakpoint_spec(),
            final(header).registry_view() == old(header).registry_view(),
            final(header).defaults_spec() == old(header).defaults_spec(),
            final(header).keep_comments_spec() == old(header).keep_comments_spec(),
    {
        match self {
            BodyElement::AccordionText(a) => a.update_header(header),
            BodyElement::Raw(_) => {},
        }
    }

    /// Receive this child's layout context.  Only the stored context
    /// changes: kind, attributes, content and rendered output stay as
    /// they were.
    pub fn set_context(&mut self, ctx: Context)
        ensures
            body_elem_wf(*final(self)) == body_elem_wf(*old(self)),
            (*final(self) is AccordionText) == (*old(self) is AccordionText),
            *old(self) is Raw ==> *final(self) == *old(self),
            *old(self) is AccordionText ==> (final(self)->AccordionText_0).context_spec() == Some(
                ctx,
            ) && (final(self)->AccordionText_0).attrs_map() == (
            old(self)->AccordionText_0).attrs_map() && (
            final(self)->AccordionText_0).children_view() == (
            old(self)->AccordionText_0).children_view(),
            forall|k: bool| body_elem_render(*final(self), k) == body_elem_render(*old(self), k),
    {
        match self {
            BodyElement::AccordionText(a) => {
                a.set_context(ctx);
                proof {
                    assert forall|k: bool|
                        body_elem_render(*final(self), k) == body_elem_render(*old(self), k) by {
                        let x = self->AccordionText_0;
                        let y = old(self)->AccordionText_0;
                        assert(x.attrs_map() == y.attrs_map());
                        assert(x.children_view() == y.children_view());
                        assert(x.spec_render_content(k) == y.spec_render_content(k));
                    }
                }
            },
            BodyElement::Raw(_) => {},
        }
    }

    /// Emit this child, exactly as `body_elem_render` states.
    pub fn render(&self, header: &Header) -> (r: Result<String, RenderError>)
        requires
            body_elem_wf(*self),
        ensures
            match r {
                Ok(s) => s@ == body_elem_render(*self, header.keep_comments_spec()),
                Err(_) => false,
            },
    {
        match self {
            BodyElement::AccordionText(a) => a.render(header),
            BodyElement::Raw(r) => r.render(header),
        }
    }
}

/// The fonts an element contributes to the accumulator.
pub open spec fn elem_fonts(
    fonts: Seq<Seq<char>>,
    reg: Seq<(Seq<char>, Seq<char>)>,
    e: BodyElement,
) -> Seq<Seq<char>> {
    match e {
        BodyElement::AccordionText(a) => if a.attrs_map().contains_key("font-family"@) {
            crate::header::fonts_after(
                fonts,
                reg,
                crate::strutil::csv_from(a.attrs_map()["font-family"@], 0),
                0,
            )
        } else {
            fonts
        },
        BodyElement::Raw(_) => fonts,
    }
}

/// The fonts the first `k` elements contribute, in order.
pub open spec fn elems_fonts(
    fonts: Seq<Seq<char>>,
    reg: Seq<(Seq<char>, Seq<char>)>,
    s: Seq<BodyElement>,
    k: int,
) -> Seq<Seq<char>>
    decreases k,
{
    if k <= 0 || k > s.len() {
        fonts
    } else {
        elem_fonts(elems_fonts(fonts, reg, s, k - 1), reg, s[k - 1])
    }
}

/// Fixed styles of the hidden preview block.
pub open spec fn preview_styles() -> Seq<(Seq<char>, Seq<char>)> {
    seq![
        ("display"@, "none"@),
        ("font-size"@, "1px"@),
        ("color"@, "#ffffff"@),
        ("line-height"@, "1px"@),
        ("max-height"@, "0px"@),
        ("max-width"@, "0px"@),
        ("opacity"@, "0"@),
        ("overflow"@, "hidden"@),
    ]
}


/// How many of the first `k` children occupy no layout space.
pub open spec fn raw_count(s: Seq<BodyElement>, k: int) -> int
    decreases k,
{
    if k <= 0 || k > s.len() {
        0
    } else {
        raw_count(s, k - 1) + (if s[k - 1] is Raw {
            1int
        } else {
            0int
        })
    }
}


/// Counting raw children only looks at each child's kind.
pub proof fn lemma_raw_count_congruent(a: Seq<BodyElement>, b: Seq<BodyElement>, k: int)
    requires
        a.len() == b.len(),
        forall|i: int| 0 <= i < a.len() ==> ((#[trigger] a[i]) is Raw == (#[trigger] b[i]) is Raw),
    ensures
        raw_count(a, k) == raw_count(b, k),
    decreases k,
{
    if k > 0 && k <= a.len() {
        lemma_raw_count_congruent(a, b, k - 1);
    }
}


/// A body whose children only received contexts still reads as the
/// same typed parse of its node: kinds, attributes and content decide
/// the reading, and contexts touch none of them.
pub proof fn lemma_body_parsed_stable(
    node: Node,
    defaults: crate::header::DefaultAttributes,
    b0: MJBody,
    b1: MJBody,
)
    requires
        body_parsed(node, defaults, b0),
        b1.wf(),
        b1.exists_spec() == b0.exists_spec(),
        b1.attrs_map() == b0.attrs_map(),
        b1.children_view().len() == b0.children_view().len(),
        forall|i: int|
            0 <= i < b0.children_view().len() ==> ((#[trigger] b1.children_view()[i])
                is AccordionText == (b0.children_view()[i]) is AccordionText),
        forall|i: int|
            0 <= i < b0.children_view().len() && (#[trigger] b0.children_view()[i]) is Raw
                ==> b1.children_view()[i] == b0.children_view()[i],
        forall|i: int|
            0 <= i < b0.children_view().len() && (#[trigger] b0.children_view()[i])
                is AccordionText ==> (b1.children_view()[i]->AccordionText_0).attrs_map() == (
            b0.children_view()[i]->AccordionText_0).attrs_map() && (
            b1.children_view()[i]->AccordionText_0).children_view() == (
            b0.children_view()[i]->AccordionText_0).children_view(),
    ensures
        body_parsed(node, defaults, b1),
{
    assert forall|i: int| 0 <= i < node.children@.len() implies body_elem_matches(
        #[trigger] node.children@[i],
        b1.children_view()[i],
        defaults,
        Map::<Seq<char>, Seq<char>>::empty(),
    ) by {
        assert(body_elem_matches(
            node.children@[i],
            b0.children_view()[i],
            defaults,
            Map::<Seq<char>, Seq<char>>::empty(),
        ));
        if b0.children_view()[i] is Raw {
            assert(b1.children_view()[i] == b0.children_view()[i]);
        } else {
            assert(body_elem_wf(b1.children_view()[i]));
        }
    }
}

/// The resolved attribute set of the body: its intrinsic width
/// default, the document-declared defaults, and the node's own
/// attributes, in increasing precedence.
pub open spec fn body_attrs(
    node: Node,
    defaults: crate::header::DefaultAttributes,
) -> Map<Seq<char>, Seq<char>> {
    Map::<Seq<char>, Seq<char>>::empty().insert("width"@, "600px"@).union_prefer_right(
        defaults.all_map(),
    ).union_prefer_right(defaults.tag_map(node.name@)).union_prefer_right(
        defaults.class_map(pairs_map(node.attributes@)),
    ).union_prefer_right(pairs_map(node.attributes@))
}

/// The typed reading of the body from its node: attributes resolved,
/// every child read in order.
pub open spec fn body_parsed(
    node: Node,
    defaults: crate::header::DefaultAttributes,
    b: MJBody,
) -> bool {
    b.wf() && b.exists_spec() && b.attrs_map() == body_attrs(node, defaults)
        && b.children_view().len() == node.children@.len() && (forall|i: int|
        0 <= i < node.children@.len() ==> body_elem_matches(
            #[trigger] node.children@[i],
            b.children_view()[i],
            defaults,
            Map::<Seq<char>, Seq<char>>::empty(),
        ))
}

/// The document body: wraps its children in the `<body>` scaffolding.
pub struct MJBody {
    attributes: Attributes,
    context: Option<Context>,
    children: Vec<BodyElement>,
    exists: bool,
}

impl MJBody {
    pub closed spec fn attrs_map(self) -> Map<Seq<char>, Seq<char>> {
        self.attributes.as_map()
    }

    pub closed spec fn children_view(self) -> Seq<BodyElement> {
        self.children@
    }

    pub closed spec fn context_spec(self) -> Option<Context> {
        self.context
    }

    pub closed spec fn exists_spec(self) -> bool {
        self.exists
    }

    pub closed spec fn wf(self) -> bool {
        self.attributes.wf() && (forall|i: int|
            0 <= i < self.children@.len() ==> body_elem_wf(#[trigger] self.children@[i]))
    }

    /// The body's background style, applied to its scaffolding.
    pub open spec fn body_styles(self) -> Seq<(Seq<char>, Seq<char>)> {
        maybe_style(self.attrs_map(), "background-color"@, "background-color"@)
    }

    /// Exact output of the hidden preview block.
    pub open spec fn spec_render_preview(h: crate::header::Header) -> Seq<char> {
        match h.preview_view() {
            None => Seq::<char>::empty(),
            Some(p) => tag_render("div"@, Seq::empty(), preview_styles(), p),
        }
    }

    /// Exact output of the whole body.
    pub open spec fn spec_render(self, h: crate::header::Header) -> Seq<char> {
        let open = tag_open("body"@, Seq::empty(), self.body_styles());
        let close = tag_close("body"@);
        let preview = Self::spec_render_preview(h);
        if self.exists_spec() {
            let div_open = tag_open(
                "div"@,
                maybe_attr(self.attrs_map(), "css-class"@, "class"@),
                self.body_styles(),
            );
            open + preview + div_open + body_elems_render(
                self.children_view(),
                self.children_view().len() as int,
                h.keep_comments_spec(),
            ) + tag_close("div"@) + close
        } else {
            open + preview + close
        }
    }

    /// A body for a document without a body section: it renders only
    /// the scaffolding.
    pub fn empty() -> (r: MJBody)
        ensures
            r.wf(),
            r.attrs_map() == Map::<Seq<char>, Seq<char>>::empty(),
            r.children_view() == Seq::<BodyElement>::empty(),
            r.context_spec() is None,
            !r.exists_spec(),
    {
        let r = MJBody {
            attributes: Attributes::new(),
            children: Vec::new(),
            context: None,
            exists: false,
        };
        proof {
            assert(r.children_view() =~= Seq::<BodyElement>::empty());
        }
        r
    }

    /// Intrinsic defaults merged with the document-declared ones.
    fn default_attributes(node: &Node, header: &Header) -> (r: Attributes)
        requires
            header.wf(),
        ensures
            r.wf(),
            r.as_map() == Map::<Seq<char>, Seq<char>>::empty().insert(
                "width"@,
                "600px"@,
            ).union_prefer_right(header.defaults_spec().all_map()).union_prefer_right(
                header.defaults_spec().tag_map(node.name@),
            ).union_prefer_right(
                header.defaults_spec().class_map(pairs_map(node.attributes@)),
            ),
    {
        let base = Attributes::new().add("width", "600px");
        header.default_attributes().get_attributes(node, base)
    }

    /// Read the body from its node: every child becomes a typed
    /// component, and the node's own attributes override the defaults.
    #[verifier::loop_isolation(false)]
    pub fn parse(node: &Node, header: &Header) -> (r: Result<MJBody, RenderError>)
        requires
            header.wf(),
        ensures
            (r is Ok) == (forall|i: int|
                0 <= i < node.children@.len() ==> body_elem_ok(#[trigger] node.children@[i])),
            match r {
                Ok(b) => b.context_spec() is None && body_parsed(
                    *node,
                    header.defaults_spec(),
                    b,
                ),
                Err(_) => true,
            },
    {
        let mut children: Vec<BodyElement> = Vec::new();
        let cn = node.children.len();
        let mut i: usize = 0;
        while i < cn
            invariant
                cn == node.children@.len(),
                i <= cn,
                children@.len() == i,
                forall|j: int| 0 <= j < i ==> body_elem_ok(#[trigger] node.children@[j]),
                forall|j: int|
                    0 <= j < i ==> body_elem_matches(
                        #[trigger] node.children@[j],
                        children@[j],
                        header.defaults_spec(),
                        Map::<Seq<char>, Seq<char>>::empty(),
                    ),
                forall|j: int| 0 <= j < i ==> body_elem_wf(#[trigger] children@[j]),
            decreases cn - i,
        {
            let child = match BodyElement::parse(&node.children[i], header, None) {
                Ok(c) => c,
                Err(e) => {
                    assert(!body_elem_ok(node.children@[i as int]));
                    return Err(e);
                },
            };
            children.push(child);
            i = i + 1;
        }
        let attributes = Self::default_attributes(node, header).concat_pairs(&node.attributes);
        let b = MJBody { attributes, children, context: None, exists: true };
        proof {
            assert(body_parsed(*node, header.defaults_spec(), b));
        }
        Ok(b)
    }

    /// Look one resolved attribute up.
    pub fn get_attribute(&self, name: &str) -> (r: Option<String>)
        requires
            self.wf(),
        ensures
            match r {
                Some(v) => self.attrs_map().contains_key(name@) && v@ == self.attrs_map()[name@],
                None => !self.attrs_map().contains_key(name@),
            },
    {
        self.attributes.get(name)
    }

    /// The body's own width as a value: its `width` attribute when
    /// that parses as a dimension; a malformed value degrades to none.
    pub open spec fn width_spec(self) -> Option<Size> {
        if self.attrs_map().contains_key("width"@) {
            spec_parse(self.attrs_map()["width"@])
        } else {
            Option::<Size>::None
        }
    }

    /// The body's own width: its `width` attribute when that parses as
    /// a dimension; a malformed value degrades to none.
    pub fn get_current_width(&self) -> (r: Option<Size>)
        requires
            self.wf(),
        ensures
            r == self.width_spec(),
            match r {
                Some(w) => w.wf(),
                None => true,
            },
    {
        self.attributes.get_size("width")
    }

    pub fn context(&self) -> (r: &Option<Context>)
        ensures
            *r == self.context_spec(),
    {
        &self.context
    }

    /// The typed children, in document order.
    pub fn get_children(&self) -> (r: &Vec<BodyElement>)
        ensures
            r@ == self.children_view(),
    {
        &self.children
    }

    /// Let every child contribute to the aggregator, in order.
    #[verifier::loop_isolation(false)]
    pub fn update_header(&self, header: &mut Header)
        requires
            self.wf(),
            old(header).wf(),
        ensures
            final(header).wf(),
            final(header).fonts_view() == elems_fonts(
                old(header).fonts_view(),
                old(header).registry_view(),
                self.children_view(),
                self.children_view().len() as int,
            ),
            final(header).mq_view() == old(header).mq_view(),
            final(header).styles_view() == old(header).styles_view(),
            final(header).title_view() == old(header).title_view(),
            final(header).preview_view() == old(header).preview_view(),
            final(header).breakpoint_spec() == old(header).breakpoint_spec(),
            final(header).registry_view() == old(header).registry_view(),
            final(header).defaults_spec() == old(header).defaults_spec(),
            final(header).keep_comments_spec() == old(header).keep_comments_spec(),
    {
        let cn = self.children.len();
        let mut i: usize = 0;
        while i < cn
            invariant
                cn == self.children@.len(),
                i <= cn,
                header.wf(),
                header.fonts_view() == elems_fonts(
                    old(header).fonts_view(),
                    old(header).registry_view(),
                    self.children_view(),
                    i as int,
                ),
                header.mq_view() == old(header).mq_view(),
                header.styles_view() == old(header).styles_view(),
                header.title_view() == old(header).title_view(),
                header.preview_view() == old(header).preview_view(),
                header.breakpoint_spec() == old(header).breakpoint_spec(),
                header.registry_view() == old(header).registry_view(),
                header.defaults_spec() == old(header).defaults_spec(),
                header.keep_comments_spec() == old(header).keep_comments_spec(),
            decreases cn - i,
        {
            self.children[i].update_header(header);
            i = i + 1;
        }
    }

    /// Assign this body its context and derive each child's: every
    /// child receives the body's own width (undivided), the sibling
    /// count, the count of raw siblings, and its position, from which
    /// a child derives its share.
    #[verifier::loop_isolation(false)]
    pub fn set_context(&mut self, ctx: Context)
        requires
            old(self).wf(),
        ensures
            final(self).wf(),
            final(self).context_spec() == Some(ctx),
            final(self).attrs_map() == old(self).attrs_map(),
            final(self).exists_spec() == old(self).exists_spec(),
            final(self).children_view().len() == old(self).children_view().len(),
            forall|i: int|
                0 <= i < old(self).children_view().len() ==> ((
                #[trigger] final(self).children_view()[i]) is AccordionText == (
                old(self).children_view()[i]) is AccordionText),
            forall|i: int|
                0 <= i < old(self).children_view().len() && (
                #[trigger] old(self).children_view()[i]) is Raw ==> final(self).children_view()[i]
                    == old(self).children_view()[i],
            forall|i: int|
                0 <= i < old(self).children_view().len() && (
                #[trigger] old(self).children_view()[i]) is AccordionText ==> (
                final(self).children_view()[i]->AccordionText_0).context_spec() == Some(
                    (Context {
                        width: old(self).width_spec(),
                        siblings: old(self).children_view().len() as usize,
                        raw_siblings: raw_count(
                            old(self).children_view(),
                            old(self).children_view().len() as int,
                        ) as usize,
                        index: i as usize,
                    }),
                ) && (final(self).children_view()[i]->AccordionText_0).attrs_map() == (
                old(self).children_view()[i]->AccordionText_0).attrs_map() && (
                final(self).children_view()[i]->AccordionText_0).children_view() == (
                old(self).children_view()[i]->AccordionText_0).children_view(),
            forall|k: bool| final(self).spec_render_inner(k) == old(self).spec_render_inner(k),
    {
        self.context = Some(ctx);
        let width = self.get_current_width();
        let siblings = self.children.len();
        let mut raw_siblings: usize = 0;
        let cn = self.children.len();
        let mut i: usize = 0;
        while i < cn
            invariant
                cn == self.children@.len(),
                i <= cn,
                raw_siblings == raw_count(self.children@, i as int),
                raw_siblings <= i,
            decreases cn - i,
        {
            if self.children[i].is_raw() {
                raw_siblings = raw_siblings + 1;
            }
            i = i + 1;
        }
        assert(raw_siblings == raw_count(old(self).children_view(), cn as int));
        let child_base = Context::new(width, siblings, raw_siblings, 0);
        let mut idx: usize = 0;
        while idx < cn
            invariant
                cn == self.children@.len(),
                cn == old(self).children@.len(),
                idx <= cn,
                self.wf(),
                self.context == Some(ctx),
                self.attrs_map() == old(self).attrs_map(),
                self.exists == old(self).exists,
                child_base.width == old(self).width_spec(),
                child_base.siblings == cn,
                child_base.raw_siblings == raw_count(old(self).children_view(), cn as int),
                forall|j: int|
                    idx <= j < cn ==> #[trigger] self.children@[j] == old(self).children@[j],
                forall|j: int|
                    0 <= j < idx ==> ((#[trigger] self.children@[j]) is AccordionText == (
                    old(self).children@[j]) is AccordionText),
                forall|j: int|
                    0 <= j < idx && (#[trigger] old(self).children@[j]) is Raw
                        ==> self.children@[j] == old(self).children@[j],
                forall|j: int|
                    0 <= j < idx && (#[trigger] old(self).children@[j]) is AccordionText ==> (
                    self.children@[j]->AccordionText_0).context_spec() == Some(
                        (Context {
                            width: old(self).width_spec(),
                            siblings: cn as usize,
                            raw_siblings: raw_count(old(self).children_view(), cn as int) as usize,
                            index: j as usize,
                        }),
                    ) && (self.children@[j]->AccordionText_0).attrs_map() == (
                    old(self).children@[j]->AccordionText_0).attrs_map() && (
                    self.children@[j]->AccordionText_0).children_view() == (
                    old(self).children@[j]->AccordionText_0).children_view(),
                forall|k: bool| #![auto]
                    body_elems_render(self.children@, cn as int, k) == body_elems_render(
                        old(self).children@,
                        cn as int,
                        k,
                    ),
            decreases cn - idx,
        {
            let ctx_i = child_base.set_index(idx);
            let ghost before = self.children@;
            let child = &mut self.children[idx];
            child.set_context(ctx_i);
            proof {
                assert forall|k: bool| #![auto]
                    body_elems_render(self.children@, cn as int, k) == body_elems_render(
                        before,
                        cn as int,
                        k,
                    ) by {
                    lemma_elems_render_pointwise(self.children@, before, cn as int, k);
                }
            }
            idx = idx + 1;
        }
    }

    /// The children's concatenated output, independent of contexts.
    pub open spec fn spec_render_inner(self, keep_comments: bool) -> Seq<char> {
        body_elems_render(self.children_view(), self.children_view().len() as int, keep_comments)
    }

    /// Exact output of the hidden preview block for this aggregator.
    pub fn render_preview(&self, header: &Header) -> (r: String)
        ensures
            r@ == Self::spec_render_preview(*header),
    {
        match header.preview() {
            None => String::new(),
            Some(p) => {
                let none_attrs: Vec<(String, String)> = Vec::new();
                let mut styles: Vec<(String, String)> = Vec::new();
                styles.push((String::from_str("display"), String::from_str("none")));
                styles.push((String::from_str("font-size"), String::from_str("1px")));
                styles.push((String::from_str("color"), String::from_str("#ffffff")));
                styles.push((String::from_str("line-height"), String::from_str("1px")));
                styles.push((String::from_str("max-height"), String::from_str("0px")));
                styles.push((String::from_str("max-width"), String::from_str("0px")));
                styles.push((String::from_str("opacity"), String::from_str("0")));
                styles.push((String::from_str("overflow"), String::from_str("hidden")));
                proof {
                    assert(none_attrs.deep_view() =~= Seq::<(Seq<char>, Seq<char>)>::empty());
                    assert(styles.deep_view() =~= preview_styles());
                }
                render_tag("div", &none_attrs, &styles, p.as_str())
            },
        }
    }

    /// Emit the whole body, exactly as `spec_render` states.
    #[verifier::loop_isolation(false)]
    pub fn render(&self, header: &Header) -> (r: Result<String, RenderError>)
        requires
            self.wf(),
        ensures
            match r {
                Ok(s) => s@ == self.spec_render(*header),
                Err(_) => false,
            },
    {
        let mut body_styles: Vec<(String, String)> = Vec::new();
        maybe_push_style(&mut body_styles, &self.attributes, "background-color", "background-color");
        proof {
            assert(body_styles.deep_view() =~= self.body_styles());
        }
        let mut out = String::new();
        out.append("<");
        out.append("body");
        crate::tag::push_style_attr(&mut out, &body_styles);
        out.append(">");
        proof {
            assert(out@ =~= tag_open("body"@, Seq::empty(), self.body_styles())) by {
                assert(attrs_str(Seq::<(Seq<char>, Seq<char>)>::empty()) =~= Seq::<char>::empty());
                assert(out@ =~= "<"@ + "body"@ + attrs_str(Seq::empty()) + style_attr(
                    self.body_styles(),
                ) + ">"@);
            }
        }
        let preview = self.render_preview(header);
        out.append(preview.as_str());
        if self.exists {
            let mut div_attrs: Vec<(String, String)> = Vec::new();
            maybe_push_attr(&mut div_attrs, &self.attributes, "css-class", "class");
            proof {
                assert(div_attrs.deep_view() =~= maybe_attr(self.attrs_map(), "css-class"@, "class"@));
            }
            let mut div_open = String::new();
            div_open.append("<");
            div_open.append("div");
            crate::tag::push_attrs(&mut div_open, &div_attrs);
            crate::tag::push_style_attr(&mut div_open, &body_styles);
            div_open.append(">");
            proof {
                assert(div_open@ =~= tag_open(
                    "div"@,
                    maybe_attr(self.attrs_map(), "css-class"@, "class"@),
                    self.body_styles(),
                ));
            }
            out.append(div_open.as_str());
            let ghost prefix = out@;
            let cn = self.children.len();
            let mut i: usize = 0;
            while i < cn
                invariant
                    cn == self.children@.len(),
                    i <= cn,
                    out@ == prefix + body_elems_render(
                        self.children@,
                        i as int,
                        header.keep_comments_spec(),
                    ),
                decreases cn - i,
            {
                let piece = self.children[i].render(header)?;
                out.append(piece.as_str());
                proof {
                    assert(out@ =~= prefix + body_elems_render(
                        self.children@,
                        i + 1,
                        header.keep_comments_spec(),
                    ));
                }
                i = i + 1;
            }
            out.append("</");
            out.append("div");
            out.append(">");
            proof {
            }
        }
        out.append("</");
        out.append("body");
        out.append(">");
        proof {
            assert(out@ =~= self.spec_render(*header));
        }
        Ok(out)
    }
}

proof fn lemma_elems_render_pointwise(a: Seq<BodyElement>, b: Seq<BodyElement>, k: int, keep: bool)
    requires
        a.len() == b.len(),
        forall|i: int|
            0 <= i < a.len() ==> body_elem_render(#[trigger] a[i], keep) == body_elem_render(
                b[i],
                keep,
            ),
    ensures
        body_elems_render(a, k, keep) == body_elems_render(b, k, keep),
    decreases k,
{
    if k > 0 && k <= a.len() {
        lemma_elems_render_pointwise(a, b, k - 1, keep);
    }
}

} // verus!
