//! The head side of the component tree: the typed head elements and
//! the head container, which owns the metadata aggregator and emits the
//! document head with fonts, the responsive stylesheet, and collected
//! styles.

use vstd::prelude::*;
use vstd::string::*;
use crate::attributes::pairs_get;
use crate::attributes::Attributes;
use crate::body::clone_pairs;
use crate::body::render_tag;
use crate::body::RenderError;
use crate::context::Context;
use crate::header::DefaultAttributes;
use crate::header::Header;
use crate::header::Options;
use crate::parser::Element;
use crate::parser::Node;
use crate::size::Size;
use crate::tag::tag_render;

verus! {

/// The closed set of head components.
pub enum HeadElement {
    Title(String),
    Preview(String),
    MjStyle(String),
    Font { name: String, href: String },
    Breakpoint(String),
}

/// The concatenated text children of a node (the content of title,
/// preview and style elements).
pub open spec fn spec_text_content(s: Seq<Element>, k: int) -> Seq<char>
    decreases k,
{
    if k <= 0 || k > s.len() {
        Seq::<char>::empty()
    } else {
        spec_text_content(s, k - 1) + (match s[k - 1] {
            Element::Text(t) => t@,
            _ => Seq::<char>::empty(),
        })
    }
}

#[verifier::loop_isolation(false)]
fn text_content(node: &Node) -> (r: String)
    ensures
        r@ == spec_text_content(node.children@, node.children@.len() as int),
{
    let mut out = String::new();
    let cn = node.children.len();
    let mut i: usize = 0;
    while i < cn
        invariant
            cn == node.children@.len(),
            i <= cn,
            out@ == spec_text_content(node.children@, i as int),
        decreases cn - i,
    {
        match &node.children[i] {
            Element::Text(t) => {
                out.append(t.as_str());
            },
            _ => {},
        }
        proof {
            assert(out@ =~= spec_text_content(node.children@, i + 1));
        }
        i = i + 1;
    }
    out
}

/// Build an attribute set from raw pairs, skipping one key.
fn attrs_from_pairs_without(pairs: &Vec<(String, String)>, skip: &str) -> (r: Attributes)
    ensures
        r.wf(),
        r.as_map() == crate::attributes::pairs_map_without(pairs@, skip@),
{
    let skip_string: String = skip.to_owned();
    let mut acc = Attributes::new();
    let n = pairs.len();
    let mut i: usize = 0;
    proof {
        assert(pairs@.take(0) =~= Seq::<(String, String)>::empty());
    }
    while i < n
        invariant
            n == pairs@.len(),
            i <= n,
            acc.wf(),
            skip_string@ == skip@,
            acc.as_map() == crate::attributes::pairs_map_without(pairs@.take(i as int), skip@),
        decreases n - i,
    {
        proof {
            assert(pairs@.take(i + 1).drop_last() =~= pairs@.take(i as int));
            assert(pairs@.take(i + 1).last() == pairs@[i as int]);
        }
        if !(pairs[i].0 == skip_string) {
            acc = acc.add(pairs[i].0.as_str(), pairs[i].1.as_str());
        }
        i = i + 1;
    }
    proof {
        assert(pairs@.take(n as int) =~= pairs@);
    }
    acc
}


/// A head component's contribution, at the level of character
/// sequences: what each head element carries.
pub enum HeadItem {
    Title(Seq<char>),
    Preview(Seq<char>),
    MjStyle(Seq<char>),
    Font(Seq<char>, Seq<char>),
    Breakpoint(Seq<char>),
}

/// The aggregator fields the head children determine.
pub struct HeadState {
    pub title: Option<Seq<char>>,
    pub preview: Option<Seq<char>>,
    pub styles: Seq<Seq<char>>,
    pub registry: Seq<(Seq<char>, Seq<char>)>,
    pub breakpoint: Size,
}

/// The head tags the document accepts.
pub open spec fn known_head_tag(name: Seq<char>) -> bool {
    name == "mj-title"@ || name == "mj-preview"@ || name == "mj-style"@ || name == "mj-font"@
        || name == "mj-breakpoint"@ || name == "mj-attributes"@
}

/// May these children stand in a head section?
pub open spec fn head_ok(s: Seq<Element>) -> bool {
    forall|i: int|
        0 <= i < s.len() ==> ((#[trigger] s[i]) is Node ==> known_head_tag((s[i]->Node_0).name@))
}

/// A raw attribute's value, or empty when absent.
pub open spec fn attr_or_empty(m: Map<Seq<char>, Seq<char>>, k: Seq<char>) -> Seq<char> {
    if m.contains_key(k) {
        m[k]
    } else {
        Seq::<char>::empty()
    }
}

/// The contribution of one source element: one item for each content
/// tag, nothing for pass-through text, comments, or the declared
/// defaults (which feed the resolver, not the aggregator).
pub open spec fn head_items_of(e: Element) -> Seq<HeadItem> {
    match e {
        Element::Node(n) => if n.name@ == "mj-title"@ {
            seq![HeadItem::Title(spec_text_content(n.children@, n.children@.len() as int))]
        } else if n.name@ == "mj-preview"@ {
            seq![HeadItem::Preview(spec_text_content(n.children@, n.children@.len() as int))]
        } else if n.name@ == "mj-style"@ {
            seq![HeadItem::MjStyle(spec_text_content(n.children@, n.children@.len() as int))]
        } else if n.name@ == "mj-font"@ {
            seq![
                HeadItem::Font(
                    attr_or_empty(crate::attributes::pairs_map(n.attributes@), "name"@),
                    attr_or_empty(crate::attributes::pairs_map(n.attributes@), "href"@),
                ),
            ]
        } else if n.name@ == "mj-breakpoint"@ {
            seq![
                HeadItem::Breakpoint(
                    attr_or_empty(crate::attributes::pairs_map(n.attributes@), "width"@),
                ),
            ]
        } else {
            Seq::<HeadItem>::empty()
        },
        _ => Seq::<HeadItem>::empty(),
    }
}

/// The contributions of the first `k` children, in order.
pub open spec fn spec_head_items(s: Seq<Element>, k: int) -> Seq<HeadItem>
    decreases k,
{
    if k <= 0 || k > s.len() {
        Seq::<HeadItem>::empty()
    } else {
        spec_head_items(s, k - 1) + head_items_of(s[k - 1])
    }
}

/// What a parsed head component carries.
pub open spec fn head_item_view(he: HeadElement) -> HeadItem {
    match he {
        HeadElement::Title(t) => HeadItem::Title(t@),
        HeadElement::Preview(p) => HeadItem::Preview(p@),
        HeadElement::MjStyle(css) => HeadItem::MjStyle(css@),
        HeadElement::Font { name, href } => HeadItem::Font(name@, href@),
        HeadElement::Breakpoint(w) => HeadItem::Breakpoint(w@),
    }
}

/// One aggregation step: the last title and preview win, styles
/// accumulate once each, fonts extend the registry, and a breakpoint
/// that parses replaces the configured one.
pub open spec fn head_apply(st: HeadState, it: HeadItem) -> HeadState {
    match it {
        HeadItem::Title(t) => HeadState { title: Some(t), ..st },
        HeadItem::Preview(p) => HeadState { preview: Some(p), ..st },
        HeadItem::MjStyle(css) => HeadState {
            styles: crate::header::dedup_push(st.styles, css),
            ..st
        },
        HeadItem::Font(name, href) => HeadState { registry: st.registry.push((name, href)), ..st },
        HeadItem::Breakpoint(w) => HeadState {
            breakpoint: match crate::size::spec_parse(w) {
                Some(s) => s,
                None => st.breakpoint,
            },
            ..st
        },
    }
}

/// The aggregator state after the first `k` items, in order.
pub open spec fn head_fold(st: HeadState, items: Seq<HeadItem>, k: int) -> HeadState
    decreases k,
{
    if k <= 0 || k > items.len() {
        st
    } else {
        head_apply(head_fold(st, items, k - 1), items[k - 1])
    }
}

/// The aggregator state configuration starts from.
pub open spec fn init_head_state(opts: Options) -> HeadState {
    HeadState {
        title: None,
        preview: None,
        styles: Seq::<Seq<char>>::empty(),
        registry: opts.fonts.deep_view(),
        breakpoint: opts.breakpoint,
    }
}


/// The element children of a node, in order.
pub open spec fn node_decls(s: Seq<Element>, k: int) -> Seq<Node>
    decreases k,
{
    if k <= 0 || k > s.len() {
        Seq::<Node>::empty()
    } else {
        node_decls(s, k - 1) + (if s[k - 1] is Node {
            seq![s[k - 1]->Node_0]
        } else {
            Seq::<Node>::empty()
        })
    }
}

/// The declaration nodes of every defaults section among the first `k`
/// children, flattened in order.
pub open spec fn decl_nodes(s: Seq<Element>, k: int) -> Seq<Node>
    decreases k,
{
    if k <= 0 || k > s.len() {
        Seq::<Node>::empty()
    } else {
        decl_nodes(s, k - 1) + (if s[k - 1] is Node && (s[k - 1]->Node_0).name@
            == "mj-attributes"@ {
            node_decls(
                (s[k - 1]->Node_0).children@,
                (s[k - 1]->Node_0).children@.len() as int,
            )
        } else {
            Seq::<Node>::empty()
        })
    }
}

/// The for-every-tag defaults after the first `k` declarations.
pub open spec fn fold_all_decls(
    acc: Map<Seq<char>, Seq<char>>,
    ds: Seq<Node>,
    k: int,
) -> Map<Seq<char>, Seq<char>>
    decreases k,
{
    if k <= 0 || k > ds.len() {
        acc
    } else {
        let m = fold_all_decls(acc, ds, k - 1);
        if ds[k - 1].name@ == "mj-all"@ {
            m.union_prefer_right(
                crate::attributes::pairs_map_without(ds[k - 1].attributes@, Seq::<char>::empty()),
            )
        } else {
            m
        }
    }
}

/// The per-tag defaults entries after the first `k` declarations.
pub open spec fn fold_tag_decls(
    acc: Seq<(Seq<char>, Map<Seq<char>, Seq<char>>)>,
    ds: Seq<Node>,
    k: int,
) -> Seq<(Seq<char>, Map<Seq<char>, Seq<char>>)>
    decreases k,
{
    if k <= 0 || k > ds.len() {
        acc
    } else {
        let t = fold_tag_decls(acc, ds, k - 1);
        if ds[k - 1].name@ != "mj-all"@ && ds[k - 1].name@ != "mj-class"@ {
            t.push(
                (
                    ds[k - 1].name@,
                    crate::attributes::pairs_map_without(
                        ds[k - 1].attributes@,
                        Seq::<char>::empty(),
                    ),
                ),
            )
        } else {
            t
        }
    }
}

/// The per-class defaults entries after the first `k` declarations.
pub open spec fn fold_class_decls(
    acc: Seq<(Seq<char>, Map<Seq<char>, Seq<char>>)>,
    ds: Seq<Node>,
    k: int,
) -> Seq<(Seq<char>, Map<Seq<char>, Seq<char>>)>
    decreases k,
{
    if k <= 0 || k > ds.len() {
        acc
    } else {
        let c = fold_class_decls(acc, ds, k - 1);
        if ds[k - 1].name@ == "mj-class"@ && crate::attributes::pairs_map(
            ds[k - 1].attributes@,
        ).contains_key("name"@) {
            c.push(
                (
                    crate::attributes::pairs_map(ds[k - 1].attributes@)["name"@],
                    crate::attributes::pairs_map_without(ds[k - 1].attributes@, "name"@),
                ),
            )
        } else {
            c
        }
    }
}

/// The declared defaults equal the folds over every defaults section,
/// at the level of names and mappings.
pub open spec fn defaults_match(d: DefaultAttributes, children: Seq<Element>) -> bool {
    let ds = decl_nodes(children, children.len() as int);
    d.all_map() == fold_all_decls(Map::<Seq<char>, Seq<char>>::empty(), ds, ds.len() as int)
        && d.by_tag_view().len() == fold_tag_decls(
        Seq::<(Seq<char>, Map<Seq<char>, Seq<char>>)>::empty(),
        ds,
        ds.len() as int,
    ).len() && (forall|i: int|
        0 <= i < d.by_tag_view().len() ==> (#[trigger] d.by_tag_view()[i]).0 == fold_tag_decls(
            Seq::<(Seq<char>, Map<Seq<char>, Seq<char>>)>::empty(),
            ds,
            ds.len() as int,
        )[i].0 && d.by_tag_view()[i].1.as_map() == fold_tag_decls(
            Seq::<(Seq<char>, Map<Seq<char>, Seq<char>>)>::empty(),
            ds,
            ds.len() as int,
        )[i].1) && d.by_class_view().len() == fold_class_decls(
        Seq::<(Seq<char>, Map<Seq<char>, Seq<char>>)>::empty(),
        ds,
        ds.len() as int,
    ).len() && (forall|i: int|
        0 <= i < d.by_class_view().len() ==> (#[trigger] d.by_class_view()[i]).0
            == fold_class_decls(
            Seq::<(Seq<char>, Map<Seq<char>, Seq<char>>)>::empty(),
            ds,
            ds.len() as int,
        )[i].0 && d.by_class_view()[i].1.as_map() == fold_class_decls(
            Seq::<(Seq<char>, Map<Seq<char>, Seq<char>>)>::empty(),
            ds,
            ds.len() as int,
        )[i].1)
}

proof fn lemma_fold_all_prefix(
    acc: Map<Seq<char>, Seq<char>>,
    a: Seq<Node>,
    b: Seq<Node>,
    k: int,
)
    requires
        k <= a.len(),
        k <= b.len(),
        forall|i: int| 0 <= i < k ==> a[i] == b[i],
    ensures
        fold_all_decls(acc, a, k) == fold_all_decls(acc, b, k),
    decreases k,
{
    if k > 0 {
        lemma_fold_all_prefix(acc, a, b, k - 1);
    }
}

proof fn lemma_fold_tag_prefix(
    acc: Seq<(Seq<char>, Map<Seq<char>, Seq<char>>)>,
    a: Seq<Node>,
    b: Seq<Node>,
    k: int,
)
    requires
        k <= a.len(),
        k <= b.len(),
        forall|i: int| 0 <= i < k ==> a[i] == b[i],
    ensures
        fold_tag_decls(acc, a, k) == fold_tag_decls(acc, b, k),
    decreases k,
{
    if k > 0 {
        lemma_fold_tag_prefix(acc, a, b, k - 1);
    }
}

proof fn lemma_fold_class_prefix(
    acc: Seq<(Seq<char>, Map<Seq<char>, Seq<char>>)>,
    a: Seq<Node>,
    b: Seq<Node>,
    k: int,
)
    requires
        k <= a.len(),
        k <= b.len(),
        forall|i: int| 0 <= i < k ==> a[i] == b[i],
    ensures
        fold_class_decls(acc, a, k) == fold_class_decls(acc, b, k),
    decreases k,
{
    if k > 0 {
        lemma_fold_class_prefix(acc, a, b, k - 1);
    }
}

impl HeadElement {
    /// Read the head children: each known tag becomes its component,
    /// the declared default attributes are collected aside, and an
    /// unknown dialect tag is a structural fault.
    #[verifier::loop_isolation(false)]
    pub fn parse_all(children: &Vec<Element>) -> (r: Result<
        (Vec<HeadElement>, DefaultAttributes),
        RenderError,
    >)
        ensures
            (r is Ok) == head_ok(children@),
            match r {
                Ok(v) => v.1.wf() && v.0@.map_values(|he: HeadElement| head_item_view(he))
                    == spec_head_items(children@, children@.len() as int) && defaults_match(
                    v.1,
                    children@,
                ),
                Err(_) => true,
            },
    {
        let t_title: String = String::from_str("mj-title");
        let t_preview: String = String::from_str("mj-preview");
        let t_style: String = String::from_str("mj-style");
        let t_font: String = String::from_str("mj-font");
        let t_breakpoint: String = String::from_str("mj-breakpoint");
        let t_attributes: String = String::from_str("mj-attributes");
        let mut out: Vec<HeadElement> = Vec::new();
        let mut defaults = DefaultAttributes::new();
        let ghost mut ds_done = Seq::<Node>::empty();
        let n = children.len();
        let mut i: usize = 0;
        proof {
            assert(out@.map_values(|he: HeadElement| head_item_view(he)) =~= spec_head_items(
                children@,
                0,
            ));
            assert(ds_done =~= decl_nodes(children@, 0));
        }
        while i < n
            invariant
                n == children@.len(),
                i <= n,
                defaults.wf(),
                forall|j: int|
                    0 <= j < i ==> ((#[trigger] children@[j]) is Node ==> known_head_tag(
                        (children@[j]->Node_0).name@,
                    )),
                out@.map_values(|he: HeadElement| head_item_view(he)) == spec_head_items(
                    children@,
                    i as int,
                ),
                ds_done == decl_nodes(children@, i as int),
                defaults.all_map() == fold_all_decls(
                    Map::<Seq<char>, Seq<char>>::empty(),
                    ds_done,
                    ds_done.len() as int,
                ),
                defaults.by_tag_view().len() == fold_tag_decls(
                    Seq::<(Seq<char>, Map<Seq<char>, Seq<char>>)>::empty(),
                    ds_done,
                    ds_done.len() as int,
                ).len(),
                forall|j: int|
                    0 <= j < defaults.by_tag_view().len() ==> (
                    #[trigger] defaults.by_tag_view()[j]).0 == fold_tag_decls(
                        Seq::<(Seq<char>, Map<Seq<char>, Seq<char>>)>::empty(),
                        ds_done,
                        ds_done.len() as int,
                    )[j].0 && defaults.by_tag_view()[j].1.as_map() == fold_tag_decls(
                        Seq::<(Seq<char>, Map<Seq<char>, Seq<char>>)>::empty(),
                        ds_done,
                        ds_done.len() as int,
                    )[j].1,
                defaults.by_class_view().len() == fold_class_decls(
                    Seq::<(Seq<char>, Map<Seq<char>, Seq<char>>)>::empty(),
                    ds_done,
                    ds_done.len() as int,
                ).len(),
                forall|j: int|
                    0 <= j < defaults.by_class_view().len() ==> (
                    #[trigger] defaults.by_class_view()[j]).0 == fold_class_decls(
                        Seq::<(Seq<char>, Map<Seq<char>, Seq<char>>)>::empty(),
                        ds_done,
                        ds_done.len() as int,
                    )[j].0 && defaults.by_class_view()[j].1.as_map() == fold_class_decls(
                        Seq::<(Seq<char>, Map<Seq<char>, Seq<char>>)>::empty(),
                        ds_done,
                        ds_done.len() as int,
                    )[j].1,
            decreases n - i,
        {
            proof {
                reveal_strlit("mj-title");
                reveal_strlit("mj-preview");
                reveal_strlit("mj-style");
                reveal_strlit("mj-font");
                reveal_strlit("mj-breakpoint");
                reveal_strlit("mj-attributes");
                assert("mj-attributes"@[3] == 'a');
                assert("mj-breakpoint"@[3] == 'b');
            }
            let ghost items_before = out@.map_values(|he: HeadElement| head_item_view(he));
            match &children[i] {
                Element::Node(node) => {
                    if node.name == t_title {
                        out.push(HeadElement::Title(text_content(node)));
                    } else if node.name == t_preview {
                        out.push(HeadElement::Preview(text_content(node)));
                    } else if node.name == t_style {
                        out.push(HeadElement::MjStyle(text_content(node)));
                    } else if node.name == t_font {
                        let name = match pairs_get(&node.attributes, "name") {
                            Some(v) => v,
                            None => String::new(),
                        };
                        let href = match pairs_get(&node.attributes, "href") {
                            Some(v) => v,
                            None => String::new(),
                        };
                        out.push(HeadElement::Font { name, href });
                    } else if node.name == t_breakpoint {
                        let w = match pairs_get(&node.attributes, "width") {
                            Some(v) => v,
                            None => String::new(),
                        };
                        out.push(HeadElement::Breakpoint(w));
                    } else if node.name == t_attributes {
                        let t_all: String = String::from_str("mj-all");
                        let t_class: String = String::from_str("mj-class");
                        proof {
                            reveal_strlit("mj-all");
                            reveal_strlit("mj-class");
                            assert("mj-all"@ != "mj-class"@) by {
                                assert("mj-all"@[3] == 'a' && "mj-class"@[3] == 'c');
                            }
                        }
                        let dn = node.children.len();
                        let mut j: usize = 0;
                        while j < dn
                            invariant
                                dn == node.children@.len(),
                                j <= dn,
                                defaults.wf(),
                                out@.map_values(|he: HeadElement| head_item_view(he))
                                    == items_before,
                                ds_done == decl_nodes(children@, i as int) + node_decls(
                                    node.children@,
                                    j as int,
                                ),
                                defaults.all_map() == fold_all_decls(
                                    Map::<Seq<char>, Seq<char>>::empty(),
                                    ds_done,
                                    ds_done.len() as int,
                                ),
                                defaults.by_tag_view().len() == fold_tag_decls(
                                    Seq::<(Seq<char>, Map<Seq<char>, Seq<char>>)>::empty(),
                                    ds_done,
                                    ds_done.len() as int,
                                ).len(),
                                forall|l: int|
                                    0 <= l < defaults.by_tag_view().len() ==> (
                                    #[trigger] defaults.by_tag_view()[l]).0 == fold_tag_decls(
                                        Seq::<(Seq<char>, Map<Seq<char>, Seq<char>>)>::empty(),
                                        ds_done,
                                        ds_done.len() as int,
                                    )[l].0 && defaults.by_tag_view()[l].1.as_map()
                                        == fold_tag_decls(
                                        Seq::<(Seq<char>, Map<Seq<char>, Seq<char>>)>::empty(),
                                        ds_done,
                                        ds_done.len() as int,
                                    )[l].1,
                                defaults.by_class_view().len() == fold_class_decls(
                                    Seq::<(Seq<char>, Map<Seq<char>, Seq<char>>)>::empty(),
                                    ds_done,
                                    ds_done.len() as int,
                                ).len(),
                                forall|l: int|
                                    0 <= l < defaults.by_class_view().len() ==> (
                                    #[trigger] defaults.by_class_view()[l]).0 == fold_class_decls(
                                        Seq::<(Seq<char>, Map<Seq<char>, Seq<char>>)>::empty(),
                                        ds_done,
                                        ds_done.len() as int,
                                    )[l].0 && defaults.by_class_view()[l].1.as_map()
                                        == fold_class_decls(
                                        Seq::<(Seq<char>, Map<Seq<char>, Seq<char>>)>::empty(),
                                        ds_done,
                                        ds_done.len() as int,
                                    )[l].1,
                            decreases dn - j,
                        {
                            match &node.children[j] {
                                Element::Node(decl) => {
                                    proof {
                                        let ds2 = ds_done.push(node.children@[j as int]->Node_0);
                                        lemma_fold_all_prefix(
                                            Map::<Seq<char>, Seq<char>>::empty(),
                                            ds2,
                                            ds_done,
                                            ds_done.len() as int,
                                        );
                                        lemma_fold_tag_prefix(
                                            Seq::<(Seq<char>, Map<Seq<char>, Seq<char>>)>::empty(),
                                            ds2,
                                            ds_done,
                                            ds_done.len() as int,
                                        );
                                        lemma_fold_class_prefix(
                                            Seq::<(Seq<char>, Map<Seq<char>, Seq<char>>)>::empty(),
                                            ds2,
                                            ds_done,
                                            ds_done.len() as int,
                                        );
                                        ds_done = ds2;
                                        assert(ds_done == decl_nodes(children@, i as int)
                                            + node_decls(node.children@, j + 1)) by {
                                            assert(node_decls(node.children@, j + 1) =~= node_decls(
                                                node.children@,
                                                j as int,
                                            ) + seq![node.children@[j as int]->Node_0]);
                                            assert(decl_nodes(children@, i as int) + node_decls(
                                                node.children@,
                                                j + 1,
                                            ) =~= ds_done);
                                        }
                                    }
                                    if decl.name == t_all {
                                        let attrs = attrs_from_pairs_without(
                                            &decl.attributes,
                                            "",
                                        );
                                        proof {
                                            reveal_strlit("");
                                            assert(""@ =~= Seq::<char>::empty());
                                        }
                                        defaults.set_all(attrs);
                                    } else if decl.name == t_class {
                                        match pairs_get(&decl.attributes, "name") {
                                            Some(klass) => {
                                                let attrs = attrs_from_pairs_without(
                                                    &decl.attributes,
                                                    "name",
                                                );
                                                defaults.add_class(klass.as_str(), attrs);
                                            },
                                            None => {},
                                        }
                                    } else {
                                        let attrs = attrs_from_pairs_without(
                                            &decl.attributes,
                                            "",
                                        );
                                        proof {
                                            reveal_strlit("");
                                            assert(""@ =~= Seq::<char>::empty());
                                        }
                                        defaults.add_tag(decl.name.as_str(), attrs);
                                    }
                                },
                                _ => {
                                    proof {
                                        assert(node_decls(node.children@, j + 1) =~= node_decls(
                                            node.children@,
                                            j as int,
                                        ));
                                    }
                                },
                            }
                            j = j + 1;
                        }
                        proof {
                            assert(ds_done == decl_nodes(children@, i + 1)) by {
                                assert(decl_nodes(children@, i + 1) =~= decl_nodes(
                                    children@,
                                    i as int,
                                ) + node_decls(node.children@, dn as int));
                            }
                        }
                    } else {
                        assert(!known_head_tag((children@[i as int]->Node_0).name@));
                        return Err(RenderError::UnexpectedElement(node.name.clone()));
                    }
                },
                _ => {},
            }
            proof {
                assert(out@.map_values(|he: HeadElement| head_item_view(he)) =~= spec_head_items(
                    children@,
                    i + 1,
                ));
                assert(ds_done == decl_nodes(children@, i + 1)) by {
                    assert(decl_nodes(children@, i + 1) =~= ds_done);
                }
            }
            i = i + 1;
        }
        Ok((out, defaults))
    }

    /// Apply this component's contribution to the aggregator: the last
    /// title and preview win, style fragments accumulate once each,
    /// fonts extend the registry, and a breakpoint that parses as a
    /// dimension replaces the configured one (a malformed one degrades
    /// to no change).
    pub fn update_header(&self, header: &mut Header)
        requires
            old(header).wf(),
        ensures
            final(header).wf(),
            final(header).defaults_spec() == old(header).defaults_spec(),
            final(header).keep_comments_spec() == old(header).keep_comments_spec(),
            final(header).mq_view() == old(header).mq_view(),
            final(header).fonts_view() == old(header).fonts_view(),
            match self {
                HeadElement::Title(t) => final(header).title_view() == Some(t@)
                    && final(header).preview_view() == old(header).preview_view()
                    && final(header).styles_view() == old(header).styles_view()
                    && final(header).registry_view() == old(header).registry_view()
                    && final(header).breakpoint_spec() == old(header).breakpoint_spec(),
                HeadElement::Preview(p) => final(header).preview_view() == Some(p@)
                    && final(header).title_view() == old(header).title_view()
                    && final(header).styles_view() == old(header).styles_view()
                    && final(header).registry_view() == old(header).registry_view()
                    && final(header).breakpoint_spec() == old(header).breakpoint_spec(),
                HeadElement::MjStyle(css) => final(header).styles_view()
                    == crate::header::dedup_push(old(header).styles_view(), css@)
                    && final(header).title_view() == old(header).title_view()
                    && final(header).preview_view() == old(header).preview_view()
                    && final(header).registry_view() == old(header).registry_view()
                    && final(header).breakpoint_spec() == old(header).breakpoint_spec(),
                HeadElement::Font { name, href } => final(header).registry_view()
                    == old(header).registry_view().push((name@, href@))
                    && final(header).title_view() == old(header).title_view()
                    && final(header).preview_view() == old(header).preview_view()
                    && final(header).styles_view() == old(header).styles_view()
                    && final(header).breakpoint_spec() == old(header).breakpoint_spec(),
                HeadElement::Breakpoint(w) => final(header).breakpoint_spec() == (match
                    crate::size::spec_parse(w@) {
                    Some(s) => s,
                    None => old(header).breakpoint_spec(),
                }) && final(header).title_view() == old(header).title_view()
                    && final(header).preview_view() == old(header).preview_view()
                    && final(header).styles_view() == old(header).styles_view()
                    && final(header).registry_view() == old(header).registry_view(),
            },
    {
        match self {
            HeadElement::Title(t) => header.set_title(t.as_str()),
            HeadElement::Preview(p) => header.set_preview(p.as_str()),
            HeadElement::MjStyle(css) => header.register_style(css.as_str()),
            HeadElement::Font { name, href } => header.add_registry_font(
                name.as_str(),
                href.as_str(),
            ),
            HeadElement::Breakpoint(w) => {
                match Size::parse(w.as_str()) {
                    Ok(s) => header.set_breakpoint(s),
                    Err(_) => {},
                }
            },
        }
    }
}

/// The base stylesheet and vendor conditional blocks every document
/// head carries.
pub open spec fn style_base_chars() -> Seq<char> {
    "\n<style type=\"text/css\">\n#outlook a {\n  padding: 0;\n}\nbody {\n  margin: 0;\n  padding: 0;\n  -webkit-text-size-adjust: 100%;\n  -ms-text-size-adjust: 100%;\n}\ntable, td {\n  border-collapse: collapse;\n  mso-table-lspace: 0pt;\n  mso-table-rspace: 0pt;\n}\nimg {\n  border: 0;\n  height: auto;\n  line-height: 100%;\n  outline: none;\n  text-decoration: none;\n  -ms-interpolation-mode: bicubic;\n}\np {\n  display: block;\n  margin: 13px 0;\n}\n</style>\n<!--[if mso]>\n<xml>\n<o:OfficeDocumentSettings>\n  <o:AllowPNG/>\n  <o:PixelsPerInch>96</o:PixelsPerInch>\n</o:OfficeDocumentSettings>\n</xml>\n<![endif]-->\n<!--[if lte mso 11]>\n<style type=\"text/css\">\n.mj-outlook-group-fix { width:100% !important; }\n</style>\n<![endif]-->\n"@
}

/// The text of the base stylesheet block.
pub fn style_base() -> (r: String)
    ensures
        r@ == style_base_chars(),
{
    let lit: &str = "\n<style type=\"text/css\">\n#outlook a {\n  padding: 0;\n}\nbody {\n  margin: 0;\n  padding: 0;\n  -webkit-text-size-adjust: 100%;\n  -ms-text-size-adjust: 100%;\n}\ntable, td {\n  border-collapse: collapse;\n  mso-table-lspace: 0pt;\n  mso-table-rspace: 0pt;\n}\nimg {\n  border: 0;\n  height: auto;\n  line-height: 100%;\n  outline: none;\n  text-decoration: none;\n  -ms-interpolation-mode: bicubic;\n}\np {\n  display: block;\n  margin: 13px 0;\n}\n</style>\n<!--[if mso]>\n<xml>\n<o:OfficeDocumentSettings>\n  <o:AllowPNG/>\n  <o:PixelsPerInch>96</o:PixelsPerInch>\n</o:OfficeDocumentSettings>\n</xml>\n<![endif]-->\n<!--[if lte mso 11]>\n<style type=\"text/css\">\n.mj-outlook-group-fix { width:100% !important; }\n</style>\n<![endif]-->\n";
    lit.to_owned()
}

/// One stylesheet link per font URL.
pub open spec fn spec_font_links(s: Seq<Seq<char>>, k: int) -> Seq<char>
    decreases k,
{
    if k <= 0 || k > s.len() {
        Seq::<char>::empty()
    } else {
        spec_font_links(s, k - 1) + "<link href=\""@ + s[k - 1]
            + "\" rel=\"stylesheet\" type=\"text/css\">"@
    }
}

/// One import rule per font URL.
pub open spec fn spec_font_imports(s: Seq<Seq<char>>, k: int) -> Seq<char>
    decreases k,
{
    if k <= 0 || k > s.len() {
        Seq::<char>::empty()
    } else {
        spec_font_imports(s, k - 1) + "@import url("@ + s[k - 1] + ");"@
    }
}

/// One stylesheet line per responsive class, sorted by class name.
pub open spec fn spec_mq_lines(s: Seq<(Seq<char>, Size)>, k: int) -> Seq<char>
    decreases k,
{
    if k <= 0 || k > s.len() {
        Seq::<char>::empty()
    } else {
        spec_mq_lines(s, k - 1) + "\n."@ + s[k - 1].0 + " { width:"@ + s[k - 1].1.spec_str()
            + " !important; max-width: "@ + s[k - 1].1.spec_str() + "; }"@
    }
}

/// The concatenated collected style fragments.
pub open spec fn spec_styles_concat(s: Seq<Seq<char>>, k: int) -> Seq<char>
    decreases k,
{
    if k <= 0 || k > s.len() {
        Seq::<char>::empty()
    } else {
        spec_styles_concat(s, k - 1) + s[k - 1]
    }
}

/// Exact output of the responsive stylesheet for an aggregator.
pub open spec fn spec_media_queries(h: Header) -> Seq<char> {
    if h.mq_view().len() == 0 {
        Seq::<char>::empty()
    } else {
        tag_render(
            "style"@,
            seq![("type"@, "text/css"@)],
            Seq::empty(),
            "@media only screen and (min-width:"@ + h.breakpoint_spec().spec_str() + ") { "@
                + spec_mq_lines(h.mq_view(), h.mq_view().len() as int) + "\n}"@,
        )
    }
}

/// Exact output of the font block for an aggregator.
pub open spec fn spec_font_families(h: Header) -> Seq<char> {
    if h.fonts_view().len() == 0 {
        Seq::<char>::empty()
    } else {
        "<!--[if !mso]><!-->"@ + spec_font_links(h.fonts_view(), h.fonts_view().len() as int)
            + "<style type=\"text/css\">"@ + spec_font_imports(
            h.fonts_view(),
            h.fonts_view().len() as int,
        ) + "</style>"@ + "<!--<![endif]-->"@
    }
}

/// Exact output of the collected-styles block for an aggregator.
pub open spec fn spec_styles(h: Header) -> Seq<char> {
    if h.styles_view().len() == 0 {
        Seq::<char>::empty()
    } else {
        tag_render(
            "style"@,
            seq![("type"@, "text/css"@)],
            Seq::empty(),
            spec_styles_concat(h.styles_view(), h.styles_view().len() as int),
        )
    }
}


/// Deterministic stylesheet emission: two aggregators holding the same
/// class-to-width mapping and the same breakpoint yield the same
/// responsive stylesheet text, whatever order their classes were
/// registered in.
pub proof fn lemma_stylesheet_deterministic(a: Header, b: Header)
    requires
        a.wf(),
        b.wf(),
        a.mq_map() == b.mq_map(),
        a.breakpoint_spec() == b.breakpoint_spec(),
    ensures
        spec_media_queries(a) == spec_media_queries(b),
{
    crate::header::lemma_media_query_determinism(a, b);
}

/// The first preview element's content, if any.
pub open spec fn spec_first_preview(s: Seq<HeadElement>, i: int) -> Seq<char>
    decreases s.len() - i,
{
    if i < 0 || i >= s.len() {
        Seq::<char>::empty()
    } else {
        match s[i] {
            HeadElement::Preview(p) => p@,
            _ => spec_first_preview(s, i + 1),
        }
    }
}


/// The typed reading of the head section: its components carry exactly
/// the source children's contributions, and the aggregator holds their
/// in-order fold over the configuration, before any body pass.
pub open spec fn head_parsed(node: Node, opts: Options, h: MJHead) -> bool {
    h.wf() && h.context_spec() is None && h.attributes_spec() == node.attributes@
        && defaults_match(h.header_spec().defaults_spec(), node.children@)
        && h.children_view().map_values(|he: HeadElement| head_item_view(he)) == spec_head_items(
        node.children@,
        node.children@.len() as int,
    ) && h.header_spec().mq_view() == Seq::<(Seq<char>, Size)>::empty()
        && h.header_spec().keep_comments_spec() == opts.keep_comments && h.header_spec().title_view()
        == head_fold(
        init_head_state(opts),
        spec_head_items(node.children@, node.children@.len() as int),
        spec_head_items(node.children@, node.children@.len() as int).len() as int,
    ).title && h.header_spec().preview_view() == head_fold(
        init_head_state(opts),
        spec_head_items(node.children@, node.children@.len() as int),
        spec_head_items(node.children@, node.children@.len() as int).len() as int,
    ).preview && h.header_spec().styles_view() == head_fold(
        init_head_state(opts),
        spec_head_items(node.children@, node.children@.len() as int),
        spec_head_items(node.children@, node.children@.len() as int).len() as int,
    ).styles && h.header_spec().registry_view() == head_fold(
        init_head_state(opts),
        spec_head_items(node.children@, node.children@.len() as int),
        spec_head_items(node.children@, node.children@.len() as int).len() as int,
    ).registry && h.header_spec().breakpoint_spec() == head_fold(
        init_head_state(opts),
        spec_head_items(node.children@, node.children@.len() as int),
        spec_head_items(node.children@, node.children@.len() as int).len() as int,
    ).breakpoint
}

/// The document head.
pub struct MJHead {
    attributes: Vec<(String, String)>,
    context: Option<Context>,
    children: Vec<HeadElement>,
    header: Header,
}

impl MJHead {
    pub closed spec fn header_spec(self) -> Header {
        self.header
    }

    pub closed spec fn children_view(self) -> Seq<HeadElement> {
        self.children@
    }

    pub closed spec fn context_spec(self) -> Option<Context> {
        self.context
    }

    pub closed spec fn attributes_spec(self) -> Seq<(String, String)> {
        self.attributes@
    }

    pub open spec fn wf(self) -> bool {
        self.header_spec().wf()
    }

    /// A head for a document without a head section: only configuration.
    pub fn empty(opts: Options) -> (r: MJHead)
        requires
            opts.breakpoint.wf(),
        ensures
            r.wf(),
            r.context_spec() is None,
            r.attributes_spec() == Seq::<(String, String)>::empty(),
            r.children_view() == Seq::<HeadElement>::empty(),
            r.header_spec().title_view() is None,
            r.header_spec().preview_view() is None,
            r.header_spec().fonts_view() == Seq::<Seq<char>>::empty(),
            r.header_spec().mq_view() == Seq::<(Seq<char>, Size)>::empty(),
            r.header_spec().styles_view() == Seq::<Seq<char>>::empty(),
            r.header_spec().breakpoint_spec() == opts.breakpoint,
            r.header_spec().registry_view() == opts.fonts.deep_view(),
            r.header_spec().keep_comments_spec() == opts.keep_comments,
    {
        let r = MJHead {
            attributes: Vec::new(),
            context: None,
            children: Vec::new(),
            header: Header::from_options(&opts),
        };
        proof {
            assert(r.children_view() =~= Seq::<HeadElement>::empty());
            assert(r.attributes_spec() =~= Seq::<(String, String)>::empty());
        }
        r
    }

    /// Read the head from its node: the children are parsed, the
    /// declared defaults are installed, and every child contributes to
    /// the aggregator, in order.
    #[verifier::loop_isolation(false)]
    pub fn parse(node: &Node, opts: Options) -> (r: Result<MJHead, RenderError>)
        requires
            opts.breakpoint.wf(),
        ensures
            (r is Ok) == head_ok(node.children@),
            match r {
                Ok(h) => head_parsed(*node, opts, h) && h.header_spec().fonts_view() == Seq::<
                    Seq<char>,
                >::empty(),
                Err(_) => true,
            },
    {
        let (children, defaults) = HeadElement::parse_all(&node.children)?;
        let ghost items = children@.map_values(|he: HeadElement| head_item_view(he));
        let mut header = Header::from_options(&opts);
        header.set_defaults(defaults);
        let cn = children.len();
        let mut i: usize = 0;
        while i < cn
            invariant
                cn == children@.len(),
                items == children@.map_values(|he: HeadElement| head_item_view(he)),
                i <= cn,
                header.wf(),
                header.keep_comments_spec() == opts.keep_comments,
                header.mq_view() == Seq::<(Seq<char>, Size)>::empty(),
                header.fonts_view() == Seq::<Seq<char>>::empty(),
                header.defaults_spec() == defaults,
                header.title_view() == head_fold(init_head_state(opts), items, i as int).title,
                header.preview_view() == head_fold(init_head_state(opts), items, i as int).preview,
                header.styles_view() == head_fold(init_head_state(opts), items, i as int).styles,
                header.registry_view() == head_fold(
                    init_head_state(opts),
                    items,
                    i as int,
                ).registry,
                header.breakpoint_spec() == head_fold(
                    init_head_state(opts),
                    items,
                    i as int,
                ).breakpoint,
            decreases cn - i,
        {
            proof {
                assert(items[i as int] == head_item_view(children@[i as int]));
            }
            children[i].update_header(&mut header);
            i = i + 1;
        }
        let h = MJHead { attributes: clone_pairs(&node.attributes), context: None, children, header };
        proof {
            assert(h.children_view().map_values(|he: HeadElement| head_item_view(he))
                == spec_head_items(node.children@, node.children@.len() as int));
            assert(items.len() == spec_head_items(
                node.children@,
                node.children@.len() as int,
            ).len());
        }
        Ok(h)
    }

    pub fn context(&self) -> (r: &Option<Context>)
        ensures
            *r == self.context_spec(),
    {
        &self.context
    }

    pub fn set_context(&mut self, ctx: Context)
        ensures
            final(self).context_spec() == Some(ctx),
            final(self).header_spec() == old(self).header_spec(),
            final(self).children_view() == old(self).children_view(),
    {
        self.context = Some(ctx);
    }

    /// The aggregator, fully populated once parsing is done.
    pub fn get_header(&self) -> (r: &Header)
        ensures
            *r == self.header_spec(),
    {
        &self.header
    }

    /// The aggregator, for the body's metadata pass.
    pub fn get_mut_header(&mut self) -> (r: &mut Header)
        ensures
            *r == old(self).header_spec(),
            *final(r) == final(self).header_spec(),
            final(self).children_view() == old(self).children_view(),
            final(self).context_spec() == old(self).context_spec(),
            final(self).attributes_spec() == old(self).attributes_spec(),
    {
        &mut self.header
    }


    /// Run the body's metadata pass into this head's aggregator.
    pub fn aggregate(&mut self, body: &crate::body::MJBody)
        requires
            old(self).wf(),
            body.wf(),
        ensures
            final(self).wf(),
            final(self).children_view() == old(self).children_view(),
            final(self).header_spec().fonts_view() == crate::body::elems_fonts(
                old(self).header_spec().fonts_view(),
                old(self).header_spec().registry_view(),
                body.children_view(),
                body.children_view().len() as int,
            ),
            final(self).header_spec().mq_view() == old(self).header_spec().mq_view(),
            final(self).header_spec().styles_view() == old(self).header_spec().styles_view(),
            final(self).header_spec().title_view() == old(self).header_spec().title_view(),
            final(self).header_spec().preview_view() == old(self).header_spec().preview_view(),
            final(self).header_spec().breakpoint_spec() == old(self).header_spec().breakpoint_spec(),
            final(self).header_spec().registry_view() == old(self).header_spec().registry_view(),
            final(self).header_spec().defaults_spec() == old(self).header_spec().defaults_spec(),
            final(self).header_spec().keep_comments_spec() == old(
                self,
            ).header_spec().keep_comments_spec(),
            final(self).attributes_spec() == old(self).attributes_spec(),
            final(self).context_spec() == old(self).context_spec(),
    {
        body.update_header(&mut self.header);
    }

    /// The document title, or empty when none was set.
    pub fn get_title(&self) -> (r: String)
        ensures
            r@ == (match self.header_spec().title_view() {
                Some(t) => t,
                None => Seq::<char>::empty(),
            }),
    {
        match self.header.title() {
            Some(value) => value,
            None => String::new(),
        }
    }

    /// The first preview element's content, or empty.
    #[verifier::loop_isolation(false)]
    pub fn get_preview(&self) -> (r: String)
        ensures
            r@ == spec_first_preview(self.children_view(), 0),
    {
        let cn = self.children.len();
        let mut i: usize = 0;
        while i < cn
            invariant
                cn == self.children@.len(),
                i <= cn,
                spec_first_preview(self.children@, 0) == spec_first_preview(
                    self.children@,
                    i as int,
                ),
            decreases cn - i,
        {
            match &self.children[i] {
                HeadElement::Preview(p) => {
                    return p.clone();
                },
                _ => {},
            }
            i = i + 1;
        }
        String::new()
    }

    /// The responsive stylesheet, exactly as `spec_media_queries`
    /// states: entries sorted by class name, each with its width.
    #[verifier::loop_isolation(false)]
    pub fn get_media_queries(&self) -> (r: String)
        requires
            self.wf(),
        ensures
            r@ == spec_media_queries(self.header_spec()),
    {
        if !self.header.has_media_queries() {
            return String::new();
        }
        let bp = self.header.breakpoint();
        let mut body = String::new();
        body.append("@media only screen and (min-width:");
        let bps = bp.to_string();
        body.append(bps.as_str());
        body.append(") { ");
        let entries = self.header.get_media_queries();
        let n = entries.len();
        let ghost ev = self.header_spec().mq_view();
        let mut i: usize = 0;
        while i < n
            invariant
                n == entries@.len(),
                i <= n,
                body@ == "@media only screen and (min-width:"@ + bp.spec_str() + ") { "@
                    + spec_mq_lines(ev, i as int),
            decreases n - i,
        {
            assert(ev[i as int] == (entries@[i as int].0@, entries@[i as int].1));
            body.append("\n.");
            body.append(entries[i].0.as_str());
            body.append(" { width:");
            assert(entries@[i as int].1.wf());
            let s1 = entries[i].1.to_string();
            body.append(s1.as_str());
            body.append(" !important; max-width: ");
            let s2 = entries[i].1.to_string();
            body.append(s2.as_str());
            body.append("; }");
            proof {
                assert(body@ =~= "@media only screen and (min-width:"@ + bp.spec_str() + ") { "@
                    + spec_mq_lines(ev, i + 1));
            }
            i = i + 1;
        }
        body.append("\n}");
        let mut attrs: Vec<(String, String)> = Vec::new();
        attrs.push((String::from_str("type"), String::from_str("text/css")));
        let styles: Vec<(String, String)> = Vec::new();
        proof {
            assert(attrs.deep_view() =~= seq![("type"@, "text/css"@)]);
            assert(styles.deep_view() =~= Seq::<(Seq<char>, Seq<char>)>::empty());
        }
        let out = render_tag("style", &attrs, &styles, body.as_str());
        proof {
            assert(out@ =~= spec_media_queries(self.header_spec()));
        }
        out
    }

    /// The font block, exactly as `spec_font_families` states: a link
    /// and an import per registered URL, in order of first use.
    #[verifier::loop_isolation(false)]
    pub fn get_font_families(&self) -> (r: String)
        ensures
            r@ == spec_font_families(self.header_spec()),
    {
        let urls = self.header.get_used_font_families();
        if urls.len() == 0 {
            return String::new();
        }
        let ghost fv = self.header_spec().fonts_view();
        let n = urls.len();
        let mut out = String::new();
        out.append("<!--[if !mso]><!-->");
        let mut i: usize = 0;
        while i < n
            invariant
                n == urls@.len(),
                i <= n,
                out@ == "<!--[if !mso]><!-->"@ + spec_font_links(fv, i as int),
            decreases n - i,
        {
            out.append("<link href=\"");
            out.append(urls[i].as_str());
            out.append("\" rel=\"stylesheet\" type=\"text/css\">");
            proof {
                assert(out@ =~= "<!--[if !mso]><!-->"@ + spec_font_links(fv, i + 1));
            }
            i = i + 1;
        }
        out.append("<style type=\"text/css\">");
        let ghost mid = out@;
        let mut j: usize = 0;
        while j < n
            invariant
                n == urls@.len(),
                j <= n,
                out@ == mid + spec_font_imports(fv, j as int),
            decreases n - j,
        {
            out.append("@import url(");
            out.append(urls[j].as_str());
            out.append(");");
            proof {
                assert(out@ =~= mid + spec_font_imports(fv, j + 1));
            }
            j = j + 1;
        }
        out.append("</style>");
        out.append("<!--<![endif]-->");
        proof {
            assert(out@ =~= spec_font_families(self.header_spec()));
        }
        out
    }

    /// The collected-styles block, exactly as `spec_styles` states.
    #[verifier::loop_isolation(false)]
    pub fn get_styles(&self) -> (r: String)
        ensures
            r@ == spec_styles(self.header_spec()),
    {
        let styles = self.header.get_styles();
        if styles.len() == 0 {
            return String::new();
        }
        let ghost sv = self.header_spec().styles_view();
        let n = styles.len();
        let mut body = String::new();
        let mut i: usize = 0;
        while i < n
            invariant
                n == styles@.len(),
                i <= n,
                body@ == spec_styles_concat(sv, i as int),
            decreases n - i,
        {
            body.append(styles[i].as_str());
            proof {
                assert(body@ =~= spec_styles_concat(sv, i + 1));
            }
            i = i + 1;
        }
        let mut attrs: Vec<(String, String)> = Vec::new();
        attrs.push((String::from_str("type"), String::from_str("text/css")));
        let none_styles: Vec<(String, String)> = Vec::new();
        proof {
            assert(attrs.deep_view() =~= seq![("type"@, "text/css"@)]);
            assert(none_styles.deep_view() =~= Seq::<(Seq<char>, Seq<char>)>::empty());
        }
        let out = render_tag("style", &attrs, &none_styles, body.as_str());
        proof {
            assert(out@ =~= spec_styles(self.header_spec()));
        }
        out
    }

    /// Exact output of the whole document head.
    pub open spec fn spec_render(self) -> Seq<char> {
        "<head>"@ + tag_render("title"@, Seq::empty(), Seq::empty(), (match self.header_spec().title_view() {
            Some(t) => t,
            None => Seq::<char>::empty(),
        })) + "<!--[if !mso]><!-- -->"@
            + "<meta http-equiv=\"X-UA-Compatible\" content=\"IE=edge\">"@ + "<!--<![endif]-->"@
            + "<meta http-equiv=\"Content-Type\" content=\"text/html; charset=UTF-8\">"@
            + "<meta name=\"viewport\" content=\"width=device-width, initial-scale=1\">"@
            + style_base_chars() + spec_font_families(self.header_spec()) + spec_media_queries(
            self.header_spec(),
        ) + spec_styles(self.header_spec()) + "</head>"@
    }

    /// Emit the whole head, exactly as `spec_render` states.
    pub fn render(&self) -> (r: String)
        requires
            self.wf(),
        ensures
            r@ == self.spec_render(),
    {
        let mut out = String::new();
        out.append("<head>");
        let title = self.get_title();
        let none_attrs: Vec<(String, String)> = Vec::new();
        let none_styles: Vec<(String, String)> = Vec::new();
        proof {
            assert(none_attrs.deep_view() =~= Seq::<(Seq<char>, Seq<char>)>::empty());
            assert(none_styles.deep_view() =~= Seq::<(Seq<char>, Seq<char>)>::empty());
        }
        let title_tag = render_tag("title", &none_attrs, &none_styles, title.as_str());
        out.append(title_tag.as_str());
        out.append("<!--[if !mso]><!-- -->");
        out.append("<meta http-equiv=\"X-UA-Compatible\" content=\"IE=edge\">");
        out.append("<!--<![endif]-->");
        out.append("<meta http-equiv=\"Content-Type\" content=\"text/html; charset=UTF-8\">");
        out.append("<meta name=\"viewport\" content=\"width=device-width, initial-scale=1\">");
        let base = style_base();
        out.append(base.as_str());
        let fonts = self.get_font_families();
        out.append(fonts.as_str());
        let media = self.get_media_queries();
        out.append(media.as_str());
        let styles = self.get_styles();
        out.append(styles.as_str());
        out.append("</head>");
        proof {
            assert(out@ =~= self.spec_render());
        }
        out
    }
}

} // verus!
