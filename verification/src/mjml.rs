//! The document root and the pipeline: construct the typed tree,
//! aggregate metadata, propagate layout context, and render, in that
//! order, each phase complete before the next begins.

use vstd::prelude::*;
use vstd::string::*;
use crate::body::BodyElement;
use crate::body::MJBody;
use crate::body::RenderError;
use crate::context::Context;
use crate::head::MJHead;
use crate::header::Options;
use crate::parser::Element;
use crate::parser::Node;
use crate::parser::ParseError;

verus! {

/// Everything that can stop a compilation: the markup could not be
/// read, or the tree broke a structural rule.
#[derive(Debug)]
pub enum CompileError {
    Parser(ParseError),
    Render(RenderError),
}


/// The position of the last element child with this tag name, if any:
/// a repeated section is taken from its last occurrence.
pub open spec fn last_named(s: Seq<Element>, name: Seq<char>, k: int) -> Option<int>
    decreases k,
{
    if k <= 0 || k > s.len() {
        None
    } else if s[k - 1] is Node && (s[k - 1]->Node_0).name@ == name {
        Some(k - 1)
    } else {
        last_named(s, name, k - 1)
    }
}

/// Only head and body sections may stand under the document root.
pub open spec fn sections_ok(s: Seq<Element>) -> bool {
    forall|i: int|
        0 <= i < s.len() ==> ((#[trigger] s[i]) is Node ==> ((s[i]->Node_0).name@ == "mj-head"@ || (
        s[i]->Node_0).name@ == "mj-body"@))
}

/// May this root node compile?  The root must be the document tag, its
/// element children must be sections, and each section's content must
/// be structurally valid.
pub open spec fn spec_mjml_ok(node: Node) -> bool {
    node.name@ == "mjml"@ && sections_ok(node.children@) && (match last_named(
        node.children@,
        "mj-head"@,
        node.children@.len() as int,
    ) {
        Some(h) => crate::head::head_ok((node.children@[h]->Node_0).children@),
        None => true,
    }) && (match last_named(node.children@, "mj-body"@, node.children@.len() as int) {
        Some(b) => forall|i: int|
            0 <= i < (node.children@[b]->Node_0).children@.len() ==> crate::body::body_elem_ok(
                #[trigger] (node.children@[b]->Node_0).children@[i],
            ),
        None => true,
    })
}


/// Everything construction guarantees of a compiled document: the head
/// read from the last head section (or plain configuration), the body
/// read from the last body section (or the empty body), the contexts
/// the layout pass assigned, and the fonts the metadata pass
/// collected.
pub open spec fn mjml_parsed(node: Node, opts: Options, e: MJMLElement) -> bool {
    e.wf() && (match last_named(
                    node.children@,
                    "mj-head"@,
                    node.children@.len() as int,
                ) {
                    Some(h) => crate::head::head_parsed(
                        (node.children@[h]->Node_0),
                        opts,
                        e.head_spec(),
                    ),
                    None => e.head_spec().context_spec() is None && e.head_spec().attributes_spec()
                        == Seq::<(String, String)>::empty() && e.head_spec().children_view()
                        == Seq::<crate::head::HeadElement>::empty()
                        && e.head_spec().header_spec().title_view() is None
                        && e.head_spec().header_spec().preview_view() is None
                        && e.head_spec().header_spec().mq_view() == Seq::<
                        (Seq<char>, crate::size::Size),
                    >::empty() && e.head_spec().header_spec().styles_view() == Seq::<
                        Seq<char>,
                    >::empty() && e.head_spec().header_spec().breakpoint_spec() == opts.breakpoint
                        && e.head_spec().header_spec().registry_view() == opts.fonts.deep_view()
                        && e.head_spec().header_spec().keep_comments_spec() == opts.keep_comments,
                }) && (match last_named(node.children@, "mj-body"@, node.children@.len() as int) {
                    Some(b) => crate::body::body_parsed(
                        (node.children@[b]->Node_0),
                        e.head_spec().header_spec().defaults_spec(),
                        e.body_spec(),
                    ),
                    None => !e.body_spec().exists_spec() && e.body_spec().attrs_map() == Map::<
                        Seq<char>,
                        Seq<char>,
                    >::empty() && e.body_spec().children_view() == Seq::<BodyElement>::empty(),
                }) && e.body_spec().context_spec() == Some(
                    (Context { width: None, siblings: 1usize, raw_siblings: 0usize, index: 0usize }),
                ) && (forall|i: int|
                    0 <= i < e.body_spec().children_view().len() && (
                    #[trigger] e.body_spec().children_view()[i]) is AccordionText ==> (
                    e.body_spec().children_view()[i]->AccordionText_0).context_spec() == Some(
                        (Context {
                            width: e.body_spec().width_spec(),
                            siblings: e.body_spec().children_view().len() as usize,
                            raw_siblings: crate::body::raw_count(
                                e.body_spec().children_view(),
                                e.body_spec().children_view().len() as int,
                            ) as usize,
                            index: i as usize,
                        }),
                    )) && e.head_spec().header_spec().fonts_view() == crate::body::elems_fonts(
                    Seq::<Seq<char>>::empty(),
                    e.head_spec().header_spec().registry_view(),
                    e.body_spec().children_view(),
                    e.body_spec().children_view().len() as int,
                )
}

/// A compiled document, ready to render.
pub struct MJMLElement {
    head: MJHead,
    body: MJBody,
}

impl MJMLElement {
    pub closed spec fn head_spec(self) -> MJHead {
        self.head
    }

    pub closed spec fn body_spec(self) -> MJBody {
        self.body
    }

    pub open spec fn wf(self) -> bool {
        self.head_spec().wf() && self.body_spec().wf()
    }

    /// Exact output of the whole document.
    pub open spec fn spec_render(self) -> Seq<char> {
        "<!doctype html>"@
            + "<html xmlns=\"http://www.w3.org/1999/xhtml\" xmlns:v=\"urn:schemas-microsoft-com:vml\" xmlns:o=\"urn:schemas-microsoft-com:office:office\">"@
            + self.head_spec().spec_render() + self.body_spec().spec_render(
            self.head_spec().header_spec(),
        ) + "</html>"@
    }

    /// Build the document from the root node.  The root must be the
    /// document tag, and each element child must be the head or the
    /// body section; the phases of the pipeline follow in order:
    /// construction, metadata aggregation, context propagation.
    #[verifier::loop_isolation(false)]
    pub fn parse(node: &Node, opts: Options) -> (r: Result<MJMLElement, RenderError>)
        requires
            opts.breakpoint.wf(),
        ensures
            (r is Ok) == spec_mjml_ok(*node),
            node.name@ != "mjml"@ ==> r == Err::<MJMLElement, RenderError>(
                RenderError::UnexpectedElement(node.name),
            ),
            match r {
                Ok(e) => mjml_parsed(*node, opts, e),
                Err(_) => true,
            },
    {
        let ghost opts0 = opts;
        proof {
            reveal_strlit("mj-head");
            reveal_strlit("mj-body");
        }
        let expected: String = String::from_str("mjml");
        if !(node.name == expected) {
            return Err(RenderError::UnexpectedElement(node.name.clone()));
        }
        let mut head_idx: Option<usize> = None;
        let mut body_idx: Option<usize> = None;
        let cn = node.children.len();
        let mut i: usize = 0;
        while i < cn
            invariant
                cn == node.children@.len(),
                i <= cn,
                sections_ok(node.children@.take(i as int)),
                forall|j: int|
                    0 <= j < i ==> ((#[trigger] node.children@[j]) is Node ==> ((
                    node.children@[j]->Node_0).name@ == "mj-head"@ || (
                    node.children@[j]->Node_0).name@ == "mj-body"@)),
                match head_idx {
                    Some(h) => h < cn && node.children@[h as int] is Node && last_named(
                        node.children@,
                        "mj-head"@,
                        i as int,
                    ) == Some(h as int),
                    None => last_named(node.children@, "mj-head"@, i as int) is None,
                },
                match body_idx {
                    Some(b) => b < cn && node.children@[b as int] is Node && last_named(
                        node.children@,
                        "mj-body"@,
                        i as int,
                    ) == Some(b as int),
                    None => last_named(node.children@, "mj-body"@, i as int) is None,
                },
            decreases cn - i,
        {
            let head_tag: String = String::from_str("mj-head");
            let body_tag: String = String::from_str("mj-body");
            proof {
                reveal_strlit("mj-head");
                reveal_strlit("mj-body");
                assert("mj-head"@ != "mj-body"@) by {
                    assert("mj-head"@[3] == 'h' && "mj-body"@[3] == 'b');
                }
            }
            match &node.children[i] {
                Element::Node(child) => {
                    if child.name == head_tag {
                        head_idx = Some(i);
                        assert(last_named(node.children@, "mj-body"@, i + 1) == last_named(
                            node.children@,
                            "mj-body"@,
                            i as int,
                        ));
                    } else if child.name == body_tag {
                        body_idx = Some(i);
                        assert(last_named(node.children@, "mj-head"@, i + 1) == last_named(
                            node.children@,
                            "mj-head"@,
                            i as int,
                        ));
                    } else {
                        assert(!sections_ok(node.children@)) by {
                            assert((node.children@[i as int]->Node_0).name@ != "mj-head"@);
                        }
                        return Err(RenderError::UnexpectedElement(child.name.clone()));
                    }
                },
                _ => {},
            }
            proof {
                assert(sections_ok(node.children@.take(i + 1))) by {
                    assert(forall|j: int|
                        0 <= j < i + 1 ==> node.children@.take(i + 1)[j] == #[trigger] node.children@[j]);
                }
            }
            i = i + 1;
        }
        proof {
            assert(sections_ok(node.children@)) by {
                assert(node.children@.take(cn as int) =~= node.children@);
            }
        }
        let mut head = match head_idx {
            Some(h) => {
                match &node.children[h] {
                    Element::Node(hn) => {
                        match MJHead::parse(hn, opts) {
                            Ok(parsed) => parsed,
                            Err(e) => {
                                return Err(e);
                            },
                        }
                    },
                    _ => {
                        assert(false);
                        return Err(RenderError::UnexpectedElement(String::new()));
                    },
                }
            },
            None => MJHead::empty(opts),
        };
        let mut body = match body_idx {
            Some(b) => {
                match &node.children[b] {
                    Element::Node(bn) => {
                        match MJBody::parse(bn, head.get_header()) {
                            Ok(parsed) => parsed,
                            Err(e) => {
                                return Err(e);
                            },
                        }
                    },
                    _ => {
                        assert(false);
                        return Err(RenderError::UnexpectedElement(String::new()));
                    },
                }
            },
            None => MJBody::empty(),
        };
        let ghost body0 = body;
        body.set_context(Context::empty());
        proof {
            if body_idx is Some {
                let bn = node.children@[body_idx->0 as int]->Node_0;
                crate::body::lemma_body_parsed_stable(
                    bn,
                    head.header_spec().defaults_spec(),
                    body0,
                    body,
                );
            }
            crate::body::lemma_raw_count_congruent(
                body.children_view(),
                body0.children_view(),
                body.children_view().len() as int,
            );
        }
        head.aggregate(&body);
        let e = MJMLElement { head, body };
        proof {
            if e.body_spec().children_view().len() == 0 {
                assert(e.body_spec().children_view() =~= Seq::<BodyElement>::empty());
            }
            assert(mjml_parsed(*node, opts0, e));
        }
        Ok(e)
    }

    /// Emit the whole document, exactly as `spec_render` states.
    pub fn render(&self) -> (r: Result<String, RenderError>)
        requires
            self.wf(),
        ensures
            match r {
                Ok(s) => s@ == self.spec_render(),
                Err(_) => false,
            },
    {
        let mut out = String::new();
        out.append("<!doctype html>");
        out.append(
            "<html xmlns=\"http://www.w3.org/1999/xhtml\" xmlns:v=\"urn:schemas-microsoft-com:vml\" xmlns:o=\"urn:schemas-microsoft-com:office:office\">",
        );
        let head = self.head.render();
        out.append(head.as_str());
        let body = self.body.render(self.head.get_header())?;
        out.append(body.as_str());
        out.append("</html>");
        proof {
            assert(out@ =~= self.spec_render());
        }
        Ok(out)
    }

    /// The document title, from the fully populated aggregator.
    pub fn get_title(&self) -> (r: String)
        ensures
            r@ == (match self.head_spec().header_spec().title_view() {
                Some(t) => t,
                None => Seq::<char>::empty(),
            }),
    {
        self.head.get_title()
    }

    /// The preview text of the head, or empty.
    pub fn get_preview(&self) -> (r: String)
        ensures
            r@ == crate::head::spec_first_preview(self.head_spec().children_view(), 0),
    {
        self.head.get_preview()
    }
}

/// Compile a whole document: read the markup, build the typed tree,
/// run the pipeline, and render.  Oversized input is rejected; a
/// structural fault anywhere aborts with no partial output.
pub fn to_html(text: &str, opts: Options) -> (r: Result<String, CompileError>)
    requires
        opts.breakpoint.wf(),
    ensures
        (r == Err::<String, CompileError>(CompileError::Parser(ParseError::SizeLimit))) <==> (
        text.spec_bytes().len() as usize > u32::MAX as usize),
        text.spec_bytes().len() as usize <= u32::MAX as usize ==> (match crate::parser::g_parse_root(
            crate::parser::tokens_of(text@),
        ) {
            crate::parser::GRootRes::Done(g) => exists|nd: Node|
                #[trigger] crate::parser::node_matches(nd, g) && (r is Ok) == spec_mjml_ok(nd) && (
                match r {
                    Ok(s) => exists|e: MJMLElement|
                        mjml_parsed(nd, opts, e) && s@ == #[trigger] e.spec_render(),
                    Err(er) => er is Render,
                }),
            crate::parser::GRootRes::NoRoot => r == Err::<String, CompileError>(
                CompileError::Parser(ParseError::NoRootNode),
            ),
            crate::parser::GRootRes::Invalid => r == Err::<String, CompileError>(
                CompileError::Parser(ParseError::InvalidFormat),
            ),
            crate::parser::GRootRes::Lexer => r == Err::<String, CompileError>(
                CompileError::Parser(ParseError::ParserError),
            ),
        }),
{
    let ghost opts0 = opts;
    let root = match crate::parser::parse(text) {
        Ok(n) => n,
        Err(e) => {
            return Err(CompileError::Parser(e));
        },
    };
    let element = match MJMLElement::parse(&root, opts) {
        Ok(e) => e,
        Err(e) => {
            proof {
                assert(crate::parser::node_matches(
                    root,
                    crate::parser::g_parse_root(crate::parser::tokens_of(text@))->Done_0,
                ));
            }
            return Err(CompileError::Render(e));
        },
    };
    match element.render() {
        Ok(s) => {
            proof {
                assert(crate::parser::node_matches(
                    root,
                    crate::parser::g_parse_root(crate::parser::tokens_of(text@))->Done_0,
                ));
                assert(mjml_parsed(root, opts0, element) && s@ == element.spec_render());
            }
            Ok(s)
        },
        Err(e) => Err(CompileError::Render(e)),
    }
}

} // verus!
