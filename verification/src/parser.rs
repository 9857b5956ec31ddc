//! The markup front end: an owned token stream lexed by the `xmlparser`
//! crate behind trusted wrappers, and a verified builder that turns the
//! tokens into an attributed node tree.
//!
//! Structural faults are fatal: a stream that ends inside an element,
//! an end tag that does not match, or any construct outside the plain
//! element/text/comment subset rejects the whole document.

use vstd::prelude::*;
use vstd::string::*;
use xmlparser::ElementEnd as XEnd;
use xmlparser::Token as XToken;
use crate::strutil::is_blank;

verus! {

/// Why a document could not be read.
#[derive(Clone, Copy, Debug, PartialEq, Eq, Structural)]
pub enum ParseError {
    /// The token stream does not form one well-nested element.
    InvalidFormat,
    /// The input string should be smaller than 4GiB.
    SizeLimit,
    /// The lexer itself rejected the input.
    ParserError,
    /// The document must have at least one element.
    NoRootNode,
}

/// One owned lexical token.
#[derive(Clone, Debug)]
pub enum Tok {
    /// `<name`
    Start(String),
    /// `key="value"`
    Attr(String, String),
    /// `/>`
    EndEmpty,
    /// `>`
    EndOpen,
    /// `</name>`
    EndClose(String),
    Text(String),
    Comment(String),
    /// A construct the tree builder does not accept (declarations,
    /// processing instructions, document type definitions, character
    /// data sections).
    Other,
    /// The lexer reported an error here and stopped.
    Bad,
}

/// An element of a node's child list.
#[derive(Debug)]
pub enum Element {
    Comment(String),
    Node(Node),
    Text(String),
}

/// One element: its tag name, its attributes in source order, and its
/// children in source order.
#[derive(Debug)]
pub struct Node {
    pub name: String,
    pub attributes: Vec<(String, String)>,
    pub children: Vec<Element>,
}

#[verifier::external_type_specification]
#[verifier::external_body]
pub struct ExXmlToken<'a>(xmlparser::Token<'a>);

/// The token sequence the lexer produces for a text.  Lexing is a
/// pure function of the text alone; this names its result, and the
/// lexing wrapper's contract applies the name.
pub uninterp spec fn tokens_of(s: Seq<char>) -> Seq<Tok>;

/// Relies on `xmlparser::Token`: converts one borrowed token to an
/// owned token of the library, variant by variant; every construct the
/// tree builder does not accept becomes `Tok::Other`.
#[verifier::external_body]
fn convert_token(tok: XToken<'_>) -> (r: Tok) {
    match tok {
        XToken::ElementStart { local, .. } => Tok::Start(local.as_str().to_string()),
        XToken::Attribute { local, value, .. } => Tok::Attr(
            local.as_str().to_string(),
            value.as_str().to_string(),
        ),
        XToken::ElementEnd { end: XEnd::Empty, .. } => Tok::EndEmpty,
        XToken::ElementEnd { end: XEnd::Open, .. } => Tok::EndOpen,
        XToken::ElementEnd { end: XEnd::Close(_, local), .. } => Tok::EndClose(local.as_str().to_string()),
        XToken::Text { text } => Tok::Text(text.as_str().to_string()),
        XToken::Comment { text, .. } => Tok::Comment(text.as_str().to_string()),
        _ => Tok::Other,
    }
}

/// Relies on `xmlparser::Tokenizer` driven to completion as an
/// iterator: its output is a function of the text alone, named
/// `tokens_of`.  Each borrowed token becomes an owned one; a lexer
/// error becomes one final `Tok::Bad`, and after an error the lexer
/// yields nothing further.
#[verifier::external_body]
fn lex_text(text: &str) -> (r: Vec<Tok>)
    ensures
        r@ == tokens_of(text@),
{
    xmlparser::Tokenizer::from(text).map(
        |res: Result<XToken<'_>, xmlparser::Error>| match res {
            Ok(tok) => convert_token(tok),
            Err(_) => Tok::Bad,
        },
    ).collect()
}

/// First position at or after `i` that does not hold an attribute
/// token.
pub open spec fn attrs_end(toks: Seq<Tok>, i: int) -> int
    decreases toks.len() - i,
{
    if 0 <= i < toks.len() && toks[i] is Attr {
        attrs_end(toks, i + 1)
    } else {
        i
    }
}

/// The attribute pairs the tokens from `i` to `j` carry, in order.
pub open spec fn attrs_of(toks: Seq<Tok>, i: int, j: int) -> Seq<(String, String)>
    decreases j - i,
{
    if j <= i {
        Seq::<(String, String)>::empty()
    } else {
        attrs_of(toks, i, j - 1).push(((toks[j - 1]->Attr_0), (toks[j - 1]->Attr_1)))
    }
}


/// The view of one pair list.
pub open spec fn pairs_view(s: Seq<(String, String)>) -> Seq<(Seq<char>, Seq<char>)> {
    s.map_values(|p: (String, String)| (p.0@, p.1@))
}

/// A node tree at the level of character sequences: what the tree
/// builder constructs, up to string identity.
pub struct GNode {
    pub name: Seq<char>,
    pub attributes: Seq<(Seq<char>, Seq<char>)>,
    pub children: Seq<GElem>,
}

pub enum GElem {
    Comment(Seq<char>),
    Node(GNode),
    Text(Seq<char>),
}

/// Does this built node carry exactly what the tree at sequence level
/// holds?
pub open spec fn node_matches(n: Node, g: GNode) -> bool
    decreases n,
{
    n.name@ == g.name && pairs_view(n.attributes@) == g.attributes && n.children@.len()
        == g.children.len() && (forall|i: int|
        0 <= i < n.children@.len() ==> elem_matches(#[trigger] n.children@[i], g.children[i]))
}

pub open spec fn elem_matches(e: Element, g: GElem) -> bool
    decreases e,
{
    match e {
        Element::Comment(c) => g == GElem::Comment(c@),
        Element::Text(t) => g == GElem::Text(t@),
        Element::Node(n) => g is Node && node_matches(n, g->Node_0),
    }
}

/// Outcome of reading one element from the token stream.
pub enum GNodeRes {
    Done(GNode, int),
    Invalid,
    Lexer,
}

/// Outcome of reading a child list from the token stream.
pub enum GElemsRes {
    Done(Seq<GElem>, int),
    Invalid,
    Lexer,
}

/// Outcome of reading the root element.
pub enum GRootRes {
    Done(GNode),
    NoRoot,
    Invalid,
    Lexer,
}

/// Put one more child in front of a child-list outcome.
pub open spec fn g_cons(e: GElem, r: GElemsRes) -> GElemsRes {
    match r {
        GElemsRes::Done(rest, j) => GElemsRes::Done(seq![e] + rest, j),
        GElemsRes::Invalid => GElemsRes::Invalid,
        GElemsRes::Lexer => GElemsRes::Lexer,
    }
}

/// Put finished children in front of a child-list outcome.
pub open spec fn g_prepend(pre: Seq<GElem>, r: GElemsRes) -> GElemsRes {
    match r {
        GElemsRes::Done(rest, j) => GElemsRes::Done(pre + rest, j),
        GElemsRes::Invalid => GElemsRes::Invalid,
        GElemsRes::Lexer => GElemsRes::Lexer,
    }
}

/// Read one element whose start tag is already consumed: the attribute
/// run, and either a self-closing end or an open end followed by the
/// children up to the matching close.  A stream that ends first or an
/// out-of-place token is a structural fault; a `Bad` token is a lexer
/// fault.
pub open spec fn g_parse_node(toks: Seq<Tok>, i: int, name: Seq<char>) -> GNodeRes
    decreases toks.len() - i, 1int,
{
    let a0 = attrs_end(toks, i);
    let ae = if a0 < i {
        i
    } else if a0 > toks.len() {
        toks.len() as int
    } else {
        a0
    };
    if ae >= toks.len() {
        GNodeRes::Invalid
    } else {
        match toks[ae] {
            Tok::EndEmpty => GNodeRes::Done(
                GNode {
                    name,
                    attributes: pairs_view(attrs_of(toks, i, ae)),
                    children: Seq::<GElem>::empty(),
                },
                ae + 1,
            ),
            Tok::EndOpen => match g_parse_elems(toks, ae + 1, name) {
                GElemsRes::Done(children, j) => GNodeRes::Done(
                    GNode { name, attributes: pairs_view(attrs_of(toks, i, ae)), children },
                    j,
                ),
                GElemsRes::Invalid => GNodeRes::Invalid,
                GElemsRes::Lexer => GNodeRes::Lexer,
            },
            Tok::Bad => GNodeRes::Lexer,
            _ => GNodeRes::Invalid,
        }
    }
}

/// Read a child list up to the close tag of `name`: nested elements,
/// comments, and non-blank text, in token order; blank text is
/// dropped; a mismatched close, the stream's end, or an out-of-place
/// token is a structural fault; a `Bad` token is a lexer fault.
pub open spec fn g_parse_elems(toks: Seq<Tok>, i: int, name: Seq<char>) -> GElemsRes
    decreases toks.len() - i, 0int,
{
    if i < 0 || i >= toks.len() {
        GElemsRes::Invalid
    } else {
        match toks[i] {
            Tok::Text(t) => if crate::strutil::all_spaces(t@) {
                g_parse_elems(toks, i + 1, name)
            } else {
                g_cons(GElem::Text(t@), g_parse_elems(toks, i + 1, name))
            },
            Tok::Comment(c) => g_cons(GElem::Comment(c@), g_parse_elems(toks, i + 1, name)),
            Tok::EndClose(n2) => if n2@ == name {
                GElemsRes::Done(Seq::<GElem>::empty(), i + 1)
            } else {
                GElemsRes::Invalid
            },
            Tok::Start(n2) => match g_parse_node(toks, i + 1, n2@) {
                GNodeRes::Done(child, m) => {
                    let mf = if m <= i + 1 {
                        i + 2
                    } else {
                        m
                    };
                    let m2 = if mf > toks.len() {
                        toks.len() as int
                    } else {
                        mf
                    };
                    g_cons(GElem::Node(child), g_parse_elems(toks, m2, name))
                },
                GNodeRes::Invalid => GElemsRes::Invalid,
                GNodeRes::Lexer => GElemsRes::Lexer,
            },
            Tok::Bad => GElemsRes::Lexer,
            _ => GElemsRes::Invalid,
        }
    }
}

/// Read the root element: nothing at all means the document has no
/// root, as does anything other than an element start.
pub open spec fn g_parse_root(toks: Seq<Tok>) -> GRootRes {
    if toks.len() == 0 {
        GRootRes::NoRoot
    } else {
        match toks[0] {
            Tok::Start(n) => match g_parse_node(toks, 1, n@) {
                GNodeRes::Done(g, _) => GRootRes::Done(g),
                GNodeRes::Invalid => GRootRes::Invalid,
                GNodeRes::Lexer => GRootRes::Lexer,
            },
            Tok::Bad => GRootRes::Lexer,
            _ => GRootRes::NoRoot,
        }
    }
}


proof fn lemma_g_prepend_empty(r: GElemsRes)
    ensures
        g_prepend(Seq::<GElem>::empty(), r) == r,
{
    match r {
        GElemsRes::Done(rest, j) => {
            assert(Seq::<GElem>::empty() + rest =~= rest);
        },
        _ => {},
    }
}

proof fn lemma_g_prepend_cons(pre: Seq<GElem>, e: GElem, r: GElemsRes)
    ensures
        g_prepend(pre, g_cons(e, r)) == g_prepend(pre.push(e), r),
{
    match r {
        GElemsRes::Done(rest, j) => {
            assert(pre + (seq![e] + rest) =~= pre.push(e) + rest);
        },
        _ => {},
    }
}

impl Node {
    /// A node from its parts.
    pub fn new(name: String, attributes: Vec<(String, String)>, children: Vec<Element>) -> (r: Node)
        ensures
            r.name == name,
            r.attributes == attributes,
            r.children == children,
    {
        Node { name, attributes, children }
    }

    /// Build one element whose start tag `tag` is already consumed,
    /// exactly as `g_parse_node` reads the token stream: the attribute
    /// run becomes the node's attributes in token order; a self-closing
    /// end finishes the node; an open end reads the children up to the
    /// matching close; success, the structural fault and the lexer
    /// fault each arise exactly when the stream says so.
    #[verifier::loop_isolation(false)]
    fn parse(toks: &Vec<Tok>, i: usize, tag: String) -> (r: Result<(Node, usize), ParseError>)
        requires
            i <= toks@.len(),
        ensures
            (r is Ok) == (g_parse_node(toks@, i as int, tag@) is Done),
            (r == Err::<(Node, usize), ParseError>(ParseError::InvalidFormat)) == (g_parse_node(
                toks@,
                i as int,
                tag@,
            ) is Invalid),
            (r == Err::<(Node, usize), ParseError>(ParseError::ParserError)) == (g_parse_node(
                toks@,
                i as int,
                tag@,
            ) is Lexer),
            match r {
                Ok(v) => i + 1 <= v.1 <= toks@.len() && v.0.name == tag && v.0.attributes@
                    == attrs_of(toks@, i as int, attrs_end(toks@, i as int)) && node_matches(
                    v.0,
                    g_parse_node(toks@, i as int, tag@)->Done_0,
                ) && g_parse_node(toks@, i as int, tag@)->Done_1 == v.1 as int,
                Err(e) => e == ParseError::InvalidFormat || e == ParseError::ParserError,
            },
        decreases toks@.len() - i,
    {
        let mut attributes: Vec<(String, String)> = Vec::new();
        let mut k = i;
        let n = toks.len();
        while k < n
            invariant
                i <= k <= n,
                n == toks@.len(),
                attrs_end(toks@, i as int) == attrs_end(toks@, k as int),
                attributes@ == attrs_of(toks@, i as int, k as int),
                forall|j: int| i <= j < k ==> (#[trigger] toks@[j]) is Attr,
            decreases n - k,
        {
            match &toks[k] {
                Tok::Attr(key, value) => {
                    attributes.push((key.clone(), value.clone()));
                    proof {
                        assert(attributes@ =~= attrs_of(toks@, i as int, k + 1));
                    }
                },
                Tok::EndEmpty => {
                    assert(attrs_end(toks@, k as int) == k);
                    let node = Node { name: tag, attributes, children: Vec::new() };
                    proof {
                        assert(pairs_view(node.attributes@) =~= pairs_view(
                            attrs_of(toks@, i as int, k as int),
                        ));
                        assert(node.children@.len() == 0);
                        assert(node_matches(node, g_parse_node(toks@, i as int, node.name@)->Done_0));
                    }
                    return Ok((node, k + 1));
                },
                Tok::EndOpen => {
                    assert(attrs_end(toks@, k as int) == k);
                    match Element::parse_children(toks, k + 1, &tag) {
                        Ok((children, m)) => {
                            let node = Node { name: tag, attributes, children };
                            proof {
                                assert(pairs_view(node.attributes@) =~= pairs_view(
                                    attrs_of(toks@, i as int, k as int),
                                ));
                                assert(node_matches(
                                    node,
                                    g_parse_node(toks@, i as int, node.name@)->Done_0,
                                ));
                            }
                            return Ok((node, m));
                        },
                        Err(e) => {
                            return Err(e);
                        },
                    }
                },
                Tok::Bad => {
                    assert(attrs_end(toks@, k as int) == k);
                    return Err(ParseError::ParserError);
                },
                _ => {
                    assert(attrs_end(toks@, k as int) == k);
                    return Err(ParseError::InvalidFormat);
                },
            }
            k = k + 1;
        }
        // the stream ended inside the element
        assert(attrs_end(toks@, k as int) == k);
        Err(ParseError::InvalidFormat)
    }

    /// Read the root element from the token stream; tokens after its
    /// close tag are not examined.  Missing input, or anything other
    /// than an element start, means the document has no root; a lexer
    /// fault at the start is reported as such.
    pub fn parse_root(toks: &Vec<Tok>) -> (r: Result<Node, ParseError>)
        ensures
            match g_parse_root(toks@) {
                GRootRes::Done(g) => r is Ok && node_matches(r->Ok_0, g),
                GRootRes::NoRoot => r == Err::<Node, ParseError>(ParseError::NoRootNode),
                GRootRes::Invalid => r == Err::<Node, ParseError>(ParseError::InvalidFormat),
                GRootRes::Lexer => r == Err::<Node, ParseError>(ParseError::ParserError),
            },
            toks@.len() == 0 ==> r == Err::<Node, ParseError>(ParseError::NoRootNode),
            toks@.len() > 0 && toks@[0] is Start ==> (match r {
                Ok(node) => node.name == toks@[0]->Start_0 && node.attributes@ == attrs_of(
                    toks@,
                    1,
                    attrs_end(toks@, 1),
                ),
                Err(e) => e == ParseError::InvalidFormat || e == ParseError::ParserError,
            }),
            r != Err::<Node, ParseError>(ParseError::SizeLimit),
    {
        if toks.len() == 0 {
            return Err(ParseError::NoRootNode);
        }
        match &toks[0] {
            Tok::Start(name) => {
                match Node::parse(toks, 1, name.clone()) {
                    Ok((node, _)) => Ok(node),
                    Err(e) => Err(e),
                }
            },
            Tok::Bad => Err(ParseError::ParserError),
            _ => Err(ParseError::NoRootNode),
        }
    }
}

impl Element {
    pub fn is_comment(&self) -> (r: bool)
        ensures
            r == (self is Comment),
    {
        matches!(self, Element::Comment(_))
    }

    pub fn as_comment(&self) -> (r: Option<&String>)
        ensures
            match r {
                Some(v) => self is Comment && v == self->Comment_0,
                None => !(self is Comment),
            },
    {
        match self {
            Element::Comment(value) => Some(value),
            _ => None,
        }
    }

    pub fn is_node(&self) -> (r: bool)
        ensures
            r == (self is Node),
    {
        matches!(self, Element::Node(_))
    }

    pub fn as_node(&self) -> (r: Option<&Node>)
        ensures
            match r {
                Some(v) => self is Node && v == self->Node_0,
                None => !(self is Node),
            },
    {
        match self {
            Element::Node(value) => Some(value),
            _ => None,
        }
    }

    pub fn is_text(&self) -> (r: bool)
        ensures
            r == (self is Text),
    {
        matches!(self, Element::Text(_))
    }

    pub fn as_text(&self) -> (r: Option<&String>)
        ensures
            match r {
                Some(v) => self is Text && v == self->Text_0,
                None => !(self is Text),
            },
    {
        match self {
            Element::Text(value) => Some(value),
            _ => None,
        }
    }

    /// Build the child list of an open element up to its close tag,
    /// exactly as `g_parse_elems` reads the token stream: nested
    /// elements, comments, and non-blank text, in token order; blank
    /// text is dropped; a mismatched close, the stream's end, or an
    /// out-of-place token is a structural fault, and a lexer fault is
    /// reported as such.
    #[verifier::loop_isolation(false)]
    fn parse_children(toks: &Vec<Tok>, i: usize, tag: &String) -> (r: Result<
        (Vec<Element>, usize),
        ParseError,
    >)
        requires
            i <= toks@.len(),
        ensures
            (r is Ok) == (g_parse_elems(toks@, i as int, tag@) is Done),
            (r == Err::<(Vec<Element>, usize), ParseError>(ParseError::InvalidFormat)) == (
            g_parse_elems(toks@, i as int, tag@) is Invalid),
            (r == Err::<(Vec<Element>, usize), ParseError>(ParseError::ParserError)) == (
            g_parse_elems(toks@, i as int, tag@) is Lexer),
            match r {
                Ok(v) => i < v.1 <= toks@.len() && toks@[v.1 - 1] is EndClose && (toks@[v.1
                    - 1]->EndClose_0)@ == tag@ && g_parse_elems(toks@, i as int, tag@)->Done_1
                    == v.1 as int && v.0@.len() == g_parse_elems(
                    toks@,
                    i as int,
                    tag@,
                )->Done_0.len() && (forall|j: int|
                    0 <= j < v.0@.len() ==> elem_matches(
                        #[trigger] v.0@[j],
                        g_parse_elems(toks@, i as int, tag@)->Done_0[j],
                    )),
                Err(e) => e == ParseError::InvalidFormat || e == ParseError::ParserError,
            },
        decreases toks@.len() - i,
    {
        let ghost i0 = i as int;
        let mut children: Vec<Element> = Vec::new();
        let ghost mut pre = Seq::<GElem>::empty();
        let mut k = i;
        let n = toks.len();
        proof {
            lemma_g_prepend_empty(g_parse_elems(toks@, i0, tag@));
        }
        while k < n
            invariant
                i <= k <= n,
                n == toks@.len(),
                children@.len() == pre.len(),
                forall|j: int| 0 <= j < pre.len() ==> elem_matches(#[trigger] children@[j], pre[j]),
                g_parse_elems(toks@, i0, tag@) == g_prepend(
                    pre,
                    g_parse_elems(toks@, k as int, tag@),
                ),
            decreases n - k,
        {
            match &toks[k] {
                Tok::Start(name) => {
                    match Node::parse(toks, k + 1, name.clone()) {
                        Ok((child, m)) => {
                            proof {
                                let gchild = g_parse_node(toks@, k + 1, name@)->Done_0;
                                assert(g_parse_elems(toks@, k as int, tag@) == g_cons(
                                    GElem::Node(gchild),
                                    g_parse_elems(toks@, m as int, tag@),
                                ));
                                lemma_g_prepend_cons(
                                    pre,
                                    GElem::Node(gchild),
                                    g_parse_elems(toks@, m as int, tag@),
                                );
                                pre = pre.push(GElem::Node(gchild));
                            }
                            children.push(Element::Node(child));
                            k = m;
                        },
                        Err(e) => {
                            return Err(e);
                        },
                    }
                },
                Tok::Text(text) => {
                    if !is_blank(text.as_str()) {
                        proof {
                            assert(g_parse_elems(toks@, k as int, tag@) == g_cons(
                                GElem::Text(text@),
                                g_parse_elems(toks@, k + 1, tag@),
                            ));
                            lemma_g_prepend_cons(
                                pre,
                                GElem::Text(text@),
                                g_parse_elems(toks@, k + 1, tag@),
                            );
                            pre = pre.push(GElem::Text(text@));
                        }
                        children.push(Element::Text(text.clone()));
                    }
                    k = k + 1;
                },
                Tok::Comment(text) => {
                    proof {
                        assert(g_parse_elems(toks@, k as int, tag@) == g_cons(
                            GElem::Comment(text@),
                            g_parse_elems(toks@, k + 1, tag@),
                        ));
                        lemma_g_prepend_cons(
                            pre,
                            GElem::Comment(text@),
                            g_parse_elems(toks@, k + 1, tag@),
                        );
                        pre = pre.push(GElem::Comment(text@));
                    }
                    children.push(Element::Comment(text.clone()));
                    k = k + 1;
                },
                Tok::EndClose(name) => {
                    if *name == *tag {
                        proof {
                            assert(g_parse_elems(toks@, k as int, tag@) == GElemsRes::Done(
                                Seq::<GElem>::empty(),
                                k + 1,
                            ));
                            assert(pre + Seq::<GElem>::empty() =~= pre);
                        }
                        return Ok((children, k + 1));
                    }
                    return Err(ParseError::InvalidFormat);
                },
                Tok::Bad => {
                    return Err(ParseError::ParserError);
                },
                _ => {
                    return Err(ParseError::InvalidFormat);
                },
            }
        }
        // the stream ended before the closing tag
        Err(ParseError::InvalidFormat)
    }
}

/// Read a markup document into a node tree.  The input must stay under
/// the addressable-length bound, measured in bytes as the size limit
/// names it; past the root element nothing is read.
pub fn parse(text: &str) -> (r: Result<Node, ParseError>)
    ensures
        (r == Err::<Node, ParseError>(ParseError::SizeLimit)) <==> (text.spec_bytes().len()
            as usize > u32::MAX as usize),
        text.spec_bytes().len() as usize <= u32::MAX as usize ==> (match g_parse_root(
            tokens_of(text@),
        ) {
            GRootRes::Done(g) => r is Ok && node_matches(r->Ok_0, g),
            GRootRes::NoRoot => r == Err::<Node, ParseError>(ParseError::NoRootNode),
            GRootRes::Invalid => r == Err::<Node, ParseError>(ParseError::InvalidFormat),
            GRootRes::Lexer => r == Err::<Node, ParseError>(ParseError::ParserError),
        }),
{
    if text.len() > u32::MAX as usize {
        return Err(ParseError::SizeLimit);
    }
    let toks = lex_text(text);
    Node::parse_root(&toks)
}

} // verus!
