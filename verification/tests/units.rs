use mrml::attributes::resolve;
use mrml::attributes::Attributes;
use mrml::context::compute_child_width;
use mrml::header::Header;
use mrml::header::Options;
use mrml::parser::parse;
use mrml::parser::Element;
use mrml::parser::ParseError;
use mrml::size::Size;
use mrml::size::Unit;

#[test]
fn parse_simple_root() {
    let root = parse("<mjml><mj-head></mj-head><mj-body /></mjml>");
    let root = root.unwrap();
    assert_eq!(root.children.len(), 2);
}

#[test]
fn parse_with_weird_text() {
    let root = parse("<mjml><mj-body>&copy;</mj-body></mjml>");
    assert!(root.is_ok());
}

#[test]
fn parse_with_html() {
    let root = parse("<mjml><mj-body><a href=\"toto\">yolo</a></mj-body></mjml>");
    assert!(root.is_ok());
}

#[test]
fn parse_with_comment() {
    let root = parse("<mjml><mj-body><!--<a href=\"toto\">yolo</a>--></mj-body></mjml>");
    assert!(root.is_ok());
    let root = root.unwrap();
    match root.children.get(0).as_ref().unwrap() {
        Element::Node(node) => {
            assert_eq!(node.children.len(), 1);
        }
        _ => assert!(false),
    };
}

#[test]
fn size_round_trip() {
    for text in ["100", "100px", "50%", "100.5px", "0", "0.25", "-3.5px", "33.333px"] {
        let v = Size::parse(text).unwrap();
        let printed = v.to_string();
        let again = Size::parse(printed.as_str()).unwrap();
        assert_eq!(v, again);
    }
    assert_eq!(Size::parse("100.5px").unwrap().to_string(), "100.5px");
    assert_eq!(Size::parse("100.50px").unwrap().to_string(), "100.5px");
    assert_eq!(Size::parse("+7%").unwrap().to_string(), "7%");
    assert_eq!(Size::parse("600px").unwrap(), Size::pixels(600));
}

#[test]
fn size_rejects_malformed() {
    for text in ["", "px", "abc", "12zz", "1.", ".5px", "1..2", "12p", "--3"] {
        assert!(Size::parse(text).is_err(), "{} should not parse", text);
    }
}

#[test]
fn size_arithmetic() {
    // 50% of 600px is 300px
    let pct = Size::percent(50);
    let base = Size::pixels(600);
    assert_eq!(pct.percent_of(&base).unwrap(), Size::pixels(300));
    // percent of percent multiplies directly
    let half = Size::percent(50);
    assert_eq!(half.percent_of(&Size::percent(50)).unwrap().to_string(), "25%");
    // dividing keeps the unit
    assert_eq!(Size::pixels(600).divide(3).unwrap(), Size::pixels(200));
    assert_eq!(Size::pixels(100).divide(8).unwrap().to_string(), "12.5px");
}

#[test]
fn attribute_precedence() {
    let component = Attributes::new().add("a", "1").add("b", "1");
    let document = Attributes::new().add("b", "2").add("c", "2");
    let inherited = Attributes::new().add("c", "3").add("d", "3");
    let node: Vec<(String, String)> = vec![("d".to_string(), "4".to_string())];
    let resolved = resolve(&component, &document, &inherited, &node);
    assert_eq!(resolved.get("a").unwrap(), "1");
    assert_eq!(resolved.get("b").unwrap(), "2");
    assert_eq!(resolved.get("c").unwrap(), "3");
    assert_eq!(resolved.get("d").unwrap(), "4");
    assert!(resolved.get("e").is_none());
}

#[test]
fn width_distribution() {
    // 600px over three rendering children: 200px each; one raw text
    // sibling does not change the shares
    let container = Some(Size::pixels(600));
    let share = compute_child_width(&container, &None, 3).unwrap();
    assert_eq!(share, Size::pixels(200));
    // an explicit width always wins over the computed share
    let explicit = Some(Size::pixels(100));
    let own = compute_child_width(&container, &explicit, 3).unwrap();
    assert_eq!(own, Size::pixels(100));
    // a container of unknown width hands nothing on
    assert!(compute_child_width(&None, &None, 3).is_none());
}

#[test]
fn idempotent_metadata_inserts() {
    let mut header = Header::from_options(&Options::new());
    header.register_font("https://fonts.example/a");
    header.register_font("https://fonts.example/a");
    header.register_font("https://fonts.example/a");
    assert_eq!(header.get_used_font_families().len(), 1);
    header.register_style(".x{}");
    header.register_style(".x{}");
    assert_eq!(header.get_styles().len(), 1);
    header.register_media_query("mj-w-50", Size::percent(50));
    header.register_media_query("mj-w-50", Size::percent(50));
    assert_eq!(header.get_media_queries().len(), 1);
}

#[test]
fn media_query_order_is_deterministic() {
    let mut one = mrml::head::MJHead::empty(Options::new());
    let mut two = mrml::head::MJHead::empty(Options::new());
    let a = ("mj-alpha", Size::percent(25));
    let b = ("mj-beta", Size::percent(50));
    let c = ("mj-gamma", Size::percent(75));
    one.get_mut_header().register_media_query(a.0, a.1);
    one.get_mut_header().register_media_query(b.0, b.1);
    one.get_mut_header().register_media_query(c.0, c.1);
    two.get_mut_header().register_media_query(c.0, c.1);
    two.get_mut_header().register_media_query(a.0, a.1);
    two.get_mut_header().register_media_query(b.0, b.1);
    let left = one.get_media_queries();
    let right = two.get_media_queries();
    assert_eq!(left, right);
    let alpha = left.find("mj-alpha").unwrap();
    let beta = left.find("mj-beta").unwrap();
    let gamma = left.find("mj-gamma").unwrap();
    assert!(alpha < beta && beta < gamma);
}

#[test]
fn title_last_write_wins() {
    let mut header = Header::from_options(&Options::new());
    header.set_title("first");
    header.set_title("second");
    assert_eq!(header.title().unwrap(), "second");
}

#[test]
fn document_defaults_apply() {
    let input = "<mjml><mj-head><mj-attributes><mj-accordion-text font-size=\"20px\"/><mj-class name=\"big\" padding=\"32px\"/></mj-attributes></mj-head><mj-body><mj-accordion-text mj-class=\"big\">T</mj-accordion-text></mj-body></mjml>";
    let html = mrml::mjml::to_html(input, Options::new()).unwrap();
    assert!(html.contains("font-size:20px;"));
    assert!(html.contains("padding:32px;"));
}

#[test]
fn breakpoint_configures_media_query_width() {
    let mut head = mrml::head::MJHead::empty(Options::new());
    head.get_mut_header().register_media_query("mj-w-33", Size::percent(33));
    let css = head.get_media_queries();
    assert!(css.contains("@media only screen and (min-width:480px)"));
    assert!(css.contains(".mj-w-33 { width:33% !important; max-width: 33%; }"));
}

#[test]
fn unit_kinds() {
    assert_eq!(Size::parse("10px").unwrap().unit, Unit::Pixel);
    assert_eq!(Size::parse("10%").unwrap().unit, Unit::Percent);
    assert_eq!(Size::parse("10").unwrap().unit, Unit::Plain);
}

#[test]
fn parse_errors_by_kind() {
    assert_eq!(parse("").unwrap_err(), ParseError::NoRootNode);
    assert_eq!(parse("<mjml>").unwrap_err(), ParseError::InvalidFormat);
    assert!(parse("<mjml><mj-body></mjml>").is_err());
}

#[test]
fn lexer_error_is_reported() {
    assert_eq!(parse("<mjml><<").unwrap_err(), ParseError::ParserError);
}

#[test]
fn accordion_text_rejects_other_tags() {
    let node = parse("<mj-text>hi</mj-text>").unwrap();
    let header = Header::from_options(&Options::new());
    let empty = Attributes::new();
    let parsed = mrml::body::MJAccordionText::parse(&node, &header, &empty);
    assert!(parsed.is_err());
}

#[test]
fn unknown_head_tag_is_fatal() {
    let input = "<mjml><mj-head><mj-bogus></mj-bogus></mj-head></mjml>";
    assert!(mrml::mjml::to_html(input, Options::new()).is_err());
}

#[test]
fn context_pass_assigns_shares() {
    // a 600px body with three rendering children and one raw text
    // child: each child receives the undivided width with the sibling
    // counts, and derives a 200px share from them
    let input = "<mj-body width=\"600px\"><mj-accordion-text>a</mj-accordion-text><mj-accordion-text>b</mj-accordion-text><mj-accordion-text>c</mj-accordion-text>loose text</mj-body>";
    let node = parse(input).unwrap();
    let header = Header::from_options(&Options::new());
    let mut body = mrml::body::MJBody::parse(&node, &header).unwrap();
    body.set_context(mrml::context::Context::empty());
    let children = body.get_children();
    assert_eq!(children.len(), 4);
    match &children[0] {
        mrml::body::BodyElement::AccordionText(at) => {
            let ctx = at.context().clone().unwrap();
            assert_eq!(ctx.width, Some(Size::pixels(600)));
            assert_eq!(ctx.siblings, 4);
            assert_eq!(ctx.raw_siblings, 1);
            assert_eq!(ctx.index, 0);
            // the equal share among the three rendering children
            assert_eq!(ctx.child_width(&None), Some(Size::pixels(200)));
            // an explicit width always wins
            assert_eq!(ctx.child_width(&Some(Size::pixels(100))), Some(Size::pixels(100)));
        }
        _ => panic!("first child should be the accordion text"),
    }
}

#[test]
fn malformed_padding_is_omitted() {
    // a present but unparseable padding degrades to absent: the pane
    // renders with the property omitted
    let input = "<mjml><mj-body><mj-accordion-text padding=\"oops\">Y</mj-accordion-text></mj-body></mjml>";
    let html = mrml::mjml::to_html(input, Options::new()).unwrap();
    assert!(html.contains("Y"));
    assert!(!html.contains("oops"));
    // a well-formed two-value padding stays
    let ok = "<mjml><mj-body><mj-accordion-text padding=\"8px 4px\">Z</mj-accordion-text></mj-body></mjml>";
    let html2 = mrml::mjml::to_html(ok, Options::new()).unwrap();
    assert!(html2.contains("padding:8px 4px;"));
}
