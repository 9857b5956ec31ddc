use mrml::header::Options;
use mrml::mjml::to_html;

fn head_html() -> String {
    let mut s = String::new();
    s.push_str("<head>");
    s.push_str("<title></title>");
    s.push_str("<!--[if !mso]><!-- -->");
    s.push_str("<meta http-equiv=\"X-UA-Compatible\" content=\"IE=edge\">");
    s.push_str("<!--<![endif]-->");
    s.push_str("<meta http-equiv=\"Content-Type\" content=\"text/html; charset=UTF-8\">");
    s.push_str("<meta name=\"viewport\" content=\"width=device-width, initial-scale=1\">");
    s.push_str(mrml::head::style_base().as_str());
    s.push_str("</head>");
    s
}

fn doc(body_inner: &str) -> String {
    let mut s = String::new();
    s.push_str("<!doctype html>");
    s.push_str("<html xmlns=\"http://www.w3.org/1999/xhtml\" xmlns:v=\"urn:schemas-microsoft-com:vml\" xmlns:o=\"urn:schemas-microsoft-com:office:office\">");
    s.push_str(head_html().as_str());
    s.push_str(body_inner);
    s.push_str("</html>");
    s
}

#[test]
fn basic() {
    let input = "<mjml><mj-head></mj-head><mj-body><!-- hello --></mj-body></mjml>";
    let html = to_html(input, Options::new()).unwrap();
    let expected = doc("<body><div><!-- hello --></div></body>");
    assert_eq!(html, expected);
}

#[test]
fn with_options() {
    let input = "<mjml><mj-head></mj-head><mj-body><!-- hello --></mj-body></mjml>";
    let mut opts = Options::new();
    opts.keep_comments = false;
    let html = to_html(input, opts).unwrap();
    let expected = doc("<body><div></div></body>");
    assert_eq!(html, expected);
}

#[test]
fn with_background_color() {
    let input = "<mjml><mj-body background-color=\"#F4F4F4\"></mj-body></mjml>";
    let html = to_html(input, Options::new()).unwrap();
    let expected = doc(
        "<body style=\"background-color:#F4F4F4;\"><div style=\"background-color:#F4F4F4;\"></div></body>",
    );
    assert_eq!(html, expected);
}

#[test]
fn with_class() {
    let input = "<mjml><mj-body css-class=\"body-class\"></mj-body></mjml>";
    let html = to_html(input, Options::new()).unwrap();
    let expected = doc("<body><div class=\"body-class\"></div></body>");
    assert_eq!(html, expected);
}

#[test]
fn with_width() {
    let input = "<mj-body width=\"300px\"></mj-body>";
    let node = mrml::parser::parse(input).unwrap();
    let header = mrml::header::Header::from_options(&Options::new());
    let body = mrml::body::MJBody::parse(&node, &header).unwrap();
    let width = body.get_current_width().unwrap();
    assert_eq!(width, mrml::size::Size::pixels(300));
    let full = "<mjml><mj-body width=\"300px\"></mj-body></mjml>";
    let html = to_html(full, Options::new()).unwrap();
    let expected = doc("<body><div></div></body>");
    assert_eq!(html, expected);
}

#[test]
fn accordion_text_end_to_end() {
    let input = "<mjml><mj-head></mj-head><mj-body width=\"600px\"><mj-accordion-text css-class=\"x\">X</mj-accordion-text></mj-body></mjml>";
    let html = to_html(input, Options::new()).unwrap();
    let mut inner = String::new();
    inner.push_str("<body><div>");
    inner.push_str("<div class=\"mj-accordion-content\">");
    inner.push_str("<table cellspacing=\"0\" cellpadding=\"0\" style=\"width:100%;\">");
    inner.push_str("<tbody><tr>");
    inner.push_str("<td class=\"x\" style=\"font-size:13px;padding:16px;\">X</td>");
    inner.push_str("</tr></tbody></table></div>");
    inner.push_str("</div></body>");
    // no responsive class was generated, so the head holds no media query
    assert!(!html.contains("@media"));
    let expected = doc(inner.as_str());
    assert_eq!(html, expected);
}

#[test]
fn unknown_section_is_fatal() {
    let input = "<mjml><mj-unknown></mj-unknown></mjml>";
    assert!(to_html(input, Options::new()).is_err());
    let nested = "<mjml><mj-body><mj-bogus-tag /></mj-body></mjml>";
    assert!(to_html(nested, Options::new()).is_err());
}

#[test]
fn malformed_attribute_is_tolerated() {
    // a width that does not parse degrades to "absent"; the compile succeeds
    let input = "<mjml><mj-body width=\"banana\"><mj-accordion-text padding=\"oops\">Y</mj-accordion-text></mj-body></mjml>";
    let html = to_html(input, Options::new()).unwrap();
    assert!(html.contains("Y"));
    let node = mrml::parser::parse("<mj-body width=\"banana\"></mj-body>").unwrap();
    let header = mrml::header::Header::from_options(&Options::new());
    let body = mrml::body::MJBody::parse(&node, &header).unwrap();
    assert!(body.get_current_width().is_none());
}

#[test]
fn title_preview_and_styles() {
    let input = "<mjml><mj-head><mj-title>Hello</mj-title><mj-preview>Peek</mj-preview><mj-style>.a{color:red;}</mj-style></mj-head><mj-body></mj-body></mjml>";
    let html = to_html(input, Options::new()).unwrap();
    assert!(html.contains("<title>Hello</title>"));
    assert!(html.contains("<style type=\"text/css\">.a{color:red;}</style>"));
    assert!(html.contains("Peek"));
    assert!(html.contains("display:none;"));
}

#[test]
fn fonts_from_attributes() {
    let input = "<mjml><mj-head><mj-font name=\"Ubuntu\" href=\"https://fonts.example/ubuntu\"></mj-font></mj-head><mj-body><mj-accordion-text font-family=\"Ubuntu, Helvetica\">Z</mj-accordion-text></mj-body></mjml>";
    let html = to_html(input, Options::new()).unwrap();
    assert!(html.contains(
        "<link href=\"https://fonts.example/ubuntu\" rel=\"stylesheet\" type=\"text/css\">"
    ));
    assert!(html.contains("@import url(https://fonts.example/ubuntu);"));
}
