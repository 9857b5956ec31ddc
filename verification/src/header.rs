//! The per-document metadata aggregator: fonts, responsive breakpoints,
//! raw style fragments, title and preview, together with the document's
//! configuration and its declared default attributes.
//!
//! Every insert is idempotent on repeated identical input, and the
//! responsive class entries are kept sorted by class name so the
//! emitted stylesheet never depends on traversal order.

use vstd::prelude::*;
use vstd::string::*;
use crate::attributes::pairs_map;
use crate::attributes::Attributes;
use crate::parser::Node;
use crate::size::Size;
use crate::size::Unit;
use crate::strutil::csv_from;
use crate::strutil::lemma_seq_lt_asym;
use crate::strutil::lemma_seq_lt_trans;
use crate::strutil::lemma_seq_lt_trichotomy;
use crate::strutil::seq_lt;
use crate::strutil::str_lt;
use crate::strutil::trimmed;

verus! {

/// Compilation options: read-only for the duration of one compile.
pub struct Options {
    /// Keep source comments as output comments.
    pub keep_comments: bool,
    /// The width at which the responsive media query activates.
    pub breakpoint: Size,
    /// Known font families and the stylesheet URL of each.
    pub fonts: Vec<(String, String)>,
}

impl Options {
    /// Plain options: comments kept, a 480px breakpoint, no known fonts.
    pub fn new() -> (r: Options)
        ensures
            r.keep_comments == true,
            r.breakpoint == (Size { unit: Unit::Pixel, neg: false, mantissa: 480u64, scale: 0u32 }),
            r.fonts@.len() == 0,
    {
        Options { keep_comments: true, breakpoint: Size::pixels(480), fonts: Vec::new() }
    }
}

impl Default for Options {
    /// The same plain options that `Options::new` gives.
    fn default() -> (r: Options)
        ensures
            r.keep_comments == true,
            r.breakpoint == (Size { unit: Unit::Pixel, neg: false, mantissa: 480u64, scale: 0u32 }),
            r.fonts@.len() == 0,
    {
        Options::new()
    }
}

/// Document-level default attributes declared in the head section,
/// keyed by tag name or by class name.
pub struct DefaultAttributes {
    all: Attributes,
    by_tag: Vec<(String, Attributes)>,
    by_class: Vec<(String, Attributes)>,
}

/// First attribute set registered under `name`, if any.
pub open spec fn attr_lookup(s: Seq<(Seq<char>, Attributes)>, name: Seq<char>, i: int) -> Option<
    Attributes,
>
    decreases s.len() - i,
{
    if i < 0 || i >= s.len() {
        None
    } else if s[i].0 == name {
        Some(s[i].1)
    } else {
        attr_lookup(s, name, i + 1)
    }
}

#[verifier::loop_isolation(false)]
fn attr_find<'a>(v: &'a Vec<(String, Attributes)>, name: &str) -> (r: Option<&'a Attributes>)
    ensures
        match r {
            Some(a) => attr_lookup(
                v@.map_values(|p: (String, Attributes)| (p.0@, p.1)),
                name@,
                0,
            ) == Some(*a) && (exists|j: int| 0 <= j < v@.len() && (#[trigger] v@[j]).1 == *a),
            None => attr_lookup(
                v@.map_values(|p: (String, Attributes)| (p.0@, p.1)),
                name@,
                0,
            ) is None,
        },
{
    let ghost sv = v@.map_values(|p: (String, Attributes)| (p.0@, p.1));
    let k: String = name.to_owned();
    let n = v.len();
    let mut i: usize = 0;
    while i < n
        invariant
            n == v@.len(),
            sv == v@.map_values(|p: (String, Attributes)| (p.0@, p.1)),
            i <= n,
            k@ == name@,
            attr_lookup(sv, name@, 0) == attr_lookup(sv, name@, i as int),
        decreases n - i,
    {
        if v[i].0 == k {
            assert(sv[i as int].0 == name@);
            assert(v@[i as int].1 == v@[i as int].1);
            return Some(&v[i].1);
        }
        assert(sv[i as int].0 != name@);
        i = i + 1;
    }
    None
}

impl DefaultAttributes {
    pub closed spec fn all_map(self) -> Map<Seq<char>, Seq<char>> {
        self.all.as_map()
    }

    pub closed spec fn by_tag_view(self) -> Seq<(Seq<char>, Attributes)> {
        self.by_tag@.map_values(|p: (String, Attributes)| (p.0@, p.1))
    }

    pub closed spec fn by_class_view(self) -> Seq<(Seq<char>, Attributes)> {
        self.by_class@.map_values(|p: (String, Attributes)| (p.0@, p.1))
    }

    pub closed spec fn wf(self) -> bool {
        self.all.wf() && (forall|i: int|
            0 <= i < self.by_tag@.len() ==> (#[trigger] self.by_tag@[i]).1.wf()) && (forall|i: int|
            0 <= i < self.by_class@.len() ==> (#[trigger] self.by_class@[i]).1.wf())
    }

    /// The defaults the document gives nodes of this tag name.
    pub open spec fn tag_map(self, name: Seq<char>) -> Map<Seq<char>, Seq<char>> {
        match attr_lookup(self.by_tag_view(), name, 0) {
            Some(a) => a.as_map(),
            None => Map::<Seq<char>, Seq<char>>::empty(),
        }
    }

    /// The defaults the document gives nodes whose `mj-class` attribute
    /// names a declared class.
    pub open spec fn class_map(self, attrs: Map<Seq<char>, Seq<char>>) -> Map<Seq<char>, Seq<char>> {
        if attrs.contains_key("mj-class"@) {
            match attr_lookup(self.by_class_view(), trimmed(attrs["mj-class"@]), 0) {
                Some(a) => a.as_map(),
                None => Map::<Seq<char>, Seq<char>>::empty(),
            }
        } else {
            Map::<Seq<char>, Seq<char>>::empty()
        }
    }

    /// No declared defaults.
    pub fn new() -> (r: DefaultAttributes)
        ensures
            r.wf(),
            r.all_map() == Map::<Seq<char>, Seq<char>>::empty(),
            r.by_tag_view() == Seq::<(Seq<char>, Attributes)>::empty(),
            r.by_class_view() == Seq::<(Seq<char>, Attributes)>::empty(),
    {
        let r = DefaultAttributes {
            all: Attributes::new(),
            by_tag: Vec::new(),
            by_class: Vec::new(),
        };
        proof {
            assert(r.by_tag_view() =~= Seq::<(Seq<char>, Attributes)>::empty());
            assert(r.by_class_view() =~= Seq::<(Seq<char>, Attributes)>::empty());
        }
        r
    }

    /// Defaults for every tag.
    pub fn set_all(&mut self, attrs: Attributes)
        requires
            old(self).wf(),
            attrs.wf(),
        ensures
            final(self).wf(),
            final(self).all_map() == old(self).all_map().union_prefer_right(attrs.as_map()),
            final(self).by_tag_view() == old(self).by_tag_view(),
            final(self).by_class_view() == old(self).by_class_view(),
    {
        self.all = self.all.concat(&attrs);
    }

    /// Defaults for one tag name; the first declaration of a tag wins.
    pub fn add_tag(&mut self, tag: &str, attrs: Attributes)
        requires
            old(self).wf(),
            attrs.wf(),
        ensures
            final(self).wf(),
            final(self).by_tag_view() == old(self).by_tag_view().push((tag@, attrs)),
            final(self).all_map() == old(self).all_map(),
            final(self).by_class_view() == old(self).by_class_view(),
    {
        let t: String = tag.to_owned();
        self.by_tag.push((t, attrs));
        proof {
            assert(final(self).by_tag_view() =~= old(self).by_tag_view().push((tag@, attrs)));
        }
    }

    /// Defaults for one class name; the first declaration wins.
    pub fn add_class(&mut self, class: &str, attrs: Attributes)
        requires
            old(self).wf(),
            attrs.wf(),
        ensures
            final(self).wf(),
            final(self).by_class_view() == old(self).by_class_view().push((class@, attrs)),
            final(self).all_map() == old(self).all_map(),
            final(self).by_tag_view() == old(self).by_tag_view(),
    {
        let c: String = class.to_owned();
        self.by_class.push((c, attrs));
        proof {
            assert(final(self).by_class_view() =~= old(self).by_class_view().push(
                (class@, attrs),
            ));
        }
    }

    /// The document-level defaults a node receives over `base`: first
    /// the defaults for every tag, over them the defaults of the node's
    /// tag, over them the defaults of the node's declared class.
    pub fn get_attributes(&self, node: &Node, base: Attributes) -> (r: Attributes)
        requires
            self.wf(),
            base.wf(),
        ensures
            r.wf(),
            r.as_map() == base.as_map().union_prefer_right(self.all_map()).union_prefer_right(
                self.tag_map(node.name@),
            ).union_prefer_right(self.class_map(pairs_map(node.attributes@))),
    {
        let mut r = base.concat(&self.all);
        match attr_find(&self.by_tag, node.name.as_str()) {
            Some(a) => {
                assert(a.wf());
                r = r.concat(a);
            },
            None => {
                proof {
                    assert(r.as_map() =~= r.as_map().union_prefer_right(
                        Map::<Seq<char>, Seq<char>>::empty(),
                    ));
                }
            },
        }
        match crate::attributes::pairs_get(&node.attributes, "mj-class") {
            Some(klass) => {
                let trimmed_class = crate::strutil::trim(klass.as_str());
                match attr_find(&self.by_class, trimmed_class.as_str()) {
                    Some(a) => {
                        assert(a.wf());
                        r = r.concat(a);
                    },
                    None => {
                        proof {
                            assert(r.as_map() =~= r.as_map().union_prefer_right(
                                Map::<Seq<char>, Seq<char>>::empty(),
                            ));
                        }
                    },
                }
            },
            None => {
                proof {
                    assert(r.as_map() =~= r.as_map().union_prefer_right(
                        Map::<Seq<char>, Seq<char>>::empty(),
                    ));
                }
            },
        }
        r
    }
}

/// Append when absent, keep when present.
pub open spec fn dedup_push(s: Seq<Seq<char>>, x: Seq<char>) -> Seq<Seq<char>> {
    if s.contains(x) {
        s
    } else {
        s.push(x)
    }
}

/// First URL registered for this font name, if any.
pub open spec fn reg_lookup(
    reg: Seq<(Seq<char>, Seq<char>)>,
    name: Seq<char>,
    i: int,
) -> Option<Seq<char>>
    decreases reg.len() - i,
{
    if i < 0 || i >= reg.len() {
        None
    } else if reg[i].0 == name {
        Some(reg[i].1)
    } else {
        reg_lookup(reg, name, i + 1)
    }
}

/// The font list after registering every named family of `words` that
/// the registry knows, in order.
pub open spec fn fonts_after(
    fonts: Seq<Seq<char>>,
    reg: Seq<(Seq<char>, Seq<char>)>,
    words: Seq<Seq<char>>,
    k: int,
) -> Seq<Seq<char>>
    decreases words.len() - k,
{
    if k < 0 || k >= words.len() {
        fonts
    } else {
        let f2 = match reg_lookup(reg, words[k], 0) {
            Some(u) => dedup_push(fonts, u),
            None => fonts,
        };
        fonts_after(f2, reg, words, k + 1)
    }
}

/// The sorted-entry mapping from class names to widths.
pub open spec fn mqs_map(s: Seq<(Seq<char>, Size)>) -> Map<Seq<char>, Size>
    decreases s.len(),
{
    if s.len() == 0 {
        Map::<Seq<char>, Size>::empty()
    } else {
        mqs_map(s.drop_last()).insert(s.last().0, s.last().1)
    }
}

/// Strictly ascending class names.
pub open spec fn mq_sorted(s: Seq<(Seq<char>, Size)>) -> bool {
    forall|i: int, j: int| 0 <= i < j < s.len() ==> seq_lt((#[trigger] s[i]).0, (#[trigger] s[j]).0)
}

/// The per-document metadata accumulator.
pub struct Header {
    fonts: Vec<String>,
    media_queries: Vec<(String, Size)>,
    styles: Vec<String>,
    title: Option<String>,
    preview: Option<String>,
    breakpoint: Size,
    registry: Vec<(String, String)>,
    defaults: DefaultAttributes,
    keep_comments: bool,
}

impl Header {
    /// Font URLs in order of first use, without duplicates.
    pub closed spec fn fonts_view(self) -> Seq<Seq<char>> {
        self.fonts.deep_view()
    }

    /// Responsive class entries, sorted by class name.
    pub closed spec fn mq_view(self) -> Seq<(Seq<char>, Size)> {
        self.media_queries@.map_values(|p: (String, Size)| (p.0@, p.1))
    }

    pub open spec fn mq_map(self) -> Map<Seq<char>, Size> {
        mqs_map(self.mq_view())
    }

    /// Raw style fragments in order of first use, without duplicates.
    pub closed spec fn styles_view(self) -> Seq<Seq<char>> {
        self.styles.deep_view()
    }

    pub closed spec fn title_view(self) -> Option<Seq<char>> {
        match self.title {
            Some(t) => Some(t@),
            None => None,
        }
    }

    pub closed spec fn preview_view(self) -> Option<Seq<char>> {
        match self.preview {
            Some(t) => Some(t@),
            None => None,
        }
    }

    pub closed spec fn breakpoint_spec(self) -> Size {
        self.breakpoint
    }

    pub closed spec fn registry_view(self) -> Seq<(Seq<char>, Seq<char>)> {
        self.registry.deep_view()
    }

    pub closed spec fn defaults_spec(self) -> DefaultAttributes {
        self.defaults
    }

    pub closed spec fn keep_comments_spec(self) -> bool {
        self.keep_comments
    }

    /// Sorted responsive entries, well-formed widths, well-formed defaults.
    pub open spec fn wf(self) -> bool {
        mq_sorted(self.mq_view()) && (forall|i: int|
            0 <= i < self.mq_view().len() ==> (#[trigger] self.mq_view()[i]).1.wf())
            && self.breakpoint_spec().wf() && self.defaults_spec().wf()
    }

    /// A fresh accumulator holding only configuration.
    #[verifier::loop_isolation(false)]
    pub fn from_options(opts: &Options) -> (r: Header)
        requires
            opts.breakpoint.wf(),
        ensures
            r.wf(),
            r.fonts_view() == Seq::<Seq<char>>::empty(),
            r.mq_view() == Seq::<(Seq<char>, Size)>::empty(),
            r.styles_view() == Seq::<Seq<char>>::empty(),
            r.title_view() is None,
            r.preview_view() is None,
            r.breakpoint_spec() == opts.breakpoint,
            r.registry_view() == opts.fonts.deep_view(),
            r.keep_comments_spec() == opts.keep_comments,
            r.defaults_spec().all_map() == Map::<Seq<char>, Seq<char>>::empty(),
            r.defaults_spec().by_tag_view() == Seq::<(Seq<char>, Attributes)>::empty(),
            r.defaults_spec().by_class_view() == Seq::<(Seq<char>, Attributes)>::empty(),
    {
        let mut registry: Vec<(String, String)> = Vec::new();
        let n = opts.fonts.len();
        let mut i: usize = 0;
        while i < n
            invariant
                n == opts.fonts@.len(),
                i <= n,
                registry.deep_view() =~= opts.fonts.deep_view().take(i as int),
            decreases n - i,
        {
            let name = opts.fonts[i].0.clone();
            let url = opts.fonts[i].1.clone();
            registry.push((name, url));
            proof {
                assert(registry.deep_view() =~= opts.fonts.deep_view().take(i + 1));
            }
            i = i + 1;
        }
        proof {
            assert(opts.fonts.deep_view().take(n as int) == opts.fonts.deep_view());
        }
        let r = Header {
            fonts: Vec::new(),
            media_queries: Vec::new(),
            styles: Vec::new(),
            title: None,
            preview: None,
            breakpoint: opts.breakpoint,
            registry,
            defaults: DefaultAttributes::new(),
            keep_comments: opts.keep_comments,
        };
        proof {
            assert(r.fonts_view() =~= Seq::<Seq<char>>::empty());
            assert(r.mq_view() =~= Seq::<(Seq<char>, Size)>::empty());
            assert(r.styles_view() =~= Seq::<Seq<char>>::empty());
        }
        r
    }


    /// Declare one more known font family (from a head font element).
    pub fn add_registry_font(&mut self, name: &str, href: &str)
        requires
            old(self).wf(),
        ensures
            final(self).wf(),
            final(self).registry_view() == old(self).registry_view().push((name@, href@)),
            final(self).fonts_view() == old(self).fonts_view(),
            final(self).mq_view() == old(self).mq_view(),
            final(self).styles_view() == old(self).styles_view(),
            final(self).title_view() == old(self).title_view(),
            final(self).preview_view() == old(self).preview_view(),
            final(self).breakpoint_spec() == old(self).breakpoint_spec(),
            final(self).defaults_spec() == old(self).defaults_spec(),
            final(self).keep_comments_spec() == old(self).keep_comments_spec(),
    {
        self.registry.push((name.to_owned(), href.to_owned()));
        proof {
            assert(final(self).registry_view() =~= old(self).registry_view().push((name@, href@)));
        }
    }

    /// Override the responsive breakpoint (from a head breakpoint element).
    pub fn set_breakpoint(&mut self, bp: Size)
        requires
            old(self).wf(),
            bp.wf(),
        ensures
            final(self).wf(),
            final(self).breakpoint_spec() == bp,
            final(self).registry_view() == old(self).registry_view(),
            final(self).fonts_view() == old(self).fonts_view(),
            final(self).mq_view() == old(self).mq_view(),
            final(self).styles_view() == old(self).styles_view(),
            final(self).title_view() == old(self).title_view(),
            final(self).preview_view() == old(self).preview_view(),
            final(self).defaults_spec() == old(self).defaults_spec(),
            final(self).keep_comments_spec() == old(self).keep_comments_spec(),
    {
        self.breakpoint = bp;
    }

    /// Replace the declared document defaults (parsed from the head).
    pub fn set_defaults(&mut self, defaults: DefaultAttributes)
        requires
            old(self).wf(),
            defaults.wf(),
        ensures
            final(self).wf(),
            final(self).defaults_spec() == defaults,
            final(self).fonts_view() == old(self).fonts_view(),
            final(self).mq_view() == old(self).mq_view(),
            final(self).styles_view() == old(self).styles_view(),
            final(self).title_view() == old(self).title_view(),
            final(self).preview_view() == old(self).preview_view(),
            final(self).breakpoint_spec() == old(self).breakpoint_spec(),
            final(self).registry_view() == old(self).registry_view(),
            final(self).keep_comments_spec() == old(self).keep_comments_spec(),
    {
        self.defaults = defaults;
    }

    /// Record one font URL; registering the same URL again changes
    /// nothing.
    #[verifier::loop_isolation(false)]
    pub fn register_font(&mut self, url: &str)
        requires
            old(self).wf(),
        ensures
            final(self).wf(),
            final(self).fonts_view() == dedup_push(old(self).fonts_view(), url@),
            final(self).mq_view() == old(self).mq_view(),
            final(self).styles_view() == old(self).styles_view(),
            final(self).title_view() == old(self).title_view(),
            final(self).preview_view() == old(self).preview_view(),
            final(self).breakpoint_spec() == old(self).breakpoint_spec(),
            final(self).registry_view() == old(self).registry_view(),
            final(self).defaults_spec() == old(self).defaults_spec(),
            final(self).keep_comments_spec() == old(self).keep_comments_spec(),
    {
        let u: String = url.to_owned();
        let n = self.fonts.len();
        let mut i: usize = 0;
        while i < n
            invariant
                n == self.fonts@.len(),
                i <= n,
                u@ == url@,
                forall|j: int| 0 <= j < i ==> self.fonts.deep_view()[j] != url@,
            decreases n - i,
        {
            if self.fonts[i] == u {
                assert(self.fonts_view().contains(url@)) by {
                    assert(self.fonts.deep_view()[i as int] == url@);
                }
                return ;
            }
            i = i + 1;
        }
        assert(!self.fonts_view().contains(url@));
        self.fonts.push(u);
        proof {
            assert(final(self).fonts_view() =~= old(self).fonts_view().push(url@));
        }
    }

    /// Record the fonts of a comma-separated family list: each named
    /// family the registry knows contributes its URL.
    #[verifier::loop_isolation(false)]
    pub fn add_font_families(&mut self, value: &str)
        requires
            old(self).wf(),
        ensures
            final(self).wf(),
            final(self).fonts_view() == fonts_after(
                old(self).fonts_view(),
                old(self).registry_view(),
                csv_from(value@, 0),
                0,
            ),
            final(self).mq_view() == old(self).mq_view(),
            final(self).styles_view() == old(self).styles_view(),
            final(self).title_view() == old(self).title_view(),
            final(self).preview_view() == old(self).preview_view(),
            final(self).breakpoint_spec() == old(self).breakpoint_spec(),
            final(self).registry_view() == old(self).registry_view(),
            final(self).defaults_spec() == old(self).defaults_spec(),
            final(self).keep_comments_spec() == old(self).keep_comments_spec(),
    {
        let words = crate::strutil::split_csv(value);
        let ghost wv = words.deep_view();
        let n = words.len();
        let mut k: usize = 0;
        while k < n
            invariant
                self.wf(),
                n == words@.len(),
                wv == words.deep_view(),
                wv == csv_from(value@, 0),
                k <= n,
                fonts_after(old(self).fonts_view(), old(self).registry_view(), wv, 0)
                    == fonts_after(self.fonts_view(), old(self).registry_view(), wv, k as int),
                self.mq_view() == old(self).mq_view(),
                self.styles_view() == old(self).styles_view(),
                self.title_view() == old(self).title_view(),
                self.preview_view() == old(self).preview_view(),
                self.breakpoint_spec() == old(self).breakpoint_spec(),
                self.registry_view() == old(self).registry_view(),
                self.defaults_spec() == old(self).defaults_spec(),
                self.keep_comments_spec() == old(self).keep_comments_spec(),
            decreases n - k,
    {
            let word = &words[k];
            match reg_find(&self.registry, word) {
                Some(u) => {
                    let url = u.clone();
                    self.register_font(url.as_str());
                },
                None => {},
            }
            k = k + 1;
        }
    }

    /// Record one raw style fragment; the same fragment again changes
    /// nothing.
    #[verifier::loop_isolation(false)]
    pub fn register_style(&mut self, css: &str)
        requires
            old(self).wf(),
        ensures
            final(self).wf(),
            final(self).styles_view() == dedup_push(old(self).styles_view(), css@),
            final(self).fonts_view() == old(self).fonts_view(),
            final(self).mq_view() == old(self).mq_view(),
            final(self).title_view() == old(self).title_view(),
            final(self).preview_view() == old(self).preview_view(),
            final(self).breakpoint_spec() == old(self).breakpoint_spec(),
            final(self).registry_view() == old(self).registry_view(),
            final(self).defaults_spec() == old(self).defaults_spec(),
            final(self).keep_comments_spec() == old(self).keep_comments_spec(),
    {
        let u: String = css.to_owned();
        let n = self.styles.len();
        let mut i: usize = 0;
        while i < n
            invariant
                n == self.styles@.len(),
                i <= n,
                u@ == css@,
                forall|j: int| 0 <= j < i ==> self.styles.deep_view()[j] != css@,
            decreases n - i,
        {
            if self.styles[i] == u {
                assert(self.styles_view().contains(css@)) by {
                    assert(self.styles.deep_view()[i as int] == css@);
                }
                return ;
            }
            i = i + 1;
        }
        assert(!self.styles_view().contains(css@));
        self.styles.push(u);
        proof {
            assert(final(self).styles_view() =~= old(self).styles_view().push(css@));
        }
    }

    /// Set the document title; the last write wins.
    pub fn set_title(&mut self, t: &str)
        requires
            old(self).wf(),
        ensures
            final(self).wf(),
            final(self).title_view() == Some(t@),
            final(self).fonts_view() == old(self).fonts_view(),
            final(self).mq_view() == old(self).mq_view(),
            final(self).styles_view() == old(self).styles_view(),
            final(self).preview_view() == old(self).preview_view(),
            final(self).breakpoint_spec() == old(self).breakpoint_spec(),
            final(self).registry_view() == old(self).registry_view(),
            final(self).defaults_spec() == old(self).defaults_spec(),
            final(self).keep_comments_spec() == old(self).keep_comments_spec(),
    {
        self.title = Some(t.to_owned());
    }

    /// Set the preview text; the last write wins.
    pub fn set_preview(&mut self, t: &str)
        requires
            old(self).wf(),
        ensures
            final(self).wf(),
            final(self).preview_view() == Some(t@),
            final(self).fonts_view() == old(self).fonts_view(),
            final(self).mq_view() == old(self).mq_view(),
            final(self).styles_view() == old(self).styles_view(),
            final(self).title_view() == old(self).title_view(),
            final(self).breakpoint_spec() == old(self).breakpoint_spec(),
            final(self).registry_view() == old(self).registry_view(),
            final(self).defaults_spec() == old(self).defaults_spec(),
            final(self).keep_comments_spec() == old(self).keep_comments_spec(),
    {
        self.preview = Some(t.to_owned());
    }

    /// Record a responsive class and its width.  The entry list stays
    /// sorted by class name whatever the insertion order; registering a
    /// class again overwrites its width.
    #[verifier::loop_isolation(false)]
    pub fn register_media_query(&mut self, class_name: &str, size: Size)
        requires
            old(self).wf(),
            size.wf(),
        ensures
            final(self).wf(),
            final(self).mq_map() == old(self).mq_map().insert(class_name@, size),
            final(self).fonts_view() == old(self).fonts_view(),
            final(self).styles_view() == old(self).styles_view(),
            final(self).title_view() == old(self).title_view(),
            final(self).preview_view() == old(self).preview_view(),
            final(self).breakpoint_spec() == old(self).breakpoint_spec(),
            final(self).registry_view() == old(self).registry_view(),
            final(self).defaults_spec() == old(self).defaults_spec(),
            final(self).keep_comments_spec() == old(self).keep_comments_spec(),
    {
        let c: String = class_name.to_owned();
        let n = self.media_queries.len();
        let mut i: usize = 0;
        while i < n && str_lt(self.media_queries[i].0.as_str(), c.as_str())
            invariant
                n == self.media_queries@.len(),
                i <= n,
                c@ == class_name@,
                forall|j: int| 0 <= j < i ==> seq_lt((#[trigger] self.mq_view()[j]).0, class_name@),
            decreases n - i,
        {
            i = i + 1;
        }
        if i < n && self.media_queries[i].0 == c {
            let ghost oldview = self.mq_view();
            self.media_queries.set(i, (c, size));
            proof {
                lemma_mqs_update(oldview, i as int, class_name@, size);
                assert(final(self).mq_view() =~= oldview.update(i as int, (class_name@, size)));
                lemma_sorted_update(oldview, i as int, class_name@, size);
            }
        } else {
            let ghost oldview = self.mq_view();
            proof {
                if i < n {
                    lemma_seq_lt_trichotomy(self.mq_view()[i as int].0, class_name@);
                }
            }
            self.media_queries.insert(i, (c, size));
            proof {
                assert(final(self).mq_view() =~= oldview.insert(i as int, (class_name@, size)));
                lemma_mqs_insert(oldview, i as int, class_name@, size);
                lemma_sorted_insert(oldview, i as int, class_name@, size);
            }
        }
    }

    /// Is at least one responsive class recorded?
    pub fn has_media_queries(&self) -> (r: bool)
        ensures
            r == (self.mq_view().len() != 0),
    {
        self.media_queries.len() != 0
    }

    /// The responsive entries, sorted by class name.
    pub fn get_media_queries(&self) -> (r: &Vec<(String, Size)>)
        ensures
            r@.map_values(|p: (String, Size)| (p.0@, p.1)) == self.mq_view(),
    {
        &self.media_queries
    }

    /// Font URLs in order of first use.
    pub fn get_used_font_families(&self) -> (r: &Vec<String>)
        ensures
            r.deep_view() == self.fonts_view(),
    {
        &self.fonts
    }

    /// Style fragments in order of first use.
    pub fn get_styles(&self) -> (r: &Vec<String>)
        ensures
            r.deep_view() == self.styles_view(),
    {
        &self.styles
    }

    /// The document title, if one was set.
    pub fn title(&self) -> (r: Option<String>)
        ensures
            match r {
                Some(t) => self.title_view() == Some(t@),
                None => self.title_view() is None,
            },
    {
        match &self.title {
            Some(t) => Some(t.clone()),
            None => None,
        }
    }

    /// The preview text, if one was set.
    pub fn preview(&self) -> (r: Option<String>)
        ensures
            match r {
                Some(t) => self.preview_view() == Some(t@),
                None => self.preview_view() is None,
            },
    {
        match &self.preview {
            Some(t) => Some(t.clone()),
            None => None,
        }
    }

    /// The configured responsive breakpoint.
    pub fn breakpoint(&self) -> (r: Size)
        ensures
            r == self.breakpoint_spec(),
    {
        self.breakpoint
    }

    /// Whether source comments are kept in the output.
    pub fn keep_comments(&self) -> (r: bool)
        ensures
            r == self.keep_comments_spec(),
    {
        self.keep_comments
    }

    /// The declared document defaults.
    pub fn default_attributes(&self) -> (r: &DefaultAttributes)
        ensures
            *r == self.defaults_spec(),
    {
        &self.defaults
    }
}

#[verifier::loop_isolation(false)]
fn reg_find<'a>(reg: &'a Vec<(String, String)>, name: &String) -> (r: Option<&'a String>)
    ensures
        match r {
            Some(u) => reg_lookup(reg.deep_view(), name@, 0) == Some(u@),
            None => reg_lookup(reg.deep_view(), name@, 0) is None,
        },
{
    let n = reg.len();
    let mut i: usize = 0;
    while i < n
        invariant
            n == reg@.len(),
            i <= n,
            reg_lookup(reg.deep_view(), name@, 0) == reg_lookup(reg.deep_view(), name@, i as int),
        decreases n - i,
    {
        if reg[i].0 == *name {
            assert(reg.deep_view()[i as int].0 == name@);
            return Some(&reg[i].1);
        }
        assert(reg.deep_view()[i as int].0 != name@);
        i = i + 1;
    }
    None
}

proof fn lemma_mqs_update(s: Seq<(Seq<char>, Size)>, i: int, k: Seq<char>, v: Size)
    requires
        0 <= i < s.len(),
        s[i].0 == k,
        mq_sorted(s),
    ensures
        mqs_map(s.update(i, (k, v))) =~= mqs_map(s).insert(k, v),
    decreases s.len(),
{
    let t = s.update(i, (k, v));
    if i == s.len() - 1 {
        assert(t.drop_last() =~= s.drop_last());
        assert(t.last() == (k, v));
    } else {
        assert(t.drop_last() =~= s.drop_last().update(i, (k, v)));
        assert(t.last() == s.last());
        assert(mq_sorted(s.drop_last())) by {
            assert(forall|a: int, b: int|
                0 <= a < b < s.len() - 1 ==> seq_lt(
                    (#[trigger] s.drop_last()[a]).0,
                    (#[trigger] s.drop_last()[b]).0,
                ));
        }
        lemma_mqs_update(s.drop_last(), i, k, v);
        assert(seq_lt(s[i].0, s[s.len() - 1].0));
        lemma_seq_lt_asym(s[i].0, s[s.len() - 1].0);
        assert(s.last().0 != k);
    }
}

proof fn lemma_mqs_insert(s: Seq<(Seq<char>, Size)>, i: int, k: Seq<char>, v: Size)
    requires
        0 <= i <= s.len(),
        mq_sorted(s),
        forall|j: int| 0 <= j < i ==> seq_lt((#[trigger] s[j]).0, k),
        forall|j: int| i <= j < s.len() ==> (#[trigger] s[j]).0 != k,
    ensures
        mqs_map(s.insert(i, (k, v))) =~= mqs_map(s).insert(k, v),
    decreases s.len(),
{
    let t = s.insert(i, (k, v));
    if i == s.len() {
        assert(t.drop_last() =~= s);
        assert(t.last() == (k, v));
    } else {
        assert(t.drop_last() =~= s.drop_last().insert(i, (k, v)));
        assert(t.last() == s.last());
        assert(mq_sorted(s.drop_last())) by {
            assert(forall|a: int, b: int|
                0 <= a < b < s.len() - 1 ==> seq_lt(
                    (#[trigger] s.drop_last()[a]).0,
                    (#[trigger] s.drop_last()[b]).0,
                ));
        }
        lemma_mqs_insert(s.drop_last(), i, k, v);
        assert(s.last().0 != k);
    }
}

proof fn lemma_sorted_update(s: Seq<(Seq<char>, Size)>, i: int, k: Seq<char>, v: Size)
    requires
        0 <= i < s.len(),
        s[i].0 == k,
        mq_sorted(s),
    ensures
        mq_sorted(s.update(i, (k, v))),
{
    let t = s.update(i, (k, v));
    assert forall|a: int, b: int| 0 <= a < b < t.len() implies seq_lt(
        (#[trigger] t[a]).0,
        (#[trigger] t[b]).0,
    ) by {
        assert(t[a].0 == s[a].0);
        assert(t[b].0 == s[b].0);
    }
}

proof fn lemma_sorted_insert(s: Seq<(Seq<char>, Size)>, i: int, k: Seq<char>, v: Size)
    requires
        0 <= i <= s.len(),
        mq_sorted(s),
        forall|j: int| 0 <= j < i ==> seq_lt((#[trigger] s[j]).0, k),
        i < s.len() ==> seq_lt(k, s[i].0),
    ensures
        mq_sorted(s.insert(i, (k, v))),
{
    let t = s.insert(i, (k, v));
    assert forall|a: int, b: int| 0 <= a < b < t.len() implies seq_lt(
        (#[trigger] t[a]).0,
        (#[trigger] t[b]).0,
    ) by {
        if a < i && b < i {
            assert(t[a].0 == s[a].0 && t[b].0 == s[b].0);
        } else if a < i && b == i {
            assert(t[a].0 == s[a].0 && t[b].0 == k);
        } else if a < i && b > i {
            assert(t[a].0 == s[a].0 && t[b].0 == s[b - 1].0);
            assert(i <= b - 1 < s.len() && a < b - 1);
            assert(seq_lt(s[a].0, s[b - 1].0));
        } else if a == i {
            assert(t[a].0 == k && t[b].0 == s[b - 1].0);
            assert(i <= b - 1 < s.len());
            if b - 1 == i {
                assert(seq_lt(k, s[i].0));
            } else {
                assert(seq_lt(k, s[i].0));
                assert(seq_lt(s[i].0, s[b - 1].0));
                lemma_seq_lt_trans(k, s[i].0, s[b - 1].0);
            }
        } else {
            assert(t[a].0 == s[a - 1].0 && t[b].0 == s[b - 1].0);
            assert(seq_lt(s[a - 1].0, s[b - 1].0));
        }
    }
}

/// Deterministic responsive ordering: two accumulators that hold the
/// same class-to-width mapping expose the same sorted entry list,
/// whatever order the classes were registered in.
pub proof fn lemma_media_query_determinism(a: Header, b: Header)
    requires
        a.wf(),
        b.wf(),
        a.mq_map() == b.mq_map(),
    ensures
        a.mq_view() == b.mq_view(),
{
    lemma_sorted_entries_equal(a.mq_view(), b.mq_view());
}

proof fn lemma_mqs_map_keys(s: Seq<(Seq<char>, Size)>, k: Seq<char>)
    ensures
        mqs_map(s).contains_key(k) <==> (exists|i: int| 0 <= i < s.len() && (#[trigger] s[i]).0 == k),
    decreases s.len(),
{
    if s.len() > 0 {
        lemma_mqs_map_keys(s.drop_last(), k);
        if mqs_map(s).contains_key(k) {
            if s.last().0 == k {
                assert(s[s.len() - 1].0 == k);
            } else {
                assert(mqs_map(s.drop_last()).contains_key(k));
                let i = choose|i: int| 0 <= i < s.len() - 1 && (#[trigger] s.drop_last()[i]).0 == k;
                assert(s[i].0 == k);
            }
        }
        if exists|i: int| 0 <= i < s.len() && (#[trigger] s[i]).0 == k {
            let i = choose|i: int| 0 <= i < s.len() && (#[trigger] s[i]).0 == k;
            if i == s.len() - 1 {
            } else {
                assert(s.drop_last()[i].0 == k);
            }
        }
    }
}

proof fn lemma_mqs_map_last(s: Seq<(Seq<char>, Size)>)
    requires
        s.len() > 0,
        mq_sorted(s),
    ensures
        mqs_map(s).contains_key(s.last().0),
        mqs_map(s)[s.last().0] == s.last().1,
        mqs_map(s.drop_last()) =~= mqs_map(s).remove(s.last().0),
{
    assert(forall|j: int| 0 <= j < s.len() - 1 ==> seq_lt((#[trigger] s[j]).0, s[s.len() - 1].0));
    assert forall|j: int| 0 <= j < s.len() - 1 implies (#[trigger] s.drop_last()[j]).0 != s.last().0
        by {
        lemma_seq_lt_asym(s[j].0, s[s.len() - 1].0);
    }
    lemma_mqs_map_keys(s.drop_last(), s.last().0);
    assert(!mqs_map(s.drop_last()).contains_key(s.last().0));
}

proof fn lemma_sorted_entries_equal(x: Seq<(Seq<char>, Size)>, y: Seq<(Seq<char>, Size)>)
    requires
        mq_sorted(x),
        mq_sorted(y),
        mqs_map(x) == mqs_map(y),
    ensures
        x == y,
    decreases x.len(),
{
    if x.len() == 0 && y.len() == 0 {
        assert(x =~= y);
    } else if x.len() == 0 {
        lemma_mqs_map_last(y);
        assert(mqs_map(x) =~= Map::<Seq<char>, Size>::empty());
        assert(false);
    } else if y.len() == 0 {
        lemma_mqs_map_last(x);
        assert(mqs_map(y) =~= Map::<Seq<char>, Size>::empty());
        assert(false);
    } else {
        lemma_mqs_map_last(x);
        lemma_mqs_map_last(y);
        let kx = x.last().0;
        let ky = y.last().0;
        // each final key is the greatest of its map; the maps agree
        lemma_mqs_map_keys(y, kx);
        assert(mqs_map(y).contains_key(kx));
        let iy = choose|i: int| 0 <= i < y.len() && (#[trigger] y[i]).0 == kx;
        lemma_mqs_map_keys(x, ky);
        assert(mqs_map(x).contains_key(ky));
        let ix = choose|i: int| 0 <= i < x.len() && (#[trigger] x[i]).0 == ky;
        if kx != ky {
            if ix == x.len() - 1 {
                assert(x[ix].0 == kx);
                assert(false);
            } else if iy == y.len() - 1 {
                assert(y[iy].0 == ky);
                assert(false);
            } else {
                assert(seq_lt(x[ix].0, x[x.len() - 1].0));
                assert(seq_lt(y[iy].0, y[y.len() - 1].0));
                assert(seq_lt(ky, kx));
                assert(seq_lt(kx, ky));
                lemma_seq_lt_asym(kx, ky);
                assert(false);
            }
        }
        assert(kx == ky);
        assert(x.last().1 == y.last().1) by {
            assert(mqs_map(x)[kx] == x.last().1);
            assert(mqs_map(y)[kx] == y.last().1);
        }
        assert(mq_sorted(x.drop_last())) by {
            assert(forall|a: int, b: int|
                0 <= a < b < x.len() - 1 ==> seq_lt(
                    (#[trigger] x.drop_last()[a]).0,
                    (#[trigger] x.drop_last()[b]).0,
                ));
        }
        assert(mq_sorted(y.drop_last())) by {
            assert(forall|a: int, b: int|
                0 <= a < b < y.len() - 1 ==> seq_lt(
                    (#[trigger] y.drop_last()[a]).0,
                    (#[trigger] y.drop_last()[b]).0,
                ));
        }
        assert(mqs_map(x.drop_last()) =~= mqs_map(y.drop_last()));
        lemma_sorted_entries_equal(x.drop_last(), y.drop_last());
        assert(x.len() == y.len()) by {
            assert(x.drop_last().len() == y.drop_last().len());
        }
        assert forall|i: int| 0 <= i < x.len() implies x[i] == y[i] by {
            if i < x.len() - 1 {
                assert(x.drop_last()[i] == x[i]);
                assert(y.drop_last()[i] == y[i]);
            } else {
                assert(x.last() == y.last());
            }
        }
        assert(x =~= y);
    }
}

/// Idempotent inserts: registering what is already present leaves the
/// accumulator's list unchanged, so the same URL or fragment twice
/// yields exactly one entry.
pub proof fn lemma_insert_idempotent(s: Seq<Seq<char>>, x: Seq<char>)
    ensures
        dedup_push(dedup_push(s, x), x) == dedup_push(s, x),
{
    if !s.contains(x) {
        assert(s.push(x)[s.len() as int] == x);
        assert(s.push(x).contains(x));
    }
}

} // verus!
