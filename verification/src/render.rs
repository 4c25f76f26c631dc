//! The content exporter: a stream of start/end events becomes HTML.
//!
//! Three layers mirror the handler stack: a common handler maps each element
//! to its tag pair, carrying the pending attributes and the footnote
//! counter; an index handler on top of it skips titles and child headings;
//! a post handler renders deeper titles as anchored sub-headings.  The
//! outside world enters only through the code highlighter, the URL
//! resolver, and macro expansions handed in as values.

use vstd::prelude::*;

use crate::Error;
use crate::config::{Config, TodoKeywords, spec_join_path};
use crate::context::{CtxValue, PageContext};
use crate::doc::{Document, Element, OrgEvent, lookup, spec_lookup};
use crate::macros::Macros;
use crate::page::{Page, PageEnum, build_page, page_models};
use crate::rss::{FeedItem, feed_item_for, generate_rss};
use crate::tera::{spec_get_template, tera_templates};
use crate::slug::slugify_spec;
use crate::strings::{
    chars_to_string, dec_str, escape_str, lower_str, push_dec, push_escaped, push_str, str_eq,
    str_starts_with, str_ends_with, ascii_lower,
};

verus! {

/// The highlighted HTML of a code block, as the outside highlighter renders
/// it for a theme and language.
pub uninterp spec fn highlighted_html_of(
    theme: Seq<char>,
    lang: Seq<char>,
    source: Seq<char>,
) -> Seq<char>;

/// Relies on syntect (through the parser crate's export support): the
/// highlighted HTML of a source text depends on the theme, the language
/// token and the text alone.  An unknown language falls back to plain text,
/// and an unknown theme leaves the source unhighlighted.
#[verifier::external_body]
fn highlight_source(theme: &str, lang: &str, source: &str) -> (r: String)
    ensures
        r@ == highlighted_html_of(theme@, lang@, source@),
{
    let ss = orgize::syntect::parsing::SyntaxSet::load_defaults_newlines();
    let ts = orgize::syntect::highlighting::ThemeSet::load_defaults();
    let syntax = ss.find_syntax_by_token(lang).unwrap_or_else(|| ss.find_syntax_plain_text());
    let th = match ts.themes.get(theme) {
        Some(t) => t,
        None => return source.to_string(),
    };
    let mut lines = orgize::syntect::easy::HighlightLines::new(syntax, th);
    let regions = lines.highlight(source, &ss);
    orgize::syntect::html::styled_line_to_highlighted_html(
        &regions[..],
        orgize::syntect::html::IncludeBackground::No,
    )
}

/// The absolute form of `path` against `base`, as the outside URL library
/// resolves it; `None` where the base or the join is rejected.
pub uninterp spec fn url_join_of(base: Seq<char>, path: Seq<char>) -> Option<Seq<char>>;

/// Relies on `url::Url::parse` and `Url::join`: resolving a path against a
/// base depends on the two texts alone.
#[verifier::external_body]
fn resolve_url(base: &str, path: &str) -> (r: Option<String>)
    ensures
        match r {
            Some(u) => url_join_of(base@, path@) == Some(u@),
            None => url_join_of(base@, path@) is None,
        },
{
    url::Url::parse(base).ok().and_then(|b| b.join(path).ok()).map(|u| u.as_str().to_string())
}

/// The views of an attribute list.
pub open spec fn attrs_view(v: Seq<(String, String)>) -> Seq<(Seq<char>, Seq<char>)> {
    v.map_values(|p: (String, String)| (p.0@, p.1@))
}

/// The position of the first attribute with the given name.
pub open spec fn find_key(attrs: Seq<(Seq<char>, Seq<char>)>, key: Seq<char>) -> Option<int>
    decreases attrs.len(),
{
    if attrs.len() == 0 {
        None
    } else if attrs[0].0 == key {
        Some(0)
    } else {
        match find_key(attrs.skip(1), key) {
            Some(i) => Some(i + 1),
            None => None,
        }
    }
}

/// Append a class to the pending attributes: added to an existing `class`
/// attribute after a space, or opening one; an empty class changes nothing.
pub open spec fn add_class(
    attrs: Seq<(Seq<char>, Seq<char>)>,
    class: Seq<char>,
) -> Seq<(Seq<char>, Seq<char>)> {
    if class.len() == 0 {
        attrs
    } else {
        match find_key(attrs, "class"@) {
            Some(i) => attrs.update(i, (attrs[i].0, attrs[i].1 + " "@ + class)),
            None => attrs.push(("class"@, class)),
        }
    }
}

/// Set an attribute: replacing the first of that name, or appending.
pub open spec fn attr_insert(
    attrs: Seq<(Seq<char>, Seq<char>)>,
    key: Seq<char>,
    value: Seq<char>,
) -> Seq<(Seq<char>, Seq<char>)> {
    match find_key(attrs, key) {
        Some(i) => attrs.update(i, (key, value)),
        None => attrs.push((key, value)),
    }
}

/// The value of an attribute, if set.
pub open spec fn attr_get(
    attrs: Seq<(Seq<char>, Seq<char>)>,
    key: Seq<char>,
) -> Option<Seq<char>> {
    match find_key(attrs, key) {
        Some(i) => Some(attrs[i].1),
        None => None,
    }
}

/// The rendered form of the pending attributes: ` name="value" ` for each,
/// in order.
pub open spec fn attrs_str(attrs: Seq<(Seq<char>, Seq<char>)>) -> Seq<char>
    decreases attrs.len(),
{
    if attrs.len() == 0 {
        Seq::empty()
    } else {
        " "@ + attrs[0].0 + "=\""@ + attrs[0].1 + "\" "@ + attrs_str(attrs.skip(1))
    }
}

/// The common handler: pending attributes, the footnote counter, and what
/// the site dictates to links and code blocks.
pub struct CommonHtmlHandler {
    /// Attributes waiting for the next block, set by keywords.
    pub attributes: Vec<(String, String)>,
    /// Number of auto-numbered footnote references seen so far.
    pub footnote_id: usize,
    /// Highlighting theme for code blocks.
    pub theme: String,
    /// The static-assets prefix stripped from link paths.
    pub static_prefix: String,
    /// The site base URL that links resolve against.
    pub base_url: String,
}

impl CommonHtmlHandler {
    /// Add `class` to the pending attributes and render them all.
    fn render_attributes(&mut self, class: &str) -> (r: String)
        ensures
            attrs_view(final(self).attributes@) == add_class(
                attrs_view(old(self).attributes@),
                class@,
            ),
            r@ == attrs_str(add_class(attrs_view(old(self).attributes@), class@)),
            final(self).footnote_id == old(self).footnote_id,
            final(self).theme == old(self).theme,
            final(self).static_prefix == old(self).static_prefix,
            final(self).base_url == old(self).base_url,
    {
        if class.unicode_len() > 0 {
            match self.find_attr("class") {
                Some(i) => {
                    let (k, v) = self.attributes.remove(i);
                    let mut v2 = v;
                    v2.append(" ");
                    v2.append(class);
                    self.attributes.insert(i, (k, v2));
                    proof {
                        let olda = attrs_view(old(self).attributes@);
                        assert(attrs_view(self.attributes@) =~= olda.update(
                            i as int,
                            (olda[i as int].0, olda[i as int].1 + " "@ + class@),
                        ));
                    }
                },
                None => {
                    self.attributes.push(("class".to_owned(), class.to_owned()));
                    proof {
                        assert(attrs_view(self.attributes@) =~= attrs_view(
                            old(self).attributes@,
                        ).push(("class"@, class@)));
                    }
                },
            }
        }
        let mut out: Vec<char> = Vec::new();
        let ghost target = add_class(attrs_view(old(self).attributes@), class@);
        proof {
            assert(attrs_view(self.attributes@) =~= target);
        }
        let mut i: usize = 0;
        proof {
            assert(target.skip(0) =~= target);
        }
        while i < self.attributes.len()
            invariant
                i <= self.attributes@.len(),
                attrs_view(self.attributes@) == target,
                out@ + attrs_str(target.skip(i as int)) == attrs_str(target),
            decreases self.attributes@.len() - i,
        {
            proof {
                assert(target.skip(i as int)[0] == target[i as int]);
                assert(target[i as int] == (self.attributes@[i as int].0@,
                self.attributes@[i as int].1@));
                assert(target.skip(i as int).skip(1) =~= target.skip(i + 1 as int));
            }
            push_str(&mut out, " ");
            push_str(&mut out, self.attributes[i].0.as_str());
            push_str(&mut out, "=\"");
            push_str(&mut out, self.attributes[i].1.as_str());
            push_str(&mut out, "\" ");
            i = i + 1;
        }
        proof {
            assert(target.skip(target.len() as int) =~= Seq::<(Seq<char>, Seq<char>)>::empty());
            assert(attrs_str(Seq::<(Seq<char>, Seq<char>)>::empty()) == Seq::<char>::empty());
            assert(out@ + Seq::<char>::empty() =~= out@);
        }
        chars_to_string(&out)
    }

    /// The position of the first pending attribute with this name.
    fn find_attr(&self, key: &str) -> (r: Option<usize>)
        ensures
            match r {
                Some(i) => find_key(attrs_view(self.attributes@), key@) == Some(i as int) && i
                    < self.attributes@.len(),
                None => find_key(attrs_view(self.attributes@), key@) is None,
            },
    {
        let mut i: usize = 0;
        proof {
            assert(attrs_view(self.attributes@).skip(0) =~= attrs_view(self.attributes@));
        }
        while i < self.attributes.len()
            invariant
                i <= self.attributes@.len(),
                forall|j: int| 0 <= j < i ==> attrs_view(self.attributes@)[j].0 != key@,
                find_key(attrs_view(self.attributes@), key@) == match find_key(
                    attrs_view(self.attributes@).skip(i as int),
                    key@,
                ) {
                    Some(x) => Some(x + i),
                    None => None::<int>,
                },
            decreases self.attributes@.len() - i,
        {
            proof {
                let av = attrs_view(self.attributes@);
                assert(av.skip(i as int)[0] == av[i as int]);
                assert(av[i as int] == (self.attributes@[i as int].0@,
                self.attributes@[i as int].1@));
                assert(av.skip(i as int).skip(1) =~= av.skip(i + 1 as int));
            }
            if str_eq(self.attributes[i].0.as_str(), key) {
                return Some(i);
            }
            i = i + 1;
        }
        proof {
            let av = attrs_view(self.attributes@);
            assert(av.skip(av.len() as int) =~= Seq::<(Seq<char>, Seq<char>)>::empty());
        }
        None
    }

    /// Set a pending attribute, replacing one of the same name.
    fn set_attr(&mut self, key: &str, value: &str)
        ensures
            attrs_view(final(self).attributes@) == attr_insert(
                attrs_view(old(self).attributes@),
                key@,
                value@,
            ),
            final(self).footnote_id == old(self).footnote_id,
            final(self).theme == old(self).theme,
            final(self).static_prefix == old(self).static_prefix,
            final(self).base_url == old(self).base_url,
    {
        match self.find_attr(key) {
            Some(i) => {
                self.attributes.remove(i);
                self.attributes.insert(i, (key.to_owned(), value.to_owned()));
                proof {
                    assert(attrs_view(self.attributes@) =~= attrs_view(
                        old(self).attributes@,
                    ).update(i as int, (key@, value@)));
                }
            },
            None => {
                self.attributes.push((key.to_owned(), value.to_owned()));
                proof {
                    assert(attrs_view(self.attributes@) =~= attrs_view(
                        old(self).attributes@,
                    ).push((key@, value@)));
                }
            },
        }
    }

    /// The value of a pending attribute.
    fn get_attr(&self, key: &str) -> (r: Option<&String>)
        ensures
            match r {
                Some(v) => attr_get(attrs_view(self.attributes@), key@) == Some(v@),
                None => attr_get(attrs_view(self.attributes@), key@) is None,
            },
    {
        match self.find_attr(key) {
            Some(i) => Some(&self.attributes[i].1),
            None => None,
        }
    }
}

/// Strip every leading repetition of `pat` off `s`.
pub open spec fn trim_all(s: Seq<char>, pat: Seq<char>) -> Seq<char>
    decreases s.len(),
{
    if pat.len() > 0 && s.len() >= pat.len() && s.subrange(0, pat.len() as int) == pat {
        trim_all(s.skip(pat.len() as int), pat)
    } else {
        s
    }
}

pub fn trim_all_exec(s: &str, pat: &str) -> (r: String)
    requires
        pat@.len() > 0,
    ensures
        r@ == trim_all(s@, pat@),
    decreases s@.len(),
{
    if str_starts_with(s, pat) && s.unicode_len() >= pat.unicode_len() {
        let rest = s.substring_char(pat.unicode_len(), s.unicode_len());
        trim_all_exec(rest, pat)
    } else {
        s.to_owned()
    }
}

/// Whether `s` starts with `p`.
pub open spec fn spec_starts_with(s: Seq<char>, p: Seq<char>) -> bool {
    s.len() >= p.len() && s.subrange(0, p.len() as int) == p
}

/// Whether `s` ends with `p`.
pub open spec fn spec_ends_with(s: Seq<char>, p: Seq<char>) -> bool {
    s.len() >= p.len() && s.subrange(s.len() - p.len(), s.len() as int) == p
}

/// A link path as resolved against the site: any `file:` markers dropped,
/// then any static-directory prefix forms.
pub open spec fn stripped_link_path(p: Seq<char>, sp: Seq<char>) -> Seq<char> {
    let p1 = trim_all(p, "file:"@);
    let p2 = trim_all(p1, "./"@ + sp);
    let p3 = trim_all(p2, "."@ + sp);
    trim_all(p3, "/"@ + sp)
}

/// Whether a lower-cased path names an image file.
pub open spec fn spec_is_image(low: Seq<char>) -> bool {
    spec_ends_with(low, ".jpg"@) || spec_ends_with(low, ".jpeg"@) || spec_ends_with(low, ".png"@)
        || spec_ends_with(low, ".gif"@) || spec_ends_with(low, ".webp"@)
}

/// The first space of a text, if any.
pub open spec fn first_space(s: Seq<char>) -> Option<int>
    decreases s.len(),
{
    if s.len() == 0 {
        None
    } else if s[0] == ' ' {
        Some(0)
    } else {
        match first_space(s.skip(1)) {
            Some(i) => Some(i + 1),
            None => None,
        }
    }
}

/// The common handler's varying state: pending attributes, the footnote
/// counter, and how many macro expansions were consumed.
pub ghost struct CommonS {
    pub attrs: Seq<(Seq<char>, Seq<char>)>,
    pub fid: int,
    pub ei: int,
}

/// The site-wide inputs of the common handler.
pub ghost struct RenderCfg {
    pub theme: Seq<char>,
    pub static_prefix: Seq<char>,
    pub base_url: Seq<char>,
}

pub open spec fn ccfg(h: CommonHtmlHandler) -> RenderCfg {
    RenderCfg { theme: h.theme@, static_prefix: h.static_prefix@, base_url: h.base_url@ }
}

pub open spec fn cstate(h: CommonHtmlHandler, ei: int) -> CommonS {
    CommonS { attrs: attrs_view(h.attributes@), fid: h.footnote_id as int, ei }
}

/// The views of the expansion list.
pub open spec fn exps_view(v: Seq<Option<String>>) -> Seq<Option<Seq<char>>> {
    v.map_values(
        |o: Option<String>|
            match o {
                Some(s) => Some(s@),
                None => None,
            },
    )
}

/// The markup of one footnote reference.
pub open spec fn fnref_out(lab: Seq<char>) -> Seq<char> {
    "<sup id=\"fnref-"@ + lab + "\"><a href=\"#fn-"@ + lab + "\" class=\"footnote-ref\">"@ + lab
        + "</a></sup>"@
}

/// A heading depth clamped to what HTML offers.
pub open spec fn clamp6(lv: int) -> nat {
    if lv <= 6 {
        if lv < 0 {
            0
        } else {
            lv as nat
        }
    } else {
        6
    }
}

/// What the common handler does with one start event: the next state and
/// the emitted markup, or the path of a link that would not resolve.
pub open spec fn common_start_spec(
    cfg: RenderCfg,
    s: CommonS,
    e: Element,
    exps: Seq<Option<Seq<char>>>,
) -> Result<(CommonS, Seq<char>), Seq<char>> {
    match e {
        Element::FnRef { label, .. } => {
            if label@.len() == 0 {
                Ok(
                    (
                        CommonS { fid: s.fid + 1, ..s },
                        fnref_out(dec_str((s.fid + 1) as nat)),
                    ),
                )
            } else {
                Ok((s, fnref_out(label@)))
            }
        },
        Element::MacroCall { .. } => {
            let out = if 0 <= s.ei < exps.len() {
                match exps[s.ei] {
                    Some(x) => x,
                    None => Seq::<char>::empty(),
                }
            } else {
                Seq::<char>::empty()
            };
            Ok((CommonS { ei: s.ei + 1, ..s }, out))
        },
        Element::Paragraph => Ok(
            (
                CommonS { attrs: add_class(s.attrs, ""@), ..s },
                "<p "@ + attrs_str(add_class(s.attrs, ""@)) + ">"@,
            ),
        ),
        Element::QuoteBlock => Ok(
            (
                CommonS { attrs: add_class(s.attrs, ""@), ..s },
                "<blockquote "@ + attrs_str(add_class(s.attrs, ""@)) + ">"@,
            ),
        ),
        Element::CenterBlock => Ok(
            (
                CommonS { attrs: add_class(s.attrs, "center"@), ..s },
                "<div "@ + attrs_str(add_class(s.attrs, "center"@)) + ">"@,
            ),
        ),
        Element::VerseBlock => Ok(
            (
                CommonS { attrs: add_class(s.attrs, "verse"@), ..s },
                "<p "@ + attrs_str(add_class(s.attrs, "verse"@)) + ">"@,
            ),
        ),
        Element::Bold => Ok(
            (
                CommonS { attrs: add_class(s.attrs, ""@), ..s },
                "<b "@ + attrs_str(add_class(s.attrs, ""@)) + ">"@,
            ),
        ),
        Element::Italic => Ok(
            (
                CommonS { attrs: add_class(s.attrs, ""@), ..s },
                "<i "@ + attrs_str(add_class(s.attrs, ""@)) + ">"@,
            ),
        ),
        Element::Strike => Ok(
            (
                CommonS { attrs: add_class(s.attrs, ""@), ..s },
                "<s "@ + attrs_str(add_class(s.attrs, ""@)) + ">"@,
            ),
        ),
        Element::Underline => Ok(
            (
                CommonS { attrs: add_class(s.attrs, ""@), ..s },
                "<u "@ + attrs_str(add_class(s.attrs, ""@)) + ">"@,
            ),
        ),
        Element::List { ordered } => Ok(
            (
                CommonS { attrs: add_class(s.attrs, ""@), ..s },
                (if ordered {
                    "<ol "@
                } else {
                    "<ul "@
                }) + attrs_str(add_class(s.attrs, ""@)) + ">"@,
            ),
        ),
        Element::ListItem => Ok(
            (
                CommonS { attrs: add_class(s.attrs, ""@), ..s },
                "<li "@ + attrs_str(add_class(s.attrs, ""@)) + ">"@,
            ),
        ),
        Element::Section => Ok(
            (
                CommonS { attrs: add_class(s.attrs, ""@), ..s },
                "<section "@ + attrs_str(add_class(s.attrs, ""@)) + ">"@,
            ),
        ),
        Element::Document => Ok(
            (
                CommonS { attrs: add_class(s.attrs, ""@), ..s },
                "<main "@ + attrs_str(add_class(s.attrs, ""@)) + ">"@,
            ),
        ),
        Element::Headline { .. } => Ok((s, Seq::empty())),
        Element::Title { level, .. } => Ok(
            (
                CommonS { attrs: add_class(s.attrs, ""@), ..s },
                "<h"@ + dec_str(clamp6(level as int)) + " "@ + attrs_str(add_class(s.attrs, ""@))
                    + ">"@,
            ),
        ),
        Element::Text { value } => Ok((s, escape_str(value@))),
        Element::Code { value } => Ok((s, "<code>"@ + escape_str(value@) + "</code>"@)),
        Element::ExampleBlock { contents } => Ok(
            (s, "<pre class=\"example\">"@ + escape_str(contents@) + "</pre>"@),
        ),
        Element::Rule => Ok((s, "<hr>"@)),
        Element::Link { path, desc } => {
            let p = stripped_link_path(path@, cfg.static_prefix);
            match url_join_of(cfg.base_url, p) {
                None => Err(p),
                Some(u) => {
                    let a = attrs_str(s.attrs);
                    let low = lower_str(p);
                    if spec_is_image(low) {
                        Ok(
                            (
                                s,
                                "<figure class=\"image\"><img src=\""@ + escape_str(u) + "\" "@ + a
                                    + " loading=\"lazy\" />"@ + (match attr_get(s.attrs, "alt"@) {
                                    Some(c) => "<figcaption>"@ + escape_str(c)
                                        + "</figcaption>"@,
                                    None => Seq::<char>::empty(),
                                }) + "</figure>"@,
                            ),
                        )
                    } else {
                        let extra = if spec_starts_with(p, "http://"@) || spec_starts_with(
                            p,
                            "https://"@,
                        ) {
                            " target=\"_blank\" rel=\"noopener\""@
                        } else {
                            Seq::<char>::empty()
                        };
                        Ok(
                            (
                                s,
                                "<a href=\""@ + escape_str(u) + "\" "@ + a + extra + ">"@
                                    + escape_str(
                                    match desc {
                                        Some(d) => d@,
                                        None => p,
                                    },
                                ) + "</a>"@,
                            ),
                        )
                    }
                },
            }
        },
        Element::Keyword { key, value } => {
            let kl = lower_str(key@);
            if kl == "caption"@ {
                Ok(
                    (
                        CommonS {
                            attrs: attr_insert(
                                attr_insert(s.attrs, "alt"@, value@),
                                "title"@,
                                value@,
                            ),
                            ..s
                        },
                        Seq::empty(),
                    ),
                )
            } else if kl == "attr_html"@ {
                let v = trim_all(value@, ":"@);
                match first_space(v) {
                    Some(j) => Ok(
                        (
                            CommonS {
                                attrs: attr_insert(
                                    s.attrs,
                                    v.subrange(0, j),
                                    v.subrange(j + 1, v.len() as int),
                                ),
                                ..s
                            },
                            Seq::empty(),
                        ),
                    ),
                    None => Ok((s, Seq::empty())),
                }
            } else {
                Ok((s, Seq::empty()))
            }
        },
        Element::SourceBlock { language, contents } => {
            if language@.len() == 0 {
                Ok((s, "<pre class=\"example\">"@ + contents@ + "</pre>"@))
            } else {
                let src = if lower_str(language@) == "php"@ && !spec_starts_with(
                    contents@,
                    "<?php"@,
                ) {
                    "<?php\n"@ + contents@
                } else {
                    contents@
                };
                Ok(
                    (
                        s,
                        "<div class=\"org-src-container\"><pre class=\"src src-"@ + language@
                            + "\">"@ + highlighted_html_of(cfg.theme, language@, src)
                            + "</pre></div>"@,
                    ),
                )
            }
        },
        Element::FnDef { .. } => Ok((s, Seq::empty())),
        Element::SpecialBlock { .. } => Ok((s, Seq::empty())),
        Element::Other => Ok((s, Seq::empty())),
    }
}

/// What the common handler does with one end event: a keyword leaves the
/// pending attributes for the block they decorate; any other element
/// consumes them and closes its tag.
pub open spec fn common_end_spec(s: CommonS, e: Element) -> (CommonS, Seq<char>) {
    match e {
        Element::Keyword { .. } => (s, Seq::empty()),
        _ => {
            let s2 = CommonS { attrs: Seq::empty(), ..s };
            let out = match e {
                Element::Paragraph => "</p>"@,
                Element::QuoteBlock => "</blockquote>"@,
                Element::CenterBlock => "</div>"@,
                Element::VerseBlock => "</p>"@,
                Element::Bold => "</b>"@,
                Element::Italic => "</i>"@,
                Element::Strike => "</s>"@,
                Element::Underline => "</u>"@,
                Element::List { ordered } => if ordered {
                    "</ol>"@
                } else {
                    "</ul>"@
                },
                Element::ListItem => "</li>"@,
                Element::Section => "</section>"@,
                Element::Document => "</main>"@,
                Element::Title { level, .. } => "</h"@ + dec_str(clamp6(level as int)) + ">"@,
                _ => Seq::<char>::empty(),
            };
            (s2, out)
        },
    }
}

impl CommonHtmlHandler {
    /// Handle one start event: write its markup and update the state.
    #[verifier::rlimit(100)]
    fn start(
        &mut self,
        out: &mut Vec<char>,
        e: &Element,
        exps: &Vec<Option<String>>,
        ei: &mut usize,
    ) -> (r: Result<(), Error>)
        requires
            old(self).footnote_id < usize::MAX,
            *old(ei) < usize::MAX,
        ensures
            final(self).theme == old(self).theme,
            final(self).static_prefix == old(self).static_prefix,
            final(self).base_url == old(self).base_url,
            final(self).footnote_id <= old(self).footnote_id + 1,
            *final(ei) <= *old(ei) + 1,
            match common_start_spec(
                ccfg(*old(self)),
                cstate(*old(self), *old(ei) as int),
                *e,
                exps_view(exps@),
            ) {
                Ok((s2, o)) => r is Ok && cstate(*final(self), *final(ei) as int) == s2
                    && final(out)@ == old(out)@ + o,
                Err(p) => r matches Err(Error::InvalidUrl { url }) && url@ == p,
            },
    {
        match e {
            Element::FnRef { label, .. } => {
                if label.as_str().unicode_len() == 0 {
                    self.footnote_id = self.footnote_id + 1;
                    push_str(out, "<sup id=\"fnref-");
                    push_dec(out, self.footnote_id as u64);
                    push_str(out, "\"><a href=\"#fn-");
                    push_dec(out, self.footnote_id as u64);
                    push_str(out, "\" class=\"footnote-ref\">");
                    push_dec(out, self.footnote_id as u64);
                    push_str(out, "</a></sup>");
                    proof {
                        assert(label@ =~= Seq::<char>::empty());
                    }
                } else {
                    push_str(out, "<sup id=\"fnref-");
                    push_str(out, label.as_str());
                    push_str(out, "\"><a href=\"#fn-");
                    push_str(out, label.as_str());
                    push_str(out, "\" class=\"footnote-ref\">");
                    push_str(out, label.as_str());
                    push_str(out, "</a></sup>");
                }
                Ok(())
            },
            Element::MacroCall { .. } => {
                if *ei < exps.len() {
                    match &exps[*ei] {
                        Some(x) => {
                            push_str(out, x.as_str());
                            proof {
                                assert(exps_view(exps@)[*ei as int] == Some(exps@[*ei as int]->0@));
                            }
                        },
                        None => {
                            proof {
                                assert(exps_view(exps@)[*ei as int] is None);
                            }
                        },
                    }
                }
                *ei = *ei + 1;
                Ok(())
            },
            Element::Paragraph => {
                let a = self.render_attributes("");
                push_str(out, "<p ");
                push_str(out, a.as_str());
                push_str(out, ">");
                Ok(())
            },
            Element::QuoteBlock => {
                let a = self.render_attributes("");
                push_str(out, "<blockquote ");
                push_str(out, a.as_str());
                push_str(out, ">");
                Ok(())
            },
            Element::CenterBlock => {
                let a = self.render_attributes("center");
                push_str(out, "<div ");
                push_str(out, a.as_str());
                push_str(out, ">");
                Ok(())
            },
            Element::VerseBlock => {
                let a = self.render_attributes("verse");
                push_str(out, "<p ");
                push_str(out, a.as_str());
                push_str(out, ">");
                Ok(())
            },
            Element::Bold => {
                let a = self.render_attributes("");
                push_str(out, "<b ");
                push_str(out, a.as_str());
                push_str(out, ">");
                Ok(())
            },
            Element::Italic => {
                let a = self.render_attributes("");
                push_str(out, "<i ");
                push_str(out, a.as_str());
                push_str(out, ">");
                Ok(())
            },
            Element::Strike => {
                let a = self.render_attributes("");
                push_str(out, "<s ");
                push_str(out, a.as_str());
                push_str(out, ">");
                Ok(())
            },
            Element::Underline => {
                let a = self.render_attributes("");
                push_str(out, "<u ");
                push_str(out, a.as_str());
                push_str(out, ">");
                Ok(())
            },
            Element::List { ordered } => {
                let a = self.render_attributes("");
                if *ordered {
                    push_str(out, "<ol ");
                } else {
                    push_str(out, "<ul ");
                }
                push_str(out, a.as_str());
                push_str(out, ">");
                Ok(())
            },
            Element::ListItem => {
                let a = self.render_attributes("");
                push_str(out, "<li ");
                push_str(out, a.as_str());
                push_str(out, ">");
                Ok(())
            },
            Element::Section => {
                let a = self.render_attributes("");
                push_str(out, "<section ");
                push_str(out, a.as_str());
                push_str(out, ">");
                Ok(())
            },
            Element::Document => {
                let a = self.render_attributes("");
                push_str(out, "<main ");
                push_str(out, a.as_str());
                push_str(out, ">");
                Ok(())
            },
            Element::Headline { .. } => Ok(()),
            Element::Title { level, .. } => {
                let a = self.render_attributes("");
                push_str(out, "<h");
                let d: u64 = if *level <= 6 {
                    *level as u64
                } else {
                    6
                };
                push_dec(out, d);
                push_str(out, " ");
                push_str(out, a.as_str());
                push_str(out, ">");
                Ok(())
            },
            Element::Text { value } => {
                push_escaped(out, value.as_str());
                Ok(())
            },
            Element::Code { value } => {
                push_str(out, "<code>");
                push_escaped(out, value.as_str());
                push_str(out, "</code>");
                Ok(())
            },
            Element::ExampleBlock { contents } => {
                push_str(out, "<pre class=\"example\">");
                push_escaped(out, contents.as_str());
                push_str(out, "</pre>");
                Ok(())
            },
            Element::Rule => {
                push_str(out, "<hr>");
                Ok(())
            },
            Element::Link { path, desc } => {
                proof {
                    reveal_strlit("");
                    reveal_strlit("file:");
                    reveal_strlit("./");
                    reveal_strlit(".");
                    reveal_strlit("/");
                }
                let p1 = trim_all_exec(path.as_str(), "file:");
                let mut pat = "./".to_owned();
                pat.append(self.static_prefix.as_str());
                let p2 = trim_all_exec(p1.as_str(), pat.as_str());
                let mut pat2 = ".".to_owned();
                pat2.append(self.static_prefix.as_str());
                let p3 = trim_all_exec(p2.as_str(), pat2.as_str());
                let mut pat3 = "/".to_owned();
                pat3.append(self.static_prefix.as_str());
                let p = trim_all_exec(p3.as_str(), pat3.as_str());
                proof {
                    assert(p@ == stripped_link_path(path@, self.static_prefix@));
                }
                let a = self.render_attributes("");
                match resolve_url(self.base_url.as_str(), p.as_str()) {
                    None => Err(Error::InvalidUrl { url: p }),
                    Some(u) => {
                        let low = ascii_lower(p.as_str());
                        let is_img = str_ends_with(low.as_str(), ".jpg") || str_ends_with(
                            low.as_str(),
                            ".jpeg",
                        ) || str_ends_with(low.as_str(), ".png") || str_ends_with(
                            low.as_str(),
                            ".gif",
                        ) || str_ends_with(low.as_str(), ".webp");
                        if is_img {
                            push_str(out, "<figure class=\"image\"><img src=\"");
                            push_escaped(out, u.as_str());
                            push_str(out, "\" ");
                            push_str(out, a.as_str());
                            push_str(out, " loading=\"lazy\" />");
                            match self.get_attr("alt") {
                                Some(c) => {
                                    let cc = c.clone();
                                    push_str(out, "<figcaption>");
                                    push_escaped(out, cc.as_str());
                                    push_str(out, "</figcaption>");
                                },
                                None => {},
                            }
                            push_str(out, "</figure>");
                            Ok(())
                        } else {
                            let external = str_starts_with(p.as_str(), "http://")
                                || str_starts_with(p.as_str(), "https://");
                            push_str(out, "<a href=\"");
                            push_escaped(out, u.as_str());
                            push_str(out, "\" ");
                            push_str(out, a.as_str());
                            if external {
                                push_str(out, " target=\"_blank\" rel=\"noopener\"");
                            }
                            push_str(out, ">");
                            match desc {
                                Some(d) => push_escaped(out, d.as_str()),
                                None => push_escaped(out, p.as_str()),
                            }
                            push_str(out, "</a>");
                            Ok(())
                        }
                    },
                }
            },
            Element::Keyword { key, value } => {
                let kl = ascii_lower(key.as_str());
                if str_eq(kl.as_str(), "caption") {
                    self.set_attr("alt", value.as_str());
                    self.set_attr("title", value.as_str());
                } else if str_eq(kl.as_str(), "attr_html") {
                    proof {
                        reveal_strlit(":");
                    }
                    let v = trim_all_exec(value.as_str(), ":");
                    let n = v.as_str().unicode_len();
                    match find_space(v.as_str()) {
                        Some(j) => {
                            let k2 = v.as_str().substring_char(0, j);
                            let v2 = v.as_str().substring_char(j + 1, n);
                            self.set_attr(k2, v2);
                        },
                        None => {},
                    }
                }
                Ok(())
            },
            Element::SourceBlock { language, contents } => {
                if language.as_str().unicode_len() == 0 {
                    push_str(out, "<pre class=\"example\">");
                    push_str(out, contents.as_str());
                    push_str(out, "</pre>");
                    Ok(())
                } else {
                    let ll = ascii_lower(language.as_str());
                    let needs_tag = str_eq(ll.as_str(), "php") && !str_starts_with(
                        contents.as_str(),
                        "<?php",
                    );
                    let src = if needs_tag {
                        let mut t = "<?php\n".to_owned();
                        t.append(contents.as_str());
                        t
                    } else {
                        contents.clone()
                    };
                    let hl = highlight_source(self.theme.as_str(), language.as_str(), src.as_str());
                    push_str(out, "<div class=\"org-src-container\"><pre class=\"src src-");
                    push_str(out, language.as_str());
                    push_str(out, "\">");
                    push_str(out, hl.as_str());
                    push_str(out, "</pre></div>");
                    Ok(())
                }
            },
            Element::FnDef { .. } => Ok(()),
            Element::SpecialBlock { .. } => Ok(()),
            Element::Other => Ok(()),
        }
    }

    /// Handle one end event: close the tag and clear pending attributes,
    /// except after a keyword, whose attributes wait for the next block.
    fn end(&mut self, out: &mut Vec<char>, e: &Element)
        ensures
            final(self).theme == old(self).theme,
            final(self).static_prefix == old(self).static_prefix,
            final(self).base_url == old(self).base_url,
            ({
                let (s2, o) = common_end_spec(cstate(*old(self), 0), *e);
                attrs_view(final(self).attributes@) == s2.attrs && final(self).footnote_id == old(
                    self,
                ).footnote_id && final(out)@ == old(out)@ + o
            }),
    {
        match e {
            Element::Keyword { .. } => {},
            _ => {
                self.attributes.clear();
                proof {
                    assert(attrs_view(self.attributes@) =~= Seq::<(Seq<char>, Seq<char>)>::empty());
                }
                match e {
                    Element::Paragraph => push_str(out, "</p>"),
                    Element::QuoteBlock => push_str(out, "</blockquote>"),
                    Element::CenterBlock => push_str(out, "</div>"),
                    Element::VerseBlock => push_str(out, "</p>"),
                    Element::Bold => push_str(out, "</b>"),
                    Element::Italic => push_str(out, "</i>"),
                    Element::Strike => push_str(out, "</s>"),
                    Element::Underline => push_str(out, "</u>"),
                    Element::List { ordered } => {
                        if *ordered {
                            push_str(out, "</ol>");
                        } else {
                            push_str(out, "</ul>");
                        }
                    },
                    Element::ListItem => push_str(out, "</li>"),
                    Element::Section => push_str(out, "</section>"),
                    Element::Document => push_str(out, "</main>"),
                    Element::Title { level, .. } => {
                        push_str(out, "</h");
                        let d: u64 = if *level <= 6 {
                            *level as u64
                        } else {
                            6
                        };
                        push_dec(out, d);
                        push_str(out, ">");
                    },
                    _ => {},
                }
            },
        }
    }
}

/// The first space of a text.
fn find_space(s: &str) -> (r: Option<usize>)
    ensures
        match r {
            Some(i) => first_space(s@) == Some(i as int) && i < s@.len(),
            None => first_space(s@) is None,
        },
{
    let n = s.unicode_len();
    let mut i: usize = 0;
    proof {
        assert(s@.skip(0) =~= s@);
    }
    while i < n
        invariant
            i <= n,
            n == s@.len(),
            first_space(s@) == match first_space(s@.skip(i as int)) {
                Some(x) => Some(x + i),
                None => None::<int>,
            },
        decreases n - i,
    {
        proof {
            assert(s@.skip(i as int)[0] == s@[i as int]);
            assert(s@.skip(i as int).skip(1) =~= s@.skip(i + 1 as int));
        }
        if s.get_char(i) == ' ' {
            return Some(i);
        }
        i = i + 1;
    }
    proof {
        assert(s@.skip(n as int) =~= Seq::<char>::empty());
    }
    None
}

/// The index handler on top of the common one: a level, and whether the
/// walk is inside a child heading or a title.
pub struct IndexHtmlHandler {
    pub handler: CommonHtmlHandler,
    pub level: usize,
    pub in_headline: bool,
    pub in_page_title: bool,
}

/// The post handler on top of the common one: a level, and whether the walk
/// is inside the page's own title.
pub struct PostHtmlHandler {
    pub handler: CommonHtmlHandler,
    pub level: usize,
    pub in_page_title: bool,
}

/// Which handler drives an export.
pub enum PageHtmlHandler {
    Index(IndexHtmlHandler),
    Post(PostHtmlHandler),
}

/// The full exporter state: the common state plus the skip flags.
pub ghost struct XState {
    pub c: CommonS,
    pub in_headline: bool,
    pub in_page_title: bool,
}

pub open spec fn xstate(h: PageHtmlHandler, ei: int) -> XState {
    match h {
        PageHtmlHandler::Index(ih) => XState {
            c: cstate(ih.handler, ei),
            in_headline: ih.in_headline,
            in_page_title: ih.in_page_title,
        },
        PageHtmlHandler::Post(ph) => XState {
            c: cstate(ph.handler, ei),
            in_headline: false,
            in_page_title: ph.in_page_title,
        },
    }
}

pub open spec fn xcfg(h: PageHtmlHandler) -> RenderCfg {
    match h {
        PageHtmlHandler::Index(ih) => ccfg(ih.handler),
        PageHtmlHandler::Post(ph) => ccfg(ph.handler),
    }
}

pub open spec fn xlevel(h: PageHtmlHandler) -> int {
    match h {
        PageHtmlHandler::Index(ih) => ih.level as int,
        PageHtmlHandler::Post(ph) => ph.level as int,
    }
}

pub open spec fn xis_index(h: PageHtmlHandler) -> bool {
    h matches PageHtmlHandler::Index(_)
}

/// The anchored sub-heading depth a post renders a deeper title at.
pub open spec fn post_depth(level: int, lv: int) -> nat {
    if lv > level {
        if lv - level + 1 <= 6 {
            (lv - level + 1) as nat
        } else {
            6
        }
    } else {
        1
    }
}

/// What one event does to the whole exporter: the next state and markup, or
/// the unresolvable link path.
pub open spec fn do_event(
    index: bool,
    level: int,
    cfg: RenderCfg,
    st: XState,
    ev: OrgEvent,
    exps: Seq<Option<Seq<char>>>,
) -> Result<(XState, Seq<char>), Seq<char>> {
    if index {
        match ev {
            OrgEvent::Start(e) => {
                if e matches Element::Headline { level: lv } && lv > level {
                    Ok((XState { in_headline: true, ..st }, Seq::empty()))
                } else if e matches Element::Title { .. } {
                    Ok((XState { in_page_title: true, ..st }, Seq::empty()))
                } else if !st.in_page_title && !st.in_headline {
                    match common_start_spec(cfg, st.c, e, exps) {
                        Ok((c2, o)) => Ok((XState { c: c2, ..st }, o)),
                        Err(p) => Err(p),
                    }
                } else {
                    Ok((st, Seq::empty()))
                }
            },
            OrgEvent::End(e) => {
                if e matches Element::Headline { level: lv } && lv > level {
                    Ok((XState { in_headline: false, ..st }, Seq::empty()))
                } else if e matches Element::Title { .. } {
                    Ok((XState { in_page_title: false, ..st }, Seq::empty()))
                } else if !st.in_page_title && !st.in_headline {
                    let (c2, o) = common_end_spec(st.c, e);
                    Ok((XState { c: CommonS { ei: st.c.ei, ..c2 }, ..st }, o))
                } else {
                    Ok((st, Seq::empty()))
                }
            },
        }
    } else {
        match ev {
            OrgEvent::Start(e) => {
                match e {
                    Element::Title { level: lv, raw } => {
                        if lv == level {
                            Ok((XState { in_page_title: true, ..st }, Seq::empty()))
                        } else {
                            let a2 = add_class(st.c.attrs, ""@);
                            let slug = slugify_spec(raw@);
                            Ok(
                                (
                                    XState { c: CommonS { attrs: a2, ..st.c }, ..st },
                                    "<h"@ + dec_str(post_depth(level, lv as int)) + " "@
                                        + attrs_str(a2) + "><a id=\""@ + slug + "\" href=\"#"@
                                        + slug + "\">"@,
                                ),
                            )
                        }
                    },
                    _ => {
                        if !st.in_page_title {
                            match common_start_spec(cfg, st.c, e, exps) {
                                Ok((c2, o)) => Ok((XState { c: c2, ..st }, o)),
                                Err(p) => Err(p),
                            }
                        } else {
                            Ok((st, Seq::empty()))
                        }
                    },
                }
            },
            OrgEvent::End(e) => {
                match e {
                    Element::Title { level: lv, .. } => {
                        if lv == level {
                            Ok((XState { in_page_title: false, ..st }, Seq::empty()))
                        } else {
                            Ok(
                                (
                                    st,
                                    "</a></h"@ + dec_str(post_depth(level, lv as int)) + ">"@,
                                ),
                            )
                        }
                    },
                    _ => {
                        if !st.in_page_title {
                            let (c2, o) = common_end_spec(st.c, e);
                            Ok((XState { c: CommonS { ei: st.c.ei, ..c2 }, ..st }, o))
                        } else {
                            Ok((st, Seq::empty()))
                        }
                    },
                }
            },
        }
    }
}

/// The markup of a whole stream from a state, or the first link failure.
pub open spec fn export_rest(
    index: bool,
    level: int,
    cfg: RenderCfg,
    st: XState,
    events: Seq<OrgEvent>,
    exps: Seq<Option<Seq<char>>>,
) -> Result<Seq<char>, Seq<char>>
    decreases events.len(),
{
    if events.len() == 0 {
        Ok(Seq::empty())
    } else {
        match do_event(index, level, cfg, st, events[0], exps) {
            Err(p) => Err(p),
            Ok((st2, o)) => match export_rest(index, level, cfg, st2, events.skip(1), exps) {
                Err(p) => Err(p),
                Ok(rest) => Ok(o + rest),
            },
        }
    }
}

pub open spec fn istate(ih: IndexHtmlHandler, ei: int) -> XState {
    XState {
        c: cstate(ih.handler, ei),
        in_headline: ih.in_headline,
        in_page_title: ih.in_page_title,
    }
}

pub open spec fn pstate(ph: PostHtmlHandler, ei: int) -> XState {
    XState { c: cstate(ph.handler, ei), in_headline: false, in_page_title: ph.in_page_title }
}

impl IndexHtmlHandler {
    /// Drive one event through the index handler.
    fn step(
        &mut self,
        evt: &OrgEvent,
        exps: &Vec<Option<String>>,
        ei: &mut usize,
    ) -> (r: Result<Vec<char>, Error>)
        requires
            old(self).handler.footnote_id < usize::MAX,
            *old(ei) < usize::MAX,
        ensures
            final(self).level == old(self).level,
            ccfg(final(self).handler) == ccfg(old(self).handler),
            final(self).handler.footnote_id <= old(self).handler.footnote_id + 1,
            *final(ei) <= *old(ei) + 1,
            ({
                let de = do_event(
                    true,
                    old(self).level as int,
                    ccfg(old(self).handler),
                    istate(*old(self), *old(ei) as int),
                    *evt,
                    exps_view(exps@),
                );
                if de is Ok {
                    r matches Ok(v) && istate(*final(self), *final(ei) as int) == de->Ok_0.0 && v@
                        == de->Ok_0.1
                } else {
                    r matches Err(Error::InvalidUrl { url }) && url@ == de->Err_0
                }
            }),
    {
        let mut out: Vec<char> = Vec::new();
        match evt {
            OrgEvent::Start(e) => {
                let deep = match e {
                    Element::Headline { level: lv } => *lv > self.level,
                    _ => false,
                };
                if deep {
                    self.in_headline = true;
                } else if matches!(e, Element::Title { .. }) {
                    self.in_page_title = true;
                } else if !self.in_page_title && !self.in_headline {
                    match self.handler.start(&mut out, e, exps, ei) {
                        Ok(_) => {},
                        Err(er) => {
                            return Err(er);
                        },
                    }
                }
                Ok(out)
            },
            OrgEvent::End(e) => {
                let deep = match e {
                    Element::Headline { level: lv } => *lv > self.level,
                    _ => false,
                };
                if deep {
                    self.in_headline = false;
                } else if matches!(e, Element::Title { .. }) {
                    self.in_page_title = false;
                } else if !self.in_page_title && !self.in_headline {
                    self.handler.end(&mut out, e);
                }
                Ok(out)
            },
        }
    }
}

impl PostHtmlHandler {
    /// Drive one event through the post handler.
    fn step(
        &mut self,
        evt: &OrgEvent,
        exps: &Vec<Option<String>>,
        ei: &mut usize,
    ) -> (r: Result<Vec<char>, Error>)
        requires
            old(self).handler.footnote_id < usize::MAX,
            *old(ei) < usize::MAX,
        ensures
            final(self).level == old(self).level,
            ccfg(final(self).handler) == ccfg(old(self).handler),
            final(self).handler.footnote_id <= old(self).handler.footnote_id + 1,
            *final(ei) <= *old(ei) + 1,
            ({
                let de = do_event(
                    false,
                    old(self).level as int,
                    ccfg(old(self).handler),
                    pstate(*old(self), *old(ei) as int),
                    *evt,
                    exps_view(exps@),
                );
                if de is Ok {
                    r matches Ok(v) && pstate(*final(self), *final(ei) as int) == de->Ok_0.0 && v@
                        == de->Ok_0.1
                } else {
                    r matches Err(Error::InvalidUrl { url }) && url@ == de->Err_0
                }
            }),
    {
        let mut out: Vec<char> = Vec::new();
        match evt {
            OrgEvent::Start(e) => {
                match e {
                    Element::Title { level: lv, raw } => {
                        if *lv == self.level {
                            self.in_page_title = true;
                        } else {
                            proof {
                                reveal_strlit("");
                            }
                            let a = self.handler.render_attributes("");
                            let slug = crate::slug::slugify(raw.as_str());
                            push_str(&mut out, "<h");
                            let d: u64 = if *lv > self.level {
                                if *lv - self.level <= 5 {
                                    (*lv - self.level + 1) as u64
                                } else {
                                    6
                                }
                            } else {
                                1
                            };
                            push_dec(&mut out, d);
                            push_str(&mut out, " ");
                            push_str(&mut out, a.as_str());
                            push_str(&mut out, "><a id=\"");
                            push_str(&mut out, slug.as_str());
                            push_str(&mut out, "\" href=\"#");
                            push_str(&mut out, slug.as_str());
                            push_str(&mut out, "\">");
                        }
                        Ok(out)
                    },
                    _ => {
                        if !self.in_page_title {
                            match self.handler.start(&mut out, e, exps, ei) {
                                Ok(_) => {},
                                Err(er) => {
                                    return Err(er);
                                },
                            }
                        }
                        Ok(out)
                    },
                }
            },
            OrgEvent::End(e) => {
                match e {
                    Element::Title { level: lv, .. } => {
                        if *lv == self.level {
                            self.in_page_title = false;
                        } else {
                            push_str(&mut out, "</a></h");
                            let d: u64 = if *lv > self.level {
                                if *lv - self.level <= 5 {
                                    (*lv - self.level + 1) as u64
                                } else {
                                    6
                                }
                            } else {
                                1
                            };
                            push_dec(&mut out, d);
                            push_str(&mut out, ">");
                        }
                    },
                    _ => {
                        if !self.in_page_title {
                            self.handler.end(&mut out, e);
                        }
                    },
                }
                Ok(out)
            },
        }
    }
}

/// Render a whole event stream through a handler.  Macro calls consume the
/// given expansions in order (`None` renders nothing); the first link whose
/// target the URL resolver rejects aborts the export.
#[verifier::rlimit(60)]
pub fn write_html(
    events: &Vec<OrgEvent>,
    handler: PageHtmlHandler,
    expansions: &Vec<Option<String>>,
) -> (r: Result<String, Error>)
    requires
        xstate(handler, 0).c.fid + events@.len() <= usize::MAX,
    ensures
        match r {
            Ok(s) => export_rest(
                xis_index(handler),
                xlevel(handler),
                xcfg(handler),
                xstate(handler, 0),
                events@,
                exps_view(expansions@),
            ) == Ok::<Seq<char>, Seq<char>>(s@),
            Err(e) => export_rest(
                xis_index(handler),
                xlevel(handler),
                xcfg(handler),
                xstate(handler, 0),
                events@,
                exps_view(expansions@),
            ) matches Err(p) && e matches Error::InvalidUrl { url } && url@ == p,
        },
{
    let ghost st0 = xstate(handler, 0);
    let ghost ev = exps_view(expansions@);
    let ghost fid0 = st0.c.fid;
    let n = events.len();
    let mut out: Vec<char> = Vec::new();
    let mut ei: usize = 0;
    let mut i: usize = 0;
    proof {
        assert(events@.skip(0) =~= events@);
    }
    match handler {
        PageHtmlHandler::Index(ih) => {
            let ghost index = true;
            let ghost level = ih.level as int;
            let ghost cfg = ccfg(ih.handler);
            let mut ih = ih;
            while i < n
                invariant
                    i <= n,
                    ei <= i,
                    n == events@.len(),
                    ev == exps_view(expansions@),
                    xis_index(handler) && xlevel(handler) == level && xcfg(handler) == cfg
                        && xstate(handler, 0) == st0,
                    fid0 + n <= usize::MAX,
                    ih.level as int == level,
                    ccfg(ih.handler) == cfg,
                    ih.handler.footnote_id <= fid0 + i,
                    match export_rest(
                        true,
                        level,
                        cfg,
                        istate(ih, ei as int),
                        events@.skip(i as int),
                        ev,
                    ) {
                        Ok(rest) => export_rest(true, level, cfg, st0, events@, ev)
                            == Ok::<Seq<char>, Seq<char>>(out@ + rest),
                        Err(p) => export_rest(true, level, cfg, st0, events@, ev) == Err::<Seq<char>, Seq<char>>(p),
                    },
                decreases n - i,
            {
                proof {
                    assert(events@.skip(i as int)[0] == events@[i as int]);
                    assert(events@.skip(i as int).skip(1) =~= events@.skip(i + 1 as int));
                }
                let ghost pre_h = ih;
                let ghost pre_ei = ei;
                let ghost pre_st = istate(ih, ei as int);
                let ghost pre_out = out@;
                let evt = &events[i];
                proof {
                    assert(*evt == events@[i as int]);
                }
                match ih.step(evt, expansions, &mut ei) {
                    Ok(mut chunk) => {
                        out.append(&mut chunk);
                    },
                    Err(er) => {
                        proof {
                            assert(export_rest(
                                true,
                                level,
                                cfg,
                                pre_st,
                                events@.skip(i as int),
                                ev,
                            ) is Err);
                        }
                        return Err(er);
                    },
                }
                proof {
                    assert(pre_st == istate(pre_h, pre_ei as int));
                    assert(level == pre_h.level as int);
                    assert(cfg == ccfg(pre_h.handler));
                    assert(events@[i as int] == events@.skip(i as int)[0]);
                    let de = do_event(true, level, cfg, pre_st, events@[i as int], ev);
                    if de is Ok {
                        let st2 = de->Ok_0.0;
                        let o = de->Ok_0.1;
                        assert(istate(ih, ei as int) == st2);
                        assert(out@ == pre_out + o);
                        match export_rest(true, level, cfg, st2, events@.skip(i + 1 as int), ev) {
                            Ok(rest2) => {
                                assert(export_rest(
                                    true,
                                    level,
                                    cfg,
                                    pre_st,
                                    events@.skip(i as int),
                                    ev,
                                ) == Ok::<Seq<char>, Seq<char>>(o + rest2));
                                assert(pre_out + (o + rest2) =~= (pre_out + o) + rest2);
                            },
                            Err(_) => {},
                        }
                    } else {
                        assert(false);
                    }
                }
                i = i + 1;
            }
            proof {
                assert(events@.skip(n as int) =~= Seq::<OrgEvent>::empty());
                assert(out@ + Seq::<char>::empty() =~= out@);
            }
            Ok(chars_to_string(&out))
        },
        PageHtmlHandler::Post(ph) => {
            let ghost level = ph.level as int;
            let ghost cfg = ccfg(ph.handler);
            let mut ph = ph;
            while i < n
                invariant
                    i <= n,
                    ei <= i,
                    n == events@.len(),
                    ev == exps_view(expansions@),
                    !xis_index(handler) && xlevel(handler) == level && xcfg(handler) == cfg
                        && xstate(handler, 0) == st0,
                    fid0 + n <= usize::MAX,
                    ph.level as int == level,
                    ccfg(ph.handler) == cfg,
                    ph.handler.footnote_id <= fid0 + i,
                    match export_rest(
                        false,
                        level,
                        cfg,
                        pstate(ph, ei as int),
                        events@.skip(i as int),
                        ev,
                    ) {
                        Ok(rest) => export_rest(false, level, cfg, st0, events@, ev)
                            == Ok::<Seq<char>, Seq<char>>(out@ + rest),
                        Err(p) => export_rest(false, level, cfg, st0, events@, ev) == Err::<Seq<char>, Seq<char>>(p),
                    },
                decreases n - i,
            {
                proof {
                    assert(events@.skip(i as int)[0] == events@[i as int]);
                    assert(events@.skip(i as int).skip(1) =~= events@.skip(i + 1 as int));
                }
                let ghost pre_h = ph;
                let ghost pre_ei = ei;
                let ghost pre_st = pstate(ph, ei as int);
                let ghost pre_out = out@;
                let evt = &events[i];
                proof {
                    assert(*evt == events@[i as int]);
                }
                match ph.step(evt, expansions, &mut ei) {
                    Ok(mut chunk) => {
                        out.append(&mut chunk);
                    },
                    Err(er) => {
                        proof {
                            assert(export_rest(
                                false,
                                level,
                                cfg,
                                pre_st,
                                events@.skip(i as int),
                                ev,
                            ) is Err);
                        }
                        return Err(er);
                    },
                }
                proof {
                    assert(pre_st == pstate(pre_h, pre_ei as int));
                    assert(level == pre_h.level as int);
                    assert(cfg == ccfg(pre_h.handler));
                    assert(events@[i as int] == events@.skip(i as int)[0]);
                    let de = do_event(false, level, cfg, pre_st, events@[i as int], ev);
                    if de is Ok {
                        let st2 = de->Ok_0.0;
                        let o = de->Ok_0.1;
                        assert(pstate(ph, ei as int) == st2);
                        assert(out@ == pre_out + o);
                        match export_rest(false, level, cfg, st2, events@.skip(i + 1 as int), ev) {
                            Ok(rest2) => {
                                assert(export_rest(
                                    false,
                                    level,
                                    cfg,
                                    pre_st,
                                    events@.skip(i as int),
                                    ev,
                                ) == Ok::<Seq<char>, Seq<char>>(o + rest2));
                                assert(pre_out + (o + rest2) =~= (pre_out + o) + rest2);
                            },
                            Err(_) => {},
                        }
                    } else {
                        assert(false);
                    }
                }
                i = i + 1;
            }
            proof {
                assert(events@.skip(n as int) =~= Seq::<OrgEvent>::empty());
                assert(out@ + Seq::<char>::empty() =~= out@);
            }
            Ok(chars_to_string(&out))
        },
    }
}

/// One page ready for the template engine: where it goes, which template
/// renders it, and the context it renders with.
#[derive(Debug)]
pub struct RenderedPage {
    pub out_dir: String,
    pub template: String,
    pub context: PageContext,
}

/// A file whose content the library computed in full.
#[derive(Debug)]
pub struct OutputFile {
    pub path: String,
    pub content: String,
}

/// Everything a subtree's rendering produces: the planned pages in
/// depth-first order, the feed files, and the subtree root's feed entry.
#[derive(Debug)]
pub struct RenderOut {
    pub pages: Vec<RenderedPage>,
    pub feeds: Vec<OutputFile>,
    pub feed_item: FeedItem,
}

/// The last entry of a context bound to `key`, when its value is a string.
pub open spec fn spec_ctx_str(entries: Seq<(String, CtxValue)>, key: Seq<char>) -> Option<String>
    decreases entries.len(),
{
    if entries.len() == 0 {
        None
    } else if entries.last().0@ == key {
        match entries.last().1 {
            CtxValue::Str(s) => Some(s),
            _ => None,
        }
    } else {
        spec_ctx_str(entries.drop_last(), key)
    }
}

impl PageContext {
    /// The last string value bound to `key`, if any; a last binding of
    /// another shape hides earlier ones, as it would in a rendered template.
    pub fn get_str(&self, key: &str) -> (r: Option<&String>)
        ensures
            match r {
                Some(s) => spec_ctx_str(self.entries@, key@) == Some(*s),
                None => spec_ctx_str(self.entries@, key@) is None,
            },
    {
        let n = self.entries.len();
        let mut i: usize = n;
        proof {
            assert(self.entries@.take(n as int) =~= self.entries@);
        }
        while i > 0
            invariant
                i <= n,
                n == self.entries@.len(),
                spec_ctx_str(self.entries@, key@) == spec_ctx_str(
                    self.entries@.take(i as int),
                    key@,
                ),
            decreases i,
        {
            i = i - 1;
            proof {
                assert(self.entries@.take(i + 1 as int).last() == self.entries@[i as int]);
                assert(self.entries@.take(i + 1 as int).drop_last() =~= self.entries@.take(
                    i as int,
                ));
            }
            if str_eq(self.entries[i].0.as_str(), key) {
                match &self.entries[i].1 {
                    CtxValue::Str(s) => {
                        return Some(s);
                    },
                    _ => {
                        return None;
                    },
                }
            }
        }
        proof {
            assert(self.entries@.take(0) =~= Seq::<(String, CtxValue)>::empty());
        }
        None
    }
}

/// How many pages a tree plans: one per node.
pub open spec fn spec_page_count(p: Page) -> nat
    decreases p, 0nat,
{
    1 + (match p.page {
        PageEnum::Index { children } => spec_page_count_forest(children@),
        _ => 0,
    })
}

pub open spec fn spec_page_count_forest(s: Seq<Page>) -> nat
    decreases s, 1nat,
{
    if s.len() == 0 {
        0
    } else {
        spec_page_count(s[0]) + spec_page_count_forest(s.skip(1))
    }
}

/// How many feed files a tree plans: one per index node.
pub open spec fn spec_feed_count(p: Page) -> nat
    decreases p, 0nat,
{
    match p.page {
        PageEnum::Index { children } => 1 + spec_feed_count_forest(children@),
        _ => 0,
    }
}

pub open spec fn spec_feed_count_forest(s: Seq<Page>) -> nat
    decreases s, 1nat,
{
    if s.len() == 0 {
        0
    } else {
        spec_feed_count(s[0]) + spec_feed_count_forest(s.skip(1))
    }
}

proof fn lemma_counts_snoc(s: Seq<Page>, p: Page)
    ensures
        spec_page_count_forest(s.push(p)) == spec_page_count_forest(s) + spec_page_count(p),
        spec_feed_count_forest(s.push(p)) == spec_feed_count_forest(s) + spec_feed_count(p),
    decreases s.len(),
{
    if s.len() == 0 {
        assert(s.push(p)[0] == p);
        assert(s.push(p).skip(1) =~= Seq::<Page>::empty());
        assert(spec_page_count_forest(Seq::<Page>::empty()) == 0);
        assert(spec_feed_count_forest(Seq::<Page>::empty()) == 0);
    } else {
        assert(s.push(p)[0] == s[0]);
        assert(s.push(p).skip(1) =~= s.skip(1).push(p));
        lemma_counts_snoc(s.skip(1), p);
    }
}

/// The output directory of a page under `out`: `out` itself for the
/// sentinel slug, else a subdirectory named by the slug.
pub open spec fn spec_out_dir(out: Seq<char>, slug: Seq<char>) -> Seq<char> {
    if slug == "index"@ {
        out
    } else {
        spec_join_path(out, slug)
    }
}

/// Where an index's feed file goes: `rss.xml` under its output directory.
pub open spec fn spec_feed_path(out_dir: Seq<char>) -> Seq<char> {
    if out_dir.len() == 0 {
        "rss.xml"@
    } else {
        out_dir + "/rss.xml"@
    }
}

/// The pinned parts of a feed entry: what `feed_item_for` states of a
/// page's title, link and description.
pub open spec fn feed_item_matches(it: FeedItem, p: Page, config: Config) -> bool {
    &&& it.title@ == p.info.title@
    &&& it.link@ == config.url@ + p.path@
    &&& it.description@ == (match p.info.description {
        Some(ref d) => d@,
        None => config.description@,
    })
}

fn find_ext_doc<'a>(ext_docs: &'a Vec<(String, Document)>, path: &str) -> (r: Option<&'a Document>)
{
    let mut i: usize = 0;
    while i < ext_docs.len()
        invariant
            i <= ext_docs@.len(),
        decreases ext_docs@.len() - i,
    {
        if str_eq(ext_docs[i].0.as_str(), path) {
            return Some(&ext_docs[i].1);
        }
        i = i + 1;
    }
    None
}

impl Page {
    /// Plan the rendering of this page and its subtree.
    ///
    /// The page's output directory is the given one for the sentinel slug
    /// `index`, else a subdirectory named by its slug; its template follows
    /// the resolution chain; its context is built from its content.  An
    /// index recurses into its children in stored order and plans a feed
    /// file over their entries.  The linked documents of file-linked posts
    /// are taken from `ext_docs`, keyed by path.
    pub fn render(
        &self,
        tera: &tera::Tera,
        out_path: String,
        config: &Config,
        macros: &Macros,
        ext_docs: &Vec<(String, Document)>,
    ) -> (r: Result<RenderOut, Error>)
        ensures
            match r {
                Ok(ro) => {
                    &&& ro.pages@.len() == spec_page_count(*self)
                    &&& ro.pages@[0].out_dir@ == spec_out_dir(out_path@, self.info.slug@)
                    &&& ro.pages@[0].template@ == spec_get_template(
                        tera_templates(*tera),
                        spec_lookup(self.info.properties@, "template"@),
                        self.path@,
                        self.page matches PageEnum::Index { .. },
                    )
                    &&& feed_item_matches(ro.feed_item, *self, *config)
                    &&& match ro.feed_item.content {
                        Some(ref c) => spec_ctx_str(ro.pages@[0].context.entries@, "content"@)
                            matches Some(s) && s@ == c@,
                        None => spec_ctx_str(ro.pages@[0].context.entries@, "content"@) is None,
                    }
                    &&& ro.feeds@.len() == spec_feed_count(*self)
                    &&& (self.page matches PageEnum::Index { children } ==> {
                        let feed = ro.feeds@.last();
                        &&& ro.feeds@.len() >= 1
                        &&& feed.path@ == spec_feed_path(spec_out_dir(out_path@, self.info.slug@))
                        &&& exists|items: Seq<FeedItem>|
                            (#[trigger] items.len()) == children@.len() && (forall|j: int|
                                0 <= j < items.len() ==> feed_item_matches(
                                    #[trigger] items[j],
                                    children@[j],
                                    *config,
                                )) && feed.content@ == crate::rss::rss_channel_xml_of(
                                Seq::new(
                                    items.len(),
                                    |j: int|
                                        crate::rss::rss_item_of(
                                            items[j].title@,
                                            items[j].link@,
                                            match items[j].pub_date {
                                                Some(ref d) => Some(d@),
                                                None => None,
                                            },
                                            items[j].description@,
                                            match items[j].content {
                                                Some(ref c) => Some(c@),
                                                None => None,
                                            },
                                        ),
                                ),
                                config.title@,
                                config.url@,
                                config.description@,
                                config.url@ + self.path@ + "/rss.xml"@,
                            )
                    })
                },
                Err(e) => e matches Error::RenderFailure { .. },
            },
        decreases *self,
    {
        let ghost old_out_path = out_path@;
        let out_dir = if str_eq(self.info.slug.as_str(), "index") {
            out_path
        } else if out_path.as_str().unicode_len() == 0 {
            self.info.slug.clone()
        } else {
            let ghost base = out_path@;
            let mut p = out_path;
            p.append("/");
            p.append(self.info.slug.as_str());
            proof {
                reveal_strlit("/");
                assert(base + "/"@ + self.info.slug@ =~= base + seq!['/'] + self.info.slug@);
            }
            p
        };
        let template = crate::template::get_template(
            tera,
            &self.info.properties,
            self.path.as_str(),
            matches!(self.page, PageEnum::Index { .. }),
        );
        let ext = match &self.page {
            PageEnum::OrgFile { path } => find_ext_doc(ext_docs, path.as_str()),
            _ => None,
        };
        let context = match self.page_context(config, macros, ext) {
            Ok(c) => c,
            Err(e) => {
                // abort on the first failure, wrapped with this page's title
                return Err(
                    Error::RenderFailure { page: self.info.title.clone(), cause: Box::new(e) },
                );
            },
        };
        let feed_item = feed_item_for(self, context.get_str("content"), config);
        let mut pages: Vec<RenderedPage> = Vec::new();
        let mut feeds: Vec<OutputFile> = Vec::new();
        pages.push(RenderedPage { out_dir: out_dir.clone(), template, context });
        match &self.page {
            PageEnum::Index { children } => {
                proof {
                    assert(decreases_to!(*self => self.page));
                    assert(self.page->Index_children == *children);
                    assert(decreases_to!(self.page => self.page->Index_children));
                    assert(decreases_to!(*children => children@));
                    assert(decreases_to!(*self => children@));
                }
                let mut child_items: Vec<FeedItem> = Vec::new();
                let mut i: usize = 0;
                proof {
                    assert(children@.take(0) =~= Seq::<Page>::empty());
                    assert(spec_page_count_forest(Seq::<Page>::empty()) == 0);
                    assert(spec_feed_count_forest(Seq::<Page>::empty()) == 0);
                }
                while i < children.len()
                    invariant
                        i <= children@.len(),
                        pages@.len() >= 1,
                        pages@.len() == 1 + spec_page_count_forest(children@.take(i as int)),
                        feeds@.len() == spec_feed_count_forest(children@.take(i as int)),
                        child_items@.len() == i,
                        forall|j: int|
                            0 <= j < i ==> feed_item_matches(
                                #[trigger] child_items@[j],
                                children@[j],
                                *config,
                            ),
                        match feed_item.content {
                            Some(ref c) => spec_ctx_str(
                                pages@[0].context.entries@,
                                "content"@,
                            ) matches Some(s) && s@ == c@,
                            None => spec_ctx_str(
                                pages@[0].context.entries@,
                                "content"@,
                            ) is None,
                        },
                        pages@[0].out_dir@ == spec_out_dir(old_out_path, self.info.slug@),
                        pages@[0].template@ == spec_get_template(
                            tera_templates(*tera),
                            spec_lookup(self.info.properties@, "template"@),
                            self.path@,
                            self.page matches PageEnum::Index { .. },
                        ),
                        (decreases_to!(*self => children@)),
                    decreases children@.len() - i,
                {
                    proof {
                        assert(decreases_to!(children@ => children@[i as int]));
                    }
                    let sub = match children[i].render(
                        tera,
                        out_dir.clone(),
                        config,
                        macros,
                        ext_docs,
                    ) {
                        Ok(s) => s,
                        Err(e) => {
                            return Err(e);
                        },
                    };
                    let RenderOut { pages: mut sp, feeds: mut sf, feed_item: fi } = sub;
                    pages.append(&mut sp);
                    feeds.append(&mut sf);
                    child_items.push(fi);
                    proof {
                        lemma_counts_snoc(children@.take(i as int), children@[i as int]);
                        assert(children@.take(i as int).push(children@[i as int])
                            =~= children@.take(i + 1 as int));
                    }
                    i = i + 1;
                }
                proof {
                    assert(children@.take(children@.len() as int) =~= children@);
                }
                let xml = generate_rss(&child_items, config, self.path.as_str());
                let feed_path = if out_dir.as_str().unicode_len() == 0 {
                    "rss.xml".to_owned()
                } else {
                    let mut p = out_dir.clone();
                    p.append("/rss.xml");
                    p
                };
                proof {
                    reveal_strlit("/rss.xml");
                    reveal_strlit("rss.xml");
                }
                feeds.push(OutputFile { path: feed_path, content: xml });
                proof {
                    assert(feeds@.last().path@ == spec_feed_path(
                        spec_out_dir(old_out_path, self.info.slug@),
                    ));
                    assert(child_items@.len() == children@.len());
                }
            },
            _ => {},
        }
        Ok(RenderOut { pages, feeds, feed_item })
    }
}

/// Build the whole site's plan from a parsed document: the page tree, every
/// planned page, and every feed file.
pub fn build_files(
    doc: Document,
    tera: &tera::Tera,
    config: &Config,
    macros: &Macros,
    keywords: &TodoKeywords,
    ext_docs: &Vec<(String, Document)>,
) -> (r: Result<(Page, Vec<RenderedPage>, Vec<OutputFile>), Error>)
    ensures
        doc.headings@.len() >= 1 ==> (r matches Ok(t) ==> page_models(
            t.0,
            build_page(doc.headings@[0], *keywords, Seq::empty(), 0, config.release),
        ) && t.1@.len() == spec_page_count(t.0) && t.2@.len() == spec_feed_count(t.0)),
        doc.headings@.len() == 0 ==> (r matches Err(Error::MissingKeyword { .. })),
        r matches Err(e) ==> (e matches Error::MissingKeyword { .. } || e
            matches Error::RenderFailure { .. }),
{
    let mut doc = doc;
    if doc.headings.len() == 0 {
        return Err(Error::MissingKeyword { keyword: "index".to_owned() });
    }
    let root = doc.headings.remove(0);
    let tree = Page::parse_index(root, keywords, String::new(), 0, config.release);
    let out = match tree.render(tera, String::new(), config, macros, ext_docs) {
        Ok(o) => o,
        Err(e) => {
            return Err(e);
        },
    };
    let RenderOut { pages, feeds, feed_item: _ } = out;
    Ok((tree, pages, feeds))
}

} // verus!
