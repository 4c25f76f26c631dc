//! Building the template context of a page: the exported content plus the
//! computed metadata, the site-wide fields, and every heading property.
//!
//! Author properties are merged first, computed fields afterwards, so a
//! property that collides with a reserved key is overridden by the
//! computed value.

use vstd::prelude::*;
use vstd::multiset::Multiset;

use crate::Error;
use crate::config::Config;
use crate::count_words::{count_words_index, count_words_post, spec_count_index, spec_count_post, spec_sat};
use crate::doc::{Document, Element, Heading, OrgEvent, spec_subtree_events, subtree_events};
use crate::footnotes::{Footnote, get_footnotes, spec_footnotes};
use crate::macros::{Macros, comma_args, lemma_find_macro_label, spec_find_macro, spec_has_macro};
use crate::page::{Page, PageEnum, spec_closed_str};
use crate::render::{
    CommonHtmlHandler, CommonS, IndexHtmlHandler, PageHtmlHandler, PostHtmlHandler, RenderCfg,
    XState, export_rest, write_html,
};

verus! {

/// One child summary on an index page.
#[derive(Debug)]
pub struct PageLink {
    pub title: String,
    pub slug: String,
    pub description: Option<String>,
    pub order: usize,
    pub closed_at: Option<String>,
}

/// One value of the template context.
#[derive(Debug)]
pub enum CtxValue {
    Str(String),
    Num(usize),
    OptStr(Option<String>),
    StrList(Vec<String>),
    Pages(Vec<PageLink>),
    Notes(Vec<Footnote>),
}

/// The data a template renders a page from: ordered key/value entries, a
/// later entry shadowing an earlier one of the same key.
#[derive(Debug)]
pub struct PageContext {
    pub entries: Vec<(String, CtxValue)>,
}

/// Relies on `rand::random`: a small cache-busting token; nothing is
/// promised of its value.
#[verifier::external_body]
fn random_asset_token() -> u16 {
    rand::random::<u16>()
}

/// Sort child summaries by their traversal order.
pub fn sort_links(v: Vec<PageLink>) -> (r: Vec<PageLink>)
    ensures
        r@.len() == v@.len(),
        forall|i: int, j: int| 0 <= i < j < r@.len() ==> r@[i].order <= r@[j].order,
        r@.to_multiset() == v@.to_multiset(),
{
    broadcast use vstd::seq_lib::group_to_multiset_ensures;

    let mut src = v;
    let mut out: Vec<PageLink> = Vec::new();
    proof {
        out@.to_multiset_ensures();
        assert(forall|a: PageLink| !out@.contains(a));
        assert forall|a: PageLink| out@.to_multiset().count(a) == 0 by {
            assert(!(out@.to_multiset().count(a) > 0));
        }
        assert(out@.to_multiset() =~= Multiset::<PageLink>::empty());
        assert(out@.to_multiset().add(src@.to_multiset()) =~= src@.to_multiset());
        assert(v@.to_multiset() =~= src@.to_multiset());
    }
    while src.len() > 0
        invariant
            forall|i: int, j: int| 0 <= i < j < out@.len() ==> out@[i].order <= out@[j].order,
            out@.to_multiset().add(src@.to_multiset()) == v@.to_multiset(),
            out@.len() + src@.len() == v@.len(),
        decreases src@.len(),
    {
        let ghost pre_src = src@;
        let x = src.remove(0);
        proof {
            pre_src.to_multiset_ensures();
            assert(pre_src.remove(0).to_multiset() =~= pre_src.to_multiset().remove(pre_src[0]));
        }
        let mut j: usize = 0;
        while j < out.len() && out[j].order <= x.order
            invariant
                j <= out@.len(),
                forall|k: int| 0 <= k < j ==> out@[k].order <= x.order,
            decreases out@.len() - j,
        {
            j = j + 1;
        }
        let ghost pre_out = out@;
        out.insert(j, x);
        proof {
            out@.to_multiset_ensures();
            pre_out.to_multiset_ensures();
            pre_src.to_multiset_ensures();
            assert(out@.remove(j as int) =~= pre_out);
            assert(out@.remove(j as int).to_multiset() =~= out@.to_multiset().remove(
                out@[j as int],
            ));
            assert(out@.to_multiset().contains(x));
            assert(out@.to_multiset() =~= pre_out.to_multiset().insert(x));
            assert(pre_out.to_multiset().insert(x).add(pre_src.to_multiset().remove(pre_src[0]))
                =~= pre_out.to_multiset().add(pre_src.to_multiset()));
            assert forall|a: int, b: int|
                0 <= a < b < out@.len() implies out@[a].order <= out@[b].order by {
                if a < j && b < j {
                    assert(out@[a] == pre_out[a] && out@[b] == pre_out[b]);
                } else if a < j && b == j {
                } else if a < j && b > j {
                    assert(out@[b] == pre_out[b - 1]);
                } else if a == j {
                    assert(out@[b] == pre_out[b - 1]);
                    assert(j < pre_out.len() ==> pre_out[j as int].order > x.order);
                    assert(pre_out[b - 1].order >= pre_out[j as int].order);
                } else {
                    assert(out@[a] == pre_out[a - 1] && out@[b] == pre_out[b - 1]);
                }
            }
        }
    }
    proof {
        src@.to_multiset_ensures();
        assert forall|a: PageLink| src@.to_multiset().count(a) == 0 by {
            assert(!(src@.to_multiset().count(a) > 0));
        }
        assert(src@.to_multiset() =~= Multiset::<PageLink>::empty());
        assert(out@.to_multiset().add(Multiset::<PageLink>::empty()) =~= out@.to_multiset());
    }
    out
}

/// The macro calls of a stream, in order: name and raw argument text.
pub open spec fn spec_macro_calls(events: Seq<OrgEvent>) -> Seq<(Seq<char>, Option<Seq<char>>)>
    decreases events.len(),
{
    if events.len() == 0 {
        Seq::empty()
    } else {
        (match events[0] {
            OrgEvent::Start(Element::MacroCall { name, arguments }) => seq![
                (
                    name@,
                    match arguments {
                        Some(a) => Some(a@),
                        None => None,
                    },
                ),
            ],
            _ => Seq::empty(),
        }) + spec_macro_calls(events.skip(1))
    }
}

/// Collect the macro calls of a stream.
pub fn macro_calls(events: &Vec<OrgEvent>) -> (r: Vec<(String, Option<String>)>)
    ensures
        r@.len() == spec_macro_calls(events@).len(),
        forall|i: int|
            0 <= i < r@.len() ==> ((#[trigger] r@[i]).0@, match r@[i].1 {
                Some(ref a) => Some(a@),
                None => None,
            }) == spec_macro_calls(events@)[i],
{
    let mut out: Vec<(String, Option<String>)> = Vec::new();
    let mut i: usize = 0;
    proof {
        assert(events@.skip(0) =~= events@);
    }
    while i < events.len()
        invariant
            i <= events@.len(),
            spec_macro_calls(events@) == Seq::new(
                out@.len() as nat,
                |k: int|
                    ((out@[k].0@, match out@[k].1 {
                        Some(ref a) => Some(a@),
                        None => None,
                    })),
            ) + spec_macro_calls(events@.skip(i as int)),
        decreases events@.len() - i,
    {
        proof {
            assert(events@.skip(i as int)[0] == events@[i as int]);
            assert(events@.skip(i as int).skip(1) =~= events@.skip(i + 1 as int));
        }
        let ghost pre = Seq::new(
            out@.len() as nat,
            |k: int|
                ((out@[k].0@, match out@[k].1 {
                    Some(ref a) => Some(a@),
                    None => None,
                })),
        );
        match &events[i] {
            OrgEvent::Start(Element::MacroCall { name, arguments }) => {
                let args = match arguments {
                    Some(a) => Some(a.clone()),
                    None => None,
                };
                out.push((name.clone(), args));
            },
            _ => {},
        }
        proof {
            let post = Seq::new(
                out@.len() as nat,
                |k: int|
                    ((out@[k].0@, match out@[k].1 {
                        Some(ref a) => Some(a@),
                        None => None,
                    })),
            );
            assert(post =~= pre + (match events@[i as int] {
                OrgEvent::Start(Element::MacroCall { name, arguments }) => seq![
                    (
                        name@,
                        match arguments {
                            Some(a) => Some(a@),
                            None => None,
                        },
                    ),
                ],
                _ => Seq::empty(),
            }));
        }
        i = i + 1;
    }
    proof {
        assert(events@.skip(events@.len() as int) =~= Seq::<OrgEvent>::empty());
        assert(spec_macro_calls(Seq::<OrgEvent>::empty()) =~= Seq::<(Seq<char>, Option<Seq<
            char,
        >>)>::empty());
    }
    out
}

/// The argument text of one macro call: its raw arguments, or nothing.
pub open spec fn call_text(c: (String, Option<String>)) -> Seq<char> {
    match c.1 {
        Some(a) => a@,
        None => ""@,
    }
}

/// Expand every macro call through the macro set: a call whose name no
/// macro bears expands to nothing; a failing expansion aborts the build.
/// A reported argument mismatch names a called macro whose parameter count
/// really differs from its call's argument count.
pub fn expand_macros(macros: &Macros, calls: &Vec<(String, Option<String>)>) -> (r: Result<
    Vec<Option<String>>,
    Error,
>)
    ensures
        r matches Ok(v) ==> v@.len() == calls@.len() && (forall|i: int|
            0 <= i < v@.len() ==> ((#[trigger] v@[i]) is None <==> !spec_has_macro(
                macros.macros@,
                calls@[i].0@,
            ))),
        r matches Err(e) ==> {
            &&& (e matches Error::MacroArgumentMismatch { .. } || e
                matches Error::TemplateRenderFailure { .. })
            &&& (e matches Error::MacroArgumentMismatch { name } ==> spec_find_macro(
                macros.macros@,
                name@,
            ) is Some && exists|i: int|
                0 <= i < calls@.len() && (#[trigger] calls@[i]).0@ == name@ && comma_args(
                    call_text(calls@[i]),
                ).len() != macros.macros@[spec_find_macro(macros.macros@, name@)->0]
                    .arguments@.len())
        },
{
    let mut out: Vec<Option<String>> = Vec::new();
    let mut i: usize = 0;
    while i < calls.len()
        invariant
            i <= calls@.len(),
            out@.len() == i,
            forall|j: int|
                0 <= j < i ==> ((#[trigger] out@[j]) is None <==> !spec_has_macro(
                    macros.macros@,
                    calls@[j].0@,
                )),
        decreases calls@.len() - i,
    {
        match macros.get(calls[i].0.as_str()) {
            Some(p) => {
                let expanded = match &calls[i].1 {
                    Some(args) => p.process(args.as_str()),
                    None => p.process(""),
                };
                match expanded {
                    Ok(s) => out.push(Some(s)),
                    Err(e) => {
                        proof {
                            lemma_find_macro_label(macros.macros@, calls@[i as int].0@);
                            let ct = call_text(calls@[i as int]);
                            let nm = calls@[i as int].0@;
                            assert(match e {
                                Error::MacroArgumentMismatch { name } => {
                                    &&& name@ == nm
                                    &&& spec_find_macro(macros.macros@, nm) is Some
                                    &&& comma_args(ct).len() != macros.macros@[spec_find_macro(
                                        macros.macros@,
                                        nm,
                                    )->0].arguments@.len()
                                },
                                _ => true,
                            });
                        }
                        return Err(e);
                    },
                }
            },
            None => out.push(None),
        }
        i = i + 1;
    }
    Ok(out)
}

/// The exporter inputs a site configuration dictates.
pub open spec fn spec_render_cfg(config: Config) -> RenderCfg {
    RenderCfg {
        theme: config.syntax_highlighting_theme@,
        static_prefix: config.static_dir@,
        base_url: config.url@,
    }
}

/// The exporter's starting state: no pending attributes, no footnotes seen,
/// no expansions consumed, no skip flag set.
pub open spec fn init_export_state() -> XState {
    XState {
        c: CommonS { attrs: Seq::empty(), fid: 0, ei: 0 },
        in_headline: false,
        in_page_title: false,
    }
}

/// Whether `out` is a possible export of `events` for this site: the
/// whole-stream export under some macro-expansion vector, one entry per
/// macro call.  With no macro calls the vector is empty and the export is
/// pinned completely.
pub open spec fn spec_exported(
    index: bool,
    level: int,
    config: Config,
    events: Seq<OrgEvent>,
    out: Result<Seq<char>, Seq<char>>,
) -> bool {
    exists|exps: Seq<Option<Seq<char>>>|
        exps.len() == spec_macro_calls(events).len() && export_rest(
            index,
            level,
            spec_render_cfg(config),
            init_export_state(),
            events,
            exps,
        ) == out
}

/// A macro call in `events` whose argument count disagrees with the named
/// macro's parameter count.
pub open spec fn spec_mismatched_call(
    macros: Seq<crate::macros::Macro>,
    events: Seq<OrgEvent>,
    name: Seq<char>,
) -> bool {
    &&& spec_find_macro(macros, name) is Some
    &&& exists|i: int|
        0 <= i < spec_macro_calls(events).len() && (#[trigger] spec_macro_calls(events)[i]).0
            == name && comma_args(
            match spec_macro_calls(events)[i].1 {
                Some(a) => a,
                None => ""@,
            },
        ).len() != macros[spec_find_macro(macros, name)->0].arguments@.len()
}

/// At least a minute, else the word count at 180 words a minute.
pub open spec fn spec_reading_time(n: nat) -> nat {
    if n / 180 < 1 {
        1
    } else {
        n / 180
    }
}

/// Whether a link value summarizes a page.
pub open spec fn page_link_models(l: PageLink, p: Page) -> bool {
    &&& l.title@ == p.info.title@
    &&& l.slug@ == p.info.slug@
    &&& match (l.description, p.info.description) {
        (Some(ref a), Some(ref b)) => a@ == b@,
        (None, None) => true,
        _ => false,
    }
    &&& l.order == p.order
    &&& match (l.closed_at, p.info.closed_at) {
        (Some(ref a), Some(d)) => a@ == spec_closed_str(d),
        (None, None) => true,
        _ => false,
    }
}

fn child_links(children: &Vec<Page>) -> (r: Vec<PageLink>)
    ensures
        r@.len() == children@.len(),
        forall|i: int| 0 <= i < r@.len() ==> page_link_models(#[trigger] r@[i], children@[i]),
{
    let mut out: Vec<PageLink> = Vec::new();
    let mut i: usize = 0;
    while i < children.len()
        invariant
            i <= children@.len(),
            out@.len() == i,
            forall|j: int| 0 <= j < i ==> page_link_models(#[trigger] out@[j], children@[j]),
        decreases children@.len() - i,
    {
        let c = &children[i];
        let description = match &c.info.description {
            Some(d) => Some(d.clone()),
            None => None,
        };
        out.push(
            PageLink {
                title: c.info.title.clone(),
                slug: c.info.slug.clone(),
                description,
                order: c.order,
                closed_at: c.info.closed_at(),
            },
        );
        i = i + 1;
    }
    out
}

/// The raw titles of a heading's children: a post's section list.
fn section_titles(h: &Heading) -> (r: Vec<String>)
    ensures
        r@.len() == h.children@.len(),
        forall|i: int| 0 <= i < r@.len() ==> (#[trigger] r@[i])@ == h.children@[i].raw@,
{
    let mut out: Vec<String> = Vec::new();
    let mut i: usize = 0;
    while i < h.children.len()
        invariant
            i <= h.children@.len(),
            out@.len() == i,
            forall|j: int| 0 <= j < i ==> (#[trigger] out@[j])@ == h.children@[j].raw@,
        decreases h.children@.len() - i,
    {
        out.push(h.children[i].raw.clone());
        i = i + 1;
    }
    out
}

fn common_handler(config: &Config) -> (r: CommonHtmlHandler)
    ensures
        r.attributes@.len() == 0,
        r.footnote_id == 0,
        r.theme@ == config.syntax_highlighting_theme@,
        r.static_prefix@ == config.static_dir@,
        r.base_url@ == config.url@,
{
    CommonHtmlHandler {
        attributes: Vec::new(),
        footnote_id: 0,
        theme: config.syntax_highlighting_theme.clone(),
        static_prefix: config.static_dir.clone(),
        base_url: config.url.clone(),
    }
}

/// Export one stream for this site: collect its macro calls, expand them
/// through the macro set, and render the stream.  On success the content is
/// an export of the stream under the expansions handed over; an
/// unresolvable link names its path; a reported argument mismatch names a
/// macro that a call in this stream really miscounts.
fn export_content(
    events: &Vec<OrgEvent>,
    index: bool,
    level: usize,
    config: &Config,
    macros: &Macros,
) -> (r: Result<String, Error>)
    ensures
        r matches Ok(c) ==> spec_exported(index, level as int, *config, events@, Ok(c@)),
        r matches Err(e) ==> {
            &&& (e matches Error::MacroArgumentMismatch { .. } || e
                matches Error::TemplateRenderFailure { .. } || e matches Error::InvalidUrl {
                ..
            })
            &&& (e matches Error::InvalidUrl { url } ==> spec_exported(
                index,
                level as int,
                *config,
                events@,
                Err(url@),
            ))
            &&& (e matches Error::MacroArgumentMismatch { name } ==> spec_mismatched_call(
                macros.macros@,
                events@,
                name@,
            ))
        },
{
    let calls = macro_calls(events);
    let exps = match expand_macros(macros, &calls) {
        Ok(v) => v,
        Err(e) => {
            proof {
                match &e {
                    Error::MacroArgumentMismatch { name } => {
                        let i = choose|i: int|
                            0 <= i < calls@.len() && (#[trigger] calls@[i]).0@ == name@
                                && comma_args(call_text(calls@[i])).len()
                                != macros.macros@[spec_find_macro(macros.macros@, name@)->0]
                                .arguments@.len();
                        assert(((calls@[i].0@, match calls@[i].1 {
                            Some(ref a) => Some(a@),
                            None => None,
                        })) == spec_macro_calls(events@)[i]);
                        assert(spec_macro_calls(events@)[i].0 == name@);
                        assert((match spec_macro_calls(events@)[i].1 {
                            Some(a) => a,
                            None => ""@,
                        }) == call_text(calls@[i]));
                        assert(spec_mismatched_call(macros.macros@, events@, name@));
                    },
                    _ => {},
                }
            }
            return Err(e);
        },
    };
    let common = common_handler(config);
    let ghost c0 = common;
    proof {
        assert(crate::render::attrs_view(c0.attributes@) =~= Seq::<(Seq<char>, Seq<
            char,
        >)>::empty());
        assert(crate::render::cstate(c0, 0) == CommonS {
            attrs: Seq::<(Seq<char>, Seq<char>)>::empty(),
            fid: 0,
            ei: 0,
        });
        assert(crate::render::ccfg(c0) == spec_render_cfg(*config));
    }
    let handler = if index {
        PageHtmlHandler::Index(
            IndexHtmlHandler { handler: common, level, in_headline: false, in_page_title: false },
        )
    } else {
        PageHtmlHandler::Post(PostHtmlHandler { handler: common, level, in_page_title: false })
    };
    let ghost h0 = handler;
    let ghost ev = crate::render::exps_view(exps@);
    let events_len = events.len();
    proof {
        assert(crate::render::xstate(h0, 0) == init_export_state());
        assert(crate::render::xcfg(h0) == spec_render_cfg(*config));
        assert(crate::render::xis_index(h0) == index);
        assert(crate::render::xlevel(h0) == level as int);
        assert(ev.len() == spec_macro_calls(events@).len());
    }
    match write_html(events, handler, &exps) {
        Ok(c) => {
            proof {
                assert(export_rest(
                    index,
                    level as int,
                    spec_render_cfg(*config),
                    init_export_state(),
                    events@,
                    ev,
                ) == Ok::<Seq<char>, Seq<char>>(c@));
            }
            Ok(c)
        },
        Err(e) => {
            proof {
                match &e {
                    Error::InvalidUrl { url } => {
                        assert(export_rest(
                            index,
                            level as int,
                            spec_render_cfg(*config),
                            init_export_state(),
                            events@,
                            ev,
                        ) == Err::<Seq<char>, Seq<char>>(url@));
                    },
                    _ => {},
                }
            }
            Err(e)
        },
    }
}

impl Page {
    /// Build the template context of this page.
    ///
    /// The heading's properties come first; the computed fields follow and
    /// shadow any property of the same name: the exported `content`, the
    /// sorted child summaries (`pages`) or the section list (`sections`),
    /// `word_count` and `reading_time`, a post's `footnotes`, a random
    /// `asset_v` token, `title` and `date`, and the site-wide fields.  A
    /// file-linked post renders the given linked document and is an error
    /// without one.
    pub fn page_context(&self, config: &Config, macros: &Macros, ext: Option<&Document>) -> (r:
        Result<PageContext, Error>)
        ensures
            match r {
                Ok(ctx) => ({
                    let props = self.info.properties@;
                    let base = props.len() as int;
                    let fixed = if self.page matches PageEnum::Index { .. } {
                        10int
                    } else {
                        11int
                    };
                    &&& ctx.entries@.len() == base + fixed
                    &&& forall|i: int|
                        0 <= i < base ==> (#[trigger] ctx.entries@[i]).0 == props[i].0 && (
                        ctx.entries@[i].1 matches CtxValue::Str(s) && s == props[i].1)
                    &&& ctx.entries@[base].0@ == "content"@ && (ctx.entries@[base].1
                        matches CtxValue::Str(c) && (match self.page {
                        PageEnum::Index { .. } => spec_exported(
                            true,
                            self.heading.level as int,
                            *config,
                            spec_subtree_events(self.heading),
                            Ok(c@),
                        ),
                        PageEnum::Post => spec_exported(
                            false,
                            self.heading.level as int,
                            *config,
                            spec_subtree_events(self.heading),
                            Ok(c@),
                        ),
                        PageEnum::OrgFile { .. } => ext matches Some(d) && d.headings@.len() > 0
                            && spec_exported(
                            false,
                            d.headings@[0].level as int,
                            *config,
                            spec_subtree_events(d.headings@[0]),
                            Ok(c@),
                        ),
                    }))
                    &&& if self.page matches PageEnum::Index { .. } {
                        &&& ctx.entries@[base + 1].0@ == "pages"@
                        &&& ctx.entries@[base + 1].1 matches CtxValue::Pages(ps) && (forall|
                            a: int,
                            b: int,
                        |
                            0 <= a < b < ps@.len() ==> (#[trigger] ps@[a]).order <= (
                            #[trigger] ps@[b]).order) && ps@.len() == (self.page
                            ->Index_children)@.len() && (exists|cl: Seq<PageLink>|
                            ps@.to_multiset() == #[trigger] cl.to_multiset() && cl.len() == (
                            self.page->Index_children)@.len() && (forall|i: int|
                                0 <= i < cl.len() ==> page_link_models(
                                    #[trigger] cl[i],
                                    (self.page->Index_children)@[i],
                                )))
                        &&& ctx.entries@[base + 2].0@ == "word_count"@ && (ctx.entries@[base
                            + 2].1 matches CtxValue::Num(n) && n == spec_sat(
                            spec_count_index(
                                self.heading.level as int,
                                false,
                                false,
                                spec_subtree_events(self.heading),
                            ),
                        ))
                        &&& ctx.entries@[base + 3].0@ == "reading_time"@ && (ctx.entries@[base
                            + 3].1 matches CtxValue::Num(t) && (ctx.entries@[base + 2].1
                            matches CtxValue::Num(n) && t == spec_reading_time(n as nat)))
                        &&& ctx.entries@[base + 4].0@ == "asset_v"@
                    } else {
                        &&& ctx.entries@[base + 1].0@ == "sections"@
                        &&& ctx.entries@[base + 2].0@ == "word_count"@ && (self.page
                            matches PageEnum::Post ==> (ctx.entries@[base + 2].1
                            matches CtxValue::Num(n) && n == spec_sat(
                            spec_count_post(spec_subtree_events(self.heading)),
                        )))
                        &&& ctx.entries@[base + 3].0@ == "reading_time"@ && (ctx.entries@[base
                            + 3].1 matches CtxValue::Num(t) && (ctx.entries@[base + 2].1
                            matches CtxValue::Num(n) && t == spec_reading_time(n as nat)))
                        &&& ctx.entries@[base + 4].0@ == "footnotes"@ && (ctx.entries@[base
                            + 4].1 matches CtxValue::Notes(ns) && ns@.len() == spec_footnotes(
                            spec_subtree_events(self.heading),
                        ).len() && (forall|j: int|
                            0 <= j < ns@.len() ==> ((#[trigger] ns@[j]).label@,
                            ns@[j].definition@) == spec_footnotes(
                                spec_subtree_events(self.heading),
                            )[j]))
                        &&& ctx.entries@[base + 5].0@ == "asset_v"@
                    }
                    &&& ctx.entries@[base + fixed - 6].0@ == "asset_v"@
                    &&& ctx.entries@[base + fixed - 5].0@ == "title"@ && (ctx.entries@[base
                        + fixed - 5].1 matches CtxValue::Str(t) && t@ == self.info.title@)
                    &&& ctx.entries@[base + fixed - 4].0@ == "date"@ && (ctx.entries@[base
                        + fixed - 4].1 matches CtxValue::OptStr(d) && (match (
                        d,
                        self.info.closed_at,
                    ) {
                        (Some(ref a), Some(dd)) => a@ == spec_closed_str(dd),
                        (None, None) => true,
                        _ => false,
                    }))
                    &&& ctx.entries@[base + fixed - 3].0@ == "base_title"@ && (ctx.entries@[base
                        + fixed - 3].1 matches CtxValue::Str(t) && t@ == config.title@)
                    &&& ctx.entries@[base + fixed - 2].0@ == "base_url"@ && (ctx.entries@[base
                        + fixed - 2].1 matches CtxValue::Str(t) && t@ == config.url@)
                    &&& ctx.entries@[base + fixed - 1].0@ == "base_description"@ && (
                    ctx.entries@[base + fixed - 1].1 matches CtxValue::Str(t) && t@
                        == config.description@)
                }),
                Err(e) => {
                    &&& ((self.page matches PageEnum::OrgFile { .. } && ext is None) ==> (
                    e matches Error::ExternalFileUnreadable { .. }))
                    &&& (e matches Error::MacroArgumentMismatch { .. } || e
                        matches Error::TemplateRenderFailure { .. } || e
                        matches Error::InvalidUrl { .. } || e
                        matches Error::ExternalFileUnreadable { .. })
                    &&& (e matches Error::ExternalFileUnreadable { heading, file } ==> heading@
                        == self.info.title@ && (self.page matches PageEnum::OrgFile { path }
                        && file@ == path@))
                    &&& (e matches Error::InvalidUrl { url } ==> match self.page {
                        PageEnum::Index { .. } => spec_exported(
                            true,
                            self.heading.level as int,
                            *config,
                            spec_subtree_events(self.heading),
                            Err(url@),
                        ),
                        PageEnum::Post => spec_exported(
                            false,
                            self.heading.level as int,
                            *config,
                            spec_subtree_events(self.heading),
                            Err(url@),
                        ),
                        PageEnum::OrgFile { .. } => ext matches Some(d) && d.headings@.len() > 0
                            && spec_exported(
                            false,
                            d.headings@[0].level as int,
                            *config,
                            spec_subtree_events(d.headings@[0]),
                            Err(url@),
                        ),
                    })
                    &&& (e matches Error::MacroArgumentMismatch { name } ==> match self.page {
                        PageEnum::Index { .. } => spec_mismatched_call(
                            macros.macros@,
                            spec_subtree_events(self.heading),
                            name@,
                        ),
                        PageEnum::Post => spec_mismatched_call(
                            macros.macros@,
                            spec_subtree_events(self.heading),
                            name@,
                        ),
                        PageEnum::OrgFile { .. } => ext matches Some(d) && d.headings@.len() > 0
                            && spec_mismatched_call(
                            macros.macros@,
                            spec_subtree_events(d.headings@[0]),
                            name@,
                        ),
                    })
                },
            },
    {
        let mut entries: Vec<(String, CtxValue)> = Vec::new();
        let mut i: usize = 0;
        while i < self.info.properties.len()
            invariant
                i <= self.info.properties@.len(),
                entries@.len() == i,
                forall|j: int|
                    0 <= j < i ==> (#[trigger] entries@[j]).0 == self.info.properties@[j].0 && (
                    entries@[j].1 matches CtxValue::Str(s) && s == self.info.properties@[j].1),
            decreases self.info.properties@.len() - i,
        {
            entries.push(
                (
                    self.info.properties[i].0.clone(),
                    CtxValue::Str(self.info.properties[i].1.clone()),
                ),
            );
            i = i + 1;
        }
        match &self.page {
            PageEnum::Index { children } => {
                let events = subtree_events(&self.heading);
                let html = match export_content(
                    &events,
                    true,
                    self.heading.level,
                    config,
                    macros,
                ) {
                    Ok(c) => c,
                    Err(e) => {
                        return Err(e);
                    },
                };
                let links = child_links(children);
                let ghost cl = links@;
                let pages = sort_links(links);
                proof {
                    assert(pages@.to_multiset() == cl.to_multiset());
                }
                let wc = count_words_index(&self.heading);
                let q = wc / 180;
                let rt: usize = if q < 1 {
                    1
                } else {
                    q
                };
                entries.push(("content".to_owned(), CtxValue::Str(html)));
                entries.push(("pages".to_owned(), CtxValue::Pages(pages)));
                entries.push(("word_count".to_owned(), CtxValue::Num(wc)));
                entries.push(("reading_time".to_owned(), CtxValue::Num(rt)));
            },
            PageEnum::Post => {
                let events = subtree_events(&self.heading);
                let html = match export_content(
                    &events,
                    false,
                    self.heading.level,
                    config,
                    macros,
                ) {
                    Ok(c) => c,
                    Err(e) => {
                        return Err(e);
                    },
                };
                let sections = section_titles(&self.heading);
                let wc = count_words_post(&events);
                let q = wc / 180;
                let rt: usize = if q < 1 {
                    1
                } else {
                    q
                };
                let notes = get_footnotes(&events);
                entries.push(("content".to_owned(), CtxValue::Str(html)));
                entries.push(("sections".to_owned(), CtxValue::StrList(sections)));
                entries.push(("word_count".to_owned(), CtxValue::Num(wc)));
                entries.push(("reading_time".to_owned(), CtxValue::Num(rt)));
                entries.push(("footnotes".to_owned(), CtxValue::Notes(notes)));
            },
            PageEnum::OrgFile { path } => {
                let doc = match ext {
                    Some(d) => d,
                    None => {
                        return Err(
                            Error::ExternalFileUnreadable {
                                heading: self.info.title.clone(),
                                file: path.clone(),
                            },
                        );
                    },
                };
                if doc.headings.len() == 0 {
                    return Err(
                        Error::ExternalFileUnreadable {
                            heading: self.info.title.clone(),
                            file: path.clone(),
                        },
                    );
                }
                let first = &doc.headings[0];
                let events = subtree_events(first);
                let html = match export_content(&events, false, first.level, config, macros) {
                    Ok(c) => c,
                    Err(e) => {
                        return Err(e);
                    },
                };
                let sections = section_titles(&self.heading);
                let wc = count_words_post(&events);
                let q = wc / 180;
                let rt: usize = if q < 1 {
                    1
                } else {
                    q
                };
                let own_events = subtree_events(&self.heading);
                let notes = get_footnotes(&own_events);
                entries.push(("content".to_owned(), CtxValue::Str(html)));
                entries.push(("sections".to_owned(), CtxValue::StrList(sections)));
                entries.push(("word_count".to_owned(), CtxValue::Num(wc)));
                entries.push(("reading_time".to_owned(), CtxValue::Num(rt)));
                entries.push(("footnotes".to_owned(), CtxValue::Notes(notes)));
            },
        }
        let token = random_asset_token();
        entries.push(("asset_v".to_owned(), CtxValue::Num(token as usize)));
        entries.push(("title".to_owned(), CtxValue::Str(self.info.title.clone())));
        entries.push(("date".to_owned(), CtxValue::OptStr(self.info.closed_at())));
        entries.push(("base_title".to_owned(), CtxValue::Str(config.title.clone())));
        entries.push(("base_url".to_owned(), CtxValue::Str(config.url.clone())));
        entries.push(("base_description".to_owned(), CtxValue::Str(config.description.clone())));
        Ok(PageContext { entries })
    }
}

} // verus!
