//! The document model: a parsed outline document as plain values.
//!
//! The parser itself is an outside collaborator; whatever it produces is
//! converted into these types before the library looks at it.  A `Heading`
//! carries everything the tree builder and the exporter read: title, tags,
//! workflow keyword, properties, closed date, its own body as a start/end
//! event stream, and its child headings.

use vstd::prelude::*;

use crate::strings::str_eq;

verus! {

/// A calendar date (with optional clock time) taken from an inactive
/// timestamp.  Values are carried as authored; no validity is implied.
#[derive(Debug, Clone, Copy, PartialEq, Eq, Structural)]
pub struct Date {
    pub year: u16,
    pub month: u8,
    pub day: u8,
    pub hour: Option<u8>,
    pub minute: Option<u8>,
}

/// One markup element, as a closed set of variants.  Anything the library
/// does not special-case arrives as `Other` and renders as nothing.
#[derive(Debug, Clone, PartialEq, Eq)]
pub enum Element {
    Paragraph,
    QuoteBlock,
    CenterBlock,
    VerseBlock,
    Bold,
    Italic,
    Strike,
    Underline,
    List { ordered: bool },
    ListItem,
    Section,
    Document,
    Headline { level: usize },
    Title { level: usize, raw: String },
    Text { value: String },
    Code { value: String },
    Link { path: String, desc: Option<String> },
    Keyword { key: String, value: String },
    SourceBlock { language: String, contents: String },
    ExampleBlock { contents: String },
    Rule,
    FnDef { label: String },
    FnRef { label: String, definition: Option<String> },
    MacroCall { name: String, arguments: Option<String> },
    SpecialBlock { parameters: Option<String> },
    Other,
}

/// One step of a depth-first walk: entering or leaving an element.
#[derive(Debug, Clone, PartialEq, Eq)]
pub enum OrgEvent {
    Start(Element),
    End(Element),
}

/// An outline heading with its body and child headings.
#[derive(Debug, PartialEq, Eq)]
pub struct Heading {
    /// Number of stars.
    pub level: usize,
    /// Raw title text, without stars and tags.
    pub raw: String,
    pub tags: Vec<String>,
    /// Workflow keyword, if the title carries one.
    pub keyword: Option<String>,
    /// Property drawer entries, in authored order.
    pub properties: Vec<(String, String)>,
    /// Date of the CLOSED inactive timestamp, if present.
    pub closed: Option<Date>,
    /// Start/end events of this heading's own body (its section), not
    /// including the title or any child heading.
    pub section: Vec<OrgEvent>,
    pub children: Vec<Heading>,
}

/// A whole parsed document: the preamble keywords, the body before the first
/// heading, and the top-level headings.
#[derive(Debug, PartialEq, Eq)]
pub struct Document {
    /// Preamble keyword lines, in authored order.
    pub keywords: Vec<(String, String)>,
    /// Events of the body before the first heading.
    pub section: Vec<OrgEvent>,
    pub headings: Vec<Heading>,
}

/// A structurally sound heading: every child sits one level below its
/// parent, and the heading's own section holds no heading or title events.
pub open spec fn heading_wf(h: Heading) -> bool
    decreases h,
{
    &&& forall|i: int|
        0 <= i < h.section@.len() ==> !(#[trigger] h.section@[i] matches OrgEvent::Start(
            Element::Headline { .. },
        )) && !(h.section@[i] matches OrgEvent::Start(Element::Title { .. })) && !(
        h.section@[i] matches OrgEvent::End(Element::Headline { .. })) && !(
        h.section@[i] matches OrgEvent::End(Element::Title { .. }))
    &&& forall|i: int|
        0 <= i < h.children@.len() ==> (#[trigger] h.children@[i]).level == h.level + 1
            && heading_wf(h.children@[i])
}

/// Whether the heading carries the given tag.
pub open spec fn spec_has_tag(h: Heading, tag: Seq<char>) -> bool {
    exists|i: int| 0 <= i < h.tags@.len() && h.tags@[i]@ == tag
}

/// The last value bound to `key` in an in-order list of pairs, if any;
/// a later entry shadows an earlier one with the same key.
pub open spec fn spec_lookup(pairs: Seq<(String, String)>, key: Seq<char>) -> Option<Seq<char>>
    decreases pairs.len(),
{
    if pairs.len() == 0 {
        None
    } else if pairs.last().0@ == key {
        Some(pairs.last().1@)
    } else {
        spec_lookup(pairs.drop_last(), key)
    }
}

/// Whether the heading carries the given tag.
pub fn has_tag(h: &Heading, tag: &str) -> (r: bool)
    ensures
        r == spec_has_tag(*h, tag@),
{
    let mut i: usize = 0;
    while i < h.tags.len()
        invariant
            i <= h.tags@.len(),
            forall|j: int| 0 <= j < i ==> h.tags@[j]@ != tag@,
        decreases h.tags@.len() - i,
    {
        if str_eq(h.tags[i].as_str(), tag) {
            return true;
        }
        i = i + 1;
    }
    false
}

/// Look `key` up in a property or keyword list; the last binding wins.
pub fn lookup<'a>(pairs: &'a Vec<(String, String)>, key: &str) -> (r: Option<&'a String>)
    ensures
        match r {
            Some(v) => spec_lookup(pairs@, key@) == Some(v@),
            None => spec_lookup(pairs@, key@) is None,
        },
{
    let n = pairs.len();
    let mut i: usize = n;
    proof {
        assert(pairs@.take(n as int) =~= pairs@);
    }
    while i > 0
        invariant
            i <= n,
            n == pairs@.len(),
            spec_lookup(pairs@, key@) == spec_lookup(pairs@.take(i as int), key@),
        decreases i,
    {
        i = i - 1;
        if str_eq(pairs[i].0.as_str(), key) {
            proof {
                assert(pairs@.take(i + 1 as int).last() == pairs@[i as int]);
            }
            return Some(&pairs[i].1);
        }
        proof {
            assert(pairs@.take(i + 1 as int).drop_last() =~= pairs@.take(i as int));
        }
    }
    proof {
        assert(pairs@.take(0) =~= Seq::<(String, String)>::empty());
    }
    None
}

/// Copy one element; the copy equals the original.
pub fn clone_element(e: &Element) -> (r: Element)
    ensures
        r == *e,
{
    match e {
        Element::Paragraph => Element::Paragraph,
        Element::QuoteBlock => Element::QuoteBlock,
        Element::CenterBlock => Element::CenterBlock,
        Element::VerseBlock => Element::VerseBlock,
        Element::Bold => Element::Bold,
        Element::Italic => Element::Italic,
        Element::Strike => Element::Strike,
        Element::Underline => Element::Underline,
        Element::List { ordered } => Element::List { ordered: *ordered },
        Element::ListItem => Element::ListItem,
        Element::Section => Element::Section,
        Element::Document => Element::Document,
        Element::Headline { level } => Element::Headline { level: *level },
        Element::Title { level, raw } => Element::Title { level: *level, raw: raw.clone() },
        Element::Text { value } => Element::Text { value: value.clone() },
        Element::Code { value } => Element::Code { value: value.clone() },
        Element::Link { path, desc } => Element::Link {
            path: path.clone(),
            desc: match desc {
                Some(d) => Some(d.clone()),
                None => None,
            },
        },
        Element::Keyword { key, value } => Element::Keyword {
            key: key.clone(),
            value: value.clone(),
        },
        Element::SourceBlock { language, contents } => Element::SourceBlock {
            language: language.clone(),
            contents: contents.clone(),
        },
        Element::ExampleBlock { contents } => Element::ExampleBlock {
            contents: contents.clone(),
        },
        Element::Rule => Element::Rule,
        Element::FnDef { label } => Element::FnDef { label: label.clone() },
        Element::FnRef { label, definition } => Element::FnRef {
            label: label.clone(),
            definition: match definition {
                Some(d) => Some(d.clone()),
                None => None,
            },
        },
        Element::MacroCall { name, arguments } => Element::MacroCall {
            name: name.clone(),
            arguments: match arguments {
                Some(a) => Some(a.clone()),
                None => None,
            },
        },
        Element::SpecialBlock { parameters } => Element::SpecialBlock {
            parameters: match parameters {
                Some(p) => Some(p.clone()),
                None => None,
            },
        },
        Element::Other => Element::Other,
    }
}

/// Copy one event; the copy equals the original.
pub fn clone_event(e: &OrgEvent) -> (r: OrgEvent)
    ensures
        r == *e,
{
    match e {
        OrgEvent::Start(el) => OrgEvent::Start(clone_element(el)),
        OrgEvent::End(el) => OrgEvent::End(clone_element(el)),
    }
}

/// Copy a list of events.
pub fn clone_events(src: &Vec<OrgEvent>) -> (r: Vec<OrgEvent>)
    ensures
        r@ == src@,
{
    let mut out: Vec<OrgEvent> = Vec::new();
    let mut i: usize = 0;
    while i < src.len()
        invariant
            i <= src@.len(),
            out@.len() == i,
            forall|j: int| 0 <= j < i ==> out@[j] == src@[j],
        decreases src@.len() - i,
    {
        out.push(clone_event(&src[i]));
        i = i + 1;
    }
    proof {
        assert(out@ =~= src@);
    }
    out
}

/// The five events that open a heading in a walk: the headline, its title,
/// and the title's raw text.
pub open spec fn spec_heading_open(h: Heading) -> Seq<OrgEvent> {
    seq![
        OrgEvent::Start(Element::Headline { level: h.level }),
        OrgEvent::Start(Element::Title { level: h.level, raw: h.raw }),
        OrgEvent::Start(Element::Text { value: h.raw }),
        OrgEvent::End(Element::Text { value: h.raw }),
        OrgEvent::End(Element::Title { level: h.level, raw: h.raw }),
    ]
}

/// The depth-first start/end walk of a heading's whole subtree: headline and
/// title, its own body, every child's walk, then the closing headline event.
pub open spec fn spec_subtree_events(h: Heading) -> Seq<OrgEvent>
    decreases h, 0nat,
{
    spec_heading_open(h) + h.section@ + spec_forest_events(h.children@) + seq![
        OrgEvent::End(Element::Headline { level: h.level }),
    ]
}

/// The concatenated walks of a list of sibling headings.
pub open spec fn spec_forest_events(s: Seq<Heading>) -> Seq<OrgEvent>
    decreases s, 1nat,
{
    if s.len() == 0 {
        Seq::empty()
    } else {
        spec_subtree_events(s[0]) + spec_forest_events(s.skip(1))
    }
}

/// Produce the depth-first start/end walk of a heading's subtree.
pub fn subtree_events(h: &Heading) -> (r: Vec<OrgEvent>)
    ensures
        r@ == spec_subtree_events(*h),
    decreases *h, 0nat,
{
    let mut out: Vec<OrgEvent> = Vec::new();
    out.push(OrgEvent::Start(Element::Headline { level: h.level }));
    out.push(OrgEvent::Start(Element::Title { level: h.level, raw: h.raw.clone() }));
    out.push(OrgEvent::Start(Element::Text { value: h.raw.clone() }));
    out.push(OrgEvent::End(Element::Text { value: h.raw.clone() }));
    out.push(OrgEvent::End(Element::Title { level: h.level, raw: h.raw.clone() }));
    proof {
        assert(out@ =~= spec_heading_open(*h));
    }
    let mut body = clone_events(&h.section);
    out.append(&mut body);
    proof {
        assert(out@ == spec_heading_open(*h) + h.section@);
    }
    let mut i: usize = 0;
    while i < h.children.len()
        invariant
            i <= h.children@.len(),
            out@ == spec_heading_open(*h) + h.section@ + spec_forest_events(
                h.children@.take(i as int),
            ),
        decreases h.children@.len() - i,
    {
        proof {
            assert(decreases_to!(*h => h.children));
            assert(decreases_to!(h.children => h.children@));
            assert(decreases_to!(h.children@ => h.children@[i as int]));
        }
        let mut child = subtree_events(&h.children[i]);
        out.append(&mut child);
        proof {
            lemma_forest_snoc(h.children@.take(i as int), h.children@[i as int]);
            assert(h.children@.take(i as int).push(h.children@[i as int]) =~= h.children@.take(
                i + 1 as int,
            ));
        }
        i = i + 1;
    }
    proof {
        assert(h.children@.take(h.children@.len() as int) =~= h.children@);
    }
    out.push(OrgEvent::End(Element::Headline { level: h.level }));
    proof {
        assert(out@ =~= spec_subtree_events(*h));
    }
    out
}

proof fn lemma_forest_snoc(s: Seq<Heading>, h: Heading)
    ensures
        spec_forest_events(s.push(h)) == spec_forest_events(s) + spec_subtree_events(h),
    decreases s.len(),
{
    if s.len() == 0 {
        assert(s.push(h).skip(1) =~= Seq::<Heading>::empty());
        assert(s.push(h)[0] == h);
        assert(spec_forest_events(Seq::<Heading>::empty()) =~= Seq::<OrgEvent>::empty());
        assert(spec_forest_events(s.push(h)) == spec_subtree_events(h) + Seq::<
            OrgEvent,
        >::empty());
        assert(spec_subtree_events(h) + Seq::<OrgEvent>::empty() =~= spec_subtree_events(h));
        assert(spec_forest_events(s) + spec_subtree_events(h) =~= spec_subtree_events(h));
    } else {
        assert(s.push(h)[0] == s[0]);
        assert(s.push(h).skip(1) =~= s.skip(1).push(h));
        lemma_forest_snoc(s.skip(1), h);
        assert(spec_subtree_events(s[0]) + (spec_forest_events(s.skip(1)) + spec_subtree_events(
            h,
        )) =~= (spec_subtree_events(s[0]) + spec_forest_events(s.skip(1))) + spec_subtree_events(
            h,
        ));
    }
}

} // verus!
