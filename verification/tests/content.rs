use sorg::count_words::{count_words_index, count_words_post};
use sorg::doc::{subtree_events, Element, Heading, OrgEvent};
use sorg::footnotes::get_footnotes;
use sorg::render::{
    write_html, CommonHtmlHandler, IndexHtmlHandler, PageHtmlHandler, PostHtmlHandler,
};

fn heading(level: usize, raw: &str) -> Heading {
    Heading {
        level,
        raw: raw.to_string(),
        tags: vec![],
        keyword: None,
        properties: vec![],
        closed: None,
        section: vec![],
        children: vec![],
    }
}

fn text_events(text: &str) -> Vec<OrgEvent> {
    vec![
        OrgEvent::Start(Element::Paragraph),
        OrgEvent::Start(Element::Text {
            value: text.to_string(),
        }),
        OrgEvent::End(Element::Text {
            value: text.to_string(),
        }),
        OrgEvent::End(Element::Paragraph),
    ]
}

fn common() -> CommonHtmlHandler {
    CommonHtmlHandler {
        attributes: vec![],
        footnote_id: 0,
        theme: "InspiredGitHub".to_string(),
        static_prefix: "static".to_string(),
        base_url: "https://example.com".to_string(),
    }
}

#[test]
fn paragraphs_escape_text() {
    let events = text_events("1 < 2 & 'three'");
    let html = write_html(
        &events,
        PageHtmlHandler::Post(PostHtmlHandler {
            handler: common(),
            level: 1,
            in_page_title: false,
        }),
        &vec![],
    )
    .unwrap();
    assert_eq!("<p >1 &lt; 2 &amp; &apos;three&apos;</p>", html);
}

#[test]
fn post_renders_deeper_titles_as_anchors() {
    let mut h = heading(1, "my post");
    let mut sub = heading(2, "A Section");
    sub.section = text_events("hi");
    h.children = vec![sub];
    let events = subtree_events(&h);
    let html = write_html(
        &events,
        PageHtmlHandler::Post(PostHtmlHandler {
            handler: common(),
            level: 1,
            in_page_title: false,
        }),
        &vec![],
    )
    .unwrap();
    // own title skipped, child title anchored at h2 with its slug
    assert!(html.contains("<h2 ><a id=\"a-section\" href=\"#a-section\">A Section</a></h2>"));
    assert!(!html.contains("my post"));
}

#[test]
fn index_skips_children_entirely() {
    let mut h = heading(1, "home");
    let mut child = heading(2, "child page");
    child.section = text_events("child words here");
    h.section = text_events("own words");
    h.children = vec![child];
    let events = subtree_events(&h);
    let html = write_html(
        &events,
        PageHtmlHandler::Index(IndexHtmlHandler {
            handler: common(),
            level: 1,
            in_headline: false,
            in_page_title: false,
        }),
        &vec![],
    )
    .unwrap();
    assert_eq!("<p >own words</p>", html);
}

#[test]
fn links_resolve_against_the_site() {
    let events = vec![
        OrgEvent::Start(Element::Link {
            path: "file:about".to_string(),
            desc: Some("About".to_string()),
        }),
        OrgEvent::End(Element::Link {
            path: "file:about".to_string(),
            desc: Some("About".to_string()),
        }),
    ];
    let html = write_html(
        &events,
        PageHtmlHandler::Post(PostHtmlHandler {
            handler: common(),
            level: 1,
            in_page_title: false,
        }),
        &vec![],
    )
    .unwrap();
    assert_eq!("<a href=\"https://example.com/about\" >About</a>", html);
}

#[test]
fn external_links_open_elsewhere() {
    let events = vec![
        OrgEvent::Start(Element::Link {
            path: "https://other.example".to_string(),
            desc: None,
        }),
        OrgEvent::End(Element::Link {
            path: "https://other.example".to_string(),
            desc: None,
        }),
    ];
    let html = write_html(
        &events,
        PageHtmlHandler::Post(PostHtmlHandler {
            handler: common(),
            level: 1,
            in_page_title: false,
        }),
        &vec![],
    )
    .unwrap();
    assert!(html.contains("target=\"_blank\" rel=\"noopener\""));
    assert!(html.contains("href=\"https://other.example/\""));
}

#[test]
fn keyword_attributes_decorate_next_block() {
    let mut events = vec![OrgEvent::Start(Element::Keyword {
        key: "ATTR_HTML".to_string(),
        value: ":class wide".to_string(),
    })];
    events.push(OrgEvent::End(Element::Keyword {
        key: "ATTR_HTML".to_string(),
        value: ":class wide".to_string(),
    }));
    events.extend(text_events("x"));
    let html = write_html(
        &events,
        PageHtmlHandler::Post(PostHtmlHandler {
            handler: common(),
            level: 1,
            in_page_title: false,
        }),
        &vec![],
    )
    .unwrap();
    assert_eq!("<p  class=\"wide\" >x</p>", html);
}

#[test]
fn code_blocks_go_through_the_highlighter() {
    let events = vec![
        OrgEvent::Start(Element::SourceBlock {
            language: "rust".to_string(),
            contents: "let x = 1;".to_string(),
        }),
        OrgEvent::End(Element::SourceBlock {
            language: "rust".to_string(),
            contents: "let x = 1;".to_string(),
        }),
    ];
    let html = write_html(
        &events,
        PageHtmlHandler::Post(PostHtmlHandler {
            handler: common(),
            level: 1,
            in_page_title: false,
        }),
        &vec![],
    )
    .unwrap();
    assert!(html.starts_with("<div class=\"org-src-container\"><pre class=\"src src-rust\">"));
    // the highlighter rewrote the source, it was not echoed back unchanged
    assert!(html.contains("<span"));
}

#[test]
fn footnote_references_autonumber() {
    let events = vec![
        OrgEvent::Start(Element::FnRef {
            label: "".to_string(),
            definition: None,
        }),
        OrgEvent::End(Element::FnRef {
            label: "".to_string(),
            definition: None,
        }),
    ];
    let html = write_html(
        &events,
        PageHtmlHandler::Post(PostHtmlHandler {
            handler: common(),
            level: 1,
            in_page_title: false,
        }),
        &vec![],
    )
    .unwrap();
    assert_eq!(
        "<sup id=\"fnref-1\"><a href=\"#fn-1\" class=\"footnote-ref\">1</a></sup>",
        html
    );
}

#[test]
fn word_counts_come_from_the_counter() {
    let events = vec![OrgEvent::Start(Element::Text {
        value: "one two three four".to_string(),
    })];
    assert_eq!(4, count_words_post(&events));
}

#[test]
fn index_count_excludes_descendants() {
    // the index's own title and body count; nothing of any child's subtree does
    let mut h = heading(1, "two words");
    h.section = vec![OrgEvent::Start(Element::Text {
        value: "alpha beta gamma".to_string(),
    })];
    let mut child = heading(2, "child title words");
    child.section = vec![OrgEvent::Start(Element::Text {
        value: "hidden child words here".to_string(),
    })];
    let mut grandchild = heading(3, "deep");
    grandchild.section = vec![OrgEvent::Start(Element::Text {
        value: "deeper still".to_string(),
    })];
    child.children = vec![grandchild];
    h.children = vec![child];

    // 2 (title) + 3 (own body)
    assert_eq!(5, count_words_index(&h));
}

#[test]
fn footnotes_collect_definitions_and_inline_refs() {
    let events = vec![
        OrgEvent::Start(Element::FnRef {
            label: "".to_string(),
            definition: Some("inline note".to_string()),
        }),
        OrgEvent::Start(Element::FnDef {
            label: "named".to_string(),
        }),
        OrgEvent::Start(Element::Text {
            value: "the definition".to_string(),
        }),
        OrgEvent::End(Element::FnDef {
            label: "named".to_string(),
        }),
    ];
    let notes = get_footnotes(&events);
    assert_eq!(2, notes.len());
    assert_eq!("1", notes[0].label);
    assert_eq!("inline note", notes[0].definition);
    assert_eq!("named", notes[1].label);
    assert_eq!("the definition", notes[1].definition);
}

#[test]
fn unresolvable_links_abort_the_export() {
    let events = vec![OrgEvent::Start(Element::Link {
        path: "about".to_string(),
        desc: None,
    })];
    let mut handler = common();
    handler.base_url = "not a url".to_string();
    let err = write_html(
        &events,
        PageHtmlHandler::Post(PostHtmlHandler {
            handler,
            level: 1,
            in_page_title: false,
        }),
        &vec![],
    )
    .unwrap_err();
    assert_eq!("invalid url: about", err.message());
}

#[test]
fn macro_calls_expand_inline() {
    let events = vec![OrgEvent::Start(Element::MacroCall {
        name: "greet".to_string(),
        arguments: Some("Ann, Lee".to_string()),
    })];
    let html = write_html(
        &events,
        PageHtmlHandler::Post(PostHtmlHandler {
            handler: common(),
            level: 1,
            in_page_title: false,
        }),
        &vec![Some("hello Ann Lee".to_string())],
    )
    .unwrap();
    assert_eq!("hello Ann Lee", html);
}

#[test]
fn empty_language_blocks_stay_plain() {
    let events = vec![OrgEvent::Start(Element::SourceBlock {
        language: "".to_string(),
        contents: "plain text".to_string(),
    })];
    let html = write_html(
        &events,
        PageHtmlHandler::Post(PostHtmlHandler {
            handler: common(),
            level: 1,
            in_page_title: false,
        }),
        &vec![],
    )
    .unwrap();
    assert_eq!("<pre class=\"example\">plain text</pre>", html);
}
