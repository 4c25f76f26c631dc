use sorg::config::TodoKeywords;
use sorg::doc::{Date, Element, Heading, OrgEvent};
use sorg::page::{Page, PageEnum};

fn heading(level: usize, raw: &str) -> Heading {
    Heading {
        level,
        raw: raw.to_string(),
        tags: vec![],
        keyword: None,
        properties: vec![],
        closed: None,
        section: vec![],
        children: vec![],
    }
}

fn text_section(text: &str) -> Vec<OrgEvent> {
    vec![
        OrgEvent::Start(Element::Section),
        OrgEvent::Start(Element::Paragraph),
        OrgEvent::Start(Element::Text {
            value: text.to_string(),
        }),
        OrgEvent::End(Element::Text {
            value: text.to_string(),
        }),
        OrgEvent::End(Element::Paragraph),
        OrgEvent::End(Element::Section),
    ]
}

#[test]
fn parse_single() {
    // "\n* index page\nthis is my content\n"
    let mut h = heading(1, "index page");
    h.section = text_section("this is my content\n");

    let page = Page::parse_index(h, &TodoKeywords::standard(), "".to_string(), 0, false);

    assert_eq!("index page", page.info.title);
    assert_eq!("index-page", page.info.slug);
    assert_eq!(0, page.order);
    assert_eq!("/index-page", page.path);
    assert_eq!(None, page.info.description);
    assert!(page.info.closed_at.is_none());

    assert!(matches!(page.page, PageEnum::Index { .. }));
    if let PageEnum::Index { children } = page.page {
        assert_eq!(0, children.len());
    }
}

#[test]
fn parse_single_full() {
    // "* index" with CLOSED: [1234-12-34 Sat 12:34] and a description property
    let mut h = heading(1, "index");
    h.properties = vec![(
        "description".to_string(),
        "this is a description".to_string(),
    )];
    h.closed = Some(Date {
        year: 1234,
        month: 12,
        day: 34,
        hour: Some(12),
        minute: Some(34),
    });
    h.section = text_section("this is my content\n");

    let page = Page::parse_index(h, &TodoKeywords::standard(), "".to_string(), 0, false);

    assert_eq!("index", page.info.title);
    assert_eq!("index", page.info.slug);
    assert_eq!("/", page.path);
    assert_eq!(0, page.order);
    assert_eq!(
        Some("this is a description"),
        page.info.description.as_deref()
    );
    assert_eq!(Some("1234-12-34"), page.info.closed_at().as_deref());

    assert!(matches!(page.page, PageEnum::Index { .. }));
    if let PageEnum::Index { children } = page.page {
        assert_eq!(0, children.len());
    }
}

#[test]
fn parse_with_children() {
    let mut h = heading(1, "index");
    h.section = text_section("index content\n");
    let mut first = heading(2, "first child");
    first.section = text_section("first content\n");
    let mut second = heading(2, "second child");
    second.section = text_section("second content\n");
    h.children = vec![first, second];

    let page = Page::parse_index(h, &TodoKeywords::standard(), "".to_string(), 0, false);

    assert_eq!("index", page.info.slug);
    assert_eq!("/", page.path);
    assert_eq!(0, page.order);

    if let PageEnum::Index { ref children } = page.page {
        assert_eq!(2, children.len());
    } else {
        panic!("Page is not an Index");
    }

    match page.child("first-child") {
        Some(c) => {
            assert_eq!("first child", c.info.title);
            assert_eq!("first-child", c.info.slug);
        }
        None => panic!("Page is missing"),
    }

    match page.child("second-child") {
        Some(c) => {
            assert_eq!("second child", c.info.title);
            assert_eq!("second-child", c.info.slug);
        }
        None => panic!("Page is not an Index"),
    }
}

#[test]
fn noexport_headings_vanish() {
    let mut h = heading(1, "index");
    let mut hidden = heading(2, "secret");
    hidden.tags = vec!["noexport".to_string()];
    let shown = heading(2, "shown");
    h.children = vec![hidden, shown];

    let page = Page::parse_index(h, &TodoKeywords::standard(), "".to_string(), 0, true);

    if let PageEnum::Index { children } = page.page {
        assert_eq!(1, children.len());
        assert_eq!("shown", children[0].info.slug);
        assert_eq!(0, children[0].order);
    } else {
        panic!("not an index");
    }
}

#[test]
fn workflow_keywords_filter_by_mode() {
    // a TODO heading is always hidden, a PROGRESS heading only in release mode
    let mut h = heading(1, "index");
    let mut todo = heading(2, "draft");
    todo.keyword = Some("TODO".to_string());
    let mut progress = heading(2, "almost done");
    progress.keyword = Some("PROGRESS".to_string());
    h.children = vec![todo, progress];

    let release = Page::parse_index(
        {
            let mut h2 = heading(1, "index");
            let mut todo = heading(2, "draft");
            todo.keyword = Some("TODO".to_string());
            let mut progress = heading(2, "almost done");
            progress.keyword = Some("PROGRESS".to_string());
            h2.children = vec![todo, progress];
            h2
        },
        &TodoKeywords::standard(),
        "".to_string(),
        0,
        true,
    );
    if let PageEnum::Index { children } = release.page {
        assert_eq!(0, children.len());
    } else {
        panic!("not an index");
    }

    let draft = Page::parse_index(h, &TodoKeywords::standard(), "".to_string(), 0, false);
    if let PageEnum::Index { children } = draft.page {
        assert_eq!(1, children.len());
        assert_eq!("almost-done", children[0].info.slug);
    } else {
        panic!("not an index");
    }
}

#[test]
fn slug_collision_keeps_later_child() {
    // two children whose titles both slugify to "post": one survivor, the later one
    let mut h = heading(1, "index");
    let mut a = heading(2, "Post");
    a.section = text_section("first body\n");
    let mut b = heading(2, "post!");
    b.section = text_section("second body\n");
    h.children = vec![a, b];

    let page = Page::parse_index(h, &TodoKeywords::standard(), "".to_string(), 0, false);

    if let PageEnum::Index { children } = page.page {
        assert_eq!(1, children.len());
        assert_eq!("post", children[0].info.slug);
        assert_eq!("post!", children[0].heading.raw);
        assert_eq!(1, children[0].order);
    } else {
        panic!("not an index");
    }
}

#[test]
fn file_property_makes_linked_post() {
    let mut h = heading(1, "index");
    let mut posts = heading(2, "writing");
    posts.tags = vec!["posts".to_string()];
    let mut linked = heading(3, "elsewhere");
    linked.properties = vec![(
        "file".to_string(),
        "[[file:notes.org][See notes]]".to_string(),
    )];
    let mut plain = heading(3, "right here");
    plain.properties = vec![("file".to_string(), "not a link at all".to_string())];
    posts.children = vec![linked, plain];
    h.children = vec![posts];

    let page = Page::parse_index(h, &TodoKeywords::standard(), "".to_string(), 0, false);
    let posts_page = page.child("writing").unwrap();
    let linked_page = posts_page.child("elsewhere").unwrap();
    match &linked_page.page {
        PageEnum::OrgFile { path } => assert_eq!("notes.org", path),
        _ => panic!("expected a file-linked post"),
    }
    let plain_page = posts_page.child("right-here").unwrap();
    assert!(matches!(plain_page.page, PageEnum::Post));
}

#[test]
fn rebuilding_reproduces_orders_and_slugs() {
    let build = || {
        let mut h = heading(1, "index");
        h.children = vec![heading(2, "alpha"), heading(2, "beta"), heading(2, "gamma")];
        Page::parse_index(h, &TodoKeywords::standard(), "".to_string(), 0, false)
    };
    let a = build();
    let b = build();
    let slugs = |p: &Page| -> Vec<(String, usize, String)> {
        if let PageEnum::Index { children } = &p.page {
            children
                .iter()
                .map(|c| (c.info.slug.clone(), c.order, c.path.clone()))
                .collect()
        } else {
            vec![]
        }
    };
    assert_eq!(slugs(&a), slugs(&b));
}

#[test]
fn paths_follow_parents() {
    // path = parent path + '/' + slug, except that an `index` slug adds nothing
    let mut h = heading(1, "index");
    let mut section = heading(2, "section one");
    section.children = vec![heading(3, "leaf page")];
    h.children = vec![section];

    let page = Page::parse_index(h, &TodoKeywords::standard(), "".to_string(), 0, false);
    assert_eq!("/", page.path);
    let section = page.child("section-one").unwrap();
    assert_eq!("/section-one", section.path);
    let leaf = section.child("leaf-page").unwrap();
    assert_eq!("/section-one/leaf-page", leaf.path);

    // a nested index whose slug is `index` keeps its parent's path
    let mut h = heading(1, "index");
    let mut nested = heading(2, "nested");
    nested.properties = vec![("slug".to_string(), "index".to_string())];
    nested.children = vec![heading(3, "below")];
    h.children = vec![nested];
    let page = Page::parse_index(h, &TodoKeywords::standard(), "".to_string(), 0, false);
    let nested = page.child("index").unwrap();
    assert_eq!("/", nested.path);
}

#[test]
fn property_overrides_title_and_slug() {
    let mut h = heading(1, "raw text");
    h.properties = vec![
        ("title".to_string(), "Fancy Title".to_string()),
        ("slug".to_string(), "Custom Slug".to_string()),
    ];
    let page = Page::parse_index(h, &TodoKeywords::standard(), "".to_string(), 0, false);
    assert_eq!("Fancy Title", page.info.title);
    assert_eq!("custom-slug", page.info.slug);
}
