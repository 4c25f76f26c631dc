use sorg::args::Args;
use sorg::config::{Config, TodoKeywords};
use sorg::context::CtxValue;
use sorg::doc::{Date, Document, Heading};
use sorg::macros::Macros;
use sorg::page::Page;
use sorg::render::build_files;
use sorg::rss::{feed_item_for, generate_rss};
use sorg::template::get_template;
use sorg::tera::{collect_links, links_with_prefix};

fn heading(level: usize, raw: &str) -> Heading {
    Heading {
        level,
        raw: raw.to_string(),
        tags: vec![],
        keyword: None,
        properties: vec![],
        closed: None,
        section: vec![],
        children: vec![],
    }
}

fn test_config() -> Config {
    let preamble: Vec<(String, String)> = vec![
        ("title".to_string(), "My Site".to_string()),
        ("description".to_string(), "a site".to_string()),
        ("url".to_string(), "https://example.com".to_string()),
    ];
    Config::new(&preamble, &Args::default()).unwrap()
}

#[test]
fn template_resolution_chain() {
    let mut t = tera::Tera::default();
    t.add_raw_template("about.html", "about body").unwrap();

    // explicit property wins
    let props = vec![("template".to_string(), "special.html".to_string())];
    assert_eq!("special.html", get_template(&t, &props, "/about", false));
    // a template named after the path
    assert_eq!("about.html", get_template(&t, &vec![], "/about", false));
    // fall back to the defaults
    assert_eq!("default_index.html", get_template(&t, &vec![], "/", true));
    assert_eq!("default.html", get_template(&t, &vec![], "/missing", false));
}

#[test]
fn feed_items_carry_page_metadata() {
    let mut h = heading(2, "a post");
    h.closed = Some(Date {
        year: 2022,
        month: 1,
        day: 1,
        hour: None,
        minute: None,
    });
    let page = Page::parse_index(h, &TodoKeywords::standard(), "".to_string(), 3, false);
    let config = test_config();
    let content = "<p>body</p>".to_string();
    let item = feed_item_for(&page, Some(&content), &config);
    assert_eq!("a post", item.title);
    assert_eq!("https://example.com/a-post", item.link);
    assert_eq!(Some("Sat, 01 Jan 2022 00:00:00 GMT"), item.pub_date.as_deref());
    assert_eq!("a site", item.description);
    assert_eq!(Some("<p>body</p>"), item.content.as_deref());

    let xml = generate_rss(&vec![item], &config, "/");
    assert!(xml.contains("<rss"));
    assert!(xml.contains("<title>My Site</title>"));
    assert!(xml.contains("https://example.com/a-post"));
    assert!(xml.contains("Sat, 01 Jan 2022 00:00:00 GMT"));
    assert!(xml.contains("rss.xml"));
}

#[test]
fn whole_site_plan() {
    let mut root = heading(1, "index");
    let mut posts = heading(2, "posts");
    posts.tags = vec!["posts".to_string()];
    let post = heading(3, "hello world");
    posts.children = vec![post];
    root.children = vec![posts];
    let doc = Document {
        keywords: vec![],
        section: vec![],
        headings: vec![root],
    };

    let config = test_config();
    let macros = Macros::from_macros(vec![]).unwrap();
    let mut t = tera::Tera::default();
    t.add_raw_template("default.html", "{{ content }}").unwrap();
    t.add_raw_template("default_index.html", "{{ content }}")
        .unwrap();

    let (tree, pages, feeds) = build_files(
        doc,
        &t,
        &config,
        &macros,
        &TodoKeywords::standard(),
        &vec![],
    )
    .unwrap();

    assert_eq!("/", tree.path);
    // root, posts, and the post itself
    assert_eq!(3, pages.len());
    assert_eq!("", pages[0].out_dir);
    assert_eq!("default_index.html", pages[0].template);
    assert_eq!("posts", pages[1].out_dir);
    assert_eq!("posts/hello-world", pages[2].out_dir);
    assert_eq!("default.html", pages[2].template);
    // one feed per index level
    assert_eq!(2, feeds.len());
    assert!(feeds.iter().any(|f| f.path == "rss.xml"));
    assert!(feeds.iter().any(|f| f.path == "posts/rss.xml"));

    // the context carries the reserved keys
    let keys: Vec<&str> = pages[2]
        .context
        .entries
        .iter()
        .map(|(k, _)| k.as_str())
        .collect();
    for k in [
        "content",
        "sections",
        "word_count",
        "reading_time",
        "footnotes",
        "asset_v",
        "title",
        "date",
        "base_title",
        "base_url",
        "base_description",
    ] {
        assert!(keys.contains(&k), "missing key {}", k);
    }
    match pages[2]
        .context
        .entries
        .iter()
        .find(|(k, _)| k == "base_url")
    {
        Some((_, CtxValue::Str(u))) => assert_eq!("https://example.com", u),
        _ => panic!("base_url missing"),
    }
}

#[test]
fn site_listing_filters_by_prefix_and_keeps_fields() {
    let mut root = heading(1, "index");
    let mut section = heading(2, "notes");
    section.children = vec![heading(3, "one"), heading(3, "two")];
    root.children = vec![section, heading(2, "about")];
    let tree = Page::parse_index(root, &TodoKeywords::standard(), "".to_string(), 0, false);

    let links = collect_links(&tree);
    // the empty prefix keeps the whole listing, fields intact
    let all = links_with_prefix(&links, "");
    assert_eq!(links.len(), all.len());
    assert!(all.iter().zip(links.iter()).all(|(a, b)| a.link == b.link
        && a.title == b.title
        && a.order == b.order));
    // a scoped prefix keeps exactly the subtree
    let scoped = links_with_prefix(&links, "/notes");
    let paths: Vec<&str> = scoped.iter().map(|l| l.link.as_str()).collect();
    assert_eq!(vec!["/notes", "/notes/one", "/notes/two"], paths);
}

#[test]
fn macro_arguments_bind_positionally() {
    let m = sorg::macros::Macro {
        label: "pair".to_string(),
        arguments: vec!["a".to_string(), "b".to_string()],
        definition: "{{a}}-{{b}}".to_string(),
    };
    let macros = Macros::from_macros(vec![m]).unwrap();
    let p = macros.get("pair").unwrap();
    let pairs = p.bound_arguments("  x , y  ").unwrap();
    assert_eq!(
        vec![
            ("a".to_string(), "x".to_string()),
            ("b".to_string(), "y".to_string())
        ],
        pairs
    );
    assert!(p.bound_arguments("only-one").is_err());
}

#[test]
fn missing_external_document_is_an_error() {
    let mut root = heading(1, "index");
    let mut posts = heading(2, "posts");
    posts.tags = vec!["posts".to_string()];
    let mut linked = heading(3, "linked");
    linked.properties = vec![(
        "file".to_string(),
        "[[file:gone.org][gone]]".to_string(),
    )];
    posts.children = vec![linked];
    root.children = vec![posts];
    let doc = Document {
        keywords: vec![],
        section: vec![],
        headings: vec![root],
    };

    let config = test_config();
    let macros = Macros::from_macros(vec![]).unwrap();
    let mut t = tera::Tera::default();
    t.add_raw_template("default.html", "{{ content }}").unwrap();
    t.add_raw_template("default_index.html", "{{ content }}")
        .unwrap();

    let err = build_files(
        doc,
        &t,
        &config,
        &macros,
        &TodoKeywords::standard(),
        &vec![],
    )
    .unwrap_err();
    assert_eq!(
        "rendering linked: headline 'linked' tried to read file 'gone.org', which doesnt exist",
        err.message()
    );
}
