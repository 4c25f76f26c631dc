use sorg::config::TodoKeywords;
use sorg::doc::Heading;
use sorg::folders::generate_folders;
use sorg::page::Page;

fn heading(level: usize, raw: &str) -> Heading {
    Heading {
        level,
        raw: raw.to_string(),
        tags: vec![],
        keyword: None,
        properties: vec![],
        closed: None,
        section: vec![],
        children: vec![],
    }
}

#[test]
fn create_folders() {
    // "\n* index\n** first child\n*** grandchild\n** second page\n"
    let mut root = heading(1, "index");
    let mut first = heading(2, "first child");
    first.children = vec![heading(3, "grandchild")];
    let second = heading(2, "second page");
    root.children = vec![first, second];

    let tree = Page::parse_index(root, &TodoKeywords::standard(), "".to_string(), 0, false);
    let dirs = generate_folders(&tree, "");

    assert!(dirs.contains(&"first-child".to_string()));
    assert!(dirs.contains(&"first-child/grandchild".to_string()));
    assert!(dirs.contains(&"second-page".to_string()));
    assert!(!dirs.iter().any(|d| d.contains("index")));
    // the root itself adds no directory segment
    assert_eq!("", dirs[0]);
}
