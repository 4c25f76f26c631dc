use sorg::args::Args;
use sorg::config::{Config, TodoKeywords};

#[test]
fn fails_if_empty_preamble() {
    // document: "\n* index\n" has no preamble keywords at all
    let preamble: Vec<(String, String)> = vec![];
    let args = Args::default();

    let config = Config::new(&preamble, &args).unwrap_err();

    assert_eq!("Keyword 'title' was not provided", config.message());
}

#[test]
fn can_parse() {
    let preamble: Vec<(String, String)> = vec![
        ("title".to_string(), "this is a title".to_string()),
        ("description".to_string(), "this is a description".to_string()),
        ("url".to_string(), "a url here".to_string()),
    ];
    let args = Args::default();

    let config = Config::new(&preamble, &args).unwrap();

    assert_eq!("this is a title", config.title);
    assert_eq!("this is a description", config.description);
    assert_eq!("a url here", config.url);
}

#[test]
fn standard_keywords() {
    let kw = TodoKeywords::standard();
    let (todo, done) = kw.to_org_config();
    assert_eq!(
        vec!["TODO", "PROGRESS", "WAITING", "MAYBE", "CANCELLED"],
        todo
    );
    assert_eq!(vec!["DONE", "READ"], done);
}
