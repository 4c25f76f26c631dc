use sorg::slug::slugify;

#[test]
fn slugs_match_the_transliterating_slugger() {
    for s in [
        "My Test String!!!1!1",
        "test\nit   now!",
        "  --test_-_cool",
        "Æúű--cool?",
        "You & Me",
        "user@example.com",
        "index",
        "first child",
    ] {
        assert_eq!(slugmin::slugify(s), slugify(s), "for input {:?}", s);
    }
}

#[test]
fn slugify_examples() {
    assert_eq!("my-test-string-1-1", slugify("My Test String!!!1!1"));
    assert_eq!("test-it-now", slugify("test\nit   now!"));
    assert_eq!("aeuu-cool", slugify("Æúű--cool?"));
    assert_eq!("", slugify("!!!"));
}

#[test]
fn slugify_is_idempotent_on_samples() {
    for s in ["My Test String!!!1!1", "Æúű--cool?", "a--b", "-x-"] {
        let once = slugify(s);
        assert_eq!(once, slugify(&once));
    }
}

#[test]
fn slugs_are_lowercase_hyphen_separated() {
    let s = slugify("Hello, WORLD  42!");
    assert_eq!("hello-world-42", s);
    assert!(s
        .chars()
        .all(|c| c.is_ascii_lowercase() || c.is_ascii_digit() || c == '-'));
    assert!(!s.starts_with('-') && !s.ends_with('-'));
    assert!(!s.contains("--"));
}
