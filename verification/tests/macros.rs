use sorg::doc::{Element, OrgEvent};
use sorg::macros::{Macro, Macros};

#[test]
fn can_parse_macro_definition() {
    // #+BEGIN_MACRO test name surname
    // hello {{ name }} {{ surname }}
    // #+END_MACRO
    let events = vec![
        OrgEvent::Start(Element::SpecialBlock {
            parameters: Some("test name surname".to_string()),
        }),
        OrgEvent::Start(Element::Text {
            value: "hello {{ name }} {{ surname }}".to_string(),
        }),
        OrgEvent::End(Element::Text {
            value: "hello {{ name }} {{ surname }}".to_string(),
        }),
        OrgEvent::End(Element::SpecialBlock {
            parameters: Some("test name surname".to_string()),
        }),
    ];

    let macros = Macros::parse(&events).unwrap();

    assert_eq!(1, macros.macros.len());
    assert_eq!("test", macros.macros[0].label);
    assert_eq!(vec!["name", "surname"], macros.macros[0].arguments);
    assert_eq!("hello {{ name }} {{ surname }}", macros.macros[0].definition);
}

#[test]
fn can_parse_multiline_macro() {
    let events = vec![
        OrgEvent::Start(Element::SpecialBlock {
            parameters: Some("test name surname".to_string()),
        }),
        OrgEvent::Start(Element::Text {
            value: "hello {{ name }} {{ surname }}\nthis is a second line".to_string(),
        }),
        OrgEvent::End(Element::SpecialBlock {
            parameters: Some("test name surname".to_string()),
        }),
    ];

    let macros = Macros::parse(&events).unwrap();

    assert_eq!(1, macros.macros.len());
    assert_eq!("test", macros.macros[0].label);
    assert_eq!(vec!["name", "surname"], macros.macros[0].arguments);
    assert_eq!(
        "hello {{ name }} {{ surname }}\nthis is a second line",
        macros.macros[0].definition
    );
}

#[test]
fn to_tera_macro() {
    let m = Macro {
        label: "test".to_string(),
        arguments: vec!["arg1".to_string(), "arg2".to_string()],
        definition: "hello {{ arg1 }} hey {{ arg2 }}".to_string(),
    };

    const RES: &str =
        "{% macro test(arg1, arg2) %}hello {{ arg1 }} hey {{ arg2 }}{% endmacro test %}";

    assert_eq!(RES, m.to_tera_macro());
}

#[test]
fn can_call_macro() {
    let m = Macro {
        label: "test".to_string(),
        arguments: vec!["arg1".to_string(), "arg2".to_string()],
        definition: "hello {{ arg1 }} hey {{ arg2 }}".to_string(),
    };

    let macros = Macros::from_macros(vec![m]).unwrap();

    assert_eq!(
        "hello name1 hey name2",
        macros.get("test").unwrap().process("name1, name2").unwrap()
    );
}

#[test]
fn can_call_macro_argument_count_mismatch() {
    let m = Macro {
        label: "test".to_string(),
        arguments: vec!["arg1".to_string(), "arg2".to_string()],
        definition: "hello {{ arg1 }} hey {{ arg2 }}".to_string(),
    };

    let macros = Macros::from_macros(vec![m]).unwrap();

    assert!(macros
        .get("test")
        .unwrap()
        .process("name1, name2, name3")
        .is_err());
}

#[test]
fn can_call_macro_from_inside_macro() {
    let macro1 = Macro {
        label: "macro1".to_string(),
        arguments: vec!["arg1".to_string()],
        definition: "hello {{ macros::macro2(name=arg1) }}".to_string(),
    };
    let macro2 = Macro {
        label: "macro2".to_string(),
        arguments: vec!["name".to_string()],
        definition: "my name is {{ name }}".to_string(),
    };

    let macros = Macros::from_macros(vec![macro1, macro2]).unwrap();

    assert_eq!(
        "hello my name is annie",
        macros.get("macro1").unwrap().process("annie").unwrap()
    );
}

#[test]
fn macro_expansion_scenario() {
    // a macro with parameters `name surname` and body `hello {{name}} {{surname}}`,
    // called with "Ann, Lee", expands to "hello Ann Lee"; three arguments for
    // two parameters are a reported error.
    let m = Macro {
        label: "greet".to_string(),
        arguments: vec!["name".to_string(), "surname".to_string()],
        definition: "hello {{name}} {{surname}}".to_string(),
    };
    let macros = Macros::from_macros(vec![m]).unwrap();

    assert_eq!(
        "hello Ann Lee",
        macros.get("greet").unwrap().process("Ann, Lee").unwrap()
    );

    let err = macros
        .get("greet")
        .unwrap()
        .process("a, b, c")
        .unwrap_err();
    assert_eq!(
        "macro call argument count mismatch for greet",
        err.message()
    );
}

#[test]
fn broken_macro_body_is_a_template_failure() {
    let m = Macro {
        label: "broken".to_string(),
        arguments: vec![],
        definition: "{% if %}".to_string(),
    };
    let err = match Macros::from_macros(vec![m]) {
        Err(e) => e,
        Ok(_) => panic!("expected a template failure"),
    };
    assert!(err.message().starts_with("rendering"));
}
