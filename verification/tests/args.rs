use sorg::args::{Args, SorgMode};

#[test]
fn parse() {
    let args = Args::parse(vec![]).unwrap();
    assert_eq!(
        Args {
            mode: SorgMode::Run,
            path: "./blog.org".to_string(),
            verbose: false,
        },
        args
    );

    let args = Args::parse(vec![
        "watch".to_string(),
        "hey.org".to_string(),
        "-v".to_string(),
    ])
    .unwrap();
    assert_eq!(
        Args {
            mode: SorgMode::Watch,
            path: "hey.org".to_string(),
            verbose: true,
        },
        args
    );

    let args = Args::parse(vec!["folders".to_string()]).unwrap();
    assert_eq!(
        Args {
            mode: SorgMode::Folders {
                generate_gitignore: false
            },
            path: "./blog.org".to_string(),
            verbose: false,
        },
        args
    );

    let args = Args::parse(vec![
        "folders".to_string(),
        "hey.org".to_string(),
        "--gitignore".to_string(),
    ])
    .unwrap();
    assert_eq!(
        Args {
            mode: SorgMode::Folders {
                generate_gitignore: true
            },
            path: "hey.org".to_string(),
            verbose: false,
        },
        args
    );
}

#[test]
fn parse_rejects_extras() {
    let e = Args::parse(vec![
        "run".to_string(),
        "a.org".to_string(),
        "b.org".to_string(),
    ])
    .unwrap_err();
    assert_eq!("Too many arguments", e.message());
}

#[test]
fn path_helpers() {
    let args = Args {
        mode: SorgMode::Run,
        path: "./blog.org".to_string(),
        verbose: false,
    };
    assert_eq!(".", args.root_folder());
    assert_eq!("blog.org", args.file_name().unwrap());
    assert!(args.is_release());
    assert!(!args.is_hotreloading());
}

#[test]
fn unrecognized_mode_is_an_error() {
    let e = Args::parse(vec!["frobnicate".to_string(), "a.org".to_string()]).unwrap_err();
    assert_eq!("Unrecognized argument frobnicate", e.message());
}

#[test]
fn empty_path_has_no_filename() {
    let e = Args::default().file_name().unwrap_err();
    assert_eq!("No filename found", e.message());
}
