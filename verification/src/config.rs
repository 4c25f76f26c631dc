//! Site configuration, read from the document preamble and the arguments.

use vstd::prelude::*;

use crate::Error;
use crate::args::{Args, SorgMode, spec_root_folder};
use crate::doc::{lookup, spec_lookup};
use crate::strings::str_eq;

verus! {

/// The workflow keywords: `todo` ones mark headings as not yet done, `done`
/// ones as finished.
#[derive(Debug)]
pub struct TodoKeywords {
    pub todo: Vec<String>,
    pub done: Vec<String>,
}

/// Whether `k` is one of the not-done workflow keywords.
pub open spec fn spec_in_todo(kw: TodoKeywords, k: Seq<char>) -> bool {
    exists|i: int| 0 <= i < kw.todo@.len() && kw.todo@[i]@ == k
}

/// Whether `k` is one of the not-done workflow keywords.
pub fn in_todo(kw: &TodoKeywords, k: &str) -> (r: bool)
    ensures
        r == spec_in_todo(*kw, k@),
{
    let mut i: usize = 0;
    while i < kw.todo.len()
        invariant
            i <= kw.todo@.len(),
            forall|j: int| 0 <= j < i ==> kw.todo@[j]@ != k@,
        decreases kw.todo@.len() - i,
    {
        if str_eq(kw.todo[i].as_str(), k) {
            return true;
        }
        i = i + 1;
    }
    false
}

/// Copy a list of string pairs.
pub fn clone_pairs(src: &Vec<(String, String)>) -> (r: Vec<(String, String)>)
    ensures
        r@ == src@,
{
    let mut out: Vec<(String, String)> = Vec::new();
    let mut i: usize = 0;
    while i < src.len()
        invariant
            i <= src@.len(),
            out@.len() == i,
            forall|j: int| 0 <= j < i ==> out@[j] == src@[j],
        decreases src@.len() - i,
    {
        let (a, b) = (&src[i].0, &src[i].1);
        out.push((a.clone(), b.clone()));
        proof {
            assert(out@[i as int] == (src@[i as int].0, src@[i as int].1));
            assert((src@[i as int].0, src@[i as int].1) == src@[i as int]);
        }
        i = i + 1;
    }
    proof {
        assert(out@ =~= src@);
    }
    out
}

impl TodoKeywords {
    /// The standard workflow keywords of the generator.
    pub fn standard() -> (r: TodoKeywords)
        ensures
            r.todo@.len() == 5,
            r.todo@[0]@ == "TODO"@ && r.todo@[1]@ == "PROGRESS"@ && r.todo@[2]@ == "WAITING"@
                && r.todo@[3]@ == "MAYBE"@ && r.todo@[4]@ == "CANCELLED"@,
            r.done@.len() == 2,
            r.done@[0]@ == "DONE"@ && r.done@[1]@ == "READ"@,
    {
        let todo: Vec<String> = vec![
            "TODO".to_owned(),
            "PROGRESS".to_owned(),
            "WAITING".to_owned(),
            "MAYBE".to_owned(),
            "CANCELLED".to_owned(),
        ];
        let done: Vec<String> = vec!["DONE".to_owned(), "READ".to_owned()];
        TodoKeywords { todo, done }
    }

    /// The keyword lists in the shape the outside parser's configuration
    /// takes: owned copies of the not-done and done lists.
    pub fn to_org_config(&self) -> (r: (Vec<String>, Vec<String>))
        ensures
            r.0@.len() == self.todo@.len(),
            forall|i: int| 0 <= i < r.0@.len() ==> r.0@[i] == self.todo@[i],
            r.1@.len() == self.done@.len(),
            forall|i: int| 0 <= i < r.1@.len() ==> r.1@[i] == self.done@[i],
    {
        (clone_strings(&self.todo), clone_strings(&self.done))
    }
}

/// Copy a list of strings.
fn clone_strings(src: &Vec<String>) -> (r: Vec<String>)
    ensures
        r@.len() == src@.len(),
        forall|i: int| 0 <= i < r@.len() ==> r@[i] == src@[i],
{
    let mut out: Vec<String> = Vec::new();
    let mut i: usize = 0;
    while i < src.len()
        invariant
            i <= src@.len(),
            out@.len() == i,
            forall|j: int| 0 <= j < i ==> out@[j] == src@[j],
        decreases src@.len() - i,
    {
        out.push(src[i].clone());
        i = i + 1;
    }
    out
}

/// Everything the build needs to know: directories, mode flags, and the
/// site-wide metadata from the preamble.
#[derive(Debug)]
pub struct Config {
    /// Directory holding the document.
    pub root_folder: String,
    /// Directory the site is written into.
    pub build_folder: String,
    /// Directory holding the templates.
    pub templates_folder: String,

    /// Name of the static-assets directory, relative to the root.
    pub static_dir: String,
    /// Name of the build directory, relative to the root.
    pub build_dir: String,
    /// Name of the templates directory, relative to the root.
    pub templates_dir: String,

    pub verbose: bool,
    pub release: bool,
    pub hotreloading: bool,

    /// Every preamble keyword, as authored.
    pub preamble: Vec<(String, String)>,
    pub url: String,
    pub title: String,
    pub description: String,

    /// The theme the code highlighter uses.
    pub syntax_highlighting_theme: String,
}

/// The value bound to `key`, or `default` when the key is absent.
pub open spec fn spec_lookup_or(
    pairs: Seq<(String, String)>,
    key: Seq<char>,
    default: Seq<char>,
) -> Seq<char> {
    match spec_lookup(pairs, key) {
        Some(v) => v,
        None => default,
    }
}

/// `root/sub`, or just `sub` when the root is empty.
pub open spec fn spec_join_path(root: Seq<char>, sub: Seq<char>) -> Seq<char> {
    if root.len() == 0 {
        sub
    } else {
        root + seq!['/'] + sub
    }
}

fn lookup_or(pairs: &Vec<(String, String)>, key: &str, default: &str) -> (r: String)
    ensures
        r@ == spec_lookup_or(pairs@, key@, default@),
{
    match lookup(pairs, key) {
        Some(v) => v.clone(),
        None => default.to_owned(),
    }
}

fn join_path(root: &str, sub: &str) -> (r: String)
    ensures
        r@ == spec_join_path(root@, sub@),
{
    if root.unicode_len() == 0 {
        sub.to_owned()
    } else {
        let mut out = root.to_owned();
        out.append("/");
        out.append(sub);
        proof {
            reveal_strlit("/");
            assert(root@ + "/"@ + sub@ =~= root@ + seq!['/'] + sub@);
        }
        out
    }
}

impl Config {
    /// Read the configuration out of the preamble keywords and the
    /// arguments.
    ///
    /// The preamble must provide `title` and `description`, and in release
    /// mode also `url`; outside release mode the site is addressed through a
    /// local server.  Directory names fall back to `static`, `build` and
    /// `templates`; the highlighting theme falls back to `InspiredGitHub`.
    pub fn new(preamble: &Vec<(String, String)>, args: &Args) -> (r: Result<Config, Error>)
        ensures
            match r {
                Ok(c) => {
                    &&& spec_lookup(preamble@, "title"@) matches Some(t) && c.title@ == t
                    &&& spec_lookup(preamble@, "description"@) matches Some(d) && c.description@
                        == d
                    &&& if (args.mode matches SorgMode::Run) {
                        spec_lookup(preamble@, "url"@) matches Some(u) && c.url@ == u
                    } else {
                        c.url@ == "http://localhost:1024"@
                    }
                    &&& c.static_dir@ == spec_lookup_or(preamble@, "static"@, "static"@)
                    &&& c.build_dir@ == spec_lookup_or(preamble@, "build"@, "build"@)
                    &&& c.templates_dir@ == spec_lookup_or(preamble@, "templates"@, "templates"@)
                    &&& c.root_folder@ == spec_root_folder(args.path@)
                    &&& c.build_folder@ == spec_join_path(
                        spec_root_folder(args.path@),
                        spec_lookup_or(preamble@, "build"@, "build"@),
                    )
                    &&& c.templates_folder@ == spec_join_path(
                        spec_root_folder(args.path@),
                        spec_lookup_or(preamble@, "templates"@, "templates"@),
                    )
                    &&& c.syntax_highlighting_theme@ == spec_lookup_or(
                        preamble@,
                        "theme"@,
                        "InspiredGitHub"@,
                    )
                    &&& c.preamble@ == preamble@
                    &&& c.verbose == args.verbose
                    &&& c.release == (args.mode matches SorgMode::Run)
                    &&& c.hotreloading == (args.mode matches SorgMode::Watch)
                },
                Err(e) => {
                    &&& e matches Error::MissingKeyword { keyword } && (if spec_lookup(
                        preamble@,
                        "title"@,
                    ) is None {
                        keyword@ == "title"@
                    } else if spec_lookup(preamble@, "description"@) is None {
                        keyword@ == "description"@
                    } else {
                        (args.mode matches SorgMode::Run) && spec_lookup(preamble@, "url"@)
                            is None && keyword@ == "url"@
                    })
                    &&& (spec_lookup(preamble@, "title"@) is None || spec_lookup(
                        preamble@,
                        "description"@,
                    ) is None || ((args.mode matches SorgMode::Run) && spec_lookup(
                        preamble@,
                        "url"@,
                    ) is None))
                },
            },
    {
        let title = match lookup(preamble, "title") {
            Some(t) => t.clone(),
            None => {
                return Err(Error::MissingKeyword { keyword: "title".to_owned() });
            },
        };
        let description = match lookup(preamble, "description") {
            Some(d) => d.clone(),
            None => {
                return Err(Error::MissingKeyword { keyword: "description".to_owned() });
            },
        };
        let url = if args.is_release() {
            match lookup(preamble, "url") {
                Some(u) => u.clone(),
                None => {
                    return Err(Error::MissingKeyword { keyword: "url".to_owned() });
                },
            }
        } else {
            "http://localhost:1024".to_owned()
        };

        let static_dir = lookup_or(preamble, "static", "static");
        let build_dir = lookup_or(preamble, "build", "build");
        let templates_dir = lookup_or(preamble, "templates", "templates");
        let theme = lookup_or(preamble, "theme", "InspiredGitHub");

        let root_folder = args.root_folder();
        let build_folder = join_path(root_folder.as_str(), build_dir.as_str());
        let templates_folder = join_path(root_folder.as_str(), templates_dir.as_str());

        Ok(Config {
            root_folder,
            build_folder,
            templates_folder,
            static_dir,
            build_dir,
            templates_dir,
            verbose: args.verbose,
            release: args.is_release(),
            hotreloading: args.is_hotreloading(),
            preamble: clone_pairs(preamble),
            url,
            title,
            description,
            syntax_highlighting_theme: theme,
        })
    }
}

} // verus!
