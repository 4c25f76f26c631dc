//! Command-line arguments: the run mode, the document path, and verbosity.
//!
//! Splitting the raw argument list into positional arguments and flag keys is
//! done by an outside helper; everything decided from that split is verified.

use vstd::prelude::*;

use crate::Error;
use crate::strings::str_eq;

verus! {

/// How the generator runs.
#[derive(Debug, Clone, PartialEq, Eq)]
pub enum SorgMode {
    /// Basic HTML generation from the provided file.
    Run,
    /// Generate HTML and start a server.
    Serve,
    /// Generate HTML, start a server, and watch for changes.
    Watch,
    /// Generate folders in the static directory for each node in the tree.
    Folders { generate_gitignore: bool },
}

#[derive(Debug, Clone, PartialEq, Eq)]
pub struct Args {
    pub mode: SorgMode,
    pub path: String,
    pub verbose: bool,
}

/// What the outside argument splitter returns: the positional arguments in
/// order, and the set of flag keys.
pub ghost struct SplitArgs {
    pub positional: Seq<Seq<char>>,
    pub flags: Set<Seq<char>>,
}

/// Arguments made of ASCII characters only.  The outside splitter walks
/// short flags byte by byte, so a multi-byte character in an argument is
/// out of its domain.
pub open spec fn ascii_args(args: Seq<String>) -> bool {
    forall|i: int, j: int|
        0 <= i < args.len() && 0 <= j < (#[trigger] args[i])@.len() ==> ((#[trigger] args[i]@[j])
            as u32) < 128
}

/// The split of a raw argument list, as the outside splitter defines it.
pub uninterp spec fn split_args_of(args: Seq<Seq<char>>) -> SplitArgs;

/// The views of a sequence of strings.
pub open spec fn views_of(args: Seq<String>) -> Seq<Seq<char>> {
    args.map_values(|s: String| s@)
}

/// Relies on `argmap::parse`: the split of an argument list into positional
/// arguments and flag keys depends on the list alone.  Flag keys come back
/// in unspecified order.  The splitter slices short-flag arguments at byte
/// offsets, which panics on a multi-byte character, so only ASCII argument
/// lists are in its domain.
#[verifier::external_body]
fn split_args(args: &Vec<String>) -> (r: (Vec<String>, Vec<String>))
    requires
        ascii_args(args@),
    ensures
        views_of(r.0@) == split_args_of(views_of(args@)).positional,
        forall|k: Seq<char>|
            #[trigger] split_args_of(views_of(args@)).flags.contains(k) <==> exists|i: int|
                0 <= i < r.1@.len() && (#[trigger] r.1@[i])@ == k,
{
    let (list, map) = argmap::parse(args.iter());
    (list, map.into_keys().collect())
}

/// The mode a word names, given whether a `gitignore` flag is present;
/// `None` for an unrecognized word.
pub open spec fn spec_mode_of(value: Seq<char>, has_gitignore: bool) -> Option<SorgMode> {
    if value == "run"@ {
        Some(SorgMode::Run)
    } else if value == "serve"@ {
        Some(SorgMode::Serve)
    } else if value == "watch"@ {
        Some(SorgMode::Watch)
    } else if value == "folders"@ {
        Some(SorgMode::Folders { generate_gitignore: has_gitignore })
    } else {
        None
    }
}

/// The parsed arguments as ghost values: mode, path and verbosity.
pub ghost struct ArgsModel {
    pub mode: SorgMode,
    pub path: Seq<char>,
    pub verbose: bool,
}

/// What the raw argument split means; `None` where parsing must fail.
pub open spec fn spec_parse_args(p: SplitArgs) -> Option<ArgsModel> {
    let verbose = p.flags.contains("v"@) || p.flags.contains("verbose"@);
    let gi = p.flags.contains("gitignore"@);
    if p.positional.len() == 0 {
        Some(ArgsModel { mode: SorgMode::Run, path: "./blog.org"@, verbose })
    } else if p.positional.len() == 1 {
        match spec_mode_of(p.positional[0], gi) {
            Some(m) => Some(ArgsModel { mode: m, path: "./blog.org"@, verbose }),
            None => Some(ArgsModel { mode: SorgMode::Run, path: p.positional[0], verbose }),
        }
    } else if p.positional.len() == 2 {
        match spec_mode_of(p.positional[0], gi) {
            Some(m) => Some(ArgsModel { mode: m, path: p.positional[1], verbose }),
            None => None,
        }
    } else {
        None
    }
}

impl SorgMode {
    fn try_from(value: &str, has_gitignore: bool) -> (r: Option<SorgMode>)
        ensures
            r == spec_mode_of(value@, has_gitignore),
    {
        if str_eq(value, "run") {
            Some(SorgMode::Run)
        } else if str_eq(value, "serve") {
            Some(SorgMode::Serve)
        } else if str_eq(value, "watch") {
            Some(SorgMode::Watch)
        } else if str_eq(value, "folders") {
            Some(SorgMode::Folders { generate_gitignore: has_gitignore })
        } else {
            None
        }
    }
}

fn flags_contain(flags: &Vec<String>, key: &str) -> (r: bool)
    ensures
        r == exists|i: int| 0 <= i < flags@.len() && flags@[i]@ == key@,
{
    let mut i: usize = 0;
    while i < flags.len()
        invariant
            i <= flags@.len(),
            forall|j: int| 0 <= j < i ==> flags@[j]@ != key@,
        decreases flags@.len() - i,
    {
        if str_eq(flags[i].as_str(), key) {
            return true;
        }
        i = i + 1;
    }
    false
}

impl Args {
    /// Parse a raw argument list (without the program name).
    ///
    /// With no positional argument the default document is used; one argument
    /// is a mode or, failing that, a document path; two are a mode and a
    /// path; more than two are rejected, as is an unrecognized mode word in
    /// the two-argument form.
    pub fn parse(args: Vec<String>) -> (r: Result<Args, Error>)
        requires
            ascii_args(args@),
        ensures
            match r {
                Ok(a) => spec_parse_args(split_args_of(views_of(args@))) matches Some(m) && a.mode == m.mode && a.path@ == m.path && a.verbose
                    == m.verbose,
                Err(e) => {
                    &&& spec_parse_args(split_args_of(views_of(args@))) is None
                    &&& {
                        let p = split_args_of(views_of(args@));
                        if p.positional.len() == 2 {
                            e matches Error::UnrecognizedArgument { argument } && argument@
                                == p.positional[0]
                        } else {
                            e == Error::TooManyArguments
                        }
                    }
                },
            },
    {
        let (positional, flags) = split_args(&args);
        let ghost p = split_args_of(views_of(args@));

        let verbose = flags_contain(&flags, "v") || flags_contain(&flags, "verbose");
        let gi = flags_contain(&flags, "gitignore");

        if positional.len() == 0 {
            Ok(Args { mode: SorgMode::Run, path: "./blog.org".to_owned(), verbose })
        } else if positional.len() == 1 {
            proof {
                assert(views_of(positional@)[0] == positional@[0]@);
            }
            match SorgMode::try_from(positional[0].as_str(), gi) {
                Some(mode) => Ok(Args { mode, path: "./blog.org".to_owned(), verbose }),
                None => {
                    let mut positional = positional;
                    let path = positional.remove(0);
                    Ok(Args { mode: SorgMode::Run, path, verbose })
                },
            }
        } else if positional.len() == 2 {
            proof {
                assert(views_of(positional@)[0] == positional@[0]@);
                assert(views_of(positional@)[1] == positional@[1]@);
            }
            match SorgMode::try_from(positional[0].as_str(), gi) {
                Some(mode) => {
                    let mut positional = positional;
                    let path = positional.remove(1);
                    Ok(Args { mode, path, verbose })
                },
                None => {
                    let mut positional = positional;
                    let argument = positional.remove(0);
                    Err(Error::UnrecognizedArgument { argument })
                },
            }
        } else {
            Err(Error::TooManyArguments)
        }
    }

    /// The index right after the last slash of the path, found by scanning.
    fn cut_index(&self) -> (r: usize)
        ensures
            r == spec_after_last_slash(self.path@),
            r <= self.path@.len(),
    {
        let n = self.path.as_str().unicode_len();
        let mut i: usize = n;
        while i > 0
            invariant
                i <= n,
                n == self.path@.len(),
                forall|j: int| i <= j < n ==> self.path@[j] != '/',
            decreases i,
        {
            if self.path.as_str().get_char(i - 1) == '/' {
                proof {
                    lemma_after_last_slash_at(self.path@, i as int);
                }
                return i;
            }
            i = i - 1;
        }
        proof {
            lemma_after_last_slash_at(self.path@, 0);
        }
        0
    }

    /// The directory holding the document: the path up to its last slash,
    /// or empty when the path has no slash.
    pub fn root_folder(&self) -> (r: String)
        ensures
            r@ == spec_root_folder(self.path@),
    {
        let cut = self.cut_index();
        if cut == 0 {
            return String::new();
        }
        let n = self.path.as_str().unicode_len();
        let mut out: Vec<char> = Vec::new();
        let mut j: usize = 0;
        while j < cut - 1
            invariant
                j <= cut - 1,
                cut <= n && cut >= 1,
                n == self.path@.len(),
                out@ == self.path@.subrange(0, j as int),
            decreases cut - j,
        {
            out.push(self.path.as_str().get_char(j));
            proof {
                assert(self.path@.subrange(0, j + 1 as int) =~= self.path@.subrange(
                    0,
                    j as int,
                ).push(self.path@[j as int]));
            }
            j = j + 1;
        }
        crate::strings::chars_to_string(&out)
    }

    /// The file name of the document: what follows the last slash.
    /// An empty path or a path ending in a slash has no file name.
    pub fn file_name(&self) -> (r: Result<String, Error>)
        ensures
            match r {
                Ok(name) => spec_file_name(self.path@) == Some(name@),
                Err(e) => spec_file_name(self.path@) is None && e == Error::NoFilename,
            },
    {
        let cut = self.cut_index();
        let n = self.path.as_str().unicode_len();
        if cut >= n {
            return Err(Error::NoFilename);
        }
        let mut out: Vec<char> = Vec::new();
        let mut j: usize = cut;
        while j < n
            invariant
                cut <= j <= n,
                n == self.path@.len(),
                out@ == self.path@.subrange(cut as int, j as int),
            decreases n - j,
        {
            out.push(self.path.as_str().get_char(j));
            proof {
                assert(self.path@.subrange(cut as int, j + 1 as int) =~= self.path@.subrange(
                    cut as int,
                    j as int,
                ).push(self.path@[j as int]));
            }
            j = j + 1;
        }
        Ok(crate::strings::chars_to_string(&out))
    }

    /// Release mode: the plain run mode, with drafts hidden.
    pub fn is_release(&self) -> (r: bool)
        ensures
            r == (self.mode matches SorgMode::Run),
    {
        matches!(self.mode, SorgMode::Run)
    }

    /// Whether a hot-reload listener should be injected into rendered pages.
    pub fn is_hotreloading(&self) -> (r: bool)
        ensures
            r == (self.mode matches SorgMode::Watch),
    {
        matches!(self.mode, SorgMode::Watch)
    }
}

impl Default for Args {
    /// The default arguments: a plain run over an unnamed document.
    fn default() -> (r: Self)
        ensures
            r.mode == SorgMode::Run && r.path@ == Seq::<char>::empty() && !r.verbose,
    {
        Args { mode: SorgMode::Run, path: String::new(), verbose: false }
    }
}

/// The index right after the last slash, or zero when there is none.
pub open spec fn spec_after_last_slash(p: Seq<char>) -> int
    decreases p.len(),
{
    if p.len() == 0 {
        0
    } else if p[p.len() - 1] == '/' {
        p.len() as int
    } else {
        spec_after_last_slash(p.drop_last())
    }
}

/// The directory part of a path: everything before the last slash.
pub open spec fn spec_root_folder(p: Seq<char>) -> Seq<char> {
    let cut = spec_after_last_slash(p);
    if cut == 0 {
        Seq::empty()
    } else {
        p.subrange(0, cut - 1)
    }
}

/// The file-name part of a path: everything after the last slash, `None`
/// when that part is empty.
pub open spec fn spec_file_name(p: Seq<char>) -> Option<Seq<char>> {
    let cut = spec_after_last_slash(p);
    if cut >= p.len() {
        None
    } else {
        Some(p.subrange(cut, p.len() as int))
    }
}

/// `spec_after_last_slash` is pinned by any witness scan: if everything from
/// `cut` on is slash-free and a slash (or the start) sits just before `cut`,
/// then `cut` is the index after the last slash.
proof fn lemma_after_last_slash_at(p: Seq<char>, cut: int)
    requires
        0 <= cut <= p.len(),
        cut > 0 ==> p[cut - 1] == '/',
        forall|j: int| cut <= j < p.len() ==> p[j] != '/',
    ensures
        spec_after_last_slash(p) == cut,
    decreases p.len(),
{
    if p.len() == 0 {
    } else if p[p.len() - 1] == '/' {
        assert(cut == p.len());
    } else {
        assert(cut < p.len());
        assert(forall|j: int| cut <= j < p.len() - 1 ==> p.drop_last()[j] == p[j]);
        lemma_after_last_slash_at(p.drop_last(), cut);
    }
}

} // verus!
