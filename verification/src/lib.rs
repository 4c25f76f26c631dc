#![allow(unused_imports)]

use vstd::prelude::*;

pub mod args;
pub mod config;
pub mod context;
pub mod count_words;
pub mod doc;
pub mod folders;
pub mod footnotes;
pub mod helpers;
pub mod macros;
pub mod page;
pub mod render;
pub mod rss;
pub mod template;
pub mod slug;
pub mod strings;
pub mod tera;

verus! {

/// The errors that a build can report, mirroring the failure modes of the
/// site generator: missing site metadata, unreadable linked documents,
/// template failures, write failures and macro misuse.
#[derive(Debug)]
pub enum Error {
    MissingKeyword { keyword: String },
    ExternalFileUnreadable { heading: String, file: String },
    TemplateRenderFailure { page: String, message: String },
    WriteFailure { message: String },
    MacroArgumentMismatch { name: String },
    InvalidUrl { url: String },
    UnrecognizedArgument { argument: String },
    TooManyArguments,
    NoFilename,
    /// A failure while rendering one page, wrapped with that page's title
    /// for diagnostics.
    RenderFailure { page: String, cause: Box<Error> },
}

impl Error {
    /// The error described in a sentence, as a build tool reports it.
    pub fn message(&self) -> (r: String)
        ensures
            self matches Error::MissingKeyword { keyword } ==> r@ == "Keyword '"@ + keyword@
                + "' was not provided"@,
        decreases *self,
    {
        let mut out: Vec<char> = Vec::new();
        match self {
            Error::MissingKeyword { keyword } => {
                crate::strings::push_str(&mut out, "Keyword '");
                crate::strings::push_str(&mut out, keyword.as_str());
                crate::strings::push_str(&mut out, "' was not provided");
            },
            Error::ExternalFileUnreadable { heading, file } => {
                crate::strings::push_str(&mut out, "headline '");
                crate::strings::push_str(&mut out, heading.as_str());
                crate::strings::push_str(&mut out, "' tried to read file '");
                crate::strings::push_str(&mut out, file.as_str());
                crate::strings::push_str(&mut out, "', which doesnt exist");
            },
            Error::TemplateRenderFailure { page, message } => {
                crate::strings::push_str(&mut out, "rendering ");
                crate::strings::push_str(&mut out, page.as_str());
                crate::strings::push_str(&mut out, ": ");
                crate::strings::push_str(&mut out, message.as_str());
            },
            Error::WriteFailure { message } => {
                crate::strings::push_str(&mut out, "write failure: ");
                crate::strings::push_str(&mut out, message.as_str());
            },
            Error::MacroArgumentMismatch { name } => {
                crate::strings::push_str(&mut out, "macro call argument count mismatch for ");
                crate::strings::push_str(&mut out, name.as_str());
            },
            Error::InvalidUrl { url } => {
                crate::strings::push_str(&mut out, "invalid url: ");
                crate::strings::push_str(&mut out, url.as_str());
            },
            Error::UnrecognizedArgument { argument } => {
                crate::strings::push_str(&mut out, "Unrecognized argument ");
                crate::strings::push_str(&mut out, argument.as_str());
            },
            Error::TooManyArguments => {
                crate::strings::push_str(&mut out, "Too many arguments");
            },
            Error::NoFilename => {
                crate::strings::push_str(&mut out, "No filename found");
            },
            Error::RenderFailure { page, cause } => {
                crate::strings::push_str(&mut out, "rendering ");
                crate::strings::push_str(&mut out, page.as_str());
                crate::strings::push_str(&mut out, ": ");
                let inner = cause.message();
                crate::strings::push_str(&mut out, inner.as_str());
            },
        }
        crate::strings::chars_to_string(&out)
    }
}

} // verus!
