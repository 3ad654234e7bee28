//! One error type for the whole crate: each error carries its own context.

use vstd::prelude::*;
use vstd::utf8::{decode_utf8, valid_utf8};

use crate::numbers::{decimal, decimal_text};
use crate::text::{lossy_text, text_from_bytes, views};

verus! {

#[derive(Debug)]
pub enum Error {
    /// A file or directory we were told to read is not usable.
    Io { path: String, source: String },
    /// Input existed but did not look like what it claimed to be.
    Malformed(String),
    /// The external dumper could not be used, or refused to run.
    Tool(String),
    /// Something the user asked for cannot be done as asked.
    Usage(String),
    /// Generation finished but the result is not fit to publish.
    Validation(Vec<String>),
}

pub type Result<T> = std::result::Result<T, Error>;

/// What an [`Error`] says.
pub enum ErrorView {
    Io { path: Seq<char>, source: Seq<char> },
    Malformed(Seq<char>),
    Tool(Seq<char>),
    Usage(Seq<char>),
    Validation(Seq<Seq<char>>),
}

impl View for Error {
    type V = ErrorView;

    open spec fn view(&self) -> ErrorView {
        match self {
            Error::Io { path, source } => ErrorView::Io { path: path@, source: source@ },
            Error::Malformed(message) => ErrorView::Malformed(message@),
            Error::Tool(message) => ErrorView::Tool(message@),
            Error::Usage(message) => ErrorView::Usage(message@),
            Error::Validation(problems) => ErrorView::Validation(views(problems@)),
        }
    }
}

/// `r` is what `expected` says, value for value and error for error.
pub open spec fn agrees<T>(r: Result<T>, expected: std::result::Result<T, ErrorView>) -> bool {
    match (r, expected) {
        (Ok(value), Ok(wanted)) => value == wanted,
        (Err(error), Err(wanted)) => error@ == wanted,
        _ => false,
    }
}

/// As [`agrees`], for a value that is taken by its view.
pub open spec fn agrees_in_view<T: View>(
    r: Result<T>,
    expected: std::result::Result<T::V, ErrorView>,
) -> bool {
    match (r, expected) {
        (Ok(value), Ok(wanted)) => value@ == wanted,
        (Err(error), Err(wanted)) => error@ == wanted,
        _ => false,
    }
}

/// One line for each problem.
pub open spec fn bullets(problems: Seq<Seq<char>>) -> Seq<char>
    decreases problems.len(),
{
    if problems.len() == 0 {
        Seq::empty()
    } else {
        bullets(problems.drop_last()) + "  - "@ + problems.last() + "\n"@
    }
}

impl ErrorView {
    /// The text that a user is shown.
    pub open spec fn text(self) -> Seq<char> {
        match self {
            ErrorView::Io { path, source } => path + ": "@ + source,
            ErrorView::Malformed(message) => message,
            ErrorView::Tool(message) => message,
            ErrorView::Usage(message) => message,
            ErrorView::Validation(problems) => "the generated offsets did not pass validation ("@
                + decimal(problems.len() as int) + " problem"@ + (if problems.len() == 1 {
                ""@
            } else {
                "s"@
            }) + "):\n"@ + bullets(problems)
                + "nothing was written. Publishing offsets that fail these checks hands the client a wrong pointer, which is worse than shipping nothing."@,
        }
    }
}

impl Error {
    pub fn io(path: String, source: String) -> (r: Self)
        ensures
            r@ == (ErrorView::Io { path: path@, source: source@ }),
    {
        Error::Io { path, source }
    }

    pub fn malformed(message: String) -> (r: Self)
        ensures
            r@ == ErrorView::Malformed(message@),
    {
        Error::Malformed(message)
    }

    pub fn tool(message: String) -> (r: Self)
        ensures
            r@ == ErrorView::Tool(message@),
    {
        Error::Tool(message)
    }

    pub fn usage(message: String) -> (r: Self)
        ensures
            r@ == ErrorView::Usage(message@),
    {
        Error::Usage(message)
    }

    /// A file that is there but cannot be read as what it should be.
    pub fn unusable(path: &str, what: &str, why: &str) -> (r: Self)
        ensures
            r@ == ErrorView::Malformed(path@ + ": not a usable "@ + what@ + ": "@ + why@),
    {
        let mut message = path.to_owned();
        message.append(": not a usable ");
        message.append(what);
        message.append(": ");
        message.append(why);
        Error::Malformed(message)
    }

    /// The text that a user is shown.
    pub fn to_string(&self) -> (r: String)
        ensures
            r@ == self@.text(),
    {
        match self {
            Error::Io { path, source } => {
                let mut out = path.clone();
                out.append(": ");
                out.append(source.as_str());
                out
            },
            Error::Malformed(message) => message.clone(),
            Error::Tool(message) => message.clone(),
            Error::Usage(message) => message.clone(),
            Error::Validation(problems) => {
                let mut out = "the generated offsets did not pass validation (".to_owned();
                out.append(decimal_text(problems.len() as i128).as_str());
                out.append(" problem");
                if problems.len() == 1 {
                    out.append("");
                } else {
                    out.append("s");
                }
                out.append("):\n");
                out.append(bullet_list(problems).as_str());
                out.append(
                    "nothing was written. Publishing offsets that fail these checks hands the client a wrong pointer, which is worse than shipping nothing.",
                );
                out
            },
        }
    }
}

/// The contents of a text file, tolerating stray bytes. Dumped C# occasionally
/// carries odd identifiers, and losing a whole run to one bad byte would be
/// silly.
pub fn read_to_string_lossy(contents: &[u8]) -> (r: String)
    ensures
        r@ == lossy_text(contents@),
        valid_utf8(contents@) ==> r@ == decode_utf8(contents@),
{
    text_from_bytes(contents)
}

fn bullet_list(problems: &Vec<String>) -> (r: String)
    ensures
        r@ == bullets(views(problems@)),
{
    let mut out = String::new();
    for i in 0..problems.len()
        invariant
            out@ == bullets(views(problems@).take(i as int)),
    {
        out.append("  - ");
        out.append(problems[i].as_str());
        out.append("\n");
        assert(views(problems@).take(i + 1).drop_last() =~= views(problems@).take(i as int));
    }
    assert(views(problems@).take(problems@.len() as int) =~= views(problems@));
    out
}

} // verus!
