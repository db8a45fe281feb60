//! The body formats a mail can be sent in.

use vstd::prelude::*;
use vstd::string::StringExecFns;

verus! {

#[derive(Clone, Copy, PartialEq, Eq, Structural, Debug)]
pub enum Format {
    Html,
    Txt,
}

/// A format name that is neither `txt` nor `html`; it carries the name.
#[derive(Debug)]
pub struct WrongFormat(pub String);

impl Format {
    /// The media type of a body in this format.
    pub fn content_type(&self) -> (s: &'static str)
        ensures
            *self == Format::Html ==> s@ == "text/html; charset=utf-8"@,
            *self == Format::Txt ==> s@ == "text/plain; charset=utf-8"@,
    {
        match self {
            Format::Html => "text/html; charset=utf-8",
            Format::Txt => "text/plain; charset=utf-8",
        }
    }

    /// Reads a format name: `txt` or `html`.
    pub fn parse(raw: &str) -> (r: Result<Format, WrongFormat>)
        ensures
            raw@ == "txt"@ ==> r matches Ok(Format::Txt),
            raw@ == "html"@ ==> r matches Ok(Format::Html),
            r matches Ok(f) ==> (f == Format::Txt && raw@ == "txt"@) || (f == Format::Html && raw@
                == "html"@),
            r matches Err(e) ==> e.0@ == raw@,
    {
        proof {
            reveal_strlit("txt");
            reveal_strlit("html");
            assert("txt"@.len() != "html"@.len());
        }
        if crate::shell::str_eq(raw, "txt") {
            Ok(Format::Txt)
        } else if crate::shell::str_eq(raw, "html") {
            Ok(Format::Html)
        } else {
            Err(WrongFormat(String::from_str(raw)))
        }
    }
}

} // verus!
