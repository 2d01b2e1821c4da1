//! Where in the input something comes from.
use vstd::prelude::*;
use crate::text::{decimal, push_chars, push_decimal, push_str, chars_of};

verus! {

/// The input that a position refers to.
#[derive(Debug)]
pub enum Source {
    /// Text held in memory.
    InMemory,
    /// A file, by its path.
    File(String),
}

impl Source {
    /// A source that names the file at `path`.
    pub fn new_from_file(path: String) -> (r: Source)
        ensures
            r == Source::File(path),
    {
        Source::File(path)
    }
}

impl Clone for Source {
    fn clone(&self) -> (r: Source)
        ensures
            r == *self,
    {
        match self {
            Source::InMemory => Source::InMemory,
            Source::File(p) => Source::File(p.clone()),
        }
    }
}

/// A place in the input: unknown, or a line and column (both counted from
/// one) in a source.
#[derive(Debug)]
pub enum Location {
    Unknown,
    SrcPos { src: Source, line: u64, column: u64 },
}

impl Clone for Location {
    fn clone(&self) -> (r: Location)
        ensures
            r == *self,
    {
        match self {
            Location::Unknown => Location::Unknown,
            Location::SrcPos { src, line, column } => Location::SrcPos {
                src: src.clone(),
                line: *line,
                column: *column,
            },
        }
    }
}

/// How a source is named in rendered text.
pub open spec fn source_text(s: Source) -> Seq<char> {
    match s {
        Source::InMemory => "<in-memory>"@,
        Source::File(p) => p@,
    }
}

/// How a location is rendered: `<unknown>`, or `<source>: line: L, column: C`.
pub open spec fn location_text(l: Location) -> Seq<char> {
    match l {
        Location::Unknown => "<unknown>"@,
        Location::SrcPos { src, line, column } => source_text(src) + ": line: "@ + decimal(
            line as nat,
        ) + ", column: "@ + decimal(column as nat),
    }
}

impl Location {
    /// Appends the rendering of this location to `out`.
    pub fn render_into(&self, out: &mut Vec<char>)
        ensures
            final(out)@ == old(out)@ + location_text(*self),
    {
        match self {
            Location::Unknown => {
                push_str(out, "<unknown>");
            },
            Location::SrcPos { src, line, column } => {
                match src {
                    Source::InMemory => push_str(out, "<in-memory>"),
                    Source::File(p) => {
                        let cs = chars_of(p.as_str());
                        push_chars(out, &cs);
                    },
                }
                push_str(out, ": line: ");
                push_decimal(out, *line);
                push_str(out, ", column: ");
                push_decimal(out, *column);
                assert(final(out)@ =~= old(out)@ + location_text(*self));
            },
        }
    }
}

} // verus!
