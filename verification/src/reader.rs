//! The lines of a source file.
use crate::text::byte_len;
use vstd::prelude::*;
use vstd::string::*;

verus! {

/// The lines of a file that have been read, each with its line break, the number of them that
/// have been handed out, and the error that ended the reading, if one did.
pub struct LineReader {
    pub lines: Vec<String>,
    pub next: usize,
    pub failure: Option<std::io::Error>,
}

/// What is left to be read.
pub struct ReaderView {
    pub lines: Seq<Seq<char>>,
    pub next: int,
    pub failure: Option<std::io::Error>,
}

/// The characters of each line.
pub open spec fn line_views(lines: Seq<String>) -> Seq<Seq<char>> {
    lines.map_values(|l: String| l@)
}

impl View for LineReader {
    type V = ReaderView;

    open spec fn view(&self) -> ReaderView {
        ReaderView {
            lines: line_views(self.lines@),
            next: self.next as int,
            failure: self.failure,
        }
    }
}

impl ReaderView {
    /// No more lines than there are have been handed out.
    pub open spec fn valid(self) -> bool {
        0 <= self.next <= self.lines.len()
    }

    /// Every line number, and every column on a line, can be represented.
    pub open spec fn countable(self) -> bool {
        &&& self.lines.len() < usize::MAX
        &&& forall|i: int|
            0 <= i < self.lines.len() ==> 3 * byte_len(#[trigger] self.lines[i]) + 3 <= usize::MAX
    }

    /// A line is left to be handed out.
    pub open spec fn has_line(self) -> bool {
        self.next < self.lines.len()
    }

    /// After the next line.
    pub open spec fn after_line(self) -> ReaderView {
        ReaderView { next: self.next + 1, ..self }
    }

    /// After the error that ended the reading.
    pub open spec fn after_failure(self) -> ReaderView {
        ReaderView { failure: None, ..self }
    }
}

impl LineReader {
    /// A reader at the first of `lines`.
    pub fn new(lines: Vec<String>, failure: Option<std::io::Error>) -> (r: Self)
        ensures
            r@ == (ReaderView { lines: line_views(lines@), next: 0, failure }),
            r@.valid(),
    {
        LineReader { lines, next: 0, failure }
    }

    /// The next line, or `None` behind the last one. The error that ended the reading comes once,
    /// behind the last line.
    pub fn read_line(&mut self) -> (r: Result<Option<String>, std::io::Error>)
        requires
            old(self)@.valid(),
        ensures
            final(self)@.valid(),
            r matches Ok(Some(line)) ==> {
                &&& old(self)@.has_line()
                &&& line@ == old(self)@.lines[old(self)@.next]
                &&& final(self)@ == old(self)@.after_line()
            },
            r matches Ok(None) ==> {
                &&& !old(self)@.has_line()
                &&& old(self)@.failure is None
                &&& final(self)@ == old(self)@
            },
            r matches Err(err) ==> {
                &&& !old(self)@.has_line()
                &&& old(self)@.failure == Some(err)
                &&& final(self)@ == old(self)@.after_failure()
            },
    {
        if self.next < self.lines.len() {
            let line = self.lines[self.next].clone();
            self.next += 1;
            Ok(Some(line))
        } else {
            match self.failure.take() {
                Some(err) => Err(err),
                None => Ok(None),
            }
        }
    }
}

} // verus!
