//! Where a plain-text dump is read from.
use vstd::prelude::*;

verus! {

/// An opened dump: its lines, without their line feeds.
pub struct SqlTextConnection {
    reader: Vec<String>,
}

impl SqlTextConnection {
    pub closed spec fn lines(&self) -> Seq<Seq<char>> {
        self.reader.deep_view()
    }

    pub fn new(reader: Vec<String>) -> (r: Self)
        ensures
            r.lines() == reader.deep_view(),
    {
        SqlTextConnection { reader }
    }

    /// The lines of the dump.
    pub fn reader(&self) -> (r: &Vec<String>)
        ensures
            r.deep_view() == self.lines(),
    {
        &self.reader
    }
}

/// Where to read a dump from: standard input, or the file at `file_input`.
pub struct SqlTextConnector {
    pub is_stdin: bool,
    pub file_input: String,
}

impl SqlTextConnector {
    pub fn new(is_stdin: bool, file_input: String) -> (r: Self)
        ensures
            r.is_stdin == is_stdin,
            r.file_input == file_input,
    {
        SqlTextConnector { is_stdin, file_input }
    }
}

} // verus!
