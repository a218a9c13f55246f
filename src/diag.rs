//! Diagnostics collector: records error reports as (row, column, message).
use vstd::prelude::*;

verus! {

/// One report: where it was made and what it says.
#[derive(Debug)]
pub struct DiagUnit {
    row: u32,
    col: u32,
    describe: String,
}

impl View for DiagUnit {
    type V = (u32, u32, Seq<char>);

    closed spec fn view(&self) -> (u32, u32, Seq<char>) {
        (self.row, self.col, self.describe@)
    }
}

impl DiagUnit {
    pub fn row(&self) -> (r: u32)
        ensures
            r == self@.0,
    {
        self.row
    }

    pub fn col(&self) -> (r: u32)
        ensures
            r == self@.1,
    {
        self.col
    }

    pub fn describe(&self) -> (r: String)
        ensures
            r@ == self@.2,
    {
        self.describe.clone()
    }
}

/// The reports gathered during one compilation pass.
#[derive(Debug)]
pub struct Object {
    warnings: Vec<DiagUnit>,
    errors: Vec<DiagUnit>,
}

impl Object {
    /// The error reports, in the order they were pushed.
    pub closed spec fn errors(&self) -> Seq<(u32, u32, Seq<char>)> {
        self.errors@.map_values(|u: DiagUnit| u@)
    }

    /// The warning reports, in the order they were pushed.
    pub closed spec fn warnings(&self) -> Seq<(u32, u32, Seq<char>)> {
        self.warnings@.map_values(|u: DiagUnit| u@)
    }

    pub fn new() -> (r: Object)
        ensures
            r.errors() == Seq::<(u32, u32, Seq<char>)>::empty(),
            r.warnings() == Seq::<(u32, u32, Seq<char>)>::empty(),
    {
        let r = Object { warnings: Vec::new(), errors: Vec::new() };
        proof {
            assert(r.errors() =~= Seq::<(u32, u32, Seq<char>)>::empty());
            assert(r.warnings() =~= Seq::<(u32, u32, Seq<char>)>::empty());
        }
        r
    }

    /// Whether any error was reported.
    pub fn has_error(&self) -> (r: bool)
        ensures
            r == (self.errors().len() > 0),
    {
        self.errors.len() > 0
    }

    /// Records an error at (`row`, `col`) saying `describe`.
    pub fn push_error(&mut self, row: u32, col: u32, describe: &str)
        ensures
            final(self).errors() == old(self).errors().push((row, col, describe@)),
            final(self).warnings() == old(self).warnings(),
    {
        let unit = DiagUnit { row, col, describe: describe.to_owned() };
        self.errors.push(unit);
        proof {
            assert(final(self).errors() =~= old(self).errors().push((row, col, describe@)));
        }
    }
}

/// A fresh collector holding no report.
pub fn make() -> (r: Object)
    ensures
        r.errors() == Seq::<(u32, u32, Seq<char>)>::empty(),
        r.warnings() == Seq::<(u32, u32, Seq<char>)>::empty(),
{
    Object::new()
}

} // verus!
