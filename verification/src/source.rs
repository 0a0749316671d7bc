//! Origin tracking for source code fragments.
//!
//! Every token, syntax tree node, and runtime value carries a [`Location`]: an
//! immutable [`Code`] block plus a byte range within it. Locations are purely
//! informational; they are never used to decide the meaning of a value.

use vstd::prelude::*;

verus! {

/// Origin of a [`Code`] fragment.
#[derive(Debug)]
pub enum Source {
    /// Source of an unknown origin, also used as a placeholder in tests.
    Unknown,
    /// Command string executed for a trap; `condition` names the trap
    /// condition and `origin` is where the trap was installed.
    Trap { condition: String, origin: Box<Location> },
    /// Text of an arithmetic expansion; `original` is the location of the
    /// `$((...))` construct the expression was taken from.
    Arith { original: Box<Location> },
}

/// Immutable block of source code with its starting line number and origin.
#[derive(Debug)]
pub struct Code {
    /// Content of the block.
    pub value: String,
    /// Line number of the first line of `value`, counted from 1.
    pub start_line_number: u64,
    /// Origin of this block.
    pub source: Source,
}

/// Reference into a [`Code`] block: the block plus a byte range within it.
#[derive(Debug)]
pub struct Location {
    /// Code block this location points into.
    pub code: Code,
    /// Start of the byte range within `code.value`.
    pub range_start: usize,
    /// End (exclusive) of the byte range within `code.value`.
    pub range_end: usize,
}

/// Equality of sources, comparing strings by their characters.
pub open spec fn source_eq(a: Source, b: Source) -> bool
    decreases a,
{
    match (a, b) {
        (Source::Unknown, Source::Unknown) => true,
        (
            Source::Trap { condition: ca, origin: oa },
            Source::Trap { condition: cb, origin: ob },
        ) => ca@ == cb@ && location_eq(*oa, *ob),
        (Source::Arith { original: a1 }, Source::Arith { original: b1 }) => location_eq(*a1, *b1),
        _ => false,
    }
}

/// Equality of code blocks, comparing strings by their characters.
pub open spec fn code_eq(a: Code, b: Code) -> bool
    decreases a,
{
    a.value@ == b.value@ && a.start_line_number == b.start_line_number && source_eq(
        a.source,
        b.source,
    )
}

/// Equality of locations, comparing strings by their characters.
pub open spec fn location_eq(a: Location, b: Location) -> bool
    decreases a,
{
    code_eq(a.code, b.code) && a.range_start == b.range_start && a.range_end == b.range_end
}

impl Clone for Source {
    fn clone(&self) -> (r: Self)
        ensures
            r == *self,
    {
        clone_source(self)
    }
}

impl Clone for Code {
    fn clone(&self) -> (r: Self)
        ensures
            r == *self,
    {
        clone_code(self)
    }
}

impl Clone for Location {
    fn clone(&self) -> (r: Self)
        ensures
            r == *self,
    {
        clone_location(self)
    }
}

fn clone_source(s: &Source) -> (r: Source)
    ensures
        r == *s,
    decreases *s,
{
    match s {
        Source::Unknown => Source::Unknown,
        Source::Trap { condition, origin } => Source::Trap {
            condition: condition.clone(),
            origin: Box::new(clone_location(origin)),
        },
        Source::Arith { original } => Source::Arith {
            original: Box::new(clone_location(original)),
        },
    }
}

fn clone_code(c: &Code) -> (r: Code)
    ensures
        r == *c,
    decreases *c,
{
    Code {
        value: c.value.clone(),
        start_line_number: c.start_line_number,
        source: clone_source(&c.source),
    }
}

fn clone_location(l: &Location) -> (r: Location)
    ensures
        r == *l,
    decreases *l,
{
    Location {
        code: clone_code(&l.code),
        range_start: l.range_start,
        range_end: l.range_end,
    }
}

impl PartialEq for Source {
    fn eq(&self, other: &Self) -> (r: bool)
        ensures
            r == source_eq(*self, *other),
    {
        eq_source(self, other)
    }
}

impl vstd::std_specs::cmp::PartialEqSpecImpl for Source {
    open spec fn obeys_eq_spec() -> bool {
        true
    }

    open spec fn eq_spec(&self, other: &Self) -> bool {
        source_eq(*self, *other)
    }
}

impl Eq for Source {

}

impl PartialEq for Code {
    fn eq(&self, other: &Self) -> (r: bool)
        ensures
            r == code_eq(*self, *other),
    {
        eq_code(self, other)
    }
}

impl vstd::std_specs::cmp::PartialEqSpecImpl for Code {
    open spec fn obeys_eq_spec() -> bool {
        true
    }

    open spec fn eq_spec(&self, other: &Self) -> bool {
        code_eq(*self, *other)
    }
}

impl Eq for Code {

}

impl PartialEq for Location {
    fn eq(&self, other: &Self) -> (r: bool)
        ensures
            r == location_eq(*self, *other),
    {
        eq_location(self, other)
    }
}

impl vstd::std_specs::cmp::PartialEqSpecImpl for Location {
    open spec fn obeys_eq_spec() -> bool {
        true
    }

    open spec fn eq_spec(&self, other: &Self) -> bool {
        location_eq(*self, *other)
    }
}

impl Eq for Location {

}

fn eq_source(a: &Source, b: &Source) -> (r: bool)
    ensures
        r == source_eq(*a, *b),
    decreases *a,
{
    match (a, b) {
        (Source::Unknown, Source::Unknown) => true,
        (
            Source::Trap { condition: ca, origin: oa },
            Source::Trap { condition: cb, origin: ob },
        ) => *ca == *cb && eq_location(oa, ob),
        (Source::Arith { original: a1 }, Source::Arith { original: b1 }) => eq_location(a1, b1),
        _ => false,
    }
}

fn eq_code(a: &Code, b: &Code) -> (r: bool)
    ensures
        r == code_eq(*a, *b),
    decreases *a,
{
    a.value == b.value && a.start_line_number == b.start_line_number && eq_source(
        &a.source,
        &b.source,
    )
}

fn eq_location(a: &Location, b: &Location) -> (r: bool)
    ensures
        r == location_eq(*a, *b),
    decreases *a,
{
    eq_code(&a.code, &b.code) && a.range_start == b.range_start && a.range_end == b.range_end
}

impl Location {
    /// Builds a location that simply wraps the given string, for use where no
    /// real origin exists.
    pub fn dummy(value: &str) -> (r: Location)
        ensures
            r.code.value@ == value@,
            r.code.start_line_number == 1,
            r.code.source == Source::Unknown,
            r.range_start == 0,
    {
        let code = Code {
            value: value.to_owned(),
            start_line_number: 1,
            source: Source::Unknown,
        };
        let len = value.len();
        Location { code, range_start: 0, range_end: len }
    }
}

} // verus!
