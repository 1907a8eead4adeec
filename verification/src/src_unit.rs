//! Source units: the named source texts an assembly was built from, kept so
//! that diagnostics can point back into them.

use vstd::prelude::*;
use vstd::string::StringExecFns;

use crate::decimal::{spec_decimal, usize_to_string};
use crate::src_tag::{spec_line_end, spec_row_col, SrcTag};

verus! {

/// One named source text.
#[derive(Debug)]
pub struct SrcUnit {
    pub id: usize,
    pub name: String,
    pub source: String,
}

/// The ordered collection of source units of one assembly, indexed by unit id.
#[derive(Debug)]
pub struct SrcUnits {
    units: Vec<SrcUnit>,
}

impl View for SrcUnits {
    type V = Seq<SrcUnit>;

    closed spec fn view(&self) -> Seq<SrcUnit> {
        self.units@
    }
}

/// The text `"{name}:{row}:{col}: {line}"` for the position `off` in `source`.
pub open spec fn spec_line_comment(name: Seq<char>, source: Seq<char>, off: int) -> Seq<char> {
    let rc = spec_row_col(source, off);
    name + ":"@ + spec_decimal(rc.0 as nat) + ":"@ + spec_decimal(rc.1 as nat) + ": "@
        + source.subrange(off, spec_line_end(source, off))
}

impl SrcUnits {
    pub fn new() -> (r: SrcUnits)
        ensures
            r@ == Seq::<SrcUnit>::empty(),
    {
        SrcUnits { units: Vec::new() }
    }

    pub fn name(&self, unit_id: usize) -> (r: &String)
        requires
            unit_id < self@.len(),
        ensures
            *r == self@[unit_id as int].name,
    {
        &self.units[unit_id].name
    }

    pub fn source(&self, unit_id: usize) -> (r: &String)
        requires
            unit_id < self@.len(),
        ensures
            *r == self@[unit_id as int].source,
    {
        &self.units[unit_id].source
    }

    pub fn unit(&self, unit_id: usize) -> (r: &SrcUnit)
        requires
            unit_id < self@.len(),
        ensures
            *r == self@[unit_id as int],
    {
        &self.units[unit_id]
    }

    /// The position and the line of code that `tag` points to, in the form
    /// `"{name}:{row}:{col}: {line}"`.
    pub fn line_comment(&self, tag: SrcTag) -> (r: String)
        requires
            tag.unit < self@.len(),
            tag.offset <= self@[tag.unit as int].source@.len(),
            tag.offset < usize::MAX,
        ensures
            r@ == spec_line_comment(
                self@[tag.unit as int].name@,
                self@[tag.unit as int].source@,
                tag.offset as int,
            ),
    {
        let unit = &self.units[tag.unit];
        let rc = tag.row_col(unit.source.as_str());
        let line = tag.line(unit.source.as_str());
        let mut r = unit.name.clone();
        r.append(":");
        let row_s = usize_to_string(rc.0);
        r.append(row_s.as_str());
        r.append(":");
        let col_s = usize_to_string(rc.1);
        r.append(col_s.as_str());
        r.append(": ");
        r.append(line);
        r
    }

    /// Registers a new unit and returns its id.
    pub fn push_unit(&mut self, name: String, source: String) -> (unit_id: usize)
        ensures
            unit_id == old(self)@.len(),
            final(self)@ == old(self)@.push(
                (SrcUnit { id: unit_id, name: name, source: source }),
            ),
    {
        let unit_id = self.units.len();
        self.units.push(SrcUnit { id: unit_id, name, source });
        unit_id
    }
}

} // verus!
