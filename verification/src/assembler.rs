//! The assembler: collects source units and their parsed statements, then
//! runs the whole pipeline — IR generation, resolution, the source map, and
//! byte emission.

use vstd::prelude::*;

use crate::ast::{stmts_view, Statement};
use crate::error::AsmError;
use crate::ir::gen::{spec_assemble_ir, IRGenerator};
use crate::ir::map::{spec_map_entries, spec_map_tags_valid, SourceMap};
use crate::ir::{spec_emit, spec_emit_ok, spec_start, IR};
use crate::isa::OpTable;
use crate::src_unit::{SrcUnit, SrcUnits};

verus! {

/// Everything one assemble run produces: the statements it consumed, the
/// resolved program, the memory image, and the address-to-source map.
#[derive(Debug)]
pub struct AssemblerOutput {
    pub ast: Option<Vec<Statement>>,
    pub ir: Option<IR>,
    pub bytes: Option<Vec<u8>>,
    pub source_map: Option<SourceMap>,
}

/// Collects source units and their statements for one assemble run.
#[derive(Debug)]
pub struct Assembler {
    pub src_units: SrcUnits,
    pub units: Vec<Statement>,
}

impl Assembler {
    pub fn new() -> (r: Assembler)
        ensures
            r.src_units@ == Seq::<SrcUnit>::empty(),
            r.units@ == Seq::<Statement>::empty(),
    {
        let r = Assembler { src_units: SrcUnits::new(), units: Vec::new() };
        proof {
            assert(r.units@ =~= Seq::<Statement>::empty());
        }
        r
    }

    /// Registers a source unit and returns its id. Parsing happens upstream;
    /// the unit is kept so that diagnostics and the source map can point
    /// back into its text.
    pub fn add_unit(&mut self, name: String, source: String) -> (unit_id: usize)
        ensures
            unit_id == old(self).src_units@.len(),
            final(self).src_units@ == old(self).src_units@.push(
                (SrcUnit { id: unit_id, name: name, source: source }),
            ),
            final(self).units@ == old(self).units@,
    {
        self.src_units.push_unit(name, source)
    }

    /// Appends the parsed statements of a unit, in source order.
    pub fn add_statements(&mut self, statements: Vec<Statement>)
        ensures
            final(self).units@ == old(self).units@ + statements@,
            final(self).src_units@ == old(self).src_units@,
    {
        let ghost pre = self.units@;
        let ghost sv = statements@;
        let mut rest = statements;
        let mut k: usize = 0;
        let m = rest.len();
        proof {
            assert(pre + sv.take(0) =~= pre);
        }
        while k < m
            invariant
                m == sv.len(),
                k <= m,
                rest@ == sv.skip(k as int),
                self.units@ == pre + sv.take(k as int),
                self.src_units@ == old(self).src_units@,
            decreases m - k,
        {
            proof {
                assert(sv.skip(k as int)[0] == sv[k as int]);
            }
            let stmt = rest.remove(0);
            self.units.push(stmt);
            k = k + 1;
            proof {
                assert(rest@ =~= sv.skip(k as int));
                assert(self.units@ =~= pre + sv.take(k as int));
            }
        }
        proof {
            assert(sv.take(m as int) =~= sv);
        }
    }

    /// Runs the pipeline on everything collected: generates and resolves the
    /// IR against the instruction table, builds the source map, and emits
    /// the byte image. Consumes the assembler; a run is one-shot.
    pub fn assemble(self, table: &OpTable) -> (r: Result<AssemblerOutput, AsmError>)
        requires
            spec_assemble_ir(stmts_view(self.units@), table@) matches Ok(b) ==> spec_emit_ok(
                b,
                spec_start(b),
            ) && spec_map_tags_valid(b, self.src_units@),
        ensures
            match r {
                Ok(out) => spec_assemble_ir(stmts_view(self.units@), table@) matches Ok(b) && {
                    &&& out.ast matches Some(sts) && sts@ == self.units@
                    &&& out.ir matches Some(ir) && ir@ == b
                    &&& out.bytes matches Some(bytes) && bytes@ == spec_emit(b, spec_start(b))
                    &&& out.source_map matches Some(m) && m.entries@ == spec_map_entries(
                        b,
                        self.src_units@,
                    )
                },
                Err(e) => spec_assemble_ir(stmts_view(self.units@), table@) matches Err(ev)
                    && e@ == ev,
            },
    {
        let ir = match IRGenerator::generate(table, &self.units) {
            Ok(ir) => ir,
            Err(e) => {
                return Err(e);
            },
        };
        let source_map = SourceMap::new(&self.src_units, &ir);
        let bytes = ir.to_bytes();
        Ok(
            AssemblerOutput {
                ast: Some(self.units),
                ir: Some(ir),
                bytes: Some(bytes),
                source_map: Some(source_map),
            },
        )
    }
}

} // verus!
