//! The address-to-source map: one entry per instruction, mapping its
//! resolved output address back to where it came from in the source text.
//! The core defines only the mapping; callers serialize it however they
//! wish.

use vstd::prelude::*;

use crate::ir::{IRBlockV, IRChunk, IRChunkV, IROpV, IR};
use crate::src_tag::{spec_row_col, SrcTag};
use crate::src_unit::{SrcUnit, SrcUnits};

verus! {

/// One map entry: the source unit and character offset an instruction came
/// from, its 1-based source line, and its resolved output address.
#[derive(Debug, Clone, Copy, PartialEq, Eq, Structural)]
pub struct SourceMapEntry {
    pub unit: usize,
    pub offset: usize,
    pub line: usize,
    pub address: u16,
}

/// The address-to-source index of one assembly, in program order.
#[derive(Debug)]
pub struct SourceMap {
    pub entries: Vec<SourceMapEntry>,
}

/// Whether a tag points into a known unit, at an offset its source can hold.
pub open spec fn spec_tag_valid(tag: SrcTag, units: Seq<SrcUnit>) -> bool {
    &&& tag.unit < units.len()
    &&& tag.offset <= units[tag.unit as int].source@.len()
    &&& tag.offset < usize::MAX
}

/// Whether every instruction tag of the program points into the units.
pub open spec fn spec_map_tags_valid(blocks: Seq<IRBlockV>, units: Seq<SrcUnit>) -> bool {
    forall|i: int, j: int|
        0 <= i < blocks.len() && 0 <= j < blocks[i].chunks.len() ==> match #[trigger] blocks[i].chunks[j] {
            IRChunkV::Op(op) => spec_tag_valid(op.tag, units),
            _ => true,
        }
}

/// The map entry of one instruction: its tag, the 1-based line that offset
/// falls on, and its resolved address.
pub open spec fn spec_op_entry(op: IROpV, units: Seq<SrcUnit>) -> SourceMapEntry {
    SourceMapEntry {
        unit: op.tag.unit,
        offset: op.tag.offset,
        line: spec_row_col(units[op.tag.unit as int].source@, op.tag.offset as int).0 as usize,
        address: op.position,
    }
}

/// The entries one chunk contributes: instructions one each, anything else
/// none.
pub open spec fn spec_chunk_entries(c: IRChunkV, units: Seq<SrcUnit>) -> Seq<SourceMapEntry> {
    match c {
        IRChunkV::Op(op) => seq![spec_op_entry(op, units)],
        _ => Seq::<SourceMapEntry>::empty(),
    }
}

/// The entries of a chunk sequence, in order.
pub open spec fn spec_chunks_entries(chunks: Seq<IRChunkV>, units: Seq<SrcUnit>) -> Seq<
    SourceMapEntry,
>
    decreases chunks.len(),
{
    if chunks.len() == 0 {
        Seq::<SourceMapEntry>::empty()
    } else {
        spec_chunks_entries(chunks.drop_last(), units) + spec_chunk_entries(chunks.last(), units)
    }
}

/// The entries of the whole program, in block order.
pub open spec fn spec_map_entries(blocks: Seq<IRBlockV>, units: Seq<SrcUnit>) -> Seq<
    SourceMapEntry,
>
    decreases blocks.len(),
{
    if blocks.len() == 0 {
        Seq::<SourceMapEntry>::empty()
    } else {
        spec_map_entries(blocks.drop_last(), units) + spec_chunks_entries(
            blocks.last().chunks,
            units,
        )
    }
}

/// Extending a chunk prefix by one chunk appends its entries.
proof fn lemma_chunks_entries_take_succ(chunks: Seq<IRChunkV>, units: Seq<SrcUnit>, j: int)
    requires
        0 <= j < chunks.len(),
    ensures
        spec_chunks_entries(chunks.take(j + 1), units) == spec_chunks_entries(
            chunks.take(j),
            units,
        ) + spec_chunk_entries(chunks[j], units),
{
    assert(chunks.take(j + 1).drop_last() =~= chunks.take(j));
    assert(chunks.take(j + 1).last() == chunks[j]);
}

/// Extending a block prefix by one block appends its entries.
proof fn lemma_map_entries_take_succ(blocks: Seq<IRBlockV>, units: Seq<SrcUnit>, j: int)
    requires
        0 <= j < blocks.len(),
    ensures
        spec_map_entries(blocks.take(j + 1), units) == spec_map_entries(blocks.take(j), units)
            + spec_chunks_entries(blocks[j].chunks, units),
{
    assert(blocks.take(j + 1).drop_last() =~= blocks.take(j));
    assert(blocks.take(j + 1).last() == blocks[j]);
}

impl SourceMap {
    /// Walks the resolved program and builds its address-to-source index:
    /// one entry per instruction chunk, in program order.
    pub fn new(src_units: &SrcUnits, ir: &IR) -> (r: SourceMap)
        requires
            spec_map_tags_valid(ir@, src_units@),
        ensures
            r.entries@ == spec_map_entries(ir@, src_units@),
    {
        let ghost bv = ir@;
        let ghost units = src_units@;
        let n = ir.blocks.len();
        let mut entries: Vec<SourceMapEntry> = Vec::new();
        let mut bi: usize = 0;
        proof {
            assert(entries@ =~= spec_map_entries(bv.take(0), units));
        }
        while bi < n
            invariant
                n == ir.blocks@.len(),
                bv == ir@,
                units == src_units@,
                spec_map_tags_valid(bv, units),
                bi <= n,
                entries@ == spec_map_entries(bv.take(bi as int), units),
            decreases n - bi,
        {
            proof {
                assert(ir.blocks@[bi as int]@ == bv[bi as int]);
                lemma_map_entries_take_succ(bv, units, bi as int);
            }
            let block = &ir.blocks[bi];
            let ghost chunksv = block@.chunks;
            let ghost mid = entries@;
            let num_chunks = block.chunks.len();
            let mut ci: usize = 0;
            proof {
                assert(spec_chunks_entries(chunksv.take(0), units) =~= Seq::<
                    SourceMapEntry,
                >::empty());
                assert(mid + spec_chunks_entries(chunksv.take(0), units) =~= mid);
            }
            while ci < num_chunks
                invariant
                    n == ir.blocks@.len(),
                    bv == ir@,
                    units == src_units@,
                    spec_map_tags_valid(bv, units),
                    bi < n,
                    chunksv == bv[bi as int].chunks,
                    num_chunks == block.chunks@.len(),
                    block == &ir.blocks@[bi as int],
                    ci <= num_chunks,
                    entries@ == mid + spec_chunks_entries(chunksv.take(ci as int), units),
                decreases num_chunks - ci,
            {
                proof {
                    assert(block.chunks@[ci as int]@ == chunksv[ci as int]);
                    lemma_chunks_entries_take_succ(chunksv, units, ci as int);
                }
                if let IRChunk::Op(op) = &block.chunks[ci] {
                    let rc = op.tag.row_col(src_units.source(op.tag.unit).as_str());
                    entries.push(
                        SourceMapEntry {
                            unit: op.tag.unit,
                            offset: op.tag.offset,
                            line: rc.0,
                            address: op.position,
                        },
                    );
                    proof {
                        assert(entries@ =~= mid + spec_chunks_entries(
                            chunksv.take(ci + 1),
                            units,
                        ));
                    }
                }
                ci = ci + 1;
            }
            proof {
                assert(chunksv.take(num_chunks as int) =~= chunksv);
            }
            bi = bi + 1;
        }
        proof {
            assert(bv.take(n as int) =~= bv);
        }
        SourceMap { entries }
    }
}

} // verus!
