use vstd::prelude::*;

use crate::tabix::Chunk;

verus! {

/// The compressed-file offset of the block a virtual offset points into:
/// its upper 48 bits.
pub open spec fn vo_block(vo: u64) -> int {
    vo as int / 0x10000
}

/// The byte offset inside the decompressed block: the lower 16 bits.
pub open spec fn vo_inner(vo: u64) -> int {
    vo as int % 0x10000
}

/// Splits a virtual offset into compressed block offset and inner offset.
pub fn vo_split(vo: u64) -> (r: (u64, u64))
    ensures
        r.0 == vo_block(vo),
        r.1 == vo_inner(vo),
{
    (vo / 0x10000, vo % 0x10000)
}

/// Composes a virtual offset from block offset and inner offset.
pub fn vo_compose(block: u64, inner: u64) -> (r: u64)
    requires
        block < 0x1000000000000,
        inner < 0x10000,
    ensures
        r == block * 0x10000 + inner,
        vo_block(r) == block,
        vo_inner(r) == inner,
{
    proof {
        assert(block * 0x10000 + inner < 0x10000000000000000) by (nonlinear_arith)
            requires
                block < 0x1000000000000,
                inner < 0x10000,
        ;
        assert((block * 0x10000 + inner) / 0x10000 == block && (block * 0x10000 + inner) % 0x10000
            == inner) by (nonlinear_arith)
            requires
                inner < 0x10000,
                block >= 0,
                inner >= 0,
        ;
    }
    block * 0x10000 + inner
}

/// The read plan of one chunk: the compressed offsets of its first and last
/// blocks and the inner bounds that apply inside them.
#[derive(Debug, Clone, Copy, PartialEq, Eq, Structural)]
pub struct ChunkPlan {
    pub first_block: u64,
    pub last_block: u64,
    pub inner_lo: u64,
    pub inner_hi: u64,
}

/// The plan of a chunk: empty (`None`) when the range is empty, else the
/// block span with the chunk's inner bounds.
pub open spec fn spec_chunk_plan(c: Chunk) -> Option<ChunkPlan> {
    if c.beg >= c.end {
        None
    } else {
        Some(
            ChunkPlan {
                first_block: vo_block(c.beg) as u64,
                last_block: vo_block(c.end) as u64,
                inner_lo: vo_inner(c.beg) as u64,
                inner_hi: vo_inner(c.end) as u64,
            },
        )
    }
}

/// Derives the read plan of one chunk.
pub fn chunk_plan(c: &Chunk) -> (r: Option<ChunkPlan>)
    ensures
        r == spec_chunk_plan(*c),
        r matches Some(p) ==> p.first_block <= p.last_block,
{
    if c.beg >= c.end {
        None
    } else {
        let (fb, lo) = vo_split(c.beg);
        let (lb, hi) = vo_split(c.end);
        proof {
            assert(vo_block(c.beg) <= vo_block(c.end)) by (nonlinear_arith)
                requires
                    c.beg < c.end,
            ;
        }
        Some(ChunkPlan { first_block: fb, last_block: lb, inner_lo: lo, inner_hi: hi })
    }
}

/// The inner byte bounds that apply to the block at compressed offset
/// `block`: the chunk's own bounds at its edge blocks, the whole block
/// in between (an unbounded upper end is clamped at read time).
pub open spec fn spec_slice_bounds(p: ChunkPlan, block: u64) -> (u64, u64) {
    (
        if block == p.first_block {
            p.inner_lo
        } else {
            0
        },
        if block == p.last_block {
            p.inner_hi
        } else {
            u64::MAX
        },
    )
}

/// The inner bounds to clip the block at `block` with.
pub fn slice_bounds(p: &ChunkPlan, block: u64) -> (r: (u64, u64))
    ensures
        r == spec_slice_bounds(*p, block),
{
    let lo = if block == p.first_block {
        p.inner_lo
    } else {
        0
    };
    let hi = if block == p.last_block {
        p.inner_hi
    } else {
        u64::MAX
    };
    (lo, hi)
}

/// The bytes of a decompressed block that fall inside `[lo, hi)`, both
/// bounds clamped to the block's length.
pub open spec fn spec_clipped(block: Seq<u8>, lo: int, hi: int) -> Seq<u8> {
    let l = if lo <= block.len() {
        lo
    } else {
        block.len() as int
    };
    let h = if hi <= block.len() {
        hi
    } else {
        block.len() as int
    };
    if l < h {
        block.subrange(l, h)
    } else {
        Seq::empty()
    }
}

/// Appends the bytes of `block` inside `[lo, hi)` to `out`, clamping both
/// bounds to the block's length.
pub fn clip_append(block: &Vec<u8>, lo: u64, hi: u64, out: &mut Vec<u8>)
    ensures
        final(out)@ == old(out)@ + spec_clipped(block@, lo as int, hi as int),
{
    let n = block.len();
    let l: usize = if lo <= n as u64 {
        lo as usize
    } else {
        n
    };
    let h: usize = if hi <= n as u64 {
        hi as usize
    } else {
        n
    };
    if l >= h {
        proof {
            assert(out@ =~= old(out)@ + spec_clipped(block@, lo as int, hi as int));
        }
        return ;
    }
    let mut k = l;
    while k < h
        invariant
            l <= k <= h <= n,
            n == block@.len(),
            out@ =~= old(out)@ + block@.subrange(l as int, k as int),
        decreases h - k,
    {
        out.push(block[k]);
        proof {
            assert(block@.subrange(l as int, k + 1) =~= block@.subrange(l as int, k as int).push(
                block@[k as int],
            ));
            assert(out@ =~= old(out)@ + block@.subrange(l as int, k + 1));
        }
        k = k + 1;
    }
    proof {
        assert(block@.subrange(l as int, h as int) =~= spec_clipped(block@, lo as int, hi as int));
    }
}

} // verus!
