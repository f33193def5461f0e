use vstd::prelude::*;

use crate::codec::{le_at, bytes_to_chars, read_u32_le, read_u64_le, read_i32_le, ascii_string};
use crate::error::Error;
use crate::store::{has_name, name_index};

verus! {

/// The fixed header of a tabix index: reference count, format flags and the
/// column mapping the index was built with.
#[derive(Debug, Clone, Copy, PartialEq, Eq, Structural)]
pub struct Header {
    pub n_ref: i32,
    pub format: i32,
    pub col_seq: i32,
    pub col_beg: i32,
    pub col_end: i32,
    pub meta: i32,
    pub skip: i32,
}

/// A half-open range `[beg, end)` of virtual file offsets.
#[derive(Debug, Clone, Copy, PartialEq, Eq, Structural)]
pub struct Chunk {
    pub beg: u64,
    pub end: u64,
}

/// The chunks filed under one bin.
#[derive(Debug)]
pub struct Region {
    pub chunks: Vec<Chunk>,
}

/// The binning index of one reference: bin number to chunk list, in file
/// order.
#[derive(Debug)]
pub struct Reference {
    pub bins: Vec<(u32, Region)>,
}

// ---------------------------------------------------------------------------
// Specification-level views of the binary format
// ---------------------------------------------------------------------------

/// The `u32` stored little-endian at `i`.
pub open spec fn le_u32v(b: Seq<u8>, i: int) -> u32 {
    le_at(b, i, 4) as u32
}

/// The `i32` stored little-endian at `i` (two's complement).
pub open spec fn le_i32v(b: Seq<u8>, i: int) -> int {
    if le_at(b, i, 4) < 0x80000000 {
        le_at(b, i, 4) as int
    } else {
        le_at(b, i, 4) - 0x100000000
    }
}

/// The `u64` stored little-endian at `i`.
pub open spec fn le_u64v(b: Seq<u8>, i: int) -> u64 {
    le_at(b, i, 8) as u64
}

/// Reading four bytes as a `u32` and reinterpreting as `i32` yields the
/// two's-complement value `le_i32v` describes.
pub proof fn lemma_le_i32(b: Seq<u8>, i: int)
    ensures
        (le_at(b, i, 4) as u32 as i32) as int == le_i32v(b, i),
{
    crate::codec::lemma_le4_bound(b, i);
    let x: u32 = le_at(b, i, 4) as u32;
    assert((x as i32) as int == if x < 0x80000000 {
        x as int
    } else {
        x as int - 0x100000000
    }) by (bit_vector);
}

/// One reference of the index at the specification level.
pub struct RefModel {
    pub bins: Seq<(u32, Seq<Chunk>)>,
}

/// A parsed tabix index at the specification level.
pub struct TbiModel {
    pub n_ref: int,
    pub format: int,
    pub col_seq: int,
    pub col_beg: int,
    pub col_end: int,
    pub meta: int,
    pub skip: int,
    pub names: Seq<Seq<char>>,
    pub refs: Seq<RefModel>,
}

/// Parses `n` chunks of 16 bytes each starting at `i`; returns them and the
/// position after them.
pub open spec fn parse_chunks(b: Seq<u8>, i: int, n: nat) -> Option<(Seq<Chunk>, int)>
    decreases n,
{
    if n == 0 {
        Some((Seq::empty(), i))
    } else if i + 16 > b.len() {
        None
    } else {
        let c = Chunk { beg: le_u64v(b, i), end: le_u64v(b, i + 8) };
        match parse_chunks(b, i + 16, (n - 1) as nat) {
            None => None,
            Some((rest, j)) => Some((Seq::empty().push(c) + rest, j)),
        }
    }
}

/// Parses `n` bins (bin number, chunk count, chunks) starting at `i`.
pub open spec fn parse_bins(b: Seq<u8>, i: int, n: nat) -> Option<(Seq<(u32, Seq<Chunk>)>, int)>
    decreases n,
{
    if n == 0 {
        Some((Seq::empty(), i))
    } else if i + 8 > b.len() {
        None
    } else {
        let bin = le_u32v(b, i);
        let n_chunk = le_i32v(b, i + 4);
        if n_chunk < 0 {
            None
        } else {
            match parse_chunks(b, i + 8, n_chunk as nat) {
                None => None,
                Some((chunks, j)) => match parse_bins(b, j, (n - 1) as nat) {
                    None => None,
                    Some((rest, k)) => Some((Seq::empty().push((bin, chunks)) + rest, k)),
                },
            }
        }
    }
}

/// Skips `n` linear-interval offsets of 8 bytes each.
pub open spec fn skip_intervals(b: Seq<u8>, i: int, n: nat) -> Option<int>
    decreases n,
{
    if n == 0 {
        Some(i)
    } else if i + 8 > b.len() {
        None
    } else {
        skip_intervals(b, i + 8, (n - 1) as nat)
    }
}

/// Parses `n` references (binning index plus linear index) starting at `i`.
pub open spec fn parse_refs(b: Seq<u8>, i: int, n: nat) -> Option<(Seq<RefModel>, int)>
    decreases n,
{
    if n == 0 {
        Some((Seq::empty(), i))
    } else if i + 4 > b.len() {
        None
    } else {
        let n_bin = le_i32v(b, i);
        if n_bin < 0 {
            None
        } else {
            match parse_bins(b, i + 4, n_bin as nat) {
                None => None,
                Some((bins, j)) => {
                    if j + 4 > b.len() {
                        None
                    } else {
                        let n_intv = le_i32v(b, j);
                        if n_intv < 0 {
                            None
                        } else {
                            match skip_intervals(b, j + 4, n_intv as nat) {
                                None => None,
                                Some(k) => match parse_refs(b, k, (n - 1) as nat) {
                                    None => None,
                                    Some((rest, m)) => Some(
                                        (Seq::empty().push(RefModel { bins }) + rest, m),
                                    ),
                                },
                            }
                        }
                    }
                },
            }
        }
    }
}

/// Whether `b` is a NUL byte, the separator of the name table.
pub open spec fn is_nul(b: u8) -> bool {
    b == 0
}

/// The names in a NUL-delimited byte region: maximal runs of non-NUL bytes.
pub open spec fn nul_tokens(s: Seq<u8>) -> Seq<Seq<u8>>
    decreases s.len(),
{
    if s.len() == 0 {
        Seq::empty()
    } else if is_nul(s[0]) {
        nul_tokens(s.skip(1))
    } else {
        let rest = nul_tokens(s.skip(1));
        if s.len() > 1 && !is_nul(s[1]) {
            Seq::empty().push(seq![s[0]] + rest[0]) + rest.skip(1)
        } else {
            Seq::empty().push(seq![s[0]]) + rest
        }
    }
}

/// The reference names of a name region, as character strings.
pub open spec fn spec_names(s: Seq<u8>) -> Seq<Seq<char>> {
    nul_tokens(s).map_values(|t: Seq<u8>| bytes_to_chars(t))
}

/// Parses a whole decompressed tabix index. `None` exactly on structurally
/// corrupt input: truncated data, negative counts, a name table that is not
/// ASCII, or a name count that does not match the reference count.
pub open spec fn parse_tbi(b: Seq<u8>) -> Option<TbiModel> {
    if b.len() < 36 {
        None
    } else {
        let n_ref = le_i32v(b, 4);
        let l_nm = le_i32v(b, 32);
        if n_ref < 0 || l_nm < 0 || 36 + l_nm > b.len() {
            None
        } else {
            let region = b.subrange(36, 36 + l_nm);
            if !(forall|i: int| 0 <= i < region.len() ==> region[i] < 128) {
                None
            } else {
                let names = spec_names(region);
                if names.len() != n_ref {
                    None
                } else {
                    match parse_refs(b, 36 + l_nm, n_ref as nat) {
                        None => None,
                        Some((refs, _)) => Some(
                            TbiModel {
                                n_ref,
                                format: le_i32v(b, 8),
                                col_seq: le_i32v(b, 12),
                                col_beg: le_i32v(b, 16),
                                col_end: le_i32v(b, 20),
                                meta: le_i32v(b, 24),
                                skip: le_i32v(b, 28),
                                names,
                                refs,
                            },
                        ),
                    }
                }
            }
        }
    }
}

// ---------------------------------------------------------------------------
// Views of the in-memory structures
// ---------------------------------------------------------------------------

/// The bins of a `Reference` as the specification sees them.
pub open spec fn bins_view(v: Seq<(u32, Region)>) -> Seq<(u32, Seq<Chunk>)> {
    v.map_values(|p: (u32, Region)| (p.0, p.1.chunks@))
}

/// A sequence of `Reference`s as the specification sees it.
pub open spec fn refs_view(v: Seq<Reference>) -> Seq<RefModel> {
    v.map_values(|r: Reference| RefModel { bins: bins_view(r.bins@) })
}

// ---------------------------------------------------------------------------
// Executable parsing
// ---------------------------------------------------------------------------

/// Reads `n` chunks starting at `pos`, exactly as `parse_chunks` describes.
fn parse_chunks_exec(b: &Vec<u8>, pos: usize, n: usize) -> (r: Result<(Vec<Chunk>, usize), ()>)
    requires
        pos <= b@.len(),
    ensures
        match r {
            Ok((v, j)) => {
                &&& parse_chunks(b@, pos as int, n as nat) == Some((v@, j as int))
                &&& pos <= j <= b@.len()
            },
            Err(()) => parse_chunks(b@, pos as int, n as nat) is None,
        },
{
    let blen = b.len();
    let mut chunks: Vec<Chunk> = Vec::new();
    let mut cpos = pos;
    let mut c: usize = 0;
    while c < n
        invariant
            pos <= cpos <= blen,
            blen == b@.len(),
            c <= n,
            match parse_chunks(b@, cpos as int, (n - c) as nat) {
                Some((rest, j)) => parse_chunks(b@, pos as int, n as nat) == Some(
                    (chunks@ + rest, j),
                ),
                None => parse_chunks(b@, pos as int, n as nat) is None,
            },
        decreases n - c,
    {
        if blen - cpos < 16 {
            return Err(());
        }
        let beg = read_u64_le(b, cpos);
        let end = read_u64_le(b, cpos + 8);
        let ck = Chunk { beg, end };
        proof {
            assert(ck == Chunk { beg: le_u64v(b@, cpos as int), end: le_u64v(b@, cpos + 8) });
            let (rest, j) = parse_chunks(b@, cpos + 16, (n - c - 1) as nat).unwrap();
            assert(chunks@ + (Seq::empty().push(ck) + rest) =~= chunks@.push(ck) + rest);
        }
        chunks.push(ck);
        cpos = cpos + 16;
        c = c + 1;
    }
    proof {
        assert(chunks@ + Seq::<Chunk>::empty() =~= chunks@);
    }
    Ok((chunks, cpos))
}

/// Reads `n` bins starting at `pos`, exactly as `parse_bins` describes.
fn parse_bins_exec(b: &Vec<u8>, pos: usize, n: usize) -> (r: Result<
    (Vec<(u32, Region)>, usize),
    (),
>)
    requires
        pos <= b@.len(),
    ensures
        match r {
            Ok((v, j)) => {
                &&& parse_bins(b@, pos as int, n as nat) == Some((bins_view(v@), j as int))
                &&& pos <= j <= b@.len()
            },
            Err(()) => parse_bins(b@, pos as int, n as nat) is None,
        },
{
    let blen = b.len();
    let mut bins: Vec<(u32, Region)> = Vec::new();
    let mut bpos = pos;
    let mut u: usize = 0;
    while u < n
        invariant
            pos <= bpos <= blen,
            blen == b@.len(),
            u <= n,
            match parse_bins(b@, bpos as int, (n - u) as nat) {
                Some((rest, j)) => parse_bins(b@, pos as int, n as nat) == Some(
                    (bins_view(bins@) + rest, j),
                ),
                None => parse_bins(b@, pos as int, n as nat) is None,
            },
        decreases n - u,
    {
        if blen - bpos < 8 {
            return Err(());
        }
        let bin = read_u32_le(b, bpos);
        let n_chunk_i = read_i32_le(b, bpos + 4);
        proof {
            crate::codec::lemma_le4_bound(b@, bpos as int);
            lemma_le_i32(b@, bpos + 4);
        }
        if n_chunk_i < 0 {
            return Err(());
        }
        let (chunks, j) = match parse_chunks_exec(b, bpos + 8, n_chunk_i as usize) {
            Ok(p) => p,
            Err(()) => {
                return Err(());
            },
        };
        let ghost prev = bins_view(bins@);
        proof {
            let (rest, k) = parse_bins(b@, j as int, (n - u - 1) as nat).unwrap();
            assert(prev + (Seq::empty().push((bin, chunks@)) + rest) =~= prev.push((bin, chunks@))
                + rest);
        }
        bins.push((bin, Region { chunks }));
        proof {
            assert(bins_view(bins@) =~= prev.push((bin, chunks@)));
        }
        bpos = j;
        u = u + 1;
    }
    proof {
        assert(bins_view(bins@) + Seq::<(u32, Seq<Chunk>)>::empty() =~= bins_view(bins@));
    }
    Ok((bins, bpos))
}

/// Skips `n` linear-interval entries, exactly as `skip_intervals` describes.
fn skip_intervals_exec(b: &Vec<u8>, pos: usize, n: usize) -> (r: Result<usize, ()>)
    requires
        pos <= b@.len(),
    ensures
        match r {
            Ok(j) => skip_intervals(b@, pos as int, n as nat) == Some(j as int) && pos <= j
                <= b@.len(),
            Err(()) => skip_intervals(b@, pos as int, n as nat) is None,
        },
{
    let blen = b.len();
    let mut ipos = pos;
    let mut v: usize = 0;
    while v < n
        invariant
            pos <= ipos <= blen,
            blen == b@.len(),
            v <= n,
            skip_intervals(b@, pos as int, n as nat) == skip_intervals(
                b@,
                ipos as int,
                (n - v) as nat,
            ),
        decreases n - v,
    {
        if blen - ipos < 8 {
            return Err(());
        }
        ipos = ipos + 8;
        v = v + 1;
    }
    Ok(ipos)
}

/// Reads `n` references starting at `pos`, exactly as `parse_refs` describes.
fn parse_refs_exec(b: &Vec<u8>, pos: usize, n: usize) -> (r: Result<(Vec<Reference>, usize), ()>)
    requires
        pos <= b@.len(),
    ensures
        match r {
            Ok((v, j)) => {
                &&& parse_refs(b@, pos as int, n as nat) == Some((refs_view(v@), j as int))
                &&& pos <= j <= b@.len()
                &&& v@.len() == n
            },
            Err(()) => parse_refs(b@, pos as int, n as nat) is None,
        },
{
    let blen = b.len();
    let mut refs: Vec<Reference> = Vec::new();
    let mut rpos = pos;
    let mut t: usize = 0;
    while t < n
        invariant
            pos <= rpos <= blen,
            blen == b@.len(),
            t <= n,
            refs@.len() == t,
            match parse_refs(b@, rpos as int, (n - t) as nat) {
                Some((rest, j)) => parse_refs(b@, pos as int, n as nat) == Some(
                    (refs_view(refs@) + rest, j),
                ),
                None => parse_refs(b@, pos as int, n as nat) is None,
            },
        decreases n - t,
    {
        if blen - rpos < 4 {
            return Err(());
        }
        let n_bin_i = read_i32_le(b, rpos);
        proof {
            lemma_le_i32(b@, rpos as int);
        }
        if n_bin_i < 0 {
            return Err(());
        }
        let (bins, j) = match parse_bins_exec(b, rpos + 4, n_bin_i as usize) {
            Ok(p) => p,
            Err(()) => {
                return Err(());
            },
        };
        if blen - j < 4 {
            return Err(());
        }
        let n_intv_i = read_i32_le(b, j);
        proof {
            lemma_le_i32(b@, j as int);
        }
        if n_intv_i < 0 {
            return Err(());
        }
        let k = match skip_intervals_exec(b, j + 4, n_intv_i as usize) {
            Ok(k) => k,
            Err(()) => {
                return Err(());
            },
        };
        let ghost prev = refs_view(refs@);
        proof {
            let (rest, m) = parse_refs(b@, k as int, (n - t - 1) as nat).unwrap();
            assert(prev + (Seq::empty().push(RefModel { bins: bins_view(bins@) }) + rest)
                =~= prev.push(RefModel { bins: bins_view(bins@) }) + rest);
        }
        refs.push(Reference { bins });
        proof {
            assert(refs_view(refs@) =~= prev.push(RefModel { bins: bins_view(bins@) }));
        }
        rpos = k;
        t = t + 1;
    }
    proof {
        assert(refs_view(refs@) + Seq::<RefModel>::empty() =~= refs_view(refs@));
    }
    Ok((refs, rpos))
}

/// A name region starting with a non-NUL byte has a first name.
proof fn lemma_nul_head(s: Seq<u8>)
    requires
        s.len() > 0,
        !is_nul(s[0]),
    ensures
        nul_tokens(s).len() >= 1,
    decreases s.len(),
{
    if s.len() > 1 && !is_nul(s[1]) {
        lemma_nul_head(s.skip(1));
    }
}

/// Unfolds `nul_tokens` across one whole name ending at `j`.
proof fn lemma_nul_token(s: Seq<u8>, j: int)
    requires
        0 < j <= s.len(),
        forall|k: int| 0 <= k < j ==> !is_nul(#[trigger] s[k]),
        j < s.len() ==> is_nul(s[j]),
    ensures
        nul_tokens(s) == Seq::empty().push(s.subrange(0, j)) + nul_tokens(s.skip(j)),
    decreases s.len(),
{
    if j == 1 {
        if s.len() > 1 && !is_nul(s[1]) {
            assert(false);
        }
        assert(s.subrange(0, 1) =~= seq![s[0]]);
        assert(nul_tokens(s) =~= Seq::empty().push(s.subrange(0, 1)) + nul_tokens(s.skip(1)));
    } else {
        let t = s.skip(1);
        assert(forall|k: int| 0 <= k < j - 1 ==> !is_nul(#[trigger] t[k]));
        lemma_nul_token(t, j - 1);
        lemma_nul_head(t);
        assert(t.subrange(0, j - 1) =~= s.subrange(1, j));
        assert(t.skip(j - 1) =~= s.skip(j));
        assert(nul_tokens(t)[0] == s.subrange(1, j));
        assert(seq![s[0]] + s.subrange(1, j) =~= s.subrange(0, j));
        assert(nul_tokens(s) =~= Seq::empty().push(s.subrange(0, j)) + nul_tokens(s.skip(j)));
    }
}

/// Scans the NUL-delimited name table. Fails (`Err`) exactly when a name
/// byte is not ASCII.
fn parse_names_exec(b: &Vec<u8>, lo: usize, hi: usize) -> (r: Result<Vec<String>, ()>)
    requires
        lo <= hi <= b@.len(),
    ensures
        match r {
            Ok(v) => {
                &&& forall|i: int|
                    lo <= i < hi ==> #[trigger] b@[i] < 128
                &&& v.deep_view() == spec_names(b@.subrange(lo as int, hi as int))
            },
            Err(()) => !(forall|i: int|
                lo <= i < hi ==> #[trigger] b@[i] < 128),
        },
{
    let ghost region = b@.subrange(lo as int, hi as int);
    let mut names: Vec<String> = Vec::new();
    let mut k = lo;
    proof {
        assert(region.skip(0) =~= region);
        assert(names.deep_view() =~= Seq::<Seq<char>>::empty());
    }
    while k < hi
        invariant
            lo <= k <= hi <= b@.len(),
            region == b@.subrange(lo as int, hi as int),
            forall|i: int| lo <= i < k ==> #[trigger] b@[i] < 128,
            names.deep_view() + spec_names(region.skip(k - lo)) =~= spec_names(region),
        decreases hi - k,
    {
        if b[k] == 0 {
            proof {
                assert(region.skip(k - lo).skip(1) =~= region.skip(k + 1 - lo));
            }
            k = k + 1;
        } else {
            let start = k;
            let mut j = k + 1;
            while j < hi
                invariant_except_break
                    lo <= start < j <= hi <= b@.len(),
                    forall|i: int| start <= i < j ==> #[trigger] b@[i] != 0,
                ensures
                    lo <= start < j <= hi <= b@.len(),
                    forall|i: int| start <= i < j ==> #[trigger] b@[i] != 0,
                    j < hi ==> b@[j as int] == 0,
                decreases hi - j,
            {
                if b[j] == 0 {
                    break ;
                }
                j = j + 1;
            }
            let mut tmp: Vec<u8> = Vec::new();
            let mut m = start;
            while m < j
                invariant
                    lo <= start <= m <= j <= hi <= b@.len(),
                    tmp@ =~= b@.subrange(start as int, m as int),
                    forall|i: int| start <= i < m ==> #[trigger] b@[i] < 128,
                decreases j - m,
            {
                let byte = b[m];
                if byte >= 128 {
                    return Err(());
                }
                tmp.push(byte);
                proof {
                    assert(tmp@ =~= b@.subrange(start as int, m + 1));
                }
                m = m + 1;
            }
            let s = match ascii_string(&tmp) {
                Some(s) => s,
                None => {
                    proof {
                        assert(false);
                    }
                    return Err(());
                },
            };
            proof {
                let t = region.skip(start - lo);
                assert(forall|i: int| 0 <= i < j - start ==> t[i] == b@[i + start]);
                lemma_nul_token(t, j - start);
                assert(t.subrange(0, j - start) =~= b@.subrange(start as int, j as int));
                assert(t.skip(j - start) =~= region.skip(j - lo));
                assert(spec_names(t) =~= Seq::empty().push(
                    bytes_to_chars(b@.subrange(start as int, j as int)),
                ) + spec_names(region.skip(j - lo)));
                assert(s@ == bytes_to_chars(b@.subrange(start as int, j as int)));
            }
            let ghost prev = names.deep_view();
            names.push(s);
            proof {
                assert(names.deep_view() =~= prev.push(s@));
            }
            k = j;
        }
    }
    proof {
        assert(region.skip(hi - lo) =~= Seq::<u8>::empty());
    }
    Ok(names)
}

// ---------------------------------------------------------------------------
// The binning scheme
// ---------------------------------------------------------------------------

/// Coordinates at or beyond this bound (512 Mb) are outside the binning
/// scheme.
pub const MAX_POS: u32 = 0x20000000;

/// The consecutive bin numbers `off + lo ..= off + hi` (empty when `hi < lo`).
pub open spec fn bin_run(off: int, lo: int, hi: int) -> Seq<u32> {
    if hi < lo {
        Seq::empty()
    } else {
        Seq::new((hi - lo + 1) as nat, |i: int| (off + lo + i) as u32)
    }
}

/// The bins that can hold an interval overlapping `[start, end)`: the root
/// bin plus one run per level of the hierarchy.
pub open spec fn spec_region_bins(start: u32, end: u32) -> Seq<u32> {
    if start >= MAX_POS {
        Seq::empty()
    } else {
        let e0: int = if end > 0 {
            end - 1
        } else {
            0
        };
        let e: int = if e0 >= MAX_POS {
            MAX_POS - 1
        } else {
            e0
        };
        let s: int = start as int;
        seq![0u32] + bin_run(1, s / 0x4000000, e / 0x4000000) + bin_run(
            9,
            s / 0x800000,
            e / 0x800000,
        ) + bin_run(73, s / 0x100000, e / 0x100000) + bin_run(585, s / 0x20000, e / 0x20000)
            + bin_run(4681, s / 0x4000, e / 0x4000)
    }
}

/// Appends the bin numbers `off + lo ..= off + hi`.
fn push_run(bins: &mut Vec<u32>, off: u32, lo: u32, hi: u32)
    requires
        off + hi < 0x10000000,
    ensures
        final(bins)@ == old(bins)@ + bin_run(off as int, lo as int, hi as int),
{
    if lo > hi {
        proof {
            assert(bins@ =~= old(bins)@ + bin_run(off as int, lo as int, hi as int));
        }
        return ;
    }
    let mut k = lo;
    while k <= hi
        invariant
            lo <= k <= hi + 1,
            off + hi < 0x10000000,
            bins@ =~= old(bins)@ + bin_run(off as int, lo as int, k - 1),
        decreases hi + 1 - k,
    {
        bins.push(off + k);
        proof {
            assert(bins@ =~= old(bins)@ + bin_run(off as int, lo as int, k as int));
        }
        k = k + 1;
    }
}

/// Computes the candidate bins for the half-open interval `[start, end)`,
/// root bin first, levels in order, each level in ascending bin order.
pub fn region_bins(start: u32, end: u32) -> (r: Vec<u32>)
    ensures
        r@ == spec_region_bins(start, end),
{
    let mut bins: Vec<u32> = Vec::new();
    if start >= MAX_POS {
        proof {
            assert(bins@ =~= spec_region_bins(start, end));
        }
        return bins;
    }
    let mut e = if end > 0 {
        end - 1
    } else {
        0
    };
    if e >= MAX_POS {
        e = MAX_POS - 1;
    }
    bins.push(0);
    push_run(&mut bins, 1, start / 0x4000000, e / 0x4000000);
    push_run(&mut bins, 9, start / 0x800000, e / 0x800000);
    push_run(&mut bins, 73, start / 0x100000, e / 0x100000);
    push_run(&mut bins, 585, start / 0x20000, e / 0x20000);
    push_run(&mut bins, 4681, start / 0x4000, e / 0x4000);
    proof {
        assert(bins@ =~= spec_region_bins(start, end));
    }
    bins
}

// ---------------------------------------------------------------------------
// Chunk lookup
// ---------------------------------------------------------------------------

/// All chunks of one reference, in bin order.
pub open spec fn spec_all_chunks(bins: Seq<(u32, Seq<Chunk>)>) -> Seq<Chunk>
    decreases bins.len(),
{
    if bins.len() == 0 {
        Seq::empty()
    } else {
        bins[0].1 + spec_all_chunks(bins.skip(1))
    }
}

/// The chunk list of the first entry for `bin`, if any.
pub open spec fn lookup_bin(bins: Seq<(u32, Seq<Chunk>)>, bin: u32) -> Option<Seq<Chunk>>
    decreases bins.len(),
{
    if bins.len() == 0 {
        None
    } else if bins[0].0 == bin {
        Some(bins[0].1)
    } else {
        lookup_bin(bins.skip(1), bin)
    }
}

/// The chunks of a reference gathered over a list of candidate bins, in
/// list order; bins absent from the reference contribute nothing.
pub open spec fn spec_region_chunks(bins: Seq<(u32, Seq<Chunk>)>, list: Seq<u32>) -> Seq<Chunk>
    decreases list.len(),
{
    if list.len() == 0 {
        Seq::empty()
    } else {
        (match lookup_bin(bins, list[0]) {
            Some(c) => c,
            None => Seq::empty(),
        }) + spec_region_chunks(bins, list.skip(1))
    }
}

/// Appends every chunk of `src` to `out`, in order.
fn append_chunks(out: &mut Vec<Chunk>, src: &Vec<Chunk>)
    ensures
        final(out)@ == old(out)@ + src@,
{
    let n = src.len();
    let mut j: usize = 0;
    proof {
        assert(out@ =~= old(out)@ + src@.take(0));
    }
    while j < n
        invariant
            j <= n,
            n == src@.len(),
            out@ =~= old(out)@ + src@.take(j as int),
        decreases n - j,
    {
        out.push(src[j]);
        proof {
            assert(src@.take(j + 1) =~= src@.take(j as int).push(src@[j as int]));
            assert(out@ =~= old(out)@ + src@.take(j + 1));
        }
        j = j + 1;
    }
    proof {
        assert(src@.take(n as int) =~= src@);
    }
}

/// A loaded tabix index: header, reference names in file order, and one
/// binning index per reference.
#[derive(Debug)]
pub struct Reader {
    pub header: Header,
    pub seqnames: Vec<String>,
    pub ref_indices: Vec<Reference>,
}

impl Reader {
    /// Names and reference indices correspond one to one.
    pub open spec fn wf(self) -> bool {
        self.seqnames@.len() == self.ref_indices@.len()
    }

    /// Whether the loaded index agrees with the parse `m` of its bytes.
    pub open spec fn matches_model(self, m: TbiModel) -> bool {
        &&& self.header.n_ref == m.n_ref
        &&& self.header.format == m.format
        &&& self.header.col_seq == m.col_seq
        &&& self.header.col_beg == m.col_beg
        &&& self.header.col_end == m.col_end
        &&& self.header.meta == m.meta
        &&& self.header.skip == m.skip
        &&& self.seqnames.deep_view() == m.names
        &&& refs_view(self.ref_indices@) == m.refs
    }

    /// Loads a tabix index from its decompressed bytes. Succeeds exactly
    /// when the bytes parse, and then the loaded index is the parse.
    pub fn from_bytes(name: &str, b: &Vec<u8>) -> (r: Result<Reader, Error>)
        ensures
            match r {
                Ok(t) => {
                    &&& parse_tbi(b@) matches Some(m) && t.matches_model(m)
                    &&& t.wf()
                },
                Err(e) => {
                    &&& parse_tbi(b@) is None
                    &&& e matches Error::TabixFormat(n) && n@ == name@
                },
            },
    {
        let blen = b.len();
        if blen < 36 {
            return Err(Error::TabixFormat(String::from_str(name)));
        }
        let n_ref_i = read_i32_le(b, 4);
        let l_nm_i = read_i32_le(b, 32);
        proof {
            lemma_le_i32(b@, 4);
            lemma_le_i32(b@, 32);
        }
        if n_ref_i < 0 || l_nm_i < 0 {
            return Err(Error::TabixFormat(String::from_str(name)));
        }
        let l_nm = l_nm_i as usize;
        if blen - 36 < l_nm {
            return Err(Error::TabixFormat(String::from_str(name)));
        }
        let seqnames = match parse_names_exec(b, 36, 36 + l_nm) {
            Ok(v) => v,
            Err(()) => {
                proof {
                    let lnm = l_nm_i as int;
                    let region = b@.subrange(36, 36 + lnm);
                    assert(exists|i: int| 36 <= i < 36 + lnm && !(b@[i] < 128));
                    let w = choose|i: int| 36 <= i < 36 + lnm && !(b@[i] < 128);
                    assert(region[w - 36] == b@[w]);
                    assert(!(forall|i: int| 0 <= i < region.len() ==> region[i] < 128));
                }
                return Err(Error::TabixFormat(String::from_str(name)));
            },
        };
        proof {
            let region = b@.subrange(36, 36 + l_nm_i as int);
            assert(forall|i: int| 0 <= i < region.len() ==> #[trigger] region[i] == b@[i + 36]);
        }
        let n_ref = n_ref_i as usize;
        proof {
            assert(seqnames.deep_view().len() == seqnames@.len());
        }
        if seqnames.len() != n_ref {
            return Err(Error::TabixFormat(String::from_str(name)));
        }
        let (ref_indices, _) = match parse_refs_exec(b, 36 + l_nm, n_ref) {
            Ok(p) => p,
            Err(()) => {
                return Err(Error::TabixFormat(String::from_str(name)));
            },
        };
        let format = read_i32_le(b, 8);
        let col_seq = read_i32_le(b, 12);
        let col_beg = read_i32_le(b, 16);
        let col_end = read_i32_le(b, 20);
        let meta = read_i32_le(b, 24);
        let skip = read_i32_le(b, 28);
        proof {
            lemma_le_i32(b@, 8);
            lemma_le_i32(b@, 12);
            lemma_le_i32(b@, 16);
            lemma_le_i32(b@, 20);
            lemma_le_i32(b@, 24);
            lemma_le_i32(b@, 28);
        }
        Ok(
            Reader {
                header: Header { n_ref: n_ref_i, format, col_seq, col_beg, col_end, meta, skip },
                seqnames,
                ref_indices,
            },
        )
    }

    /// Finds the numeric id of a reference name: its position in the name
    /// table.
    pub fn find_tid_index(&self, tid: &str) -> (r: Option<usize>)
        ensures
            match r {
                Some(i) => {
                    &&& i < self.seqnames@.len()
                    &&& self.seqnames.deep_view()[i as int] == tid@
                    &&& i == name_index(self.seqnames.deep_view(), tid@)
                    &&& has_name(self.seqnames.deep_view(), tid@)
                },
                None => !has_name(self.seqnames.deep_view(), tid@),
            },
    {
        let n = self.seqnames.len();
        let ghost names = self.seqnames.deep_view();
        let mut i: usize = 0;
        proof {
            assert(names.skip(0) =~= names);
        }
        while i < n
            invariant
                i <= n,
                n == self.seqnames@.len(),
                names == self.seqnames.deep_view(),
                names.len() == n,
                forall|k: int| 0 <= k < i ==> names[k] != tid@,
                name_index(names.skip(i as int), tid@) + i == name_index(names, tid@),
            decreases n - i,
        {
            if crate::parser::str_eq(self.seqnames[i].as_str(), tid) {
                proof {
                    assert(names.skip(i as int)[0] == names[i as int]);
                }
                return Some(i);
            }
            proof {
                assert(names.skip(i as int)[0] == names[i as int]);
                assert(names.skip(i as int).skip(1) =~= names.skip(i + 1));
            }
            i = i + 1;
        }
        None
    }

    /// The union of all chunks of the reference named `tid`, in bin order;
    /// `None` when the name is absent from the index.
    pub fn offsets_for_tid(&self, tid: &str) -> (r: Option<Vec<Chunk>>)
        requires
            self.wf(),
        ensures
            match r {
                Some(v) => {
                    &&& has_name(self.seqnames.deep_view(), tid@)
                    &&& v@ == spec_all_chunks(
                        bins_view(
                            self.ref_indices@[name_index(self.seqnames.deep_view(), tid@)].bins@,
                        ),
                    )
                },
                None => !has_name(self.seqnames.deep_view(), tid@),
            },
    {
        let idx = match self.find_tid_index(tid) {
            Some(i) => i,
            None => {
                return None;
            },
        };
        let rf = &self.ref_indices[idx];
        let ghost bv = bins_view(rf.bins@);
        let nb = rf.bins.len();
        let mut out: Vec<Chunk> = Vec::new();
        let mut i: usize = 0;
        proof {
            assert(bv.skip(0) =~= bv);
        }
        while i < nb
            invariant
                i <= nb,
                nb == rf.bins@.len(),
                bv == bins_view(rf.bins@),
                bv.len() == nb,
                out@ + spec_all_chunks(bv.skip(i as int)) =~= spec_all_chunks(bv),
            decreases nb - i,
        {
            let ghost prev = out@;
            proof {
                assert(bv.skip(i as int)[0] == bv[i as int]);
                assert(bv.skip(i as int).skip(1) =~= bv.skip(i + 1));
            }
            append_chunks(&mut out, &rf.bins[i].1.chunks);
            proof {
                assert(out@ + spec_all_chunks(bv.skip(i + 1)) =~= prev + spec_all_chunks(
                    bv.skip(i as int),
                ));
            }
            i = i + 1;
        }
        proof {
            assert(bv.skip(nb as int) =~= Seq::<(u32, Seq<Chunk>)>::empty());
            assert(out@ + Seq::<Chunk>::empty() =~= out@);
        }
        Some(out)
    }

    /// Looks up the first entry for `bin` in a reference's bin list.
    fn lookup_bin_exec(rf: &Reference, bin: u32) -> (r: Option<usize>)
        ensures
            match r {
                Some(i) => {
                    &&& i < rf.bins@.len()
                    &&& rf.bins@[i as int].0 == bin
                    &&& lookup_bin(bins_view(rf.bins@), bin) == Some(rf.bins@[i as int].1.chunks@)
                },
                None => lookup_bin(bins_view(rf.bins@), bin) is None,
            },
    {
        let ghost bv = bins_view(rf.bins@);
        let n = rf.bins.len();
        let mut i: usize = 0;
        proof {
            assert(bv.skip(0) =~= bv);
        }
        while i < n
            invariant
                i <= n,
                n == rf.bins@.len(),
                bv == bins_view(rf.bins@),
                bv.len() == n,
                lookup_bin(bv.skip(i as int), bin) == lookup_bin(bv, bin),
                forall|k: int| 0 <= k < i ==> bv[k].0 != bin,
            decreases n - i,
        {
            proof {
                assert(bv.skip(i as int)[0] == bv[i as int]);
                assert(bv.skip(i as int).skip(1) =~= bv.skip(i + 1));
            }
            if rf.bins[i].0 == bin {
                return Some(i);
            }
            i = i + 1;
        }
        None
    }

    /// The chunks of the reference named `tid` gathered over the candidate
    /// bins of `[start, end)`; `None` when the name is absent.
    pub fn offsets_for_tid_region(&self, tid: &str, start: u32, end: u32) -> (r: Option<
        Vec<Chunk>,
    >)
        requires
            self.wf(),
        ensures
            match r {
                Some(v) => {
                    &&& has_name(self.seqnames.deep_view(), tid@)
                    &&& v@ == spec_region_chunks(
                        bins_view(
                            self.ref_indices@[name_index(self.seqnames.deep_view(), tid@)].bins@,
                        ),
                        spec_region_bins(start, end),
                    )
                },
                None => !has_name(self.seqnames.deep_view(), tid@),
            },
    {
        let idx = match self.find_tid_index(tid) {
            Some(i) => i,
            None => {
                return None;
            },
        };
        let rf = &self.ref_indices[idx];
        let ghost bv = bins_view(rf.bins@);
        let bins_list = region_bins(start, end);
        let nl = bins_list.len();
        let mut out: Vec<Chunk> = Vec::new();
        let mut i: usize = 0;
        proof {
            assert(bins_list@.skip(0) =~= bins_list@);
        }
        while i < nl
            invariant
                i <= nl,
                nl == bins_list@.len(),
                bv == bins_view(rf.bins@),
                out@ + spec_region_chunks(bv, bins_list@.skip(i as int)) =~= spec_region_chunks(
                    bv,
                    bins_list@,
                ),
            decreases nl - i,
        {
            let ghost tail = bins_list@.skip(i as int);
            proof {
                assert(tail[0] == bins_list@[i as int]);
                assert(tail.skip(1) =~= bins_list@.skip(i + 1));
            }
            let ghost prev = out@;
            match Self::lookup_bin_exec(rf, bins_list[i]) {
                Some(bidx) => {
                    append_chunks(&mut out, &rf.bins[bidx].1.chunks);
                },
                None => {
                },
            }
            proof {
                assert(out@ + spec_region_chunks(bv, bins_list@.skip(i + 1))
                    =~= prev + spec_region_chunks(bv, tail));
            }
            i = i + 1;
        }
        proof {
            assert(bins_list@.skip(nl as int) =~= Seq::<u32>::empty());
            assert(out@ + Seq::<Chunk>::empty() =~= out@);
        }
        Some(out)
    }
}

} // verus!
