use vstd::prelude::*;

verus! {

/// The little-endian value of the `n` bytes of `b` starting at `i`.
pub open spec fn le_at(b: Seq<u8>, i: int, n: nat) -> nat
    decreases n,
{
    if n == 0 {
        0
    } else {
        (b[i] + 256 * le_at(b, i + 1, (n - 1) as nat)) as nat
    }
}

/// A four-byte little-endian value fits in 32 bits.
pub proof fn lemma_le4_bound(b: Seq<u8>, i: int)
    ensures
        le_at(b, i, 4) < 0x100000000,
{
    reveal_with_fuel(le_at, 5);
}

/// Reads a `u16` stored little-endian at `pos`.
pub fn read_u16_le(b: &Vec<u8>, pos: usize) -> (r: u16)
    requires
        pos + 2 <= b@.len(),
    ensures
        r == le_at(b@, pos as int, 2),
{
    let n: usize = b.len();
    let b0 = b[pos] as u16;
    let b1 = b[pos + 1] as u16;
    proof {
        reveal_with_fuel(le_at, 3);
    }
    b0 + b1 * 256
}

/// Reads a `u32` stored little-endian at `pos`.
pub fn read_u32_le(b: &Vec<u8>, pos: usize) -> (r: u32)
    requires
        pos + 4 <= b@.len(),
    ensures
        r == le_at(b@, pos as int, 4),
{
    let n: usize = b.len();
    let b0 = b[pos] as u32;
    let b1 = b[pos + 1] as u32;
    let b2 = b[pos + 2] as u32;
    let b3 = b[pos + 3] as u32;
    proof {
        reveal_with_fuel(le_at, 5);
    }
    b0 + 256 * (b1 + 256 * (b2 + 256 * b3))
}

/// Reads an `i32` stored little-endian at `pos` (two's complement).
pub fn read_i32_le(b: &Vec<u8>, pos: usize) -> (r: i32)
    requires
        pos + 4 <= b@.len(),
    ensures
        r == le_at(b@, pos as int, 4) as u32 as i32,
{
    read_u32_le(b, pos) as i32
}

/// Reads a `u64` stored little-endian at `pos`.
pub fn read_u64_le(b: &Vec<u8>, pos: usize) -> (r: u64)
    requires
        pos + 8 <= b@.len(),
    ensures
        r == le_at(b@, pos as int, 8),
{
    let n: usize = b.len();
    let lo = read_u32_le(b, pos) as u64;
    let hi = read_u32_le(b, pos + 4) as u64;
    proof {
        lemma_le4_bound(b@, pos as int);
        lemma_le4_bound(b@, pos + 4);
        lemma_le_split(b@, pos as int);
    }
    lo + hi * 0x100000000
}

/// Splitting an 8-byte little-endian read into two 4-byte halves.
proof fn lemma_le_split(b: Seq<u8>, i: int)
    ensures
        le_at(b, i, 8) == le_at(b, i, 4) + 0x100000000 * le_at(b, i + 4, 4),
{
    reveal_with_fuel(le_at, 9);
}

/// Whether the bytes open a BGZF member: a gzip header (magic bytes and
/// the deflate method) whose flags carry the extra-field bit that BGZF
/// uses for its block-size subfield.
pub open spec fn spec_is_bgzf_magic(b: Seq<u8>) -> bool {
    b.len() >= 4 && b[0] == 0x1f && b[1] == 0x8b && b[2] == 8 && b[3] & 4 == 4
}

/// Decides whether the bytes open a BGZF member.
pub fn is_bgzf_magic(b: &Vec<u8>) -> (r: bool)
    ensures
        r == spec_is_bgzf_magic(b@),
{
    let n = b.len();
    if n < 4 {
        return false;
    }
    b[0] == 0x1f && b[1] == 0x8b && b[2] == 8 && b[3] & 4 == 4
}

/// The characters that a run of ASCII bytes denotes, one per byte.
pub open spec fn bytes_to_chars(s: Seq<u8>) -> Seq<char> {
    s.map_values(|b: u8| b as char)
}

/// Relies on `String::from_utf8`: ASCII bytes are valid UTF-8 and decode to
/// one character per byte.
#[verifier::external_body]
pub fn ascii_string(b: &Vec<u8>) -> (r: Option<String>)
    ensures
        (forall|i: int| 0 <= i < b@.len() ==> b@[i] < 128) ==> (match r {
            Some(s) => s@ == bytes_to_chars(b@),
            None => false,
        }),
{
    String::from_utf8(b.clone()).ok()
}

} // verus!
