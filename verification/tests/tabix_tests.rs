use sandman::tabix::{Reader, region_bins, Chunk};
use sandman::voffset::{vo_split, vo_compose, chunk_plan, slice_bounds, clip_append};
use sandman::codec::{read_u16_le, read_u32_le, read_i32_le, read_u64_le};
use sandman::store::TidStore;
use sandman::error::Error;

fn le32(v: i32) -> Vec<u8> {
    v.to_le_bytes().to_vec()
}

fn le32u(v: u32) -> Vec<u8> {
    v.to_le_bytes().to_vec()
}

fn le64u(v: u64) -> Vec<u8> {
    v.to_le_bytes().to_vec()
}

/// Builds the decompressed bytes of a one-reference tabix index with one
/// bin holding the given chunks.
fn tbi_bytes(name: &str, bin: u32, chunks: &[(u64, u64)]) -> Vec<u8> {
    let mut b: Vec<u8> = Vec::new();
    b.extend_from_slice(b"TBI\x01");
    b.extend_from_slice(&le32(1)); // n_ref
    b.extend_from_slice(&le32(0)); // format
    b.extend_from_slice(&le32(1)); // col_seq
    b.extend_from_slice(&le32(2)); // col_beg
    b.extend_from_slice(&le32(3)); // col_end
    b.extend_from_slice(&le32(35)); // meta
    b.extend_from_slice(&le32(0)); // skip
    let mut names: Vec<u8> = name.as_bytes().to_vec();
    names.push(0);
    b.extend_from_slice(&le32(names.len() as i32)); // l_nm
    b.extend_from_slice(&names);
    b.extend_from_slice(&le32(1)); // n_bin
    b.extend_from_slice(&le32u(bin));
    b.extend_from_slice(&le32(chunks.len() as i32)); // n_chunk
    for &(beg, end) in chunks {
        b.extend_from_slice(&le64u(beg));
        b.extend_from_slice(&le64u(end));
    }
    b.extend_from_slice(&le32(0)); // n_intv
    b
}

#[test]
fn little_endian_readers() {
    let b: Vec<u8> = vec![0x78, 0x56, 0x34, 0x12, 0xff, 0xff, 0xff, 0xff];
    assert_eq!(read_u16_le(&b, 0), 0x5678);
    assert_eq!(read_u32_le(&b, 0), 0x12345678);
    assert_eq!(read_i32_le(&b, 4), -1);
    assert_eq!(read_u64_le(&b, 0), 0xffffffff_12345678);
}

#[test]
fn loads_a_small_index() {
    let bytes = tbi_bytes("chr1", 4681, &[(0, 100)]);
    let t = Reader::from_bytes("x.tbi", &bytes).unwrap();
    assert_eq!(t.header.n_ref, 1);
    assert_eq!(t.header.col_seq, 1);
    assert_eq!(t.header.meta, 35);
    assert_eq!(t.seqnames.len(), 1);
    assert_eq!(t.seqnames[0], "chr1");
    assert_eq!(t.ref_indices.len(), 1);
    assert_eq!(t.ref_indices[0].bins.len(), 1);
    assert_eq!(t.ref_indices[0].bins[0].0, 4681);
    assert_eq!(t.ref_indices[0].bins[0].1.chunks, vec![Chunk { beg: 0, end: 100 }]);
}

#[test]
fn truncated_index_is_rejected() {
    let mut bytes = tbi_bytes("chr1", 4681, &[(0, 100)]);
    bytes.truncate(bytes.len() - 5);
    match Reader::from_bytes("y.tbi", &bytes) {
        Err(Error::TabixFormat(n)) => assert_eq!(n, "y.tbi"),
        other => panic!("expected a tabix format error, got {:?}", other),
    }
    assert!(matches!(Reader::from_bytes("z", &vec![1, 2, 3]), Err(Error::TabixFormat(_))));
}

#[test]
fn negative_count_is_rejected() {
    let mut bytes = tbi_bytes("chr1", 4681, &[(0, 100)]);
    // overwrite n_ref with a negative count
    bytes[4..8].copy_from_slice(&(-1i32).to_le_bytes());
    assert!(matches!(Reader::from_bytes("n", &bytes), Err(Error::TabixFormat(_))));
}

#[test]
fn bins_for_a_small_region() {
    // one bin per level for a range inside the first 16 kb window
    assert_eq!(region_bins(25, 105), vec![0, 1, 9, 73, 585, 4681]);
}

#[test]
fn bins_for_an_empty_coordinate() {
    // end == 0 is treated as covering position 0
    assert_eq!(region_bins(0, 0), vec![0, 1, 9, 73, 585, 4681]);
}

#[test]
fn bins_crossing_a_window() {
    // a range crossing one 16 kb boundary takes two level-five bins
    let bins = region_bins(16000, 17000);
    assert_eq!(bins, vec![0, 1, 9, 73, 585, 4681, 4682]);
}

#[test]
fn bins_beyond_the_limit() {
    assert_eq!(region_bins(1 << 29, (1 << 29) + 10), Vec::<u32>::new());
}

#[test]
fn offsets_lookup() {
    let bytes = tbi_bytes("chr1", 4681, &[(7, 99)]);
    let t = Reader::from_bytes("x.tbi", &bytes).unwrap();
    let all = t.offsets_for_tid("chr1").unwrap();
    assert_eq!(all, vec![Chunk { beg: 7, end: 99 }]);
    assert!(t.offsets_for_tid("chrX").is_none());
    let some = t.offsets_for_tid_region("chr1", 25, 105).unwrap();
    assert_eq!(some, vec![Chunk { beg: 7, end: 99 }]);
    // a bin that the region does not touch contributes nothing
    let far = tbi_bytes("chr1", 9999, &[(7, 99)]);
    let t2 = Reader::from_bytes("x.tbi", &far).unwrap();
    assert_eq!(t2.offsets_for_tid_region("chr1", 25, 105).unwrap(), Vec::<Chunk>::new());
}

#[test]
fn virtual_offsets_split_and_compose() {
    let vo = vo_compose(3, 17);
    assert_eq!(vo, 3 * 0x10000 + 17);
    assert_eq!(vo_split(vo), (3, 17));
    assert_eq!(vo_split(0xffff), (0, 0xffff));
}

#[test]
fn chunk_plans() {
    assert!(chunk_plan(&Chunk { beg: 9, end: 9 }).is_none());
    assert!(chunk_plan(&Chunk { beg: 10, end: 9 }).is_none());
    let p = chunk_plan(&Chunk { beg: 5, end: 0x20007 }).unwrap();
    assert_eq!(p.first_block, 0);
    assert_eq!(p.last_block, 2);
    assert_eq!(p.inner_lo, 5);
    assert_eq!(p.inner_hi, 7);
    assert_eq!(slice_bounds(&p, 0), (5, u64::MAX));
    assert_eq!(slice_bounds(&p, 1), (0, u64::MAX));
    assert_eq!(slice_bounds(&p, 2), (0, 7));
}

#[test]
fn clipping_blocks() {
    let block: Vec<u8> = vec![10, 11, 12, 13, 14];
    let mut out: Vec<u8> = Vec::new();
    clip_append(&block, 1, 3, &mut out);
    assert_eq!(out, vec![11, 12]);
    // an unbounded upper end is clamped by the block length
    clip_append(&block, 3, u64::MAX, &mut out);
    assert_eq!(out, vec![11, 12, 13, 14]);
    // an empty window appends nothing
    clip_append(&block, 4, 2, &mut out);
    assert_eq!(out, vec![11, 12, 13, 14]);
}

#[test]
fn bgzf_magic_detection() {
    assert!(sandman::codec::is_bgzf_magic(&vec![0x1f, 0x8b, 8, 4, 0, 0]));
    assert!(!sandman::codec::is_bgzf_magic(&vec![0x1f, 0x8b, 8, 0, 0, 0]));
    assert!(!sandman::codec::is_bgzf_magic(&vec![0x1f, 0x8b]));
    assert!(!sandman::codec::is_bgzf_magic(&"chr1\t1\t2\n".as_bytes().to_vec()));
}

#[test]
fn store_round_trip() {
    let mut s = TidStore::new();
    assert_eq!(s.len(), 0);
    let a = s.intern("chr1");
    let b = s.intern("chr2");
    let a2 = s.intern("chr1");
    assert_eq!(a, a2);
    assert_ne!(a, b);
    assert_eq!(s.len(), 2);
    assert_eq!(s.resolve(a).as_deref(), Some("chr1"));
    assert_eq!(s.resolve(b).as_deref(), Some("chr2"));
    assert_eq!(s.resolve(99), None);
    assert_eq!(s.find("chr2"), Some(b));
    assert_eq!(s.find("chr3"), None);
}
