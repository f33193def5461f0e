use sandman::reader::Reader;
use sandman::bed::{BedKind, Strand};
use sandman::record::BedExtra;
use sandman::error::Error;
use sandman::meta::BrowserMeta;
use sandman::voffset::{chunk_plan, slice_bounds, clip_append};

fn le32(v: i32) -> Vec<u8> {
    v.to_le_bytes().to_vec()
}

/// Builds the decompressed bytes of a one-reference tabix index with one
/// bin holding one chunk.
fn tbi_one_bin(name: &str, bin: u32, beg: u64, end: u64) -> Vec<u8> {
    let mut b: Vec<u8> = Vec::new();
    b.extend_from_slice(b"TBI\x01");
    b.extend_from_slice(&le32(1));
    b.extend_from_slice(&le32(0));
    b.extend_from_slice(&le32(1));
    b.extend_from_slice(&le32(2));
    b.extend_from_slice(&le32(3));
    b.extend_from_slice(&le32(35));
    b.extend_from_slice(&le32(0));
    let mut names: Vec<u8> = name.as_bytes().to_vec();
    names.push(0);
    b.extend_from_slice(&le32(names.len() as i32));
    b.extend_from_slice(&names);
    b.extend_from_slice(&le32(1));
    b.extend_from_slice(&bin.to_le_bytes());
    b.extend_from_slice(&le32(1));
    b.extend_from_slice(&beg.to_le_bytes());
    b.extend_from_slice(&end.to_le_bytes());
    b.extend_from_slice(&le32(0));
    b
}

#[test]
fn bed3_round_trip() {
    let content = "chr1\t10\t20\nchr1\t30\t40\nchr2\t5\t15\n".to_string();
    let mut rd = Reader::open("t.bed".to_string(), false, content, None).unwrap();
    assert_eq!(rd.format.kind, BedKind::Bed3);
    let expected = [("chr1", 10u64, 20u64), ("chr1", 30, 40), ("chr2", 5, 15)];
    for &(name, start, end) in expected.iter() {
        let (_track, rec) = rd.read_line().unwrap().unwrap();
        assert_eq!(rec.start, start);
        assert_eq!(rec.end, end);
        assert_eq!(rd.store.resolve(rec.tid).as_deref(), Some(name));
        assert!(matches!(rec.fields, BedExtra::Bed3(_)));
    }
    assert!(rd.read_line().unwrap().is_none());
}

#[test]
fn track_bed6_and_browser() {
    let content = "browser position chr1:1-100\n\
                   track name=\"A\" visibility=2\n\
                   chr1\t10\t20\tfoo\t500\t+\n\
                   chr1\t30\t40\tbar\t600\t-\n"
        .to_string();
    let mut rd = Reader::open("t.bed".to_string(), false, content, None).unwrap();
    assert_eq!(rd.format.kind, BedKind::Bed6);
    assert!(rd.format.has_tracks);
    assert!(rd.format.has_browsers);
    let mut meta: Option<BrowserMeta> = None;

    let (track, rec) = rd.read_line_with_meta(&mut meta).unwrap().unwrap();
    let track = track.unwrap();
    assert_eq!(track.name.as_deref(), Some("A"));
    assert_eq!(track.visibility, Some(2));
    assert_eq!(meta.as_ref().unwrap().get("position").as_deref(), Some("chr1:1-100"));
    assert_eq!(rec.start, 10);
    match &rec.fields {
        BedExtra::Bed6(e) => {
            assert_eq!(e.name, "foo");
            assert_eq!(e.score, Some(500));
            assert_eq!(e.strand, Strand::Plus);
        },
        other => panic!("expected a six-column payload, got {:?}", other),
    }

    let (track2, rec2) = rd.read_line_with_meta(&mut meta).unwrap().unwrap();
    assert_eq!(track2.unwrap().name.as_deref(), Some("A"));
    assert_eq!(meta.as_ref().unwrap().get("position").as_deref(), Some("chr1:1-100"));
    assert_eq!(rec2.end, 40);
    match &rec2.fields {
        BedExtra::Bed6(e) => assert_eq!(e.strand, Strand::Minus),
        other => panic!("expected a six-column payload, got {:?}", other),
    }
    assert!(rd.read_line_with_meta(&mut meta).unwrap().is_none());
}

#[test]
fn browser_reset_after_data() {
    let content = "browser a 1\nchr1\t0\t1\nbrowser b 2\nchr1\t2\t3\n".to_string();
    let mut rd = Reader::open("t.bed".to_string(), false, content, None).unwrap();
    let mut meta: Option<BrowserMeta> = None;

    let (_t, r1) = rd.read_line_with_meta(&mut meta).unwrap().unwrap();
    assert_eq!(r1.start, 0);
    let m1 = meta.take().unwrap();
    assert_eq!(m1.get("a").as_deref(), Some("1"));
    assert_eq!(m1.get("b"), None);

    let (_t, r2) = rd.read_line_with_meta(&mut meta).unwrap().unwrap();
    assert_eq!(r2.start, 2);
    let m2 = meta.take().unwrap();
    assert_eq!(m2.get("b").as_deref(), Some("2"));
    // the block is replaced, not merged
    assert_eq!(m2.get("a"), None);
}

#[test]
fn consecutive_browser_lines_merge() {
    let content = "browser a 1\nbrowser b 2\nchr1\t0\t1\n".to_string();
    let mut rd = Reader::open("t.bed".to_string(), false, content, None).unwrap();
    let mut meta: Option<BrowserMeta> = None;
    let (_t, _r) = rd.read_line_with_meta(&mut meta).unwrap().unwrap();
    let m = meta.take().unwrap();
    assert_eq!(m.get("a").as_deref(), Some("1"));
    assert_eq!(m.get("b").as_deref(), Some("2"));
}

#[test]
fn plain_read_line_skips_browser_lines() {
    let content = "browser a 1\nchr1\t0\t1\n".to_string();
    let mut rd = Reader::open("t.bed".to_string(), false, content, None).unwrap();
    let (track, rec) = rd.read_line().unwrap().unwrap();
    assert!(track.is_none());
    assert_eq!(rec.start, 0);
}

#[test]
fn mismatching_line_fails_that_read() {
    let content = "chr1\t10\t20\nchr1\t10\t20\textra\n".to_string();
    let mut rd = Reader::open("t.bed".to_string(), false, content, None).unwrap();
    assert!(rd.read_line().unwrap().is_some());
    match rd.read_line() {
        Err(Error::BedMismatch(s)) => assert_eq!(s, "BED3"),
        other => panic!("expected a mismatch error, got {:?}", other),
    }
}

#[test]
fn inverted_interval_is_rejected() {
    let content = "chr1\t30\t20\n".to_string();
    match Reader::open("t.bed".to_string(), false, content, None) {
        Ok(mut rd) => {
            assert!(matches!(rd.read_line(), Err(Error::BedMismatch(_))));
        },
        Err(e) => panic!("open itself should detect three columns, got {:?}", e),
    }
}

#[test]
fn rewind_replays_the_same_records() {
    let content = "track name=x\nchr1\t10\t20\nchr2\t5\t15\n".to_string();
    let mut rd = Reader::open("t.bed".to_string(), false, content, None).unwrap();
    let mut first: Vec<(u32, u64, u64)> = Vec::new();
    while let Some((_t, rec)) = rd.read_line().unwrap() {
        first.push((rec.tid, rec.start, rec.end));
    }
    rd.seek_to_start();
    let mut second: Vec<(u32, u64, u64)> = Vec::new();
    while let Some((_t, rec)) = rd.read_line().unwrap() {
        second.push((rec.tid, rec.start, rec.end));
    }
    assert_eq!(first, second);
    assert_eq!(first.len(), 2);
}

#[test]
fn bed12_blocks_and_methyl() {
    let content = "chr1\t10\t100\tg\t0\t+\t20\t90\t255,0,0\t2\t10,20\t0,70\n".to_string();
    let mut rd = Reader::open("t.bed".to_string(), false, content, None).unwrap();
    assert_eq!(rd.format.kind, BedKind::Bed12);
    let (_t, rec) = rd.read_line().unwrap().unwrap();
    match &rec.fields {
        BedExtra::Bed12(e) => {
            assert_eq!(e.thick_start, 20);
            assert_eq!(e.thick_end, 90);
            assert_eq!(e.item_rgb.as_deref(), Some("255,0,0"));
            assert_eq!(e.block_count, 2);
            assert_eq!(e.block_sizes, vec![10, 20]);
            assert_eq!(e.block_starts, vec![0, 70]);
        },
        other => panic!("expected a twelve-column payload, got {:?}", other),
    }
    assert_eq!(rec.block_count(), Some(2));
    assert_eq!(rec.name().as_deref(), Some("g"));
    assert_eq!(rec.strand(), Some(Strand::Plus));
    assert_eq!(rec.thick_start(), Some(20));
    assert_eq!(rec.pretty_tid(&rd.store).as_deref(), Some("chr1"));

    // block arrays must match the block count
    let bad = "chr1\t10\t100\tg\t0\t+\t20\t90\t255,0,0\t2\t10,20,30\t0,70\n".to_string();
    let mut rd2 = Reader::open("t.bed".to_string(), false, bad, None).unwrap();
    assert!(matches!(rd2.read_line(), Err(Error::BedMismatch(_))));

    let methyl = "chr1\t5\t6\tm\t9\t+\t5\t6\t0\t12\t75.0\t9\t3\t0\t0\t0\t0\t0\n".to_string();
    let mut rd3 = Reader::open("m.bed".to_string(), false, methyl, None).unwrap();
    assert_eq!(rd3.format.kind, BedKind::BedMethyl);
    let (_t, m) = rd3.read_line().unwrap().unwrap();
    match &m.fields {
        BedExtra::BedMethyl(e) => {
            assert_eq!(e.n_valid_cov, 12);
            assert_eq!(e.frac_mod, "75.0");
            assert_eq!(e.n_mod, 9);
            assert_eq!(e.n_canonical, 3);
        },
        other => panic!("expected a base-modification payload, got {:?}", other),
    }
    assert_eq!(m.n_valid_cov(), Some(12));
    assert_eq!(m.frac_mod().as_deref(), Some("75.0"));
}

#[test]
fn open_fails_without_a_data_line() {
    let content = "track name=x\n".to_string();
    match Reader::open("nodata.bed".to_string(), false, content, None) {
        Err(Error::BedFormat(n)) => assert_eq!(n, "nodata.bed"),
        other => panic!("expected a bed format error, got {:?}", other),
    }
}

/// Runs a region query the way a caller drives it: look the chunks up,
/// fetch and clip the blocks, then parse and filter.
fn run_region(
    rd: &mut Reader,
    blocks: &[(u64, Vec<u8>)],
    tid: &str,
    start: u64,
    end: u64,
) -> Result<Vec<sandman::record::BedRecord>, Error> {
    let chunks = match rd.region_offsets_in(tid, start, end)? {
        Some(c) => c,
        None => {
            let mut out = Vec::new();
            rd.read_lines_in_tid_region(tid, start, end, "", &mut out)?;
            return Ok(out);
        },
    };
    let mut bytes: Vec<u8> = Vec::new();
    for c in chunks.iter() {
        if let Some(p) = chunk_plan(c) {
            for &(off, ref data) in blocks.iter() {
                if p.first_block <= off && off <= p.last_block {
                    let (lo, hi) = slice_bounds(&p, off);
                    clip_append(data, lo, hi, &mut bytes);
                }
            }
        }
    }
    let text = String::from_utf8(bytes).unwrap();
    let mut out = Vec::new();
    rd.read_lines_in_tid_region(tid, start, end, &text, &mut out)?;
    Ok(out)
}

#[test]
fn region_query_returns_overlaps() {
    let text = "chr1\t0\t10\nchr1\t20\t30\nchr1\t100\t110\nchr1\t200\t210\n";
    let tbi = tbi_one_bin("chr1", 4681, 0, text.len() as u64);
    let mut rd = Reader::open(
        "t.bed.gz".to_string(),
        true,
        text.to_string(),
        Some(&tbi),
    ).unwrap();
    // the single decompressed block sits at compressed offset zero
    let blocks = vec![(0u64, text.as_bytes().to_vec())];
    let out = run_region(&mut rd, &blocks, "chr1", 25, 105).unwrap();
    let spans: Vec<(u64, u64)> = out.iter().map(|r| (r.start, r.end)).collect();
    assert_eq!(spans, vec![(20, 30), (100, 110)]);
    for r in out.iter() {
        assert_eq!(rd.store.resolve(r.tid).as_deref(), Some("chr1"));
    }
}

#[test]
fn absent_refname_clears_and_succeeds() {
    let text = "chr1\t0\t10\n";
    let tbi = tbi_one_bin("chr1", 4681, 0, text.len() as u64);
    let mut rd = Reader::open(
        "t.bed.gz".to_string(),
        true,
        text.to_string(),
        Some(&tbi),
    ).unwrap();
    let mut out = vec![];
    out.push(rd.read_line().unwrap().unwrap().1);
    assert_eq!(out.len(), 1);
    rd.read_lines_in_tid_region("chrX", 0, 1, "", &mut out).unwrap();
    assert_eq!(out.len(), 0);
}

#[test]
fn whole_reference_read() {
    let text = "chr1\t0\t10\nchr1\t20\t30\n";
    let tbi = tbi_one_bin("chr1", 4681, 0, text.len() as u64);
    let mut rd = Reader::open(
        "t.bed.gz".to_string(),
        true,
        text.to_string(),
        Some(&tbi),
    ).unwrap();
    let chunks = rd.region_offsets("chr1").unwrap().unwrap();
    assert_eq!(chunks.len(), 1);
    let mut out = Vec::new();
    rd.read_lines_in_tid("chr1", text, &mut out).unwrap();
    assert_eq!(out.len(), 2);
    assert_eq!(out[1].start, 20);
}

#[test]
fn plain_source_rejects_regions() {
    let content = "chr1\t0\t10\n".to_string();
    let mut rd = Reader::open("plain.bed".to_string(), false, content, None).unwrap();
    let mut out = Vec::new();
    match rd.read_lines_in_tid_region("chr1", 0, 1, "", &mut out) {
        Err(Error::PlainBedRegion(n)) => assert_eq!(n, "plain.bed"),
        other => panic!("expected a plain-region error, got {:?}", other),
    }
    assert!(matches!(rd.region_offsets("chr1"), Err(Error::PlainBedRegion(_))));
}

#[test]
fn missing_index_rejects_regions() {
    let content = "chr1\t0\t10\n".to_string();
    let mut rd = Reader::open("noidx.bed.gz".to_string(), true, content, None).unwrap();
    let mut out = Vec::new();
    assert!(matches!(
        rd.read_lines_in_tid("chr1", "", &mut out),
        Err(Error::TabixNotOpen(_))
    ));
}

#[test]
fn index_names_are_preinterned() {
    let text = "chr1\t0\t10\n";
    let tbi = tbi_one_bin("chr9", 4681, 0, 5);
    let rd = Reader::open("t.bed.gz".to_string(), true, text.to_string(), Some(&tbi)).unwrap();
    assert_eq!(rd.store.len(), 1);
    assert!(rd.store.find("chr9").is_some());
}

#[test]
fn records_carry_the_latest_track() {
    let content = "track name=one\nchr1\t1\t2\ntrack name=two\nchr1\t3\t4\n".to_string();
    let mut rd = Reader::open("t.bed".to_string(), false, content, None).unwrap();
    let (t1, r1) = rd.read_line().unwrap().unwrap();
    assert_eq!(t1.unwrap().name.as_deref(), Some("one"));
    assert_eq!(r1.start, 1);
    let (t2, r2) = rd.read_line().unwrap().unwrap();
    assert_eq!(t2.unwrap().name.as_deref(), Some("two"));
    assert_eq!(r2.start, 3);
}

#[test]
fn format_survives_a_failing_read() {
    let content = "chr1\t1\t2\nbad line here\nchr1\t5\t6\n".to_string();
    let mut rd = Reader::open("t.bed".to_string(), false, content, None).unwrap();
    assert_eq!(rd.format.kind, BedKind::Bed3);
    assert!(rd.read_line().unwrap().is_some());
    assert!(rd.read_line().is_err());
    // the detected sub-format still governs every later line
    assert_eq!(rd.format.kind, BedKind::Bed3);
    let (_t, r) = rd.read_line().unwrap().unwrap();
    assert_eq!(r.start, 5);
}

#[test]
fn score_overflow_fails_the_line() {
    let content = "chr1\t1\t2\tn\t4294967296\n".to_string();
    let mut rd = Reader::open("t.bed".to_string(), false, content, None).unwrap();
    assert_eq!(rd.format.kind, BedKind::Bed5);
    assert!(matches!(rd.read_line(), Err(Error::BedMismatch(_))));
}
