use sandman::parser::{parse_u64_token, parse_u32_token, tokenize, str_eq, check_float_token,
    parse_comma_u32s, trim_str, check_blank, check_starts_with};
use sandman::bed::{BedFormat, BedKind, Strand};
use sandman::error::Error;
use sandman::meta::{parse_track_line, parse_browser_line};

#[test]
fn u64_token_values() {
    assert_eq!(parse_u64_token("0"), Some(0));
    assert_eq!(parse_u64_token("1234567890123"), Some(1234567890123));
    assert_eq!(parse_u64_token("18446744073709551615"), Some(u64::MAX));
}

#[test]
fn u64_token_rejects() {
    assert_eq!(parse_u64_token(""), None);
    assert_eq!(parse_u64_token("12x"), None);
    assert_eq!(parse_u64_token("-5"), None);
    // one past u64::MAX must overflow
    assert_eq!(parse_u64_token("18446744073709551616"), None);
}

#[test]
fn u32_token_values() {
    assert_eq!(parse_u32_token("4294967295"), Some(u32::MAX));
    assert_eq!(parse_u32_token("4294967296"), None);
    assert_eq!(parse_u32_token("007"), Some(7));
}

#[test]
fn tokenize_splits_on_space_runs() {
    let toks = tokenize("chr1\t10  20\t name");
    let flat: Vec<&str> = toks.iter().map(|s| s.as_str()).collect();
    assert_eq!(flat, vec!["chr1", "10", "20", "name"]);
}

#[test]
fn tokenize_empty_and_blank() {
    assert_eq!(tokenize("").len(), 0);
    assert_eq!(tokenize(" \t ").len(), 0);
}

#[test]
fn str_eq_works() {
    assert!(str_eq("abc", "abc"));
    assert!(!str_eq("abc", "abd"));
    assert!(!str_eq("abc", "abcd"));
}

#[test]
fn trim_and_blank() {
    assert_eq!(trim_str("  chr1\t5\t9\r\n"), "chr1\t5\t9");
    assert!(check_blank(" \t\r\n"));
    assert!(!check_blank(" x "));
    assert!(check_starts_with("trackless", "track"));
    assert!(!check_starts_with("tra", "track"));
}

#[test]
fn float_tokens() {
    assert!(check_float_token("1.5"));
    assert!(check_float_token("12"));
    assert!(check_float_token("-0.25"));
    assert!(check_float_token(".5"));
    assert!(check_float_token("1e5"));
    assert!(check_float_token("1.5E-3"));
    assert!(check_float_token("inf"));
    assert!(check_float_token("-Infinity"));
    assert!(check_float_token("NaN"));
    assert!(!check_float_token(""));
    assert!(!check_float_token("abc"));
    assert!(!check_float_token("1.5.5"));
    assert!(!check_float_token("e5"));
}

#[test]
fn comma_lists_drop_empties_and_zero_bad_items() {
    assert_eq!(parse_comma_u32s("1,2,3"), vec![1, 2, 3]);
    assert_eq!(parse_comma_u32s("1,2,"), vec![1, 2]);
    assert_eq!(parse_comma_u32s("1,,2"), vec![1, 2]);
    // malformed and overflowing items silently become zero
    assert_eq!(parse_comma_u32s("1,x,4294967296"), vec![1, 0, 0]);
    assert_eq!(parse_comma_u32s(""), Vec::<u32>::new());
}

#[test]
fn strand_parsing_and_symbols() {
    assert_eq!(Strand::parse("+"), Strand::Plus);
    assert_eq!(Strand::parse("-"), Strand::Minus);
    assert_eq!(Strand::parse("."), Strand::Both);
    assert_eq!(Strand::parse("anything"), Strand::Both);
    assert_eq!(Strand::Plus.symbol(), "+");
    assert_eq!(Strand::Minus.symbol(), "-");
    assert_eq!(Strand::Both.symbol(), ".");
}

#[test]
fn detect_bed3() {
    let lines = vec!["chr1\t10\t20\n".to_string()];
    let f = BedFormat::detect(&lines).unwrap();
    assert_eq!(f.kind, BedKind::Bed3);
    assert!(!f.has_tracks);
    assert!(!f.has_browsers);
}

#[test]
fn detect_with_headers() {
    let lines = vec![
        "browser position chr1:1-100\n".to_string(),
        "track name=\"A\" visibility=2\n".to_string(),
        "".to_string(),
        "chr1\t10\t20\tfoo\t500\t+\n".to_string(),
    ];
    let f = BedFormat::detect(&lines).unwrap();
    assert_eq!(f.kind, BedKind::Bed6);
    assert!(f.has_tracks);
    assert!(f.has_browsers);
}

#[test]
fn detect_bad_column_count() {
    let lines = vec!["a\tb\tc\td\te\tf\tg\n".to_string()];
    match BedFormat::detect(&lines) {
        Err(Error::Parse(s)) => assert_eq!(s, "a\tb\tc\td\te\tf\tg"),
        other => panic!("expected a parse error, got {:?}", other),
    }
}

#[test]
fn detect_no_data() {
    let lines = vec!["track name=x\n".to_string(), "\n".to_string()];
    assert!(matches!(BedFormat::detect(&lines), Err(Error::AutoDetect)));
}

#[test]
fn track_line_attributes() {
    let t = parse_track_line("track name=\"A B\" visibility=2 useScore=300 other=zz").unwrap();
    assert_eq!(t.name.as_deref(), Some("A B"));
    assert_eq!(t.visibility, Some(2));
    // a value that does not fit u8 leaves the field unset
    assert_eq!(t.use_score, None);
    assert_eq!(t.description, None);
}

#[test]
fn track_line_requires_space() {
    assert!(parse_track_line("track").is_err());
    assert!(parse_track_line("trackname=x").is_err());
}

#[test]
fn browser_line_pairs() {
    let b = parse_browser_line("browser position chr1:1-100").unwrap();
    assert_eq!(b.get("position").as_deref(), Some("chr1:1-100"));
    assert_eq!(b.get("missing"), None);
}

#[test]
fn browser_line_equals_forms() {
    let b = parse_browser_line("browser dim=2 pos =x").unwrap();
    assert_eq!(b.get("dim").as_deref(), Some("2"));
    assert_eq!(b.get("pos").as_deref(), Some("x"));
}

#[test]
fn error_messages() {
    assert_eq!(Error::AutoDetect.message(), "Unable to auto detect bed format from data");
    assert_eq!(
        Error::PlainBedRegion("f.bed".to_string()).message(),
        "Unable to read a region from uncompressed BED f.bed"
    );
    assert_eq!(Error::TabixFormat("x".to_string()).message(), "x not in tabix format");
    assert_eq!(Error::Parse("line".to_string()).message(), "Unable to parse line - line");
    assert_eq!(Error::BedFormat("f".to_string()).message(), "f not in BED format");
    assert_eq!(Error::BedMismatch("BED3".to_string()).message(), "Unable to read file as not in BED3 format");
    assert_eq!(Error::NoIndex("f".to_string()).message(), "No index for BED f found");
    assert_eq!(Error::TabixNotOpen("f".to_string()).message(), "Associated Tabix file for BED f not open");
    assert_eq!(Error::Io("boom".to_string()).message(), "IO error: boom");
}
