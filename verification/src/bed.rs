use vstd::prelude::*;

use crate::error::Error;
use crate::parser::{trim_ws, tokens_of, starts_with, trim_str, check_starts_with};

verus! {

/// The BED sub-formats, identified by the column count of a data line.
#[derive(Debug, Clone, Copy, PartialEq, Eq, Structural)]
pub enum BedKind {
    Bed3,
    Bed4,
    Bed5,
    Bed6,
    Bed12,
    BedMethyl,
}

impl BedKind {
    /// The display name of the sub-format, in place of `Display`.
    pub fn kind_name(&self) -> (r: String)
        ensures
            r@ == self.spec_name(),
    {
        match self {
            BedKind::Bed3 => String::from_str("BED3"),
            BedKind::Bed4 => String::from_str("BED4"),
            BedKind::Bed5 => String::from_str("BED5"),
            BedKind::Bed6 => String::from_str("BED6"),
            BedKind::Bed12 => String::from_str("BED12"),
            BedKind::BedMethyl => String::from_str("BEDMethyl"),
        }
    }

    /// The display name at the specification level.
    pub open spec fn spec_name(self) -> Seq<char> {
        match self {
            BedKind::Bed3 => "BED3"@,
            BedKind::Bed4 => "BED4"@,
            BedKind::Bed5 => "BED5"@,
            BedKind::Bed6 => "BED6"@,
            BedKind::Bed12 => "BED12"@,
            BedKind::BedMethyl => "BEDMethyl"@,
        }
    }

    /// The number of whitespace-separated columns of a data line of this kind.
    pub open spec fn spec_columns(self) -> nat {
        match self {
            BedKind::Bed3 => 3,
            BedKind::Bed4 => 4,
            BedKind::Bed5 => 5,
            BedKind::Bed6 => 6,
            BedKind::Bed12 => 12,
            BedKind::BedMethyl => 18,
        }
    }

    /// The sub-format with the given column count, if any.
    pub open spec fn spec_of_columns(n: nat) -> Option<BedKind> {
        if n == 3 {
            Some(BedKind::Bed3)
        } else if n == 4 {
            Some(BedKind::Bed4)
        } else if n == 5 {
            Some(BedKind::Bed5)
        } else if n == 6 {
            Some(BedKind::Bed6)
        } else if n == 12 {
            Some(BedKind::Bed12)
        } else if n == 18 {
            Some(BedKind::BedMethyl)
        } else {
            None
        }
    }

    /// Maps a column count to the sub-format it identifies.
    pub fn of_columns(n: usize) -> (r: Option<BedKind>)
        ensures
            r == BedKind::spec_of_columns(n as nat),
    {
        if n == 3 {
            Some(BedKind::Bed3)
        } else if n == 4 {
            Some(BedKind::Bed4)
        } else if n == 5 {
            Some(BedKind::Bed5)
        } else if n == 6 {
            Some(BedKind::Bed6)
        } else if n == 12 {
            Some(BedKind::Bed12)
        } else if n == 18 {
            Some(BedKind::BedMethyl)
        } else {
            None
        }
    }
}

/// The lexical strand of a record: `+`, `-`, or anything else.
#[derive(Debug, Clone, Copy, PartialEq, Eq, Structural)]
pub enum Strand {
    Plus,
    Minus,
    Both,
}

impl Strand {
    /// The strand a token denotes at the specification level.
    pub open spec fn spec_parse(s: Seq<char>) -> Strand {
        if s == seq!['+'] {
            Strand::Plus
        } else if s == seq!['-'] {
            Strand::Minus
        } else {
            Strand::Both
        }
    }

    /// Decodes a strand token: `+` and `-` are directed, all else is `Both`.
    pub fn parse(s: &str) -> (r: Strand)
        ensures
            r == Strand::spec_parse(s@),
    {
        if s.unicode_len() == 1 {
            let c = s.get_char(0);
            if c == '+' {
                proof {
                    assert(s@ =~= seq!['+']);
                }
                Strand::Plus
            } else if c == '-' {
                proof {
                    assert(s@ =~= seq!['-']);
                }
                Strand::Minus
            } else {
                proof {
                    assert(s@ != seq!['+'] && s@ != seq!['-']);
                }
                Strand::Both
            }
        } else {
            proof {
                assert(s@ != seq!['+'] && s@ != seq!['-']);
            }
            Strand::Both
        }
    }

    /// The display symbol at the specification level.
    pub open spec fn spec_symbol(self) -> Seq<char> {
        match self {
            Strand::Plus => "+"@,
            Strand::Minus => "-"@,
            Strand::Both => "."@,
        }
    }

    /// The display symbol of the strand, in place of `Display`.
    pub fn symbol(&self) -> (r: String)
        ensures
            r@ == self.spec_symbol(),
    {
        match self {
            Strand::Plus => String::from_str("+"),
            Strand::Minus => String::from_str("-"),
            Strand::Both => String::from_str("."),
        }
    }
}

/// What auto-detection found: the sub-format of the data lines, and whether
/// any `track` or `browser` header lines were seen before the first data line.
#[derive(Debug, Clone, Copy, PartialEq, Eq, Structural)]
pub struct BedFormat {
    pub kind: BedKind,
    pub has_tracks: bool,
    pub has_browsers: bool,
}

/// What scanning probe lines finds: a sub-format with the header flags, a
/// data line with an unknown column count, or no data line at all.
pub enum DetectOutcome {
    Found { kind: BedKind, has_tracks: bool, has_browsers: bool },
    BadLine { line: Seq<char> },
    NoData,
}

/// Scans probe lines for the first data line, in order: blank lines are
/// skipped, `track` and `browser` lines set their flags, and the first
/// other line decides the sub-format by its column count.
pub open spec fn spec_detect(lines: Seq<Seq<char>>, has_tracks: bool, has_browsers: bool)
    -> DetectOutcome
    decreases lines.len(),
{
    if lines.len() == 0 {
        DetectOutcome::NoData
    } else {
        let t = trim_ws(lines[0]);
        if t.len() == 0 {
            spec_detect(lines.skip(1), has_tracks, has_browsers)
        } else if starts_with(t, "track"@) {
            spec_detect(lines.skip(1), true, has_browsers)
        } else if starts_with(t, "browser"@) {
            spec_detect(lines.skip(1), has_tracks, true)
        } else {
            match BedKind::spec_of_columns(tokens_of(t).len()) {
                Some(kind) => DetectOutcome::Found { kind, has_tracks, has_browsers },
                None => DetectOutcome::BadLine { line: t },
            }
        }
    }
}

impl BedFormat {
    /// Detects the sub-format from probe lines, exactly as `spec_detect`
    /// describes: the errors are an unknown column count (naming the line)
    /// and the probe running out without a data line.
    pub fn detect(lines: &Vec<String>) -> (r: Result<BedFormat, Error>)
        ensures
            match r {
                Ok(f) => spec_detect(lines.deep_view(), false, false) == (DetectOutcome::Found {
                    kind: f.kind,
                    has_tracks: f.has_tracks,
                    has_browsers: f.has_browsers,
                }),
                Err(e) => match e {
                    Error::Parse(s) => spec_detect(lines.deep_view(), false, false)
                        == (DetectOutcome::BadLine { line: s@ }),
                    Error::AutoDetect => spec_detect(lines.deep_view(), false, false)
                        == DetectOutcome::NoData,
                    _ => false,
                },
            },
    {
        let ghost lv = lines.deep_view();
        let n = lines.len();
        let mut has_tracks = false;
        let mut has_browsers = false;
        let mut i: usize = 0;
        proof {
            assert(lv.skip(0) =~= lv);
        }
        while i < n
            invariant
                i <= n,
                n == lines@.len(),
                lv == lines.deep_view(),
                lv.len() == n,
                spec_detect(lv, false, false) == spec_detect(
                    lv.skip(i as int),
                    has_tracks,
                    has_browsers,
                ),
            decreases n - i,
        {
            proof {
                assert(lv.skip(i as int)[0] == lv[i as int]);
                assert(lv.skip(i as int).skip(1) =~= lv.skip(i + 1));
            }
            let trimmed = trim_str(lines[i].as_str());
            if trimmed.unicode_len() == 0 {
                i = i + 1;
            } else if check_starts_with(trimmed, "track") {
                proof {
                    reveal_strlit("track");
                }
                has_tracks = true;
                i = i + 1;
            } else if check_starts_with(trimmed, "browser") {
                proof {
                    reveal_strlit("track");
                    reveal_strlit("browser");
                }
                has_browsers = true;
                i = i + 1;
            } else {
                proof {
                    reveal_strlit("track");
                    reveal_strlit("browser");
                }
                let toks = crate::parser::tokenize(trimmed);
                proof {
                    assert(toks.deep_view().len() == toks@.len());
                }
                return match BedKind::of_columns(toks.len()) {
                    Some(kind) => Ok(BedFormat { kind, has_tracks, has_browsers }),
                    None => Err(Error::Parse(String::from_str(trimmed))),
                };
            }
        }
        proof {
            assert(lv.skip(n as int) =~= Seq::<Seq<char>>::empty());
        }
        Err(Error::AutoDetect)
    }
}

} // verus!
