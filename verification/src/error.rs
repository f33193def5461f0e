use vstd::prelude::*;

verus! {

/// The error taxonomy of the library. String payloads name the source
/// (usually the file name the reader was opened with) or the offending line.
#[derive(Debug, Clone)]
pub enum Error {
    /// Underlying byte-source failure, with its message.
    Io(String),
    /// Random access was requested on a source that is not block-compressed.
    PlainBedRegion(String),
    /// The index bytes are not in tabix format.
    TabixFormat(String),
    /// A data line does not match any known column count.
    Parse(String),
    /// The probe lines were exhausted without finding a data line.
    AutoDetect,
    /// The source cannot be parsed or auto-detected as BED.
    BedFormat(String),
    /// The sub-format parser rejected a line.
    BedMismatch(String),
    /// No companion index file was found where one was required.
    NoIndex(String),
    /// Random access was requested but no index is open.
    TabixNotOpen(String),
}

impl Error {
    /// A human-readable description, in place of `Display`.
    pub fn message(&self) -> String {
        match self {
            Error::Io(s) => String::from_str("IO error: ").concat(s.as_str()),
            Error::PlainBedRegion(s) => String::from_str(
                "Unable to read a region from uncompressed BED ",
            ).concat(s.as_str()),
            Error::TabixFormat(s) => String::from_str("").concat(s.as_str()).concat(
                " not in tabix format",
            ),
            Error::Parse(s) => String::from_str("Unable to parse line - ").concat(s.as_str()),
            Error::AutoDetect => String::from_str(
                "Unable to auto detect bed format from data",
            ),
            Error::BedFormat(s) => String::from_str("").concat(s.as_str()).concat(
                " not in BED format",
            ),
            Error::BedMismatch(s) => String::from_str("Unable to read file as not in ").concat(
                s.as_str(),
            ).concat(" format"),
            Error::NoIndex(s) => String::from_str("No index for BED ").concat(s.as_str()).concat(
                " found",
            ),
            Error::TabixNotOpen(s) => String::from_str("Associated Tabix file for BED ").concat(
                s.as_str(),
            ).concat(" not open"),
        }
    }
}

} // verus!
