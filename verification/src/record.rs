use vstd::prelude::*;

use crate::bed::{BedKind, Strand};
use crate::error::Error;
use crate::parser::{all_digits, dec_val, comma_u32s, is_float_token};
use crate::store::{TidStore, has_name, name_index, lemma_name_index_works,
    lemma_name_index_unique};

verus! {

/// The extra payload of a three-column record: nothing.
#[derive(Debug, Clone, PartialEq, Eq, Structural)]
pub struct Bed3Fields;

/// The extra payload of a four-column record.
#[derive(Debug, Clone)]
pub struct Bed4Extra {
    pub name: String,
}

/// The extra payload of a five-column record.
#[derive(Debug, Clone)]
pub struct Bed5Extra {
    pub name: String,
    pub score: Option<u32>,
}

/// The extra payload of a six-column record.
#[derive(Debug, Clone)]
pub struct Bed6Extra {
    pub name: String,
    pub score: Option<u32>,
    pub strand: Strand,
}

/// The extra payload of a twelve-column record.
#[derive(Debug, Clone)]
pub struct Bed12Extra {
    pub name: String,
    pub score: Option<u32>,
    pub strand: Strand,
    pub thick_start: u64,
    pub thick_end: u64,
    pub item_rgb: Option<String>,
    pub block_count: u32,
    pub block_sizes: Vec<u32>,
    pub block_starts: Vec<u32>,
}

/// The extra payload of an eighteen-column base-modification record. The
/// modified fraction is kept in its lexical form, as the text of a
/// floating-point number.
#[derive(Debug, Clone)]
pub struct BedMethylExtra {
    pub name: String,
    pub score: Option<u32>,
    pub strand: Strand,
    pub thick_start: u64,
    pub thick_end: u64,
    pub item_rgb: Option<String>,
    pub n_valid_cov: u32,
    pub frac_mod: String,
    pub n_mod: u32,
    pub n_canonical: u32,
    pub n_other_mod: u32,
    pub n_delete: u32,
    pub n_fail: u32,
    pub n_diff: u32,
    pub n_nocall: u32,
}

/// The sub-format-specific payload of a record.
#[derive(Debug, Clone)]
pub enum BedExtra {
    Bed3(Bed3Fields),
    Bed4(Bed4Extra),
    Bed5(Bed5Extra),
    Bed6(Bed6Extra),
    Bed12(Bed12Extra),
    BedMethyl(BedMethylExtra),
}

/// One parsed interval: the interned reference id, the half-open interval,
/// and the payload of the detected sub-format.
#[derive(Debug, Clone)]
pub struct BedRecord {
    pub tid: u32,
    pub start: u64,
    pub end: u64,
    pub fields: BedExtra,
}

// ---------------------------------------------------------------------------
// Specification-level record model
// ---------------------------------------------------------------------------

/// The payload of a record at the specification level.
pub enum ExtraSpec {
    Bed3,
    Bed4 { name: Seq<char> },
    Bed5 { name: Seq<char>, score: u32 },
    Bed6 { name: Seq<char>, score: u32, strand: Strand },
    Bed12 {
        name: Seq<char>,
        score: u32,
        strand: Strand,
        thick_start: u64,
        thick_end: u64,
        item_rgb: Option<Seq<char>>,
        block_count: u32,
        block_sizes: Seq<u32>,
        block_starts: Seq<u32>,
    },
    BedMethyl {
        name: Seq<char>,
        score: u32,
        strand: Strand,
        thick_start: u64,
        thick_end: u64,
        item_rgb: Option<Seq<char>>,
        n_valid_cov: u32,
        frac_mod: Seq<char>,
        n_mod: u32,
        n_canonical: u32,
        n_other_mod: u32,
        n_delete: u32,
        n_fail: u32,
        n_diff: u32,
        n_nocall: u32,
    },
}

/// A record at the specification level: the reference by name, the
/// interval, and the payload.
pub struct RecModel {
    pub tid_name: Seq<char>,
    pub start: u64,
    pub end: u64,
    pub extra: ExtraSpec,
}

impl View for BedExtra {
    type V = ExtraSpec;

    open spec fn view(&self) -> ExtraSpec {
        match self {
            BedExtra::Bed3(_) => ExtraSpec::Bed3,
            BedExtra::Bed4(e) => ExtraSpec::Bed4 { name: e.name@ },
            BedExtra::Bed5(e) => ExtraSpec::Bed5 {
                name: e.name@,
                score: match e.score {
                    Some(v) => v,
                    None => 0,
                },
            },
            BedExtra::Bed6(e) => ExtraSpec::Bed6 {
                name: e.name@,
                score: match e.score {
                    Some(v) => v,
                    None => 0,
                },
                strand: e.strand,
            },
            BedExtra::Bed12(e) => ExtraSpec::Bed12 {
                name: e.name@,
                score: match e.score {
                    Some(v) => v,
                    None => 0,
                },
                strand: e.strand,
                thick_start: e.thick_start,
                thick_end: e.thick_end,
                item_rgb: match &e.item_rgb {
                    Some(s) => Some(s@),
                    None => None,
                },
                block_count: e.block_count,
                block_sizes: e.block_sizes@,
                block_starts: e.block_starts@,
            },
            BedExtra::BedMethyl(e) => ExtraSpec::BedMethyl {
                name: e.name@,
                score: match e.score {
                    Some(v) => v,
                    None => 0,
                },
                strand: e.strand,
                thick_start: e.thick_start,
                thick_end: e.thick_end,
                item_rgb: match &e.item_rgb {
                    Some(s) => Some(s@),
                    None => None,
                },
                n_valid_cov: e.n_valid_cov,
                frac_mod: e.frac_mod@,
                n_mod: e.n_mod,
                n_canonical: e.n_canonical,
                n_other_mod: e.n_other_mod,
                n_delete: e.n_delete,
                n_fail: e.n_fail,
                n_diff: e.n_diff,
                n_nocall: e.n_nocall,
            },
        }
    }
}

/// The decimal `u64` a token denotes, if it is one.
pub open spec fn u64_of(t: Seq<char>) -> Option<u64> {
    if all_digits(t) && dec_val(t) <= u64::MAX {
        Some(dec_val(t) as u64)
    } else {
        None
    }
}

/// The decimal `u32` a token denotes, if it is one.
pub open spec fn u32_of(t: Seq<char>) -> Option<u32> {
    if all_digits(t) && dec_val(t) <= u32::MAX {
        Some(dec_val(t) as u32)
    } else {
        None
    }
}

/// The item-rgb field: an empty token stands for an absent value.
pub open spec fn rgb_of(t: Seq<char>) -> Option<Seq<char>> {
    if t.len() == 0 {
        None
    } else {
        Some(t)
    }
}

/// Parses the payload columns of a record of the given sub-format; the
/// token count is already known to match.
pub open spec fn spec_parse_extra(kind: BedKind, toks: Seq<Seq<char>>) -> Option<ExtraSpec> {
    match kind {
        BedKind::Bed3 => Some(ExtraSpec::Bed3),
        BedKind::Bed4 => Some(ExtraSpec::Bed4 { name: toks[3] }),
        BedKind::Bed5 => match u32_of(toks[4]) {
            None => None,
            Some(score) => Some(ExtraSpec::Bed5 { name: toks[3], score }),
        },
        BedKind::Bed6 => match u32_of(toks[4]) {
            None => None,
            Some(score) => Some(
                ExtraSpec::Bed6 { name: toks[3], score, strand: Strand::spec_parse(toks[5]) },
            ),
        },
        BedKind::Bed12 => {
            if u32_of(toks[4]) is None || u64_of(toks[6]) is None || u64_of(toks[7]) is None
                || u32_of(toks[9]) is None {
                None
            } else {
                let thick_start = u64_of(toks[6]).unwrap();
                let thick_end = u64_of(toks[7]).unwrap();
                let block_count = u32_of(toks[9]).unwrap();
                let block_sizes = comma_u32s(toks[10]);
                let block_starts = comma_u32s(toks[11]);
                if thick_start > thick_end || block_sizes.len() != block_count
                    || block_starts.len() != block_count {
                    None
                } else {
                    Some(
                        ExtraSpec::Bed12 {
                            name: toks[3],
                            score: u32_of(toks[4]).unwrap(),
                            strand: Strand::spec_parse(toks[5]),
                            thick_start,
                            thick_end,
                            item_rgb: rgb_of(toks[8]),
                            block_count,
                            block_sizes,
                            block_starts,
                        },
                    )
                }
            }
        },
        BedKind::BedMethyl => {
            if u32_of(toks[4]) is None || u64_of(toks[6]) is None || u64_of(toks[7]) is None
                || u32_of(toks[9]) is None || !is_float_token(toks[10]) || u32_of(
                toks[11],
            ) is None || u32_of(toks[12]) is None || u32_of(toks[13]) is None || u32_of(
                toks[14],
            ) is None || u32_of(toks[15]) is None || u32_of(toks[16]) is None || u32_of(
                toks[17],
            ) is None {
                None
            } else {
                let thick_start = u64_of(toks[6]).unwrap();
                let thick_end = u64_of(toks[7]).unwrap();
                if thick_start > thick_end {
                    None
                } else {
                    Some(
                        ExtraSpec::BedMethyl {
                            name: toks[3],
                            score: u32_of(toks[4]).unwrap(),
                            strand: Strand::spec_parse(toks[5]),
                            thick_start,
                            thick_end,
                            item_rgb: rgb_of(toks[8]),
                            n_valid_cov: u32_of(toks[9]).unwrap(),
                            frac_mod: toks[10],
                            n_mod: u32_of(toks[11]).unwrap(),
                            n_canonical: u32_of(toks[12]).unwrap(),
                            n_other_mod: u32_of(toks[13]).unwrap(),
                            n_delete: u32_of(toks[14]).unwrap(),
                            n_fail: u32_of(toks[15]).unwrap(),
                            n_diff: u32_of(toks[16]).unwrap(),
                            n_nocall: u32_of(toks[17]).unwrap(),
                        },
                    )
                }
            }
        },
    }
}

/// Parses the tokens of one data line as a record of the given sub-format.
/// `None` exactly when the token count does not match the sub-format, a
/// numeric field is not a number of its type, the interval or thick
/// interval is inverted, or the block arrays do not match their count.
pub open spec fn spec_parse_record(kind: BedKind, toks: Seq<Seq<char>>) -> Option<RecModel> {
    if toks.len() != kind.spec_columns() {
        None
    } else if u64_of(toks[1]) is None || u64_of(toks[2]) is None {
        None
    } else {
        let start = u64_of(toks[1]).unwrap();
        let end = u64_of(toks[2]).unwrap();
        if start > end {
            None
        } else {
            match spec_parse_extra(kind, toks) {
                None => None,
                Some(extra) => Some(RecModel { tid_name: toks[0], start, end, extra }),
            }
        }
    }
}

// ---------------------------------------------------------------------------
// Interning effect at the specification level
// ---------------------------------------------------------------------------

/// The names of a store after interning `name`: unchanged if present, else
/// extended by it.
pub open spec fn interned_names(names: Seq<Seq<char>>, name: Seq<char>) -> Seq<Seq<char>> {
    if has_name(names, name) {
        names
    } else {
        names.push(name)
    }
}

/// The id interning `name` yields: its index if present, else the next one.
pub open spec fn intern_id(names: Seq<Seq<char>>, name: Seq<char>) -> int {
    if has_name(names, name) {
        name_index(names, name)
    } else {
        names.len() as int
    }
}

// ---------------------------------------------------------------------------
// Executable record parsing
// ---------------------------------------------------------------------------

/// Parses the tokens of one data line as a record of the given sub-format,
/// interning the reference name. Succeeds exactly when `spec_parse_record`
/// does; the failure is a sub-format mismatch naming the expected format,
/// and a failure leaves the store unchanged.
pub fn parse_record(store: &mut TidStore, kind: BedKind, toks: &Vec<String>) -> (r: Result<
    BedRecord,
    Error,
>)
    requires
        old(store).wf(),
        old(store).names().len() < 0xFFFFFFFF,
    ensures
        final(store).wf(),
        match r {
            Ok(rec) => {
                &&& spec_parse_record(kind, toks.deep_view()) matches Some(m)
                &&& rec.start == m.start
                &&& rec.end == m.end
                &&& rec.fields@ == m.extra
                &&& final(store).names() == interned_names(old(store).names(), m.tid_name)
                &&& rec.tid == intern_id(old(store).names(), m.tid_name)
            },
            Err(e) => {
                &&& spec_parse_record(kind, toks.deep_view()) is None
                &&& e matches Error::BedMismatch(s) && s@ == kind.spec_name()
                &&& *final(store) == *old(store)
            },
        },
{
    let ghost tv = toks.deep_view();
    proof {
        assert(tv.len() == toks@.len());
        assert(forall|i: int| 0 <= i < toks@.len() ==> tv[i] == toks@[i]@);
    }
    let cols: usize = match kind {
        BedKind::Bed3 => 3,
        BedKind::Bed4 => 4,
        BedKind::Bed5 => 5,
        BedKind::Bed6 => 6,
        BedKind::Bed12 => 12,
        BedKind::BedMethyl => 18,
    };
    if toks.len() != cols {
        return Err(Error::BedMismatch(kind.kind_name()));
    }
    let start = match crate::parser::parse_u64_token(toks[1].as_str()) {
        Some(v) => v,
        None => {
            return Err(Error::BedMismatch(kind.kind_name()));
        },
    };
    let end = match crate::parser::parse_u64_token(toks[2].as_str()) {
        Some(v) => v,
        None => {
            return Err(Error::BedMismatch(kind.kind_name()));
        },
    };
    if start > end {
        return Err(Error::BedMismatch(kind.kind_name()));
    }
    let extra: BedExtra = match kind {
        BedKind::Bed3 => BedExtra::Bed3(Bed3Fields),
        BedKind::Bed4 => BedExtra::Bed4(Bed4Extra { name: toks[3].clone() }),
        BedKind::Bed5 => {
            let score = match crate::parser::parse_u32_token(toks[4].as_str()) {
                Some(v) => v,
                None => {
                    return Err(Error::BedMismatch(kind.kind_name()));
                },
            };
            BedExtra::Bed5(Bed5Extra { name: toks[3].clone(), score: Some(score) })
        },
        BedKind::Bed6 => {
            let score = match crate::parser::parse_u32_token(toks[4].as_str()) {
                Some(v) => v,
                None => {
                    return Err(Error::BedMismatch(kind.kind_name()));
                },
            };
            let strand = Strand::parse(toks[5].as_str());
            BedExtra::Bed6(Bed6Extra { name: toks[3].clone(), score: Some(score), strand })
        },
        BedKind::Bed12 => {
            let score = match crate::parser::parse_u32_token(toks[4].as_str()) {
                Some(v) => v,
                None => {
                    return Err(Error::BedMismatch(kind.kind_name()));
                },
            };
            let strand = Strand::parse(toks[5].as_str());
            let thick_start = match crate::parser::parse_u64_token(toks[6].as_str()) {
                Some(v) => v,
                None => {
                    return Err(Error::BedMismatch(kind.kind_name()));
                },
            };
            let thick_end = match crate::parser::parse_u64_token(toks[7].as_str()) {
                Some(v) => v,
                None => {
                    return Err(Error::BedMismatch(kind.kind_name()));
                },
            };
            let block_count = match crate::parser::parse_u32_token(toks[9].as_str()) {
                Some(v) => v,
                None => {
                    return Err(Error::BedMismatch(kind.kind_name()));
                },
            };
            let block_sizes = crate::parser::parse_comma_u32s(toks[10].as_str());
            let block_starts = crate::parser::parse_comma_u32s(toks[11].as_str());
            if thick_start > thick_end {
                return Err(Error::BedMismatch(kind.kind_name()));
            }
            if block_sizes.len() as u64 != block_count as u64 || block_starts.len() as u64
                != block_count as u64 {
                return Err(Error::BedMismatch(kind.kind_name()));
            }
            let item_rgb = if toks[8].as_str().unicode_len() == 0 {
                None
            } else {
                Some(toks[8].clone())
            };
            BedExtra::Bed12(
                Bed12Extra {
                    name: toks[3].clone(),
                    score: Some(score),
                    strand,
                    thick_start,
                    thick_end,
                    item_rgb,
                    block_count,
                    block_sizes,
                    block_starts,
                },
            )
        },
        BedKind::BedMethyl => {
            let score = match crate::parser::parse_u32_token(toks[4].as_str()) {
                Some(v) => v,
                None => {
                    return Err(Error::BedMismatch(kind.kind_name()));
                },
            };
            let strand = Strand::parse(toks[5].as_str());
            let thick_start = match crate::parser::parse_u64_token(toks[6].as_str()) {
                Some(v) => v,
                None => {
                    return Err(Error::BedMismatch(kind.kind_name()));
                },
            };
            let thick_end = match crate::parser::parse_u64_token(toks[7].as_str()) {
                Some(v) => v,
                None => {
                    return Err(Error::BedMismatch(kind.kind_name()));
                },
            };
            if thick_start > thick_end {
                return Err(Error::BedMismatch(kind.kind_name()));
            }
            let n_valid_cov = match crate::parser::parse_u32_token(toks[9].as_str()) {
                Some(v) => v,
                None => {
                    return Err(Error::BedMismatch(kind.kind_name()));
                },
            };
            if !crate::parser::check_float_token(toks[10].as_str()) {
                return Err(Error::BedMismatch(kind.kind_name()));
            }
            let n_mod = match crate::parser::parse_u32_token(toks[11].as_str()) {
                Some(v) => v,
                None => {
                    return Err(Error::BedMismatch(kind.kind_name()));
                },
            };
            let n_canonical = match crate::parser::parse_u32_token(toks[12].as_str()) {
                Some(v) => v,
                None => {
                    return Err(Error::BedMismatch(kind.kind_name()));
                },
            };
            let n_other_mod = match crate::parser::parse_u32_token(toks[13].as_str()) {
                Some(v) => v,
                None => {
                    return Err(Error::BedMismatch(kind.kind_name()));
                },
            };
            let n_delete = match crate::parser::parse_u32_token(toks[14].as_str()) {
                Some(v) => v,
                None => {
                    return Err(Error::BedMismatch(kind.kind_name()));
                },
            };
            let n_fail = match crate::parser::parse_u32_token(toks[15].as_str()) {
                Some(v) => v,
                None => {
                    return Err(Error::BedMismatch(kind.kind_name()));
                },
            };
            let n_diff = match crate::parser::parse_u32_token(toks[16].as_str()) {
                Some(v) => v,
                None => {
                    return Err(Error::BedMismatch(kind.kind_name()));
                },
            };
            let n_nocall = match crate::parser::parse_u32_token(toks[17].as_str()) {
                Some(v) => v,
                None => {
                    return Err(Error::BedMismatch(kind.kind_name()));
                },
            };
            let item_rgb = if toks[8].as_str().unicode_len() == 0 {
                None
            } else {
                Some(toks[8].clone())
            };
            BedExtra::BedMethyl(
                BedMethylExtra {
                    name: toks[3].clone(),
                    score: Some(score),
                    strand,
                    thick_start,
                    thick_end,
                    item_rgb,
                    n_valid_cov,
                    frac_mod: toks[10].clone(),
                    n_mod,
                    n_canonical,
                    n_other_mod,
                    n_delete,
                    n_fail,
                    n_diff,
                    n_nocall,
                },
            )
        },
    };
    let ghost pre = store.names();
    let tid = store.intern(toks[0].as_str());
    proof {
        TidStore::lemma_intern_preserves_wf(*old(store), *store, tv[0]);
        if has_name(pre, tv[0]) {
            let w = choose|i: int| 0 <= i < pre.len() && pre[i] == tv[0];
            assert(store.names() == pre);
            lemma_name_index_unique(pre, tv[0], tid as int);
        }
    }
    Ok(BedRecord { tid, start, end, fields: extra })
}

/// A copy of a numeric vector, element by element.
fn copy_u32s(v: &Vec<u32>) -> (r: Vec<u32>)
    ensures
        r@ == v@,
{
    let n = v.len();
    let mut r: Vec<u32> = Vec::new();
    let mut i: usize = 0;
    while i < n
        invariant
            i <= n,
            n == v@.len(),
            r@ =~= v@.take(i as int),
        decreases n - i,
    {
        r.push(v[i]);
        proof {
            assert(r@ =~= v@.take(i + 1));
        }
        i = i + 1;
    }
    proof {
        assert(v@.take(n as int) =~= v@);
    }
    r
}

/// A copy of an optional string, with the same characters.
fn copy_opt_string(o: &Option<String>) -> (r: Option<String>)
    ensures
        match (o, &r) {
            (Some(a), Some(b)) => a@ == b@,
            (None, None) => true,
            _ => false,
        },
{
    match o {
        Some(s) => Some(s.clone()),
        None => None,
    }
}

impl BedExtra {
    /// A copy with the same payload.
    pub fn duplicate(&self) -> (r: BedExtra)
        ensures
            r@ == self@,
    {
        match self {
            BedExtra::Bed3(_) => BedExtra::Bed3(Bed3Fields),
            BedExtra::Bed4(e) => BedExtra::Bed4(Bed4Extra { name: e.name.clone() }),
            BedExtra::Bed5(e) => BedExtra::Bed5(
                Bed5Extra { name: e.name.clone(), score: e.score },
            ),
            BedExtra::Bed6(e) => BedExtra::Bed6(
                Bed6Extra { name: e.name.clone(), score: e.score, strand: e.strand },
            ),
            BedExtra::Bed12(e) => BedExtra::Bed12(
                Bed12Extra {
                    name: e.name.clone(),
                    score: e.score,
                    strand: e.strand,
                    thick_start: e.thick_start,
                    thick_end: e.thick_end,
                    item_rgb: copy_opt_string(&e.item_rgb),
                    block_count: e.block_count,
                    block_sizes: copy_u32s(&e.block_sizes),
                    block_starts: copy_u32s(&e.block_starts),
                },
            ),
            BedExtra::BedMethyl(e) => BedExtra::BedMethyl(
                BedMethylExtra {
                    name: e.name.clone(),
                    score: e.score,
                    strand: e.strand,
                    thick_start: e.thick_start,
                    thick_end: e.thick_end,
                    item_rgb: copy_opt_string(&e.item_rgb),
                    n_valid_cov: e.n_valid_cov,
                    frac_mod: e.frac_mod.clone(),
                    n_mod: e.n_mod,
                    n_canonical: e.n_canonical,
                    n_other_mod: e.n_other_mod,
                    n_delete: e.n_delete,
                    n_fail: e.n_fail,
                    n_diff: e.n_diff,
                    n_nocall: e.n_nocall,
                },
            ),
        }
    }
}

impl BedRecord {
    /// A copy with the same reference id, interval and payload.
    pub fn duplicate(&self) -> (r: BedRecord)
        ensures
            r.tid == self.tid,
            r.start == self.start,
            r.end == self.end,
            r.fields@ == self.fields@,
    {
        BedRecord {
            tid: self.tid,
            start: self.start,
            end: self.end,
            fields: self.fields.duplicate(),
        }
    }
}

// ---------------------------------------------------------------------------
// Invariants of parsed records
// ---------------------------------------------------------------------------

/// Interval validity: every record a parse yields has `start <= end`, and
/// where a thick interval exists, `thick_start <= thick_end`.
pub proof fn lemma_record_intervals(kind: BedKind, toks: Seq<Seq<char>>)
    requires
        spec_parse_record(kind, toks) is Some,
    ensures
        spec_parse_record(kind, toks).unwrap().start <= spec_parse_record(kind, toks).unwrap().end,
        match spec_parse_record(kind, toks).unwrap().extra {
            ExtraSpec::Bed12 { thick_start, thick_end, .. } => thick_start <= thick_end,
            ExtraSpec::BedMethyl { thick_start, thick_end, .. } => thick_start <= thick_end,
            _ => true,
        },
{
}

/// Block arrays: every twelve-column record a parse yields has as many
/// block sizes and block starts as its block count.
pub proof fn lemma_block_arrays(kind: BedKind, toks: Seq<Seq<char>>)
    requires
        spec_parse_record(kind, toks) is Some,
    ensures
        match spec_parse_record(kind, toks).unwrap().extra {
            ExtraSpec::Bed12 { block_count, block_sizes, block_starts, .. } => block_sizes.len()
                == block_count && block_starts.len() == block_count,
            _ => true,
        },
{
}

/// Symbol round trip: interning a name places it at the id interning
/// returns, so resolving that id gives the name back, by the contracts of
/// `intern` and `resolve`.
pub proof fn lemma_symbol_round_trip(names: Seq<Seq<char>>, name: Seq<char>)
    requires
        forall|i: int, j: int| 0 <= i < j < names.len() ==> names[i] != names[j],
    ensures
        0 <= intern_id(names, name) < interned_names(names, name).len(),
        interned_names(names, name)[intern_id(names, name)] == name,
{
    if has_name(names, name) {
        lemma_name_index_works(names, name);
    }
}

// ---------------------------------------------------------------------------
// Accessors over the payload variants
// ---------------------------------------------------------------------------

/// The view of an optional string.
pub open spec fn opt_string_view(o: Option<String>) -> Option<Seq<char>> {
    match o {
        Some(s) => Some(s@),
        None => None,
    }
}

impl ExtraSpec {
    /// The name column, where the sub-format has one.
    pub open spec fn spec_name_col(self) -> Option<Seq<char>> {
        match self {
            ExtraSpec::Bed3 => None,
            ExtraSpec::Bed4 { name } => Some(name),
            ExtraSpec::Bed5 { name, .. } => Some(name),
            ExtraSpec::Bed6 { name, .. } => Some(name),
            ExtraSpec::Bed12 { name, .. } => Some(name),
            ExtraSpec::BedMethyl { name, .. } => Some(name),
        }
    }

    /// The strand column, where the sub-format has one.
    pub open spec fn spec_strand(self) -> Option<Strand> {
        match self {
            ExtraSpec::Bed6 { strand, .. } => Some(strand),
            ExtraSpec::Bed12 { strand, .. } => Some(strand),
            ExtraSpec::BedMethyl { strand, .. } => Some(strand),
            _ => None,
        }
    }

    /// The thick interval start, where the sub-format has one.
    pub open spec fn spec_thick_start(self) -> Option<u64> {
        match self {
            ExtraSpec::Bed12 { thick_start, .. } => Some(thick_start),
            ExtraSpec::BedMethyl { thick_start, .. } => Some(thick_start),
            _ => None,
        }
    }

    /// The thick interval end, where the sub-format has one.
    pub open spec fn spec_thick_end(self) -> Option<u64> {
        match self {
            ExtraSpec::Bed12 { thick_end, .. } => Some(thick_end),
            ExtraSpec::BedMethyl { thick_end, .. } => Some(thick_end),
            _ => None,
        }
    }

    /// The item color, where present.
    pub open spec fn spec_item_rgb(self) -> Option<Seq<char>> {
        match self {
            ExtraSpec::Bed12 { item_rgb, .. } => item_rgb,
            ExtraSpec::BedMethyl { item_rgb, .. } => item_rgb,
            _ => None,
        }
    }
}

impl BedRecord {
    /// The record's name, where its sub-format has one.
    pub fn name(&self) -> (r: Option<String>)
        ensures
            opt_string_view(r) == self.fields@.spec_name_col(),
    {
        match &self.fields {
            BedExtra::Bed3(_) => None,
            BedExtra::Bed4(e) => Some(e.name.clone()),
            BedExtra::Bed5(e) => Some(e.name.clone()),
            BedExtra::Bed6(e) => Some(e.name.clone()),
            BedExtra::Bed12(e) => Some(e.name.clone()),
            BedExtra::BedMethyl(e) => Some(e.name.clone()),
        }
    }

    /// The record's score, where its sub-format has one.
    pub fn score(&self) -> (r: Option<u32>)
        ensures
            match self.fields {
                BedExtra::Bed5(e) => r == e.score,
                BedExtra::Bed6(e) => r == e.score,
                BedExtra::Bed12(e) => r == e.score,
                BedExtra::BedMethyl(e) => r == e.score,
                _ => r is None,
            },
    {
        match &self.fields {
            BedExtra::Bed5(e) => e.score,
            BedExtra::Bed6(e) => e.score,
            BedExtra::Bed12(e) => e.score,
            BedExtra::BedMethyl(e) => e.score,
            _ => None,
        }
    }

    /// The record's strand, where its sub-format has one.
    pub fn strand(&self) -> (r: Option<Strand>)
        ensures
            r == self.fields@.spec_strand(),
    {
        match &self.fields {
            BedExtra::Bed6(e) => Some(e.strand),
            BedExtra::Bed12(e) => Some(e.strand),
            BedExtra::BedMethyl(e) => Some(e.strand),
            _ => None,
        }
    }

    /// The thick interval start, where present.
    pub fn thick_start(&self) -> (r: Option<u64>)
        ensures
            r == self.fields@.spec_thick_start(),
    {
        match &self.fields {
            BedExtra::Bed12(e) => Some(e.thick_start),
            BedExtra::BedMethyl(e) => Some(e.thick_start),
            _ => None,
        }
    }

    /// The thick interval end, where present.
    pub fn thick_end(&self) -> (r: Option<u64>)
        ensures
            r == self.fields@.spec_thick_end(),
    {
        match &self.fields {
            BedExtra::Bed12(e) => Some(e.thick_end),
            BedExtra::BedMethyl(e) => Some(e.thick_end),
            _ => None,
        }
    }

    /// The item color, where present.
    pub fn item_rgb(&self) -> (r: Option<String>)
        ensures
            opt_string_view(r) == self.fields@.spec_item_rgb(),
    {
        match &self.fields {
            BedExtra::Bed12(e) => copy_opt_string(&e.item_rgb),
            BedExtra::BedMethyl(e) => copy_opt_string(&e.item_rgb),
            _ => None,
        }
    }

    /// The block count of a twelve-column record.
    pub fn block_count(&self) -> (r: Option<u32>)
        ensures
            match self.fields@ {
                ExtraSpec::Bed12 { block_count, .. } => r == Some(block_count),
                _ => r is None,
            },
    {
        match &self.fields {
            BedExtra::Bed12(e) => Some(e.block_count),
            _ => None,
        }
    }

    /// The block sizes of a twelve-column record.
    pub fn block_sizes(&self) -> (r: Option<Vec<u32>>)
        ensures
            match self.fields@ {
                ExtraSpec::Bed12 { block_sizes, .. } => r matches Some(v) && v@ == block_sizes,
                _ => r is None,
            },
    {
        match &self.fields {
            BedExtra::Bed12(e) => Some(copy_u32s(&e.block_sizes)),
            _ => None,
        }
    }

    /// The block starts of a twelve-column record.
    pub fn block_starts(&self) -> (r: Option<Vec<u32>>)
        ensures
            match self.fields@ {
                ExtraSpec::Bed12 { block_starts, .. } => r matches Some(v) && v@ == block_starts,
                _ => r is None,
            },
    {
        match &self.fields {
            BedExtra::Bed12(e) => Some(copy_u32s(&e.block_starts)),
            _ => None,
        }
    }

    /// The modified fraction of a base-modification record, as its
    /// lexical text.
    pub fn frac_mod(&self) -> (r: Option<String>)
        ensures
            match self.fields@ {
                ExtraSpec::BedMethyl { frac_mod, .. } => r matches Some(s) && s@ == frac_mod,
                _ => r is None,
            },
    {
        match &self.fields {
            BedExtra::BedMethyl(e) => Some(e.frac_mod.clone()),
            _ => None,
        }
    }

    /// The `n_valid_cov` count of a base-modification record.
    pub fn n_valid_cov(&self) -> (r: Option<u32>)
        ensures
            match self.fields@ {
                ExtraSpec::BedMethyl { n_valid_cov, .. } => r == Some(n_valid_cov),
                _ => r is None,
            },
    {
        match &self.fields {
            BedExtra::BedMethyl(e) => Some(e.n_valid_cov),
            _ => None,
        }
    }

    /// The `n_mod` count of a base-modification record.
    pub fn n_mod(&self) -> (r: Option<u32>)
        ensures
            match self.fields@ {
                ExtraSpec::BedMethyl { n_mod, .. } => r == Some(n_mod),
                _ => r is None,
            },
    {
        match &self.fields {
            BedExtra::BedMethyl(e) => Some(e.n_mod),
            _ => None,
        }
    }

    /// The `n_canonical` count of a base-modification record.
    pub fn n_canonical(&self) -> (r: Option<u32>)
        ensures
            match self.fields@ {
                ExtraSpec::BedMethyl { n_canonical, .. } => r == Some(n_canonical),
                _ => r is None,
            },
    {
        match &self.fields {
            BedExtra::BedMethyl(e) => Some(e.n_canonical),
            _ => None,
        }
    }

    /// The `n_other_mod` count of a base-modification record.
    pub fn n_other_mod(&self) -> (r: Option<u32>)
        ensures
            match self.fields@ {
                ExtraSpec::BedMethyl { n_other_mod, .. } => r == Some(n_other_mod),
                _ => r is None,
            },
    {
        match &self.fields {
            BedExtra::BedMethyl(e) => Some(e.n_other_mod),
            _ => None,
        }
    }

    /// The `n_delete` count of a base-modification record.
    pub fn n_delete(&self) -> (r: Option<u32>)
        ensures
            match self.fields@ {
                ExtraSpec::BedMethyl { n_delete, .. } => r == Some(n_delete),
                _ => r is None,
            },
    {
        match &self.fields {
            BedExtra::BedMethyl(e) => Some(e.n_delete),
            _ => None,
        }
    }

    /// The `n_fail` count of a base-modification record.
    pub fn n_fail(&self) -> (r: Option<u32>)
        ensures
            match self.fields@ {
                ExtraSpec::BedMethyl { n_fail, .. } => r == Some(n_fail),
                _ => r is None,
            },
    {
        match &self.fields {
            BedExtra::BedMethyl(e) => Some(e.n_fail),
            _ => None,
        }
    }

    /// The `n_diff` count of a base-modification record.
    pub fn n_diff(&self) -> (r: Option<u32>)
        ensures
            match self.fields@ {
                ExtraSpec::BedMethyl { n_diff, .. } => r == Some(n_diff),
                _ => r is None,
            },
    {
        match &self.fields {
            BedExtra::BedMethyl(e) => Some(e.n_diff),
            _ => None,
        }
    }

    /// The `n_nocall` count of a base-modification record.
    pub fn n_nocall(&self) -> (r: Option<u32>)
        ensures
            match self.fields@ {
                ExtraSpec::BedMethyl { n_nocall, .. } => r == Some(n_nocall),
                _ => r is None,
            },
    {
        match &self.fields {
            BedExtra::BedMethyl(e) => Some(e.n_nocall),
            _ => None,
        }
    }

    /// The record's reference name, resolved through the store that
    /// interned it.
    pub fn pretty_tid(&self, store: &TidStore) -> (r: Option<String>)
        ensures
            self.tid < store.names().len() ==> (match r {
                Some(s) => s@ == store.names()[self.tid as int],
                None => false,
            }),
            self.tid >= store.names().len() ==> r is None,
    {
        store.resolve(self.tid)
    }
}

} // verus!
