use vstd::prelude::*;

use crate::bed::{BedFormat, DetectOutcome, spec_detect};
use crate::error::Error;
use crate::meta::{Track, TrackSpec, BrowserMeta, spec_parse_track, spec_parse_browser,
    assoc_extend, parse_track_line, parse_browser_line};
use crate::parser::{line_end, strip_eol, is_blank, starts_with, tokens_of, scan_newline,
    check_blank, check_starts_with};
use crate::record::{BedRecord, RecModel, spec_parse_record, interned_names, intern_id,
    parse_record};
use crate::store::{TidStore, has_name, name_index, names_wf};
use crate::tabix;

verus! {

/// The first `k` lines of `s` starting at `pos`, each with its newline.
pub open spec fn lines_upto(s: Seq<char>, pos: int, k: nat) -> Seq<Seq<char>>
    decreases k,
{
    if k == 0 || pos >= s.len() || pos < 0 {
        Seq::empty()
    } else {
        let e0 = line_end(s, pos);
        let e = if e0 < pos + 1 {
            pos + 1
        } else if e0 > s.len() {
            s.len() as int
        } else {
            e0
        };
        Seq::empty().push(s.subrange(pos, e)) + lines_upto(s, e, (k - 1) as nat)
    }
}

/// Collects up to ten probe lines from the front of the text.
fn probe_lines(content: &str) -> (r: Vec<String>)
    ensures
        r.deep_view() == lines_upto(content@, 0, 10),
{
    let n = content.unicode_len();
    let mut r: Vec<String> = Vec::new();
    let mut pos: usize = 0;
    let mut k: usize = 0;
    proof {
        assert(r.deep_view() + lines_upto(content@, 0, 10) =~= lines_upto(content@, 0, 10));
    }
    while k < 10 && pos < n
        invariant_except_break
            k <= 10,
            pos <= n,
            n == content@.len(),
            r.deep_view() + lines_upto(content@, pos as int, (10 - k) as nat) =~= lines_upto(
                content@,
                0,
                10,
            ),
        ensures
            k <= 10,
            pos <= n,
            n == content@.len(),
            r.deep_view() + lines_upto(content@, pos as int, (10 - k) as nat) =~= lines_upto(
                content@,
                0,
                10,
            ),
            k >= 10 || pos >= n,
        decreases 10 - k,
    {
        let nl = scan_newline(content, pos);
        let e = if nl < n {
            nl + 1
        } else {
            n
        };
        let line = content.substring_char(pos, e);
        let ghost prev = r.deep_view();
        r.push(String::from_str(line));
        proof {
            assert(r.deep_view() =~= prev.push(line@));
            assert(line@ =~= content@.subrange(pos as int, e as int));
        }
        pos = e;
        k = k + 1;
    }
    proof {
        if k >= 10 {
            assert(lines_upto(content@, pos as int, 0) =~= Seq::<Seq<char>>::empty());
        } else {
            assert(lines_upto(content@, pos as int, (10 - k) as nat) =~= Seq::<Seq<char>>::empty());
        }
        assert(r.deep_view() + Seq::<Seq<char>>::empty() =~= r.deep_view());
        assert(r.deep_view() =~= lines_upto(content@, 0, 10));
    }
    r
}

/// The outcome of probing the first ten lines of the text.
pub open spec fn spec_probe(content: Seq<char>) -> DetectOutcome {
    spec_detect(lines_upto(content, 0, 10), false, false)
}

/// The names of a store after interning every name of `seqs`, in order.
pub open spec fn intern_fold(acc: Seq<Seq<char>>, seqs: Seq<Seq<char>>) -> Seq<Seq<char>>
    decreases seqs.len(),
{
    if seqs.len() == 0 {
        acc
    } else {
        intern_fold(interned_names(acc, seqs[0]), seqs.skip(1))
    }
}

/// Interning one name preserves freedom from duplicates.
proof fn lemma_interned_names_wf(pre: Seq<Seq<char>>, n: Seq<char>)
    requires
        names_wf(pre),
    ensures
        names_wf(interned_names(pre, n)),
{
    if !has_name(pre, n) {
        assert(forall|i: int| 0 <= i < pre.len() ==> #[trigger] pre[i] != n);
        assert(forall|i: int|
            0 <= i < pre.len() ==> interned_names(pre, n)[i] == #[trigger] pre[i]);
    }
}

/// Membership in a store survives further interning.
proof fn lemma_intern_fold_mono(acc: Seq<Seq<char>>, seqs: Seq<Seq<char>>, n: Seq<char>)
    requires
        has_name(acc, n),
    ensures
        has_name(intern_fold(acc, seqs), n),
    decreases seqs.len(),
{
    if seqs.len() > 0 {
        let acc2 = interned_names(acc, seqs[0]);
        if !has_name(acc, seqs[0]) {
            let w = choose|i: int| 0 <= i < acc.len() && acc[i] == n;
            assert(acc2[w] == n);
        }
        lemma_intern_fold_mono(acc2, seqs.skip(1), n);
    }
}

/// Interning a name list leaves the store duplicate-free, holding every
/// interned name, and grows it by at most the list's length.
proof fn lemma_intern_fold(acc: Seq<Seq<char>>, seqs: Seq<Seq<char>>)
    requires
        names_wf(acc),
    ensures
        names_wf(intern_fold(acc, seqs)),
        forall|i: int| 0 <= i < seqs.len() ==> has_name(intern_fold(acc, seqs), #[trigger] seqs[i]),
        intern_fold(acc, seqs).len() <= acc.len() + seqs.len(),
    decreases seqs.len(),
{
    if seqs.len() > 0 {
        let acc2 = interned_names(acc, seqs[0]);
        assert(names_wf(acc2)) by {
            if !has_name(acc, seqs[0]) {
                assert(forall|i: int|
                    0 <= i < acc.len() ==> acc2[i] == #[trigger] acc[i] && acc[i] != seqs[0]);
            }
        }
        assert(has_name(acc2, seqs[0])) by {
            if !has_name(acc, seqs[0]) {
                assert(acc2[acc.len() as int] == seqs[0]);
            }
        }
        lemma_intern_fold(acc2, seqs.skip(1));
        lemma_intern_fold_mono(acc2, seqs.skip(1), seqs[0]);
        assert(forall|i: int|
            1 <= i < seqs.len() ==> seqs.skip(1)[i - 1] == #[trigger] seqs[i]);
    }
}

/// A reader over an in-memory BED text: the detected sub-format, the
/// optional tabix index, the scan position, the current `track` and
/// `browser` header state, and the name store.
#[derive(Debug)]
pub struct Reader {
    pub name: String,
    pub format: BedFormat,
    pub bgzf: bool,
    pub tbi_reader: Option<tabix::Reader>,
    pub content: String,
    pub pos: usize,
    pub track_line: Option<Track>,
    pub last_browser: Option<BrowserMeta>,
    pub reset_browser: bool,
    pub store: TidStore,
}

impl Reader {
    /// The reader is inside its text, its store has no duplicate names,
    /// and every reference name of its index is interned.
    pub open spec fn wf(self) -> bool {
        &&& self.pos <= self.content@.len()
        &&& self.store.wf()
        &&& match self.tbi_reader {
            Some(t) => t.wf() && forall|i: int|
                0 <= i < t.seqnames.deep_view().len() ==> has_name(
                    self.store.names(),
                    #[trigger] t.seqnames.deep_view()[i],
                ),
            None => true,
        }
    }

    /// Opens a reader over decompressed text. The sub-format comes from
    /// the first ten lines; a given index is parsed and its reference
    /// names interned. Fails with `BedFormat` when no sub-format can be
    /// detected, and with `TabixFormat` when the index bytes are corrupt.
    pub fn open(name: String, is_bgzf: bool, content: String, tbi_bytes: Option<&Vec<u8>>) -> (r:
        Result<Reader, Error>)
        ensures
            match r {
                Ok(rd) => {
                    &&& spec_probe(content@) matches DetectOutcome::Found { kind, has_tracks, has_browsers }
                        && rd.format == (BedFormat { kind, has_tracks, has_browsers })
                    &&& rd.name@ == name@
                    &&& rd.content@ == content@
                    &&& rd.bgzf == is_bgzf
                    &&& rd.pos == 0
                    &&& rd.track_line is None
                    &&& rd.last_browser is None
                    &&& rd.reset_browser == true
                    &&& match (tbi_bytes, &rd.tbi_reader) {
                        (Some(b), Some(t)) => {
                            &&& tabix::parse_tbi(b@) matches Some(m) && t.matches_model(m)
                            &&& rd.store.names() == intern_fold(
                                Seq::empty(),
                                t.seqnames.deep_view(),
                            )
                        },
                        (None, None) => rd.store.names() == Seq::<Seq<char>>::empty(),
                        _ => false,
                    }
                    &&& rd.store.names().len() < 0x80000000
                    &&& rd.wf()
                },
                Err(e) => match e {
                    Error::BedFormat(nm) => nm@ == name@ && !(spec_probe(
                        content@,
                    ) is Found),
                    Error::TabixFormat(nm) => nm@ == name@ && spec_probe(content@) is Found && (
                    tbi_bytes matches Some(b) && tabix::parse_tbi(b@) is None),
                    _ => false,
                },
            },
    {
        let lines = probe_lines(content.as_str());
        let format = match BedFormat::detect(&lines) {
            Ok(f) => f,
            Err(_) => {
                return Err(Error::BedFormat(name));
            },
        };
        let tbi_reader = match tbi_bytes {
            Some(b) => match tabix::Reader::from_bytes(name.as_str(), b) {
                Ok(t) => Some(t),
                Err(e) => {
                    return Err(e);
                },
            },
            None => None,
        };
        let mut store = TidStore::new();
        if let Some(t) = &tbi_reader {
            let ghost sv = t.seqnames.deep_view();
            let nn = t.seqnames.len();
            proof {
                assert(sv.len() == t.seqnames@.len());
                assert(sv.skip(0) =~= sv);
                if tbi_bytes is Some {
                    let m = tabix::parse_tbi(tbi_bytes.unwrap()@).unwrap();
                    assert(m.names.len() < 0x80000000);
                }
            }
            let mut i: usize = 0;
            while i < nn
                invariant
                    i <= nn,
                    nn == t.seqnames@.len(),
                    nn < 0x80000000,
                    sv == t.seqnames.deep_view(),
                    sv.len() == nn,
                    store.names().len() <= i,
                    names_wf(store.names()),
                    intern_fold(store.names(), sv.skip(i as int)) == intern_fold(
                        Seq::empty(),
                        sv,
                    ),
                decreases nn - i,
            {
                let ghost pre = store.names();
                proof {
                    assert(sv.skip(i as int)[0] == sv[i as int]);
                    assert(sv.skip(i as int).skip(1) =~= sv.skip(i + 1));
                }
                store.intern(t.seqnames[i].as_str());
                proof {
                    assert(store.names() == interned_names(pre, sv[i as int]));
                    lemma_interned_names_wf(pre, sv[i as int]);
                }
                i = i + 1;
            }
            proof {
                assert(sv.skip(nn as int) =~= Seq::<Seq<char>>::empty());
                lemma_intern_fold(Seq::empty(), sv);
            }
        }
        Ok(
            Reader {
                name,
                format,
                bgzf: is_bgzf,
                tbi_reader,
                content,
                pos: 0,
                track_line: None,
                last_browser: None,
                reset_browser: true,
                store,
            },
        )
    }
}

// ---------------------------------------------------------------------------
// Line scanning
// ---------------------------------------------------------------------------

/// The scan state of a reader: position, current track, current browser
/// block, and whether the next browser line starts a fresh block.
pub struct ScanState {
    pub pos: int,
    pub track: Option<TrackSpec>,
    pub browser: Option<Seq<(Seq<char>, Seq<char>)>>,
    pub reset: bool,
}

/// The view of an optional track.
pub open spec fn option_track_view(o: Option<Track>) -> Option<TrackSpec> {
    match o {
        Some(t) => Some(t@),
        None => None,
    }
}

/// The view of an optional browser block.
pub open spec fn option_browser_view(o: Option<BrowserMeta>) -> Option<
    Seq<(Seq<char>, Seq<char>)>,
> {
    match o {
        Some(b) => Some(b@),
        None => None,
    }
}

/// How one scan of the text ends: the end of the text, a header line that
/// does not parse, or a data line with the state that then holds.
pub enum ScanResult {
    Eof { st: ScanState },
    Fail { line: Seq<char> },
    Data { st: ScanState, line: Seq<char> },
}

/// The scan state of a freshly opened reader.
pub open spec fn initial_scan_state() -> ScanState {
    ScanState { pos: 0, track: None, browser: None, reset: true }
}

/// Scans from `st` to the next data line: blank lines are skipped, `track`
/// lines replace the current track, and `browser` lines maintain the
/// current block (only when `with_meta` holds; otherwise they are
/// skipped). A data line is returned with its body and the state after it.
pub open spec fn scan_lines(content: Seq<char>, st: ScanState, with_meta: bool) -> ScanResult
    decreases content.len() - st.pos,
{
    if st.pos >= content.len() || st.pos < 0 {
        ScanResult::Eof { st }
    } else {
        let e0 = line_end(content, st.pos);
        let e = if e0 < st.pos + 1 {
            st.pos + 1
        } else if e0 > content.len() {
            content.len() as int
        } else {
            e0
        };
        let body = strip_eol(content.subrange(st.pos, e));
        let st1 = ScanState { pos: e, ..st };
        if is_blank(body) {
            scan_lines(content, st1, with_meta)
        } else if starts_with(body, "track"@) {
            match spec_parse_track(body) {
                Some(t) => scan_lines(content, ScanState { track: Some(t), ..st1 }, with_meta),
                None => ScanResult::Fail { line: body },
            }
        } else if starts_with(body, "browser"@) {
            if !with_meta {
                scan_lines(content, st1, with_meta)
            } else {
                match spec_parse_browser(body) {
                    Some(attrs) => {
                        let nb = if st.reset {
                            Some(attrs)
                        } else {
                            match st.browser {
                                Some(b0) => Some(assoc_extend(b0, attrs)),
                                None => Some(attrs),
                            }
                        };
                        scan_lines(
                            content,
                            ScanState { browser: nb, reset: false, ..st1 },
                            with_meta,
                        )
                    },
                    None => ScanResult::Fail { line: body },
                }
            }
        } else {
            ScanResult::Data {
                st: ScanState {
                    reset: if with_meta {
                        true
                    } else {
                        st.reset
                    },
                    ..st1
                },
                line: body,
            }
        }
    }
}

/// What consuming one line yields: nothing yet, or a record.
enum StepResult {
    Again,
    Rec(Option<Track>, BedRecord),
}

impl Reader {
    /// The reader's scan state.
    pub open spec fn scan_state(self) -> ScanState {
        ScanState {
            pos: self.pos as int,
            track: option_track_view(self.track_line),
            browser: option_browser_view(self.last_browser),
            reset: self.reset_browser,
        }
    }

    /// Everything a read leaves untouched: the source, its format, the
    /// container kind and the index.
    pub open spec fn same_source(self, other: Reader) -> bool {
        &&& self.name == other.name
        &&& self.format == other.format
        &&& self.bgzf == other.bgzf
        &&& self.content == other.content
        &&& self.tbi_reader == other.tbi_reader
    }

    /// Reads forward to the next record, maintaining the header state.
    fn read_next_impl(&mut self, with_meta: bool) -> (r: Result<
        Option<(Option<Track>, BedRecord)>,
        Error,
    >)
        requires
            old(self).wf(),
            old(self).store.names().len() < 0xFFFFFFFF,
        ensures
            final(self).wf(),
            old(self).same_source(*final(self)),
            match r {
                Ok(None) => {
                    &&& scan_lines(old(self).content@, old(self).scan_state(), with_meta)
                        matches ScanResult::Eof { st } && final(self).scan_state() == st
                    &&& final(self).store == old(self).store
                },
                Ok(Some((tr, rec))) => {
                    &&& scan_lines(old(self).content@, old(self).scan_state(), with_meta)
                        matches ScanResult::Data { st, line } && {
                        &&& final(self).scan_state() == st
                        &&& spec_parse_record(old(self).format.kind, tokens_of(line))
                            matches Some(m) && {
                            &&& rec.start == m.start
                            &&& rec.end == m.end
                            &&& rec.fields@ == m.extra
                            &&& final(self).store.names() == interned_names(
                                old(self).store.names(),
                                m.tid_name,
                            )
                            &&& rec.tid == intern_id(old(self).store.names(), m.tid_name)
                        }
                        &&& option_track_view(tr) == st.track
                    }
                },
                Err(e) => {
                    &&& final(self).store == old(self).store
                    &&& match e {
                        Error::BedFormat(nm) => nm@ == old(self).name@ && scan_lines(
                            old(self).content@,
                            old(self).scan_state(),
                            with_meta,
                        ) is Fail,
                        Error::BedMismatch(s) => s@ == old(self).format.kind.spec_name()
                            && (scan_lines(old(self).content@, old(self).scan_state(), with_meta)
                            matches ScanResult::Data { st, line } && spec_parse_record(
                            old(self).format.kind,
                            tokens_of(line),
                        ) is None),
                        _ => false,
                    }
                },
            },
    {
        let n = self.content.as_str().unicode_len();
        loop
            invariant
                self.wf(),
                n == self.content@.len(),
                old(self).same_source(*self),
                self.store == old(self).store,
                old(self).store.names().len() < 0xFFFFFFFF,
                scan_lines(old(self).content@, old(self).scan_state(), with_meta) == scan_lines(
                    self.content@,
                    self.scan_state(),
                    with_meta,
                ),
            decreases n - self.pos,
        {
            if self.pos >= n {
                return Ok(None);
            }
            match self.step_line(with_meta) {
                Ok(StepResult::Again) => {
                },
                Ok(StepResult::Rec(tr, rec)) => {
                    return Ok(Some((tr, rec)));
                },
                Err(e) => {
                    return Err(e);
                },
            }
        }
    }

    /// Consumes one line: a blank or header line folds into the state, a
    /// data line becomes a record.
    #[verifier::rlimit(100)]
    fn step_line(&mut self, with_meta: bool) -> (r: Result<StepResult, Error>)
        requires
            old(self).wf(),
            old(self).pos < old(self).content@.len(),
            old(self).store.names().len() < 0xFFFFFFFF,
        ensures
            final(self).wf(),
            old(self).same_source(*final(self)),
            r is Ok ==> old(self).pos < final(self).pos <= final(self).content@.len(),
            match r {
                Ok(StepResult::Again) => {
                    &&& scan_lines(old(self).content@, old(self).scan_state(), with_meta)
                        == scan_lines(final(self).content@, final(self).scan_state(), with_meta)
                    &&& final(self).store == old(self).store
                },
                Ok(StepResult::Rec(tr, rec)) => {
                    &&& scan_lines(old(self).content@, old(self).scan_state(), with_meta)
                        matches ScanResult::Data { st, line } && {
                        &&& final(self).scan_state() == st
                        &&& spec_parse_record(old(self).format.kind, tokens_of(line))
                            matches Some(m) && {
                            &&& rec.start == m.start
                            &&& rec.end == m.end
                            &&& rec.fields@ == m.extra
                            &&& final(self).store.names() == interned_names(
                                old(self).store.names(),
                                m.tid_name,
                            )
                            &&& rec.tid == intern_id(old(self).store.names(), m.tid_name)
                        }
                        &&& option_track_view(tr) == st.track
                    }
                },
                Err(e) => {
                    &&& final(self).store == old(self).store
                    &&& match e {
                        Error::BedFormat(nm) => nm@ == old(self).name@ && scan_lines(
                            old(self).content@,
                            old(self).scan_state(),
                            with_meta,
                        ) is Fail,
                        Error::BedMismatch(s) => s@ == old(self).format.kind.spec_name()
                            && (scan_lines(old(self).content@, old(self).scan_state(), with_meta)
                            matches ScanResult::Data { st, line } && spec_parse_record(
                            old(self).format.kind,
                            tokens_of(line),
                        ) is None),
                        _ => false,
                    }
                },
            },
    {
        let n = self.content.as_str().unicode_len();
        let nl = scan_newline(self.content.as_str(), self.pos);
        let e = if nl < n {
            nl + 1
        } else {
            n
        };
        let body_hi = if nl > self.pos && self.content.as_str().get_char(nl - 1) == '\r' {
            nl - 1
        } else {
            nl
        };
        let body = String::from_str(self.content.as_str().substring_char(self.pos, body_hi));
        proof {
            let raw = self.content@.subrange(self.pos as int, e as int);
            if nl < n {
                assert(raw[e - 1 - self.pos] == self.content@[nl as int]);
                assert(raw.drop_last() =~= self.content@.subrange(self.pos as int, nl as int));
            } else {
                assert(forall|k: int| self.pos <= k < n ==> self.content@[k] != '\n');
                assert(raw.len() == 0 || raw[raw.len() - 1] != '\n');
            }
            let a = self.content@.subrange(self.pos as int, nl as int);
            if nl > self.pos && self.content@[nl - 1] == '\r' {
                assert(a[a.len() - 1] == self.content@[nl - 1]);
                assert(a.drop_last() =~= self.content@.subrange(self.pos as int, body_hi as int));
            } else {
                assert(a.len() == 0 || a[a.len() - 1] != '\r');
            }
            assert(body@ =~= strip_eol(raw));
        }
        if check_blank(body.as_str()) {
            self.pos = e;
            return Ok(StepResult::Again);
        }
        proof {
            reveal_strlit("track");
            reveal_strlit("browser");
        }
        if check_starts_with(body.as_str(), "track") {
            match parse_track_line(body.as_str()) {
                Ok(t) => {
                    self.track_line = Some(t);
                    self.pos = e;
                    return Ok(StepResult::Again);
                },
                Err(()) => {
                    return Err(Error::BedFormat(self.name.clone()));
                },
            }
        }
        if check_starts_with(body.as_str(), "browser") {
            if !with_meta {
                self.pos = e;
                return Ok(StepResult::Again);
            }
            match parse_browser_line(body.as_str()) {
                Ok(b) => {
                    if self.reset_browser {
                        self.last_browser = Some(b);
                    } else {
                        match &mut self.last_browser {
                            Some(ex) => {
                                ex.extend_pairs(&b.attrs);
                            },
                            None => {
                                self.last_browser = Some(b);
                            },
                        }
                    }
                    self.reset_browser = false;
                    self.pos = e;
                    return Ok(StepResult::Again);
                },
                Err(()) => {
                    return Err(Error::BedFormat(self.name.clone()));
                },
            }
        }
        self.pos = e;
        if with_meta {
            self.reset_browser = true;
        }
        let toks = crate::parser::tokenize(body.as_str());
        let kind = self.format.kind;
        match parse_record(&mut self.store, kind, &toks) {
            Ok(rec) => {
                proof {
                    let pre = old(self).store.names();
                    let post = self.store.names();
                    assert forall|nm: Seq<char>| has_name(pre, nm) implies has_name(
                        post,
                        nm,
                    ) by {
                        let w = choose|i: int| 0 <= i < pre.len() && pre[i] == nm;
                        assert(post[w] == nm);
                    }
                }
                let tr = match &self.track_line {
                    Some(t) => Some(t.clone()),
                    None => None,
                };
                Ok(StepResult::Rec(tr, rec))
            },
            Err(e2) => Err(e2),
        }
    }

    /// Reads the next record, tagged with the current track. Header lines
    /// are folded into the reader's state on the way; browser lines are
    /// skipped. `None` at the end of the text.
    pub fn read_line(&mut self) -> (r: Result<Option<(Option<Track>, BedRecord)>, Error>)
        requires
            old(self).wf(),
            old(self).store.names().len() < 0xFFFFFFFF,
        ensures
            final(self).wf(),
            old(self).same_source(*final(self)),
            match r {
                Ok(None) => {
                    &&& scan_lines(old(self).content@, old(self).scan_state(), false)
                        matches ScanResult::Eof { st } && final(self).scan_state() == st
                    &&& final(self).store == old(self).store
                },
                Ok(Some((tr, rec))) => {
                    &&& scan_lines(old(self).content@, old(self).scan_state(), false)
                        matches ScanResult::Data { st, line } && {
                        &&& final(self).scan_state() == st
                        &&& spec_parse_record(old(self).format.kind, tokens_of(line))
                            matches Some(m) && {
                            &&& rec.start == m.start
                            &&& rec.end == m.end
                            &&& rec.fields@ == m.extra
                            &&& final(self).store.names() == interned_names(
                                old(self).store.names(),
                                m.tid_name,
                            )
                            &&& rec.tid == intern_id(old(self).store.names(), m.tid_name)
                        }
                        &&& option_track_view(tr) == st.track
                    }
                },
                Err(e) => {
                    &&& final(self).store == old(self).store
                    &&& match e {
                        Error::BedFormat(nm) => nm@ == old(self).name@ && scan_lines(
                            old(self).content@,
                            old(self).scan_state(),
                            false,
                        ) is Fail,
                        Error::BedMismatch(s) => s@ == old(self).format.kind.spec_name()
                            && (scan_lines(old(self).content@, old(self).scan_state(), false)
                            matches ScanResult::Data { st, line } && spec_parse_record(
                            old(self).format.kind,
                            tokens_of(line),
                        ) is None),
                        _ => false,
                    }
                },
            },
    {
        self.read_next_impl(false)
    }

    /// Reads the next record, tagged with the current track, and writes
    /// the browser block current at that record into `browser_meta`.
    pub fn read_line_with_meta(&mut self, browser_meta: &mut Option<BrowserMeta>) -> (r: Result<
        Option<(Option<Track>, BedRecord)>,
        Error,
    >)
        requires
            old(self).wf(),
            old(self).store.names().len() < 0xFFFFFFFF,
        ensures
            final(self).wf(),
            old(self).same_source(*final(self)),
            match r {
                Ok(None) => {
                    &&& scan_lines(old(self).content@, old(self).scan_state(), true)
                        matches ScanResult::Eof { st } && final(self).scan_state() == st
                    &&& final(self).store == old(self).store
                    &&& *final(browser_meta) == *old(browser_meta)
                },
                Ok(Some((tr, rec))) => {
                    &&& scan_lines(old(self).content@, old(self).scan_state(), true)
                        matches ScanResult::Data { st, line } && {
                        &&& final(self).scan_state() == st
                        &&& spec_parse_record(old(self).format.kind, tokens_of(line))
                            matches Some(m) && {
                            &&& rec.start == m.start
                            &&& rec.end == m.end
                            &&& rec.fields@ == m.extra
                            &&& final(self).store.names() == interned_names(
                                old(self).store.names(),
                                m.tid_name,
                            )
                            &&& rec.tid == intern_id(old(self).store.names(), m.tid_name)
                        }
                        &&& option_track_view(tr) == st.track
                        &&& option_browser_view(*final(browser_meta)) == st.browser
                    }
                },
                Err(e) => {
                    &&& final(self).store == old(self).store
                    &&& match e {
                        Error::BedFormat(nm) => nm@ == old(self).name@ && scan_lines(
                            old(self).content@,
                            old(self).scan_state(),
                            true,
                        ) is Fail,
                        Error::BedMismatch(s) => s@ == old(self).format.kind.spec_name()
                            && (scan_lines(old(self).content@, old(self).scan_state(), true)
                            matches ScanResult::Data { st, line } && spec_parse_record(
                            old(self).format.kind,
                            tokens_of(line),
                        ) is None),
                        _ => false,
                    }
                },
            },
    {
        let r = self.read_next_impl(true);
        match r {
            Ok(Some(v)) => {
                *browser_meta = match &self.last_browser {
                    Some(b) => Some(b.clone()),
                    None => None,
                };
                Ok(Some(v))
            },
            other => other,
        }
    }

    /// Returns the reader to the start of its text, as freshly opened:
    /// the position, the current track and the browser block are reset;
    /// the store keeps its names.
    pub fn seek_to_start(&mut self)
        requires
            old(self).wf(),
        ensures
            final(self).wf(),
            old(self).same_source(*final(self)),
            final(self).store == old(self).store,
            final(self).scan_state() == initial_scan_state(),
    {
        self.pos = 0;
        self.track_line = None;
        self.last_browser = None;
        self.reset_browser = true;
    }
}

// ---------------------------------------------------------------------------
// Region reads
// ---------------------------------------------------------------------------

/// A coordinate clamped into `u32` range (positions at or beyond the
/// binning bound behave alike, so clamping keeps the query's meaning).
pub open spec fn clamp_u32(x: u64) -> u32 {
    if x > u32::MAX {
        u32::MAX
    } else {
        x as u32
    }
}

/// Clamps a coordinate into `u32` range.
fn clamp_u32_exec(x: u64) -> (r: u32)
    ensures
        r == clamp_u32(x),
{
    if x > u32::MAX as u64 {
        u32::MAX
    } else {
        x as u32
    }
}

/// The records of a stretch of region bytes: every line must parse as a
/// record of the sub-format; `None` when one does not.
pub open spec fn region_records(kind: crate::bed::BedKind, text: Seq<char>, pos: int) -> Option<
    Seq<RecModel>,
>
    decreases text.len() - pos,
{
    if pos >= text.len() || pos < 0 {
        Some(Seq::empty())
    } else {
        let e0 = line_end(text, pos);
        let e = if e0 < pos + 1 {
            pos + 1
        } else if e0 > text.len() {
            text.len() as int
        } else {
            e0
        };
        let body = strip_eol(text.subrange(pos, e));
        match spec_parse_record(kind, tokens_of(body)) {
            None => None,
            Some(m) => match region_records(kind, text, e) {
                None => None,
                Some(rest) => Some(Seq::empty().push(m) + rest),
            },
        }
    }
}

/// Whether the records of `out` realise the models of `ms` under the
/// store names `names`: same intervals and payloads, and each record's id
/// resolves to its model's reference name.
pub open spec fn recs_match(out: Seq<BedRecord>, ms: Seq<RecModel>, names: Seq<Seq<char>>) -> bool {
    &&& out.len() == ms.len()
    &&& forall|i: int|
        0 <= i < out.len() ==> {
            &&& (#[trigger] out[i]).start == ms[i].start
            &&& out[i].end == ms[i].end
            &&& out[i].fields@ == ms[i].extra
            &&& out[i].tid < names.len()
            &&& names[out[i].tid as int] == ms[i].tid_name
        }
}

/// The reference names of a model list.
pub open spec fn model_tids(ms: Seq<RecModel>) -> Seq<Seq<char>> {
    ms.map_values(|m: RecModel| m.tid_name)
}

/// The models overlapping `[start, end)` on the reference named `tid`.
pub open spec fn filter_models(ms: Seq<RecModel>, tid: Seq<char>, start: u64, end: u64) -> Seq<
    RecModel,
>
    decreases ms.len(),
{
    if ms.len() == 0 {
        Seq::empty()
    } else {
        let rest = filter_models(ms.skip(1), tid, start, end);
        if ms[0].tid_name == tid && ms[0].start < end && ms[0].end > start {
            Seq::empty().push(ms[0]) + rest
        } else {
            rest
        }
    }
}

/// Every filtered model overlaps the query on the queried reference.
proof fn lemma_filter_models_pred(ms: Seq<RecModel>, tid: Seq<char>, start: u64, end: u64)
    ensures
        forall|i: int|
            0 <= i < filter_models(ms, tid, start, end).len() ==> {
                &&& (#[trigger] filter_models(ms, tid, start, end)[i]).tid_name == tid
                &&& filter_models(ms, tid, start, end)[i].start < end
                &&& filter_models(ms, tid, start, end)[i].end > start
            },
    decreases ms.len(),
{
    if ms.len() > 0 {
        lemma_filter_models_pred(ms.skip(1), tid, start, end);
    }
}

impl Reader {
    /// The guard every random-access call passes: a block-compressed
    /// source and an open index.
    pub open spec fn region_ready(self) -> bool {
        self.bgzf && self.tbi_reader is Some
    }

    /// The union of all chunks of the reference named `tid`: `Ok(None)`
    /// when the index does not know the name, and the random-access
    /// errors when the source is plain or the index is missing.
    pub fn region_offsets(&self, tid: &str) -> (r: Result<Option<Vec<tabix::Chunk>>, Error>)
        requires
            self.wf(),
        ensures
            match r {
                Ok(opt) => self.region_ready() && (self.tbi_reader matches Some(t) && (match opt {
                    Some(v) => has_name(t.seqnames.deep_view(), tid@) && v@
                        == tabix::spec_all_chunks(
                        tabix::bins_view(
                            t.ref_indices@[name_index(t.seqnames.deep_view(), tid@)].bins@,
                        ),
                    ),
                    None => !has_name(t.seqnames.deep_view(), tid@),
                })),
                Err(e) => match e {
                    Error::PlainBedRegion(nm) => !self.bgzf && nm@ == self.name@,
                    Error::TabixNotOpen(nm) => self.bgzf && self.tbi_reader is None && nm@
                        == self.name@,
                    _ => false,
                },
            },
    {
        if !self.bgzf {
            return Err(Error::PlainBedRegion(self.name.clone()));
        }
        match &self.tbi_reader {
            None => Err(Error::TabixNotOpen(self.name.clone())),
            Some(t) => Ok(t.offsets_for_tid(tid)),
        }
    }

    /// The chunks of the reference named `tid` whose bins can overlap
    /// `[start, end)`, with the guards of `region_offsets`.
    pub fn region_offsets_in(&self, tid: &str, start: u64, end: u64) -> (r: Result<
        Option<Vec<tabix::Chunk>>,
        Error,
    >)
        requires
            self.wf(),
        ensures
            match r {
                Ok(opt) => self.region_ready() && (self.tbi_reader matches Some(t) && (match opt {
                    Some(v) => has_name(t.seqnames.deep_view(), tid@) && v@
                        == tabix::spec_region_chunks(
                        tabix::bins_view(
                            t.ref_indices@[name_index(t.seqnames.deep_view(), tid@)].bins@,
                        ),
                        tabix::spec_region_bins(clamp_u32(start), clamp_u32(end)),
                    ),
                    None => !has_name(t.seqnames.deep_view(), tid@),
                })),
                Err(e) => match e {
                    Error::PlainBedRegion(nm) => !self.bgzf && nm@ == self.name@,
                    Error::TabixNotOpen(nm) => self.bgzf && self.tbi_reader is None && nm@
                        == self.name@,
                    _ => false,
                },
            },
    {
        if !self.bgzf {
            return Err(Error::PlainBedRegion(self.name.clone()));
        }
        match &self.tbi_reader {
            None => Err(Error::TabixNotOpen(self.name.clone())),
            Some(t) => Ok(
                t.offsets_for_tid_region(tid, clamp_u32_exec(start), clamp_u32_exec(end)),
            ),
        }
    }

    /// Parses a stretch of fetched region bytes into records, exactly as
    /// `region_records` describes, interning reference names on the way.
    #[verifier::rlimit(100)]
    fn parse_region_records(&mut self, text: &str) -> (r: Result<Vec<BedRecord>, Error>)
        requires
            old(self).wf(),
            old(self).store.names().len() + text@.len() < 0xFFFFFFFF,
        ensures
            final(self).wf(),
            old(self).same_source(*final(self)),
            final(self).scan_state() == old(self).scan_state(),
            final(self).store.names().len() <= old(self).store.names().len() + text@.len(),
            match r {
                Ok(v) => {
                    &&& region_records(old(self).format.kind, text@, 0) matches Some(ms) && {
                        &&& recs_match(v@, ms, final(self).store.names())
                        &&& final(self).store.names() == intern_fold(
                            old(self).store.names(),
                            model_tids(ms),
                        )
                    }
                },
                Err(e) => {
                    &&& region_records(old(self).format.kind, text@, 0) is None
                    &&& e matches Error::BedMismatch(s) && s@ == old(self).format.kind.spec_name()
                },
            },
    {
        let n = text.unicode_len();
        let kind = self.format.kind;
        let mut out: Vec<BedRecord> = Vec::new();
        let mut pos: usize = 0;
        let ghost names0 = self.store.names();
        loop
            invariant
                pos <= n,
                n == text@.len(),
                self.wf(),
                old(self).same_source(*self),
                self.scan_state() == old(self).scan_state(),
                kind == old(self).format.kind,
                names0 == old(self).store.names(),
                names0.len() + n < 0xFFFFFFFF,
                self.store.names().len() <= names0.len() + pos,
                match region_records(kind, text@, pos as int) {
                    Some(rest) => region_records(kind, text@, 0) matches Some(all) && {
                        &&& recs_match(out@, all.subrange(0, out@.len() as int), self.store.names())
                        &&& all =~= all.subrange(0, out@.len() as int) + rest
                        &&& intern_fold(names0, model_tids(all)) == intern_fold(
                            self.store.names(),
                            model_tids(rest),
                        )
                    },
                    None => region_records(kind, text@, 0) is None,
                },
            ensures
                pos == n,
                self.wf(),
                old(self).same_source(*self),
                self.scan_state() == old(self).scan_state(),
                names0 == old(self).store.names(),
                self.store.names().len() <= names0.len() + pos,
                region_records(kind, text@, 0) matches Some(all) && {
                    &&& recs_match(out@, all, self.store.names())
                    &&& intern_fold(names0, model_tids(all)) == self.store.names()
                },
            decreases n - pos,
        {
            if pos >= n {
                proof {
                    let all = region_records(kind, text@, 0).unwrap();
                    assert(model_tids(Seq::<RecModel>::empty()) =~= Seq::<Seq<char>>::empty());
                    assert(all.subrange(0, out@.len() as int) =~= all);
                }
                break ;
            }
            let nl = scan_newline(text, pos);
            let e = if nl < n {
                nl + 1
            } else {
                n
            };
            let body_hi = if nl > pos && text.get_char(nl - 1) == '\r' {
                nl - 1
            } else {
                nl
            };
            let body = text.substring_char(pos, body_hi);
            proof {
                let raw = text@.subrange(pos as int, e as int);
                if nl < n {
                    assert(raw[e - 1 - pos] == text@[nl as int]);
                    assert(raw.drop_last() =~= text@.subrange(pos as int, nl as int));
                } else {
                    assert(forall|k: int| pos <= k < n ==> text@[k] != '\n');
                    assert(raw.len() == 0 || raw[raw.len() - 1] != '\n');
                }
                let a = text@.subrange(pos as int, nl as int);
                if nl > pos && text@[nl - 1] == '\r' {
                    assert(a[a.len() - 1] == text@[nl - 1]);
                    assert(a.drop_last() =~= text@.subrange(pos as int, body_hi as int));
                } else {
                    assert(a.len() == 0 || a[a.len() - 1] != '\r');
                }
                assert(body@ =~= strip_eol(raw));
            }
            let toks = crate::parser::tokenize(body);
            let ghost pre_names = self.store.names();
            let ghost pre_out = out@;
            match parse_record(&mut self.store, kind, &toks) {
                Ok(rec) => {
                    out.push(rec);
                    proof {
                        let m = spec_parse_record(kind, tokens_of(body@)).unwrap();
                        if region_records(kind, text@, e as int) is None {
                            assert(region_records(kind, text@, pos as int) is None);
                        } else {
                        let all = region_records(kind, text@, 0).unwrap();
                        let rest = region_records(kind, text@, pos as int).unwrap();
                        let rest2 = region_records(kind, text@, e as int).unwrap();
                        let pre_len = pre_out.len() as int;
                        assert(rest[0] == m);
                        assert(all[pre_len] == rest[0]);
                        assert(all.subrange(0, pre_len).push(m) =~= all.subrange(
                            0,
                            pre_len + 1,
                        ));
                        assert(out@ =~= pre_out.push(rec));
                        if has_name(pre_names, m.tid_name) {
                            crate::store::lemma_name_index_works(pre_names, m.tid_name);
                        }
                        assert(forall|k: int|
                            0 <= k < pre_names.len() ==> self.store.names()[k]
                                == #[trigger] pre_names[k]);
                        assert forall|i: int| 0 <= i < out@.len() implies {
                            &&& (#[trigger] out@[i]).start == all.subrange(
                                0,
                                out@.len() as int,
                            )[i].start
                            &&& out@[i].end == all.subrange(0, out@.len() as int)[i].end
                            &&& out@[i].fields@ == all.subrange(0, out@.len() as int)[i].extra
                            &&& out@[i].tid < self.store.names().len()
                            &&& self.store.names()[out@[i].tid as int] == all.subrange(
                                0,
                                out@.len() as int,
                            )[i].tid_name
                        } by {
                            if i < pre_len {
                                assert(pre_out[i] == out@[i]);
                                assert(all.subrange(0, pre_len)[i] == all.subrange(
                                    0,
                                    pre_len + 1,
                                )[i]);
                            } else {
                                assert(out@[i] == rec);
                                assert(all.subrange(0, pre_len + 1)[i] == m);
                            }
                        }
                        assert(model_tids(rest).skip(1) =~= model_tids(rest2));
                        assert(model_tids(rest)[0] == m.tid_name);
                        assert(intern_fold(pre_names, model_tids(rest)) == intern_fold(
                            self.store.names(),
                            model_tids(rest2),
                        ));
                        }
                        assert forall|nm: Seq<char>| has_name(
                            pre_names,
                            nm,
                        ) implies has_name(self.store.names(), nm) by {
                            let w = choose|q: int| 0 <= q < pre_names.len() && pre_names[q] == nm;
                            assert(self.store.names()[w] == nm);
                        }
                    }
                    pos = e;
                },
                Err(e2) => {
                    return Err(e2);
                },
            }
        }
        Ok(out)
    }
}

impl Reader {
    /// Reads every record of a whole-reference fetch: fails on a plain
    /// source or a missing index; an unknown reference name clears the
    /// output and succeeds; otherwise every line of `text` becomes a
    /// record, in order.
    pub fn read_lines_in_tid(&mut self, tid: &str, text: &str, out: &mut Vec<BedRecord>) -> (r:
        Result<(), Error>)
        requires
            old(self).wf(),
            old(self).store.names().len() + text@.len() < 0xFFFFFFFF,
        ensures
            final(self).wf(),
            old(self).same_source(*final(self)),
            final(self).scan_state() == old(self).scan_state(),
            match r {
                Ok(()) => old(self).region_ready() && (old(self).tbi_reader matches Some(t) && (
                if !has_name(t.seqnames.deep_view(), tid@) {
                    &&& final(out)@ == Seq::<BedRecord>::empty()
                    &&& final(self).store == old(self).store
                } else {
                    region_records(old(self).format.kind, text@, 0) matches Some(ms) && {
                        &&& recs_match(final(out)@, ms, final(self).store.names())
                        &&& final(self).store.names() == intern_fold(
                            old(self).store.names(),
                            model_tids(ms),
                        )
                    }
                })),
                Err(e) => match e {
                    Error::PlainBedRegion(nm) => !old(self).bgzf && nm@ == old(self).name@,
                    Error::TabixNotOpen(nm) => old(self).bgzf && old(self).tbi_reader is None
                        && nm@ == old(self).name@,
                    Error::BedMismatch(s) => old(self).region_ready() && s@ == old(
                        self,
                    ).format.kind.spec_name() && region_records(
                        old(self).format.kind,
                        text@,
                        0,
                    ) is None,
                    _ => false,
                },
            },
    {
        if !self.bgzf {
            return Err(Error::PlainBedRegion(self.name.clone()));
        }
        let known = match &self.tbi_reader {
            None => {
                return Err(Error::TabixNotOpen(self.name.clone()));
            },
            Some(t) => match t.find_tid_index(tid) {
                Some(_) => true,
                None => false,
            },
        };
        if !known {
            out.clear();
            return Ok(());
        }
        let recs = match self.parse_region_records(text) {
            Ok(v) => v,
            Err(e) => {
                return Err(e);
            },
        };
        *out = recs;
        Ok(())
    }

    /// Reads the records of a range fetch and keeps those overlapping
    /// `[start, end)` on the reference named `tid`, with the guards and
    /// the unknown-name behaviour of `read_lines_in_tid`.
    pub fn read_lines_in_tid_region(
        &mut self,
        tid: &str,
        start: u64,
        end: u64,
        text: &str,
        out: &mut Vec<BedRecord>,
    ) -> (r: Result<(), Error>)
        requires
            old(self).wf(),
            old(self).store.names().len() + text@.len() < 0xFFFFFFFF,
        ensures
            final(self).wf(),
            old(self).same_source(*final(self)),
            final(self).scan_state() == old(self).scan_state(),
            match r {
                Ok(()) => old(self).region_ready() && (old(self).tbi_reader matches Some(t) && (
                if !has_name(t.seqnames.deep_view(), tid@) {
                    &&& final(out)@ == Seq::<BedRecord>::empty()
                    &&& final(self).store == old(self).store
                } else {
                    region_records(old(self).format.kind, text@, 0) matches Some(ms) && {
                        &&& recs_match(
                            final(out)@,
                            filter_models(ms, tid@, start, end),
                            final(self).store.names(),
                        )
                        &&& final(self).store.names() == intern_fold(
                            old(self).store.names(),
                            model_tids(ms),
                        )
                        &&& forall|i: int|
                            0 <= i < final(out)@.len() ==> {
                                &&& final(self).store.names()[(
                                #[trigger] final(out)@[i]).tid as int] == tid@
                                &&& final(out)@[i].start < end
                                &&& final(out)@[i].end > start
                            }
                    }
                })),
                Err(e) => match e {
                    Error::PlainBedRegion(nm) => !old(self).bgzf && nm@ == old(self).name@,
                    Error::TabixNotOpen(nm) => old(self).bgzf && old(self).tbi_reader is None
                        && nm@ == old(self).name@,
                    Error::BedMismatch(s) => old(self).region_ready() && s@ == old(
                        self,
                    ).format.kind.spec_name() && region_records(
                        old(self).format.kind,
                        text@,
                        0,
                    ) is None,
                    _ => false,
                },
            },
    {
        if !self.bgzf {
            return Err(Error::PlainBedRegion(self.name.clone()));
        }
        let known = match &self.tbi_reader {
            None => {
                return Err(Error::TabixNotOpen(self.name.clone()));
            },
            Some(t) => match t.find_tid_index(tid) {
                Some(_) => true,
                None => false,
            },
        };
        if !known {
            out.clear();
            return Ok(());
        }
        let mut recs = match self.parse_region_records(text) {
            Ok(v) => v,
            Err(e) => {
                return Err(e);
            },
        };
        let ghost ms = region_records(self.format.kind, text@, 0).unwrap();
        let ghost names = self.store.names();
        let tid_id = match self.store.find(tid) {
            Some(id) => id,
            None => {
                proof {
                    assert(false);
                }
                return Err(Error::BedFormat(self.name.clone()));
            },
        };
        out.clear();
        let ghost full = recs@;
        let mut i: usize = 0;
        let n = recs.len();
        let ghost mut fdone = Seq::<RecModel>::empty();
        proof {
            assert(ms.skip(0) =~= ms);
            assert(fdone + filter_models(ms.skip(0), tid@, start, end) =~= filter_models(
                ms,
                tid@,
                start,
                end,
            ));
        }
        while i < n
            invariant
                i <= n,
                n == recs@.len(),
                recs@ == full,
                names == self.store.names(),
                recs_match(full, ms, names),
                ms.len() == n,
                self.store.wf(),
                tid_id < names.len() && names[tid_id as int] == tid@,
                recs_match(out@, fdone, names),
                fdone + filter_models(ms.skip(i as int), tid@, start, end) =~= filter_models(
                    ms,
                    tid@,
                    start,
                    end,
                ),
            decreases n - i,
        {
            proof {
                assert(ms.skip(i as int)[0] == ms[i as int]);
                assert(ms.skip(i as int).skip(1) =~= ms.skip(i + 1));
            }
            let keep = recs[i].tid == tid_id && recs[i].start < end && recs[i].end > start;
            proof {
                if recs@[i as int].tid == tid_id {
                    assert(names[recs@[i as int].tid as int] == tid@);
                } else {
                    if ms[i as int].tid_name == tid@ {
                        assert(names[recs@[i as int].tid as int] == tid@);
                        assert(names[tid_id as int] == names[recs@[i as int].tid as int]);
                        assert(recs@[i as int].tid == tid_id);
                    }
                }
            }
            if keep {
                let rec = recs[i].duplicate();
                let ghost prev = out@;
                let ghost fprev = fdone;
                out.push(rec);
                proof {
                    fdone = fdone.push(ms[i as int]);
                    assert(out@ =~= prev.push(rec));
                    assert(recs_match(out@, fdone, names));
                    assert(fprev.push(ms[i as int]) + filter_models(
                        ms.skip(i + 1),
                        tid@,
                        start,
                        end,
                    ) =~= fprev + (Seq::empty().push(ms[i as int]) + filter_models(
                        ms.skip(i + 1),
                        tid@,
                        start,
                        end,
                    )));
                }
            }
            i = i + 1;
        }
        proof {
            assert(ms.skip(n as int) =~= Seq::<RecModel>::empty());
            assert(fdone + Seq::<RecModel>::empty() =~= fdone);
            lemma_filter_models_pred(ms, tid@, start, end);
        }
        Ok(())
    }
}

// ---------------------------------------------------------------------------
// The record sequence of a scan
// ---------------------------------------------------------------------------

/// Up to `fuel` records read from `st` on, in source order, paired with
/// the track current at each; the sequence stops early at the end of the
/// text or at a failing line. The store plays no part: the sequence is a
/// function of the text, the sub-format and the scan state alone.
pub open spec fn records_from(
    content: Seq<char>,
    kind: crate::bed::BedKind,
    with_meta: bool,
    st: ScanState,
    fuel: nat,
) -> Seq<(Option<TrackSpec>, RecModel)>
    decreases fuel,
{
    if fuel == 0 {
        Seq::empty()
    } else {
        match scan_lines(content, st, with_meta) {
            ScanResult::Eof { .. } => Seq::empty(),
            ScanResult::Fail { .. } => Seq::empty(),
            ScanResult::Data { st: st2, line } => match spec_parse_record(
                kind,
                tokens_of(line),
            ) {
                None => Seq::empty(),
                Some(m) => Seq::empty().push((st2.track, m)) + records_from(
                    content,
                    kind,
                    with_meta,
                    st2,
                    (fuel - 1) as nat,
                ),
            },
        }
    }
}

/// Ordering: a successful read emits exactly the head of `records_from`
/// at the old state — the next record in source order, tagged with the
/// track in force there — and leaves the reader at the state whose
/// `records_from` is the tail.
pub proof fn lemma_read_emits_in_order(
    content: Seq<char>,
    kind: crate::bed::BedKind,
    with_meta: bool,
    st: ScanState,
    fuel: nat,
)
    requires
        fuel >= 1,
        scan_lines(content, st, with_meta) is Data,
    ensures
        ({
            let d = scan_lines(content, st, with_meta);
            match d {
                ScanResult::Data { st: st2, line } => match spec_parse_record(
                    kind,
                    tokens_of(line),
                ) {
                    Some(m) => records_from(content, kind, with_meta, st, fuel) == Seq::empty()
                        .push((st2.track, m)) + records_from(
                        content,
                        kind,
                        with_meta,
                        st2,
                        (fuel - 1) as nat,
                    ),
                    None => records_from(content, kind, with_meta, st, fuel) == Seq::<
                        (Option<TrackSpec>, RecModel),
                    >::empty(),
                },
                _ => true,
            }
        }),
{
}

/// Rewind idempotence: `seek_to_start` leaves the scan state of a freshly
/// opened reader, so the records that subsequent reads deliver — pinned
/// by `read_line`'s contract through `records_from` — are those of a
/// fresh reader over the same text and sub-format, whatever names the
/// store already holds.
pub proof fn lemma_rewind_replays(a: Reader, b: Reader, with_meta: bool, fuel: nat)
    requires
        a.content@ == b.content@,
        a.format == b.format,
        a.scan_state() == initial_scan_state(),
        b.scan_state() == initial_scan_state(),
    ensures
        records_from(a.content@, a.format.kind, with_meta, a.scan_state(), fuel) == records_from(
            b.content@,
            b.format.kind,
            with_meta,
            b.scan_state(),
            fuel,
        ),
{
}

} // verus!
