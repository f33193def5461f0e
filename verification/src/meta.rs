use vstd::prelude::*;

use crate::parser::{
    all_digits, dec_val, scan_while, key_char_fn, field_sep_fn, non_sep_fn, non_quote_fn,
    is_field_sep, starts_with, str_eq, scan_key_end, scan_ws_end, scan_non_ws_end, scan_quote_end,
    check_starts_with,
};

verus! {

// ---------------------------------------------------------------------------
// key=value attribute lists (track lines)
// ---------------------------------------------------------------------------

/// The decimal `u8` a token denotes, if it is one.
pub open spec fn u8_of(t: Seq<char>) -> Option<u8> {
    if all_digits(t) && dec_val(t) <= 255 {
        Some(dec_val(t) as u8)
    } else {
        None
    }
}

/// One `key=value` pair at the front of `s`: the key, the value (quoted or
/// bare), and the position after the pair and any following whitespace.
/// `None` when no pair starts here.
pub open spec fn kv_step(s: Seq<char>) -> Option<(Seq<char>, Seq<char>, int)> {
    let k = scan_while(s, 0, key_char_fn());
    if k <= 0 || k >= s.len() || s[k] != '=' {
        None
    } else {
        if k + 1 < s.len() && s[k + 1] == '"' && {
            let q = scan_while(s, k + 2, non_quote_fn());
            q > k + 2 && q < s.len()
        } {
            let q = scan_while(s, k + 2, non_quote_fn());
            let next = scan_while(s, q + 1, field_sep_fn());
            Some((s.subrange(0, k), s.subrange(k + 2, q), next))
        } else {
            let v = scan_while(s, k + 1, non_sep_fn());
            if v <= k + 1 {
                None
            } else {
                let next = scan_while(s, v, field_sep_fn());
                Some((s.subrange(0, k), s.subrange(k + 1, v), next))
            }
        }
    }
}

/// All `key=value` pairs readable from the front of `s`, in order; parsing
/// stops at the first position where no pair starts.
pub open spec fn kv_pairs(s: Seq<char>) -> Seq<(Seq<char>, Seq<char>)>
    decreases s.len(),
{
    match kv_step(s) {
        None => Seq::empty(),
        Some((k, v, next)) => {
            let nx = if next < 1 {
                1
            } else if next > s.len() {
                s.len() as int
            } else {
                next
            };
            Seq::empty().push((k, v)) + kv_pairs(s.skip(nx))
        },
    }
}

/// The view of an attribute vector.
pub open spec fn pairs_view(v: Seq<(String, String)>) -> Seq<(Seq<char>, Seq<char>)> {
    v.map_values(|p: (String, String)| (p.0@, p.1@))
}

/// Reads `key=value` pairs from the front of `s`, exactly as `kv_pairs`
/// describes.
pub fn parse_kv_pairs(s: &str) -> (r: Vec<(String, String)>)
    ensures
        pairs_view(r@) == kv_pairs(s@),
{
    let n = s.unicode_len();
    let mut out: Vec<(String, String)> = Vec::new();
    let mut cur: usize = 0;
    proof {
        assert(s@.skip(0) =~= s@);
        assert(pairs_view(out@) + kv_pairs(s@.skip(0)) =~= kv_pairs(s@));
    }
    loop
        invariant
            cur <= n,
            n == s@.len(),
            pairs_view(out@) + kv_pairs(s@.skip(cur as int)) =~= kv_pairs(s@),
        ensures
            pairs_view(out@) =~= kv_pairs(s@),
        decreases n - cur,
    {
        let t = s.substring_char(cur, n);
        proof {
            assert(t@ =~= s@.skip(cur as int));
        }
        let tn = t.unicode_len();
        let k = scan_key_end(t, 0);
        if k == 0 || k >= tn {
            proof {
                assert(pairs_view(out@) =~= kv_pairs(s@));
            }
            break ;
        }
        if t.get_char(k) != '=' {
            proof {
                assert(pairs_view(out@) =~= kv_pairs(s@));
            }
            break ;
        }
        let (key, value, next) = if k + 1 < tn && t.get_char(k + 1) == '"' && {
            let q = scan_quote_end(t, k + 2);
            q > k + 2 && q < tn
        } {
            let q = scan_quote_end(t, k + 2);
            let next = scan_ws_end(t, q + 1);
            (t.substring_char(0, k), t.substring_char(k + 2, q), next)
        } else {
            let v = scan_non_ws_end(t, k + 1);
            if v <= k + 1 {
                proof {
                    assert(pairs_view(out@) =~= kv_pairs(s@));
                }
                break ;
            }
            let next = scan_ws_end(t, v);
            (t.substring_char(0, k), t.substring_char(k + 1, v), next)
        };
        let nx: usize = if next < 1 {
            1
        } else {
            next
        };
        let ghost prev = pairs_view(out@);
        out.push((String::from_str(key), String::from_str(value)));
        proof {
            assert(pairs_view(out@) =~= prev.push((key@, value@)));
            assert(t@.skip(nx as int) =~= s@.skip(cur + nx));
        }
        cur = cur + nx;
    }
    out
}

// ---------------------------------------------------------------------------
// Track lines
// ---------------------------------------------------------------------------

/// Track metadata at the specification level.
pub struct TrackSpec {
    pub name: Option<Seq<char>>,
    pub description: Option<Seq<char>>,
    pub visibility: Option<u8>,
    pub item_rgb: Option<Seq<char>>,
    pub color: Option<Seq<char>>,
    pub use_score: Option<u8>,
}

/// Track metadata: the recognized attributes of the last `track` line.
#[derive(Debug)]
pub struct Track {
    pub name: Option<String>,
    pub description: Option<String>,
    pub visibility: Option<u8>,
    pub item_rgb: Option<String>,
    pub color: Option<String>,
    pub use_score: Option<u8>,
}

impl View for Track {
    type V = TrackSpec;

    open spec fn view(&self) -> TrackSpec {
        TrackSpec {
            name: match &self.name {
                Some(s) => Some(s@),
                None => None,
            },
            description: match &self.description {
                Some(s) => Some(s@),
                None => None,
            },
            visibility: self.visibility,
            item_rgb: match &self.item_rgb {
                Some(s) => Some(s@),
                None => None,
            },
            color: match &self.color {
                Some(s) => Some(s@),
                None => None,
            },
            use_score: self.use_score,
        }
    }
}

/// A track with no attributes set.
pub open spec fn empty_track() -> TrackSpec {
    TrackSpec {
        name: None,
        description: None,
        visibility: None,
        item_rgb: None,
        color: None,
        use_score: None,
    }
}

/// Applies one attribute pair to track metadata; unknown keys are ignored.
pub open spec fn track_apply(t: TrackSpec, kv: (Seq<char>, Seq<char>)) -> TrackSpec {
    if kv.0 == "name"@ {
        TrackSpec { name: Some(kv.1), ..t }
    } else if kv.0 == "description"@ {
        TrackSpec { description: Some(kv.1), ..t }
    } else if kv.0 == "visibility"@ {
        TrackSpec { visibility: u8_of(kv.1), ..t }
    } else if kv.0 == "itemRgb"@ {
        TrackSpec { item_rgb: Some(kv.1), ..t }
    } else if kv.0 == "color"@ {
        TrackSpec { color: Some(kv.1), ..t }
    } else if kv.0 == "useScore"@ {
        TrackSpec { use_score: u8_of(kv.1), ..t }
    } else {
        t
    }
}

/// The track metadata a pair list denotes, later pairs overriding earlier.
pub open spec fn track_of_pairs(pairs: Seq<(Seq<char>, Seq<char>)>) -> TrackSpec
    decreases pairs.len(),
{
    if pairs.len() == 0 {
        empty_track()
    } else {
        track_apply(track_of_pairs(pairs.drop_last()), pairs.last())
    }
}

/// The track metadata of a whole header line: the `track` keyword, at
/// least one space or tab, then attribute pairs. `None` when the line does
/// not have that shape.
pub open spec fn spec_parse_track(line: Seq<char>) -> Option<TrackSpec> {
    if !starts_with(line, "track"@) {
        None
    } else if !(line.len() > 5 && is_field_sep(line[5])) {
        None
    } else {
        let b = scan_while(line, 5, field_sep_fn());
        Some(track_of_pairs(kv_pairs(line.skip(b))))
    }
}

/// Parses a `track` header line, exactly as `spec_parse_track` describes.
pub fn parse_track_line(line: &str) -> (r: Result<Track, ()>)
    ensures
        match r {
            Ok(t) => spec_parse_track(line@) matches Some(m) && t@ == m,
            Err(()) => spec_parse_track(line@) is None,
        },
{
    let n = line.unicode_len();
    if !check_starts_with(line, "track") {
        proof {
            reveal_strlit("track");
        }
        return Err(());
    }
    proof {
        reveal_strlit("track");
    }
    if !(n > 5) {
        return Err(());
    }
    let c5 = line.get_char(5);
    if !(c5 == ' ' || c5 == '\t') {
        return Err(());
    }
    let b = scan_ws_end(line, 5);
    let rest = line.substring_char(b, n);
    proof {
        assert(rest@ =~= line@.skip(b as int));
    }
    let pairs = parse_kv_pairs(rest);
    let mut t = Track {
        name: None,
        description: None,
        visibility: None,
        item_rgb: None,
        color: None,
        use_score: None,
    };
    let np = pairs.len();
    let ghost pv = pairs_view(pairs@);
    let mut i: usize = 0;
    proof {
        assert(pv.subrange(0, 0) =~= Seq::<(Seq<char>, Seq<char>)>::empty());
    }
    while i < np
        invariant
            i <= np,
            np == pairs@.len(),
            pv == pairs_view(pairs@),
            pv.len() == np,
            t@ == track_of_pairs(pv.subrange(0, i as int)),
        decreases np - i,
    {
        let key = &pairs[i].0;
        let value = &pairs[i].1;
        proof {
            reveal_strlit("name");
            reveal_strlit("description");
            reveal_strlit("visibility");
            reveal_strlit("itemRgb");
            reveal_strlit("color");
            reveal_strlit("useScore");
        }
        if str_eq(key.as_str(), "name") {
            t.name = Some(value.clone());
        } else if str_eq(key.as_str(), "description") {
            t.description = Some(value.clone());
        } else if str_eq(key.as_str(), "visibility") {
            t.visibility = parse_u8_token(value.as_str());
        } else if str_eq(key.as_str(), "itemRgb") {
            t.item_rgb = Some(value.clone());
        } else if str_eq(key.as_str(), "color") {
            t.color = Some(value.clone());
        } else if str_eq(key.as_str(), "useScore") {
            t.use_score = parse_u8_token(value.as_str());
        }
        proof {
            assert(pv.subrange(0, i + 1).drop_last() =~= pv.subrange(0, i as int));
            assert(pv.subrange(0, i + 1).last() == pv[i as int]);
        }
        i = i + 1;
    }
    proof {
        assert(pv.subrange(0, np as int) =~= pv);
    }
    Ok(t)
}

/// Parses a token as a decimal `u8`, as `u8_of` describes.
pub fn parse_u8_token(s: &str) -> (r: Option<u8>)
    ensures
        r == u8_of(s@),
{
    match crate::parser::parse_u32_token(s) {
        Some(v) => {
            if v <= 255 {
                Some(v as u8)
            } else {
                None
            }
        },
        None => None,
    }
}

// ---------------------------------------------------------------------------
// Browser lines
// ---------------------------------------------------------------------------

/// Leading equals signs are dropped from a bare browser value.
pub open spec fn strip_eqs(t: Seq<char>) -> Seq<char>
    decreases t.len(),
{
    if t.len() > 0 && t[0] == '=' {
        strip_eqs(t.skip(1))
    } else {
        t
    }
}

/// One browser attribute at the front of `s`: `key value`, `key=value`,
/// or a trailing key with an empty value; `None` when no attribute starts
/// here. Returns the key, the value and the position after the pair and
/// any following whitespace.
pub open spec fn browser_step(s: Seq<char>) -> Option<(Seq<char>, Seq<char>, int)> {
    let k = scan_while(s, 0, key_char_fn());
    if k <= 0 {
        None
    } else if k < s.len() && s[k] == '=' {
        let v = scan_while(s, k + 1, non_sep_fn());
        let next = scan_while(s, v, field_sep_fn());
        Some((s.subrange(0, k), s.subrange(k + 1, v), next))
    } else {
        let w = scan_while(s, k, field_sep_fn());
        if w == k {
            None
        } else if w >= s.len() {
            Some((s.subrange(0, k), Seq::empty(), s.len() as int))
        } else if s[w] == '"' && {
            let q = scan_while(s, w + 1, non_quote_fn());
            q > w + 1 && q < s.len()
        } {
            let q = scan_while(s, w + 1, non_quote_fn());
            let next = scan_while(s, q + 1, field_sep_fn());
            Some((s.subrange(0, k), s.subrange(w + 1, q), next))
        } else {
            let v = scan_while(s, w, non_sep_fn());
            let next = scan_while(s, v, field_sep_fn());
            Some((s.subrange(0, k), strip_eqs(s.subrange(w, v)), next))
        }
    }
}

/// All browser attributes readable from the front of `s`, in order.
pub open spec fn browser_pairs(s: Seq<char>) -> Seq<(Seq<char>, Seq<char>)>
    decreases s.len(),
{
    match browser_step(s) {
        None => Seq::empty(),
        Some((k, v, next)) => {
            let nx = if next < 1 {
                1
            } else if next > s.len() {
                s.len() as int
            } else {
                next
            };
            Seq::empty().push((k, v)) + browser_pairs(s.skip(nx))
        },
    }
}

/// Reads browser attributes from the front of `s`, exactly as
/// `browser_pairs` describes.
pub fn parse_browser_pairs(s: &str) -> (r: Vec<(String, String)>)
    ensures
        pairs_view(r@) == browser_pairs(s@),
{
    let n = s.unicode_len();
    let mut out: Vec<(String, String)> = Vec::new();
    let mut cur: usize = 0;
    proof {
        assert(s@.skip(0) =~= s@);
        assert(pairs_view(out@) + browser_pairs(s@.skip(0)) =~= browser_pairs(s@));
    }
    loop
        invariant
            cur <= n,
            n == s@.len(),
            pairs_view(out@) + browser_pairs(s@.skip(cur as int)) =~= browser_pairs(s@),
        ensures
            pairs_view(out@) =~= browser_pairs(s@),
        decreases n - cur,
    {
        let t = s.substring_char(cur, n);
        proof {
            assert(t@ =~= s@.skip(cur as int));
        }
        let tn = t.unicode_len();
        let k = scan_key_end(t, 0);
        if k == 0 {
            proof {
                assert(pairs_view(out@) =~= browser_pairs(s@));
            }
            break ;
        }
        let (key, value, next) = if k < tn && t.get_char(k) == '=' {
            let v = scan_non_ws_end(t, k + 1);
            let next = scan_ws_end(t, v);
            (t.substring_char(0, k), String::from_str(t.substring_char(k + 1, v)), next)
        } else {
            let w = scan_ws_end(t, k);
            if w == k {
                proof {
                    assert(pairs_view(out@) =~= browser_pairs(s@));
                }
                break ;
            }
            if w >= tn {
                (t.substring_char(0, k), String::new(), tn)
            } else if t.get_char(w) == '"' && {
                let q = scan_quote_end(t, w + 1);
                q > w + 1 && q < tn
            } {
                let q = scan_quote_end(t, w + 1);
                let next = scan_ws_end(t, q + 1);
                (t.substring_char(0, k), String::from_str(t.substring_char(w + 1, q)), next)
            } else {
                let v = scan_non_ws_end(t, w);
                let next = scan_ws_end(t, v);
                let raw = t.substring_char(w, v);
                let mut e: usize = 0;
                let rn = raw.unicode_len();
                proof {
                    assert(raw@.skip(0) =~= raw@);
                }
                while e < rn
                    invariant_except_break
                        e <= rn,
                        rn == raw@.len(),
                        strip_eqs(raw@) == strip_eqs(raw@.skip(e as int)),
                    ensures
                        e <= rn,
                        strip_eqs(raw@) == strip_eqs(raw@.skip(e as int)),
                        e < rn ==> raw@[e as int] != '=',
                    decreases rn - e,
                {
                    if raw.get_char(e) != '=' {
                        break ;
                    }
                    proof {
                        assert(raw@.skip(e as int).skip(1) =~= raw@.skip(e + 1));
                    }
                    e = e + 1;
                }
                proof {
                    if e == rn {
                        assert(raw@.skip(e as int) =~= Seq::<char>::empty());
                    }
                }
                let stripped = raw.substring_char(e, rn);
                proof {
                    assert(stripped@ =~= raw@.skip(e as int));
                }
                (t.substring_char(0, k), String::from_str(stripped), next)
            }
        };
        let nx: usize = if next < 1 {
            1
        } else {
            next
        };
        let ghost prev = pairs_view(out@);
        out.push((String::from_str(key), value.clone()));
        proof {
            assert(pairs_view(out@) =~= prev.push((key@, value@)));
            assert(t@.skip(nx as int) =~= s@.skip(cur + nx));
        }
        cur = cur + nx;
    }
    out
}

// ---------------------------------------------------------------------------
// Browser attribute blocks
// ---------------------------------------------------------------------------

/// Replaces the value of `key` in an association list, or appends the
/// pair when the key is absent.
pub open spec fn assoc_upsert(
    a: Seq<(Seq<char>, Seq<char>)>,
    key: Seq<char>,
    val: Seq<char>,
) -> Seq<(Seq<char>, Seq<char>)>
    decreases a.len(),
{
    if a.len() == 0 {
        seq![(key, val)]
    } else if a[0].0 == key {
        seq![(key, val)] + a.skip(1)
    } else {
        seq![a[0]] + assoc_upsert(a.skip(1), key, val)
    }
}

/// The value filed under `key`, if any.
pub open spec fn assoc_get(a: Seq<(Seq<char>, Seq<char>)>, key: Seq<char>) -> Option<Seq<char>>
    decreases a.len(),
{
    if a.len() == 0 {
        None
    } else if a[0].0 == key {
        Some(a[0].1)
    } else {
        assoc_get(a.skip(1), key)
    }
}

/// Applies a pair list onto an association list, in order, each pair
/// replacing or extending.
pub open spec fn assoc_extend(
    a: Seq<(Seq<char>, Seq<char>)>,
    pairs: Seq<(Seq<char>, Seq<char>)>,
) -> Seq<(Seq<char>, Seq<char>)>
    decreases pairs.len(),
{
    if pairs.len() == 0 {
        a
    } else {
        assoc_upsert(assoc_extend(a, pairs.drop_last()), pairs.last().0, pairs.last().1)
    }
}

/// The attribute block of a whole `browser` header line: the keyword, at
/// least one space or tab, then attributes. `None` when the line does not
/// have that shape.
pub open spec fn spec_parse_browser(line: Seq<char>) -> Option<Seq<(Seq<char>, Seq<char>)>> {
    if !starts_with(line, "browser"@) {
        None
    } else if !(line.len() > 7 && is_field_sep(line[7])) {
        None
    } else {
        let b = scan_while(line, 7, field_sep_fn());
        Some(assoc_extend(Seq::empty(), browser_pairs(line.skip(b))))
    }
}

/// Browser metadata: the attributes of the current block of `browser`
/// header lines, each key held once.
#[derive(Debug)]
pub struct BrowserMeta {
    pub attrs: Vec<(String, String)>,
}

/// A copy of an optional string, with the same characters.
fn clone_opt_string(o: &Option<String>) -> (r: Option<String>)
    ensures
        match (o, &r) {
            (Some(a), Some(b)) => a@ == b@,
            (None, None) => true,
            _ => false,
        },
{
    match o {
        Some(s) => Some(s.clone()),
        None => None,
    }
}

impl Clone for Track {
    /// A copy with the same attributes.
    fn clone(&self) -> (r: Track)
        ensures
            r@ == self@,
    {
        Track {
            name: clone_opt_string(&self.name),
            description: clone_opt_string(&self.description),
            visibility: self.visibility,
            item_rgb: clone_opt_string(&self.item_rgb),
            color: clone_opt_string(&self.color),
            use_score: self.use_score,
        }
    }
}

impl Clone for BrowserMeta {
    /// A copy with the same attributes.
    fn clone(&self) -> (r: BrowserMeta)
        ensures
            r@ == self@,
    {
        let n = self.attrs.len();
        let mut attrs: Vec<(String, String)> = Vec::new();
        let mut i: usize = 0;
        while i < n
            invariant
                i <= n,
                n == self.attrs@.len(),
                attrs@.len() == i,
                forall|k: int|
                    0 <= k < i ==> #[trigger] attrs@[k].0@ == self.attrs@[k].0@ && attrs@[k].1@
                        == self.attrs@[k].1@,
            decreases n - i,
        {
            attrs.push((self.attrs[i].0.clone(), self.attrs[i].1.clone()));
            i = i + 1;
        }
        let r = BrowserMeta { attrs };
        proof {
            assert(r@ =~= self@);
        }
        r
    }
}

impl View for BrowserMeta {
    type V = Seq<(Seq<char>, Seq<char>)>;

    open spec fn view(&self) -> Seq<(Seq<char>, Seq<char>)> {
        pairs_view(self.attrs@)
    }
}

/// If `key` sits at position `i` of `a` and nowhere before, upserting
/// replaces exactly that entry.
proof fn lemma_upsert_replaces(
    a: Seq<(Seq<char>, Seq<char>)>,
    key: Seq<char>,
    val: Seq<char>,
    i: int,
)
    requires
        0 <= i < a.len(),
        a[i].0 == key,
        forall|j: int| 0 <= j < i ==> a[j].0 != key,
    ensures
        assoc_upsert(a, key, val) == a.update(i, (key, val)),
    decreases a.len(),
{
    if i == 0 {
        assert(assoc_upsert(a, key, val) =~= a.update(0, (key, val)));
    } else {
        let t = a.skip(1);
        assert(forall|j: int| 0 <= j < i - 1 ==> t[j] == a[j + 1]);
        lemma_upsert_replaces(t, key, val, i - 1);
        assert(t.update(i - 1, (key, val)) =~= a.update(i, (key, val)).skip(1));
        assert(assoc_upsert(a, key, val) =~= a.update(i, (key, val)));
    }
}

/// If `key` is absent from `a`, upserting appends the pair.
proof fn lemma_upsert_appends(a: Seq<(Seq<char>, Seq<char>)>, key: Seq<char>, val: Seq<char>)
    requires
        forall|j: int| 0 <= j < a.len() ==> a[j].0 != key,
    ensures
        assoc_upsert(a, key, val) == a.push((key, val)),
    decreases a.len(),
{
    if a.len() == 0 {
        assert(assoc_upsert(a, key, val) =~= a.push((key, val)));
    } else {
        let t = a.skip(1);
        assert(forall|j: int| 0 <= j < t.len() ==> t[j] == a[j + 1]);
        lemma_upsert_appends(t, key, val);
        assert(seq![a[0]] + t.push((key, val)) =~= a.push((key, val)));
    }
}

impl BrowserMeta {
    /// A block with no attributes.
    pub fn empty() -> (r: BrowserMeta)
        ensures
            r@ == Seq::<(Seq<char>, Seq<char>)>::empty(),
    {
        let r = BrowserMeta { attrs: Vec::new() };
        proof {
            assert(r@ =~= Seq::<(Seq<char>, Seq<char>)>::empty());
        }
        r
    }

    /// The value of the attribute `key`, if the block holds it.
    pub fn get(&self, key: &str) -> (r: Option<String>)
        ensures
            match r {
                Some(v) => assoc_get(self@, key@) matches Some(s) && v@ == s,
                None => assoc_get(self@, key@) is None,
            },
    {
        let n = self.attrs.len();
        let mut i: usize = 0;
        proof {
            assert(self@.skip(0) =~= self@);
        }
        while i < n
            invariant
                i <= n,
                n == self.attrs@.len(),
                self@.len() == n,
                assoc_get(self@.skip(i as int), key@) == assoc_get(self@, key@),
            decreases n - i,
        {
            proof {
                assert(self@.skip(i as int)[0] == self@[i as int]);
                assert(self@.skip(i as int).skip(1) =~= self@.skip(i + 1));
            }
            if str_eq(self.attrs[i].0.as_str(), key) {
                return Some(self.attrs[i].1.clone());
            }
            i = i + 1;
        }
        None
    }

    /// Sets the attribute `key` to `val`, replacing any previous value.
    pub fn upsert(&mut self, key: &str, val: &str)
        ensures
            final(self)@ == assoc_upsert(old(self)@, key@, val@),
    {
        let n = self.attrs.len();
        let mut i: usize = 0;
        while i < n
            invariant
                i <= n,
                n == self.attrs@.len(),
                *self == *old(self),
                forall|j: int| 0 <= j < i ==> old(self)@[j].0 != key@,
            decreases n - i,
        {
            if str_eq(self.attrs[i].0.as_str(), key) {
                let pair = (String::from_str(key), String::from_str(val));
                self.attrs.set(i, pair);
                proof {
                    lemma_upsert_replaces(old(self)@, key@, val@, i as int);
                    assert(self@ =~= old(self)@.update(i as int, (key@, val@)));
                }
                return ;
            }
            i = i + 1;
        }
        let ghost prev = self@;
        self.attrs.push((String::from_str(key), String::from_str(val)));
        proof {
            lemma_upsert_appends(prev, key@, val@);
            assert(self@ =~= prev.push((key@, val@)));
        }
    }

    /// Applies every pair of `pairs`, in order.
    pub fn extend_pairs(&mut self, pairs: &Vec<(String, String)>)
        ensures
            final(self)@ == assoc_extend(old(self)@, pairs_view(pairs@)),
    {
        let n = pairs.len();
        let ghost pv = pairs_view(pairs@);
        let mut i: usize = 0;
        proof {
            assert(pv.subrange(0, 0) =~= Seq::<(Seq<char>, Seq<char>)>::empty());
        }
        while i < n
            invariant
                i <= n,
                n == pairs@.len(),
                pv == pairs_view(pairs@),
                pv.len() == n,
                self@ == assoc_extend(old(self)@, pv.subrange(0, i as int)),
            decreases n - i,
        {
            self.upsert(pairs[i].0.as_str(), pairs[i].1.as_str());
            proof {
                assert(pv.subrange(0, i + 1).drop_last() =~= pv.subrange(0, i as int));
                assert(pv.subrange(0, i + 1).last() == pv[i as int]);
            }
            i = i + 1;
        }
        proof {
            assert(pv.subrange(0, n as int) =~= pv);
        }
    }
}

/// Parses a `browser` header line, exactly as `spec_parse_browser`
/// describes.
pub fn parse_browser_line(line: &str) -> (r: Result<BrowserMeta, ()>)
    ensures
        match r {
            Ok(b) => spec_parse_browser(line@) matches Some(m) && b@ == m,
            Err(()) => spec_parse_browser(line@) is None,
        },
{
    let n = line.unicode_len();
    if !check_starts_with(line, "browser") {
        proof {
            reveal_strlit("browser");
        }
        return Err(());
    }
    proof {
        reveal_strlit("browser");
    }
    if !(n > 7) {
        return Err(());
    }
    let c7 = line.get_char(7);
    if !(c7 == ' ' || c7 == '\t') {
        return Err(());
    }
    let b = scan_ws_end(line, 7);
    let rest = line.substring_char(b, n);
    proof {
        assert(rest@ =~= line@.skip(b as int));
    }
    let pairs = parse_browser_pairs(rest);
    let mut meta = BrowserMeta::empty();
    meta.extend_pairs(&pairs);
    Ok(meta)
}

} // verus!
