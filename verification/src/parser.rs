use vstd::prelude::*;

verus! {

// ---------------------------------------------------------------------------
// Field separators and tokenization
// ---------------------------------------------------------------------------

/// Fields of a data line are separated by runs of spaces and tabs.
pub open spec fn is_field_sep(c: char) -> bool {
    c == ' ' || c == '\t'
}

/// The maximal runs of non-separator characters of `s`, under the
/// separator predicate `sep`.
pub open spec fn runs_of(s: Seq<char>, sep: spec_fn(char) -> bool) -> Seq<Seq<char>>
    decreases s.len(),
{
    if s.len() == 0 {
        Seq::empty()
    } else if sep(s[0]) {
        runs_of(s.skip(1), sep)
    } else {
        let rest = runs_of(s.skip(1), sep);
        if s.len() > 1 && !sep(s[1]) {
            Seq::empty().push(seq![s[0]] + rest[0]) + rest.skip(1)
        } else {
            Seq::empty().push(seq![s[0]]) + rest
        }
    }
}

/// The field-separator predicate as a value.
pub open spec fn field_sep_fn() -> spec_fn(char) -> bool {
    |c: char| is_field_sep(c)
}

/// The fields of a line: maximal runs of non-whitespace characters.
pub open spec fn tokens_of(s: Seq<char>) -> Seq<Seq<char>> {
    runs_of(s, field_sep_fn())
}

/// A string starting with a non-separator has a first run starting there.
proof fn lemma_runs_head(s: Seq<char>, sep: spec_fn(char) -> bool)
    requires
        s.len() > 0,
        !sep(s[0]),
    ensures
        runs_of(s, sep).len() >= 1,
    decreases s.len(),
{
    if s.len() > 1 && !sep(s[1]) {
        lemma_runs_head(s.skip(1), sep);
    }
}

/// Unfolds `runs_of` across one whole run: if position 0 starts a run that
/// ends at `j` (the first separator at or after 0, or the end), the run
/// list is that run followed by the runs of the rest.
proof fn lemma_runs_token(s: Seq<char>, sep: spec_fn(char) -> bool, j: int)
    requires
        0 < j <= s.len(),
        forall|k: int| 0 <= k < j ==> !sep(#[trigger] s[k]),
        j < s.len() ==> sep(s[j]),
    ensures
        runs_of(s, sep) == Seq::empty().push(s.subrange(0, j)) + runs_of(s.skip(j), sep),
    decreases s.len(),
{
    if j == 1 {
        if s.len() > 1 && !sep(s[1]) {
            assert(false);
        }
        assert(s.subrange(0, 1) =~= seq![s[0]]);
        assert(runs_of(s, sep) =~= Seq::empty().push(s.subrange(0, 1)) + runs_of(s.skip(1), sep));
    } else {
        let t = s.skip(1);
        assert(forall|k: int| 0 <= k < j - 1 ==> !sep(#[trigger] t[k]));
        lemma_runs_token(t, sep, j - 1);
        lemma_runs_head(t, sep);
        assert(t.subrange(0, j - 1) =~= s.subrange(1, j));
        assert(t.skip(j - 1) =~= s.skip(j));
        assert(runs_of(t, sep)[0] == s.subrange(1, j));
        assert(seq![s[0]] + s.subrange(1, j) =~= s.subrange(0, j));
        assert(runs_of(s, sep) =~= Seq::empty().push(s.subrange(0, j)) + runs_of(s.skip(j), sep));
    }
}

/// Skipping a leading separator leaves the run list unchanged.
proof fn lemma_runs_sep(s: Seq<char>, sep: spec_fn(char) -> bool)
    requires
        s.len() > 0,
        sep(s[0]),
    ensures
        runs_of(s, sep) == runs_of(s.skip(1), sep),
{
}

/// Splits a line into its whitespace-separated fields.
pub fn tokenize(s: &str) -> (r: Vec<String>)
    ensures
        r.deep_view() == tokens_of(s@),
{
    let ghost sep = field_sep_fn();
    let n = s.unicode_len();
    let mut r: Vec<String> = Vec::new();
    let mut i: usize = 0;
    proof {
        assert(s@.skip(0) =~= s@);
        assert(r.deep_view() =~= Seq::<Seq<char>>::empty());
    }
    while i < n
        invariant
            i <= n,
            n == s@.len(),
            sep == field_sep_fn(),
            r.deep_view() + runs_of(s@.skip(i as int), sep) =~= runs_of(s@, sep),
        decreases n - i,
    {
        let c = s.get_char(i);
        if c == ' ' || c == '\t' {
            proof {
                lemma_runs_sep(s@.skip(i as int), sep);
                assert(s@.skip(i as int).skip(1) =~= s@.skip(i + 1));
            }
            i = i + 1;
        } else {
            // scan to the end of the token
            let start = i;
            let mut j = i + 1;
            while j < n
                invariant_except_break
                    start < j <= n,
                    n == s@.len(),
                    forall|k: int| start <= k < j ==> !is_field_sep(#[trigger] s@[k]),
                ensures
                    start < j <= n,
                    forall|k: int| start <= k < j ==> !is_field_sep(#[trigger] s@[k]),
                    j < n ==> is_field_sep(s@[j as int]),
                decreases n - j,
            {
                let c2 = s.get_char(j);
                if c2 == ' ' || c2 == '\t' {
                    break ;
                }
                j = j + 1;
            }
            proof {
                let t = s@.skip(start as int);
                assert(forall|k: int| 0 <= k < j - start ==> t[k] == s@[k + start]);
                lemma_runs_token(t, sep, j - start);
                assert(t.subrange(0, j - start) =~= s@.subrange(start as int, j as int));
                assert(t.skip(j - start) =~= s@.skip(j as int));
            }
            let tok = s.substring_char(start, j);
            let ghost prev = r.deep_view();
            r.push(String::from_str(tok));
            proof {
                assert(r.deep_view() =~= prev.push(tok@));
            }
            i = j;
        }
    }
    proof {
        assert(s@.skip(n as int) =~= Seq::<char>::empty());
    }
    r
}

/// Compares two string slices character by character.
pub fn str_eq(a: &str, b: &str) -> (r: bool)
    ensures
        r == (a@ == b@),
{
    let na = a.unicode_len();
    let nb = b.unicode_len();
    if na != nb {
        return false;
    }
    let mut i: usize = 0;
    while i < na
        invariant
            i <= na,
            na == a@.len(),
            na == b@.len(),
            forall|k: int| 0 <= k < i ==> a@[k] == b@[k],
        decreases na - i,
    {
        if a.get_char(i) != b.get_char(i) {
            return false;
        }
        i = i + 1;
    }
    proof {
        assert(a@ =~= b@);
    }
    true
}

// ---------------------------------------------------------------------------
// Decimal numbers
// ---------------------------------------------------------------------------

/// Whether `c` is a decimal digit.
pub open spec fn is_dec_digit(c: char) -> bool {
    '0' <= c && c <= '9'
}

/// The value of a decimal digit.
pub open spec fn digit_val(c: char) -> nat {
    (c as int - '0' as int) as nat
}

/// Whether `s` is a non-empty string of decimal digits.
pub open spec fn all_digits(s: Seq<char>) -> bool {
    s.len() > 0 && forall|i: int| 0 <= i < s.len() ==> is_dec_digit(#[trigger] s[i])
}

/// Folds decimal digits onto an accumulator, most significant first.
pub open spec fn dec_acc(s: Seq<char>, acc: nat) -> nat
    decreases s.len(),
{
    if s.len() == 0 {
        acc
    } else {
        dec_acc(s.skip(1), acc * 10 + digit_val(s[0]))
    }
}

/// The value of a decimal digit string.
pub open spec fn dec_val(s: Seq<char>) -> nat {
    dec_acc(s, 0)
}

/// The accumulator never decreases while folding digits.
proof fn lemma_dec_acc_monotone(s: Seq<char>, acc: nat)
    ensures
        dec_acc(s, acc) >= acc,
    decreases s.len(),
{
    if s.len() > 0 {
        lemma_dec_acc_monotone(s.skip(1), acc * 10 + digit_val(s[0]));
    }
}

/// Parses a token as a decimal `u64`. Returns the value exactly when the
/// token is all digits and the value fits; overflow and stray characters
/// yield `None`.
pub fn parse_u64_token(s: &str) -> (r: Option<u64>)
    ensures
        match r {
            Some(v) => all_digits(s@) && v == dec_val(s@),
            None => !(all_digits(s@) && dec_val(s@) <= u64::MAX),
        },
{
    let n = s.unicode_len();
    if n == 0 {
        return None;
    }
    let mut val: u64 = 0;
    let mut i: usize = 0;
    proof {
        assert(s@.skip(0) =~= s@);
    }
    while i < n
        invariant
            i <= n,
            n == s@.len(),
            forall|k: int| 0 <= k < i ==> is_dec_digit(#[trigger] s@[k]),
            dec_acc(s@.skip(i as int), val as nat) == dec_val(s@),
        decreases n - i,
    {
        let c = s.get_char(i);
        if !('0' <= c && c <= '9') {
            return None;
        }
        let d: u64 = (c as u32 - 48) as u64;
        let wide: u128 = val as u128 * 10 + d as u128;
        proof {
            assert(s@.skip(i as int)[0] == s@[i as int]);
            assert(s@.skip(i as int).skip(1) =~= s@.skip(i + 1));
        }
        if wide > u64::MAX as u128 {
            proof {
                lemma_dec_acc_monotone(s@.skip(i + 1), (val * 10 + digit_val(s@[i as int])) as nat);
            }
            return None;
        }
        val = wide as u64;
        i = i + 1;
    }
    proof {
        assert(s@.skip(n as int) =~= Seq::<char>::empty());
    }
    Some(val)
}

/// Parses a token as a decimal `u32`, as `parse_u64_token` does.
pub fn parse_u32_token(s: &str) -> (r: Option<u32>)
    ensures
        match r {
            Some(v) => all_digits(s@) && v == dec_val(s@),
            None => !(all_digits(s@) && dec_val(s@) <= u32::MAX),
        },
{
    match parse_u64_token(s) {
        Some(v) => {
            if v <= u32::MAX as u64 {
                Some(v as u32)
            } else {
                None
            }
        },
        None => None,
    }
}

// ---------------------------------------------------------------------------
// Comma-separated numeric lists
// ---------------------------------------------------------------------------

/// The comma-separator predicate as a value.
pub open spec fn comma_sep_fn() -> spec_fn(char) -> bool {
    |c: char| c == ','
}

/// The value of one comma-list item: its decimal value if it is a decimal
/// `u32`, else zero.
pub open spec fn spec_u32_or_zero(t: Seq<char>) -> u32 {
    if all_digits(t) && dec_val(t) <= u32::MAX {
        dec_val(t) as u32
    } else {
        0u32
    }
}

/// The values of a comma-separated list: empty items are dropped, items
/// that are not decimal `u32` numbers count as zero.
pub open spec fn comma_u32s(s: Seq<char>) -> Seq<u32> {
    runs_of(s, comma_sep_fn()).map_values(|t: Seq<char>| spec_u32_or_zero(t))
}

/// Splits a comma-separated list into its numeric items.
pub fn parse_comma_u32s(s: &str) -> (r: Vec<u32>)
    ensures
        r@ == comma_u32s(s@),
{
    let ghost sep = comma_sep_fn();
    let n = s.unicode_len();
    let mut r: Vec<u32> = Vec::new();
    let mut i: usize = 0;
    proof {
        assert(s@.skip(0) =~= s@);
        assert(r@ + runs_of(s@.skip(0), sep).map_values(|t: Seq<char>| spec_u32_or_zero(t))
            =~= comma_u32s(s@));
    }
    while i < n
        invariant
            i <= n,
            n == s@.len(),
            sep == comma_sep_fn(),
            r@ + runs_of(s@.skip(i as int), sep).map_values(|t: Seq<char>| spec_u32_or_zero(t))
                =~= comma_u32s(s@),
        decreases n - i,
    {
        let c = s.get_char(i);
        if c == ',' {
            proof {
                lemma_runs_sep(s@.skip(i as int), sep);
                assert(s@.skip(i as int).skip(1) =~= s@.skip(i + 1));
            }
            i = i + 1;
        } else {
            let start = i;
            let mut j = i + 1;
            while j < n
                invariant_except_break
                    start < j <= n,
                    n == s@.len(),
                    forall|k: int| start <= k < j ==> #[trigger] s@[k] != ',',
                ensures
                    start < j <= n,
                    forall|k: int| start <= k < j ==> #[trigger] s@[k] != ',',
                    j < n ==> s@[j as int] == ',',
                decreases n - j,
            {
                let c2 = s.get_char(j);
                if c2 == ',' {
                    break ;
                }
                j = j + 1;
            }
            proof {
                let t = s@.skip(start as int);
                assert(forall|k: int| 0 <= k < j - start ==> t[k] == s@[k + start]);
                lemma_runs_token(t, sep, j - start);
                assert(t.subrange(0, j - start) =~= s@.subrange(start as int, j as int));
                assert(t.skip(j - start) =~= s@.skip(j as int));
            }
            let tok = s.substring_char(start, j);
            let v = match parse_u32_token(tok) {
                Some(v) => v,
                None => 0,
            };
            let ghost prev = r@;
            r.push(v);
            proof {
                assert(v == spec_u32_or_zero(tok@));
                assert(r@ =~= prev.push(v));
                assert(r@ + runs_of(s@.skip(j as int), sep).map_values(
                    |t: Seq<char>| spec_u32_or_zero(t),
                ) =~= comma_u32s(s@));
            }
            i = j;
        }
    }
    proof {
        assert(s@.skip(n as int) =~= Seq::<char>::empty());
    }
    r
}

// ---------------------------------------------------------------------------
// Floating-point lexemes
// ---------------------------------------------------------------------------

/// The first position at or after `i` holding a non-digit, or the end.
pub open spec fn digits_end(s: Seq<char>, i: int) -> int
    decreases s.len() - i,
{
    if i < 0 || i >= s.len() {
        i
    } else if !is_dec_digit(s[i]) {
        i
    } else {
        digits_end(s, i + 1)
    }
}

/// ASCII lower-casing of one character.
pub open spec fn lower_char(c: char) -> char {
    if 'A' <= c && c <= 'Z' {
        ((c as u8) + 32) as char
    } else {
        c
    }
}

/// Whether `t` reads as infinity or not-a-number, ignoring letter case.
pub open spec fn is_inf_nan(t: Seq<char>) -> bool {
    let l = t.map_values(|c: char| lower_char(c));
    l == "inf"@ || l == "infinity"@ || l == "nan"@
}

/// Whether position `i` of `t` starts a valid exponent part or is the end.
pub open spec fn exp_ok(t: Seq<char>, i: int) -> bool {
    i == t.len() || {
        &&& i < t.len()
        &&& (t[i] == 'e' || t[i] == 'E')
        &&& {
            let j = if i + 1 < t.len() && (t[i + 1] == '+' || t[i + 1] == '-') {
                i + 2
            } else {
                i + 1
            };
            let k = digits_end(t, j);
            k > j && k == t.len()
        }
    }
}

/// Whether `t` is a decimal mantissa with optional exponent: digits with an
/// optional fraction, or a fraction alone.
pub open spec fn is_mantissa(t: Seq<char>) -> bool {
    t.len() > 0 && {
        let d1 = digits_end(t, 0);
        if d1 > 0 {
            let m = if d1 < t.len() && t[d1] == '.' {
                digits_end(t, d1 + 1)
            } else {
                d1
            };
            exp_ok(t, m)
        } else if t[0] == '.' {
            let d2 = digits_end(t, 1);
            d2 > 1 && exp_ok(t, d2)
        } else {
            false
        }
    }
}

/// Whether `s` is a floating-point lexeme: an optional sign followed by a
/// mantissa with optional exponent, or by infinity or not-a-number.
pub open spec fn is_float_token(s: Seq<char>) -> bool {
    let t = if s.len() > 0 && (s[0] == '+' || s[0] == '-') {
        s.skip(1)
    } else {
        s
    };
    is_inf_nan(t) || is_mantissa(t)
}

/// Scans past decimal digits starting at `i`.
fn digits_end_exec(s: &str, i: usize) -> (r: usize)
    requires
        i <= s@.len(),
    ensures
        r == digits_end(s@, i as int),
        i <= r <= s@.len(),
{
    let n = s.unicode_len();
    let mut j = i;
    while j < n
        invariant
            i <= j <= n,
            n == s@.len(),
            digits_end(s@, i as int) == digits_end(s@, j as int),
        decreases n - j,
    {
        let c = s.get_char(j);
        if !('0' <= c && c <= '9') {
            return j;
        }
        j = j + 1;
    }
    j
}

/// Compares `t`, lower-cased, against `w`.
fn lower_eq(t: &str, w: &str) -> (r: bool)
    ensures
        r == (t@.map_values(|c: char| lower_char(c)) == w@),
{
    let ghost lt = t@.map_values(|c: char| lower_char(c));
    let n = t.unicode_len();
    if n != w.unicode_len() {
        return false;
    }
    let mut i: usize = 0;
    while i < n
        invariant
            i <= n,
            n == t@.len(),
            n == w@.len(),
            lt == t@.map_values(|c: char| lower_char(c)),
            forall|k: int| 0 <= k < i ==> lt[k] == w@[k],
        decreases n - i,
    {
        let c = t.get_char(i);
        let lc = if 'A' <= c && c <= 'Z' {
            ((c as u8) + 32) as char
        } else {
            c
        };
        if lc != w.get_char(i) {
            return false;
        }
        i = i + 1;
    }
    proof {
        assert(lt =~= w@);
    }
    true
}

/// Decides whether `i` starts a valid exponent part (or the end).
fn exp_ok_exec(t: &str, i: usize) -> (r: bool)
    requires
        i <= t@.len(),
    ensures
        r == exp_ok(t@, i as int),
{
    let n = t.unicode_len();
    if i == n {
        return true;
    }
    let c = t.get_char(i);
    if !(c == 'e' || c == 'E') {
        return false;
    }
    let j = if i + 1 < n {
        let c1 = t.get_char(i + 1);
        if c1 == '+' || c1 == '-' {
            i + 2
        } else {
            i + 1
        }
    } else {
        i + 1
    };
    let k = digits_end_exec(t, j);
    k > j && k == n
}

/// Decides whether a token is a floating-point lexeme.
pub fn check_float_token(s: &str) -> (r: bool)
    ensures
        r == is_float_token(s@),
{
    let n = s.unicode_len();
    let base: usize = if n > 0 {
        let c0 = s.get_char(0);
        if c0 == '+' || c0 == '-' {
            1
        } else {
            0
        }
    } else {
        0
    };
    let t = s.substring_char(base, n);
    proof {
        assert(t@ =~= s@.skip(base as int));
        if base == 0 {
            assert(s@.skip(0) =~= s@);
        }
    }
    if lower_eq(t, "inf") || lower_eq(t, "infinity") || lower_eq(t, "nan") {
        return true;
    }
    let tn = t.unicode_len();
    if tn == 0 {
        return false;
    }
    let d1 = digits_end_exec(t, 0);
    if d1 > 0 {
        let m = if d1 < tn && t.get_char(d1) == '.' {
            digits_end_exec(t, d1 + 1)
        } else {
            d1
        };
        exp_ok_exec(t, m)
    } else if t.get_char(0) == '.' {
        let d2 = digits_end_exec(t, 1);
        d2 > 1 && exp_ok_exec(t, d2)
    } else {
        false
    }
}

// ---------------------------------------------------------------------------
// Generic scanning
// ---------------------------------------------------------------------------

/// The first position at or after `i` whose character fails `p`, or the end.
pub open spec fn scan_while(s: Seq<char>, i: int, p: spec_fn(char) -> bool) -> int
    decreases s.len() - i,
{
    if i < 0 || i >= s.len() {
        i
    } else if !p(s[i]) {
        i
    } else {
        scan_while(s, i + 1, p)
    }
}

/// `scan_while` stays between its start and the end of the string.
pub proof fn lemma_scan_while_bounds(s: Seq<char>, i: int, p: spec_fn(char) -> bool)
    requires
        0 <= i <= s.len(),
    ensures
        i <= scan_while(s, i, p) <= s.len(),
    decreases s.len() - i,
{
    if i < s.len() && p(s[i]) {
        lemma_scan_while_bounds(s, i + 1, p);
    }
}

/// Whether `c` may appear in an attribute key.
pub open spec fn is_key_char(c: char) -> bool {
    ('a' <= c && c <= 'z') || ('A' <= c && c <= 'Z') || ('0' <= c && c <= '9') || c == '_' || c
        == '-'
}

/// The key-character predicate as a value.
pub open spec fn key_char_fn() -> spec_fn(char) -> bool {
    |c: char| is_key_char(c)
}

/// The non-separator predicate as a value.
pub open spec fn non_sep_fn() -> spec_fn(char) -> bool {
    |c: char| !is_field_sep(c)
}

/// The non-quote predicate as a value.
pub open spec fn non_quote_fn() -> spec_fn(char) -> bool {
    |c: char| c != '"'
}

/// The non-newline predicate as a value.
pub open spec fn non_newline_fn() -> spec_fn(char) -> bool {
    |c: char| c != '\n'
}

/// Scans past attribute-key characters.
pub fn scan_key_end(s: &str, i: usize) -> (r: usize)
    requires
        i <= s@.len(),
    ensures
        r == scan_while(s@, i as int, key_char_fn()),
        i <= r <= s@.len(),
{
    let n = s.unicode_len();
    let mut j = i;
    while j < n
        invariant
            i <= j <= n,
            n == s@.len(),
            scan_while(s@, i as int, key_char_fn()) == scan_while(s@, j as int, key_char_fn()),
        decreases n - j,
    {
        let c = s.get_char(j);
        if !(('a' <= c && c <= 'z') || ('A' <= c && c <= 'Z') || ('0' <= c && c <= '9') || c == '_'
            || c == '-') {
            return j;
        }
        j = j + 1;
    }
    j
}

/// Scans past spaces and tabs.
pub fn scan_ws_end(s: &str, i: usize) -> (r: usize)
    requires
        i <= s@.len(),
    ensures
        r == scan_while(s@, i as int, field_sep_fn()),
        i <= r <= s@.len(),
{
    let n = s.unicode_len();
    let mut j = i;
    while j < n
        invariant
            i <= j <= n,
            n == s@.len(),
            scan_while(s@, i as int, field_sep_fn()) == scan_while(s@, j as int, field_sep_fn()),
        decreases n - j,
    {
        let c = s.get_char(j);
        if !(c == ' ' || c == '\t') {
            return j;
        }
        j = j + 1;
    }
    j
}

/// Scans up to the next space or tab.
pub fn scan_non_ws_end(s: &str, i: usize) -> (r: usize)
    requires
        i <= s@.len(),
    ensures
        r == scan_while(s@, i as int, non_sep_fn()),
        i <= r <= s@.len(),
{
    let n = s.unicode_len();
    let mut j = i;
    while j < n
        invariant
            i <= j <= n,
            n == s@.len(),
            scan_while(s@, i as int, non_sep_fn()) == scan_while(s@, j as int, non_sep_fn()),
        decreases n - j,
    {
        let c = s.get_char(j);
        if c == ' ' || c == '\t' {
            return j;
        }
        j = j + 1;
    }
    j
}

/// Scans up to the next double quote.
pub fn scan_quote_end(s: &str, i: usize) -> (r: usize)
    requires
        i <= s@.len(),
    ensures
        r == scan_while(s@, i as int, non_quote_fn()),
        i <= r <= s@.len(),
{
    let n = s.unicode_len();
    let mut j = i;
    while j < n
        invariant
            i <= j <= n,
            n == s@.len(),
            scan_while(s@, i as int, non_quote_fn()) == scan_while(s@, j as int, non_quote_fn()),
        decreases n - j,
    {
        let c = s.get_char(j);
        if c == '"' {
            return j;
        }
        j = j + 1;
    }
    j
}

/// Scans up to the next newline.
pub fn scan_newline(s: &str, i: usize) -> (r: usize)
    requires
        i <= s@.len(),
    ensures
        r == scan_while(s@, i as int, non_newline_fn()),
        i <= r <= s@.len(),
        forall|k: int| i <= k < r ==> s@[k] != '\n',
        r < s@.len() ==> s@[r as int] == '\n',
{
    let n = s.unicode_len();
    let mut j = i;
    while j < n
        invariant
            i <= j <= n,
            n == s@.len(),
            scan_while(s@, i as int, non_newline_fn()) == scan_while(s@, j as int, non_newline_fn()),
            forall|k: int| i <= k < j ==> s@[k] != '\n',
        decreases n - j,
    {
        let c = s.get_char(j);
        if c == '\n' {
            return j;
        }
        j = j + 1;
    }
    j
}

// ---------------------------------------------------------------------------
// Lines
// ---------------------------------------------------------------------------

/// The position just past the line starting at `pos`: one past its
/// terminating newline, or the end of the text.
pub open spec fn line_end(s: Seq<char>, pos: int) -> int {
    let nl = scan_while(s, pos, non_newline_fn());
    if nl < s.len() {
        nl + 1
    } else {
        s.len() as int
    }
}

/// A line body: the line with its terminating newline and carriage return
/// removed.
pub open spec fn strip_eol(l: Seq<char>) -> Seq<char> {
    let a = if l.len() > 0 && l[l.len() - 1] == '\n' {
        l.drop_last()
    } else {
        l
    };
    if a.len() > 0 && a[a.len() - 1] == '\r' {
        a.drop_last()
    } else {
        a
    }
}

/// Whether a line holds only whitespace.
pub open spec fn is_blank(l: Seq<char>) -> bool {
    forall|i: int|
        0 <= i < l.len() ==> (l[i] == ' ' || l[i] == '\t' || l[i] == '\r' || l[i] == '\n')
}

/// Whether `s` starts with the word `w`.
pub open spec fn starts_with(s: Seq<char>, w: Seq<char>) -> bool {
    s.len() >= w.len() && s.subrange(0, w.len() as int) == w
}

/// Decides whether `s` starts with `w`.
pub fn check_starts_with(s: &str, w: &str) -> (r: bool)
    ensures
        r == starts_with(s@, w@),
{
    let n = s.unicode_len();
    let m = w.unicode_len();
    if n < m {
        return false;
    }
    let p = s.substring_char(0, m);
    let r = str_eq(p, w);
    proof {
        assert(p@ == s@.subrange(0, m as int));
    }
    r
}

/// Whether `c` is line-trimming whitespace.
pub open spec fn is_trim_char(c: char) -> bool {
    c == ' ' || c == '\t' || c == '\r' || c == '\n'
}

/// `s` without leading trimming whitespace.
pub open spec fn trim_front(s: Seq<char>) -> Seq<char>
    decreases s.len(),
{
    if s.len() > 0 && is_trim_char(s[0]) {
        trim_front(s.skip(1))
    } else {
        s
    }
}

/// `s` without trailing trimming whitespace.
pub open spec fn trim_back(s: Seq<char>) -> Seq<char>
    decreases s.len(),
{
    if s.len() > 0 && is_trim_char(s[s.len() - 1]) {
        trim_back(s.drop_last())
    } else {
        s
    }
}

/// `s` without leading and trailing whitespace.
pub open spec fn trim_ws(s: Seq<char>) -> Seq<char> {
    trim_back(trim_front(s))
}

/// Trims leading and trailing whitespace from a string slice.
pub fn trim_str(s: &str) -> (r: &str)
    ensures
        r@ == trim_ws(s@),
{
    let n = s.unicode_len();
    let mut lo: usize = 0;
    proof {
        assert(s@.skip(0) =~= s@);
    }
    while lo < n
        invariant_except_break
            lo <= n,
            n == s@.len(),
            trim_front(s@) == trim_front(s@.skip(lo as int)),
        ensures
            lo <= n,
            trim_front(s@) == trim_front(s@.skip(lo as int)),
            lo < n ==> !is_trim_char(s@[lo as int]),
        decreases n - lo,
    {
        let c = s.get_char(lo);
        if !(c == ' ' || c == '\t' || c == '\r' || c == '\n') {
            break ;
        }
        proof {
            assert(s@.skip(lo as int).skip(1) =~= s@.skip(lo + 1));
        }
        lo = lo + 1;
    }
    let ghost t = s@.skip(lo as int);
    proof {
        if lo == n {
            assert(t =~= Seq::<char>::empty());
        }
        assert(trim_front(s@) == t);
    }
    let mut hi: usize = n;
    proof {
        assert(t.take(n - lo) =~= t);
    }
    while hi > lo
        invariant_except_break
            lo <= hi <= n,
            n == s@.len(),
            t == s@.skip(lo as int),
            trim_back(t) == trim_back(t.take(hi - lo)),
        ensures
            lo <= hi <= n,
            trim_back(t) == trim_back(t.take(hi - lo)),
            hi > lo ==> !is_trim_char(s@[hi - 1]),
        decreases hi,
    {
        let c = s.get_char(hi - 1);
        if !(c == ' ' || c == '\t' || c == '\r' || c == '\n') {
            break ;
        }
        proof {
            assert(t.take(hi - lo)[hi - lo - 1] == s@[hi - 1]);
            assert(t.take(hi - lo).drop_last() =~= t.take(hi - lo - 1));
        }
        hi = hi - 1;
    }
    proof {
        if hi == lo {
            assert(t.take(0) =~= Seq::<char>::empty());
        } else {
            assert(t.take(hi - lo)[hi - lo - 1] == s@[hi - 1]);
        }
        assert(trim_back(t.take(hi - lo)) == t.take(hi - lo));
    }
    let r = s.substring_char(lo, hi);
    proof {
        assert(r@ =~= t.take(hi - lo));
    }
    r
}

/// Decides whether a line holds only whitespace.
pub fn check_blank(s: &str) -> (r: bool)
    ensures
        r == is_blank(s@),
{
    let n = s.unicode_len();
    let mut i: usize = 0;
    while i < n
        invariant
            i <= n,
            n == s@.len(),
            forall|k: int|
                0 <= k < i ==> (s@[k] == ' ' || s@[k] == '\t' || s@[k] == '\r' || s@[k]
                    == '\n'),
        decreases n - i,
    {
        let c = s.get_char(i);
        if !(c == ' ' || c == '\t' || c == '\r' || c == '\n') {
            return false;
        }
        i = i + 1;
    }
    true
}

} // verus!
