//! Character-level facts about text: digits, decimal numbers, whitespace.
use vstd::prelude::*;

verus! {

broadcast use vstd::string::group_string_axioms;

/// The characters of a string slice, in order.
pub fn chars_of(s: &str) -> (out: Vec<char>)
    ensures
        out@ == s@,
{
    let mut out: Vec<char> = Vec::new();
    for c in it: s.chars()
        invariant
            out@ == it.seq().take(it.index() as int),
            it.seq() == s@,
    {
        out.push(c);
    }
    out
}

/// Whether two character sequences are equal.
pub fn same_chars(a: &Vec<char>, b: &Vec<char>) -> (eq: bool)
    ensures
        eq == (a@ == b@),
{
    if a.len() != b.len() {
        return false;
    }
    let mut i: usize = 0;
    while i < a.len()
        invariant
            a@.len() == b@.len(),
            i <= a@.len(),
            forall|j: int| 0 <= j < i ==> a@[j] == b@[j],
        decreases a.len() - i,
    {
        if a[i] != b[i] {
            return false;
        }
        i += 1;
    }
    assert(a@ =~= b@);
    true
}

/// Whether the characters in `a` spell the text `lit`.
pub fn is_text(a: &Vec<char>, lit: &str) -> (eq: bool)
    ensures
        eq == (a@ == lit@),
{
    let b = chars_of(lit);
    same_chars(a, &b)
}

/// Whether `p` is a prefix of `s`.
pub open spec fn is_prefix(p: Seq<char>, s: Seq<char>) -> bool {
    p.len() <= s.len() && s.take(p.len() as int) == p
}

pub fn has_prefix(p: &Vec<char>, s: &Vec<char>) -> (found: bool)
    ensures
        found == is_prefix(p@, s@),
{
    if p.len() > s.len() {
        return false;
    }
    let mut i: usize = 0;
    while i < p.len()
        invariant
            p@.len() <= s@.len(),
            i <= p@.len(),
            forall|j: int| 0 <= j < i ==> p@[j] == s@[j],
        decreases p.len() - i,
    {
        if p[i] != s[i] {
            assert(s@.take(p@.len() as int)[i as int] != p@[i as int]);
            return false;
        }
        i += 1;
    }
    assert(s@.take(p@.len() as int) =~= p@);
    true
}

/// `m` occurs in `s` starting at position `i`.
pub open spec fn occurs_at(s: Seq<char>, m: Seq<char>, i: int) -> bool {
    0 <= i && i + m.len() <= s.len() && s.subrange(i, i + m.len()) == m
}

/// Whether `m` occurs somewhere in `s`.
pub open spec fn contains_text(s: Seq<char>, m: Seq<char>) -> bool {
    exists|i: int| #[trigger] occurs_at(s, m, i)
}

/// Whether `m` occurs in `s[lo..hi]` at a position `i` with `lo <= i`.
pub fn occurs_at_exec(s: &Vec<char>, m: &Vec<char>, i: usize) -> (found: bool)
    ensures
        found == occurs_at(s@, m@, i as int),
{
    if i > s.len() || m.len() > s.len() - i {
        return false;
    }
    let sl = s.len();
    let mut j: usize = 0;
    while j < m.len()
        invariant
            sl == s@.len(),
            i + m@.len() <= s@.len(),
            j <= m@.len(),
            forall|k: int| 0 <= k < j ==> s@[i + k] == m@[k],
        decreases m.len() - j,
    {
        assert(i + j < s@.len());
        if s[i + j] != m[j] {
            assert(s@.subrange(i as int, i + m@.len())[j as int] != m@[j as int]);
            return false;
        }
        j += 1;
    }
    assert(s@.subrange(i as int, i + m@.len()) =~= m@);
    true
}

/// Whether `m` occurs in `s[lo..hi]`.
pub fn contains_in(s: &Vec<char>, lo: usize, hi: usize, m: &Vec<char>) -> (found: bool)
    requires
        lo <= hi <= s@.len(),
    ensures
        found == contains_text(s@.subrange(lo as int, hi as int), m@),
{
    let ghost t = s@.subrange(lo as int, hi as int);
    if m.len() > hi - lo {
        assert forall|i: int| !#[trigger] occurs_at(t, m@, i) by {}
        return false;
    }
    if m.len() == 0 {
        assert(occurs_at(t, m@, 0)) by {
            assert(t.subrange(0, 0) =~= m@);
        }
        return true;
    }
    let last = hi - m.len();
    let mut i: usize = lo;
    while i <= last
        invariant
            lo <= i,
            0 < m@.len() <= hi - lo,
            last == hi - m@.len(),
            hi <= s@.len(),
            t == s@.subrange(lo as int, hi as int),
            forall|k: int| 0 <= k < i - lo ==> !#[trigger] occurs_at(t, m@, k),
        decreases last + 1 - i,
    {
        let found = occurs_at_exec(s, m, i);
        assert(t.subrange(i - lo, i - lo + m@.len()) =~= s@.subrange(i as int, i + m@.len()));
        if found {
            assert(occurs_at(t, m@, i - lo));
            return true;
        }
        i += 1;
    }
    assert forall|k: int| !#[trigger] occurs_at(t, m@, k) by {
        if 0 <= k && k + m@.len() <= t.len() {
            assert(k < i - lo);
        }
    }
    false
}

// ---------------------------------------------------------------------------
// Decimal numbers
// ---------------------------------------------------------------------------

pub open spec fn is_digit(c: char) -> bool {
    '0' <= c && c <= '9'
}

pub open spec fn digit_value(c: char) -> nat {
    (c as int - '0' as int) as nat
}

pub open spec fn digit_char(d: nat) -> char {
    (d + '0' as nat) as char
}

pub open spec fn all_digits(s: Seq<char>) -> bool {
    forall|i: int| 0 <= i < s.len() ==> is_digit(#[trigger] s[i])
}

/// The value of a string of decimal digits.
pub open spec fn digits_value(s: Seq<char>) -> nat
    decreases s.len(),
{
    if s.len() == 0 {
        0
    } else {
        digits_value(s.drop_last()) * 10 + digit_value(s.last())
    }
}

/// The decimal text of a natural number, without leading zeros.
pub open spec fn decimal(n: nat) -> Seq<char>
    decreases n,
{
    if n < 10 {
        seq![digit_char(n)]
    } else {
        decimal(n / 10).push(digit_char(n % 10))
    }
}

/// What `str::parse::<usize>` gives: an optional `+`, then one or more
/// decimal digits whose value fits in `usize`.
pub open spec fn usize_of_text(s: Seq<char>) -> Option<usize> {
    let d = if s.len() > 0 && s[0] == '+' { s.skip(1) } else { s };
    if d.len() > 0 && all_digits(d) && digits_value(d) <= usize::MAX {
        Some(digits_value(d) as usize)
    } else {
        None
    }
}

proof fn lemma_digits_value_push(s: Seq<char>, c: char)
    ensures
        digits_value(s.push(c)) == digits_value(s) * 10 + digit_value(c),
{
    assert(s.push(c).drop_last() =~= s);
}

proof fn lemma_digits_value_mono(s: Seq<char>, k: int)
    requires
        0 <= k <= s.len(),
        all_digits(s),
    ensures
        digits_value(s.take(k)) <= digits_value(s),
    decreases s.len() - k,
{
    if k < s.len() {
        lemma_digits_value_mono(s, k + 1);
        assert(s.take(k + 1).drop_last() =~= s.take(k));
        assert(s.take(k + 1).last() == s[k]);
        assert(digits_value(s.take(k + 1)) == digits_value(s.take(k)) * 10 + digit_value(s[k]));
    } else {
        assert(s.take(k) =~= s);
    }
}

/// Parses a decimal `usize` as `str::parse` does.
pub fn parse_usize(s: &str) -> (value: Option<usize>)
    ensures
        value == usize_of_text(s@),
{
    let chars = chars_of(s);
    let n = chars.len();
    let start: usize = if n > 0 && chars[0] == '+' { 1 } else { 0 };
    let ghost d = if s@.len() > 0 && s@[0] == '+' { s@.skip(1) } else { s@ };
    assert(d =~= chars@.skip(start as int));
    if start == n {
        return None;
    }
    let mut value: usize = 0;
    let mut i: usize = start;
    while i < n
        invariant
            start <= i <= n,
            n == chars@.len(),
            d == chars@.skip(start as int),
            d == (if s@.len() > 0 && s@[0] == '+' { s@.skip(1) } else { s@ }),
            forall|j: int| start <= j < i ==> is_digit(#[trigger] chars@[j]),
            value == digits_value(chars@.subrange(start as int, i as int)),
        decreases n - i,
    {
        let c = chars[i];
        if !('0' <= c && c <= '9') {
            assert(d[i - start] == c);
            assert(!is_digit(d[i - start]));
            assert(!all_digits(d));
            assert(usize_of_text(s@) is None);
            return None;
        }
        proof {
            assert(chars@.subrange(start as int, i + 1) =~= chars@.subrange(start as int, i as int).push(c));
            lemma_digits_value_push(chars@.subrange(start as int, i as int), c);
        }
        let dv = ((c as u32) - ('0' as u32)) as usize;
        if value > (usize::MAX - dv) / 10 {
            proof {
                let v = value as int;
                let e = dv as int;
                let m = usize::MAX as int;
                assert(v * 10 + e > m) by (nonlinear_arith)
                    requires
                        v > (m - e) / 10,
                        0 <= e <= 9,
                        e <= m,
                ;
                assert(digit_value(c) == dv);
                assert(digits_value(chars@.subrange(start as int, i + 1)) == v * 10 + e);
                if all_digits(d) {
                    lemma_digits_value_mono(d, i + 1 - start);
                    assert(d.take(i + 1 - start) =~= chars@.subrange(start as int, i + 1));
                    assert(digits_value(d) > usize::MAX);
                }
                assert(usize_of_text(s@) is None);
            }
            return None;
        }
        value = value * 10 + dv;
        i += 1;
    }
    assert(chars@.subrange(start as int, n as int) =~= d);
    Some(value)
}

/// The decimal text of a `usize`.
pub fn decimal_text(n: usize) -> (text: String)
    ensures
        text@ == decimal(n as nat),
    decreases n,
{
    let digits = "0123456789";
    proof {
        reveal_strlit("0123456789");
    }
    if n < 10 {
        let d = digits.substring_char(n, n + 1);
        let out = String::from_str(d);
        assert(out@ =~= seq![digit_char(n as nat)]);
        out
    } else {
        let mut out = decimal_text(n / 10);
        let r = n % 10;
        let d = digits.substring_char(r, r + 1);
        out.append(d);
        assert(out@ =~= decimal((n / 10) as nat).push(digit_char(r as nat)));
        out
    }
}

// ---------------------------------------------------------------------------
// Floating-point literals
// ---------------------------------------------------------------------------

/// The number of decimal digits at the start of `s`.
pub open spec fn leading_digits(s: Seq<char>) -> nat
    decreases s.len(),
{
    if s.len() > 0 && is_digit(s[0]) {
        1 + leading_digits(s.drop_first())
    } else {
        0
    }
}

pub open spec fn lower(c: char) -> char {
    if 'A' <= c && c <= 'Z' {
        ((c as u32) + 32) as char
    } else {
        c
    }
}

pub open spec fn lowercase(s: Seq<char>) -> Seq<char> {
    s.map_values(|c: char| lower(c))
}

/// `s` without one leading `+` or `-`.
pub open spec fn strip_sign(s: Seq<char>) -> Seq<char> {
    if s.len() > 0 && (s[0] == '+' || s[0] == '-') {
        s.skip(1)
    } else {
        s
    }
}

/// `e` or `E`, an optional sign, and one or more digits.
pub open spec fn is_exponent(s: Seq<char>) -> bool {
    s.len() > 0 && lower(s[0]) == 'e' && {
        let t = strip_sign(s.skip(1));
        t.len() > 0 && all_digits(t)
    }
}

/// Digits with an optional decimal point (at least one digit in all), then
/// an optional exponent.
pub open spec fn is_decimal_number(t: Seq<char>) -> bool {
    let a = leading_digits(t);
    if a < t.len() && t[a as int] == '.' {
        let b = leading_digits(t.skip(a + 1 as int));
        let m = a + 1 + b;
        a + b > 0 && (m == t.len() || is_exponent(t.skip(m as int)))
    } else {
        a > 0 && (a == t.len() || is_exponent(t.skip(a as int)))
    }
}

/// The texts that `str::parse::<f64>` accepts: an optional sign, then `inf`,
/// `infinity` or `nan` in any case, or a decimal number.
pub open spec fn is_float_text(s: Seq<char>) -> bool {
    let t = strip_sign(s);
    let l = lowercase(t);
    l == "inf"@ || l == "infinity"@ || l == "nan"@ || is_decimal_number(t)
}

proof fn lemma_leading_digits_bound(s: Seq<char>)
    ensures
        leading_digits(s) <= s.len(),
        forall|i: int| 0 <= i < leading_digits(s) ==> is_digit(#[trigger] s[i]),
        leading_digits(s) < s.len() ==> !is_digit(s[leading_digits(s) as int]),
    decreases s.len(),
{
    if s.len() > 0 && is_digit(s[0]) {
        lemma_leading_digits_bound(s.drop_first());
        assert forall|i: int| 0 <= i < leading_digits(s) implies is_digit(#[trigger] s[i]) by {
            if i > 0 {
                assert(s[i] == s.drop_first()[i - 1]);
            }
        }
    }
}

/// The number of digits in `s` from position `from` on, up to the first
/// character that is not a digit.
fn count_digits(s: &Vec<char>, from: usize) -> (count: usize)
    requires
        from <= s@.len(),
    ensures
        count == leading_digits(s@.skip(from as int)),
        from + count <= s@.len(),
{
    let mut i = from;
    while i < s.len() && '0' <= s[i] && s[i] <= '9'
        invariant
            from <= i <= s@.len(),
            leading_digits(s@.skip(from as int)) == (i - from) + leading_digits(s@.skip(i as int)),
        decreases s.len() - i,
    {
        assert(s@.skip(i as int).drop_first() =~= s@.skip(i + 1));
        i += 1;
    }
    i - from
}

fn exponent_at(s: &Vec<char>, from: usize) -> (ok: bool)
    requires
        from <= s@.len(),
    ensures
        ok == is_exponent(s@.skip(from as int)),
{
    let ghost e = s@.skip(from as int);
    let n = s.len();
    if from >= n || !(s[from] == 'e' || s[from] == 'E') {
        return false;
    }
    let mut k = from + 1;
    if k < n && (s[k] == '+' || s[k] == '-') {
        k += 1;
    }
    assert(strip_sign(e.skip(1)) =~= s@.skip(k as int));
    if k == n {
        return false;
    }
    let c = count_digits(s, k);
    proof {
        lemma_leading_digits_bound(s@.skip(k as int));
    }
    if k + c == n {
        assert forall|i: int| 0 <= i < s@.skip(k as int).len() implies is_digit(#[trigger] s@.skip(k as int)[i]) by {}
        true
    } else {
        assert(!is_digit(s@.skip(k as int)[c as int]));
        false
    }
}

fn lowered(s: &Vec<char>, from: usize) -> (out: Vec<char>)
    requires
        from <= s@.len(),
    ensures
        out@ == lowercase(s@.skip(from as int)),
{
    let mut out: Vec<char> = Vec::new();
    let mut i = from;
    while i < s.len()
        invariant
            from <= i <= s@.len(),
            out@ == lowercase(s@.skip(from as int)).take(i - from),
        decreases s.len() - i,
    {
        let c = s[i];
        let l = if 'A' <= c && c <= 'Z' {
            let code = (c as u32) as u8 + 32;
            code as char
        } else {
            c
        };
        out.push(l);
        assert(out@ =~= lowercase(s@.skip(from as int)).take(i + 1 - from));
        i += 1;
    }
    assert(out@ =~= lowercase(s@.skip(from as int)));
    out
}

/// Whether `str::parse::<f64>` accepts `text`.
pub fn is_float_literal(text: &str) -> (ok: bool)
    ensures
        ok == is_float_text(text@),
{
    let s = chars_of(text);
    let n = s.len();
    let start: usize = if n > 0 && (s[0] == '+' || s[0] == '-') { 1 } else { 0 };
    let ghost t = s@.skip(start as int);
    assert(strip_sign(text@) =~= t);
    let l = lowered(&s, start);
    if is_text(&l, "inf") || is_text(&l, "infinity") || is_text(&l, "nan") {
        return true;
    }
    let a = count_digits(&s, start);
    proof {
        lemma_leading_digits_bound(t);
    }
    if start + a < n && s[start + a] == '.' {
        let b = count_digits(&s, start + a + 1);
        assert(s@.skip(start + a + 1) =~= t.skip(a + 1));
        let m = start + a + 1 + b;
        assert(s@.skip(m as int) =~= t.skip(a + 1 + b));
        if a + b == 0 {
            return false;
        }
        m == n || exponent_at(&s, m)
    } else {
        assert(s@.skip(start + a) =~= t.skip(a as int));
        a > 0 && (start + a == n || exponent_at(&s, start + a))
    }
}

// ---------------------------------------------------------------------------
// Whitespace, lines and fields
// ---------------------------------------------------------------------------

/// The characters with the Unicode `White_Space` property, which
/// `char::is_whitespace` recognizes.
pub open spec fn is_ws(c: char) -> bool {
    c == '\t' || c == '\n' || c == '\u{0B}' || c == '\u{0C}' || c == '\r' || c == ' ' || c == '\u{85}'
        || c == '\u{A0}' || c == '\u{1680}' || ('\u{2000}' <= c && c <= '\u{200A}') || c == '\u{2028}'
        || c == '\u{2029}' || c == '\u{202F}' || c == '\u{205F}' || c == '\u{3000}'
}

pub fn is_whitespace(c: char) -> (ws: bool)
    ensures
        ws == is_ws(c),
{
    c == '\t' || c == '\n' || c == '\u{0B}' || c == '\u{0C}' || c == '\r' || c == ' ' || c == '\u{85}'
        || c == '\u{A0}' || c == '\u{1680}' || ('\u{2000}' <= c && c <= '\u{200A}') || c == '\u{2028}'
        || c == '\u{2029}' || c == '\u{202F}' || c == '\u{205F}' || c == '\u{3000}'
}

pub open spec fn trim_start(s: Seq<char>) -> Seq<char>
    decreases s.len(),
{
    if s.len() > 0 && is_ws(s[0]) {
        trim_start(s.drop_first())
    } else {
        s
    }
}

pub open spec fn trim_end(s: Seq<char>) -> Seq<char>
    decreases s.len(),
{
    if s.len() > 0 && is_ws(s.last()) {
        trim_end(s.drop_last())
    } else {
        s
    }
}

/// `s` without leading and trailing whitespace, as `str::trim` gives it.
pub open spec fn trim(s: Seq<char>) -> Seq<char> {
    trim_end(trim_start(s))
}

/// The bounds of `s[lo..hi]` without its leading and trailing whitespace.
pub fn trim_range(s: &Vec<char>, lo: usize, hi: usize) -> (r: (usize, usize))
    requires
        lo <= hi <= s@.len(),
    ensures
        lo <= r.0 <= r.1 <= hi,
        s@.subrange(r.0 as int, r.1 as int) == trim(s@.subrange(lo as int, hi as int)),
{
    let mut a = lo;
    while a < hi && is_whitespace(s[a])
        invariant
            lo <= a <= hi <= s@.len(),
            trim_start(s@.subrange(lo as int, hi as int)) == trim_start(s@.subrange(a as int, hi as int)),
        decreases hi - a,
    {
        assert(s@.subrange(a as int, hi as int).drop_first() =~= s@.subrange(a + 1, hi as int));
        a += 1;
    }
    let mut b = hi;
    while b > a && is_whitespace(s[b - 1])
        invariant
            a <= b <= hi <= s@.len(),
            trim_end(s@.subrange(a as int, hi as int)) == trim_end(s@.subrange(a as int, b as int)),
        decreases b - a,
    {
        assert(s@.subrange(a as int, b as int).drop_last() =~= s@.subrange(a as int, b - 1));
        b -= 1;
    }
    (a, b)
}

/// The number of characters before the first whitespace.
pub open spec fn word_len(s: Seq<char>) -> nat
    decreases s.len(),
{
    if s.len() == 0 || is_ws(s[0]) {
        0
    } else {
        1 + word_len(s.drop_first())
    }
}

/// The whitespace-separated words of `s`, as `str::split_whitespace` gives them.
pub open spec fn words_of(s: Seq<char>) -> Seq<Seq<char>>
    decreases s.len(),
{
    if s.len() == 0 {
        seq![]
    } else if is_ws(s[0]) {
        words_of(s.drop_first())
    } else {
        let w = word_len(s);
        if 0 < w <= s.len() {
            seq![s.take(w as int)] + words_of(s.skip(w as int))
        } else {
            seq![]
        }
    }
}

proof fn lemma_word_len(s: Seq<char>)
    ensures
        word_len(s) <= s.len(),
        s.len() > 0 && !is_ws(s[0]) ==> word_len(s) > 0,
    decreases s.len(),
{
    if s.len() > 0 && !is_ws(s[0]) {
        lemma_word_len(s.drop_first());
    }
}

/// The texts that bounds `(a, b)` pick out of `s`.
pub open spec fn pieces(s: Seq<char>, bounds: Seq<(usize, usize)>) -> Seq<Seq<char>> {
    bounds.map_values(|p: (usize, usize)| s.subrange(p.0 as int, p.1 as int))
}

/// The bounds of the whitespace-separated words of `s[lo..hi]`.
pub fn word_bounds(s: &Vec<char>, lo: usize, hi: usize) -> (r: Vec<(usize, usize)>)
    requires
        lo <= hi <= s@.len(),
    ensures
        pieces(s@, r@) == words_of(s@.subrange(lo as int, hi as int)),
        forall|j: int| 0 <= j < r@.len() ==> lo <= (#[trigger] r@[j]).0 <= r@[j].1 <= hi,
{
    let mut out: Vec<(usize, usize)> = Vec::new();
    let mut k = lo;
    while k < hi
        invariant
            lo <= k <= hi <= s@.len(),
            words_of(s@.subrange(lo as int, hi as int)) == pieces(s@, out@) + words_of(s@.subrange(k as int, hi as int)),
            forall|j: int| 0 <= j < out@.len() ==> lo <= (#[trigger] out@[j]).0 <= out@[j].1 <= k,
        decreases hi - k,
    {
        let ghost rest = s@.subrange(k as int, hi as int);
        if is_whitespace(s[k]) {
            assert(rest.drop_first() =~= s@.subrange(k + 1, hi as int));
            k += 1;
        } else {
            let start = k;
            while k < hi && !is_whitespace(s[k])
                invariant
                    start <= k <= hi <= s@.len(),
                    word_len(rest) == (k - start) + word_len(s@.subrange(k as int, hi as int)),
                    rest == s@.subrange(start as int, hi as int),
                decreases hi - k,
            {
                assert(s@.subrange(k as int, hi as int).drop_first() =~= s@.subrange(k + 1, hi as int));
                k += 1;
            }
            proof {
                lemma_word_len(rest);
            }
            let ghost prev = out@;
            out.push((start, k));
            assert(pieces(s@, out@) =~= pieces(s@, prev).push(s@.subrange(start as int, k as int)));
            assert(rest.take(k - start) =~= s@.subrange(start as int, k as int));
            assert(rest.skip(k - start) =~= s@.subrange(k as int, hi as int));
            assert(words_of(rest) == seq![rest.take(k - start)] + words_of(rest.skip(k - start)));
            assert(pieces(s@, prev) + words_of(rest) =~= pieces(s@, out@) + words_of(s@.subrange(k as int, hi as int)));
        }
    }
    assert(words_of(s@.subrange(k as int, hi as int)) =~= Seq::<Seq<char>>::empty());
    assert(pieces(s@, out@) + Seq::<Seq<char>>::empty() =~= pieces(s@, out@));
    out
}

/// The first position at or after `i` where `d` occurs in `s`.
pub open spec fn find_from(s: Seq<char>, d: Seq<char>, i: int) -> Option<int>
    decreases s.len() + 1 - i,
{
    if i < 0 || i + d.len() > s.len() {
        None
    } else if occurs_at(s, d, i) {
        Some(i)
    } else {
        find_from(s, d, i + 1)
    }
}

/// The pieces of `s` between the occurrences of `d`, as `str::split` gives
/// them for a non-empty `d`.
pub open spec fn split_on(s: Seq<char>, d: Seq<char>) -> Seq<Seq<char>>
    decreases s.len(),
{
    if d.len() == 0 {
        seq![s]
    } else {
        match find_from(s, d, 0) {
            Some(i) => if 0 <= i && i + d.len() <= s.len() {
                seq![s.take(i)] + split_on(s.skip(i + d.len()), d)
            } else {
                seq![s]
            },
            None => seq![s],
        }
    }
}

/// The pieces of `s` between the occurrences of `d`, each trimmed.
pub open spec fn trimmed_pieces(s: Seq<char>, d: Seq<char>) -> Seq<Seq<char>> {
    split_on(s, d).map_values(|f: Seq<char>| trim(f))
}

proof fn lemma_find_from_bounds(s: Seq<char>, d: Seq<char>, i: int)
    ensures
        find_from(s, d, i) matches Some(j) ==> i <= j && j + d.len() <= s.len() && occurs_at(s, d, j),
    decreases s.len() + 1 - i,
{
    if !(i < 0 || i + d.len() > s.len()) && !occurs_at(s, d, i) {
        lemma_find_from_bounds(s, d, i + 1);
    }
}

/// The bounds of the trimmed pieces of `s[lo..hi]` between the occurrences of `d`.
pub fn piece_bounds(s: &Vec<char>, lo: usize, hi: usize, d: &Vec<char>) -> (r: Vec<(usize, usize)>)
    requires
        lo <= hi <= s@.len(),
        d@.len() > 0,
    ensures
        pieces(s@, r@) == trimmed_pieces(s@.subrange(lo as int, hi as int), d@),
        forall|j: int| 0 <= j < r@.len() ==> lo <= (#[trigger] r@[j]).0 <= r@[j].1 <= hi,
{
    let mut out: Vec<(usize, usize)> = Vec::new();
    let mut k = lo;
    loop
        invariant
            lo <= k <= hi <= s@.len(),
            d@.len() > 0,
            trimmed_pieces(s@.subrange(lo as int, hi as int), d@) == pieces(s@, out@) + trimmed_pieces(
                s@.subrange(k as int, hi as int),
                d@,
            ),
            forall|j: int| 0 <= j < out@.len() ==> lo <= (#[trigger] out@[j]).0 <= out@[j].1 <= k,
        decreases hi - k,
    {
        let ghost rest = s@.subrange(k as int, hi as int);
        let mut p = k;
        let mut found = false;
        while p < hi && !found
            invariant
                k <= p <= hi <= s@.len(),
                d@.len() > 0,
                rest == s@.subrange(k as int, hi as int),
                !found ==> find_from(rest, d@, 0) == find_from(rest, d@, p - k),
                found ==> find_from(rest, d@, 0) == Some(p - k),
            decreases hi - p + (if found { 0int } else { 1int }),
        {
            let here = contains_at(s, hi, d, p);
            proof {
                if p + d@.len() <= hi {
                    assert(rest.subrange(p - k, p - k + d@.len()) =~= s@.subrange(p as int, p + d@.len()));
                }
            }
            if here {
                found = true;
            } else {
                p += 1;
            }
        }
        let ghost prev = out@;
        if found {
            let (a, b) = trim_range(s, k, p);
            out.push((a, b));
            proof {
                let q = p - k;
                lemma_find_from_bounds(rest, d@, 0);
                assert(rest.take(q) =~= s@.subrange(k as int, p as int));
                assert(rest.skip(q + d@.len()) =~= s@.subrange(p + d@.len(), hi as int));
                assert(split_on(rest, d@) == seq![rest.take(q)] + split_on(rest.skip(q + d@.len()), d@));
                assert(trimmed_pieces(rest, d@) =~= seq![trim(rest.take(q))] + trimmed_pieces(rest.skip(q + d@.len()), d@));
                assert(pieces(s@, out@) =~= pieces(s@, prev).push(trim(rest.take(q))));
            }
            k = p + d.len();
        } else {
            proof {
                lemma_find_from_bounds(rest, d@, p - k);
                assert(find_from(rest, d@, p - k) is None);
                assert(split_on(rest, d@) == seq![rest]);
            }
            let (a, b) = trim_range(s, k, hi);
            out.push((a, b));
            assert(pieces(s@, out@) =~= pieces(s@, prev).push(trim(rest)));
            assert(trimmed_pieces(rest, d@) =~= seq![trim(rest)]);
            return out;
        }
    }
}

/// Whether `d` occurs in `s` at position `p`, ending at or before `hi`.
fn contains_at(s: &Vec<char>, hi: usize, d: &Vec<char>, p: usize) -> (found: bool)
    requires
        p <= hi <= s@.len(),
    ensures
        found == (p + d@.len() <= hi && occurs_at(s@, d@, p as int)),
{
    if d.len() > hi - p {
        return false;
    }
    occurs_at_exec(s, d, p)
}

// ---------------------------------------------------------------------------
// Building strings
// ---------------------------------------------------------------------------

/// `String::push`: appends one character to the string.
#[verifier::external_body]
pub(crate) fn push_char(s: &mut String, c: char)
    ensures
        final(s)@ == old(s)@.push(c),
{
    s.push(c);
}

/// The text of `s[a..b]`.
pub fn string_of(s: &Vec<char>, a: usize, b: usize) -> (text: String)
    requires
        a <= b <= s@.len(),
    ensures
        text@ == s@.subrange(a as int, b as int),
{
    let mut text = String::new();
    let mut k = a;
    while k < b
        invariant
            a <= k <= b <= s@.len(),
            text@ == s@.subrange(a as int, k as int),
        decreases b - k,
    {
        push_char(&mut text, s[k]);
        assert(text@ =~= s@.subrange(a as int, k + 1));
        k += 1;
    }
    text
}

/// `names` joined with `sep` between neighbours.
pub open spec fn join(names: Seq<Seq<char>>, sep: Seq<char>) -> Seq<char>
    decreases names.len(),
{
    if names.len() == 0 {
        seq![]
    } else if names.len() == 1 {
        names[0]
    } else {
        join(names.drop_last(), sep) + sep + names.last()
    }
}

/// The texts of `parts` joined with `sep` between neighbours.
pub fn join_texts(parts: &Vec<String>, sep: &str) -> (text: String)
    ensures
        text@ == join(parts.deep_view(), sep@),
{
    let ghost names = parts.deep_view();
    let mut text = String::new();
    let mut k: usize = 0;
    while k < parts.len()
        invariant
            names == parts.deep_view(),
            k <= parts@.len(),
            text@ == join(names.take(k as int), sep@),
        decreases parts.len() - k,
    {
        assert(names.take(k + 1).drop_last() =~= names.take(k as int));
        if k > 0 {
            text.append(sep);
        } else {
            assert(names.take(0) =~= Seq::<Seq<char>>::empty());
        }
        text.append(parts[k].as_str());
        k += 1;
    }
    assert(names.take(parts@.len() as int) =~= names);
    text
}

// ---------------------------------------------------------------------------
// Laws
// ---------------------------------------------------------------------------

proof fn lemma_decimal(n: nat)
    ensures
        decimal(n).len() > 0,
        all_digits(decimal(n)),
        digits_value(decimal(n)) == n,
        is_digit(decimal(n)[0]),
    decreases n,
{
    if n < 10 {
        assert(digit_value(digit_char(n)) == n);
        assert(seq![digit_char(n)].drop_last() =~= Seq::<char>::empty());
        assert(digits_value(seq![digit_char(n)]) == digits_value(Seq::<char>::empty()) * 10 + digit_value(digit_char(n)));
    } else {
        lemma_decimal(n / 10);
        let d = decimal(n / 10);
        lemma_digits_value_push(d, digit_char(n % 10));
        assert(digit_value(digit_char(n % 10)) == n % 10);
        assert(decimal(n)[0] == d[0]);
        assert((n / 10) * 10 + n % 10 == n) by (nonlinear_arith);
    }
}

/// The decimal text of a number reads back as that number.
pub proof fn law_decimal_reads_back(n: usize)
    ensures
        usize_of_text(decimal(n as nat)) == Some(n),
{
    lemma_decimal(n as nat);
}

proof fn lemma_leading_digits_all(s: Seq<char>)
    requires
        all_digits(s),
    ensures
        leading_digits(s) == s.len(),
    decreases s.len(),
{
    if s.len() > 0 {
        assert(is_digit(s[0]));
        assert forall|i: int| 0 <= i < s.drop_first().len() implies is_digit(#[trigger] s.drop_first()[i]) by {
            assert(s.drop_first()[i] == s[i + 1]);
        }
        lemma_leading_digits_all(s.drop_first());
    }
}

/// The decimal text of a number is a floating-point literal too.
pub proof fn law_decimal_is_float_text(n: nat)
    ensures
        is_float_text(decimal(n)),
{
    lemma_decimal(n);
    let t = decimal(n);
    assert(strip_sign(t) == t);
    lemma_leading_digits_all(t);
}

} // verus!
