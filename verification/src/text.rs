//! Character-level building blocks shared by the parsers and the emitters:
//! whitespace and trimming, spans of a character class, literal matches,
//! substring search, and the decimal form of a `u8`.

use vstd::prelude::*;

verus! {

/// `String::push` appends one character.
pub assume_specification[ String::push ](s: &mut String, ch: char)
    ensures
        final(s)@ == old(s)@.push(ch),
;

/// The characters of `s`, in order.
pub fn chars_of(s: &str) -> (v: Vec<char>)
    ensures
        v@ == s@,
{
    let mut v: Vec<char> = Vec::new();
    for c in it: s.chars()
        invariant
            v@ == it.seq().take(it.index()),
    {
        v.push(c);
    }
    v
}

// ── Whitespace and trimming ──────────────────────────────────────────────────

/// The Unicode `White_Space` characters, which is what `char::is_whitespace` accepts.
pub open spec fn is_ws(c: char) -> bool {
    let u = c as u32;
    ||| 0x9 <= u <= 0xd
    ||| u == 0x20
    ||| u == 0x85
    ||| u == 0xa0
    ||| u == 0x1680
    ||| 0x2000 <= u <= 0x200a
    ||| u == 0x2028
    ||| u == 0x2029
    ||| u == 0x202f
    ||| u == 0x205f
    ||| u == 0x3000
}

pub fn char_is_ws(c: char) -> (b: bool)
    ensures
        b == is_ws(c),
{
    let u = c as u32;
    (0x9 <= u && u <= 0xd) || u == 0x20 || u == 0x85 || u == 0xa0 || u == 0x1680 || (0x2000 <= u
        && u <= 0x200a) || u == 0x2028 || u == 0x2029 || u == 0x202f || u == 0x205f || u == 0x3000
}

/// Number of whitespace characters at the start of `s`.
pub open spec fn lead_ws(s: Seq<char>) -> nat
    decreases s.len(),
{
    if s.len() > 0 && is_ws(s[0]) {
        1 + lead_ws(s.drop_first())
    } else {
        0
    }
}

/// Number of whitespace characters at the end of `s`.
pub open spec fn trail_ws(s: Seq<char>) -> nat
    decreases s.len(),
{
    if s.len() > 0 && is_ws(s.last()) {
        1 + trail_ws(s.drop_last())
    } else {
        0
    }
}

/// Number of `'\n'` characters at the start of `s`.
pub open spec fn lead_nl(s: Seq<char>) -> nat
    decreases s.len(),
{
    if s.len() > 0 && s[0] == '\n' {
        1 + lead_nl(s.drop_first())
    } else {
        0
    }
}

/// `str::trim_start`.
pub open spec fn trim_start(s: Seq<char>) -> Seq<char> {
    s.skip(lead_ws(s) as int)
}

/// `str::trim_end`.
pub open spec fn trim_end(s: Seq<char>) -> Seq<char> {
    s.take(s.len() - trail_ws(s))
}

/// `str::trim`.
pub open spec fn trim(s: Seq<char>) -> Seq<char> {
    trim_end(trim_start(s))
}

/// `str::trim_start_matches('\n')`.
pub open spec fn trim_start_newlines(s: Seq<char>) -> Seq<char> {
    s.skip(lead_nl(s) as int)
}

pub proof fn lemma_trail_ws_bound(s: Seq<char>)
    ensures
        trail_ws(s) <= s.len(),
    decreases s.len(),
{
    if s.len() > 0 && is_ws(s.last()) {
        lemma_trail_ws_bound(s.drop_last());
    }
}

/// `lead_ws` is the length of the maximal whitespace prefix.
pub proof fn lemma_lead_ws_exact(s: Seq<char>, k: int)
    requires
        0 <= k <= s.len(),
        forall|j: int| 0 <= j < k ==> is_ws(#[trigger] s[j]),
        k == s.len() || !is_ws(s[k]),
    ensures
        lead_ws(s) == k,
    decreases k,
{
    if k > 0 {
        lemma_lead_ws_exact(s.drop_first(), k - 1);
    }
}

/// `trail_ws` is the length of the maximal whitespace suffix.
pub proof fn lemma_trail_ws_exact(s: Seq<char>, k: int)
    requires
        0 <= k <= s.len(),
        forall|j: int| s.len() - k <= j < s.len() ==> is_ws(#[trigger] s[j]),
        k == s.len() || !is_ws(s[s.len() - k - 1]),
    ensures
        trail_ws(s) == k,
    decreases k,
{
    if k > 0 {
        let t = s.drop_last();
        assert forall|j: int| t.len() - (k - 1) <= j < t.len() implies is_ws(#[trigger] t[j]) by {
            assert(t[j] == s[j]);
        }
        if k - 1 < t.len() {
            assert(t[t.len() - (k - 1) - 1] == s[s.len() - k - 1]);
        }
        lemma_trail_ws_exact(t, k - 1);
    }
}

pub proof fn lemma_lead_nl_exact(s: Seq<char>, k: int)
    requires
        0 <= k <= s.len(),
        forall|j: int| 0 <= j < k ==> #[trigger] s[j] == '\n',
        k == s.len() || s[k] != '\n',
    ensures
        lead_nl(s) == k,
    decreases k,
{
    if k > 0 {
        lemma_lead_nl_exact(s.drop_first(), k - 1);
    }
}

/// The bounds, within `s[lo..hi]`, of the part that `trim_start` keeps.
pub fn trim_start_bound(s: &Vec<char>, lo: usize, hi: usize) -> (a: usize)
    requires
        lo <= hi <= s.len(),
    ensures
        lo <= a <= hi,
        s@.subrange(a as int, hi as int) == trim_start(s@.subrange(lo as int, hi as int)),
{
    let mut a = lo;
    while a < hi && char_is_ws(s[a])
        invariant
            lo <= a <= hi <= s.len(),
            forall|j: int| lo <= j < a ==> is_ws(#[trigger] s@[j]),
        decreases hi - a,
    {
        a = a + 1;
    }
    proof {
        let x = s@.subrange(lo as int, hi as int);
        assert forall|j: int| 0 <= j < a - lo implies is_ws(#[trigger] x[j]) by {
            assert(x[j] == s@[lo + j]);
        }
        if a < hi {
            assert(x[a - lo] == s@[a as int]);
        }
        lemma_lead_ws_exact(x, a - lo);
        assert(x.skip(a - lo) =~= s@.subrange(a as int, hi as int));
    }
    a
}

/// The end, within `s[lo..hi]`, of the part that `trim_end` keeps.
pub fn trim_end_bound(s: &Vec<char>, lo: usize, hi: usize) -> (b: usize)
    requires
        lo <= hi <= s.len(),
    ensures
        lo <= b <= hi,
        s@.subrange(lo as int, b as int) == trim_end(s@.subrange(lo as int, hi as int)),
{
    let mut b = hi;
    while b > lo && char_is_ws(s[b - 1])
        invariant
            lo <= b <= hi <= s.len(),
            forall|j: int| b <= j < hi ==> is_ws(#[trigger] s@[j]),
        decreases b - lo,
    {
        b = b - 1;
    }
    proof {
        let x = s@.subrange(lo as int, hi as int);
        let k = hi - b;
        assert forall|j: int| x.len() - k <= j < x.len() implies is_ws(#[trigger] x[j]) by {
            assert(x[j] == s@[lo + j]);
        }
        if k < x.len() {
            assert(x[x.len() - k - 1] == s@[b - 1]);
        }
        lemma_trail_ws_exact(x, k);
        assert(x.take(x.len() - k) =~= s@.subrange(lo as int, b as int));
    }
    b
}

/// The bounds, within `s[lo..hi]`, of the part that `trim` keeps.
pub fn trim_bounds(s: &Vec<char>, lo: usize, hi: usize) -> (r: (usize, usize))
    requires
        lo <= hi <= s.len(),
    ensures
        lo <= r.0 <= r.1 <= hi,
        s@.subrange(r.0 as int, r.1 as int) == trim(s@.subrange(lo as int, hi as int)),
{
    let a = trim_start_bound(s, lo, hi);
    let b = trim_end_bound(s, a, hi);
    (a, b)
}

// ── Character classes and spans ──────────────────────────────────────────────

/// The sets of characters that the grammars take runs of.
#[derive(Clone, Copy, PartialEq, Eq, Structural)]
pub enum CharClass {
    /// A space or a tab.
    Blank,
    /// Anything but `|` and a newline.
    Segment,
    /// Anything but `=`, `|` and a newline.
    Key,
}

pub open spec fn in_class(cls: CharClass, c: char) -> bool {
    match cls {
        CharClass::Blank => c == ' ' || c == '\t',
        CharClass::Segment => c != '|' && c != '\n',
        CharClass::Key => c != '=' && c != '|' && c != '\n',
    }
}

pub fn char_in_class(cls: CharClass, c: char) -> (b: bool)
    ensures
        b == in_class(cls, c),
{
    match cls {
        CharClass::Blank => c == ' ' || c == '\t',
        CharClass::Segment => c != '|' && c != '\n',
        CharClass::Key => c != '=' && c != '|' && c != '\n',
    }
}

/// The end of the longest run of `cls` characters in `s` that starts at `i`.
pub open spec fn span(s: Seq<char>, i: int, cls: CharClass) -> int
    decreases s.len() - i,
{
    if 0 <= i < s.len() && in_class(cls, s[i]) {
        span(s, i + 1, cls)
    } else {
        i
    }
}

pub proof fn lemma_span(s: Seq<char>, i: int, cls: CharClass)
    requires
        0 <= i <= s.len(),
    ensures
        i <= span(s, i, cls) <= s.len(),
        forall|k: int| i <= k < span(s, i, cls) ==> in_class(cls, #[trigger] s[k]),
        span(s, i, cls) == s.len() || !in_class(cls, s[span(s, i, cls)]),
    decreases s.len() - i,
{
    if i < s.len() && in_class(cls, s[i]) {
        lemma_span(s, i + 1, cls);
    }
}

pub proof fn lemma_span_exact(s: Seq<char>, i: int, j: int, cls: CharClass)
    requires
        0 <= i <= j <= s.len(),
        forall|k: int| i <= k < j ==> in_class(cls, #[trigger] s[k]),
        j == s.len() || !in_class(cls, s[j]),
    ensures
        span(s, i, cls) == j,
    decreases j - i,
{
    if i < j {
        lemma_span_exact(s, i + 1, j, cls);
    }
}

pub fn span_end(s: &Vec<char>, i: usize, cls: CharClass) -> (e: usize)
    requires
        i <= s.len(),
    ensures
        e == span(s@, i as int, cls),
        i <= e <= s.len(),
{
    let mut k = i;
    while k < s.len() && char_in_class(cls, s[k])
        invariant
            i <= k <= s.len(),
            span(s@, k as int, cls) == span(s@, i as int, cls),
        decreases s.len() - k,
    {
        k = k + 1;
    }
    k
}

// ── Literal matches and substring search ─────────────────────────────────────

/// `pat` occurs in `s` at position `i`.
pub open spec fn has_at(s: Seq<char>, i: int, pat: Seq<char>) -> bool {
    0 <= i && i + pat.len() <= s.len() && s.subrange(i, i + pat.len()) == pat
}

pub fn has_at_exec(s: &Vec<char>, i: usize, pat: &Vec<char>) -> (b: bool)
    ensures
        b == has_at(s@, i as int, pat@),
{
    if i > s.len() || pat.len() > s.len() - i {
        return false;
    }
    let mut k: usize = 0;
    while k < pat.len()
        invariant
            i + pat.len() <= s.len(),
            0 <= k <= pat.len(),
            forall|j: int| 0 <= j < k ==> s@[i + j] == pat@[j],
        decreases pat.len() - k,
    {
        if s[i + k] != pat[k] {
            assert(s@.subrange(i as int, i + pat.len())[k as int] != pat@[k as int]);
            return false;
        }
        k = k + 1;
    }
    assert(s@.subrange(i as int, i + pat.len()) =~= pat@);
    true
}

/// The first position at or after `i` where `pat` occurs in `s`.
pub open spec fn find_from(s: Seq<char>, i: int, pat: Seq<char>) -> Option<int>
    decreases s.len() + 1 - i,
{
    if i < 0 || i + pat.len() > s.len() {
        None
    } else if has_at(s, i, pat) {
        Some(i)
    } else {
        find_from(s, i + 1, pat)
    }
}

pub proof fn lemma_find_from(s: Seq<char>, i: int, pat: Seq<char>)
    requires
        0 <= i,
    ensures
        match find_from(s, i, pat) {
            Some(k) => i <= k && k + pat.len() <= s.len() && has_at(s, k, pat) && forall|j: int|
                i <= j < k ==> !has_at(s, j, pat),
            None => forall|j: int| i <= j ==> !has_at(s, j, pat),
        },
    decreases s.len() + 1 - i,
{
    if i + pat.len() > s.len() {
    } else if has_at(s, i, pat) {
    } else {
        lemma_find_from(s, i + 1, pat);
    }
}

pub proof fn lemma_find_exact(s: Seq<char>, i: int, k: int, pat: Seq<char>)
    requires
        0 <= i <= k,
        has_at(s, k, pat),
        forall|j: int| i <= j < k ==> !has_at(s, j, pat),
    ensures
        find_from(s, i, pat) == Some(k),
    decreases k - i,
{
    if i < k {
        lemma_find_exact(s, i + 1, k, pat);
    }
}

pub fn find_exec(s: &Vec<char>, i: usize, pat: &Vec<char>) -> (r: Option<usize>)
    requires
        i <= s.len(),
    ensures
        r matches Some(k) ==> find_from(s@, i as int, pat@) == Some(k as int),
        r is None ==> find_from(s@, i as int, pat@) is None,
{
    if pat.len() == 0 {
        assert(s@.subrange(i as int, i as int) =~= pat@);
        return Some(i);
    }
    let mut k = i;
    while k <= s.len() && pat.len() <= s.len() - k
        invariant
            i <= k,
            k <= s.len() + 1,
            pat.len() > 0,
            find_from(s@, k as int, pat@) == find_from(s@, i as int, pat@),
        decreases s.len() + 1 - k,
    {
        if has_at_exec(s, k, pat) {
            return Some(k);
        }
        k = k + 1;
    }
    None
}

// ── Strings built from characters ────────────────────────────────────────────

/// A copy of `s[lo..hi]`.
pub fn chars_between(s: &Vec<char>, lo: usize, hi: usize) -> (r: Vec<char>)
    requires
        lo <= hi <= s.len(),
    ensures
        r@ == s@.subrange(lo as int, hi as int),
{
    let mut r: Vec<char> = Vec::new();
    let mut k = lo;
    while k < hi
        invariant
            lo <= k <= hi <= s.len(),
            r@ == s@.subrange(lo as int, k as int),
        decreases hi - k,
    {
        r.push(s[k]);
        assert(s@.subrange(lo as int, k + 1) =~= s@.subrange(lo as int, k as int).push(s@[k as int]));
        k = k + 1;
    }
    r
}

/// The start, within `s[lo..hi]`, of the part that `trim_start_matches('\n')` keeps.
pub fn trim_start_newlines_bound(s: &Vec<char>, lo: usize, hi: usize) -> (a: usize)
    requires
        lo <= hi <= s.len(),
    ensures
        lo <= a <= hi,
        s@.subrange(a as int, hi as int) == trim_start_newlines(s@.subrange(lo as int, hi as int)),
{
    let mut a = lo;
    while a < hi && s[a] == '\n'
        invariant
            lo <= a <= hi <= s.len(),
            forall|j: int| lo <= j < a ==> #[trigger] s@[j] == '\n',
        decreases hi - a,
    {
        a = a + 1;
    }
    proof {
        let x = s@.subrange(lo as int, hi as int);
        assert forall|j: int| 0 <= j < a - lo implies #[trigger] x[j] == '\n' by {
            assert(x[j] == s@[lo + j]);
        }
        if a < hi {
            assert(x[a - lo] == s@[a as int]);
        }
        lemma_lead_nl_exact(x, a - lo);
        assert(x.skip(a - lo) =~= s@.subrange(a as int, hi as int));
    }
    a
}

/// A `String` holding `s[lo..hi]`.
pub fn string_of(s: &Vec<char>, lo: usize, hi: usize) -> (r: String)
    requires
        lo <= hi <= s.len(),
    ensures
        r@ == s@.subrange(lo as int, hi as int),
{
    let mut r = String::new();
    let mut k = lo;
    while k < hi
        invariant
            lo <= k <= hi <= s.len(),
            r@ == s@.subrange(lo as int, k as int),
        decreases hi - k,
    {
        r.push(s[k]);
        assert(s@.subrange(lo as int, k + 1) =~= s@.subrange(lo as int, k as int).push(s@[k as int]));
        k = k + 1;
    }
    r
}

/// A `String` holding the trimmed `s[lo..hi]`.
pub fn trimmed_string_of(s: &Vec<char>, lo: usize, hi: usize) -> (r: String)
    requires
        lo <= hi <= s.len(),
    ensures
        r@ == trim(s@.subrange(lo as int, hi as int)),
{
    let (a, b) = trim_bounds(s, lo, hi);
    string_of(s, a, b)
}

// ── Decimal `u8` ─────────────────────────────────────────────────────────────

pub open spec fn is_digit(c: char) -> bool {
    48 <= (c as u32) <= 57
}

pub open spec fn digit_value(c: char) -> int {
    (c as u32) - 48
}

pub open spec fn digit_char(d: int) -> char {
    (d + 48) as char
}

/// Why `str::parse::<u8>` refuses a text.
#[derive(Clone, Copy, PartialEq, Eq, Structural)]
pub enum IntErrorKind {
    Empty,
    InvalidDigit,
    PosOverflow,
}

/// Left-to-right accumulation of decimal digits, failing at the first
/// non-digit or at the first step whose value exceeds `u8::MAX`.
pub open spec fn scan_digits(d: Seq<char>, acc: int) -> Result<int, IntErrorKind>
    decreases d.len(),
{
    if d.len() == 0 {
        Ok(acc)
    } else if !is_digit(d[0]) {
        Err(IntErrorKind::InvalidDigit)
    } else if acc * 10 + digit_value(d[0]) > 255 {
        Err(IntErrorKind::PosOverflow)
    } else {
        scan_digits(d.drop_first(), acc * 10 + digit_value(d[0]))
    }
}

/// `str::parse::<u8>`: an optional `+` followed by decimal digits whose value fits in a `u8`.
pub open spec fn parse_u8_text(s: Seq<char>) -> Result<u8, IntErrorKind> {
    if s.len() == 0 {
        Err(IntErrorKind::Empty)
    } else if s[0] == '+' && s.len() == 1 {
        Err(IntErrorKind::InvalidDigit)
    } else {
        let d = if s[0] == '+' {
            s.drop_first()
        } else {
            s
        };
        match scan_digits(d, 0) {
            Ok(v) => Ok(v as u8),
            Err(e) => Err(e),
        }
    }
}

/// The decimal text of `n`, as `u8`'s `Display` writes it.
pub open spec fn u8_text(n: u8) -> Seq<char> {
    if n < 10 {
        seq![digit_char(n as int)]
    } else if n < 100 {
        seq![digit_char((n / 10) as int), digit_char((n % 10) as int)]
    } else {
        seq![
            digit_char((n / 100) as int),
            digit_char(((n / 10) % 10) as int),
            digit_char((n % 10) as int),
        ]
    }
}

/// Reading back the decimal text of a `u8` gives the same `u8`.
pub proof fn lemma_u8_text_roundtrip(n: u8)
    ensures
        parse_u8_text(u8_text(n)) == Ok::<u8, IntErrorKind>(n),
        u8_text(n).len() > 0,
        forall|k: int| 0 <= k < u8_text(n).len() ==> is_digit(#[trigger] u8_text(n)[k]),
{
    let t = u8_text(n);
    reveal_with_fuel(scan_digits, 4);
    if n < 10 {
        assert(t.drop_first() =~= Seq::<char>::empty());
    } else if n < 100 {
        assert(t.drop_first() =~= seq![digit_char((n % 10) as int)]);
        assert(t.drop_first().drop_first() =~= Seq::<char>::empty());
        assert((n / 10) * 10 + n % 10 == n);
    } else {
        assert(t.drop_first() =~= seq![digit_char(((n / 10) % 10) as int), digit_char((n % 10) as int)]);
        assert(t.drop_first().drop_first() =~= seq![digit_char((n % 10) as int)]);
        assert(t.drop_first().drop_first().drop_first() =~= Seq::<char>::empty());
        assert(((n / 100) * 10 + (n / 10) % 10) * 10 + n % 10 == n);
    }
}

/// `str::parse::<u8>` on `s[lo..hi]`.
pub fn parse_u8_exec(s: &Vec<char>, lo: usize, hi: usize) -> (r: Result<u8, IntErrorKind>)
    requires
        lo <= hi <= s.len(),
    ensures
        r == parse_u8_text(s@.subrange(lo as int, hi as int)),
{
    let ghost x = s@.subrange(lo as int, hi as int);
    if lo == hi {
        return Err(IntErrorKind::Empty);
    }
    if s[lo] == '+' && hi - lo == 1 {
        assert(x[0] == s@[lo as int]);
        return Err(IntErrorKind::InvalidDigit);
    }
    let start = if s[lo] == '+' {
        lo + 1
    } else {
        lo
    };
    assert(x[0] == s@[lo as int]);
    let ghost d = if x[0] == '+' {
        x.drop_first()
    } else {
        x
    };
    assert(d =~= s@.subrange(start as int, hi as int));
    let mut acc: u32 = 0;
    let mut k = start;
    while k < hi
        invariant
            lo <= start <= k <= hi <= s.len(),
            acc <= 255,
            parse_u8_text(s@.subrange(lo as int, hi as int)) == match scan_digits(
                s@.subrange(k as int, hi as int),
                acc as int,
            ) {
                Ok(v) => Ok(v as u8),
                Err(e) => Err(e),
            },
        decreases hi - k,
    {
        let ghost rest = s@.subrange(k as int, hi as int);
        assert(rest[0] == s@[k as int]);
        assert(rest.drop_first() =~= s@.subrange(k + 1, hi as int));
        let c = s[k];
        let u = c as u32;
        if !(48 <= u && u <= 57) {
            assert(!is_digit(rest[0]));
            assert(scan_digits(rest, acc as int) == Err::<int, IntErrorKind>(IntErrorKind::InvalidDigit));
            return Err(IntErrorKind::InvalidDigit);
        }
        let next = acc * 10 + (u - 48);
        if next > 255 {
            assert(acc * 10 + digit_value(rest[0]) > 255);
            assert(scan_digits(rest, acc as int) == Err::<int, IntErrorKind>(IntErrorKind::PosOverflow));
            return Err(IntErrorKind::PosOverflow);
        }
        acc = next;
        k = k + 1;
    }
    assert(s@.subrange(hi as int, hi as int) =~= Seq::<char>::empty());
    Ok(acc as u8)
}

/// Appends the decimal text of `n` to `s`.
pub fn push_u8(s: &mut String, n: u8)
    ensures
        final(s)@ == old(s)@ + u8_text(n),
{
    if n < 10 {
        s.push((n + 48) as char);
    } else if n < 100 {
        s.push((n / 10 + 48) as char);
        s.push((n % 10 + 48) as char);
    } else {
        s.push((n / 100 + 48) as char);
        s.push(((n / 10) % 10 + 48) as char);
        s.push((n % 10 + 48) as char);
    }
    assert(s@ =~= old(s)@ + u8_text(n));
}

} // verus!
