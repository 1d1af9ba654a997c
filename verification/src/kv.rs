//! The `key=value | key=value | ...` body shared by the ATTEST, VOUCH, REPLAY,
//! CHALLENGE and RESPONSE token lines, and the field lookups on it.
//!
//! A value is either quoted (`"..."`, taken verbatim up to the next `"`) or
//! bare (everything up to the next `|` or newline, trimmed). The key is any
//! nonempty run up to the `=`, trimmed. When a key occurs more than once, the
//! last occurrence is the one that counts. An item that is not `key=value`
//! ends the list before its separator.

use vstd::prelude::*;

use crate::text::{
    chars_of, find_exec, lemma_find_from, parse_u8_exec, span, span_end, string_of,
    trimmed_string_of, find_from, trim, parse_u8_text, lemma_span, CharClass, IntErrorKind,
};
use crate::types::AttestResult;

verus! {

/// A key and its value, as they stand in a token line.
pub type Pair = (Seq<char>, Seq<char>);

/// The model of a list of parsed pairs.
pub open spec fn pairs_model(kv: Seq<(String, String)>) -> Seq<Pair> {
    kv.map_values(|p: (String, String)| (p.0@, p.1@))
}

// ── Grammar ──────────────────────────────────────────────────────────────────

/// `"inner"` starting at `i`: the position after the closing quote, and `inner`.
pub open spec fn quoted_at(s: Seq<char>, i: int) -> Option<(int, Seq<char>)> {
    if 0 <= i < s.len() && s[i] == '"' {
        match find_from(s, i + 1, seq!['"']) {
            Some(q) => Some((q + 1, s.subrange(i + 1, q))),
            None => None,
        }
    } else {
        None
    }
}

/// A value starting at `i`: quoted if it can be, else a nonempty bare run, trimmed.
pub open spec fn value_at(s: Seq<char>, i: int) -> Option<(int, Seq<char>)> {
    match quoted_at(s, i) {
        Some(r) => Some(r),
        None => {
            let e = span(s, i, CharClass::Segment);
            if e == i {
                None
            } else {
                Some((e, trim(s.subrange(i, e))))
            }
        },
    }
}

/// `key=value` starting at `i`: the end of the value, and the trimmed key with its value.
pub open spec fn pair_at(s: Seq<char>, i: int) -> Option<(int, Pair)> {
    let k = span(s, i, CharClass::Key);
    if k == i || k >= s.len() || s[k] != '=' {
        None
    } else {
        match value_at(s, k + 1) {
            Some((e, v)) => Some((e, (trim(s.subrange(i, k)), v))),
            None => None,
        }
    }
}

/// The separator ` | ` (blanks, a pipe, blanks) starting at `i`: the position after it.
pub open spec fn pipe_at(s: Seq<char>, i: int) -> Option<int> {
    let a = span(s, i, CharClass::Blank);
    if a < s.len() && s[a] == '|' {
        Some(span(s, a + 1, CharClass::Blank))
    } else {
        None
    }
}

pub proof fn lemma_pipe_at(s: Seq<char>, i: int)
    requires
        0 <= i <= s.len(),
    ensures
        pipe_at(s, i) matches Some(j) ==> i < j <= s.len(),
{
    lemma_span(s, i, CharClass::Blank);
    let a = span(s, i, CharClass::Blank);
    if a < s.len() && s[a] == '|' {
        lemma_span(s, a + 1, CharClass::Blank);
    }
}

pub proof fn lemma_quoted_at(s: Seq<char>, i: int)
    requires
        0 <= i <= s.len(),
    ensures
        quoted_at(s, i) matches Some((e, v)) ==> i < e <= s.len() && v == s.subrange(i + 1, e
            - 1) && s[e - 1] == '"',
{
    if 0 <= i < s.len() && s[i] == '"' {
        lemma_find_from(s, i + 1, seq!['"']);
        if let Some(q) = find_from(s, i + 1, seq!['"']) {
            assert(s.subrange(q, q + 1)[0] == s[q]);
        }
    }
}

pub proof fn lemma_value_at(s: Seq<char>, i: int)
    requires
        0 <= i <= s.len(),
    ensures
        value_at(s, i) matches Some((e, v)) ==> i < e <= s.len(),
{
    lemma_quoted_at(s, i);
    lemma_span(s, i, CharClass::Segment);
}

pub proof fn lemma_pair_at(s: Seq<char>, i: int)
    requires
        0 <= i <= s.len(),
    ensures
        pair_at(s, i) matches Some((e, p)) ==> i < e <= s.len(),
{
    lemma_span(s, i, CharClass::Key);
    let k = span(s, i, CharClass::Key);
    if k < s.len() {
        lemma_value_at(s, k + 1);
    }
}

/// Further `| key=value` items after position `i`, up to the first separator or
/// item that does not parse; and the position where the list ends.
pub open spec fn more_pairs(s: Seq<char>, i: int) -> (Seq<Pair>, int)
    decreases s.len() - i,
{
    if 0 <= i <= s.len() {
        match pipe_at(s, i) {
            None => (seq![], i),
            Some(j) => match pair_at(s, j) {
                None => (seq![], i),
                Some((e, p)) => {
                    proof {
                        lemma_pipe_at(s, i);
                        lemma_pair_at(s, j);
                    }
                    let (rest, end) = more_pairs(s, e);
                    (seq![p] + rest, end)
                },
            },
        }
    } else {
        (seq![], i)
    }
}

/// One or more `key=value` items separated by ` | `, starting at `i`.
pub open spec fn kv_pairs_at(s: Seq<char>, i: int) -> Option<(Seq<Pair>, int)> {
    match pair_at(s, i) {
        None => None,
        Some((e, p)) => {
            let (rest, end) = more_pairs(s, e);
            Some((seq![p] + rest, end))
        },
    }
}

/// A quoted value standing alone, with no key, after the separator at `i`: the
/// end of the value, and the value. CHALLENGE and RESPONSE lines may carry their
/// prompt or body this way, after their `key=value` items.
pub open spec fn keyless_at(s: Seq<char>, i: int) -> Option<(int, Seq<char>)> {
    match pipe_at(s, i) {
        Some(j) => quoted_at(s, j),
        None => None,
    }
}

pub proof fn lemma_more_pairs(s: Seq<char>, i: int)
    requires
        0 <= i <= s.len(),
    ensures
        i <= more_pairs(s, i).1 <= s.len(),
    decreases s.len() - i,
{
    lemma_pipe_at(s, i);
    if let Some(j) = pipe_at(s, i) {
        lemma_pair_at(s, j);
        if let Some((e, p)) = pair_at(s, j) {
            lemma_more_pairs(s, e);
        }
    }
}

// ── Lookups ──────────────────────────────────────────────────────────────────

/// The value of the last pair whose key is `key`.
pub open spec fn kv_lookup(kv: Seq<Pair>, key: Seq<char>) -> Option<Seq<char>>
    decreases kv.len(),
{
    if kv.len() == 0 {
        None
    } else if kv.last().0 == key {
        Some(kv.last().1)
    } else {
        kv_lookup(kv.drop_last(), key)
    }
}

pub open spec fn missing_field_message(key: Seq<char>) -> Seq<char> {
    "missing required field: "@ + key
}

/// `kv_require`: the value, or the message naming the missing key.
pub open spec fn required_field(kv: Seq<Pair>, key: Seq<char>) -> Result<Seq<char>, Seq<char>> {
    match kv_lookup(kv, key) {
        Some(v) => Ok(v),
        None => Err(missing_field_message(key)),
    }
}

/// What `ParseIntError`'s `Display` writes for each kind.
pub open spec fn int_error_message(k: IntErrorKind) -> Seq<char> {
    match k {
        IntErrorKind::Empty => "cannot parse integer from empty string"@,
        IntErrorKind::InvalidDigit => "invalid digit found in string"@,
        IntErrorKind::PosOverflow => "number too large to fit in target type"@,
    }
}

/// `parse_u8_field`: the field, required and read as a `u8`.
pub open spec fn u8_field(kv: Seq<Pair>, key: Seq<char>) -> Result<u8, Seq<char>> {
    match required_field(kv, key) {
        Err(m) => Err(m),
        Ok(v) => match parse_u8_text(v) {
            Ok(n) => Ok(n),
            Err(k) => Err("field `"@ + key + "`: "@ + int_error_message(k)),
        },
    }
}

/// `parse_result_field`: the `result` field, `PASS` or `FAIL`.
pub open spec fn result_field(kv: Seq<Pair>) -> Result<AttestResult, Seq<char>> {
    match required_field(kv, "result"@) {
        Err(m) => Err(m),
        Ok(v) => if v == "PASS"@ {
            Ok(AttestResult::Pass)
        } else if v == "FAIL"@ {
            Ok(AttestResult::Fail)
        } else {
            Err("unknown result value: "@ + v)
        },
    }
}

// ── Executable parsers ───────────────────────────────────────────────────────

pub fn parse_quoted_value(s: &Vec<char>, i: usize) -> (r: Option<(usize, String)>)
    requires
        i <= s.len(),
    ensures
        r matches Some((e, v)) ==> quoted_at(s@, i as int) == Some((e as int, v@)),
        r is None ==> quoted_at(s@, i as int) is None,
{
    if i < s.len() && s[i] == '"' {
        let quote = vec!['"'];
        assert(quote@ =~= seq!['"']);
        match find_exec(s, i + 1, &quote) {
            Some(q) => {
                proof {
                    lemma_find_from(s@, i + 1, seq!['"']);
                }
                let v = string_of(s, i + 1, q);
                Some((q + 1, v))
            },
            None => None,
        }
    } else {
        None
    }
}

fn parse_bare_value(s: &Vec<char>, i: usize) -> (r: Option<(usize, String)>)
    requires
        i <= s.len(),
    ensures
        r matches Some((e, v)) ==> ({
            let e2 = span(s@, i as int, CharClass::Segment);
            e2 != i && e == e2 && v@ == trim(s@.subrange(i as int, e2))
        }),
        r is None ==> span(s@, i as int, CharClass::Segment) == i,
{
    let e = span_end(s, i, CharClass::Segment);
    if e == i {
        None
    } else {
        Some((e, trimmed_string_of(s, i, e)))
    }
}

fn parse_kv_pair(s: &Vec<char>, i: usize) -> (r: Option<(usize, (String, String))>)
    requires
        i <= s.len(),
    ensures
        r matches Some((e, p)) ==> pair_at(s@, i as int) == Some((e as int, (p.0@, p.1@))),
        r is None ==> pair_at(s@, i as int) is None,
{
    let k = span_end(s, i, CharClass::Key);
    if k == i || k >= s.len() || s[k] != '=' {
        return None;
    }
    let value = match parse_quoted_value(s, k + 1) {
        Some(q) => Some(q),
        None => parse_bare_value(s, k + 1),
    };
    match value {
        Some((e, v)) => {
            let key = trimmed_string_of(s, i, k);
            Some((e, (key, v)))
        },
        None => None,
    }
}

pub fn parse_pipe(s: &Vec<char>, i: usize) -> (r: Option<usize>)
    requires
        i <= s.len(),
    ensures
        r matches Some(j) ==> pipe_at(s@, i as int) == Some(j as int),
        r is None ==> pipe_at(s@, i as int) is None,
{
    let a = span_end(s, i, CharClass::Blank);
    if a < s.len() && s[a] == '|' {
        Some(span_end(s, a + 1, CharClass::Blank))
    } else {
        None
    }
}

/// `key=value` items separated by ` | ` starting at `i`: the pairs in order, and
/// where the list ends.
pub fn parse_kv_pairs(s: &Vec<char>, i: usize) -> (r: Option<(usize, Vec<(String, String)>)>)
    requires
        i <= s.len(),
    ensures
        r matches Some((end, _)) ==> end <= s.len(),
        r matches Some((end, kv)) ==> kv_pairs_at(s@, i as int) == Some(
            (pairs_model(kv@), end as int),
        ),
        r is None ==> kv_pairs_at(s@, i as int) is None,
{
    let (e0, p0) = match parse_kv_pair(s, i) {
        Some(x) => x,
        None => return None,
    };
    proof {
        lemma_pair_at(s@, i as int);
    }
    let mut out: Vec<(String, String)> = Vec::new();
    out.push(p0);
    assert(pairs_model(out@) =~= seq![(p0.0@, p0.1@)]);
    let pos = parse_more_pairs(s, e0, &mut out);
    Some((pos, out))
}

/// Further `| key=value` items from `i`, pushed onto `out`; returns where the
/// list ends.
pub fn parse_more_pairs(s: &Vec<char>, i: usize, out: &mut Vec<(String, String)>) -> (end: usize)
    requires
        i <= s.len(),
    ensures
        pairs_model(final(out)@) == pairs_model(old(out)@) + more_pairs(s@, i as int).0,
        end == more_pairs(s@, i as int).1,
        i <= end <= s.len(),
{
    let ghost start = pairs_model(out@);
    proof {
        lemma_more_pairs(s@, i as int);
    }
    let mut pos = i;
    loop
        invariant
            i <= pos <= s.len(),
            start + more_pairs(s@, i as int).0 == pairs_model(out@) + more_pairs(s@, pos as int).0,
            more_pairs(s@, i as int).1 == more_pairs(s@, pos as int).1,
        ensures
            start + more_pairs(s@, i as int).0 == pairs_model(out@),
            more_pairs(s@, i as int).1 == pos,
        decreases s.len() - pos,
    {
        proof {
            lemma_pipe_at(s@, pos as int);
        }
        let j = match parse_pipe(s, pos) {
            Some(j) => j,
            None => {
                assert(pairs_model(out@) + more_pairs(s@, pos as int).0 =~= pairs_model(out@));
                break ;
            },
        };
        let (e, p) = match parse_kv_pair(s, j) {
            Some(x) => x,
            None => {
                assert(pairs_model(out@) + more_pairs(s@, pos as int).0 =~= pairs_model(out@));
                break ;
            },
        };
        proof {
            lemma_pair_at(s@, j as int);
        }
        let ghost old_out = out@;
        out.push(p);
        proof {
            assert(pairs_model(out@) =~= pairs_model(old_out).push((p.0@, p.1@)));
            assert(pairs_model(old_out) + more_pairs(s@, pos as int).0 =~= pairs_model(out@)
                + more_pairs(s@, e as int).0);
        }
        pos = e;
    }
    pos
}

/// A quoted value standing alone after the separator at `i` (see `keyless_at`).
pub fn parse_keyless(s: &Vec<char>, i: usize) -> (r: Option<(usize, String)>)
    requires
        i <= s.len(),
    ensures
        r matches Some((e, v)) ==> keyless_at(s@, i as int) == Some((e as int, v@)) && e
            <= s.len(),
        r is None ==> keyless_at(s@, i as int) is None,
{
    proof {
        lemma_pipe_at(s@, i as int);
    }
    match parse_pipe(s, i) {
        Some(j) => {
            proof {
                lemma_quoted_at(s@, j as int);
            }
            parse_quoted_value(s, j)
        },
        None => None,
    }
}

// ── Executable lookups ───────────────────────────────────────────────────────

/// The value of the last pair whose key is `key`.
pub fn kv_get<'a>(kv: &'a Vec<(String, String)>, key: &str) -> (r: Option<&'a str>)
    ensures
        r matches Some(v) ==> kv_lookup(pairs_model(kv@), key@) == Some(v@),
        r is None ==> kv_lookup(pairs_model(kv@), key@) is None,
{
    let k_str = String::from_str(key);
    let ghost m = pairs_model(kv@);
    let mut k = kv.len();
    assert(m.take(k as int) =~= m);
    while k > 0
        invariant
            k <= kv.len(),
            m == pairs_model(kv@),
            k_str@ == key@,
            kv_lookup(m, key@) == kv_lookup(m.take(k as int), key@),
        decreases k,
    {
        let ghost t = m.take(k as int);
        assert(t.last() == (kv@[k - 1].0@, kv@[k - 1].1@));
        if kv[k - 1].0 == k_str {
            return Some(kv[k - 1].1.as_str());
        }
        assert(t.drop_last() =~= m.take(k - 1));
        k = k - 1;
    }
    None
}

/// The value of `key`, which must be present.
pub fn kv_require<'a>(kv: &'a Vec<(String, String)>, key: &str) -> (r: Result<&'a str, String>)
    ensures
        match r {
            Ok(v) => required_field(pairs_model(kv@), key@) == Ok::<Seq<char>, Seq<char>>(v@),
            Err(m) => required_field(pairs_model(kv@), key@) == Err::<Seq<char>, Seq<char>>(m@),
        },
{
    match kv_get(kv, key) {
        Some(v) => Ok(v),
        None => {
            let mut m = String::from_str("missing required field: ");
            m.append(key);
            Err(m)
        },
    }
}

fn int_error_string(k: IntErrorKind) -> (m: String)
    ensures
        m@ == int_error_message(k),
{
    match k {
        IntErrorKind::Empty => String::from_str("cannot parse integer from empty string"),
        IntErrorKind::InvalidDigit => String::from_str("invalid digit found in string"),
        IntErrorKind::PosOverflow => String::from_str("number too large to fit in target type"),
    }
}

/// The value of `key`, which must be present, read as a `u8`.
pub fn parse_u8_field(kv: &Vec<(String, String)>, key: &str) -> (r: Result<u8, String>)
    ensures
        match r {
            Ok(n) => u8_field(pairs_model(kv@), key@) == Ok::<u8, Seq<char>>(n),
            Err(m) => u8_field(pairs_model(kv@), key@) == Err::<u8, Seq<char>>(m@),
        },
{
    let v = match kv_require(kv, key) {
        Ok(v) => v,
        Err(m) => return Err(m),
    };
    let chars = chars_of(v);
    match parse_u8_exec(&chars, 0, chars.len()) {
        Ok(n) => {
            assert(chars@.subrange(0, chars@.len() as int) =~= v@);
            Ok(n)
        },
        Err(k) => {
            assert(chars@.subrange(0, chars@.len() as int) =~= v@);
            let mut m = String::from_str("field `");
            m.append(key);
            m.append("`: ");
            let t = int_error_string(k);
            m.append(t.as_str());
            Err(m)
        },
    }
}

/// The `result` field, which must be `PASS` or `FAIL`.
pub fn parse_result_field(kv: &Vec<(String, String)>) -> (r: Result<AttestResult, String>)
    ensures
        match r {
            Ok(a) => result_field(pairs_model(kv@)) == Ok::<AttestResult, Seq<char>>(a),
            Err(m) => result_field(pairs_model(kv@)) == Err::<AttestResult, Seq<char>>(m@),
        },
{
    let v = match kv_require(kv, "result") {
        Ok(v) => v,
        Err(m) => return Err(m),
    };
    let owned = String::from_str(v);
    if owned == String::from_str("PASS") {
        Ok(AttestResult::Pass)
    } else if owned == String::from_str("FAIL") {
        Ok(AttestResult::Fail)
    } else {
        let mut m = String::from_str("unknown result value: ");
        m.append(v);
        Err(m)
    }
}

} // verus!
