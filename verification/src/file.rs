//! The framing of a `.ms.md` file: the front-matter between `---` markers, and
//! the body split on `---gate---` into the skill part and the part after it.
//!
//! Turning the front-matter text into a `MiniskillMeta` is YAML deserialisation,
//! which the caller does between `extract_frontmatter` and
//! `assemble_miniskill_file`.

use vstd::prelude::*;

use crate::text::{
    chars_of, find_exec, find_from, has_at, has_at_exec, lemma_find_from, trim, trim_bounds,
    trim_end, trim_end_bound, trim_start_newlines, trim_start_newlines_bound,
};
use crate::types::{MiniskillFile, MiniskillMeta};

verus! {

#[verifier::external_type_specification]
#[verifier::external_body]
pub struct ExYamlError(serde_yaml::Error);

/// Why a miniskill file was refused.
#[derive(Debug)]
pub enum ParseError {
    /// The front-matter markers are not where they must be; the text is nom's report.
    Nom(String),
    /// The front-matter is not the YAML of a `MiniskillMeta`.
    Yaml(serde_yaml::Error),
    /// The body holds no `---gate---`.
    MissingGateDelimiter,
}

/// The nom error kinds that the front-matter grammar can report.
#[derive(Clone, Copy, PartialEq, Eq, Structural)]
pub enum NomErrorKind {
    Tag,
    Char,
    TakeUntil,
}

/// The text that nom's `Display` writes for `Err::Error(Error { input, code: kind })`.
pub uninterp spec fn nom_error_text(input: Seq<char>, kind: NomErrorKind) -> Seq<char>;

/// Calls nom's `Display` for `nom::Err::Error(nom::error::Error::new(input, kind))`.
/// Its contract names the text (`nom_error_text`), a function of `input` and
/// `kind` alone; what the text holds is not stated.
#[verifier::external_body]
fn nom_error_message(input: &str, kind: NomErrorKind) -> (r: String)
    ensures
        r@ == nom_error_text(input@, kind),
{
    let code = match kind {
        NomErrorKind::Tag => nom::error::ErrorKind::Tag,
        NomErrorKind::Char => nom::error::ErrorKind::Char,
        NomErrorKind::TakeUntil => nom::error::ErrorKind::TakeUntil,
    };
    format!("{}", nom::Err::Error(nom::error::Error::new(input, code)))
}

/// The text that `serde_yaml::Error`'s `Display` writes for the error `e`.
pub uninterp spec fn yaml_error_text(e: serde_yaml::Error) -> Seq<char>;

/// Calls `serde_yaml::Error`'s `Display`. Its contract names the text
/// (`yaml_error_text`), a function of the error alone; what the text holds is
/// not stated.
#[verifier::external_body]
fn yaml_error_message(e: &serde_yaml::Error) -> (r: String)
    ensures
        r@ == yaml_error_text(*e),
{
    format!("{}", e)
}

impl ParseError {
    /// The message of the error, as its `Display` writes it.
    pub fn to_string(&self) -> (r: String)
        ensures
            match self {
                ParseError::Nom(s) => r@ == "parse error: "@ + s@,
                ParseError::Yaml(e) => r@ == "front-matter YAML error: "@ + yaml_error_text(*e),
                ParseError::MissingGateDelimiter => r@ == "missing `---gate---` delimiter"@,
            },
    {
        match self {
            ParseError::Nom(s) => {
                let mut r = String::from_str("parse error: ");
                r.append(s.as_str());
                r
            },
            ParseError::Yaml(e) => {
                let mut r = String::from_str("front-matter YAML error: ");
                let m = yaml_error_message(e);
                r.append(m.as_str());
                r
            },
            ParseError::MissingGateDelimiter => String::from_str("missing `---gate---` delimiter"),
        }
    }
}

/// Where the front-matter of `s` lies: `Ok((yaml_start, yaml_end, rest_start))`,
/// or the nom error kind and the position at which the grammar failed.
pub open spec fn frontmatter_bounds(s: Seq<char>) -> Result<(int, int, int), (NomErrorKind, int)> {
    let m = "---"@;
    if !has_at(s, 0, m) {
        Err((NomErrorKind::Tag, 0))
    } else if !(m.len() < s.len() && s[m.len() as int] == '\n') {
        Err((NomErrorKind::Char, m.len() as int))
    } else {
        match find_from(s, m.len() + 1int, m) {
            None => Err((NomErrorKind::TakeUntil, m.len() + 1int)),
            Some(k) => Ok((m.len() + 1int, k, k + m.len())),
        }
    }
}

/// The front-matter of `s`: the rest of `s` after the closing `---`, and the YAML
/// text between the markers with trailing whitespace removed; or nom's report.
pub open spec fn frontmatter(s: Seq<char>) -> Result<(Seq<char>, Seq<char>), Seq<char>> {
    match frontmatter_bounds(s) {
        Ok((a, b, c)) => Ok((s.skip(c), trim_end(s.subrange(a, b)))),
        Err((kind, pos)) => Err(nom_error_text(s.skip(pos), kind)),
    }
}

/// Extract the YAML string from `---\n<yaml>\n---` and return the remainder
/// after the closing marker with it.
pub fn extract_frontmatter(input: &str) -> (r: Result<(&str, &str), ParseError>)
    ensures
        match r {
            Ok((rest, yaml)) => frontmatter(input@) == Ok::<(Seq<char>, Seq<char>), Seq<char>>(
                (rest@, yaml@),
            ),
            Err(ParseError::Nom(m)) => frontmatter(input@) == Err::<
                (Seq<char>, Seq<char>),
                Seq<char>,
            >(m@),
            Err(_) => false,
        },
{
    let s = chars_of(input);
    let m = chars_of("---");
    if !has_at_exec(&s, 0, &m) {
        let at = input.substring_char(0, s.len());
        assert(input@.skip(0) =~= input@);
        return Err(ParseError::Nom(nom_error_message(at, NomErrorKind::Tag)));
    }
    let p = m.len();
    if !(p < s.len() && s[p] == '\n') {
        let at = input.substring_char(p, s.len());
        return Err(ParseError::Nom(nom_error_message(at, NomErrorKind::Char)));
    }
    match find_exec(&s, p + 1, &m) {
        None => {
            let at = input.substring_char(p + 1, s.len());
            Err(ParseError::Nom(nom_error_message(at, NomErrorKind::TakeUntil)))
        },
        Some(k) => {
            proof {
                lemma_find_from(s@, p + 1, m@);
            }
            let b = trim_end_bound(&s, p + 1, k);
            let rest = input.substring_char(k + p, s.len());
            let yaml = input.substring_char(p + 1, b);
            Ok((rest, yaml))
        },
    }
}

/// How `---gate---` splits a body: the part before it with trailing whitespace
/// removed, and the part after it with leading newlines removed.
pub open spec fn gate_split(body: Seq<char>) -> Option<(Seq<char>, Seq<char>)> {
    let d = "---gate---"@;
    match find_from(body, 0, d) {
        Some(p) => Some((trim_end(body.take(p)), trim_start_newlines(body.skip(p + d.len())))),
        None => None,
    }
}

/// Split the body at the first `---gate---`.
pub fn split_on_gate_delimiter(body: &str) -> (r: Result<(&str, &str), ParseError>)
    ensures
        match r {
            Ok((skill, gate)) => gate_split(body@) == Some((skill@, gate@)),
            Err(e) => e is MissingGateDelimiter && gate_split(body@) is None,
        },
{
    let s = chars_of(body);
    let d = chars_of("---gate---");
    match find_exec(&s, 0, &d) {
        None => Err(ParseError::MissingGateDelimiter),
        Some(pos) => {
            proof {
                lemma_find_from(s@, 0, d@);
            }
            let b = trim_end_bound(&s, 0, pos);
            let a = trim_start_newlines_bound(&s, pos + d.len(), s.len());
            assert(s@.take(pos as int) =~= s@.subrange(0, pos as int));
            assert(s@.skip(pos + d@.len()) =~= s@.subrange(pos + d@.len(), s@.len() as int));
            let skill = body.substring_char(0, b);
            let gate = body.substring_char(a, s.len());
            Ok((skill, gate))
        },
    }
}

/// The skill and gate sections of the text after the front-matter: leading
/// newlines dropped, split on `---gate---`, each section trimmed.
pub open spec fn sections(rest: Seq<char>) -> Option<(Seq<char>, Seq<char>)> {
    match gate_split(trim_start_newlines(rest)) {
        Some((skill, gate)) => Some((trim(skill), trim(gate))),
        None => None,
    }
}

/// The miniskill file made of its front-matter `meta` and of `rest`, the text
/// that follows the front-matter.
pub fn assemble_miniskill_file(meta: MiniskillMeta, rest: &str) -> (r: Result<
    MiniskillFile,
    ParseError,
>)
    ensures
        match r {
            Ok(f) => f.meta == meta && sections(rest@) == Some((f.skill@, f.gate@)),
            Err(e) => e is MissingGateDelimiter && sections(rest@) is None,
        },
{
    let s = chars_of(rest);
    let a = trim_start_newlines_bound(&s, 0, s.len());
    assert(s@.subrange(0, s@.len() as int) =~= rest@);
    let body = rest.substring_char(a, s.len());
    let (skill, gate) = split_on_gate_delimiter(body)?;
    let sk = chars_of(skill);
    let (s0, s1) = trim_bounds(&sk, 0, sk.len());
    assert(sk@.subrange(0, sk@.len() as int) =~= skill@);
    let gt = chars_of(gate);
    let (g0, g1) = trim_bounds(&gt, 0, gt.len());
    assert(gt@.subrange(0, gt@.len() as int) =~= gate@);
    Ok(
        MiniskillFile {
            meta,
            skill: skill.substring_char(s0, s1).to_owned(),
            gate: gate.substring_char(g0, g1).to_owned(),
        },
    )
}

} // verus!
