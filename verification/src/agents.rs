//! Reading miniskill link lines of AGENTS.md:
//! `[miniskill: slug](path) <!-- scope=glob,glob -->`, the comment optional.

use vstd::prelude::*;

use crate::text::{
    chars_between, chars_of, find_exec, find_from, has_at, has_at_exec, lemma_find_from,
    span, span_end, trim, trim_bounds, trimmed_string_of, CharClass,
};
use crate::types::{AgentLink, AgentLinkModel};

verus! {

/// The end of the glob that starts at `i`: a glob runs up to a `,`, a space, a
/// `>`, or the closing `-->`.
pub open spec fn glob_end(s: Seq<char>, i: int) -> int
    decreases s.len() - i,
{
    if 0 <= i < s.len() && s[i] != ',' && s[i] != ' ' && s[i] != '>' && !has_at(
        s,
        i,
        "-->"@,
    ) {
        glob_end(s, i + 1)
    } else {
        i
    }
}

pub proof fn lemma_glob_end(s: Seq<char>, i: int)
    requires
        0 <= i <= s.len(),
    ensures
        i <= glob_end(s, i) <= s.len(),
    decreases s.len() - i,
{
    if i < s.len() && s[i] != ',' && s[i] != ' ' && s[i] != '>' && !has_at(s, i, "-->"@) {
        lemma_glob_end(s, i + 1);
    }
}

fn glob_end_exec(s: &Vec<char>, i: usize, close: &Vec<char>) -> (e: usize)
    requires
        i <= s.len(),
        close@ == "-->"@,
    ensures
        e == glob_end(s@, i as int),
        i <= e <= s.len(),
{
    let mut k = i;
    while k < s.len() && s[k] != ',' && s[k] != ' ' && s[k] != '>' && !has_at_exec(
        s,
        k,
        close,
    )
        invariant
            i <= k <= s.len(),
            close@ == "-->"@,
            glob_end(s@, k as int) == glob_end(s@, i as int),
        decreases s.len() - k,
    {
        k = k + 1;
    }
    k
}

/// Further `,glob` items after position `i`, each trimmed; and where the list
/// ends.
pub open spec fn more_globs(s: Seq<char>, i: int) -> (Seq<Seq<char>>, int)
    decreases s.len() - i,
{
    if 0 <= i < s.len() && s[i] == ',' {
        let e = glob_end(s, i + 1);
        if e == i + 1 {
            (seq![], i)
        } else {
            proof {
                lemma_glob_end(s, i + 1);
            }
            let (rest, end) = more_globs(s, e);
            (seq![trim(s.subrange(i + 1, e))] + rest, end)
        }
    } else {
        (seq![], i)
    }
}

/// `<!-- scope=glob,glob ... -->` starting at `f`: the trimmed globs. Anything may
/// stand between the last glob and the closing `-->`.
pub open spec fn scope_comment_at(s: Seq<char>, f: int) -> Option<Seq<Seq<char>>> {
    if has_at(s, f, "<!--"@) {
        let g = span(s, f + ("<!--"@).len(), CharClass::Blank);
        if has_at(s, g, "scope="@) {
            let h = g + ("scope="@).len();
            let e = glob_end(s, h);
            if e == h {
                None
            } else {
                let (more, end) = more_globs(s, e);
                if find_from(s, end, "-->"@) is Some {
                    Some(seq![trim(s.subrange(h, e))] + more)
                } else {
                    None
                }
            }
        } else {
            None
        }
    } else {
        None
    }
}

/// `[miniskill: slug](path)` at the start of `s`, then blanks and an optional
/// scope comment. Whatever follows is ignored.
pub open spec fn agent_link_at(s: Seq<char>) -> Option<AgentLinkModel> {
    if has_at(s, 0, "[miniskill:"@) {
        let a = span(s, ("[miniskill:"@).len() as int, CharClass::Blank);
        match find_from(s, a, "]"@) {
            None => None,
            Some(b) => {
                let c = b + ("]"@).len();
                if c < s.len() && s[c] == '(' {
                    match find_from(s, c + 1, ")"@) {
                        None => None,
                        Some(d) => {
                            let f = span(s, d + (")"@).len(), CharClass::Blank);
                            Some(
                                AgentLinkModel {
                                    slug: trim(s.subrange(a, b)),
                                    path: trim(s.subrange(c + 1, d)),
                                    scope: match scope_comment_at(s, f) {
                                        Some(g) => g,
                                        None => seq![],
                                    },
                                },
                            )
                        },
                    }
                } else {
                    None
                }
            },
        }
    } else {
        None
    }
}

/// A line of AGENTS.md, trimmed, read as a miniskill link.
pub open spec fn agent_link_line(line: Seq<char>) -> Option<AgentLinkModel> {
    agent_link_at(trim(line))
}

/// Parses `<!-- scope=glob,glob -->` at `f` into a list of glob strings.
fn parse_scope_comment(s: &Vec<char>, f: usize) -> (r: Option<Vec<String>>)
    requires
        f <= s.len(),
    ensures
        r matches Some(g) ==> scope_comment_at(s@, f as int) == Some(
            g@.map_values(|x: String| x@),
        ),
        r is None ==> scope_comment_at(s@, f as int) is None,
{
    let open = chars_of("<!--");
    if !has_at_exec(s, f, &open) {
        return None;
    }
    let g = span_end(s, f + open.len(), CharClass::Blank);
    let scope = chars_of("scope=");
    if !has_at_exec(s, g, &scope) {
        return None;
    }
    let h = g + scope.len();
    let close = chars_of("-->");
    let e = glob_end_exec(s, h, &close);
    if e == h {
        return None;
    }
    let mut globs: Vec<String> = Vec::new();
    globs.push(trimmed_string_of(s, h, e));
    let ghost first = seq![trim(s@.subrange(h as int, e as int))];
    assert(globs@.map_values(|x: String| x@) =~= first);
    let mut pos = e;
    loop
        invariant
            h < pos <= s.len(),
            close@ == "-->"@,
            more_globs(s@, e as int) == {
                let (rest, end) = more_globs(s@, pos as int);
                (globs@.map_values(|x: String| x@).skip(1) + rest, end)
            },
            globs@.len() >= 1,
            globs@.map_values(|x: String| x@)[0] == first[0],
        ensures
            more_globs(s@, e as int) == (globs@.map_values(|x: String| x@).skip(1), pos as int),
            globs@.len() >= 1,
            globs@.map_values(|x: String| x@)[0] == first[0],
        decreases s.len() - pos,
    {
        if pos < s.len() && s[pos] == ',' {
            let e2 = glob_end_exec(s, pos + 1, &close);
            if e2 == pos + 1 {
                assert(globs@.map_values(|x: String| x@).skip(1) + more_globs(s@, pos as int).0
                    =~= globs@.map_values(|x: String| x@).skip(1));
                break ;
            }
            let ghost before = globs@.map_values(|x: String| x@);
            let item = trimmed_string_of(s, pos + 1, e2);
            globs.push(item);
            proof {
                let after = globs@.map_values(|x: String| x@);
                assert(after =~= before.push(item@));
                assert(before.skip(1) + more_globs(s@, pos as int).0 =~= after.skip(1)
                    + more_globs(s@, e2 as int).0);
            }
            pos = e2;
        } else {
            assert(globs@.map_values(|x: String| x@).skip(1) + more_globs(s@, pos as int).0
                =~= globs@.map_values(|x: String| x@).skip(1));
            break ;
        }
    }
    match find_exec(s, pos, &close) {
        Some(_) => {
            assert(first + globs@.map_values(|x: String| x@).skip(1) =~= globs@.map_values(
                |x: String| x@,
            ));
            Some(globs)
        },
        None => None,
    }
}

fn parse_agent_link(s: &Vec<char>) -> (r: Option<AgentLink>)
    ensures
        r matches Some(l) ==> agent_link_at(s@) == Some(l@),
        r is None ==> agent_link_at(s@) is None,
{
    let open = chars_of("[miniskill:");
    if !has_at_exec(s, 0, &open) {
        return None;
    }
    let a = span_end(s, open.len(), CharClass::Blank);
    let close = chars_of("]");
    let b = match find_exec(s, a, &close) {
        Some(b) => b,
        None => return None,
    };
    proof {
        lemma_find_from(s@, a as int, close@);
    }
    let c = b + close.len();
    if !(c < s.len() && s[c] == '(') {
        return None;
    }
    let paren = chars_of(")");
    let d = match find_exec(s, c + 1, &paren) {
        Some(d) => d,
        None => return None,
    };
    proof {
        lemma_find_from(s@, c + 1, paren@);
    }
    let f = span_end(s, d + paren.len(), CharClass::Blank);
    let scope = match parse_scope_comment(s, f) {
        Some(g) => g,
        None => {
            let empty: Vec<String> = Vec::new();
            assert(empty@.map_values(|x: String| x@) =~= Seq::<Seq<char>>::empty());
            empty
        },
    };
    let slug = trimmed_string_of(s, a, b);
    let path = trimmed_string_of(s, c + 1, d);
    Some(AgentLink { slug, path, scope })
}

/// Parse one line from AGENTS.md. Returns `Some(AgentLink)` if the line is a
/// miniskill link, `None` if it is any other kind of line.
///
/// Expected format:
/// `[miniskill: slug](path) <!-- scope=glob,glob -->`
pub fn parse_agent_link_line(input: &str) -> (r: Option<AgentLink>)
    ensures
        r matches Some(l) ==> agent_link_line(input@) == Some(l@),
        r is None ==> agent_link_line(input@) is None,
{
    let s = chars_of(input);
    let (lo, hi) = trim_bounds(&s, 0, s.len());
    assert(s@.subrange(0, s@.len() as int) =~= input@);
    let t = chars_between(&s, lo, hi);
    parse_agent_link(&t)
}

} // verus!
