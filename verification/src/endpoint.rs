//! The endpoint declaration grammar.
//!
//! An endpoint is declared as a `"METHOD /path"` string: a non-empty run of
//! uppercase ASCII letters, at least one whitespace character, then a valid
//! URI path template. Parsing is strict; anything else is rejected.

use vstd::prelude::*;
use crate::model::compiled::{
    is_path_char, is_space_char, is_upper_char, valid_method, valid_path, char_is_path,
    char_is_space, char_is_upper, EndpointCore, EndpointModel,
};

verus! {

// ---------------------------------------------------------------------------
// The grammar, as a spec function
// ---------------------------------------------------------------------------

/// The end of the run of uppercase letters starting at `i`.
pub open spec fn upper_end(s: Seq<char>, i: int) -> int
    decreases s.len() - i,
{
    if 0 <= i < s.len() && is_upper_char(s[i]) {
        upper_end(s, i + 1)
    } else {
        i
    }
}

/// The end of the run of whitespace starting at `i`.
pub open spec fn space_end(s: Seq<char>, i: int) -> int
    decreases s.len() - i,
{
    if 0 <= i < s.len() && is_space_char(s[i]) {
        space_end(s, i + 1)
    } else {
        i
    }
}

/// What a declaration string denotes: `Some` endpoint exactly when the
/// string is a non-empty uppercase method token, then at least one
/// whitespace character, then a valid path template reaching the end of the
/// string.
pub open spec fn parse_endpoint_spec(s: Seq<char>) -> Option<EndpointModel> {
    let m_end = upper_end(s, 0);
    let p_start = space_end(s, m_end);
    if 1 <= m_end && m_end < p_start && p_start < s.len() && valid_path(
        s.subrange(p_start, s.len() as int),
    ) {
        Some(
            EndpointModel {
                method: s.subrange(0, m_end),
                route: s.subrange(p_start, s.len() as int),
            },
        )
    } else {
        None
    }
}

// ---------------------------------------------------------------------------
// Run characterizations
// ---------------------------------------------------------------------------

/// `upper_end(s, a)` is the first position at or after `a` whose character
/// is not an uppercase letter.
pub proof fn lemma_upper_end_is(s: Seq<char>, a: int, e: int)
    requires
        0 <= a <= e <= s.len(),
        forall|k: int| a <= k < e ==> is_upper_char(#[trigger] s[k]),
        e == s.len() || !is_upper_char(s[e]),
    ensures
        upper_end(s, a) == e,
    decreases e - a,
{
    if a < e {
        lemma_upper_end_is(s, a + 1, e);
    }
}

/// `space_end(s, a)` is the first position at or after `a` whose character
/// is not whitespace.
pub proof fn lemma_space_end_is(s: Seq<char>, a: int, e: int)
    requires
        0 <= a <= e <= s.len(),
        forall|k: int| a <= k < e ==> is_space_char(#[trigger] s[k]),
        e == s.len() || !is_space_char(s[e]),
    ensures
        space_end(s, a) == e,
    decreases e - a,
{
    if a < e {
        lemma_space_end_is(s, a + 1, e);
    }
}

// ---------------------------------------------------------------------------
// The parser
// ---------------------------------------------------------------------------

/// Parses a `"METHOD /path"` declaration string into an endpoint; rejects
/// exactly the strings the grammar rejects.
pub fn parse_endpoint(s: &str) -> (r: Option<EndpointCore>)
    ensures
        match r {
            Some(e) => parse_endpoint_spec(s@) == Some(e@) && e@.wf(),
            None => parse_endpoint_spec(s@) is None,
        },
{
    let len = s.unicode_len();
    let mut m_end: usize = 0;
    while m_end < len && char_is_upper(s.get_char(m_end))
        invariant
            m_end <= len,
            len == s@.len(),
            forall|k: int| 0 <= k < m_end ==> is_upper_char(#[trigger] s@[k]),
        decreases len - m_end,
    {
        m_end = m_end + 1;
    }
    proof {
        lemma_upper_end_is(s@, 0, m_end as int);
    }
    let mut p_start: usize = m_end;
    while p_start < len && char_is_space(s.get_char(p_start))
        invariant
            m_end <= p_start <= len,
            len == s@.len(),
            forall|k: int| m_end <= k < p_start ==> is_space_char(#[trigger] s@[k]),
        decreases len - p_start,
    {
        p_start = p_start + 1;
    }
    proof {
        lemma_space_end_is(s@, m_end as int, p_start as int);
    }
    if m_end == 0 || p_start == m_end || p_start >= len {
        return None;
    }
    if s.get_char(p_start) != '/' {
        return None;
    }
    let mut k: usize = p_start;
    while k < len && char_is_path(s.get_char(k))
        invariant
            p_start <= k <= len,
            len == s@.len(),
            forall|j: int| p_start <= j < k ==> is_path_char(#[trigger] s@[j]),
        decreases len - k,
    {
        k = k + 1;
    }
    if k < len {
        proof {
            let p = s@.subrange(p_start as int, len as int);
            assert(p[k - p_start] == s@[k as int]);
            assert(!valid_path(p));
        }
        return None;
    }
    let method = s.substring_char(0, m_end).to_owned();
    let route = s.substring_char(p_start, len).to_owned();
    let e = EndpointCore { method, route };
    proof {
        let p = s@.subrange(p_start as int, len as int);
        assert(forall|j: int| 0 <= j < p.len() ==> is_path_char(#[trigger] p[j]));
        assert(valid_path(p));
        assert(forall|k: int| 0 <= k < m_end ==> is_upper_char(#[trigger] s@.subrange(0, m_end as int)[k]));
    }
    Some(e)
}

// ---------------------------------------------------------------------------
// The round-trip law
// ---------------------------------------------------------------------------

/// Parsing round-trips with re-serialization: for every valid method token
/// and valid path template, the declaration string built as
/// `method + " " + path` parses back to exactly that pair. Together with
/// `EndpointCore::matches_string`, which produces that very string, parsing
/// and re-serializing an endpoint preserves the (method, path) pair.
/// Malformed declarations are rejected: a string with a missing or
/// lowercase method (its first character is not an uppercase letter), or
/// with no path after the method token and the whitespace, parses to
/// nothing — and compilation of a rule carrying it then fails with an
/// error naming that string (see `crate::compile::extract_rule_spec`).
pub proof fn lemma_malformed_rejected(s: Seq<char>)
    requires
        s.len() == 0 || !is_upper_char(s[0]) || space_end(s, upper_end(s, 0)) >= s.len(),
    ensures
        parse_endpoint_spec(s) is None,
{
    if s.len() == 0 || !is_upper_char(s[0]) {
        assert(upper_end(s, 0) == 0);
    }
}

pub proof fn lemma_parse_round_trip(m: Seq<char>, p: Seq<char>)
    requires
        valid_method(m),
        valid_path(p),
    ensures
        parse_endpoint_spec(m + seq![' '] + p) == Some(EndpointModel { method: m, route: p }),
{
    let s = m + seq![' '] + p;
    assert(s.len() == m.len() + 1 + p.len());
    assert(forall|k: int| 0 <= k < m.len() ==> s[k] == m[k]);
    assert(s[m.len() as int] == ' ');
    assert(forall|k: int| m.len() + 1 <= k < s.len() ==> s[k] == p[k - m.len() - 1]);
    assert(!is_upper_char(' '));
    lemma_upper_end_is(s, 0, m.len() as int);
    assert(s[m.len() as int + 1] == p[0]);
    assert(p[0] == '/');
    assert(!is_space_char('/'));
    lemma_space_end_is(s, m.len() as int, m.len() as int + 1);
    let route = s.subrange(m.len() as int + 1, s.len() as int);
    assert(route =~= p);
    let method = s.subrange(0, m.len() as int);
    assert(method =~= m);
    assert(parse_endpoint_spec(s) == Some(EndpointModel { method: m, route: p }));
}

} // verus!
