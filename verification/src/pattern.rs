//! Calls into the `regex` crate. What a regular expression matches is named,
//! not restated: each call's result is tied to its pattern and input.

use vstd::prelude::*;
use regex::Regex;

verus! {

/// What `Regex::new(pattern)` followed by `is_match(text)` gives: `None`
/// when the pattern does not compile.
pub uninterp spec fn regex_match_result(pattern: Seq<char>, text: Seq<char>) -> Option<bool>;

/// What `Regex::new(pattern)` followed by `replace_all(text, rep)` gives:
/// `None` when the pattern does not compile.
pub uninterp spec fn regex_replace_result(pattern: Seq<char>, text: Seq<char>, rep: Seq<char>) -> Option<Seq<char>>;

/// What `Regex::new(pattern)` followed by `captures(text)` gives: `None` when
/// the pattern does not compile, else the groups of the first match (group 0
/// first), if there is a match.
pub uninterp spec fn regex_captures_result(pattern: Seq<char>, text: Seq<char>) -> Option<Option<Seq<Option<Seq<char>>>>>;

/// Compiles `pattern` with `regex::Regex::new` and asks `Regex::is_match`
/// whether it matches somewhere in `text`. The contract names the result and
/// says no more of it.
#[verifier::external_body]
pub(crate) fn regex_is_match(pattern: &str, text: &str) -> (r: Option<bool>)
    ensures
        r == regex_match_result(pattern@, text@),
{
    match Regex::new(pattern) {
        Ok(re) => Some(re.is_match(text)),
        Err(_) => None,
    }
}

/// Compiles `pattern` with `regex::Regex::new` and gives what
/// `Regex::replace_all(text, rep)` gives (`rep` may name groups as `$1`).
/// The contract names the result and says no more of it.
#[verifier::external_body]
pub(crate) fn regex_replace_all(pattern: &str, text: &str, rep: &str) -> (r: Option<String>)
    ensures
        match r {
            Some(s) => regex_replace_result(pattern@, text@, rep@) == Some(s@),
            None => regex_replace_result(pattern@, text@, rep@) is None,
        },
{
    match Regex::new(pattern) {
        Ok(re) => Some(re.replace_all(text, rep).into_owned()),
        Err(_) => None,
    }
}

/// Compiles `pattern` with `regex::Regex::new` and gives the groups that
/// `Regex::captures(text)` finds in the first match. The contract names the
/// result and says no more of it.
#[verifier::external_body]
pub(crate) fn regex_captures(pattern: &str, text: &str) -> (r: Option<Option<Vec<Option<String>>>>)
    ensures
        match r {
            None => regex_captures_result(pattern@, text@) is None,
            Some(None) => regex_captures_result(pattern@, text@) == Some(None::<Seq<Option<Seq<char>>>>),
            Some(Some(g)) => regex_captures_result(pattern@, text@) matches Some(Some(h))
                && h.len() == g@.len()
                && forall|i: int| 0 <= i < g@.len() ==> match (#[trigger] g@[i]) {
                    Some(x) => h[i] == Some(x@),
                    None => h[i] is None,
                },
        },
{
    match Regex::new(pattern) {
        Ok(re) => Some(re.captures(text).map(|c| c.iter().map(|m| m.map(|x| x.as_str().to_string())).collect())),
        Err(_) => None,
    }
}

/// The text after a replacement, or the text unchanged when the pattern
/// does not compile.
pub open spec fn replaced_or_same(pattern: Seq<char>, text: Seq<char>, rep: Seq<char>) -> Seq<char> {
    match regex_replace_result(pattern, text, rep) {
        Some(s) => s,
        None => text,
    }
}

/// Replaces every match of `pattern` in `text` by `rep`; a pattern that does
/// not compile leaves the text unchanged.
pub fn replace_or_keep(pattern: &str, text: &str, rep: &str) -> (r: String)
    ensures
        r@ == replaced_or_same(pattern@, text@, rep@),
{
    match regex_replace_all(pattern, text, rep) {
        Some(s) => s,
        None => String::from_str(text),
    }
}

/// What `Regex::new(pattern)` followed by `captures_iter(text)` gives, cut
/// at the matches: for each match in turn, the text between it and the
/// previous match, the whole match, and its first group (empty when the
/// group took no part); then the text after the last match.  `None` when the
/// pattern does not compile.
pub uninterp spec fn regex_segments_result(pattern: Seq<char>, text: Seq<char>) -> Option<(Seq<(Seq<char>, Seq<char>, Seq<char>)>, Seq<char>)>;

/// The triples of a cut text as character sequences.
pub open spec fn segment_views(v: Seq<(String, String, String)>) -> Seq<(Seq<char>, Seq<char>, Seq<char>)> {
    v.map_values(|x: (String, String, String)| (x.0@, x.1@, x.2@))
}

/// Compiles `pattern` with `regex::Regex::new` and cuts `text` at the
/// matches that `Regex::captures_iter` finds, as `regex_segments_result`
/// describes.  The contract names the result and says no more of it.
#[verifier::external_body]
pub(crate) fn regex_segments(pattern: &str, text: &str) -> (r: Option<(Vec<(String, String, String)>, String)>)
    ensures
        match r {
            Some((v, t)) => regex_segments_result(pattern@, text@) == Some((segment_views(v@), t@)),
            None => regex_segments_result(pattern@, text@) is None,
        },
{
    let re = Regex::new(pattern).ok()?;
    let mut segments = Vec::new();
    let mut last: usize = 0;
    for caps in re.captures_iter(text) {
        let whole = caps.get(0)?;
        let group = caps.get(1).map_or("", |g| g.as_str());
        segments.push((text[last..whole.start()].to_string(), whole.as_str().to_string(), group.to_string()));
        last = whole.end();
    }
    Some((segments, text[last..].to_string()))
}

/// The message of the error that `Regex::new(pattern)` gives, `None` when
/// the pattern compiles.
pub uninterp spec fn regex_error_result(pattern: Seq<char>) -> Option<Seq<char>>;

/// Compiles `pattern` with `regex::Regex::new` and gives the message of its
/// error, if any (`regex::Error`'s `Display`).  The contract names the
/// result and says no more of it.
#[verifier::external_body]
pub(crate) fn regex_error(pattern: &str) -> (r: Option<String>)
    ensures
        match r {
            Some(m) => regex_error_result(pattern@) == Some(m@),
            None => regex_error_result(pattern@) is None,
        },
{
    Regex::new(pattern).err().map(|e| e.to_string())
}

/// What `Regex::new(pattern)` followed by `captures_iter(text)` gives, each
/// match by its first two groups (`None` for a group that took no part);
/// `None` when the pattern does not compile.
pub uninterp spec fn regex_group_pairs_result(pattern: Seq<char>, text: Seq<char>) -> Option<Seq<(Option<Seq<char>>, Option<Seq<char>>)>>;

/// An optional string as an optional character sequence.
pub open spec fn opt_view(o: Option<String>) -> Option<Seq<char>> {
    match o {
        Some(s) => Some(s@),
        None => None,
    }
}

/// Pairs of optional strings as pairs of optional character sequences.
pub open spec fn opt_pair_views(v: Seq<(Option<String>, Option<String>)>) -> Seq<(Option<Seq<char>>, Option<Seq<char>>)> {
    v.map_values(|p: (Option<String>, Option<String>)| (opt_view(p.0), opt_view(p.1)))
}

/// Compiles `pattern` with `regex::Regex::new` and gives the first two
/// groups of each match that `Regex::captures_iter(text)` finds.  The
/// contract names the result and says no more of it.
#[verifier::external_body]
pub(crate) fn regex_group_pairs(pattern: &str, text: &str) -> (r: Option<Vec<(Option<String>, Option<String>)>>)
    ensures
        match r {
            Some(v) => regex_group_pairs_result(pattern@, text@) == Some(opt_pair_views(v@)),
            None => regex_group_pairs_result(pattern@, text@) is None,
        },
{
    let re = Regex::new(pattern).ok()?;
    let mut pairs = Vec::new();
    for c in re.captures_iter(text) {
        pairs.push((c.get(1).map(|m| m.as_str().to_string()), c.get(2).map(|m| m.as_str().to_string())));
    }
    Some(pairs)
}

} // verus!
