//! Regular expressions, through the `regex` crate.

use vstd::prelude::*;

verus! {

#[verifier::external_type_specification]
#[verifier::external_body]
pub struct ExRegex(regex::Regex);

#[verifier::external_type_specification]
#[verifier::external_body]
pub struct ExRegexError(regex::Error);

/// Whether the `regex` crate accepts `pattern` (its syntax and its default size limit).
pub uninterp spec fn regex_is_valid(pattern: Seq<char>) -> bool;

/// Whether the regular expression `pattern` matches somewhere in `haystack`.
pub uninterp spec fn regex_finds(pattern: Seq<char>, haystack: Seq<char>) -> bool;

/// `haystack` with every non-overlapping match of `pattern` replaced by `replacement`
/// (in which `$name` refers to a group).
pub uninterp spec fn regex_replaced(
    pattern: Seq<char>,
    haystack: Seq<char>,
    replacement: Seq<char>,
) -> Seq<char>;

/// For each successive non-overlapping match of `pattern` in `haystack`, its groups in
/// order (the whole match first), each the text it matched or `None` when it took no part.
pub uninterp spec fn regex_captures(pattern: Seq<char>, haystack: Seq<char>) -> Seq<
    Seq<Option<Seq<char>>>,
>;

/// A compiled regular expression and the pattern it was compiled from.
/// Only `Pattern::compile` builds one, so `re` is always what the `regex` crate
/// compiled from `source`; the searches below rely on that.
pub struct Pattern {
    re: regex::Regex,
    source: Ghost<Seq<char>>,
}

impl Pattern {
    /// The pattern this expression was compiled from.
    pub closed spec fn source(&self) -> Seq<char> {
        self.source@
    }

    /// Compiles `pattern`; `None` when the `regex` crate refuses it.
    pub fn compile(pattern: &str) -> (r: Option<Pattern>)
        ensures
            r is Some <==> regex_is_valid(pattern@),
            r matches Some(p) ==> p.source() == pattern@,
    {
        match regex_new(pattern) {
            Ok(re) => Some(Pattern { re, source: Ghost(pattern@) }),
            Err(_) => None,
        }
    }
}

/// The text of each group of each match.
pub open spec fn captures_view(c: Seq<Vec<Option<String>>>) -> Seq<Seq<Option<Seq<char>>>> {
    c.map_values(|g: Vec<Option<String>>| group_view(g@))
}

/// The text of each group.
pub open spec fn group_view(g: Seq<Option<String>>) -> Seq<Option<Seq<char>>> {
    g.map_values(
        |o: Option<String>|
            match o {
                Some(s) => Some(s@),
                None => None,
            },
    )
}

/// `regex::Regex::new`: compiles `pattern`; it fails exactly on the patterns that the
/// crate refuses, which `regex_is_valid` names.
#[verifier::external_body]
fn regex_new(pattern: &str) -> (r: Result<regex::Regex, regex::Error>)
    ensures
        r is Ok <==> regex_is_valid(pattern@),
{
    regex::Regex::new(pattern)
}

/// `regex::Regex::is_match`: whether the expression, compiled from `p.source()`, matches
/// somewhere in `haystack`, as `regex_finds` names it.
#[verifier::external_body]
pub(crate) fn regex_is_match(p: &Pattern, haystack: &str) -> (b: bool)
    ensures
        b == regex_finds(p.source(), haystack@),
{
    p.re.is_match(haystack)
}

/// `regex::Regex::replace_all`: the haystack with every match replaced, as `regex_replaced`
/// names it; the `Cow` it returns is made an owned `String`.
#[verifier::external_body]
pub(crate) fn regex_replace_all(p: &Pattern, haystack: &str, replacement: &str) -> (s: String)
    ensures
        s@ == regex_replaced(p.source(), haystack@, replacement@),
{
    p.re.replace_all(haystack, replacement).into_owned()
}

/// `regex::Regex::captures_iter`, each `Captures` turned into the text of its groups
/// (`Captures::iter`, `Match::as_str`), as `regex_captures` names them.
#[verifier::external_body]
pub(crate) fn regex_captures_all(p: &Pattern, haystack: &str) -> (c: Vec<Vec<Option<String>>>)
    ensures
        captures_view(c@) == regex_captures(p.source(), haystack@),
{
    let mut all = Vec::new();
    for caps in p.re.captures_iter(haystack) {
        let mut groups = Vec::new();
        for m in caps.iter() {
            groups.push(match m {
                Some(m) => Some(m.as_str().to_string()),
                None => None,
            });
        }
        all.push(groups);
    }
    all
}

} // verus!
