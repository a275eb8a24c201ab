//! Compiled regular expressions and the capture groups they produce.

use vstd::prelude::*;

verus! {

/// `regex::Regex`, a compiled expression. Nothing is known of its inside.
#[verifier::external_type_specification]
#[verifier::external_body]
pub struct ExRegex(regex::Regex);

/// `regex::Error`, the reason for which an expression was refused.
#[verifier::external_type_specification]
#[verifier::external_body]
pub struct ExRegexError(regex::Error);

/// Whether `regex::Regex::new` accepts `source` as a regular expression.
pub uninterp spec fn pattern_is_valid(source: Seq<char>) -> bool;

/// Whether the expression written as `source` matches anywhere in `input`
/// (`regex::Regex::is_match`).
pub uninterp spec fn pattern_matches(source: Seq<char>, input: Seq<char>) -> bool;

/// The capture groups of the leftmost match of `source` in `input`
/// (`regex::Regex::captures`): group 0 is the whole match, and a group that
/// took no part in the match is `None`.
pub uninterp spec fn pattern_groups(source: Seq<char>, input: Seq<char>) -> Seq<Option<Seq<char>>>;

/// The texts that a sequence of strings holds.
pub open spec fn texts(v: Seq<String>) -> Seq<Seq<char>> {
    v.map_values(|s: String| s@)
}

/// The text of a string, if there is one.
pub open spec fn optional_text(s: Option<String>) -> Option<Seq<char>> {
    match s {
        Some(t) => Some(t@),
        None => None,
    }
}

/// The texts that a sequence of optional strings holds.
pub open spec fn optional_texts(v: Seq<Option<String>>) -> Seq<Option<Seq<char>>> {
    v.map_values(|s: Option<String>| optional_text(s))
}

/// The arguments handed to a callback for the given capture groups: one per
/// group, in the pattern's order, a group without a match as the empty text.
pub open spec fn filled(groups: Seq<Option<Seq<char>>>) -> Seq<Seq<char>> {
    groups.map_values(
        |g: Option<Seq<char>>|
            match g {
                Some(t) => t,
                None => Seq::<char>::empty(),
            },
    )
}

/// A regular expression together with the text it was compiled from.
pub struct Pattern {
    source: String,
    regex: regex::Regex,
}

impl Pattern {
    /// The text of the expression.
    pub closed spec fn source(&self) -> Seq<char> {
        self.source@
    }

    /// Calls `regex::Regex::new`. The result is `Ok` exactly for the texts that
    /// the regex crate accepts, and the pattern then remembers its text.
    #[verifier::external_body]
    pub(crate) fn compile(source: &str) -> (r: Result<Pattern, regex::Error>)
        ensures
            r.is_ok() == pattern_is_valid(source@),
            r matches Ok(p) ==> p.source() == source@,
    {
        match regex::Regex::new(source) {
            Ok(regex) => Ok(Pattern { source: source.to_string(), regex }),
            Err(e) => Err(e),
        }
    }

    /// Calls `regex::Regex::is_match` on the compiled expression.
    #[verifier::external_body]
    pub(crate) fn is_match(&self, input: &str) -> (b: bool)
        ensures
            b == pattern_matches(self.source(), input@),
    {
        self.regex.is_match(input)
    }

    /// Calls `regex::Regex::captures` and copies each group's text out. There
    /// is a result exactly when the expression matches; it holds one item per
    /// group of the expression, and the first, the whole match, is never
    /// missing.
    #[verifier::external_body]
    pub(crate) fn captures(&self, input: &str) -> (r: Option<Vec<Option<String>>>)
        ensures
            r.is_some() == pattern_matches(self.source(), input@),
            r matches Some(g) ==> optional_texts(g@) == pattern_groups(self.source(), input@)
                && g@.len() >= 1 && g@[0].is_some(),
    {
        self.regex.captures(input).map(
            |c| c.iter().map(|m| m.map(|t| t.as_str().to_string())).collect(),
        )
    }

    /// The text the pattern was compiled from.
    pub fn text(&self) -> (s: &str)
        ensures
            s@ == self.source(),
    {
        self.source.as_str()
    }
}

/// Turns capture groups into callback arguments: every group keeps its
/// position, and a group that did not take part becomes an empty string.
pub fn fill_groups(groups: Vec<Option<String>>) -> (args: Vec<String>)
    ensures
        texts(args@) == filled(optional_texts(groups@)),
        args@.len() == groups@.len(),
        forall|i: int|
            0 <= i < groups@.len() ==> #[trigger] args@[i]@ == (match groups@[i] {
                Some(t) => t@,
                None => Seq::<char>::empty(),
            }),
{
    let mut args: Vec<String> = Vec::new();
    let mut i: usize = 0;
    while i < groups.len()
        invariant
            i <= groups@.len(),
            args@.len() == i,
            forall|k: int|
                0 <= k < i ==> #[trigger] args@[k]@ == (match groups@[k] {
                    Some(t) => t@,
                    None => Seq::<char>::empty(),
                }),
        decreases groups@.len() - i,
    {
        let arg = match &groups[i] {
            Some(t) => t.clone(),
            None => String::new(),
        };
        args.push(arg);
        i = i + 1;
    }
    assert(texts(args@) =~= filled(optional_texts(groups@)));
    args
}

} // verus!
