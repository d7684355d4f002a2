//! Compiled regular expressions, held behind named results.
//!
//! The engine's grammar lives in pattern text; the matching itself is the
//! regex crate's. Each operation's result is a function of the pattern and
//! the text alone, so it carries a name (`regex_matched`, `regex_group`, …)
//! that contracts build on.
use vstd::prelude::*;

verus! {

#[verifier::external_type_specification]
#[verifier::external_body]
pub struct ExRegex(regex::Regex);

/// Whether a pattern is a valid regular expression, as `Regex::new` accepts it.
pub uninterp spec fn regex_ok(pattern: Seq<char>) -> bool;

/// Whether the pattern matches anywhere in the text.
pub uninterp spec fn regex_matched(pattern: Seq<char>, text: Seq<char>) -> bool;

/// The text of the named capture group in the pattern's first match:
/// nothing when there is no match or the group takes no part in it.
pub uninterp spec fn regex_group(pattern: Seq<char>, text: Seq<char>, group: Seq<char>) -> Option<
    Seq<char>,
>;

/// The text of the whole first match, when there is one.
pub uninterp spec fn regex_match_text(pattern: Seq<char>, text: Seq<char>) -> Option<Seq<char>>;

/// The text before the first match, when there is one.
pub uninterp spec fn regex_prefix(pattern: Seq<char>, text: Seq<char>) -> Option<Seq<char>>;

/// The text after the end of the first match, when there is one.
pub uninterp spec fn regex_suffix(pattern: Seq<char>, text: Seq<char>) -> Option<Seq<char>>;

/// A compiled regular expression, remembering its pattern text.
pub struct Pattern {
    re: regex::Regex,
    text: String,
}

impl Pattern {
    /// The pattern this was compiled from.
    pub closed spec fn src(self) -> Seq<char> {
        self.text@
    }

    /// Relies on `Regex::new`: compilation succeeds exactly on valid
    /// patterns, and the compiled value matches as its pattern says.
    #[verifier::external_body]
    pub fn compile(pattern: &str) -> (r: Option<Pattern>)
        ensures
            r is Some <==> regex_ok(pattern@),
            r matches Some(p) ==> p.src() == pattern@,
    {
        match regex::Regex::new(pattern) {
            Ok(re) => Some(Pattern { re, text: pattern.to_string() }),
            Err(_) => None,
        }
    }

    /// Relies on `Regex::is_match`: whether the pattern matches anywhere.
    #[verifier::external_body]
    pub fn is_match(&self, text: &str) -> (r: bool)
        ensures
            r == regex_matched(self.src(), text@),
    {
        self.re.is_match(text)
    }

    /// Relies on `Regex::captures` and `Captures::name`: the named group's
    /// text in the first match, or nothing.
    #[verifier::external_body]
    pub fn group(&self, text: &str, name: &str) -> (r: Option<String>)
        ensures
            match r {
                Some(s) => regex_group(self.src(), text@, name@) == Some(s@),
                None => regex_group(self.src(), text@, name@) is None,
            },
    {
        self.re.captures(text)?.name(name).map(|m| m.as_str().to_string())
    }

    /// Relies on `Regex::find` and `Match::as_str`: the whole first match.
    #[verifier::external_body]
    pub fn match_text(&self, text: &str) -> (r: Option<String>)
        ensures
            match r {
                Some(s) => regex_match_text(self.src(), text@) == Some(s@),
                None => regex_match_text(self.src(), text@) is None,
            },
    {
        self.re.find(text).map(|m| m.as_str().to_string())
    }

    /// Relies on `Regex::find` and `Match::start`: the text before the
    /// first match (match offsets fall on character boundaries).
    #[verifier::external_body]
    pub fn prefix_to_match(&self, text: &str) -> (r: Option<String>)
        ensures
            match r {
                Some(s) => regex_prefix(self.src(), text@) == Some(s@),
                None => regex_prefix(self.src(), text@) is None,
            },
    {
        self.re.find(text).map(|m| text[..m.start()].to_string())
    }

    /// Relies on `Regex::find` and `Match::end`: the text after the first
    /// match (match offsets fall on character boundaries).
    #[verifier::external_body]
    pub fn suffix_from_match(&self, text: &str) -> (r: Option<String>)
        ensures
            match r {
                Some(s) => regex_suffix(self.src(), text@) == Some(s@),
                None => regex_suffix(self.src(), text@) is None,
            },
    {
        self.re.find(text).map(|m| text[m.end()..].to_string())
    }
}

} // verus!
