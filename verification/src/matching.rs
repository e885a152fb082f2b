//! Regular-expression matching, done by the `regex` crate.
//!
//! The engine is not rebuilt here: each operation calls `regex`, and what it
//! returns is named by an uninterpreted function of the pattern and the text.
use vstd::prelude::*;

verus! {

#[verifier::external_type_specification]
#[verifier::external_body]
pub struct ExRegex(regex::Regex);

#[verifier::external_type_specification]
#[verifier::external_body]
pub struct ExRegexError(regex::Error);

/// Whether `regex::Regex::new` accepts `pattern`.
pub uninterp spec fn regex_compiles(pattern: Seq<char>) -> bool;

/// What `regex::Regex::is_match` answers for the compiled `pattern` on `text`.
pub uninterp spec fn regex_is_match(pattern: Seq<char>, text: Seq<char>) -> bool;

/// How many non-overlapping matches `regex::Regex::find_iter` yields for the
/// compiled `pattern` on `text`.
pub uninterp spec fn regex_match_count(pattern: Seq<char>, text: Seq<char>) -> usize;

/// The text of capture group 1 in the leftmost match of `pattern` in `text`,
/// as `regex::Regex::captures` reports it; `None` where nothing matches or
/// the group took no part in the match.
pub uninterp spec fn regex_first_group(pattern: Seq<char>, text: Seq<char>) -> Option<Seq<char>>;

/// A character that `regex::escape` puts a backslash in front of.
pub open spec fn is_regex_meta(c: char) -> bool {
    c == '\\' || c == '.' || c == '+' || c == '*' || c == '?' || c == '(' || c == ')' || c
        == '|' || c == '[' || c == ']' || c == '{' || c == '}' || c == '^' || c == '$' || c
        == '#' || c == '&' || c == '-' || c == '~'
}

/// `s` with a backslash before each meta character.
pub open spec fn regex_escaped(s: Seq<char>) -> Seq<char>
    decreases s.len(),
{
    if s.len() == 0 {
        Seq::empty()
    } else {
        let c = s.last();
        regex_escaped(s.drop_last()) + if is_regex_meta(c) {
            seq!['\\', c]
        } else {
            seq![c]
        }
    }
}

/// Escapes the meta characters of `s` so that a pattern matches it literally.
/// Trusted: calls `regex::escape`; its source (regex-syntax `escape_into`)
/// pushes a backslash before each character that `is_meta_character` accepts,
/// the eighteen characters of `is_regex_meta`, and copies every character.
#[verifier::external_body]
pub(crate) fn regex_escape(s: &str) -> (r: String)
    ensures
        r@ == regex_escaped(s@),
{
    regex::escape(s)
}

/// A compiled regular expression together with the pattern it came from.
pub(crate) struct Matcher {
    pattern: String,
    re: regex::Regex,
}

impl Matcher {
    /// The pattern this matcher was compiled from.
    pub(crate) closed spec fn pattern(&self) -> Seq<char> {
        self.pattern@
    }

    /// Compiles `pattern`.
    /// Trusted: calls `regex::Regex::new`, and keeps a copy of the pattern
    /// beside the compiled value. Claims only that it succeeds exactly for
    /// the patterns that `regex_compiles` names.
    #[verifier::external_body]
    pub(crate) fn compile(pattern: &str) -> (r: Result<Matcher, regex::Error>)
        ensures
            r is Ok <==> regex_compiles(pattern@),
            r matches Ok(m) ==> m.pattern() == pattern@,
    {
        match regex::Regex::new(pattern) {
            Ok(re) => Ok(Matcher { pattern: pattern.to_string(), re }),
            Err(e) => Err(e),
        }
    }

    /// Trusted: calls `regex::Regex::is_match`.
    #[verifier::external_body]
    pub(crate) fn is_match(&self, text: &str) -> (b: bool)
        ensures
            b == regex_is_match(self.pattern(), text@),
    {
        self.re.is_match(text)
    }

    /// Trusted: calls `regex::Regex::find_iter` and counts what it yields.
    #[verifier::external_body]
    pub(crate) fn count_matches(&self, text: &str) -> (n: usize)
        ensures
            n == regex_match_count(self.pattern(), text@),
    {
        self.re.find_iter(text).count()
    }

    /// Trusted: calls `regex::Regex::captures` and reads group 1.
    #[verifier::external_body]
    pub(crate) fn first_group(&self, text: &str) -> (g: Option<String>)
        ensures
            match g {
                Some(s) => regex_first_group(self.pattern(), text@) == Some(s@),
                None => regex_first_group(self.pattern(), text@) is None,
            },
    {
        match self.re.captures(text) {
            Some(caps) => match caps.get(1) {
                Some(m) => Some(m.as_str().to_string()),
                None => None,
            },
            None => None,
        }
    }
}

} // verus!
