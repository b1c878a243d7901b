//! The boundary to the regular-expression engine.
//!
//! Patterns are compiled once, at registration time, and are rewritten so
//! that they can only match at the very start of whatever text they are later
//! tested against.  What the engine answers for a given pattern and text is
//! named by the uninterpreted functions [`pattern_compiles`] and [`match_at`];
//! the two trusted wrappers below tie those names to the engine.

use vstd::prelude::*;
use vstd::string::{StringExecFns, StringSliceAdditionalSpecFns};

verus! {

/// Whether the regular-expression engine accepts `pattern` as a valid
/// pattern.  This is a function of the pattern text alone.
pub uninterp spec fn pattern_compiles(pattern: Seq<char>) -> bool;

/// The text that the compiled `pattern` matches at the very start of `text`,
/// or `None` when it does not match there.  This is a function of the
/// pattern and the text alone.
pub uninterp spec fn match_at(pattern: Seq<char>, text: Seq<char>) -> Option<Seq<char>>;

#[verifier::external_type_specification]
#[verifier::external_body]
pub struct ExRegex(regex::Regex);

#[verifier::external_type_specification]
#[verifier::external_body]
pub struct ExRegexError(regex::Error);

/// The pattern text rewritten so that it can only match at the start of the
/// text it is tested against: a start anchor, then the pattern in a
/// non-capturing group so that an alternation cannot escape the anchor.
pub open spec fn anchored(pattern: Seq<char>) -> Seq<char> {
    seq!['^', '(', '?', ':'] + pattern + seq![')']
}

/// A rule with this pattern text is accepted exactly when the text is a
/// valid pattern on its own and its anchored form compiles too.
pub open spec fn pattern_accepted(pattern: Seq<char>) -> bool {
    pattern_compiles(pattern) && pattern_compiles(anchored(pattern))
}

/// Rewrites `pattern` so that it only matches at the start of the text it is
/// later tested against.  Callers write patterns without anchoring concerns.
pub fn add_start_flag(pattern: &str) -> (r: String)
    ensures
        r@ == anchored(pattern@),
{
    let mut s = String::from_str("^(?:");
    s.append(pattern);
    s.append(")");
    proof {
        reveal_strlit("^(?:");
        reveal_strlit(")");
        assert(s@ =~= anchored(pattern@));
    }
    s
}

/// A pattern compiled once at registration time, kept with its anchored
/// source text.  The only constructor is [`CompiledPattern::compile`], so
/// the compiled engine pattern always belongs to the stored text, the
/// stored text is always the anchored form of a caller's pattern, and that
/// caller's pattern is always a valid pattern on its own.
pub struct CompiledPattern {
    text: String,
    re: regex::Regex,
}

impl View for CompiledPattern {
    type V = Seq<char>;

    /// The source text the pattern was compiled from.
    closed spec fn view(&self) -> Seq<char> {
        self.text@
    }
}

impl CompiledPattern {
    /// Relies on `regex::Regex::new`: whether a pattern text compiles is
    /// decided by that text alone, and on success the returned engine
    /// pattern is the compilation of exactly that text.
    ///
    /// The raw pattern is compiled first and its error returned when it is
    /// invalid: only a pattern that is valid on its own may be anchored,
    /// since in an invalid one an unbalanced parenthesis could close the
    /// anchoring group early and escape the anchor.  The anchored form is
    /// then compiled as well (wrapping a valid pattern can still, in
    /// principle, push it over an engine limit such as the nesting depth).
    #[verifier::external_body]
    pub(crate) fn compile(pattern: &str, anchored_text: String) -> (r: Result<CompiledPattern, regex::Error>)
        requires
            anchored_text@ == anchored(pattern@),
        ensures
            r is Ok <==> (pattern_compiles(pattern@) && pattern_compiles(anchored(pattern@))),
            r matches Ok(p) ==> p@ == anchored(pattern@),
    {
        if let Err(e) = regex::Regex::new(pattern) {
            return Err(e);
        }
        match regex::Regex::new(&anchored_text) {
            Ok(re) => Ok(CompiledPattern { text: anchored_text, re }),
            Err(e) => Err(e),
        }
    }

    /// Relies on `regex::Regex::find`: it reports the leftmost match of the
    /// compiled pattern.  Every compiled text here is `^(?:p)` for a `p`
    /// that compiles on its own, so `p`'s parentheses are balanced, the
    /// group cannot be closed from inside, and the leading non-multiline
    /// `^` governs the whole pattern: a reported match begins at the first
    /// byte of `text`.  The result is the matched prefix and the rest of
    /// `text` after it, both slices of `text` split at the match end.
    #[verifier::external_body]
    pub(crate) fn find_at_start<'a>(&self, text: &'a str) -> (r: Option<(&'a str, &'a str)>)
        ensures
            r is Some <==> match_at(self@, text@) is Some,
            r matches Some((m, rest)) ==> {
                &&& match_at(self@, text@) == Some(m@)
                &&& text@ == m@ + rest@
                &&& text.spec_bytes() == m.spec_bytes() + rest.spec_bytes()
            },
    {
        match self.re.find(text) {
            Some(found) => Some((found.as_str(), &text[found.end()..])),
            None => None,
        }
    }
}

} // verus!
