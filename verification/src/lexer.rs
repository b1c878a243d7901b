//! The matching engine: rule registration and the lazy token stream.
//!
//! A [`Lexer`] is an ordered, append-only collection of rules, each pairing a
//! pattern, compiled at registration time, with an action that decides what a
//! match produces.  [`Lexer::tokenize`] begins a scan: a [`LexerIter`] that,
//! on each pull, tries the rules in registration order against the start of
//! the unconsumed input.  The first rule whose pattern matches wins, the
//! cursor advances by the matched text, and the rule's action decides whether
//! a token is emitted or the scan goes straight on to the next match.  One
//! pull is described exactly by the specification function [`pull`], a whole
//! scan by [`scan`].

use crate::pattern::{add_start_flag, anchored, match_at, pattern_accepted, CompiledPattern};
use vstd::pervasive::cloned;
use vstd::prelude::*;
use vstd::string::{StrSliceExecFns, StringSliceAdditionalSpecFns};
use vstd::utf8::encode_utf8;

verus! {

/// A caller-supplied action: a pure function from a matched text to an
/// optional token.  Returning `None` means "recognized, but produces no
/// token", which is distinct from "the rule did not match".
pub trait Action<T> {
    /// The token, if any, that the action produces for a given matched
    /// text.  An implementation overrides this to say what its `apply`
    /// does; the default says that it produces nothing.
    open spec fn spec_apply(&self, matched: Seq<char>) -> Option<T> {
        None
    }

    /// Applies the action to a matched text.  Verus holds every
    /// implementation it sees to this contract; one it does not see is
    /// trusted by its callers to meet it.
    fn apply(&self, matched: &str) -> (r: Option<T>)
        ensures
            r == self.spec_apply(matched@),
    ;
}

/// An action that produces no token for any match.  It can stand in for the
/// action type of a lexer built only from fixed-token and discard rules.
pub struct NoAction;

impl<T> Action<T> for NoAction {
    fn apply(&self, matched: &str) -> (r: Option<T>) {
        None
    }
}

/// What a rule does with a match of its pattern.
pub enum RuleAction<T, A> {
    /// Emit a copy of a fixed token.
    Emit(T),
    /// Consume the match and emit nothing.
    Discard,
    /// Let a caller-supplied action decide.
    Apply(A),
}

/// One pattern together with its action.
pub struct Rule<T, A> {
    pattern: CompiledPattern,
    action: RuleAction<T, A>,
}

impl<T, A> Rule<T, A> {
    /// The anchored pattern text of this rule.
    pub closed spec fn pat(self) -> Seq<char> {
        self.pattern@
    }

    /// The action of this rule.
    pub closed spec fn act(self) -> RuleAction<T, A> {
        self.action
    }
}

/// The error returned when a rule's pattern does not compile.  The rule set
/// is left unchanged; the invalid rule is never added.
#[derive(Debug)]
pub struct PatternError {
    /// The pattern text as the caller gave it.
    pub pattern: String,
    /// The error reported by the regular-expression engine.
    pub cause: regex::Error,
}

/// The result of registering a rule.
pub type AddRuleResult = Result<(), PatternError>;

/// Holds of a rule set that grew by exactly one rule with the given pattern
/// (anchored) and action, all earlier rules kept in place.
pub open spec fn added_rule<T, A>(
    before: Seq<Rule<T, A>>,
    after: Seq<Rule<T, A>>,
    pattern: Seq<char>,
    action: RuleAction<T, A>,
) -> bool {
    &&& after.len() == before.len() + 1
    &&& after.drop_last() == before
    &&& after.last().pat() == anchored(pattern)
    &&& after.last().act() == action
}

/// An ordered, append-only collection of rules, built by the caller before
/// scanning begins.  Insertion order is the priority order for matching.
pub struct Lexer<T, A> {
    rules: Vec<Rule<T, A>>,
}

impl<T, A: Action<T>> Lexer<T, A> {
    /// The rules in registration order.
    pub closed spec fn rules_seq(&self) -> Seq<Rule<T, A>> {
        self.rules@
    }

    /// Creates an empty rule set.
    pub fn new() -> (r: Lexer<T, A>)
        ensures
            r.rules_seq() == Seq::<Rule<T, A>>::empty(),
    {
        Lexer { rules: Vec::new() }
    }

    /// Checks that `pattern` is a valid pattern on its own, compiles its
    /// anchored form, and appends a rule on success.  On a compilation
    /// error the rule set is left unchanged.
    fn push_rule(&mut self, pattern: &str, action: RuleAction<T, A>) -> (r: AddRuleResult)
        ensures
            r is Ok <==> pattern_accepted(pattern@),
            r is Ok ==> added_rule(
                old(self).rules_seq(),
                final(self).rules_seq(),
                pattern@,
                action,
            ),
            r is Err ==> *final(self) == *old(self),
            r matches Err(e) ==> e.pattern@ == pattern@,
    {
        let anchored_text = add_start_flag(pattern);
        match CompiledPattern::compile(pattern, anchored_text) {
            Ok(compiled) => {
                self.rules.push(Rule { pattern: compiled, action });
                proof {
                    assert(self.rules@.drop_last() =~= old(self).rules@);
                }
                Ok(())
            },
            Err(cause) => Err(PatternError { pattern: pattern.to_owned(), cause }),
        }
    }

    /// Adds a mapping rule: every match of `pattern` yields the token that
    /// `action` computes from the matched text, so `action` must produce a
    /// token for every text.
    pub fn rule(&mut self, pattern: &str, action: A) -> (r: AddRuleResult)
        requires
            forall|m: Seq<char>| (#[trigger] action.spec_apply(m)) is Some,
        ensures
            r is Ok <==> pattern_accepted(pattern@),
            r is Ok ==> added_rule(
                old(self).rules_seq(),
                final(self).rules_seq(),
                pattern@,
                RuleAction::Apply(action),
            ),
            r is Err ==> *final(self) == *old(self),
            r matches Err(e) ==> e.pattern@ == pattern@,
    {
        self.push_rule(pattern, RuleAction::Apply(action))
    }

    /// Adds an optional-mapping rule: a match of `pattern` yields the token
    /// that `action` computes, or nothing when `action` declines.
    pub fn rule_option(&mut self, pattern: &str, action: A) -> (r: AddRuleResult)
        ensures
            r is Ok <==> pattern_accepted(pattern@),
            r is Ok ==> added_rule(
                old(self).rules_seq(),
                final(self).rules_seq(),
                pattern@,
                RuleAction::Apply(action),
            ),
            r is Err ==> *final(self) == *old(self),
            r matches Err(e) ==> e.pattern@ == pattern@,
    {
        self.push_rule(pattern, RuleAction::Apply(action))
    }

    /// Adds a discard rule: every match of `pattern` is consumed and never
    /// emits a token (whitespace, comments).
    pub fn rule_noop(&mut self, pattern: &str) -> (r: AddRuleResult)
        ensures
            r is Ok <==> pattern_accepted(pattern@),
            r is Ok ==> added_rule(
                old(self).rules_seq(),
                final(self).rules_seq(),
                pattern@,
                RuleAction::Discard,
            ),
            r is Err ==> *final(self) == *old(self),
            r matches Err(e) ==> e.pattern@ == pattern@,
    {
        self.push_rule(pattern, RuleAction::Discard)
    }

    /// Begins a scan of `text`: a stream over `text` positioned at byte
    /// offset 0, with nothing consumed and nothing failed.
    pub fn tokenize<'i>(&'i self, text: &'i str) -> (r: LexerIter<'i, T, A>)
        ensures
            r.wf(),
            r.rules_seq() == self.rules_seq(),
            r.remaining() == text@,
            r.byte_pos() == 0,
            !r.has_failed(),
    {
        // The slice view of the input pins its byte length within `usize`.
        let _total: usize = text.as_bytes().len();
        LexerIter { rules: &self.rules, rest: text, pos: 0, failed: false }
    }
}

impl<T: Clone, A: Action<T>> Lexer<T, A> {
    /// Adds a constant rule: every match of `pattern` yields a copy of
    /// `token`.
    pub fn rule_simple(&mut self, pattern: &str, token: T) -> (r: AddRuleResult)
        ensures
            r is Ok <==> pattern_accepted(pattern@),
            r is Ok ==> added_rule(
                old(self).rules_seq(),
                final(self).rules_seq(),
                pattern@,
                RuleAction::Emit(token),
            ),
            r is Err ==> *final(self) == *old(self),
            r matches Err(e) ==> e.pattern@ == pattern@,
    {
        self.push_rule(pattern, RuleAction::Emit(token))
    }
}

/// The number of bytes that encode the text `s`.
pub open spec fn byte_len(s: Seq<char>) -> nat {
    encode_utf8(s).len()
}

/// A text needs at least as many bytes as it has characters.
pub proof fn lemma_byte_len_at_least_chars(s: Seq<char>)
    ensures
        byte_len(s) >= s.len(),
    decreases s.len(),
{
    if s.len() > 0 {
        lemma_byte_len_at_least_chars(s.drop_first());
    }
}

/// The index of the first rule whose pattern matches at the start of `text`,
/// or `None` when no rule matches there.
pub open spec fn first_match_idx<T, A>(rules: Seq<Rule<T, A>>, text: Seq<char>) -> Option<int>
    decreases rules.len(),
{
    if rules.len() == 0 {
        None
    } else if match_at(rules[0].pat(), text) is Some {
        Some(0)
    } else {
        match first_match_idx(rules.drop_first(), text) {
            Some(i) => Some(i + 1),
            None => None,
        }
    }
}

/// The first matching rule is in range, matches, and no earlier rule
/// matches; when there is none, no rule matches.
pub proof fn lemma_first_match_idx<T, A>(rules: Seq<Rule<T, A>>, text: Seq<char>)
    ensures
        match first_match_idx(rules, text) {
            Some(i) => {
                &&& 0 <= i < rules.len()
                &&& match_at(rules[i].pat(), text) is Some
                &&& forall|j: int|
                    0 <= j < i ==> match_at(#[trigger] rules[j].pat(), text) is None
            },
            None => forall|j: int|
                0 <= j < rules.len() ==> match_at(#[trigger] rules[j].pat(), text) is None,
        },
    decreases rules.len(),
{
    if rules.len() > 0 && match_at(rules[0].pat(), text) is None {
        lemma_first_match_idx(rules.drop_first(), text);
        assert(forall|j: int|
            1 <= j < rules.len() ==> rules.drop_first()[j - 1] == #[trigger] rules[j]);
    }
}

/// A rule that matches, with no earlier match, is the first matching rule.
pub proof fn lemma_first_match_idx_at<T, A>(rules: Seq<Rule<T, A>>, text: Seq<char>, i: int)
    requires
        0 <= i < rules.len(),
        match_at(rules[i].pat(), text) is Some,
        forall|j: int| 0 <= j < i ==> match_at(#[trigger] rules[j].pat(), text) is None,
    ensures
        first_match_idx(rules, text) == Some(i),
    decreases rules.len(),
{
    if i > 0 {
        assert(forall|j: int|
            0 <= j < rules.len() - 1 ==> #[trigger] rules.drop_first()[j] == rules[j + 1]);
        lemma_first_match_idx_at(rules.drop_first(), text, i - 1);
    }
}

/// The token, if any, that `action` produces for the matched text `m`.
pub open spec fn action_result<T, A: Action<T>>(action: RuleAction<T, A>, m: Seq<char>) -> Option<
    T,
> {
    match action {
        RuleAction::Emit(t) => Some(t),
        RuleAction::Discard => None,
        RuleAction::Apply(a) => a.spec_apply(m),
    }
}

/// What one pull of the stream does, starting from a suffix `rest` of the
/// input at byte offset `pos`.
pub enum Pull<T> {
    /// A token is emitted; `rest` and `pos` describe the cursor afterwards.
    Item { token: T, rest: Seq<char>, pos: nat },
    /// The scan stops for good at the character `ch`, `pos` bytes into the
    /// input: no rule matches there, or the first match is empty and the
    /// cursor cannot advance.
    Error { ch: char, rest: Seq<char>, pos: nat },
    /// No further items: the stream had already failed, or the input is
    /// exhausted, possibly after trailing discarded matches.
    End { rest: Seq<char>, pos: nat },
}

/// One pull of the stream: skip the failed and exhausted cases, otherwise
/// apply the first matching rule, advance by the matched text, and either
/// emit the action's token or, for a discarded match, pull again.
///
/// A rule that matches the empty text cannot advance the cursor; rather than
/// pull forever without progress, the scan fails at that character.  (A
/// reported match also never reaches past the text it was found in, so the
/// same branch keeps this definition total without promising anything new.)
pub open spec fn pull<T, A: Action<T>>(
    rules: Seq<Rule<T, A>>,
    rest: Seq<char>,
    pos: nat,
    failed: bool,
) -> Pull<T>
    decreases rest.len(),
{
    if failed || rest.len() == 0 {
        Pull::End { rest, pos }
    } else {
        match first_match_idx(rules, rest) {
            None => Pull::Error { ch: rest[0], rest, pos },
            Some(i) => {
                let m = match_at(rules[i].pat(), rest)->Some_0;
                if 1 <= m.len() <= rest.len() {
                    let rest2 = rest.skip(m.len() as int);
                    let pos2 = pos + byte_len(m);
                    match action_result(rules[i].act(), m) {
                        Some(t) => Pull::Item { token: t, rest: rest2, pos: pos2 },
                        None => pull(rules, rest2, pos2, false),
                    }
                } else {
                    Pull::Error { ch: rest[0], rest, pos }
                }
            },
        }
    }
}

/// A pull consumes part of the suffix and never moves the cursor back: an
/// emitted token always comes with strict progress, and a stream that was
/// not failed only ends once the input is fully consumed.
pub proof fn lemma_pull_bounds<T, A: Action<T>>(
    rules: Seq<Rule<T, A>>,
    rest: Seq<char>,
    pos: nat,
    failed: bool,
)
    ensures
        match pull(rules, rest, pos, failed) {
            Pull::Item { rest: r2, pos: p2, .. } => r2.len() < rest.len() && pos <= p2,
            Pull::Error { rest: r2, pos: p2, .. } => r2.len() <= rest.len() && pos <= p2,
            Pull::End { rest: r2, pos: p2 } => {
                &&& r2.len() <= rest.len()
                &&& pos <= p2
                &&& !failed ==> r2.len() == 0
            },
        },
    decreases rest.len(),
{
    if !(failed || rest.len() == 0) {
        match first_match_idx(rules, rest) {
            Some(i) => {
                let m = match_at(rules[i].pat(), rest)->Some_0;
                if 1 <= m.len() <= rest.len() {
                    if action_result(rules[i].act(), m) is None {
                        lemma_pull_bounds(
                            rules,
                            rest.skip(m.len() as int),
                            pos + byte_len(m),
                            false,
                        );
                    }
                }
            },
            None => {},
        }
    }
}

/// The terminal event of a whole scan.
pub enum ScanEnd {
    /// The input was consumed completely; the stream ends without error.
    Done,
    /// The scan stopped for good at the character `ch`, `pos` bytes into
    /// the input.
    Fail { ch: char, pos: nat },
}

/// The whole scan from a suffix `rest` at byte offset `pos`: every token the
/// stream emits, in order, and how the stream ends.
pub open spec fn scan<T, A: Action<T>>(rules: Seq<Rule<T, A>>, rest: Seq<char>, pos: nat) -> (
    Seq<T>,
    ScanEnd,
)
    decreases rest.len(),
    via scan_decreases::<T, A>
{
    match pull(rules, rest, pos, false) {
        Pull::End { .. } => (Seq::empty(), ScanEnd::Done),
        Pull::Error { ch, rest: r2, pos: p2 } => (Seq::empty(), ScanEnd::Fail { ch, pos: p2 }),
        Pull::Item { token, rest: r2, pos: p2 } => {
            let (ts, end) = scan(rules, r2, p2);
            (seq![token] + ts, end)
        },
    }
}

#[via_fn]
proof fn scan_decreases<T, A: Action<T>>(rules: Seq<Rule<T, A>>, rest: Seq<char>, pos: nat) {
    lemma_pull_bounds(rules, rest, pos, false);
}

/// Each element of `b` is a copy of the corresponding element of `a`.
pub open spec fn cloned_seq<T: Clone>(a: Seq<T>, b: Seq<T>) -> bool {
    &&& a.len() == b.len()
    &&& forall|i: int| 0 <= i < a.len() ==> cloned::<T>(a[i], #[trigger] b[i])
}

/// The error produced during scanning.
#[derive(Debug, Clone, Copy, PartialEq, Eq)]
pub enum TokenizeError {
    /// The scan stopped for good at the character `ch`, found `position`
    /// bytes from the start of the input: no rule matched there, or the
    /// first match was empty and the cursor could not advance.
    UnexpectedChar { ch: char, position: usize },
}

/// One item of the token stream: a token, or the terminal error.
pub type TokenizeResult<T> = Result<T, TokenizeError>;

/// A scan cursor over an input string: the lazy stream of tokens that the
/// rules of a [`Lexer`] produce from the input.
pub struct LexerIter<'i, T, A> {
    rules: &'i Vec<Rule<T, A>>,
    rest: &'i str,
    pos: usize,
    failed: bool,
}

impl<'i, T, A> LexerIter<'i, T, A> {
    /// The rules of the lexer this stream was begun from.
    pub closed spec fn rules_seq(&self) -> Seq<Rule<T, A>> {
        self.rules@
    }

    /// The unconsumed suffix of the input.
    pub closed spec fn remaining(&self) -> Seq<char> {
        self.rest@
    }

    /// The byte offset of the unconsumed suffix in the input.
    pub closed spec fn byte_pos(&self) -> nat {
        self.pos as nat
    }

    /// Whether the stream has failed and is permanently exhausted.
    pub closed spec fn has_failed(&self) -> bool {
        self.failed
    }

    /// The cursor position never runs past the addressable byte range.
    pub closed spec fn wf(&self) -> bool {
        self.pos + self.rest.spec_bytes().len() <= usize::MAX
    }

    /// The byte offset of the next match attempt: the count of input bytes
    /// consumed so far.
    pub fn position(&self) -> (p: usize)
        ensures
            p == self.byte_pos(),
    {
        self.pos
    }
}

/// Applies a rule's action to the matched text `matched`.  The result is the
/// action's token, with a fixed token emitted as a copy.
fn apply_action<T: Clone, A: Action<T>>(action: &RuleAction<T, A>, matched: &str) -> (r: Option<
    T,
>)
    ensures
        match action_result(*action, matched@) {
            Some(t0) => r matches Some(t) && cloned::<T>(t0, t),
            None => r is None,
        },
{
    match action {
        RuleAction::Emit(t) => Some(t.clone()),
        RuleAction::Discard => None,
        RuleAction::Apply(a) => a.apply(matched),
    }
}

impl<'i, T: Clone, A: Action<T>> LexerIter<'i, T, A> {
    /// Pulls the next item of the stream: the next token, the terminal
    /// unexpected-character error, or `None` once the stream is exhausted.
    /// What comes back, and how the cursor moves, is exactly what [`pull`]
    /// says of the state before the call; the cursor position never
    /// decreases.
    pub fn next(&mut self) -> (r: Option<TokenizeResult<T>>)
        requires
            old(self).wf(),
        ensures
            final(self).wf(),
            final(self).rules_seq() == old(self).rules_seq(),
            old(self).byte_pos() <= final(self).byte_pos(),
            old(self).has_failed() ==> r is None && *final(self) == *old(self),
            match pull(
                old(self).rules_seq(),
                old(self).remaining(),
                old(self).byte_pos(),
                old(self).has_failed(),
            ) {
                Pull::Item { token, rest, pos } => {
                    &&& r matches Some(Ok(t)) && cloned::<T>(token, t)
                    &&& final(self).remaining() == rest
                    &&& final(self).byte_pos() == pos
                    &&& !final(self).has_failed()
                },
                Pull::Error { ch, rest, pos } => {
                    &&& r == Some(Err::<T, TokenizeError>(
                        TokenizeError::UnexpectedChar { ch, position: pos as usize },
                    ))
                    &&& final(self).remaining() == rest
                    &&& final(self).byte_pos() == pos
                    &&& final(self).has_failed()
                },
                Pull::End { rest, pos } => {
                    &&& r is None
                    &&& final(self).remaining() == rest
                    &&& final(self).byte_pos() == pos
                    &&& final(self).has_failed() == old(self).has_failed()
                },
            },
    {
        loop
            invariant
                self.wf(),
                self.rules == old(self).rules,
                self.has_failed() == old(self).has_failed(),
                old(self).has_failed() ==> *self == *old(self),
                old(self).byte_pos() <= self.byte_pos(),
                pull(
                    old(self).rules_seq(),
                    old(self).remaining(),
                    old(self).byte_pos(),
                    old(self).has_failed(),
                ) == pull(self.rules_seq(), self.remaining(), self.byte_pos(), self.has_failed()),
            decreases self.rest@.len(),
        {
            let ghost prev = *self;
            if self.failed || self.rest.is_empty() {
                return None;
            }
            let rules = self.rules;
            let n: usize = rules.len();
            let mut i: usize = 0;
            let mut found: Option<(&'i str, &'i str)> = None;
            while i < n && found.is_none()
                invariant
                    n == rules@.len(),
                    0 <= i <= n,
                    found is None ==> forall|j: int|
                        0 <= j < i ==> match_at(#[trigger] rules@[j].pat(), self.rest@) is None,
                    found matches Some((m, rest2)) ==> {
                        &&& i < n
                        &&& forall|j: int|
                            0 <= j < i ==> match_at(
                                #[trigger] rules@[j].pat(),
                                self.rest@,
                            ) is None
                        &&& match_at(rules@[i as int].pat(), self.rest@) == Some(m@)
                        &&& self.rest@ == m@ + rest2@
                        &&& self.rest.spec_bytes() == m.spec_bytes() + rest2.spec_bytes()
                    },
                decreases n - i + (if found is None { 1int } else { 0int }),
            {
                match rules[i].pattern.find_at_start(self.rest) {
                    Some(pair) => {
                        found = Some(pair);
                    },
                    None => {
                        i = i + 1;
                    },
                }
            }
            match found {
                None => {
                    proof {
                        lemma_first_match_idx(self.rules@, self.rest@);
                    }
                    let ch = self.rest.get_char(0);
                    self.failed = true;
                    return Some(Err(TokenizeError::UnexpectedChar { ch, position: self.pos }));
                },
                Some((m, rest2)) => {
                    proof {
                        lemma_first_match_idx_at(self.rules@, self.rest@, i as int);
                    }
                    if m.is_empty() {
                        let ch = self.rest.get_char(0);
                        self.failed = true;
                        return Some(
                            Err(TokenizeError::UnexpectedChar { ch, position: self.pos }),
                        );
                    }
                    proof {
                        assert(self.rest@.skip(m@.len() as int) =~= rest2@);
                        assert(m.spec_bytes().len() <= self.rest.spec_bytes().len());
                    }
                    let mlen: usize = m.len();
                    self.pos = self.pos + mlen;
                    self.rest = rest2;
                    match apply_action(&rules[i].action, m) {
                        Some(t) => {
                            return Some(Ok(t));
                        },
                        None => {
                            proof {
                                assert(pull(
                                    prev.rules_seq(),
                                    prev.remaining(),
                                    prev.byte_pos(),
                                    prev.has_failed(),
                                ) == pull(
                                    self.rules_seq(),
                                    self.remaining(),
                                    self.byte_pos(),
                                    self.has_failed(),
                                ));
                            }
                        },
                    }
                },
            }
        }
    }

    /// Pulls the stream dry: every token it still emits, in order, and the
    /// terminal error, if the scan stops at an unexpected character.  What
    /// comes back is exactly what [`scan`] says of the state before the
    /// call; a stream that had already failed yields nothing.
    pub fn collect_all(&mut self) -> (r: (Vec<T>, Option<TokenizeError>))
        requires
            old(self).wf(),
        ensures
            final(self).wf(),
            final(self).rules_seq() == old(self).rules_seq(),
            old(self).has_failed() ==> {
                &&& r.0@ == Seq::<T>::empty()
                &&& r.1 is None
                &&& *final(self) == *old(self)
            },
            !old(self).has_failed() ==> ({
                let (ts, end) = scan(
                    old(self).rules_seq(),
                    old(self).remaining(),
                    old(self).byte_pos(),
                );
                &&& cloned_seq(ts, r.0@)
                &&& match end {
                    ScanEnd::Done => {
                        &&& r.1 is None
                        &&& final(self).remaining().len() == 0
                        &&& !final(self).has_failed()
                    },
                    ScanEnd::Fail { ch, pos } => {
                        &&& r.1 == Some(
                            TokenizeError::UnexpectedChar { ch, position: pos as usize },
                        )
                        &&& final(self).has_failed()
                    },
                }
            }),
    {
        let mut out: Vec<T> = Vec::new();
        if self.failed {
            return (out, None);
        }
        let ghost start = *self;
        loop
            invariant
                self.wf(),
                !self.has_failed(),
                self.rules_seq() == start.rules_seq(),
                start == *old(self),
                !start.has_failed(),
                ({
                    let (ts, end) = scan(start.rules_seq(), start.remaining(), start.byte_pos());
                    let (tc, ec) = scan(self.rules_seq(), self.remaining(), self.byte_pos());
                    &&& out@.len() <= ts.len()
                    &&& cloned_seq(ts.take(out@.len() as int), out@)
                    &&& tc == ts.skip(out@.len() as int)
                    &&& ec == end
                }),
            decreases self.rest@.len(),
        {
            let ghost prev = *self;
            let ghost outprev = out@;
            let ghost ts = scan(start.rules_seq(), start.remaining(), start.byte_pos()).0;
            proof {
                lemma_pull_bounds(prev.rules_seq(), prev.remaining(), prev.byte_pos(), false);
            }
            match self.next() {
                None => {
                    return (out, None);
                },
                Some(Err(e)) => {
                    return (out, Some(e));
                },
                Some(Ok(t)) => {
                    out.push(t);
                    proof {
                        let k: int = outprev.len() as int;
                        let p = pull(prev.rules_seq(), prev.remaining(), prev.byte_pos(), false);
                        match p {
                            Pull::Item { token, rest: r2, pos: p2 } => {
                                let tprev = scan(
                                    prev.rules_seq(),
                                    prev.remaining(),
                                    prev.byte_pos(),
                                );
                                let tnew = scan(
                                    self.rules_seq(),
                                    self.remaining(),
                                    self.byte_pos(),
                                );
                                assert(self.rules_seq() == prev.rules_seq());
                                assert(self.remaining() == r2 && self.byte_pos() == p2);
                                assert(tprev.0 == seq![token] + tnew.0 && tprev.1 == tnew.1);
                                assert(ts.skip(k) == seq![token] + tnew.0);
                                assert(ts.skip(k).len() >= 1);
                                assert(ts.skip(k).drop_first() =~= ts.skip(k + 1));
                                assert((seq![token] + tnew.0).drop_first() =~= tnew.0);
                                assert(tnew.0 == ts.skip(k + 1));
                                assert(ts[k] == ts.skip(k)[0]);
                                assert(ts[k] == token);
                                assert(cloned::<T>(token, t));
                                assert(out@ == outprev.push(t));
                                assert forall|j: int| 0 <= j < k + 1 implies cloned::<T>(
                                    ts.take(k + 1)[j],
                                    #[trigger] out@[j],
                                ) by {
                                    if j < k {
                                        assert(cloned::<T>(ts.take(k)[j], outprev[j]));
                                        assert(ts.take(k + 1)[j] == ts.take(k)[j]);
                                        assert(out@[j] == outprev[j]);
                                    } else {
                                        assert(ts.take(k + 1)[j] == ts[k]);
                                        assert(out@[j] == t);
                                    }
                                }
                                assert(cloned_seq(ts.take(k + 1), out@));
                            },
                            _ => {
                                assert(false);
                            },
                        }
                    }
                },
            }
        }
    }
}

} // verus!
