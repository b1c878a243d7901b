//! The laws of the engine, stated over the specification functions that the
//! contracts of [`crate::lexer`] use and proved once and for all.

use crate::lexer::{
    action_result, byte_len, first_match_idx, lemma_byte_len_at_least_chars,
    lemma_first_match_idx, pull, scan, Action, Pull, Rule,
};
use crate::pattern::match_at;
use vstd::prelude::*;

verus! {

/// Priority order: when a rule added earlier matches, the rule the engine
/// applies comes no later, so a rule added after it is never the one
/// applied, whether or not its own pattern also matches.
pub proof fn lemma_priority_order<T, A: Action<T>>(
    rules: Seq<Rule<T, A>>,
    text: Seq<char>,
    i: int,
    j: int,
)
    requires
        0 <= i < j < rules.len(),
        match_at(rules[i].pat(), text) is Some,
    ensures
        first_match_idx(rules, text) matches Some(k) && k <= i,
        first_match_idx(rules, text) != Some(j),
{
    lemma_first_match_idx(rules, text);
}

/// Priority order at a pull: the action the pull applies is exactly that of
/// the first matching rule, on that rule's own match, and the cursor
/// advances by that match; the remaining rules are not consulted.  (When
/// the first match is empty the pull instead stops with the
/// unexpected-character error, as [`pull`] documents.)
pub proof fn lemma_pull_applies_first_match<T, A: Action<T>>(
    rules: Seq<Rule<T, A>>,
    rest: Seq<char>,
    pos: nat,
    i: int,
)
    requires
        rest.len() > 0,
        first_match_idx(rules, rest) == Some(i),
        ({
            let m = match_at(rules[i].pat(), rest)->Some_0;
            1 <= m.len() <= rest.len()
        }),
    ensures
        ({
            let m = match_at(rules[i].pat(), rest)->Some_0;
            pull(rules, rest, pos, false) == match action_result(rules[i].act(), m) {
                Some(t) => Pull::Item::<T> {
                    token: t,
                    rest: rest.skip(m.len() as int),
                    pos: pos + byte_len(m),
                },
                None => pull(rules, rest.skip(m.len() as int), pos + byte_len(m), false),
            }
        }),
{
}

/// Discard transparency: a discarded, non-empty match never surfaces in the
/// stream.  The pull and the whole scan from the position before the match
/// are exactly those from the position after it, and the cursor strictly
/// advances.
pub proof fn lemma_discard_transparent<T, A: Action<T>>(
    rules: Seq<Rule<T, A>>,
    rest: Seq<char>,
    pos: nat,
    i: int,
)
    requires
        rest.len() > 0,
        first_match_idx(rules, rest) == Some(i),
        ({
            let m = match_at(rules[i].pat(), rest)->Some_0;
            1 <= m.len() <= rest.len()
        }),
        action_result(rules[i].act(), match_at(rules[i].pat(), rest)->Some_0) is None,
    ensures
        ({
            let m = match_at(rules[i].pat(), rest)->Some_0;
            let rest2 = rest.skip(m.len() as int);
            let pos2 = pos + byte_len(m);
            &&& pull(rules, rest, pos, false) == pull(rules, rest2, pos2, false)
            &&& scan(rules, rest, pos) == scan(rules, rest2, pos2)
            &&& pos2 > pos
        }),
{
    let m = match_at(rules[i].pat(), rest)->Some_0;
    lemma_byte_len_at_least_chars(m);
}

/// The texts the first pull consumes, in order: the matches of the applied
/// rules, discarded or emitting, up to and including the first match that
/// emits a token.
pub open spec fn pull_matches<T, A: Action<T>>(rules: Seq<Rule<T, A>>, rest: Seq<char>) -> Seq<
    Seq<char>,
>
    decreases rest.len(),
{
    if rest.len() == 0 {
        Seq::empty()
    } else {
        match first_match_idx(rules, rest) {
            None => Seq::empty(),
            Some(i) => {
                let m = match_at(rules[i].pat(), rest)->Some_0;
                if 1 <= m.len() <= rest.len() {
                    match action_result(rules[i].act(), m) {
                        Some(t) => seq![m],
                        None => seq![m] + pull_matches(rules, rest.skip(m.len() as int)),
                    }
                } else {
                    Seq::empty()
                }
            },
        }
    }
}

/// The number of bytes that encode all the texts of `ms` together.
pub open spec fn total_byte_len(ms: Seq<Seq<char>>) -> nat
    decreases ms.len(),
{
    if ms.len() == 0 {
        0
    } else {
        byte_len(ms.first()) + total_byte_len(ms.drop_first())
    }
}

/// Monotonic cursor: after a pull the byte position is the position before
/// it plus the byte lengths of all the matches the pull consumed, so it
/// never decreases.
pub proof fn lemma_cursor_is_sum_of_matches<T, A: Action<T>>(
    rules: Seq<Rule<T, A>>,
    rest: Seq<char>,
    pos: nat,
)
    ensures
        match pull(rules, rest, pos, false) {
            Pull::Item { pos: p2, .. } => p2 == pos + total_byte_len(pull_matches(rules, rest)),
            Pull::Error { pos: p2, .. } => p2 == pos + total_byte_len(pull_matches(rules, rest)),
            Pull::End { pos: p2, .. } => p2 == pos + total_byte_len(pull_matches(rules, rest)),
        },
    decreases rest.len(),
{
    if rest.len() > 0 {
        match first_match_idx(rules, rest) {
            None => {
                assert(total_byte_len(Seq::<Seq<char>>::empty()) == 0);
            },
            Some(i) => {
                let m = match_at(rules[i].pat(), rest)->Some_0;
                if 1 <= m.len() <= rest.len() {
                    match action_result(rules[i].act(), m) {
                        Some(t) => {
                            assert(seq![m].first() == m);
                            assert(seq![m].drop_first() =~= Seq::<Seq<char>>::empty());
                            assert(total_byte_len(Seq::<Seq<char>>::empty()) == 0);
                            assert(total_byte_len(seq![m]) == byte_len(m));
                        },
                        None => {
                            let tail = pull_matches(rules, rest.skip(m.len() as int));
                            lemma_cursor_is_sum_of_matches(
                                rules,
                                rest.skip(m.len() as int),
                                pos + byte_len(m),
                            );
                            assert((seq![m] + tail).first() == m);
                            assert((seq![m] + tail).drop_first() =~= tail);
                        },
                    }
                }
            },
        }
    }
}

/// Sticky failure: a pull of a failed stream yields nothing and leaves the
/// cursor where it is, whatever the rules and the remaining input.
pub proof fn lemma_sticky_failure<T, A: Action<T>>(
    rules: Seq<Rule<T, A>>,
    rest: Seq<char>,
    pos: nat,
)
    ensures
        pull(rules, rest, pos, true) == (Pull::End::<T> { rest, pos }),
{
}

} // verus!
