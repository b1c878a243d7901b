use reflex::{Action, Lexer, NoAction, TokenizeError};

#[derive(Clone, PartialEq, Debug)]
enum Tok {
    Number(i64),
    Add,
}

struct ParseNumber;

impl Action<Tok> for ParseNumber {
    fn apply(&self, matched: &str) -> Option<Tok> {
        Some(Tok::Number(matched.parse().unwrap()))
    }
}

fn number_lexer() -> Lexer<Tok, ParseNumber> {
    let mut lexer = Lexer::new();
    lexer.rule(r"-?[0-9]*\.?[0-9]+", ParseNumber).unwrap();
    lexer.rule_simple(r"\+", Tok::Add).unwrap();
    lexer.rule_noop(r"\s+").unwrap();
    lexer
}

#[test]
fn number_add_whitespace() {
    let lexer = number_lexer();
    let mut stream = lexer.tokenize("3 + 4");
    assert_eq!(stream.next().unwrap().unwrap(), Tok::Number(3));
    assert_eq!(stream.next().unwrap().unwrap(), Tok::Add);
    assert_eq!(stream.next().unwrap().unwrap(), Tok::Number(4));
    assert!(stream.next().is_none());
}

#[test]
fn collect_all_number_add_whitespace() {
    let lexer = number_lexer();
    let mut stream = lexer.tokenize("3 + 4");
    let (tokens, err) = stream.collect_all();
    assert_eq!(tokens, vec![Tok::Number(3), Tok::Add, Tok::Number(4)]);
    assert!(err.is_none());
}

#[test]
fn collect_all_stops_at_error() {
    let lexer = number_lexer();
    let mut stream = lexer.tokenize("3 + ?");
    let (tokens, err) = stream.collect_all();
    assert_eq!(tokens, vec![Tok::Number(3), Tok::Add]);
    assert_eq!(err, Some(TokenizeError::UnexpectedChar { ch: '?', position: 4 }));
    // the stream stays exhausted afterwards
    assert!(stream.next().is_none());
}

#[test]
fn position_is_monotonic() {
    let lexer = number_lexer();
    let mut stream = lexer.tokenize("3 + 4");
    let mut last = stream.position();
    assert_eq!(last, 0);
    while let Some(item) = stream.next() {
        assert!(item.is_ok());
        let here = stream.position();
        assert!(here >= last);
        last = here;
    }
    // everything was consumed: the position is the input's byte length
    assert_eq!(last, "3 + 4".len());
}

#[derive(Clone, PartialEq, Debug)]
enum WordTok {
    Word(String),
}

struct KeepWord;

impl Action<WordTok> for KeepWord {
    fn apply(&self, matched: &str) -> Option<WordTok> {
        Some(WordTok::Word(matched.to_string()))
    }
}

#[test]
fn word_then_unexpected_char() {
    let mut lexer = Lexer::new();
    lexer.rule(r"[a-z]+", KeepWord).unwrap();
    let mut stream = lexer.tokenize("ab1");
    assert_eq!(stream.next().unwrap().unwrap(), WordTok::Word("ab".to_string()));
    let err = stream.next().unwrap().unwrap_err();
    assert_eq!(err, TokenizeError::UnexpectedChar { ch: '1', position: 2 });
    // sticky failure: no further items, not even further errors
    assert!(stream.next().is_none());
    assert!(stream.next().is_none());
}

#[test]
fn first_registered_rule_wins() {
    // both rules match "a"; the first one, which emits, was added first
    let mut lexer: Lexer<&'static str, NoAction> = Lexer::new();
    lexer.rule_simple("a", "A").unwrap();
    lexer.rule_noop("a").unwrap();
    let mut stream = lexer.tokenize("a");
    assert_eq!(stream.next().unwrap().unwrap(), "A");
    assert!(stream.next().is_none());
}

#[test]
fn empty_rule_set_fails_at_once() {
    let lexer: Lexer<i64, NoAction> = Lexer::new();
    let mut stream = lexer.tokenize("x");
    let err = stream.next().unwrap().unwrap_err();
    assert_eq!(err, TokenizeError::UnexpectedChar { ch: 'x', position: 0 });
    assert!(stream.next().is_none());
}

#[test]
fn empty_input_ends_at_once() {
    let lexer = number_lexer();
    let mut stream = lexer.tokenize("");
    assert!(stream.next().is_none());
    assert!(stream.next().is_none());
}

#[test]
fn invalid_pattern_is_rejected_and_nothing_is_added() {
    let mut lexer: Lexer<i64, NoAction> = Lexer::new();
    let err = lexer.rule_simple("(", 1).unwrap_err();
    assert_eq!(err.pattern, "(");
    // the rule set is unchanged: a scan still knows no rule at all
    let mut stream = lexer.tokenize("(");
    let err = stream.next().unwrap().unwrap_err();
    assert_eq!(err, TokenizeError::UnexpectedChar { ch: '(', position: 0 });
}

#[test]
fn unbalanced_group_cannot_escape_the_anchor() {
    // "a)|(b" is not a valid pattern on its own, though "^(?:a)|(b)" would
    // compile: accepting it would let the ")" close the anchoring group and
    // leave "(b" matching anywhere.  Registration must reject it.
    let mut lexer: Lexer<i64, NoAction> = Lexer::new();
    let err = lexer.rule_simple("a)|(b", 1).unwrap_err();
    assert_eq!(err.pattern, "a)|(b");
    let mut stream = lexer.tokenize("xb");
    let err = stream.next().unwrap().unwrap_err();
    assert_eq!(err, TokenizeError::UnexpectedChar { ch: 'x', position: 0 });
}

#[test]
fn patterns_only_match_at_the_start() {
    // "b+" matches inside "abb", but not at the start: no scanning ahead
    let mut lexer: Lexer<i64, NoAction> = Lexer::new();
    lexer.rule_simple("b+", 1).unwrap();
    let mut stream = lexer.tokenize("abb");
    let err = stream.next().unwrap().unwrap_err();
    assert_eq!(err, TokenizeError::UnexpectedChar { ch: 'a', position: 0 });
}

#[test]
fn alternation_stays_anchored() {
    // the anchor covers the whole alternation, so "b" alone cannot match
    // in the middle of the input
    let mut lexer: Lexer<i64, NoAction> = Lexer::new();
    lexer.rule_simple("a|b", 1).unwrap();
    let mut stream = lexer.tokenize("xb");
    let err = stream.next().unwrap().unwrap_err();
    assert_eq!(err, TokenizeError::UnexpectedChar { ch: 'x', position: 0 });
}

#[test]
fn empty_match_cannot_advance_and_fails() {
    // "a*" matches the empty text at "b": the cursor cannot advance, and
    // the scan stops with the unexpected character instead of stalling
    let mut lexer: Lexer<i64, NoAction> = Lexer::new();
    lexer.rule_simple("a*", 1).unwrap();
    let mut stream = lexer.tokenize("b");
    let err = stream.next().unwrap().unwrap_err();
    assert_eq!(err, TokenizeError::UnexpectedChar { ch: 'b', position: 0 });
    assert!(stream.next().is_none());
}

struct KeepLongWord;

impl Action<WordTok> for KeepLongWord {
    fn apply(&self, matched: &str) -> Option<WordTok> {
        if matched.len() > 1 {
            Some(WordTok::Word(matched.to_string()))
        } else {
            None
        }
    }
}

#[test]
fn rule_option_can_suppress_by_content() {
    let mut lexer = Lexer::new();
    lexer.rule_option(r"[a-z]+", KeepLongWord).unwrap();
    lexer.rule_noop(r"\s+").unwrap();
    let mut stream = lexer.tokenize("a bb c dd");
    assert_eq!(stream.next().unwrap().unwrap(), WordTok::Word("bb".to_string()));
    assert_eq!(stream.next().unwrap().unwrap(), WordTok::Word("dd".to_string()));
    assert!(stream.next().is_none());
}

#[test]
fn one_rule_set_drives_independent_scans() {
    let lexer = number_lexer();
    let mut first = lexer.tokenize("1 + 2");
    let mut second = lexer.tokenize("7");
    assert_eq!(first.next().unwrap().unwrap(), Tok::Number(1));
    assert_eq!(second.next().unwrap().unwrap(), Tok::Number(7));
    assert_eq!(first.next().unwrap().unwrap(), Tok::Add);
    assert!(second.next().is_none());
    assert_eq!(first.next().unwrap().unwrap(), Tok::Number(2));
    assert!(first.next().is_none());
}

#[test]
fn add_start_flag_anchors_and_groups() {
    assert_eq!(reflex::add_start_flag("a|b"), "^(?:a|b)");
}

#[test]
fn multibyte_positions_are_byte_offsets() {
    // a two-byte character before the offending one: positions count bytes
    let mut lexer = Lexer::new();
    lexer.rule(r"[\p{L}]+", KeepWord).unwrap();
    lexer.rule_noop(r" ").unwrap();
    let mut stream = lexer.tokenize("é !");
    assert_eq!(stream.next().unwrap().unwrap(), WordTok::Word("é".to_string()));
    let err = stream.next().unwrap().unwrap_err();
    assert_eq!(err, TokenizeError::UnexpectedChar { ch: '!', position: 3 });
}
