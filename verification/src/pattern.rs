//! Glob-like patterns over names whose parts a separator divides.

use crate::text::{chars_of, starts_with_at};
use vstd::prelude::*;

verus! {

/// One token of a pattern, as a mathematical value.
pub ghost enum TokenModel {
    /// These characters, as they stand.
    Exact(Seq<char>),
    /// `*`: any characters up to the next separator.
    OneWildcard,
    /// `**`: any characters.
    ManyWildcard,
    /// `?`: any one character.
    AnyChar,
}

/// A pattern as a mathematical value.
pub ghost struct PatternModel {
    pub separator: Option<char>,
    pub tokens: Seq<TokenModel>,
}

/// One token of a pattern.
#[derive(Debug, Clone, PartialEq, Eq)]
pub enum PatternToken {
    Exact(String),
    OneWildcard,
    ManyWildcard,
    AnyChar,
}

/// A pattern: `*` stands for any characters within one part of a name, `**`
/// for any characters, `?` for any one character.
#[derive(Debug, Clone, PartialEq, Eq)]
pub struct Pattern {
    pub separator: Option<char>,
    pub tokens: Vec<PatternToken>,
}

impl View for PatternToken {
    type V = TokenModel;

    open spec fn view(&self) -> TokenModel {
        match self {
            PatternToken::Exact(s) => TokenModel::Exact(s@),
            PatternToken::OneWildcard => TokenModel::OneWildcard,
            PatternToken::ManyWildcard => TokenModel::ManyWildcard,
            PatternToken::AnyChar => TokenModel::AnyChar,
        }
    }
}

impl View for Pattern {
    type V = PatternModel;

    open spec fn view(&self) -> PatternModel {
        PatternModel { separator: self.separator, tokens: token_models(self.tokens@) }
    }
}

/// The values of a sequence of tokens, in order.
pub open spec fn token_models(tokens: Seq<PatternToken>) -> Seq<TokenModel> {
    Seq::new(tokens.len(), |i: int| tokens[i]@)
}

/// The tokens of a pattern text after one more character of it.
pub open spec fn tokens_with(tokens: Seq<TokenModel>, ch: char) -> Seq<TokenModel> {
    if ch == '*' {
        if tokens.len() > 0 && tokens.last() == TokenModel::OneWildcard {
            tokens.drop_last().push(TokenModel::ManyWildcard)
        } else {
            tokens.push(TokenModel::OneWildcard)
        }
    } else if ch == '?' {
        tokens.push(TokenModel::AnyChar)
    } else {
        if tokens.len() > 0 && tokens.last() is Exact {
            tokens.drop_last().push(TokenModel::Exact(tokens.last()->Exact_0.push(ch)))
        } else {
            tokens.push(TokenModel::Exact(seq![ch]))
        }
    }
}

/// The tokens of a pattern text: a `*` directly behind a single `*` makes
/// `**` of it, `?` is a token of its own, and every other character joins the
/// run of exact characters that it continues, or begins one.
pub open spec fn tokenize(pattern: Seq<char>) -> Seq<TokenModel>
    decreases pattern.len(),
{
    if pattern.len() == 0 {
        Seq::empty()
    } else {
        tokens_with(tokenize(pattern.drop_last()), pattern.last())
    }
}

/// How the matcher stands between two tokens.
#[derive(Clone, Copy)]
pub enum MatchState {
    /// The next token must match where the text stands.
    Precise,
    /// A wildcard came before: the next token may match further on, but not
    /// beyond a separator where `stop_at_separator` holds.
    ScanAhead { stop_at_separator: bool },
}

/// Whether `text` matches `tokens`, with the matcher in `state`.
///
/// The matcher never goes back: an exact token behind a wildcard is matched
/// at the first place where it occurs; and where a `*` meets the separator,
/// the separator is passed over and the token must match directly behind it.
pub open spec fn matches_from(
    tokens: Seq<TokenModel>,
    separator: Option<char>,
    text: Seq<char>,
    state: MatchState,
) -> bool
    decreases tokens.len(), text.len(),
{
    if tokens.len() == 0 {
        text.len() == 0 || match state {
            MatchState::Precise => false,
            MatchState::ScanAhead { stop_at_separator: true } => separator matches Some(sep)
                ==> !text.contains(sep),
            MatchState::ScanAhead { stop_at_separator: false } => true,
        }
    } else {
        match tokens[0] {
            TokenModel::Exact(s) => {
                if s.is_prefix_of(text) {
                    matches_from(
                        tokens.skip(1),
                        separator,
                        text.skip(s.len() as int),
                        MatchState::Precise,
                    )
                } else {
                    match state {
                        MatchState::Precise => false,
                        MatchState::ScanAhead { stop_at_separator } => {
                            if text.len() == 0 {
                                false
                            } else if stop_at_separator && separator == Some(text[0]) {
                                matches_from(tokens, separator, text.skip(1), MatchState::Precise)
                            } else {
                                matches_from(tokens, separator, text.skip(1), state)
                            }
                        },
                    }
                }
            },
            TokenModel::OneWildcard => matches_from(
                tokens.skip(1),
                separator,
                text,
                MatchState::ScanAhead { stop_at_separator: true },
            ),
            TokenModel::ManyWildcard => matches_from(
                tokens.skip(1),
                separator,
                text,
                MatchState::ScanAhead { stop_at_separator: false },
            ),
            TokenModel::AnyChar => text.len() > 0 && matches_from(
                tokens.skip(1),
                separator,
                text.skip(1),
                state,
            ),
        }
    }
}

impl PatternModel {
    /// Whether `text` matches the pattern.
    pub open spec fn matches(self, text: Seq<char>) -> bool {
        matches_from(self.tokens, self.separator, text, MatchState::Precise)
    }
}

/// The tokens read so far, with the run of exact characters that is still
/// open, if one is.
spec fn with_open_run(tokens: Seq<TokenModel>, open: bool, run: Seq<char>) -> Seq<TokenModel> {
    if open {
        tokens.push(TokenModel::Exact(run))
    } else {
        tokens
    }
}

/// Whether a sequence of tokens ends in an exact token.
spec fn ends_in_exact(tokens: Seq<PatternToken>) -> bool {
    tokens.len() > 0 && tokens.last() is Exact
}

/// Whether `text` holds `c` at or behind position `pos`.
fn contains_from(text: &Vec<char>, pos: usize, c: char) -> (found: bool)
    requires
        pos <= text.len(),
    ensures
        found == text@.skip(pos as int).contains(c),
{
    let mut i: usize = pos;
    while i < text.len()
        invariant
            pos <= i <= text.len(),
            forall|j: int| pos <= j < i ==> text[j] != c,
        decreases text.len() - i,
    {
        if text[i] == c {
            assert(text@.skip(pos as int)[i - pos] == c);
            return true;
        }
        i += 1;
    }
    false
}

impl Pattern {
    /// Reads a pattern from its text.
    pub fn new(pattern: &str, separator: Option<char>) -> (p: Pattern)
        ensures
            p@ == (PatternModel { separator, tokens: tokenize(pattern@) }),
    {
        let chars = chars_of(pattern);
        let mut tokens: Vec<PatternToken> = Vec::new();
        let mut open = false;
        let mut run_start: usize = 0;
        let mut i: usize = 0;
        assert(chars@.take(0) =~= Seq::<char>::empty());
        assert(token_models(tokens@) =~= Seq::<TokenModel>::empty());
        while i < chars.len()
            invariant
                i <= chars.len(),
                chars@ == pattern@,
                run_start <= i,
                !open ==> !ends_in_exact(tokens@),
                tokenize(chars@.take(i as int)) == with_open_run(
                    token_models(tokens@),
                    open,
                    chars@.subrange(run_start as int, i as int),
                ),
            decreases chars.len() - i,
        {
            let c = chars[i];
            let ghost before = token_models(tokens@);
            let ghost run = chars@.subrange(run_start as int, i as int);
            proof {
                assert(chars@.take(i + 1).drop_last() =~= chars@.take(i as int));
                assert(chars@.take(i + 1).last() == c);
                assert(!open ==> !(before.len() > 0 && before.last() is Exact)) by {
                    if before.len() > 0 {
                        assert(before.last() == tokens@.last()@);
                    }
                }
            }
            if c == '*' || c == '?' {
                if open {
                    tokens.push(
                        PatternToken::Exact(String::from_str(pattern.substring_char(run_start, i))),
                    );
                    open = false;
                    assert(token_models(tokens@) =~= before.push(TokenModel::Exact(run)));
                }
                let ghost flushed = token_models(tokens@);
                let n = tokens.len();
                if c == '?' {
                    tokens.push(PatternToken::AnyChar);
                    assert(token_models(tokens@) =~= flushed.push(TokenModel::AnyChar));
                } else if n > 0 && matches!(tokens[n - 1], PatternToken::OneWildcard) {
                    assert(flushed.last() == tokens@.last()@);
                    tokens.pop();
                    tokens.push(PatternToken::ManyWildcard);
                    assert(token_models(tokens@) =~= flushed.drop_last().push(
                        TokenModel::ManyWildcard,
                    ));
                } else {
                    assert(n > 0 ==> flushed.last() == tokens@.last()@);
                    tokens.push(PatternToken::OneWildcard);
                    assert(token_models(tokens@) =~= flushed.push(TokenModel::OneWildcard));
                }
            } else {
                if !open {
                    run_start = i;
                    open = true;
                    assert(chars@.subrange(i as int, i + 1) =~= seq![c]);
                } else {
                    assert(chars@.subrange(run_start as int, i + 1) =~= run.push(c));
                    assert(before.push(TokenModel::Exact(run)).drop_last() =~= before);
                }
            }
            i += 1;
        }
        assert(chars@.take(i as int) =~= chars@);
        if open {
            let ghost before = token_models(tokens@);
            tokens.push(
                PatternToken::Exact(String::from_str(pattern.substring_char(run_start, i))),
            );
            assert(token_models(tokens@) =~= before.push(
                TokenModel::Exact(chars@.subrange(run_start as int, i as int)),
            ));
        }
        Pattern { separator, tokens }
    }

    /// The characters of each exact token, and no characters for the others.
    fn literals(&self) -> (chars: Vec<Vec<char>>)
        ensures
            chars.len() == self.tokens.len(),
            forall|i: int|
                0 <= i < chars.len() ==> (#[trigger] self.tokens[i] matches PatternToken::Exact(s)
                    ==> chars[i]@ == s@),
    {
        let mut chars: Vec<Vec<char>> = Vec::new();
        let mut i: usize = 0;
        while i < self.tokens.len()
            invariant
                i <= self.tokens.len(),
                chars.len() == i,
                forall|j: int|
                    0 <= j < i ==> (#[trigger] self.tokens[j] matches PatternToken::Exact(s)
                        ==> chars[j]@ == s@),
            decreases self.tokens.len() - i,
        {
            match &self.tokens[i] {
                PatternToken::Exact(s) => chars.push(chars_of(s.as_str())),
                _ => chars.push(Vec::new()),
            }
            i += 1;
        }
        chars
    }

    /// Whether `string` matches the pattern.
    pub fn is_match(&self, string: &str) -> (matched: bool)
        ensures
            matched == self@.matches(string@),
    {
        let text = chars_of(string);
        let literals = self.literals();
        let mut state = MatchState::Precise;
        let mut at: usize = 0;
        let mut pos: usize = 0;
        let ghost tokens = token_models(self.tokens@);
        assert(tokens.skip(0) =~= tokens);
        assert(text@.skip(0) =~= text@);
        while at < self.tokens.len()
            invariant
                at <= self.tokens.len(),
                pos <= text.len(),
                text@ == string@,
                tokens == token_models(self.tokens@),
                literals.len() == self.tokens.len(),
                forall|i: int|
                    0 <= i < literals.len() ==> (#[trigger] self.tokens[i] matches PatternToken::Exact(
                        s,
                    ) ==> literals[i]@ == s@),
                self@.matches(string@) == matches_from(
                    tokens.skip(at as int),
                    self.separator,
                    text@.skip(pos as int),
                    state,
                ),
            decreases self.tokens.len() - at, text.len() - pos,
        {
            let ghost rest = text@.skip(pos as int);
            proof {
                assert(tokens.skip(at as int)[0] == self.tokens[at as int]@);
                assert(tokens.skip(at as int).skip(1) =~= tokens.skip(at + 1));
                assert(pos < text.len() ==> rest.skip(1) =~= text@.skip(pos + 1));
                assert(pos < text.len() ==> rest[0] == text[pos as int]);
            }
            match &self.tokens[at] {
                PatternToken::Exact(_) => {
                    let needle = &literals[at];
                    if starts_with_at(&text, pos, needle) {
                        assert(rest.skip(needle.len() as int) =~= text@.skip(pos + needle.len()));
                        at += 1;
                        pos += needle.len();
                        state = MatchState::Precise;
                    } else {
                        match state {
                            MatchState::Precise => {
                                return false;
                            },
                            MatchState::ScanAhead { stop_at_separator } => {
                                if pos == text.len() {
                                    return false;
                                }
                                let here = text[pos];
                                let at_separator = match self.separator {
                                    Some(sep) => sep == here,
                                    None => false,
                                };
                                if stop_at_separator && at_separator {
                                    state = MatchState::Precise;
                                }
                                pos += 1;
                            },
                        }
                    }
                },
                PatternToken::OneWildcard => {
                    state = MatchState::ScanAhead { stop_at_separator: true };
                    at += 1;
                },
                PatternToken::ManyWildcard => {
                    state = MatchState::ScanAhead { stop_at_separator: false };
                    at += 1;
                },
                PatternToken::AnyChar => {
                    if pos == text.len() {
                        return false;
                    }
                    pos += 1;
                    at += 1;
                },
            }
        }
        if pos == text.len() {
            return true;
        }
        match state {
            MatchState::Precise => false,
            MatchState::ScanAhead { stop_at_separator } => {
                if stop_at_separator {
                    match self.separator {
                        Some(sep) => !contains_from(&text, pos, sep),
                        None => true,
                    }
                } else {
                    true
                }
            },
        }
    }
}

} // verus!
