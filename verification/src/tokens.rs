//! Splitting a file stem into tokens, and the contexts in which a number token stands.

use vstd::prelude::*;
use crate::text::{
    all_ascii_digits, digits_value, is_ascii_digit_spec, lowercase_text, char_is_alphabetic,
    char_is_whitespace, is_ascii_digit, is_alphabetic, is_whitespace, eq_lit, lower_chars,
    parse_digits_u32, to_vec,
};

verus! {

/// The kind of a character run.
#[derive(Debug, Clone, Copy, PartialEq, Eq, Structural)]
pub enum TokenKind {
    Alpha,
    Number,
    Separator,
    Other,
}

/// The value of a number token and the number of its digits.
#[derive(Debug, Clone, Copy, PartialEq, Eq, Structural)]
pub struct NumberToken {
    pub value: u32,
    pub width: usize,
}

/// A maximal run of characters of one kind.
#[derive(Debug, Clone)]
pub struct Token {
    pub text: Vec<char>,
    pub lower: Vec<char>,
    pub kind: TokenKind,
    pub number: Option<NumberToken>,
}

/// What a token holds, as mathematical values.
pub struct TokenV {
    pub text: Seq<char>,
    pub lower: Seq<char>,
    pub kind: TokenKind,
    pub number: Option<NumberToken>,
}

impl View for Token {
    type V = TokenV;

    open spec fn view(&self) -> TokenV {
        TokenV { text: self.text@, lower: self.lower@, kind: self.kind, number: self.number }
    }
}

/// The views of a token sequence.
pub open spec fn token_seq_view(ts: Seq<Token>) -> Seq<TokenV> {
    Seq::new(ts.len(), |i: int| ts[i]@)
}

/// Whether `c` separates tokens.
pub open spec fn is_separator_char(c: char) -> bool {
    char_is_whitespace(c) || c == '.' || c == '-' || c == '_' || c == '[' || c == ']' || c == '('
        || c == ')' || c == '【' || c == '】' || c == '「' || c == '」'
}

/// The kind of one character.
pub open spec fn char_kind(c: char) -> TokenKind {
    if is_ascii_digit_spec(c) {
        TokenKind::Number
    } else if char_is_alphabetic(c) || c == '第' || c == '话' || c == '話' {
        TokenKind::Alpha
    } else if is_separator_char(c) {
        TokenKind::Separator
    } else {
        TokenKind::Other
    }
}

/// The maximal runs of characters of one kind, in order.
pub open spec fn runs(s: Seq<char>) -> Seq<Seq<char>>
    decreases s.len(),
{
    if s.len() == 0 {
        Seq::empty()
    } else {
        let r = runs(s.drop_last());
        let c = s.last();
        if r.len() > 0 && r.last().len() > 0 && char_kind(r.last().last()) == char_kind(c) {
            r.update(r.len() - 1, r.last().push(c))
        } else {
            r.push(seq![c])
        }
    }
}

/// The number a run stands for, when it is a run of digits whose value fits in 32 bits.
pub open spec fn number_of(run: Seq<char>, kind: TokenKind) -> Option<NumberToken> {
    if kind == TokenKind::Number && digits_value(run) <= 0xffff_ffff {
        Some(NumberToken { value: digits_value(run) as u32, width: run.len() as usize })
    } else {
        None
    }
}

/// The token built from one run.
pub open spec fn token_of_run(t: Token, run: Seq<char>) -> bool {
    &&& run.len() > 0
    &&& t.text@ == run
    &&& t.lower@ == lowercase_text(run)
    &&& t.kind == char_kind(run.last())
    &&& t.number == number_of(run, t.kind)
}

/// The token made of one run.
pub open spec fn token_view_of_run(run: Seq<char>) -> TokenV {
    let kind = char_kind(run.last());
    TokenV { text: run, lower: lowercase_text(run), kind, number: number_of(run, kind) }
}

/// The tokens of a text: one per maximal run of characters of one kind.
pub open spec fn token_views(s: Seq<char>) -> Seq<TokenV> {
    Seq::new(runs(s).len(), |i: int| token_view_of_run(runs(s)[i]))
}

/// Whether `ts` are the tokens of `s`.
pub open spec fn tokens_of(ts: Seq<Token>, s: Seq<char>) -> bool {
    token_seq_view(ts) == token_views(s)
}

/// Every run is non-empty and all of its characters have one kind.
pub open spec fn runs_uniform(r: Seq<Seq<char>>) -> bool {
    forall|i: int| 0 <= i < r.len() ==> {
        &&& (#[trigger] r[i]).len() > 0
        &&& forall|j: int| 0 <= j < r[i].len() ==> char_kind(#[trigger] r[i][j]) == char_kind(r[i].last())
    }
}

pub proof fn lemma_runs_uniform(s: Seq<char>)
    ensures
        runs_uniform(runs(s)),
    decreases s.len(),
{
    if s.len() > 0 {
        lemma_runs_uniform(s.drop_last());
        let r = runs(s.drop_last());
        let c = s.last();
        if r.len() > 0 && r.last().len() > 0 && char_kind(r.last().last()) == char_kind(c) {
            let nr = r.update(r.len() - 1, r.last().push(c));
            assert forall|i: int| 0 <= i < nr.len() implies {
                &&& (#[trigger] nr[i]).len() > 0
                &&& forall|j: int| 0 <= j < nr[i].len() ==> char_kind(#[trigger] nr[i][j]) == char_kind(nr[i].last())
            } by {
                if i == r.len() - 1 {
                    assert forall|j: int| 0 <= j < nr[i].len() implies char_kind(#[trigger] nr[i][j]) == char_kind(nr[i].last()) by {
                        if j < r.last().len() {
                            assert(nr[i][j] == r.last()[j]);
                        }
                    }
                }
            }
        } else {
            let nr = r.push(seq![c]);
            assert forall|i: int| 0 <= i < nr.len() implies {
                &&& (#[trigger] nr[i]).len() > 0
                &&& forall|j: int| 0 <= j < nr[i].len() ==> char_kind(#[trigger] nr[i][j]) == char_kind(nr[i].last())
            } by {
                if i < r.len() {
                    assert(nr[i] == r[i]);
                }
            }
        }
    }
}

pub fn classify_char(c: char) -> (r: TokenKind)
    ensures
        r == char_kind(c),
{
    if is_ascii_digit(c) {
        TokenKind::Number
    } else if is_alphabetic(c) || c == '第' || c == '话' || c == '話' {
        TokenKind::Alpha
    } else if is_whitespace(c) || c == '.' || c == '-' || c == '_' || c == '[' || c == ']'
        || c == '(' || c == ')' || c == '【' || c == '】' || c == '「' || c == '」' {
        TokenKind::Separator
    } else {
        TokenKind::Other
    }
}

/// Builds the token of one run.
pub fn build_token(text: &[char], kind: TokenKind) -> (r: Token)
    requires
        text@.len() > 0,
        kind == char_kind(text@.last()),
        kind == TokenKind::Number ==> all_ascii_digits(text@),
    ensures
        token_of_run(r, text@),
{
    let number = if kind == TokenKind::Number {
        match parse_digits_u32(text) {
            Some(value) => Some(NumberToken { value, width: text.len() }),
            None => None,
        }
    } else {
        None
    };
    Token { text: to_vec(text), lower: lower_chars(text), kind, number }
}

/// Splits a text into maximal runs of characters of one kind.
pub fn tokenize_text(text: &[char]) -> (r: Vec<Token>)
    ensures
        tokens_of(r@, text@),
{
    let mut tokens: Vec<Token> = Vec::new();
    let mut buffer: Vec<char> = Vec::new();
    let mut current: Option<TokenKind> = None;
    let mut i: usize = 0;
    while i < text.len()
        invariant
            i <= text@.len(),
            i == 0 ==> buffer@.len() == 0 && current is None && tokens@.len() == 0,
            i > 0 ==> {
                let r = runs(text@.subrange(0, i as int));
                &&& buffer@.len() > 0
                &&& current == Some(char_kind(buffer@.last()))
                &&& r.len() == tokens@.len() + 1
                &&& buffer@ == r.last()
                &&& forall|j: int| 0 <= j < tokens@.len() ==> token_of_run(#[trigger] tokens@[j], r[j])
                &&& runs_uniform(r)
            },
        decreases text@.len() - i,
    {
        let c = text[i];
        let kind = classify_char(c);
        let ghost prefix = text@.subrange(0, i as int);
        let ghost next_prefix = text@.subrange(0, i + 1);
        let ghost old_tokens = tokens@;
        proof {
            assert(next_prefix.drop_last() =~= prefix);
            lemma_runs_uniform(next_prefix);
        }
        let flush = match current {
            Some(existing) => existing != kind && buffer.len() > 0,
            None => false,
        };
        if flush {
            let kind_of_buffer = match current {
                Some(k) => k,
                None => TokenKind::Other,
            };
            proof {
                let r = runs(prefix);
                assert(runs_uniform(r));
                assert(r[r.len() - 1] == r.last());
                if kind_of_buffer == TokenKind::Number {
                    assert forall|j: int| 0 <= j < buffer@.len() implies is_ascii_digit_spec(#[trigger] buffer@[j]) by {
                        assert(char_kind(r[r.len() - 1][j]) == char_kind(r[r.len() - 1].last()));
                    }
                }
            }
            let t = build_token(buffer.as_slice(), kind_of_buffer);
            tokens.push(t);
            buffer = Vec::new();
        }
        buffer.push(c);
        current = Some(kind);
        proof {
            let r = runs(prefix);
            let nr = runs(next_prefix);
            if i == 0 {
                assert(prefix.len() == 0);
                assert(nr =~= seq![seq![c]]);
                assert(buffer@ =~= seq![c]);
            } else if flush {
                assert(nr =~= r.push(seq![c]));
                assert(buffer@ =~= seq![c]);
                assert forall|j: int| 0 <= j < tokens@.len() implies token_of_run(#[trigger] tokens@[j], nr[j]) by {
                    if j < tokens@.len() - 1 {
                        assert(tokens@[j] == old_tokens[j]);
                    }
                }
            } else {
                assert(nr =~= r.update(r.len() - 1, r.last().push(c)));
                assert forall|j: int| 0 <= j < tokens@.len() implies token_of_run(#[trigger] tokens@[j], nr[j]) by {
                    assert(nr[j] == r[j]);
                }
            }
        }
        i += 1;
    }
    assert(text@.subrange(0, text@.len() as int) =~= text@);
    match current {
        Some(kind) => {
            if buffer.len() > 0 {
                proof {
                    let r = runs(text@);
                    assert(r[r.len() - 1] == r.last());
                    if kind == TokenKind::Number {
                        assert forall|j: int| 0 <= j < buffer@.len() implies is_ascii_digit_spec(#[trigger] buffer@[j]) by {
                            assert(char_kind(r[r.len() - 1][j]) == char_kind(r[r.len() - 1].last()));
                        }
                    }
                }
                let t = build_token(buffer.as_slice(), kind);
                tokens.push(t);
            }
        },
        None => {},
    }
    proof {
        let r = runs(text@);
        assert forall|j: int| 0 <= j < tokens@.len() implies token_of_run(#[trigger] tokens@[j], r[j]) by {}
        assert(token_seq_view(tokens@) =~= token_views(text@)) by {
            assert forall|j: int| 0 <= j < tokens@.len() implies #[trigger] token_seq_view(tokens@)[j] == token_views(text@)[j] by {
                assert(token_of_run(tokens@[j], r[j]));
            }
        }
    }
    tokens
}

} // verus!
