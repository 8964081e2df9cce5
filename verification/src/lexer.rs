//! The lexer: a character-classification state machine over the source text.
//!
//! The model `spec_lex` walks the source one character position at a time,
//! carrying the machine's state, the start offset of the token being
//! accumulated, and the tokens emitted so far; `spec_tokenize` runs it from
//! the initial state. The executable `Lexer` is proved to return exactly what
//! the model prescribes: a token sequence always terminated by the EOF
//! sentinel, or the first fatal lexing error.

use vstd::prelude::*;

use crate::errors::LexError;
use crate::numbers::is_digit_char;
use crate::token::{is_operator_text, keyword_kind, symbol_kind, tokens_wf, Token, TokenType, TokenV};

verus! {

/// What the lexer is currently accumulating.
#[derive(Copy, Clone, PartialEq, Eq, Structural, Debug)]
pub enum LexerState {
    /// A numeric literal.
    NUMBER,
    /// An identifier or keyword.
    IDENTIFIER,
    /// A string literal.
    STRING,
    /// A run of symbol characters.
    SYMBOL,
    /// Nothing: between tokens.
    NONE,
}

/// Emitting a token returns the machine to the `NONE` state without consuming
/// a character; this rank shows that such steps still make progress.
pub open spec fn state_rank(st: LexerState) -> int {
    if st is NONE {
        0
    } else {
        1
    }
}

/// Whether `c` starts or extends an identifier (not counting digits).
pub open spec fn is_ident_start_char(c: char) -> bool {
    ('a' <= c <= 'z') || ('A' <= c <= 'Z') || c == '_'
}

/// Whether `c` may extend an identifier.
pub open spec fn is_ident_char(c: char) -> bool {
    is_ident_start_char(c) || is_digit_char(c)
}

/// Whether `c` belongs to the fixed symbol set operators are built from.
pub open spec fn is_symbol_char(c: char) -> bool {
    c == '+' || c == '-' || c == '*' || c == '/' || c == '=' || c == '!' || c == '&' || c == '|'
}

/// Whether `c` is whitespace (the Unicode white-space characters).
pub open spec fn is_space_char(c: char) -> bool {
    c == ' ' || c == '\t' || c == '\n' || c == '\r' || c == '\u{b}' || c == '\u{c}' || c
        == '\u{85}' || c == '\u{a0}' || c == '\u{1680}' || ('\u{2000}' <= c <= '\u{200a}') || c
        == '\u{2028}' || c == '\u{2029}' || c == '\u{202f}' || c == '\u{205f}' || c == '\u{3000}'
}

/// The token the machine emits when it leaves an accumulating state, given
/// the accumulated text `s[start..i]`.
pub open spec fn numeric_token(s: Seq<char>, start: int, i: int) -> TokenV {
    TokenV { kind: TokenType::NUMERIC, text: s.subrange(start, i), pos: start }
}

/// The identifier or keyword token for the accumulated text `s[start..i]`.
pub open spec fn identifier_token(s: Seq<char>, start: int, i: int) -> TokenV {
    TokenV { kind: keyword_kind(s.subrange(start, i)), text: s.subrange(start, i), pos: start }
}

/// The string-literal token for the accumulated text `s[start..i]`.
pub open spec fn string_token(s: Seq<char>, start: int, i: int) -> TokenV {
    TokenV { kind: TokenType::STRING, text: s.subrange(start, i), pos: start }
}

/// The end-of-input sentinel token at offset `i`.
pub open spec fn eof_token(i: int) -> TokenV {
    TokenV { kind: TokenType::EOF, text: Seq::empty(), pos: i }
}

/// A single-character punctuation token at offset `i`.
pub open spec fn punct_token(kind: TokenType, s: Seq<char>, i: int) -> TokenV {
    TokenV { kind, text: s.subrange(i, i + 1), pos: i }
}

/// The lexing state machine: from position `i` in state `st` (accumulating
/// since `start`), with `out` already emitted, the tokens the rest of the
/// source denotes, or the first fatal error.
///
/// At end of input the machine flushes any token in progress — a still-open
/// string literal is a fatal error there — and always appends the EOF
/// sentinel.
pub open spec fn spec_lex(
    s: Seq<char>,
    i: int,
    st: LexerState,
    start: int,
    out: Seq<TokenV>,
) -> Result<Seq<TokenV>, LexError>
    decreases s.len() - i, state_rank(st),
{
    if i < 0 || i >= s.len() {
        match st {
            LexerState::NONE => Ok(out.push(eof_token(i))),
            LexerState::NUMBER => Ok(out.push(numeric_token(s, start, i)).push(eof_token(i))),
            LexerState::IDENTIFIER => Ok(
                out.push(identifier_token(s, start, i)).push(eof_token(i)),
            ),
            LexerState::SYMBOL => match symbol_kind(s.subrange(start, i)) {
                Some(kind) => Ok(
                    out.push(
                        TokenV { kind, text: s.subrange(start, i), pos: start },
                    ).push(eof_token(i)),
                ),
                None => Err(LexError::InvalidSymbol { position: start as usize }),
            },
            LexerState::STRING => Err(LexError::UnterminatedString { position: start as usize }),
        }
    } else {
        let c = s[i];
        match st {
            LexerState::NONE => {
                if is_digit_char(c) {
                    spec_lex(s, i + 1, LexerState::NUMBER, i, out)
                } else if is_ident_start_char(c) {
                    spec_lex(s, i + 1, LexerState::IDENTIFIER, i, out)
                } else if is_symbol_char(c) {
                    spec_lex(s, i + 1, LexerState::SYMBOL, i, out)
                } else if is_space_char(c) {
                    spec_lex(s, i + 1, LexerState::NONE, start, out)
                } else if c == '"' {
                    spec_lex(s, i + 1, LexerState::STRING, i + 1, out)
                } else if c == '{' {
                    spec_lex(
                        s,
                        i + 1,
                        LexerState::NONE,
                        start,
                        out.push(punct_token(TokenType::LBRACE, s, i)),
                    )
                } else if c == '}' {
                    spec_lex(
                        s,
                        i + 1,
                        LexerState::NONE,
                        start,
                        out.push(punct_token(TokenType::RBRACE, s, i)),
                    )
                } else if c == '(' {
                    spec_lex(
                        s,
                        i + 1,
                        LexerState::NONE,
                        start,
                        out.push(punct_token(TokenType::LPAREN, s, i)),
                    )
                } else if c == ')' {
                    spec_lex(
                        s,
                        i + 1,
                        LexerState::NONE,
                        start,
                        out.push(punct_token(TokenType::RPAREN, s, i)),
                    )
                } else if c == ',' {
                    spec_lex(
                        s,
                        i + 1,
                        LexerState::NONE,
                        start,
                        out.push(punct_token(TokenType::COMMA, s, i)),
                    )
                } else {
                    Err(LexError::InvalidCharacter { character: c, position: i as usize })
                }
            },
            LexerState::NUMBER => {
                if is_digit_char(c) {
                    spec_lex(s, i + 1, LexerState::NUMBER, start, out)
                } else {
                    spec_lex(s, i, LexerState::NONE, start, out.push(numeric_token(s, start, i)))
                }
            },
            LexerState::IDENTIFIER => {
                if is_ident_char(c) {
                    spec_lex(s, i + 1, LexerState::IDENTIFIER, start, out)
                } else {
                    spec_lex(
                        s,
                        i,
                        LexerState::NONE,
                        start,
                        out.push(identifier_token(s, start, i)),
                    )
                }
            },
            LexerState::STRING => {
                if c == '"' {
                    spec_lex(
                        s,
                        i + 1,
                        LexerState::NONE,
                        start,
                        out.push(string_token(s, start, i)),
                    )
                } else {
                    spec_lex(s, i + 1, LexerState::STRING, start, out)
                }
            },
            LexerState::SYMBOL => {
                if is_symbol_char(c) {
                    spec_lex(s, i + 1, LexerState::SYMBOL, start, out)
                } else {
                    match symbol_kind(s.subrange(start, i)) {
                        Some(kind) => spec_lex(
                            s,
                            i,
                            LexerState::NONE,
                            start,
                            out.push(TokenV { kind, text: s.subrange(start, i), pos: start }),
                        ),
                        None => Err(LexError::InvalidSymbol { position: start as usize }),
                    }
                }
            },
        }
    }
}

/// The token sequence `s` denotes, or the first fatal lexing error.
pub open spec fn spec_tokenize(s: Seq<char>) -> Result<Seq<TokenV>, LexError> {
    spec_lex(s, 0, LexerState::NONE, 0, Seq::empty())
}

/// What holds of every token the machine emits before the EOF sentinel: none
/// is itself an EOF, and a binary operator always carries one of the eight
/// operator spellings.
pub open spec fn lex_out_wf(out: Seq<TokenV>) -> bool {
    forall|k: int|
        0 <= k < out.len() ==> (#[trigger] out[k]).kind != TokenType::EOF && (out[k].kind
            == TokenType::BINARYOP ==> is_operator_text(out[k].text))
}

/// Pushing a non-EOF token with a sound kind keeps the emitted run sound.
proof fn lemma_out_wf_push(out: Seq<TokenV>, t: TokenV)
    requires
        lex_out_wf(out),
        t.kind != TokenType::EOF,
        t.kind == TokenType::BINARYOP ==> is_operator_text(t.text),
    ensures
        lex_out_wf(out.push(t)),
{
    assert forall|k: int| 0 <= k < out.push(t).len() implies (#[trigger] out.push(t)[k]).kind
        != TokenType::EOF && (out.push(t)[k].kind == TokenType::BINARYOP ==> is_operator_text(
        out.push(t)[k].text,
    )) by {
        if k < out.len() {
            assert(out.push(t)[k] == out[k]);
        }
    }
}

/// Appending the EOF sentinel to a sound emitted run yields a stream the
/// parser may be given.
proof fn lemma_wf_finish(out: Seq<TokenV>, i: int)
    requires
        lex_out_wf(out),
    ensures
        tokens_wf(out.push(eof_token(i))),
{
    let toks = out.push(eof_token(i));
    assert(toks.last() == eof_token(i));
    assert forall|k: int|
        0 <= k < toks.len() && (#[trigger] toks[k]).kind == TokenType::BINARYOP implies
    is_operator_text(toks[k].text) by {
        assert(toks[k] == out[k]);
    }
}

/// Every token sequence the lexing machine can return is well-formed: it ends
/// with the EOF sentinel, no other token is an EOF, and every binary operator
/// carries one of the eight operator spellings.
pub proof fn lemma_spec_lex_wf(s: Seq<char>, i: int, st: LexerState, start: int, out: Seq<TokenV>)
    requires
        lex_out_wf(out),
    ensures
        spec_lex(s, i, st, start, out) matches Ok(toks) ==> tokens_wf(toks),
    decreases s.len() - i, state_rank(st),
{
    if i < 0 || i >= s.len() {
        match st {
            LexerState::NONE => {
                lemma_wf_finish(out, i);
            },
            LexerState::NUMBER => {
                lemma_out_wf_push(out, numeric_token(s, start, i));
                lemma_wf_finish(out.push(numeric_token(s, start, i)), i);
            },
            LexerState::IDENTIFIER => {
                lemma_out_wf_push(out, identifier_token(s, start, i));
                lemma_wf_finish(out.push(identifier_token(s, start, i)), i);
            },
            LexerState::SYMBOL => {
                if let Some(kind) = symbol_kind(s.subrange(start, i)) {
                    let t = TokenV { kind, text: s.subrange(start, i), pos: start };
                    lemma_out_wf_push(out, t);
                    lemma_wf_finish(out.push(t), i);
                }
            },
            LexerState::STRING => {},
        }
    } else {
        let c = s[i];
        match st {
            LexerState::NONE => {
                if is_digit_char(c) {
                    lemma_spec_lex_wf(s, i + 1, LexerState::NUMBER, i, out);
                } else if is_ident_start_char(c) {
                    lemma_spec_lex_wf(s, i + 1, LexerState::IDENTIFIER, i, out);
                } else if is_symbol_char(c) {
                    lemma_spec_lex_wf(s, i + 1, LexerState::SYMBOL, i, out);
                } else if is_space_char(c) {
                    lemma_spec_lex_wf(s, i + 1, LexerState::NONE, start, out);
                } else if c == '"' {
                    lemma_spec_lex_wf(s, i + 1, LexerState::STRING, i + 1, out);
                } else if c == '{' {
                    lemma_out_wf_push(out, punct_token(TokenType::LBRACE, s, i));
                    lemma_spec_lex_wf(
                        s,
                        i + 1,
                        LexerState::NONE,
                        start,
                        out.push(punct_token(TokenType::LBRACE, s, i)),
                    );
                } else if c == '}' {
                    lemma_out_wf_push(out, punct_token(TokenType::RBRACE, s, i));
                    lemma_spec_lex_wf(
                        s,
                        i + 1,
                        LexerState::NONE,
                        start,
                        out.push(punct_token(TokenType::RBRACE, s, i)),
                    );
                } else if c == '(' {
                    lemma_out_wf_push(out, punct_token(TokenType::LPAREN, s, i));
                    lemma_spec_lex_wf(
                        s,
                        i + 1,
                        LexerState::NONE,
                        start,
                        out.push(punct_token(TokenType::LPAREN, s, i)),
                    );
                } else if c == ')' {
                    lemma_out_wf_push(out, punct_token(TokenType::RPAREN, s, i));
                    lemma_spec_lex_wf(
                        s,
                        i + 1,
                        LexerState::NONE,
                        start,
                        out.push(punct_token(TokenType::RPAREN, s, i)),
                    );
                } else if c == ',' {
                    lemma_out_wf_push(out, punct_token(TokenType::COMMA, s, i));
                    lemma_spec_lex_wf(
                        s,
                        i + 1,
                        LexerState::NONE,
                        start,
                        out.push(punct_token(TokenType::COMMA, s, i)),
                    );
                }
            },
            LexerState::NUMBER => {
                if is_digit_char(c) {
                    lemma_spec_lex_wf(s, i + 1, LexerState::NUMBER, start, out);
                } else {
                    lemma_out_wf_push(out, numeric_token(s, start, i));
                    lemma_spec_lex_wf(
                        s,
                        i,
                        LexerState::NONE,
                        start,
                        out.push(numeric_token(s, start, i)),
                    );
                }
            },
            LexerState::IDENTIFIER => {
                if is_ident_char(c) {
                    lemma_spec_lex_wf(s, i + 1, LexerState::IDENTIFIER, start, out);
                } else {
                    lemma_out_wf_push(out, identifier_token(s, start, i));
                    lemma_spec_lex_wf(
                        s,
                        i,
                        LexerState::NONE,
                        start,
                        out.push(identifier_token(s, start, i)),
                    );
                }
            },
            LexerState::STRING => {
                if c == '"' {
                    lemma_out_wf_push(out, string_token(s, start, i));
                    lemma_spec_lex_wf(
                        s,
                        i + 1,
                        LexerState::NONE,
                        start,
                        out.push(string_token(s, start, i)),
                    );
                } else {
                    lemma_spec_lex_wf(s, i + 1, LexerState::STRING, start, out);
                }
            },
            LexerState::SYMBOL => {
                if is_symbol_char(c) {
                    lemma_spec_lex_wf(s, i + 1, LexerState::SYMBOL, start, out);
                } else {
                    if let Some(kind) = symbol_kind(s.subrange(start, i)) {
                        let t = TokenV { kind, text: s.subrange(start, i), pos: start };
                        lemma_out_wf_push(out, t);
                        lemma_spec_lex_wf(s, i, LexerState::NONE, start, out.push(t));
                    }
                }
            },
        }
    }
}

/// Every token sequence `spec_tokenize` can return is a well-formed stream
/// for the parser.
pub proof fn lemma_spec_tokenize_wf(s: Seq<char>)
    ensures
        spec_tokenize(s) matches Ok(toks) ==> tokens_wf(toks),
{
    lemma_spec_lex_wf(s, 0, LexerState::NONE, 0, Seq::empty());
}

/// Mathematical model of the lexer's mutable state.
pub struct LexerV {
    pub input: Seq<char>,
    pub index: int,
    pub state: LexerState,
    pub start: int,
}

/// A lexer: the source text and the state machine's current position.
pub struct Lexer {
    input: String,
    index: usize,
    state: LexerState,
    current_token_position: usize,
}

impl View for Lexer {
    type V = LexerV;

    closed spec fn view(&self) -> LexerV {
        LexerV {
            input: self.input@,
            index: self.index as int,
            state: self.state,
            start: self.current_token_position as int,
        }
    }
}

impl Lexer {
    /// The machine never runs past the end of the input, and a token being
    /// accumulated starts at or before the current position.
    pub closed spec fn wf(&self) -> bool {
        &&& self.index <= self.input@.len()
        &&& self.state != LexerState::NONE ==> self.current_token_position <= self.index
    }

    /// Creates a lexer with empty input.
    pub fn new() -> (l: Lexer)
        ensures
            l.wf(),
            l@ == (LexerV {
                input: Seq::<char>::empty(),
                index: 0,
                state: LexerState::NONE,
                start: 0,
            }),
    {
        Lexer {
            input: String::new(),
            index: 0,
            state: LexerState::NONE,
            current_token_position: 0,
        }
    }

    /// Sets the source text and resets the machine to its initial state.
    pub fn set_input(&mut self, input: String)
        ensures
            final(self).wf(),
            final(self)@ == (LexerV {
                input: input@,
                index: 0,
                state: LexerState::NONE,
                start: 0,
            }),
    {
        self.input = input;
        self.index = 0;
        self.state = LexerState::NONE;
        self.current_token_position = 0;
    }

    /// Whether a character belongs to the fixed symbol set.
    fn is_valid_symbol(character: char) -> (r: bool)
        ensures
            r == is_symbol_char(character),
    {
        match character {
            '+' | '-' | '*' | '/' | '=' | '!' | '&' | '|' => true,
            _ => false,
        }
    }

    /// Whether a character is a decimal digit.
    fn is_digit(character: char) -> (r: bool)
        ensures
            r == is_digit_char(character),
    {
        '0' <= character && character <= '9'
    }

    /// Whether a character starts an identifier.
    fn is_ident_start(character: char) -> (r: bool)
        ensures
            r == is_ident_start_char(character),
    {
        ('a' <= character && character <= 'z') || ('A' <= character && character <= 'Z')
            || character == '_'
    }

    /// Whether a character is whitespace.
    fn is_space(character: char) -> (r: bool)
        ensures
            r == is_space_char(character),
    {
        character == ' ' || character == '\t' || character == '\n' || character == '\r'
            || character == '\u{b}' || character == '\u{c}' || character == '\u{85}' || character
            == '\u{a0}' || character == '\u{1680}' || ('\u{2000}' <= character && character
            <= '\u{200a}') || character == '\u{2028}' || character == '\u{2029}' || character
            == '\u{202f}' || character == '\u{205f}' || character == '\u{3000}'
    }

    /// The text accumulated since the current token's start position.
    fn accumulated(&self) -> (r: String)
        requires
            self.wf(),
            self@.state != LexerState::NONE,
        ensures
            r@ == self@.input.subrange(self@.start, self@.index),
    {
        self.input.as_str().substring_char(self.current_token_position, self.index).to_owned()
    }

    /// Emits the numeric token accumulated so far and returns to `NONE`.
    fn emit_number_token(&mut self, tokens: &mut Vec<Token>)
        requires
            old(self).wf(),
            old(self)@.state != LexerState::NONE,
        ensures
            final(self).wf(),
            final(self)@ == (LexerV { state: LexerState::NONE, ..old(self)@ }),
            final(tokens).deep_view() == old(tokens).deep_view().push(
                numeric_token(old(self)@.input, old(self)@.start, old(self)@.index),
            ),
    {
        let value = self.accumulated();
        tokens.push(Token::new(TokenType::NUMERIC, value, self.current_token_position));
        self.state = LexerState::NONE;
        proof {
            assert(final(tokens).deep_view() =~= old(tokens).deep_view().push(
                numeric_token(old(self)@.input, old(self)@.start, old(self)@.index),
            ));
        }
    }

    /// Emits the identifier or keyword token accumulated so far and returns
    /// to `NONE`.
    fn emit_identifier_token(&mut self, tokens: &mut Vec<Token>)
        requires
            old(self).wf(),
            old(self)@.state != LexerState::NONE,
        ensures
            final(self).wf(),
            final(self)@ == (LexerV { state: LexerState::NONE, ..old(self)@ }),
            final(tokens).deep_view() == old(tokens).deep_view().push(
                identifier_token(old(self)@.input, old(self)@.start, old(self)@.index),
            ),
    {
        let value = self.accumulated();
        let token_type: TokenType = if value == "if".to_owned() {
            TokenType::IF
        } else if value == "while".to_owned() {
            TokenType::WHILE
        } else if value == "for".to_owned() {
            TokenType::FOR
        } else if value == "else".to_owned() {
            TokenType::ELSE
        } else if value == "fn".to_owned() {
            TokenType::FN
        } else {
            TokenType::IDENTIFIER
        };
        tokens.push(Token::new(token_type, value, self.current_token_position));
        self.state = LexerState::NONE;
        proof {
            assert(final(tokens).deep_view() =~= old(tokens).deep_view().push(
                identifier_token(old(self)@.input, old(self)@.start, old(self)@.index),
            ));
        }
    }

    /// Emits the string-literal token accumulated so far and returns to
    /// `NONE`.
    fn emit_string_token(&mut self, tokens: &mut Vec<Token>)
        requires
            old(self).wf(),
            old(self)@.state != LexerState::NONE,
        ensures
            final(self).wf(),
            final(self)@ == (LexerV { state: LexerState::NONE, ..old(self)@ }),
            final(tokens).deep_view() == old(tokens).deep_view().push(
                string_token(old(self)@.input, old(self)@.start, old(self)@.index),
            ),
    {
        let value = self.accumulated();
        tokens.push(Token::new(TokenType::STRING, value, self.current_token_position));
        self.state = LexerState::NONE;
        proof {
            assert(final(tokens).deep_view() =~= old(tokens).deep_view().push(
                string_token(old(self)@.input, old(self)@.start, old(self)@.index),
            ));
        }
    }

    /// Emits the operator token the accumulated symbol run denotes and
    /// returns to `NONE`; an unmatched run is a fatal error.
    fn emit_symbol_token(&mut self, tokens: &mut Vec<Token>) -> (r: Result<(), LexError>)
        requires
            old(self).wf(),
            old(self)@.state != LexerState::NONE,
        ensures
            final(self).wf(),
            final(self)@.input == old(self)@.input,
            final(self)@.index == old(self)@.index,
            final(self)@.start == old(self)@.start,
            match r {
                Ok(_) => {
                    &&& final(self)@.state == LexerState::NONE
                    &&& symbol_kind(
                        old(self)@.input.subrange(old(self)@.start, old(self)@.index),
                    ) matches Some(kind) && final(tokens).deep_view() == old(
                        tokens,
                    ).deep_view().push(
                        TokenV {
                            kind,
                            text: old(self)@.input.subrange(old(self)@.start, old(self)@.index),
                            pos: old(self)@.start,
                        },
                    )
                },
                Err(e) => {
                    &&& symbol_kind(old(self)@.input.subrange(old(self)@.start, old(self)@.index))
                        is None
                    &&& e == (LexError::InvalidSymbol { position: old(self)@.start as usize })
                    &&& final(tokens).deep_view() == old(tokens).deep_view()
                },
            },
    {
        let value = self.accumulated();
        let token_type: TokenType = if value == "+".to_owned() || value == "-".to_owned() || value
            == "*".to_owned() || value == "/".to_owned() || value == "==".to_owned() || value
            == "!=".to_owned() || value == "&&".to_owned() || value == "||".to_owned() {
            TokenType::BINARYOP
        } else if value == "=".to_owned() {
            TokenType::ASSIGN
        } else {
            return Err(LexError::InvalidSymbol { position: self.current_token_position });
        };
        tokens.push(Token::new(token_type, value, self.current_token_position));
        self.state = LexerState::NONE;
        proof {
            assert(final(tokens).deep_view() =~= old(tokens).deep_view().push(
                TokenV {
                    kind: token_type,
                    text: old(self)@.input.subrange(old(self)@.start, old(self)@.index),
                    pos: old(self)@.start,
                },
            ));
        }
        Ok(())
    }

    /// Tokenizes the source text, exactly as `spec_lex` prescribes from the
    /// machine's current state; on a lexer fresh from `set_input` this is
    /// `spec_tokenize` of the input. A returned sequence always ends with the
    /// EOF sentinel.
    pub fn tokenize(&mut self) -> (r: Result<Vec<Token>, LexError>)
        requires
            old(self).wf(),
        ensures
            final(self).wf(),
            final(self)@.input == old(self)@.input,
            match r {
                Ok(tokens) => spec_lex(
                    old(self)@.input,
                    old(self)@.index,
                    old(self)@.state,
                    old(self)@.start,
                    Seq::empty(),
                ) == Ok::<Seq<TokenV>, LexError>(tokens.deep_view()),
                Err(e) => spec_lex(
                    old(self)@.input,
                    old(self)@.index,
                    old(self)@.state,
                    old(self)@.start,
                    Seq::empty(),
                ) == Err::<Seq<TokenV>, LexError>(e),
            },
    {
        let mut tokens: Vec<Token> = Vec::new();
        let n: usize = self.input.as_str().unicode_len();
        let ghost s = self@.input;
        let ghost spec_result = spec_lex(s, self@.index, self@.state, self@.start, Seq::empty());
        proof {
            assert(tokens.deep_view() =~= Seq::<TokenV>::empty());
        }

        while self.index < n
            invariant
                self.wf(),
                s == old(self)@.input,
                self@.input == s,
                n == s.len(),
                spec_result == spec_lex(
                    old(self)@.input,
                    old(self)@.index,
                    old(self)@.state,
                    old(self)@.start,
                    Seq::empty(),
                ),
                spec_result == spec_lex(
                    s,
                    self@.index,
                    self@.state,
                    self@.start,
                    tokens.deep_view(),
                ),
            decreases n - self@.index, state_rank(self@.state),
        {
            let c: char = self.input.as_str().get_char(self.index);
            match self.state {
                LexerState::NONE => {
                    if Self::is_digit(c) {
                        self.state = LexerState::NUMBER;
                        self.current_token_position = self.index;
                        self.index = self.index + 1;
                    } else if Self::is_ident_start(c) {
                        self.state = LexerState::IDENTIFIER;
                        self.current_token_position = self.index;
                        self.index = self.index + 1;
                    } else if Self::is_valid_symbol(c) {
                        self.state = LexerState::SYMBOL;
                        self.current_token_position = self.index;
                        self.index = self.index + 1;
                    } else if Self::is_space(c) {
                        self.index = self.index + 1;
                    } else if c == '"' {
                        self.index = self.index + 1;
                        self.state = LexerState::STRING;
                        self.current_token_position = self.index;
                    } else if c == '{' {
                        self.push_punct(&mut tokens, TokenType::LBRACE);
                        self.index = self.index + 1;
                    } else if c == '}' {
                        self.push_punct(&mut tokens, TokenType::RBRACE);
                        self.index = self.index + 1;
                    } else if c == '(' {
                        self.push_punct(&mut tokens, TokenType::LPAREN);
                        self.index = self.index + 1;
                    } else if c == ')' {
                        self.push_punct(&mut tokens, TokenType::RPAREN);
                        self.index = self.index + 1;
                    } else if c == ',' {
                        self.push_punct(&mut tokens, TokenType::COMMA);
                        self.index = self.index + 1;
                    } else {
                        return Err(LexError::InvalidCharacter { character: c, position: self.index });
                    }
                },
                LexerState::NUMBER => {
                    if Self::is_digit(c) {
                        self.index = self.index + 1;
                    } else {
                        self.emit_number_token(&mut tokens);
                    }
                },
                LexerState::IDENTIFIER => {
                    if Self::is_ident_start(c) || Self::is_digit(c) {
                        self.index = self.index + 1;
                    } else {
                        self.emit_identifier_token(&mut tokens);
                    }
                },
                LexerState::STRING => {
                    if c == '"' {
                        self.emit_string_token(&mut tokens);
                        self.index = self.index + 1;
                    } else {
                        self.index = self.index + 1;
                    }
                },
                LexerState::SYMBOL => {
                    if Self::is_valid_symbol(c) {
                        self.index = self.index + 1;
                    } else {
                        match self.emit_symbol_token(&mut tokens) {
                            Ok(_) => {},
                            Err(e) => {
                                return Err(e);
                            },
                        }
                    }
                },
            }
        }

        match self.state {
            LexerState::NONE => {},
            LexerState::NUMBER => self.emit_number_token(&mut tokens),
            LexerState::IDENTIFIER => self.emit_identifier_token(&mut tokens),
            LexerState::STRING => {
                return Err(LexError::UnterminatedString { position: self.current_token_position });
            },
            LexerState::SYMBOL => {
                match self.emit_symbol_token(&mut tokens) {
                    Ok(_) => {},
                    Err(e) => {
                        return Err(e);
                    },
                }
            },
        }
        let ghost flushed = tokens.deep_view();
        tokens.push(Token::new(TokenType::EOF, String::new(), self.index));
        proof {
            assert(tokens.deep_view() =~= flushed.push(eof_token(self@.index)));
        }
        Ok(tokens)
    }

    /// Emits a single-character punctuation token at the current position.
    fn push_punct(&mut self, tokens: &mut Vec<Token>, kind: TokenType)
        requires
            old(self).wf(),
            old(self)@.index < old(self)@.input.len(),
            old(self)@.input.len() <= usize::MAX,
        ensures
            final(self).wf(),
            final(self)@ == old(self)@,
            final(tokens).deep_view() == old(tokens).deep_view().push(
                punct_token(kind, old(self)@.input, old(self)@.index),
            ),
    {
        let value = self.input.as_str().substring_char(self.index, self.index + 1).to_owned();
        tokens.push(Token::new(kind, value, self.index));
        proof {
            assert(final(tokens).deep_view() =~= old(tokens).deep_view().push(
                punct_token(kind, old(self)@.input, old(self)@.index),
            ));
        }
    }
}

} // verus!
