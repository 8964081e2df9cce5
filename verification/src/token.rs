//! Token kinds and the `Token` value type produced by the lexer.
//!
//! A token records its kind, the text it covers, and the character offset at
//! which it starts in the source (used only for diagnostics).

use vstd::prelude::*;

verus! {

/// The kind of a lexical token.
///
/// `BLOCK` tokens are never produced by the lexer: the parser synthesises one
/// for each braced statement group, recording whether evaluating the block
/// pushes a fresh scope (function bodies do not, so that the call mechanism
/// can bind parameters into the scope it creates itself).
#[derive(Copy, Clone, PartialEq, Eq, Structural, Debug)]
pub enum TokenType {
    /// Numeric literal.
    NUMERIC,
    /// Identifier (variable or function name).
    IDENTIFIER,
    /// String literal.
    STRING,
    /// Binary operator (`+ - * / == != && ||`).
    BINARYOP,
    /// Assignment operator (`=`).
    ASSIGN,
    /// `if` keyword.
    IF,
    /// `while` keyword.
    WHILE,
    /// `for` keyword.
    FOR,
    /// `else` keyword.
    ELSE,
    /// `fn` keyword.
    FN,
    /// Statement group synthesised by the parser.
    BLOCK { creates_scope: bool },
    /// `{`
    LBRACE,
    /// `}`
    RBRACE,
    /// `(`
    LPAREN,
    /// `)`
    RPAREN,
    /// `,`
    COMMA,
    /// End-of-input sentinel; always the last token of a lexed stream.
    EOF,
}

/// Mathematical model of a token: its kind, covered text, and source offset.
pub struct TokenV {
    pub kind: TokenType,
    pub text: Seq<char>,
    pub pos: int,
}

/// A lexical token: a kind, the text it covers, and its character offset.
#[derive(Clone, Debug)]
pub struct Token {
    token_type: TokenType,
    value: String,
    pos: usize,
}

impl View for Token {
    type V = TokenV;

    closed spec fn view(&self) -> TokenV {
        TokenV { kind: self.token_type, text: self.value@, pos: self.pos as int }
    }
}

impl DeepView for Token {
    type V = TokenV;

    open spec fn deep_view(&self) -> TokenV {
        self.view()
    }
}

impl Token {
    /// Creates a new token from its kind, covered text, and source offset.
    pub fn new(token_type: TokenType, value: String, position: usize) -> (t: Token)
        ensures
            t@ == (TokenV { kind: token_type, text: value@, pos: position as int }),
    {
        Token { token_type, value, pos: position }
    }

    /// The text this token covers.
    pub fn get_value(&self) -> (v: &String)
        ensures
            v@ == self@.text,
    {
        &self.value
    }

    /// The kind of this token.
    pub fn get_type(&self) -> (t: &TokenType)
        ensures
            *t == self@.kind,
    {
        &self.token_type
    }

    /// A copy of this token.
    pub fn duplicate(&self) -> (t: Token)
        ensures
            t@ == self@,
    {
        Token { token_type: self.token_type, value: self.value.clone(), pos: self.pos }
    }

    /// The character offset at which this token starts in the source.
    pub fn get_position(&self) -> (p: &usize)
        ensures
            *p as int == self@.pos,
    {
        &self.pos
    }
}

/// The token kind an accumulated identifier run denotes: one of the fixed
/// keywords, or a plain identifier.
pub open spec fn keyword_kind(text: Seq<char>) -> TokenType {
    if text == "if"@ {
        TokenType::IF
    } else if text == "while"@ {
        TokenType::WHILE
    } else if text == "for"@ {
        TokenType::FOR
    } else if text == "else"@ {
        TokenType::ELSE
    } else if text == "fn"@ {
        TokenType::FN
    } else {
        TokenType::IDENTIFIER
    }
}

/// The token kind an accumulated symbol run denotes: a binary operator, the
/// assignment operator, or nothing (an invalid symbol run).
pub open spec fn symbol_kind(text: Seq<char>) -> Option<TokenType> {
    if text == "+"@ || text == "-"@ || text == "*"@ || text == "/"@ || text == "=="@ || text
        == "!="@ || text == "&&"@ || text == "||"@ {
        Some(TokenType::BINARYOP)
    } else if text == "="@ {
        Some(TokenType::ASSIGN)
    } else {
        None
    }
}

/// Whether `text` is one of the eight binary-operator spellings.
pub open spec fn is_operator_text(text: Seq<char>) -> bool {
    symbol_kind(text) == Some(TokenType::BINARYOP)
}

/// A token stream the parser may be given: it ends with the EOF sentinel the
/// lexer always appends, and every binary-operator token carries one of the
/// eight operator spellings.
pub open spec fn tokens_wf(toks: Seq<TokenV>) -> bool {
    &&& toks.len() >= 1
    &&& toks.last().kind == TokenType::EOF
    &&& forall|i: int|
        0 <= i < toks.len() && #[trigger] toks[i].kind == TokenType::BINARYOP ==> is_operator_text(
            toks[i].text,
        )
}

} // verus!
