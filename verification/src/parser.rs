//! The parser: recursive descent for statements, a shunting-yard pass for
//! expressions.
//!
//! The model is a family of `sp_parse_*` functions over token sequences, one
//! per grammar construct, each returning the parsed node and the cursor
//! position after it, or the first parse error. The executable `Parser` is
//! proved to return exactly what the model prescribes. The model functions
//! guard their cursor against leaving the token stream; those guard branches
//! return `ParseError::ParserDefect` and are unreachable for any stream that
//! ends with the EOF sentinel, as every lexed stream does.

use vstd::prelude::*;

use crate::ast::{ASTree, NodeV};
use crate::errors::ParseError;
use crate::token::{is_operator_text, tokens_wf, Token, TokenType, TokenV};

verus! {

/// A childless node holding `t`.
pub open spec fn leaf(t: TokenV) -> NodeV {
    NodeV { token: t, children: Seq::empty() }
}

/// Binding strength of a binary operator: comparisons and logical connectives
/// bind weakest, then additive, then multiplicative operators.
pub open spec fn op_priority(text: Seq<char>) -> int {
    if text == "=="@ || text == "!="@ || text == "&&"@ || text == "||"@ {
        1
    } else if text == "+"@ || text == "-"@ {
        2
    } else {
        3
    }
}

/// Whether tokens of this kind stand for operands inside an expression.
pub open spec fn is_operand_kind(k: TokenType) -> bool {
    k == TokenType::NUMERIC || k == TokenType::IDENTIFIER || k == TokenType::STRING
}

/// One cursor step: the token at `pos` if it has the expected kind, and the
/// position after it; otherwise the unexpected-token error.
pub open spec fn sp_consume(toks: Seq<TokenV>, pos: int, expected: TokenType) -> Result<
    (TokenV, int),
    ParseError,
> {
    if !(0 <= pos < toks.len()) {
        Err(ParseError::ParserDefect)
    } else if toks[pos].kind == expected {
        Ok((toks[pos], pos + 1))
    } else {
        Err(
            ParseError::UnexpectedToken {
                expected,
                found: toks[pos].kind,
                position: toks[pos].pos as usize,
            },
        )
    }
}

/// Emptying the operator stack onto the postfix output, topmost first.
pub open spec fn sy_flush(stack: Seq<TokenV>, out: Seq<NodeV>) -> Seq<NodeV> {
    out + stack.reverse().map_values(|t: TokenV| leaf(t))
}

/// The shunting-yard pass from `pos`, given the operator stack, whether the
/// previous token was an operand, and the postfix output so far. It ends —
/// returning the postfix sequence and the position of the first token not
/// consumed — at any token that is neither operand nor operator, or at the
/// second of two adjacent operands; two adjacent operators are a syntax
/// error. An identifier directly followed by `(` is parsed as a whole
/// function call and becomes a single operand.
pub open spec fn sp_shunting(
    toks: Seq<TokenV>,
    pos: int,
    stack: Seq<TokenV>,
    prev_operand: bool,
    out: Seq<NodeV>,
) -> Result<(Seq<NodeV>, int), ParseError>
    decreases toks.len() - pos, 1int, stack.len(),
{
    if !(0 <= pos < toks.len()) {
        Err(ParseError::ParserDefect)
    } else {
        let t = toks[pos];
        if t.kind == TokenType::BINARYOP {
            if !prev_operand {
                Err(ParseError::InvalidOperatorPlacement { position: t.pos as usize })
            } else if stack.len() > 0 && op_priority(t.text) <= op_priority(stack.last().text) {
                sp_shunting(
                    toks,
                    pos,
                    stack.drop_last(),
                    prev_operand,
                    out.push(leaf(stack.last())),
                )
            } else {
                sp_shunting(toks, pos + 1, stack.push(t), false, out)
            }
        } else if t.kind == TokenType::IDENTIFIER {
            if prev_operand {
                Ok((sy_flush(stack, out), pos))
            } else if pos + 1 < toks.len() && toks[pos + 1].kind == TokenType::LPAREN {
                match sp_parse_call(toks, pos) {
                    Ok((node, p2)) => if pos < p2 < toks.len() {
                        sp_shunting(toks, p2, stack, true, out.push(node))
                    } else {
                        Err(ParseError::ParserDefect)
                    },
                    Err(e) => Err(e),
                }
            } else {
                sp_shunting(toks, pos + 1, stack, true, out.push(leaf(t)))
            }
        } else if t.kind == TokenType::NUMERIC || t.kind == TokenType::STRING {
            if prev_operand {
                Ok((sy_flush(stack, out), pos))
            } else {
                sp_shunting(toks, pos + 1, stack, true, out.push(leaf(t)))
            }
        } else {
            Ok((sy_flush(stack, out), pos))
        }
    }
}

/// A function call: the identifier at `pos`, `(`, zero or more
/// comma-separated argument expressions, `)`. The call node's token is the
/// identifier; its children are the arguments in order.
pub open spec fn sp_parse_call(toks: Seq<TokenV>, pos: int) -> Result<(NodeV, int), ParseError>
    decreases toks.len() - pos, 0int, 0int,
{
    if !(0 <= pos < toks.len()) {
        Err(ParseError::ParserDefect)
    } else {
        let ident = toks[pos];
        match sp_consume(toks, pos + 1, TokenType::LPAREN) {
            Ok((_lp, p2)) => match sp_parse_args(toks, p2, Seq::empty()) {
                Ok((args, p3)) => match sp_consume(toks, p3, TokenType::RPAREN) {
                    Ok((_rp, p4)) => Ok((NodeV { token: ident, children: args }, p4)),
                    Err(e) => Err(e),
                },
                Err(e) => Err(e),
            },
            Err(e) => Err(e),
        }
    }
}

/// The comma-separated argument expressions of a call, up to (not consuming)
/// the closing `)`.
pub open spec fn sp_parse_args(toks: Seq<TokenV>, pos: int, acc: Seq<NodeV>) -> Result<
    (Seq<NodeV>, int),
    ParseError,
>
    decreases toks.len() - pos, 3int, 0int,
{
    if !(0 <= pos < toks.len()) {
        Err(ParseError::ParserDefect)
    } else if toks[pos].kind == TokenType::RPAREN {
        Ok((acc, pos))
    } else {
        match sp_parse_expression(toks, pos) {
            Ok((arg, p2)) => if !(pos < p2 < toks.len()) {
                Err(ParseError::ParserDefect)
            } else if toks[p2].kind == TokenType::COMMA {
                sp_parse_args(toks, p2 + 1, acc.push(arg))
            } else {
                Ok((acc.push(arg), p2))
            },
            Err(e) => Err(e),
        }
    }
}

/// Folding a postfix sequence into one expression tree: operands push
/// themselves, each binary operator takes the two most recent subtrees as its
/// children (right child popped first). The result is the final stack.
pub open spec fn sp_fold(items: Seq<NodeV>, stack: Seq<NodeV>) -> Result<Seq<NodeV>, ParseError>
    decreases items.len(),
{
    if items.len() == 0 {
        Ok(stack)
    } else {
        let item = items[0];
        if item.token.kind == TokenType::BINARYOP {
            if stack.len() < 2 {
                Err(ParseError::OperandUnderflow { position: item.token.pos as usize })
            } else {
                let right = stack.last();
                let left = stack[stack.len() - 2];
                sp_fold(
                    items.drop_first(),
                    stack.drop_last().drop_last().push(
                        NodeV {
                            token: item.token,
                            children: item.children.push(left).push(right),
                        },
                    ),
                )
            }
        } else if is_operand_kind(item.token.kind) {
            sp_fold(items.drop_first(), stack.push(item))
        } else {
            Err(ParseError::ParserDefect)
        }
    }
}

/// An expression: the shunting-yard pass linearises it to postfix, the fold
/// rebuilds the tree; exactly one tree must remain.
pub open spec fn sp_parse_expression(toks: Seq<TokenV>, pos: int) -> Result<
    (NodeV, int),
    ParseError,
>
    decreases toks.len() - pos, 2int, 0int,
{
    if !(0 <= pos < toks.len()) {
        Err(ParseError::ParserDefect)
    } else {
        match sp_shunting(toks, pos, Seq::empty(), false, Seq::empty()) {
            Ok((postfix, p2)) => if !(0 <= p2 < toks.len()) {
                Err(ParseError::ParserDefect)
            } else {
                match sp_fold(postfix, Seq::empty()) {
                    Ok(stack) => if stack.len() == 0 {
                        Err(ParseError::ExpectedExpression { position: toks[p2].pos as usize })
                    } else if stack.len() == 1 {
                        Ok((stack[0], p2))
                    } else {
                        Err(ParseError::UnresolvedExpression { position: toks[p2].pos as usize })
                    },
                    Err(e) => Err(e),
                }
            },
            Err(e) => Err(e),
        }
    }
}

/// An assignment statement: the identifier at `pos`, the `=` token, and the
/// value expression. The node's token is the `=`; its children are the
/// identifier and the value.
pub open spec fn sp_parse_assign(toks: Seq<TokenV>, pos: int) -> Result<(NodeV, int), ParseError>
    decreases toks.len() - pos, 3int, 0int,
{
    if !(0 <= pos && pos + 1 < toks.len()) {
        Err(ParseError::ParserDefect)
    } else {
        let ident = toks[pos];
        let assign_tok = toks[pos + 1];
        match sp_parse_expression(toks, pos + 2) {
            Ok((value, p)) => Ok(
                (NodeV { token: assign_tok, children: seq![leaf(ident), value] }, p),
            ),
            Err(e) => Err(e),
        }
    }
}

/// A braced statement group: `{`, statements until `}`, `}`. The node's token
/// is a synthesised BLOCK carrying `name` and whether evaluation pushes a
/// scope; its position is that of the token at `pos`.
pub open spec fn sp_parse_block(
    toks: Seq<TokenV>,
    pos: int,
    name: Seq<char>,
    creates_scope: bool,
) -> Result<(NodeV, int), ParseError>
    decreases toks.len() - pos, 3int, 0int,
{
    if !(0 <= pos < toks.len()) {
        Err(ParseError::ParserDefect)
    } else {
        let block_token = TokenV {
            kind: TokenType::BLOCK { creates_scope },
            text: name,
            pos: toks[pos].pos,
        };
        match sp_consume(toks, pos, TokenType::LBRACE) {
            Ok((_lb, p1)) => match sp_parse_items(toks, p1, TokenType::RBRACE, Seq::empty()) {
                Ok((children, p2)) => match sp_consume(toks, p2, TokenType::RBRACE) {
                    Ok((_rb, p3)) => Ok((NodeV { token: block_token, children }, p3)),
                    Err(e) => Err(e),
                },
                Err(e) => Err(e),
            },
            Err(e) => Err(e),
        }
    }
}

/// An `if` statement: `if`, `(`, condition, `)`, a scope-creating block, and
/// optionally `else` with a second scope-creating block. Children: condition,
/// then-block, and the else-block if present.
pub open spec fn sp_parse_if(toks: Seq<TokenV>, pos: int) -> Result<(NodeV, int), ParseError>
    decreases toks.len() - pos, 3int, 0int,
{
    if !(0 <= pos < toks.len()) {
        Err(ParseError::ParserDefect)
    } else {
        let if_tok = toks[pos];
        match sp_consume(toks, pos + 1, TokenType::LPAREN) {
            Ok((_lp, p2)) => match sp_parse_expression(toks, p2) {
                Ok((cond, p3)) => if !(pos < p3) {
                    Err(ParseError::ParserDefect)
                } else {
                    match sp_consume(toks, p3, TokenType::RPAREN) {
                        Ok((_rp, p4)) => match sp_parse_block(toks, p4, "if_block"@, true) {
                            Ok((then_block, p5)) => if !(pos < p5) {
                                Err(ParseError::ParserDefect)
                            } else if p5 < toks.len() && toks[p5].kind == TokenType::ELSE {
                                match sp_parse_block(toks, p5 + 1, "else_block"@, true) {
                                    Ok((else_block, p6)) => Ok(
                                        (
                                            NodeV {
                                                token: if_tok,
                                                children: seq![cond, then_block, else_block],
                                            },
                                            p6,
                                        ),
                                    ),
                                    Err(e) => Err(e),
                                }
                            } else {
                                Ok((NodeV { token: if_tok, children: seq![cond, then_block] }, p5))
                            },
                            Err(e) => Err(e),
                        },
                        Err(e) => Err(e),
                    }
                },
                Err(e) => Err(e),
            },
            Err(e) => Err(e),
        }
    }
}

/// A `while` statement: `while`, `(`, condition, `)`, a scope-creating block.
/// Children: condition, body.
pub open spec fn sp_parse_while(toks: Seq<TokenV>, pos: int) -> Result<(NodeV, int), ParseError>
    decreases toks.len() - pos, 3int, 0int,
{
    if !(0 <= pos < toks.len()) {
        Err(ParseError::ParserDefect)
    } else {
        let while_tok = toks[pos];
        match sp_consume(toks, pos + 1, TokenType::LPAREN) {
            Ok((_lp, p2)) => match sp_parse_expression(toks, p2) {
                Ok((cond, p3)) => if !(pos < p3) {
                    Err(ParseError::ParserDefect)
                } else {
                    match sp_consume(toks, p3, TokenType::RPAREN) {
                        Ok((_rp, p4)) => match sp_parse_block(toks, p4, "while_block"@, true) {
                            Ok((body, p5)) => Ok(
                                (NodeV { token: while_tok, children: seq![cond, body] }, p5),
                            ),
                            Err(e) => Err(e),
                        },
                        Err(e) => Err(e),
                    }
                },
                Err(e) => Err(e),
            },
            Err(e) => Err(e),
        }
    }
}

/// A function definition's parameter list: zero or more comma-separated
/// identifiers, up to (not consuming) the closing `)`.
pub open spec fn sp_parse_params(toks: Seq<TokenV>, pos: int, acc: Seq<NodeV>) -> Result<
    (Seq<NodeV>, int),
    ParseError,
>
    decreases toks.len() - pos, 3int, 0int,
{
    if !(0 <= pos < toks.len()) {
        Err(ParseError::ParserDefect)
    } else if toks[pos].kind == TokenType::RPAREN {
        Ok((acc, pos))
    } else {
        match sp_consume(toks, pos, TokenType::IDENTIFIER) {
            Ok((id_tok, p2)) => if p2 < toks.len() && toks[p2].kind == TokenType::COMMA {
                sp_parse_params(toks, p2 + 1, acc.push(leaf(id_tok)))
            } else {
                Ok((acc.push(leaf(id_tok)), p2))
            },
            Err(e) => Err(e),
        }
    }
}

/// A function definition: `fn`, the function name, `(`, parameters, `)`, and
/// a body block that is explicitly not scope-creating (the call mechanism
/// creates the scope, so parameters can be bound into it before the body
/// runs). Children: name, parameters in order, body.
pub open spec fn sp_parse_fn_def(toks: Seq<TokenV>, pos: int) -> Result<(NodeV, int), ParseError>
    decreases toks.len() - pos, 3int, 0int,
{
    if !(0 <= pos < toks.len()) {
        Err(ParseError::ParserDefect)
    } else {
        let fn_tok = toks[pos];
        match sp_consume(toks, pos + 1, TokenType::IDENTIFIER) {
            Ok((name_tok, p2)) => match sp_consume(toks, p2, TokenType::LPAREN) {
                Ok((_lp, p3)) => match sp_parse_params(toks, p3, seq![leaf(name_tok)]) {
                    Ok((name_and_params, p4)) => match sp_consume(toks, p4, TokenType::RPAREN) {
                        Ok((_rp, p5)) => if !(pos < p5) {
                            Err(ParseError::ParserDefect)
                        } else {
                            match sp_parse_block(toks, p5, "fn_block"@, false) {
                                Ok((body, p6)) => Ok(
                                    (
                                        NodeV {
                                            token: fn_tok,
                                            children: name_and_params.push(body),
                                        },
                                        p6,
                                    ),
                                ),
                                Err(e) => Err(e),
                            }
                        },
                        Err(e) => Err(e),
                    },
                    Err(e) => Err(e),
                },
                Err(e) => Err(e),
            },
            Err(e) => Err(e),
        }
    }
}

/// One statement, dispatched on the token at `pos`: `if`, `while`, `fn`, a
/// nested block, an assignment (identifier directly followed by `=`), or
/// otherwise an expression.
pub open spec fn sp_parse_once(toks: Seq<TokenV>, pos: int) -> Result<(NodeV, int), ParseError>
    decreases toks.len() - pos, 4int, 0int,
{
    if !(0 <= pos < toks.len()) {
        Err(ParseError::ParserDefect)
    } else {
        let k = toks[pos].kind;
        if k == TokenType::IF {
            sp_parse_if(toks, pos)
        } else if k == TokenType::WHILE {
            sp_parse_while(toks, pos)
        } else if k == TokenType::FN {
            sp_parse_fn_def(toks, pos)
        } else if k == TokenType::LBRACE {
            sp_parse_block(toks, pos, "gen_block"@, true)
        } else if k == TokenType::IDENTIFIER && pos + 1 < toks.len() && toks[pos + 1].kind
            == TokenType::ASSIGN {
            sp_parse_assign(toks, pos)
        } else {
            sp_parse_expression(toks, pos)
        }
    }
}

/// Statements one after another until the `stop` kind is at the cursor (not
/// consumed).
pub open spec fn sp_parse_items(
    toks: Seq<TokenV>,
    pos: int,
    stop: TokenType,
    acc: Seq<NodeV>,
) -> Result<(Seq<NodeV>, int), ParseError>
    decreases toks.len() - pos, 5int, 0int,
{
    if !(0 <= pos < toks.len()) {
        Err(ParseError::ParserDefect)
    } else if toks[pos].kind == stop {
        Ok((acc, pos))
    } else {
        match sp_parse_once(toks, pos) {
            Ok((node, p2)) => if !(pos < p2 < toks.len()) {
                Err(ParseError::ParserDefect)
            } else {
                sp_parse_items(toks, p2, stop, acc.push(node))
            },
            Err(e) => Err(e),
        }
    }
}

/// The synthesised token of the root program block.
pub open spec fn program_token() -> TokenV {
    TokenV { kind: TokenType::BLOCK { creates_scope: true }, text: "program"@, pos: 0 }
}

/// A whole program from `pos`: every statement until the EOF sentinel,
/// wrapped in one scope-creating root block.
pub open spec fn sp_parse(toks: Seq<TokenV>, pos: int) -> Result<NodeV, ParseError> {
    match sp_parse_items(toks, pos, TokenType::EOF, Seq::empty()) {
        Ok((children, _p)) => Ok(NodeV { token: program_token(), children }),
        Err(e) => Err(e),
    }
}

/// Every token on the shunting-yard operator stack is a binary operator with
/// one of the eight operator spellings.
pub open spec fn op_stack_wf(stack: Seq<TokenV>) -> bool {
    forall|j: int|
        0 <= j < stack.len() ==> (#[trigger] stack[j]).kind == TokenType::BINARYOP
            && is_operator_text(stack[j].text)
}

/// Popping the topmost operator onto the output commutes with flushing.
proof fn lemma_sy_flush_pop(stack: Seq<TokenV>, out: Seq<NodeV>)
    requires
        stack.len() > 0,
    ensures
        sy_flush(stack, out) == sy_flush(stack.drop_last(), out.push(leaf(stack.last()))),
{
    let lhs = sy_flush(stack, out);
    let rhs = sy_flush(stack.drop_last(), out.push(leaf(stack.last())));
    assert(lhs.len() == rhs.len());
    assert forall|i: int| 0 <= i < lhs.len() implies lhs[i] == rhs[i] by {
        if i >= out.len() + 1 {
            assert(stack.reverse()[i - out.len()] == stack[stack.len() - 1 - (i - out.len())]);
            assert(stack.drop_last().reverse()[i - out.len() - 1] == stack.drop_last()[stack.len()
                - 1 - (i - out.len())]);
        }
    }
    assert(lhs =~= rhs);
}

/// The classification the shunting-yard pass gives each token.
#[derive(Copy, Clone, PartialEq, Eq, Structural, Debug)]
enum ShuntingType {
    /// A binary operator, with its priority.
    OPERATOR(u8),
    /// An operand.
    OPERAND,
    /// A token ending the expression.
    END,
}

/// Mathematical model of the parser's state: its token stream and cursor.
pub struct ParserV {
    pub tokens: Seq<TokenV>,
    pub pos: int,
}

/// A parser: the token stream and the cursor position within it.
pub struct Parser {
    tokens: Vec<Token>,
    pos: usize,
}

impl View for Parser {
    type V = ParserV;

    closed spec fn view(&self) -> ParserV {
        ParserV { tokens: self.tokens.deep_view(), pos: self.pos as int }
    }
}

impl Parser {
    /// The stream the parser may be run on: one the lexer could have
    /// produced, ending with the EOF sentinel.
    pub open spec fn wf(&self) -> bool {
        tokens_wf(self@.tokens)
    }

    /// Creates a parser with an empty token stream.
    pub fn new() -> (p: Parser)
        ensures
            p@.tokens == Seq::<TokenV>::empty(),
            p@.pos == 0,
    {
        let p = Parser { tokens: Vec::new(), pos: 0 };
        proof {
            assert(p@.tokens =~= Seq::<TokenV>::empty());
        }
        p
    }

    /// Sets the token stream to parse; the cursor is left where it was.
    pub fn set_tokens(&mut self, tokens: Vec<Token>)
        ensures
            final(self)@.tokens == tokens.deep_view(),
            final(self)@.pos == old(self)@.pos,
    {
        self.tokens = tokens;
    }

    /// The token at the cursor.
    fn peek(&self) -> (t: &Token)
        requires
            0 <= self@.pos < self@.tokens.len(),
        ensures
            t@ == self@.tokens[self@.pos],
    {
        &self.tokens[self.pos]
    }

    /// The token at the cursor; the cursor moves past it.
    fn advance(&mut self) -> (t: Token)
        requires
            0 <= old(self)@.pos < old(self)@.tokens.len(),
        ensures
            t@ == old(self)@.tokens[old(self)@.pos],
            final(self)@.tokens == old(self)@.tokens,
            final(self)@.pos == old(self)@.pos + 1,
    {
        let token = self.tokens[self.pos].duplicate();
        proof {
            assert(self.tokens.len() == self.tokens@.len());
        }
        self.pos = self.pos + 1;
        token
    }

    /// Takes the token at the cursor if it has the expected kind, exactly as
    /// `sp_consume` prescribes; on success over a well-formed stream the
    /// cursor stays inside it whenever `expected` is not EOF.
    fn consume(&mut self, expected: TokenType) -> (r: Result<Token, ParseError>)
        requires
            0 <= old(self)@.pos < old(self)@.tokens.len(),
        ensures
            final(self)@.tokens == old(self)@.tokens,
            match r {
                Ok(t) => {
                    &&& sp_consume(old(self)@.tokens, old(self)@.pos, expected) == Ok::<
                        (TokenV, int),
                        ParseError,
                    >((t@, final(self)@.pos))
                    &&& final(self)@.pos == old(self)@.pos + 1
                    &&& t@.kind == expected
                    &&& (tokens_wf(old(self)@.tokens) && expected != TokenType::EOF
                        ==> final(self)@.pos < old(self)@.tokens.len())
                },
                Err(e) => {
                    &&& sp_consume(old(self)@.tokens, old(self)@.pos, expected) == Err::<
                        (TokenV, int),
                        ParseError,
                    >(e)
                    &&& final(self)@.pos == old(self)@.pos
                },
            },
    {
        let found: TokenType = *self.peek().get_type();
        if found == expected {
            let t = self.advance();
            proof {
                let toks = old(self)@.tokens;
                if tokens_wf(toks) && expected != TokenType::EOF {
                    assert(toks.last() == toks[toks.len() - 1]);
                }
            }
            Ok(t)
        } else {
            let position: usize = *self.peek().get_position();
            Err(ParseError::UnexpectedToken { expected, found, position })
        }
    }

    /// The priority of a binary operator, by its spelling.
    fn match_operator_to_priority(operator: &String) -> (r: u8)
        requires
            is_operator_text(operator@),
        ensures
            r as int == op_priority(operator@),
    {
        if *operator == "==".to_owned() || *operator == "!=".to_owned() || *operator
            == "&&".to_owned() || *operator == "||".to_owned() {
            1
        } else if *operator == "+".to_owned() || *operator == "-".to_owned() {
            2
        } else if *operator == "*".to_owned() || *operator == "/".to_owned() {
            3
        } else {
            proof {
                assert(false);
            }
            0
        }
    }

    /// Classifies a token for the shunting-yard pass.
    fn convert_to_shunting_type(token: &Token) -> (r: ShuntingType)
        requires
            token@.kind == TokenType::BINARYOP ==> is_operator_text(token@.text),
        ensures
            token@.kind == TokenType::BINARYOP ==> (r matches ShuntingType::OPERATOR(v) && v
                as int == op_priority(token@.text)),
            is_operand_kind(token@.kind) ==> r == ShuntingType::OPERAND,
            token@.kind != TokenType::BINARYOP && !is_operand_kind(token@.kind) ==> r
                == ShuntingType::END,
    {
        match *token.get_type() {
            TokenType::NUMERIC => ShuntingType::OPERAND,
            TokenType::IDENTIFIER => ShuntingType::OPERAND,
            TokenType::STRING => ShuntingType::OPERAND,
            TokenType::BINARYOP => ShuntingType::OPERATOR(
                Self::match_operator_to_priority(token.get_value()),
            ),
            _ => ShuntingType::END,
        }
    }

    /// Pops every operator from the stack onto the postfix output, topmost
    /// first.
    fn flush_stack(operator_stack: &mut Vec<Token>, output: &mut Vec<ASTree>)
        ensures
            final(operator_stack)@.len() == 0,
            final(output).deep_view() == sy_flush(
                old(operator_stack).deep_view(),
                old(output).deep_view(),
            ),
    {
        let ghost target = sy_flush(old(operator_stack).deep_view(), old(output).deep_view());
        while operator_stack.len() > 0
            invariant
                sy_flush(operator_stack.deep_view(), output.deep_view()) == target,
            decreases operator_stack.len(),
        {
            let ghost st0 = operator_stack.deep_view();
            let ghost out0 = output.deep_view();
            let top = operator_stack.pop().unwrap();
            output.push(ASTree::new(top));
            proof {
                assert(operator_stack.deep_view() =~= st0.drop_last());
                assert(output.deep_view() =~= out0.push(leaf(st0.last())));
                lemma_sy_flush_pop(st0, out0);
            }
        }
        proof {
            assert(operator_stack.deep_view() =~= Seq::<TokenV>::empty());
            assert(sy_flush(Seq::<TokenV>::empty(), output.deep_view()) =~= output.deep_view());
        }
    }

    /// The shunting-yard pass from the cursor, exactly as `sp_shunting`
    /// prescribes: operators move through the stack by priority, operands and
    /// whole function calls go to the output, and any expression-ending token
    /// flushes the stack and stops.
    fn sy_run(
        &mut self,
        operator_stack: &mut Vec<Token>,
        prev_operand: bool,
        output: &mut Vec<ASTree>,
    ) -> (r: Result<(), ParseError>)
        requires
            old(self).wf(),
            0 <= old(self)@.pos < old(self)@.tokens.len(),
            op_stack_wf(old(operator_stack).deep_view()),
        ensures
            final(self)@.tokens == old(self)@.tokens,
            match r {
                Ok(_) => {
                    &&& sp_shunting(
                        old(self)@.tokens,
                        old(self)@.pos,
                        old(operator_stack).deep_view(),
                        prev_operand,
                        old(output).deep_view(),
                    ) == Ok::<(Seq<NodeV>, int), ParseError>(
                        (final(output).deep_view(), final(self)@.pos),
                    )
                    &&& old(self)@.pos <= final(self)@.pos < old(self)@.tokens.len()
                    &&& (final(self)@.pos == old(self)@.pos ==> final(output)@.len() == old(
                        output,
                    )@.len() + old(operator_stack)@.len())
                },
                Err(e) => sp_shunting(
                    old(self)@.tokens,
                    old(self)@.pos,
                    old(operator_stack).deep_view(),
                    prev_operand,
                    old(output).deep_view(),
                ) == Err::<(Seq<NodeV>, int), ParseError>(e),
            },
        decreases self@.tokens.len() - self@.pos, 2int, operator_stack@.len(),
    {
        let ghost toks = self@.tokens;
        match Self::convert_to_shunting_type(self.peek()) {
            ShuntingType::OPERATOR(val) => {
                if !prev_operand {
                    return Err(
                        ParseError::InvalidOperatorPlacement {
                            position: *self.peek().get_position(),
                        },
                    );
                }
                let pop_top: bool = if operator_stack.len() > 0 {
                    let top_prio = Self::match_operator_to_priority(
                        operator_stack[operator_stack.len() - 1].get_value(),
                    );
                    val <= top_prio
                } else {
                    false
                };
                if pop_top {
                    let ghost st0 = operator_stack.deep_view();
                    let ghost out0 = output.deep_view();
                    let top = operator_stack.pop().unwrap();
                    output.push(ASTree::new(top));
                    proof {
                        assert(operator_stack.deep_view() =~= st0.drop_last());
                        assert(output.deep_view() =~= out0.push(leaf(st0.last())));
                    }
                    self.sy_run(operator_stack, prev_operand, output)
                } else {
                    let ghost st0 = operator_stack.deep_view();
                    let t = self.advance();
                    operator_stack.push(t);
                    proof {
                        assert(toks.last() == toks[toks.len() - 1]);
                        assert(operator_stack.deep_view() =~= st0.push(toks[old(self)@.pos]));
                        assert forall|j: int|
                            0 <= j < operator_stack.deep_view().len() implies (#[trigger]
                        operator_stack.deep_view()[j]).kind == TokenType::BINARYOP
                            && is_operator_text(operator_stack.deep_view()[j].text) by {
                            if j < st0.len() {
                                assert(operator_stack.deep_view()[j] == st0[j]);
                            }
                        }
                    }
                    self.sy_run(operator_stack, false, output)
                }
            },
            ShuntingType::OPERAND => {
                if prev_operand {
                    Self::flush_stack(operator_stack, output);
                    proof {
                        assert(final(output)@.len() == final(output).deep_view().len());
                    }
                    Ok(())
                } else {
                    let is_call: bool = *self.peek().get_type() == TokenType::IDENTIFIER
                        && self.pos < self.tokens.len() - 1 && *self.tokens[self.pos
                        + 1].get_type() == TokenType::LPAREN;
                    if is_call {
                        let node = match self.parse_call() {
                            Ok(n) => n,
                            Err(e) => {
                                return Err(e);
                            },
                        };
                        let ghost out0 = output.deep_view();
                        output.push(node);
                        proof {
                            assert(output.deep_view() =~= out0.push(node@));
                        }
                        self.sy_run(operator_stack, true, output)
                    } else {
                        let ghost out0 = output.deep_view();
                        let t = self.advance();
                        output.push(ASTree::new(t));
                        proof {
                            assert(toks.last() == toks[toks.len() - 1]);
                            assert(output.deep_view() =~= out0.push(leaf(toks[old(self)@.pos])));
                        }
                        self.sy_run(operator_stack, true, output)
                    }
                }
            },
            ShuntingType::END => {
                Self::flush_stack(operator_stack, output);
                proof {
                    assert(final(output)@.len() == final(output).deep_view().len());
                }
                Ok(())
            },
        }
    }

    /// Linearises the expression at the cursor into a postfix sequence.
    fn shunting_yard(&mut self) -> (r: Result<Vec<ASTree>, ParseError>)
        requires
            old(self).wf(),
            0 <= old(self)@.pos < old(self)@.tokens.len(),
        ensures
            final(self)@.tokens == old(self)@.tokens,
            match r {
                Ok(postfix) => {
                    &&& sp_shunting(
                        old(self)@.tokens,
                        old(self)@.pos,
                        Seq::empty(),
                        false,
                        Seq::empty(),
                    ) == Ok::<(Seq<NodeV>, int), ParseError>(
                        (postfix.deep_view(), final(self)@.pos),
                    )
                    &&& old(self)@.pos <= final(self)@.pos < old(self)@.tokens.len()
                    &&& (final(self)@.pos == old(self)@.pos ==> postfix@.len() == 0)
                },
                Err(e) => sp_shunting(
                    old(self)@.tokens,
                    old(self)@.pos,
                    Seq::empty(),
                    false,
                    Seq::empty(),
                ) == Err::<(Seq<NodeV>, int), ParseError>(e),
            },
        decreases self@.tokens.len() - self@.pos, 4int, 0int,
    {
        let mut operator_stack: Vec<Token> = Vec::new();
        let mut output: Vec<ASTree> = Vec::new();
        proof {
            assert(operator_stack.deep_view() =~= Seq::<TokenV>::empty());
            assert(output.deep_view() =~= Seq::<NodeV>::empty());
        }
        match self.sy_run(&mut operator_stack, false, &mut output) {
            Ok(_) => Ok(output),
            Err(e) => Err(e),
        }
    }

    /// A function call at the cursor, exactly as `sp_parse_call` prescribes.
    fn parse_call(&mut self) -> (r: Result<ASTree, ParseError>)
        requires
            old(self).wf(),
            0 <= old(self)@.pos,
            old(self)@.pos + 1 < old(self)@.tokens.len(),
        ensures
            final(self)@.tokens == old(self)@.tokens,
            match r {
                Ok(node) => sp_parse_call(old(self)@.tokens, old(self)@.pos) == Ok::<
                    (NodeV, int),
                    ParseError,
                >((node@, final(self)@.pos)) && old(self)@.pos < final(self)@.pos < old(
                    self,
                )@.tokens.len(),
                Err(e) => sp_parse_call(old(self)@.tokens, old(self)@.pos) == Err::<
                    (NodeV, int),
                    ParseError,
                >(e),
            },
        decreases self@.tokens.len() - self@.pos, 1int, 0int,
    {
        let identifier = self.advance();
        let mut node = ASTree::new(identifier);
        match self.consume(TokenType::LPAREN) {
            Ok(_) => {},
            Err(e) => {
                return Err(e);
            },
        }
        match self.parse_args(&mut node) {
            Ok(_) => {},
            Err(e) => {
                return Err(e);
            },
        }
        match self.consume(TokenType::RPAREN) {
            Ok(_) => {},
            Err(e) => {
                return Err(e);
            },
        }
        Ok(node)
    }

    /// The comma-separated argument expressions of a call, appended as
    /// children of `node`, exactly as `sp_parse_args` prescribes.
    fn parse_args(&mut self, node: &mut ASTree) -> (r: Result<(), ParseError>)
        requires
            old(self).wf(),
            0 <= old(self)@.pos < old(self)@.tokens.len(),
        ensures
            final(self)@.tokens == old(self)@.tokens,
            final(node)@.token == old(node)@.token,
            match r {
                Ok(_) => sp_parse_args(old(self)@.tokens, old(self)@.pos, old(node)@.children)
                    == Ok::<(Seq<NodeV>, int), ParseError>(
                    (final(node)@.children, final(self)@.pos),
                ) && old(self)@.pos <= final(self)@.pos < old(self)@.tokens.len(),
                Err(e) => sp_parse_args(old(self)@.tokens, old(self)@.pos, old(node)@.children)
                    == Err::<(Seq<NodeV>, int), ParseError>(e),
            },
        decreases self@.tokens.len() - self@.pos, 6int, 0int,
    {
        let ghost toks = self@.tokens;
        if *self.peek().get_type() == TokenType::RPAREN {
            return Ok(());
        }
        let arg = match self.parse_expression() {
            Ok(a) => a,
            Err(e) => {
                return Err(e);
            },
        };
        node.append(arg);
        if *self.peek().get_type() == TokenType::COMMA {
            let _ = self.advance();
            proof {
                assert(toks.last() == toks[toks.len() - 1]);
            }
            self.parse_args(node)
        } else {
            Ok(())
        }
    }

    /// The expression at the cursor: the shunting-yard pass linearises it,
    /// the fold rebuilds the tree, exactly as `sp_parse_expression`
    /// prescribes.
    fn parse_expression(&mut self) -> (r: Result<ASTree, ParseError>)
        requires
            old(self).wf(),
            0 <= old(self)@.pos < old(self)@.tokens.len(),
        ensures
            final(self)@.tokens == old(self)@.tokens,
            match r {
                Ok(tree) => sp_parse_expression(old(self)@.tokens, old(self)@.pos) == Ok::<
                    (NodeV, int),
                    ParseError,
                >((tree@, final(self)@.pos)) && old(self)@.pos < final(self)@.pos < old(
                    self,
                )@.tokens.len(),
                Err(e) => sp_parse_expression(old(self)@.tokens, old(self)@.pos) == Err::<
                    (NodeV, int),
                    ParseError,
                >(e),
            },
        decreases self@.tokens.len() - self@.pos, 5int, 0int,
    {
        let ghost pos0 = self@.pos;
        let mut items = match self.shunting_yard() {
            Ok(p) => p,
            Err(e) => {
                return Err(e);
            },
        };
        let ghost postfix0 = items.deep_view();
        let ghost snap = self@;
        let mut stack: Vec<ASTree> = Vec::new();
        proof {
            assert(stack.deep_view() =~= Seq::<NodeV>::empty());
        }
        while items.len() > 0
            invariant
                self@ == snap,
                snap.tokens == old(self)@.tokens,
                pos0 == old(self)@.pos,
                0 <= pos0 < snap.tokens.len(),
                pos0 <= snap.pos < snap.tokens.len(),
                pos0 == snap.pos ==> postfix0.len() == 0,
                sp_shunting(snap.tokens, pos0, Seq::empty(), false, Seq::empty()) == Ok::<
                    (Seq<NodeV>, int),
                    ParseError,
                >((postfix0, snap.pos)),
                sp_fold(postfix0, Seq::empty()) == sp_fold(items.deep_view(), stack.deep_view()),
            decreases items.len(),
        {
            let ghost items0 = items.deep_view();
            let ghost stack0 = stack.deep_view();
            let item = items.remove(0);
            proof {
                assert(items.deep_view() =~= items0.drop_first());
                assert(item@ == items0[0]);
            }
            let kind: TokenType = *item.get_token().get_type();
            if kind == TokenType::BINARYOP {
                if stack.len() < 2 {
                    return Err(
                        ParseError::OperandUnderflow { position: *item.get_token().get_position() },
                    );
                }
                let right = stack.pop().unwrap();
                let left = stack.pop().unwrap();
                let mut combined = item;
                combined.append(left);
                combined.append(right);
                stack.push(combined);
                proof {
                    assert(stack.deep_view() =~= stack0.drop_last().drop_last().push(
                        NodeV {
                            token: items0[0].token,
                            children: items0[0].children.push(stack0[stack0.len() - 2]).push(
                                stack0.last(),
                            ),
                        },
                    ));
                }
            } else if kind == TokenType::NUMERIC || kind == TokenType::IDENTIFIER || kind
                == TokenType::STRING {
                stack.push(item);
                proof {
                    assert(stack.deep_view() =~= stack0.push(items0[0]));
                }
            } else {
                return Err(ParseError::ParserDefect);
            }
        }
        proof {
            assert(items.deep_view() =~= Seq::<NodeV>::empty());
        }
        if stack.len() == 0 {
            let position: usize = *self.peek().get_position();
            return Err(ParseError::ExpectedExpression { position });
        }
        if stack.len() == 1 {
            let tree = stack.pop().unwrap();
            proof {
                assert(tree@ == stack.deep_view().push(tree@)[0]);
                if pos0 == snap.pos {
                    assert(sp_fold(postfix0, Seq::<NodeV>::empty()) == Ok::<
                        Seq<NodeV>,
                        ParseError,
                    >(Seq::<NodeV>::empty()));
                }
            }
            return Ok(tree);
        }
        let position: usize = *self.peek().get_position();
        Err(ParseError::UnresolvedExpression { position })
    }

    /// An assignment statement at the cursor, exactly as `sp_parse_assign`
    /// prescribes; only dispatched when the identifier is directly followed
    /// by `=`.
    fn parse_assign(&mut self) -> (r: Result<ASTree, ParseError>)
        requires
            old(self).wf(),
            0 <= old(self)@.pos,
            old(self)@.pos + 1 < old(self)@.tokens.len(),
            old(self)@.tokens[old(self)@.pos + 1].kind != TokenType::EOF,
        ensures
            final(self)@.tokens == old(self)@.tokens,
            match r {
                Ok(tree) => sp_parse_assign(old(self)@.tokens, old(self)@.pos) == Ok::<
                    (NodeV, int),
                    ParseError,
                >((tree@, final(self)@.pos)) && old(self)@.pos < final(self)@.pos < old(
                    self,
                )@.tokens.len(),
                Err(e) => sp_parse_assign(old(self)@.tokens, old(self)@.pos) == Err::<
                    (NodeV, int),
                    ParseError,
                >(e),
            },
        decreases self@.tokens.len() - self@.pos, 7int, 0int,
    {
        let ghost toks = self@.tokens;
        let identifier = self.advance();
        proof {
            assert(toks.last() == toks[toks.len() - 1]);
        }
        let assign_tok = self.advance();
        let mut output = ASTree::new(assign_tok);
        output.append(ASTree::new(identifier));
        let value = match self.parse_expression() {
            Ok(v) => v,
            Err(e) => {
                return Err(e);
            },
        };
        output.append(value);
        proof {
            assert(output@.children =~= seq![leaf(toks[old(self)@.pos]), value@]);
        }
        Ok(output)
    }

    /// Statements one after another until the `stop` kind is at the cursor,
    /// appended as children of `parent`, exactly as `sp_parse_items`
    /// prescribes.
    fn parse_items(&mut self, parent: &mut ASTree, stop: TokenType) -> (r: Result<(), ParseError>)
        requires
            old(self).wf(),
            0 <= old(self)@.pos < old(self)@.tokens.len(),
        ensures
            final(self)@.tokens == old(self)@.tokens,
            final(parent)@.token == old(parent)@.token,
            match r {
                Ok(_) => {
                    &&& sp_parse_items(old(self)@.tokens, old(self)@.pos, stop, old(parent)@.children)
                        == Ok::<(Seq<NodeV>, int), ParseError>(
                        (final(parent)@.children, final(self)@.pos),
                    )
                    &&& old(self)@.pos <= final(self)@.pos < old(self)@.tokens.len()
                    &&& old(self)@.tokens[final(self)@.pos].kind == stop
                },
                Err(e) => sp_parse_items(old(self)@.tokens, old(self)@.pos, stop, old(
                    parent,
                )@.children) == Err::<(Seq<NodeV>, int), ParseError>(e),
            },
        decreases self@.tokens.len() - self@.pos, 9int, 0int,
    {
        if *self.peek().get_type() == stop {
            return Ok(());
        }
        let node = match self.parse_once() {
            Ok(n) => n,
            Err(e) => {
                return Err(e);
            },
        };
        parent.append(node);
        self.parse_items(parent, stop)
    }

    /// A braced statement group at the cursor, exactly as `sp_parse_block`
    /// prescribes.
    fn parse_block(&mut self, name: String, creates_scope: bool) -> (r: Result<ASTree, ParseError>)
        requires
            old(self).wf(),
            0 <= old(self)@.pos < old(self)@.tokens.len(),
        ensures
            final(self)@.tokens == old(self)@.tokens,
            match r {
                Ok(tree) => sp_parse_block(old(self)@.tokens, old(self)@.pos, name@, creates_scope)
                    == Ok::<(NodeV, int), ParseError>((tree@, final(self)@.pos)) && old(self)@.pos
                    < final(self)@.pos < old(self)@.tokens.len(),
                Err(e) => sp_parse_block(old(self)@.tokens, old(self)@.pos, name@, creates_scope)
                    == Err::<(NodeV, int), ParseError>(e),
            },
        decreases self@.tokens.len() - self@.pos, 7int, 0int,
    {
        let position: usize = *self.peek().get_position();
        let mut output = ASTree::new(
            Token::new(TokenType::BLOCK { creates_scope }, name, position),
        );
        match self.consume(TokenType::LBRACE) {
            Ok(_) => {},
            Err(e) => {
                return Err(e);
            },
        }
        match self.parse_items(&mut output, TokenType::RBRACE) {
            Ok(_) => {},
            Err(e) => {
                return Err(e);
            },
        }
        match self.consume(TokenType::RBRACE) {
            Ok(_) => {},
            Err(e) => {
                return Err(e);
            },
        }
        Ok(output)
    }

    /// An `if` statement at the cursor, exactly as `sp_parse_if` prescribes.
    fn parse_if(&mut self) -> (r: Result<ASTree, ParseError>)
        requires
            old(self).wf(),
            0 <= old(self)@.pos < old(self)@.tokens.len(),
            old(self)@.tokens[old(self)@.pos].kind != TokenType::EOF,
        ensures
            final(self)@.tokens == old(self)@.tokens,
            match r {
                Ok(tree) => sp_parse_if(old(self)@.tokens, old(self)@.pos) == Ok::<
                    (NodeV, int),
                    ParseError,
                >((tree@, final(self)@.pos)) && old(self)@.pos < final(self)@.pos < old(
                    self,
                )@.tokens.len(),
                Err(e) => sp_parse_if(old(self)@.tokens, old(self)@.pos) == Err::<
                    (NodeV, int),
                    ParseError,
                >(e),
            },
        decreases self@.tokens.len() - self@.pos, 7int, 0int,
    {
        let ghost toks = self@.tokens;
        let if_tok = self.advance();
        proof {
            assert(toks.last() == toks[toks.len() - 1]);
        }
        let mut output = ASTree::new(if_tok);
        match self.consume(TokenType::LPAREN) {
            Ok(_) => {},
            Err(e) => {
                return Err(e);
            },
        }
        let cond = match self.parse_expression() {
            Ok(c) => c,
            Err(e) => {
                return Err(e);
            },
        };
        output.append(cond);
        match self.consume(TokenType::RPAREN) {
            Ok(_) => {},
            Err(e) => {
                return Err(e);
            },
        }
        let then_block = match self.parse_block("if_block".to_owned(), true) {
            Ok(b) => b,
            Err(e) => {
                return Err(e);
            },
        };
        output.append(then_block);
        if *self.peek().get_type() == TokenType::ELSE {
            let _ = self.advance();
            proof {
                assert(toks.last() == toks[toks.len() - 1]);
            }
            let else_block = match self.parse_block("else_block".to_owned(), true) {
                Ok(b) => b,
                Err(e) => {
                    return Err(e);
                },
            };
            output.append(else_block);
            proof {
                assert(output@.children =~= seq![cond@, then_block@, else_block@]);
            }
            return Ok(output);
        }
        proof {
            assert(output@.children =~= seq![cond@, then_block@]);
        }
        Ok(output)
    }

    /// A `while` statement at the cursor, exactly as `sp_parse_while`
    /// prescribes.
    fn parse_while(&mut self) -> (r: Result<ASTree, ParseError>)
        requires
            old(self).wf(),
            0 <= old(self)@.pos < old(self)@.tokens.len(),
            old(self)@.tokens[old(self)@.pos].kind != TokenType::EOF,
        ensures
            final(self)@.tokens == old(self)@.tokens,
            match r {
                Ok(tree) => sp_parse_while(old(self)@.tokens, old(self)@.pos) == Ok::<
                    (NodeV, int),
                    ParseError,
                >((tree@, final(self)@.pos)) && old(self)@.pos < final(self)@.pos < old(
                    self,
                )@.tokens.len(),
                Err(e) => sp_parse_while(old(self)@.tokens, old(self)@.pos) == Err::<
                    (NodeV, int),
                    ParseError,
                >(e),
            },
        decreases self@.tokens.len() - self@.pos, 7int, 0int,
    {
        let ghost toks = self@.tokens;
        let while_tok = self.advance();
        proof {
            assert(toks.last() == toks[toks.len() - 1]);
        }
        let mut output = ASTree::new(while_tok);
        match self.consume(TokenType::LPAREN) {
            Ok(_) => {},
            Err(e) => {
                return Err(e);
            },
        }
        let cond = match self.parse_expression() {
            Ok(c) => c,
            Err(e) => {
                return Err(e);
            },
        };
        output.append(cond);
        match self.consume(TokenType::RPAREN) {
            Ok(_) => {},
            Err(e) => {
                return Err(e);
            },
        }
        let body = match self.parse_block("while_block".to_owned(), true) {
            Ok(b) => b,
            Err(e) => {
                return Err(e);
            },
        };
        output.append(body);
        proof {
            assert(output@.children =~= seq![cond@, body@]);
        }
        Ok(output)
    }

    /// A function definition's parameter list, appended as leaf children of
    /// `parent`, exactly as `sp_parse_params` prescribes.
    fn parse_params(&mut self, parent: &mut ASTree) -> (r: Result<(), ParseError>)
        requires
            old(self).wf(),
            0 <= old(self)@.pos < old(self)@.tokens.len(),
        ensures
            final(self)@.tokens == old(self)@.tokens,
            final(parent)@.token == old(parent)@.token,
            match r {
                Ok(_) => sp_parse_params(old(self)@.tokens, old(self)@.pos, old(parent)@.children)
                    == Ok::<(Seq<NodeV>, int), ParseError>(
                    (final(parent)@.children, final(self)@.pos),
                ) && old(self)@.pos <= final(self)@.pos < old(self)@.tokens.len(),
                Err(e) => sp_parse_params(old(self)@.tokens, old(self)@.pos, old(parent)@.children)
                    == Err::<(Seq<NodeV>, int), ParseError>(e),
            },
        decreases self@.tokens.len() - self@.pos, 7int, 0int,
    {
        let ghost toks = self@.tokens;
        if *self.peek().get_type() == TokenType::RPAREN {
            return Ok(());
        }
        let id_tok = match self.consume(TokenType::IDENTIFIER) {
            Ok(t) => t,
            Err(e) => {
                return Err(e);
            },
        };
        parent.append(ASTree::new(id_tok));
        if *self.peek().get_type() == TokenType::COMMA {
            let _ = self.advance();
            proof {
                assert(toks.last() == toks[toks.len() - 1]);
            }
            self.parse_params(parent)
        } else {
            Ok(())
        }
    }

    /// A function definition at the cursor, exactly as `sp_parse_fn_def`
    /// prescribes: name, parameters, and a body block that is not
    /// scope-creating.
    fn parse_fn_def(&mut self) -> (r: Result<ASTree, ParseError>)
        requires
            old(self).wf(),
            0 <= old(self)@.pos < old(self)@.tokens.len(),
            old(self)@.tokens[old(self)@.pos].kind != TokenType::EOF,
        ensures
            final(self)@.tokens == old(self)@.tokens,
            match r {
                Ok(tree) => sp_parse_fn_def(old(self)@.tokens, old(self)@.pos) == Ok::<
                    (NodeV, int),
                    ParseError,
                >((tree@, final(self)@.pos)) && old(self)@.pos < final(self)@.pos < old(
                    self,
                )@.tokens.len(),
                Err(e) => sp_parse_fn_def(old(self)@.tokens, old(self)@.pos) == Err::<
                    (NodeV, int),
                    ParseError,
                >(e),
            },
        decreases self@.tokens.len() - self@.pos, 7int, 0int,
    {
        let ghost toks = self@.tokens;
        let fn_tok = self.advance();
        proof {
            assert(toks.last() == toks[toks.len() - 1]);
        }
        let mut output = ASTree::new(fn_tok);
        let name_tok = match self.consume(TokenType::IDENTIFIER) {
            Ok(t) => t,
            Err(e) => {
                return Err(e);
            },
        };
        output.append(ASTree::new(name_tok));
        match self.consume(TokenType::LPAREN) {
            Ok(_) => {},
            Err(e) => {
                return Err(e);
            },
        }
        proof {
            assert(output@.children =~= seq![leaf(name_tok@)]);
        }
        match self.parse_params(&mut output) {
            Ok(_) => {},
            Err(e) => {
                return Err(e);
            },
        }
        match self.consume(TokenType::RPAREN) {
            Ok(_) => {},
            Err(e) => {
                return Err(e);
            },
        }
        let body = match self.parse_block("fn_block".to_owned(), false) {
            Ok(b) => b,
            Err(e) => {
                return Err(e);
            },
        };
        output.append(body);
        Ok(output)
    }

    /// One statement at the cursor, dispatched on its token kind, exactly as
    /// `sp_parse_once` prescribes.
    fn parse_once(&mut self) -> (r: Result<ASTree, ParseError>)
        requires
            old(self).wf(),
            0 <= old(self)@.pos < old(self)@.tokens.len(),
        ensures
            final(self)@.tokens == old(self)@.tokens,
            match r {
                Ok(tree) => sp_parse_once(old(self)@.tokens, old(self)@.pos) == Ok::<
                    (NodeV, int),
                    ParseError,
                >((tree@, final(self)@.pos)) && old(self)@.pos < final(self)@.pos < old(
                    self,
                )@.tokens.len(),
                Err(e) => sp_parse_once(old(self)@.tokens, old(self)@.pos) == Err::<
                    (NodeV, int),
                    ParseError,
                >(e),
            },
        decreases self@.tokens.len() - self@.pos, 8int, 0int,
    {
        let kind: TokenType = *self.peek().get_type();
        if kind == TokenType::IF {
            self.parse_if()
        } else if kind == TokenType::WHILE {
            self.parse_while()
        } else if kind == TokenType::FN {
            self.parse_fn_def()
        } else if kind == TokenType::LBRACE {
            self.parse_block("gen_block".to_owned(), true)
        } else if kind == TokenType::IDENTIFIER && self.pos < self.tokens.len() - 1
            && *self.tokens[self.pos + 1].get_type() == TokenType::ASSIGN {
            self.parse_assign()
        } else {
            self.parse_expression()
        }
    }

    /// Parses the whole token stream into one scope-creating root block
    /// holding every top-level statement, exactly as `sp_parse` prescribes
    /// from the current cursor.
    ///
    /// The stream must be one the parser is meant for: ending with the EOF
    /// sentinel, every binary-operator token carrying an operator spelling
    /// (`tokens_wf`) — the lexer produces only such streams.
    pub fn parse(&mut self) -> (r: Result<ASTree, ParseError>)
        requires
            old(self).wf(),
            0 <= old(self)@.pos < old(self)@.tokens.len(),
        ensures
            final(self)@.tokens == old(self)@.tokens,
            match r {
                Ok(tree) => sp_parse(old(self)@.tokens, old(self)@.pos) == Ok::<NodeV, ParseError>(
                    tree@,
                ),
                Err(e) => sp_parse(old(self)@.tokens, old(self)@.pos) == Err::<NodeV, ParseError>(
                    e,
                ),
            },
    {
        let mut output = ASTree::new(
            Token::new(TokenType::BLOCK { creates_scope: true }, "program".to_owned(), 0),
        );
        match self.parse_items(&mut output, TokenType::EOF) {
            Ok(_) => Ok(output),
            Err(e) => Err(e),
        }
    }
}

} // verus!
