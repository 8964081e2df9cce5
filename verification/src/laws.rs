//! Laws of the interpreter as a whole, proved over the stage models.
//!
//! The scope discipline itself — evaluation touches no scope but the
//! innermost one — is `lemma_eval_scope_isolation` beside the evaluator.

use vstd::prelude::*;

use crate::ast::{spec_binop, spec_eval, spec_eval_stmts, NodeV, ValueKind, ValueV};
use crate::context::{empty_scope, ScopeV};
use crate::errors::{EvalErrorV, InterpErrorV, LexError, ParseError};
use crate::interp::spec_interpret;
use crate::lexer::{eof_token, numeric_token, spec_lex, spec_tokenize, LexerState};
use crate::numbers::{all_digits, digits_value, is_digit_char, lemma_digits_value_nonneg};
use crate::parser::{
    leaf, op_priority, program_token, sp_fold, sp_parse, sp_parse_expression, sp_parse_items,
    sp_parse_once, sp_shunting, sy_flush,
};
use crate::token::{TokenType, TokenV};

verus! {

/// From inside a run of digits reaching the end of the source, the machine
/// emits that whole run as one numeric token and then the EOF sentinel.
proof fn lemma_lex_digit_run(s: Seq<char>, i: int, start: int, out: Seq<TokenV>)
    requires
        0 <= start <= i <= s.len(),
        forall|k: int| i <= k < s.len() ==> is_digit_char(#[trigger] s[k]),
    ensures
        spec_lex(s, i, LexerState::NUMBER, start, out) == Ok::<Seq<TokenV>, LexError>(
            out.push(numeric_token(s, start, s.len() as int)).push(eof_token(s.len() as int)),
        ),
    decreases s.len() - i,
{
    if i < s.len() {
        lemma_lex_digit_run(s, i + 1, start, out);
    }
}

/// Interpreting a source text that is one valid integer literal yields
/// exactly that integer, whatever the step budget.
pub proof fn law_integer_literal(s: Seq<char>, fuel: nat)
    requires
        s.len() >= 1,
        all_digits(s),
        digits_value(s) <= i32::MAX,
    ensures
        spec_interpret(s, fuel) == Ok::<ValueV, InterpErrorV>(ValueV::Int(digits_value(s))),
{
    lemma_digits_value_nonneg(s);

    // Lexing: the whole source is one numeric token, then the sentinel.
    let n = s.len() as int;
    let num_tok = numeric_token(s, 0, n);
    let toks = Seq::<TokenV>::empty().push(num_tok).push(eof_token(n));
    lemma_lex_digit_run(s, 1, 0, Seq::empty());
    assert(spec_tokenize(s) == Ok::<Seq<TokenV>, LexError>(toks));
    assert(num_tok.text =~= s);

    // Parsing: a single-operand expression, wrapped in the root block.
    assert(toks.len() == 2 && toks[0] == num_tok && toks[1] == eof_token(n));
    let one_leaf = Seq::<NodeV>::empty().push(leaf(num_tok));
    assert(sp_shunting(toks, 1, Seq::empty(), true, one_leaf) == Ok::<
        (Seq<NodeV>, int),
        ParseError,
    >((sy_flush(Seq::empty(), one_leaf), 1)));
    assert(sy_flush(Seq::empty(), one_leaf) =~= one_leaf);
    assert(sp_shunting(toks, 0, Seq::empty(), false, Seq::empty()) == Ok::<
        (Seq<NodeV>, int),
        ParseError,
    >((one_leaf, 1)));
    assert(one_leaf.drop_first() =~= Seq::<NodeV>::empty());
    assert(one_leaf[0] == leaf(num_tok));
    assert(sp_fold(Seq::<NodeV>::empty(), one_leaf) == Ok::<Seq<NodeV>, ParseError>(one_leaf));
    assert(sp_fold(one_leaf, Seq::empty()) == Ok::<Seq<NodeV>, ParseError>(one_leaf));
    assert(sp_parse_expression(toks, 0) == Ok::<(NodeV, int), ParseError>(
        (leaf(num_tok), 1),
    ));
    assert(sp_parse_once(toks, 0) == Ok::<(NodeV, int), ParseError>((leaf(num_tok), 1)));
    let children = Seq::<NodeV>::empty().push(leaf(num_tok));
    assert(sp_parse_items(toks, 1, TokenType::EOF, children) == Ok::<
        (Seq<NodeV>, int),
        ParseError,
    >((children, 1)));
    assert(sp_parse_items(toks, 0, TokenType::EOF, Seq::empty()) == Ok::<
        (Seq<NodeV>, int),
        ParseError,
    >((children, 1)));
    let root = NodeV { token: program_token(), children };
    assert(sp_parse(toks, 0) == Ok::<NodeV, ParseError>(root));

    // Evaluating: the literal's text denotes its digits' value.
    let ctx0 = seq![empty_scope()];
    let ctx1 = ctx0.push(empty_scope());
    let v = digits_value(s);
    assert(crate::numbers::str_to_i32(s) == Some((v as i32)));
    assert(spec_eval(leaf(num_tok), ctx1, fuel) == Ok::<(ValueV, Seq<ScopeV>), EvalErrorV>(
        (ValueV::Int(v), ctx1),
    ));
    assert(children[0] == leaf(num_tok));
    assert(spec_eval_stmts(children, 1, ctx1, fuel, ValueV::Int(v)) == Ok::<
        (ValueV, Seq<ScopeV>),
        EvalErrorV,
    >((ValueV::Int(v), ctx1)));
    assert(spec_eval_stmts(children, 0, ctx1, fuel, ValueV::Null) == Ok::<
        (ValueV, Seq<ScopeV>),
        EvalErrorV,
    >((ValueV::Int(v), ctx1)));
    assert(ctx1.drop_last() =~= ctx0);
    assert(spec_eval(root, ctx0, fuel) == Ok::<(ValueV, Seq<ScopeV>), EvalErrorV>(
        (ValueV::Int(v), ctx0),
    ));
}

/// Tokenizing is deterministic: the token sequence is a function of the
/// source text alone, so tokenizing the same source twice yields identical
/// results. The lexer's contract pins its result to `spec_tokenize`, so any
/// two runs over equal inputs agree.
pub proof fn law_tokenize_deterministic(
    s: Seq<char>,
    r1: Result<Seq<TokenV>, LexError>,
    r2: Result<Seq<TokenV>, LexError>,
)
    requires
        r1 == spec_tokenize(s),
        r2 == spec_tokenize(s),
    ensures
        r1 == r2,
{
}

/// Dividing any integer by zero is the division-by-zero error — an error
/// value, never a crash, as the evaluator returns every error it raises.
pub proof fn law_division_by_zero(a: int, position: usize)
    ensures
        spec_binop("/"@, ValueV::Int(a), ValueV::Int(0), position) == Err::<ValueV, EvalErrorV>(
            EvalErrorV::DivisionByZero { position },
        ),
{
    reveal_strlit("+");
    reveal_strlit("-");
    reveal_strlit("*");
    reveal_strlit("/");
    assert("+"@[0] == '+' && "-"@[0] == '-' && "*"@[0] == '*' && "/"@[0] == '/');
    assert("/"@ != "+"@ && "/"@ != "-"@ && "/"@ != "*"@);
}

/// A binary operation over an integer and a boolean, whatever the operator,
/// is a type-mismatch error naming both runtime types.
pub proof fn law_mixed_type_mismatch(op: Seq<char>, a: int, b: bool, position: usize)
    ensures
        spec_binop(op, ValueV::Int(a), ValueV::Bool(b), position) == Err::<ValueV, EvalErrorV>(
            EvalErrorV::TypeMismatch {
                left: ValueKind::Integer,
                right: ValueKind::Boolean,
                position,
            },
        ),
{
}

/// The operator priorities: comparisons and connectives bind weakest, then
/// the additive, then the multiplicative operators.
proof fn lemma_op_priorities()
    ensures
        op_priority("=="@) == 1,
        op_priority("!="@) == 1,
        op_priority("&&"@) == 1,
        op_priority("||"@) == 1,
        op_priority("+"@) == 2,
        op_priority("-"@) == 2,
        op_priority("*"@) == 3,
        op_priority("/"@) == 3,
{
    reveal_strlit("==");
    reveal_strlit("!=");
    reveal_strlit("&&");
    reveal_strlit("||");
    reveal_strlit("+");
    reveal_strlit("-");
    reveal_strlit("*");
    reveal_strlit("/");
    assert("+"@.len() == 1 && "-"@.len() == 1 && "*"@.len() == 1 && "/"@.len() == 1);
    assert("=="@.len() == 2 && "!="@.len() == 2 && "&&"@.len() == 2 && "||"@.len() == 2);
    assert("+"@[0] == '+' && "-"@[0] == '-' && "*"@[0] == '*' && "/"@[0] == '/');
}

/// Multiplication binds tighter than addition: for any three numeric tokens,
/// the token run `a + b * c` parses as `a + (b * c)`.
pub proof fn law_precedence(ta: TokenV, tb: TokenV, tc: TokenV, plus: TokenV, times: TokenV, eof: TokenV)
    requires
        ta.kind == TokenType::NUMERIC,
        tb.kind == TokenType::NUMERIC,
        tc.kind == TokenType::NUMERIC,
        plus.kind == TokenType::BINARYOP,
        plus.text == "+"@,
        times.kind == TokenType::BINARYOP,
        times.text == "*"@,
        eof.kind == TokenType::EOF,
    ensures
        sp_parse(seq![ta, plus, tb, times, tc, eof], 0) == Ok::<NodeV, ParseError>(
            NodeV {
                token: program_token(),
                children: seq![
                    NodeV {
                        token: plus,
                        children: seq![
                            leaf(ta),
                            NodeV { token: times, children: seq![leaf(tb), leaf(tc)] },
                        ],
                    },
                ],
            },
        ),
{
    lemma_op_priorities();
    let toks = seq![ta, plus, tb, times, tc, eof];
    let out3 = seq![leaf(ta), leaf(tb), leaf(tc)];
    let stack2 = seq![plus, times];

    // The shunting-yard pass: operands flow to the output, `*` stacks on `+`
    // because it binds tighter, and the sentinel flushes the stack.
    assert(sp_shunting(toks, 5, stack2, true, out3) == Ok::<(Seq<NodeV>, int), ParseError>(
        (sy_flush(stack2, out3), 5),
    ));
    let postfix = seq![leaf(ta), leaf(tb), leaf(tc), leaf(times), leaf(plus)];
    assert(sy_flush(stack2, out3) =~= postfix);
    assert(seq![plus].push(times) =~= stack2);
    assert(seq![leaf(ta), leaf(tb)].push(leaf(tc)) =~= out3);
    assert(sp_shunting(toks, 4, stack2, false, seq![leaf(ta), leaf(tb)]) == Ok::<
        (Seq<NodeV>, int),
        ParseError,
    >((postfix, 5)));
    assert(sp_shunting(toks, 3, seq![plus], true, seq![leaf(ta), leaf(tb)]) == Ok::<
        (Seq<NodeV>, int),
        ParseError,
    >((postfix, 5)));
    assert(seq![leaf(ta)].push(leaf(tb)) =~= seq![leaf(ta), leaf(tb)]);
    assert(sp_shunting(toks, 2, seq![plus], false, seq![leaf(ta)]) == Ok::<
        (Seq<NodeV>, int),
        ParseError,
    >((postfix, 5)));
    assert(Seq::<TokenV>::empty().push(plus) =~= seq![plus]);
    assert(sp_shunting(toks, 1, Seq::empty(), true, seq![leaf(ta)]) == Ok::<
        (Seq<NodeV>, int),
        ParseError,
    >((postfix, 5)));
    assert(Seq::<NodeV>::empty().push(leaf(ta)) =~= seq![leaf(ta)]);
    assert(sp_shunting(toks, 0, Seq::empty(), false, Seq::empty()) == Ok::<
        (Seq<NodeV>, int),
        ParseError,
    >((postfix, 5)));

    // The fold: `*` takes the two most recent operands, then `+` takes the
    // first operand and the product.
    let mul_node = NodeV { token: times, children: seq![leaf(tb), leaf(tc)] };
    let add_node = NodeV { token: plus, children: seq![leaf(ta), mul_node] };
    assert(postfix.drop_first() =~= seq![leaf(tb), leaf(tc), leaf(times), leaf(plus)]);
    assert(postfix.drop_first().drop_first() =~= seq![leaf(tc), leaf(times), leaf(plus)]);
    assert(postfix.drop_first().drop_first().drop_first() =~= seq![leaf(times), leaf(plus)]);
    assert(seq![leaf(times), leaf(plus)].drop_first() =~= seq![leaf(plus)]);
    assert(seq![leaf(plus)].drop_first() =~= Seq::<NodeV>::empty());
    assert(sp_fold(Seq::<NodeV>::empty(), seq![add_node]) == Ok::<Seq<NodeV>, ParseError>(
        seq![add_node],
    ));
    let stack3 = seq![leaf(ta), leaf(tb), leaf(tc)];
    assert(stack3.last() == leaf(tc) && stack3[1] == leaf(tb));
    assert(stack3.drop_last().drop_last().push(mul_node) =~= seq![leaf(ta), mul_node]);
    assert(leaf(times).children.push(leaf(tb)).push(leaf(tc)) =~= mul_node.children);
    assert(sp_fold(seq![leaf(plus)], seq![leaf(ta), mul_node]) == Ok::<Seq<NodeV>, ParseError>(
        seq![add_node],
    )) by {
        let st = seq![leaf(ta), mul_node];
        assert(st.last() == mul_node && st[0] == leaf(ta));
        assert(st.drop_last().drop_last().push(add_node) =~= seq![add_node]);
        assert(leaf(plus).children.push(leaf(ta)).push(mul_node) =~= add_node.children);
        assert(sp_fold(Seq::<NodeV>::empty(), seq![add_node]) == Ok::<Seq<NodeV>, ParseError>(
            seq![add_node],
        ));
    }
    assert(sp_fold(seq![leaf(times), leaf(plus)], stack3) == Ok::<Seq<NodeV>, ParseError>(
        seq![add_node],
    ));
    assert(seq![leaf(ta), leaf(tb)].push(leaf(tc)) =~= stack3);
    assert(sp_fold(seq![leaf(tc), leaf(times), leaf(plus)], seq![leaf(ta), leaf(tb)]) == Ok::<
        Seq<NodeV>,
        ParseError,
    >(seq![add_node]));
    assert(seq![leaf(tb), leaf(tc), leaf(times), leaf(plus)].drop_first() =~= seq![
        leaf(tc),
        leaf(times),
        leaf(plus),
    ]);
    assert(seq![leaf(ta)].push(leaf(tb)) =~= seq![leaf(ta), leaf(tb)]);
    assert(sp_fold(seq![leaf(tb), leaf(tc), leaf(times), leaf(plus)], seq![leaf(ta)]) == Ok::<
        Seq<NodeV>,
        ParseError,
    >(seq![add_node]));
    assert(Seq::<NodeV>::empty().push(leaf(ta)) =~= seq![leaf(ta)]);
    assert(sp_fold(postfix, Seq::empty()) == Ok::<Seq<NodeV>, ParseError>(seq![add_node]));

    assert(sp_parse_expression(toks, 0) == Ok::<(NodeV, int), ParseError>((add_node, 5)));
    assert(sp_parse_once(toks, 0) == Ok::<(NodeV, int), ParseError>((add_node, 5)));
    let children = Seq::<NodeV>::empty().push(add_node);
    assert(sp_parse_items(toks, 5, TokenType::EOF, children) == Ok::<
        (Seq<NodeV>, int),
        ParseError,
    >((children, 5)));
    assert(sp_parse_items(toks, 0, TokenType::EOF, Seq::empty()) == Ok::<
        (Seq<NodeV>, int),
        ParseError,
    >((children, 5)));
    assert(children =~= seq![add_node]);
    assert(sp_parse(toks, 0) == Ok::<NodeV, ParseError>(
        NodeV { token: program_token(), children: seq![add_node] },
    ));
}

/// Operators of equal priority group to the left: for any three numeric
/// tokens, the token run `a - b - c` parses as `(a - b) - c`.
pub proof fn law_left_associativity(
    ta: TokenV,
    tb: TokenV,
    tc: TokenV,
    m1: TokenV,
    m2: TokenV,
    eof: TokenV,
)
    requires
        ta.kind == TokenType::NUMERIC,
        tb.kind == TokenType::NUMERIC,
        tc.kind == TokenType::NUMERIC,
        m1.kind == TokenType::BINARYOP,
        m1.text == "-"@,
        m2.kind == TokenType::BINARYOP,
        m2.text == "-"@,
        eof.kind == TokenType::EOF,
    ensures
        sp_parse(seq![ta, m1, tb, m2, tc, eof], 0) == Ok::<NodeV, ParseError>(
            NodeV {
                token: program_token(),
                children: seq![
                    NodeV {
                        token: m2,
                        children: seq![
                            NodeV { token: m1, children: seq![leaf(ta), leaf(tb)] },
                            leaf(tc),
                        ],
                    },
                ],
            },
        ),
{
    lemma_op_priorities();
    let toks = seq![ta, m1, tb, m2, tc, eof];
    let out4 = seq![leaf(ta), leaf(tb), leaf(m1), leaf(tc)];
    let postfix = seq![leaf(ta), leaf(tb), leaf(m1), leaf(tc), leaf(m2)];

    // The shunting-yard pass: the second `-` pops the first (equal priority,
    // left association) before taking its place on the stack.
    assert(sp_shunting(toks, 5, seq![m2], true, out4) == Ok::<(Seq<NodeV>, int), ParseError>(
        (sy_flush(seq![m2], out4), 5),
    ));
    assert(sy_flush(seq![m2], out4) =~= postfix);
    assert(seq![leaf(ta), leaf(tb), leaf(m1)].push(leaf(tc)) =~= out4);
    assert(sp_shunting(toks, 4, seq![m2], false, seq![leaf(ta), leaf(tb), leaf(m1)]) == Ok::<
        (Seq<NodeV>, int),
        ParseError,
    >((postfix, 5)));
    assert(Seq::<TokenV>::empty().push(m2) =~= seq![m2]);
    assert(sp_shunting(toks, 3, Seq::empty(), true, seq![leaf(ta), leaf(tb), leaf(m1)]) == Ok::<
        (Seq<NodeV>, int),
        ParseError,
    >((postfix, 5)));
    let stack1 = seq![m1];
    assert(stack1.last() == m1 && stack1.drop_last() =~= Seq::<TokenV>::empty());
    assert(seq![leaf(ta), leaf(tb)].push(leaf(m1)) =~= seq![leaf(ta), leaf(tb), leaf(m1)]);
    assert(sp_shunting(toks, 3, stack1, true, seq![leaf(ta), leaf(tb)]) == Ok::<
        (Seq<NodeV>, int),
        ParseError,
    >((postfix, 5)));
    assert(seq![leaf(ta)].push(leaf(tb)) =~= seq![leaf(ta), leaf(tb)]);
    assert(sp_shunting(toks, 2, stack1, false, seq![leaf(ta)]) == Ok::<
        (Seq<NodeV>, int),
        ParseError,
    >((postfix, 5)));
    assert(Seq::<TokenV>::empty().push(m1) =~= stack1);
    assert(sp_shunting(toks, 1, Seq::empty(), true, seq![leaf(ta)]) == Ok::<
        (Seq<NodeV>, int),
        ParseError,
    >((postfix, 5)));
    assert(Seq::<NodeV>::empty().push(leaf(ta)) =~= seq![leaf(ta)]);
    assert(sp_shunting(toks, 0, Seq::empty(), false, Seq::empty()) == Ok::<
        (Seq<NodeV>, int),
        ParseError,
    >((postfix, 5)));

    // The fold: the first `-` takes the first two operands, the second takes
    // that difference and the third operand.
    let sub1 = NodeV { token: m1, children: seq![leaf(ta), leaf(tb)] };
    let sub2 = NodeV { token: m2, children: seq![sub1, leaf(tc)] };
    assert(sp_fold(Seq::<NodeV>::empty(), seq![sub2]) == Ok::<Seq<NodeV>, ParseError>(
        seq![sub2],
    ));
    assert(sp_fold(seq![leaf(m2)], seq![sub1, leaf(tc)]) == Ok::<Seq<NodeV>, ParseError>(
        seq![sub2],
    )) by {
        let st = seq![sub1, leaf(tc)];
        assert(st.last() == leaf(tc) && st[0] == sub1);
        assert(st.drop_last().drop_last().push(sub2) =~= seq![sub2]);
        assert(leaf(m2).children.push(sub1).push(leaf(tc)) =~= sub2.children);
        assert(seq![leaf(m2)].drop_first() =~= Seq::<NodeV>::empty());
        assert(sp_fold(Seq::<NodeV>::empty(), seq![sub2]) == Ok::<Seq<NodeV>, ParseError>(
            seq![sub2],
        ));
    }
    assert(seq![sub1].push(leaf(tc)) =~= seq![sub1, leaf(tc)]);
    assert(seq![leaf(tc), leaf(m2)].drop_first() =~= seq![leaf(m2)]);
    assert(sp_fold(seq![leaf(tc), leaf(m2)], seq![sub1]) == Ok::<Seq<NodeV>, ParseError>(
        seq![sub2],
    ));
    assert(sp_fold(seq![leaf(m1), leaf(tc), leaf(m2)], seq![leaf(ta), leaf(tb)]) == Ok::<
        Seq<NodeV>,
        ParseError,
    >(seq![sub2])) by {
        let st = seq![leaf(ta), leaf(tb)];
        assert(st.last() == leaf(tb) && st[0] == leaf(ta));
        assert(st.drop_last().drop_last().push(sub1) =~= seq![sub1]);
        assert(leaf(m1).children.push(leaf(ta)).push(leaf(tb)) =~= sub1.children);
        assert(seq![leaf(m1), leaf(tc), leaf(m2)].drop_first() =~= seq![leaf(tc), leaf(m2)]);
        assert(sp_fold(seq![leaf(tc), leaf(m2)], seq![sub1]) == Ok::<Seq<NodeV>, ParseError>(
            seq![sub2],
        ));
    }
    assert(seq![leaf(tb), leaf(m1), leaf(tc), leaf(m2)].drop_first() =~= seq![
        leaf(m1),
        leaf(tc),
        leaf(m2),
    ]);
    assert(seq![leaf(ta)].push(leaf(tb)) =~= seq![leaf(ta), leaf(tb)]);
    assert(sp_fold(seq![leaf(tb), leaf(m1), leaf(tc), leaf(m2)], seq![leaf(ta)]) == Ok::<
        Seq<NodeV>,
        ParseError,
    >(seq![sub2]));
    assert(postfix.drop_first() =~= seq![leaf(tb), leaf(m1), leaf(tc), leaf(m2)]);
    assert(sp_fold(postfix, Seq::empty()) == Ok::<Seq<NodeV>, ParseError>(seq![sub2]));

    assert(sp_parse_expression(toks, 0) == Ok::<(NodeV, int), ParseError>((sub2, 5)));
    assert(sp_parse_once(toks, 0) == Ok::<(NodeV, int), ParseError>((sub2, 5)));
    let children = Seq::<NodeV>::empty().push(sub2);
    assert(sp_parse_items(toks, 5, TokenType::EOF, children) == Ok::<
        (Seq<NodeV>, int),
        ParseError,
    >((children, 5)));
    assert(sp_parse_items(toks, 0, TokenType::EOF, Seq::empty()) == Ok::<
        (Seq<NodeV>, int),
        ParseError,
    >((children, 5)));
    assert(children =~= seq![sub2]);
    assert(sp_parse(toks, 0) == Ok::<NodeV, ParseError>(
        NodeV { token: program_token(), children: seq![sub2] },
    ));
}

} // verus!
