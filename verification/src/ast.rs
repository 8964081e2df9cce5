//! Syntax-tree nodes, runtime values, and the evaluator.
//!
//! An `ASTree` node is a token plus an ordered sequence of children; the
//! children counts and order are fixed per token kind. Children are held
//! through reference-counted handles so that a function body can be shared
//! between the defining tree and the binding registered for it in a
//! `Context` without copying the subtree.

use vstd::prelude::*;

use crate::context::{
    empty_scope, lookup_fn, lookup_var, set_fn_innermost, set_var_innermost, Context, ScopeV,
};
use crate::errors::{EvalError, EvalErrorV};
use crate::numbers::{parse_i32, str_to_i32};
use crate::token::{Token, TokenType, TokenV};

verus! {

/// A value produced during evaluation.
#[derive(Clone, Debug)]
pub enum RuntimeValue {
    /// An integer value.
    INTEGER(i32),
    /// A string value.
    STRING(String),
    /// A null value.
    NULL,
    /// A boolean value.
    BOOL(bool),
}

/// Mathematical model of a runtime value.
pub enum ValueV {
    Int(int),
    Str(Seq<char>),
    Null,
    Bool(bool),
}

impl View for RuntimeValue {
    type V = ValueV;

    open spec fn view(&self) -> ValueV {
        match self {
            RuntimeValue::INTEGER(i) => ValueV::Int(*i as int),
            RuntimeValue::STRING(s) => ValueV::Str(s@),
            RuntimeValue::NULL => ValueV::Null,
            RuntimeValue::BOOL(b) => ValueV::Bool(*b),
        }
    }
}

impl DeepView for RuntimeValue {
    type V = ValueV;

    open spec fn deep_view(&self) -> ValueV {
        self.view()
    }
}

/// The four runtime types, as named by type-mismatch diagnostics.
#[derive(Copy, Clone, PartialEq, Eq, Structural, Debug)]
pub enum ValueKind {
    Integer,
    Text,
    Boolean,
    Null,
}

/// The runtime type of a value.
pub open spec fn kind_of(v: ValueV) -> ValueKind {
    match v {
        ValueV::Int(_) => ValueKind::Integer,
        ValueV::Str(_) => ValueKind::Text,
        ValueV::Bool(_) => ValueKind::Boolean,
        ValueV::Null => ValueKind::Null,
    }
}

impl RuntimeValue {
    /// The runtime type of this value.
    pub fn kind(&self) -> (k: ValueKind)
        ensures
            k == kind_of(self@),
    {
        match self {
            RuntimeValue::INTEGER(_) => ValueKind::Integer,
            RuntimeValue::STRING(_) => ValueKind::Text,
            RuntimeValue::BOOL(_) => ValueKind::Boolean,
            RuntimeValue::NULL => ValueKind::Null,
        }
    }

    /// A copy of this value.
    pub fn duplicate(&self) -> (r: RuntimeValue)
        ensures
            r@ == self@,
    {
        match self {
            RuntimeValue::INTEGER(i) => RuntimeValue::INTEGER(*i),
            RuntimeValue::STRING(s) => RuntimeValue::STRING(s.clone()),
            RuntimeValue::NULL => RuntimeValue::NULL,
            RuntimeValue::BOOL(b) => RuntimeValue::BOOL(*b),
        }
    }
}

/// Mathematical model of a syntax-tree node: a token and its children.
pub struct NodeV {
    pub token: TokenV,
    pub children: Seq<NodeV>,
}

/// A node in the syntax tree.
#[derive(Debug)]
pub struct ASTree {
    children: Vec<std::rc::Rc<ASTree>>,
    token: Token,
}

/// The model of the tree rooted at `t`.
pub closed spec fn ast_view(t: ASTree) -> NodeV
    decreases t,
{
    NodeV { token: t.token@, children: forest_view(t.children@) }
}

/// The models of a sequence of shared subtrees, in order.
pub closed spec fn forest_view(s: Seq<std::rc::Rc<ASTree>>) -> Seq<NodeV>
    decreases s,
{
    if s.len() == 0 {
        Seq::empty()
    } else {
        seq![ast_view(*s[0])] + forest_view(s.drop_first())
    }
}

/// A forest's model has one entry per subtree, each the subtree's own model.
pub proof fn lemma_forest_view(s: Seq<std::rc::Rc<ASTree>>)
    ensures
        forest_view(s).len() == s.len(),
        forall|i: int| 0 <= i < s.len() ==> #[trigger] forest_view(s)[i] == ast_view(*s[i]),
    decreases s,
{
    if s.len() > 0 {
        lemma_forest_view(s.drop_first());
    }
}

impl View for ASTree {
    type V = NodeV;

    open spec fn view(&self) -> NodeV {
        ast_view(*self)
    }
}

impl DeepView for ASTree {
    type V = NodeV;

    open spec fn deep_view(&self) -> NodeV {
        ast_view(*self)
    }
}

impl ASTree {
    /// Creates a leaf node holding the given token.
    pub fn new(token: Token) -> (t: ASTree)
        ensures
            t@ == (NodeV { token: token@, children: Seq::<NodeV>::empty() }),
    {
        ASTree { children: Vec::new(), token }
    }

    /// Appends `child` as this node's last child.
    pub fn append(&mut self, child: ASTree)
        ensures
            final(self)@ == (NodeV {
                token: old(self)@.token,
                children: old(self)@.children.push(child@),
            }),
    {
        let ghost old_children = self.children@;
        let ghost child_node = child@;
        self.children.push(std::rc::Rc::new(child));
        proof {
            lemma_forest_push(old_children, self.children@[old_children.len() as int]);
            assert(self.children@ =~= old_children.push(
                self.children@[old_children.len() as int],
            ));
        }
    }

    /// The token at this node.
    pub fn get_token(&self) -> (t: &Token)
        ensures
            t@ == self@.token,
    {
        &self.token
    }

    /// How many children this node has.
    pub fn child_count(&self) -> (n: usize)
        ensures
            n == self@.children.len(),
    {
        proof {
            lemma_forest_view(self.children@);
        }
        self.children.len()
    }
}

/// Mathematical model of a function binding.
pub struct FunctionV {
    pub params: Seq<Seq<char>>,
    pub body: NodeV,
}

/// A function binding: its parameter names, in order, and its body block,
/// shared with the syntax tree that defined it.
#[derive(Debug)]
pub struct Function {
    params: Vec<String>,
    body: std::rc::Rc<ASTree>,
}

impl View for Function {
    type V = FunctionV;

    closed spec fn view(&self) -> FunctionV {
        FunctionV { params: self.params.deep_view(), body: self.body@ }
    }
}

impl DeepView for Function {
    type V = FunctionV;

    open spec fn deep_view(&self) -> FunctionV {
        self.view()
    }
}

impl Function {
    /// Creates a binding from parameter names and a shared body.
    pub fn new(params: Vec<String>, body: std::rc::Rc<ASTree>) -> (f: Function)
        ensures
            f@ == (FunctionV { params: params.deep_view(), body: body@ }),
    {
        Function { params, body }
    }

    /// A second handle to the same binding: the parameter names are copied,
    /// the body is shared.
    pub fn duplicate(&self) -> (f: Function)
        ensures
            f@ == self@,
    {
        let f = Function { params: clone_names(&self.params), body: std::rc::Rc::clone(&self.body) };
        proof {
            assert(f@.params =~= self@.params);
        }
        f
    }

    /// This binding's parameter names, in order.
    pub fn params(&self) -> (r: &Vec<String>)
        ensures
            r.deep_view() == self@.params,
    {
        &self.params
    }

    /// This binding's body block.
    pub fn body(&self) -> (r: &ASTree)
        ensures
            r@ == self@.body,
    {
        &self.body
    }
}

/// Copies a list of names element by element.
fn clone_names(v: &Vec<String>) -> (r: Vec<String>)
    ensures
        r@ == v@,
{
    let mut out: Vec<String> = Vec::new();
    let mut i: usize = 0;
    while i < v.len()
        invariant
            i <= v.len(),
            out@ =~= v@.subrange(0, i as int),
        decreases v.len() - i,
    {
        out.push(v[i].clone());
        i = i + 1;
        proof {
            assert(out@ =~= v@.subrange(0, i as int));
        }
    }
    proof {
        assert(v@.subrange(0, v@.len() as int) =~= v@);
    }
    out
}

/// Truncating division, as the `/` of the evaluated language computes it: the
/// quotient of the magnitudes, negative when exactly one operand is negative.
pub open spec fn trunc_div(x: int, d: int) -> int {
    if x == 0 {
        0
    } else if x > 0 && d > 0 {
        x / d
    } else if x < 0 && d < 0 {
        (x * -1) / (d * -1)
    } else if x < 0 {
        ((x * -1) / d) * -1
    } else {
        (x / (d * -1)) * -1
    }
}

/// An integer result if it fits in 32 signed bits, else the overflow error.
pub open spec fn int_result(x: int, position: usize) -> Result<ValueV, EvalErrorV> {
    if i32::MIN <= x <= i32::MAX {
        Ok(ValueV::Int(x))
    } else {
        Err(EvalErrorV::IntegerOverflow { position })
    }
}

/// What a binary operation yields on two evaluated operands. Integers support
/// `+ - * / == !=` (division by zero is an error, any out-of-range result is
/// an overflow error); booleans support `&& ||`; strings support `+`
/// (concatenation), `==` and `!=`. Every other pairing, and every unsupported
/// operator for a matched pairing, is a type-mismatch error naming both
/// runtime types.
pub open spec fn spec_binop(op: Seq<char>, v1: ValueV, v2: ValueV, position: usize) -> Result<
    ValueV,
    EvalErrorV,
> {
    match (v1, v2) {
        (ValueV::Int(a), ValueV::Int(b)) => {
            if op == "+"@ {
                int_result(a + b, position)
            } else if op == "-"@ {
                int_result(a - b, position)
            } else if op == "*"@ {
                int_result(a * b, position)
            } else if op == "/"@ {
                if b == 0 {
                    Err(EvalErrorV::DivisionByZero { position })
                } else {
                    int_result(trunc_div(a, b), position)
                }
            } else if op == "=="@ {
                Ok(ValueV::Bool(a == b))
            } else if op == "!="@ {
                Ok(ValueV::Bool(a != b))
            } else {
                Err(
                    EvalErrorV::TypeMismatch {
                        left: ValueKind::Integer,
                        right: ValueKind::Integer,
                        position,
                    },
                )
            }
        },
        (ValueV::Bool(a), ValueV::Bool(b)) => {
            if op == "&&"@ {
                Ok(ValueV::Bool(a && b))
            } else if op == "||"@ {
                Ok(ValueV::Bool(a || b))
            } else {
                Err(
                    EvalErrorV::TypeMismatch {
                        left: ValueKind::Boolean,
                        right: ValueKind::Boolean,
                        position,
                    },
                )
            }
        },
        (ValueV::Str(a), ValueV::Str(b)) => {
            if op == "+"@ {
                Ok(ValueV::Str(a + b))
            } else if op == "=="@ {
                Ok(ValueV::Bool(a == b))
            } else if op == "!="@ {
                Ok(ValueV::Bool(a != b))
            } else {
                Err(
                    EvalErrorV::TypeMismatch {
                        left: ValueKind::Text,
                        right: ValueKind::Text,
                        position,
                    },
                )
            }
        },
        (l, r) => Err(
            EvalErrorV::TypeMismatch { left: kind_of(l), right: kind_of(r), position },
        ),
    }
}

/// The scope a call creates: the first `j` parameter names bound to the
/// corresponding argument values, later bindings overriding earlier ones.
pub open spec fn bind_upto(params: Seq<Seq<char>>, vals: Seq<ValueV>, j: int) -> Map<
    Seq<char>,
    ValueV,
>
    decreases j,
{
    if j <= 0 {
        Map::empty()
    } else {
        bind_upto(params, vals, j - 1).insert(params[j - 1], vals[j - 1])
    }
}

/// The scope a call pushes before its body runs: every parameter bound to its
/// argument, no function bindings.
pub open spec fn bind_scope(params: Seq<Seq<char>>, vals: Seq<ValueV>) -> ScopeV {
    ScopeV { vars: bind_upto(params, vals, params.len() as int), funcs: Map::empty() }
}

/// Big-step evaluation of a node against a scope stack, with a step budget:
/// each `while` iteration beyond the first pass and each function call spends
/// one step, and a spent budget is the `OutOfSteps` error. On success the
/// result carries the value and the scope stack after evaluation; on error
/// evaluation of the whole program stops.
pub open spec fn spec_eval(n: NodeV, ctx: Seq<ScopeV>, fuel: nat) -> Result<
    (ValueV, Seq<ScopeV>),
    EvalErrorV,
>
    decreases fuel, n, 0int,
{
    let position = n.token.pos as usize;
    match n.token.kind {
        TokenType::NUMERIC => match str_to_i32(n.token.text) {
            Some(v) => Ok((ValueV::Int(v as int), ctx)),
            None => Err(EvalErrorV::NumericParse { position }),
        },
        TokenType::STRING => Ok((ValueV::Str(n.token.text), ctx)),
        TokenType::BINARYOP => {
            if n.children.len() != 2 {
                Err(EvalErrorV::InvalidChildCount { position })
            } else {
                match spec_eval(n.children[0], ctx, fuel) {
                    Ok((v1, c1)) => match spec_eval(n.children[1], c1, fuel) {
                        Ok((v2, c2)) => match spec_binop(n.token.text, v1, v2, position) {
                            Ok(v) => Ok((v, c2)),
                            Err(e) => Err(e),
                        },
                        Err(e) => Err(e),
                    },
                    Err(e) => Err(e),
                }
            }
        },
        TokenType::IDENTIFIER => {
            if n.children.len() == 0 {
                match lookup_var(ctx, n.token.text) {
                    Some(v) => Ok((v, ctx)),
                    None => Err(EvalErrorV::UnsetIdentifier { name: n.token.text, position }),
                }
            } else {
                match lookup_fn(ctx, n.token.text) {
                    None => Err(EvalErrorV::UnsetFunction { name: n.token.text, position }),
                    Some(f) => {
                        if f.params.len() != n.children.len() {
                            Err(
                                EvalErrorV::ArityMismatch {
                                    expected: f.params.len() as usize,
                                    given: n.children.len() as usize,
                                    position,
                                },
                            )
                        } else {
                            match spec_eval_args(n.children, 0, ctx, fuel, Seq::empty()) {
                                Ok((vals, c1)) => if fuel == 0 {
                                    Err(EvalErrorV::OutOfSteps)
                                } else {
                                    match spec_eval(
                                        f.body,
                                        c1.push(bind_scope(f.params, vals)),
                                        (fuel - 1) as nat,
                                    ) {
                                        Ok((v, c2)) => Ok((v, c2.drop_last())),
                                        Err(e) => Err(e),
                                    }
                                },
                                Err(e) => Err(e),
                            }
                        }
                    },
                }
            }
        },
        TokenType::IF => {
            if n.children.len() != 2 && n.children.len() != 3 {
                Err(EvalErrorV::InvalidChildCount { position })
            } else {
                match spec_eval(n.children[0], ctx, fuel) {
                    Ok((ValueV::Bool(b), c1)) => if b {
                        spec_eval(n.children[1], c1, fuel)
                    } else if n.children.len() == 3 {
                        spec_eval(n.children[2], c1, fuel)
                    } else {
                        Ok((ValueV::Null, c1))
                    },
                    Ok((other, _c1)) => Err(
                        EvalErrorV::ConditionNotBoolean { found: kind_of(other), position },
                    ),
                    Err(e) => Err(e),
                }
            }
        },
        TokenType::WHILE => {
            if n.children.len() != 2 {
                Err(EvalErrorV::InvalidChildCount { position })
            } else {
                match spec_eval(n.children[0], ctx, fuel) {
                    Ok((ValueV::Bool(b), c1)) => if !b {
                        Ok((ValueV::Null, c1))
                    } else {
                        match spec_eval(n.children[1], c1, fuel) {
                            Ok((_v, c2)) => if fuel == 0 {
                                Err(EvalErrorV::OutOfSteps)
                            } else {
                                spec_eval(n, c2, (fuel - 1) as nat)
                            },
                            Err(e) => Err(e),
                        }
                    },
                    Ok((other, _c1)) => Err(
                        EvalErrorV::ConditionNotBoolean { found: kind_of(other), position },
                    ),
                    Err(e) => Err(e),
                }
            }
        },
        TokenType::ASSIGN => {
            if n.children.len() != 2 {
                Err(EvalErrorV::InvalidChildCount { position })
            } else {
                match spec_eval(n.children[1], ctx, fuel) {
                    Ok((v, c1)) => Ok(
                        (ValueV::Null, set_var_innermost(c1, n.children[0].token.text, v)),
                    ),
                    Err(e) => Err(e),
                }
            }
        },
        TokenType::FN => {
            if n.children.len() < 2 {
                Err(EvalErrorV::InvalidChildCount { position })
            } else {
                let name = n.children[0].token.text;
                let f = FunctionV {
                    params: n.children.subrange(1, n.children.len() - 1).map_values(
                        |c: NodeV| c.token.text,
                    ),
                    body: n.children.last(),
                };
                Ok((ValueV::Null, set_fn_innermost(ctx, name, f)))
            }
        },
        TokenType::BLOCK { creates_scope } => {
            if creates_scope {
                match spec_eval_stmts(n.children, 0, ctx.push(empty_scope()), fuel, ValueV::Null) {
                    Ok((v, c)) => Ok((v, c.drop_last())),
                    Err(e) => Err(e),
                }
            } else {
                spec_eval_stmts(n.children, 0, ctx, fuel, ValueV::Null)
            }
        },
        _ => Err(EvalErrorV::UnevaluableNode { kind: n.token.kind, position }),
    }
}

/// Evaluates statements `ns[i..]` in order, threading the scope stack; the
/// result is the last statement's value, or `last` if none remain.
pub open spec fn spec_eval_stmts(
    ns: Seq<NodeV>,
    i: int,
    ctx: Seq<ScopeV>,
    fuel: nat,
    last: ValueV,
) -> Result<(ValueV, Seq<ScopeV>), EvalErrorV>
    decreases fuel, ns, ns.len() - i,
{
    if !(0 <= i < ns.len()) {
        Ok((last, ctx))
    } else {
        match spec_eval(ns[i], ctx, fuel) {
            Ok((v, c)) => spec_eval_stmts(ns, i + 1, c, fuel, v),
            Err(e) => Err(e),
        }
    }
}

/// Evaluates argument expressions `ns[i..]` in order in the caller's scopes,
/// threading the scope stack and accumulating the values.
pub open spec fn spec_eval_args(
    ns: Seq<NodeV>,
    i: int,
    ctx: Seq<ScopeV>,
    fuel: nat,
    acc: Seq<ValueV>,
) -> Result<(Seq<ValueV>, Seq<ScopeV>), EvalErrorV>
    decreases fuel, ns, ns.len() - i,
{
    if !(0 <= i < ns.len()) {
        Ok((acc, ctx))
    } else {
        match spec_eval(ns[i], ctx, fuel) {
            Ok((v, c)) => spec_eval_args(ns, i + 1, c, fuel, acc.push(v)),
            Err(e) => Err(e),
        }
    }
}

/// Evaluation touches no scope but the innermost one: on success the scope
/// stack keeps its depth, and every outer scope is exactly as it was. In
/// particular a binding made inside a scope-creating block — an `if` branch,
/// a `while` body, a function call — is gone once that block's scope is
/// popped, and nothing an inner block does can reach past its own scope.
pub proof fn lemma_eval_scope_isolation(n: NodeV, ctx: Seq<ScopeV>, fuel: nat)
    requires
        ctx.len() >= 1,
    ensures
        spec_eval(n, ctx, fuel) matches Ok(r) ==> r.1.len() == ctx.len() && (forall|i: int|
            0 <= i < ctx.len() - 1 ==> r.1[i] == ctx[i]),
    decreases fuel, n, 0int,
{
    let position = n.token.pos as usize;
    match n.token.kind {
        TokenType::BINARYOP => {
            if n.children.len() == 2 {
                lemma_eval_scope_isolation(n.children[0], ctx, fuel);
                if let Ok((_v1, c1)) = spec_eval(n.children[0], ctx, fuel) {
                    lemma_eval_scope_isolation(n.children[1], c1, fuel);
                }
            }
        },
        TokenType::IDENTIFIER => {
            if n.children.len() > 0 {
                if let Some(f) = lookup_fn(ctx, n.token.text) {
                    if f.params.len() == n.children.len() {
                        lemma_eval_args_scope_isolation(n.children, 0, ctx, fuel, Seq::empty());
                        if let Ok((vals, c1)) = spec_eval_args(n.children, 0, ctx, fuel, Seq::empty()) {
                            if fuel > 0 {
                                let pushed = c1.push(bind_scope(f.params, vals));
                                lemma_eval_scope_isolation(f.body, pushed, (fuel - 1) as nat);
                                if let Ok((_v, c2)) = spec_eval(f.body, pushed, (fuel - 1) as nat) {
                                    assert(c2.len() == c1.len() + 1);
                                    assert(c2.drop_last().len() == c1.len());
                                    assert(forall|i: int|
                                        0 <= i < c1.len() ==> c2.drop_last()[i] == c2[i] && c2[i]
                                            == pushed[i] && pushed[i] == c1[i]);
                                }
                            }
                        }
                    }
                }
            }
        },
        TokenType::IF => {
            if n.children.len() == 2 || n.children.len() == 3 {
                lemma_eval_scope_isolation(n.children[0], ctx, fuel);
                if let Ok((ValueV::Bool(b), c1)) = spec_eval(n.children[0], ctx, fuel) {
                    if b {
                        lemma_eval_scope_isolation(n.children[1], c1, fuel);
                    } else if n.children.len() == 3 {
                        lemma_eval_scope_isolation(n.children[2], c1, fuel);
                    }
                }
            }
        },
        TokenType::WHILE => {
            if n.children.len() == 2 {
                lemma_eval_scope_isolation(n.children[0], ctx, fuel);
                if let Ok((ValueV::Bool(b), c1)) = spec_eval(n.children[0], ctx, fuel) {
                    if b {
                        lemma_eval_scope_isolation(n.children[1], c1, fuel);
                        if let Ok((_v, c2)) = spec_eval(n.children[1], c1, fuel) {
                            if fuel > 0 {
                                lemma_eval_scope_isolation(n, c2, (fuel - 1) as nat);
                            }
                        }
                    }
                }
            }
        },
        TokenType::ASSIGN => {
            if n.children.len() == 2 {
                lemma_eval_scope_isolation(n.children[1], ctx, fuel);
            }
        },
        TokenType::BLOCK { creates_scope } => {
            if creates_scope {
                let pushed = ctx.push(empty_scope());
                lemma_eval_stmts_scope_isolation(n.children, 0, pushed, fuel, ValueV::Null);
                if let Ok((_v, c)) = spec_eval_stmts(n.children, 0, pushed, fuel, ValueV::Null) {
                    assert(c.len() == ctx.len() + 1);
                    assert(forall|i: int|
                        0 <= i < ctx.len() ==> c.drop_last()[i] == c[i] && c[i] == pushed[i]
                            && pushed[i] == ctx[i]);
                }
            } else {
                lemma_eval_stmts_scope_isolation(n.children, 0, ctx, fuel, ValueV::Null);
            }
        },
        _ => {},
    }
}

/// Statement-sequence form of `lemma_eval_scope_isolation`.
pub proof fn lemma_eval_stmts_scope_isolation(
    ns: Seq<NodeV>,
    i: int,
    ctx: Seq<ScopeV>,
    fuel: nat,
    last: ValueV,
)
    requires
        ctx.len() >= 1,
    ensures
        spec_eval_stmts(ns, i, ctx, fuel, last) matches Ok(r) ==> r.1.len() == ctx.len() && (
        forall|k: int| 0 <= k < ctx.len() - 1 ==> r.1[k] == ctx[k]),
    decreases fuel, ns, ns.len() - i,
{
    if 0 <= i < ns.len() {
        lemma_eval_scope_isolation(ns[i], ctx, fuel);
        if let Ok((v, c)) = spec_eval(ns[i], ctx, fuel) {
            lemma_eval_stmts_scope_isolation(ns, i + 1, c, fuel, v);
        }
    }
}

/// Argument-sequence form of `lemma_eval_scope_isolation`.
pub proof fn lemma_eval_args_scope_isolation(
    ns: Seq<NodeV>,
    i: int,
    ctx: Seq<ScopeV>,
    fuel: nat,
    acc: Seq<ValueV>,
)
    requires
        ctx.len() >= 1,
    ensures
        spec_eval_args(ns, i, ctx, fuel, acc) matches Ok(r) ==> r.1.len() == ctx.len() && (forall|
            k: int,
        | 0 <= k < ctx.len() - 1 ==> r.1[k] == ctx[k]),
    decreases fuel, ns, ns.len() - i,
{
    if 0 <= i < ns.len() {
        lemma_eval_scope_isolation(ns[i], ctx, fuel);
        if let Ok((v, c)) = spec_eval(ns[i], ctx, fuel) {
            lemma_eval_args_scope_isolation(ns, i + 1, c, fuel, acc.push(v));
        }
    }
}

/// Appending a subtree to a forest appends its model to the forest's model.
pub proof fn lemma_forest_push(s: Seq<std::rc::Rc<ASTree>>, t: std::rc::Rc<ASTree>)
    ensures
        forest_view(s.push(t)) == forest_view(s).push(ast_view(*t)),
    decreases s,
{
    if s.len() == 0 {
        assert(s.push(t)[0] == t);
        assert(s.push(t).drop_first() =~= Seq::<std::rc::Rc<ASTree>>::empty());
        assert(forest_view(s.push(t)) == seq![ast_view(*s.push(t)[0])] + forest_view(
            s.push(t).drop_first(),
        ));
        assert(forest_view(s.push(t).drop_first()) == Seq::<NodeV>::empty());
        assert(seq![ast_view(*t)] + Seq::<NodeV>::empty() =~= forest_view(s).push(ast_view(*t)));
        assert(forest_view(s.push(t)) =~= forest_view(s).push(ast_view(*t)));
    } else {
        lemma_forest_push(s.drop_first(), t);
        assert(s.push(t).drop_first() =~= s.drop_first().push(t));
        assert(s.push(t)[0] == s[0]);
        assert(forest_view(s.push(t)) == seq![ast_view(*s[0])] + forest_view(
            s.drop_first().push(t),
        ));
        assert(forest_view(s.push(t)) == seq![ast_view(*s[0])] + forest_view(
            s.drop_first(),
        ).push(ast_view(*t)));
        assert(forest_view(s.push(t)) =~= forest_view(s).push(ast_view(*t)));
    }
}

impl ASTree {
    /// Evaluates this node against `ctx`, exactly as `spec_eval` prescribes
    /// with the given step budget. On success the context holds the scopes
    /// evaluation left behind; on error it is somewhere along the way, still
    /// well-formed, and the whole evaluation is abandoned.
    pub fn eval(&self, ctx: &mut Context, fuel: u64) -> (r: Result<RuntimeValue, EvalError>)
        requires
            old(ctx).wf(),
            old(ctx)@.len() >= 1,
        ensures
            final(ctx).wf(),
            match r {
                Ok(v) => spec_eval(self@, old(ctx)@, fuel as nat) == Ok::<
                    (ValueV, Seq<ScopeV>),
                    EvalErrorV,
                >((v@, final(ctx)@)) && final(ctx)@.len() == old(ctx)@.len(),
                Err(e) => spec_eval(self@, old(ctx)@, fuel as nat) == Err::<
                    (ValueV, Seq<ScopeV>),
                    EvalErrorV,
                >(e@),
            },
        decreases fuel, self, 3int, 0int,
    {
        proof {
            lemma_forest_view(self.children@);
            lemma_eval_scope_isolation(self@, old(ctx)@, fuel as nat);
        }
        let position: usize = *self.token.get_position();
        match *self.token.get_type() {
            TokenType::NUMERIC => match parse_i32(self.token.get_value().as_str()) {
                Some(v) => Ok(RuntimeValue::INTEGER(v)),
                None => Err(EvalError::NumericParse { position }),
            },
            TokenType::STRING => Ok(RuntimeValue::STRING(self.token.get_value().clone())),
            TokenType::BINARYOP => self.eval_binary_op(ctx, fuel),
            TokenType::IDENTIFIER => {
                if self.children.len() == 0 {
                    match ctx.get_variable(self.token.get_value()) {
                        Some(v) => Ok(v.duplicate()),
                        None => Err(
                            EvalError::UnsetIdentifier {
                                name: self.token.get_value().clone(),
                                position,
                            },
                        ),
                    }
                } else {
                    self.eval_call(ctx, fuel)
                }
            },
            TokenType::IF => {
                if !(self.children.len() == 2 || self.children.len() == 3) {
                    return Err(EvalError::InvalidChildCount { position });
                }
                let cond = match self.children[0].eval(ctx, fuel) {
                    Ok(v) => v,
                    Err(e) => {
                        return Err(e);
                    },
                };
                match cond {
                    RuntimeValue::BOOL(b) => {
                        if b {
                            self.children[1].eval(ctx, fuel)
                        } else if self.children.len() == 3 {
                            self.children[2].eval(ctx, fuel)
                        } else {
                            Ok(RuntimeValue::NULL)
                        }
                    },
                    other => Err(
                        EvalError::ConditionNotBoolean { found: other.kind(), position },
                    ),
                }
            },
            TokenType::WHILE => {
                if self.children.len() != 2 {
                    return Err(EvalError::InvalidChildCount { position });
                }
                let cond = match self.children[0].eval(ctx, fuel) {
                    Ok(v) => v,
                    Err(e) => {
                        return Err(e);
                    },
                };
                match cond {
                    RuntimeValue::BOOL(b) => {
                        if !b {
                            Ok(RuntimeValue::NULL)
                        } else {
                            match self.children[1].eval(ctx, fuel) {
                                Ok(_) => {},
                                Err(e) => {
                                    return Err(e);
                                },
                            }
                            if fuel == 0 {
                                Err(EvalError::OutOfSteps)
                            } else {
                                self.eval(ctx, fuel - 1)
                            }
                        }
                    },
                    other => Err(
                        EvalError::ConditionNotBoolean { found: other.kind(), position },
                    ),
                }
            },
            TokenType::ASSIGN => {
                if self.children.len() != 2 {
                    return Err(EvalError::InvalidChildCount { position });
                }
                let name: String = self.children[0].get_token().get_value().clone();
                let value = match self.children[1].eval(ctx, fuel) {
                    Ok(v) => v,
                    Err(e) => {
                        return Err(e);
                    },
                };
                ctx.set_variable(name, value);
                Ok(RuntimeValue::NULL)
            },
            TokenType::FN => {
                if self.children.len() < 2 {
                    return Err(EvalError::InvalidChildCount { position });
                }
                let name: String = self.children[0].get_token().get_value().clone();
                let ghost node = self@;
                let mut params: Vec<String> = Vec::new();
                let mut j: usize = 1;
                proof {
                    assert(params.deep_view() =~= node.children.subrange(1, 1).map_values(
                        |c: NodeV| c.token.text,
                    ));
                }
                while j < self.children.len() - 1
                    invariant
                        1 <= j <= self.children.len() - 1,
                        self.children.len() >= 2,
                        node == self@,
                        params.deep_view() == node.children.subrange(1, j as int).map_values(
                            |c: NodeV| c.token.text,
                        ),
                    decreases self.children.len() - 1 - j,
                {
                    let ghost params0 = params.deep_view();
                    params.push(self.children[j].get_token().get_value().clone());
                    j = j + 1;
                    proof {
                        lemma_forest_view(self.children@);
                        assert(params.deep_view() =~= params0.push(
                            node.children[j - 1].token.text,
                        ));
                        assert(params.deep_view() =~= node.children.subrange(1, j as int).map_values(
                            |c: NodeV| c.token.text,
                        ));
                    }
                }
                let body_rc = std::rc::Rc::clone(&self.children[self.children.len() - 1]);
                let f = Function::new(params, body_rc);
                proof {
                    assert(f@.params == node.children.subrange(
                        1,
                        node.children.len() - 1,
                    ).map_values(|c: NodeV| c.token.text));
                    assert(f@.body == node.children.last());
                }
                ctx.set_function(name, f);
                Ok(RuntimeValue::NULL)
            },
            TokenType::BLOCK { creates_scope } => {
                if creates_scope {
                    ctx.push_scope();
                    match self.eval_stmts(0, ctx, fuel, RuntimeValue::NULL) {
                        Ok(v) => {
                            proof {
                                lemma_eval_stmts_scope_isolation(
                                    self@.children,
                                    0,
                                    old(ctx)@.push(empty_scope()),
                                    fuel as nat,
                                    ValueV::Null,
                                );
                            }
                            ctx.pop_scope();
                            Ok(v)
                        },
                        Err(e) => Err(e),
                    }
                } else {
                    self.eval_stmts(0, ctx, fuel, RuntimeValue::NULL)
                }
            },
            _ => Err(EvalError::UnevaluableNode { kind: *self.token.get_type(), position }),
        }
    }

    /// Evaluates a binary-operation node: both children unconditionally (no
    /// short-circuiting, even for `&&` and `||`), then the operator on the
    /// pair of values, exactly as `spec_eval` and `spec_binop` prescribe.
    fn eval_binary_op(&self, ctx: &mut Context, fuel: u64) -> (r: Result<RuntimeValue, EvalError>)
        requires
            old(ctx).wf(),
            old(ctx)@.len() >= 1,
            self@.token.kind == TokenType::BINARYOP,
        ensures
            final(ctx).wf(),
            match r {
                Ok(v) => spec_eval(self@, old(ctx)@, fuel as nat) == Ok::<
                    (ValueV, Seq<ScopeV>),
                    EvalErrorV,
                >((v@, final(ctx)@)) && final(ctx)@.len() == old(ctx)@.len(),
                Err(e) => spec_eval(self@, old(ctx)@, fuel as nat) == Err::<
                    (ValueV, Seq<ScopeV>),
                    EvalErrorV,
                >(e@),
            },
        decreases fuel, self, 2int, 0int,
    {
        proof {
            lemma_forest_view(self.children@);
            lemma_eval_scope_isolation(self@, old(ctx)@, fuel as nat);
        }
        let position: usize = *self.token.get_position();
        if self.children.len() != 2 {
            return Err(EvalError::InvalidChildCount { position });
        }
        let v1 = match self.children[0].eval(ctx, fuel) {
            Ok(v) => v,
            Err(e) => {
                return Err(e);
            },
        };
        let v2 = match self.children[1].eval(ctx, fuel) {
            Ok(v) => v,
            Err(e) => {
                return Err(e);
            },
        };
        let k1 = v1.kind();
        let k2 = v2.kind();
        let op: &String = self.token.get_value();
        match (v1, v2) {
            (RuntimeValue::INTEGER(a), RuntimeValue::INTEGER(b)) => {
                if *op == "+".to_owned() {
                    match a.checked_add(b) {
                        Some(v) => Ok(RuntimeValue::INTEGER(v)),
                        None => Err(EvalError::IntegerOverflow { position }),
                    }
                } else if *op == "-".to_owned() {
                    match a.checked_sub(b) {
                        Some(v) => Ok(RuntimeValue::INTEGER(v)),
                        None => Err(EvalError::IntegerOverflow { position }),
                    }
                } else if *op == "*".to_owned() {
                    match a.checked_mul(b) {
                        Some(v) => Ok(RuntimeValue::INTEGER(v)),
                        None => Err(EvalError::IntegerOverflow { position }),
                    }
                } else if *op == "/".to_owned() {
                    if b == 0 {
                        Err(EvalError::DivisionByZero { position })
                    } else {
                        match a.checked_div(b) {
                            Some(v) => Ok(RuntimeValue::INTEGER(v)),
                            None => Err(EvalError::IntegerOverflow { position }),
                        }
                    }
                } else if *op == "==".to_owned() {
                    Ok(RuntimeValue::BOOL(a == b))
                } else if *op == "!=".to_owned() {
                    Ok(RuntimeValue::BOOL(a != b))
                } else {
                    Err(EvalError::TypeMismatch { left: k1, right: k2, position })
                }
            },
            (RuntimeValue::BOOL(a), RuntimeValue::BOOL(b)) => {
                if *op == "&&".to_owned() {
                    Ok(RuntimeValue::BOOL(a && b))
                } else if *op == "||".to_owned() {
                    Ok(RuntimeValue::BOOL(a || b))
                } else {
                    Err(EvalError::TypeMismatch { left: k1, right: k2, position })
                }
            },
            (RuntimeValue::STRING(a), RuntimeValue::STRING(b)) => {
                if *op == "+".to_owned() {
                    Ok(RuntimeValue::STRING(a.concat(b.as_str())))
                } else if *op == "==".to_owned() {
                    Ok(RuntimeValue::BOOL(a == b))
                } else if *op == "!=".to_owned() {
                    Ok(RuntimeValue::BOOL(a != b))
                } else {
                    Err(EvalError::TypeMismatch { left: k1, right: k2, position })
                }
            },
            (_, _) => Err(EvalError::TypeMismatch { left: k1, right: k2, position }),
        }
    }

    /// Evaluates a function call: the function is looked up from the
    /// innermost scope outwards, the arguments are evaluated in the caller's
    /// scopes, a fresh scope binds each parameter to its argument, and the
    /// body runs in that scope, which is popped afterwards — exactly as
    /// `spec_eval` prescribes. A call spends one step of the budget.
    fn eval_call(&self, ctx: &mut Context, fuel: u64) -> (r: Result<RuntimeValue, EvalError>)
        requires
            old(ctx).wf(),
            old(ctx)@.len() >= 1,
            self@.token.kind == TokenType::IDENTIFIER,
            self@.children.len() > 0,
        ensures
            final(ctx).wf(),
            match r {
                Ok(v) => spec_eval(self@, old(ctx)@, fuel as nat) == Ok::<
                    (ValueV, Seq<ScopeV>),
                    EvalErrorV,
                >((v@, final(ctx)@)) && final(ctx)@.len() == old(ctx)@.len(),
                Err(e) => spec_eval(self@, old(ctx)@, fuel as nat) == Err::<
                    (ValueV, Seq<ScopeV>),
                    EvalErrorV,
                >(e@),
            },
        decreases fuel, self, 2int, 0int,
    {
        proof {
            lemma_forest_view(self.children@);
            lemma_eval_scope_isolation(self@, old(ctx)@, fuel as nat);
        }
        let position: usize = *self.token.get_position();
        let f = match ctx.get_function(self.token.get_value()) {
            Some(f) => f,
            None => {
                return Err(
                    EvalError::UnsetFunction { name: self.token.get_value().clone(), position },
                );
            },
        };
        if f.params().len() != self.children.len() {
            return Err(
                EvalError::ArityMismatch {
                    expected: f.params().len(),
                    given: self.children.len(),
                    position,
                },
            );
        }
        let mut vals: Vec<RuntimeValue> = Vec::new();
        proof {
            assert(vals.deep_view() =~= Seq::<ValueV>::empty());
        }
        match self.eval_args(0, ctx, fuel, &mut vals) {
            Ok(_) => {},
            Err(e) => {
                return Err(e);
            },
        }
        if fuel == 0 {
            return Err(EvalError::OutOfSteps);
        }
        let ghost fv = f@;
        let ghost vals_dv = vals.deep_view();
        let ghost ctx_args = ctx@;
        ctx.push_scope();
        let params: &Vec<String> = f.params();
        let mut j: usize = 0;
        proof {
            assert(ctx@ =~= ctx_args.push(
                ScopeV { vars: bind_upto(fv.params, vals_dv, 0), funcs: Map::empty() },
            ));
        }
        while j < params.len()
            invariant
                j <= params.len(),
                params.deep_view() == fv.params,
                vals.deep_view() == vals_dv,
                vals@.len() == params@.len(),
                ctx.wf(),
                ctx@.len() == ctx_args.len() + 1,
                ctx@ == ctx_args.push(
                    ScopeV {
                        vars: bind_upto(fv.params, vals_dv, j as int),
                        funcs: Map::empty(),
                    },
                ),
            decreases params.len() - j,
        {
            let name = params[j].clone();
            let value = vals[j].duplicate();
            ctx.set_variable(name, value);
            j = j + 1;
            proof {
                assert(ctx@ =~= ctx_args.push(
                    ScopeV {
                        vars: bind_upto(fv.params, vals_dv, j as int),
                        funcs: Map::empty(),
                    },
                ));
            }
        }
        proof {
            assert(ctx@ == ctx_args.push(bind_scope(fv.params, vals_dv)));
        }
        let result = match f.body().eval(ctx, fuel - 1) {
            Ok(v) => v,
            Err(e) => {
                return Err(e);
            },
        };
        ctx.pop_scope();
        Ok(result)
    }

    /// Evaluates the children from `start` on in order, threading the
    /// context; the result is the last child's value, or `last` if none
    /// remain — exactly as `spec_eval_stmts` prescribes.
    fn eval_stmts(
        &self,
        start: usize,
        ctx: &mut Context,
        fuel: u64,
        last: RuntimeValue,
    ) -> (r: Result<RuntimeValue, EvalError>)
        requires
            old(ctx).wf(),
            old(ctx)@.len() >= 1,
        ensures
            final(ctx).wf(),
            match r {
                Ok(v) => spec_eval_stmts(
                    self@.children,
                    start as int,
                    old(ctx)@,
                    fuel as nat,
                    last@,
                ) == Ok::<(ValueV, Seq<ScopeV>), EvalErrorV>((v@, final(ctx)@))
                    && final(ctx)@.len() == old(ctx)@.len(),
                Err(e) => spec_eval_stmts(
                    self@.children,
                    start as int,
                    old(ctx)@,
                    fuel as nat,
                    last@,
                ) == Err::<(ValueV, Seq<ScopeV>), EvalErrorV>(e@),
            },
        decreases fuel, self, 1int, self@.children.len() - start,
    {
        proof {
            lemma_forest_view(self.children@);
            lemma_eval_stmts_scope_isolation(
                self@.children,
                start as int,
                old(ctx)@,
                fuel as nat,
                last@,
            );
        }
        if start >= self.children.len() {
            return Ok(last);
        }
        let v = match self.children[start].eval(ctx, fuel) {
            Ok(v) => v,
            Err(e) => {
                return Err(e);
            },
        };
        self.eval_stmts(start + 1, ctx, fuel, v)
    }

    /// Evaluates the children from `start` on as argument expressions,
    /// threading the context and collecting the values — exactly as
    /// `spec_eval_args` prescribes.
    fn eval_args(
        &self,
        start: usize,
        ctx: &mut Context,
        fuel: u64,
        vals: &mut Vec<RuntimeValue>,
    ) -> (r: Result<(), EvalError>)
        requires
            old(ctx).wf(),
            old(ctx)@.len() >= 1,
        ensures
            final(ctx).wf(),
            match r {
                Ok(_) => {
                    &&& spec_eval_args(
                        self@.children,
                        start as int,
                        old(ctx)@,
                        fuel as nat,
                        old(vals).deep_view(),
                    ) == Ok::<(Seq<ValueV>, Seq<ScopeV>), EvalErrorV>(
                        (final(vals).deep_view(), final(ctx)@),
                    )
                    &&& final(ctx)@.len() == old(ctx)@.len()
                    &&& (start as int <= self@.children.len() ==> final(vals)@.len() == old(
                        vals,
                    )@.len() + self@.children.len() - start)
                },
                Err(e) => spec_eval_args(
                    self@.children,
                    start as int,
                    old(ctx)@,
                    fuel as nat,
                    old(vals).deep_view(),
                ) == Err::<(Seq<ValueV>, Seq<ScopeV>), EvalErrorV>(e@),
            },
        decreases fuel, self, 1int, self@.children.len() - start,
    {
        proof {
            lemma_forest_view(self.children@);
            lemma_eval_args_scope_isolation(
                self@.children,
                start as int,
                old(ctx)@,
                fuel as nat,
                old(vals).deep_view(),
            );
        }
        if start >= self.children.len() {
            return Ok(());
        }
        let v = match self.children[start].eval(ctx, fuel) {
            Ok(v) => v,
            Err(e) => {
                return Err(e);
            },
        };
        let ghost vals0 = vals.deep_view();
        vals.push(v);
        proof {
            assert(vals.deep_view() =~= vals0.push(v@));
        }
        self.eval_args(start + 1, ctx, fuel, vals)
    }
}

} // verus!
