use tinyscript::ast::{RuntimeValue, ValueKind};
use tinyscript::errors::{EvalError, InterpError};
use tinyscript::interp::interpret;

#[test]
fn integer_literal_round_trip() {
    assert!(matches!(
        interpret("12345", u64::MAX),
        Ok(RuntimeValue::INTEGER(12345))
    ));
    assert!(matches!(interpret("0", u64::MAX), Ok(RuntimeValue::INTEGER(0))));
    assert!(matches!(
        interpret("2147483647", u64::MAX),
        Ok(RuntimeValue::INTEGER(2147483647))
    ));
}

#[test]
fn integer_literal_too_large_is_numeric_error() {
    assert!(matches!(
        interpret("2147483648", u64::MAX),
        Err(InterpError::Eval(EvalError::NumericParse { position: 0 }))
    ));
}

#[test]
fn precedence_multiplication_binds_tighter() {
    assert!(matches!(
        interpret("2+3*4", u64::MAX),
        Ok(RuntimeValue::INTEGER(14))
    ));
    assert!(matches!(
        interpret("2*3+4", u64::MAX),
        Ok(RuntimeValue::INTEGER(10))
    ));
}

#[test]
fn subtraction_is_left_associative() {
    assert!(matches!(
        interpret("10-2-3", u64::MAX),
        Ok(RuntimeValue::INTEGER(5))
    ));
}

#[test]
fn grouping_parentheses_are_out_of_grammar() {
    // The grammar has parentheses only around conditions and argument lists,
    // not for grouping sub-expressions.
    assert!(matches!(
        interpret("(2+3)*4", u64::MAX),
        Err(InterpError::Parse(_))
    ));
}

#[test]
fn division_by_zero_is_an_error_value() {
    assert!(matches!(
        interpret("5/0", u64::MAX),
        Err(InterpError::Eval(EvalError::DivisionByZero { position: 1 }))
    ));
}

#[test]
fn division_truncates() {
    assert!(matches!(interpret("7/2", u64::MAX), Ok(RuntimeValue::INTEGER(3))));
}

#[test]
fn addition_overflow_is_an_error() {
    assert!(matches!(
        interpret("2000000000+2000000000", u64::MAX),
        Err(InterpError::Eval(EvalError::IntegerOverflow { .. }))
    ));
}

#[test]
fn integer_comparisons() {
    assert!(matches!(interpret("1==1", u64::MAX), Ok(RuntimeValue::BOOL(true))));
    assert!(matches!(interpret("1!=1", u64::MAX), Ok(RuntimeValue::BOOL(false))));
}

#[test]
fn string_concatenation_and_comparison() {
    match interpret("\"ab\"+\"cd\"", u64::MAX) {
        Ok(RuntimeValue::STRING(s)) => assert_eq!(s, "abcd"),
        other => panic!("expected a string, got {:?}", other),
    }
    assert!(matches!(
        interpret("\"ab\"==\"ab\"", u64::MAX),
        Ok(RuntimeValue::BOOL(true))
    ));
    assert!(matches!(
        interpret("\"ab\"!=\"cd\"", u64::MAX),
        Ok(RuntimeValue::BOOL(true))
    ));
}

#[test]
fn strings_do_not_subtract() {
    assert!(matches!(
        interpret("\"a\"-\"b\"", u64::MAX),
        Err(InterpError::Eval(EvalError::TypeMismatch {
            left: ValueKind::Text,
            right: ValueKind::Text,
            ..
        }))
    ));
}

#[test]
fn boolean_connectives() {
    assert!(matches!(
        interpret("a = 1==1 b = 1==2 a && b", u64::MAX),
        Ok(RuntimeValue::BOOL(false))
    ));
    assert!(matches!(
        interpret("a = 1==1 b = 1==2 a || b", u64::MAX),
        Ok(RuntimeValue::BOOL(true))
    ));
}

#[test]
fn mixed_types_are_a_mismatch_naming_both() {
    assert!(matches!(
        interpret("x = 2==2 1 + x", u64::MAX),
        Err(InterpError::Eval(EvalError::TypeMismatch {
            left: ValueKind::Integer,
            right: ValueKind::Boolean,
            ..
        }))
    ));
}

#[test]
fn assignment_yields_null_and_binds() {
    assert!(matches!(interpret("x = 3", u64::MAX), Ok(RuntimeValue::NULL)));
    assert!(matches!(interpret("x = 3 x", u64::MAX), Ok(RuntimeValue::INTEGER(3))));
}

#[test]
fn unset_identifier_is_an_error_naming_it() {
    match interpret("q", u64::MAX) {
        Err(InterpError::Eval(EvalError::UnsetIdentifier { name, position })) => {
            assert_eq!(name, "q");
            assert_eq!(position, 0);
        },
        other => panic!("expected an unset-identifier error, got {:?}", other),
    }
}

#[test]
fn if_branches() {
    assert!(matches!(
        interpret("if(1==1){7}", u64::MAX),
        Ok(RuntimeValue::INTEGER(7))
    ));
    assert!(matches!(
        interpret("if(1==2){1}else{42}", u64::MAX),
        Ok(RuntimeValue::INTEGER(42))
    ));
    assert!(matches!(interpret("if(1==2){1}", u64::MAX), Ok(RuntimeValue::NULL)));
}

#[test]
fn if_condition_must_be_boolean() {
    assert!(matches!(
        interpret("if(1){2}", u64::MAX),
        Err(InterpError::Eval(EvalError::ConditionNotBoolean {
            found: ValueKind::Integer,
            ..
        }))
    ));
}

#[test]
fn assignment_inside_if_block_is_not_visible_after() {
    assert!(matches!(
        interpret("y = 1 if(y==1){ y = 2 } y", u64::MAX),
        Ok(RuntimeValue::INTEGER(1))
    ));
}

#[test]
fn assignment_inside_plain_block_is_not_visible_after() {
    assert!(matches!(
        interpret("x = 1 { x = 2 } x", u64::MAX),
        Ok(RuntimeValue::INTEGER(1))
    ));
    assert!(matches!(
        interpret("x = 1 { x = 2 x }", u64::MAX),
        Ok(RuntimeValue::INTEGER(2))
    ));
}

#[test]
fn while_with_false_condition_skips_body() {
    assert!(matches!(
        interpret("x = 0 while(x==1){ x = 5 } x", u64::MAX),
        Ok(RuntimeValue::INTEGER(0))
    ));
}

#[test]
fn while_condition_must_be_boolean() {
    assert!(matches!(
        interpret("while(5){1}", u64::MAX),
        Err(InterpError::Eval(EvalError::ConditionNotBoolean {
            found: ValueKind::Integer,
            ..
        }))
    ));
}

#[test]
fn entered_while_loop_exhausts_the_budget() {
    // Assignment always writes the innermost scope and the loop body's scope
    // is popped every iteration, so a condition over outer variables can
    // never be changed from inside the body: an entered loop spends the whole
    // step budget.
    assert!(matches!(
        interpret("x = 0 while(x==0){ x = 1 }", 25),
        Err(InterpError::Eval(EvalError::OutOfSteps))
    ));
}

#[test]
fn last_top_level_statement_is_the_result() {
    assert!(matches!(interpret("1 2 3", u64::MAX), Ok(RuntimeValue::INTEGER(3))));
    assert!(matches!(interpret("", u64::MAX), Ok(RuntimeValue::NULL)));
}

#[test]
fn function_definition_and_call() {
    assert!(matches!(
        interpret("fn add(a,b){ a+b } add(2,3)", u64::MAX),
        Ok(RuntimeValue::INTEGER(5))
    ));
}

#[test]
fn calling_an_undefined_function_is_an_error_naming_it() {
    match interpret("g(1)", u64::MAX) {
        Err(InterpError::Eval(EvalError::UnsetFunction { name, .. })) => {
            assert_eq!(name, "g");
        },
        other => panic!("expected an unset-function error, got {:?}", other),
    }
}

#[test]
fn function_in_block_callable_from_sibling_only() {
    assert!(matches!(
        interpret("{ fn g(x){ 7 } g(0) }", u64::MAX),
        Ok(RuntimeValue::INTEGER(7))
    ));
    assert!(matches!(
        interpret("{ fn g(x){ 7 } } g(0)", u64::MAX),
        Err(InterpError::Eval(EvalError::UnsetFunction { .. }))
    ));
}

#[test]
fn call_arity_must_match() {
    match interpret("fn f(a){ a } f(1,2)", u64::MAX) {
        Err(InterpError::Eval(EvalError::ArityMismatch { expected, given, .. })) => {
            assert_eq!(expected, 1);
            assert_eq!(given, 2);
        },
        other => panic!("expected an arity error, got {:?}", other),
    }
}

#[test]
fn parameters_bind_in_the_call_scope() {
    assert!(matches!(
        interpret("fn f(a){ a + 1 } x = f(41) x", u64::MAX),
        Ok(RuntimeValue::INTEGER(42))
    ));
}

#[test]
fn arguments_are_evaluated_in_the_caller_scope() {
    assert!(matches!(
        interpret("x = 5 fn id(a){ a } id(x)", u64::MAX),
        Ok(RuntimeValue::INTEGER(5))
    ));
}

#[test]
fn nested_calls() {
    assert!(matches!(
        interpret("fn one(x){1} fn two(x){ one(x) + one(x) } two(0)", u64::MAX),
        Ok(RuntimeValue::INTEGER(2))
    ));
}

#[test]
fn unbounded_recursion_exhausts_the_budget() {
    assert!(matches!(
        interpret("fn f(a){ f(a) } f(0)", 50),
        Err(InterpError::Eval(EvalError::OutOfSteps))
    ));
}

#[test]
fn zero_argument_call_reads_as_a_variable() {
    // A call node's children are exactly its arguments, and an identifier
    // with no children evaluates as a variable lookup — so a zero-argument
    // call falls through to the variable rule and fails as an unset
    // identifier, not as a function call.
    match interpret("fn seven(){ 7 } seven()", u64::MAX) {
        Err(InterpError::Eval(EvalError::UnsetIdentifier { name, .. })) => {
            assert_eq!(name, "seven");
        },
        other => panic!("expected an unset-identifier error, got {:?}", other),
    }
}

#[test]
fn string_variable_round_trip() {
    match interpret("s = \"hi\" s", u64::MAX) {
        Ok(RuntimeValue::STRING(s)) => assert_eq!(s, "hi"),
        other => panic!("expected a string, got {:?}", other),
    }
}

#[test]
fn calls_inside_expressions() {
    assert!(matches!(
        interpret("fn three(x){ 3 } 2 + three(0) * 4", u64::MAX),
        Ok(RuntimeValue::INTEGER(14))
    ));
}

#[test]
fn redefining_a_function_overwrites_it() {
    assert!(matches!(
        interpret("fn f(a){ 1 } fn f(a){ 2 } f(0)", u64::MAX),
        Ok(RuntimeValue::INTEGER(2))
    ));
}

#[test]
fn else_branch_is_skipped_on_true() {
    assert!(matches!(
        interpret("if(1==1){1}else{2}", u64::MAX),
        Ok(RuntimeValue::INTEGER(1))
    ));
}

#[test]
fn call_arguments_may_be_expressions() {
    assert!(matches!(
        interpret("fn add(a,b){ a+b } add(2+3, 4*5)", u64::MAX),
        Ok(RuntimeValue::INTEGER(25))
    ));
}

#[test]
fn inner_function_shadows_outer_one() {
    assert!(matches!(
        interpret("fn f(a){ 1 } { fn f(a){ 2 } f(0) }", u64::MAX),
        Ok(RuntimeValue::INTEGER(2))
    ));
}

#[test]
fn function_definition_yields_null() {
    assert!(matches!(interpret("fn f(a){ a }", u64::MAX), Ok(RuntimeValue::NULL)));
}

#[test]
fn connectives_do_not_short_circuit() {
    // Both operands of `&&` and `||` are always evaluated, so a failing right
    // operand is an error even when the left operand already decides.
    assert!(matches!(
        interpret("x = 1==2 x && 5/0", u64::MAX),
        Err(InterpError::Eval(EvalError::DivisionByZero { .. }))
    ));
    assert!(matches!(
        interpret("x = 1==1 x || y", u64::MAX),
        Err(InterpError::Eval(EvalError::UnsetIdentifier { .. }))
    ));
}
