//! Tree-walking evaluation: a stateless, single-pass recursive reduction
//! of syntax trees to runtime values. Literals evaluate to themselves;
//! prefix and infix operators follow two's-complement 64-bit arithmetic
//! and truthy negation; every node kind with no evaluation rule, and every
//! type-mismatched operation, degrades to the null value rather than
//! failing.

use vstd::arithmetic::div_mod::{
    lemma_div_is_ordered_by_denominator,
    lemma_div_nonincreasing,
    lemma_div_pos_is_pos,
};
use vstd::prelude::*;

use crate::ast::{view_nodes, Ast, AstV};
use crate::object::Object;
use crate::text::str_eq;

verus! {

broadcast use vstd::seq::group_seq_axioms;

/// The value of the bang operator on `right`: booleans flip, null is
/// truthy-negated to `true`, and every other value to `false`.
pub open spec fn spec_bang(right: Object) -> Object {
    match right {
        Object::Boolean { value } => Object::Boolean { value: !value },
        Object::Null => Object::Boolean { value: true },
        _ => Object::Boolean { value: false },
    }
}

/// The value of arithmetic negation on `right`: two's-complement negation
/// of an integer, null for every other operand.
pub open spec fn spec_minus(right: Object) -> Object {
    match right {
        Object::Integer { value } => Object::Integer {
            value: vstd::wrapping::i64_specs::wrapping_sub(0, value),
        },
        _ => Object::Null,
    }
}

/// The value of a prefix operator: `Some` exactly for the two defined
/// operators `!` and `-`.
pub open spec fn spec_prefix(operator: Seq<char>, right: Object) -> Option<Object> {
    if operator == "!"@ {
        Some(spec_bang(right))
    } else if operator == "-"@ {
        Some(spec_minus(right))
    } else {
        None
    }
}

/// The 64-bit quotient of `l` and `r`, truncated toward zero and wrapped
/// on the one overflowing pair.
pub open spec fn spec_div(l: i64, r: i64) -> i64
    recommends
        r != 0,
{
    if l == i64::MIN && r == -1 {
        i64::MIN
    } else {
        spec_trunc_div(l as int, r as int) as i64
    }
}

/// The quotient of `x` and `d`, truncated toward zero.
pub open spec fn spec_trunc_div(x: int, d: int) -> int
    recommends
        d != 0,
{
    if x == 0 {
        0
    } else if x > 0 && d > 0 {
        x / d
    } else if x < 0 && d < 0 {
        (x * -1) / (d * -1)
    } else if x < 0 {
        ((x * -1) / d) * -1
    } else {
        (x / (d * -1)) * -1
    }
}

/// The truncated quotient of two 64-bit values stays in the 64-bit range
/// except for the single overflowing pair.
proof fn lemma_trunc_div_range(l: i64, r: i64)
    requires
        r != 0,
        !(l == i64::MIN && r == -1),
    ensures
        i64::MIN <= spec_trunc_div(l as int, r as int) <= i64::MAX,
{
    let x = l as int;
    let d = r as int;
    if x == 0 {
    } else if x > 0 && d > 0 {
        lemma_div_pos_is_pos(x, d);
        lemma_div_nonincreasing(x, d);
    } else if x < 0 && d < 0 {
        lemma_div_pos_is_pos(x * -1, d * -1);
        lemma_div_nonincreasing(x * -1, d * -1);
        if x == i64::MIN {
            lemma_div_is_ordered_by_denominator(x * -1, 2, d * -1);
        }
    } else if x < 0 {
        lemma_div_pos_is_pos(x * -1, d);
        lemma_div_nonincreasing(x * -1, d);
    } else {
        lemma_div_pos_is_pos(x, d * -1);
        lemma_div_nonincreasing(x, d * -1);
    }
}

/// The value of an infix operator on two integers: wrapping 64-bit
/// arithmetic for `+ - * /`, comparisons and equality as booleans, null
/// for an unrecognized operator and for division by zero.
pub open spec fn spec_int_infix(operator: Seq<char>, l: i64, r: i64) -> Object {
    if operator == "+"@ {
        Object::Integer { value: vstd::wrapping::i64_specs::wrapping_add(l, r) }
    } else if operator == "-"@ {
        Object::Integer { value: vstd::wrapping::i64_specs::wrapping_sub(l, r) }
    } else if operator == "*"@ {
        Object::Integer { value: vstd::wrapping::i64_specs::wrapping_mul(l, r) }
    } else if operator == "/"@ {
        if r == 0 {
            Object::Null
        } else {
            Object::Integer { value: spec_div(l, r) }
        }
    } else if operator == "<"@ {
        Object::Boolean { value: l < r }
    } else if operator == ">"@ {
        Object::Boolean { value: l > r }
    } else if operator == "=="@ {
        Object::Boolean { value: l == r }
    } else if operator == "!="@ {
        Object::Boolean { value: l != r }
    } else {
        Object::Null
    }
}

/// The value of an infix operator on two booleans: only equality and
/// inequality are defined.
pub open spec fn spec_bool_infix(operator: Seq<char>, l: bool, r: bool) -> Object {
    if operator == "=="@ {
        Object::Boolean { value: l == r }
    } else if operator == "!="@ {
        Object::Boolean { value: l != r }
    } else {
        Object::Null
    }
}

/// The value of an infix operator: dispatch on the operands' runtime
/// tags, null for any other tag combination.
pub open spec fn spec_infix(operator: Seq<char>, left: Object, right: Object) -> Object {
    match (left, right) {
        (Object::Integer { value: l }, Object::Integer { value: r }) => spec_int_infix(
            operator,
            l,
            r,
        ),
        (Object::Boolean { value: l }, Object::Boolean { value: r }) => spec_bool_infix(
            operator,
            l,
            r,
        ),
        _ => Object::Null,
    }
}

/// The value of a syntax tree: sequencing for programs, literal values
/// for literals, operator rules for prefix and infix expressions, null
/// for every node kind with no evaluation rule.
pub open spec fn spec_eval(a: AstV) -> Object
    decreases a,
{
    match a {
        AstV::Program { statements } => spec_eval_last(statements),
        AstV::ExpressionStatement { expression } => spec_eval(*expression),
        AstV::Integer { value } => Object::Integer { value },
        AstV::Boolean { value } => Object::Boolean { value },
        AstV::PrefixExpression { operator, right } => match spec_prefix(
            operator,
            spec_eval(*right),
        ) {
            Some(o) => o,
            None => Object::Null,
        },
        AstV::InfixExpression { left, operator, right } => spec_infix(
            operator,
            spec_eval(*left),
            spec_eval(*right),
        ),
        _ => Object::Null,
    }
}

/// The value of a statement sequence: the value of its last statement,
/// null when it is empty.
pub open spec fn spec_eval_last(statements: Seq<AstV>) -> Object
    decreases statements,
{
    if statements.len() == 0 {
        Object::Null
    } else {
        spec_eval(statements.last())
    }
}

/// Reduces a syntax tree to its runtime value. Total over every tree:
/// undefined cases degrade to `Object::Null`, and no input panics.
pub fn eval(node: Ast) -> (r: Object)
    ensures
        r == spec_eval(node@),
    decreases node,
{
    match node {
        Ast::Program { statements } => {
            let r = eval_statements(*statements);
            match r {
                Some(o) => o,
                None => Object::Null,
            }
        },
        Ast::ExpressionStatement { expression } => eval(*expression),
        Ast::Integer { value } => Object::Integer { value },
        Ast::Boolean { value } => Object::Boolean { value },
        Ast::PrefixExpression { operator, right } => {
            let right_value = eval(*right);
            match eval_prefix_expression(*operator, right_value) {
                Some(o) => o,
                None => Object::Null,
            }
        },
        Ast::InfixExpression { left, operator, right } => {
            let left_value = eval(*left);
            let right_value = eval(*right);
            eval_infix_expression(*operator, left_value, right_value)
        },
        _ => Object::Null,
    }
}

/// Evaluates each statement in order; the result is the last statement's
/// value, null for an empty sequence. Always `Some`.
#[verifier::loop_isolation(false)]
pub fn eval_statements(statements: Vec<Box<Ast>>) -> (r: Option<Object>)
    ensures
        r == Some(spec_eval_last(view_nodes(statements@))),
    decreases statements@,
{
    proof {
        crate::ast::lemma_view_nodes(statements@);
    }
    let ghost entry = statements@;
    let mut result = Object::Null;
    let n = statements.len();
    let mut statements = statements;
    let mut i: usize = 0;
    while i < n
        invariant
            n == entry.len(),
            0 <= i <= n,
            statements@ == entry.subrange(i as int, n as int),
            forall|j: int|
                0 <= j < entry.len() ==> view_nodes(entry)[j] == crate::ast::view_ast(*entry[j]),
            view_nodes(entry).len() == entry.len(),
            result == (if i == 0 {
                Object::Null
            } else {
                spec_eval(crate::ast::view_ast(*entry[i - 1]))
            }),
        decreases n - i,
    {
        let statement = statements.remove(0);
        proof {
            assert(statement == entry[i as int]);
            assert(decreases_to!(entry => *entry[i as int]));
        }
        result = eval(*statement);
        i = i + 1;
        proof {
            assert(statements@ =~= entry.subrange(i as int, n as int));
        }
    }
    proof {
        if n > 0 {
            assert(view_nodes(entry).last() == crate::ast::view_ast(*entry[n - 1]));
        }
    }
    Some(result)
}

/// Applies a prefix operator to an evaluated operand: `Some` exactly for
/// the two defined operators `!` and `-`.
pub fn eval_prefix_expression(operator: String, right: Object) -> (r: Option<Object>)
    ensures
        r == spec_prefix(operator@, right),
{
    if str_eq(operator.as_str(), "!") {
        Some(eval_bang_operator_expression(right))
    } else if str_eq(operator.as_str(), "-") {
        Some(eval_minus_prefix_operator_expression(right))
    } else {
        None
    }
}

/// Truthy logical negation: booleans flip, null negates to `true`, any
/// other value to `false`.
pub fn eval_bang_operator_expression(right: Object) -> (r: Object)
    ensures
        r == spec_bang(right),
{
    match right {
        Object::Boolean { value } => {
            if value {
                return Object::Boolean { value: false };
            }
            Object::Boolean { value: true }
        },
        Object::Null => Object::Boolean { value: true },
        _ => Object::Boolean { value: false },
    }
}

/// Two's-complement negation of an integer operand; null for any other
/// operand.
pub fn eval_minus_prefix_operator_expression(right: Object) -> (r: Object)
    ensures
        r == spec_minus(right),
{
    match right {
        Object::Integer { value } => Object::Integer { value: 0i64.wrapping_sub(value) },
        _ => Object::Null,
    }
}

/// Applies an infix operator after dispatching on the operands' runtime
/// tags; any other tag combination yields null.
pub fn eval_infix_expression(operator: String, left: Object, right: Object) -> (r: Object)
    ensures
        r == spec_infix(operator@, left, right),
{
    if let Object::Integer { value: lvalue } = left {
        if let Object::Integer { value: rvalue } = right {
            return eval_integer_infix_expression(operator, lvalue, rvalue);
        }
    }
    if let Object::Boolean { value: lvalue } = left {
        if let Object::Boolean { value: rvalue } = right {
            return eval_boolean_infix_expression(operator, lvalue, rvalue);
        }
    }
    Object::Null
}

/// Integer infix operators: wrapping 64-bit `+ - * /` (division truncates
/// toward zero; dividing by zero yields null) and the four comparisons.
pub fn eval_integer_infix_expression(operator: String, lvalue: i64, rvalue: i64) -> (r: Object)
    ensures
        r == spec_int_infix(operator@, lvalue, rvalue),
{
    let op = operator.as_str();
    if str_eq(op, "+") {
        Object::Integer { value: lvalue.wrapping_add(rvalue) }
    } else if str_eq(op, "-") {
        Object::Integer { value: lvalue.wrapping_sub(rvalue) }
    } else if str_eq(op, "*") {
        Object::Integer { value: lvalue.wrapping_mul(rvalue) }
    } else if str_eq(op, "/") {
        if rvalue == 0 {
            Object::Null
        } else if lvalue == i64::MIN && rvalue == -1 {
            Object::Integer { value: i64::MIN }
        } else {
            proof {
                lemma_trunc_div_range(lvalue, rvalue);
            }
            match lvalue.checked_div(rvalue) {
                Some(q) => Object::Integer { value: q },
                None => Object::Null,
            }
        }
    } else if str_eq(op, "<") {
        Object::Boolean { value: lvalue < rvalue }
    } else if str_eq(op, ">") {
        Object::Boolean { value: lvalue > rvalue }
    } else if str_eq(op, "==") {
        Object::Boolean { value: lvalue == rvalue }
    } else if str_eq(op, "!=") {
        Object::Boolean { value: lvalue != rvalue }
    } else {
        Object::Null
    }
}

/// Boolean infix operators: only equality and inequality are defined.
pub fn eval_boolean_infix_expression(operator: String, lvalue: bool, rvalue: bool) -> (r: Object)
    ensures
        r == spec_bool_infix(operator@, lvalue, rvalue),
{
    let op = operator.as_str();
    if str_eq(op, "==") {
        Object::Boolean { value: lvalue == rvalue }
    } else if str_eq(op, "!=") {
        Object::Boolean { value: lvalue != rvalue }
    } else {
        Object::Null
    }
}

} // verus!
