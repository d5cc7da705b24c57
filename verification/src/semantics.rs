//! The meaning of programs, as functions from syntax trees and environments
//! to values and environments.
//!
//! Evaluation takes a bound on the depth of nested calls, which guarantees
//! that it ends: a call made where the bound is used up yields an error
//! value.

use vstd::prelude::*;
use vstd::wrapping::i64_specs::{wrapping_add, wrapping_mul, wrapping_sub};
use crate::ast::{BlockView, ExpressionView, IdentifierView, ProgramView, StatementView};
use crate::environment::{bind, enclose, lookup, ScopeView};
use crate::object::{type_label, ObjectView};

verus! {

/// A value together with the environment that evaluation left.
pub struct Outcome {
    pub value: ObjectView,
    pub env: Seq<ScopeView>,
}

/// The values of a list of expressions, or the first error among them,
/// together with the environment that evaluation left.
pub struct ListOutcome {
    pub values: Result<Seq<ObjectView>, ObjectView>,
    pub env: Seq<ScopeView>,
}

/// An error value with the given message.
pub open spec fn failure(message: Seq<char>) -> ObjectView {
    ObjectView::Error(message)
}

/// Whether a value is an error.
pub open spec fn is_failure(o: ObjectView) -> bool {
    o is Error
}

/// Whether a value ends the evaluation of a block: a returned value or an
/// error.
pub open spec fn is_final(o: ObjectView) -> bool {
    o is Error || o is ReturnValue
}

/// Whether a value counts as true: a boolean by itself, the null value as
/// false, everything else as true.
pub open spec fn truthy(o: ObjectView) -> bool {
    match o {
        ObjectView::Boolean(v) => v,
        ObjectView::Null => false,
        _ => true,
    }
}

/// The value that a returned value carries; another value is itself.
pub open spec fn unwrapped(o: ObjectView) -> ObjectView {
    match o {
        ObjectView::ReturnValue(inner) => *inner,
        _ => o,
    }
}

/// A value as a `return` hands it up: wrapped, unless it is a returned value
/// already.
pub open spec fn returned(o: ObjectView) -> ObjectView {
    match o {
        ObjectView::ReturnValue(_) => o,
        _ => ObjectView::ReturnValue(Box::new(o)),
    }
}

/// The value that a returned value carries in the end, however often it is
/// wrapped; another value is itself.
pub open spec fn settled(o: ObjectView) -> ObjectView
    decreases o,
{
    match o {
        ObjectView::ReturnValue(inner) => settled(*inner),
        _ => o,
    }
}

/// A settled value is no returned value.
pub proof fn lemma_settled(o: ObjectView)
    ensures
        !(settled(o) is ReturnValue),
        is_failure(o) ==> settled(o) == o,
    decreases o,
{
    match o {
        ObjectView::ReturnValue(inner) => {
            lemma_settled(*inner);
        },
        _ => {},
    }
}

/// The value of `!` applied to a value.
pub open spec fn bang_value(o: ObjectView) -> ObjectView {
    ObjectView::Boolean(!truthy(o))
}

/// The value of `-` applied to a value: the negated integer, which wraps
/// around at the smallest one; an error for what is no integer.
pub open spec fn minus_value(o: ObjectView) -> ObjectView {
    match o {
        ObjectView::Integer(v) => ObjectView::Integer(wrapping_sub(0, v)),
        _ => failure("unknown operator: -"@ + type_label(o)),
    }
}

/// The value of a prefix operator applied to a value.
pub open spec fn prefix_value(operator: Seq<char>, o: ObjectView) -> ObjectView {
    if operator == "!"@ {
        bang_value(o)
    } else if operator == "-"@ {
        minus_value(o)
    } else {
        failure("unknown operator: "@ + operator + type_label(o))
    }
}

/// The quotient of two integers, rounded toward zero; the one quotient that
/// does not fit wraps around. The divisor is not zero.
pub open spec fn quotient(left: i64, right: i64) -> i64 {
    let x = left as int;
    let d = right as int;
    if x == i64::MIN && d == -1 {
        i64::MIN
    } else if x >= 0 && d > 0 {
        (x / d) as i64
    } else if x < 0 && d < 0 {
        ((-x) / (-d)) as i64
    } else if x < 0 {
        (-((-x) / d)) as i64
    } else {
        (-(x / (-d))) as i64
    }
}

/// The value of a binary operator between two integers. Sums, differences
/// and products wrap around; division by zero is an error.
pub open spec fn integer_infix_value(operator: Seq<char>, left: i64, right: i64) -> ObjectView {
    if operator == "+"@ {
        ObjectView::Integer(wrapping_add(left, right))
    } else if operator == "-"@ {
        ObjectView::Integer(wrapping_sub(left, right))
    } else if operator == "*"@ {
        ObjectView::Integer(wrapping_mul(left, right))
    } else if operator == "/"@ {
        if right == 0 {
            failure("division by zero"@)
        } else {
            ObjectView::Integer(quotient(left, right))
        }
    } else if operator == "<"@ {
        ObjectView::Boolean(left < right)
    } else if operator == ">"@ {
        ObjectView::Boolean(left > right)
    } else if operator == "=="@ {
        ObjectView::Boolean(left == right)
    } else if operator == "!="@ {
        ObjectView::Boolean(left != right)
    } else {
        failure("unknown operator: INTEGER "@ + operator + " INTEGER"@)
    }
}

/// The value of a binary operator between two booleans.
pub open spec fn boolean_infix_value(operator: Seq<char>, left: bool, right: bool) -> ObjectView {
    if operator == "=="@ {
        ObjectView::Boolean(left == right)
    } else if operator == "!="@ {
        ObjectView::Boolean(left != right)
    } else {
        failure("unknown operator: BOOLEAN "@ + operator + " BOOLEAN"@)
    }
}

/// The message for an operator that two operands do not support.
pub open spec fn operands_message(
    prefix: Seq<char>,
    left: ObjectView,
    operator: Seq<char>,
    right: ObjectView,
) -> Seq<char> {
    prefix + type_label(left) + " "@ + operator + " "@ + type_label(right)
}

/// The value of a binary operator between two values.
pub open spec fn infix_value(
    operator: Seq<char>,
    left: ObjectView,
    right: ObjectView,
) -> ObjectView {
    match (left, right) {
        (ObjectView::Integer(l), ObjectView::Integer(r)) => integer_infix_value(operator, l, r),
        (ObjectView::Boolean(l), ObjectView::Boolean(r)) => boolean_infix_value(operator, l, r),
        (ObjectView::Null, ObjectView::Null) => if operator == "=="@ {
            ObjectView::Boolean(true)
        } else if operator == "!="@ {
            ObjectView::Boolean(false)
        } else {
            failure(operands_message("unknown operator: "@, left, operator, right))
        },
        _ => if operator == "=="@ {
            ObjectView::Boolean(false)
        } else if operator == "!="@ {
            ObjectView::Boolean(true)
        } else {
            failure(operands_message("type mismatch: "@, left, operator, right))
        },
    }
}

/// The names of a list of parameters.
pub open spec fn parameter_names(parameters: Option<Seq<IdentifierView>>) -> Seq<Seq<char>> {
    match parameters {
        Some(list) => Seq::new(list.len(), |i: int| list[i].value),
        None => Seq::empty(),
    }
}

/// The environment in which the scope `scope` binds the first `n`
/// parameters to the first `n` arguments, the first to the first.
pub open spec fn bind_parameters(
    env: Seq<ScopeView>,
    scope: nat,
    parameters: Seq<Seq<char>>,
    arguments: Seq<ObjectView>,
    n: nat,
) -> Seq<ScopeView>
    decreases n,
{
    if n == 0 {
        env
    } else {
        bind(
            bind_parameters(env, scope, parameters, arguments, (n - 1) as nat),
            scope,
            parameters[n - 1],
            arguments[n - 1],
        )
    }
}

/// How many parameters a call binds: as many as there are parameters and
/// arguments both.
pub open spec fn bound_count(parameters: Seq<Seq<char>>, arguments: Seq<ObjectView>) -> nat {
    if parameters.len() <= arguments.len() {
        parameters.len()
    } else {
        arguments.len()
    }
}

/// The environment for a call: one more scope, enclosed by the scope that
/// the function captured, which binds the parameters to the arguments by
/// position. Arguments without a parameter are dropped, and parameters
/// without an argument stay unbound.
pub open spec fn extended(
    env: Seq<ScopeView>,
    captured: nat,
    parameters: Seq<Seq<char>>,
    arguments: Seq<ObjectView>,
) -> Seq<ScopeView> {
    bind_parameters(
        enclose(env, captured),
        env.len(),
        parameters,
        arguments,
        bound_count(parameters, arguments),
    )
}

/// The value of an expression, and the environment after its evaluation,
/// in the scope `scope` and with `depth` nested calls left.
pub open spec fn expression_outcome(
    e: ExpressionView,
    env: Seq<ScopeView>,
    scope: nat,
    depth: nat,
) -> Outcome
    decreases depth, 1nat, e, 0nat,
{
    match e {
        ExpressionView::Identifier(n) => match lookup(env, scope, n.value) {
            Some(value) => Outcome { value, env },
            None => Outcome { value: failure("identifier not found: "@ + n.value), env },
        },
        ExpressionView::IntegerLiteral { value, .. } => Outcome {
            value: ObjectView::Integer(value),
            env,
        },
        ExpressionView::Bool { value, .. } => Outcome { value: ObjectView::Boolean(value), env },
        ExpressionView::Prefix { operator, right, .. } => match right {
            None => Outcome { value: failure("missing right expression"@), env },
            Some(operand) => {
                let r = expression_outcome(*operand, env, scope, depth);
                if is_failure(r.value) {
                    r
                } else {
                    Outcome { value: prefix_value(operator, r.value), env: r.env }
                }
            },
        },
        ExpressionView::Infix { operator, left, right, .. } => match (left, right) {
            (None, _) => Outcome { value: failure("missing left expression"@), env },
            (Some(_), None) => Outcome { value: failure("missing right expression"@), env },
            (Some(first), Some(second)) => {
                let l = expression_outcome(*first, env, scope, depth);
                if is_failure(l.value) {
                    l
                } else {
                    let r = expression_outcome(*second, l.env, scope, depth);
                    if is_failure(r.value) {
                        r
                    } else {
                        Outcome { value: infix_value(operator, l.value, r.value), env: r.env }
                    }
                }
            },
        },
        ExpressionView::If { condition, first, second, .. } => match condition {
            None => Outcome { value: failure("missing if condition"@), env },
            Some(test) => {
                let c = expression_outcome(*test, env, scope, depth);
                if is_failure(c.value) {
                    c
                } else if truthy(c.value) {
                    match first {
                        Some(block) => block_outcome(block, c.env, scope, depth),
                        None => Outcome { value: ObjectView::Null, env: c.env },
                    }
                } else {
                    match second {
                        Some(block) => block_outcome(block, c.env, scope, depth),
                        None => Outcome { value: ObjectView::Null, env: c.env },
                    }
                }
            },
        },
        ExpressionView::FunctionLiteral { parameters, body, .. } => match body {
            None => Outcome { value: failure("missing function body"@), env },
            Some(block) => Outcome {
                value: ObjectView::Function {
                    parameters: parameter_names(parameters),
                    body: block,
                    env: scope,
                },
                env,
            },
        },
        ExpressionView::Call { function, arguments, .. } => match function {
            None => Outcome { value: failure("missing function expression"@), env },
            Some(callee) => {
                let f = expression_outcome(*callee, env, scope, depth);
                if is_failure(f.value) {
                    f
                } else {
                    let a = match arguments {
                        Some(list) => arguments_outcome(
                            list,
                            0,
                            Seq::empty(),
                            f.env,
                            scope,
                            depth,
                        ),
                        None => ListOutcome { values: Ok(Seq::empty()), env: f.env },
                    };
                    match a.values {
                        Err(error) => Outcome { value: error, env: a.env },
                        Ok(values) => call_outcome(f.value, values, a.env, depth),
                    }
                }
            },
        },
    }
}

/// The values of the expressions of `list` from index `k` on, behind those
/// in `done`, evaluated from left to right; the first error among them ends
/// the evaluation.
pub open spec fn arguments_outcome(
    list: Seq<ExpressionView>,
    k: nat,
    done: Seq<ObjectView>,
    env: Seq<ScopeView>,
    scope: nat,
    depth: nat,
) -> ListOutcome
    decreases depth, 1nat, list, list.len() - k,
{
    if k >= list.len() {
        ListOutcome { values: Ok(done), env }
    } else {
        let r = expression_outcome(list[k as int], env, scope, depth);
        if is_failure(r.value) {
            ListOutcome { values: Err(r.value), env: r.env }
        } else {
            arguments_outcome(list, k + 1, done.push(r.value), r.env, scope, depth)
        }
    }
}

/// The value of calling `function` with `arguments`: the value of the
/// function's body in a new scope that binds the parameters and is enclosed
/// by the scope that the function captured. A value that the body returns
/// is unwrapped; an error is not. What is no function cannot be called, and
/// neither can a function where no nested call is left.
pub open spec fn call_outcome(
    function: ObjectView,
    arguments: Seq<ObjectView>,
    env: Seq<ScopeView>,
    depth: nat,
) -> Outcome
    decreases depth, 0nat, function, 0nat,
{
    match function {
        ObjectView::Function { parameters, body, env: captured } => {
            if depth == 0 {
                Outcome { value: failure("call depth exceeded"@), env }
            } else {
                let r = block_outcome(
                    body,
                    extended(env, captured, parameters, arguments),
                    env.len(),
                    (depth - 1) as nat,
                );
                Outcome { value: unwrapped(r.value), env: r.env }
            }
        },
        _ => Outcome { value: failure("not a function: "@ + type_label(function)), env },
    }
}

/// The value of a block: that of its last statement, or the null value if
/// it has none; a returned value or an error ends the block at once and is
/// its value as it stands.
pub open spec fn block_outcome(b: BlockView, env: Seq<ScopeView>, scope: nat, depth: nat) -> Outcome
    decreases depth, 1nat, b, 0nat,
{
    statements_outcome(b.statements, 0, ObjectView::Null, env, scope, depth)
}

/// The value of the statements of `list` from index `k` on, where `last` is
/// the value of the statement before them.
pub open spec fn statements_outcome(
    list: Seq<StatementView>,
    k: nat,
    last: ObjectView,
    env: Seq<ScopeView>,
    scope: nat,
    depth: nat,
) -> Outcome
    decreases depth, 1nat, list, list.len() - k,
{
    if k >= list.len() {
        Outcome { value: last, env }
    } else {
        let r = statement_outcome(list[k as int], env, scope, depth);
        if is_final(r.value) {
            r
        } else {
            statements_outcome(list, k + 1, r.value, r.env, scope, depth)
        }
    }
}

/// The value of an optional expression; that of a missing one is the null
/// value.
pub open spec fn optional_outcome(
    e: Option<ExpressionView>,
    env: Seq<ScopeView>,
    scope: nat,
    depth: nat,
) -> Outcome
    decreases depth, 1nat, e, 0nat,
{
    match e {
        Some(inner) => expression_outcome(inner, env, scope, depth),
        None => Outcome { value: ObjectView::Null, env },
    }
}

/// The value of a statement. A `let` binds its name in the scope `scope`
/// and has the null value; a `return` wraps its value, unless that is a
/// returned value already; an error in the expression of either is the
/// value of the statement.
pub open spec fn statement_outcome(
    s: StatementView,
    env: Seq<ScopeView>,
    scope: nat,
    depth: nat,
) -> Outcome
    decreases depth, 1nat, s, 1nat,
{
    match s {
        StatementView::Let { name, value, .. } => {
            let r = optional_outcome(value, env, scope, depth);
            if is_failure(r.value) {
                r
            } else {
                Outcome { value: ObjectView::Null, env: bind(r.env, scope, name.value, r.value) }
            }
        },
        StatementView::Return { return_value, .. } => {
            let r = optional_outcome(return_value, env, scope, depth);
            if is_failure(r.value) {
                r
            } else {
                Outcome { value: returned(r.value), env: r.env }
            }
        },
        StatementView::Expression { expression, .. } => optional_outcome(
            expression,
            env,
            scope,
            depth,
        ),
    }
}

/// The value of a program in the scope `scope`: that of its last statement,
/// or the null value if it has none. A returned value ends the program and
/// is unwrapped, so that the value of a program is never a returned value;
/// an error ends it too.
pub open spec fn program_outcome(
    p: ProgramView,
    env: Seq<ScopeView>,
    scope: nat,
    depth: nat,
) -> Outcome {
    let r = statements_outcome(p.body, 0, ObjectView::Null, env, scope, depth);
    Outcome { value: settled(r.value), env: r.env }
}

} // verus!
