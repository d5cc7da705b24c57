//! How errors and returned values travel outward: theorems about the
//! semantics.

use vstd::prelude::*;
use crate::ast::{BlockView, ExpressionView, ProgramView, StatementView};
use crate::environment::{bind, enclose, ScopeView};
use crate::object::ObjectView;
use crate::semantics::{
    arguments_outcome, bind_parameters, block_outcome, bound_count, call_outcome,
    expression_outcome, extended, is_failure, is_final, lemma_settled, optional_outcome,
    program_outcome, returned, settled, statement_outcome, statements_outcome, truthy,
    unwrapped, ListOutcome, Outcome,
};
use crate::token::TokenView;

verus! {

/// An error in the operand of a prefix operator is the value of the whole
/// expression.
pub proof fn lemma_error_in_prefix_operand(
    token: TokenView,
    operator: Seq<char>,
    operand: ExpressionView,
    env: Seq<ScopeView>,
    scope: nat,
    depth: nat,
)
    requires
        is_failure(expression_outcome(operand, env, scope, depth).value),
    ensures
        expression_outcome(
            ExpressionView::Prefix { token, operator, right: Some(Box::new(operand)) },
            env,
            scope,
            depth,
        ) == expression_outcome(operand, env, scope, depth),
{
}

/// An error in the left operand of a binary operator is the value of the
/// whole expression, and so is an error in the right operand where the left
/// one has a value.
pub proof fn lemma_error_in_infix_operand(
    token: TokenView,
    operator: Seq<char>,
    left: ExpressionView,
    right: ExpressionView,
    env: Seq<ScopeView>,
    scope: nat,
    depth: nat,
)
    ensures
        ({
            let whole = ExpressionView::Infix {
                token,
                operator,
                left: Some(Box::new(left)),
                right: Some(Box::new(right)),
            };
            let l = expression_outcome(left, env, scope, depth);
            let r = expression_outcome(right, l.env, scope, depth);
            &&& is_failure(l.value) ==> expression_outcome(whole, env, scope, depth) == l
            &&& !is_failure(l.value) && is_failure(r.value) ==> expression_outcome(
                whole,
                env,
                scope,
                depth,
            ) == r
        }),
{
}

/// An error in the condition of a conditional is the value of the whole
/// expression; where the condition has a value, the value of the block that
/// it selects is the value of the whole, be it an error, a returned value
/// or anything else.
pub proof fn lemma_error_in_conditional(
    token: TokenView,
    condition: ExpressionView,
    first: Option<BlockView>,
    second: Option<BlockView>,
    env: Seq<ScopeView>,
    scope: nat,
    depth: nat,
)
    ensures
        ({
            let whole = ExpressionView::If {
                token,
                condition: Some(Box::new(condition)),
                first,
                second,
            };
            let c = expression_outcome(condition, env, scope, depth);
            let selected = if truthy(c.value) {
                first
            } else {
                second
            };
            &&& is_failure(c.value) ==> expression_outcome(whole, env, scope, depth) == c
            &&& !is_failure(c.value) && selected is Some ==> expression_outcome(
                whole,
                env,
                scope,
                depth,
            ) == block_outcome(selected.unwrap(), c.env, scope, depth)
        }),
{
}

/// An error among the arguments of a call ends their evaluation: where the
/// argument with index `k` evaluates to an error, the arguments from `k` on
/// evaluate to that error.
pub proof fn lemma_error_in_argument(
    list: Seq<ExpressionView>,
    k: nat,
    done: Seq<ObjectView>,
    env: Seq<ScopeView>,
    scope: nat,
    depth: nat,
)
    requires
        k < list.len(),
        is_failure(expression_outcome(list[k as int], env, scope, depth).value),
    ensures
        arguments_outcome(list, k, done, env, scope, depth) == (ListOutcome {
            values: Err(expression_outcome(list[k as int], env, scope, depth).value),
            env: expression_outcome(list[k as int], env, scope, depth).env,
        }),
{
}

/// An error in the callee of a call is the value of the whole expression,
/// and so is the first error among the arguments where the callee has a
/// value.
pub proof fn lemma_error_in_call(
    token: TokenView,
    function: ExpressionView,
    arguments: Seq<ExpressionView>,
    env: Seq<ScopeView>,
    scope: nat,
    depth: nat,
)
    ensures
        ({
            let whole = ExpressionView::Call {
                token,
                function: Some(Box::new(function)),
                arguments: Some(arguments),
            };
            let f = expression_outcome(function, env, scope, depth);
            let a = arguments_outcome(arguments, 0, Seq::empty(), f.env, scope, depth);
            &&& is_failure(f.value) ==> expression_outcome(whole, env, scope, depth) == f
            &&& !is_failure(f.value) ==> match a.values {
                Err(error) => expression_outcome(whole, env, scope, depth) == (Outcome {
                    value: error,
                    env: a.env,
                }),
                Ok(values) => expression_outcome(whole, env, scope, depth) == call_outcome(
                    f.value,
                    values,
                    a.env,
                    depth,
                ),
            }
        }),
{
}

/// An error in the body of a function is the value of the call: it is not
/// unwrapped.
pub proof fn lemma_error_in_body(
    parameters: Seq<Seq<char>>,
    body: BlockView,
    captured: nat,
    arguments: Seq<ObjectView>,
    env: Seq<ScopeView>,
    depth: nat,
)
    requires
        depth > 0,
        is_failure(
            block_outcome(
                body,
                extended(env, captured, parameters, arguments),
                env.len(),
                (depth - 1) as nat,
            ).value,
        ),
    ensures
        call_outcome(
            ObjectView::Function { parameters, body, env: captured },
            arguments,
            env,
            depth,
        ) == block_outcome(
            body,
            extended(env, captured, parameters, arguments),
            env.len(),
            (depth - 1) as nat,
        ),
{
}

/// An error in the expression of a statement is the value of the statement,
/// and a `let` whose expression is one binds nothing.
pub proof fn lemma_error_in_statement(
    s: StatementView,
    env: Seq<ScopeView>,
    scope: nat,
    depth: nat,
)
    ensures
        ({
            let e = match s {
                StatementView::Let { value, .. } => value,
                StatementView::Return { return_value, .. } => return_value,
                StatementView::Expression { expression, .. } => expression,
            };
            is_failure(optional_outcome(e, env, scope, depth).value) ==> statement_outcome(
                s,
                env,
                scope,
                depth,
            ) == optional_outcome(e, env, scope, depth)
        }),
{
}

/// The outcome of the first `k` statements of a list where none of them
/// ends the evaluation: the value of the last of them and the environment
/// that they leave.
pub open spec fn reaches(
    list: Seq<StatementView>,
    k: nat,
    env: Seq<ScopeView>,
    scope: nat,
    depth: nat,
) -> Option<Outcome>
    decreases k,
{
    if k == 0 {
        Some(Outcome { value: ObjectView::Null, env })
    } else {
        match reaches(list, (k - 1) as nat, env, scope, depth) {
            None => None,
            Some(before) => {
                let r = statement_outcome(list[k - 1], before.env, scope, depth);
                if k > list.len() || is_final(r.value) {
                    None
                } else {
                    Some(r)
                }
            },
        }
    }
}

/// Where the first `k` statements of a list do not end the evaluation, the
/// list evaluates to what the statements from `k` on evaluate to in the
/// environment that the first `k` leave.
pub proof fn lemma_reaches(
    list: Seq<StatementView>,
    k: nat,
    env: Seq<ScopeView>,
    scope: nat,
    depth: nat,
)
    requires
        reaches(list, k, env, scope, depth) is Some,
    ensures
        k <= list.len(),
        statements_outcome(list, 0, ObjectView::Null, env, scope, depth) == statements_outcome(
            list,
            k,
            reaches(list, k, env, scope, depth).unwrap().value,
            reaches(list, k, env, scope, depth).unwrap().env,
            scope,
            depth,
        ),
    decreases k,
{
    if k > 0 {
        lemma_reaches(list, (k - 1) as nat, env, scope, depth);
    }
}

/// A returned value or an error ends a block: where the statement with
/// index `k` is reached and evaluates to one, that is the value of the
/// block.
pub proof fn lemma_block_ends_at(
    b: BlockView,
    k: nat,
    env: Seq<ScopeView>,
    scope: nat,
    depth: nat,
)
    requires
        k < b.statements.len(),
        reaches(b.statements, k, env, scope, depth) is Some,
        is_final(
            statement_outcome(
                b.statements[k as int],
                reaches(b.statements, k, env, scope, depth).unwrap().env,
                scope,
                depth,
            ).value,
        ),
    ensures
        block_outcome(b, env, scope, depth) == statement_outcome(
            b.statements[k as int],
            reaches(b.statements, k, env, scope, depth).unwrap().env,
            scope,
            depth,
        ),
{
    lemma_reaches(b.statements, k, env, scope, depth);
}

/// An error ends a program and is its value.
pub proof fn lemma_error_in_program(
    p: ProgramView,
    k: nat,
    env: Seq<ScopeView>,
    scope: nat,
    depth: nat,
)
    requires
        k < p.body.len(),
        reaches(p.body, k, env, scope, depth) is Some,
        is_failure(
            statement_outcome(
                p.body[k as int],
                reaches(p.body, k, env, scope, depth).unwrap().env,
                scope,
                depth,
            ).value,
        ),
    ensures
        program_outcome(p, env, scope, depth) == statement_outcome(
            p.body[k as int],
            reaches(p.body, k, env, scope, depth).unwrap().env,
            scope,
            depth,
        ),
{
    lemma_reaches(p.body, k, env, scope, depth);
}

/// Whether the statements of `list`, evaluated in `env`, execute a `return`
/// of the value `v` that lies at the end of `path`. The path gives, from
/// the outermost block inward, the index of the statement that leads to the
/// `return`: the last index is that of the `return` statement itself, and
/// each index before it is that of a conditional in statement position
/// whose condition selects the block that the rest of the path runs in.
/// Every statement on the path is reached: none before it ends the
/// evaluation of its block.
pub open spec fn unwinds(
    list: Seq<StatementView>,
    path: Seq<nat>,
    v: ObjectView,
    env: Seq<ScopeView>,
    scope: nat,
    depth: nat,
) -> bool
    decreases path.len(),
{
    &&& path.len() > 0
    &&& path[0] < list.len()
    &&& reaches(list, path[0], env, scope, depth) is Some
    &&& {
        let here = reaches(list, path[0], env, scope, depth).unwrap().env;
        if path.len() == 1 {
            match list[path[0] as int] {
                StatementView::Return { return_value, .. } => {
                    &&& optional_outcome(return_value, here, scope, depth).value == v
                    &&& !is_failure(v)
                },
                _ => false,
            }
        } else {
            match list[path[0] as int] {
                StatementView::Expression {
                    expression: Some(
                        ExpressionView::If { condition: Some(condition), first, second, .. },
                    ),
                    ..
                } => {
                    let c = expression_outcome(*condition, here, scope, depth);
                    let selected = if truthy(c.value) {
                        first
                    } else {
                        second
                    };
                    &&& !is_failure(c.value)
                    &&& selected is Some
                    &&& unwinds(selected.unwrap().statements, path.skip(1), v, c.env, scope, depth)
                },
                _ => false,
            }
        }
    }
}

/// A `return` that is executed at any block depth makes every block around
/// it evaluate to the returned value, wrapped unless it is a returned value
/// already.
pub proof fn lemma_return_unwinds(
    list: Seq<StatementView>,
    path: Seq<nat>,
    v: ObjectView,
    env: Seq<ScopeView>,
    scope: nat,
    depth: nat,
)
    requires
        unwinds(list, path, v, env, scope, depth),
    ensures
        statements_outcome(list, 0, ObjectView::Null, env, scope, depth).value == returned(v),
    decreases path.len(),
{
    lemma_reaches(list, path[0], env, scope, depth);
    let here = reaches(list, path[0], env, scope, depth).unwrap();
    let statement = list[path[0] as int];
    let r = statement_outcome(statement, here.env, scope, depth);
    if path.len() > 1 {
        match statement {
            StatementView::Expression {
                expression: Some(
                    ExpressionView::If { condition: Some(condition), first, second, token },
                ),
                ..
            } => {
                let c = expression_outcome(*condition, here.env, scope, depth);
                let selected = if truthy(c.value) {
                    first
                } else {
                    second
                };
                lemma_return_unwinds(
                    selected.unwrap().statements,
                    path.skip(1),
                    v,
                    c.env,
                    scope,
                    depth,
                );
                let whole = ExpressionView::If {
                    token,
                    condition: Some(condition),
                    first,
                    second,
                };
                assert(block_outcome(selected.unwrap(), c.env, scope, depth).value == returned(v));
                assert(expression_outcome(whole, here.env, scope, depth) == block_outcome(
                    selected.unwrap(),
                    c.env,
                    scope,
                    depth,
                ));
                assert(optional_outcome(Some(whole), here.env, scope, depth) == expression_outcome(
                    whole,
                    here.env,
                    scope,
                    depth,
                ));
                assert(r.value == returned(v));
            },
            _ => {},
        }
    } else {
        assert(r.value == returned(v));
    }
    assert(statements_outcome(list, path[0], here.value, here.env, scope, depth) == r);
}

/// Inside a function body, a `return` of `v` that is executed at any block
/// depth makes the call yield `v`; where `v` is itself a returned value,
/// the call yields what it carries.
pub proof fn lemma_return_ends_call(
    parameters: Seq<Seq<char>>,
    body: BlockView,
    captured: nat,
    arguments: Seq<ObjectView>,
    env: Seq<ScopeView>,
    depth: nat,
    path: Seq<nat>,
    v: ObjectView,
)
    requires
        depth > 0,
        unwinds(
            body.statements,
            path,
            v,
            extended(env, captured, parameters, arguments),
            env.len(),
            (depth - 1) as nat,
        ),
    ensures
        call_outcome(
            ObjectView::Function { parameters, body, env: captured },
            arguments,
            env,
            depth,
        ).value == unwrapped(returned(v)),
        !(v is ReturnValue) ==> call_outcome(
            ObjectView::Function { parameters, body, env: captured },
            arguments,
            env,
            depth,
        ).value == v,
{
    lemma_return_unwinds(
        body.statements,
        path,
        v,
        extended(env, captured, parameters, arguments),
        env.len(),
        (depth - 1) as nat,
    );
}

/// At the top of a program, a `return` of `v` that is executed at any block
/// depth makes the program yield `v`; where `v` is itself a returned value,
/// the program yields what it carries in the end.
pub proof fn lemma_return_ends_program(
    p: ProgramView,
    path: Seq<nat>,
    v: ObjectView,
    env: Seq<ScopeView>,
    scope: nat,
    depth: nat,
)
    requires
        unwinds(p.body, path, v, env, scope, depth),
    ensures
        program_outcome(p, env, scope, depth).value == settled(v),
        !(v is ReturnValue) ==> program_outcome(p, env, scope, depth).value == v,
{
    lemma_return_unwinds(p.body, path, v, env, scope, depth);
    assert(settled(returned(v)) == settled(v));
}

/// The value of a program is never a returned value.
pub proof fn lemma_program_value_is_settled(
    p: ProgramView,
    env: Seq<ScopeView>,
    scope: nat,
    depth: nat,
)
    ensures
        !(program_outcome(p, env, scope, depth).value is ReturnValue),
{
    lemma_settled(statements_outcome(p.body, 0, ObjectView::Null, env, scope, depth).value);
}

/// Whether no name of an environment is bound to an error.
pub open spec fn binds_no_error(env: Seq<ScopeView>) -> bool {
    forall|s: int, name: Seq<char>|
        0 <= s < env.len() && #[trigger] env[s].store.contains_key(name) ==> !is_failure(
            env[s].store[name],
        )
}

/// Whether no value of a list is an error.
pub open spec fn holds_no_error(values: Seq<ObjectView>) -> bool {
    forall|i: int| 0 <= i < values.len() ==> !is_failure(#[trigger] values[i])
}

/// Binding a name to a value that is no error binds no error.
pub proof fn lemma_bind_binds_no_error(
    env: Seq<ScopeView>,
    scope: nat,
    name: Seq<char>,
    value: ObjectView,
)
    requires
        binds_no_error(env),
        !is_failure(value),
    ensures
        binds_no_error(bind(env, scope, name, value)),
{
    let after = bind(env, scope, name, value);
    assert forall|s: int, other: Seq<char>|
        0 <= s < after.len() && #[trigger] after[s].store.contains_key(other) implies !is_failure(
        after[s].store[other],
    ) by {
        if s == scope && other == name {
        } else {
            assert(env[s].store.contains_key(other));
        }
    }
}

/// Binding parameters to arguments that are no errors binds no error.
pub proof fn lemma_parameters_bind_no_error(
    env: Seq<ScopeView>,
    scope: nat,
    parameters: Seq<Seq<char>>,
    arguments: Seq<ObjectView>,
    n: nat,
)
    requires
        binds_no_error(env),
        holds_no_error(arguments),
        n <= arguments.len(),
    ensures
        binds_no_error(bind_parameters(env, scope, parameters, arguments, n)),
    decreases n,
{
    if n > 0 {
        lemma_parameters_bind_no_error(env, scope, parameters, arguments, (n - 1) as nat);
        lemma_bind_binds_no_error(
            bind_parameters(env, scope, parameters, arguments, (n - 1) as nat),
            scope,
            parameters[n - 1],
            arguments[n - 1],
        );
    }
}

/// The environment of a call whose arguments are no errors binds no error.
pub proof fn lemma_call_binds_no_error(
    env: Seq<ScopeView>,
    captured: nat,
    parameters: Seq<Seq<char>>,
    arguments: Seq<ObjectView>,
)
    requires
        binds_no_error(env),
        holds_no_error(arguments),
    ensures
        binds_no_error(extended(env, captured, parameters, arguments)),
{
    let base = enclose(env, captured);
    assert forall|s: int, name: Seq<char>|
        0 <= s < base.len() && #[trigger] base[s].store.contains_key(name) implies !is_failure(
        base[s].store[name],
    ) by {
        if s < env.len() {
            assert(env[s].store.contains_key(name));
        }
    }
    lemma_parameters_bind_no_error(
        base,
        env.len(),
        parameters,
        arguments,
        bound_count(parameters, arguments),
    );
}

/// An error is never bound to a name: evaluating an expression in an
/// environment that binds no error leaves one that binds no error.
pub proof fn lemma_expression_binds_no_error(
    e: ExpressionView,
    env: Seq<ScopeView>,
    scope: nat,
    depth: nat,
)
    requires
        binds_no_error(env),
    ensures
        binds_no_error(expression_outcome(e, env, scope, depth).env),
    decreases depth, 1nat, e, 0nat,
{
    match e {
        ExpressionView::Prefix { right: Some(operand), .. } => {
            lemma_expression_binds_no_error(*operand, env, scope, depth);
        },
        ExpressionView::Infix { left: Some(first), right: Some(second), .. } => {
            let l = expression_outcome(*first, env, scope, depth);
            lemma_expression_binds_no_error(*first, env, scope, depth);
            lemma_expression_binds_no_error(*second, l.env, scope, depth);
        },
        ExpressionView::If { condition: Some(test), first, second, .. } => {
            let c = expression_outcome(*test, env, scope, depth);
            lemma_expression_binds_no_error(*test, env, scope, depth);
            if !is_failure(c.value) {
                let selected = if truthy(c.value) {
                    first
                } else {
                    second
                };
                match selected {
                    Some(block) => {
                        lemma_block_binds_no_error(block, c.env, scope, depth);
                    },
                    None => {},
                }
            }
        },
        ExpressionView::Call { function: Some(callee), arguments, .. } => {
            let f = expression_outcome(*callee, env, scope, depth);
            lemma_expression_binds_no_error(*callee, env, scope, depth);
            if !is_failure(f.value) {
                match arguments {
                    Some(list) => {
                        let a = arguments_outcome(list, 0, Seq::empty(), f.env, scope, depth);
                        lemma_arguments_bind_no_error(list, 0, Seq::empty(), f.env, scope, depth);
                        match a.values {
                            Ok(values) => {
                                lemma_application_binds_no_error(f.value, values, a.env, depth);
                            },
                            Err(_) => {},
                        }
                    },
                    None => {
                        lemma_application_binds_no_error(f.value, Seq::empty(), f.env, depth);
                    },
                }
            }
        },
        _ => {},
    }
}

/// Evaluating arguments in an environment that binds no error leaves one
/// that binds no error, and the values of the arguments are no errors.
pub proof fn lemma_arguments_bind_no_error(
    list: Seq<ExpressionView>,
    k: nat,
    done: Seq<ObjectView>,
    env: Seq<ScopeView>,
    scope: nat,
    depth: nat,
)
    requires
        binds_no_error(env),
        holds_no_error(done),
    ensures
        binds_no_error(arguments_outcome(list, k, done, env, scope, depth).env),
        match arguments_outcome(list, k, done, env, scope, depth).values {
            Ok(values) => holds_no_error(values),
            Err(error) => is_failure(error),
        },
    decreases depth, 1nat, list, list.len() - k,
{
    if k < list.len() {
        let r = expression_outcome(list[k as int], env, scope, depth);
        lemma_expression_binds_no_error(list[k as int], env, scope, depth);
        if !is_failure(r.value) {
            let more = done.push(r.value);
            assert forall|i: int| 0 <= i < more.len() implies !is_failure(#[trigger] more[i]) by {
                if i < done.len() {
                    assert(more[i] == done[i]);
                }
            }
            lemma_arguments_bind_no_error(list, k + 1, more, r.env, scope, depth);
        }
    }
}

/// Calling a function with arguments that are no errors, in an environment
/// that binds no error, leaves one that binds no error.
pub proof fn lemma_application_binds_no_error(
    function: ObjectView,
    arguments: Seq<ObjectView>,
    env: Seq<ScopeView>,
    depth: nat,
)
    requires
        binds_no_error(env),
        holds_no_error(arguments),
    ensures
        binds_no_error(call_outcome(function, arguments, env, depth).env),
    decreases depth, 0nat, function, 0nat,
{
    match function {
        ObjectView::Function { parameters, body, env: captured } => {
            if depth > 0 {
                lemma_call_binds_no_error(env, captured, parameters, arguments);
                lemma_block_binds_no_error(
                    body,
                    extended(env, captured, parameters, arguments),
                    env.len(),
                    (depth - 1) as nat,
                );
            }
        },
        _ => {},
    }
}

/// Evaluating a block in an environment that binds no error leaves one
/// that binds no error.
pub proof fn lemma_block_binds_no_error(b: BlockView, env: Seq<ScopeView>, scope: nat, depth: nat)
    requires
        binds_no_error(env),
    ensures
        binds_no_error(block_outcome(b, env, scope, depth).env),
    decreases depth, 1nat, b, 0nat,
{
    lemma_statements_bind_no_error(b.statements, 0, ObjectView::Null, env, scope, depth);
}

/// Evaluating statements in an environment that binds no error leaves one
/// that binds no error.
pub proof fn lemma_statements_bind_no_error(
    list: Seq<StatementView>,
    k: nat,
    last: ObjectView,
    env: Seq<ScopeView>,
    scope: nat,
    depth: nat,
)
    requires
        binds_no_error(env),
    ensures
        binds_no_error(statements_outcome(list, k, last, env, scope, depth).env),
    decreases depth, 1nat, list, list.len() - k,
{
    if k < list.len() {
        let r = statement_outcome(list[k as int], env, scope, depth);
        lemma_statement_binds_no_error(list[k as int], env, scope, depth);
        if !is_final(r.value) {
            lemma_statements_bind_no_error(list, k + 1, r.value, r.env, scope, depth);
        }
    }
}

/// Evaluating a statement in an environment that binds no error leaves one
/// that binds no error: a `let` binds its name only where its expression
/// has a value.
pub proof fn lemma_statement_binds_no_error(
    s: StatementView,
    env: Seq<ScopeView>,
    scope: nat,
    depth: nat,
)
    requires
        binds_no_error(env),
    ensures
        binds_no_error(statement_outcome(s, env, scope, depth).env),
    decreases depth, 1nat, s, 1nat,
{
    let e = match s {
        StatementView::Let { value, .. } => value,
        StatementView::Return { return_value, .. } => return_value,
        StatementView::Expression { expression, .. } => expression,
    };
    match e {
        Some(inner) => {
            lemma_expression_binds_no_error(inner, env, scope, depth);
        },
        None => {},
    }
    match s {
        StatementView::Let { name, value, .. } => {
            let r = optional_outcome(value, env, scope, depth);
            if !is_failure(r.value) {
                lemma_bind_binds_no_error(r.env, scope, name.value, r.value);
            }
        },
        _ => {},
    }
}

/// Evaluating a program in an environment that binds no error leaves one
/// that binds no error.
pub proof fn lemma_program_binds_no_error(
    p: ProgramView,
    env: Seq<ScopeView>,
    scope: nat,
    depth: nat,
)
    requires
        binds_no_error(env),
    ensures
        binds_no_error(program_outcome(p, env, scope, depth).env),
{
    lemma_statements_bind_no_error(p.body, 0, ObjectView::Null, env, scope, depth);
}

} // verus!
