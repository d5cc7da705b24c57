//! Lexical scoping: theorems about environments and closures.

use vstd::prelude::*;
use crate::ast::{BlockView, ExpressionView, IdentifierView, StatementView};
use crate::environment::{bind, enclose, lookup, ScopeView};
use crate::object::ObjectView;
use crate::semantics::{
    arguments_outcome, bind_parameters, block_outcome, bound_count, call_outcome,
    expression_outcome, extended, failure, is_failure, is_final, optional_outcome,
    parameter_names, statement_outcome, statements_outcome, truthy, unwrapped, Outcome,
};
use crate::token::TokenView;

verus! {

/// The argument that the first `n` parameters bind `name` to, if one of
/// them has that name; the last of them counts.
pub open spec fn argument_for(
    parameters: Seq<Seq<char>>,
    arguments: Seq<ObjectView>,
    name: Seq<char>,
    n: nat,
) -> Option<ObjectView>
    decreases n,
{
    if n == 0 {
        None
    } else if parameters[n - 1] == name {
        Some(arguments[n - 1])
    } else {
        argument_for(parameters, arguments, name, (n - 1) as nat)
    }
}

/// Whether the environment `after` has everything that `before` has: the
/// scopes of `before`, each enclosed as it was and binding at least the
/// names that it bound.
pub open spec fn extends(before: Seq<ScopeView>, after: Seq<ScopeView>) -> bool {
    &&& before.len() <= after.len()
    &&& forall|s: int|
        0 <= s < before.len() ==> (#[trigger] after[s]).outer == before[s].outer
    &&& forall|s: int, name: Seq<char>|
        0 <= s < before.len() && #[trigger] before[s].store.contains_key(name)
            ==> after[s].store.contains_key(name)
}

/// A binding made in a scope is what the scope has for the name from then
/// on, and changes the value of no other name in any scope.
pub proof fn lemma_bind_then_lookup(
    env: Seq<ScopeView>,
    scope: nat,
    name: Seq<char>,
    value: ObjectView,
    from: nat,
    other: Seq<char>,
)
    requires
        scope < env.len(),
        other != name,
    ensures
        lookup(bind(env, scope, name, value), scope, name) == Some(value),
        lookup(bind(env, scope, name, value), from, other) == lookup(env, from, other),
    decreases from,
{
    let after = bind(env, scope, name, value);
    if from < env.len() {
        if !env[from as int].store.contains_key(other) {
            match env[from as int].outer {
                Some(outer) => {
                    if outer < from {
                        lemma_bind_then_lookup(env, scope, name, value, outer, other);
                    }
                },
                None => {},
            }
        }
    }
}

/// A scope that does not bind a name itself sees the binding that the scope
/// around it gets later.
pub proof fn lemma_inner_scope_sees_later_binding(
    env: Seq<ScopeView>,
    inner: nat,
    outer: nat,
    name: Seq<char>,
    value: ObjectView,
)
    requires
        inner < env.len(),
        outer < inner,
        env[inner as int].outer == Some(outer),
        !env[inner as int].store.contains_key(name),
    ensures
        lookup(bind(env, outer, name, value), inner, name) == Some(value),
{
    let after = bind(env, outer, name, value);
    assert(lookup(after, outer, name) == Some(value));
}

/// What a scope sees does not depend on the scopes that were made after
/// it.
pub proof fn lemma_lookup_in_older_scope(
    before: Seq<ScopeView>,
    after: Seq<ScopeView>,
    scope: nat,
    name: Seq<char>,
)
    requires
        scope < before.len() <= after.len(),
        forall|s: int| 0 <= s <= scope ==> after[s] == before[s],
    ensures
        lookup(after, scope, name) == lookup(before, scope, name),
    decreases scope,
{
    if !before[scope as int].store.contains_key(name) {
        match before[scope as int].outer {
            Some(outer) => {
                if outer < scope {
                    lemma_lookup_in_older_scope(before, after, outer, name);
                }
            },
            None => {},
        }
    }
}

/// Binding parameters in the scope of a call changes that scope only, and
/// binds each of the first `n` parameters to its argument.
pub proof fn lemma_bind_parameters(
    env: Seq<ScopeView>,
    scope: nat,
    parameters: Seq<Seq<char>>,
    arguments: Seq<ObjectView>,
    n: nat,
    name: Seq<char>,
)
    requires
        scope < env.len(),
    ensures
        bind_parameters(env, scope, parameters, arguments, n).len() == env.len(),
        forall|s: int|
            0 <= s < env.len() && s != scope ==> bind_parameters(
                env,
                scope,
                parameters,
                arguments,
                n,
            )[s] == env[s],
        bind_parameters(env, scope, parameters, arguments, n)[scope as int].outer
            == env[scope as int].outer,
        bind_parameters(env, scope, parameters, arguments, n)[scope as int].store.contains_key(name)
            == (argument_for(parameters, arguments, name, n) is Some
            || env[scope as int].store.contains_key(name)),
        argument_for(parameters, arguments, name, n) is Some ==> bind_parameters(
            env,
            scope,
            parameters,
            arguments,
            n,
        )[scope as int].store[name] == argument_for(parameters, arguments, name, n).unwrap(),
    decreases n,
{
    if n > 0 {
        lemma_bind_parameters(env, scope, parameters, arguments, (n - 1) as nat, name);
    }
}

/// In the scope of a call, a name has the argument of the parameter of that
/// name, and without such a parameter, the value that it has in the scope
/// that the function captured, as the environment is when the call is made;
/// a captured scope that the environment does not have gives it none. The
/// scope of the call is enclosed by the captured scope and by no other, and
/// the scopes that were there before the call see what they saw.
pub proof fn lemma_call_scope(
    env: Seq<ScopeView>,
    captured: nat,
    parameters: Seq<Seq<char>>,
    arguments: Seq<ObjectView>,
    name: Seq<char>,
    older: nat,
)
    ensures
        extended(env, captured, parameters, arguments).len() == env.len() + 1,
        extended(env, captured, parameters, arguments)[env.len() as int].outer == Some(captured),
        lookup(extended(env, captured, parameters, arguments), env.len(), name)
            == match argument_for(parameters, arguments, name, bound_count(parameters, arguments)) {
            Some(value) => Some(value),
            None => lookup(env, captured, name),
        },
        older < env.len() ==> lookup(extended(env, captured, parameters, arguments), older, name)
            == lookup(env, older, name),
{
    let base = enclose(env, captured);
    let n = bound_count(parameters, arguments);
    let after = extended(env, captured, parameters, arguments);
    lemma_bind_parameters(base, env.len(), parameters, arguments, n, name);
    assert forall|s: int| 0 <= s < env.len() implies after[s] == env[s] by {
        assert(base[s] == env[s]);
    }
    if captured < env.len() {
        lemma_lookup_in_older_scope(env, after, captured, name);
    }
    if older < env.len() {
        lemma_lookup_in_older_scope(env, after, older, name);
    }
    assert(base[env.len() as int].store =~= Map::<Seq<char>, ObjectView>::empty());
}

/// A call evaluates the body of the function in a new scope that is
/// enclosed by the scope that the function captured, whatever scope the
/// call is made in: a name that is no parameter has in the body the value
/// that it has in the captured scope when the call is made. Where no nested
/// call is left, the call is an error and the body is not evaluated.
pub proof fn lemma_call_runs_in_captured_scope(
    parameters: Seq<Seq<char>>,
    body: BlockView,
    captured: nat,
    arguments: Seq<ObjectView>,
    env: Seq<ScopeView>,
    depth: nat,
    name: IdentifierView,
)
    ensures
        depth == 0 ==> call_outcome(
            ObjectView::Function { parameters, body, env: captured },
            arguments,
            env,
            depth,
        ) == (Outcome { value: failure("call depth exceeded"@), env }),
        depth > 0 ==> call_outcome(
            ObjectView::Function { parameters, body, env: captured },
            arguments,
            env,
            depth,
        ) == (Outcome {
            value: unwrapped(
                block_outcome(
                    body,
                    extended(env, captured, parameters, arguments),
                    env.len(),
                    (depth - 1) as nat,
                ).value,
            ),
            env: block_outcome(
                body,
                extended(env, captured, parameters, arguments),
                env.len(),
                (depth - 1) as nat,
            ).env,
        }),
        argument_for(parameters, arguments, name.value, bound_count(parameters, arguments))
            is None ==> expression_outcome(
            ExpressionView::Identifier(name),
            extended(env, captured, parameters, arguments),
            env.len(),
            depth,
        ).value == expression_outcome(ExpressionView::Identifier(name), env, captured, depth).value,
{
    lemma_call_scope(env, captured, parameters, arguments, name.value, 0);
}

/// A function literal evaluates to a closure over the scope in which it is
/// evaluated, and a call of that closure evaluates a name that is no
/// parameter to what the name has in that scope when the call is made: the
/// bindings that were there when the closure was made, as far as they were
/// not replaced, and those that the scope got since. A name that the scope
/// could see when the closure was made is found in every later call.
pub proof fn lemma_closure_observes_its_scope(
    token: TokenView,
    parameters: Option<Seq<IdentifierView>>,
    body: BlockView,
    made_in: Seq<ScopeView>,
    scope: nat,
    called_in: Seq<ScopeView>,
    arguments: Seq<ObjectView>,
    name: IdentifierView,
    depth: nat,
)
    requires
        argument_for(
            parameter_names(parameters),
            arguments,
            name.value,
            bound_count(parameter_names(parameters), arguments),
        ) is None,
    ensures
        expression_outcome(
            ExpressionView::FunctionLiteral { token, parameters, body: Some(body) },
            made_in,
            scope,
            depth,
        ).value == (ObjectView::Function {
            parameters: parameter_names(parameters),
            body,
            env: scope,
        }),
        expression_outcome(
            ExpressionView::Identifier(name),
            extended(called_in, scope, parameter_names(parameters), arguments),
            called_in.len(),
            depth,
        ).value == expression_outcome(
            ExpressionView::Identifier(name),
            called_in,
            scope,
            depth,
        ).value,
        extends(made_in, called_in) && lookup(made_in, scope, name.value) is Some
            ==> expression_outcome(
            ExpressionView::Identifier(name),
            extended(called_in, scope, parameter_names(parameters), arguments),
            called_in.len(),
            depth,
        ).value == lookup(called_in, scope, name.value).unwrap(),
{
    lemma_call_scope(called_in, scope, parameter_names(parameters), arguments, name.value, scope);
    if extends(made_in, called_in) && lookup(made_in, scope, name.value) is Some {
        lemma_extends_keeps_names(made_in, called_in, scope, name.value);
    }
}

/// A name that a scope can see in an environment, it can see in every
/// environment that extends it.
pub proof fn lemma_extends_keeps_names(
    before: Seq<ScopeView>,
    after: Seq<ScopeView>,
    scope: nat,
    name: Seq<char>,
)
    requires
        extends(before, after),
        lookup(before, scope, name) is Some,
    ensures
        lookup(after, scope, name) is Some,
    decreases scope,
{
    if scope < before.len() {
        if !before[scope as int].store.contains_key(name) {
            match before[scope as int].outer {
                Some(outer) => {
                    if outer < scope {
                        lemma_extends_keeps_names(before, after, outer, name);
                    }
                },
                None => {},
            }
        }
    }
}

/// Extension is transitive.
pub proof fn lemma_extends_transitive(a: Seq<ScopeView>, b: Seq<ScopeView>, c: Seq<ScopeView>)
    requires
        extends(a, b),
        extends(b, c),
    ensures
        extends(a, c),
{
    assert forall|s: int, name: Seq<char>|
        0 <= s < a.len() && #[trigger] a[s].store.contains_key(name) implies c[s].store
            .contains_key(name) by {
        assert(b[s].store.contains_key(name));
    }
}

/// Binding a name extends the environment.
pub proof fn lemma_bind_extends(env: Seq<ScopeView>, scope: nat, name: Seq<char>, value: ObjectView)
    ensures
        extends(env, bind(env, scope, name, value)),
{
}

/// Binding parameters extends the environment.
pub proof fn lemma_bind_parameters_extends(
    env: Seq<ScopeView>,
    scope: nat,
    parameters: Seq<Seq<char>>,
    arguments: Seq<ObjectView>,
    n: nat,
)
    ensures
        extends(env, bind_parameters(env, scope, parameters, arguments, n)),
    decreases n,
{
    if n > 0 {
        let previous = bind_parameters(env, scope, parameters, arguments, (n - 1) as nat);
        lemma_bind_parameters_extends(env, scope, parameters, arguments, (n - 1) as nat);
        lemma_bind_extends(previous, scope, parameters[n - 1], arguments[n - 1]);
        lemma_extends_transitive(
            env,
            previous,
            bind_parameters(env, scope, parameters, arguments, n),
        );
    }
}

/// The environment of a call extends the one in which the call is made.
pub proof fn lemma_extended_extends(
    env: Seq<ScopeView>,
    captured: nat,
    parameters: Seq<Seq<char>>,
    arguments: Seq<ObjectView>,
)
    ensures
        extends(env, extended(env, captured, parameters, arguments)),
{
    let base = enclose(env, captured);
    lemma_bind_parameters_extends(
        base,
        env.len(),
        parameters,
        arguments,
        bound_count(parameters, arguments),
    );
    assert(extends(env, base));
    lemma_extends_transitive(env, base, extended(env, captured, parameters, arguments));
}

/// Evaluating an expression extends the environment: scopes are added and
/// names are bound, and nothing is taken away.
pub proof fn lemma_expression_extends(
    e: ExpressionView,
    env: Seq<ScopeView>,
    scope: nat,
    depth: nat,
)
    ensures
        extends(env, expression_outcome(e, env, scope, depth).env),
    decreases depth, 1nat, e, 0nat,
{
    match e {
        ExpressionView::Prefix { right: Some(operand), .. } => {
            lemma_expression_extends(*operand, env, scope, depth);
        },
        ExpressionView::Infix { left: Some(first), right: Some(second), .. } => {
            let l = expression_outcome(*first, env, scope, depth);
            lemma_expression_extends(*first, env, scope, depth);
            lemma_expression_extends(*second, l.env, scope, depth);
            lemma_extends_transitive(
                env,
                l.env,
                expression_outcome(*second, l.env, scope, depth).env,
            );
        },
        ExpressionView::If { condition: Some(test), first, second, .. } => {
            let c = expression_outcome(*test, env, scope, depth);
            lemma_expression_extends(*test, env, scope, depth);
            if !is_failure(c.value) {
                let selected = if truthy(c.value) {
                    first
                } else {
                    second
                };
                match selected {
                    Some(block) => {
                        lemma_block_extends(block, c.env, scope, depth);
                        lemma_extends_transitive(
                            env,
                            c.env,
                            block_outcome(block, c.env, scope, depth).env,
                        );
                    },
                    None => {},
                }
            }
        },
        ExpressionView::Call { function: Some(callee), arguments, .. } => {
            let f = expression_outcome(*callee, env, scope, depth);
            lemma_expression_extends(*callee, env, scope, depth);
            if !is_failure(f.value) {
                match arguments {
                    Some(list) => {
                        let a = arguments_outcome(list, 0, Seq::empty(), f.env, scope, depth);
                        lemma_arguments_extend(list, 0, Seq::empty(), f.env, scope, depth);
                        lemma_extends_transitive(env, f.env, a.env);
                        match a.values {
                            Ok(values) => {
                                lemma_call_extends(f.value, values, a.env, depth);
                                lemma_extends_transitive(
                                    env,
                                    a.env,
                                    call_outcome(f.value, values, a.env, depth).env,
                                );
                            },
                            Err(_) => {},
                        }
                    },
                    None => {
                        lemma_call_extends(f.value, Seq::empty(), f.env, depth);
                        lemma_extends_transitive(
                            env,
                            f.env,
                            call_outcome(f.value, Seq::empty(), f.env, depth).env,
                        );
                    },
                }
            }
        },
        _ => {},
    }
}

/// Evaluating the arguments of a call extends the environment.
pub proof fn lemma_arguments_extend(
    list: Seq<ExpressionView>,
    k: nat,
    done: Seq<ObjectView>,
    env: Seq<ScopeView>,
    scope: nat,
    depth: nat,
)
    ensures
        extends(env, arguments_outcome(list, k, done, env, scope, depth).env),
    decreases depth, 1nat, list, list.len() - k,
{
    if k < list.len() {
        let r = expression_outcome(list[k as int], env, scope, depth);
        lemma_expression_extends(list[k as int], env, scope, depth);
        if !is_failure(r.value) {
            lemma_arguments_extend(list, k + 1, done.push(r.value), r.env, scope, depth);
            lemma_extends_transitive(
                env,
                r.env,
                arguments_outcome(list, k + 1, done.push(r.value), r.env, scope, depth).env,
            );
        }
    }
}

/// Calling a function extends the environment.
pub proof fn lemma_call_extends(
    function: ObjectView,
    arguments: Seq<ObjectView>,
    env: Seq<ScopeView>,
    depth: nat,
)
    ensures
        extends(env, call_outcome(function, arguments, env, depth).env),
    decreases depth, 0nat, function, 0nat,
{
    match function {
        ObjectView::Function { parameters, body, env: captured } => {
            if depth > 0 {
                let inner = extended(env, captured, parameters, arguments);
                lemma_extended_extends(env, captured, parameters, arguments);
                lemma_block_extends(body, inner, env.len(), (depth - 1) as nat);
                lemma_extends_transitive(
                    env,
                    inner,
                    block_outcome(body, inner, env.len(), (depth - 1) as nat).env,
                );
            }
        },
        _ => {},
    }
}

/// Evaluating a block extends the environment.
pub proof fn lemma_block_extends(b: BlockView, env: Seq<ScopeView>, scope: nat, depth: nat)
    ensures
        extends(env, block_outcome(b, env, scope, depth).env),
    decreases depth, 1nat, b, 0nat,
{
    lemma_statements_extend(b.statements, 0, ObjectView::Null, env, scope, depth);
}

/// Evaluating statements extends the environment.
pub proof fn lemma_statements_extend(
    list: Seq<StatementView>,
    k: nat,
    last: ObjectView,
    env: Seq<ScopeView>,
    scope: nat,
    depth: nat,
)
    ensures
        extends(env, statements_outcome(list, k, last, env, scope, depth).env),
    decreases depth, 1nat, list, list.len() - k,
{
    if k < list.len() {
        let r = statement_outcome(list[k as int], env, scope, depth);
        lemma_statement_extends(list[k as int], env, scope, depth);
        if !is_final(r.value) {
            lemma_statements_extend(list, k + 1, r.value, r.env, scope, depth);
            lemma_extends_transitive(
                env,
                r.env,
                statements_outcome(list, k + 1, r.value, r.env, scope, depth).env,
            );
        }
    }
}

/// Evaluating an optional expression extends the environment.
pub proof fn lemma_optional_extends(
    e: Option<ExpressionView>,
    env: Seq<ScopeView>,
    scope: nat,
    depth: nat,
)
    ensures
        extends(env, optional_outcome(e, env, scope, depth).env),
    decreases depth, 1nat, e, 0nat,
{
    match e {
        Some(inner) => {
            lemma_expression_extends(inner, env, scope, depth);
        },
        None => {},
    }
}

/// Evaluating a statement extends the environment.
pub proof fn lemma_statement_extends(
    s: StatementView,
    env: Seq<ScopeView>,
    scope: nat,
    depth: nat,
)
    ensures
        extends(env, statement_outcome(s, env, scope, depth).env),
    decreases depth, 1nat, s, 1nat,
{
    match s {
        StatementView::Let { name, value, .. } => {
            let r = optional_outcome(value, env, scope, depth);
            lemma_optional_extends(value, env, scope, depth);
            lemma_bind_extends(r.env, scope, name.value, r.value);
            lemma_extends_transitive(env, r.env, bind(r.env, scope, name.value, r.value));
        },
        StatementView::Return { return_value, .. } => {
            lemma_optional_extends(return_value, env, scope, depth);
        },
        StatementView::Expression { expression, .. } => {
            lemma_optional_extends(expression, env, scope, depth);
        },
    }
}

} // verus!
