//! The evaluator: walks a syntax tree under an environment and yields the
//! value that the semantics assigns to it.

use vstd::prelude::*;
use crate::ast::{
    expression_views, identifier_views, optional_view, statement_views, BlockStatement,
    Expression, Identifier, If, ProgramStatement, Statement,
};
use crate::environment::{enclose, Environment};
use crate::object::{
    clone_object, object_type, object_views, share, Env, FunctionObject, Object, ObjectView,
};
use crate::semantics::{
    arguments_outcome, bang_value, bind_parameters, block_outcome, boolean_infix_value,
    bound_count, call_outcome, expression_outcome, extended, failure, infix_value,
    integer_infix_value, is_failure, is_final, minus_value, operands_message, optional_outcome,
    lemma_settled, parameter_names, prefix_value, program_outcome, settled, statement_outcome,
    statements_outcome, truthy, unwrapped,
};
use crate::text::{str_equal, texts};

verus! {

/// The number of nested calls that `eval` allows.
pub const MAX_CALL_DEPTH: usize = 256;

/// An error value with the given message.
pub fn new_error(message: String) -> (r: Object)
    ensures
        r@ == failure(message@),
{
    Object::Error(message)
}

/// Whether a value is an error.
pub fn is_error(obj: &Object) -> (r: bool)
    ensures
        r == is_failure(obj@),
{
    match obj {
        Object::Error(_) => true,
        _ => false,
    }
}

/// Whether a value counts as true.
pub fn is_truthy(obj: &Object) -> (r: bool)
    ensures
        r == truthy(obj@),
{
    match obj {
        Object::Boolean(value) => *value,
        Object::Null => false,
        _ => true,
    }
}

/// The value that a returned value carries; another value is itself.
pub fn unwrap_return_value(obj: Object) -> (r: Object)
    ensures
        r@ == unwrapped(obj@),
{
    match obj {
        Object::ReturnValue(value) => *value,
        _ => obj,
    }
}

/// The value that a returned value carries in the end, however often it is
/// wrapped; another value is itself.
pub fn settle(obj: Object) -> (r: Object)
    ensures
        r@ == settled(obj@),
        !(r@ is ReturnValue),
    decreases obj,
{
    proof {
        lemma_settled(obj@);
    }
    match obj {
        Object::ReturnValue(value) => settle(*value),
        _ => obj,
    }
}

/// The value of `!` applied to a value.
pub fn eval_bang_operator_expression(right: Object) -> (r: Object)
    ensures
        r@ == bang_value(right@),
{
    match right {
        Object::Boolean(true) => Object::Boolean(false),
        Object::Boolean(false) => Object::Boolean(true),
        Object::Null => Object::Boolean(true),
        _ => Object::Boolean(false),
    }
}

/// The value of `-` applied to a value.
pub fn eval_minus_prefix_operator_expression(right: Object) -> (r: Object)
    ensures
        r@ == minus_value(right@),
{
    match right {
        Object::Integer(value) => Object::Integer(0i64.wrapping_sub(value)),
        _ => new_error(String::from_str("unknown operator: -").concat(object_type(&right))),
    }
}

/// The value of a prefix operator applied to a value.
pub fn eval_prefix_expression(operator: &str, right: Object) -> (r: Object)
    ensures
        r@ == prefix_value(operator@, right@),
{
    if str_equal(operator, "!") {
        eval_bang_operator_expression(right)
    } else if str_equal(operator, "-") {
        eval_minus_prefix_operator_expression(right)
    } else {
        new_error(
            String::from_str("unknown operator: ").concat(operator).concat(object_type(&right)),
        )
    }
}

/// The quotient of a natural number by a positive one is at most the number,
/// and at most half of it where the divisor is two or more.
proof fn lemma_quotient_bounds(a: int, b: int)
    requires
        a >= 0,
        b > 0,
    ensures
        0 <= a / b <= a,
        b >= 2 ==> 2 * (a / b) <= a,
        a == 0 ==> a / b == 0,
{
    assert(0 <= a / b <= a) by (nonlinear_arith)
        requires
            a >= 0,
            b > 0,
    ;
    assert(b * (a / b) <= a) by (nonlinear_arith)
        requires
            a >= 0,
            b > 0,
    ;
    if b >= 2 {
        assert(2 * (a / b) <= b * (a / b)) by (nonlinear_arith)
            requires
                0 <= a / b,
                b >= 2,
        ;
    }
}

/// The value of a binary operator between two integers.
pub fn eval_integer_infix_expression(operator: &str, left: i64, right: i64) -> (r: Object)
    ensures
        r@ == integer_infix_value(operator@, left, right),
{
    if str_equal(operator, "+") {
        Object::Integer(left.wrapping_add(right))
    } else if str_equal(operator, "-") {
        Object::Integer(left.wrapping_sub(right))
    } else if str_equal(operator, "*") {
        Object::Integer(left.wrapping_mul(right))
    } else if str_equal(operator, "/") {
        if right == 0 {
            new_error(String::from_str("division by zero"))
        } else {
            proof {
                let x = left as int;
                let d = right as int;
                lemma_quotient_bounds(if x >= 0 { x } else { -x }, if d > 0 { d } else { -d });
                assert(x * -1 == -x && d * -1 == -d);
            }
            match left.checked_div(right) {
                Some(q) => Object::Integer(q),
                None => Object::Integer(i64::MIN),
            }
        }
    } else if str_equal(operator, "<") {
        Object::Boolean(left < right)
    } else if str_equal(operator, ">") {
        Object::Boolean(left > right)
    } else if str_equal(operator, "==") {
        Object::Boolean(left == right)
    } else if str_equal(operator, "!=") {
        Object::Boolean(left != right)
    } else {
        new_error(
            String::from_str("unknown operator: INTEGER ").concat(operator).concat(" INTEGER"),
        )
    }
}

/// The value of a binary operator between two booleans.
pub fn eval_boolean_infix_expression(operator: &str, left: bool, right: bool) -> (r: Object)
    ensures
        r@ == boolean_infix_value(operator@, left, right),
{
    if str_equal(operator, "==") {
        Object::Boolean(left == right)
    } else if str_equal(operator, "!=") {
        Object::Boolean(left != right)
    } else {
        new_error(
            String::from_str("unknown operator: BOOLEAN ").concat(operator).concat(" BOOLEAN"),
        )
    }
}

/// The error for an operator that two operands do not support.
fn operands_error(prefix: &str, left: &Object, operator: &str, right: &Object) -> (r: Object)
    ensures
        r@ == failure(
            operands_message(prefix@, left@, operator@, right@),
        ),
{
    new_error(
        String::from_str(prefix).concat(object_type(left)).concat(" ").concat(operator).concat(
            " ",
        ).concat(object_type(right)),
    )
}

/// The value of a binary operator between two values.
pub fn eval_infix_expression(operator: &str, left: Object, right: Object) -> (r: Object)
    ensures
        r@ == infix_value(operator@, left@, right@),
{
    match (&left, &right) {
        (Object::Integer(l), Object::Integer(r)) => eval_integer_infix_expression(
            operator,
            *l,
            *r,
        ),
        (Object::Boolean(l), Object::Boolean(r)) => eval_boolean_infix_expression(
            operator,
            *l,
            *r,
        ),
        (Object::Null, Object::Null) => {
            if str_equal(operator, "==") {
                Object::Boolean(true)
            } else if str_equal(operator, "!=") {
                Object::Boolean(false)
            } else {
                operands_error("unknown operator: ", &left, operator, &right)
            }
        },
        _ => {
            if str_equal(operator, "==") {
                Object::Boolean(false)
            } else if str_equal(operator, "!=") {
                Object::Boolean(true)
            } else {
                operands_error("type mismatch: ", &left, operator, &right)
            }
        },
    }
}

/// The value of a name: what the scope or a scope around it binds the name
/// to, or an error if none does.
pub fn eval_identifier(identifier: &Identifier, env: &Environment, scope: Env) -> (r: Object)
    ensures
        r@ == expression_outcome(
            Expression::Identifier(*identifier)@,
            env@,
            scope as nat,
            0,
        ).value,
{
    match env.get(scope, identifier.value.as_str()) {
        Some(value) => value,
        None => new_error(
            String::from_str("identifier not found: ").concat(identifier.value.as_str()),
        ),
    }
}

/// The names of the parameters of a function literal.
fn parameter_list(parameters: &Option<Vec<Identifier>>) -> (r: Vec<String>)
    ensures
        texts(r@) == parameter_names(
            match *parameters {
                Some(list) => Some(identifier_views(list@)),
                None => None,
            },
        ),
{
    let mut names: Vec<String> = Vec::new();
    match parameters {
        Some(list) => {
            let mut i: usize = 0;
            while i < list.len()
                invariant
                    0 <= i <= list.len(),
                    names@.len() == i,
                    forall|k: int| 0 <= k < i ==> (#[trigger] names@[k])@ == list@[k].value@,
                decreases list.len() - i,
            {
                names.push(list[i].value.clone());
                i = i + 1;
            }
            proof {
                assert(texts(names@) =~= parameter_names(
                    Some(identifier_views(list@)),
                ));
            }
        },
        None => {
            proof {
                assert(texts(names@) =~= Seq::<Seq<char>>::empty());
            }
        },
    }
    names
}

/// Makes the scope for a call: a new scope, enclosed by the scope that the
/// function captured, that binds the parameters to the arguments by
/// position.
pub fn extend_function_env(
    function: &FunctionObject,
    args: Vec<Object>,
    env: &mut Environment,
) -> (scope: Env)
    ensures
        final(env)@ == extended(
            old(env)@,
            function.env as nat,
            texts(function.parameters@),
            object_views(args@),
        ),
        scope == old(env)@.len(),
        final(env)@.len() == old(env)@.len() + 1,
{
    let ghost parameters = texts(function.parameters@);
    let ghost arguments = object_views(args@);
    let ghost base = enclose(old(env)@, function.env as nat);
    let scope = env.new_enclosed(function.env);
    let count = if function.parameters.len() <= args.len() {
        function.parameters.len()
    } else {
        args.len()
    };
    let mut i: usize = 0;
    while i < count
        invariant
            0 <= i <= count,
            count == bound_count(parameters, arguments),
            parameters == texts(function.parameters@),
            arguments == object_views(args@),
            scope == old(env)@.len(),
            base == enclose(old(env)@, function.env as nat),
            env@ == bind_parameters(base, scope as nat, parameters, arguments, i as nat),
            env@.len() == old(env)@.len() + 1,
        decreases count - i,
    {
        let value = clone_object(&args[i]);
        env.set(scope, function.parameters[i].clone(), value);
        i = i + 1;
    }
    scope
}

/// The value of an expression in the scope `scope`, with `depth` nested
/// calls left.
pub fn eval_expression(
    expression: &Expression,
    env: &mut Environment,
    scope: Env,
    depth: usize,
) -> (r: Object)
    requires
        scope < old(env)@.len(),
    ensures
        r@ == expression_outcome(expression@, old(env)@, scope as nat, depth as nat).value,
        final(env)@ == expression_outcome(expression@, old(env)@, scope as nat, depth as nat).env,
        old(env)@.len() <= final(env)@.len(),
    decreases depth, 1nat, expression, 0nat,
{
    match expression {
        Expression::Identifier(identifier) => eval_identifier(identifier, env, scope),
        Expression::IntegerLiteral(literal) => Object::Integer(literal.value),
        Expression::Bool(literal) => Object::Boolean(literal.value),
        Expression::Prefix(prefix) => {
            let right_expr = match &prefix.right {
                Some(expr) => expr,
                None => {
                    return new_error(String::from_str("missing right expression"));
                },
            };
            let right = eval_expression(right_expr, env, scope, depth);
            if is_error(&right) {
                return right;
            }
            eval_prefix_expression(prefix.operator.as_str(), right)
        },
        Expression::Infix(infix) => {
            let left_expr = match &infix.left {
                Some(expr) => expr,
                None => {
                    return new_error(String::from_str("missing left expression"));
                },
            };
            let right_expr = match &infix.right {
                Some(expr) => expr,
                None => {
                    return new_error(String::from_str("missing right expression"));
                },
            };
            let left = eval_expression(left_expr, env, scope, depth);
            if is_error(&left) {
                return left;
            }
            let right = eval_expression(right_expr, env, scope, depth);
            if is_error(&right) {
                return right;
            }
            eval_infix_expression(infix.operator.as_str(), left, right)
        },
        Expression::If(if_expr) => eval_if_expression(if_expr, env, scope, depth),
        Expression::FunctionLiteral(func) => {
            let body = match &func.body {
                Some(body) => share(body),
                None => {
                    return new_error(String::from_str("missing function body"));
                },
            };
            let parameters = parameter_list(&func.parameters);
            Object::Function(FunctionObject { parameters, body, env: scope })
        },
        Expression::Call(call) => {
            let function_expr = match &call.function {
                Some(expr) => expr,
                None => {
                    return new_error(String::from_str("missing function expression"));
                },
            };
            let function = eval_expression(function_expr, env, scope, depth);
            if is_error(&function) {
                return function;
            }
            let args = match &call.arguments {
                Some(args) => match eval_expressions(args, env, scope, depth) {
                    Ok(args) => args,
                    Err(err) => {
                        return err;
                    },
                },
                None => {
                    let empty: Vec<Object> = Vec::new();
                    proof {
                        assert(object_views(empty@) =~= Seq::<ObjectView>::empty());
                    }
                    empty
                },
            };
            apply_function(function, args, env, depth)
        },
    }
}

/// The values of a list of expressions, from left to right, or the first
/// error among them.
pub fn eval_expressions(
    expressions: &Vec<Expression>,
    env: &mut Environment,
    scope: Env,
    depth: usize,
) -> (r: Result<Vec<Object>, Object>)
    requires
        scope < old(env)@.len(),
    ensures
        match r {
            Ok(values) => Ok(object_views(values@)),
            Err(error) => Err(error@),
        } == arguments_outcome(
            expression_views(expressions@),
            0,
            Seq::empty(),
            old(env)@,
            scope as nat,
            depth as nat,
        ).values,
        final(env)@ == arguments_outcome(
            expression_views(expressions@),
            0,
            Seq::empty(),
            old(env)@,
            scope as nat,
            depth as nat,
        ).env,
        old(env)@.len() <= final(env)@.len(),
    decreases depth, 1nat, expressions, 0nat,
{
    let ghost list = expression_views(expressions@);
    let ghost total = arguments_outcome(list, 0, Seq::empty(), env@, scope as nat, depth as nat);
    let mut result: Vec<Object> = Vec::new();
    let mut i: usize = 0;
    proof {
        assert(object_views(result@) =~= Seq::<ObjectView>::empty());
    }
    while i < expressions.len()
        invariant
            0 <= i <= expressions.len(),
            list == expression_views(expressions@),
            scope < env@.len(),
            old(env)@.len() <= env@.len(),
            total == arguments_outcome(
                list,
                0,
                Seq::empty(),
                old(env)@,
                scope as nat,
                depth as nat,
            ),
            total == arguments_outcome(
                list,
                i as nat,
                object_views(result@),
                env@,
                scope as nat,
                depth as nat,
            ),
        decreases expressions.len() - i,
    {
        let ghost previous = object_views(result@);
        let evaluated = eval_expression(&expressions[i], env, scope, depth);
        if is_error(&evaluated) {
            return Err(evaluated);
        }
        result.push(evaluated);
        proof {
            assert(object_views(result@) =~= previous.push(result@.last()@));
        }
        i = i + 1;
    }
    Ok(result)
}

/// The value of a conditional.
pub fn eval_if_expression(
    if_expr: &If,
    env: &mut Environment,
    scope: Env,
    depth: usize,
) -> (r: Object)
    requires
        scope < old(env)@.len(),
    ensures
        r@ == expression_outcome(
            Expression::If(*if_expr)@,
            old(env)@,
            scope as nat,
            depth as nat,
        ).value,
        final(env)@ == expression_outcome(
            Expression::If(*if_expr)@,
            old(env)@,
            scope as nat,
            depth as nat,
        ).env,
        old(env)@.len() <= final(env)@.len(),
    decreases depth, 1nat, if_expr, 0nat,
{
    let condition_expr = match &if_expr.condition {
        Some(expr) => expr,
        None => {
            return new_error(String::from_str("missing if condition"));
        },
    };
    let condition = eval_expression(condition_expr, env, scope, depth);
    if is_error(&condition) {
        return condition;
    }
    if is_truthy(&condition) {
        match &if_expr.first {
            Some(block) => eval_block_statement(block, env, scope, depth),
            None => Object::Null,
        }
    } else {
        match &if_expr.second {
            Some(block) => eval_block_statement(block, env, scope, depth),
            None => Object::Null,
        }
    }
}

/// The value of calling `function` with `args`, with `depth` nested calls
/// left before the call.
pub fn apply_function(
    function: Object,
    args: Vec<Object>,
    env: &mut Environment,
    depth: usize,
) -> (r: Object)
    ensures
        r@ == call_outcome(function@, object_views(args@), old(env)@, depth as nat).value,
        final(env)@ == call_outcome(function@, object_views(args@), old(env)@, depth as nat).env,
        old(env)@.len() <= final(env)@.len(),
    decreases depth, 0nat, function, 0nat,
{
    match function {
        Object::Function(function) => {
            if depth == 0 {
                return new_error(String::from_str("call depth exceeded"));
            }
            let extended_env = extend_function_env(&function, args, env);
            let evaluated = eval_block_statement(&function.body, env, extended_env, depth - 1);
            unwrap_return_value(evaluated)
        },
        _ => new_error(String::from_str("not a function: ").concat(object_type(&function))),
    }
}

/// The value of a block: that of its last statement; a returned value or an
/// error ends the block at once and is its value as it stands.
pub fn eval_block_statement(
    block: &BlockStatement,
    env: &mut Environment,
    scope: Env,
    depth: usize,
) -> (r: Object)
    requires
        scope < old(env)@.len(),
    ensures
        r@ == block_outcome(block@, old(env)@, scope as nat, depth as nat).value,
        final(env)@ == block_outcome(block@, old(env)@, scope as nat, depth as nat).env,
        old(env)@.len() <= final(env)@.len(),
    decreases depth, 1nat, block, 0nat,
{
    let ghost list = statement_views(block.statements@);
    let ghost total = block_outcome(block@, env@, scope as nat, depth as nat);
    let mut result = Object::Null;
    let mut i: usize = 0;
    while i < block.statements.len()
        invariant
            0 <= i <= block.statements.len(),
            list == statement_views(block.statements@),
            scope < env@.len(),
            old(env)@.len() <= env@.len(),
            total == block_outcome(block@, old(env)@, scope as nat, depth as nat),
            total == statements_outcome(list, i as nat, result@, env@, scope as nat, depth as nat),
        decreases block.statements.len() - i,
    {
        result = eval_statement(&block.statements[i], env, scope, depth);
        match result {
            Object::ReturnValue(_) | Object::Error(_) => {
                return result;
            },
            _ => {},
        }
        i = i + 1;
    }
    result
}

/// The value of an optional expression; that of a missing one is the null
/// value.
fn eval_optional(
    expression: &Option<Box<Expression>>,
    env: &mut Environment,
    scope: Env,
    depth: usize,
) -> (r: Object)
    requires
        scope < old(env)@.len(),
    ensures
        r@ == optional_outcome(
            optional_view(*expression),
            old(env)@,
            scope as nat,
            depth as nat,
        ).value,
        final(env)@ == optional_outcome(
            optional_view(*expression),
            old(env)@,
            scope as nat,
            depth as nat,
        ).env,
        old(env)@.len() <= final(env)@.len(),
    decreases depth, 1nat, expression, 0nat,
{
    match expression {
        Some(expr) => eval_expression(expr, env, scope, depth),
        None => Object::Null,
    }
}

/// The value of a statement.
pub fn eval_statement(
    statement: &Statement,
    env: &mut Environment,
    scope: Env,
    depth: usize,
) -> (r: Object)
    requires
        scope < old(env)@.len(),
    ensures
        r@ == statement_outcome(statement@, old(env)@, scope as nat, depth as nat).value,
        final(env)@ == statement_outcome(statement@, old(env)@, scope as nat, depth as nat).env,
        old(env)@.len() <= final(env)@.len(),
    decreases depth, 1nat, statement, 1nat,
{
    match statement {
        Statement::Let(let_stmt) => {
            let value = eval_optional(&let_stmt.value, env, scope, depth);
            if is_error(&value) {
                return value;
            }
            env.set(scope, let_stmt.name.value.clone(), value);
            Object::Null
        },
        Statement::Return(return_stmt) => {
            let value = eval_optional(&return_stmt.return_value, env, scope, depth);
            if is_error(&value) {
                return value;
            }
            match value {
                Object::ReturnValue(_) => value,
                _ => Object::ReturnValue(Box::new(value)),
            }
        },
        Statement::Expression(expr_stmt) => eval_optional(
            &expr_stmt.expression,
            env,
            scope,
            depth,
        ),
    }
}

/// The value of a program in the scope `scope`, with `depth` nested calls
/// allowed: that of its last statement. A returned value ends the program
/// and is unwrapped, so that the value is never a returned value; an error
/// ends it too.
pub fn eval_program(
    program: &ProgramStatement,
    env: &mut Environment,
    scope: Env,
    depth: usize,
) -> (r: Object)
    requires
        scope < old(env)@.len(),
    ensures
        r@ == program_outcome(program@, old(env)@, scope as nat, depth as nat).value,
        final(env)@ == program_outcome(program@, old(env)@, scope as nat, depth as nat).env,
        old(env)@.len() <= final(env)@.len(),
        !(r@ is ReturnValue),
{
    let ghost list = statement_views(program.body@);
    let ghost total = statements_outcome(
        list,
        0,
        ObjectView::Null,
        env@,
        scope as nat,
        depth as nat,
    );
    let mut result = Object::Null;
    let mut i: usize = 0;
    while i < program.body.len()
        invariant
            0 <= i <= program.body.len(),
            list == statement_views(program.body@),
            scope < env@.len(),
            old(env)@.len() <= env@.len(),
            !is_final(result@),
            settled(total.value) == program_outcome(
                program@,
                old(env)@,
                scope as nat,
                depth as nat,
            ).value,
            total.env == program_outcome(program@, old(env)@, scope as nat, depth as nat).env,
            total == statements_outcome(list, i as nat, result@, env@, scope as nat, depth as nat),
        decreases program.body.len() - i,
    {
        result = eval_statement(&program.body[i], env, scope, depth);
        match result {
            Object::ReturnValue(_) => {
                return settle(result);
            },
            Object::Error(_) => {
                return result;
            },
            _ => {},
        }
        i = i + 1;
    }
    result
}

/// Evaluates a program in the root scope of an environment, with
/// `MAX_CALL_DEPTH` nested calls allowed. The value is never a returned
/// value.
pub fn eval(program: &ProgramStatement, env: &mut Environment) -> (r: Object)
    requires
        old(env)@.len() > 0,
    ensures
        r@ == program_outcome(program@, old(env)@, 0, MAX_CALL_DEPTH as nat).value,
        final(env)@ == program_outcome(program@, old(env)@, 0, MAX_CALL_DEPTH as nat).env,
        !(r@ is ReturnValue),
{
    eval_program(program, env, 0, MAX_CALL_DEPTH)
}

} // verus!
