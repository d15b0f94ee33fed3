//! Recursive evaluation over the syntax tree, threading the scope arena
//! through every call.
//!
//! The executable evaluator is proved against a big-step interpreter
//! over the mathematical models: each function returns exactly the
//! value or failure that the specification-level interpreter yields,
//! and leaves the arena in exactly the state it yields.
//!
//! Evaluation carries a step budget. The language permits unbounded
//! recursion, so every evaluation function spends one unit of budget
//! per step and fails with a budget error once it is exhausted; the
//! public entry point supplies a budget that no terminating program of
//! practical size approaches. A `return` travels as an ordinary value
//! (`Object::ReturnValue`): a top-level program and a function call
//! unwrap it, every other block passes it outward unchanged.

use crate::ast::{
    block_view, clone_block, clone_params, exprs_view, pairs_view, stmt_view, expr_view, Expression,
    ExprV, HashPair, InfixOperator, Node, PrefixOperator, Statement, StmtV,
};
use crate::environment::{env_wf, lookup_in, scope_insert, Environment, ScopeV};
use crate::object::{
    entries_view, err_view, key_view, obj_view, obj_wf, objs_view, objs_wf, to_key_spec, ErrV,
    EvalError, HashKey, HashKeyV, ObjV, Object,
};
use vstd::prelude::*;

pub use crate::environment::{new_enclosed_environment, new_environment};

verus! {

/// The step budget the public entry point hands the interpreter.
pub const EVAL_BUDGET: u64 = u64::MAX;

/// Truthiness: `Null` and `false` are falsy; every other value,
/// zero and the empty string included, is truthy.
pub open spec fn is_truthy_v(o: ObjV) -> bool {
    match o {
        ObjV::Null => false,
        ObjV::Bool(b) => b,
        _ => true,
    }
}

/// Truncating integer division, as the host's signed division rounds:
/// toward zero.
pub open spec fn div_trunc(x: int, d: int) -> int {
    if x == 0 {
        0
    } else if x > 0 && d > 0 {
        x / d
    } else if x < 0 && d < 0 {
        (x * -1) / (d * -1)
    } else if x < 0 {
        ((x * -1) / d) * -1
    } else {
        (x / (d * -1)) * -1
    }
}

/// What a prefix operator yields on an evaluated operand. `!` negates
/// booleans, sends `Null` to `true` and every other value to `false`;
/// `-` is legal on integers alone, and fails on the one integer whose
/// negation does not fit.
pub open spec fn eval_prefix_v(op: PrefixOperator, right: ObjV) -> Result<ObjV, ErrV> {
    match op {
        PrefixOperator::Bang => match right {
            ObjV::Bool(b) => Ok(ObjV::Bool(!b)),
            ObjV::Null => Ok(ObjV::Bool(true)),
            _ => Ok(ObjV::Bool(false)),
        },
        PrefixOperator::Minus => match right {
            ObjV::Int(i) => if i == i64::MIN {
                Err(ErrV::IntegerOverflow)
            } else {
                Ok(ObjV::Int((0 - i as int) as i64))
            },
            _ => Err(ErrV::UnknownPrefix { op: PrefixOperator::Minus, right }),
        },
    }
}

/// What an infix operator yields on two evaluated operands. Dispatch is
/// on the operands' runtime types: integer pairs support arithmetic and
/// comparison, boolean pairs only equality, string pairs concatenation
/// and equality; operands of different types are a type mismatch, and a
/// type-compatible pair under an unsupported operator is an unknown
/// operator. Arithmetic that leaves the 64-bit range fails, as does
/// division by zero.
pub open spec fn eval_infix_v(op: InfixOperator, left: ObjV, right: ObjV) -> Result<ObjV, ErrV> {
    match (left, right) {
        (ObjV::Int(l), ObjV::Int(r)) => match op {
            InfixOperator::Plus => if i64::MIN <= l as int + r as int <= i64::MAX {
                Ok(ObjV::Int((l as int + r as int) as i64))
            } else {
                Err(ErrV::IntegerOverflow)
            },
            InfixOperator::Minus => if i64::MIN <= l as int - r as int <= i64::MAX {
                Ok(ObjV::Int((l as int - r as int) as i64))
            } else {
                Err(ErrV::IntegerOverflow)
            },
            InfixOperator::Asterisk => if i64::MIN <= l as int * r as int <= i64::MAX {
                Ok(ObjV::Int((l as int * r as int) as i64))
            } else {
                Err(ErrV::IntegerOverflow)
            },
            InfixOperator::Slash => if r == 0 {
                Err(ErrV::DivisionByZero)
            } else if i64::MIN <= div_trunc(l as int, r as int) <= i64::MAX {
                Ok(ObjV::Int(div_trunc(l as int, r as int) as i64))
            } else {
                Err(ErrV::IntegerOverflow)
            },
            InfixOperator::Lt => Ok(ObjV::Bool(l < r)),
            InfixOperator::Gt => Ok(ObjV::Bool(l > r)),
            InfixOperator::Eq => Ok(ObjV::Bool(l == r)),
            InfixOperator::NotEq => Ok(ObjV::Bool(l != r)),
        },
        (ObjV::Bool(l), ObjV::Bool(r)) => match op {
            InfixOperator::Eq => Ok(ObjV::Bool(l == r)),
            InfixOperator::NotEq => Ok(ObjV::Bool(l != r)),
            _ => Err(ErrV::UnknownInfix { left, op, right }),
        },
        (ObjV::Str(l), ObjV::Str(r)) => match op {
            InfixOperator::Plus => Ok(ObjV::Str(l + r)),
            InfixOperator::Eq => Ok(ObjV::Bool(l == r)),
            InfixOperator::NotEq => Ok(ObjV::Bool(l != r)),
            _ => Err(ErrV::UnknownInfix { left, op, right }),
        },
        _ => Err(ErrV::TypeMismatch { left, op, right }),
    }
}

/// The position of the first entry with key `k` at or after `i`, or the
/// entry list's length when there is none.
pub open spec fn hash_index_from(es: Seq<(HashKeyV, ObjV)>, k: HashKeyV, i: int) -> int
    decreases es.len() - i,
{
    if !(0 <= i < es.len()) {
        es.len() as int
    } else if es[i].0 == k {
        i
    } else {
        hash_index_from(es, k, i + 1)
    }
}

/// The search lands at or after its start, within the list, and on the
/// first match.
pub proof fn lemma_hash_index_from(es: Seq<(HashKeyV, ObjV)>, k: HashKeyV, i: int)
    requires
        0 <= i <= es.len(),
    ensures
        i <= hash_index_from(es, k, i) <= es.len(),
        hash_index_from(es, k, i) < es.len() ==> es[hash_index_from(es, k, i)].0 == k,
        forall|j: int| i <= j < hash_index_from(es, k, i) ==> es[j].0 != k,
    decreases es.len() - i,
{
    if i < es.len() && es[i].0 != k {
        lemma_hash_index_from(es, k, i + 1);
    }
}

/// The value a hash holds for a key, if any.
pub open spec fn hash_lookup(es: Seq<(HashKeyV, ObjV)>, k: HashKeyV) -> Option<ObjV> {
    let i = hash_index_from(es, k, 0);
    if i < es.len() {
        Some(es[i].1)
    } else {
        None
    }
}

/// An entry list after writing `k -> v`: a later duplicate key
/// overwrites the earlier entry in place, a new key is appended, so
/// listed order is preserved.
pub open spec fn hash_insert(
    es: Seq<(HashKeyV, ObjV)>,
    k: HashKeyV,
    v: ObjV,
) -> Seq<(HashKeyV, ObjV)> {
    let i = hash_index_from(es, k, 0);
    if i < es.len() {
        es.update(i, (k, v))
    } else {
        es.push((k, v))
    }
}

/// What an index expression yields on evaluated operands. An array
/// indexed by an integer out of range yields `Null`, not an error; a
/// hash indexed by an absent or unhashable key yields `Null` as well;
/// indexing anything else, or an array by a non-integer, fails.
pub open spec fn eval_index_v(left: ObjV, index: ObjV) -> Result<ObjV, ErrV> {
    match left {
        ObjV::Arr(elements) => match index {
            ObjV::Int(i) => if 0 <= i < elements.len() {
                Ok(elements[i as int])
            } else {
                Ok(ObjV::Null)
            },
            _ => Err(ErrV::IndexNotSupported(left)),
        },
        ObjV::Hash(entries) => match to_key_spec(index) {
            Some(k) => match hash_lookup(entries, k) {
                Some(v) => Ok(v),
                None => Ok(ObjV::Null),
            },
            None => Ok(ObjV::Null),
        },
        _ => Err(ErrV::IndexNotSupported(left)),
    }
}

/// The bindings a call installs: parameter names bound to argument
/// values by position, in order, a repeated name keeping its later
/// value.
pub open spec fn bind_params(
    params: Seq<Seq<char>>,
    args: Seq<ObjV>,
) -> Seq<(Seq<char>, ObjV)>
    decreases params,
{
    if params.len() == 0 || args.len() == 0 {
        Seq::empty()
    } else {
        scope_insert(
            bind_params(params.drop_last(), args.drop_last()),
            params.last(),
            args.last(),
        )
    }
}

/// The specification-level interpreter's state: the scope arena's
/// model.
pub type StateV = Seq<ScopeV>;

/// A top-level program: statements in order; a statement yielding a
/// return sentinel stops the run, which yields the unwrapped value.
/// `prev` carries the last statement's value, `Null` before any.
pub open spec fn eval_program_from(
    stmts: Seq<StmtV>,
    i: int,
    prev: ObjV,
    env: StateV,
    scope: int,
    fuel: nat,
) -> (Result<ObjV, ErrV>, StateV)
    decreases fuel,
{
    if !(0 <= i < stmts.len()) {
        (Ok(prev), env)
    } else if fuel == 0 {
        (Err(ErrV::BudgetExhausted), env)
    } else {
        let (r, env1) = eval_stmt_v(stmts[i], env, scope, (fuel - 1) as nat);
        match r {
            Err(e) => (Err(e), env1),
            Ok(v) => match v {
                ObjV::Return(inner) => (Ok(*inner), env1),
                _ => eval_program_from(stmts, i + 1, v, env1, scope, (fuel - 1) as nat),
            },
        }
    }
}

/// A block: statements in order; a statement yielding a return
/// sentinel stops the run and the sentinel itself travels outward.
pub open spec fn eval_block_from(
    stmts: Seq<StmtV>,
    i: int,
    prev: ObjV,
    env: StateV,
    scope: int,
    fuel: nat,
) -> (Result<ObjV, ErrV>, StateV)
    decreases fuel,
{
    if !(0 <= i < stmts.len()) {
        (Ok(prev), env)
    } else if fuel == 0 {
        (Err(ErrV::BudgetExhausted), env)
    } else {
        let (r, env1) = eval_stmt_v(stmts[i], env, scope, (fuel - 1) as nat);
        match r {
            Err(e) => (Err(e), env1),
            Ok(v) => match v {
                ObjV::Return(inner) => (Ok(ObjV::Return(inner)), env1),
                _ => eval_block_from(stmts, i + 1, v, env1, scope, (fuel - 1) as nat),
            },
        }
    }
}

/// One statement. A `let` binds into the current scope and yields
/// `Null`; a `return` wraps its value in the sentinel; an expression
/// statement yields its expression's value.
pub open spec fn eval_stmt_v(s: StmtV, env: StateV, scope: int, fuel: nat) -> (
    Result<ObjV, ErrV>,
    StateV,
)
    decreases fuel,
{
    if fuel == 0 {
        (Err(ErrV::BudgetExhausted), env)
    } else {
        match s {
            StmtV::Let { name, value } => {
                let (r, env1) = eval_expr_v(value, env, scope, (fuel - 1) as nat);
                match r {
                    Err(e) => (Err(e), env1),
                    Ok(v) => (
                        Ok(ObjV::Null),
                        env1.update(
                            scope,
                            ScopeV {
                                bindings: scope_insert(env1[scope].bindings, name, v),
                                outer: env1[scope].outer,
                            },
                        ),
                    ),
                }
            },
            StmtV::Return(value) => {
                let (r, env1) = eval_expr_v(value, env, scope, (fuel - 1) as nat);
                match r {
                    Err(e) => (Err(e), env1),
                    Ok(v) => (Ok(ObjV::Return(Box::new(v))), env1),
                }
            },
            StmtV::Expr(value) => eval_expr_v(value, env, scope, (fuel - 1) as nat),
        }
    }
}

/// One expression, by case on its shape.
pub open spec fn eval_expr_v(e: ExprV, env: StateV, scope: int, fuel: nat) -> (
    Result<ObjV, ErrV>,
    StateV,
)
    decreases fuel,
{
    if fuel == 0 {
        (Err(ErrV::BudgetExhausted), env)
    } else {
        match e {
            ExprV::Ident(name) => match lookup_in(env, scope, name) {
                Some(v) => (Ok(v), env),
                None => (Err(ErrV::IdentNotFound(name)), env),
            },
            ExprV::Bool(b) => (Ok(ObjV::Bool(b)), env),
            ExprV::Int(i) => (Ok(ObjV::Int(i)), env),
            ExprV::Str(s) => (Ok(ObjV::Str(s)), env),
            ExprV::Prefix { op, right } => {
                let (r, env1) = eval_expr_v(*right, env, scope, (fuel - 1) as nat);
                match r {
                    Err(e) => (Err(e), env1),
                    Ok(v) => (eval_prefix_v(op, v), env1),
                }
            },
            ExprV::Infix { left, op, right } => {
                let (rl, env1) = eval_expr_v(*left, env, scope, (fuel - 1) as nat);
                match rl {
                    Err(e) => (Err(e), env1),
                    Ok(l) => {
                        let (rr, env2) = eval_expr_v(*right, env1, scope, (fuel - 1) as nat);
                        match rr {
                            Err(e) => (Err(e), env2),
                            Ok(r) => (eval_infix_v(op, l, r), env2),
                        }
                    },
                }
            },
            ExprV::If { cond, cons, alt } => eval_if_v(*cond, cons, alt, env, scope, (fuel - 1) as nat),
            ExprV::Func { params, body } => (Ok(ObjV::Func { params, body, env: scope }), env),
            ExprV::Call { func, args } => {
                let (rf, env1) = eval_expr_v(*func, env, scope, (fuel - 1) as nat);
                match rf {
                    Err(e) => (Err(e), env1),
                    Ok(f) => {
                        let (ra, env2) = eval_exprs_from(
                            args,
                            0,
                            Seq::empty(),
                            env1,
                            scope,
                            (fuel - 1) as nat,
                        );
                        match ra {
                            Err(e) => (Err(e), env2),
                            Ok(vals) => apply_function_v(f, vals, env2, (fuel - 1) as nat),
                        }
                    },
                }
            },
            ExprV::Arr(elements) => {
                let (r, env1) = eval_exprs_from(
                    elements,
                    0,
                    Seq::empty(),
                    env,
                    scope,
                    (fuel - 1) as nat,
                );
                match r {
                    Err(e) => (Err(e), env1),
                    Ok(vals) => (Ok(ObjV::Arr(vals)), env1),
                }
            },
            ExprV::Index { left, index } => {
                let (rl, env1) = eval_expr_v(*left, env, scope, (fuel - 1) as nat);
                match rl {
                    Err(e) => (Err(e), env1),
                    Ok(l) => {
                        let (ri, env2) = eval_expr_v(*index, env1, scope, (fuel - 1) as nat);
                        match ri {
                            Err(e) => (Err(e), env2),
                            Ok(ix) => (eval_index_v(l, ix), env2),
                        }
                    },
                }
            },
            ExprV::Hash(pairs) => {
                let (r, env1) = eval_hash_from(pairs, 0, Seq::empty(), env, scope, (fuel - 1) as nat);
                match r {
                    Err(e) => (Err(e), env1),
                    Ok(entries) => (Ok(ObjV::Hash(entries)), env1),
                }
            },
        }
    }
}

/// An `if`: the condition's truthiness picks the consequence or the
/// alternative; with no alternative a false condition yields `Null`.
pub open spec fn eval_if_v(
    cond: ExprV,
    cons: Seq<StmtV>,
    alt: Option<Seq<StmtV>>,
    env: StateV,
    scope: int,
    fuel: nat,
) -> (Result<ObjV, ErrV>, StateV)
    decreases fuel,
{
    if fuel == 0 {
        (Err(ErrV::BudgetExhausted), env)
    } else {
        let (rc, env1) = eval_expr_v(cond, env, scope, (fuel - 1) as nat);
        match rc {
            Err(e) => (Err(e), env1),
            Ok(c) => if is_truthy_v(c) {
                eval_block_from(cons, 0, ObjV::Null, env1, scope, (fuel - 1) as nat)
            } else {
                match alt {
                    Some(a) => eval_block_from(a, 0, ObjV::Null, env1, scope, (fuel - 1) as nat),
                    None => (Ok(ObjV::Null), env1),
                }
            },
        }
    }
}

/// An expression list, left to right, threading the arena through each
/// element. `acc` carries the values already produced.
pub open spec fn eval_exprs_from(
    es: Seq<ExprV>,
    i: int,
    acc: Seq<ObjV>,
    env: StateV,
    scope: int,
    fuel: nat,
) -> (Result<Seq<ObjV>, ErrV>, StateV)
    decreases fuel,
{
    if !(0 <= i < es.len()) {
        (Ok(acc), env)
    } else if fuel == 0 {
        (Err(ErrV::BudgetExhausted), env)
    } else {
        let (r, env1) = eval_expr_v(es[i], env, scope, (fuel - 1) as nat);
        match r {
            Err(e) => (Err(e), env1),
            Ok(v) => eval_exprs_from(es, i + 1, acc.push(v), env1, scope, (fuel - 1) as nat),
        }
    }
}

/// A hash literal's entries: each key expression then its value
/// expression, left to right; an unhashable key is a failure, and a
/// later duplicate key overwrites the earlier entry.
pub open spec fn eval_hash_from(
    pairs: Seq<(ExprV, ExprV)>,
    i: int,
    acc: Seq<(HashKeyV, ObjV)>,
    env: StateV,
    scope: int,
    fuel: nat,
) -> (Result<Seq<(HashKeyV, ObjV)>, ErrV>, StateV)
    decreases fuel,
{
    if !(0 <= i < pairs.len()) {
        (Ok(acc), env)
    } else if fuel == 0 {
        (Err(ErrV::BudgetExhausted), env)
    } else {
        let (rk, env1) = eval_expr_v(pairs[i].0, env, scope, (fuel - 1) as nat);
        match rk {
            Err(e) => (Err(e), env1),
            Ok(kv) => match to_key_spec(kv) {
                None => (Err(ErrV::UnhashableKey(kv)), env1),
                Some(k) => {
                    let (rv, env2) = eval_expr_v(pairs[i].1, env1, scope, (fuel - 1) as nat);
                    match rv {
                        Err(e) => (Err(e), env2),
                        Ok(v) => eval_hash_from(
                            pairs,
                            i + 1,
                            hash_insert(acc, k, v),
                            env2,
                            scope,
                            (fuel - 1) as nat,
                        ),
                    }
                },
            },
        }
    }
}

/// A call: the callee must be a function and take exactly as many
/// arguments as it has parameters; a fresh scope enclosing the
/// function's captured scope binds parameters to arguments, the body
/// runs there as a block, and a return sentinel unwraps into the
/// call's value.
pub open spec fn apply_function_v(f: ObjV, args: Seq<ObjV>, env: StateV, fuel: nat) -> (
    Result<ObjV, ErrV>,
    StateV,
)
    decreases fuel,
{
    if fuel == 0 {
        (Err(ErrV::BudgetExhausted), env)
    } else {
        match f {
            ObjV::Func { params, body, env: captured } => {
                if params.len() != args.len() {
                    (
                        Err(
                            ErrV::WrongArgCount {
                                expected: params.len() as int,
                                actual: args.len() as int,
                            },
                        ),
                        env,
                    )
                } else {
                    let idx = env.len() as int;
                    let env1 = env.push(
                        ScopeV { bindings: bind_params(params, args), outer: Some(captured) },
                    );
                    let (r, env2) = eval_block_from(
                        body,
                        0,
                        ObjV::Null,
                        env1,
                        idx,
                        (fuel - 1) as nat,
                    );
                    match r {
                        Err(e) => (Err(e), env2),
                        Ok(v) => match v {
                            ObjV::Return(inner) => (Ok(*inner), env2),
                            _ => (Ok(v), env2),
                        },
                    }
                }
            },
            _ => (Err(ErrV::NotAFunction(f)), env),
        }
    }
}

/// The executable result mirrors the specification-level result: the
/// same value or the same failure, and a returned value only captures
/// scopes an arena of `n` scopes has.
pub open spec fn mirrors(r: Result<Object, EvalError>, rv: Result<ObjV, ErrV>, n: int) -> bool {
    match r {
        Ok(o) => rv == Ok::<ObjV, ErrV>(obj_view(o)) && obj_wf(obj_view(o), n),
        Err(e) => rv == Err::<ObjV, ErrV>(err_view(e)),
    }
}

/// Truthiness of a value: `Null` and `false` are falsy, everything
/// else is truthy.
pub fn is_truthy(obj: &Object) -> (r: bool)
    ensures
        r == is_truthy_v(obj_view(*obj)),
{
    match obj {
        Object::Null => false,
        Object::Boolean(b) => *b,
        _ => true,
    }
}

/// A prefix operator applied to an evaluated operand.
pub fn eval_prefix_expression(operator: PrefixOperator, right: Object) -> (r: Result<
    Object,
    EvalError,
>)
    ensures
        ({
            let rv = eval_prefix_v(operator, obj_view(right));
            match r {
                Ok(o) => rv == Ok::<ObjV, ErrV>(obj_view(o)) && (forall|n: int|
                    obj_wf(obj_view(o), n)),
                Err(e) => rv == Err::<ObjV, ErrV>(err_view(e)),
            }
        }),
{
    match operator {
        PrefixOperator::Bang => match right {
            Object::Boolean(b) => Ok(Object::Boolean(!b)),
            Object::Null => Ok(Object::Boolean(true)),
            _ => Ok(Object::Boolean(false)),
        },
        PrefixOperator::Minus => match right {
            Object::Integer(i) => if i == i64::MIN {
                Err(EvalError::IntegerOverflow)
            } else {
                Ok(Object::Integer(-i))
            },
            _ => Err(
                EvalError::UnknownPrefixOperator { operator: PrefixOperator::Minus, right },
            ),
        },
    }
}

/// An infix operator applied to two evaluated operands, dispatching on
/// their runtime types.
pub fn eval_infix_expression(operator: InfixOperator, left: Object, right: Object) -> (r: Result<
    Object,
    EvalError,
>)
    ensures
        ({
            let rv = eval_infix_v(operator, obj_view(left), obj_view(right));
            match r {
                Ok(o) => rv == Ok::<ObjV, ErrV>(obj_view(o)) && (forall|n: int|
                    obj_wf(obj_view(o), n)),
                Err(e) => rv == Err::<ObjV, ErrV>(err_view(e)),
            }
        }),
{
    match (&left, &right) {
        (Object::Integer(l), Object::Integer(r)) => match operator {
            InfixOperator::Plus => match l.checked_add(*r) {
                Some(v) => Ok(Object::Integer(v)),
                None => Err(EvalError::IntegerOverflow),
            },
            InfixOperator::Minus => match l.checked_sub(*r) {
                Some(v) => Ok(Object::Integer(v)),
                None => Err(EvalError::IntegerOverflow),
            },
            InfixOperator::Asterisk => match l.checked_mul(*r) {
                Some(v) => Ok(Object::Integer(v)),
                None => Err(EvalError::IntegerOverflow),
            },
            InfixOperator::Slash => if *r == 0 {
                Err(EvalError::DivisionByZero)
            } else {
                match l.checked_div(*r) {
                    Some(v) => Ok(Object::Integer(v)),
                    None => Err(EvalError::IntegerOverflow),
                }
            },
            InfixOperator::Lt => Ok(Object::Boolean(*l < *r)),
            InfixOperator::Gt => Ok(Object::Boolean(*l > *r)),
            InfixOperator::Eq => Ok(Object::Boolean(*l == *r)),
            InfixOperator::NotEq => Ok(Object::Boolean(*l != *r)),
        },
        (Object::Boolean(l), Object::Boolean(r)) => match operator {
            InfixOperator::Eq => Ok(Object::Boolean(*l == *r)),
            InfixOperator::NotEq => Ok(Object::Boolean(*l != *r)),
            _ => Err(EvalError::UnknownInfixOperator { left, operator, right }),
        },
        (Object::String(l), Object::String(r)) => match operator {
            InfixOperator::Plus => {
                let mut s = l.clone();
                s.append(r.as_str());
                Ok(Object::String(s))
            },
            InfixOperator::Eq => Ok(Object::Boolean(*l == *r)),
            InfixOperator::NotEq => Ok(Object::Boolean(*l != *r)),
            _ => Err(EvalError::UnknownInfixOperator { left, operator, right }),
        },
        _ => Err(EvalError::TypeMismatch { left, operator, right }),
    }
}

/// An index expression applied to evaluated operands: a missing array
/// or hash entry is `Null`, never an error.
pub fn eval_index_expression(left: Object, index: Object) -> (r: Result<Object, EvalError>)
    ensures
        ({
            let rv = eval_index_v(obj_view(left), obj_view(index));
            match r {
                Ok(o) => rv == Ok::<ObjV, ErrV>(obj_view(o)) && (forall|n: int|
                    obj_wf(obj_view(left), n) ==> obj_wf(obj_view(o), n)),
                Err(e) => rv == Err::<ObjV, ErrV>(err_view(e)),
            }
        }),
{
    match (&left, &index) {
        (Object::Array(elements), Object::Integer(i)) => {
            proof {
                crate::object::lemma_objs_view(elements@);
            }
            if *i < 0 || *i as u64 >= elements.len() as u64 {
                Ok(Object::Null)
            } else {
                let iu = *i as usize;
                let o = elements[iu].clone();
                proof {
                    assert forall|n: int| obj_wf(obj_view(left), n) implies obj_wf(
                        obj_view(o),
                        n,
                    ) by {
                        crate::object::lemma_objs_wf(objs_view(elements@), n);
                    }
                }
                Ok(o)
            }
        },
        (Object::Hash(entries), _) => {
            let key = crate::object::to_hash_key(&index);
            match key {
                None => Ok(Object::Null),
                Some(k) => {
                    proof {
                        crate::object::lemma_entries_view(entries@);
                        lemma_hash_index_from(entries_view(entries@), key_view(k), 0);
                    }
                    let ghost ev = entries_view(entries@);
                    let mut i: usize = 0;
                    while i < entries.len()
                        invariant
                            i <= entries@.len(),
                            ev == entries_view(entries@),
                            ev.len() == entries@.len(),
                            forall|j: int|
                                0 <= j < entries@.len() ==> ev[j] == (
                                    key_view(entries@[j].0),
                                    obj_view(entries@[j].1),
                                ),
                            left == Object::Hash(*entries),
                            obj_view(left) == ObjV::Hash(ev),
                            to_key_spec(obj_view(index)) == Some(key_view(k)),
                            hash_index_from(ev, key_view(k), 0) >= i,
                        decreases entries.len() - i,
                    {
                        if crate::object::key_eq(&entries[i].0, &k) {
                            proof {
                                lemma_hash_index_from(ev, key_view(k), 0);
                                assert(ev[i as int].0 == key_view(k));
                                assert(hash_index_from(ev, key_view(k), 0) == i);
                            }
                            let o = entries[i].1.clone();
                            proof {
                                assert(obj_view(o) == ev[i as int].1);
                                assert(hash_lookup(ev, key_view(k)) == Some(ev[i as int].1));
                                assert forall|n: int| obj_wf(obj_view(left), n) implies obj_wf(
                                    obj_view(o),
                                    n,
                                ) by {
                                    crate::object::lemma_entries_wf(ev, n);
                                    assert(obj_wf(ev[i as int].1, n));
                                }
                            }
                            return Ok(o);
                        }
                        proof {
                            lemma_hash_index_from(ev, key_view(k), 0);
                            assert(ev[i as int].0 != key_view(k));
                        }
                        i += 1;
                    }
                    proof {
                        lemma_hash_index_from(ev, key_view(k), 0);
                        assert(hash_lookup(ev, key_view(k)) is None);
                    }
                    Ok(Object::Null)
                },
            }
        },
        _ => Err(EvalError::IndexNotSupported { value: left }),
    }
}

/// The value bound to a name, or an identifier-not-found failure
/// naming it.
pub fn eval_identifier(name: &crate::ast::Identifier, env: &Environment, scope: usize) -> (r:
    Result<Object, EvalError>)
    requires
        env_wf(env@),
        scope < env@.len(),
    ensures
        mirrors(
            r,
            match lookup_in(env@, scope as int, name@) {
                Some(v) => Ok(v),
                None => Err(ErrV::IdentNotFound(name@)),
            },
            env@.len() as int,
        ),
{
    match env.get(scope, name.as_str()) {
        Some(o) => Ok(o),
        None => Err(EvalError::IdentifierNotFound { name: name.clone() }),
    }
}

/// Writes `k -> v` into an entry list: a present key's entry is
/// overwritten in place, an absent key is appended.
fn hash_put(entries: &mut Vec<(HashKey, Object)>, k: HashKey, v: Object)
    ensures
        entries_view(final(entries)@) == hash_insert(
            entries_view(old(entries)@),
            key_view(k),
            obj_view(v),
        ),
{
    let ghost ev = entries_view(entries@);
    proof {
        crate::object::lemma_entries_view(entries@);
        lemma_hash_index_from(ev, key_view(k), 0);
    }
    let n = entries.len();
    let mut i: usize = 0;
    let mut found = false;
    while i < n && !found
        invariant
            i <= n,
            n == entries@.len(),
            entries@ == old(entries)@,
            ev == entries_view(entries@),
            ev.len() == entries@.len(),
            forall|j: int|
                0 <= j < entries@.len() ==> ev[j] == (
                    key_view(entries@[j].0),
                    obj_view(entries@[j].1),
                ),
            !found ==> hash_index_from(ev, key_view(k), 0) >= i,
            found ==> i < n && hash_index_from(ev, key_view(k), 0) == i,
        decreases n - i + (if found {
            0int
        } else {
            1int
        }),
    {
        if crate::object::key_eq(&entries[i].0, &k) {
            found = true;
            proof {
                lemma_hash_index_from(ev, key_view(k), 0);
                assert(ev[i as int].0 == key_view(k));
            }
        } else {
            proof {
                lemma_hash_index_from(ev, key_view(k), 0);
                assert(ev[i as int].0 != key_view(k));
            }
            i += 1;
        }
    }
    if found {
        entries[i] = (k, v);
        proof {
            crate::object::lemma_entries_view(entries@);
            assert(entries_view(entries@) =~= hash_insert(ev, key_view(k), obj_view(v)));
        }
    } else {
        entries.push((k, v));
        proof {
            crate::object::lemma_entries_view(entries@);
            assert(entries@.drop_last() =~= old(entries)@);
            assert(entries_view(entries@) =~= hash_insert(ev, key_view(k), obj_view(v)));
        }
    }
}

/// Writing a well-formed value keeps an entry list well formed.
proof fn lemma_hash_insert_wf(es: Seq<(HashKeyV, ObjV)>, k: HashKeyV, v: ObjV, n: int)
    requires
        crate::object::entries_wf(es, n),
        obj_wf(v, n),
    ensures
        crate::object::entries_wf(hash_insert(es, k, v), n),
{
    let es2 = hash_insert(es, k, v);
    crate::object::lemma_entries_wf(es, n);
    crate::object::lemma_entries_wf(es2, n);
    lemma_hash_index_from(es, k, 0);
}

/// An expression list, left to right, threading the arena through each
/// element.
pub fn eval_expressions(
    expressions: &Vec<Expression>,
    env: &mut Environment,
    scope: usize,
    fuel: u64,
) -> (r: Result<Vec<Object>, EvalError>)
    requires
        env_wf(old(env)@),
        scope < old(env)@.len(),
    ensures
        env_wf(final(env)@),
        old(env)@.len() <= final(env)@.len(),
        ({
            let (rv, env2) = eval_exprs_from(
                exprs_view(expressions@),
                0,
                Seq::empty(),
                old(env)@,
                scope as int,
                fuel as nat,
            );
            &&& final(env)@ == env2
            &&& match r {
                Ok(vs) => rv == Ok::<Seq<ObjV>, ErrV>(objs_view(vs@)) && objs_wf(
                    objs_view(vs@),
                    final(env)@.len() as int,
                ),
                Err(e) => rv == Err::<Seq<ObjV>, ErrV>(err_view(e)),
            }
        }),
    decreases fuel, 1int,
{
    proof {
        crate::ast::lemma_exprs_view(expressions@);
    }
    let ghost es = exprs_view(expressions@);
    let mut result: Vec<Object> = Vec::new();
    let mut i: usize = 0;
    let mut f = fuel;
    while i < expressions.len()
        invariant
            env_wf(env@),
            scope < env@.len(),
            old(env)@.len() <= env@.len(),
            i <= expressions@.len(),
            f <= fuel,
            es == exprs_view(expressions@),
            es.len() == expressions@.len(),
            forall|j: int| 0 <= j < expressions@.len() ==> es[j] == expr_view(expressions@[j]),
            result@.len() == i,
            objs_wf(objs_view(result@), env@.len() as int),
            eval_exprs_from(es, 0, Seq::empty(), old(env)@, scope as int, fuel as nat)
                == eval_exprs_from(es, i as int, objs_view(result@), env@, scope as int, f as nat),
        decreases expressions.len() - i,
    {
        if f == 0 {
            return Err(EvalError::BudgetExhausted);
        }
        let ghost pre_len = env@.len() as int;
        let r = eval_expression(&expressions[i], env, scope, f - 1);
        match r {
            Err(e) => {
                return Err(e);
            },
            Ok(v) => {
                proof {
                    crate::object::lemma_objs_wf_widen(
                        objs_view(result@),
                        pre_len,
                        env@.len() as int,
                    );
                }
                let ghost prev = result@;
                result.push(v);
                proof {
                    assert(result@.drop_last() =~= prev);
                    crate::object::lemma_objs_wf(objs_view(prev), env@.len() as int);
                    crate::object::lemma_objs_wf(objs_view(result@), env@.len() as int);
                    crate::object::lemma_objs_view(prev);
                    crate::object::lemma_objs_view(result@);
                }
                i += 1;
                f = f - 1;
            },
        }
    }
    Ok(result)
}

/// A block of statements: the last statement's value, `Null` for an
/// empty block, and a return sentinel travels outward unchanged.
pub fn eval_block_statemt(
    program: &Vec<Statement>,
    env: &mut Environment,
    scope: usize,
    fuel: u64,
) -> (r: Result<Object, EvalError>)
    requires
        env_wf(old(env)@),
        scope < old(env)@.len(),
    ensures
        env_wf(final(env)@),
        old(env)@.len() <= final(env)@.len(),
        ({
            let (rv, env2) = eval_block_from(
                block_view(program@),
                0,
                ObjV::Null,
                old(env)@,
                scope as int,
                fuel as nat,
            );
            &&& final(env)@ == env2
            &&& mirrors(r, rv, final(env)@.len() as int)
        }),
    decreases fuel, 1int,
{
    proof {
        crate::ast::lemma_block_view(program@);
    }
    let ghost bv = block_view(program@);
    let mut result: Object = Object::Null;
    let mut i: usize = 0;
    let mut f = fuel;
    while i < program.len()
        invariant
            env_wf(env@),
            scope < env@.len(),
            old(env)@.len() <= env@.len(),
            i <= program@.len(),
            f <= fuel,
            bv == block_view(program@),
            bv.len() == program@.len(),
            forall|j: int| 0 <= j < program@.len() ==> bv[j] == stmt_view(program@[j]),
            obj_wf(obj_view(result), env@.len() as int),
            !(obj_view(result) is Return),
            eval_block_from(bv, 0, ObjV::Null, old(env)@, scope as int, fuel as nat)
                == eval_block_from(bv, i as int, obj_view(result), env@, scope as int, f as nat),
        decreases program.len() - i,
    {
        if f == 0 {
            return Err(EvalError::BudgetExhausted);
        }
        let ghost pre_len = env@.len() as int;
        let r = eval_statement(&program[i], env, scope, f - 1);
        match r {
            Err(e) => {
                return Err(e);
            },
            Ok(v) => {
                if matches!(v, Object::ReturnValue(_)) {
                    return Ok(v);
                }
                result = v;
                i += 1;
                f = f - 1;
            },
        }
    }
    Ok(result)
}

/// A top-level program: statements in order; a return sentinel stops
/// the run and unwraps into the program's value.
pub fn eval_program(
    program: &Vec<Statement>,
    env: &mut Environment,
    scope: usize,
    fuel: u64,
) -> (r: Result<Object, EvalError>)
    requires
        env_wf(old(env)@),
        scope < old(env)@.len(),
    ensures
        env_wf(final(env)@),
        old(env)@.len() <= final(env)@.len(),
        ({
            let (rv, env2) = eval_program_from(
                block_view(program@),
                0,
                ObjV::Null,
                old(env)@,
                scope as int,
                fuel as nat,
            );
            &&& final(env)@ == env2
            &&& mirrors(r, rv, final(env)@.len() as int)
        }),
    decreases fuel, 1int,
{
    proof {
        crate::ast::lemma_block_view(program@);
    }
    let ghost bv = block_view(program@);
    let mut result: Object = Object::Null;
    let mut i: usize = 0;
    let mut f = fuel;
    while i < program.len()
        invariant
            env_wf(env@),
            scope < env@.len(),
            old(env)@.len() <= env@.len(),
            i <= program@.len(),
            f <= fuel,
            bv == block_view(program@),
            bv.len() == program@.len(),
            forall|j: int| 0 <= j < program@.len() ==> bv[j] == stmt_view(program@[j]),
            obj_wf(obj_view(result), env@.len() as int),
            !(obj_view(result) is Return),
            eval_program_from(bv, 0, ObjV::Null, old(env)@, scope as int, fuel as nat)
                == eval_program_from(bv, i as int, obj_view(result), env@, scope as int, f as nat),
        decreases program.len() - i,
    {
        if f == 0 {
            return Err(EvalError::BudgetExhausted);
        }
        let r = eval_statement(&program[i], env, scope, f - 1);
        match r {
            Err(e) => {
                return Err(e);
            },
            Ok(v) => {
                match v {
                    Object::ReturnValue(inner) => {
                        return Ok(*inner);
                    },
                    other => {
                        result = other;
                        i += 1;
                        f = f - 1;
                    },
                }
            },
        }
    }
    Ok(result)
}

/// One statement: a `let` binds into the current scope and yields
/// `Null`, a `return` wraps its value in the sentinel, an expression
/// statement yields its expression's value.
pub fn eval_statement(
    statement: &Statement,
    env: &mut Environment,
    scope: usize,
    fuel: u64,
) -> (r: Result<Object, EvalError>)
    requires
        env_wf(old(env)@),
        scope < old(env)@.len(),
    ensures
        env_wf(final(env)@),
        old(env)@.len() <= final(env)@.len(),
        ({
            let (rv, env2) = eval_stmt_v(
                stmt_view(*statement),
                old(env)@,
                scope as int,
                fuel as nat,
            );
            &&& final(env)@ == env2
            &&& mirrors(r, rv, final(env)@.len() as int)
        }),
    decreases fuel, 2int,
{
    if fuel == 0 {
        return Err(EvalError::BudgetExhausted);
    }
    match statement {
        Statement::LetStatement { name, value } => {
            let v = match eval_expression(value, env, scope, fuel - 1) {
                Ok(v) => v,
                Err(e) => {
                    return Err(e);
                },
            };
            let _ = env.set(scope, name.as_str(), v);
            Ok(Object::Null)
        },
        Statement::Return { return_value } => {
            let v = match eval_expression(return_value, env, scope, fuel - 1) {
                Ok(v) => v,
                Err(e) => {
                    return Err(e);
                },
            };
            Ok(Object::ReturnValue(Box::new(v)))
        },
        Statement::Expression { expression } => eval_expression(expression, env, scope, fuel - 1),
    }
}

/// An `if`: the condition's truthiness picks the branch; a false
/// condition with no alternative yields `Null`.
pub fn eval_if_expression(
    condition: &Expression,
    consequence: &Vec<Statement>,
    alternative: &Option<Vec<Statement>>,
    env: &mut Environment,
    scope: usize,
    fuel: u64,
) -> (r: Result<Object, EvalError>)
    requires
        env_wf(old(env)@),
        scope < old(env)@.len(),
    ensures
        env_wf(final(env)@),
        old(env)@.len() <= final(env)@.len(),
        ({
            let (rv, env2) = eval_if_v(
                expr_view(*condition),
                block_view(consequence@),
                match *alternative {
                    Some(ref a) => Some(block_view(a@)),
                    None => None,
                },
                old(env)@,
                scope as int,
                fuel as nat,
            );
            &&& final(env)@ == env2
            &&& mirrors(r, rv, final(env)@.len() as int)
        }),
    decreases fuel, 1int,
{
    if fuel == 0 {
        return Err(EvalError::BudgetExhausted);
    }
    let c = match eval_expression(condition, env, scope, fuel - 1) {
        Ok(c) => c,
        Err(e) => {
            return Err(e);
        },
    };
    if is_truthy(&c) {
        eval_block_statemt(consequence, env, scope, fuel - 1)
    } else {
        match alternative {
            Some(alt) => eval_block_statemt(alt, env, scope, fuel - 1),
            None => Ok(Object::Null),
        }
    }
}

/// A hash literal: each key expression then its value expression, left
/// to right; an unhashable key is a failure, a later duplicate key
/// overwrites the earlier entry.
pub fn eval_hash_literal(
    pairs: &Vec<HashPair>,
    env: &mut Environment,
    scope: usize,
    fuel: u64,
) -> (r: Result<Object, EvalError>)
    requires
        env_wf(old(env)@),
        scope < old(env)@.len(),
    ensures
        env_wf(final(env)@),
        old(env)@.len() <= final(env)@.len(),
        ({
            let (rv, env2) = eval_hash_from(
                pairs_view(pairs@),
                0,
                Seq::empty(),
                old(env)@,
                scope as int,
                fuel as nat,
            );
            &&& final(env)@ == env2
            &&& match r {
                Ok(o) => rv is Ok && obj_view(o) == ObjV::Hash(rv->Ok_0) && obj_wf(
                    obj_view(o),
                    final(env)@.len() as int,
                ),
                Err(e) => rv == Err::<Seq<(HashKeyV, ObjV)>, ErrV>(err_view(e)),
            }
        }),
    decreases fuel, 1int,
{
    proof {
        crate::ast::lemma_pairs_view(pairs@);
    }
    let ghost pv = pairs_view(pairs@);
    let mut entries: Vec<(HashKey, Object)> = Vec::new();
    let mut i: usize = 0;
    let mut f = fuel;
    while i < pairs.len()
        invariant
            env_wf(env@),
            scope < env@.len(),
            old(env)@.len() <= env@.len(),
            i <= pairs@.len(),
            f <= fuel,
            pv == pairs_view(pairs@),
            pv.len() == pairs@.len(),
            forall|j: int|
                0 <= j < pairs@.len() ==> pv[j] == (
                    expr_view(pairs@[j].key),
                    expr_view(pairs@[j].value),
                ),
            crate::object::entries_wf(entries_view(entries@), env@.len() as int),
            eval_hash_from(pv, 0, Seq::empty(), old(env)@, scope as int, fuel as nat)
                == eval_hash_from(pv, i as int, entries_view(entries@), env@, scope as int, f as nat),
        decreases pairs.len() - i,
    {
        if f == 0 {
            return Err(EvalError::BudgetExhausted);
        }
        let ghost pre_len = env@.len() as int;
        let kobj = match eval_expression(&pairs[i].key, env, scope, f - 1) {
            Ok(k) => k,
            Err(e) => {
                return Err(e);
            },
        };
        let k = match crate::object::to_hash_key(&kobj) {
            Some(k) => k,
            None => {
                return Err(EvalError::UnhashableKey { key: kobj });
            },
        };
        let vobj = match eval_expression(&pairs[i].value, env, scope, f - 1) {
            Ok(v) => v,
            Err(e) => {
                return Err(e);
            },
        };
        proof {
            crate::object::lemma_entries_wf_widen(
                entries_view(entries@),
                pre_len,
                env@.len() as int,
            );
            lemma_hash_insert_wf(
                entries_view(entries@),
                key_view(k),
                obj_view(vobj),
                env@.len() as int,
            );
        }
        hash_put(&mut entries, k, vobj);
        i += 1;
        f = f - 1;
    }
    Ok(Object::Hash(entries))
}

/// A call: the callee must be a function taking exactly as many
/// arguments as it has parameters; a fresh scope enclosing the
/// function's captured scope binds parameters to arguments by
/// position, the body runs there, and a return sentinel unwraps into
/// the call's value.
pub fn apply_function(
    function: Object,
    arguments: Vec<Object>,
    env: &mut Environment,
    fuel: u64,
) -> (r: Result<Object, EvalError>)
    requires
        env_wf(old(env)@),
        obj_wf(obj_view(function), old(env)@.len() as int),
        objs_wf(objs_view(arguments@), old(env)@.len() as int),
    ensures
        env_wf(final(env)@),
        old(env)@.len() <= final(env)@.len(),
        ({
            let (rv, env2) = apply_function_v(
                obj_view(function),
                objs_view(arguments@),
                old(env)@,
                fuel as nat,
            );
            &&& final(env)@ == env2
            &&& mirrors(r, rv, final(env)@.len() as int)
        }),
    decreases fuel, 1int,
{
    if fuel == 0 {
        return Err(EvalError::BudgetExhausted);
    }
    proof {
        crate::object::lemma_objs_view(arguments@);
        crate::object::lemma_objs_wf(objs_view(arguments@), old(env)@.len() as int);
    }
    match function {
        Object::Function { parameters, body, env: captured } => {
            if parameters.len() != arguments.len() {
                return Err(
                    EvalError::WrongArgumentCount {
                        expected: parameters.len(),
                        actual: arguments.len(),
                    },
                );
            }
            let ghost env0 = env@;
            let ghost pv = crate::ast::params_view(parameters@);
            let ghost av = objs_view(arguments@);
            let idx = crate::environment::new_enclosed_environment(env, captured);
            let mut i: usize = 0;
            while i < parameters.len()
                invariant
                    parameters@.len() == arguments@.len(),
                    i <= parameters@.len(),
                    pv == crate::ast::params_view(parameters@),
                    pv.len() == parameters@.len(),
                    av == objs_view(arguments@),
                    av.len() == arguments@.len(),
                    forall|j: int| 0 <= j < arguments@.len() ==> av[j] == obj_view(arguments@[j]),
                    objs_wf(av, env0.len() as int),
                    idx == env0.len(),
                    env@ =~= env0.push(
                        ScopeV {
                            bindings: bind_params(
                                pv.subrange(0, i as int),
                                av.subrange(0, i as int),
                            ),
                            outer: Some(captured as int),
                        },
                    ),
                    env_wf(env@),
                decreases parameters.len() - i,
            {
                proof {
                    crate::object::lemma_objs_wf(av, env0.len() as int);
                    crate::object::lemma_obj_wf_widen(
                        av[i as int],
                        env0.len() as int,
                        env@.len() as int,
                    );
                }
                let arg = arguments[i].clone();
                let _ = env.set(idx, parameters[i].as_str(), arg);
                proof {
                    assert(pv.subrange(0, i + 1 as int).drop_last() =~= pv.subrange(0, i as int));
                    assert(av.subrange(0, i + 1 as int).drop_last() =~= av.subrange(0, i as int));
                    assert(env@ =~= env0.push(
                        ScopeV {
                            bindings: bind_params(
                                pv.subrange(0, i + 1 as int),
                                av.subrange(0, i + 1 as int),
                            ),
                            outer: Some(captured as int),
                        },
                    ));
                }
                i += 1;
            }
            proof {
                assert(pv.subrange(0, pv.len() as int) =~= pv);
                assert(av.subrange(0, av.len() as int) =~= av);
            }
            let r = eval_block_statemt(&body, env, idx, fuel - 1);
            match r {
                Err(e) => Err(e),
                Ok(v) => match v {
                    Object::ReturnValue(inner) => Ok(*inner),
                    other => Ok(other),
                },
            }
        },
        _ => Err(EvalError::NotAFunction { value: function }),
    }
}

/// One expression, by case on its shape.
pub fn eval_expression(
    expression: &Expression,
    env: &mut Environment,
    scope: usize,
    fuel: u64,
) -> (r: Result<Object, EvalError>)
    requires
        env_wf(old(env)@),
        scope < old(env)@.len(),
    ensures
        env_wf(final(env)@),
        old(env)@.len() <= final(env)@.len(),
        ({
            let (rv, env2) = eval_expr_v(
                expr_view(*expression),
                old(env)@,
                scope as int,
                fuel as nat,
            );
            &&& final(env)@ == env2
            &&& mirrors(r, rv, final(env)@.len() as int)
        }),
    decreases fuel, 0int,
{
    if fuel == 0 {
        return Err(EvalError::BudgetExhausted);
    }
    match expression {
        Expression::Identifier(name) => eval_identifier(name, env, scope),
        Expression::Boolean(b) => Ok(Object::Boolean(*b)),
        Expression::IntegerLiteral(i) => Ok(Object::Integer(*i)),
        Expression::StringLiteral(s) => Ok(Object::String(s.clone())),
        Expression::PrefixExpression { operator, right } => {
            let v = match eval_expression(right, env, scope, fuel - 1) {
                Ok(v) => v,
                Err(e) => {
                    return Err(e);
                },
            };
            eval_prefix_expression(*operator, v)
        },
        Expression::InfixExpression { left, operator, right } => {
            let l = match eval_expression(left, env, scope, fuel - 1) {
                Ok(v) => v,
                Err(e) => {
                    return Err(e);
                },
            };
            let r = match eval_expression(right, env, scope, fuel - 1) {
                Ok(v) => v,
                Err(e) => {
                    return Err(e);
                },
            };
            eval_infix_expression(*operator, l, r)
        },
        Expression::IfExpression { condition, consequence, alternative } => eval_if_expression(
            condition,
            consequence,
            alternative,
            env,
            scope,
            fuel - 1,
        ),
        Expression::FunctionLiteral { parameters, body } => Ok(
            Object::Function {
                parameters: clone_params(parameters),
                body: clone_block(body),
                env: scope,
            },
        ),
        Expression::CallExpression { function, arguments } => {
            let f = match eval_expression(function, env, scope, fuel - 1) {
                Ok(v) => v,
                Err(e) => {
                    return Err(e);
                },
            };
            let ghost mid_len = env@.len() as int;
            let args = match eval_expressions(arguments, env, scope, fuel - 1) {
                Ok(v) => v,
                Err(e) => {
                    return Err(e);
                },
            };
            proof {
                crate::object::lemma_obj_wf_widen(obj_view(f), mid_len, env@.len() as int);
            }
            apply_function(f, args, env, fuel - 1)
        },
        Expression::ArrayLiteral(elements) => {
            let vals = match eval_expressions(elements, env, scope, fuel - 1) {
                Ok(v) => v,
                Err(e) => {
                    return Err(e);
                },
            };
            Ok(Object::Array(vals))
        },
        Expression::IndexExpression { left, index } => {
            let l = match eval_expression(left, env, scope, fuel - 1) {
                Ok(v) => v,
                Err(e) => {
                    return Err(e);
                },
            };
            let ghost mid_len = env@.len() as int;
            let ix = match eval_expression(index, env, scope, fuel - 1) {
                Ok(v) => v,
                Err(e) => {
                    return Err(e);
                },
            };
            proof {
                crate::object::lemma_obj_wf_widen(obj_view(l), mid_len, env@.len() as int);
            }
            eval_index_expression(l, ix)
        },
        Expression::HashLiteral(pairs) => eval_hash_literal(pairs, env, scope, fuel - 1),
    }
}

/// Evaluates a node in the session's top-level scope, with the full
/// step budget: a rendered value or a recoverable failure. One bad
/// program never corrupts the session's prior bindings in any scope it
/// does not itself rebind.
pub fn eval(node: Node, env: &mut Environment) -> (r: Result<Object, EvalError>)
    requires
        env_wf(old(env)@),
        old(env)@.len() >= 1,
    ensures
        env_wf(final(env)@),
        old(env)@.len() <= final(env)@.len(),
        ({
            let (rv, env2) = match node {
                Node::Program(ref program) => eval_program_from(
                    block_view(program@),
                    0,
                    ObjV::Null,
                    old(env)@,
                    0,
                    EVAL_BUDGET as nat,
                ),
            };
            &&& final(env)@ == env2
            &&& mirrors(r, rv, final(env)@.len() as int)
        }),
{
    match node {
        Node::Program(program) => eval_program(&program, env, 0, EVAL_BUDGET),
    }
}

} // verus!
