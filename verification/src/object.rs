//! The closed set of runtime values, the evaluation errors, and their
//! renderings.

use crate::ast::{
    block_view, clone_block, clone_params, infix_op_rep, params_view, prefix_op_rep, BlockStatement,
    Identifier, InfixOperator, PrefixOperator, StmtV,
};
use crate::text::{int_rep, render_i64};
use vstd::prelude::*;
use vstd::string::StringExecFns;

verus! {

/// A runtime value that may serve as a hash key: only integers,
/// booleans and strings are hashable.
#[derive(Debug, PartialEq, Eq)]
pub enum HashKey {
    Integer(i64),
    Boolean(bool),
    String(String),
}

/// A runtime value. `ReturnValue` is the sentinel a `return` statement
/// wraps its value in; block evaluation checks for it after every
/// statement. A function value carries its parameter names, its body,
/// and the scope it captured.
#[derive(Debug, PartialEq, Eq)]
pub enum Object {
    Null,
    Integer(i64),
    Boolean(bool),
    String(String),
    ReturnValue(Box<Object>),
    Function { parameters: Vec<Identifier>, body: BlockStatement, env: usize },
    Array(Vec<Object>),
    Hash(Vec<(HashKey, Object)>),
}

/// The mathematical model of a hash key.
pub enum HashKeyV {
    Int(i64),
    Bool(bool),
    Str(Seq<char>),
}

/// The mathematical model of a runtime value. A function's captured
/// scope is an index into the environment's scope arena.
pub enum ObjV {
    Null,
    Int(i64),
    Bool(bool),
    Str(Seq<char>),
    Return(Box<ObjV>),
    Func { params: Seq<Seq<char>>, body: Seq<StmtV>, env: int },
    Arr(Seq<ObjV>),
    Hash(Seq<(HashKeyV, ObjV)>),
}

/// The model of a hash key.
pub open spec fn key_view(k: HashKey) -> HashKeyV {
    match k {
        HashKey::Integer(i) => HashKeyV::Int(i),
        HashKey::Boolean(b) => HashKeyV::Bool(b),
        HashKey::String(s) => HashKeyV::Str(s@),
    }
}

/// The model of a runtime value.
pub open spec fn obj_view(o: Object) -> ObjV
    decreases o,
{
    match o {
        Object::Null => ObjV::Null,
        Object::Integer(i) => ObjV::Int(i),
        Object::Boolean(b) => ObjV::Bool(b),
        Object::String(s) => ObjV::Str(s@),
        Object::ReturnValue(inner) => ObjV::Return(Box::new(obj_view(*inner))),
        Object::Function { parameters, body, env } => ObjV::Func {
            params: params_view(parameters@),
            body: block_view(body@),
            env: env as int,
        },
        Object::Array(elements) => ObjV::Arr(objs_view(elements@)),
        Object::Hash(entries) => ObjV::Hash(entries_view(entries@)),
    }
}

/// The model of a value list, element by element.
pub open spec fn objs_view(os: Seq<Object>) -> Seq<ObjV>
    decreases os,
{
    if os.len() == 0 {
        Seq::empty()
    } else {
        objs_view(os.drop_last()).push(obj_view(os.last()))
    }
}

/// The model of a hash's entry list, in insertion order.
pub open spec fn entries_view(es: Seq<(HashKey, Object)>) -> Seq<(HashKeyV, ObjV)>
    decreases es,
{
    if es.len() == 0 {
        Seq::empty()
    } else {
        entries_view(es.drop_last()).push(
            (key_view(es.last().0), obj_view(es.last().1)),
        )
    }
}

/// A value list's model has one value model per element, in order.
pub broadcast proof fn lemma_objs_view(os: Seq<Object>)
    ensures
        (#[trigger] objs_view(os)).len() == os.len(),
        forall|i: int| 0 <= i < os.len() ==> objs_view(os)[i] == obj_view(os[i]),
    decreases os,
{
    if os.len() > 0 {
        lemma_objs_view(os.drop_last());
    }
}

/// An entry list's model pairs each key's model with its value's model.
pub broadcast proof fn lemma_entries_view(es: Seq<(HashKey, Object)>)
    ensures
        (#[trigger] entries_view(es)).len() == es.len(),
        forall|i: int|
            0 <= i < es.len() ==> entries_view(es)[i] == (
                key_view(es[i].0),
                obj_view(es[i].1),
            ),
    decreases es,
{
    if es.len() > 0 {
        lemma_entries_view(es.drop_last());
    }
}

/// Whether every scope index a value holds lies below `n`: values
/// stored in an environment of `n` scopes may only capture existing
/// scopes.
pub open spec fn obj_wf(o: ObjV, n: int) -> bool
    decreases o,
{
    match o {
        ObjV::Return(inner) => obj_wf(*inner, n),
        ObjV::Func { params, body, env } => 0 <= env < n,
        ObjV::Arr(elements) => objs_wf(elements, n),
        ObjV::Hash(entries) => entries_wf(entries, n),
        _ => true,
    }
}

/// Well-formedness of every value of a list.
pub open spec fn objs_wf(os: Seq<ObjV>, n: int) -> bool
    decreases os,
{
    if os.len() == 0 {
        true
    } else {
        objs_wf(os.drop_last(), n) && obj_wf(os.last(), n)
    }
}

/// Well-formedness of every value of an entry list.
pub open spec fn entries_wf(es: Seq<(HashKeyV, ObjV)>, n: int) -> bool
    decreases es,
{
    if es.len() == 0 {
        true
    } else {
        entries_wf(es.drop_last(), n) && obj_wf(es.last().1, n)
    }
}

/// A list is well formed exactly when each element is.
pub broadcast proof fn lemma_objs_wf(os: Seq<ObjV>, n: int)
    ensures
        #[trigger] objs_wf(os, n) <==> (forall|i: int| 0 <= i < os.len() ==> obj_wf(os[i], n)),
    decreases os,
{
    if os.len() > 0 {
        lemma_objs_wf(os.drop_last(), n);
        assert(forall|i: int| 0 <= i < os.len() - 1 ==> os.drop_last()[i] == os[i]);
        assert(os.last() == os[os.len() - 1]);
    }
}

/// An entry list is well formed exactly when each entry's value is.
pub broadcast proof fn lemma_entries_wf(es: Seq<(HashKeyV, ObjV)>, n: int)
    ensures
        #[trigger] entries_wf(es, n) <==> (forall|i: int|
            0 <= i < es.len() ==> obj_wf(es[i].1, n)),
    decreases es,
{
    if es.len() > 0 {
        lemma_entries_wf(es.drop_last(), n);
        assert(forall|i: int| 0 <= i < es.len() - 1 ==> es.drop_last()[i] == es[i]);
        assert(es.last() == es[es.len() - 1]);
    }
}

/// A value well formed for `n` scopes is well formed for any larger
/// arena: scopes are only ever added.
pub broadcast proof fn lemma_obj_wf_widen(o: ObjV, n: int, m: int)
    requires
        n <= m,
        #[trigger] obj_wf(o, n),
    ensures
        #[trigger] obj_wf(o, m),
    decreases o,
{
    match o {
        ObjV::Return(inner) => lemma_obj_wf_widen(*inner, n, m),
        ObjV::Arr(elements) => {
            lemma_objs_wf(elements, n);
            lemma_objs_wf(elements, m);
            assert forall|i: int| 0 <= i < elements.len() implies obj_wf(elements[i], m) by {
                lemma_obj_wf_widen(elements[i], n, m);
            }
        },
        ObjV::Hash(entries) => {
            lemma_entries_wf(entries, n);
            lemma_entries_wf(entries, m);
            assert forall|i: int| 0 <= i < entries.len() implies obj_wf(entries[i].1, m) by {
                lemma_obj_wf_widen(entries[i].1, n, m);
            }
        },
        _ => {},
    }
}

/// A value list well formed for `n` scopes is well formed for any
/// larger arena.
pub proof fn lemma_objs_wf_widen(os: Seq<ObjV>, n: int, m: int)
    requires
        objs_wf(os, n),
        n <= m,
    ensures
        objs_wf(os, m),
{
    lemma_objs_wf(os, n);
    lemma_objs_wf(os, m);
    assert forall|i: int| 0 <= i < os.len() implies obj_wf(os[i], m) by {
        lemma_obj_wf_widen(os[i], n, m);
    }
}

/// An entry list well formed for `n` scopes is well formed for any
/// larger arena.
pub proof fn lemma_entries_wf_widen(es: Seq<(HashKeyV, ObjV)>, n: int, m: int)
    requires
        entries_wf(es, n),
        n <= m,
    ensures
        entries_wf(es, m),
{
    lemma_entries_wf(es, n);
    lemma_entries_wf(es, m);
    assert forall|i: int| 0 <= i < es.len() implies obj_wf(es[i].1, m) by {
        lemma_obj_wf_widen(es[i].1, n, m);
    }
}

/// The hash key a value yields, if it is hashable.
pub open spec fn to_key_spec(o: ObjV) -> Option<HashKeyV> {
    match o {
        ObjV::Int(i) => Some(HashKeyV::Int(i)),
        ObjV::Bool(b) => Some(HashKeyV::Bool(b)),
        ObjV::Str(s) => Some(HashKeyV::Str(s)),
        _ => None,
    }
}

/// The hash key a value yields: only integers, booleans and strings
/// are hashable.
pub fn to_hash_key(o: &Object) -> (r: Option<HashKey>)
    ensures
        match r {
            Some(k) => to_key_spec(obj_view(*o)) == Some(key_view(k)),
            None => to_key_spec(obj_view(*o)) is None,
        },
{
    match o {
        Object::Integer(i) => Some(HashKey::Integer(*i)),
        Object::Boolean(b) => Some(HashKey::Boolean(*b)),
        Object::String(s) => Some(HashKey::String(s.clone())),
        _ => None,
    }
}

impl Clone for HashKey {
    /// A clone has the same model as the original.
    fn clone(&self) -> (res: Self)
        ensures
            key_view(res) == key_view(*self),
    {
        match self {
            HashKey::Integer(i) => HashKey::Integer(*i),
            HashKey::Boolean(b) => HashKey::Boolean(*b),
            HashKey::String(s) => HashKey::String(s.clone()),
        }
    }
}

/// Whether two hash keys are the same key.
pub fn key_eq(a: &HashKey, b: &HashKey) -> (r: bool)
    ensures
        r == (key_view(*a) == key_view(*b)),
{
    match (a, b) {
        (HashKey::Integer(x), HashKey::Integer(y)) => *x == *y,
        (HashKey::Boolean(x), HashKey::Boolean(y)) => *x == *y,
        (HashKey::String(x), HashKey::String(y)) => *x == *y,
        _ => false,
    }
}

/// Clones a value list; the model is unchanged.
pub fn clone_objects(os: &Vec<Object>) -> (res: Vec<Object>)
    ensures
        objs_view(res@) == objs_view(os@),
    decreases os,
{
    let mut res: Vec<Object> = Vec::new();
    let mut i: usize = 0;
    while i < os.len()
        invariant
            i <= os.len(),
            res@.len() == i,
            forall|j: int| 0 <= j < i ==> obj_view(res@[j]) == obj_view(os@[j]),
        decreases os.len() - i,
    {
        res.push(os[i].clone());
        i += 1;
    }
    proof {
        lemma_objs_view(res@);
        lemma_objs_view(os@);
        assert(objs_view(res@) =~= objs_view(os@));
    }
    res
}

/// Clones a hash's entry list; the model is unchanged.
pub fn clone_entries(es: &Vec<(HashKey, Object)>) -> (res: Vec<(HashKey, Object)>)
    ensures
        entries_view(res@) == entries_view(es@),
    decreases es,
{
    let mut res: Vec<(HashKey, Object)> = Vec::new();
    let mut i: usize = 0;
    while i < es.len()
        invariant
            i <= es.len(),
            res@.len() == i,
            forall|j: int|
                0 <= j < i ==> key_view(res@[j].0) == key_view(es@[j].0) && obj_view(res@[j].1)
                    == obj_view(es@[j].1),
        decreases es.len() - i,
    {
        let entry = &es[i];
        res.push((entry.0.clone(), entry.1.clone()));
        i += 1;
    }
    proof {
        lemma_entries_view(res@);
        lemma_entries_view(es@);
        assert(entries_view(res@) =~= entries_view(es@));
    }
    res
}

impl Clone for Object {
    /// A clone has the same model as the original.
    fn clone(&self) -> (res: Self)
        ensures
            obj_view(res) == obj_view(*self),
        decreases self,
    {
        match self {
            Object::Null => Object::Null,
            Object::Integer(i) => Object::Integer(*i),
            Object::Boolean(b) => Object::Boolean(*b),
            Object::String(s) => Object::String(s.clone()),
            Object::ReturnValue(inner) => Object::ReturnValue(Box::new((&**inner).clone())),
            Object::Function { parameters, body, env } => Object::Function {
                parameters: clone_params(parameters),
                body: clone_block(body),
                env: *env,
            },
            Object::Array(elements) => Object::Array(clone_objects(elements)),
            Object::Hash(entries) => Object::Hash(clone_entries(entries)),
        }
    }
}

/// The rendering of a hash key, as the value it came from.
pub open spec fn render_key_v(k: HashKeyV) -> Seq<char> {
    match k {
        HashKeyV::Int(i) => int_rep(i as int),
        HashKeyV::Bool(b) => if b {
            "true"@
        } else {
            "false"@
        },
        HashKeyV::Str(s) => s,
    }
}

/// The rendering of a runtime value, used by the shell and by error
/// messages.
pub open spec fn render_obj_v(o: ObjV) -> Seq<char>
    decreases o,
{
    match o {
        ObjV::Null => "null"@,
        ObjV::Int(i) => int_rep(i as int),
        ObjV::Bool(b) => if b {
            "true"@
        } else {
            "false"@
        },
        ObjV::Str(s) => s,
        ObjV::Return(inner) => render_obj_v(*inner),
        ObjV::Func { params, body, env } => "Function"@,
        ObjV::Arr(elements) => "["@ + render_objs_v(elements) + "]"@,
        ObjV::Hash(entries) => "{"@ + render_entries_v(entries) + "}"@,
    }
}

/// Array elements joined by a comma and a space.
pub open spec fn render_objs_v(os: Seq<ObjV>) -> Seq<char>
    decreases os,
{
    if os.len() == 0 {
        Seq::empty()
    } else if os.len() == 1 {
        render_obj_v(os.last())
    } else {
        render_objs_v(os.drop_last()) + ", "@ + render_obj_v(os.last())
    }
}

/// Hash entries as `key: value`, joined by a comma.
pub open spec fn render_entries_v(es: Seq<(HashKeyV, ObjV)>) -> Seq<char>
    decreases es,
{
    if es.len() == 0 {
        Seq::empty()
    } else if es.len() == 1 {
        render_key_v(es.last().0) + ": "@ + render_obj_v(es.last().1)
    } else {
        render_entries_v(es.drop_last()) + ","@ + render_key_v(es.last().0) + ": "@
            + render_obj_v(es.last().1)
    }
}

/// The rendering of a hash key.
pub fn render_key(k: &HashKey) -> (s: String)
    ensures
        s@ == render_key_v(key_view(*k)),
{
    match k {
        HashKey::Integer(i) => render_i64(*i),
        HashKey::Boolean(b) => {
            let mut s = String::new();
            if *b {
                s.append("true");
            } else {
                s.append("false");
            }
            proof {
                assert(s@ =~= render_key_v(key_view(*k)));
            }
            s
        },
        HashKey::String(text) => {
            let mut s = String::new();
            s.append(text.as_str());
            proof {
                assert(s@ =~= render_key_v(key_view(*k)));
            }
            s
        },
    }
}

impl Object {
    /// The textual rendering of this value.
    pub fn render(&self) -> (s: String)
        ensures
            s@ == render_obj_v(obj_view(*self)),
        decreases self,
    {
        match self {
            Object::Null => {
                let mut s = String::new();
                s.append("null");
                proof {
                    assert(s@ =~= render_obj_v(obj_view(*self)));
                }
                s
            },
            Object::Integer(i) => render_i64(*i),
            Object::Boolean(b) => {
                let mut s = String::new();
                if *b {
                    s.append("true");
                } else {
                    s.append("false");
                }
                proof {
                    assert(s@ =~= render_obj_v(obj_view(*self)));
                }
                s
            },
            Object::String(text) => {
                let mut s = String::new();
                s.append(text.as_str());
                proof {
                    assert(s@ =~= render_obj_v(obj_view(*self)));
                }
                s
            },
            Object::ReturnValue(inner) => inner.render(),
            Object::Function { parameters, body, env } => {
                let mut s = String::new();
                s.append("Function");
                proof {
                    assert(s@ =~= render_obj_v(obj_view(*self)));
                }
                s
            },
            Object::Array(elements) => {
                let mut s = String::new();
                s.append("[");
                let items = render_array_items(elements);
                s.append(items.as_str());
                s.append("]");
                proof {
                    assert(s@ =~= render_obj_v(obj_view(*self)));
                }
                s
            },
            Object::Hash(entries) => {
                let mut s = String::new();
                s.append("{");
                let items = render_hash_items(entries);
                s.append(items.as_str());
                s.append("}");
                proof {
                    assert(s@ =~= render_obj_v(obj_view(*self)));
                }
                s
            },
        }
    }
}

/// Array elements joined by a comma and a space.
fn render_array_items(elements: &Vec<Object>) -> (s: String)
    ensures
        s@ == render_objs_v(objs_view(elements@)),
    decreases elements,
{
    let ghost model = objs_view(elements@);
    proof {
        lemma_objs_view(elements@);
    }
    let mut s = String::new();
    let mut i: usize = 0;
    while i < elements.len()
        invariant
            i <= elements@.len(),
            model == objs_view(elements@),
            model.len() == elements@.len(),
            forall|j: int| 0 <= j < elements@.len() ==> model[j] == obj_view(elements@[j]),
            s@ == render_objs_v(model.subrange(0, i as int)),
        decreases elements.len() - i,
    {
        if i > 0 {
            s.append(", ");
        }
        let r = elements[i].render();
        s.append(r.as_str());
        proof {
            assert(model.subrange(0, i + 1 as int).drop_last() =~= model.subrange(0, i as int));
            assert(s@ =~= render_objs_v(model.subrange(0, i + 1 as int)));
        }
        i += 1;
    }
    proof {
        assert(model.subrange(0, model.len() as int) =~= model);
    }
    s
}

/// Hash entries as `key: value`, joined by a comma.
fn render_hash_items(entries: &Vec<(HashKey, Object)>) -> (s: String)
    ensures
        s@ == render_entries_v(entries_view(entries@)),
    decreases entries,
{
    let ghost model = entries_view(entries@);
    proof {
        lemma_entries_view(entries@);
    }
    let mut s = String::new();
    let mut i: usize = 0;
    while i < entries.len()
        invariant
            i <= entries@.len(),
            model == entries_view(entries@),
            model.len() == entries@.len(),
            forall|j: int|
                0 <= j < entries@.len() ==> model[j] == (
                    key_view(entries@[j].0),
                    obj_view(entries@[j].1),
                ),
            s@ == render_entries_v(model.subrange(0, i as int)),
        decreases entries.len() - i,
    {
        if i > 0 {
            s.append(",");
        }
        let k = render_key(&entries[i].0);
        s.append(k.as_str());
        s.append(": ");
        let v = entries[i].1.render();
        s.append(v.as_str());
        proof {
            assert(model.subrange(0, i + 1 as int).drop_last() =~= model.subrange(0, i as int));
            assert(s@ =~= render_entries_v(model.subrange(0, i + 1 as int)));
        }
        i += 1;
    }
    proof {
        assert(model.subrange(0, model.len() as int) =~= model);
    }
    s
}

/// A recoverable evaluation failure. Every failure the evaluator can
/// produce is one of these; none aborts the session.
#[derive(Debug, PartialEq, Eq)]
pub enum EvalError {
    /// A prefix operator applied to a value its type does not support.
    UnknownPrefixOperator { operator: PrefixOperator, right: Object },
    /// An infix operator applied to two values of different types.
    TypeMismatch { left: Object, operator: InfixOperator, right: Object },
    /// An infix operator the operands' shared type does not support.
    UnknownInfixOperator { left: Object, operator: InfixOperator, right: Object },
    /// A name with no binding anywhere along the scope chain.
    IdentifierNotFound { name: String },
    /// A call whose callee evaluated to something other than a function.
    NotAFunction { value: Object },
    /// An index applied to a value that is neither an array nor a hash.
    IndexNotSupported { value: Object },
    /// A hash literal key that evaluated to an unhashable value.
    UnhashableKey { key: Object },
    /// An integer division with a zero divisor.
    DivisionByZero,
    /// An integer operation whose result does not fit in 64 bits.
    IntegerOverflow,
    /// A call with a different number of arguments than parameters.
    WrongArgumentCount { expected: usize, actual: usize },
    /// The evaluation step budget ran out; stands in for the unbounded
    /// recursion the language otherwise permits.
    BudgetExhausted,
}

/// The mathematical model of an evaluation failure.
pub enum ErrV {
    UnknownPrefix { op: PrefixOperator, right: ObjV },
    TypeMismatch { left: ObjV, op: InfixOperator, right: ObjV },
    UnknownInfix { left: ObjV, op: InfixOperator, right: ObjV },
    IdentNotFound(Seq<char>),
    NotAFunction(ObjV),
    IndexNotSupported(ObjV),
    UnhashableKey(ObjV),
    DivisionByZero,
    IntegerOverflow,
    WrongArgCount { expected: int, actual: int },
    BudgetExhausted,
}

/// The model of an evaluation failure.
pub open spec fn err_view(e: EvalError) -> ErrV {
    match e {
        EvalError::UnknownPrefixOperator { operator, right } => ErrV::UnknownPrefix {
            op: operator,
            right: obj_view(right),
        },
        EvalError::TypeMismatch { left, operator, right } => ErrV::TypeMismatch {
            left: obj_view(left),
            op: operator,
            right: obj_view(right),
        },
        EvalError::UnknownInfixOperator { left, operator, right } => ErrV::UnknownInfix {
            left: obj_view(left),
            op: operator,
            right: obj_view(right),
        },
        EvalError::IdentifierNotFound { name } => ErrV::IdentNotFound(name@),
        EvalError::NotAFunction { value } => ErrV::NotAFunction(obj_view(value)),
        EvalError::IndexNotSupported { value } => ErrV::IndexNotSupported(obj_view(value)),
        EvalError::UnhashableKey { key } => ErrV::UnhashableKey(obj_view(key)),
        EvalError::DivisionByZero => ErrV::DivisionByZero,
        EvalError::IntegerOverflow => ErrV::IntegerOverflow,
        EvalError::WrongArgumentCount { expected, actual } => ErrV::WrongArgCount {
            expected: expected as int,
            actual: actual as int,
        },
        EvalError::BudgetExhausted => ErrV::BudgetExhausted,
    }
}

/// The message a failure carries, as the shell prints it.
pub open spec fn err_message_v(e: ErrV) -> Seq<char> {
    match e {
        ErrV::UnknownPrefix { op, right } => "unknown operator: "@ + prefix_op_rep(op)
            + render_obj_v(right),
        ErrV::TypeMismatch { left, op, right } => "type mismatch: "@ + render_obj_v(left) + " "@
            + infix_op_rep(op) + " "@ + render_obj_v(right),
        ErrV::UnknownInfix { left, op, right } => "unknown operator: "@ + render_obj_v(left) + " "@
            + infix_op_rep(op) + " "@ + render_obj_v(right),
        ErrV::IdentNotFound(name) => "identifier not found: "@ + name,
        ErrV::NotAFunction(value) => "not a function: "@ + render_obj_v(value),
        ErrV::IndexNotSupported(value) => "index operator not supported: "@ + render_obj_v(value),
        ErrV::UnhashableKey(key) => "unhashable type: "@ + render_obj_v(key),
        ErrV::DivisionByZero => "division by zero"@,
        ErrV::IntegerOverflow => "integer overflow"@,
        ErrV::WrongArgCount { expected, actual } => "wrong number of arguments: expected "@
            + int_rep(expected) + ", got "@ + int_rep(actual),
        ErrV::BudgetExhausted => "evaluation budget exhausted"@,
    }
}

impl EvalError {
    /// The message this failure carries, as the shell prints it.
    pub fn message(&self) -> (s: String)
        ensures
            s@ == err_message_v(err_view(*self)),
    {
        match self {
            EvalError::UnknownPrefixOperator { operator, right } => {
                let mut s = String::new();
                s.append("unknown operator: ");
                match operator {
                    PrefixOperator::Bang => s.append("!"),
                    PrefixOperator::Minus => s.append("-"),
                }
                let r = right.render();
                s.append(r.as_str());
                proof {
                    assert(s@ =~= err_message_v(err_view(*self)));
                }
                s
            },
            EvalError::TypeMismatch { left, operator, right } => {
                let mut s = String::new();
                s.append("type mismatch: ");
                let l = left.render();
                s.append(l.as_str());
                s.append(" ");
                append_infix_op(&mut s, operator);
                s.append(" ");
                let r = right.render();
                s.append(r.as_str());
                proof {
                    assert(s@ =~= err_message_v(err_view(*self)));
                }
                s
            },
            EvalError::UnknownInfixOperator { left, operator, right } => {
                let mut s = String::new();
                s.append("unknown operator: ");
                let l = left.render();
                s.append(l.as_str());
                s.append(" ");
                append_infix_op(&mut s, operator);
                s.append(" ");
                let r = right.render();
                s.append(r.as_str());
                proof {
                    assert(s@ =~= err_message_v(err_view(*self)));
                }
                s
            },
            EvalError::IdentifierNotFound { name } => {
                let mut s = String::new();
                s.append("identifier not found: ");
                s.append(name.as_str());
                proof {
                    assert(s@ =~= err_message_v(err_view(*self)));
                }
                s
            },
            EvalError::NotAFunction { value } => {
                let mut s = String::new();
                s.append("not a function: ");
                let r = value.render();
                s.append(r.as_str());
                proof {
                    assert(s@ =~= err_message_v(err_view(*self)));
                }
                s
            },
            EvalError::IndexNotSupported { value } => {
                let mut s = String::new();
                s.append("index operator not supported: ");
                let r = value.render();
                s.append(r.as_str());
                proof {
                    assert(s@ =~= err_message_v(err_view(*self)));
                }
                s
            },
            EvalError::UnhashableKey { key } => {
                let mut s = String::new();
                s.append("unhashable type: ");
                let r = key.render();
                s.append(r.as_str());
                proof {
                    assert(s@ =~= err_message_v(err_view(*self)));
                }
                s
            },
            EvalError::DivisionByZero => {
                let mut s = String::new();
                s.append("division by zero");
                proof {
                    assert(s@ =~= err_message_v(err_view(*self)));
                }
                s
            },
            EvalError::IntegerOverflow => {
                let mut s = String::new();
                s.append("integer overflow");
                proof {
                    assert(s@ =~= err_message_v(err_view(*self)));
                }
                s
            },
            EvalError::WrongArgumentCount { expected, actual } => {
                let mut s = String::new();
                s.append("wrong number of arguments: expected ");
                let e = crate::text::render_u64(*expected as u64);
                s.append(e.as_str());
                s.append(", got ");
                let a = crate::text::render_u64(*actual as u64);
                s.append(a.as_str());
                proof {
                    assert(s@ =~= err_message_v(err_view(*self)));
                }
                s
            },
            EvalError::BudgetExhausted => {
                let mut s = String::new();
                s.append("evaluation budget exhausted");
                proof {
                    assert(s@ =~= err_message_v(err_view(*self)));
                }
                s
            },
        }
    }
}

/// Appends an infix operator's text.
fn append_infix_op(s: &mut String, op: &InfixOperator)
    ensures
        final(s)@ == old(s)@ + infix_op_rep(*op),
{
    match op {
        InfixOperator::Plus => s.append("+"),
        InfixOperator::Minus => s.append("-"),
        InfixOperator::Asterisk => s.append("*"),
        InfixOperator::Slash => s.append("/"),
        InfixOperator::Lt => s.append("<"),
        InfixOperator::Gt => s.append(">"),
        InfixOperator::Eq => s.append("=="),
        InfixOperator::NotEq => s.append("!="),
    }
}

} // verus!
