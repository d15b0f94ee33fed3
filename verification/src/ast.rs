//! The closed set of statement and expression node shapes, their
//! mathematical model, and the canonical textual rendering.

use crate::text::{int_rep, render_i64};
use vstd::prelude::*;
use vstd::string::StringExecFns;

verus! {

/// A parsed top-level program: an ordered sequence of statements.
pub type Program = Vec<Statement>;

/// The name bound by a `let` statement or referenced by an identifier
/// expression.
pub type Identifier = String;

/// An ordered sequence of statements delimited by braces in the source.
pub type BlockStatement = Vec<Statement>;

/// The root of anything the evaluator can be handed.
pub enum Node {
    Program(Program),
}

/// A statement: a `let` binding, a `return`, or a bare expression.
#[derive(Debug, PartialEq, Eq)]
pub enum Statement {
    LetStatement { name: Identifier, value: Expression },
    Return { return_value: Expression },
    Expression { expression: Expression },
}

/// An expression node. Nodes are immutable and each child is owned
/// exclusively by its parent: a pure tree.
#[derive(Debug, PartialEq, Eq)]
pub enum Expression {
    Identifier(Identifier),
    Boolean(bool),
    IntegerLiteral(i64),
    PrefixExpression { operator: PrefixOperator, right: Box<Expression> },
    InfixExpression { left: Box<Expression>, operator: InfixOperator, right: Box<Expression> },
    IfExpression {
        condition: Box<Expression>,
        consequence: BlockStatement,
        alternative: Option<BlockStatement>,
    },
    FunctionLiteral { parameters: Vec<Identifier>, body: BlockStatement },
    CallExpression { function: Box<Expression>, arguments: Vec<Expression> },
    StringLiteral(String),
    ArrayLiteral(Vec<Expression>),
    IndexExpression { left: Box<Expression>, index: Box<Expression> },
    HashLiteral(Vec<HashPair>),
}

/// One `key : value` entry of a hash literal, in input order.
#[derive(Debug, PartialEq, Eq)]
pub struct HashPair {
    pub key: Expression,
    pub value: Expression,
}

/// A binary operator of an infix expression.
#[derive(Debug, Clone, Copy, PartialEq, Eq, Structural)]
pub enum InfixOperator {
    Plus,
    Minus,
    Asterisk,
    Slash,
    Lt,
    Gt,
    Eq,
    NotEq,
}

/// A unary operator of a prefix expression.
#[derive(Debug, Clone, Copy, PartialEq, Eq, Structural)]
pub enum PrefixOperator {
    Bang,
    Minus,
}

/// Binding strength of an operator position, low to high. The parser
/// extends an expression only while the peeked token binds more tightly
/// than the level it was called at.
#[derive(Debug, Clone, Copy, PartialEq, Eq, Structural)]
pub enum Precedence {
    Lowest,
    Equals,
    LessGreater,
    Sum,
    Product,
    Prefix,
    Call,
    Index,
}

/// The numeric rank of a precedence level, used to compare levels.
pub open spec fn precedence_rank(p: Precedence) -> nat {
    match p {
        Precedence::Lowest => 0,
        Precedence::Equals => 1,
        Precedence::LessGreater => 2,
        Precedence::Sum => 3,
        Precedence::Product => 4,
        Precedence::Prefix => 5,
        Precedence::Call => 6,
        Precedence::Index => 7,
    }
}

impl Precedence {
    /// The numeric rank of this level.
    pub fn rank(self) -> (r: u8)
        ensures
            r as nat == precedence_rank(self),
    {
        match self {
            Precedence::Lowest => 0,
            Precedence::Equals => 1,
            Precedence::LessGreater => 2,
            Precedence::Sum => 3,
            Precedence::Product => 4,
            Precedence::Prefix => 5,
            Precedence::Call => 6,
            Precedence::Index => 7,
        }
    }

    /// Whether this level binds strictly less tightly than `other`.
    pub fn binds_less_than(self, other: Precedence) -> (r: bool)
        ensures
            r == (precedence_rank(self) < precedence_rank(other)),
    {
        self.rank() < other.rank()
    }
}

/// The mathematical model of an expression: text as character sequences,
/// lists as sequences.
pub enum ExprV {
    Ident(Seq<char>),
    Bool(bool),
    Int(i64),
    Str(Seq<char>),
    Prefix { op: PrefixOperator, right: Box<ExprV> },
    Infix { left: Box<ExprV>, op: InfixOperator, right: Box<ExprV> },
    If { cond: Box<ExprV>, cons: Seq<StmtV>, alt: Option<Seq<StmtV>> },
    Func { params: Seq<Seq<char>>, body: Seq<StmtV> },
    Call { func: Box<ExprV>, args: Seq<ExprV> },
    Arr(Seq<ExprV>),
    Index { left: Box<ExprV>, index: Box<ExprV> },
    Hash(Seq<(ExprV, ExprV)>),
}

/// The mathematical model of a statement.
pub enum StmtV {
    Let { name: Seq<char>, value: ExprV },
    Return(ExprV),
    Expr(ExprV),
}

/// The model of an expression node.
pub open spec fn expr_view(e: Expression) -> ExprV
    decreases e,
{
    match e {
        Expression::Identifier(name) => ExprV::Ident(name@),
        Expression::Boolean(b) => ExprV::Bool(b),
        Expression::IntegerLiteral(i) => ExprV::Int(i),
        Expression::StringLiteral(s) => ExprV::Str(s@),
        Expression::PrefixExpression { operator, right } => ExprV::Prefix {
            op: operator,
            right: Box::new(expr_view(*right)),
        },
        Expression::InfixExpression { left, operator, right } => ExprV::Infix {
            left: Box::new(expr_view(*left)),
            op: operator,
            right: Box::new(expr_view(*right)),
        },
        Expression::IfExpression { condition, consequence, alternative } => ExprV::If {
            cond: Box::new(expr_view(*condition)),
            cons: block_view(consequence@),
            alt: match alternative {
                Some(alt) => Some(block_view(alt@)),
                None => None,
            },
        },
        Expression::FunctionLiteral { parameters, body } => ExprV::Func {
            params: params_view(parameters@),
            body: block_view(body@),
        },
        Expression::CallExpression { function, arguments } => ExprV::Call {
            func: Box::new(expr_view(*function)),
            args: exprs_view(arguments@),
        },
        Expression::ArrayLiteral(elements) => ExprV::Arr(exprs_view(elements@)),
        Expression::IndexExpression { left, index } => ExprV::Index {
            left: Box::new(expr_view(*left)),
            index: Box::new(expr_view(*index)),
        },
        Expression::HashLiteral(pairs) => ExprV::Hash(pairs_view(pairs@)),
    }
}

/// The model of a statement node.
pub open spec fn stmt_view(s: Statement) -> StmtV
    decreases s,
{
    match s {
        Statement::LetStatement { name, value } => StmtV::Let {
            name: name@,
            value: expr_view(value),
        },
        Statement::Return { return_value } => StmtV::Return(expr_view(return_value)),
        Statement::Expression { expression } => StmtV::Expr(expr_view(expression)),
    }
}

/// The model of a sequence of statements, element by element.
pub open spec fn block_view(b: Seq<Statement>) -> Seq<StmtV>
    decreases b,
{
    if b.len() == 0 {
        Seq::empty()
    } else {
        block_view(b.drop_last()).push(stmt_view(b.last()))
    }
}

/// The model of a sequence of expressions, element by element.
pub open spec fn exprs_view(es: Seq<Expression>) -> Seq<ExprV>
    decreases es,
{
    if es.len() == 0 {
        Seq::empty()
    } else {
        exprs_view(es.drop_last()).push(expr_view(es.last()))
    }
}

/// The model of a parameter-name list, element by element.
pub open spec fn params_view(ps: Seq<Identifier>) -> Seq<Seq<char>> {
    Seq::new(ps.len(), |i: int| ps[i]@)
}

/// The model of a hash literal's entry list, in input order.
pub open spec fn pairs_view(ps: Seq<HashPair>) -> Seq<(ExprV, ExprV)>
    decreases ps,
{
    if ps.len() == 0 {
        Seq::empty()
    } else {
        pairs_view(ps.drop_last()).push(
            (expr_view(ps.last().key), expr_view(ps.last().value)),
        )
    }
}

/// A block's model has one statement model per statement, in order.
pub broadcast proof fn lemma_block_view(b: Seq<Statement>)
    ensures
        (#[trigger] block_view(b)).len() == b.len(),
        forall|i: int| 0 <= i < b.len() ==> block_view(b)[i] == stmt_view(b[i]),
    decreases b,
{
    if b.len() > 0 {
        lemma_block_view(b.drop_last());
    }
}

/// An expression list's model has one expression model per element, in order.
pub broadcast proof fn lemma_exprs_view(es: Seq<Expression>)
    ensures
        (#[trigger] exprs_view(es)).len() == es.len(),
        forall|i: int| 0 <= i < es.len() ==> exprs_view(es)[i] == expr_view(es[i]),
    decreases es,
{
    if es.len() > 0 {
        lemma_exprs_view(es.drop_last());
    }
}

/// A hash entry list's model pairs each key's model with its value's model.
pub broadcast proof fn lemma_pairs_view(ps: Seq<HashPair>)
    ensures
        (#[trigger] pairs_view(ps)).len() == ps.len(),
        forall|i: int|
            0 <= i < ps.len() ==> pairs_view(ps)[i] == (
                expr_view(ps[i].key),
                expr_view(ps[i].value),
            ),
    decreases ps,
{
    if ps.len() > 0 {
        lemma_pairs_view(ps.drop_last());
    }
}

/// Clones a parameter-name list; the model is unchanged.
pub fn clone_params(ps: &Vec<Identifier>) -> (res: Vec<Identifier>)
    ensures
        params_view(res@) == params_view(ps@),
{
    let mut res: Vec<Identifier> = Vec::new();
    let mut i: usize = 0;
    while i < ps.len()
        invariant
            i <= ps.len(),
            res@.len() == i,
            forall|j: int| 0 <= j < i ==> res@[j]@ == ps@[j]@,
        decreases ps.len() - i,
    {
        res.push(ps[i].clone());
        i += 1;
    }
    proof {
        assert(params_view(res@) =~= params_view(ps@));
    }
    res
}

/// Clones a statement block; the model is unchanged.
pub fn clone_block(b: &Vec<Statement>) -> (res: Vec<Statement>)
    ensures
        block_view(res@) == block_view(b@),
    decreases b,
{
    let mut res: Vec<Statement> = Vec::new();
    let mut i: usize = 0;
    while i < b.len()
        invariant
            i <= b.len(),
            res@.len() == i,
            forall|j: int| 0 <= j < i ==> stmt_view(res@[j]) == stmt_view(b@[j]),
        decreases b.len() - i,
    {
        res.push(b[i].clone());
        i += 1;
    }
    proof {
        lemma_block_view(res@);
        lemma_block_view(b@);
        assert(block_view(res@) =~= block_view(b@));
    }
    res
}

/// Clones an expression list; the model is unchanged.
pub fn clone_exprs(es: &Vec<Expression>) -> (res: Vec<Expression>)
    ensures
        exprs_view(res@) == exprs_view(es@),
    decreases es,
{
    let mut res: Vec<Expression> = Vec::new();
    let mut i: usize = 0;
    while i < es.len()
        invariant
            i <= es.len(),
            res@.len() == i,
            forall|j: int| 0 <= j < i ==> expr_view(res@[j]) == expr_view(es@[j]),
        decreases es.len() - i,
    {
        res.push(es[i].clone());
        i += 1;
    }
    proof {
        lemma_exprs_view(res@);
        lemma_exprs_view(es@);
        assert(exprs_view(res@) =~= exprs_view(es@));
    }
    res
}

/// Clones a hash literal's entry list; the model is unchanged.
pub fn clone_pairs(ps: &Vec<HashPair>) -> (res: Vec<HashPair>)
    ensures
        pairs_view(res@) == pairs_view(ps@),
    decreases ps,
{
    let mut res: Vec<HashPair> = Vec::new();
    let mut i: usize = 0;
    while i < ps.len()
        invariant
            i <= ps.len(),
            res@.len() == i,
            forall|j: int|
                0 <= j < i ==> expr_view(res@[j].key) == expr_view(ps@[j].key) && expr_view(
                    res@[j].value,
                ) == expr_view(ps@[j].value),
        decreases ps.len() - i,
    {
        res.push(ps[i].clone());
        i += 1;
    }
    proof {
        lemma_pairs_view(res@);
        lemma_pairs_view(ps@);
        assert(pairs_view(res@) =~= pairs_view(ps@));
    }
    res
}

/// The canonical text of a prefix operator.
pub open spec fn prefix_op_rep(op: PrefixOperator) -> Seq<char> {
    match op {
        PrefixOperator::Bang => "!"@,
        PrefixOperator::Minus => "-"@,
    }
}

/// The canonical text of an infix operator.
pub open spec fn infix_op_rep(op: InfixOperator) -> Seq<char> {
    match op {
        InfixOperator::Plus => "+"@,
        InfixOperator::Minus => "-"@,
        InfixOperator::Asterisk => "*"@,
        InfixOperator::Slash => "/"@,
        InfixOperator::Lt => "<"@,
        InfixOperator::Gt => ">"@,
        InfixOperator::Eq => "=="@,
        InfixOperator::NotEq => "!="@,
    }
}

/// The canonical rendering of an expression: prefix and infix
/// expressions are fully parenthesized.
pub open spec fn render_expr_v(e: ExprV) -> Seq<char>
    decreases e,
{
    match e {
        ExprV::Ident(name) => name,
        ExprV::Bool(b) => if b {
            "true"@
        } else {
            "false"@
        },
        ExprV::Int(i) => int_rep(i as int),
        ExprV::Str(s) => s,
        ExprV::Prefix { op, right } => "("@ + prefix_op_rep(op) + render_expr_v(*right) + ")"@,
        ExprV::Infix { left, op, right } => "("@ + render_expr_v(*left) + " "@ + infix_op_rep(op)
            + " "@ + render_expr_v(*right) + ")"@,
        ExprV::If { cond, cons, alt } => match alt {
            Some(a) => "if "@ + render_expr_v(*cond) + " "@ + render_block_v(cons) + " else "@
                + render_block_v(a),
            None => "if "@ + render_expr_v(*cond) + " "@ + render_block_v(cons),
        },
        ExprV::Func { params, body } => "fn("@ + render_params_v(params) + ") "@ + render_block_v(
            body,
        ),
        ExprV::Call { func, args } => render_expr_v(*func) + "("@ + render_args_v(args) + ")"@,
        ExprV::Arr(elements) => "["@ + render_args_v(elements) + "]"@,
        ExprV::Index { left, index } => "("@ + render_expr_v(*left) + "["@ + render_expr_v(*index)
            + "])"@,
        ExprV::Hash(pairs) => "{"@ + render_pairs_v(pairs) + "}"@,
    }
}

/// The canonical rendering of a statement.
pub open spec fn render_stmt_v(s: StmtV) -> Seq<char>
    decreases s,
{
    match s {
        StmtV::Let { name, value } => "let "@ + name + " = "@ + render_expr_v(value) + ";"@,
        StmtV::Return(value) => "return "@ + render_expr_v(value) + ";"@,
        StmtV::Expr(value) => render_expr_v(value),
    }
}

/// Statements of a block joined by a comma and a space.
pub open spec fn render_block_v(ss: Seq<StmtV>) -> Seq<char>
    decreases ss,
{
    if ss.len() == 0 {
        Seq::empty()
    } else if ss.len() == 1 {
        render_stmt_v(ss.last())
    } else {
        render_block_v(ss.drop_last()) + ", "@ + render_stmt_v(ss.last())
    }
}

/// Parameter names joined by a comma and a space.
pub open spec fn render_params_v(ps: Seq<Seq<char>>) -> Seq<char>
    decreases ps,
{
    if ps.len() == 0 {
        Seq::empty()
    } else if ps.len() == 1 {
        ps.last()
    } else {
        render_params_v(ps.drop_last()) + ", "@ + ps.last()
    }
}

/// Call arguments or array elements, each preceded by a space.
pub open spec fn render_args_v(es: Seq<ExprV>) -> Seq<char>
    decreases es,
{
    if es.len() == 0 {
        Seq::empty()
    } else {
        render_args_v(es.drop_last()) + " "@ + render_expr_v(es.last())
    }
}

/// Hash entries, each as `key: value, `.
pub open spec fn render_pairs_v(ps: Seq<(ExprV, ExprV)>) -> Seq<char>
    decreases ps,
{
    if ps.len() == 0 {
        Seq::empty()
    } else {
        render_pairs_v(ps.drop_last()) + render_expr_v(ps.last().0) + ": "@ + render_expr_v(
            ps.last().1,
        ) + ", "@
    }
}

impl Statement {
    /// The canonical textual rendering of this statement.
    pub fn render(&self) -> (s: String)
        ensures
            s@ == render_stmt_v(stmt_view(*self)),
        decreases self,
    {
        match self {
            Statement::LetStatement { name, value } => {
                let mut s = String::new();
                s.append("let ");
                s.append(name.as_str());
                s.append(" = ");
                let v = value.render();
                s.append(v.as_str());
                s.append(";");
                proof {
                    assert(s@ =~= render_stmt_v(stmt_view(*self)));
                }
                s
            },
            Statement::Return { return_value } => {
                let mut s = String::new();
                s.append("return ");
                let v = return_value.render();
                s.append(v.as_str());
                s.append(";");
                proof {
                    assert(s@ =~= render_stmt_v(stmt_view(*self)));
                }
                s
            },
            Statement::Expression { expression } => expression.render(),
        }
    }
}

/// The statements of a block joined by a comma and a space.
pub fn fmt_statements(b: &Vec<Statement>) -> (s: String)
    ensures
        s@ == render_block_v(block_view(b@)),
    decreases b,
{
    proof {
        lemma_block_view(b@);
    }
    let ghost model = block_view(b@);
    let mut s = String::new();
    let mut i: usize = 0;
    while i < b.len()
        invariant
            i <= b@.len(),
            model == block_view(b@),
            model.len() == b@.len(),
            forall|j: int| 0 <= j < b@.len() ==> model[j] == stmt_view(b@[j]),
            s@ == render_block_v(model.subrange(0, i as int)),
        decreases b.len() - i,
    {
        if i > 0 {
            s.append(", ");
        }
        let r = b[i].render();
        s.append(r.as_str());
        proof {
            assert(model.subrange(0, i + 1 as int).drop_last() =~= model.subrange(0, i as int));
            assert(model.subrange(0, i + 1 as int).last() == model[i as int]);
            if i == 0 {
                assert(s@ =~= render_block_v(model.subrange(0, i + 1 as int)));
            } else {
                assert(s@ =~= render_block_v(model.subrange(0, i + 1 as int)));
            }
        }
        i += 1;
    }
    proof {
        assert(model.subrange(0, model.len() as int) =~= model);
    }
    s
}

/// The parameter names of a function literal joined by a comma and a
/// space.
pub fn fmt_identifiers(ps: &Vec<Identifier>) -> (s: String)
    ensures
        s@ == render_params_v(params_view(ps@)),
{
    let ghost model = params_view(ps@);
    let mut s = String::new();
    let mut i: usize = 0;
    while i < ps.len()
        invariant
            i <= ps@.len(),
            model == params_view(ps@),
            model.len() == ps@.len(),
            forall|j: int| 0 <= j < ps@.len() ==> model[j] == ps@[j]@,
            s@ == render_params_v(model.subrange(0, i as int)),
        decreases ps.len() - i,
    {
        if i > 0 {
            s.append(", ");
        }
        s.append(ps[i].as_str());
        proof {
            assert(model.subrange(0, i + 1 as int).drop_last() =~= model.subrange(0, i as int));
            assert(s@ =~= render_params_v(model.subrange(0, i + 1 as int)));
        }
        i += 1;
    }
    proof {
        assert(model.subrange(0, model.len() as int) =~= model);
    }
    s
}

/// Call arguments or array elements, each preceded by a space.
fn fmt_expressions(es: &Vec<Expression>) -> (s: String)
    ensures
        s@ == render_args_v(exprs_view(es@)),
    decreases es,
{
    proof {
        lemma_exprs_view(es@);
    }
    let ghost model = exprs_view(es@);
    let mut s = String::new();
    let mut i: usize = 0;
    while i < es.len()
        invariant
            i <= es@.len(),
            model == exprs_view(es@),
            model.len() == es@.len(),
            forall|j: int| 0 <= j < es@.len() ==> model[j] == expr_view(es@[j]),
            s@ == render_args_v(model.subrange(0, i as int)),
        decreases es.len() - i,
    {
        s.append(" ");
        let r = es[i].render();
        s.append(r.as_str());
        proof {
            assert(model.subrange(0, i + 1 as int).drop_last() =~= model.subrange(0, i as int));
            assert(s@ =~= render_args_v(model.subrange(0, i + 1 as int)));
        }
        i += 1;
    }
    proof {
        assert(model.subrange(0, model.len() as int) =~= model);
    }
    s
}

/// Hash entries, each rendered as `key: value, `.
fn fmt_hash_pairs(ps: &Vec<HashPair>) -> (s: String)
    ensures
        s@ == render_pairs_v(pairs_view(ps@)),
    decreases ps,
{
    proof {
        lemma_pairs_view(ps@);
    }
    let ghost model = pairs_view(ps@);
    let mut s = String::new();
    let mut i: usize = 0;
    while i < ps.len()
        invariant
            i <= ps@.len(),
            model == pairs_view(ps@),
            model.len() == ps@.len(),
            forall|j: int|
                0 <= j < ps@.len() ==> model[j] == (
                    expr_view(ps@[j].key),
                    expr_view(ps@[j].value),
                ),
            s@ == render_pairs_v(model.subrange(0, i as int)),
        decreases ps.len() - i,
    {
        let k = ps[i].key.render();
        s.append(k.as_str());
        s.append(": ");
        let v = ps[i].value.render();
        s.append(v.as_str());
        s.append(", ");
        proof {
            assert(model.subrange(0, i + 1 as int).drop_last() =~= model.subrange(0, i as int));
            assert(s@ =~= render_pairs_v(model.subrange(0, i + 1 as int)));
        }
        i += 1;
    }
    proof {
        assert(model.subrange(0, model.len() as int) =~= model);
    }
    s
}

impl Expression {
    /// The canonical textual rendering of this expression.
    pub fn render(&self) -> (s: String)
        ensures
            s@ == render_expr_v(expr_view(*self)),
        decreases self,
    {
        match self {
            Expression::Identifier(name) => {
                let mut s = String::new();
                s.append(name.as_str());
                proof {
                    assert(s@ =~= render_expr_v(expr_view(*self)));
                }
                s
            },
            Expression::Boolean(b) => {
                let mut s = String::new();
                if *b {
                    s.append("true");
                } else {
                    s.append("false");
                }
                proof {
                    assert(s@ =~= render_expr_v(expr_view(*self)));
                }
                s
            },
            Expression::IntegerLiteral(i) => {
                let s = render_i64(*i);
                s
            },
            Expression::StringLiteral(text) => {
                let mut s = String::new();
                s.append(text.as_str());
                proof {
                    assert(s@ =~= render_expr_v(expr_view(*self)));
                }
                s
            },
            Expression::PrefixExpression { operator, right } => {
                let mut s = String::new();
                s.append("(");
                match operator {
                    PrefixOperator::Bang => s.append("!"),
                    PrefixOperator::Minus => s.append("-"),
                }
                let r = right.render();
                s.append(r.as_str());
                s.append(")");
                proof {
                    assert(s@ =~= render_expr_v(expr_view(*self)));
                }
                s
            },
            Expression::InfixExpression { left, operator, right } => {
                let mut s = String::new();
                s.append("(");
                let l = left.render();
                s.append(l.as_str());
                s.append(" ");
                match operator {
                    InfixOperator::Plus => s.append("+"),
                    InfixOperator::Minus => s.append("-"),
                    InfixOperator::Asterisk => s.append("*"),
                    InfixOperator::Slash => s.append("/"),
                    InfixOperator::Lt => s.append("<"),
                    InfixOperator::Gt => s.append(">"),
                    InfixOperator::Eq => s.append("=="),
                    InfixOperator::NotEq => s.append("!="),
                }
                s.append(" ");
                let r = right.render();
                s.append(r.as_str());
                s.append(")");
                proof {
                    assert(s@ =~= render_expr_v(expr_view(*self)));
                }
                s
            },
            Expression::IfExpression { condition, consequence, alternative } => {
                let mut s = String::new();
                s.append("if ");
                let c = condition.render();
                s.append(c.as_str());
                s.append(" ");
                let cons = fmt_statements(consequence);
                s.append(cons.as_str());
                if let Some(alt) = alternative {
                    s.append(" else ");
                    let a = fmt_statements(alt);
                    s.append(a.as_str());
                }
                proof {
                    assert(s@ =~= render_expr_v(expr_view(*self)));
                }
                s
            },
            Expression::FunctionLiteral { parameters, body } => {
                let mut s = String::new();
                s.append("fn(");
                let p = fmt_identifiers(parameters);
                s.append(p.as_str());
                s.append(") ");
                let b = fmt_statements(body);
                s.append(b.as_str());
                proof {
                    assert(s@ =~= render_expr_v(expr_view(*self)));
                }
                s
            },
            Expression::CallExpression { function, arguments } => {
                let mut s = function.render();
                s.append("(");
                let a = fmt_expressions(arguments);
                s.append(a.as_str());
                s.append(")");
                proof {
                    assert(s@ =~= render_expr_v(expr_view(*self)));
                }
                s
            },
            Expression::ArrayLiteral(elements) => {
                let mut s = String::new();
                s.append("[");
                let e = fmt_expressions(elements);
                s.append(e.as_str());
                s.append("]");
                proof {
                    assert(s@ =~= render_expr_v(expr_view(*self)));
                }
                s
            },
            Expression::IndexExpression { left, index } => {
                let mut s = String::new();
                s.append("(");
                let l = left.render();
                s.append(l.as_str());
                s.append("[");
                let ix = index.render();
                s.append(ix.as_str());
                s.append("])");
                proof {
                    assert(s@ =~= render_expr_v(expr_view(*self)));
                }
                s
            },
            Expression::HashLiteral(pairs) => {
                let mut s = String::new();
                s.append("{");
                let p = fmt_hash_pairs(pairs);
                s.append(p.as_str());
                s.append("}");
                proof {
                    assert(s@ =~= render_expr_v(expr_view(*self)));
                }
                s
            },
        }
    }
}

impl Clone for Statement {
    /// A clone has the same model as the original.
    fn clone(&self) -> (res: Self)
        ensures
            stmt_view(res) == stmt_view(*self),
        decreases self,
    {
        match self {
            Statement::LetStatement { name, value } => Statement::LetStatement {
                name: name.clone(),
                value: value.clone(),
            },
            Statement::Return { return_value } => Statement::Return {
                return_value: return_value.clone(),
            },
            Statement::Expression { expression } => Statement::Expression {
                expression: expression.clone(),
            },
        }
    }
}

impl Clone for Expression {
    /// A clone has the same model as the original.
    fn clone(&self) -> (res: Self)
        ensures
            expr_view(res) == expr_view(*self),
        decreases self,
    {
        match self {
            Expression::Identifier(name) => Expression::Identifier(name.clone()),
            Expression::Boolean(b) => Expression::Boolean(*b),
            Expression::IntegerLiteral(i) => Expression::IntegerLiteral(*i),
            Expression::StringLiteral(s) => Expression::StringLiteral(s.clone()),
            Expression::PrefixExpression { operator, right } => Expression::PrefixExpression {
                operator: *operator,
                right: Box::new((&**right).clone()),
            },
            Expression::InfixExpression { left, operator, right } => Expression::InfixExpression {
                left: Box::new((&**left).clone()),
                operator: *operator,
                right: Box::new((&**right).clone()),
            },
            Expression::IfExpression { condition, consequence, alternative } => {
                Expression::IfExpression {
                    condition: Box::new((&**condition).clone()),
                    consequence: clone_block(consequence),
                    alternative: match alternative {
                        Some(alt) => Some(clone_block(alt)),
                        None => None,
                    },
                }
            },
            Expression::FunctionLiteral { parameters, body } => Expression::FunctionLiteral {
                parameters: clone_params(parameters),
                body: clone_block(body),
            },
            Expression::CallExpression { function, arguments } => Expression::CallExpression {
                function: Box::new((&**function).clone()),
                arguments: clone_exprs(arguments),
            },
            Expression::ArrayLiteral(elements) => Expression::ArrayLiteral(clone_exprs(elements)),
            Expression::IndexExpression { left, index } => Expression::IndexExpression {
                left: Box::new((&**left).clone()),
                index: Box::new((&**index).clone()),
            },
            Expression::HashLiteral(pairs) => Expression::HashLiteral(clone_pairs(pairs)),
        }
    }
}

impl Clone for HashPair {
    /// A clone has the same model as the original.
    fn clone(&self) -> (res: Self)
        ensures
            expr_view(res.key) == expr_view(self.key),
            expr_view(res.value) == expr_view(self.value),
        decreases self,
    {
        HashPair { key: self.key.clone(), value: self.value.clone() }
    }
}

} // verus!
