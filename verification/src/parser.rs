//! The precedence-climbing parser: two tokens of lookahead, a prefix
//! handler per token shape, and an infix loop that extends the left
//! operand while the peeked token binds more tightly than the level the
//! caller passed in.
//!
//! The executable parser is proved against a specification-level parser
//! over the token sequence: `program` returns exactly the syntax tree
//! that the specification parser yields, or a failure carrying exactly
//! the position where it stops. On any structurally invalid input the
//! parser aborts the enclosing construct and yields no program.
//!
//! Parsing carries a step budget like the evaluator's, far beyond any
//! input's needs; running out is reported as a failure at the current
//! position.

use crate::ast::{
    precedence_rank, BlockStatement, Expression, ExprV, HashPair, Identifier, InfixOperator,
    Precedence, PrefixOperator, Program, Statement, StmtV,
};
use crate::lexer::{tokens_from, Lexer};
use crate::token::{Token, TokenV};
use vstd::prelude::*;
use vstd::string::StringExecFns;

verus! {

/// The step budget `program` hands the parser.
pub const PARSE_BUDGET: u64 = u64::MAX;

/// The models of a token list, element by element.
pub open spec fn tokens_view(ts: Seq<Token>) -> Seq<TokenV>
    decreases ts,
{
    if ts.len() == 0 {
        Seq::empty()
    } else {
        tokens_view(ts.drop_last()).push(ts.last()@)
    }
}

/// A token list's model has one token model per token, in order.
pub broadcast proof fn lemma_tokens_view(ts: Seq<Token>)
    ensures
        (#[trigger] tokens_view(ts)).len() == ts.len(),
        forall|i: int| 0 <= i < ts.len() ==> tokens_view(ts)[i] == ts[i]@,
    decreases ts,
{
    if ts.len() > 0 {
        lemma_tokens_view(ts.drop_last());
    }
}

/// The position after advancing by one token; the parser never moves
/// past the last token, so once it reaches the end marker it stays
/// there.
pub open spec fn step_pos(toks: Seq<TokenV>, p: int) -> int {
    if p + 1 < toks.len() {
        p + 1
    } else {
        toks.len() - 1
    }
}

/// The binding strength of the position a token opens: its precedence
/// as an infix, call or index operator, and the lowest level for
/// anything else.
pub open spec fn token_precedence_spec(t: TokenV) -> Precedence {
    match t {
        TokenV::Eq | TokenV::NotEq => Precedence::Equals,
        TokenV::Lt | TokenV::Gt => Precedence::LessGreater,
        TokenV::Plus | TokenV::Minus => Precedence::Sum,
        TokenV::Slash | TokenV::Asterisk => Precedence::Product,
        TokenV::LParen => Precedence::Call,
        TokenV::LBracket => Precedence::Index,
        _ => Precedence::Lowest,
    }
}

/// The infix operator a token denotes, if any.
pub open spec fn infix_op_of(t: TokenV) -> Option<InfixOperator> {
    match t {
        TokenV::Plus => Some(InfixOperator::Plus),
        TokenV::Minus => Some(InfixOperator::Minus),
        TokenV::Slash => Some(InfixOperator::Slash),
        TokenV::Asterisk => Some(InfixOperator::Asterisk),
        TokenV::Eq => Some(InfixOperator::Eq),
        TokenV::NotEq => Some(InfixOperator::NotEq),
        TokenV::Lt => Some(InfixOperator::Lt),
        TokenV::Gt => Some(InfixOperator::Gt),
        _ => None,
    }
}

/// A parse of a program: the statements up to the end marker, and the
/// position reached, or the position where parsing stopped.
pub open spec fn parse_program_v(toks: Seq<TokenV>, pos: int, fuel: nat) -> Result<
    (Seq<StmtV>, int),
    int,
>
    decreases fuel,
{
    parse_program_from(toks, pos, Seq::empty(), fuel)
}

/// Statements parsed in order from `pos`, appended to `acc`, until the
/// end marker is the current token.
pub open spec fn parse_program_from(
    toks: Seq<TokenV>,
    pos: int,
    acc: Seq<StmtV>,
    fuel: nat,
) -> Result<(Seq<StmtV>, int), int>
    decreases fuel,
{
    if !(0 <= pos < toks.len()) {
        Err(pos)
    } else if toks[pos] is EOF {
        Ok((acc, pos))
    } else if fuel == 0 {
        Err(pos)
    } else {
        match parse_statement_v(toks, pos, (fuel - 1) as nat) {
            Err(p) => Err(p),
            Ok((s, pos1)) => parse_program_from(
                toks,
                step_pos(toks, pos1),
                acc.push(s),
                (fuel - 1) as nat,
            ),
        }
    }
}

/// One statement, dispatched on the current token: `let`, `return`, or
/// an expression statement.
pub open spec fn parse_statement_v(toks: Seq<TokenV>, pos: int, fuel: nat) -> Result<
    (StmtV, int),
    int,
>
    decreases fuel,
{
    if fuel == 0 {
        Err(pos)
    } else if !(0 <= pos < toks.len()) {
        Err(pos)
    } else {
        match toks[pos] {
            TokenV::Let => parse_let_statement_v(toks, pos, (fuel - 1) as nat),
            TokenV::Return => parse_return_statement_v(toks, pos, (fuel - 1) as nat),
            _ => parse_expression_statement_v(toks, pos, (fuel - 1) as nat),
        }
    }
}

/// `let IDENT = expression ;` — each expected token that is missing
/// stops the parse at its position.
pub open spec fn parse_let_statement_v(toks: Seq<TokenV>, pos: int, fuel: nat) -> Result<
    (StmtV, int),
    int,
>
    decreases fuel,
{
    if fuel == 0 {
        Err(pos)
    } else {
        let p1 = step_pos(toks, pos);
        match toks[p1] {
            TokenV::Ident(name) => {
                let p2 = step_pos(toks, p1);
                if !(toks[p2] is Assign) {
                    Err(p2)
                } else {
                    let p3 = step_pos(toks, p2);
                    match parse_expression_v(toks, p3, Precedence::Lowest, (fuel - 1) as nat) {
                        Err(p) => Err(p),
                        Ok((value, p4)) => {
                            let p5 = step_pos(toks, p4);
                            if !(toks[p5] is Semicolon) {
                                Err(p5)
                            } else {
                                Ok((StmtV::Let { name, value }, p5))
                            }
                        },
                    }
                }
            },
            _ => Err(p1),
        }
    }
}

/// `return expression ;`
pub open spec fn parse_return_statement_v(toks: Seq<TokenV>, pos: int, fuel: nat) -> Result<
    (StmtV, int),
    int,
>
    decreases fuel,
{
    if fuel == 0 {
        Err(pos)
    } else {
        let p1 = step_pos(toks, pos);
        match parse_expression_v(toks, p1, Precedence::Lowest, (fuel - 1) as nat) {
            Err(p) => Err(p),
            Ok((value, p2)) => {
                let p3 = step_pos(toks, p2);
                if !(toks[p3] is Semicolon) {
                    Err(p3)
                } else {
                    Ok((StmtV::Return(value), p3))
                }
            },
        }
    }
}

/// An expression statement; a trailing semicolon is optional and
/// consumed when present.
pub open spec fn parse_expression_statement_v(toks: Seq<TokenV>, pos: int, fuel: nat) -> Result<
    (StmtV, int),
    int,
>
    decreases fuel,
{
    if fuel == 0 {
        Err(pos)
    } else {
        match parse_expression_v(toks, pos, Precedence::Lowest, (fuel - 1) as nat) {
            Err(p) => Err(p),
            Ok((e, p1)) => {
                let p2 = step_pos(toks, p1);
                if toks[p2] is Semicolon {
                    Ok((StmtV::Expr(e), p2))
                } else {
                    Ok((StmtV::Expr(e), p1))
                }
            },
        }
    }
}

/// An expression at a minimum binding level: a left operand from the
/// current token's prefix handler, then the infix loop.
pub open spec fn parse_expression_v(
    toks: Seq<TokenV>,
    pos: int,
    min_prec: Precedence,
    fuel: nat,
) -> Result<(ExprV, int), int>
    decreases fuel,
{
    if fuel == 0 {
        Err(pos)
    } else if !(0 <= pos < toks.len()) {
        Err(pos)
    } else {
        let pre = match toks[pos] {
            TokenV::Ident(name) => Ok((ExprV::Ident(name), pos)),
            TokenV::Int(i) => Ok((ExprV::Int(i), pos)),
            TokenV::String(s) => Ok((ExprV::Str(s), pos)),
            TokenV::True => Ok((ExprV::Bool(true), pos)),
            TokenV::False => Ok((ExprV::Bool(false), pos)),
            TokenV::Bang => parse_prefix_expression_v(toks, pos, (fuel - 1) as nat),
            TokenV::Minus => parse_prefix_expression_v(toks, pos, (fuel - 1) as nat),
            TokenV::LParen => parse_grouped_expression_v(toks, pos, (fuel - 1) as nat),
            TokenV::If => parse_if_expression_v(toks, pos, (fuel - 1) as nat),
            TokenV::Function => parse_function_literal_v(toks, pos, (fuel - 1) as nat),
            TokenV::LBracket => parse_array_literal_v(toks, pos, (fuel - 1) as nat),
            TokenV::LBrace => parse_hash_literal_v(toks, pos, (fuel - 1) as nat),
            _ => Err(pos),
        };
        match pre {
            Err(p) => Err(p),
            Ok((left, p1)) => parse_infix_loop(toks, p1, left, min_prec, (fuel - 1) as nat),
        }
    }
}

/// The infix loop: while the peeked token is not a semicolon and binds
/// more tightly than the caller's level, extend the left operand with
/// the matching infix, call or index form.
pub open spec fn parse_infix_loop(
    toks: Seq<TokenV>,
    pos: int,
    left: ExprV,
    min_prec: Precedence,
    fuel: nat,
) -> Result<(ExprV, int), int>
    decreases fuel,
{
    if fuel == 0 {
        Err(pos)
    } else {
        let ppos = step_pos(toks, pos);
        let pk = toks[ppos];
        if pk is Semicolon || !(precedence_rank(min_prec) < precedence_rank(
            token_precedence_spec(pk),
        )) {
            Ok((left, pos))
        } else {
            match infix_op_of(pk) {
                Some(_) => match parse_infix_expression_v(toks, ppos, left, (fuel - 1) as nat) {
                    Err(p) => Err(p),
                    Ok((e, p2)) => parse_infix_loop(toks, p2, e, min_prec, (fuel - 1) as nat),
                },
                None => if pk is LParen {
                    match parse_call_expression_v(toks, ppos, left, (fuel - 1) as nat) {
                        Err(p) => Err(p),
                        Ok((e, p2)) => parse_infix_loop(toks, p2, e, min_prec, (fuel - 1) as nat),
                    }
                } else if pk is LBracket {
                    match parse_index_expression_v(toks, ppos, left, (fuel - 1) as nat) {
                        Err(p) => Err(p),
                        Ok((e, p2)) => parse_infix_loop(toks, p2, e, min_prec, (fuel - 1) as nat),
                    }
                } else {
                    Ok((left, pos))
                },
            }
        }
    }
}

/// A unary `!` or `-` applied to an operand parsed at prefix level.
pub open spec fn parse_prefix_expression_v(toks: Seq<TokenV>, pos: int, fuel: nat) -> Result<
    (ExprV, int),
    int,
>
    decreases fuel,
{
    if fuel == 0 {
        Err(pos)
    } else if !(0 <= pos < toks.len()) {
        Err(pos)
    } else {
        let op = match toks[pos] {
            TokenV::Bang => Some(PrefixOperator::Bang),
            TokenV::Minus => Some(PrefixOperator::Minus),
            _ => None,
        };
        match op {
            None => Err(pos),
            Some(op) => {
                let p1 = step_pos(toks, pos);
                match parse_expression_v(toks, p1, Precedence::Prefix, (fuel - 1) as nat) {
                    Err(p) => Err(p),
                    Ok((right, p2)) => Ok(
                        (ExprV::Prefix { op, right: Box::new(right) }, p2),
                    ),
                }
            },
        }
    }
}

/// A binary operator applied to the left operand and an operand parsed
/// at the operator's own level: this is what gives `*` a tighter
/// binding than `+`.
pub open spec fn parse_infix_expression_v(
    toks: Seq<TokenV>,
    pos: int,
    left: ExprV,
    fuel: nat,
) -> Result<(ExprV, int), int>
    decreases fuel,
{
    if fuel == 0 {
        Err(pos)
    } else if !(0 <= pos < toks.len()) {
        Err(pos)
    } else {
        match infix_op_of(toks[pos]) {
            None => Err(pos),
            Some(op) => {
                let prec = token_precedence_spec(toks[pos]);
                let p1 = step_pos(toks, pos);
                match parse_expression_v(toks, p1, prec, (fuel - 1) as nat) {
                    Err(p) => Err(p),
                    Ok((right, p2)) => Ok(
                        (
                            ExprV::Infix {
                                left: Box::new(left),
                                op,
                                right: Box::new(right),
                            },
                            p2,
                        ),
                    ),
                }
            },
        }
    }
}

/// `( expression )`: the parenthesized expression itself.
pub open spec fn parse_grouped_expression_v(toks: Seq<TokenV>, pos: int, fuel: nat) -> Result<
    (ExprV, int),
    int,
>
    decreases fuel,
{
    if fuel == 0 {
        Err(pos)
    } else {
        let p1 = step_pos(toks, pos);
        match parse_expression_v(toks, p1, Precedence::Lowest, (fuel - 1) as nat) {
            Err(p) => Err(p),
            Ok((e, p2)) => {
                let p3 = step_pos(toks, p2);
                if !(toks[p3] is RParen) {
                    Err(p3)
                } else {
                    Ok((e, p3))
                }
            },
        }
    }
}

/// The statements between a `{` and the matching `}` (or the end of
/// the input).
pub open spec fn parse_block_statement_v(toks: Seq<TokenV>, pos: int, fuel: nat) -> Result<
    (Seq<StmtV>, int),
    int,
>
    decreases fuel,
{
    if fuel == 0 {
        Err(pos)
    } else {
        parse_block_from(toks, step_pos(toks, pos), Seq::empty(), (fuel - 1) as nat)
    }
}

/// Statements parsed in order until a `}` or the end marker is the
/// current token.
pub open spec fn parse_block_from(toks: Seq<TokenV>, pos: int, acc: Seq<StmtV>, fuel: nat) -> Result<
    (Seq<StmtV>, int),
    int,
>
    decreases fuel,
{
    if !(0 <= pos < toks.len()) {
        Err(pos)
    } else if toks[pos] is RBrace || toks[pos] is EOF {
        Ok((acc, pos))
    } else if fuel == 0 {
        Err(pos)
    } else {
        match parse_statement_v(toks, pos, (fuel - 1) as nat) {
            Err(p) => Err(p),
            Ok((s, pos1)) => parse_block_from(
                toks,
                step_pos(toks, pos1),
                acc.push(s),
                (fuel - 1) as nat,
            ),
        }
    }
}

/// `if ( condition ) { consequence }` with an optional
/// `else { alternative }`.
pub open spec fn parse_if_expression_v(toks: Seq<TokenV>, pos: int, fuel: nat) -> Result<
    (ExprV, int),
    int,
>
    decreases fuel,
{
    if fuel == 0 {
        Err(pos)
    } else {
        let p1 = step_pos(toks, pos);
        if !(toks[p1] is LParen) {
            Err(p1)
        } else {
            let p2 = step_pos(toks, p1);
            match parse_expression_v(toks, p2, Precedence::Lowest, (fuel - 1) as nat) {
                Err(p) => Err(p),
                Ok((cond, p3)) => {
                    let p4 = step_pos(toks, p3);
                    if !(toks[p4] is RParen) {
                        Err(p4)
                    } else {
                        let p5 = step_pos(toks, p4);
                        if !(toks[p5] is LBrace) {
                            Err(p5)
                        } else {
                            match parse_block_statement_v(toks, p5, (fuel - 1) as nat) {
                                Err(p) => Err(p),
                                Ok((cons, p6)) => {
                                    let p7 = step_pos(toks, p6);
                                    if toks[p7] is Else {
                                        let p8 = step_pos(toks, p7);
                                        if !(toks[p8] is LBrace) {
                                            Err(p8)
                                        } else {
                                            match parse_block_statement_v(
                                                toks,
                                                p8,
                                                (fuel - 1) as nat,
                                            ) {
                                                Err(p) => Err(p),
                                                Ok((alt, p9)) => Ok(
                                                    (
                                                        ExprV::If {
                                                            cond: Box::new(cond),
                                                            cons,
                                                            alt: Some(alt),
                                                        },
                                                        p9,
                                                    ),
                                                ),
                                            }
                                        }
                                    } else {
                                        Ok(
                                            (
                                                ExprV::If {
                                                    cond: Box::new(cond),
                                                    cons,
                                                    alt: None,
                                                },
                                                p6,
                                            ),
                                        )
                                    }
                                },
                            }
                        }
                    }
                },
            }
        }
    }
}

/// `fn ( parameters ) { body }`.
pub open spec fn parse_function_literal_v(toks: Seq<TokenV>, pos: int, fuel: nat) -> Result<
    (ExprV, int),
    int,
>
    decreases fuel,
{
    if fuel == 0 {
        Err(pos)
    } else {
        let p1 = step_pos(toks, pos);
        if !(toks[p1] is LParen) {
            Err(p1)
        } else {
            match parse_function_parameters_v(toks, p1, (fuel - 1) as nat) {
                Err(p) => Err(p),
                Ok((params, p2)) => {
                    let p3 = step_pos(toks, p2);
                    if !(toks[p3] is LBrace) {
                        Err(p3)
                    } else {
                        match parse_block_statement_v(toks, p3, (fuel - 1) as nat) {
                            Err(p) => Err(p),
                            Ok((body, p4)) => Ok((ExprV::Func { params, body }, p4)),
                        }
                    }
                },
            }
        }
    }
}

/// A parenthesized, comma-separated list of parameter names; an empty
/// list is valid.
pub open spec fn parse_function_parameters_v(toks: Seq<TokenV>, pos: int, fuel: nat) -> Result<
    (Seq<Seq<char>>, int),
    int,
>
    decreases fuel,
{
    if fuel == 0 {
        Err(pos)
    } else {
        let p1 = step_pos(toks, pos);
        if toks[p1] is RParen {
            Ok((Seq::empty(), p1))
        } else {
            match toks[p1] {
                TokenV::Ident(name) => parse_parameters_more(
                    toks,
                    p1,
                    seq![name],
                    (fuel - 1) as nat,
                ),
                _ => Err(p1),
            }
        }
    }
}

/// Further `, IDENT` parameters, then the closing parenthesis.
pub open spec fn parse_parameters_more(
    toks: Seq<TokenV>,
    pos: int,
    acc: Seq<Seq<char>>,
    fuel: nat,
) -> Result<(Seq<Seq<char>>, int), int>
    decreases fuel,
{
    if fuel == 0 {
        Err(pos)
    } else {
        let p1 = step_pos(toks, pos);
        if toks[p1] is Comma {
            let p2 = step_pos(toks, p1);
            match toks[p2] {
                TokenV::Ident(name) => parse_parameters_more(
                    toks,
                    p2,
                    acc.push(name),
                    (fuel - 1) as nat,
                ),
                _ => Err(p2),
            }
        } else if toks[p1] is RParen {
            Ok((acc, p1))
        } else {
            Err(p1)
        }
    }
}

/// A call: the expression list up to the closing parenthesis becomes
/// the arguments.
pub open spec fn parse_call_expression_v(toks: Seq<TokenV>, pos: int, left: ExprV, fuel: nat) -> Result<
    (ExprV, int),
    int,
>
    decreases fuel,
{
    if fuel == 0 {
        Err(pos)
    } else {
        match parse_expression_list_v(toks, pos, TokenV::RParen, (fuel - 1) as nat) {
            Err(p) => Err(p),
            Ok((args, p1)) => Ok((ExprV::Call { func: Box::new(left), args }, p1)),
        }
    }
}

/// A comma-separated expression list terminated by `end`; an empty
/// list — the end token immediately — is valid.
pub open spec fn parse_expression_list_v(
    toks: Seq<TokenV>,
    pos: int,
    end: TokenV,
    fuel: nat,
) -> Result<(Seq<ExprV>, int), int>
    decreases fuel,
{
    if fuel == 0 {
        Err(pos)
    } else {
        let p1 = step_pos(toks, pos);
        if toks[p1] == end {
            Ok((Seq::empty(), p1))
        } else {
            match parse_expression_v(toks, p1, Precedence::Lowest, (fuel - 1) as nat) {
                Err(p) => Err(p),
                Ok((e, p2)) => parse_list_more(toks, p2, end, seq![e], (fuel - 1) as nat),
            }
        }
    }
}

/// Further `, expression` elements, then the end token.
pub open spec fn parse_list_more(
    toks: Seq<TokenV>,
    pos: int,
    end: TokenV,
    acc: Seq<ExprV>,
    fuel: nat,
) -> Result<(Seq<ExprV>, int), int>
    decreases fuel,
{
    if fuel == 0 {
        Err(pos)
    } else {
        let p1 = step_pos(toks, pos);
        if toks[p1] is Comma {
            let p2 = step_pos(toks, p1);
            match parse_expression_v(toks, p2, Precedence::Lowest, (fuel - 1) as nat) {
                Err(p) => Err(p),
                Ok((e, p3)) => parse_list_more(toks, p3, end, acc.push(e), (fuel - 1) as nat),
            }
        } else if toks[p1] == end {
            Ok((acc, p1))
        } else {
            Err(p1)
        }
    }
}

/// `[ elements ]`.
pub open spec fn parse_array_literal_v(toks: Seq<TokenV>, pos: int, fuel: nat) -> Result<
    (ExprV, int),
    int,
>
    decreases fuel,
{
    if fuel == 0 {
        Err(pos)
    } else {
        match parse_expression_list_v(toks, pos, TokenV::RBracket, (fuel - 1) as nat) {
            Err(p) => Err(p),
            Ok((elements, p1)) => Ok((ExprV::Arr(elements), p1)),
        }
    }
}

/// `left [ index ]`.
pub open spec fn parse_index_expression_v(toks: Seq<TokenV>, pos: int, left: ExprV, fuel: nat) -> Result<
    (ExprV, int),
    int,
>
    decreases fuel,
{
    if fuel == 0 {
        Err(pos)
    } else {
        let p1 = step_pos(toks, pos);
        match parse_expression_v(toks, p1, Precedence::Lowest, (fuel - 1) as nat) {
            Err(p) => Err(p),
            Ok((index, p2)) => {
                let p3 = step_pos(toks, p2);
                if !(toks[p3] is RBracket) {
                    Err(p3)
                } else {
                    Ok(
                        (
                            ExprV::Index { left: Box::new(left), index: Box::new(index) },
                            p3,
                        ),
                    )
                }
            },
        }
    }
}

/// `{ key : value , ... }` with a tolerated trailing comma; entries
/// keep their listed order.
pub open spec fn parse_hash_literal_v(toks: Seq<TokenV>, pos: int, fuel: nat) -> Result<
    (ExprV, int),
    int,
>
    decreases fuel,
{
    if fuel == 0 {
        Err(pos)
    } else {
        match parse_hash_from(toks, pos, Seq::empty(), (fuel - 1) as nat) {
            Err(p) => Err(p),
            Ok((pairs, p1)) => Ok((ExprV::Hash(pairs), p1)),
        }
    }
}

/// Hash entries parsed while the peeked token is not the closing
/// brace.
pub open spec fn parse_hash_from(
    toks: Seq<TokenV>,
    pos: int,
    acc: Seq<(ExprV, ExprV)>,
    fuel: nat,
) -> Result<(Seq<(ExprV, ExprV)>, int), int>
    decreases fuel,
{
    if fuel == 0 {
        Err(pos)
    } else {
        let p1 = step_pos(toks, pos);
        if toks[p1] is RBrace {
            Ok((acc, p1))
        } else {
            match parse_expression_v(toks, p1, Precedence::Lowest, (fuel - 1) as nat) {
                Err(p) => Err(p),
                Ok((key, p2)) => {
                    let p3 = step_pos(toks, p2);
                    if !(toks[p3] is Colon) {
                        Err(p3)
                    } else {
                        let p4 = step_pos(toks, p3);
                        match parse_expression_v(toks, p4, Precedence::Lowest, (fuel - 1) as nat) {
                            Err(p) => Err(p),
                            Ok((value, p5)) => {
                                let p6 = step_pos(toks, p5);
                                if toks[p6] is Comma {
                                    parse_hash_from(
                                        toks,
                                        p6,
                                        acc.push((key, value)),
                                        (fuel - 1) as nat,
                                    )
                                } else if toks[p6] is RBrace {
                                    parse_hash_from(
                                        toks,
                                        p5,
                                        acc.push((key, value)),
                                        (fuel - 1) as nat,
                                    )
                                } else {
                                    Err(p6)
                                }
                            },
                        }
                    }
                },
            }
        }
    }
}

/// A parse failure: the position in the token sequence where parsing
/// stopped, and the token found there.
#[derive(Debug, Clone, PartialEq, Eq)]
pub struct ParseError {
    pub position: usize,
    pub token: Token,
}

/// The failure's position is the one the specification parser stops
/// at, it lies within the token sequence, and the carried token is the
/// one found there.
pub open spec fn err_matches(pe: ParseError, expected: int, toks: Seq<TokenV>) -> bool {
    &&& pe.position as int == expected
    &&& 0 <= expected < toks.len()
    &&& pe.token@ == toks[expected]
}

/// The message a parse failure carries, naming the position where
/// parsing stopped.
pub open spec fn parse_error_message_v(pos: int) -> Seq<char> {
    "syntax error at token "@ + crate::text::int_rep(pos)
}

impl ParseError {
    /// The message this failure carries, as the shell prints it.
    pub fn message(&self) -> (s: String)
        ensures
            s@ == parse_error_message_v(self.position as int),
    {
        let mut s = String::new();
        s.append("syntax error at token ");
        let p = crate::text::render_u64(self.position as u64);
        s.append(p.as_str());
        proof {
            assert(s@ =~= parse_error_message_v(self.position as int));
        }
        s
    }
}

/// The parser: the scanned token sequence and the position of the
/// current token; the peeked token is the one after it.
pub struct Parser {
    tokens: Vec<Token>,
    pos: usize,
}

impl Parser {
    /// The models of the tokens this parser consumes.
    pub closed spec fn toks(&self) -> Seq<TokenV> {
        tokens_view(self.tokens@)
    }

    /// The position of the current token.
    pub closed spec fn pos(&self) -> int {
        self.pos as int
    }

    /// The parser's internal consistency: at least one token (the end
    /// marker), the position within the sequence.
    pub closed spec fn wf(&self) -> bool {
        &&& self.tokens@.len() >= 1
        &&& self.pos < self.tokens@.len()
        &&& tokens_view(self.tokens@).len() == self.tokens@.len()
    }

    /// A parser over everything the given scanner yields, up to and
    /// including the first end marker, positioned at the first token.
    pub fn new(lexer: Lexer) -> (parser: Parser)
        requires
            lexer.wf(),
        ensures
            parser.wf(),
            parser.pos() == 0,
            parser.toks() == tokens_from(lexer.text(), lexer.pos()),
    {
        let mut lexer = lexer;
        let ghost text = lexer.text();
        let ghost p0 = lexer.pos();
        proof {
            crate::lexer::lemma_lexer_pos_bound(&lexer);
        }
        let mut tokens: Vec<Token> = Vec::new();
        let mut done = false;
        while !done
            invariant
                lexer.wf(),
                lexer.text() == text,
                0 <= lexer.pos() <= text.len(),
                !done ==> tokens_view(tokens@) + tokens_from(text, lexer.pos()) == tokens_from(
                    text,
                    p0,
                ),
                done ==> tokens_view(tokens@) == tokens_from(text, p0),
                done ==> tokens@.len() >= 1,
            decreases (if done {
                0int
            } else {
                text.len() - lexer.pos() + 1
            }),
        {
            let ghost prev = lexer.pos();
            let tok = lexer.next_token();
            proof {
                crate::lexer::lemma_next_token_advances(text, prev);
            }
            let is_eof = matches!(tok, Token::EOF);
            let ghost before = tokens@;
            tokens.push(tok);
            proof {
                assert(tokens@.drop_last() =~= before);
                lemma_tokens_view(tokens@);
                lemma_tokens_view(before);
                if is_eof {
                    assert(tokens_from(text, prev) =~= seq![TokenV::EOF]);
                    assert(tokens_view(tokens@) =~= tokens_from(text, p0));
                } else {
                    assert(tokens_view(tokens@) + tokens_from(text, lexer.pos()) =~= tokens_from(
                        text,
                        p0,
                    ));
                }
            }
            if is_eof {
                done = true;
            }
        }
        proof {
            lemma_tokens_view(tokens@);
        }
        Parser { tokens, pos: 0 }
    }

    /// A reference to the current token.
    fn cur_token(&self) -> (t: &Token)
        requires
            self.wf(),
        ensures
            t@ == self.toks()[self.pos()],
    {
        proof {
            lemma_tokens_view(self.tokens@);
        }
        &self.tokens[self.pos]
    }

    /// A reference to the peeked token: the one after the current one,
    /// or the final end marker once there is nothing after.
    fn peek_token(&self) -> (t: &Token)
        requires
            self.wf(),
        ensures
            t@ == self.toks()[step_pos(self.toks(), self.pos())],
    {
        proof {
            lemma_tokens_view(self.tokens@);
        }
        if self.pos < self.tokens.len() - 1 {
            &self.tokens[self.pos + 1]
        } else {
            &self.tokens[self.tokens.len() - 1]
        }
    }

    /// Advances by one token, staying on the end marker once reached.
    pub fn next_token(&mut self)
        requires
            old(self).wf(),
        ensures
            final(self).wf(),
            final(self).toks() == old(self).toks(),
            final(self).pos() == step_pos(old(self).toks(), old(self).pos()),
    {
        proof {
            lemma_tokens_view(self.tokens@);
        }
        if self.pos < self.tokens.len() - 1 {
            self.pos = self.pos + 1;
        } else {
            self.pos = self.tokens.len() - 1;
        }
    }

    /// The failure value for a stop at the given position.
    fn error_at(&self, position: usize) -> (pe: ParseError)
        requires
            self.wf(),
            position < self.toks().len(),
        ensures
            err_matches(pe, position as int, self.toks()),
    {
        proof {
            lemma_tokens_view(self.tokens@);
        }
        ParseError { position, token: self.tokens[position].clone() }
    }

    /// The failure value for a stop at the current token.
    fn error_here(&self) -> (pe: ParseError)
        requires
            self.wf(),
        ensures
            err_matches(pe, self.pos(), self.toks()),
    {
        proof {
            lemma_tokens_view(self.tokens@);
        }
        self.error_at(self.pos)
    }

    /// The failure value for a stop at the peeked token.
    fn error_peek(&self) -> (pe: ParseError)
        requires
            self.wf(),
        ensures
            err_matches(pe, step_pos(self.toks(), self.pos()), self.toks()),
    {
        proof {
            lemma_tokens_view(self.tokens@);
        }
        if self.pos < self.tokens.len() - 1 {
            self.error_at(self.pos + 1)
        } else {
            self.error_at(self.tokens.len() - 1)
        }
    }

    /// The binding strength of the position a token opens.
    fn token_precedence(token: &Token) -> (p: Precedence)
        ensures
            p == token_precedence_spec(token@),
    {
        match token {
            Token::Eq | Token::NotEq => Precedence::Equals,
            Token::Lt | Token::Gt => Precedence::LessGreater,
            Token::Plus | Token::Minus => Precedence::Sum,
            Token::Slash | Token::Asterisk => Precedence::Product,
            Token::LParen => Precedence::Call,
            Token::LBracket => Precedence::Index,
            _ => Precedence::Lowest,
        }
    }

    /// The peeked token's binding strength.
    fn peek_precedence(&self) -> (p: Precedence)
        requires
            self.wf(),
        ensures
            p == token_precedence_spec(self.toks()[step_pos(self.toks(), self.pos())]),
    {
        Self::token_precedence(self.peek_token())
    }

    /// The current token's binding strength.
    fn cur_precedence(&self) -> (p: Precedence)
        requires
            self.wf(),
        ensures
            p == token_precedence_spec(self.toks()[self.pos()]),
    {
        Self::token_precedence(self.cur_token())
    }

    /// Whether a token is the given list terminator.
    fn token_matches_end(t: &Token, end: &Token) -> (r: bool)
        requires
            end@ is RParen || end@ is RBracket || end@ is RBrace,
        ensures
            r == (t@ == end@),
    {
        match end {
            Token::RParen => matches!(t, Token::RParen),
            Token::RBracket => matches!(t, Token::RBracket),
            Token::RBrace => matches!(t, Token::RBrace),
            _ => false,
        }
    }

    /// Parses the whole token sequence as one program. A structurally
    /// invalid input yields no program, only the position where
    /// parsing stopped and the token found there.
    #[verifier::loop_isolation(false)]
    pub fn program(&mut self) -> (r: Result<Program, ParseError>)
        requires
            old(self).wf(),
        ensures
            final(self).wf(),
            final(self).toks() == old(self).toks(),
            ({
                let spec_r = parse_program_v(old(self).toks(), old(self).pos(), PARSE_BUDGET as nat);
                match r {
                    Ok(prog) => spec_r == Ok::<(Seq<StmtV>, int), int>(
                        (crate::ast::block_view(prog@), final(self).pos()),
                    ),
                    Err(pe) => spec_r is Err && err_matches(pe, spec_r->Err_0, old(self).toks()),
                }
            }),
    {
        let ghost toks = self.toks();
        let ghost pos0 = self.pos();
        let mut program: Vec<Statement> = Vec::new();
        let mut f: u64 = PARSE_BUDGET;
        proof {
            crate::ast::lemma_block_view(program@);
            assert(crate::ast::block_view(program@) =~= Seq::<StmtV>::empty());
        }
        loop
            invariant
                self.wf(),
                self.toks() == toks,
                parse_program_from(toks, self.pos(), crate::ast::block_view(program@), f as nat)
                    == parse_program_v(toks, pos0, PARSE_BUDGET as nat),
            decreases f,
        {
            if matches!(self.cur_token(), Token::EOF) {
                return Ok(program);
            }
            if f == 0 {
                return Err(self.error_here());
            }
            let stmt = match self.statement(f - 1) {
                Ok(s) => s,
                Err(pe) => {
                    return Err(pe);
                },
            };
            let ghost before = program@;
            program.push(stmt);
            proof {
                assert(program@.drop_last() =~= before);
            }
            self.next_token();
            f = f - 1;
        }
    }

    /// One statement, dispatched on the current token.
    fn statement(&mut self, fuel: u64) -> (r: Result<Statement, ParseError>)
        requires
            old(self).wf(),
        ensures
            final(self).wf(),
            final(self).toks() == old(self).toks(),
            ({
                let spec_r = parse_statement_v(old(self).toks(), old(self).pos(), fuel as nat);
                match r {
                    Ok(s) => spec_r == Ok::<(StmtV, int), int>(
                        (crate::ast::stmt_view(s), final(self).pos()),
                    ),
                    Err(pe) => spec_r is Err && err_matches(pe, spec_r->Err_0, old(self).toks()),
                }
            }),
        decreases fuel,
    {
        if fuel == 0 {
            return Err(self.error_here());
        }
        let is_let = matches!(self.cur_token(), Token::Let);
        let is_return = matches!(self.cur_token(), Token::Return);
        if is_let {
            self.let_statement(fuel - 1)
        } else if is_return {
            self.return_statement(fuel - 1)
        } else {
            self.expression_statement(fuel - 1)
        }
    }

    /// `let IDENT = expression ;`
    fn let_statement(&mut self, fuel: u64) -> (r: Result<Statement, ParseError>)
        requires
            old(self).wf(),
        ensures
            final(self).wf(),
            final(self).toks() == old(self).toks(),
            ({
                let spec_r = parse_let_statement_v(old(self).toks(), old(self).pos(), fuel as nat);
                match r {
                    Ok(s) => spec_r == Ok::<(StmtV, int), int>(
                        (crate::ast::stmt_view(s), final(self).pos()),
                    ),
                    Err(pe) => spec_r is Err && err_matches(pe, spec_r->Err_0, old(self).toks()),
                }
            }),
        decreases fuel,
    {
        if fuel == 0 {
            return Err(self.error_here());
        }
        let name = match self.peek_token() {
            Token::Ident(n) => n.clone(),
            _ => {
                return Err(self.error_peek());
            },
        };
        self.next_token();
        if !matches!(self.peek_token(), Token::Assign) {
            return Err(self.error_peek());
        }
        self.next_token();
        self.next_token();
        let value = match self.expression(Precedence::Lowest, fuel - 1) {
            Ok(e) => e,
            Err(pe) => {
                return Err(pe);
            },
        };
        if !matches!(self.peek_token(), Token::Semicolon) {
            return Err(self.error_peek());
        }
        self.next_token();
        Ok(Statement::LetStatement { name, value })
    }

    /// `return expression ;`
    fn return_statement(&mut self, fuel: u64) -> (r: Result<Statement, ParseError>)
        requires
            old(self).wf(),
        ensures
            final(self).wf(),
            final(self).toks() == old(self).toks(),
            ({
                let spec_r = parse_return_statement_v(
                    old(self).toks(),
                    old(self).pos(),
                    fuel as nat,
                );
                match r {
                    Ok(s) => spec_r == Ok::<(StmtV, int), int>(
                        (crate::ast::stmt_view(s), final(self).pos()),
                    ),
                    Err(pe) => spec_r is Err && err_matches(pe, spec_r->Err_0, old(self).toks()),
                }
            }),
        decreases fuel,
    {
        if fuel == 0 {
            return Err(self.error_here());
        }
        self.next_token();
        let return_value = match self.expression(Precedence::Lowest, fuel - 1) {
            Ok(e) => e,
            Err(pe) => {
                return Err(pe);
            },
        };
        if !matches!(self.peek_token(), Token::Semicolon) {
            return Err(self.error_peek());
        }
        self.next_token();
        Ok(Statement::Return { return_value })
    }

    /// An expression statement; a trailing semicolon is optional.
    fn expression_statement(&mut self, fuel: u64) -> (r: Result<Statement, ParseError>)
        requires
            old(self).wf(),
        ensures
            final(self).wf(),
            final(self).toks() == old(self).toks(),
            ({
                let spec_r = parse_expression_statement_v(
                    old(self).toks(),
                    old(self).pos(),
                    fuel as nat,
                );
                match r {
                    Ok(s) => spec_r == Ok::<(StmtV, int), int>(
                        (crate::ast::stmt_view(s), final(self).pos()),
                    ),
                    Err(pe) => spec_r is Err && err_matches(pe, spec_r->Err_0, old(self).toks()),
                }
            }),
        decreases fuel,
    {
        if fuel == 0 {
            return Err(self.error_here());
        }
        let expression = match self.expression(Precedence::Lowest, fuel - 1) {
            Ok(e) => e,
            Err(pe) => {
                return Err(pe);
            },
        };
        if matches!(self.peek_token(), Token::Semicolon) {
            self.next_token();
        }
        Ok(Statement::Expression { expression })
    }

    /// An expression at a minimum binding level: a left operand from
    /// the current token's prefix handler, then the infix loop.
    #[verifier::loop_isolation(false)]
    fn expression(&mut self, precedence: Precedence, fuel: u64) -> (r: Result<
        Expression,
        ParseError,
    >)
        requires
            old(self).wf(),
        ensures
            final(self).wf(),
            final(self).toks() == old(self).toks(),
            ({
                let spec_r = parse_expression_v(
                    old(self).toks(),
                    old(self).pos(),
                    precedence,
                    fuel as nat,
                );
                match r {
                    Ok(e) => spec_r == Ok::<(ExprV, int), int>(
                        (crate::ast::expr_view(e), final(self).pos()),
                    ),
                    Err(pe) => spec_r is Err && err_matches(pe, spec_r->Err_0, old(self).toks()),
                }
            }),
        decreases fuel,
    {
        if fuel == 0 {
            return Err(self.error_here());
        }
        let ghost toks = self.toks();
        let ghost pos0 = self.pos();
        let kind: u8 = match self.cur_token() {
            Token::Ident(_) => 1,
            Token::Int(_) => 2,
            Token::String(_) => 3,
            Token::True => 4,
            Token::False => 5,
            Token::Bang | Token::Minus => 6,
            Token::LParen => 7,
            Token::If => 8,
            Token::Function => 9,
            Token::LBracket => 10,
            Token::LBrace => 11,
            _ => 0,
        };
        let mut left: Expression = if kind == 1 {
            let name = match self.cur_token() {
                Token::Ident(n) => n.clone(),
                _ => {
                    return Err(self.error_here());
                },
            };
            Expression::Identifier(name)
        } else if kind == 2 {
            let i = match self.cur_token() {
                Token::Int(i) => *i,
                _ => {
                    return Err(self.error_here());
                },
            };
            Expression::IntegerLiteral(i)
        } else if kind == 3 {
            let s = match self.cur_token() {
                Token::String(s) => s.clone(),
                _ => {
                    return Err(self.error_here());
                },
            };
            Expression::StringLiteral(s)
        } else if kind == 4 {
            Expression::Boolean(true)
        } else if kind == 5 {
            Expression::Boolean(false)
        } else if kind == 6 {
            match self.prefix_expression(fuel - 1) {
                Ok(e) => e,
                Err(pe) => {
                    return Err(pe);
                },
            }
        } else if kind == 7 {
            match self.grouped_expression(fuel - 1) {
                Ok(e) => e,
                Err(pe) => {
                    return Err(pe);
                },
            }
        } else if kind == 8 {
            match self.if_expression(fuel - 1) {
                Ok(e) => e,
                Err(pe) => {
                    return Err(pe);
                },
            }
        } else if kind == 9 {
            match self.function_literal(fuel - 1) {
                Ok(e) => e,
                Err(pe) => {
                    return Err(pe);
                },
            }
        } else if kind == 10 {
            match self.array_literal(fuel - 1) {
                Ok(e) => e,
                Err(pe) => {
                    return Err(pe);
                },
            }
        } else if kind == 11 {
            match self.hash_literal(fuel - 1) {
                Ok(e) => e,
                Err(pe) => {
                    return Err(pe);
                },
            }
        } else {
            return Err(self.error_here());
        };
        let mut f = fuel - 1;
        loop
            invariant
                self.wf(),
                self.toks() == toks,
                f < fuel,
                parse_infix_loop(
                    toks,
                    self.pos(),
                    crate::ast::expr_view(left),
                    precedence,
                    f as nat,
                ) == parse_expression_v(toks, pos0, precedence, fuel as nat),
            decreases f,
        {
            if f == 0 {
                return Err(self.error_here());
            }
            let proceed = {
                let pk = self.peek_token();
                !matches!(pk, Token::Semicolon) && precedence.binds_less_than(
                    Self::token_precedence(pk),
                )
            };
            if !proceed {
                return Ok(left);
            }
            let branch: u8 = match self.peek_token() {
                Token::Plus | Token::Minus | Token::Slash | Token::Asterisk | Token::Eq
                    | Token::NotEq | Token::Lt | Token::Gt => 1,
                Token::LParen => 2,
                Token::LBracket => 3,
                _ => 0,
            };
            if branch == 1 {
                self.next_token();
                left = match self.infix_expression(left, f - 1) {
                    Ok(e) => e,
                    Err(pe) => {
                        return Err(pe);
                    },
                };
            } else if branch == 2 {
                self.next_token();
                left = match self.call_expression(left, f - 1) {
                    Ok(e) => e,
                    Err(pe) => {
                        return Err(pe);
                    },
                };
            } else if branch == 3 {
                self.next_token();
                left = match self.index_expression(left, f - 1) {
                    Ok(e) => e,
                    Err(pe) => {
                        return Err(pe);
                    },
                };
            } else {
                return Ok(left);
            }
            f = f - 1;
        }
    }

    /// A unary `!` or `-` applied to an operand parsed at prefix level.
    fn prefix_expression(&mut self, fuel: u64) -> (r: Result<Expression, ParseError>)
        requires
            old(self).wf(),
        ensures
            final(self).wf(),
            final(self).toks() == old(self).toks(),
            ({
                let spec_r = parse_prefix_expression_v(
                    old(self).toks(),
                    old(self).pos(),
                    fuel as nat,
                );
                match r {
                    Ok(e) => spec_r == Ok::<(ExprV, int), int>(
                        (crate::ast::expr_view(e), final(self).pos()),
                    ),
                    Err(pe) => spec_r is Err && err_matches(pe, spec_r->Err_0, old(self).toks()),
                }
            }),
        decreases fuel,
    {
        if fuel == 0 {
            return Err(self.error_here());
        }
        let operator = if matches!(self.cur_token(), Token::Bang) {
            PrefixOperator::Bang
        } else if matches!(self.cur_token(), Token::Minus) {
            PrefixOperator::Minus
        } else {
            return Err(self.error_here());
        };
        self.next_token();
        let right = match self.expression(Precedence::Prefix, fuel - 1) {
            Ok(e) => e,
            Err(pe) => {
                return Err(pe);
            },
        };
        Ok(Expression::PrefixExpression { operator, right: Box::new(right) })
    }

    /// A binary operator applied to the left operand and an operand
    /// parsed at the operator's own level.
    fn infix_expression(&mut self, left: Expression, fuel: u64) -> (r: Result<
        Expression,
        ParseError,
    >)
        requires
            old(self).wf(),
        ensures
            final(self).wf(),
            final(self).toks() == old(self).toks(),
            ({
                let spec_r = parse_infix_expression_v(
                    old(self).toks(),
                    old(self).pos(),
                    crate::ast::expr_view(left),
                    fuel as nat,
                );
                match r {
                    Ok(e) => spec_r == Ok::<(ExprV, int), int>(
                        (crate::ast::expr_view(e), final(self).pos()),
                    ),
                    Err(pe) => spec_r is Err && err_matches(pe, spec_r->Err_0, old(self).toks()),
                }
            }),
        decreases fuel,
    {
        if fuel == 0 {
            return Err(self.error_here());
        }
        let operator = match self.cur_token() {
            Token::Plus => InfixOperator::Plus,
            Token::Minus => InfixOperator::Minus,
            Token::Slash => InfixOperator::Slash,
            Token::Asterisk => InfixOperator::Asterisk,
            Token::Eq => InfixOperator::Eq,
            Token::NotEq => InfixOperator::NotEq,
            Token::Lt => InfixOperator::Lt,
            Token::Gt => InfixOperator::Gt,
            _ => {
                return Err(self.error_here());
            },
        };
        let precedence = self.cur_precedence();
        self.next_token();
        let right = match self.expression(precedence, fuel - 1) {
            Ok(e) => e,
            Err(pe) => {
                return Err(pe);
            },
        };
        Ok(Expression::InfixExpression { left: Box::new(left), operator, right: Box::new(right) })
    }

    /// `( expression )`.
    fn grouped_expression(&mut self, fuel: u64) -> (r: Result<Expression, ParseError>)
        requires
            old(self).wf(),
        ensures
            final(self).wf(),
            final(self).toks() == old(self).toks(),
            ({
                let spec_r = parse_grouped_expression_v(
                    old(self).toks(),
                    old(self).pos(),
                    fuel as nat,
                );
                match r {
                    Ok(e) => spec_r == Ok::<(ExprV, int), int>(
                        (crate::ast::expr_view(e), final(self).pos()),
                    ),
                    Err(pe) => spec_r is Err && err_matches(pe, spec_r->Err_0, old(self).toks()),
                }
            }),
        decreases fuel,
    {
        if fuel == 0 {
            return Err(self.error_here());
        }
        self.next_token();
        let e = match self.expression(Precedence::Lowest, fuel - 1) {
            Ok(e) => e,
            Err(pe) => {
                return Err(pe);
            },
        };
        if !matches!(self.peek_token(), Token::RParen) {
            return Err(self.error_peek());
        }
        self.next_token();
        Ok(e)
    }

    /// The statements between a `{` and the matching `}` (or the end
    /// of the input).
    #[verifier::loop_isolation(false)]
    fn block_statement(&mut self, fuel: u64) -> (r: Result<BlockStatement, ParseError>)
        requires
            old(self).wf(),
        ensures
            final(self).wf(),
            final(self).toks() == old(self).toks(),
            ({
                let spec_r = parse_block_statement_v(old(self).toks(), old(self).pos(), fuel as nat);
                match r {
                    Ok(b) => spec_r == Ok::<(Seq<StmtV>, int), int>(
                        (crate::ast::block_view(b@), final(self).pos()),
                    ),
                    Err(pe) => spec_r is Err && err_matches(pe, spec_r->Err_0, old(self).toks()),
                }
            }),
        decreases fuel,
    {
        if fuel == 0 {
            return Err(self.error_here());
        }
        let ghost toks = self.toks();
        let ghost pos0 = self.pos();
        self.next_token();
        let mut statements: Vec<Statement> = Vec::new();
        let mut f = fuel - 1;
        proof {
            crate::ast::lemma_block_view(statements@);
            assert(crate::ast::block_view(statements@) =~= Seq::<StmtV>::empty());
        }
        loop
            invariant
                self.wf(),
                self.toks() == toks,
                f < fuel,
                parse_block_from(toks, self.pos(), crate::ast::block_view(statements@), f as nat)
                    == parse_block_statement_v(toks, pos0, fuel as nat),
            decreases f,
        {
            let at_end = matches!(self.cur_token(), Token::RBrace | Token::EOF);
            if at_end {
                return Ok(statements);
            }
            if f == 0 {
                return Err(self.error_here());
            }
            let stmt = match self.statement(f - 1) {
                Ok(s) => s,
                Err(pe) => {
                    return Err(pe);
                },
            };
            let ghost before = statements@;
            statements.push(stmt);
            proof {
                assert(statements@.drop_last() =~= before);
            }
            self.next_token();
            f = f - 1;
        }
    }

    /// `if ( condition ) { consequence }` with an optional
    /// `else { alternative }`.
    fn if_expression(&mut self, fuel: u64) -> (r: Result<Expression, ParseError>)
        requires
            old(self).wf(),
        ensures
            final(self).wf(),
            final(self).toks() == old(self).toks(),
            ({
                let spec_r = parse_if_expression_v(old(self).toks(), old(self).pos(), fuel as nat);
                match r {
                    Ok(e) => spec_r == Ok::<(ExprV, int), int>(
                        (crate::ast::expr_view(e), final(self).pos()),
                    ),
                    Err(pe) => spec_r is Err && err_matches(pe, spec_r->Err_0, old(self).toks()),
                }
            }),
        decreases fuel,
    {
        if fuel == 0 {
            return Err(self.error_here());
        }
        if !matches!(self.peek_token(), Token::LParen) {
            return Err(self.error_peek());
        }
        self.next_token();
        self.next_token();
        let condition = match self.expression(Precedence::Lowest, fuel - 1) {
            Ok(e) => e,
            Err(pe) => {
                return Err(pe);
            },
        };
        if !matches!(self.peek_token(), Token::RParen) {
            return Err(self.error_peek());
        }
        self.next_token();
        if !matches!(self.peek_token(), Token::LBrace) {
            return Err(self.error_peek());
        }
        self.next_token();
        let consequence = match self.block_statement(fuel - 1) {
            Ok(b) => b,
            Err(pe) => {
                return Err(pe);
            },
        };
        let mut alternative: Option<BlockStatement> = None;
        if matches!(self.peek_token(), Token::Else) {
            self.next_token();
            if !matches!(self.peek_token(), Token::LBrace) {
                return Err(self.error_peek());
            }
            self.next_token();
            alternative = match self.block_statement(fuel - 1) {
                Ok(b) => Some(b),
                Err(pe) => {
                    return Err(pe);
                },
            };
        }
        Ok(Expression::IfExpression { condition: Box::new(condition), consequence, alternative })
    }

    /// `fn ( parameters ) { body }`.
    fn function_literal(&mut self, fuel: u64) -> (r: Result<Expression, ParseError>)
        requires
            old(self).wf(),
        ensures
            final(self).wf(),
            final(self).toks() == old(self).toks(),
            ({
                let spec_r = parse_function_literal_v(
                    old(self).toks(),
                    old(self).pos(),
                    fuel as nat,
                );
                match r {
                    Ok(e) => spec_r == Ok::<(ExprV, int), int>(
                        (crate::ast::expr_view(e), final(self).pos()),
                    ),
                    Err(pe) => spec_r is Err && err_matches(pe, spec_r->Err_0, old(self).toks()),
                }
            }),
        decreases fuel,
    {
        if fuel == 0 {
            return Err(self.error_here());
        }
        if !matches!(self.peek_token(), Token::LParen) {
            return Err(self.error_peek());
        }
        self.next_token();
        let parameters = match self.function_parameters(fuel - 1) {
            Ok(ps) => ps,
            Err(pe) => {
                return Err(pe);
            },
        };
        if !matches!(self.peek_token(), Token::LBrace) {
            return Err(self.error_peek());
        }
        self.next_token();
        let body = match self.block_statement(fuel - 1) {
            Ok(b) => b,
            Err(pe) => {
                return Err(pe);
            },
        };
        Ok(Expression::FunctionLiteral { parameters, body })
    }

    /// A parenthesized, comma-separated list of parameter names.
    #[verifier::loop_isolation(false)]
    fn function_parameters(&mut self, fuel: u64) -> (r: Result<Vec<Identifier>, ParseError>)
        requires
            old(self).wf(),
        ensures
            final(self).wf(),
            final(self).toks() == old(self).toks(),
            ({
                let spec_r = parse_function_parameters_v(
                    old(self).toks(),
                    old(self).pos(),
                    fuel as nat,
                );
                match r {
                    Ok(ps) => spec_r == Ok::<(Seq<Seq<char>>, int), int>(
                        (crate::ast::params_view(ps@), final(self).pos()),
                    ),
                    Err(pe) => spec_r is Err && err_matches(pe, spec_r->Err_0, old(self).toks()),
                }
            }),
        decreases fuel,
    {
        if fuel == 0 {
            return Err(self.error_here());
        }
        let ghost toks = self.toks();
        let ghost pos0 = self.pos();
        let mut identifiers: Vec<Identifier> = Vec::new();
        if matches!(self.peek_token(), Token::RParen) {
            self.next_token();
            proof {
                assert(crate::ast::params_view(identifiers@) =~= Seq::<Seq<char>>::empty());
            }
            return Ok(identifiers);
        }
        self.next_token();
        let name = match self.cur_token() {
            Token::Ident(n) => n.clone(),
            _ => {
                return Err(self.error_here());
            },
        };
        identifiers.push(name);
        proof {
            assert(crate::ast::params_view(identifiers@) =~= seq![identifiers@[0]@]);
        }
        let mut f = fuel - 1;
        loop
            invariant
                self.wf(),
                self.toks() == toks,
                f < fuel,
                parse_parameters_more(
                    toks,
                    self.pos(),
                    crate::ast::params_view(identifiers@),
                    f as nat,
                ) == parse_function_parameters_v(toks, pos0, fuel as nat),
            decreases f,
        {
            if f == 0 {
                return Err(self.error_here());
            }
            if matches!(self.peek_token(), Token::Comma) {
                self.next_token();
                self.next_token();
                let nm = match self.cur_token() {
                    Token::Ident(n) => n.clone(),
                    _ => {
                        return Err(self.error_here());
                    },
                };
                let ghost before = identifiers@;
                identifiers.push(nm);
                proof {
                    assert(crate::ast::params_view(identifiers@) =~= crate::ast::params_view(
                        before,
                    ).push(identifiers@.last()@));
                }
                f = f - 1;
            } else if matches!(self.peek_token(), Token::RParen) {
                self.next_token();
                return Ok(identifiers);
            } else {
                return Err(self.error_peek());
            }
        }
    }

    /// A call applied to the parsed callee: the expression list up to
    /// the closing parenthesis becomes the arguments.
    fn call_expression(&mut self, function: Expression, fuel: u64) -> (r: Result<
        Expression,
        ParseError,
    >)
        requires
            old(self).wf(),
        ensures
            final(self).wf(),
            final(self).toks() == old(self).toks(),
            ({
                let spec_r = parse_call_expression_v(
                    old(self).toks(),
                    old(self).pos(),
                    crate::ast::expr_view(function),
                    fuel as nat,
                );
                match r {
                    Ok(e) => spec_r == Ok::<(ExprV, int), int>(
                        (crate::ast::expr_view(e), final(self).pos()),
                    ),
                    Err(pe) => spec_r is Err && err_matches(pe, spec_r->Err_0, old(self).toks()),
                }
            }),
        decreases fuel,
    {
        if fuel == 0 {
            return Err(self.error_here());
        }
        let arguments = match self.expression_list(Token::RParen, fuel - 1) {
            Ok(es) => es,
            Err(pe) => {
                return Err(pe);
            },
        };
        Ok(Expression::CallExpression { function: Box::new(function), arguments })
    }

    /// A comma-separated expression list terminated by `end`; an empty
    /// list is valid.
    #[verifier::loop_isolation(false)]
    fn expression_list(&mut self, end: Token, fuel: u64) -> (r: Result<
        Vec<Expression>,
        ParseError,
    >)
        requires
            old(self).wf(),
            end@ is RParen || end@ is RBracket || end@ is RBrace,
        ensures
            final(self).wf(),
            final(self).toks() == old(self).toks(),
            ({
                let spec_r = parse_expression_list_v(
                    old(self).toks(),
                    old(self).pos(),
                    end@,
                    fuel as nat,
                );
                match r {
                    Ok(es) => spec_r == Ok::<(Seq<ExprV>, int), int>(
                        (crate::ast::exprs_view(es@), final(self).pos()),
                    ),
                    Err(pe) => spec_r is Err && err_matches(pe, spec_r->Err_0, old(self).toks()),
                }
            }),
        decreases fuel,
    {
        if fuel == 0 {
            return Err(self.error_here());
        }
        let ghost toks = self.toks();
        let ghost pos0 = self.pos();
        let mut arguments: Vec<Expression> = Vec::new();
        if Self::token_matches_end(self.peek_token(), &end) {
            self.next_token();
            proof {
                assert(crate::ast::exprs_view(arguments@) =~= Seq::<ExprV>::empty());
            }
            return Ok(arguments);
        }
        self.next_token();
        let first = match self.expression(Precedence::Lowest, fuel - 1) {
            Ok(e) => e,
            Err(pe) => {
                return Err(pe);
            },
        };
        arguments.push(first);
        proof {
            crate::ast::lemma_exprs_view(arguments@);
            assert(crate::ast::exprs_view(arguments@) =~= seq![
                crate::ast::expr_view(arguments@[0]),
            ]);
        }
        let mut f = fuel - 1;
        loop
            invariant
                self.wf(),
                self.toks() == toks,
                end@ is RParen || end@ is RBracket || end@ is RBrace,
                f < fuel,
                parse_list_more(
                    toks,
                    self.pos(),
                    end@,
                    crate::ast::exprs_view(arguments@),
                    f as nat,
                ) == parse_expression_list_v(toks, pos0, end@, fuel as nat),
            decreases f,
        {
            if f == 0 {
                return Err(self.error_here());
            }
            if matches!(self.peek_token(), Token::Comma) {
                self.next_token();
                self.next_token();
                let e = match self.expression(Precedence::Lowest, f - 1) {
                    Ok(e) => e,
                    Err(pe) => {
                        return Err(pe);
                    },
                };
                let ghost before = arguments@;
                arguments.push(e);
                proof {
                    assert(arguments@.drop_last() =~= before);
                    assert(crate::ast::exprs_view(arguments@) =~= crate::ast::exprs_view(
                        before,
                    ).push(crate::ast::expr_view(arguments@.last())));
                }
                f = f - 1;
            } else if Self::token_matches_end(self.peek_token(), &end) {
                self.next_token();
                return Ok(arguments);
            } else {
                return Err(self.error_peek());
            }
        }
    }

    /// `[ elements ]`.
    fn array_literal(&mut self, fuel: u64) -> (r: Result<Expression, ParseError>)
        requires
            old(self).wf(),
        ensures
            final(self).wf(),
            final(self).toks() == old(self).toks(),
            ({
                let spec_r = parse_array_literal_v(old(self).toks(), old(self).pos(), fuel as nat);
                match r {
                    Ok(e) => spec_r == Ok::<(ExprV, int), int>(
                        (crate::ast::expr_view(e), final(self).pos()),
                    ),
                    Err(pe) => spec_r is Err && err_matches(pe, spec_r->Err_0, old(self).toks()),
                }
            }),
        decreases fuel,
    {
        if fuel == 0 {
            return Err(self.error_here());
        }
        let elements = match self.expression_list(Token::RBracket, fuel - 1) {
            Ok(es) => es,
            Err(pe) => {
                return Err(pe);
            },
        };
        Ok(Expression::ArrayLiteral(elements))
    }

    /// `left [ index ]`.
    fn index_expression(&mut self, left: Expression, fuel: u64) -> (r: Result<
        Expression,
        ParseError,
    >)
        requires
            old(self).wf(),
        ensures
            final(self).wf(),
            final(self).toks() == old(self).toks(),
            ({
                let spec_r = parse_index_expression_v(
                    old(self).toks(),
                    old(self).pos(),
                    crate::ast::expr_view(left),
                    fuel as nat,
                );
                match r {
                    Ok(e) => spec_r == Ok::<(ExprV, int), int>(
                        (crate::ast::expr_view(e), final(self).pos()),
                    ),
                    Err(pe) => spec_r is Err && err_matches(pe, spec_r->Err_0, old(self).toks()),
                }
            }),
        decreases fuel,
    {
        if fuel == 0 {
            return Err(self.error_here());
        }
        self.next_token();
        let index = match self.expression(Precedence::Lowest, fuel - 1) {
            Ok(e) => e,
            Err(pe) => {
                return Err(pe);
            },
        };
        if !matches!(self.peek_token(), Token::RBracket) {
            return Err(self.error_peek());
        }
        self.next_token();
        Ok(Expression::IndexExpression { left: Box::new(left), index: Box::new(index) })
    }

    /// `{ key : value , ... }` with a tolerated trailing comma.
    #[verifier::loop_isolation(false)]
    fn hash_literal(&mut self, fuel: u64) -> (r: Result<Expression, ParseError>)
        requires
            old(self).wf(),
        ensures
            final(self).wf(),
            final(self).toks() == old(self).toks(),
            ({
                let spec_r = parse_hash_literal_v(old(self).toks(), old(self).pos(), fuel as nat);
                match r {
                    Ok(e) => spec_r == Ok::<(ExprV, int), int>(
                        (crate::ast::expr_view(e), final(self).pos()),
                    ),
                    Err(pe) => spec_r is Err && err_matches(pe, spec_r->Err_0, old(self).toks()),
                }
            }),
        decreases fuel,
    {
        if fuel == 0 {
            return Err(self.error_here());
        }
        let ghost toks = self.toks();
        let ghost pos0 = self.pos();
        let mut pairs: Vec<HashPair> = Vec::new();
        let mut f = fuel - 1;
        proof {
            crate::ast::lemma_pairs_view(pairs@);
            assert(crate::ast::pairs_view(pairs@) =~= Seq::<(ExprV, ExprV)>::empty());
        }
        loop
            invariant
                self.wf(),
                self.toks() == toks,
                f < fuel,
                parse_hash_from(toks, self.pos(), crate::ast::pairs_view(pairs@), f as nat)
                    == parse_hash_from(toks, pos0, Seq::empty(), (fuel - 1) as nat),
            decreases f,
        {
            if f == 0 {
                return Err(self.error_here());
            }
            if matches!(self.peek_token(), Token::RBrace) {
                self.next_token();
                return Ok(Expression::HashLiteral(pairs));
            }
            self.next_token();
            let key = match self.expression(Precedence::Lowest, f - 1) {
                Ok(e) => e,
                Err(pe) => {
                    return Err(pe);
                },
            };
            if !matches!(self.peek_token(), Token::Colon) {
                return Err(self.error_peek());
            }
            self.next_token();
            self.next_token();
            let value = match self.expression(Precedence::Lowest, f - 1) {
                Ok(e) => e,
                Err(pe) => {
                    return Err(pe);
                },
            };
            let peek_comma = matches!(self.peek_token(), Token::Comma);
            let peek_rbrace = matches!(self.peek_token(), Token::RBrace);
            if !(peek_comma || peek_rbrace) {
                return Err(self.error_peek());
            }
            let ghost before = pairs@;
            pairs.push(HashPair { key, value });
            proof {
                assert(pairs@.drop_last() =~= before);
                assert(crate::ast::pairs_view(pairs@) =~= crate::ast::pairs_view(before).push(
                    (
                        crate::ast::expr_view(pairs@.last().key),
                        crate::ast::expr_view(pairs@.last().value),
                    ),
                ));
            }
            if peek_comma {
                self.next_token();
            }
            f = f - 1;
        }
    }
}

} // verus!
