//! Re-lexing and re-parsing a rendered syntax tree gives the tree
//! back.
//!
//! This holds of the fully parenthesized fragment of the language —
//! identifier, integer and boolean literals, and the prefix and infix
//! expressions over them — whose canonical rendering is exactly the
//! parenthesized form the parser reads back. Renderings of the other
//! shapes (blocks joined by commas, bare string text, space-separated
//! call arguments) are diagnostics and do not scan back to their own
//! token sequences.

use crate::ast::{
    infix_op_rep, precedence_rank, prefix_op_rep, render_expr_v, render_stmt_v, ExprV,
    InfixOperator, Precedence, PrefixOperator, StmtV,
};
use crate::parser::{
    infix_op_of, parse_expression_v, parse_expression_statement_v, parse_infix_expression_v,
    parse_infix_loop, parse_grouped_expression_v, parse_let_statement_v, parse_prefix_expression_v,
    parse_program_from, parse_program_v, parse_return_statement_v, parse_statement_v, step_pos,
    token_precedence_spec, PARSE_BUDGET,
};
use crate::lexer::{
    char_at, int_token, is_letter_spec, is_ws, next_token_spec, scan_digits, scan_letters, skip_ws,
    tokens_from, tokens_of,
};
use crate::text::{dec_rep, digit_char, digit_val, digits_val, is_digit_spec};
use crate::token::{lookup_ident_spec, TokenV};
use vstd::prelude::*;

verus! {

/// Identifier text the lexer reads back as the same identifier:
/// non-empty, letters only, and not a keyword.
pub open spec fn valid_ident_name(name: Seq<char>) -> bool {
    &&& name.len() >= 1
    &&& forall|i: int| 0 <= i < name.len() ==> is_letter_spec(#[trigger] name[i])
    &&& lookup_ident_spec(name) == TokenV::Ident(name)
}

/// The fully parenthesized fragment: identifier, integer and boolean
/// literals, and prefix and infix expressions over them. Integer
/// literals must be non-negative, as the parser produces them.
pub open spec fn core_expr(e: ExprV) -> bool
    decreases e,
{
    match e {
        ExprV::Ident(name) => valid_ident_name(name),
        ExprV::Int(i) => i >= 0,
        ExprV::Bool(b) => true,
        ExprV::Prefix { op, right } => core_expr(*right),
        ExprV::Infix { left, op, right } => core_expr(*left) && core_expr(*right),
        _ => false,
    }
}

/// The number of nodes of a core expression; the parsing budget the
/// round trip needs grows with it.
pub open spec fn esize(e: ExprV) -> nat
    decreases e,
{
    match e {
        ExprV::Prefix { op, right } => esize(*right) + 1,
        ExprV::Infix { left, op, right } => esize(*left) + esize(*right) + 1,
        _ => 1,
    }
}

/// The token denoting a prefix operator.
pub open spec fn prefix_token(op: PrefixOperator) -> TokenV {
    match op {
        PrefixOperator::Bang => TokenV::Bang,
        PrefixOperator::Minus => TokenV::Minus,
    }
}

/// The token denoting an infix operator.
pub open spec fn infix_token(op: InfixOperator) -> TokenV {
    match op {
        InfixOperator::Plus => TokenV::Plus,
        InfixOperator::Minus => TokenV::Minus,
        InfixOperator::Asterisk => TokenV::Asterisk,
        InfixOperator::Slash => TokenV::Slash,
        InfixOperator::Lt => TokenV::Lt,
        InfixOperator::Gt => TokenV::Gt,
        InfixOperator::Eq => TokenV::Eq,
        InfixOperator::NotEq => TokenV::NotEq,
    }
}

/// The token sequence a core expression's rendering scans to.
pub open spec fn core_tokens(e: ExprV) -> Seq<TokenV>
    decreases e,
{
    match e {
        ExprV::Ident(name) => seq![TokenV::Ident(name)],
        ExprV::Int(i) => seq![TokenV::Int(i)],
        ExprV::Bool(b) => seq![
            if b {
                TokenV::True
            } else {
                TokenV::False
            },
        ],
        ExprV::Prefix { op, right } => seq![TokenV::LParen, prefix_token(op)] + core_tokens(*right)
            + seq![TokenV::RParen],
        ExprV::Infix { left, op, right } => seq![TokenV::LParen] + core_tokens(*left) + seq![
            infix_token(op),
        ] + core_tokens(*right) + seq![TokenV::RParen],
        _ => Seq::empty(),
    }
}

/// The first `n` tokens scanned from position `p`, and the position
/// after them.
pub open spec fn scan_tokens(s: Seq<char>, p: int, n: nat) -> (Seq<TokenV>, int)
    decreases n,
{
    if n == 0 {
        (Seq::empty(), p)
    } else {
        let (t, p1) = next_token_spec(s, p);
        let (rest, p2) = scan_tokens(s, p1, (n - 1) as nat);
        (seq![t] + rest, p2)
    }
}

/// Scanning one token yields that token and the position after it.
pub proof fn lemma_scan_one(s: Seq<char>, p: int)
    ensures
        scan_tokens(s, p, 1) == (seq![next_token_spec(s, p).0], next_token_spec(s, p).1),
{
    let (t, p1) = next_token_spec(s, p);
    assert(scan_tokens(s, p1, 0) == (Seq::<TokenV>::empty(), p1));
    assert(seq![t] + Seq::<TokenV>::empty() =~= seq![t]);
}

/// Scanning `m + n` tokens is scanning `m`, then `n` more from where
/// that left off.
pub proof fn lemma_scan_tokens_add(s: Seq<char>, p: int, m: nat, n: nat)
    ensures
        ({
            let (a, q) = scan_tokens(s, p, m);
            let (b, r) = scan_tokens(s, q, n);
            scan_tokens(s, p, m + n) == (a + b, r)
        }),
    decreases m,
{
    let (a, q) = scan_tokens(s, p, m);
    let (b, r) = scan_tokens(s, q, n);
    if m == 0 {
        assert(a + b =~= b);
        assert(scan_tokens(s, p, m + n) == (b, r));
    } else {
        let (t, p1) = next_token_spec(s, p);
        lemma_scan_tokens_add(s, p1, (m - 1) as nat, n);
        let (a1, q1) = scan_tokens(s, p1, (m - 1) as nat);
        assert(a =~= seq![t] + a1);
        assert(seq![t] + (a1 + b) =~= a + b);
        assert(scan_tokens(s, p1, ((m - 1) + n) as nat) == (a1 + b, r));
        assert((m + n) as nat != 0);
        assert(((m + n) - 1) as nat == (m - 1) + n);
    }
}

/// A leading whitespace character does not change what is scanned.
pub proof fn lemma_scan_tokens_ws(s: Seq<char>, p: int, n: nat)
    requires
        0 <= p < s.len(),
        is_ws(s[p]),
        n >= 1,
    ensures
        scan_tokens(s, p, n) == scan_tokens(s, p + 1, n),
{
    assert(skip_ws(s, p) == skip_ws(s, p + 1));
    assert(next_token_spec(s, p) == next_token_spec(s, p + 1));
}

/// A letter run scans to its end.
pub proof fn lemma_scan_letters_run(s: Seq<char>, p: int, k: int)
    requires
        0 <= p,
        p + k <= s.len(),
        0 <= k,
        forall|i: int| p <= i < p + k ==> is_letter_spec(#[trigger] s[i]),
        p + k == s.len() || !is_letter_spec(s[p + k]),
    ensures
        scan_letters(s, p) == p + k,
    decreases k,
{
    if k > 0 {
        lemma_scan_letters_run(s, p + 1, k - 1);
    }
}

/// A digit run scans to its end.
pub proof fn lemma_scan_digits_run(s: Seq<char>, p: int, k: int)
    requires
        0 <= p,
        p + k <= s.len(),
        0 <= k,
        forall|i: int| p <= i < p + k ==> is_digit_spec(#[trigger] s[i]),
        p + k == s.len() || !is_digit_spec(s[p + k]),
    ensures
        scan_digits(s, p) == p + k,
    decreases k,
{
    if k > 0 {
        lemma_scan_digits_run(s, p + 1, k - 1);
    }
}

/// A digit's character is a digit character carrying the digit's
/// value.
pub proof fn lemma_digit_char(d: nat)
    requires
        d < 10,
    ensures
        is_digit_spec(digit_char(d)),
        digit_val(digit_char(d)) == d,
{
}

/// A decimal representation is a non-empty digit run whose value is
/// the number it represents.
pub proof fn lemma_dec_rep(n: nat)
    ensures
        dec_rep(n).len() >= 1,
        forall|i: int| 0 <= i < dec_rep(n).len() ==> is_digit_spec(#[trigger] dec_rep(n)[i]),
        digits_val(dec_rep(n)) == n,
    decreases n,
{
    if n < 10 {
        lemma_digit_char(n);
        assert(dec_rep(n) =~= seq![digit_char(n)]);
        assert(dec_rep(n).drop_last() =~= Seq::<char>::empty());
        assert(digits_val(Seq::<char>::empty()) == 0);
        assert(digits_val(dec_rep(n)) == digits_val(dec_rep(n).drop_last()) * 10 + digit_val(
            dec_rep(n).last(),
        ));
    } else {
        lemma_dec_rep(n / 10);
        lemma_digit_char(n % 10);
        assert(dec_rep(n) =~= dec_rep(n / 10).push(digit_char(n % 10)));
        assert(dec_rep(n).drop_last() =~= dec_rep(n / 10));
        assert(dec_rep(n).last() == digit_char(n % 10));
        assert(digits_val(dec_rep(n)) == digits_val(dec_rep(n / 10)) * 10 + digit_val(
            digit_char(n % 10),
        ));
        assert(n / 10 * 10 + n % 10 == n);
        assert forall|i: int| 0 <= i < dec_rep(n).len() implies is_digit_spec(
            #[trigger] dec_rep(n)[i],
        ) by {
            if i < dec_rep(n).len() - 1 {
                assert(dec_rep(n)[i] == dec_rep(n / 10)[i]);
            } else {
                assert(dec_rep(n)[i] == digit_char(n % 10));
            }
        }
    }
}

/// A core expression's rendering is non-empty and opens with a letter,
/// a digit, or a parenthesis — never whitespace, never a character
/// that could extend a preceding token.
pub proof fn lemma_core_head(e: ExprV)
    requires
        core_expr(e),
    ensures
        render_expr_v(e).len() >= 1,
        is_letter_spec(render_expr_v(e)[0]) || is_digit_spec(render_expr_v(e)[0]) || render_expr_v(
            e,
        )[0] == '(',
{
    reveal_strlit("true");
    reveal_strlit("false");
    reveal_strlit("(");
    match e {
        ExprV::Ident(name) => {
            assert(is_letter_spec(name[0]));
        },
        ExprV::Int(i) => {
            lemma_dec_rep(i as nat);
            assert(render_expr_v(e) == dec_rep(i as nat));
        },
        ExprV::Bool(b) => {
            if b {
                assert(render_expr_v(e)[0] == 't');
            } else {
                assert(render_expr_v(e)[0] == 'f');
            }
        },
        ExprV::Prefix { op, right } => {
            assert(render_expr_v(e)[0] == '(');
        },
        ExprV::Infix { left, op, right } => {
            assert(render_expr_v(e)[0] == '(');
        },
        _ => {},
    }
}

/// No token of a core expression is the end marker.
pub proof fn lemma_core_tokens_not_eof(e: ExprV)
    requires
        core_expr(e),
    ensures
        core_tokens(e).len() >= 1,
        forall|i: int| 0 <= i < core_tokens(e).len() ==> !(#[trigger] core_tokens(e)[i] is EOF),
    decreases e,
{
    match e {
        ExprV::Prefix { op, right } => {
            lemma_core_tokens_not_eof(*right);
        },
        ExprV::Infix { left, op, right } => {
            lemma_core_tokens_not_eof(*left);
            lemma_core_tokens_not_eof(*right);
        },
        _ => {},
    }
}

/// A character that cannot extend an identifier or integer token: the
/// character after a rendered core expression is one of these (a
/// space, a parenthesis) unless the text simply ends.
pub open spec fn delimits(c: char) -> bool {
    !is_letter_spec(c) && !is_digit_spec(c)
}

/// Scanning a rendered core expression yields exactly its token
/// sequence and stops exactly at its end.
pub proof fn lemma_lex_core(e: ExprV, s: Seq<char>, p: int)
    requires
        core_expr(e),
        0 <= p,
        p + render_expr_v(e).len() <= s.len(),
        s.subrange(p, p + render_expr_v(e).len() as int) == render_expr_v(e),
        p + render_expr_v(e).len() == s.len() || delimits(s[p + render_expr_v(e).len()]),
    ensures
        scan_tokens(s, p, core_tokens(e).len()) == (
            core_tokens(e),
            p + render_expr_v(e).len() as int,
        ),
    decreases e, 1int,
{
    let r = render_expr_v(e);
    let n = r.len() as int;
    assert forall|i: int| p <= i < p + n implies #[trigger] s[i] == r[i - p] by {
        assert(s.subrange(p, p + n)[i - p] == s[i]);
    }
    match e {
        ExprV::Ident(name) => {
            assert(r == name);
            assert(!is_ws(s[p]));
            assert(skip_ws(s, p) == p);
            assert(char_at(s, p) == name[0]);
            lemma_scan_letters_run(s, p, n);
            assert(s.subrange(p, p + n) == name);
            assert(next_token_spec(s, p) == (TokenV::Ident(name), p + n));
            lemma_scan_one(s, p);
        },
        ExprV::Int(i) => {
            lemma_dec_rep(i as nat);
            assert(r == dec_rep(i as nat));
            assert(is_digit_spec(s[p]));
            assert(!is_ws(s[p]));
            assert(skip_ws(s, p) == p);
            lemma_scan_digits_run(s, p, n);
            assert(s.subrange(p, p + n) == dec_rep(i as nat));
            assert(digits_val(dec_rep(i as nat)) == i);
            assert(int_token(dec_rep(i as nat)) == TokenV::Int(i));
            assert(next_token_spec(s, p) == (TokenV::Int(i), p + n));
            lemma_scan_one(s, p);
        },
        ExprV::Bool(b) => {
            reveal_strlit("fn");
            reveal_strlit("let");
            reveal_strlit("true");
            reveal_strlit("false");
            reveal_strlit("if");
            reveal_strlit("else");
            reveal_strlit("return");
            if b {
                assert(r == "true"@);
            } else {
                assert(r == "false"@);
            }
            assert forall|i: int| p <= i < p + n implies is_letter_spec(#[trigger] s[i]) by {
                assert(s[i] == r[i - p]);
            }
            assert(!is_ws(s[p]));
            assert(skip_ws(s, p) == p);
            lemma_scan_letters_run(s, p, n);
            assert(s.subrange(p, p + n) == r);
            let t = if b {
                TokenV::True
            } else {
                TokenV::False
            };
            assert(lookup_ident_spec(r) == t);
            assert(next_token_spec(s, p) == (t, p + n));
            lemma_scan_one(s, p);
        },
        ExprV::Prefix { op, right } => {
            lemma_lex_core_prefix(e, s, p);
        },
        ExprV::Infix { left, op, right } => {
            lemma_lex_core_infix(e, s, p);
        },
        _ => {},
    }
}

/// The prefix-expression case of the scan lemma.
#[verifier::rlimit(100)]
#[verifier::spinoff_prover]
proof fn lemma_lex_core_prefix(e: ExprV, s: Seq<char>, p: int)
    requires
        core_expr(e),
        e is Prefix,
        0 <= p,
        p + render_expr_v(e).len() <= s.len(),
        s.subrange(p, p + render_expr_v(e).len() as int) == render_expr_v(e),
        p + render_expr_v(e).len() == s.len() || delimits(s[p + render_expr_v(e).len()]),
    ensures
        scan_tokens(s, p, core_tokens(e).len()) == (
            core_tokens(e),
            p + render_expr_v(e).len() as int,
        ),
    decreases e, 0int,
{
    let r = render_expr_v(e);
    let n = r.len() as int;
    assert forall|i: int| p <= i < p + n implies #[trigger] s[i] == r[i - p] by {
        assert(s.subrange(p, p + n)[i - p] == s[i]);
    }
    match e {
        ExprV::Prefix { op, right } => {
            reveal_strlit("(");
            reveal_strlit(")");
            reveal_strlit("!");
            reveal_strlit("-");
            let rr = render_expr_v(*right);
            let nr = rr.len() as int;
            assert(r == "("@ + prefix_op_rep(op) + rr + ")"@);
            assert(prefix_op_rep(op).len() == 1);
            assert(n == nr + 3);
            assert(r[0] == '(');
            assert(r[1] == prefix_op_rep(op)[0]);
            assert forall|j: int| 2 <= j < 2 + nr implies #[trigger] r[j] == rr[j - 2] by {}
            assert(r[n - 1] == ')');
            lemma_core_head(*right);
            // the opening parenthesis
            assert(s[p] == '(');
            assert(skip_ws(s, p) == p);
            assert(next_token_spec(s, p) == (TokenV::LParen, p + 1));
            // the operator
            assert(s[p + 1] == prefix_op_rep(op)[0]);
            assert(skip_ws(s, p + 1) == p + 1);
            assert(char_at(s, p + 2) == rr[0]);
            assert(rr[0] != '=');
            match op {
                PrefixOperator::Bang => {
                    assert(s[p + 1] == '!');
                    assert(next_token_spec(s, p + 1) == (TokenV::Bang, p + 2));
                },
                PrefixOperator::Minus => {
                    assert(s[p + 1] == '-');
                    assert(next_token_spec(s, p + 1) == (TokenV::Minus, p + 2));
                },
            }
            // the operand, delimited by the closing parenthesis
            assert(s.subrange(p + 2, p + 2 + nr) =~= rr);
            assert(s[p + 2 + nr] == ')');
            lemma_lex_core(*right, s, p + 2);
            let tsr = core_tokens(*right);
            let m = tsr.len();
            lemma_core_tokens_not_eof(*right);
            // the closing parenthesis
            assert(skip_ws(s, p + 2 + nr) == p + 2 + nr);
            assert(next_token_spec(s, p + 2 + nr) == (TokenV::RParen, p + n));
            lemma_scan_one(s, p + 2 + nr);
            // assemble
            lemma_scan_tokens_add(s, p + 2, m, 1);
            assert(scan_tokens(s, p + 2, m + 1) == (tsr + seq![TokenV::RParen], p + n));
            lemma_scan_one(s, p + 1);
            lemma_scan_tokens_add(s, p + 1, 1, m + 1);
            assert(scan_tokens(s, p + 1, m + 2) == (
                seq![prefix_token(op)] + (tsr + seq![TokenV::RParen]),
                p + n,
            ));
            lemma_scan_one(s, p);
            lemma_scan_tokens_add(s, p, 1, m + 2);
            assert(core_tokens(e) =~= seq![TokenV::LParen] + (seq![prefix_token(op)] + (tsr
                + seq![TokenV::RParen])));
            assert(core_tokens(e).len() == m + 3);
            assert(scan_tokens(s, p, m + 3) == (core_tokens(e), p + n));
        },
        _ => {},
    }
}

/// The infix-expression case of the scan lemma.
#[verifier::rlimit(100)]
#[verifier::spinoff_prover]
proof fn lemma_lex_core_infix(e: ExprV, s: Seq<char>, p: int)
    requires
        core_expr(e),
        e is Infix,
        0 <= p,
        p + render_expr_v(e).len() <= s.len(),
        s.subrange(p, p + render_expr_v(e).len() as int) == render_expr_v(e),
        p + render_expr_v(e).len() == s.len() || delimits(s[p + render_expr_v(e).len()]),
    ensures
        scan_tokens(s, p, core_tokens(e).len()) == (
            core_tokens(e),
            p + render_expr_v(e).len() as int,
        ),
    decreases e, 0int,
{
    let r = render_expr_v(e);
    let n = r.len() as int;
    assert forall|i: int| p <= i < p + n implies #[trigger] s[i] == r[i - p] by {
        assert(s.subrange(p, p + n)[i - p] == s[i]);
    }
    match e {
        ExprV::Infix { left, op, right } => {
            reveal_strlit("(");
            reveal_strlit(")");
            reveal_strlit(" ");
            reveal_strlit("+");
            reveal_strlit("-");
            reveal_strlit("*");
            reveal_strlit("/");
            reveal_strlit("<");
            reveal_strlit(">");
            reveal_strlit("==");
            reveal_strlit("!=");
            let rl = render_expr_v(*left);
            let nl = rl.len() as int;
            let io = infix_op_rep(op);
            let ni = io.len() as int;
            let rr = render_expr_v(*right);
            let nr = rr.len() as int;
            assert(r == "("@ + rl + " "@ + io + " "@ + rr + ")"@);
            assert(n == nl + ni + nr + 4);
            assert(r[0] == '(');
            assert forall|j: int| 1 <= j < 1 + nl implies #[trigger] r[j] == rl[j - 1] by {}
            assert(r[1 + nl] == ' ');
            assert forall|j: int|
                2 + nl <= j < 2 + nl + ni implies #[trigger] r[j] == io[j - 2 - nl] by {}
            assert(r[2 + nl + ni] == ' ');
            assert forall|j: int|
                3 + nl + ni <= j < 3 + nl + ni + nr implies #[trigger] r[j] == rr[j - 3 - nl
                    - ni] by {}
            assert(r[n - 1] == ')');
            lemma_core_head(*left);
            lemma_core_head(*right);
            lemma_core_tokens_not_eof(*left);
            lemma_core_tokens_not_eof(*right);
            let tsl = core_tokens(*left);
            let ml = tsl.len();
            let tsr = core_tokens(*right);
            let mr = tsr.len();
            // the opening parenthesis
            assert(s[p] == '(');
            assert(skip_ws(s, p) == p);
            assert(next_token_spec(s, p) == (TokenV::LParen, p + 1));
            lemma_scan_one(s, p);
            // the left operand, delimited by the space after it
            assert(s.subrange(p + 1, p + 1 + nl) =~= rl);
            assert(s[p + 1 + nl] == ' ');
            lemma_lex_core(*left, s, p + 1);
            // the operator, behind one space
            let po = p + 1 + nl;
            assert(is_ws(s[po]));
            assert(skip_ws(s, po) == skip_ws(s, po + 1));
            assert(s[po + 1] == io[0]);
            assert(!is_ws(s[po + 1]));
            assert(skip_ws(s, po) == po + 1);
            let after_op = po + 1 + ni;
            assert(s[after_op] == ' ');
            match op {
                InfixOperator::Plus => {
                    reveal_strlit("+");
                    assert(s[po + 1] == '+');
                    assert(next_token_spec(s, po) == (TokenV::Plus, po + 2));
                },
                InfixOperator::Minus => {
                    reveal_strlit("-");
                    assert(s[po + 1] == '-');
                    assert(next_token_spec(s, po) == (TokenV::Minus, po + 2));
                },
                InfixOperator::Asterisk => {
                    reveal_strlit("*");
                    assert(s[po + 1] == '*');
                    assert(next_token_spec(s, po) == (TokenV::Asterisk, po + 2));
                },
                InfixOperator::Slash => {
                    reveal_strlit("/");
                    assert(s[po + 1] == '/');
                    assert(next_token_spec(s, po) == (TokenV::Slash, po + 2));
                },
                InfixOperator::Lt => {
                    reveal_strlit("<");
                    assert(s[po + 1] == '<');
                    assert(char_at(s, po + 2) == ' ');
                    assert(next_token_spec(s, po) == (TokenV::Lt, po + 2));
                },
                InfixOperator::Gt => {
                    reveal_strlit(">");
                    assert(s[po + 1] == '>');
                    assert(next_token_spec(s, po) == (TokenV::Gt, po + 2));
                },
                InfixOperator::Eq => {
                    reveal_strlit("==");
                    assert(s[po + 1] == '=');
                    assert(s[po + 2] == '=');
                    assert(char_at(s, po + 2) == '=');
                    assert(next_token_spec(s, po) == (TokenV::Eq, po + 3));
                },
                InfixOperator::NotEq => {
                    reveal_strlit("!=");
                    assert(s[po + 1] == '!');
                    assert(s[po + 2] == '=');
                    assert(char_at(s, po + 2) == '=');
                    assert(next_token_spec(s, po) == (TokenV::NotEq, po + 3));
                },
            }
            assert(next_token_spec(s, po) == (infix_token(op), after_op));
            lemma_scan_one(s, po);
            // the right operand, behind one space, delimited by `)`
            assert(s.subrange(after_op + 1, after_op + 1 + nr) =~= rr);
            assert(s[after_op + 1 + nr] == ')');
            lemma_lex_core(*right, s, after_op + 1);
            assert(is_ws(s[after_op]));
            lemma_scan_tokens_ws(s, after_op, mr);
            assert(scan_tokens(s, after_op, mr) == (tsr, after_op + 1 + nr));
            // the closing parenthesis
            let pr = after_op + 1 + nr;
            assert(s[pr] == ')');
            assert(skip_ws(s, pr) == pr);
            assert(next_token_spec(s, pr) == (TokenV::RParen, p + n));
            lemma_scan_one(s, pr);
            // assemble
            lemma_scan_tokens_add(s, after_op, mr, 1);
            assert(scan_tokens(s, after_op, mr + 1) == (tsr + seq![TokenV::RParen], p + n));
            lemma_scan_tokens_add(s, po, 1, mr + 1);
            assert(scan_tokens(s, po, mr + 2) == (
                seq![infix_token(op)] + (tsr + seq![TokenV::RParen]),
                p + n,
            ));
            lemma_scan_tokens_add(s, p + 1, ml, mr + 2);
            assert(scan_tokens(s, p + 1, ml + mr + 2) == (
                tsl + (seq![infix_token(op)] + (tsr + seq![TokenV::RParen])),
                p + n,
            ));
            lemma_scan_tokens_add(s, p, 1, ml + mr + 2);
            assert(core_tokens(e) =~= seq![TokenV::LParen] + (tsl + (seq![infix_token(op)] + (tsr
                + seq![TokenV::RParen]))));
            assert(core_tokens(e).len() == ml + mr + 3);
            assert(scan_tokens(s, p, ml + mr + 3) == (core_tokens(e), p + n));
        },
        _ => {},
    }
}

/// An infix operator's token denotes that operator and binds more
/// tightly than the lowest level.
pub proof fn lemma_infix_token_prec(op: InfixOperator)
    ensures
        infix_op_of(infix_token(op)) == Some(op),
        precedence_rank(token_precedence_spec(infix_token(op))) >= 1,
{
}

/// A core expression's token sequence parses, from its first token, to
/// exactly that expression, leaving the parser on its last token and
/// the infix loop to run at whatever level the caller asked for.
pub proof fn lemma_parse_core(e: ExprV, toks: Seq<TokenV>, pos: int, fuel: nat)
    requires
        core_expr(e),
        0 <= pos,
        pos + core_tokens(e).len() < toks.len(),
        toks.subrange(pos, pos + core_tokens(e).len() as int) == core_tokens(e),
        fuel >= 8 * esize(e),
    ensures
        forall|mp: Precedence|
            #[trigger] parse_expression_v(toks, pos, mp, fuel) == parse_infix_loop(
                toks,
                pos + core_tokens(e).len() - 1,
                e,
                mp,
                (fuel - 1) as nat,
            ),
    decreases e, 1int,
{
    let ts = core_tokens(e);
    let m = ts.len() as int;
    assert forall|j: int| pos <= j < pos + m implies #[trigger] toks[j] == ts[j - pos] by {
        assert(toks.subrange(pos, pos + m)[j - pos] == toks[j]);
    }
    match e {
        ExprV::Ident(name) => {
            assert(toks[pos] == TokenV::Ident(name));
        },
        ExprV::Int(i) => {
            assert(toks[pos] == TokenV::Int(i));
        },
        ExprV::Bool(b) => {
            if b {
                assert(toks[pos] == TokenV::True);
            } else {
                assert(toks[pos] == TokenV::False);
            }
        },
        ExprV::Prefix { op, right } => {
            lemma_parse_core_prefix(e, toks, pos, fuel);
        },
        ExprV::Infix { left, op, right } => {
            lemma_parse_core_infix(e, toks, pos, fuel);
        },
        _ => {},
    }
}

/// The prefix-expression case of the parse lemma.
#[verifier::rlimit(100)]
#[verifier::spinoff_prover]
proof fn lemma_parse_core_prefix(e: ExprV, toks: Seq<TokenV>, pos: int, fuel: nat)
    requires
        core_expr(e),
        e is Prefix,
        0 <= pos,
        pos + core_tokens(e).len() < toks.len(),
        toks.subrange(pos, pos + core_tokens(e).len() as int) == core_tokens(e),
        fuel >= 8 * esize(e),
    ensures
        forall|mp: Precedence|
            #[trigger] parse_expression_v(toks, pos, mp, fuel) == parse_infix_loop(
                toks,
                pos + core_tokens(e).len() - 1,
                e,
                mp,
                (fuel - 1) as nat,
            ),
    decreases e, 0int,
{
    let ts = core_tokens(e);
    let m = ts.len() as int;
    assert forall|j: int| pos <= j < pos + m implies #[trigger] toks[j] == ts[j - pos] by {
        assert(toks.subrange(pos, pos + m)[j - pos] == toks[j]);
    }
    match e {
        ExprV::Prefix { op, right } => {
            let tsr = core_tokens(*right);
            let mr = tsr.len() as int;
            lemma_core_tokens_not_eof(*right);
            assert(ts == seq![TokenV::LParen, prefix_token(op)] + tsr + seq![TokenV::RParen]);
            assert(m == mr + 3);
            assert(toks[pos] == TokenV::LParen);
            assert(toks[pos + 1] == prefix_token(op));
            assert forall|j: int|
                pos + 2 <= j < pos + 2 + mr implies #[trigger] toks[j] == tsr[j - pos - 2] by {
                assert(ts[j - pos] == tsr[j - pos - 2]);
            }
            assert(toks[pos + m - 1] == TokenV::RParen);
            assert(toks.subrange(pos + 2, pos + 2 + mr) =~= tsr);
            // the operand parses to `right` and its loop stops at `)`
            lemma_parse_core(*right, toks, pos + 2, (fuel - 4) as nat);
            let r_end = pos + 2 + mr - 1;
            assert(step_pos(toks, r_end) == r_end + 1);
            assert(toks[r_end + 1] == TokenV::RParen);
            assert(token_precedence_spec(TokenV::RParen) == Precedence::Lowest);
            assert(parse_expression_v(toks, pos + 2, Precedence::Prefix, (fuel - 4) as nat)
                == parse_infix_loop(toks, r_end, *right, Precedence::Prefix, (fuel - 5) as nat));
            assert(parse_infix_loop(toks, r_end, *right, Precedence::Prefix, (fuel - 5) as nat)
                == Ok::<(ExprV, int), int>((*right, r_end)));
            // the prefix handler wraps it
            assert(toks[pos + 1] == prefix_token(op));
            assert(parse_prefix_expression_v(toks, pos + 1, (fuel - 3) as nat) == Ok::<
                (ExprV, int),
                int,
            >((e, r_end)));
            // the grouped expression at lowest level stops at `)` too
            assert(parse_expression_v(toks, pos + 1, Precedence::Lowest, (fuel - 2) as nat)
                == parse_infix_loop(toks, r_end, e, Precedence::Lowest, (fuel - 3) as nat));
            assert(parse_infix_loop(toks, r_end, e, Precedence::Lowest, (fuel - 3) as nat) == Ok::<
                (ExprV, int),
                int,
            >((e, r_end)));
            assert(step_pos(toks, pos) == pos + 1);
            assert(parse_grouped_expression_v(toks, pos, (fuel - 1) as nat) == Ok::<
                (ExprV, int),
                int,
            >((e, r_end + 1)));
            assert(r_end + 1 == pos + m - 1);
        },
        _ => {},
    }
}

/// The infix-expression case of the parse lemma.
#[verifier::rlimit(100)]
#[verifier::spinoff_prover]
proof fn lemma_parse_core_infix(e: ExprV, toks: Seq<TokenV>, pos: int, fuel: nat)
    requires
        core_expr(e),
        e is Infix,
        0 <= pos,
        pos + core_tokens(e).len() < toks.len(),
        toks.subrange(pos, pos + core_tokens(e).len() as int) == core_tokens(e),
        fuel >= 8 * esize(e),
    ensures
        forall|mp: Precedence|
            #[trigger] parse_expression_v(toks, pos, mp, fuel) == parse_infix_loop(
                toks,
                pos + core_tokens(e).len() - 1,
                e,
                mp,
                (fuel - 1) as nat,
            ),
    decreases e, 0int,
{
    let ts = core_tokens(e);
    let m = ts.len() as int;
    assert forall|j: int| pos <= j < pos + m implies #[trigger] toks[j] == ts[j - pos] by {
        assert(toks.subrange(pos, pos + m)[j - pos] == toks[j]);
    }
    match e {
        ExprV::Infix { left, op, right } => {
            let tsl = core_tokens(*left);
            let ml = tsl.len() as int;
            let tsr = core_tokens(*right);
            let mr = tsr.len() as int;
            lemma_core_tokens_not_eof(*left);
            lemma_core_tokens_not_eof(*right);
            lemma_infix_token_prec(op);
            assert(ts == seq![TokenV::LParen] + tsl + seq![infix_token(op)] + tsr + seq![
                TokenV::RParen,
            ]);
            assert(m == ml + mr + 3);
            assert(toks[pos] == TokenV::LParen);
            assert forall|j: int|
                pos + 1 <= j < pos + 1 + ml implies #[trigger] toks[j] == tsl[j - pos - 1] by {
                assert(ts[j - pos] == tsl[j - pos - 1]);
            }
            assert(toks[pos + 1 + ml] == infix_token(op));
            assert forall|j: int|
                pos + 2 + ml <= j < pos + 2 + ml + mr implies #[trigger] toks[j] == tsr[j - pos - 2
                    - ml] by {
                assert(ts[j - pos] == tsr[j - pos - 2 - ml]);
            }
            assert(toks[pos + m - 1] == TokenV::RParen);
            assert(toks.subrange(pos + 1, pos + 1 + ml) =~= tsl);
            assert(toks.subrange(pos + 2 + ml, pos + 2 + ml + mr) =~= tsr);
            // the left operand parses to `left`; at the lowest level
            // its loop meets the operator and keeps going
            lemma_parse_core(*left, toks, pos + 1, (fuel - 2) as nat);
            let l_end = pos + 1 + ml - 1;
            assert(parse_expression_v(toks, pos + 1, Precedence::Lowest, (fuel - 2) as nat)
                == parse_infix_loop(toks, l_end, *left, Precedence::Lowest, (fuel - 3) as nat));
            assert(step_pos(toks, l_end) == l_end + 1);
            assert(toks[l_end + 1] == infix_token(op));
            let op_prec = token_precedence_spec(infix_token(op));
            // the right operand parses to `right`; at the operator's
            // level its loop stops at `)`
            lemma_parse_core(*right, toks, pos + 2 + ml, (fuel - 5) as nat);
            let r_end = pos + 2 + ml + mr - 1;
            assert(step_pos(toks, r_end) == r_end + 1);
            assert(toks[r_end + 1] == TokenV::RParen);
            assert(token_precedence_spec(TokenV::RParen) == Precedence::Lowest);
            assert(parse_expression_v(toks, pos + 2 + ml, op_prec, (fuel - 5) as nat)
                == parse_infix_loop(toks, r_end, *right, op_prec, (fuel - 6) as nat));
            assert(parse_infix_loop(toks, r_end, *right, op_prec, (fuel - 6) as nat) == Ok::<
                (ExprV, int),
                int,
            >((*right, r_end)));
            // the operator combines them
            assert(step_pos(toks, l_end + 1) == l_end + 2);
            assert(l_end + 2 == pos + 2 + ml);
            assert(parse_infix_expression_v(toks, l_end + 1, *left, (fuel - 4) as nat) == Ok::<
                (ExprV, int),
                int,
            >((e, r_end)));
            // the loop at the lowest level takes one turn, then stops
            assert(parse_infix_loop(toks, r_end, e, Precedence::Lowest, (fuel - 4) as nat) == Ok::<
                (ExprV, int),
                int,
            >((e, r_end)));
            assert(parse_infix_loop(toks, l_end, *left, Precedence::Lowest, (fuel - 3) as nat)
                == Ok::<(ExprV, int), int>((e, r_end)));
            // the grouped expression wraps it all
            assert(step_pos(toks, pos) == pos + 1);
            assert(parse_grouped_expression_v(toks, pos, (fuel - 1) as nat) == Ok::<
                (ExprV, int),
                int,
            >((e, r_end + 1)));
            assert(r_end + 1 == pos + m - 1);
        },
        _ => {},
    }
}

/// Scanned tokens followed by the end marker are the whole token
/// stream from the scan's start.
pub proof fn lemma_tokens_from_scan(s: Seq<char>, p: int, n: nat)
    requires
        0 <= p <= s.len(),
        forall|i: int|
            0 <= i < scan_tokens(s, p, n).0.len() ==> !(#[trigger] scan_tokens(s, p, n).0[i]
                is EOF),
        next_token_spec(s, scan_tokens(s, p, n).1).0 is EOF,
        p <= scan_tokens(s, p, n).1 <= s.len(),
    ensures
        tokens_from(s, p) == scan_tokens(s, p, n).0 + seq![TokenV::EOF],
    decreases n,
{
    let (ts, p2) = scan_tokens(s, p, n);
    if n == 0 {
        assert(tokens_from(s, p) == seq![TokenV::EOF]);
        assert(ts + seq![TokenV::EOF] =~= seq![TokenV::EOF]);
    } else {
        let (t, p1) = next_token_spec(s, p);
        let (rest, _) = scan_tokens(s, p1, (n - 1) as nat);
        assert(ts =~= seq![t] + rest);
        assert(!(ts[0] is EOF));
        assert(t == ts[0]);
        crate::lexer::lemma_next_token_advances(s, p);
        assert forall|i: int|
            0 <= i < rest.len() implies !(#[trigger] scan_tokens(s, p1, (n - 1) as nat).0[i]
            is EOF) by {
            assert(ts[i + 1] == rest[i]);
        }
        assert(p1 <= p2) by {
            lemma_scan_pos_monotone(s, p1, (n - 1) as nat);
        }
        lemma_tokens_from_scan(s, p1, (n - 1) as nat);
        assert(tokens_from(s, p) == seq![t] + tokens_from(s, p1));
        assert(seq![t] + (rest + seq![TokenV::EOF]) =~= ts + seq![TokenV::EOF]);
    }
}

/// Scanning never moves the position backward.
pub proof fn lemma_scan_pos_monotone(s: Seq<char>, p: int, n: nat)
    requires
        0 <= p <= s.len(),
    ensures
        p <= scan_tokens(s, p, n).1,
    decreases n,
{
    if n > 0 {
        let (t, p1) = next_token_spec(s, p);
        crate::lexer::lemma_next_token_advances(s, p);
        lemma_scan_pos_monotone(s, p1, (n - 1) as nat);
    }
}

/// A statement over the fully parenthesized fragment: any of the
/// three statement forms whose expression is a core expression.
pub open spec fn core_stmt(st: StmtV) -> bool {
    match st {
        StmtV::Let { name, value } => valid_ident_name(name) && core_expr(value),
        StmtV::Return(value) => core_expr(value),
        StmtV::Expr(value) => core_expr(value),
    }
}

/// The number of expression nodes under a statement.
pub open spec fn ssize(st: StmtV) -> nat {
    match st {
        StmtV::Let { name, value } => esize(value),
        StmtV::Return(value) => esize(value),
        StmtV::Expr(value) => esize(value),
    }
}

/// The token sequence a core statement's rendering scans to.
pub open spec fn stmt_tokens(st: StmtV) -> Seq<TokenV> {
    match st {
        StmtV::Let { name, value } => seq![TokenV::Let, TokenV::Ident(name), TokenV::Assign]
            + core_tokens(value) + seq![TokenV::Semicolon],
        StmtV::Return(value) => seq![TokenV::Return] + core_tokens(value) + seq![TokenV::Semicolon],
        StmtV::Expr(value) => core_tokens(value),
    }
}

/// Scanning a rendered core `let` statement yields exactly its token
/// sequence and consumes the whole rendering.
#[verifier::rlimit(100)]
#[verifier::spinoff_prover]
proof fn lemma_lex_let_stmt(st: StmtV, s: Seq<char>)
    requires
        core_stmt(st),
        st is Let,
        s == render_stmt_v(st),
    ensures
        scan_tokens(s, 0, stmt_tokens(st).len()) == (stmt_tokens(st), s.len() as int),
{
    match st {
        StmtV::Let { name, value } => {
            reveal_strlit("fn");
            reveal_strlit("let");
            reveal_strlit("let ");
            reveal_strlit(" = ");
            reveal_strlit(";");
            let nl = name.len() as int;
            let re = render_expr_v(value);
            let ne = re.len() as int;
            let n = s.len() as int;
            assert(s == "let "@ + name + " = "@ + re + ";"@);
            assert(n == nl + ne + 8);
            assert(s[0] == 'l');
            assert(s[1] == 'e');
            assert(s[2] == 't');
            assert(s[3] == ' ');
            assert forall|j: int| 4 <= j < 4 + nl implies #[trigger] s[j] == name[j - 4] by {}
            assert(s[4 + nl] == ' ');
            assert(s[5 + nl] == '=');
            assert(s[6 + nl] == ' ');
            assert forall|j: int|
                7 + nl <= j < 7 + nl + ne implies #[trigger] s[j] == re[j - 7 - nl] by {}
            assert(s[n - 1] == ';');
            lemma_core_head(value);
            lemma_core_tokens_not_eof(value);
            let tse = core_tokens(value);
            let me = tse.len() as int;
            // the keyword
            assert forall|i: int| 0 <= i < 3 implies is_letter_spec(#[trigger] s[i]) by {
                if i == 0 {
                    assert(s[i] == 'l');
                } else if i == 1 {
                    assert(s[i] == 'e');
                } else {
                    assert(s[i] == 't');
                }
            }
            lemma_scan_letters_run(s, 0, 3);
            assert(s.subrange(0, 3) =~= "let"@);
            assert(lookup_ident_spec("let"@) == TokenV::Let);
            assert(skip_ws(s, 0) == 0);
            assert(next_token_spec(s, 0) == (TokenV::Let, 3int));
            lemma_scan_one(s, 0);
            // the bound name
            assert(is_ws(s[3]));
            assert(skip_ws(s, 3) == skip_ws(s, 4));
            assert(!is_ws(s[4]));
            assert(skip_ws(s, 3) == 4);
            assert forall|i: int| 4 <= i < 4 + nl implies is_letter_spec(#[trigger] s[i]) by {
                assert(s[i] == name[i - 4]);
            }
            lemma_scan_letters_run(s, 4, nl);
            assert(s.subrange(4, 4 + nl) =~= name);
            assert(next_token_spec(s, 3) == (TokenV::Ident(name), 4 + nl));
            lemma_scan_one(s, 3);
            // the assignment sign
            assert(is_ws(s[4 + nl]));
            assert(skip_ws(s, 4 + nl) == skip_ws(s, 5 + nl));
            assert(skip_ws(s, 4 + nl) == 5 + nl);
            assert(char_at(s, 6 + nl) == ' ');
            assert(next_token_spec(s, 4 + nl) == (TokenV::Assign, 6 + nl));
            lemma_scan_one(s, 4 + nl);
            // the bound expression, behind one space, delimited by `;`
            assert(s.subrange(7 + nl, 7 + nl + ne) =~= re);
            assert(s[7 + nl + ne] == ';');
            lemma_lex_core(value, s, 7 + nl);
            assert(is_ws(s[6 + nl]));
            lemma_scan_tokens_ws(s, 6 + nl, me as nat);
            assert(scan_tokens(s, 6 + nl, me as nat) == (tse, 7 + nl + ne));
            // the semicolon
            assert(skip_ws(s, 7 + nl + ne) == 7 + nl + ne);
            assert(next_token_spec(s, 7 + nl + ne) == (TokenV::Semicolon, n));
            lemma_scan_one(s, 7 + nl + ne);
            // assemble
            lemma_scan_tokens_add(s, 6 + nl, me as nat, 1);
            assert(scan_tokens(s, 6 + nl, (me + 1) as nat) == (
                tse + seq![TokenV::Semicolon],
                n,
            ));
            lemma_scan_tokens_add(s, 4 + nl, 1, (me + 1) as nat);
            assert(scan_tokens(s, 4 + nl, (me + 2) as nat) == (
                seq![TokenV::Assign] + (tse + seq![TokenV::Semicolon]),
                n,
            ));
            lemma_scan_tokens_add(s, 3, 1, (me + 2) as nat);
            assert(scan_tokens(s, 3, (me + 3) as nat) == (
                seq![TokenV::Ident(name)] + (seq![TokenV::Assign] + (tse + seq![
                    TokenV::Semicolon,
                ])),
                n,
            ));
            lemma_scan_tokens_add(s, 0, 1, (me + 3) as nat);
            assert(stmt_tokens(st) =~= seq![TokenV::Let] + (seq![TokenV::Ident(name)] + (seq![
                TokenV::Assign,
            ] + (tse + seq![TokenV::Semicolon]))));
            assert(stmt_tokens(st).len() == me + 4);
            assert(scan_tokens(s, 0, (me + 4) as nat) == (stmt_tokens(st), n));
        },
        _ => {},
    }
}

/// Scanning a rendered core `return` statement yields exactly its
/// token sequence and consumes the whole rendering.
#[verifier::rlimit(100)]
#[verifier::spinoff_prover]
proof fn lemma_lex_return_stmt(st: StmtV, s: Seq<char>)
    requires
        core_stmt(st),
        st is Return,
        s == render_stmt_v(st),
    ensures
        scan_tokens(s, 0, stmt_tokens(st).len()) == (stmt_tokens(st), s.len() as int),
{
    match st {
        StmtV::Return(value) => {
            reveal_strlit("fn");
            reveal_strlit("let");
            reveal_strlit("true");
            reveal_strlit("false");
            reveal_strlit("if");
            reveal_strlit("else");
            reveal_strlit("return");
            reveal_strlit("return ");
            reveal_strlit(";");
            let re = render_expr_v(value);
            let ne = re.len() as int;
            let n = s.len() as int;
            assert(s == "return "@ + re + ";"@);
            assert(n == ne + 8);
            assert(s[0] == 'r');
            assert(s[1] == 'e');
            assert(s[2] == 't');
            assert(s[3] == 'u');
            assert(s[4] == 'r');
            assert(s[5] == 'n');
            assert(s[6] == ' ');
            assert forall|j: int| 7 <= j < 7 + ne implies #[trigger] s[j] == re[j - 7] by {}
            assert(s[n - 1] == ';');
            lemma_core_head(value);
            lemma_core_tokens_not_eof(value);
            let tse = core_tokens(value);
            let me = tse.len() as int;
            // the keyword
            assert forall|i: int| 0 <= i < 6 implies is_letter_spec(#[trigger] s[i]) by {
                if i == 0 {
                    assert(s[i] == 'r');
                } else if i == 1 {
                    assert(s[i] == 'e');
                } else if i == 2 {
                    assert(s[i] == 't');
                } else if i == 3 {
                    assert(s[i] == 'u');
                } else if i == 4 {
                    assert(s[i] == 'r');
                } else {
                    assert(s[i] == 'n');
                }
            }
            lemma_scan_letters_run(s, 0, 6);
            assert(s.subrange(0, 6) =~= "return"@);
            assert(lookup_ident_spec("return"@) == TokenV::Return);
            assert(skip_ws(s, 0) == 0);
            assert(next_token_spec(s, 0) == (TokenV::Return, 6int));
            lemma_scan_one(s, 0);
            // the returned expression, behind one space, delimited by `;`
            assert(s.subrange(7, 7 + ne) =~= re);
            assert(s[7 + ne] == ';');
            lemma_lex_core(value, s, 7);
            assert(is_ws(s[6]));
            lemma_scan_tokens_ws(s, 6, me as nat);
            assert(scan_tokens(s, 6, me as nat) == (tse, 7 + ne));
            // the semicolon
            assert(skip_ws(s, 7 + ne) == 7 + ne);
            assert(next_token_spec(s, 7 + ne) == (TokenV::Semicolon, n));
            lemma_scan_one(s, 7 + ne);
            // assemble
            lemma_scan_tokens_add(s, 6, me as nat, 1);
            assert(scan_tokens(s, 6, (me + 1) as nat) == (tse + seq![TokenV::Semicolon], n));
            lemma_scan_tokens_add(s, 0, 1, (me + 1) as nat);
            assert(stmt_tokens(st) =~= seq![TokenV::Return] + (tse + seq![TokenV::Semicolon]));
            assert(stmt_tokens(st).len() == me + 2);
            assert(scan_tokens(s, 0, (me + 2) as nat) == (stmt_tokens(st), n));
        },
        _ => {},
    }
}

/// Re-lexing the canonical rendering of a parsed tree and re-parsing
/// it yields a structurally equal tree: for a program whose statement
/// is an expression of the fully parenthesized fragment, scanning the
/// rendering and parsing the scanned tokens gives back exactly that
/// statement.
#[verifier::rlimit(100)]
#[verifier::spinoff_prover]
pub proof fn lemma_render_lex_parse_roundtrip(e: ExprV)
    requires
        core_expr(e),
        8 * esize(e) + 8 <= PARSE_BUDGET,
    ensures
        ({
            let toks = tokens_of(render_expr_v(e));
            parse_program_v(toks, 0, PARSE_BUDGET as nat) == Ok::<(Seq<StmtV>, int), int>(
                (seq![StmtV::Expr(e)], toks.len() - 1),
            )
        }),
{
    let r = render_expr_v(e);
    let n = r.len() as int;
    let ts = core_tokens(e);
    let m = ts.len() as int;
    lemma_core_head(e);
    lemma_core_tokens_not_eof(e);
    // scanning the rendering yields the expression's tokens, then the
    // end marker
    assert(r.subrange(0, n) =~= r);
    lemma_lex_core(e, r, 0);
    assert(skip_ws(r, n) == n);
    assert(char_at(r, n) == '\0');
    assert(next_token_spec(r, n).0 is EOF);
    lemma_tokens_from_scan(r, 0, m as nat);
    let toks = tokens_of(r);
    assert(toks == ts + seq![TokenV::EOF]);
    assert(toks.len() == m + 1);
    assert forall|j: int| 0 <= j < m implies #[trigger] toks[j] == ts[j] by {}
    assert(toks[m] == TokenV::EOF);
    assert(toks.subrange(0, m) =~= ts);
    // parsing the tokens yields one expression statement holding `e`
    let b = PARSE_BUDGET as nat;
    lemma_parse_core(e, toks, 0, (b - 3) as nat);
    assert(parse_expression_v(toks, 0, Precedence::Lowest, (b - 3) as nat) == parse_infix_loop(
        toks,
        m - 1,
        e,
        Precedence::Lowest,
        (b - 4) as nat,
    ));
    assert(step_pos(toks, m - 1) == m);
    assert(toks[m] == TokenV::EOF);
    assert(token_precedence_spec(TokenV::EOF) == Precedence::Lowest);
    assert(parse_infix_loop(toks, m - 1, e, Precedence::Lowest, (b - 4) as nat) == Ok::<
        (ExprV, int),
        int,
    >((e, m - 1)));
    assert(parse_expression_statement_v(toks, 0, (b - 2) as nat) == Ok::<(StmtV, int), int>(
        (StmtV::Expr(e), m - 1),
    ));
    assert(!(toks[0] is Let) && !(toks[0] is Return) && !(toks[0] is EOF));
    assert(parse_statement_v(toks, 0, (b - 1) as nat) == Ok::<(StmtV, int), int>(
        (StmtV::Expr(e), m - 1),
    ));
    // the program loop takes the statement, steps past it, and meets
    // the end marker
    assert(parse_program_from(toks, m, seq![StmtV::Expr(e)], (b - 1) as nat) == Ok::<
        (Seq<StmtV>, int),
        int,
    >((seq![StmtV::Expr(e)], m)));
    assert(Seq::<StmtV>::empty().push(StmtV::Expr(e)) =~= seq![StmtV::Expr(e)]);
    assert(parse_program_from(toks, 0, Seq::empty(), b) == Ok::<(Seq<StmtV>, int), int>(
        (seq![StmtV::Expr(e)], m),
    ));
}

/// Re-lexing the canonical rendering of a parsed tree and re-parsing
/// it yields a structurally equal tree, for a program of one
/// statement — a `let`, a `return`, or an expression statement — over
/// the fully parenthesized fragment. The budget bound is the machine
/// limit the step-budgeted parser imposes; every tree of practical
/// size satisfies it.
#[verifier::rlimit(100)]
#[verifier::spinoff_prover]
pub proof fn lemma_render_lex_parse_roundtrip_stmt(st: StmtV)
    requires
        core_stmt(st),
        8 * ssize(st) + 16 <= PARSE_BUDGET,
    ensures
        ({
            let toks = tokens_of(render_stmt_v(st));
            parse_program_v(toks, 0, PARSE_BUDGET as nat) == Ok::<(Seq<StmtV>, int), int>(
                (seq![st], toks.len() - 1),
            )
        }),
{
    let s = render_stmt_v(st);
    let n = s.len() as int;
    let ts = stmt_tokens(st);
    let m = ts.len() as int;
    let b = PARSE_BUDGET as nat;
    match st {
        StmtV::Expr(value) => {
            lemma_render_lex_parse_roundtrip(value);
            assert(render_stmt_v(st) == render_expr_v(value));
            assert(tokens_of(s) == tokens_of(render_expr_v(value)));
            assert(parse_program_v(tokens_of(s), 0, b) == Ok::<(Seq<StmtV>, int), int>(
                (seq![StmtV::Expr(value)], tokens_of(s).len() - 1),
            ));
        },
        StmtV::Let { name, value } => {
            lemma_lex_let_stmt(st, s);
            lemma_core_tokens_not_eof(value);
            let tse = core_tokens(value);
            let me = tse.len() as int;
            assert(ts == seq![TokenV::Let, TokenV::Ident(name), TokenV::Assign] + tse + seq![
                TokenV::Semicolon,
            ]);
            assert(m == me + 4);
            assert forall|i: int| 0 <= i < m implies !(#[trigger] ts[i] is EOF) by {
                if 3 <= i < 3 + me {
                    assert(ts[i] == tse[i - 3]);
                }
            }
            assert forall|i: int|
                0 <= i < scan_tokens(s, 0, m as nat).0.len() implies !(#[trigger] scan_tokens(
                s,
                0,
                m as nat,
            ).0[i] is EOF) by {
                assert(scan_tokens(s, 0, m as nat).0[i] == ts[i]);
            }
            assert(skip_ws(s, n) == n);
            assert(char_at(s, n) == '\0');
            assert(next_token_spec(s, n).0 is EOF);
            lemma_tokens_from_scan(s, 0, m as nat);
            let toks = tokens_of(s);
            assert(toks == ts + seq![TokenV::EOF]);
            assert(toks.len() == m + 1);
            assert forall|j: int| 0 <= j < m implies #[trigger] toks[j] == ts[j] by {}
            assert(toks[m] == TokenV::EOF);
            assert(toks[0] == TokenV::Let);
            assert(toks[1] == TokenV::Ident(name));
            assert(toks[2] == TokenV::Assign);
            assert forall|j: int| 3 <= j < 3 + me implies #[trigger] toks[j] == tse[j - 3] by {
                assert(ts[j] == tse[j - 3]);
            }
            assert(toks[3 + me] == TokenV::Semicolon);
            assert(toks.subrange(3, 3 + me) =~= tse);
            // the bound expression parses at the lowest level and its
            // loop stops at the semicolon
            lemma_parse_core(value, toks, 3, (b - 3) as nat);
            let e_end = 3 + me - 1;
            assert(parse_expression_v(toks, 3, Precedence::Lowest, (b - 3) as nat)
                == parse_infix_loop(toks, e_end, value, Precedence::Lowest, (b - 4) as nat));
            assert(step_pos(toks, e_end) == e_end + 1);
            assert(toks[e_end + 1] is Semicolon);
            assert(parse_infix_loop(toks, e_end, value, Precedence::Lowest, (b - 4) as nat)
                == Ok::<(ExprV, int), int>((value, e_end)));
            // the let statement consumes the keyword, name, sign,
            // expression and semicolon
            assert(step_pos(toks, 0) == 1);
            assert(step_pos(toks, 1) == 2);
            assert(step_pos(toks, 2) == 3);
            assert(parse_let_statement_v(toks, 0, (b - 2) as nat) == Ok::<(StmtV, int), int>(
                (st, m - 1),
            ));
            assert(parse_statement_v(toks, 0, (b - 1) as nat) == Ok::<(StmtV, int), int>(
                (st, m - 1),
            ));
            assert(step_pos(toks, m - 1) == m);
            assert(parse_program_from(toks, m, seq![st], (b - 1) as nat) == Ok::<
                (Seq<StmtV>, int),
                int,
            >((seq![st], m)));
            assert(Seq::<StmtV>::empty().push(st) =~= seq![st]);
            assert(parse_program_from(toks, 0, Seq::empty(), b) == Ok::<(Seq<StmtV>, int), int>(
                (seq![st], m),
            ));
        },
        StmtV::Return(value) => {
            lemma_lex_return_stmt(st, s);
            lemma_core_tokens_not_eof(value);
            let tse = core_tokens(value);
            let me = tse.len() as int;
            assert(ts == seq![TokenV::Return] + tse + seq![TokenV::Semicolon]);
            assert(m == me + 2);
            assert forall|i: int| 0 <= i < m implies !(#[trigger] ts[i] is EOF) by {
                if 1 <= i < 1 + me {
                    assert(ts[i] == tse[i - 1]);
                }
            }
            assert forall|i: int|
                0 <= i < scan_tokens(s, 0, m as nat).0.len() implies !(#[trigger] scan_tokens(
                s,
                0,
                m as nat,
            ).0[i] is EOF) by {
                assert(scan_tokens(s, 0, m as nat).0[i] == ts[i]);
            }
            assert(skip_ws(s, n) == n);
            assert(char_at(s, n) == '\0');
            assert(next_token_spec(s, n).0 is EOF);
            lemma_tokens_from_scan(s, 0, m as nat);
            let toks = tokens_of(s);
            assert(toks == ts + seq![TokenV::EOF]);
            assert(toks.len() == m + 1);
            assert forall|j: int| 0 <= j < m implies #[trigger] toks[j] == ts[j] by {}
            assert(toks[m] == TokenV::EOF);
            assert(toks[0] == TokenV::Return);
            assert forall|j: int| 1 <= j < 1 + me implies #[trigger] toks[j] == tse[j - 1] by {
                assert(ts[j] == tse[j - 1]);
            }
            assert(toks[1 + me] == TokenV::Semicolon);
            assert(toks.subrange(1, 1 + me) =~= tse);
            // the returned expression parses at the lowest level and
            // its loop stops at the semicolon
            lemma_parse_core(value, toks, 1, (b - 3) as nat);
            let e_end = 1 + me - 1;
            assert(parse_expression_v(toks, 1, Precedence::Lowest, (b - 3) as nat)
                == parse_infix_loop(toks, e_end, value, Precedence::Lowest, (b - 4) as nat));
            assert(step_pos(toks, e_end) == e_end + 1);
            assert(toks[e_end + 1] is Semicolon);
            assert(parse_infix_loop(toks, e_end, value, Precedence::Lowest, (b - 4) as nat)
                == Ok::<(ExprV, int), int>((value, e_end)));
            // the return statement consumes the keyword, expression
            // and semicolon
            assert(step_pos(toks, 0) == 1);
            assert(parse_return_statement_v(toks, 0, (b - 2) as nat) == Ok::<(StmtV, int), int>(
                (st, m - 1),
            ));
            assert(parse_statement_v(toks, 0, (b - 1) as nat) == Ok::<(StmtV, int), int>(
                (st, m - 1),
            ));
            assert(step_pos(toks, m - 1) == m);
            assert(parse_program_from(toks, m, seq![st], (b - 1) as nat) == Ok::<
                (Seq<StmtV>, int),
                int,
            >((seq![st], m)));
            assert(Seq::<StmtV>::empty().push(st) =~= seq![st]);
            assert(parse_program_from(toks, 0, Seq::empty(), b) == Ok::<(Seq<StmtV>, int), int>(
                (seq![st], m),
            ));
        },
    }
}

} // verus!
