use vstd::prelude::*;
use crate::chars::{str_eq, string_from};
use crate::compiler::ast::{
    expr_view, exprs_view, lemma_exprs_view_len, lemma_exprs_view_push, lemma_stmts_view_push,
    stmt_view, stmts_view, Expr, SExpr, SStmt, Stmt,
};
use crate::compiler::lexer::{tokens_view, SpecToken, Token, TokenKind};

verus! {

/// A parse error: the token where it was noticed and what was expected.
#[derive(Debug)]
pub struct ParseError {
    pub token: Token,
    pub message: String,
}

/// The mathematical value of a parse error.
pub struct SParseError {
    pub token: SpecToken,
    pub message: Seq<char>,
}

impl Clone for ParseError {
    fn clone(&self) -> (r: Self)
        ensures
            r@ == self@,
    {
        ParseError { token: self.token.clone(), message: string_from(self.message.as_str()) }
    }
}

impl View for ParseError {
    type V = SParseError;

    open spec fn view(&self) -> SParseError {
        SParseError { token: self.token@, message: self.message@ }
    }
}

// ---------------------------------------------------------------------------
// The grammar as mathematics. Each rule reads the tokens `t` from position
// `p` and gives what it parsed (or the error) and the position it reached.
// ---------------------------------------------------------------------------

/// Whether the token at `p` is the end marker.
pub open spec fn at_end(t: Seq<SpecToken>, p: int) -> bool {
    t[p].kind == TokenKind::Eof
}

/// Whether the token at `p` has kind `k` (the end marker matches nothing).
pub open spec fn check(t: Seq<SpecToken>, p: int, k: TokenKind) -> bool {
    !at_end(t, p) && t[p].kind == k
}

/// The position after the token at `p`; the end marker is never passed.
pub open spec fn adv(t: Seq<SpecToken>, p: int) -> int {
    if !at_end(t, p) && p + 1 < t.len() {
        p + 1
    } else {
        p
    }
}

/// The error for the token at `p`.
pub open spec fn error_at(t: Seq<SpecToken>, p: int, message: Seq<char>) -> SParseError {
    SParseError { token: t[p], message }
}

/// Takes a token of kind `k`, or reports `message`.
pub open spec fn expect(t: Seq<SpecToken>, p: int, k: TokenKind, message: Seq<char>) -> (
    Result<SpecToken, SParseError>,
    int,
) {
    if check(t, p, k) {
        (Ok(t[p]), adv(t, p))
    } else {
        (Err(error_at(t, p, message)), p)
    }
}

/// Skips an optional token of kind `k`.
pub open spec fn skip_opt(t: Seq<SpecToken>, p: int, k: TokenKind) -> int {
    if check(t, p, k) {
        adv(t, p)
    } else {
        p
    }
}

/// Skips line breaks.
pub open spec fn skip_newlines(t: Seq<SpecToken>, p: int) -> int
    decreases t.len() - p,
{
    if check(t, p, TokenKind::Newline) && p < adv(t, p) <= t.len() {
        skip_newlines(t, adv(t, p))
    } else {
        p
    }
}

/// The operators of each binary precedence level, from tightest (1) to
/// loosest (6): `* /`, `+ -`, comparisons, equalities, `&&`, `||`.
pub open spec fn is_level_op(level: int, k: TokenKind) -> bool {
    if level <= 1 {
        k == TokenKind::Slash || k == TokenKind::Star
    } else if level == 2 {
        k == TokenKind::Minus || k == TokenKind::Plus
    } else if level == 3 {
        k == TokenKind::Greater || k == TokenKind::GreaterEqual || k == TokenKind::Less
            || k == TokenKind::LessEqual
    } else if level == 4 {
        k == TokenKind::BangEqual || k == TokenKind::EqualEqual
    } else if level == 5 {
        k == TokenKind::AndAnd
    } else {
        k == TokenKind::OrOr
    }
}

pub open spec fn msg_close_paren_expr() -> Seq<char> {
    "متوقع قوس الإغلاق ')' بعد نهاية التعبير الحسابي."@
}

pub open spec fn msg_close_bracket_array() -> Seq<char> {
    "متوقع قوس الإغلاق ']' بعد عناصر المصفوفة."@
}

pub open spec fn msg_unexpected() -> Seq<char> {
    "تعبير غير متوقع أو رمز غير معروف."@
}

pub open spec fn msg_close_bracket_index() -> Seq<char> {
    "متوقع قوس الإغلاق ']' بعد مؤشر/فهرس المصفوفة."@
}

pub open spec fn msg_close_paren_call() -> Seq<char> {
    "متوقع قوس الإغلاق ')' بعد المعاملات البرمجية الدخيلة."@
}

pub open spec fn msg_bad_target() -> Seq<char> {
    "هدف الإسناد (Assignment target) غير صالح."@
}

/// `primary`: literals, names, groups and array literals.
pub open spec fn p_primary(t: Seq<SpecToken>, p: int) -> (Result<SExpr, SParseError>, int)
    decreases t.len() - p, 1int,
{
    if check(t, p, TokenKind::False) {
        (Ok(SExpr::Literal("false"@)), adv(t, p))
    } else if check(t, p, TokenKind::True) {
        (Ok(SExpr::Literal("true"@)), adv(t, p))
    } else if t[p].lexeme == "عدم"@ {
        (Ok(SExpr::Literal("nil"@)), adv(t, p))
    } else if check(t, p, TokenKind::Number) || check(t, p, TokenKind::String) {
        (Ok(SExpr::Literal(t[p].lexeme)), adv(t, p))
    } else if check(t, p, TokenKind::Identifier) {
        (Ok(SExpr::Variable(t[p])), adv(t, p))
    } else if check(t, p, TokenKind::LeftParen) {
        if p < adv(t, p) <= t.len() {
            let (r, p1) = p_expression(t, adv(t, p));
            match r {
                Err(e) => (Err(e), p1),
                Ok(e) => match expect(t, p1, TokenKind::RightParen, msg_close_paren_expr()) {
                    (Err(err), p2) => (Err(err), p2),
                    (Ok(_), p2) => (Ok(SExpr::Grouping(Box::new(e))), p2),
                },
            }
        } else {
            (Err(error_at(t, p, msg_unexpected())), p)
        }
    } else if check(t, p, TokenKind::LeftBracket) {
        if p < adv(t, p) <= t.len() {
            let bracket = t[p];
            let p1 = adv(t, p);
            let (r, p2) = if !check(t, p1, TokenKind::RightBracket) {
                p_expr_list(t, p1, Seq::empty())
            } else {
                (Ok(Seq::empty()), p1)
            };
            match r {
                Err(e) => (Err(e), p2),
                Ok(elements) => match expect(
                    t,
                    p2,
                    TokenKind::RightBracket,
                    msg_close_bracket_array(),
                ) {
                    (Err(err), p3) => (Err(err), p3),
                    (Ok(_), p3) => (Ok(SExpr::Array { bracket, elements }), p3),
                },
            }
        } else {
            (Err(error_at(t, p, msg_unexpected())), p)
        }
    } else {
        (Err(error_at(t, p, msg_unexpected())), p)
    }
}

/// A comma-separated list of expressions (at least one).
pub open spec fn p_expr_list(t: Seq<SpecToken>, p: int, acc: Seq<SExpr>) -> (
    Result<Seq<SExpr>, SParseError>,
    int,
)
    decreases t.len() - p, 19int,
{
    let (r, p1) = p_expression(t, p);
    match r {
        Err(e) => (Err(e), p1),
        Ok(e) => {
            let acc2 = acc.push(e);
            if check(t, p1, TokenKind::Comma) {
                if p < adv(t, p1) <= t.len() {
                    p_expr_list(t, adv(t, p1), acc2)
                } else {
                    (Ok(acc2), p1)
                }
            } else {
                (Ok(acc2), p1)
            }
        },
    }
}

/// The arguments of a call after its `(`.
pub open spec fn p_finish_call(t: Seq<SpecToken>, p: int, callee: SExpr) -> (
    Result<SExpr, SParseError>,
    int,
)
    decreases t.len() - p, 20int,
{
    let (r, p1) = if !check(t, p, TokenKind::RightParen) {
        p_expr_list(t, p, Seq::empty())
    } else {
        (Ok(Seq::empty()), p)
    };
    match r {
        Err(e) => (Err(e), p1),
        Ok(arguments) => match expect(t, p1, TokenKind::RightParen, msg_close_paren_call()) {
            (Err(err), p2) => (Err(err), p2),
            (Ok(paren), p2) => (Ok(SExpr::Call { callee: Box::new(callee), paren, arguments }), p2),
        },
    }
}

/// The index of an indexing expression after its `[`.
pub open spec fn p_finish_index(t: Seq<SpecToken>, p: int, callee: SExpr) -> (
    Result<SExpr, SParseError>,
    int,
)
    decreases t.len() - p, 20int,
{
    let bracket = t[p - 1];
    let (r, p1) = p_expression(t, p);
    match r {
        Err(e) => (Err(e), p1),
        Ok(index) => match expect(t, p1, TokenKind::RightBracket, msg_close_bracket_index()) {
            (Err(err), p2) => (Err(err), p2),
            (Ok(_), p2) => (
                Ok(SExpr::Index { callee: Box::new(callee), bracket, index: Box::new(index) }),
                p2,
            ),
        },
    }
}

/// Calls `f(..)` and indexing `a[..]` after an expression, repeatedly.
pub open spec fn p_postfix(t: Seq<SpecToken>, p: int, e: SExpr) -> (
    Result<SExpr, SParseError>,
    int,
)
    decreases t.len() - p, 2int,
{
    if check(t, p, TokenKind::LeftParen) && p < adv(t, p) <= t.len() {
        let (r, p1) = p_finish_call(t, adv(t, p), e);
        match r {
            Err(err) => (Err(err), p1),
            Ok(e2) => if p < p1 <= t.len() {
                p_postfix(t, p1, e2)
            } else {
                (Ok(e2), p1)
            },
        }
    } else if check(t, p, TokenKind::LeftBracket) && p < adv(t, p) <= t.len() {
        let (r, p1) = p_finish_index(t, adv(t, p), e);
        match r {
            Err(err) => (Err(err), p1),
            Ok(e2) => if p < p1 <= t.len() {
                p_postfix(t, p1, e2)
            } else {
                (Ok(e2), p1)
            },
        }
    } else {
        (Ok(e), p)
    }
}

/// Arguments written after a name without parentheses: numbers, strings
/// and names, one primary each.
pub open spec fn p_bare_args(t: Seq<SpecToken>, p: int, acc: Seq<SExpr>) -> (
    Result<Seq<SExpr>, SParseError>,
    int,
)
    decreases t.len() - p, 2int,
{
    if check(t, p, TokenKind::Number) || check(t, p, TokenKind::String) || check(
        t,
        p,
        TokenKind::Identifier,
    ) {
        let (r, p1) = p_primary(t, p);
        match r {
            Err(e) => (Err(e), p1),
            Ok(a) => if p < p1 <= t.len() {
                p_bare_args(t, p1, acc.push(a))
            } else {
                (Ok(acc.push(a)), p1)
            },
        }
    } else {
        (Ok(acc), p)
    }
}

/// `call`: a primary, its calls and indexes, and bare arguments after a name.
pub open spec fn p_call(t: Seq<SpecToken>, p: int) -> (Result<SExpr, SParseError>, int)
    decreases t.len() - p, 3int,
{
    let (r, p1) = p_primary(t, p);
    match r {
        Err(e) => (Err(e), p1),
        Ok(e) => if p <= p1 <= t.len() {
            let (r2, p2) = p_postfix(t, p1, e);
            match r2 {
                Err(err) => (Err(err), p2),
                Ok(e2) => if e2 is Variable && p <= p2 <= t.len() {
                    let (r3, p3) = p_bare_args(t, p2, Seq::empty());
                    match r3 {
                        Err(err) => (Err(err), p3),
                        Ok(args) => if args.len() > 0 {
                            (
                                Ok(SExpr::Call { callee: Box::new(e2), paren: t[p3], arguments: args }),
                                p3,
                            )
                        } else {
                            (Ok(e2), p3)
                        },
                    }
                } else {
                    (Ok(e2), p2)
                },
            }
        } else {
            (Ok(e), p1)
        },
    }
}

/// `unary`: `!` and `-` prefixes.
pub open spec fn p_unary(t: Seq<SpecToken>, p: int) -> (Result<SExpr, SParseError>, int)
    decreases t.len() - p, 4int,
{
    if (check(t, p, TokenKind::Bang) || check(t, p, TokenKind::Minus)) && p < adv(t, p) <= t.len() {
        let operator = t[p];
        let (r, p1) = p_unary(t, adv(t, p));
        match r {
            Err(e) => (Err(e), p1),
            Ok(right) => (Ok(SExpr::Unary { operator, right: Box::new(right) }), p1),
        }
    } else {
        p_call(t, p)
    }
}

/// A binary expression of the given precedence level (1 to 6), left
/// associative.
pub open spec fn p_binary(t: Seq<SpecToken>, p: int, level: int) -> (
    Result<SExpr, SParseError>,
    int,
)
    decreases t.len() - p, 4 + 2 * if level <= 1 { 1int } else if level >= 6 { 6int } else { level },
{
    let (r, p1) = if level <= 1 {
        p_unary(t, p)
    } else if level >= 6 {
        p_binary(t, p, 5)
    } else {
        p_binary(t, p, level - 1)
    };
    match r {
        Err(e) => (Err(e), p1),
        Ok(left) => if p <= p1 <= t.len() {
            p_binary_rest(t, p1, left, level)
        } else {
            (Ok(left), p1)
        },
    }
}

/// The operators and right operands that follow the left operand of a
/// binary level.
pub open spec fn p_binary_rest(t: Seq<SpecToken>, p: int, left: SExpr, level: int) -> (
    Result<SExpr, SParseError>,
    int,
)
    decreases t.len() - p, 3 + 2 * if level <= 1 { 1int } else if level >= 6 { 6int } else { level },
{
    if !at_end(t, p) && is_level_op(level, t[p].kind) && p < adv(t, p) <= t.len() {
        let operator = t[p];
        let (r, p1) = if level <= 1 {
            p_unary(t, adv(t, p))
        } else if level >= 6 {
            p_binary(t, adv(t, p), 5)
        } else {
            p_binary(t, adv(t, p), level - 1)
        };
        match r {
            Err(e) => (Err(e), p1),
            Ok(right) => {
                let e = SExpr::Binary { left: Box::new(left), operator, right: Box::new(right) };
                if p < p1 <= t.len() {
                    p_binary_rest(t, p1, e, level)
                } else {
                    (Ok(e), p1)
                }
            },
        }
    } else {
        (Ok(left), p)
    }
}

/// `assignment`: a name or an index on the left of `=`, right associative.
pub open spec fn p_assignment(t: Seq<SpecToken>, p: int) -> (Result<SExpr, SParseError>, int)
    decreases t.len() - p, 17int,
{
    let (r, p1) = p_binary(t, p, 6);
    match r {
        Err(e) => (Err(e), p1),
        Ok(e) => if check(t, p1, TokenKind::Equal) && p < adv(t, p1) <= t.len() {
            let (r2, p2) = p_assignment(t, adv(t, p1));
            match r2 {
                Err(err) => (Err(err), p2),
                Ok(value) => match e {
                    SExpr::Variable(name) => (Ok(SExpr::Assign { name, value: Box::new(value) }), p2),
                    SExpr::Index { callee, bracket: _, index } => (
                        Ok(SExpr::IndexAssign { callee, index, value: Box::new(value) }),
                        p2,
                    ),
                    _ => (Err(error_at(t, p2 - 1, msg_bad_target())), p2),
                },
            }
        } else {
            (Ok(e), p1)
        },
    }
}

/// `expression`.
pub open spec fn p_expression(t: Seq<SpecToken>, p: int) -> (Result<SExpr, SParseError>, int)
    decreases t.len() - p, 18int,
{
    p_assignment(t, p)
}


pub open spec fn msg_fn_name() -> Seq<char> {
    "متوقع اسم الدالة بعد الإعلان."@
}

pub open spec fn msg_param_name() -> Seq<char> {
    "متوقع اسم المعامل."@
}

pub open spec fn msg_close_paren_params() -> Seq<char> {
    "متوقع قوس إغلاق."@
}

pub open spec fn msg_newline_after_fn() -> Seq<char> {
    "متوقع سطر جديد بعد تعريف الدالة."@
}

pub open spec fn msg_var_name() -> Seq<char> {
    "متوقع اسم المتغير بعد الإعلان عنه."@
}

pub open spec fn msg_close_paren_print() -> Seq<char> {
    "متوقع قوس مغلق ')' بعد تعبير الطباعة."@
}

pub open spec fn msg_newline_after_if() -> Seq<char> {
    "متوقع سطر جديد بعد شرط إذا."@
}

pub open spec fn msg_newline_after_else() -> Seq<char> {
    "متوقع سطر جديد بعد وإلا."@
}

pub open spec fn msg_newline_after_while() -> Seq<char> {
    "متوقع سطر جديد بعد شرط طالما."@
}

pub open spec fn msg_block_start() -> Seq<char> {
    "متوقع بداية كتلة برمجية بعد المسافة البادئة."@
}

pub open spec fn msg_block_end() -> Seq<char> {
    "متوقع نهاية الكتلة البرمجية."@
}

/// An expression followed by an optional `;`.
pub open spec fn p_expression_statement(t: Seq<SpecToken>, p: int) -> (
    Result<SStmt, SParseError>,
    int,
)
    decreases t.len() - p, 21int,
{
    let (r, p1) = p_expression(t, p);
    match r {
        Err(e) => (Err(e), p1),
        Ok(e) => (Ok(SStmt::Expression(e)), skip_opt(t, p1, TokenKind::Semicolon)),
    }
}

/// `print`, with or without parentheses, after the keyword.
pub open spec fn p_print_statement(t: Seq<SpecToken>, p: int) -> (
    Result<SStmt, SParseError>,
    int,
)
    decreases t.len() - p, 21int,
{
    let has_paren = check(t, p, TokenKind::LeftParen);
    let p0 = skip_opt(t, p, TokenKind::LeftParen);
    let (r, p1) = p_expression(t, p0);
    match r {
        Err(e) => (Err(e), p1),
        Ok(value) => if has_paren {
            match expect(t, p1, TokenKind::RightParen, msg_close_paren_print()) {
                (Err(err), p2) => (Err(err), p2),
                (Ok(_), p2) => (Ok(SStmt::Print(value)), skip_opt(t, p2, TokenKind::Semicolon)),
            }
        } else {
            (Ok(SStmt::Print(value)), skip_opt(t, p1, TokenKind::Semicolon))
        },
    }
}

/// `return`, after the keyword, with an optional value.
pub open spec fn p_return_statement(t: Seq<SpecToken>, p: int) -> (
    Result<SStmt, SParseError>,
    int,
)
    decreases t.len() - p, 21int,
{
    let keyword = t[p - 1];
    if !check(t, p, TokenKind::Semicolon) && !check(t, p, TokenKind::RightBrace) && !at_end(t, p) {
        let (r, p1) = p_expression(t, p);
        match r {
            Err(e) => (Err(e), p1),
            Ok(v) => (
                Ok(SStmt::Return { keyword, value: Some(v) }),
                skip_opt(t, p1, TokenKind::Semicolon),
            ),
        }
    } else {
        (Ok(SStmt::Return { keyword, value: None }), skip_opt(t, p, TokenKind::Semicolon))
    }
}

/// A variable declaration after its keyword: a name and an optional `= value`.
pub open spec fn p_var_declaration(t: Seq<SpecToken>, p: int) -> (
    Result<SStmt, SParseError>,
    int,
)
    decreases t.len() - p, 21int,
{
    match expect(t, p, TokenKind::Identifier, msg_var_name()) {
        (Err(e), p1) => (Err(e), p1),
        (Ok(name), p1) => if check(t, p1, TokenKind::Equal) && p < adv(t, p1) <= t.len() {
            let (r, p2) = p_expression(t, adv(t, p1));
            match r {
                Err(e) => (Err(e), p2),
                Ok(v) => (
                    Ok(SStmt::Var { name, initializer: Some(v) }),
                    skip_opt(t, p2, TokenKind::Semicolon),
                ),
            }
        } else {
            (Ok(SStmt::Var { name, initializer: None }), skip_opt(t, p1, TokenKind::Semicolon))
        },
    }
}

/// Parameter names between parentheses, separated by commas.
pub open spec fn p_params(t: Seq<SpecToken>, p: int, acc: Seq<SpecToken>) -> (
    Result<Seq<SpecToken>, SParseError>,
    int,
)
    decreases t.len() - p,
{
    match expect(t, p, TokenKind::Identifier, msg_param_name()) {
        (Err(e), p1) => (Err(e), p1),
        (Ok(name), p1) => if check(t, p1, TokenKind::Comma) && p < adv(t, p1) <= t.len() {
            p_params(t, adv(t, p1), acc.push(name))
        } else {
            (Ok(acc.push(name)), p1)
        },
    }
}

/// Parameter names written without parentheses.
pub open spec fn p_bare_params(t: Seq<SpecToken>, p: int, acc: Seq<SpecToken>) -> (
    Seq<SpecToken>,
    int,
)
    decreases t.len() - p,
{
    if check(t, p, TokenKind::Identifier) && p < adv(t, p) <= t.len() {
        p_bare_params(t, adv(t, p), acc.push(t[p]))
    } else {
        (acc, p)
    }
}

/// The parameters of a function, with or without parentheses.
pub open spec fn p_param_list(t: Seq<SpecToken>, p: int) -> (
    Result<Seq<SpecToken>, SParseError>,
    int,
) {
    if check(t, p, TokenKind::LeftParen) {
        let p1 = adv(t, p);
        let (r, p2) = if !check(t, p1, TokenKind::RightParen) {
            p_params(t, p1, Seq::empty())
        } else {
            (Ok(Seq::empty()), p1)
        };
        match r {
            Err(e) => (Err(e), p2),
            Ok(params) => match expect(t, p2, TokenKind::RightParen, msg_close_paren_params()) {
                (Err(e), p3) => (Err(e), p3),
                (Ok(_), p3) => (Ok(params), skip_opt(t, p3, TokenKind::Colon)),
            },
        }
    } else {
        let (params, p1) = p_bare_params(t, p, Seq::empty());
        (Ok(params), p1)
    }
}

/// A function declaration after its keyword.
pub open spec fn p_function_declaration(t: Seq<SpecToken>, p: int) -> (
    Result<SStmt, SParseError>,
    int,
)
    decreases t.len() - p, 21int,
{
    match expect(t, p, TokenKind::Identifier, msg_fn_name()) {
        (Err(e), p1) => (Err(e), p1),
        (Ok(name), p1) => match p_param_list(t, p1) {
            (Err(e), p2) => (Err(e), p2),
            (Ok(params), p2) => match expect(t, p2, TokenKind::Newline, msg_newline_after_fn()) {
                (Err(e), p3) => (Err(e), p3),
                (Ok(_), p3) => if p < p3 <= t.len() {
                    match p_block(t, p3) {
                        (Err(e), p4) => (Err(e), p4),
                        (Ok(body), p4) => (Ok(SStmt::Function { name, params, body }), p4),
                    }
                } else {
                    (Err(error_at(t, p3, msg_block_start())), p3)
                },
            },
        },
    }
}

/// `if`, after the keyword: a condition, a line break and an indented
/// block, then an optional `else` (`else if` chains).
pub open spec fn p_if_statement(t: Seq<SpecToken>, p: int) -> (Result<SStmt, SParseError>, int)
    decreases t.len() - p, 21int,
{
    let (r, p1) = p_expression(t, p);
    match r {
        Err(e) => (Err(e), p1),
        Ok(condition) => match expect(t, p1, TokenKind::Newline, msg_newline_after_if()) {
            (Err(e), p2) => (Err(e), p2),
            (Ok(_), p2) => if p < p2 <= t.len() {
                match p_block(t, p2) {
                    (Err(e), p3) => (Err(e), p3),
                    (Ok(then_body), p3) => {
                        let then_branch = Box::new(SStmt::Block(then_body));
                        let p4 = skip_newlines(t, p3);
                        if p < p4 <= t.len() {
                            match p_else_branch(t, p4) {
                                (Err(e), p5) => (Err(e), p5),
                                (Ok(else_branch), p5) => (
                                    Ok(SStmt::If { condition, then_branch, else_branch }),
                                    p5,
                                ),
                            }
                        } else {
                            (Err(error_at(t, p4, msg_block_end())), p4)
                        }
                    },
                }
            } else {
                (Err(error_at(t, p2, msg_block_start())), p2)
            },
        },
    }
}

/// What may follow the block of an `if`: nothing, `else if ...`, or `else`
/// with a line break and a block.
pub open spec fn p_else_branch(t: Seq<SpecToken>, p: int) -> (
    Result<Option<Box<SStmt>>, SParseError>,
    int,
)
    decreases t.len() - p, 22int,
{
    if check(t, p, TokenKind::Else) && p < adv(t, p) <= t.len() {
        let p1 = adv(t, p);
        if check(t, p1, TokenKind::If) {
            match p_if_statement(t, adv(t, p1)) {
                (Err(e), p2) => (Err(e), p2),
                (Ok(s), p2) => (Ok(Some(Box::new(s))), p2),
            }
        } else {
            match expect(t, p1, TokenKind::Newline, msg_newline_after_else()) {
                (Err(e), p2) => (Err(e), p2),
                (Ok(_), p2) => if p < p2 <= t.len() {
                    match p_block(t, p2) {
                        (Err(e), p3) => (Err(e), p3),
                        (Ok(else_body), p3) => (Ok(Some(Box::new(SStmt::Block(else_body)))), p3),
                    }
                } else {
                    (Err(error_at(t, p2, msg_block_start())), p2)
                },
            }
        }
    } else {
        (Ok(None), p)
    }
}

/// `while`, after the keyword: a condition, a line break and an indented block.
pub open spec fn p_while_statement(t: Seq<SpecToken>, p: int) -> (
    Result<SStmt, SParseError>,
    int,
)
    decreases t.len() - p, 21int,
{
    let (r, p1) = p_expression(t, p);
    match r {
        Err(e) => (Err(e), p1),
        Ok(condition) => match expect(t, p1, TokenKind::Newline, msg_newline_after_while()) {
            (Err(e), p2) => (Err(e), p2),
            (Ok(_), p2) => {
                let p3 = skip_newlines(t, p2);
                if p < p3 <= t.len() {
                    match p_block(t, p3) {
                        (Err(e), p4) => (Err(e), p4),
                        (Ok(body), p4) => (
                            Ok(SStmt::While { condition, body: Box::new(SStmt::Block(body)) }),
                            p4,
                        ),
                    }
                } else {
                    (Err(error_at(t, p3, msg_block_start())), p3)
                }
            },
        },
    }
}

/// An indented block: line breaks, `Indent`, declarations, `Dedent`.
pub open spec fn p_block(t: Seq<SpecToken>, p: int) -> (Result<Seq<SStmt>, SParseError>, int)
    decreases t.len() - p, 26int,
{
    let p1 = skip_newlines(t, p);
    match expect(t, p1, TokenKind::Indent, msg_block_start()) {
        (Err(e), p2) => (Err(e), p2),
        (Ok(_), p2) => {
            let p3 = skip_newlines(t, p2);
            if p < p3 <= t.len() {
                p_block_body(t, p3, Seq::empty())
            } else {
                (Err(error_at(t, p3, msg_block_end())), p3)
            }
        },
    }
}

/// The declarations of a block up to its `Dedent`.
pub open spec fn p_block_body(t: Seq<SpecToken>, p: int, acc: Seq<SStmt>) -> (
    Result<Seq<SStmt>, SParseError>,
    int,
)
    decreases t.len() - p, 25int,
{
    if !check(t, p, TokenKind::Dedent) && !at_end(t, p) {
        match p_declaration(t, p) {
            (Err(e), p1) => (Err(e), p1),
            (Ok(d), p1) => {
                let acc2 = match d {
                    Some(s) => acc.push(s),
                    None => acc,
                };
                let p2 = skip_newlines(t, p1);
                if p < p2 <= t.len() {
                    p_block_body(t, p2, acc2)
                } else {
                    (Err(error_at(t, p2, msg_block_end())), p2)
                }
            },
        }
    } else {
        match expect(t, p, TokenKind::Dedent, msg_block_end()) {
            (Err(e), p1) => (Err(e), p1),
            (Ok(_), p1) => (Ok(acc), p1),
        }
    }
}

/// `statement`: the statement the keyword at `p` introduces, or an
/// expression statement.
pub open spec fn p_statement(t: Seq<SpecToken>, p: int) -> (Result<SStmt, SParseError>, int)
    decreases t.len() - p, 23int,
{
    if p < adv(t, p) <= t.len() && check(t, p, TokenKind::If) {
        p_if_statement(t, adv(t, p))
    } else if p < adv(t, p) <= t.len() && check(t, p, TokenKind::While) {
        p_while_statement(t, adv(t, p))
    } else if p < adv(t, p) <= t.len() && check(t, p, TokenKind::Print) {
        p_print_statement(t, adv(t, p))
    } else if p < adv(t, p) <= t.len() && check(t, p, TokenKind::Return) {
        p_return_statement(t, adv(t, p))
    } else if p < adv(t, p) <= t.len() && check(t, p, TokenKind::LeftBrace) {
        match p_block(t, adv(t, p)) {
            (Err(e), p1) => (Err(e), p1),
            (Ok(body), p1) => (Ok(SStmt::Block(body)), p1),
        }
    } else {
        p_expression_statement(t, p)
    }
}

/// `declaration`: line breaks, then a stray `Indent`/`Dedent` (nothing), a
/// function, a variable or a statement.
pub open spec fn p_declaration(t: Seq<SpecToken>, p: int) -> (
    Result<Option<SStmt>, SParseError>,
    int,
)
    decreases t.len() - p, 24int,
{
    let p1 = skip_newlines(t, p);
    if !(p <= p1 <= t.len()) {
        (Ok(None), p1)
    } else if check(t, p1, TokenKind::Indent) || check(t, p1, TokenKind::Dedent) {
        (Ok(None), adv(t, p1))
    } else if check(t, p1, TokenKind::Function) && p1 < adv(t, p1) <= t.len() {
        match p_function_declaration(t, adv(t, p1)) {
            (Err(e), p2) => (Err(e), p2),
            (Ok(s), p2) => (Ok(Some(s)), p2),
        }
    } else if (check(t, p1, TokenKind::Let) || check(t, p1, TokenKind::Var)) && p1 < adv(t, p1)
        <= t.len() {
        match p_var_declaration(t, adv(t, p1)) {
            (Err(e), p2) => (Err(e), p2),
            (Ok(s), p2) => (Ok(Some(s)), p2),
        }
    } else {
        match p_statement(t, p1) {
            (Err(e), p2) => (Err(e), p2),
            (Ok(s), p2) => (Ok(Some(s)), p2),
        }
    }
}

/// Error recovery: skips at least one token, then up to the end of the
/// statement (after a `;` or a line break) or to a keyword that starts one.
pub open spec fn synchronize(t: Seq<SpecToken>, p: int) -> int {
    sync_from(t, adv(t, p))
}

/// Whether a kind starts a statement (where recovery stops).
pub open spec fn starts_statement(k: TokenKind) -> bool {
    k == TokenKind::Function || k == TokenKind::Var || k == TokenKind::Let || k == TokenKind::If
        || k == TokenKind::While || k == TokenKind::Print || k == TokenKind::Return
}

pub open spec fn sync_from(t: Seq<SpecToken>, p: int) -> int
    decreases t.len() - p,
{
    if at_end(t, p) {
        p
    } else if t[p - 1].kind == TokenKind::Semicolon || t[p - 1].kind == TokenKind::Newline {
        p
    } else if starts_statement(t[p].kind) {
        p
    } else if p < adv(t, p) <= t.len() {
        sync_from(t, adv(t, p))
    } else {
        p
    }
}

/// The loop of `parse`: declarations up to the end, collecting statements
/// and errors; after an error it recovers and goes on.
pub open spec fn p_program(
    t: Seq<SpecToken>,
    p: int,
    stmts: Seq<SStmt>,
    errs: Seq<SParseError>,
) -> (Seq<SStmt>, Seq<SParseError>)
    decreases t.len() - p,
{
    if at_end(t, p) {
        (stmts, errs)
    } else {
        let p1 = skip_newlines(t, p);
        if at_end(t, p1) {
            (stmts, errs)
        } else {
            match p_declaration(t, p1) {
                (Ok(d), p2) => {
                    let stmts2 = match d {
                        Some(s) => stmts.push(s),
                        None => stmts,
                    };
                    if p < p2 <= t.len() {
                        p_program(t, p2, stmts2, errs)
                    } else {
                        (stmts2, errs)
                    }
                },
                (Err(e), p2) => {
                    let p3 = synchronize(t, p2);
                    if p < p3 <= t.len() {
                        p_program(t, p3, stmts, errs.push(e))
                    } else {
                        (stmts, errs.push(e))
                    }
                },
            }
        }
    }
}

/// What parsing the tokens `t` from `p` gives: the statements, or every
/// error met.
pub open spec fn parse_from(t: Seq<SpecToken>, p: int) -> Result<Seq<SStmt>, Seq<SParseError>> {
    let (stmts, errs) = p_program(t, p, Seq::empty(), Seq::empty());
    if errs.len() == 0 {
        Ok(stmts)
    } else {
        Err(errs)
    }
}

/// What parsing the tokens `t` gives: the statements, or every error met.
pub open spec fn parse_tokens(t: Seq<SpecToken>) -> Result<Seq<SStmt>, Seq<SParseError>> {
    parse_from(t, 0)
}

/// Skipping line breaks never moves back.
proof fn lemma_skip_newlines_ge(t: Seq<SpecToken>, p: int)
    ensures
        skip_newlines(t, p) >= p,
    decreases t.len() - p,
{
    if check(t, p, TokenKind::Newline) && p < adv(t, p) <= t.len() {
        lemma_skip_newlines_ge(t, adv(t, p));
    }
}


// ---------------------------------------------------------------------------
// Precedence
// ---------------------------------------------------------------------------

/// A number that no call or index follows is one operand.
proof fn lemma_number_operand(t: Seq<SpecToken>, p: int)
    requires
        0 <= p,
        p + 1 < t.len(),
        t[p].kind == TokenKind::Number,
        t[p].lexeme != "عدم"@,
        t[p + 1].kind != TokenKind::LeftParen,
        t[p + 1].kind != TokenKind::LeftBracket,
    ensures
        p_unary(t, p) == (Ok::<SExpr, SParseError>(SExpr::Literal(t[p].lexeme)), p + 1),
{
    let e = SExpr::Literal(t[p].lexeme);
    assert(adv(t, p) == p + 1);
    assert(p_primary(t, p) == (Ok::<SExpr, SParseError>(e), p + 1));
    assert(p_postfix(t, p + 1, e) == (Ok::<SExpr, SParseError>(e), p + 1));
    assert(p_call(t, p) == (Ok::<SExpr, SParseError>(e), p + 1));
}

/// At the end marker no operator follows, at any level.
proof fn lemma_rest_at_end(t: Seq<SpecToken>, p: int, e: SExpr)
    requires
        0 <= p < t.len(),
        t[p].kind == TokenKind::Eof,
    ensures
        forall|level: int| #[trigger] p_binary_rest(t, p, e, level) == (Ok::<SExpr, SParseError>(e), p),
{
}

/// An expression that ends at the end marker: `print` of it is the whole
/// program.
#[verifier::rlimit(40)]
proof fn lemma_print_program(t: Seq<SpecToken>, e: SExpr)
    requires
        t.len() >= 3,
        t[0].kind == TokenKind::Print,
        t[1].kind != TokenKind::LeftParen,
        t.last().kind == TokenKind::Eof,
        p_expression(t, 1) == (Ok::<SExpr, SParseError>(e), t.len() - 1),
    ensures
        parse_tokens(t) == Ok::<Seq<SStmt>, Seq<SParseError>>(seq![SStmt::Print(e)]),
{
    let n = t.len() - 1;
    assert(adv(t, 0) == 1);
    assert(skip_newlines(t, 0) == 0);
    assert(!at_end(t, 0) && check(t, 0, TokenKind::Print) && !check(t, 0, TokenKind::If)
        && !check(t, 0, TokenKind::While) && !check(t, 0, TokenKind::Indent) && !check(
        t,
        0,
        TokenKind::Dedent,
    ) && !check(t, 0, TokenKind::Function) && !check(t, 0, TokenKind::Let) && !check(
        t,
        0,
        TokenKind::Var,
    ));
    assert(at_end(t, n));
    assert(skip_opt(t, n, TokenKind::Semicolon) == n);
    assert(p_print_statement(t, 1) == (Ok::<SStmt, SParseError>(SStmt::Print(e)), n));
    assert(p_statement(t, 0) == (Ok::<SStmt, SParseError>(SStmt::Print(e)), n));
    assert(p_declaration(t, 0) == (Ok::<Option<SStmt>, SParseError>(Some(SStmt::Print(e))), n));
    let stmts = Seq::<SStmt>::empty().push(SStmt::Print(e));
    assert(p_program(t, n, stmts, Seq::empty()) == (stmts, Seq::<SParseError>::empty()));
    assert(p_program(t, 0, Seq::empty(), Seq::empty()) == (stmts, Seq::<SParseError>::empty()));
    assert(stmts =~= seq![SStmt::Print(e)]);
}

/// An operator of a level followed by its right operand: the rest of the
/// level goes on after the operand with the combined expression.
proof fn lemma_rest_step(
    t: Seq<SpecToken>,
    p: int,
    left: SExpr,
    level: int,
    right: SExpr,
    q: int,
)
    requires
        0 <= p,
        p + 1 < t.len(),
        t[p].kind != TokenKind::Eof,
        is_level_op(level, t[p].kind),
        1 <= level <= 6,
        p + 1 < q <= t.len(),
        (if level <= 1 {
            p_unary(t, p + 1)
        } else {
            p_binary(t, p + 1, level - 1)
        }) == (Ok::<SExpr, SParseError>(right), q),
    ensures
        p_binary_rest(t, p, left, level) == p_binary_rest(
            t,
            q,
            SExpr::Binary { left: Box::new(left), operator: t[p], right: Box::new(right) },
            level,
        ),
{
    assert(adv(t, p) == p + 1);
}

/// A token that is no operator of the level ends the level.
proof fn lemma_rest_stop(t: Seq<SpecToken>, p: int, left: SExpr, level: int)
    requires
        0 <= p < t.len(),
        !is_level_op(level, t[p].kind),
    ensures
        p_binary_rest(t, p, left, level) == (Ok::<SExpr, SParseError>(left), p),
{
}

/// An expression whose lowest level reaches the end marker is the whole
/// expression at every level.
proof fn lemma_levels_to_end(t: Seq<SpecToken>, p: int, e: SExpr, q: int, from: int)
    requires
        0 <= q < t.len(),
        t[q].kind == TokenKind::Eof,
        1 <= from <= 6,
        p_binary(t, p, from) == (Ok::<SExpr, SParseError>(e), q),
        0 <= p <= q,
    ensures
        p_binary(t, p, 6) == (Ok::<SExpr, SParseError>(e), q),
        p_expression(t, p) == (Ok::<SExpr, SParseError>(e), q),
    decreases 6 - from,
{
    if from < 6 {
        lemma_rest_at_end(t, q, e);
        assert(p_binary_rest(t, q, e, from + 1) == (Ok::<SExpr, SParseError>(e), q));
        if from + 1 >= 6 {
            assert(p_binary(t, p, 5) == (Ok::<SExpr, SParseError>(e), q));
        } else {
            assert(p_binary(t, p, from + 1 - 1) == (Ok::<SExpr, SParseError>(e), q));
        }
        assert(p_binary(t, p, from + 1) == (Ok::<SExpr, SParseError>(e), q));
        lemma_levels_to_end(t, p, e, q, from + 1);
    } else {
        assert(!check(t, q, TokenKind::Equal));
        assert(p_assignment(t, p) == (Ok::<SExpr, SParseError>(e), q));
    }
}

proof fn lemma_sum_of_product(t: Seq<SpecToken>)
    requires
        t.len() == 7,
        t[0].kind == TokenKind::Print,
        t[1].kind == TokenKind::Number && t[1].lexeme != "عدم"@,
        t[3].kind == TokenKind::Number && t[3].lexeme != "عدم"@,
        t[5].kind == TokenKind::Number && t[5].lexeme != "عدم"@,
        t[2].kind == TokenKind::Plus || t[2].kind == TokenKind::Minus,
        t[4].kind == TokenKind::Star || t[4].kind == TokenKind::Slash,
        t[6].kind == TokenKind::Eof,
    ensures
        parse_tokens(t) == Ok::<Seq<SStmt>, Seq<SParseError>>(
            seq![
                SStmt::Print(
                    SExpr::Binary {
                        left: Box::new(SExpr::Literal(t[1].lexeme)),
                        operator: t[2],
                        right: Box::new(
                            SExpr::Binary {
                                left: Box::new(SExpr::Literal(t[3].lexeme)),
                                operator: t[4],
                                right: Box::new(SExpr::Literal(t[5].lexeme)),
                            },
                        ),
                    },
                ),
            ],
        ),
{
    let la = SExpr::Literal(t[1].lexeme);
    let lb = SExpr::Literal(t[3].lexeme);
    let lc = SExpr::Literal(t[5].lexeme);
    let bc = SExpr::Binary { left: Box::new(lb), operator: t[4], right: Box::new(lc) };
    let e = SExpr::Binary { left: Box::new(la), operator: t[2], right: Box::new(bc) };
    lemma_number_operand(t, 1);
    lemma_number_operand(t, 3);
    lemma_number_operand(t, 5);
    lemma_rest_at_end(t, 6, bc);
    lemma_rest_at_end(t, 6, e);
    lemma_rest_step(t, 4, lb, 1, lc, 6);
    assert(p_binary(t, 3, 1) == (Ok::<SExpr, SParseError>(bc), 6int));
    lemma_rest_stop(t, 2, la, 1);
    assert(p_binary(t, 1, 1) == (Ok::<SExpr, SParseError>(la), 2int));
    lemma_rest_step(t, 2, la, 2, bc, 6);
    assert(p_binary(t, 1, 2) == (Ok::<SExpr, SParseError>(e), 6int));
    lemma_levels_to_end(t, 1, e, 6, 2);
    lemma_print_program(t, e);
}

proof fn lemma_product_then_sum(u: Seq<SpecToken>)
    requires
        u.len() == 7,
        u[0].kind == TokenKind::Print,
        u[1].kind == TokenKind::Number && u[1].lexeme != "عدم"@,
        u[3].kind == TokenKind::Number && u[3].lexeme != "عدم"@,
        u[5].kind == TokenKind::Number && u[5].lexeme != "عدم"@,
        u[2].kind == TokenKind::Star || u[2].kind == TokenKind::Slash,
        u[4].kind == TokenKind::Plus || u[4].kind == TokenKind::Minus,
        u[6].kind == TokenKind::Eof,
    ensures
        parse_tokens(u) == Ok::<Seq<SStmt>, Seq<SParseError>>(
            seq![
                SStmt::Print(
                    SExpr::Binary {
                        left: Box::new(
                            SExpr::Binary {
                                left: Box::new(SExpr::Literal(u[1].lexeme)),
                                operator: u[2],
                                right: Box::new(SExpr::Literal(u[3].lexeme)),
                            },
                        ),
                        operator: u[4],
                        right: Box::new(SExpr::Literal(u[5].lexeme)),
                    },
                ),
            ],
        ),
{
    let la = SExpr::Literal(u[1].lexeme);
    let lb = SExpr::Literal(u[3].lexeme);
    let lc = SExpr::Literal(u[5].lexeme);
    let ab = SExpr::Binary { left: Box::new(la), operator: u[2], right: Box::new(lb) };
    let f = SExpr::Binary { left: Box::new(ab), operator: u[4], right: Box::new(lc) };
    lemma_number_operand(u, 1);
    lemma_number_operand(u, 3);
    lemma_number_operand(u, 5);
    lemma_rest_at_end(u, 6, lc);
    lemma_rest_at_end(u, 6, f);
    lemma_rest_step(u, 2, la, 1, lb, 4);
    lemma_rest_stop(u, 4, ab, 1);
    assert(p_binary(u, 1, 1) == (Ok::<SExpr, SParseError>(ab), 4int));
    assert(p_unary(u, 5) == (Ok::<SExpr, SParseError>(lc), 6int));
    assert(p_binary_rest(u, 6, lc, 1) == (Ok::<SExpr, SParseError>(lc), 6int));
    assert(p_binary(u, 5, 1) == (Ok::<SExpr, SParseError>(lc), 6int));
    lemma_rest_step(u, 4, ab, 2, lc, 6);
    assert(p_binary(u, 1, 2) == (Ok::<SExpr, SParseError>(f), 6int));
    lemma_levels_to_end(u, 1, f, 6, 2);
    lemma_print_program(u, f);
}

/// `*` and `/` bind tighter than `+` and `-`, whichever comes first: with
/// numbers `a`, `b`, `c`, `print a + b / c` prints `a + (b / c)` and
/// `print a / b + c` prints `(a / b) + c` (and likewise with `-` and `*`).
pub proof fn lemma_product_binds_tighter(
    pr: SpecToken,
    a: SpecToken,
    add: SpecToken,
    b: SpecToken,
    mul: SpecToken,
    c: SpecToken,
    eof: SpecToken,
)
    requires
        pr.kind == TokenKind::Print,
        a.kind == TokenKind::Number,
        b.kind == TokenKind::Number,
        c.kind == TokenKind::Number,
        a.lexeme != "عدم"@,
        b.lexeme != "عدم"@,
        c.lexeme != "عدم"@,
        add.kind == TokenKind::Plus || add.kind == TokenKind::Minus,
        mul.kind == TokenKind::Star || mul.kind == TokenKind::Slash,
        eof.kind == TokenKind::Eof,
    ensures
        parse_tokens(seq![pr, a, add, b, mul, c, eof]) == Ok::<Seq<SStmt>, Seq<SParseError>>(
            seq![
                SStmt::Print(
                    SExpr::Binary {
                        left: Box::new(SExpr::Literal(a.lexeme)),
                        operator: add,
                        right: Box::new(
                            SExpr::Binary {
                                left: Box::new(SExpr::Literal(b.lexeme)),
                                operator: mul,
                                right: Box::new(SExpr::Literal(c.lexeme)),
                            },
                        ),
                    },
                ),
            ],
        ),
        parse_tokens(seq![pr, a, mul, b, add, c, eof]) == Ok::<Seq<SStmt>, Seq<SParseError>>(
            seq![
                SStmt::Print(
                    SExpr::Binary {
                        left: Box::new(
                            SExpr::Binary {
                                left: Box::new(SExpr::Literal(a.lexeme)),
                                operator: mul,
                                right: Box::new(SExpr::Literal(b.lexeme)),
                            },
                        ),
                        operator: add,
                        right: Box::new(SExpr::Literal(c.lexeme)),
                    },
                ),
            ],
        ),
{
    let t = seq![pr, a, add, b, mul, c, eof];
    assert(t[0] == pr && t[1] == a && t[2] == add && t[3] == b && t[4] == mul && t[5] == c
        && t[6] == eof);
    lemma_sum_of_product(t);
    let u = seq![pr, a, mul, b, add, c, eof];
    assert(u[0] == pr && u[1] == a && u[2] == mul && u[3] == b && u[4] == add && u[5] == c
        && u[6] == eof);
    lemma_product_then_sum(u);
}

// ---------------------------------------------------------------------------
// Values of results
// ---------------------------------------------------------------------------

pub open spec fn expr_res(r: Result<Expr, ParseError>) -> Result<SExpr, SParseError> {
    match r {
        Ok(e) => Ok(expr_view(e)),
        Err(e) => Err(e@),
    }
}

pub open spec fn exprs_res(r: Result<Vec<Expr>, ParseError>) -> Result<Seq<SExpr>, SParseError> {
    match r {
        Ok(es) => Ok(exprs_view(es@)),
        Err(e) => Err(e@),
    }
}

pub open spec fn stmt_res(r: Result<Stmt, ParseError>) -> Result<SStmt, SParseError> {
    match r {
        Ok(s) => Ok(stmt_view(s)),
        Err(e) => Err(e@),
    }
}

pub open spec fn decl_res(r: Result<Option<Stmt>, ParseError>) -> Result<
    Option<SStmt>,
    SParseError,
> {
    match r {
        Ok(Some(s)) => Ok(Some(stmt_view(s))),
        Ok(None) => Ok(None),
        Err(e) => Err(e@),
    }
}

pub open spec fn block_res(r: Result<Vec<Stmt>, ParseError>) -> Result<Seq<SStmt>, SParseError> {
    match r {
        Ok(ss) => Ok(stmts_view(ss@)),
        Err(e) => Err(e@),
    }
}

pub open spec fn else_res(r: Result<Option<Box<Stmt>>, ParseError>) -> Result<
    Option<Box<SStmt>>,
    SParseError,
> {
    match r {
        Ok(Some(s)) => Ok(Some(Box::new(stmt_view(*s)))),
        Ok(None) => Ok(None),
        Err(e) => Err(e@),
    }
}

pub open spec fn tok_res(r: Result<Token, ParseError>) -> Result<SpecToken, SParseError> {
    match r {
        Ok(tk) => Ok(tk@),
        Err(e) => Err(e@),
    }
}

/// The values of parse errors.
pub open spec fn errors_view(es: Seq<ParseError>) -> Seq<SParseError> {
    es.map_values(|e: ParseError| e@)
}

pub open spec fn toks_res(r: Result<Vec<Token>, ParseError>) -> Result<
    Seq<SpecToken>,
    SParseError,
> {
    match r {
        Ok(ts) => Ok(tokens_view(ts@)),
        Err(e) => Err(e@),
    }
}

pub open spec fn program_res(r: Result<Vec<Stmt>, Vec<ParseError>>) -> Result<
    Seq<SStmt>,
    Seq<SParseError>,
> {
    match r {
        Ok(ss) => Ok(stmts_view(ss@)),
        Err(es) => Err(errors_view(es@)),
    }
}

// ---------------------------------------------------------------------------
// The parser
// ---------------------------------------------------------------------------

/// A recursive-descent parser over the tokens of the lexer.
pub struct Parser {
    tokens: Vec<Token>,
    current: usize,
}

impl Parser {
    /// The values of the tokens being parsed.
    pub closed spec fn toks(&self) -> Seq<SpecToken> {
        tokens_view(self.tokens@)
    }

    /// The position reached.
    pub closed spec fn pos(&self) -> int {
        self.current as int
    }

    /// The tokens end with the end marker and the position is on a token.
    pub closed spec fn wf(&self) -> bool {
        &&& self.tokens@.len() > 0
        &&& self.tokens@.last().kind == TokenKind::Eof
        &&& self.current < self.tokens@.len()
    }

    /// A parser at the first of `tokens`, which must end with `Eof` (as the
    /// lexer's output does).
    pub fn new(tokens: Vec<Token>) -> (p: Self)
        requires
            tokens@.len() > 0,
            tokens@.last().kind == TokenKind::Eof,
        ensures
            p.wf(),
            p.toks() == tokens_view(tokens@),
            p.pos() == 0,
    {
        Parser { tokens, current: 0 }
    }

    fn is_at_end(&self) -> (r: bool)
        requires
            self.wf(),
        ensures
            r == at_end(self.toks(), self.pos()),
    {
        assert(self.tokens@[self.current as int]@.kind == self.toks()[self.pos()].kind);
        self.tokens[self.current].kind == TokenKind::Eof
    }

    fn check(&self, kind: TokenKind) -> (r: bool)
        requires
            self.wf(),
        ensures
            r == check(self.toks(), self.pos(), kind),
    {
        if self.is_at_end() {
            return false;
        }
        assert(self.tokens@[self.current as int]@.kind == self.toks()[self.pos()].kind);
        self.tokens[self.current].kind == kind
    }

    fn advance(&mut self)
        requires
            old(self).wf(),
        ensures
            final(self).wf(),
            final(self).tokens@ == old(self).tokens@,
            final(self).pos() == adv(old(self).toks(), old(self).pos()),
            !at_end(old(self).toks(), old(self).pos()) ==> final(self).current == old(self).current
                + 1,
    {
        if !self.is_at_end() {
            let n = self.tokens.len();
            assert(self.tokens@[self.current as int]@.kind == self.toks()[self.pos()].kind);
            assert(self.current + 1 < n);
            self.current = self.current + 1;
        }
    }

    fn match_kind(&mut self, kind: TokenKind) -> (r: bool)
        requires
            old(self).wf(),
        ensures
            final(self).wf(),
            final(self).tokens@ == old(self).tokens@,
            r == check(old(self).toks(), old(self).pos(), kind),
            final(self).pos() == skip_opt(old(self).toks(), old(self).pos(), kind),
            r ==> final(self).current == old(self).current + 1,
            !r ==> final(self).current == old(self).current,
    {
        if self.check(kind) {
            self.advance();
            return true;
        }
        false
    }

    /// The token at the position reached.
    pub fn peek(&self) -> (tk: Token)
        requires
            self.wf(),
        ensures
            tk@ == self.toks()[self.pos()],
    {
        self.tokens[self.current].clone()
    }

    fn previous(&self) -> (tk: Token)
        requires
            self.wf(),
            self.current >= 1,
        ensures
            tk@ == self.toks()[self.pos() - 1],
    {
        self.tokens[self.current - 1].clone()
    }

    fn error_here(&self, message: &str) -> (e: ParseError)
        requires
            self.wf(),
        ensures
            e@ == error_at(self.toks(), self.pos(), message@),
    {
        ParseError { token: self.peek(), message: string_from(message) }
    }

    fn consume(&mut self, kind: TokenKind, message: &str) -> (r: Result<Token, ParseError>)
        requires
            old(self).wf(),
        ensures
            final(self).wf(),
            final(self).tokens@ == old(self).tokens@,
            (tok_res(r), final(self).pos()) == expect(
                old(self).toks(),
                old(self).pos(),
                kind,
                message@,
            ),
            r is Ok ==> final(self).current == old(self).current + 1,
            r is Err ==> final(self).current == old(self).current,
    {
        if self.check(kind) {
            let tk = self.peek();
            self.advance();
            return Ok(tk);
        }
        Err(self.error_here(message))
    }

    fn skip_newlines(&mut self)
        requires
            old(self).wf(),
        ensures
            final(self).wf(),
            final(self).tokens@ == old(self).tokens@,
            final(self).pos() == skip_newlines(old(self).toks(), old(self).pos()),
            final(self).current >= old(self).current,
    {
        while self.match_kind(TokenKind::Newline)
            invariant
                self.wf(),
                self.tokens@ == old(self).tokens@,
                self.current >= old(self).current,
                skip_newlines(self.toks(), self.pos()) == skip_newlines(
                    old(self).toks(),
                    old(self).pos(),
                ),
            decreases self.tokens@.len() - self.current,
        {
        }
    }

    fn primary(&mut self) -> (r: Result<Expr, ParseError>)
        requires
            old(self).wf(),
        ensures
            final(self).wf(),
            final(self).tokens@ == old(self).tokens@,
            (expr_res(r), final(self).pos()) == p_primary(old(self).toks(), old(self).pos()),
            final(self).current >= old(self).current,
            r is Ok && !at_end(old(self).toks(), old(self).pos()) ==> final(self).current
                > old(self).current,
        decreases old(self).tokens@.len() - old(self).current, 1int,
    {
        let ghost t = self.toks();
        let ghost p = self.pos();
        if self.match_kind(TokenKind::False) {
            return Ok(Expr::Literal(string_from("false")));
        }
        if self.match_kind(TokenKind::True) {
            return Ok(Expr::Literal(string_from("true")));
        }
        if str_eq(self.tokens[self.current].lexeme.as_str(), "عدم") {
            self.advance();
            return Ok(Expr::Literal(string_from("nil")));
        }
        if self.check(TokenKind::Number) || self.check(TokenKind::String) {
            let tk = self.peek();
            self.advance();
            return Ok(Expr::Literal(tk.lexeme));
        }
        if self.check(TokenKind::Identifier) {
            let tk = self.peek();
            self.advance();
            return Ok(Expr::Variable(tk));
        }
        if self.match_kind(TokenKind::LeftParen) {
            let expr = self.expression()?;
            self.consume(TokenKind::RightParen, "متوقع قوس الإغلاق ')' بعد نهاية التعبير الحسابي.")?;
            return Ok(Expr::Grouping(Box::new(expr)));
        }
        if self.check(TokenKind::LeftBracket) {
            let bracket = self.peek();
            self.advance();
            let elements = if !self.check(TokenKind::RightBracket) {
                self.expr_list()?
            } else {
                Vec::new()
            };
            proof {
                lemma_exprs_view_len(elements@);
            }
            self.consume(TokenKind::RightBracket, "متوقع قوس الإغلاق ']' بعد عناصر المصفوفة.")?;
            return Ok(Expr::Array { bracket, elements });
        }
        Err(self.error_here("تعبير غير متوقع أو رمز غير معروف."))
    }

    fn expression(&mut self) -> (r: Result<Expr, ParseError>)
        requires
            old(self).wf(),
        ensures
            final(self).wf(),
            final(self).tokens@ == old(self).tokens@,
            (expr_res(r), final(self).pos()) == p_expression(old(self).toks(), old(self).pos()),
            final(self).current >= old(self).current,
            r is Ok && !at_end(old(self).toks(), old(self).pos()) ==> final(self).current
                > old(self).current,
        decreases old(self).tokens@.len() - old(self).current, 18int,
    {
        self.assignment()
    }

    fn assignment(&mut self) -> (r: Result<Expr, ParseError>)
        requires
            old(self).wf(),
        ensures
            final(self).wf(),
            final(self).tokens@ == old(self).tokens@,
            (expr_res(r), final(self).pos()) == p_assignment(old(self).toks(), old(self).pos()),
            final(self).current >= old(self).current,
            r is Ok && !at_end(old(self).toks(), old(self).pos()) ==> final(self).current
                > old(self).current,
        decreases old(self).tokens@.len() - old(self).current, 17int,
    {
        let expr = self.or()?;
        if self.match_kind(TokenKind::Equal) {
            let value = self.assignment()?;
            match expr {
                Expr::Variable(name) => {
                    return Ok(Expr::Assign { name, value: Box::new(value) });
                },
                Expr::Index { callee, index, .. } => {
                    return Ok(Expr::IndexAssign { callee, index, value: Box::new(value) });
                },
                _ => {
                    return Err(
                        ParseError {
                            token: self.previous(),
                            message: string_from("هدف الإسناد (Assignment target) غير صالح."),
                        },
                    );
                },
            }
        }
        Ok(expr)
    }

    fn or(&mut self) -> (r: Result<Expr, ParseError>)
        requires
            old(self).wf(),
        ensures
            final(self).wf(),
            final(self).tokens@ == old(self).tokens@,
            (expr_res(r), final(self).pos()) == p_binary(old(self).toks(), old(self).pos(), 6),
            final(self).current >= old(self).current,
            r is Ok && !at_end(old(self).toks(), old(self).pos()) ==> final(self).current
                > old(self).current,
        decreases old(self).tokens@.len() - old(self).current, 16int,
    {
        let ghost t = self.toks();
        let ghost p = self.pos();
        let mut expr = self.and()?;
        let ghost p1 = self.pos();
        let ghost e1 = expr_view(expr);
        while self.match_kind(TokenKind::OrOr)
            invariant
                self.wf(),
                self.tokens@ == old(self).tokens@,
                t == old(self).toks(),
                p == old(self).pos(),
                p <= p1 <= self.pos(),
                !at_end(t, p) ==> p < p1,
                p_binary(t, p, 6) == p_binary_rest(t, p1, e1, 6),
                p_binary_rest(t, self.pos(), expr_view(expr), 6) == p_binary_rest(t, p1, e1, 6),
            decreases self.tokens@.len() - self.current,
        {
            let operator = self.previous();
            let right = self.and()?;
            expr = Expr::Binary { left: Box::new(expr), operator, right: Box::new(right) };
        }
        Ok(expr)
    }

    fn and(&mut self) -> (r: Result<Expr, ParseError>)
        requires
            old(self).wf(),
        ensures
            final(self).wf(),
            final(self).tokens@ == old(self).tokens@,
            (expr_res(r), final(self).pos()) == p_binary(old(self).toks(), old(self).pos(), 5),
            final(self).current >= old(self).current,
            r is Ok && !at_end(old(self).toks(), old(self).pos()) ==> final(self).current
                > old(self).current,
        decreases old(self).tokens@.len() - old(self).current, 14int,
    {
        let ghost t = self.toks();
        let ghost p = self.pos();
        let mut expr = self.equality()?;
        let ghost p1 = self.pos();
        let ghost e1 = expr_view(expr);
        while self.match_kind(TokenKind::AndAnd)
            invariant
                self.wf(),
                self.tokens@ == old(self).tokens@,
                t == old(self).toks(),
                p == old(self).pos(),
                p <= p1 <= self.pos(),
                !at_end(t, p) ==> p < p1,
                p_binary(t, p, 5) == p_binary_rest(t, p1, e1, 5),
                p_binary_rest(t, self.pos(), expr_view(expr), 5) == p_binary_rest(t, p1, e1, 5),
            decreases self.tokens@.len() - self.current,
        {
            let operator = self.previous();
            let right = self.equality()?;
            expr = Expr::Binary { left: Box::new(expr), operator, right: Box::new(right) };
        }
        Ok(expr)
    }

    fn equality(&mut self) -> (r: Result<Expr, ParseError>)
        requires
            old(self).wf(),
        ensures
            final(self).wf(),
            final(self).tokens@ == old(self).tokens@,
            (expr_res(r), final(self).pos()) == p_binary(old(self).toks(), old(self).pos(), 4),
            final(self).current >= old(self).current,
            r is Ok && !at_end(old(self).toks(), old(self).pos()) ==> final(self).current
                > old(self).current,
        decreases old(self).tokens@.len() - old(self).current, 12int,
    {
        let ghost t = self.toks();
        let ghost p = self.pos();
        let mut expr = self.comparison()?;
        let ghost p1 = self.pos();
        let ghost e1 = expr_view(expr);
        while self.match_kind(TokenKind::BangEqual) || self.match_kind(TokenKind::EqualEqual)
            invariant
                self.wf(),
                self.tokens@ == old(self).tokens@,
                t == old(self).toks(),
                p == old(self).pos(),
                p <= p1 <= self.pos(),
                !at_end(t, p) ==> p < p1,
                p_binary(t, p, 4) == p_binary_rest(t, p1, e1, 4),
                p_binary_rest(t, self.pos(), expr_view(expr), 4) == p_binary_rest(t, p1, e1, 4),
            decreases self.tokens@.len() - self.current,
        {
            let operator = self.previous();
            let right = self.comparison()?;
            expr = Expr::Binary { left: Box::new(expr), operator, right: Box::new(right) };
        }
        Ok(expr)
    }

    fn comparison(&mut self) -> (r: Result<Expr, ParseError>)
        requires
            old(self).wf(),
        ensures
            final(self).wf(),
            final(self).tokens@ == old(self).tokens@,
            (expr_res(r), final(self).pos()) == p_binary(old(self).toks(), old(self).pos(), 3),
            final(self).current >= old(self).current,
            r is Ok && !at_end(old(self).toks(), old(self).pos()) ==> final(self).current
                > old(self).current,
        decreases old(self).tokens@.len() - old(self).current, 10int,
    {
        let ghost t = self.toks();
        let ghost p = self.pos();
        let mut expr = self.term()?;
        let ghost p1 = self.pos();
        let ghost e1 = expr_view(expr);
        while self.match_kind(TokenKind::Greater) || self.match_kind(TokenKind::GreaterEqual) || self.match_kind(TokenKind::Less) || self.match_kind(TokenKind::LessEqual)
            invariant
                self.wf(),
                self.tokens@ == old(self).tokens@,
                t == old(self).toks(),
                p == old(self).pos(),
                p <= p1 <= self.pos(),
                !at_end(t, p) ==> p < p1,
                p_binary(t, p, 3) == p_binary_rest(t, p1, e1, 3),
                p_binary_rest(t, self.pos(), expr_view(expr), 3) == p_binary_rest(t, p1, e1, 3),
            decreases self.tokens@.len() - self.current,
        {
            let operator = self.previous();
            let right = self.term()?;
            expr = Expr::Binary { left: Box::new(expr), operator, right: Box::new(right) };
        }
        Ok(expr)
    }

    fn term(&mut self) -> (r: Result<Expr, ParseError>)
        requires
            old(self).wf(),
        ensures
            final(self).wf(),
            final(self).tokens@ == old(self).tokens@,
            (expr_res(r), final(self).pos()) == p_binary(old(self).toks(), old(self).pos(), 2),
            final(self).current >= old(self).current,
            r is Ok && !at_end(old(self).toks(), old(self).pos()) ==> final(self).current
                > old(self).current,
        decreases old(self).tokens@.len() - old(self).current, 8int,
    {
        let ghost t = self.toks();
        let ghost p = self.pos();
        let mut expr = self.factor()?;
        let ghost p1 = self.pos();
        let ghost e1 = expr_view(expr);
        while self.match_kind(TokenKind::Minus) || self.match_kind(TokenKind::Plus)
            invariant
                self.wf(),
                self.tokens@ == old(self).tokens@,
                t == old(self).toks(),
                p == old(self).pos(),
                p <= p1 <= self.pos(),
                !at_end(t, p) ==> p < p1,
                p_binary(t, p, 2) == p_binary_rest(t, p1, e1, 2),
                p_binary_rest(t, self.pos(), expr_view(expr), 2) == p_binary_rest(t, p1, e1, 2),
            decreases self.tokens@.len() - self.current,
        {
            let operator = self.previous();
            let right = self.factor()?;
            expr = Expr::Binary { left: Box::new(expr), operator, right: Box::new(right) };
        }
        Ok(expr)
    }

    fn factor(&mut self) -> (r: Result<Expr, ParseError>)
        requires
            old(self).wf(),
        ensures
            final(self).wf(),
            final(self).tokens@ == old(self).tokens@,
            (expr_res(r), final(self).pos()) == p_binary(old(self).toks(), old(self).pos(), 1),
            final(self).current >= old(self).current,
            r is Ok && !at_end(old(self).toks(), old(self).pos()) ==> final(self).current
                > old(self).current,
        decreases old(self).tokens@.len() - old(self).current, 6int,
    {
        let ghost t = self.toks();
        let ghost p = self.pos();
        let mut expr = self.unary()?;
        let ghost p1 = self.pos();
        let ghost e1 = expr_view(expr);
        while self.match_kind(TokenKind::Slash) || self.match_kind(TokenKind::Star)
            invariant
                self.wf(),
                self.tokens@ == old(self).tokens@,
                t == old(self).toks(),
                p == old(self).pos(),
                p <= p1 <= self.pos(),
                !at_end(t, p) ==> p < p1,
                p_binary(t, p, 1) == p_binary_rest(t, p1, e1, 1),
                p_binary_rest(t, self.pos(), expr_view(expr), 1) == p_binary_rest(t, p1, e1, 1),
            decreases self.tokens@.len() - self.current,
        {
            let operator = self.previous();
            let right = self.unary()?;
            expr = Expr::Binary { left: Box::new(expr), operator, right: Box::new(right) };
        }
        Ok(expr)
    }

    fn unary(&mut self) -> (r: Result<Expr, ParseError>)
        requires
            old(self).wf(),
        ensures
            final(self).wf(),
            final(self).tokens@ == old(self).tokens@,
            (expr_res(r), final(self).pos()) == p_unary(old(self).toks(), old(self).pos()),
            final(self).current >= old(self).current,
            r is Ok && !at_end(old(self).toks(), old(self).pos()) ==> final(self).current
                > old(self).current,
        decreases old(self).tokens@.len() - old(self).current, 4int,
    {
        if self.match_kind(TokenKind::Bang) || self.match_kind(TokenKind::Minus) {
            let operator = self.previous();
            let right = self.unary()?;
            return Ok(Expr::Unary { operator, right: Box::new(right) });
        }
        self.call()
    }

    fn call(&mut self) -> (r: Result<Expr, ParseError>)
        requires
            old(self).wf(),
        ensures
            final(self).wf(),
            final(self).tokens@ == old(self).tokens@,
            (expr_res(r), final(self).pos()) == p_call(old(self).toks(), old(self).pos()),
            final(self).current >= old(self).current,
            r is Ok && !at_end(old(self).toks(), old(self).pos()) ==> final(self).current
                > old(self).current,
        decreases old(self).tokens@.len() - old(self).current, 3int,
    {
        let ghost t = self.toks();
        let ghost p = self.pos();
        let expr = self.primary()?;
        let expr = self.postfix(expr)?;
        if let Expr::Variable(_) = expr {
            let arguments = self.bare_args()?;
            proof {
                lemma_exprs_view_len(arguments@);
            }
            if arguments.len() > 0 {
                let paren = self.peek();
                return Ok(Expr::Call { callee: Box::new(expr), paren, arguments });
            }
        }
        Ok(expr)
    }

    /// Calls and indexes after an expression.
    fn postfix(&mut self, e: Expr) -> (r: Result<Expr, ParseError>)
        requires
            old(self).wf(),
        ensures
            final(self).wf(),
            final(self).tokens@ == old(self).tokens@,
            (expr_res(r), final(self).pos()) == p_postfix(
                old(self).toks(),
                old(self).pos(),
                expr_view(e),
            ),
            final(self).current >= old(self).current,
        decreases old(self).tokens@.len() - old(self).current, 2int,
    {
        let ghost t = self.toks();
        let ghost p = self.pos();
        let ghost e0 = expr_view(e);
        let mut expr = e;
        loop
            invariant
                self.wf(),
                self.tokens@ == old(self).tokens@,
                t == old(self).toks(),
                p == old(self).pos(),
                p <= self.pos(),
                e0 == expr_view(e),
                p_postfix(t, self.pos(), expr_view(expr)) == p_postfix(t, p, e0),
            ensures
                p_postfix(t, p, e0) == (Ok::<SExpr, SParseError>(expr_view(expr)), self.pos()),
            decreases self.tokens@.len() - self.current,
        {
            let ghost before = self.pos();
            let ghost cur = expr_view(expr);
            if self.match_kind(TokenKind::LeftParen) {
                match self.finish_call(expr) {
                    Ok(e2) => {
                        expr = e2;
                    },
                    Err(err) => {
                        assert(p_postfix(t, before, cur) == (
                            Err::<SExpr, SParseError>(err@),
                            self.pos(),
                        ));
                        return Err(err);
                    },
                }
            } else if self.match_kind(TokenKind::LeftBracket) {
                match self.finish_index(expr) {
                    Ok(e2) => {
                        expr = e2;
                    },
                    Err(err) => {
                        assert(p_postfix(t, before, cur) == (
                            Err::<SExpr, SParseError>(err@),
                            self.pos(),
                        ));
                        return Err(err);
                    },
                }
            } else {
                break;
            }
        }
        Ok(expr)
    }

    /// Arguments written after a name without parentheses.
    fn bare_args(&mut self) -> (r: Result<Vec<Expr>, ParseError>)
        requires
            old(self).wf(),
        ensures
            final(self).wf(),
            final(self).tokens@ == old(self).tokens@,
            (exprs_res(r), final(self).pos()) == p_bare_args(
                old(self).toks(),
                old(self).pos(),
                Seq::empty(),
            ),
            final(self).current >= old(self).current,
        decreases old(self).tokens@.len() - old(self).current, 2int,
    {
        let ghost t = self.toks();
        let ghost p = self.pos();
        let mut arguments: Vec<Expr> = Vec::new();
        assert(exprs_view(arguments@) =~= Seq::<SExpr>::empty());
        while self.check(TokenKind::Number) || self.check(TokenKind::String) || self.check(
            TokenKind::Identifier,
        )
            invariant
                self.wf(),
                self.tokens@ == old(self).tokens@,
                t == old(self).toks(),
                p == old(self).pos(),
                p <= self.pos(),
                p_bare_args(t, self.pos(), exprs_view(arguments@)) == p_bare_args(
                    t,
                    p,
                    Seq::empty(),
                ),
            decreases self.tokens@.len() - self.current,
        {
            let a = self.primary()?;
            proof {
                lemma_exprs_view_push(arguments@, a);
            }
            arguments.push(a);
        }
        Ok(arguments)
    }

    /// A comma-separated list of expressions (at least one).
    fn expr_list(&mut self) -> (r: Result<Vec<Expr>, ParseError>)
        requires
            old(self).wf(),
        ensures
            final(self).wf(),
            final(self).tokens@ == old(self).tokens@,
            (exprs_res(r), final(self).pos()) == p_expr_list(
                old(self).toks(),
                old(self).pos(),
                Seq::empty(),
            ),
            final(self).current >= old(self).current,
        decreases old(self).tokens@.len() - old(self).current, 19int,
    {
        let ghost t = self.toks();
        let ghost p = self.pos();
        let mut items: Vec<Expr> = Vec::new();
        assert(exprs_view(items@) =~= Seq::<SExpr>::empty());
        loop
            invariant_except_break
                p_expr_list(t, self.pos(), exprs_view(items@)) == p_expr_list(t, p, Seq::empty()),
            invariant
                self.wf(),
                self.tokens@ == old(self).tokens@,
                t == old(self).toks(),
                p == old(self).pos(),
                p <= self.pos(),
            ensures
                p_expr_list(t, p, Seq::empty()) == (
                    Ok::<Seq<SExpr>, SParseError>(exprs_view(items@)),
                    self.pos(),
                ),
            decreases self.tokens@.len() - self.current,
        {
            let e = self.expression()?;
            proof {
                lemma_exprs_view_push(items@, e);
            }
            items.push(e);
            if !self.match_kind(TokenKind::Comma) {
                break;
            }
        }
        Ok(items)
    }

    fn finish_index(&mut self, callee: Expr) -> (r: Result<Expr, ParseError>)
        requires
            old(self).wf(),
            old(self).current >= 1,
        ensures
            final(self).wf(),
            final(self).tokens@ == old(self).tokens@,
            (expr_res(r), final(self).pos()) == p_finish_index(
                old(self).toks(),
                old(self).pos(),
                expr_view(callee),
            ),
            final(self).current >= old(self).current,
        decreases old(self).tokens@.len() - old(self).current, 20int,
    {
        let bracket = self.previous();
        let index = self.expression()?;
        self.consume(TokenKind::RightBracket, "متوقع قوس الإغلاق ']' بعد مؤشر/فهرس المصفوفة.")?;
        Ok(Expr::Index { callee: Box::new(callee), bracket, index: Box::new(index) })
    }

    fn finish_call(&mut self, callee: Expr) -> (r: Result<Expr, ParseError>)
        requires
            old(self).wf(),
        ensures
            final(self).wf(),
            final(self).tokens@ == old(self).tokens@,
            (expr_res(r), final(self).pos()) == p_finish_call(
                old(self).toks(),
                old(self).pos(),
                expr_view(callee),
            ),
            final(self).current >= old(self).current,
        decreases old(self).tokens@.len() - old(self).current, 20int,
    {
        let ghost t = self.toks();
        let ghost p = self.pos();
        let arguments = if !self.check(TokenKind::RightParen) {
            self.expr_list()?
        } else {
            Vec::new()
        };
        proof {
            lemma_exprs_view_len(arguments@);
        }
        let paren = self.consume(
            TokenKind::RightParen,
            "متوقع قوس الإغلاق ')' بعد المعاملات البرمجية الدخيلة.",
        )?;
        Ok(Expr::Call { callee: Box::new(callee), paren, arguments })
    }

    fn expression_statement(&mut self) -> (r: Result<Stmt, ParseError>)
        requires
            old(self).wf(),
        ensures
            final(self).wf(),
            final(self).tokens@ == old(self).tokens@,
            (stmt_res(r), final(self).pos()) == p_expression_statement(
                old(self).toks(),
                old(self).pos(),
            ),
            final(self).current >= old(self).current,
            r is Ok && !at_end(old(self).toks(), old(self).pos()) ==> final(self).current
                > old(self).current,
        decreases old(self).tokens@.len() - old(self).current, 21int,
    {
        let expr = self.expression()?;
        self.match_kind(TokenKind::Semicolon);
        Ok(Stmt::Expression(expr))
    }

    fn print_statement(&mut self) -> (r: Result<Stmt, ParseError>)
        requires
            old(self).wf(),
        ensures
            final(self).wf(),
            final(self).tokens@ == old(self).tokens@,
            (stmt_res(r), final(self).pos()) == p_print_statement(
                old(self).toks(),
                old(self).pos(),
            ),
            final(self).current >= old(self).current,
        decreases old(self).tokens@.len() - old(self).current, 21int,
    {
        let has_paren = self.match_kind(TokenKind::LeftParen);
        let value = self.expression()?;
        if has_paren {
            self.consume(TokenKind::RightParen, "متوقع قوس مغلق ')' بعد تعبير الطباعة.")?;
        }
        self.match_kind(TokenKind::Semicolon);
        Ok(Stmt::Print(value))
    }

    fn return_statement(&mut self) -> (r: Result<Stmt, ParseError>)
        requires
            old(self).wf(),
            old(self).current >= 1,
        ensures
            final(self).wf(),
            final(self).tokens@ == old(self).tokens@,
            (stmt_res(r), final(self).pos()) == p_return_statement(
                old(self).toks(),
                old(self).pos(),
            ),
            final(self).current >= old(self).current,
        decreases old(self).tokens@.len() - old(self).current, 21int,
    {
        let keyword = self.previous();
        let mut value: Option<Expr> = None;
        if !self.check(TokenKind::Semicolon) && !self.check(TokenKind::RightBrace)
            && !self.is_at_end() {
            value = Some(self.expression()?);
        }
        self.match_kind(TokenKind::Semicolon);
        Ok(Stmt::Return { keyword, value })
    }

    fn var_declaration(&mut self) -> (r: Result<Stmt, ParseError>)
        requires
            old(self).wf(),
        ensures
            final(self).wf(),
            final(self).tokens@ == old(self).tokens@,
            (stmt_res(r), final(self).pos()) == p_var_declaration(
                old(self).toks(),
                old(self).pos(),
            ),
            final(self).current >= old(self).current,
        decreases old(self).tokens@.len() - old(self).current, 21int,
    {
        let name = self.consume(TokenKind::Identifier, "متوقع اسم المتغير بعد الإعلان عنه.")?;
        let mut initializer: Option<Expr> = None;
        if self.match_kind(TokenKind::Equal) {
            initializer = Some(self.expression()?);
        }
        self.match_kind(TokenKind::Semicolon);
        Ok(Stmt::Var { name, initializer })
    }

    /// Parameter names between parentheses, separated by commas.
    fn params(&mut self) -> (r: Result<Vec<Token>, ParseError>)
        requires
            old(self).wf(),
        ensures
            final(self).wf(),
            final(self).tokens@ == old(self).tokens@,
            (toks_res(r), final(self).pos()) == p_params(
                old(self).toks(),
                old(self).pos(),
                Seq::empty(),
            ),
            final(self).current >= old(self).current,
    {
        let ghost t = self.toks();
        let ghost p = self.pos();
        let mut params: Vec<Token> = Vec::new();
        assert(tokens_view(params@) =~= Seq::<SpecToken>::empty());
        loop
            invariant_except_break
                p_params(t, self.pos(), tokens_view(params@)) == p_params(t, p, Seq::empty()),
            invariant
                self.wf(),
                self.tokens@ == old(self).tokens@,
                t == old(self).toks(),
                p == old(self).pos(),
                p <= self.pos(),
            ensures
                p_params(t, p, Seq::empty()) == (
                    Ok::<Seq<SpecToken>, SParseError>(tokens_view(params@)),
                    self.pos(),
                ),
            decreases self.tokens@.len() - self.current,
        {
            let name = self.consume(TokenKind::Identifier, "متوقع اسم المعامل.")?;
            let ghost before = params@;
            let ghost nv = name@;
            params.push(name);
            assert(tokens_view(params@) =~= tokens_view(before).push(nv));
            if !self.match_kind(TokenKind::Comma) {
                break;
            }
        }
        Ok(params)
    }

    /// Parameter names written without parentheses.
    fn bare_params(&mut self) -> (r: Vec<Token>)
        requires
            old(self).wf(),
        ensures
            final(self).wf(),
            final(self).tokens@ == old(self).tokens@,
            (tokens_view(r@), final(self).pos()) == p_bare_params(
                old(self).toks(),
                old(self).pos(),
                Seq::empty(),
            ),
            final(self).current >= old(self).current,
    {
        let ghost t = self.toks();
        let ghost p = self.pos();
        let mut params: Vec<Token> = Vec::new();
        assert(tokens_view(params@) =~= Seq::<SpecToken>::empty());
        while self.check(TokenKind::Identifier)
            invariant
                self.wf(),
                self.tokens@ == old(self).tokens@,
                t == old(self).toks(),
                p == old(self).pos(),
                p <= self.pos(),
                p_bare_params(t, self.pos(), tokens_view(params@)) == p_bare_params(
                    t,
                    p,
                    Seq::empty(),
                ),
            decreases self.tokens@.len() - self.current,
        {
            let tk = self.peek();
            self.advance();
            let ghost before = params@;
            let ghost nv = tk@;
            params.push(tk);
            assert(tokens_view(params@) =~= tokens_view(before).push(nv));
        }
        params
    }

    /// The parameters of a function, with or without parentheses.
    fn param_list(&mut self) -> (r: Result<Vec<Token>, ParseError>)
        requires
            old(self).wf(),
        ensures
            final(self).wf(),
            final(self).tokens@ == old(self).tokens@,
            (toks_res(r), final(self).pos()) == p_param_list(old(self).toks(), old(self).pos()),
            final(self).current >= old(self).current,
    {
        if self.match_kind(TokenKind::LeftParen) {
            let params = if !self.check(TokenKind::RightParen) {
                self.params()?
            } else {
                let v: Vec<Token> = Vec::new();
                assert(tokens_view(v@) =~= Seq::<SpecToken>::empty());
                v
            };
            self.consume(TokenKind::RightParen, "متوقع قوس إغلاق.")?;
            self.match_kind(TokenKind::Colon);
            Ok(params)
        } else {
            Ok(self.bare_params())
        }
    }

    fn function_declaration(&mut self) -> (r: Result<Stmt, ParseError>)
        requires
            old(self).wf(),
        ensures
            final(self).wf(),
            final(self).tokens@ == old(self).tokens@,
            (stmt_res(r), final(self).pos()) == p_function_declaration(
                old(self).toks(),
                old(self).pos(),
            ),
            final(self).current >= old(self).current,
        decreases old(self).tokens@.len() - old(self).current, 21int,
    {
        let name = self.consume(TokenKind::Identifier, "متوقع اسم الدالة بعد الإعلان.")?;
        let params = self.param_list()?;
        self.consume(TokenKind::Newline, "متوقع سطر جديد بعد تعريف الدالة.")?;
        let body = self.block_statement()?;
        Ok(Stmt::Function { name, params, body })
    }

    fn if_statement(&mut self) -> (r: Result<Stmt, ParseError>)
        requires
            old(self).wf(),
        ensures
            final(self).wf(),
            final(self).tokens@ == old(self).tokens@,
            (stmt_res(r), final(self).pos()) == p_if_statement(old(self).toks(), old(self).pos()),
            final(self).current >= old(self).current,
        decreases old(self).tokens@.len() - old(self).current, 21int,
    {
        let ghost t = self.toks();
        let condition = self.expression()?;
        self.consume(TokenKind::Newline, "متوقع سطر جديد بعد شرط إذا.")?;
        let then_body = self.block_statement()?;
        let ghost tv = stmts_view(then_body@);
        let then_block = Stmt::Block(then_body);
        assert(stmt_view(then_block) == SStmt::Block(tv));
        let then_branch = Box::new(then_block);
        proof {
            lemma_skip_newlines_ge(t, self.pos());
        }
        self.skip_newlines();
        let else_branch = self.else_branch()?;
        Ok(Stmt::If { condition, then_branch, else_branch })
    }

    /// What may follow the block of an `if`: nothing, `else if ...`, or
    /// `else` with a line break and a block.
    fn else_branch(&mut self) -> (r: Result<Option<Box<Stmt>>, ParseError>)
        requires
            old(self).wf(),
        ensures
            final(self).wf(),
            final(self).tokens@ == old(self).tokens@,
            (else_res(r), final(self).pos()) == p_else_branch(old(self).toks(), old(self).pos()),
            final(self).current >= old(self).current,
        decreases old(self).tokens@.len() - old(self).current, 22int,
    {
        if self.match_kind(TokenKind::Else) {
            if self.match_kind(TokenKind::If) {
                let s = self.if_statement()?;
                return Ok(Some(Box::new(s)));
            } else {
                self.consume(TokenKind::Newline, "متوقع سطر جديد بعد وإلا.")?;
                let else_body = self.block_statement()?;
                let ghost ev = stmts_view(else_body@);
                let block = Stmt::Block(else_body);
                assert(stmt_view(block) == SStmt::Block(ev));
                return Ok(Some(Box::new(block)));
            }
        }
        Ok(None)
    }

    fn while_statement(&mut self) -> (r: Result<Stmt, ParseError>)
        requires
            old(self).wf(),
        ensures
            final(self).wf(),
            final(self).tokens@ == old(self).tokens@,
            (stmt_res(r), final(self).pos()) == p_while_statement(
                old(self).toks(),
                old(self).pos(),
            ),
            final(self).current >= old(self).current,
        decreases old(self).tokens@.len() - old(self).current, 21int,
    {
        let ghost t = self.toks();
        let condition = self.expression()?;
        self.consume(TokenKind::Newline, "متوقع سطر جديد بعد شرط طالما.")?;
        proof {
            lemma_skip_newlines_ge(t, self.pos());
        }
        self.skip_newlines();
        let body = self.block_statement()?;
        let ghost bv = stmts_view(body@);
        let block = Stmt::Block(body);
        assert(stmt_view(block) == SStmt::Block(bv));
        Ok(Stmt::While { condition, body: Box::new(block) })
    }

    fn block_statement(&mut self) -> (r: Result<Vec<Stmt>, ParseError>)
        requires
            old(self).wf(),
        ensures
            final(self).wf(),
            final(self).tokens@ == old(self).tokens@,
            (block_res(r), final(self).pos()) == p_block(old(self).toks(), old(self).pos()),
            final(self).current >= old(self).current,
        decreases old(self).tokens@.len() - old(self).current, 26int,
    {
        self.skip_newlines();
        self.consume(TokenKind::Indent, "متوقع بداية كتلة برمجية بعد المسافة البادئة.")?;
        self.skip_newlines();
        self.block_body()
    }

    /// The declarations of a block up to its `Dedent`.
    fn block_body(&mut self) -> (r: Result<Vec<Stmt>, ParseError>)
        requires
            old(self).wf(),
        ensures
            final(self).wf(),
            final(self).tokens@ == old(self).tokens@,
            (block_res(r), final(self).pos()) == p_block_body(
                old(self).toks(),
                old(self).pos(),
                Seq::empty(),
            ),
            final(self).current >= old(self).current,
        decreases old(self).tokens@.len() - old(self).current, 25int,
    {
        let ghost t = self.toks();
        let ghost p = self.pos();
        let mut statements: Vec<Stmt> = Vec::new();
        assert(stmts_view(statements@) =~= Seq::<SStmt>::empty());
        while !self.check(TokenKind::Dedent) && !self.is_at_end()
            invariant
                self.wf(),
                self.tokens@ == old(self).tokens@,
                t == old(self).toks(),
                p == old(self).pos(),
                p <= self.pos(),
                p_block_body(t, self.pos(), stmts_view(statements@)) == p_block_body(
                    t,
                    p,
                    Seq::empty(),
                ),
            decreases self.tokens@.len() - self.current,
        {
            let d = self.declaration()?;
            if let Some(stmt) = d {
                proof {
                    lemma_stmts_view_push(statements@, stmt);
                }
                statements.push(stmt);
            }
            self.skip_newlines();
        }
        self.consume(TokenKind::Dedent, "متوقع نهاية الكتلة البرمجية.")?;
        Ok(statements)
    }

    fn statement(&mut self) -> (r: Result<Stmt, ParseError>)
        requires
            old(self).wf(),
        ensures
            final(self).wf(),
            final(self).tokens@ == old(self).tokens@,
            (stmt_res(r), final(self).pos()) == p_statement(old(self).toks(), old(self).pos()),
            final(self).current >= old(self).current,
            r is Ok && !at_end(old(self).toks(), old(self).pos()) ==> final(self).current
                > old(self).current,
        decreases old(self).tokens@.len() - old(self).current, 23int,
    {
        if self.match_kind(TokenKind::If) {
            return self.if_statement();
        }
        if self.match_kind(TokenKind::While) {
            return self.while_statement();
        }
        if self.match_kind(TokenKind::Print) {
            return self.print_statement();
        }
        if self.match_kind(TokenKind::Return) {
            return self.return_statement();
        }
        if self.match_kind(TokenKind::LeftBrace) {
            let body = self.block_statement()?;
            return Ok(Stmt::Block(body));
        }
        self.expression_statement()
    }

    fn declaration(&mut self) -> (r: Result<Option<Stmt>, ParseError>)
        requires
            old(self).wf(),
        ensures
            final(self).wf(),
            final(self).tokens@ == old(self).tokens@,
            (decl_res(r), final(self).pos()) == p_declaration(old(self).toks(), old(self).pos()),
            final(self).current >= old(self).current,
            r is Ok && !at_end(old(self).toks(), old(self).pos()) ==> final(self).current
                > old(self).current,
        decreases old(self).tokens@.len() - old(self).current, 24int,
    {
        let ghost t = self.toks();
        let ghost p = self.pos();
        proof {
            lemma_skip_newlines_ge(t, p);
            if check(t, p, TokenKind::Newline) && p < adv(t, p) <= t.len() {
                lemma_skip_newlines_ge(t, adv(t, p));
            }
        }
        self.skip_newlines();
        if self.match_kind(TokenKind::Indent) || self.match_kind(TokenKind::Dedent) {
            return Ok(None);
        }
        if self.match_kind(TokenKind::Function) {
            let s = self.function_declaration()?;
            return Ok(Some(s));
        }
        if self.match_kind(TokenKind::Let) || self.match_kind(TokenKind::Var) {
            let s = self.var_declaration()?;
            return Ok(Some(s));
        }
        let s = self.statement()?;
        Ok(Some(s))
    }

    /// Error recovery: skips to the start of the next statement.
    fn synchronize(&mut self)
        requires
            old(self).wf(),
        ensures
            final(self).wf(),
            final(self).tokens@ == old(self).tokens@,
            final(self).pos() == synchronize(old(self).toks(), old(self).pos()),
            final(self).current >= old(self).current,
            !at_end(old(self).toks(), old(self).pos()) ==> final(self).current
                > old(self).current,
    {
        let ghost t = self.toks();
        let ghost p = self.pos();
        self.advance();
        while !self.is_at_end()
            invariant
                self.wf(),
                self.tokens@ == old(self).tokens@,
                t == old(self).toks(),
                p == old(self).pos(),
                self.current >= p,
                !at_end(t, p) ==> self.current > p,
                self.current >= 1 || at_end(t, self.pos()),
                sync_from(t, self.pos()) == synchronize(t, p),
            decreases self.tokens@.len() - self.current,
        {
            let prev = self.tokens[self.current - 1].kind;
            assert(self.tokens@[self.current - 1]@.kind == t[self.pos() - 1].kind);
            if prev == TokenKind::Semicolon || prev == TokenKind::Newline {
                return;
            }
            let k = self.tokens[self.current].kind;
            assert(self.tokens@[self.current as int]@.kind == t[self.pos()].kind);
            match k {
                TokenKind::Function | TokenKind::Var | TokenKind::Let | TokenKind::If
                | TokenKind::While | TokenKind::Print | TokenKind::Return => {
                    return;
                },
                _ => {},
            }
            self.advance();
        }
    }

    /// Parses the tokens into statements. Every declaration is parsed; after
    /// an error the parser skips to the next statement and goes on, and all
    /// the errors met are returned together.
    pub fn parse(&mut self) -> (r: Result<Vec<Stmt>, Vec<ParseError>>)
        requires
            old(self).wf(),
        ensures
            final(self).wf(),
            final(self).toks() == old(self).toks(),
            program_res(r) == parse_from(old(self).toks(), old(self).pos()),
    {
        let ghost t = self.toks();
        let ghost p = self.pos();
        let mut statements: Vec<Stmt> = Vec::new();
        let mut errors: Vec<ParseError> = Vec::new();
        assert(stmts_view(statements@) =~= Seq::<SStmt>::empty());
        assert(errors_view(errors@) =~= Seq::<SParseError>::empty());
        while !self.is_at_end()
            invariant
                self.wf(),
                self.tokens@ == old(self).tokens@,
                t == old(self).toks(),
                p_program(t, self.pos(), stmts_view(statements@), errors_view(errors@))
                    == p_program(t, p, Seq::empty(), Seq::empty()),
            ensures
                p_program(t, p, Seq::empty(), Seq::empty()) == (
                    stmts_view(statements@),
                    errors_view(errors@),
                ),
            decreases self.tokens@.len() - self.current,
        {
            let ghost pi = self.pos();
            self.skip_newlines();
            if self.is_at_end() {
                break;
            }
            match self.declaration() {
                Ok(stmt) => {
                    if let Some(s) = stmt {
                        proof {
                            lemma_stmts_view_push(statements@, s);
                        }
                        statements.push(s);
                    }
                },
                Err(err) => {
                    let ghost before = errors@;
                    let ghost ev = err@;
                    errors.push(err);
                    assert(errors_view(errors@) =~= errors_view(before).push(ev));
                    self.synchronize();
                },
            }
        }
        if errors.len() == 0 {
            Ok(statements)
        } else {
            Err(errors)
        }
    }
}

} // verus!
