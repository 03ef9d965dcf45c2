//! The abstract syntax tree and the recursive-descent parser that builds it
//! from a token stream. Names and string payloads are byte sequences.

use crate::tokenizer::{Token, TokenKind};
use vstd::prelude::*;

verus! {

#[derive(Debug)]
pub enum Expression {
    Literal(LiteralExpression),
    Variable(VariableExpression),
    Binary(BinaryExpression),
    Call(CallExpression),
    Assign(AssignExpression),
    Unary(UnaryExpression),
}

#[derive(Debug)]
pub struct LiteralExpression {
    pub value: Literal,
}

/// A literal constant: numbers are 64-bit integers.
#[derive(Debug)]
pub enum Literal {
    Num(i64),
    Bool(bool),
    Null,
}

#[derive(Debug)]
pub struct VariableExpression {
    pub value: Vec<u8>,
}

#[derive(Debug)]
pub struct BinaryExpression {
    pub kind: BinaryExpressionKind,
    pub lhs: Box<Expression>,
    pub rhs: Box<Expression>,
}

/// `Equality(true)` is `!=`, `Equality(false)` is `==`.
#[derive(Debug)]
pub enum BinaryExpressionKind {
    Add,
    Sub,
    Mul,
    Div,
    Less,
    Equality(bool),
}

#[derive(Debug)]
pub struct CallExpression {
    pub variable: Vec<u8>,
    pub arguments: Vec<Expression>,
}

#[derive(Debug)]
pub struct AssignExpression {
    pub lhs: Box<Expression>,
    pub rhs: Box<Expression>,
}

/// Logical negation, `!expr`.
#[derive(Debug)]
pub struct UnaryExpression {
    pub expr: Box<Expression>,
}

/// A statement; `Dummy` is the sentinel for a missing `else` branch and
/// compiles to nothing.
#[derive(Debug)]
pub enum Statement {
    Dummy,
    Print(PrintStatement),
    Fn(FnStatement),
    Expression(ExpressionStatement),
    Return(ReturnStatement),
    If(IfStatement),
    Block(BlockStatement),
}

#[derive(Debug)]
pub struct PrintStatement {
    pub expression: Expression,
}

#[derive(Debug)]
pub struct FnStatement {
    pub name: Vec<u8>,
    pub arguments: Vec<Vec<u8>>,
    pub body: Box<Statement>,
}

#[derive(Debug)]
pub struct ExpressionStatement {
    pub expression: Expression,
}

#[derive(Debug)]
pub struct ReturnStatement {
    pub expression: Expression,
}

#[derive(Debug)]
pub struct IfStatement {
    pub condition: Expression,
    pub if_branch: Box<Statement>,
    pub else_branch: Box<Statement>,
}

#[derive(Debug)]
pub struct BlockStatement {
    pub body: Vec<Statement>,
}

/// A rejected token stream; parsing stops at the first one.
#[derive(Debug, Clone, Copy, PartialEq, Eq, Structural)]
pub enum ParseError {
    /// A token that cannot begin or continue the construct being parsed.
    UnexpectedToken,
    /// The token stream ended inside a construct.
    UnexpectedEnd,
    /// A number literal that is not a machine integer.
    BadNumber,
    /// A call whose callee is not a plain name.
    BadCallee,
}

/// The value of a digit string, most significant digit first.
pub open spec fn dec_val(s: Seq<u8>) -> int
    decreases s.len(),
{
    if s.len() == 0 {
        0
    } else {
        dec_val(s.drop_last()) * 10 + (s.last() - 48)
    }
}

/// The value of a digit string is nonnegative.
pub proof fn lemma_dec_val_nonneg(s: Seq<u8>)
    requires
        forall|j: int| 0 <= j < s.len() ==> crate::tokenizer::is_digit(s[j]),
    ensures
        dec_val(s) >= 0,
    decreases s.len(),
{
    if s.len() > 0 {
        lemma_dec_val_nonneg(s.drop_last());
    }
}

/// A digit string is worth at least any of its prefixes.
pub proof fn lemma_dec_val_prefix(s: Seq<u8>, j: int)
    requires
        forall|i: int| 0 <= i < s.len() ==> crate::tokenizer::is_digit(s[i]),
        0 <= j <= s.len(),
    ensures
        dec_val(s.take(j)) <= dec_val(s),
    decreases s.len() - j,
{
    if j == s.len() {
        assert(s.take(j) =~= s);
    } else {
        lemma_dec_val_prefix(s, j + 1);
        assert(s.take(j + 1).drop_last() =~= s.take(j));
        assert(forall|i: int| 0 <= i < s.take(j).len() ==> crate::tokenizer::is_digit(
            s.take(j)[i],
        ));
        lemma_dec_val_nonneg(s.take(j));
        assert(dec_val(s.take(j + 1)) == dec_val(s.take(j)) * 10 + (s[j] - 48));
    }
}

/// Reads a decimal integer: `Some` exactly when the text is one or more
/// digits whose value fits in a 64-bit integer, and then the value is the
/// one the digits denote.
pub fn parse_i64(s: &Vec<u8>) -> (r: Option<i64>)
    ensures
        match r {
            Some(v) => s@.len() > 0 && (forall|j: int|
                0 <= j < s@.len() ==> crate::tokenizer::is_digit(s@[j])) && v as int == dec_val(
                s@,
            ),
            None => s@.len() == 0 || !(forall|j: int|
                0 <= j < s@.len() ==> crate::tokenizer::is_digit(s@[j])) || dec_val(s@)
                > i64::MAX,
        },
{
    if s.len() == 0 {
        return None;
    }
    let mut i: usize = 0;
    while i < s.len()
        invariant
            i <= s@.len(),
            forall|j: int| 0 <= j < i ==> crate::tokenizer::is_digit(s@[j]),
        decreases s@.len() - i,
    {
        let b = s[i];
        if !(48 <= b && b <= 57) {
            return None;
        }
        i = i + 1;
    }
    let mut acc: i64 = 0;
    let mut k: usize = 0;
    proof {
        assert(s@.take(0) =~= Seq::<u8>::empty());
    }
    while k < s.len()
        invariant
            k <= s@.len(),
            forall|j: int| 0 <= j < s@.len() ==> crate::tokenizer::is_digit(s@[j]),
            0 <= acc,
            acc as int == dec_val(s@.take(k as int)),
        decreases s@.len() - k,
    {
        let d = (s[k] - 48) as i64;
        let stepped: Option<i64> = match acc.checked_mul(10) {
            Some(m) => m.checked_add(d),
            None => None,
        };
        match stepped {
            Some(v) => {
                acc = v;
            },
            None => {
                proof {
                    assert(s@.take(k + 1).drop_last() =~= s@.take(k as int));
                    assert(dec_val(s@.take(k + 1)) == acc * 10 + d);
                    lemma_dec_val_prefix(s@, k + 1);
                }
                return None;
            },
        }
        k = k + 1;
        proof {
            assert(s@.take(k as int).drop_last() =~= s@.take(k - 1));
        }
    }
    proof {
        assert(s@.take(k as int) =~= s@);
    }
    Some(acc)
}

/// The mathematical value of an [`Expression`]: names and string payloads
/// are byte sequences.
pub ghost enum ExprV {
    Literal(Literal),
    Variable(Seq<u8>),
    Binary(BinaryExpressionKind, Box<ExprV>, Box<ExprV>),
    Call(Seq<u8>, Seq<ExprV>),
    Assign(Box<ExprV>, Box<ExprV>),
    Unary(Box<ExprV>),
}

/// The mathematical value of a [`Statement`].
pub ghost enum StmtV {
    Dummy,
    Print(ExprV),
    Fn(Seq<u8>, Seq<Seq<u8>>, Box<StmtV>),
    Expression(ExprV),
    Return(ExprV),
    If(ExprV, Box<StmtV>, Box<StmtV>),
    Block(Seq<StmtV>),
}

/// The mathematical value of an expression.
pub open spec fn expr_view(e: Expression) -> ExprV
    decreases e,
{
    match e {
        Expression::Literal(l) => ExprV::Literal(l.value),
        Expression::Variable(v) => ExprV::Variable(v.value@),
        Expression::Binary(b) => ExprV::Binary(
            b.kind,
            Box::new(expr_view(*b.lhs)),
            Box::new(expr_view(*b.rhs)),
        ),
        Expression::Call(c) => ExprV::Call(c.variable@, exprs_view(c.arguments@)),
        Expression::Assign(a) => ExprV::Assign(
            Box::new(expr_view(*a.lhs)),
            Box::new(expr_view(*a.rhs)),
        ),
        Expression::Unary(u) => ExprV::Unary(Box::new(expr_view(*u.expr))),
    }
}

/// The mathematical values of a list of expressions.
pub open spec fn exprs_view(es: Seq<Expression>) -> Seq<ExprV>
    decreases es, es.len(),
{
    if es.len() == 0 {
        Seq::empty()
    } else {
        seq![expr_view(es[0])] + exprs_view(es.drop_first())
    }
}

/// The mathematical value of a statement.
pub open spec fn stmt_view(st: Statement) -> StmtV
    decreases st,
{
    match st {
        Statement::Dummy => StmtV::Dummy,
        Statement::Print(p) => StmtV::Print(expr_view(p.expression)),
        Statement::Fn(f) => StmtV::Fn(
            f.name@,
            f.arguments@.map_values(|a: Vec<u8>| a@),
            Box::new(stmt_view(*f.body)),
        ),
        Statement::Expression(es) => StmtV::Expression(expr_view(es.expression)),
        Statement::Return(r) => StmtV::Return(expr_view(r.expression)),
        Statement::If(i) => StmtV::If(
            expr_view(i.condition),
            Box::new(stmt_view(*i.if_branch)),
            Box::new(stmt_view(*i.else_branch)),
        ),
        Statement::Block(b) => StmtV::Block(stmts_view(b.body@)),
    }
}

/// The mathematical values of a list of statements.
pub open spec fn stmts_view(sts: Seq<Statement>) -> Seq<StmtV>
    decreases sts, sts.len(),
{
    if sts.len() == 0 {
        Seq::empty()
    } else {
        seq![stmt_view(sts[0])] + stmts_view(sts.drop_first())
    }
}

/// Appending an expression appends its value.
pub proof fn lemma_exprs_view_push(es: Seq<Expression>, e: Expression)
    ensures
        exprs_view(es.push(e)) == exprs_view(es).push(expr_view(e)),
    decreases es.len(),
{
    if es.len() == 0 {
        assert(es.push(e)[0] == e);
        assert(es.push(e).drop_first() =~= Seq::<Expression>::empty());
        assert(exprs_view(Seq::<Expression>::empty()) =~= Seq::<ExprV>::empty());
        assert(exprs_view(es.push(e)) =~= exprs_view(es).push(expr_view(e)));
    } else {
        assert(es.push(e)[0] == es[0]);
        assert(es.push(e).drop_first() =~= es.drop_first().push(e));
        lemma_exprs_view_push(es.drop_first(), e);
        assert(exprs_view(es.push(e)) == seq![expr_view(es[0])] + exprs_view(
            es.drop_first(),
        ).push(expr_view(e)));
        assert(seq![expr_view(es[0])] + exprs_view(es.drop_first()).push(expr_view(e)) =~= (
        seq![expr_view(es[0])] + exprs_view(es.drop_first())).push(expr_view(e)));
    }
}

/// Appending a statement appends its value.
pub proof fn lemma_stmts_view_push(sts: Seq<Statement>, st: Statement)
    ensures
        stmts_view(sts.push(st)) == stmts_view(sts).push(stmt_view(st)),
    decreases sts.len(),
{
    if sts.len() == 0 {
        assert(sts.push(st)[0] == st);
        assert(sts.push(st).drop_first() =~= Seq::<Statement>::empty());
        assert(stmts_view(Seq::<Statement>::empty()) =~= Seq::<StmtV>::empty());
        assert(stmts_view(sts.push(st)) =~= stmts_view(sts).push(stmt_view(st)));
    } else {
        assert(sts.push(st)[0] == sts[0]);
        assert(sts.push(st).drop_first() =~= sts.drop_first().push(st));
        lemma_stmts_view_push(sts.drop_first(), st);
        assert(stmts_view(sts.push(st)) == seq![stmt_view(sts[0])] + stmts_view(
            sts.drop_first(),
        ).push(stmt_view(st)));
        assert(seq![stmt_view(sts[0])] + stmts_view(sts.drop_first()).push(stmt_view(st)) =~= (
        seq![stmt_view(sts[0])] + stmts_view(sts.drop_first())).push(stmt_view(st)));
    }
}

/// A well-formed number literal: digits only, value within a 64-bit
/// integer.
pub open spec fn num_ok(v: Seq<u8>) -> bool {
    &&& v.len() > 0
    &&& forall|j: int| 0 <= j < v.len() ==> crate::tokenizer::is_digit(v[j])
    &&& dec_val(v) <= i64::MAX
}

/// Whether the token at `p` exists and has kind `k`.
pub open spec fn at_kind(ts: Seq<Token>, p: int, k: TokenKind) -> bool {
    0 <= p < ts.len() && ts[p].kind == k
}

/// What parsing a primary expression at `p` returns, and where it leaves
/// the cursor: a number, a name, or a keyword literal, each one token.
#[verifier::opaque]
pub open spec fn primary_spec(ts: Seq<Token>, p: int) -> (Result<ExprV, ParseError>, int)
    decreases ts.len() - p, 2int,
{
    if !(0 <= p < ts.len()) {
        (Err(ParseError::UnexpectedToken), p)
    } else if ts[p].kind == TokenKind::Number {
        if num_ok(ts[p].value@) {
            (Ok(ExprV::Literal(Literal::Num(dec_val(ts[p].value@) as i64))), p + 1)
        } else {
            (Err(ParseError::BadNumber), p + 1)
        }
    } else if ts[p].kind == TokenKind::Identifier {
        (Ok(ExprV::Variable(ts[p].value@)), p + 1)
    } else if ts[p].kind == TokenKind::True {
        (Ok(ExprV::Literal(Literal::Bool(true))), p + 1)
    } else if ts[p].kind == TokenKind::False {
        (Ok(ExprV::Literal(Literal::Bool(false))), p + 1)
    } else if ts[p].kind == TokenKind::Null {
        (Ok(ExprV::Literal(Literal::Null)), p + 1)
    } else {
        (Err(ParseError::UnexpectedToken), p)
    }
}

/// What parsing call syntax at `p` returns: a primary, optionally followed
/// by a parenthesised argument list; the callee must be a plain name.
#[verifier::opaque]
pub open spec fn call_spec(ts: Seq<Token>, p: int) -> (Result<ExprV, ParseError>, int)
    decreases ts.len() - p, 3int,
{
    let (r0, p1) = primary_spec(ts, p);
    match r0 {
        Err(er) => (Err(er), p1),
        Ok(e0) => if !at_kind(ts, p1, TokenKind::LeftParen) {
            (Ok(e0), p1)
        } else {
            let q = p1 + 1;
            let (ra, p2) = if at_kind(ts, q, TokenKind::RightParen) {
                (Ok(Seq::<ExprV>::empty()), q)
            } else if p < q {
                callargs_tail(ts, q, Seq::empty())
            } else {
                (Err(ParseError::UnexpectedToken), q)
            };
            match ra {
                Err(er) => (Err(er), p2),
                Ok(args) => if !at_kind(ts, p2, TokenKind::RightParen) {
                    (Err(ParseError::UnexpectedToken), p2)
                } else {
                    match e0 {
                        ExprV::Variable(name) => (Ok(ExprV::Call(name, args)), p2 + 1),
                        _ => (Err(ParseError::BadCallee), p2 + 1),
                    }
                },
            }
        },
    }
}

/// What the comma-separated argument expressions of a call, starting at
/// `p`, add to those already parsed.
#[verifier::opaque]
pub open spec fn callargs_tail(ts: Seq<Token>, p: int, acc: Seq<ExprV>) -> (
    Result<Seq<ExprV>, ParseError>,
    int,
)
    decreases ts.len() - p, 16int,
{
    let (r1, p2) = expression_spec(ts, p);
    match r1 {
        Err(er) => (Err(er), p2),
        Ok(e1) => if at_kind(ts, p2, TokenKind::Comma) {
            if p <= p2 {
                callargs_tail(ts, p2 + 1, acc.push(e1))
            } else {
                (Err(ParseError::UnexpectedToken), p2)
            }
        } else {
            (Ok(acc.push(e1)), p2)
        },
    }
}

/// What parsing a `!`-prefixed expression at `p` returns.
#[verifier::opaque]
pub open spec fn unary_spec(ts: Seq<Token>, p: int) -> (Result<ExprV, ParseError>, int)
    decreases ts.len() - p, 4int,
{
    if at_kind(ts, p, TokenKind::Bang) {
        let (r1, p1) = unary_spec(ts, p + 1);
        match r1 {
            Ok(e) => (Ok(ExprV::Unary(Box::new(e))), p1),
            Err(er) => (Err(er), p1),
        }
    } else {
        call_spec(ts, p)
    }
}

/// What parsing a `*`/`/` chain at `p` returns.
#[verifier::opaque]
pub open spec fn factor_spec(ts: Seq<Token>, p: int) -> (Result<ExprV, ParseError>, int)
    decreases ts.len() - p, 5int,
{
    let (r0, p1) = unary_spec(ts, p);
    match r0 {
        Err(er) => (Err(er), p1),
        Ok(e0) => if p < p1 <= ts.len() {
            factor_tail(ts, p1, e0)
        } else {
            (Ok(e0), p1)
        },
    }
}

/// What the remaining `* unary` / `/ unary` steps at `p` build onto `acc`.
#[verifier::opaque]
pub open spec fn factor_tail(ts: Seq<Token>, p: int, acc: ExprV) -> (
    Result<ExprV, ParseError>,
    int,
)
    decreases ts.len() - p, 6int,
{
    let k: Option<BinaryExpressionKind> = if at_kind(ts, p, TokenKind::Star) {
        Some(BinaryExpressionKind::Mul)
    } else if at_kind(ts, p, TokenKind::Slash) {
        Some(BinaryExpressionKind::Div)
    } else {
        None
    };
    match k {
        None => (Ok(acc), p),
        Some(kind) => {
            let (r1, p2) = unary_spec(ts, p + 1);
            match r1 {
                Err(er) => (Err(er), p2),
                Ok(e1) => {
                    let node = ExprV::Binary(kind, Box::new(acc), Box::new(e1));
                    if p < p2 <= ts.len() {
                        factor_tail(ts, p2, node)
                    } else {
                        (Ok(node), p2)
                    }
                },
            }
        },
    }
}

/// What parsing a `+`/`-` chain at `p` returns.
#[verifier::opaque]
pub open spec fn term_spec(ts: Seq<Token>, p: int) -> (Result<ExprV, ParseError>, int)
    decreases ts.len() - p, 7int,
{
    let (r0, p1) = factor_spec(ts, p);
    match r0 {
        Err(er) => (Err(er), p1),
        Ok(e0) => if p < p1 <= ts.len() {
            term_tail(ts, p1, e0)
        } else {
            (Ok(e0), p1)
        },
    }
}

/// What the remaining `+ factor` / `- factor` steps at `p` build onto
/// `acc`.
#[verifier::opaque]
pub open spec fn term_tail(ts: Seq<Token>, p: int, acc: ExprV) -> (Result<ExprV, ParseError>, int)
    decreases ts.len() - p, 8int,
{
    let k: Option<BinaryExpressionKind> = if at_kind(ts, p, TokenKind::Plus) {
        Some(BinaryExpressionKind::Add)
    } else if at_kind(ts, p, TokenKind::Minus) {
        Some(BinaryExpressionKind::Sub)
    } else {
        None
    };
    match k {
        None => (Ok(acc), p),
        Some(kind) => {
            let (r1, p2) = factor_spec(ts, p + 1);
            match r1 {
                Err(er) => (Err(er), p2),
                Ok(e1) => {
                    let node = ExprV::Binary(kind, Box::new(acc), Box::new(e1));
                    if p < p2 <= ts.len() {
                        term_tail(ts, p2, node)
                    } else {
                        (Ok(node), p2)
                    }
                },
            }
        },
    }
}

/// What parsing a `<` chain at `p` returns.
#[verifier::opaque]
pub open spec fn relational_spec(ts: Seq<Token>, p: int) -> (Result<ExprV, ParseError>, int)
    decreases ts.len() - p, 9int,
{
    let (r0, p1) = term_spec(ts, p);
    match r0 {
        Err(er) => (Err(er), p1),
        Ok(e0) => if p < p1 <= ts.len() {
            relational_tail(ts, p1, e0)
        } else {
            (Ok(e0), p1)
        },
    }
}

/// What the remaining `< term` steps at `p` build onto `acc`.
#[verifier::opaque]
pub open spec fn relational_tail(ts: Seq<Token>, p: int, acc: ExprV) -> (
    Result<ExprV, ParseError>,
    int,
)
    decreases ts.len() - p, 10int,
{
    if !at_kind(ts, p, TokenKind::Less) {
        (Ok(acc), p)
    } else {
        let (r1, p2) = term_spec(ts, p + 1);
        match r1 {
            Err(er) => (Err(er), p2),
            Ok(e1) => {
                let node = ExprV::Binary(BinaryExpressionKind::Less, Box::new(acc), Box::new(e1));
                if p < p2 <= ts.len() {
                    relational_tail(ts, p2, node)
                } else {
                    (Ok(node), p2)
                }
            },
        }
    }
}

/// What parsing an `==`/`!=` chain at `p` returns.
#[verifier::opaque]
pub open spec fn equality_spec(ts: Seq<Token>, p: int) -> (Result<ExprV, ParseError>, int)
    decreases ts.len() - p, 11int,
{
    let (r0, p1) = relational_spec(ts, p);
    match r0 {
        Err(er) => (Err(er), p1),
        Ok(e0) => if p < p1 <= ts.len() {
            equality_tail(ts, p1, e0)
        } else {
            (Ok(e0), p1)
        },
    }
}

/// What the remaining `== relational` / `!= relational` steps at `p` build
/// onto `acc`.
#[verifier::opaque]
pub open spec fn equality_tail(ts: Seq<Token>, p: int, acc: ExprV) -> (
    Result<ExprV, ParseError>,
    int,
)
    decreases ts.len() - p, 12int,
{
    let k: Option<bool> = if at_kind(ts, p, TokenKind::DoubleEqual) {
        Some(false)
    } else if at_kind(ts, p, TokenKind::BangEqual) {
        Some(true)
    } else {
        None
    };
    match k {
        None => (Ok(acc), p),
        Some(negation) => {
            let (r1, p2) = relational_spec(ts, p + 1);
            match r1 {
                Err(er) => (Err(er), p2),
                Ok(e1) => {
                    let node = ExprV::Binary(
                        BinaryExpressionKind::Equality(negation),
                        Box::new(acc),
                        Box::new(e1),
                    );
                    if p < p2 <= ts.len() {
                        equality_tail(ts, p2, node)
                    } else {
                        (Ok(node), p2)
                    }
                },
            }
        },
    }
}

/// What parsing an assignment chain at `p` returns.
#[verifier::opaque]
pub open spec fn assignment_spec(ts: Seq<Token>, p: int) -> (Result<ExprV, ParseError>, int)
    decreases ts.len() - p, 13int,
{
    let (r0, p1) = equality_spec(ts, p);
    match r0 {
        Err(er) => (Err(er), p1),
        Ok(e0) => if p < p1 <= ts.len() {
            assignment_tail(ts, p1, e0)
        } else {
            (Ok(e0), p1)
        },
    }
}

/// What the remaining `= equality` steps at `p` build onto `acc`.
#[verifier::opaque]
pub open spec fn assignment_tail(ts: Seq<Token>, p: int, acc: ExprV) -> (
    Result<ExprV, ParseError>,
    int,
)
    decreases ts.len() - p, 14int,
{
    if !at_kind(ts, p, TokenKind::Equal) {
        (Ok(acc), p)
    } else {
        let (r1, p2) = equality_spec(ts, p + 1);
        match r1 {
            Err(er) => (Err(er), p2),
            Ok(e1) => {
                let node = ExprV::Assign(Box::new(acc), Box::new(e1));
                if p < p2 <= ts.len() {
                    assignment_tail(ts, p2, node)
                } else {
                    (Ok(node), p2)
                }
            },
        }
    }
}

/// What parsing one expression at `p` returns.
#[verifier::opaque]
pub open spec fn expression_spec(ts: Seq<Token>, p: int) -> (Result<ExprV, ParseError>, int)
    decreases ts.len() - p, 15int,
{
    assignment_spec(ts, p)
}

/// What the rest of a `print` statement at `p` (keyword consumed) returns.
#[verifier::opaque]
pub open spec fn print_spec(ts: Seq<Token>, p: int) -> (Result<StmtV, ParseError>, int)
    decreases ts.len() - p, 17int,
{
    let (r0, p1) = expression_spec(ts, p);
    match r0 {
        Err(er) => (Err(er), p1),
        Ok(e) => if at_kind(ts, p1, TokenKind::Semicolon) {
            (Ok(StmtV::Print(e)), p1 + 1)
        } else {
            (Err(ParseError::UnexpectedToken), p1)
        },
    }
}

/// What the rest of a `return` statement at `p` (keyword consumed) returns.
#[verifier::opaque]
pub open spec fn return_spec(ts: Seq<Token>, p: int) -> (Result<StmtV, ParseError>, int)
    decreases ts.len() - p, 17int,
{
    let (r0, p1) = expression_spec(ts, p);
    match r0 {
        Err(er) => (Err(er), p1),
        Ok(e) => if at_kind(ts, p1, TokenKind::Semicolon) {
            (Ok(StmtV::Return(e)), p1 + 1)
        } else {
            (Err(ParseError::UnexpectedToken), p1)
        },
    }
}

/// What an expression statement at `p` returns: an expression then a
/// semicolon.
#[verifier::opaque]
pub open spec fn exprstmt_spec(ts: Seq<Token>, p: int) -> (Result<StmtV, ParseError>, int)
    decreases ts.len() - p, 17int,
{
    let (r0, p1) = expression_spec(ts, p);
    match r0 {
        Err(er) => (Err(er), p1),
        Ok(e) => if at_kind(ts, p1, TokenKind::Semicolon) {
            (Ok(StmtV::Expression(e)), p1 + 1)
        } else {
            (Err(ParseError::UnexpectedToken), p1)
        },
    }
}

/// What the statements of a block at `p` (opening brace consumed) add to
/// those already parsed; the closing brace is consumed.
#[verifier::opaque]
pub open spec fn block_tail(ts: Seq<Token>, p: int, acc: Seq<StmtV>) -> (
    Result<Seq<StmtV>, ParseError>,
    int,
)
    decreases ts.len() - p, 19int,
{
    if !(0 <= p < ts.len()) {
        (Err(ParseError::UnexpectedEnd), p)
    } else if ts[p].kind == TokenKind::RightBrace {
        (Ok(acc), p + 1)
    } else {
        let (rs, p1) = statement_spec(ts, p);
        match rs {
            Err(er) => (Err(er), p1),
            Ok(st) => if p < p1 <= ts.len() {
                block_tail(ts, p1, acc.push(st))
            } else {
                (Ok(acc.push(st)), p1)
            },
        }
    }
}

/// What a block at `p` (opening brace consumed) returns.
#[verifier::opaque]
pub open spec fn block_spec(ts: Seq<Token>, p: int) -> (Result<StmtV, ParseError>, int)
    decreases ts.len() - p, 20int,
{
    let bt = block_tail(ts, p, Seq::empty());
    match bt.0 {
        Ok(list) => (Ok(StmtV::Block(list)), bt.1),
        Err(er) => (Err(er), bt.1),
    }
}

/// What the rest of an `if` statement at `p` (keyword consumed) returns:
/// the parenthesised condition, the branch, and an optional `else`.
#[verifier::opaque]
pub open spec fn if_spec(ts: Seq<Token>, p: int) -> (Result<StmtV, ParseError>, int)
    decreases ts.len() - p, 17int,
{
    if !at_kind(ts, p, TokenKind::LeftParen) {
        (Err(ParseError::UnexpectedToken), p)
    } else {
        let (rc, p1) = expression_spec(ts, p + 1);
        match rc {
            Err(er) => (Err(er), p1),
            Ok(cond) => if !at_kind(ts, p1, TokenKind::RightParen) {
                (Err(ParseError::UnexpectedToken), p1)
            } else if !(p <= p1) {
                (Err(ParseError::UnexpectedToken), p1)
            } else {
                let (rt, p2) = statement_spec(ts, p1 + 1);
                match rt {
                    Err(er) => (Err(er), p2),
                    Ok(tb) => if at_kind(ts, p2, TokenKind::Else) {
                        if p <= p2 {
                            let (re, p3) = statement_spec(ts, p2 + 1);
                            match re {
                                Ok(eb) => (Ok(StmtV::If(cond, Box::new(tb), Box::new(eb))), p3),
                                Err(er) => (Err(er), p3),
                            }
                        } else {
                            (Err(ParseError::UnexpectedToken), p2)
                        }
                    } else {
                        (Ok(StmtV::If(cond, Box::new(tb), Box::new(StmtV::Dummy))), p2)
                    },
                }
            },
        }
    }
}

/// What the argument names of a `fn` definition at `p` (opening
/// parenthesis consumed) add to those already parsed: identifiers with
/// commas freely between and after them, up to the closing parenthesis.
#[verifier::opaque]
pub open spec fn fnargs_tail(ts: Seq<Token>, p: int, acc: Seq<Seq<u8>>) -> (
    Result<Seq<Seq<u8>>, ParseError>,
    int,
)
    decreases ts.len() - p, 17int,
{
    if !(0 <= p < ts.len()) {
        (Err(ParseError::UnexpectedEnd), p)
    } else if ts[p].kind == TokenKind::RightParen {
        (Ok(acc), p + 1)
    } else if ts[p].kind == TokenKind::Comma {
        fnargs_tail(ts, p + 1, acc)
    } else if ts[p].kind == TokenKind::Identifier {
        fnargs_tail(ts, p + 1, acc.push(ts[p].value@))
    } else {
        (Err(ParseError::UnexpectedToken), p)
    }
}

/// What the rest of a `fn` statement at `p` (keyword consumed) returns:
/// the name, the argument names, and the body block.
#[verifier::opaque]
pub open spec fn fn_spec(ts: Seq<Token>, p: int) -> (Result<StmtV, ParseError>, int)
    decreases ts.len() - p, 17int,
{
    if !at_kind(ts, p, TokenKind::Identifier) {
        (Err(ParseError::UnexpectedToken), p)
    } else if !at_kind(ts, p + 1, TokenKind::LeftParen) {
        (Err(ParseError::UnexpectedToken), p + 1)
    } else {
        let fa = fnargs_tail(ts, p + 2, Seq::empty());
        match fa.0 {
            Err(er) => (Err(er), fa.1),
            Ok(args) => if !at_kind(ts, fa.1, TokenKind::LeftBrace) {
                (Err(ParseError::UnexpectedToken), fa.1)
            } else if !(p < fa.1) {
                (Err(ParseError::UnexpectedToken), fa.1)
            } else {
                let bs = block_spec(ts, fa.1 + 1);
                match bs.0 {
                    Ok(b) => (Ok(StmtV::Fn(ts[p].value@, args, Box::new(b))), bs.1),
                    Err(er) => (Err(er), bs.1),
                }
            },
        }
    }
}

/// What parsing one statement at `p` returns, dispatching on its first
/// token.
#[verifier::opaque]
pub open spec fn statement_spec(ts: Seq<Token>, p: int) -> (Result<StmtV, ParseError>, int)
    decreases ts.len() - p, 18int,
{
    if at_kind(ts, p, TokenKind::Print) {
        print_spec(ts, p + 1)
    } else if at_kind(ts, p, TokenKind::Fn) {
        fn_spec(ts, p + 1)
    } else if at_kind(ts, p, TokenKind::If) {
        if_spec(ts, p + 1)
    } else if at_kind(ts, p, TokenKind::LeftBrace) {
        block_spec(ts, p + 1)
    } else if at_kind(ts, p, TokenKind::Return) {
        return_spec(ts, p + 1)
    } else {
        exprstmt_spec(ts, p)
    }
}

/// What the statements of a program at `p` add to those already parsed.
#[verifier::opaque]
pub open spec fn program_tail(ts: Seq<Token>, p: int, acc: Seq<StmtV>) -> (
    Result<Seq<StmtV>, ParseError>,
    int,
)
    decreases ts.len() - p, 21int,
{
    if !(0 <= p < ts.len()) {
        (Ok(acc), p)
    } else {
        let (rs, p1) = statement_spec(ts, p);
        match rs {
            Err(er) => (Err(er), p1),
            Ok(st) => if p < p1 <= ts.len() {
                program_tail(ts, p1, acc.push(st))
            } else {
                (Ok(acc.push(st)), p1)
            },
        }
    }
}

/// What parsing a whole token stream returns: the statement list it
/// denotes, or the first rejection.
#[verifier::opaque]
pub open spec fn parse_spec(ts: Seq<Token>) -> (Result<Seq<StmtV>, ParseError>, int) {
    program_tail(ts, 0, Seq::empty())
}

/// The mathematical value of an expression parse result.
pub open spec fn expr_res(r: Result<Expression, ParseError>) -> Result<ExprV, ParseError> {
    match r {
        Ok(e) => Ok(expr_view(e)),
        Err(er) => Err(er),
    }
}

/// The mathematical value of a statement parse result.
pub open spec fn stmt_res(r: Result<Statement, ParseError>) -> Result<StmtV, ParseError> {
    match r {
        Ok(st) => Ok(stmt_view(st)),
        Err(er) => Err(er),
    }
}

/// The recursive-descent parser: a token stream and a cursor into it.
///
/// Every parse function consumes at least one token when it succeeds and
/// never moves the cursor past the end; parsing stops at the first rejected
/// construct. What each function returns, and where it leaves the cursor,
/// is fixed exactly by the specification functions below (`parse_spec`,
/// `statement_spec`, `expression_spec`, ...), which define the grammar.
pub struct Parser {
    pub tokens: Vec<Token>,
    pub pos: usize,
}

impl Parser {
    /// A parser with no tokens yet.
    pub fn new() -> (p: Parser)
        ensures
            p.tokens@.len() == 0,
            p.pos == 0,
    {
        Parser { tokens: Vec::new(), pos: 0 }
    }

    /// Whether the current token exists and has this kind.
    pub fn check(&self, kind: TokenKind) -> (r: bool)
        ensures
            r == (self.pos < self.tokens@.len() && self.tokens@[self.pos as int].kind == kind),
    {
        self.pos < self.tokens.len() && self.tokens[self.pos].kind == kind
    }

    /// Moves past the current token, never past the end.
    pub fn advance(&mut self)
        ensures
            final(self).tokens == old(self).tokens,
            final(self).pos as int == if old(self).pos < old(self).tokens@.len() {
                old(self).pos + 1
            } else {
                old(self).pos as int
            },
    {
        if self.pos < self.tokens.len() {
            self.pos = self.pos + 1;
        }
    }

    /// A copy of the text of the token just consumed.
    fn prev_value(&self) -> (v: Vec<u8>)
        requires
            1 <= self.pos <= self.tokens@.len(),
        ensures
            v@ == self.tokens@[self.pos - 1].value@,
    {
        crate::bytes::copy_bytes(&self.tokens[self.pos - 1].value)
    }

    /// Consumes the current token if it has this kind.
    pub fn is_next(&mut self, kind: TokenKind) -> (r: bool)
        ensures
            final(self).tokens == old(self).tokens,
            r == (old(self).pos < old(self).tokens@.len() && old(self).tokens@[old(
                self,
            ).pos as int].kind == kind),
            r ==> final(self).pos == old(self).pos + 1,
            !r ==> final(self).pos == old(self).pos,
    {
        if self.check(kind) {
            self.advance();
            true
        } else {
            false
        }
    }

    /// Consumes and returns the current token if it has this kind.
    pub fn consume(&mut self, kind: TokenKind) -> (r: Option<Token>)
        ensures
            final(self).tokens == old(self).tokens,
            match r {
                Some(t) => old(self).pos < old(self).tokens@.len() && old(self).tokens@[old(
                    self,
                ).pos as int].kind == kind && t.kind == kind && t.value@ == old(self).tokens@[old(
                    self,
                ).pos as int].value@ && final(self).pos == old(self).pos + 1,
                None => !(old(self).pos < old(self).tokens@.len() && old(self).tokens@[old(
                    self,
                ).pos as int].kind == kind) && final(self).pos == old(self).pos,
            },
    {
        if self.check(kind) {
            let value = crate::bytes::copy_bytes(&self.tokens[self.pos].value);
            self.advance();
            Some(Token::new(kind, value))
        } else {
            None
        }
    }

    /// Parses a whole token stream into the statement list it denotes,
    /// exactly as [`parse_spec`] describes: the result is the statement
    /// list the grammar assigns to the stream, or the first rejection.
    #[verifier::loop_isolation(false)]
    #[verifier::rlimit(100)]
    #[verifier::spinoff_prover]
    pub fn parse(&mut self, tokens: Vec<Token>) -> (r: Result<Vec<Statement>, ParseError>)
        ensures
            final(self).tokens == tokens,
            ({
                let m = parse_spec(tokens@);
                m.1 == final(self).pos as int && match r {
                    Ok(sts) => m.0 == Ok::<Seq<StmtV>, ParseError>(stmts_view(sts@)),
                    Err(e) => m.0 == Err::<Seq<StmtV>, ParseError>(e),
                }
            }),
            r is Ok ==> final(self).pos == final(self).tokens@.len(),
    {
        proof { reveal(parse_spec); reveal(program_tail); }
        self.tokens = tokens;
        self.pos = 0;
        let ghost ts = self.tokens@;
        let mut statements: Vec<Statement> = Vec::new();
        proof {
            assert(stmts_view(statements@) =~= Seq::<StmtV>::empty());
        }
        loop
            invariant
                self.tokens == tokens,
                self.pos <= self.tokens@.len(),
                parse_spec(ts) == program_tail(ts, self.pos as int, stmts_view(statements@)),
            decreases self.tokens@.len() - self.pos,
        {
            if self.pos >= self.tokens.len() {
                return Ok(statements);
            }
            match self.parse_statement() {
                Ok(st) => {
                    let ghost prev = statements@;
                    statements.push(st);
                    proof {
                        lemma_stmts_view_push(prev, st);
                    }
                },
                Err(e) => {
                    return Err(e);
                },
            }
        }
    }

    /// Parses one statement, dispatching on its first token, exactly as
    /// [`statement_spec`] describes.
    #[verifier::rlimit(100)]
    #[verifier::spinoff_prover]
    fn parse_statement(&mut self) -> (r: Result<Statement, ParseError>)
        requires
            old(self).pos <= old(self).tokens@.len(),
        ensures
            final(self).tokens == old(self).tokens,
            final(self).pos <= final(self).tokens@.len(),
            r is Ok ==> old(self).pos < final(self).pos,
            ({
                let m = statement_spec(old(self).tokens@, old(self).pos as int);
                m.0 == stmt_res(r) && m.1 == final(self).pos as int
            }),
        decreases old(self).tokens@.len() - old(self).pos, 12int,
    {
        proof { reveal(statement_spec); }
        if self.is_next(TokenKind::Print) {
            self.parse_print_statement()
        } else if self.is_next(TokenKind::Fn) {
            self.parse_fn_statement()
        } else if self.is_next(TokenKind::If) {
            self.parse_if_statement()
        } else if self.is_next(TokenKind::LeftBrace) {
            self.parse_block_statement()
        } else if self.is_next(TokenKind::Return) {
            self.parse_return_statement()
        } else {
            self.parse_expression_statement()
        }
    }

    /// Parses the rest of a `print` statement, the keyword being consumed,
    /// exactly as [`print_spec`] describes.
    #[verifier::rlimit(100)]
    #[verifier::spinoff_prover]
    fn parse_print_statement(&mut self) -> (r: Result<Statement, ParseError>)
        requires
            old(self).pos <= old(self).tokens@.len(),
        ensures
            final(self).tokens == old(self).tokens,
            final(self).pos <= final(self).tokens@.len(),
            r is Ok ==> old(self).pos <= final(self).pos,
            ({
                let m = print_spec(old(self).tokens@, old(self).pos as int);
                m.0 == stmt_res(r) && m.1 == final(self).pos as int
            }),
        decreases old(self).tokens@.len() - old(self).pos, 11int,
    {
        proof { reveal(print_spec); }
        let expression = match self.parse_expression() {
            Ok(e) => e,
            Err(e) => {
                return Err(e);
            },
        };
        if self.is_next(TokenKind::Semicolon) {
            Ok(Statement::Print(PrintStatement { expression }))
        } else {
            Err(ParseError::UnexpectedToken)
        }
    }

    /// Parses the rest of a `return` statement, the keyword being
    /// consumed, exactly as [`return_spec`] describes.
    #[verifier::rlimit(100)]
    #[verifier::spinoff_prover]
    fn parse_return_statement(&mut self) -> (r: Result<Statement, ParseError>)
        requires
            old(self).pos <= old(self).tokens@.len(),
        ensures
            final(self).tokens == old(self).tokens,
            final(self).pos <= final(self).tokens@.len(),
            r is Ok ==> old(self).pos <= final(self).pos,
            ({
                let m = return_spec(old(self).tokens@, old(self).pos as int);
                m.0 == stmt_res(r) && m.1 == final(self).pos as int
            }),
        decreases old(self).tokens@.len() - old(self).pos, 11int,
    {
        proof { reveal(return_spec); }
        let expression = match self.parse_expression() {
            Ok(e) => e,
            Err(e) => {
                return Err(e);
            },
        };
        if self.is_next(TokenKind::Semicolon) {
            Ok(Statement::Return(ReturnStatement { expression }))
        } else {
            Err(ParseError::UnexpectedToken)
        }
    }

    /// Parses the statements of a block up to its closing brace, the
    /// opening brace being consumed, exactly as [`block_spec`] describes.
    #[verifier::loop_isolation(false)]
    #[verifier::rlimit(100)]
    #[verifier::spinoff_prover]
    fn parse_block_statement(&mut self) -> (r: Result<Statement, ParseError>)
        requires
            old(self).pos <= old(self).tokens@.len(),
        ensures
            final(self).tokens == old(self).tokens,
            final(self).pos <= final(self).tokens@.len(),
            r is Ok ==> old(self).pos <= final(self).pos,
            ({
                let m = block_spec(old(self).tokens@, old(self).pos as int);
                m.0 == stmt_res(r) && m.1 == final(self).pos as int
            }),
        decreases old(self).tokens@.len() - old(self).pos, 13int,
    {
        proof { reveal(block_spec); reveal(block_tail); }
        let ghost ts = self.tokens@;
        let ghost p0 = self.pos as int;
        let mut body: Vec<Statement> = Vec::new();
        proof {
            assert(stmts_view(body@) =~= Seq::<StmtV>::empty());
        }
        loop
            invariant
                self.tokens == old(self).tokens,
                old(self).pos <= self.pos <= self.tokens@.len(),
                block_tail(ts, p0, Seq::empty()) == block_tail(
                    ts,
                    self.pos as int,
                    stmts_view(body@),
                ),
            decreases self.tokens@.len() - self.pos,
        {
            if self.pos >= self.tokens.len() {
                return Err(ParseError::UnexpectedEnd);
            }
            if self.is_next(TokenKind::RightBrace) {
                return Ok(Statement::Block(BlockStatement { body }));
            }
            match self.parse_statement() {
                Ok(st) => {
                    let ghost prev = body@;
                    body.push(st);
                    proof {
                        lemma_stmts_view_push(prev, st);
                    }
                },
                Err(e) => {
                    return Err(e);
                },
            }
        }
    }

    /// Parses the rest of an `if` statement, the keyword being consumed,
    /// exactly as [`if_spec`] describes: the parenthesised condition, the
    /// branch, and an optional `else`.
    #[verifier::rlimit(100)]
    #[verifier::spinoff_prover]
    fn parse_if_statement(&mut self) -> (r: Result<Statement, ParseError>)
        requires
            old(self).pos <= old(self).tokens@.len(),
        ensures
            final(self).tokens == old(self).tokens,
            final(self).pos <= final(self).tokens@.len(),
            r is Ok ==> old(self).pos <= final(self).pos,
            ({
                let m = if_spec(old(self).tokens@, old(self).pos as int);
                m.0 == stmt_res(r) && m.1 == final(self).pos as int
            }),
        decreases old(self).tokens@.len() - old(self).pos, 11int,
    {
        proof { reveal(if_spec); }
        if !self.is_next(TokenKind::LeftParen) {
            return Err(ParseError::UnexpectedToken);
        }
        let condition = match self.parse_expression() {
            Ok(e) => e,
            Err(e) => {
                return Err(e);
            },
        };
        if !self.is_next(TokenKind::RightParen) {
            return Err(ParseError::UnexpectedToken);
        }
        let if_branch = match self.parse_statement() {
            Ok(s) => s,
            Err(e) => {
                return Err(e);
            },
        };
        let else_branch: Statement = if self.is_next(TokenKind::Else) {
            match self.parse_statement() {
                Ok(s) => s,
                Err(e) => {
                    return Err(e);
                },
            }
        } else {
            Statement::Dummy
        };
        Ok(
            Statement::If(
                IfStatement {
                    condition,
                    if_branch: Box::new(if_branch),
                    else_branch: Box::new(else_branch),
                },
            ),
        )
    }

    /// Parses the rest of a `fn` statement, the keyword being consumed,
    /// exactly as [`fn_spec`] describes: the name, the argument names
    /// (commas may stand between and after them), and the body block.
    #[verifier::loop_isolation(false)]
    #[verifier::rlimit(100)]
    #[verifier::spinoff_prover]
    fn parse_fn_statement(&mut self) -> (r: Result<Statement, ParseError>)
        requires
            old(self).pos <= old(self).tokens@.len(),
        ensures
            final(self).tokens == old(self).tokens,
            final(self).pos <= final(self).tokens@.len(),
            r is Ok ==> old(self).pos <= final(self).pos,
            ({
                let m = fn_spec(old(self).tokens@, old(self).pos as int);
                m.0 == stmt_res(r) && m.1 == final(self).pos as int
            }),
        decreases old(self).tokens@.len() - old(self).pos, 11int,
    {
        proof { reveal(fn_spec); reveal(fnargs_tail); }
        let ghost ts = self.tokens@;
        let ghost p0 = self.pos as int;
        let name = match self.consume(TokenKind::Identifier) {
            Some(t) => t,
            None => {
                return Err(ParseError::UnexpectedToken);
            },
        };
        let ghost namev = name.value@;
        if !self.is_next(TokenKind::LeftParen) {
            return Err(ParseError::UnexpectedToken);
        }
        let mut arguments: Vec<Vec<u8>> = Vec::new();
        proof {
            assert(arguments@.map_values(|a: Vec<u8>| a@) =~= Seq::<Seq<u8>>::empty());
        }
        loop
            invariant
                self.tokens == old(self).tokens,
                p0 + 2 <= self.pos <= self.tokens@.len(),
                fnargs_tail(ts, p0 + 2, Seq::empty()) == fnargs_tail(
                    ts,
                    self.pos as int,
                    arguments@.map_values(|a: Vec<u8>| a@),
                ),
            decreases self.tokens@.len() - self.pos,
        {
            if self.pos >= self.tokens.len() {
                return Err(ParseError::UnexpectedEnd);
            }
            if self.is_next(TokenKind::RightParen) {
                if !self.is_next(TokenKind::LeftBrace) {
                    return Err(ParseError::UnexpectedToken);
                }
                let body = match self.parse_block_statement() {
                    Ok(b) => b,
                    Err(e) => {
                        return Err(e);
                    },
                };
                return Ok(
                    Statement::Fn(
                        FnStatement { name: name.value, arguments, body: Box::new(body) },
                    ),
                );
            }
            if self.is_next(TokenKind::Comma) {
                continue;
            }
            match self.consume(TokenKind::Identifier) {
                Some(t) => {
                    let ghost prev = arguments@;
                    let ghost tv = t.value@;
                    arguments.push(t.value);
                    proof {
                        assert(arguments@.map_values(|a: Vec<u8>| a@) =~= prev.map_values(
                            |a: Vec<u8>| a@,
                        ).push(tv));
                    }
                },
                None => {
                    return Err(ParseError::UnexpectedToken);
                },
            }
        }
    }

    /// Parses an expression statement — a call or an assignment, then a
    /// semicolon — exactly as [`exprstmt_spec`] describes.
    #[verifier::rlimit(100)]
    #[verifier::spinoff_prover]
    fn parse_expression_statement(&mut self) -> (r: Result<Statement, ParseError>)
        requires
            old(self).pos <= old(self).tokens@.len(),
        ensures
            final(self).tokens == old(self).tokens,
            final(self).pos <= final(self).tokens@.len(),
            r is Ok ==> old(self).pos < final(self).pos,
            ({
                let m = exprstmt_spec(old(self).tokens@, old(self).pos as int);
                m.0 == stmt_res(r) && m.1 == final(self).pos as int
            }),
        decreases old(self).tokens@.len() - old(self).pos, 11int,
    {
        proof { reveal(exprstmt_spec); }
        let expression = match self.parse_expression() {
            Ok(e) => e,
            Err(e) => {
                return Err(e);
            },
        };
        if self.is_next(TokenKind::Semicolon) {
            Ok(Statement::Expression(ExpressionStatement { expression }))
        } else {
            Err(ParseError::UnexpectedToken)
        }
    }

    /// Parses one expression, exactly as [`expression_spec`] describes.
    #[verifier::rlimit(100)]
    #[verifier::spinoff_prover]
    fn parse_expression(&mut self) -> (r: Result<Expression, ParseError>)
        requires
            old(self).pos <= old(self).tokens@.len(),
        ensures
            final(self).tokens == old(self).tokens,
            final(self).pos <= final(self).tokens@.len(),
            r is Ok ==> old(self).pos < final(self).pos,
            ({
                let m = expression_spec(old(self).tokens@, old(self).pos as int);
                m.0 == expr_res(r) && m.1 == final(self).pos as int
            }),
        decreases old(self).tokens@.len() - old(self).pos, 10int,
    {
        proof { reveal(expression_spec); }
        self.assignment()
    }

    /// Parses assignment chains, exactly as [`assignment_spec`] describes.
    #[verifier::loop_isolation(false)]
    #[verifier::rlimit(100)]
    #[verifier::spinoff_prover]
    fn assignment(&mut self) -> (r: Result<Expression, ParseError>)
        requires
            old(self).pos <= old(self).tokens@.len(),
        ensures
            final(self).tokens == old(self).tokens,
            final(self).pos <= final(self).tokens@.len(),
            r is Ok ==> old(self).pos < final(self).pos,
            ({
                let m = assignment_spec(old(self).tokens@, old(self).pos as int);
                m.0 == expr_res(r) && m.1 == final(self).pos as int
            }),
        decreases old(self).tokens@.len() - old(self).pos, 9int,
    {
        proof { reveal(assignment_spec); reveal(assignment_tail); }
        let ghost ts = self.tokens@;
        let ghost p0 = self.pos as int;
        let mut result = match self.equality() {
            Ok(e) => e,
            Err(e) => {
                return Err(e);
            },
        };
        loop
            invariant
                self.tokens == old(self).tokens,
                old(self).pos < self.pos <= self.tokens@.len(),
                assignment_spec(ts, p0) == assignment_tail(
                    ts,
                    self.pos as int,
                    expr_view(result),
                ),
            decreases self.tokens@.len() - self.pos,
        {
            if !self.is_next(TokenKind::Equal) {
                return Ok(result);
            }
            let rhs = match self.equality() {
                Ok(e) => e,
                Err(e) => {
                    return Err(e);
                },
            };
            result = Expression::Assign(
                AssignExpression { lhs: Box::new(result), rhs: Box::new(rhs) },
            );
        }
    }

    /// Parses `==` and `!=` chains, exactly as [`equality_spec`] describes.
    #[verifier::loop_isolation(false)]
    #[verifier::rlimit(100)]
    #[verifier::spinoff_prover]
    fn equality(&mut self) -> (r: Result<Expression, ParseError>)
        requires
            old(self).pos <= old(self).tokens@.len(),
        ensures
            final(self).tokens == old(self).tokens,
            final(self).pos <= final(self).tokens@.len(),
            r is Ok ==> old(self).pos < final(self).pos,
            ({
                let m = equality_spec(old(self).tokens@, old(self).pos as int);
                m.0 == expr_res(r) && m.1 == final(self).pos as int
            }),
        decreases old(self).tokens@.len() - old(self).pos, 8int,
    {
        proof { reveal(equality_spec); reveal(equality_tail); }
        let ghost ts = self.tokens@;
        let ghost p0 = self.pos as int;
        let mut result = match self.relational() {
            Ok(e) => e,
            Err(e) => {
                return Err(e);
            },
        };
        loop
            invariant
                self.tokens == old(self).tokens,
                old(self).pos < self.pos <= self.tokens@.len(),
                equality_spec(ts, p0) == equality_tail(ts, self.pos as int, expr_view(result)),
            decreases self.tokens@.len() - self.pos,
        {
            let negation: bool;
            if self.is_next(TokenKind::DoubleEqual) {
                negation = false;
            } else if self.is_next(TokenKind::BangEqual) {
                negation = true;
            } else {
                return Ok(result);
            }
            let rhs = match self.relational() {
                Ok(e) => e,
                Err(e) => {
                    return Err(e);
                },
            };
            result = Expression::Binary(
                BinaryExpression {
                    kind: BinaryExpressionKind::Equality(negation),
                    lhs: Box::new(result),
                    rhs: Box::new(rhs),
                },
            );
        }
    }

    /// Parses `<` chains, exactly as [`relational_spec`] describes.
    #[verifier::loop_isolation(false)]
    #[verifier::rlimit(100)]
    #[verifier::spinoff_prover]
    fn relational(&mut self) -> (r: Result<Expression, ParseError>)
        requires
            old(self).pos <= old(self).tokens@.len(),
        ensures
            final(self).tokens == old(self).tokens,
            final(self).pos <= final(self).tokens@.len(),
            r is Ok ==> old(self).pos < final(self).pos,
            ({
                let m = relational_spec(old(self).tokens@, old(self).pos as int);
                m.0 == expr_res(r) && m.1 == final(self).pos as int
            }),
        decreases old(self).tokens@.len() - old(self).pos, 7int,
    {
        proof { reveal(relational_spec); reveal(relational_tail); }
        let ghost ts = self.tokens@;
        let ghost p0 = self.pos as int;
        let mut result = match self.term() {
            Ok(e) => e,
            Err(e) => {
                return Err(e);
            },
        };
        loop
            invariant
                self.tokens == old(self).tokens,
                old(self).pos < self.pos <= self.tokens@.len(),
                relational_spec(ts, p0) == relational_tail(
                    ts,
                    self.pos as int,
                    expr_view(result),
                ),
            decreases self.tokens@.len() - self.pos,
        {
            if !self.is_next(TokenKind::Less) {
                return Ok(result);
            }
            let rhs = match self.term() {
                Ok(e) => e,
                Err(e) => {
                    return Err(e);
                },
            };
            result = Expression::Binary(
                BinaryExpression {
                    kind: BinaryExpressionKind::Less,
                    lhs: Box::new(result),
                    rhs: Box::new(rhs),
                },
            );
        }
    }

    /// Parses `+` and `-` chains, exactly as [`term_spec`] describes.
    #[verifier::loop_isolation(false)]
    #[verifier::rlimit(100)]
    #[verifier::spinoff_prover]
    fn term(&mut self) -> (r: Result<Expression, ParseError>)
        requires
            old(self).pos <= old(self).tokens@.len(),
        ensures
            final(self).tokens == old(self).tokens,
            final(self).pos <= final(self).tokens@.len(),
            r is Ok ==> old(self).pos < final(self).pos,
            ({
                let m = term_spec(old(self).tokens@, old(self).pos as int);
                m.0 == expr_res(r) && m.1 == final(self).pos as int
            }),
        decreases old(self).tokens@.len() - old(self).pos, 6int,
    {
        proof { reveal(term_spec); reveal(term_tail); }
        let ghost ts = self.tokens@;
        let ghost p0 = self.pos as int;
        let mut result = match self.factor() {
            Ok(e) => e,
            Err(e) => {
                return Err(e);
            },
        };
        loop
            invariant
                self.tokens == old(self).tokens,
                old(self).pos < self.pos <= self.tokens@.len(),
                term_spec(ts, p0) == term_tail(ts, self.pos as int, expr_view(result)),
            decreases self.tokens@.len() - self.pos,
        {
            let kind: BinaryExpressionKind;
            if self.is_next(TokenKind::Plus) {
                kind = BinaryExpressionKind::Add;
            } else if self.is_next(TokenKind::Minus) {
                kind = BinaryExpressionKind::Sub;
            } else {
                return Ok(result);
            }
            let rhs = match self.factor() {
                Ok(e) => e,
                Err(e) => {
                    return Err(e);
                },
            };
            result = Expression::Binary(
                BinaryExpression { kind, lhs: Box::new(result), rhs: Box::new(rhs) },
            );
        }
    }

    /// Parses `*` and `/` chains, exactly as [`factor_spec`] describes.
    #[verifier::loop_isolation(false)]
    #[verifier::rlimit(100)]
    #[verifier::spinoff_prover]
    fn factor(&mut self) -> (r: Result<Expression, ParseError>)
        requires
            old(self).pos <= old(self).tokens@.len(),
        ensures
            final(self).tokens == old(self).tokens,
            final(self).pos <= final(self).tokens@.len(),
            r is Ok ==> old(self).pos < final(self).pos,
            ({
                let m = factor_spec(old(self).tokens@, old(self).pos as int);
                m.0 == expr_res(r) && m.1 == final(self).pos as int
            }),
        decreases old(self).tokens@.len() - old(self).pos, 5int,
    {
        proof { reveal(factor_spec); reveal(factor_tail); }
        let ghost ts = self.tokens@;
        let ghost p0 = self.pos as int;
        let mut result = match self.unary() {
            Ok(e) => e,
            Err(e) => {
                return Err(e);
            },
        };
        loop
            invariant
                self.tokens == old(self).tokens,
                old(self).pos < self.pos <= self.tokens@.len(),
                factor_spec(ts, p0) == factor_tail(ts, self.pos as int, expr_view(result)),
            decreases self.tokens@.len() - self.pos,
        {
            let kind: BinaryExpressionKind;
            if self.is_next(TokenKind::Star) {
                kind = BinaryExpressionKind::Mul;
            } else if self.is_next(TokenKind::Slash) {
                kind = BinaryExpressionKind::Div;
            } else {
                return Ok(result);
            }
            let rhs = match self.unary() {
                Ok(e) => e,
                Err(e) => {
                    return Err(e);
                },
            };
            result = Expression::Binary(
                BinaryExpression { kind, lhs: Box::new(result), rhs: Box::new(rhs) },
            );
        }
    }

    /// Parses a `!`-prefixed expression, or hands over to call syntax,
    /// exactly as [`unary_spec`] describes.
    #[verifier::rlimit(100)]
    #[verifier::spinoff_prover]
    fn unary(&mut self) -> (r: Result<Expression, ParseError>)
        requires
            old(self).pos <= old(self).tokens@.len(),
        ensures
            final(self).tokens == old(self).tokens,
            final(self).pos <= final(self).tokens@.len(),
            r is Ok ==> old(self).pos < final(self).pos,
            ({
                let m = unary_spec(old(self).tokens@, old(self).pos as int);
                m.0 == expr_res(r) && m.1 == final(self).pos as int
            }),
        decreases old(self).tokens@.len() - old(self).pos, 4int,
    {
        proof { reveal(unary_spec); }
        if self.is_next(TokenKind::Bang) {
            let right = match self.unary() {
                Ok(e) => e,
                Err(e) => {
                    return Err(e);
                },
            };
            return Ok(Expression::Unary(UnaryExpression { expr: Box::new(right) }));
        }
        self.call()
    }

    /// Parses a primary expression and, if a parenthesis follows, the
    /// argument list of a call to it, exactly as [`call_spec`] describes;
    /// the callee must be a plain name.
    #[verifier::loop_isolation(false)]
    #[verifier::rlimit(100)]
    #[verifier::spinoff_prover]
    fn call(&mut self) -> (r: Result<Expression, ParseError>)
        requires
            old(self).pos <= old(self).tokens@.len(),
        ensures
            final(self).tokens == old(self).tokens,
            final(self).pos <= final(self).tokens@.len(),
            r is Ok ==> old(self).pos < final(self).pos,
            ({
                let m = call_spec(old(self).tokens@, old(self).pos as int);
                m.0 == expr_res(r) && m.1 == final(self).pos as int
            }),
        decreases old(self).tokens@.len() - old(self).pos, 3int,
    {
        proof { reveal(call_spec); reveal(callargs_tail); }
        let ghost ts = self.tokens@;
        let ghost p0 = self.pos as int;
        let expr = match self.primary() {
            Ok(e) => e,
            Err(e) => {
                return Err(e);
            },
        };
        if !self.is_next(TokenKind::LeftParen) {
            return Ok(expr);
        }
        let ghost q = self.pos as int;
        let mut arguments: Vec<Expression> = Vec::new();
        proof {
            assert(exprs_view(arguments@) =~= Seq::<ExprV>::empty());
        }
        if self.check(TokenKind::RightParen) {
            self.advance();
            let variable = match expr {
                Expression::Variable(v) => v.value,
                _ => {
                    return Err(ParseError::BadCallee);
                },
            };
            return Ok(Expression::Call(CallExpression { variable, arguments }));
        }
        loop
            invariant
                self.tokens == old(self).tokens,
                q <= self.pos <= self.tokens@.len(),
                callargs_tail(ts, q, Seq::empty()) == callargs_tail(
                    ts,
                    self.pos as int,
                    exprs_view(arguments@),
                ),
            decreases self.tokens@.len() - self.pos,
        {
            let a = match self.parse_expression() {
                Ok(e) => e,
                Err(e) => {
                    return Err(e);
                },
            };
            let ghost prev = arguments@;
            arguments.push(a);
            proof {
                lemma_exprs_view_push(prev, a);
            }
            if !self.is_next(TokenKind::Comma) {
                if !self.is_next(TokenKind::RightParen) {
                    return Err(ParseError::UnexpectedToken);
                }
                let variable = match expr {
                    Expression::Variable(v) => v.value,
                    _ => {
                        return Err(ParseError::BadCallee);
                    },
                };
                return Ok(Expression::Call(CallExpression { variable, arguments }));
            }
        }
    }

    /// Parses a literal number, a name, or a keyword literal, exactly as
    /// [`primary_spec`] describes.
    #[verifier::rlimit(100)]
    #[verifier::spinoff_prover]
    fn primary(&mut self) -> (r: Result<Expression, ParseError>)
        requires
            old(self).pos <= old(self).tokens@.len(),
        ensures
            final(self).tokens == old(self).tokens,
            final(self).pos <= final(self).tokens@.len(),
            r is Ok ==> old(self).pos < final(self).pos,
            ({
                let m = primary_spec(old(self).tokens@, old(self).pos as int);
                m.0 == expr_res(r) && m.1 == final(self).pos as int
            }),
        decreases old(self).tokens@.len() - old(self).pos, 2int,
    {
        proof { reveal(primary_spec); }
        if self.is_next(TokenKind::Number) {
            let v = self.prev_value();
            match parse_i64(&v) {
                Some(n) => {
                    proof {
                        lemma_dec_val_nonneg(v@);
                        assert(n == dec_val(v@) as i64);
                    }
                    Ok(Expression::Literal(LiteralExpression { value: Literal::Num(n) }))
                },
                None => Err(ParseError::BadNumber),
            }
        } else if self.is_next(TokenKind::Identifier) {
            let v = self.prev_value();
            Ok(Expression::Variable(VariableExpression { value: v }))
        } else if self.is_next(TokenKind::True) {
            Ok(Expression::Literal(LiteralExpression { value: Literal::Bool(true) }))
        } else if self.is_next(TokenKind::False) {
            Ok(Expression::Literal(LiteralExpression { value: Literal::Bool(false) }))
        } else if self.is_next(TokenKind::Null) {
            Ok(Expression::Literal(LiteralExpression { value: Literal::Null }))
        } else {
            Err(ParseError::UnexpectedToken)
        }
    }
}

} // verus!
