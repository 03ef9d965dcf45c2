//! The single-pass bytecode compiler: it walks the AST once, left to right,
//! and emits a flat instruction stream, back-patching forward jumps once
//! their targets are known.

use crate::bytes::{bytes_eq, copy_bytes};
use crate::parser::{
    AssignExpression, BinaryExpression, BinaryExpressionKind, BlockStatement, CallExpression,
    Expression, ExpressionStatement, FnStatement, IfStatement, Literal, LiteralExpression,
    PrintStatement, ReturnStatement, Statement, UnaryExpression, VariableExpression,
};
use vstd::prelude::*;

verus! {

/// One bytecode instruction. Jump operands are absolute indices into the
/// instruction stream; `Invoke` carries the argument count and the index of
/// the callee's header `Jmp`; `Deepget`/`Deepset` carry a 1-based slot.
#[derive(Debug, PartialEq)]
pub enum Opcode {
    Print,
    Const(i64),
    Str(Vec<u8>),
    Add,
    Sub,
    Mul,
    Div,
    Null,
    Not,
    False,
    Eq,
    Jmp(usize),
    Jz(usize),
    Ret,
    Less,
    Deepget(usize),
    Deepset(usize),
    Pop,
    Invoke(usize, usize),
}

/// A compile-time rejection; nothing is emitted past the first one.
#[derive(Debug, Clone, Copy, PartialEq, Eq, Structural)]
pub enum CompileError {
    /// A call names a function that has not been defined.
    UnknownFunction,
    /// A variable is read before any assignment declared it.
    UndeclaredVariable,
    /// The left side of an assignment is not a variable.
    BadAssignTarget,
    /// `return` outside a function body.
    TopLevelReturn,
    /// A function definition inside a block or another function.
    NestedFunction,
    /// An expression statement that is neither a call nor an assignment.
    BadExpressionStatement,
    /// A function whose body is not a block.
    BadFnBody,
}

/// The mathematical state of the compiler: the emitted code, the function
/// table (name to header index, later bindings shadowing earlier ones), the
/// live locals in declaration order (position + 1 is the slot), the block
/// depth (0 at top level), and whether a function body is being compiled
/// (which is what `return` requires; a top-level block is not enough).
#[verifier::ext_equal]
pub ghost struct CSnap {
    pub code: Seq<Opcode>,
    pub funcs: Seq<(Seq<u8>, usize)>,
    pub locals: Seq<Seq<u8>>,
    pub depth: int,
    pub in_fn: bool,
}

/// The slot of the first (oldest) occurrence of `name`, if any.
pub open spec fn resolve_spec(locals: Seq<Seq<u8>>, name: Seq<u8>) -> Option<int>
    decreases locals.len(),
{
    if locals.len() == 0 {
        None
    } else if locals[0] == name {
        Some(0int)
    } else {
        match resolve_spec(locals.drop_first(), name) {
            Some(i) => Some(i + 1),
            None => None,
        }
    }
}

/// The header index registered for `name`, latest binding first.
pub open spec fn lookup_spec(funcs: Seq<(Seq<u8>, usize)>, name: Seq<u8>) -> Option<usize>
    decreases funcs.len(),
{
    if funcs.len() == 0 {
        None
    } else if funcs.last().0 == name {
        Some(funcs.last().1)
    } else {
        lookup_spec(funcs.drop_last(), name)
    }
}

/// One block level deeper. The depth saturates at the machine limit; it is
/// only ever compared with zero, and a block always restores the depth it
/// entered with.
pub open spec fn bump_depth(d: int) -> int {
    if d >= usize::MAX {
        d
    } else {
        d + 1
    }
}

/// The cleanup sequence on block exit: one `Pop` per local to discard.
pub open spec fn pops_seq(count: int) -> Seq<Opcode> {
    Seq::new(count as nat, |i: int| Opcode::Pop)
}

/// The collapse sequence before `Ret`: `Deepset(k), ..., Deepset(1)`.
pub open spec fn deepsets_seq(k: int) -> Seq<Opcode> {
    Seq::new(k as nat, |i: int| Opcode::Deepset((k - i) as usize))
}

/// What compiling one expression does to the compiler state.
pub open spec fn compile_expr(s: CSnap, e: Expression) -> Result<CSnap, CompileError>
    decreases e,
{
    match e {
        Expression::Literal(l) => Ok(
            CSnap {
                code: match l.value {
                    Literal::Num(n) => s.code.push(Opcode::Const(n)),
                    Literal::Bool(b) => if b {
                        s.code.push(Opcode::False).push(Opcode::Not)
                    } else {
                        s.code.push(Opcode::False)
                    },
                    Literal::Null => s.code.push(Opcode::Null),
                },
                ..s
            },
        ),
        Expression::Variable(v) => match resolve_spec(s.locals, v.value@) {
            Some(i) => Ok(CSnap { code: s.code.push(Opcode::Deepget((i + 1) as usize)), ..s }),
            None => Err(CompileError::UndeclaredVariable),
        },
        Expression::Binary(b) => match compile_expr(s, *b.lhs) {
            Ok(s1) => match compile_expr(s1, *b.rhs) {
                Ok(s2) => Ok(
                    CSnap {
                        code: match b.kind {
                            BinaryExpressionKind::Add => s2.code.push(Opcode::Add),
                            BinaryExpressionKind::Sub => s2.code.push(Opcode::Sub),
                            BinaryExpressionKind::Mul => s2.code.push(Opcode::Mul),
                            BinaryExpressionKind::Div => s2.code.push(Opcode::Div),
                            BinaryExpressionKind::Less => s2.code.push(Opcode::Less),
                            BinaryExpressionKind::Equality(neg) => if neg {
                                s2.code.push(Opcode::Eq).push(Opcode::Not)
                            } else {
                                s2.code.push(Opcode::Eq)
                            },
                        },
                        ..s2
                    },
                ),
                Err(er) => Err(er),
            },
            Err(er) => Err(er),
        },
        Expression::Unary(u) => match compile_expr(s, *u.expr) {
            Ok(s1) => Ok(CSnap { code: s1.code.push(Opcode::Not), ..s1 }),
            Err(er) => Err(er),
        },
        Expression::Call(c) => match compile_exprs(s, c.arguments@) {
            Ok(s1) => match lookup_spec(s1.funcs, c.variable@) {
                Some(entry) => Ok(
                    CSnap {
                        code: s1.code.push(Opcode::Invoke(c.arguments@.len() as usize, entry)),
                        ..s1
                    },
                ),
                None => Err(CompileError::UnknownFunction),
            },
            Err(er) => Err(er),
        },
        Expression::Assign(a) => match *a.lhs {
            Expression::Variable(v) => match compile_expr(s, *a.rhs) {
                Ok(s1) => match resolve_spec(s1.locals, v.value@) {
                    Some(i) => Ok(
                        CSnap { code: s1.code.push(Opcode::Deepset((i + 1) as usize)), ..s1 },
                    ),
                    None => Ok(CSnap { locals: s1.locals.push(v.value@), ..s1 }),
                },
                Err(er) => Err(er),
            },
            _ => Err(CompileError::BadAssignTarget),
        },
    }
}

/// What compiling a list of argument expressions, left to right, does.
pub open spec fn compile_exprs(s: CSnap, es: Seq<Expression>) -> Result<CSnap, CompileError>
    decreases es, es.len(),
{
    if es.len() == 0 {
        Ok(s)
    } else {
        match compile_expr(s, es[0]) {
            Ok(s1) => compile_exprs(s1, es.drop_first()),
            Err(er) => Err(er),
        }
    }
}

/// What compiling one statement does to the compiler state.
pub open spec fn compile_stmt(s: CSnap, st: Statement) -> Result<CSnap, CompileError>
    decreases st,
{
    match st {
        Statement::Dummy => Ok(s),
        Statement::Print(p) => match compile_expr(s, p.expression) {
            Ok(s1) => Ok(CSnap { code: s1.code.push(Opcode::Print), ..s1 }),
            Err(er) => Err(er),
        },
        Statement::Expression(es) => match es.expression {
            Expression::Call(c) => match compile_expr(s, Expression::Call(c)) {
                Ok(s1) => Ok(CSnap { code: s1.code.push(Opcode::Pop), ..s1 }),
                Err(er) => Err(er),
            },
            Expression::Assign(a) => compile_expr(s, Expression::Assign(a)),
            _ => Err(CompileError::BadExpressionStatement),
        },
        Statement::Return(r) => if !s.in_fn {
            Err(CompileError::TopLevelReturn)
        } else {
            match compile_expr(s, r.expression) {
                Ok(s1) => Ok(
                    CSnap {
                        code: s1.code + deepsets_seq(s1.locals.len() as int) + seq![Opcode::Ret],
                        ..s1
                    },
                ),
                Err(er) => Err(er),
            }
        },
        Statement::If(i) => match compile_expr(s, i.condition) {
            Ok(s1) => {
                let jz_idx = s1.code.len() as int;
                let s2 = CSnap { code: s1.code.push(Opcode::Jz(0)), ..s1 };
                match compile_stmt(s2, *i.if_branch) {
                    Ok(s3) => {
                        let jmp_idx = s3.code.len() as int;
                        let s4 = CSnap {
                            code: s3.code.push(Opcode::Jmp(0)).update(
                                jz_idx,
                                Opcode::Jz(jmp_idx as usize),
                            ),
                            ..s3
                        };
                        match compile_stmt(s4, *i.else_branch) {
                            Ok(s5) => Ok(
                                CSnap {
                                    code: s5.code.update(
                                        jmp_idx,
                                        Opcode::Jmp((s5.code.len() - 1) as usize),
                                    ),
                                    ..s5
                                },
                            ),
                            Err(er) => Err(er),
                        }
                    },
                    Err(er) => Err(er),
                }
            },
            Err(er) => Err(er),
        },
        Statement::Block(b) => {
            let base = s.locals.len() as int;
            let s1 = CSnap { depth: bump_depth(s.depth), ..s };
            match compile_stmts(s1, b.body@) {
                Ok(s2) => {
                    let count = s2.locals.len() - base;
                    Ok(
                        CSnap {
                            code: s2.code + pops_seq(count),
                            locals: s2.locals.take(base),
                            depth: s.depth,
                            ..s2
                        },
                    )
                },
                Err(er) => Err(er),
            }
        },
        Statement::Fn(f) => if s.depth != 0 {
            Err(CompileError::NestedFunction)
        } else {
            match *f.body {
                Statement::Block(b) => {
                    let jmp_idx = s.code.len() as int;
                    let s1 = CSnap {
                        code: s.code.push(Opcode::Jmp(0)),
                        funcs: s.funcs.push((f.name@, jmp_idx as usize)),
                        locals: f.arguments@.map_values(|a: Vec<u8>| a@),
                        depth: 1,
                        in_fn: true,
                    };
                    match compile_stmts(s1, b.body@) {
                        Ok(s2) => {
                            let count = s2.locals.len() as int;
                            let code3 = s2.code + pops_seq(count) + seq![
                                Opcode::Null,
                                Opcode::Ret,
                            ];
                            Ok(
                                CSnap {
                                    code: code3.update(
                                        jmp_idx,
                                        Opcode::Jmp((code3.len() - 1) as usize),
                                    ),
                                    funcs: s2.funcs,
                                    locals: Seq::empty(),
                                    depth: 0,
                                    in_fn: false,
                                },
                            )
                        },
                        Err(er) => Err(er),
                    }
                },
                _ => Err(CompileError::BadFnBody),
            }
        },
    }
}

/// Where `resolve_spec` finds a name: the first occurrence, with nothing
/// equal before it; `None` exactly when the name is absent.
pub proof fn lemma_resolve_char(s: Seq<Seq<u8>>, n: Seq<u8>)
    ensures
        match resolve_spec(s, n) {
            Some(i) => 0 <= i < s.len() && s[i] == n && (forall|j: int| 0 <= j < i ==> s[j] != n),
            None => forall|j: int| 0 <= j < s.len() ==> s[j] != n,
        },
    decreases s.len(),
{
    if s.len() > 0 && s[0] != n {
        lemma_resolve_char(s.drop_first(), n);
        match resolve_spec(s.drop_first(), n) {
            Some(i) => {
                assert(s.drop_first()[i] == s[i + 1]);
                assert(forall|j: int| 1 <= j < i + 1 ==> s[j] == s.drop_first()[j - 1]);
            },
            None => {
                assert(forall|j: int| 1 <= j < s.len() ==> s[j] == s.drop_first()[j - 1]);
            },
        }
    }
}

/// Where `lookup_spec` finds a name: the latest binding, with nothing equal
/// after it; `None` exactly when the name is absent.
pub proof fn lemma_lookup_char(fs: Seq<(Seq<u8>, usize)>, n: Seq<u8>)
    ensures
        match lookup_spec(fs, n) {
            Some(v) => exists|j: int|
                0 <= j < fs.len() && fs[j].0 == n && fs[j].1 == v && (forall|j2: int|
                    j < j2 < fs.len() ==> fs[j2].0 != n),
            None => forall|j: int| 0 <= j < fs.len() ==> fs[j].0 != n,
        },
    decreases fs.len(),
{
    if fs.len() > 0 && fs.last().0 != n {
        lemma_lookup_char(fs.drop_last(), n);
        match lookup_spec(fs.drop_last(), n) {
            Some(v) => {
                let g = fs.drop_last();
                let j = choose|j: int|
                    0 <= j < g.len() && g[j].0 == n && g[j].1 == v && (forall|j2: int|
                        j < j2 < g.len() ==> g[j2].0 != n);
                assert(fs[j].0 == n && fs[j].1 == v);
                assert(forall|j2: int| j < j2 < fs.len() - 1 ==> fs[j2].0 == g[j2].0);
            },
            None => {
                assert(forall|j: int| 0 <= j < fs.len() - 1 ==> fs[j].0 == fs.drop_last()[j].0);
            },
        }
    }
}

/// What compiling a list of statements, left to right, does.
pub open spec fn compile_stmts(s: CSnap, sts: Seq<Statement>) -> Result<CSnap, CompileError>
    decreases sts, sts.len(),
{
    if sts.len() == 0 {
        Ok(s)
    } else {
        match compile_stmt(s, sts[0]) {
            Ok(s1) => compile_stmts(s1, sts.drop_first()),
            Err(er) => Err(er),
        }
    }
}

/// The jump or call target of an instruction, if it has one.
pub open spec fn instr_target(op: Opcode) -> Option<int> {
    match op {
        Opcode::Jmp(t) => Some(t as int),
        Opcode::Jz(t) => Some(t as int),
        Opcode::Invoke(_, e) => Some(e as int),
        _ => None,
    }
}

/// Every jump or call target lies inside the program.
pub open spec fn targets_in_range(code: Seq<Opcode>) -> bool {
    forall|i: int|
        0 <= i < code.len() ==> (match instr_target(#[trigger] code[i]) {
            Some(t) => 0 <= t < code.len(),
            None => true,
        })
}

/// A well-formed compiler state: every emitted target and every registered
/// function header lies inside the emitted code.
pub open spec fn cwf(s: CSnap) -> bool {
    &&& targets_in_range(s.code)
    &&& forall|j: int| 0 <= j < s.funcs.len() ==> 0 <= (#[trigger] s.funcs[j]).1 < s.code.len()
}

/// Appending instructions whose targets lie inside the extended code keeps
/// every target in range.
proof fn lemma_targets_append(code: Seq<Opcode>, tail: Seq<Opcode>)
    requires
        targets_in_range(code),
        forall|i: int|
            0 <= i < tail.len() ==> (match instr_target(#[trigger] tail[i]) {
                Some(t) => 0 <= t < code.len() + tail.len(),
                None => true,
            }),
    ensures
        targets_in_range(code + tail),
{
    let all = code + tail;
    assert forall|i: int| 0 <= i < all.len() implies (match instr_target(#[trigger] all[i]) {
        Some(t) => 0 <= t < all.len(),
        None => true,
    }) by {
        if i < code.len() {
            assert(all[i] == code[i]);
        } else {
            assert(all[i] == tail[i - code.len()]);
        }
    }
}

/// Overwriting one instruction with one whose target is in range keeps
/// every target in range.
proof fn lemma_targets_update(code: Seq<Opcode>, i: int, op: Opcode)
    requires
        targets_in_range(code),
        0 <= i < code.len(),
        match instr_target(op) {
            Some(t) => 0 <= t < code.len(),
            None => true,
        },
    ensures
        targets_in_range(code.update(i, op)),
{
    let all = code.update(i, op);
    assert forall|j: int| 0 <= j < all.len() implies (match instr_target(#[trigger] all[j]) {
        Some(t) => 0 <= t < all.len(),
        None => true,
    }) by {
        if j != i {
            assert(all[j] == code[j]);
        }
    }
}

/// Lowering an expression from a well-formed state gives a well-formed
/// state, and the code only grows.
pub proof fn lemma_expr_wf(s: CSnap, e: Expression)
    requires
        cwf(s),
    ensures
        match compile_expr(s, e) {
            Ok(s2) => cwf(s2) && s2.code.len() >= s.code.len(),
            Err(_) => true,
        },
    decreases e,
{
    match e {
        Expression::Literal(l) => {
            match l.value {
                Literal::Num(n) => {
                    lemma_targets_append(s.code, seq![Opcode::Const(n)]);
                },
                Literal::Bool(b) => {
                    if b {
                        lemma_targets_append(s.code, seq![Opcode::False, Opcode::Not]);
                        assert(s.code.push(Opcode::False).push(Opcode::Not) =~= s.code + seq![
                            Opcode::False,
                            Opcode::Not,
                        ]);
                    } else {
                        lemma_targets_append(s.code, seq![Opcode::False]);
                    }
                },
                Literal::Null => {
                    lemma_targets_append(s.code, seq![Opcode::Null]);
                },
            }
            assert(forall|op: Opcode| s.code.push(op) =~= s.code + seq![op]);
        },
        Expression::Variable(v) => {
            match resolve_spec(s.locals, v.value@) {
                Some(i) => {
                    lemma_targets_append(s.code, seq![Opcode::Deepget((i + 1) as usize)]);
                    assert(s.code.push(Opcode::Deepget((i + 1) as usize)) =~= s.code + seq![
                        Opcode::Deepget((i + 1) as usize),
                    ]);
                },
                None => {},
            }
        },
        Expression::Binary(b) => {
            lemma_expr_wf(s, *b.lhs);
            match compile_expr(s, *b.lhs) {
                Ok(s1) => {
                    lemma_expr_wf(s1, *b.rhs);
                    match compile_expr(s1, *b.rhs) {
                        Ok(s2) => {
                            match b.kind {
                                BinaryExpressionKind::Equality(neg) => {
                                    if neg {
                                        lemma_targets_append(
                                            s2.code,
                                            seq![Opcode::Eq, Opcode::Not],
                                        );
                                        assert(s2.code.push(Opcode::Eq).push(Opcode::Not)
                                            =~= s2.code + seq![Opcode::Eq, Opcode::Not]);
                                    } else {
                                        lemma_targets_append(s2.code, seq![Opcode::Eq]);
                                        assert(s2.code.push(Opcode::Eq) =~= s2.code + seq![
                                            Opcode::Eq,
                                        ]);
                                    }
                                },
                                _ => {
                                    assert forall|op: Opcode| instr_target(op) is None implies
                                        targets_in_range(s2.code.push(op)) by {
                                        lemma_targets_append(s2.code, seq![op]);
                                        assert(s2.code.push(op) =~= s2.code + seq![op]);
                                    }
                                },
                            }
                        },
                        Err(_) => {},
                    }
                },
                Err(_) => {},
            }
        },
        Expression::Unary(u) => {
            lemma_expr_wf(s, *u.expr);
            match compile_expr(s, *u.expr) {
                Ok(s1) => {
                    lemma_targets_append(s1.code, seq![Opcode::Not]);
                    assert(s1.code.push(Opcode::Not) =~= s1.code + seq![Opcode::Not]);
                },
                Err(_) => {},
            }
        },
        Expression::Call(c) => {
            lemma_exprs_wf(s, c.arguments@);
            match compile_exprs(s, c.arguments@) {
                Ok(s1) => {
                    match lookup_spec(s1.funcs, c.variable@) {
                        Some(entry) => {
                            lemma_lookup_char(s1.funcs, c.variable@);
                            let op = Opcode::Invoke(c.arguments@.len() as usize, entry);
                            lemma_targets_append(s1.code, seq![op]);
                            assert(s1.code.push(op) =~= s1.code + seq![op]);
                        },
                        None => {},
                    }
                },
                Err(_) => {},
            }
        },
        Expression::Assign(a) => {
            match *a.lhs {
                Expression::Variable(v) => {
                    lemma_expr_wf(s, *a.rhs);
                    match compile_expr(s, *a.rhs) {
                        Ok(s1) => {
                            match resolve_spec(s1.locals, v.value@) {
                                Some(i) => {
                                    let op = Opcode::Deepset((i + 1) as usize);
                                    lemma_targets_append(s1.code, seq![op]);
                                    assert(s1.code.push(op) =~= s1.code + seq![op]);
                                },
                                None => {},
                            }
                        },
                        Err(_) => {},
                    }
                },
                _ => {},
            }
        },
    }
}

/// Lowering an argument list from a well-formed state gives a well-formed
/// state, and the code only grows.
pub proof fn lemma_exprs_wf(s: CSnap, es: Seq<Expression>)
    requires
        cwf(s),
    ensures
        match compile_exprs(s, es) {
            Ok(s2) => cwf(s2) && s2.code.len() >= s.code.len(),
            Err(_) => true,
        },
    decreases es, es.len(),
{
    if es.len() > 0 {
        lemma_expr_wf(s, es[0]);
        match compile_expr(s, es[0]) {
            Ok(s1) => {
                lemma_exprs_wf(s1, es.drop_first());
            },
            Err(_) => {},
        }
    }
}

/// Lowering a statement from a well-formed state gives a well-formed state,
/// and the code only grows: in particular every placeholder the statement
/// emitted has been overwritten with an in-range target by the time it
/// returns.
pub proof fn lemma_stmt_wf(s: CSnap, st: Statement)
    requires
        cwf(s),
    ensures
        match compile_stmt(s, st) {
            Ok(s2) => cwf(s2) && s2.code.len() >= s.code.len(),
            Err(_) => true,
        },
    decreases st,
{
    match st {
        Statement::Dummy => {},
        Statement::Print(p) => {
            lemma_expr_wf(s, p.expression);
            match compile_expr(s, p.expression) {
                Ok(s1) => {
                    lemma_targets_append(s1.code, seq![Opcode::Print]);
                    assert(s1.code.push(Opcode::Print) =~= s1.code + seq![Opcode::Print]);
                },
                Err(_) => {},
            }
        },
        Statement::Expression(es) => {
            match es.expression {
                Expression::Call(c) => {
                    lemma_expr_wf(s, Expression::Call(c));
                    match compile_expr(s, Expression::Call(c)) {
                        Ok(s1) => {
                            lemma_targets_append(s1.code, seq![Opcode::Pop]);
                            assert(s1.code.push(Opcode::Pop) =~= s1.code + seq![Opcode::Pop]);
                        },
                        Err(_) => {},
                    }
                },
                Expression::Assign(a) => {
                    lemma_expr_wf(s, Expression::Assign(a));
                },
                _ => {},
            }
        },
        Statement::Return(r) => {
            if s.in_fn {
                lemma_expr_wf(s, r.expression);
                match compile_expr(s, r.expression) {
                    Ok(s1) => {
                        let k = s1.locals.len() as int;
                        lemma_targets_append(s1.code, deepsets_seq(k) + seq![Opcode::Ret]);
                        assert(s1.code + deepsets_seq(k) + seq![Opcode::Ret] =~= s1.code + (
                        deepsets_seq(k) + seq![Opcode::Ret]));
                    },
                    Err(_) => {},
                }
            }
        },
        Statement::If(i) => {
            lemma_expr_wf(s, i.condition);
            match compile_expr(s, i.condition) {
                Ok(s1) => {
                    let jz_idx = s1.code.len() as int;
                    let s2 = CSnap { code: s1.code.push(Opcode::Jz(0)), ..s1 };
                    lemma_targets_append(s1.code, seq![Opcode::Jz(0)]);
                    assert(s1.code.push(Opcode::Jz(0)) =~= s1.code + seq![Opcode::Jz(0)]);
                    lemma_stmt_wf(s2, *i.if_branch);
                    match compile_stmt(s2, *i.if_branch) {
                        Ok(s3) => {
                            let jmp_idx = s3.code.len() as int;
                            lemma_targets_append(s3.code, seq![Opcode::Jmp(0)]);
                            assert(s3.code.push(Opcode::Jmp(0)) =~= s3.code + seq![Opcode::Jmp(
                                0,
                            )]);
                            lemma_targets_update(
                                s3.code.push(Opcode::Jmp(0)),
                                jz_idx,
                                Opcode::Jz(jmp_idx as usize),
                            );
                            let s4 = CSnap {
                                code: s3.code.push(Opcode::Jmp(0)).update(
                                    jz_idx,
                                    Opcode::Jz(jmp_idx as usize),
                                ),
                                ..s3
                            };
                            lemma_stmt_wf(s4, *i.else_branch);
                            match compile_stmt(s4, *i.else_branch) {
                                Ok(s5) => {
                                    lemma_targets_update(
                                        s5.code,
                                        jmp_idx,
                                        Opcode::Jmp((s5.code.len() - 1) as usize),
                                    );
                                },
                                Err(_) => {},
                            }
                        },
                        Err(_) => {},
                    }
                },
                Err(_) => {},
            }
        },
        Statement::Block(b) => {
            let s1 = CSnap { depth: bump_depth(s.depth), ..s };
            lemma_stmts_wf(s1, b.body@);
            match compile_stmts(s1, b.body@) {
                Ok(s2) => {
                    let count = s2.locals.len() - s.locals.len();
                    lemma_targets_append(s2.code, pops_seq(count));
                },
                Err(_) => {},
            }
        },
        Statement::Fn(f) => {
            if s.depth == 0 {
                match *f.body {
                    Statement::Block(b) => {
                        let jmp_idx = s.code.len() as int;
                        let s1 = CSnap {
                            code: s.code.push(Opcode::Jmp(0)),
                            funcs: s.funcs.push((f.name@, jmp_idx as usize)),
                            locals: f.arguments@.map_values(|a: Vec<u8>| a@),
                            depth: 1,
                            in_fn: true,
                        };
                        lemma_targets_append(s.code, seq![Opcode::Jmp(0)]);
                        assert(s.code.push(Opcode::Jmp(0)) =~= s.code + seq![Opcode::Jmp(0)]);
                        assert(cwf(s1)) by {
                            assert(forall|j: int|
                                0 <= j < s.funcs.len() ==> s1.funcs[j] == s.funcs[j]);
                        }
                        lemma_stmts_wf(s1, b.body@);
                        match compile_stmts(s1, b.body@) {
                            Ok(s2) => {
                                let count = s2.locals.len() as int;
                                let code3 = s2.code + pops_seq(count) + seq![
                                    Opcode::Null,
                                    Opcode::Ret,
                                ];
                                lemma_targets_append(
                                    s2.code,
                                    pops_seq(count) + seq![Opcode::Null, Opcode::Ret],
                                );
                                assert(code3 =~= s2.code + (pops_seq(count) + seq![
                                    Opcode::Null,
                                    Opcode::Ret,
                                ]));
                                lemma_targets_update(
                                    code3,
                                    jmp_idx,
                                    Opcode::Jmp((code3.len() - 1) as usize),
                                );
                            },
                            Err(_) => {},
                        }
                    },
                    _ => {},
                }
            }
        },
    }
}

/// Lowering a statement list from a well-formed state gives a well-formed
/// state, and the code only grows.
pub proof fn lemma_stmts_wf(s: CSnap, sts: Seq<Statement>)
    requires
        cwf(s),
    ensures
        match compile_stmts(s, sts) {
            Ok(s2) => cwf(s2) && s2.code.len() >= s.code.len(),
            Err(_) => true,
        },
    decreases sts, sts.len(),
{
    if sts.len() > 0 {
        lemma_stmt_wf(s, sts[0]);
        match compile_stmt(s, sts[0]) {
            Ok(s1) => {
                lemma_stmts_wf(s1, sts.drop_first());
            },
            Err(_) => {},
        }
    }
}

/// Every jump target and every call target in a program compiled from a
/// fresh compiler lies in range: no placeholder survives compilation.
pub proof fn lemma_jump_targets_in_range(ast: Seq<Statement>, out: CSnap)
    requires
        compile_stmts(
            CSnap {
                code: Seq::empty(),
                funcs: Seq::empty(),
                locals: Seq::empty(),
                depth: 0,
                in_fn: false,
            },
            ast,
        ) == Ok::<CSnap, CompileError>(out),
    ensures
        targets_in_range(out.code),
{
    let s0 = CSnap {
        code: Seq::<Opcode>::empty(),
        funcs: Seq::<(Seq<u8>, usize)>::empty(),
        locals: Seq::<Seq<u8>>::empty(),
        depth: 0,
        in_fn: false,
    };
    assert(cwf(s0));
    lemma_stmts_wf(s0, ast);
}

/// Lowering is a function of the syntax tree and the starting state alone:
/// compiling the same program twice yields byte-identical bytecode.
pub proof fn lemma_compile_deterministic(
    s: CSnap,
    ast: Seq<Statement>,
    r1: Result<CSnap, CompileError>,
    r2: Result<CSnap, CompileError>,
)
    requires
        r1 == compile_stmts(s, ast),
        r2 == compile_stmts(s, ast),
    ensures
        r1 == r2,
{
}

/// Relates the compiler before and after lowering one construct to the
/// mirror result `res` of the corresponding specification function.
pub open spec fn cg(pre: CSnap, post: CSnap, res: Result<CSnap, CompileError>, r: Result<
    (),
    CompileError,
>) -> bool {
    match r {
        Ok(_) => res == Ok::<CSnap, CompileError>(post),
        Err(e) => res == Err::<CSnap, CompileError>(e),
    }
}

/// The single-pass compiler state: the emitted stream, the function table,
/// the live locals (declaration order; position + 1 is the slot), and the
/// current block depth.
pub struct Compiler {
    pub bytecode: Vec<Opcode>,
    pub functions: Vec<(Vec<u8>, usize)>,
    pub locals: Vec<Vec<u8>>,
    pub depth: usize,
    pub in_function: bool,
}

impl Compiler {
    /// The mathematical state of this compiler.
    pub open spec fn snap(&self) -> CSnap {
        CSnap {
            code: self.bytecode@,
            funcs: self.functions@.map_values(|p: (Vec<u8>, usize)| (p.0@, p.1)),
            locals: self.locals@.map_values(|l: Vec<u8>| l@),
            depth: self.depth as int,
            in_fn: self.in_function,
        }
    }

    /// A fresh compiler: nothing emitted, no functions, no locals, depth 0.
    pub fn new() -> (c: Compiler)
        ensures
            c.snap() == (CSnap {
                code: Seq::<Opcode>::empty(),
                funcs: Seq::<(Seq<u8>, usize)>::empty(),
                locals: Seq::<Seq<u8>>::empty(),
                depth: 0int,
                in_fn: false,
            }),
    {
        let c = Compiler {
            bytecode: Vec::new(),
            functions: Vec::new(),
            locals: Vec::new(),
            depth: 0,
            in_function: false,
        };
        proof {
            assert(c.snap() =~= (CSnap {
                code: Seq::<Opcode>::empty(),
                funcs: Seq::<(Seq<u8>, usize)>::empty(),
                locals: Seq::<Seq<u8>>::empty(),
                depth: 0int,
                in_fn: false,
            }));
        }
        c
    }

    /// The slot of `name` among the live locals, oldest binding first.
    pub fn resolve_local(&self, name: &Vec<u8>) -> (r: Option<usize>)
        ensures
            match r {
                Some(i) => resolve_spec(self.snap().locals, name@) == Some(i as int),
                None => resolve_spec(self.snap().locals, name@) == None::<int>,
            },
    {
        let ghost lv = self.snap().locals;
        proof {
            lemma_resolve_char(lv, name@);
        }
        let mut i: usize = 0;
        while i < self.locals.len()
            invariant
                i <= self.locals@.len(),
                lv == self.snap().locals,
                forall|j: int| 0 <= j < i ==> lv[j] != name@,
            decreases self.locals@.len() - i,
        {
            if bytes_eq(&self.locals[i], name) {
                proof {
                    lemma_resolve_char(lv, name@);
                    assert(lv[i as int] == name@);
                    match resolve_spec(lv, name@) {
                        Some(i0) => {
                            if i0 < i {
                                assert(lv[i0] == name@);
                            }
                            if i0 > i {
                                assert(lv[i as int] != name@);
                            }
                        },
                        None => {
                            assert(lv[i as int] != name@);
                        },
                    }
                }
                return Some(i);
            }
            i = i + 1;
        }
        proof {
            lemma_resolve_char(lv, name@);
            match resolve_spec(lv, name@) {
                Some(i0) => {
                    assert(lv[i0] != name@);
                },
                None => {},
            }
        }
        None
    }

    /// Lowers one expression, exactly as [`compile_expr`] describes.
    #[verifier::loop_isolation(false)]
    #[verifier::rlimit(100)]
    #[verifier::spinoff_prover]
    fn expr_codegen(&mut self, e: &Expression) -> (r: Result<(), CompileError>)
        ensures
            cg(old(self).snap(), final(self).snap(), compile_expr(old(self).snap(), *e), r),
            r is Ok ==> final(self).depth == old(self).depth && final(self).locals@.len()
                >= old(self).locals@.len() && final(self).bytecode@.len()
                >= old(self).bytecode@.len(),
        decreases *e,
    {
        match e {
            Expression::Literal(l) => {
                match &l.value {
                    Literal::Num(n) => {
                        self.bytecode.push(Opcode::Const(*n));
                    },
                    Literal::Bool(b) => {
                        self.bytecode.push(Opcode::False);
                        if *b {
                            self.bytecode.push(Opcode::Not);
                        }
                    },
                    Literal::Null => {
                        self.bytecode.push(Opcode::Null);
                    },
                }
                proof {
                    let res = compile_expr(old(self).snap(), *e);
                    assert(res is Ok && self.snap() =~= res->Ok_0);
                }
                Ok(())
            },
            Expression::Variable(v) => {
                match self.resolve_local(&v.value) {
                    Some(i) => {
                        let nloc = self.locals.len();
                        proof {
                            lemma_resolve_char(old(self).snap().locals, v.value@);
                            assert(i < nloc);
                        }
                        self.bytecode.push(Opcode::Deepget(i + 1));
                        proof {
                            let res = compile_expr(old(self).snap(), *e);
                            assert(res is Ok && self.snap() =~= res->Ok_0);
                        }
                        Ok(())
                    },
                    None => Err(CompileError::UndeclaredVariable),
                }
            },
            Expression::Binary(b) => {
                match self.expr_codegen(&*b.lhs) {
                    Err(er) => Err(er),
                    Ok(_) => {
                        match self.expr_codegen(&*b.rhs) {
                            Err(er) => Err(er),
                            Ok(_) => {
                                match &b.kind {
                                    BinaryExpressionKind::Add => {
                                        self.bytecode.push(Opcode::Add);
                                    },
                                    BinaryExpressionKind::Sub => {
                                        self.bytecode.push(Opcode::Sub);
                                    },
                                    BinaryExpressionKind::Mul => {
                                        self.bytecode.push(Opcode::Mul);
                                    },
                                    BinaryExpressionKind::Div => {
                                        self.bytecode.push(Opcode::Div);
                                    },
                                    BinaryExpressionKind::Less => {
                                        self.bytecode.push(Opcode::Less);
                                    },
                                    BinaryExpressionKind::Equality(neg) => {
                                        self.bytecode.push(Opcode::Eq);
                                        if *neg {
                                            self.bytecode.push(Opcode::Not);
                                        }
                                    },
                                }
                                proof {
                                    let res = compile_expr(old(self).snap(), *e);
                                    assert(res is Ok && self.snap() =~= res->Ok_0);
                                }
                                Ok(())
                            },
                        }
                    },
                }
            },
            Expression::Unary(u) => {
                match self.expr_codegen(&*u.expr) {
                    Err(er) => Err(er),
                    Ok(_) => {
                        self.bytecode.push(Opcode::Not);
                        proof {
                            let res = compile_expr(old(self).snap(), *e);
                            assert(res is Ok && self.snap() =~= res->Ok_0);
                        }
                        Ok(())
                    },
                }
            },
            Expression::Call(c) => {
                let ghost s0 = self.snap();
                proof {
                    assert(c.arguments@.skip(0) =~= c.arguments@);
                }
                let mut i: usize = 0;
                while i < c.arguments.len()
                    invariant
                        i <= c.arguments@.len(),
                        compile_exprs(s0, c.arguments@) == compile_exprs(
                            self.snap(),
                            c.arguments@.skip(i as int),
                        ),
                        self.depth == old(self).depth,
                        self.locals@.len() >= old(self).locals@.len(),
                        self.bytecode@.len() >= old(self).bytecode@.len(),
                        s0 == old(self).snap(),
                    decreases c.arguments@.len() - i,
                {
                    let ghost pre = self.snap();
                    let ghost rest = c.arguments@.skip(i as int);
                    proof {
                        assert(decreases_to!(*e => *c));
                        assert(decreases_to!(*c => c.arguments));
                        assert(decreases_to!(c.arguments => c.arguments[i as int]));
                    }
                    match self.expr_codegen(&c.arguments[i]) {
                        Ok(_) => {},
                        Err(er) => {
                            proof {
                                assert(rest[0] == c.arguments@[i as int]);
                                assert(compile_exprs(pre, rest) == Err::<CSnap, CompileError>(
                                    er,
                                ));
                                assert(*e == Expression::Call(*c));
                                assert(compile_exprs(s0, (*c).arguments@) == Err::<
                                    CSnap,
                                    CompileError,
                                >(er));
                                assert(compile_expr(old(self).snap(), *e) == Err::<
                                    CSnap,
                                    CompileError,
                                >(er));
                            }
                            return Err(er);
                        },
                    }
                    i = i + 1;
                    proof {
                        assert(rest[0] == c.arguments@[i - 1]);
                        assert(rest.drop_first() =~= c.arguments@.skip(i as int));
                    }
                }
                proof {
                    assert(c.arguments@.skip(i as int) =~= Seq::<Expression>::empty());
                    assert(compile_exprs(s0, c.arguments@) == Ok::<CSnap, CompileError>(
                        self.snap(),
                    ));
                }
                match self.lookup_function(&c.variable) {
                    None => Err(CompileError::UnknownFunction),
                    Some(entry) => {
                        self.bytecode.push(Opcode::Invoke(c.arguments.len(), entry));
                        proof {
                            let res = compile_expr(old(self).snap(), *e);
                            assert(res is Ok && self.snap() =~= res->Ok_0);
                        }
                        Ok(())
                    },
                }
            },
            Expression::Assign(a) => {
                match &*a.lhs {
                    Expression::Variable(v) => {
                        match self.expr_codegen(&*a.rhs) {
                            Err(er) => Err(er),
                            Ok(_) => {
                                match self.resolve_local(&v.value) {
                                    Some(i) => {
                                        let nloc = self.locals.len();
                                        proof {
                                            lemma_resolve_char(self.snap().locals, v.value@);
                                            assert(i < nloc);
                                        }
                                        self.bytecode.push(Opcode::Deepset(i + 1));
                                        proof {
                                            let res = compile_expr(old(self).snap(), *e);
                                            assert(res is Ok && self.snap() =~= res->Ok_0);
                                        }
                                        Ok(())
                                    },
                                    None => {
                                        let ghost mid = self.snap();
                                        self.locals.push(copy_bytes(&v.value));
                                        proof {
                                            assert(self.snap().locals =~= mid.locals.push(
                                                v.value@,
                                            ));
                                            let res = compile_expr(old(self).snap(), *e);
                                            assert(res is Ok && self.snap() =~= res->Ok_0);
                                        }
                                        Ok(())
                                    },
                                }
                            },
                        }
                    },
                    _ => Err(CompileError::BadAssignTarget),
                }
            },
        }
    }

    /// Lowers one statement, exactly as [`compile_stmt`] describes.
    #[verifier::loop_isolation(false)]
    #[verifier::rlimit(100)]
    #[verifier::spinoff_prover]
    fn stmt_codegen(&mut self, st: &Statement) -> (r: Result<(), CompileError>)
        ensures
            cg(old(self).snap(), final(self).snap(), compile_stmt(old(self).snap(), *st), r),
            r is Ok ==> final(self).depth == old(self).depth && final(self).bytecode@.len()
                >= old(self).bytecode@.len(),
            r is Ok && old(self).depth >= 1 ==> final(self).locals@.len()
                >= old(self).locals@.len(),
        decreases *st,
    {
        match st {
            Statement::Dummy => Ok(()),
            Statement::Print(p) => {
                match self.expr_codegen(&p.expression) {
                    Err(er) => Err(er),
                    Ok(_) => {
                        self.bytecode.push(Opcode::Print);
                        proof {
                            let res = compile_stmt(old(self).snap(), *st);
                            assert(res is Ok && self.snap() =~= res->Ok_0);
                        }
                        Ok(())
                    },
                }
            },
            Statement::Expression(es) => {
                match &es.expression {
                    Expression::Call(_) => {
                        match self.expr_codegen(&es.expression) {
                            Err(er) => Err(er),
                            Ok(_) => {
                                self.bytecode.push(Opcode::Pop);
                                proof {
                                    let res = compile_stmt(old(self).snap(), *st);
                                    assert(res is Ok && self.snap() =~= res->Ok_0);
                                }
                                Ok(())
                            },
                        }
                    },
                    Expression::Assign(_) => {
                        let r = self.expr_codegen(&es.expression);
                        proof {
                            let res = compile_stmt(old(self).snap(), *st);
                            match r {
                                Ok(_) => {
                                    assert(res is Ok && self.snap() =~= res->Ok_0);
                                },
                                Err(_) => {},
                            }
                        }
                        r
                    },
                    _ => Err(CompileError::BadExpressionStatement),
                }
            },
            Statement::Return(rt) => {
                let r = self.return_codegen(rt);
                proof {
                    assert(*st == Statement::Return(*rt));
                }
                r
            },
            Statement::If(i) => {
                let r = self.if_codegen(i);
                proof {
                    assert(*st == Statement::If(*i));
                }
                r
            },
            Statement::Block(b) => {
                let r = self.block_codegen(b);
                proof {
                    assert(*st == Statement::Block(*b));
                }
                r
            },
            Statement::Fn(f) => {
                let r = self.fn_codegen(f);
                proof {
                    assert(*st == Statement::Fn(*f));
                }
                r
            },
        }
    }

    /// Lowers one function definition, exactly as the `Fn` case of
    /// [`compile_stmt`] describes: header jump, registration, argument
    /// seeding, the body as a block, the implicit `Null` return, and the
    /// header patch.
    #[verifier::loop_isolation(false)]
    #[verifier::rlimit(100)]
    #[verifier::spinoff_prover]
    fn fn_codegen(&mut self, f: &FnStatement) -> (r: Result<(), CompileError>)
        ensures
            cg(
                old(self).snap(),
                final(self).snap(),
                compile_stmt(old(self).snap(), Statement::Fn(*f)),
                r,
            ),
            r is Ok ==> final(self).depth == old(self).depth && final(self).bytecode@.len()
                >= old(self).bytecode@.len(),
        decreases *f,
    {
        if self.depth != 0 {
            return Err(CompileError::NestedFunction);
        }
        match &*f.body {
            Statement::Block(b) => {
                let jmp_idx = self.bytecode.len();
                self.bytecode.push(Opcode::Jmp(0));
                self.functions.push((copy_bytes(&f.name), jmp_idx));
                self.locals.clear();
                let ghost argvs = f.arguments@.map_values(|a: Vec<u8>| a@);
                let mut ai: usize = 0;
                while ai < f.arguments.len()
                    invariant
                        ai <= f.arguments@.len(),
                        self.snap().locals == argvs.take(ai as int),
                        self.snap().code == old(self).snap().code.push(Opcode::Jmp(0)),
                        self.snap().funcs == old(self).snap().funcs.push(
                            (f.name@, jmp_idx as usize),
                        ),
                        self.depth == 0,
                    decreases f.arguments@.len() - ai,
                {
                    self.locals.push(copy_bytes(&f.arguments[ai]));
                    ai = ai + 1;
                    proof {
                        assert(self.snap().locals =~= argvs.take(ai as int));
                    }
                }
                self.depth = 1;
                self.in_function = true;
                let ghost s1 = CSnap {
                    code: old(self).snap().code.push(Opcode::Jmp(0)),
                    funcs: old(self).snap().funcs.push((f.name@, jmp_idx as usize)),
                    locals: argvs,
                    depth: 1,
                    in_fn: true,
                };
                proof {
                    assert(argvs.take(f.arguments@.len() as int) =~= argvs);
                    assert(self.snap() =~= s1);
                    assert(b.body@.skip(0) =~= b.body@);
                }
                let mut i: usize = 0;
                while i < b.body.len()
                    invariant
                        i <= b.body@.len(),
                        compile_stmts(s1, b.body@) == compile_stmts(
                            self.snap(),
                            b.body@.skip(i as int),
                        ),
                        self.depth >= 1,
                        self.bytecode@.len() > jmp_idx,
                    decreases b.body@.len() - i,
                {
                    let ghost pre = self.snap();
                    let ghost rest = b.body@.skip(i as int);
                    proof {
                        assert(decreases_to!(*f => *f.body));
                        assert(decreases_to!(*f.body => *b));
                        assert(decreases_to!(*b => b.body));
                        assert(decreases_to!(b.body => b.body[i as int]));
                    }
                    match self.stmt_codegen(&b.body[i]) {
                        Ok(_) => {},
                        Err(er) => {
                            proof {
                                assert(rest[0] == b.body@[i as int]);
                                assert(compile_stmts(pre, rest) == Err::<
                                    CSnap,
                                    CompileError,
                                >(er));
                                assert(compile_stmt(old(self).snap(), Statement::Fn(*f)) == Err::<
                                    CSnap,
                                    CompileError,
                                >(er));
                            }
                            return Err(er);
                        },
                    }
                    i = i + 1;
                    proof {
                        assert(rest[0] == b.body@[i - 1]);
                        assert(rest.drop_first() =~= b.body@.skip(i as int));
                    }
                }
                proof {
                    assert(b.body@.skip(i as int) =~= Seq::<Statement>::empty());
                }
                let ghost s2 = self.snap();
                let count = self.locals.len();
                let mut p: usize = 0;
                while p < count
                    invariant
                        p <= count,
                        self.snap() == (CSnap {
                            code: s2.code + pops_seq(p as int),
                            ..s2
                        }),
                        self.bytecode@.len() > jmp_idx,
                    decreases count - p,
                {
                    self.bytecode.push(Opcode::Pop);
                    p = p + 1;
                    proof {
                        assert(s2.code + pops_seq(p as int) =~= (s2.code + pops_seq(
                            p - 1,
                        )).push(Opcode::Pop));
                        assert(self.snap() =~= (CSnap {
                            code: s2.code + pops_seq(p as int),
                            ..s2
                        }));
                    }
                }
                self.bytecode.push(Opcode::Null);
                self.bytecode.push(Opcode::Ret);
                let ghost code3 = s2.code + pops_seq(count as int) + seq![
                    Opcode::Null,
                    Opcode::Ret,
                ];
                proof {
                    assert(self.snap().code =~= code3);
                }
                let end = self.bytecode.len();
                self.bytecode[jmp_idx] = Opcode::Jmp(end - 1);
                self.locals.clear();
                self.depth = 0;
                self.in_function = false;
                proof {
                    assert(self.snap().locals =~= Seq::<Seq<u8>>::empty());
                    let res = compile_stmt(old(self).snap(), Statement::Fn(*f));
                    assert(res is Ok && self.snap() =~= res->Ok_0);
                }
                Ok(())
            },
            _ => Err(CompileError::BadFnBody),
        }
    }

    /// Lowers a `return`, exactly as the `Return` case of [`compile_stmt`]
    /// describes: the expression, the collapse `Deepset`s, then `Ret`.
    #[verifier::loop_isolation(false)]
    #[verifier::rlimit(100)]
    #[verifier::spinoff_prover]
    fn return_codegen(&mut self, rt: &ReturnStatement) -> (r: Result<(), CompileError>)
        ensures
            cg(
                old(self).snap(),
                final(self).snap(),
                compile_stmt(old(self).snap(), Statement::Return(*rt)),
                r,
            ),
            r is Ok ==> final(self).depth == old(self).depth && final(self).bytecode@.len()
                >= old(self).bytecode@.len() && final(self).locals@.len() >= old(self).locals@.len(),
        decreases *rt,
    {
        if !self.in_function {
            return Err(CompileError::TopLevelReturn);
        }
        match self.expr_codegen(&rt.expression) {
            Err(er) => Err(er),
            Ok(_) => {
                let ghost s1 = self.snap();
                let k = self.locals.len();
                let mut j: usize = k;
                while j > 0
                    invariant
                        j <= k,
                        self.snap() == (CSnap {
                            code: s1.code + deepsets_seq(k as int).take((k - j) as int),
                            ..s1
                        }),
                    decreases j,
                {
                    self.bytecode.push(Opcode::Deepset(j));
                    j = j - 1;
                    proof {
                        assert(deepsets_seq(k as int)[(k - j - 1) as int]
                            == Opcode::Deepset((j + 1) as usize));
                        assert(s1.code + deepsets_seq(k as int).take((k - j) as int)
                            =~= (s1.code + deepsets_seq(k as int).take(
                            (k - j - 1) as int,
                        )).push(Opcode::Deepset((j + 1) as usize)));
                        assert(self.snap() =~= (CSnap {
                            code: s1.code + deepsets_seq(k as int).take((k - j) as int),
                            ..s1
                        }));
                    }
                }
                self.bytecode.push(Opcode::Ret);
                proof {
                    assert(deepsets_seq(k as int).take(k as int) =~= deepsets_seq(
                        k as int,
                    ));
                    assert(self.snap().code =~= s1.code + deepsets_seq(k as int) + seq![
                        Opcode::Ret,
                    ]);
                    let res = compile_stmt(old(self).snap(), Statement::Return(*rt));
                    assert(res is Ok && self.snap() =~= res->Ok_0);
                }
                Ok(())
            },
        }
    }

    /// Lowers an `if`, exactly as the `If` case of [`compile_stmt`]
    /// describes: the condition, a `Jz` placeholder, the branch, the skip
    /// `Jmp`, and both patches.
    #[verifier::loop_isolation(false)]
    #[verifier::rlimit(100)]
    #[verifier::spinoff_prover]
    fn if_codegen(&mut self, i: &IfStatement) -> (r: Result<(), CompileError>)
        ensures
            cg(
                old(self).snap(),
                final(self).snap(),
                compile_stmt(old(self).snap(), Statement::If(*i)),
                r,
            ),
            r is Ok ==> final(self).depth == old(self).depth && final(self).bytecode@.len()
                >= old(self).bytecode@.len(),
            r is Ok && old(self).depth >= 1 ==> final(self).locals@.len()
                >= old(self).locals@.len(),
        decreases *i,
    {
        match self.expr_codegen(&i.condition) {
            Err(er) => Err(er),
            Ok(_) => {
                let jz_idx = self.bytecode.len();
                self.bytecode.push(Opcode::Jz(0));
                let ghost s2 = self.snap();
                match self.stmt_codegen(&*i.if_branch) {
                    Err(er) => Err(er),
                    Ok(_) => {
                        let jmp_idx = self.bytecode.len();
                        self.bytecode.push(Opcode::Jmp(0));
                        self.bytecode[jz_idx] = Opcode::Jz(jmp_idx);
                        let ghost s4 = self.snap();
                        match self.stmt_codegen(&*i.else_branch) {
                            Err(er) => Err(er),
                            Ok(_) => {
                                let end = self.bytecode.len();
                                self.bytecode[jmp_idx] = Opcode::Jmp(end - 1);
                                proof {
                                    let res = compile_stmt(old(self).snap(), Statement::If(*i));
                                    assert(res is Ok && self.snap() =~= res->Ok_0);
                                }
                                Ok(())
                            },
                        }
                    },
                }
            },
        }
    }

    /// Lowers a block, exactly as the `Block` case of [`compile_stmt`]
    /// describes: one level deeper, the statements, then the cleanup
    /// `Pop`s.
    #[verifier::loop_isolation(false)]
    #[verifier::rlimit(100)]
    #[verifier::spinoff_prover]
    fn block_codegen(&mut self, b: &BlockStatement) -> (r: Result<(), CompileError>)
        ensures
            cg(
                old(self).snap(),
                final(self).snap(),
                compile_stmt(old(self).snap(), Statement::Block(*b)),
                r,
            ),
            r is Ok ==> final(self).depth == old(self).depth && final(self).bytecode@.len()
                >= old(self).bytecode@.len(),
            r is Ok && old(self).depth >= 1 ==> final(self).locals@.len()
                >= old(self).locals@.len(),
        decreases *b,
    {
        let base = self.locals.len();
        let saved = self.depth;
        let ghost s_entry = self.snap();
        if self.depth < usize::MAX {
            self.depth = self.depth + 1;
        }
        let ghost s1 = CSnap { depth: bump_depth(s_entry.depth), ..s_entry };
        proof {
            assert(self.snap() =~= s1);
            assert(b.body@.skip(0) =~= b.body@);
        }
        let mut i: usize = 0;
        while i < b.body.len()
            invariant
                i <= b.body@.len(),
                compile_stmts(s1, b.body@) == compile_stmts(
                    self.snap(),
                    b.body@.skip(i as int),
                ),
                self.depth as int == bump_depth(s_entry.depth),
                self.locals@.len() >= base,
                self.bytecode@.len() >= s_entry.code.len(),
            decreases b.body@.len() - i,
        {
            let ghost pre = self.snap();
            let ghost rest = b.body@.skip(i as int);
            proof {
                assert(decreases_to!(*b => b.body));
                assert(decreases_to!(b.body => b.body[i as int]));
            }
            match self.stmt_codegen(&b.body[i]) {
                Ok(_) => {},
                Err(er) => {
                    proof {
                        assert(rest[0] == b.body@[i as int]);
                        assert(compile_stmts(pre, rest) == Err::<CSnap, CompileError>(
                            er,
                        ));
                        assert(compile_stmt(old(self).snap(), Statement::Block(*b)) == Err::<
                            CSnap,
                            CompileError,
                        >(er));
                    }
                    return Err(er);
                },
            }
            i = i + 1;
            proof {
                assert(rest[0] == b.body@[i - 1]);
                assert(rest.drop_first() =~= b.body@.skip(i as int));
            }
        }
        proof {
            assert(b.body@.skip(i as int) =~= Seq::<Statement>::empty());
        }
        let ghost s2 = self.snap();
        let count = self.locals.len() - base;
        let mut p: usize = 0;
        while p < count
            invariant
                p <= count,
                self.snap() == (CSnap {
                    code: s2.code + pops_seq(p as int),
                    ..s2
                }),
            decreases count - p,
        {
            self.bytecode.push(Opcode::Pop);
            p = p + 1;
            proof {
                assert(s2.code + pops_seq(p as int) =~= (s2.code + pops_seq(
                    p - 1,
                )).push(Opcode::Pop));
                assert(self.snap() =~= (CSnap { code: s2.code + pops_seq(p as int), ..s2 }));
            }
        }
        self.locals.truncate(base);
        self.depth = saved;
        proof {
            assert(self.snap().locals =~= s2.locals.take(base as int));
            let res = compile_stmt(old(self).snap(), Statement::Block(*b));
            assert(res is Ok && self.snap() =~= res->Ok_0);
        }
        Ok(())
    }

    /// Compiles a program: the bytecode stream is left in `bytecode`,
    /// exactly as [`compile_stmts`] from the compiler's starting state
    /// describes; the first rejected construct stops compilation with its
    /// error.
    #[verifier::loop_isolation(false)]
    pub fn compile(&mut self, ast: &Vec<Statement>) -> (r: Result<(), CompileError>)
        ensures
            match r {
                Ok(_) => compile_stmts(old(self).snap(), ast@) == Ok::<CSnap, CompileError>(
                    final(self).snap(),
                ),
                Err(e) => compile_stmts(old(self).snap(), ast@) == Err::<CSnap, CompileError>(e),
            },
    {
        proof {
            assert(ast@.skip(0) =~= ast@);
        }
        let mut i: usize = 0;
        while i < ast.len()
            invariant
                i <= ast@.len(),
                compile_stmts(old(self).snap(), ast@) == compile_stmts(
                    self.snap(),
                    ast@.skip(i as int),
                ),
            decreases ast@.len() - i,
        {
            let ghost pre = self.snap();
            let ghost rest = ast@.skip(i as int);
            match self.stmt_codegen(&ast[i]) {
                Ok(_) => {},
                Err(er) => {
                    proof {
                        assert(rest[0] == ast@[i as int]);
                        assert(compile_stmts(pre, rest) == Err::<CSnap, CompileError>(er));
                    }
                    return Err(er);
                },
            }
            i = i + 1;
            proof {
                assert(rest[0] == ast@[i - 1]);
                assert(rest.drop_first() =~= ast@.skip(i as int));
            }
        }
        proof {
            assert(ast@.skip(i as int) =~= Seq::<Statement>::empty());
        }
        Ok(())
    }

    /// The registered header index of `name`, latest definition first.
    pub fn lookup_function(&self, name: &Vec<u8>) -> (r: Option<usize>)
        ensures
            match r {
                Some(v) => lookup_spec(self.snap().funcs, name@) == Some(v),
                None => lookup_spec(self.snap().funcs, name@) == None::<usize>,
            },
    {
        let ghost fv = self.snap().funcs;
        proof {
            lemma_lookup_char(fv, name@);
        }
        let mut i: usize = self.functions.len();
        while i > 0
            invariant
                i <= self.functions@.len(),
                fv == self.snap().funcs,
                forall|j: int| i <= j < fv.len() ==> fv[j].0 != name@,
            decreases i,
        {
            i = i - 1;
            if bytes_eq(&self.functions[i].0, name) {
                let v = self.functions[i].1;
                proof {
                    lemma_lookup_char(fv, name@);
                    assert(fv[i as int].0 == name@ && fv[i as int].1 == v);
                    match lookup_spec(fv, name@) {
                        Some(v0) => {
                            let j = choose|j: int|
                                0 <= j < fv.len() && fv[j].0 == name@ && fv[j].1 == v0 && (
                                forall|j2: int| j < j2 < fv.len() ==> fv[j2].0 != name@);
                            if j < i {
                                assert(fv[i as int].0 != name@);
                            }
                            if j > i {
                                assert(fv[j].0 != name@);
                            }
                        },
                        None => {
                            assert(fv[i as int].0 != name@);
                        },
                    }
                }
                return Some(v);
            }
        }
        proof {
            lemma_lookup_char(fv, name@);
            match lookup_spec(fv, name@) {
                Some(v0) => {
                    let j = choose|j: int|
                        0 <= j < fv.len() && fv[j].0 == name@ && fv[j].1 == v0 && (forall|
                            j2: int,
                        | j < j2 < fv.len() ==> fv[j2].0 != name@);
                    assert(fv[j].0 != name@);
                },
                None => {},
            }
        }
        None
    }
}

} // verus!
