//! The whole pipeline: text to tokens to program to assembly text.

use vstd::prelude::*;

use crate::generator::{expr_code, lemma_distinct_declaration_offsets, slot_of, slot_offset, PROG_POSTLUDE, PROG_PRELUDE, body_code, generate, generated, statement_expr, within_register_limit, GenError};
use crate::lexer::{lexeme_spans, lexed, parse_text, span_kind, token_matches, LexError};
use crate::parser::{
    declared_names, expression_result, Expression, lemma_declared_prefix, lemma_parsed_no_redeclaration, terminal_result, parse_program, parsed, program_result, statement_result,
    statements_scan, ParseError, Statement,
};
use crate::target::Target;
use crate::token::{Token, TokenType};

verus! {

/// A failure of any stage.
#[derive(Debug)]
pub enum CompileError {
    Lex(LexError),
    Parse(ParseError),
    Gen(GenError),
}

impl CompileError {
    pub open spec fn text(self) -> Seq<char> {
        match self {
            CompileError::Lex(e) => e.text(),
            CompileError::Parse(e) => e.text(),
            CompileError::Gen(e) => e.text(),
        }
    }

    pub fn to_string(&self) -> (r: String)
        ensures
            r@ == self.text(),
    {
        match self {
            CompileError::Lex(e) => e.to_string(),
            CompileError::Parse(e) => e.to_string(),
            CompileError::Gen(e) => e.to_string(),
        }
    }
}

/// A parsed expression nests at most half as deep as it has tokens.
pub proof fn lemma_expression_depth(ts: Seq<Token>, declared: Seq<Seq<char>>)
    requires
        expression_result(ts, declared) is Ok,
    ensures
        2 * expression_result(ts, declared)->Ok_0.depth() + 1 <= ts.len(),
    decreases ts.len(),
{
    if ts.len() >= 3 && crate::parser::is_operator_text(ts[1].value@) && ts[1].t_type == TokenType::ArithmeticOp {
        let rest = ts.subrange(2, ts.len() as int);
        lemma_expression_depth(rest, declared);
        let lhs = terminal_result(ts[0], declared)->Ok_0;
        let rhs = expression_result(rest, declared)->Ok_0;
        assert(lhs.depth() == 0);
        assert(expression_result(ts, declared)->Ok_0.depth() == 1 + rhs.depth());
    } else if ts.len() == 1 {
        assert(expression_result(ts, declared)->Ok_0.depth() == 0);
    }
}

/// A parsed statement's expression nests at most half as deep as the statement has tokens.
proof fn lemma_statement_depth(ts: Seq<Token>, declared: Seq<Seq<char>>)
    requires
        ts.len() > 0,
        statement_result(ts, declared) is Ok,
    ensures
        2 * statement_expr(statement_result(ts, declared)->Ok_0).depth() + 1 <= ts.len(),
{
    match ts[0].t_type {
        TokenType::Int => lemma_expression_depth(ts.subrange(3, ts.len() as int), declared),
        TokenType::Variable => lemma_expression_depth(ts.subrange(2, ts.len() as int), declared),
        _ => {},
    }
}

proof fn lemma_scan_within_limit(ts: Seq<Token>, start: int, i: int, done: Seq<Statement>)
    requires
        0 <= start <= i,
        ts.len() <= usize::MAX,
        within_register_limit(done),
        statements_scan(ts, start, i, done) is Ok,
    ensures
        within_register_limit(statements_scan(ts, start, i, done)->Ok_0),
    decreases ts.len() - i,
{
    if i < ts.len() {
        if ts[i].t_type == TokenType::Semi {
            if start != i {
                let st = statement_result(ts.subrange(start, i), declared_names(done))->Ok_0;
                lemma_statement_depth(ts.subrange(start, i), declared_names(done));
                let next = done.push(st);
                assert forall|k: int| 0 <= k < next.len() implies 2 * statement_expr(#[trigger] next[k]).depth() <= usize::MAX by {
                    if k < done.len() {
                        assert(next[k] == done[k]);
                    }
                }
                lemma_scan_within_limit(ts, i + 1, i + 1, next);
            }
        } else {
            lemma_scan_within_limit(ts, start, i + 1, done);
        }
    }
}

/// The expressions of a parsed program nest shallowly enough for the generator.
pub proof fn lemma_parsed_within_limit(ts: Seq<Token>)
    requires
        ts.len() <= usize::MAX,
        program_result(ts) is Ok,
    ensures
        within_register_limit(program_result(ts)->Ok_0),
{
    lemma_scan_within_limit(ts, 0, 0, seq![]);
}

/// `r` is the outcome of compiling `s`: the first stage that fails gives the
/// error; when none fails, the assembly text.
pub open spec fn compiled(s: Seq<char>, r: Result<String, CompileError>) -> bool {
    match r {
        Err(CompileError::Lex(e)) => lexed(s, Err(e)),
        Err(CompileError::Parse(e)) => exists|ts: Vec<Token>|
            lexed(s, Ok(ts)) && program_result(ts@) == Err::<Seq<Statement>, ParseError>(e),
        Err(CompileError::Gen(e)) => exists|ts: Vec<Token>|
            lexed(s, Ok(ts)) && program_result(ts@) is Ok && body_code(program_result(ts@)->Ok_0)
                == Err::<Seq<char>, GenError>(e),
        Ok(text) => exists|ts: Vec<Token>|
            lexed(s, Ok(ts)) && program_result(ts@) is Ok && body_code(program_result(ts@)->Ok_0) is Ok
                && text@ == PROG_PRELUDE@ + body_code(program_result(ts@)->Ok_0)->Ok_0 + PROG_POSTLUDE@,
    }
}

/// Compiles `source` to assembly text for `target`.
pub fn compile(source: &str, target: &Target) -> (r: Result<String, CompileError>)
    ensures
        compiled(source@, r),
{
    let tokens = match parse_text(source) {
        Ok(ts) => ts,
        Err(e) => return Err(CompileError::Lex(e)),
    };
    // The token count bounds how deeply the parsed expressions can nest.
    let count = tokens.len();
    let ghost lexed_tokens = tokens;
    let program = match parse_program(tokens) {
        Ok(p) => p,
        Err(e) => return Err(CompileError::Parse(e)),
    };
    proof {
        assert(lexed_tokens@.len() == count);
        lemma_parsed_within_limit(lexed_tokens@);
    }
    let ghost ss = program.statements@;
    match generate(target, program) {
        Ok(text) => Ok(text),
        Err(e) => {
            proof {
                assert(generated(ss, Err(e)));
            }
            Err(CompileError::Gen(e))
        },
    }
}

/// In a parsed program, wherever the generator stands, the `n`-th declared
/// variable lives at offset `n * 16` below the frame base.
pub proof fn lemma_parsed_declaration_offset(ts: Seq<Token>, i: int, n: nat)
    requires
        program_result(ts) is Ok,
        0 <= i <= program_result(ts)->Ok_0.len(),
        1 <= n <= declared_names(program_result(ts)->Ok_0.take(i)).len(),
    ensures
        ({
            let names = declared_names(program_result(ts)->Ok_0.take(i));
            &&& slot_of(names, names[n - 1]) == Some(n)
            &&& slot_offset(n) == n * 16
        }),
{
    let ss = program_result(ts)->Ok_0;
    let names = declared_names(ss.take(i));
    lemma_parsed_no_redeclaration(ts);
    lemma_declared_prefix(ss, i);
    let all = declared_names(ss);
    assert forall|a: int, b: int| 0 <= a < names.len() && 0 <= b < names.len() && a != b implies names[a] != names[b] by {
        assert(names[a] == all[a]);
        assert(names[b] == all[b]);
    }
    lemma_distinct_declaration_offsets(names, n);
}

/// Two tokens agree in kind, text and position.
pub open spec fn same_token(a: Token, b: Token) -> bool {
    a.t_type == b.t_type && a.value@ == b.value@ && a.location == b.location
}

/// Two token sequences agree token by token.
pub open spec fn same_tokens(x: Seq<Token>, y: Seq<Token>) -> bool {
    x.len() == y.len() && forall|i: int| 0 <= i < x.len() ==> same_token(#[trigger] x[i], y[i])
}

/// Two expressions have the same shape, operators and texts.
pub open spec fn same_expr(a: Expression, b: Expression) -> bool
    decreases a,
{
    match a {
        Expression::ValExpr(x) => b matches Expression::ValExpr(y) && x@ == y@,
        Expression::VarExpr(x) => b matches Expression::VarExpr(y) && x@ == y@,
        Expression::ArithmeticExpr(l, op, r) => match b {
            Expression::ArithmeticExpr(l2, op2, r2) => op == op2 && same_expr(*l, *l2) && same_expr(*r, *r2),
            _ => false,
        },
    }
}

/// Two statements have the same kind, name and expression.
pub open spec fn same_statement(a: Statement, b: Statement) -> bool {
    match a {
        Statement::DeclarationStatement { v_name, expr } => b matches Statement::DeclarationStatement {
            v_name: n2,
            expr: e2,
        } && v_name@ == n2@ && same_expr(expr, e2),
        Statement::AssignmentStatement { v_name, expr } => b matches Statement::AssignmentStatement {
            v_name: n2,
            expr: e2,
        } && v_name@ == n2@ && same_expr(expr, e2),
    }
}

/// Two statement sequences agree statement by statement.
pub open spec fn same_statements(x: Seq<Statement>, y: Seq<Statement>) -> bool {
    x.len() == y.len() && forall|i: int| 0 <= i < x.len() ==> same_statement(#[trigger] x[i], y[i])
}

proof fn lemma_terminal_agree(a: Token, b: Token, d: Seq<Seq<char>>)
    requires
        same_token(a, b),
    ensures
        terminal_result(a, d) is Ok <==> terminal_result(b, d) is Ok,
        terminal_result(a, d) is Ok ==> same_expr(terminal_result(a, d)->Ok_0, terminal_result(b, d)->Ok_0),
{
}

proof fn lemma_expression_agree(x: Seq<Token>, y: Seq<Token>, d: Seq<Seq<char>>)
    requires
        same_tokens(x, y),
    ensures
        expression_result(x, d) is Ok <==> expression_result(y, d) is Ok,
        expression_result(x, d) is Ok ==> same_expr(expression_result(x, d)->Ok_0, expression_result(y, d)->Ok_0),
    decreases x.len(),
{
    if x.len() >= 1 {
        assert(same_token(x[0], y[0]));
        lemma_terminal_agree(x[0], y[0], d);
    }
    if x.len() >= 2 {
        assert(same_token(x[1], y[1]));
    }
    if x.len() >= 3 {
        let xr = x.subrange(2, x.len() as int);
        let yr = y.subrange(2, y.len() as int);
        assert forall|i: int| 0 <= i < xr.len() implies same_token(#[trigger] xr[i], yr[i]) by {
            assert(same_token(x[i + 2], y[i + 2]));
        }
        lemma_expression_agree(xr, yr, d);
    }
}

proof fn lemma_statement_agree(x: Seq<Token>, y: Seq<Token>, d: Seq<Seq<char>>)
    requires
        x.len() > 0,
        same_tokens(x, y),
    ensures
        statement_result(x, d) is Ok <==> statement_result(y, d) is Ok,
        statement_result(x, d) is Ok ==> same_statement(statement_result(x, d)->Ok_0, statement_result(y, d)->Ok_0),
{
    assert(same_token(x[0], y[0]));
    if x.len() >= 2 {
        assert(same_token(x[1], y[1]));
    }
    if x.len() >= 3 {
        assert(same_token(x[2], y[2]));
    }
    let k: int = if x[0].t_type == TokenType::Int { 3 } else { 2 };
    if x.len() > k {
        let xr = x.subrange(k, x.len() as int);
        let yr = y.subrange(k, y.len() as int);
        assert forall|i: int| 0 <= i < xr.len() implies same_token(#[trigger] xr[i], yr[i]) by {
            assert(same_token(x[i + k], y[i + k]));
        }
        lemma_expression_agree(xr, yr, d);
    }
}

proof fn lemma_declared_agree(x: Seq<Statement>, y: Seq<Statement>)
    requires
        same_statements(x, y),
    ensures
        declared_names(x) == declared_names(y),
    decreases x.len(),
{
    if x.len() > 0 {
        let xs = x.drop_last();
        let ys = y.drop_last();
        assert forall|i: int| 0 <= i < xs.len() implies same_statement(#[trigger] xs[i], ys[i]) by {
            assert(same_statement(x[i], y[i]));
        }
        lemma_declared_agree(xs, ys);
        assert(same_statement(x[x.len() - 1], y[y.len() - 1]));
    }
}

proof fn lemma_scan_agree(x: Seq<Token>, y: Seq<Token>, start: int, i: int, dx: Seq<Statement>, dy: Seq<Statement>)
    requires
        0 <= start <= i,
        same_tokens(x, y),
        same_statements(dx, dy),
    ensures
        statements_scan(x, start, i, dx) is Ok <==> statements_scan(y, start, i, dy) is Ok,
        statements_scan(x, start, i, dx) is Ok ==> same_statements(
            statements_scan(x, start, i, dx)->Ok_0,
            statements_scan(y, start, i, dy)->Ok_0,
        ),
    decreases x.len() - i,
{
    if i < x.len() {
        assert(same_token(x[i], y[i]));
        if x[i].t_type == TokenType::Semi {
            if start != i {
                let cx = x.subrange(start, i);
                let cy = y.subrange(start, i);
                assert forall|j: int| 0 <= j < cx.len() implies same_token(#[trigger] cx[j], cy[j]) by {
                    assert(same_token(x[j + start], y[j + start]));
                }
                lemma_declared_agree(dx, dy);
                lemma_statement_agree(cx, cy, declared_names(dx));
                if statement_result(cx, declared_names(dx)) is Ok {
                    let nx = dx.push(statement_result(cx, declared_names(dx))->Ok_0);
                    let ny = dy.push(statement_result(cy, declared_names(dy))->Ok_0);
                    assert forall|j: int| 0 <= j < nx.len() implies same_statement(#[trigger] nx[j], ny[j]) by {
                        if j < dx.len() {
                            assert(same_statement(dx[j], dy[j]));
                        }
                    }
                    lemma_scan_agree(x, y, i + 1, i + 1, nx, ny);
                }
            }
        } else {
            lemma_scan_agree(x, y, start, i + 1, dx, dy);
        }
    }
}

proof fn lemma_expr_code_agree(names: Seq<Seq<char>>, a: Expression, b: Expression, reg: nat)
    requires
        same_expr(a, b),
    ensures
        expr_code(names, a, reg) is Ok <==> expr_code(names, b, reg) is Ok,
        expr_code(names, a, reg) is Ok ==> expr_code(names, a, reg)->Ok_0 == expr_code(names, b, reg)->Ok_0,
    decreases a,
{
    match a {
        Expression::ArithmeticExpr(l, _, r) => match b {
            Expression::ArithmeticExpr(l2, _, r2) => {
                lemma_expr_code_agree(names, *l, *l2, reg + 1);
                lemma_expr_code_agree(names, *r, *r2, reg + 2);
            },
            _ => {},
        },
        _ => {},
    }
}

proof fn lemma_body_agree(x: Seq<Statement>, y: Seq<Statement>)
    requires
        same_statements(x, y),
    ensures
        body_code(x) is Ok <==> body_code(y) is Ok,
        body_code(x) is Ok ==> body_code(x)->Ok_0 == body_code(y)->Ok_0,
    decreases x.len(),
{
    if x.len() > 0 {
        let xs = x.drop_last();
        let ys = y.drop_last();
        assert forall|i: int| 0 <= i < xs.len() implies same_statement(#[trigger] xs[i], ys[i]) by {
            assert(same_statement(x[i], y[i]));
        }
        lemma_body_agree(xs, ys);
        lemma_declared_agree(xs, ys);
        let last_x = x[x.len() - 1];
        let last_y = y[y.len() - 1];
        assert(same_statement(last_x, last_y));
        lemma_expr_code_agree(declared_names(xs), statement_expr(last_x), statement_expr(last_y), 0);
    }
}

/// Compiling the same source twice gives the same outcome: both succeed with
/// identical assembly text, or both fail.
pub proof fn lemma_compile_deterministic(s: Seq<char>, r1: Result<String, CompileError>, r2: Result<String, CompileError>)
    requires
        compiled(s, r1),
        compiled(s, r2),
    ensures
        r1 is Ok <==> r2 is Ok,
        r1 is Ok && r2 is Ok ==> r1->Ok_0@ == r2->Ok_0@,
{
    if r1 is Ok {
        let t1 = choose|ts: Vec<Token>| lexed(s, Ok(ts)) && program_result(ts@) is Ok && body_code(program_result(ts@)->Ok_0) is Ok
            && r1->Ok_0@ == PROG_PRELUDE@ + body_code(program_result(ts@)->Ok_0)->Ok_0 + PROG_POSTLUDE@;
        lemma_other_outcome_agrees(s, t1, r2);
        if r2 is Ok {
            let t2 = choose|ts: Vec<Token>| lexed(s, Ok(ts)) && program_result(ts@) is Ok && body_code(program_result(ts@)->Ok_0) is Ok
                && r2->Ok_0@ == PROG_PRELUDE@ + body_code(program_result(ts@)->Ok_0)->Ok_0 + PROG_POSTLUDE@;
            lemma_pipeline_agree(s, t1, t2);
        }
    } else if r2 is Ok {
        let t2 = choose|ts: Vec<Token>| lexed(s, Ok(ts)) && program_result(ts@) is Ok && body_code(program_result(ts@)->Ok_0) is Ok
            && r2->Ok_0@ == PROG_PRELUDE@ + body_code(program_result(ts@)->Ok_0)->Ok_0 + PROG_POSTLUDE@;
        lemma_other_outcome_agrees(s, t2, r1);
    }
}

/// Two successful lexings of one text parse and generate alike.
proof fn lemma_pipeline_agree(s: Seq<char>, t1: Vec<Token>, t2: Vec<Token>)
    requires
        lexed(s, Ok(t1)),
        lexed(s, Ok(t2)),
    ensures
        program_result(t1@) is Ok <==> program_result(t2@) is Ok,
        program_result(t1@) is Ok ==> (body_code(program_result(t1@)->Ok_0) is Ok <==> body_code(
            program_result(t2@)->Ok_0,
        ) is Ok),
        program_result(t1@) is Ok && body_code(program_result(t1@)->Ok_0) is Ok ==> body_code(
            program_result(t1@)->Ok_0,
        )->Ok_0 == body_code(program_result(t2@)->Ok_0)->Ok_0,
{
    let spans = lexeme_spans(s);
    assert forall|i: int| 0 <= i < t1@.len() implies same_token(#[trigger] t1@[i], t2@[i]) by {
        assert(token_matches(t1@[i], s, spans[i]));
        assert(token_matches(t2@[i], s, spans[i]));
    }
    lemma_scan_agree(t1@, t2@, 0, 0, seq![], seq![]);
    if program_result(t1@) is Ok {
        lemma_body_agree(program_result(t1@)->Ok_0, program_result(t2@)->Ok_0);
    }
}

/// When one outcome for `s` succeeded with the tokens `t`, any outcome for `s` succeeds.
proof fn lemma_other_outcome_agrees(s: Seq<char>, t: Vec<Token>, r: Result<String, CompileError>)
    requires
        lexed(s, Ok(t)),
        program_result(t@) is Ok,
        body_code(program_result(t@)->Ok_0) is Ok,
        compiled(s, r),
    ensures
        r is Ok,
{
    match r {
        Err(CompileError::Lex(e)) => {
            let spans = lexeme_spans(s);
            let k = choose|k: int| 0 <= k < spans.len() && span_kind(s, #[trigger] spans[k]) == TokenType::Unknown
                && (forall|j: int| 0 <= j < k ==> span_kind(s, #[trigger] spans[j]) != TokenType::Unknown)
                && token_matches(e->InvalidToken_0, s, spans[k]);
            assert(span_kind(s, spans[k]) != TokenType::Unknown);
        },
        Err(CompileError::Parse(e)) => {
            let t2 = choose|ts: Vec<Token>| lexed(s, Ok(ts)) && program_result(ts@) == Err::<Seq<Statement>, ParseError>(e);
            lemma_pipeline_agree(s, t, t2);
        },
        Err(CompileError::Gen(e)) => {
            let t2 = choose|ts: Vec<Token>| lexed(s, Ok(ts)) && program_result(ts@) is Ok && body_code(program_result(ts@)->Ok_0)
                == Err::<Seq<char>, GenError>(e);
            lemma_pipeline_agree(s, t, t2);
        },
        Ok(_) => {},
    }
}

} // verus!
