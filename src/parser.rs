//! The parser: splits tokens into `;`-terminated statements, parses each by
//! recursive descent, and checks declare-before-use against the names
//! declared so far.
//!
//! Grammar, terminals in upper case:
//!
//! ```text
//! Program              = { Statement, SEMI }
//! Statement            = DeclarationStatement | AssignmentStatement
//! DeclarationStatement = INT, VARIABLE, EQ, Expression
//! AssignmentStatement  = VARIABLE, EQ, Expression
//! Expression           = VALUE | VARIABLE | (VALUE | VARIABLE), ARITHMETIC_OP, Expression
//! ```
//!
//! An arithmetic expression takes everything after its operator as its right
//! operand, so `a - b - c` is `a - (b - c)`.

use vstd::prelude::*;

use crate::patterns::{is_value_text, is_variable_text, matches_value, matches_variable};
use crate::token::{Token, TokenType};

verus! {

/// Why a token sequence is not a program. Each variant holds the offending token.
#[derive(Debug)]
pub enum ParseError {
    InvalidStatement(Token),
    MissingSemicolon(Token),
    EmptyStatement(Token),
    UnexpectedToken(Token, TokenType),
    RedeclaringVariable(Token),
    UndefinedVariable(Token),
    InvalidExpression(Token),
}

impl ParseError {
    pub open spec fn text(self) -> Seq<char> {
        match self {
            ParseError::InvalidStatement(x) => "Unable to parse statement starting from token "@ + x.text(),
            ParseError::EmptyStatement(x) => "Found empty statement after token "@ + x.text(),
            ParseError::UnexpectedToken(x, expected) => "Encountered unexpected token: "@ + x.text()
                + ", expected token with type: "@ + expected.name(),
            ParseError::MissingSemicolon(x) => "No semicolon found after statement starting with: "@ + x.text(),
            ParseError::RedeclaringVariable(x) => "Attempted to redeclare variable: "@ + x.text(),
            ParseError::UndefinedVariable(x) => "Undefined variable: "@ + x.text(),
            ParseError::InvalidExpression(x) => "Unable to parse expression starting from token "@ + x.text(),
        }
    }

    pub fn to_string(&self) -> (r: String)
        ensures
            r@ == self.text(),
    {
        match self {
            ParseError::InvalidStatement(x) => {
                let mut out = String::from_str("Unable to parse statement starting from token ");
                out.append(x.to_string().as_str());
                out
            },
            ParseError::EmptyStatement(x) => {
                let mut out = String::from_str("Found empty statement after token ");
                out.append(x.to_string().as_str());
                out
            },
            ParseError::UnexpectedToken(x, expected) => {
                let mut out = String::from_str("Encountered unexpected token: ");
                out.append(x.to_string().as_str());
                out.append(", expected token with type: ");
                out.append(expected.to_string().as_str());
                out
            },
            ParseError::MissingSemicolon(x) => {
                let mut out = String::from_str("No semicolon found after statement starting with: ");
                out.append(x.to_string().as_str());
                out
            },
            ParseError::RedeclaringVariable(x) => {
                let mut out = String::from_str("Attempted to redeclare variable: ");
                out.append(x.to_string().as_str());
                out
            },
            ParseError::UndefinedVariable(x) => {
                let mut out = String::from_str("Undefined variable: ");
                out.append(x.to_string().as_str());
                out
            },
            ParseError::InvalidExpression(x) => {
                let mut out = String::from_str("Unable to parse expression starting from token ");
                out.append(x.to_string().as_str());
                out
            },
        }
    }
}

/// An arithmetic operator.
#[derive(Debug, Clone, Copy, PartialEq, Eq, Structural)]
pub enum Operator {
    Add,
    Sub,
}

/// The operator written as `text`, if any.
pub open spec fn operator_of(text: Seq<char>) -> Option<Operator> {
    if text == "+"@ {
        Some(Operator::Add)
    } else if text == "-"@ {
        Some(Operator::Sub)
    } else {
        None
    }
}

impl Operator {
    /// The operator that `t` spells, if any.
    pub fn from_token(t: &Token) -> (r: Option<Operator>)
        ensures
            r == operator_of(t.value@),
    {
        let plus = String::from_str("+");
        let minus = String::from_str("-");
        if t.value == plus {
            Some(Operator::Add)
        } else if t.value == minus {
            Some(Operator::Sub)
        } else {
            None
        }
    }

    /// The AArch64 mnemonic of the operator.
    pub open spec fn mnemonic(self) -> Seq<char> {
        match self {
            Operator::Add => "add"@,
            Operator::Sub => "sub"@,
        }
    }

    pub fn to_arm_command(&self) -> (r: String)
        ensures
            r@ == self.mnemonic(),
    {
        match self {
            Operator::Add => String::from_str("add"),
            Operator::Sub => String::from_str("sub"),
        }
    }

    /// The operator's symbol.
    pub open spec fn symbol(self) -> Seq<char> {
        match self {
            Operator::Add => "+"@,
            Operator::Sub => "-"@,
        }
    }

    pub fn to_string(&self) -> (r: String)
        ensures
            r@ == self.symbol(),
    {
        match self {
            Operator::Add => String::from_str("+"),
            Operator::Sub => String::from_str("-"),
        }
    }
}

/// An expression: a literal, a variable, or an operator applied to two operands.
#[derive(Debug)]
pub enum Expression {
    ValExpr(String),
    VarExpr(String),
    ArithmeticExpr(Box<Expression>, Operator, Box<Expression>),
}

impl Expression {
    /// The nesting depth of operators.
    pub open spec fn depth(self) -> nat
        decreases self,
    {
        match self {
            Expression::ArithmeticExpr(l, _, r) => {
                let dl = l.depth();
                let dr = r.depth();
                1 + if dl >= dr { dl } else { dr }
            },
            _ => 0,
        }
    }

    /// The expression written out, operands and operator separated by spaces.
    pub open spec fn text(self) -> Seq<char>
        decreases self,
    {
        match self {
            Expression::ValExpr(x) => x@,
            Expression::VarExpr(x) => x@,
            Expression::ArithmeticExpr(l, op, r) => l.text() + " "@ + op.symbol() + " "@ + r.text(),
        }
    }

    /// A copy of this expression, equal to it.
    pub fn duplicate(&self) -> (r: Expression)
        ensures
            r == *self,
        decreases self,
    {
        match self {
            Expression::ValExpr(x) => Expression::ValExpr(x.clone()),
            Expression::VarExpr(x) => Expression::VarExpr(x.clone()),
            Expression::ArithmeticExpr(l, op, r) => Expression::ArithmeticExpr(
                Box::new(l.duplicate()),
                *op,
                Box::new(r.duplicate()),
            ),
        }
    }

    pub fn to_string(&self) -> (r: String)
        ensures
            r@ == self.text(),
        decreases self,
    {
        match self {
            Expression::ValExpr(x) => x.clone(),
            Expression::VarExpr(x) => x.clone(),
            Expression::ArithmeticExpr(l, op, r) => {
                let mut out = l.to_string();
                out.append(" ");
                out.append(op.to_string().as_str());
                out.append(" ");
                out.append(r.to_string().as_str());
                out
            },
        }
    }
}

/// A statement: a declaration of a new variable, or an assignment to a declared one.
#[derive(Debug)]
pub enum Statement {
    DeclarationStatement { v_name: String, expr: Expression },
    AssignmentStatement { v_name: String, expr: Expression },
}

impl Statement {
    pub open spec fn text(self) -> Seq<char> {
        match self {
            Statement::DeclarationStatement { v_name, expr } => "Declaring "@ + v_name@ + " with value "@
                + expr.text(),
            Statement::AssignmentStatement { v_name, expr } => "Assigning "@ + v_name@ + " to value "@
                + expr.text(),
        }
    }

    pub fn to_string(&self) -> (r: String)
        ensures
            r@ == self.text(),
    {
        match self {
            Statement::DeclarationStatement { v_name, expr } => {
                let mut out = String::from_str("Declaring ");
                out.append(v_name.as_str());
                out.append(" with value ");
                out.append(expr.to_string().as_str());
                out
            },
            Statement::AssignmentStatement { v_name, expr } => {
                let mut out = String::from_str("Assigning ");
                out.append(v_name.as_str());
                out.append(" to value ");
                out.append(expr.to_string().as_str());
                out
            },
        }
    }
}

/// A parsed program: its statements in execution order.
#[derive(Debug)]
pub struct Program {
    pub statements: Vec<Statement>,
}

/// `Program: ` and then each statement, each on a line of its own.
pub open spec fn statements_text(ss: Seq<Statement>) -> Seq<char>
    decreases ss.len(),
{
    if ss.len() == 0 {
        "Program: \n"@
    } else {
        statements_text(ss.drop_last()) + ss.last().text() + "\n"@
    }
}

impl Program {
    pub fn to_string(&self) -> (r: String)
        ensures
            r@ == statements_text(self.statements@),
    {
        let mut out = String::from_str("Program: \n");
        let mut i: usize = 0;
        proof {
            assert(self.statements@.take(0) =~= Seq::<Statement>::empty());
        }
        while i < self.statements.len()
            invariant
                i <= self.statements@.len(),
                out@ == statements_text(self.statements@.take(i as int)),
            decreases self.statements.len() - i,
        {
            proof {
                assert(self.statements@.take(i + 1).drop_last() =~= self.statements@.take(i as int));
            }
            out.append(self.statements[i].to_string().as_str());
            out.append("\n");
            i = i + 1;
        }
        proof {
            assert(self.statements@.take(i as int) =~= self.statements@);
        }
        out
    }
}


/// The text of each name, in order.
pub open spec fn names_view(names: Seq<String>) -> Seq<Seq<char>> {
    names.map_values(|n: String| n@)
}

/// The names that the declarations among `ss` introduce, in order.
pub open spec fn declared_names(ss: Seq<Statement>) -> Seq<Seq<char>>
    decreases ss.len(),
{
    if ss.len() == 0 {
        seq![]
    } else {
        let earlier = declared_names(ss.drop_last());
        match ss.last() {
            Statement::DeclarationStatement { v_name, .. } => earlier.push(v_name@),
            Statement::AssignmentStatement { .. } => earlier,
        }
    }
}

/// Whether `text` is an arithmetic operator symbol.
pub open spec fn is_operator_text(text: Seq<char>) -> bool {
    text == "+"@ || text == "-"@
}

/// A single token read as an expression: a literal, or a variable that is
/// already declared.
pub open spec fn terminal_result(t: Token, declared: Seq<Seq<char>>) -> Result<Expression, ParseError> {
    if is_value_text(t.value@) {
        Ok(Expression::ValExpr(t.value))
    } else if is_variable_text(t.value@) {
        if declared.contains(t.value@) {
            Ok(Expression::VarExpr(t.value))
        } else {
            Err(ParseError::UndefinedVariable(t))
        }
    } else {
        Err(ParseError::InvalidExpression(t))
    }
}

/// The tokens `ts` read as an expression. A single token is a terminal; a
/// terminal followed by an operator takes the rest as its right operand.
pub open spec fn expression_result(ts: Seq<Token>, declared: Seq<Seq<char>>) -> Result<Expression, ParseError>
    decreases ts.len(),
{
    if ts.len() == 1 {
        terminal_result(ts[0], declared)
    } else if ts.len() >= 2 && is_operator_text(ts[1].value@) {
        match terminal_result(ts[0], declared) {
            Err(e) => Err(e),
            Ok(lhs) => {
                if ts[1].t_type != TokenType::ArithmeticOp {
                    Err(ParseError::UnexpectedToken(ts[1], TokenType::ArithmeticOp))
                } else if ts.len() == 2 {
                    Err(ParseError::InvalidExpression(ts[1]))
                } else {
                    match expression_result(ts.subrange(2, ts.len() as int), declared) {
                        Err(e) => Err(e),
                        Ok(rhs) => Ok(
                            Expression::ArithmeticExpr(
                                Box::new(lhs),
                                operator_of(ts[1].value@)->0,
                                Box::new(rhs),
                            ),
                        ),
                    }
                }
            },
        }
    } else {
        Err(ParseError::InvalidExpression(ts[0]))
    }
}

/// `Int Variable Eq Expression`, checked position by position; the name must be new.
pub open spec fn declaration_result(ts: Seq<Token>, declared: Seq<Seq<char>>) -> Result<Statement, ParseError> {
    if ts[0].t_type != TokenType::Int {
        Err(ParseError::UnexpectedToken(ts[0], TokenType::Int))
    } else if ts.len() >= 2 && ts[1].t_type != TokenType::Variable {
        Err(ParseError::UnexpectedToken(ts[1], TokenType::Variable))
    } else if ts.len() >= 3 && ts[2].t_type != TokenType::Eq {
        Err(ParseError::UnexpectedToken(ts[2], TokenType::Eq))
    } else if ts.len() < 4 {
        Err(ParseError::InvalidStatement(ts[0]))
    } else {
        match expression_result(ts.subrange(3, ts.len() as int), declared) {
            Err(e) => Err(e),
            Ok(expr) => {
                if declared.contains(ts[1].value@) {
                    Err(ParseError::RedeclaringVariable(ts[1]))
                } else {
                    Ok(Statement::DeclarationStatement { v_name: ts[1].value, expr })
                }
            },
        }
    }
}

/// `Variable Eq Expression`, checked position by position; the name must be declared already.
pub open spec fn assignment_result(ts: Seq<Token>, declared: Seq<Seq<char>>) -> Result<Statement, ParseError> {
    if ts[0].t_type != TokenType::Variable {
        Err(ParseError::UnexpectedToken(ts[0], TokenType::Variable))
    } else if ts.len() >= 2 && ts[1].t_type != TokenType::Eq {
        Err(ParseError::UnexpectedToken(ts[1], TokenType::Eq))
    } else if ts.len() < 3 {
        Err(ParseError::InvalidStatement(ts[0]))
    } else {
        match expression_result(ts.subrange(2, ts.len() as int), declared) {
            Err(e) => Err(e),
            Ok(expr) => {
                if !declared.contains(ts[0].value@) {
                    Err(ParseError::UndefinedVariable(ts[0]))
                } else {
                    Ok(Statement::AssignmentStatement { v_name: ts[0].value, expr })
                }
            },
        }
    }
}

/// One statement, chosen by its first token.
pub open spec fn statement_result(ts: Seq<Token>, declared: Seq<Seq<char>>) -> Result<Statement, ParseError> {
    match ts[0].t_type {
        TokenType::Int => declaration_result(ts, declared),
        TokenType::Variable => assignment_result(ts, declared),
        _ => Err(ParseError::InvalidStatement(ts[0])),
    }
}

/// The scan over `ts` from position `i`, with the current statement begun at
/// `start` and the statements `done` parsed before it.
pub open spec fn statements_scan(ts: Seq<Token>, start: int, i: int, done: Seq<Statement>) -> Result<Seq<Statement>, ParseError>
    decreases ts.len() - i,
{
    if i >= ts.len() {
        if start < i {
            Err(ParseError::MissingSemicolon(ts[start]))
        } else {
            Ok(done)
        }
    } else if ts[i].t_type == TokenType::Semi {
        if start == i {
            Err(ParseError::EmptyStatement(ts[i]))
        } else {
            match statement_result(ts.subrange(start, i), declared_names(done)) {
                Err(e) => Err(e),
                Ok(st) => statements_scan(ts, i + 1, i + 1, done.push(st)),
            }
        }
    } else {
        statements_scan(ts, start, i + 1, done)
    }
}

/// The statements of `ts`, or the first error met scanning it left to right.
pub open spec fn program_result(ts: Seq<Token>) -> Result<Seq<Statement>, ParseError> {
    statements_scan(ts, 0, 0, seq![])
}

/// Whether `name` is in `scope`.
fn in_scope(scope: &Vec<String>, name: &String) -> (r: bool)
    ensures
        r == names_view(scope@).contains(name@),
{
    let mut k: usize = 0;
    while k < scope.len()
        invariant
            k <= scope@.len(),
            forall|j: int| 0 <= j < k ==> scope@[j]@ != name@,
        decreases scope.len() - k,
    {
        if scope[k] == *name {
            proof {
                assert(names_view(scope@)[k as int] == name@);
            }
            return true;
        }
        k = k + 1;
    }
    proof {
        if names_view(scope@).contains(name@) {
            let j = choose|j: int| 0 <= j < names_view(scope@).len() && names_view(scope@)[j] == name@;
            assert(scope@[j]@ == name@);
        }
    }
    false
}

fn expect_token_type(actual: &Token, expected: TokenType) -> (r: Result<(), ParseError>)
    ensures
        actual.t_type == expected ==> r is Ok,
        actual.t_type != expected ==> r == Err::<(), ParseError>(ParseError::UnexpectedToken(*actual, expected)),
{
    if actual.t_type != expected {
        Err(ParseError::UnexpectedToken(actual.duplicate(), expected))
    } else {
        Ok(())
    }
}

fn is_arithmetic_operator(t: &Token) -> (r: bool)
    ensures
        r == is_operator_text(t.value@),
{
    let plus = String::from_str("+");
    let minus = String::from_str("-");
    t.value == plus || t.value == minus
}

fn handle_single_element_expr(token: &Token, scope: &Vec<String>) -> (r: Result<Expression, ParseError>)
    ensures
        r == terminal_result(*token, names_view(scope@)),
{
    if matches_value(token.value.as_str()) {
        Ok(Expression::ValExpr(token.value.clone()))
    } else if matches_variable(token.value.as_str()) {
        if in_scope(scope, &token.value) {
            Ok(Expression::VarExpr(token.value.clone()))
        } else {
            Err(ParseError::UndefinedVariable(token.duplicate()))
        }
    } else {
        Err(ParseError::InvalidExpression(token.duplicate()))
    }
}

/// The tokens `tokens[lo..hi)` read as an expression.
fn expect_expression(tokens: &Vec<Token>, lo: usize, hi: usize, scope: &Vec<String>) -> (r: Result<Expression, ParseError>)
    requires
        lo < hi <= tokens@.len(),
    ensures
        r == expression_result(tokens@.subrange(lo as int, hi as int), names_view(scope@)),
    decreases hi - lo,
{
    let ghost ts = tokens@.subrange(lo as int, hi as int);
    if hi - lo == 1 {
        handle_single_element_expr(&tokens[lo], scope)
    } else if is_arithmetic_operator(&tokens[lo + 1]) {
        let lhs = match handle_single_element_expr(&tokens[lo], scope) {
            Ok(e) => e,
            Err(e) => return Err(e),
        };
        match expect_token_type(&tokens[lo + 1], TokenType::ArithmeticOp) {
            Ok(()) => {},
            Err(e) => return Err(e),
        }
        if hi - lo == 2 {
            return Err(ParseError::InvalidExpression(tokens[lo + 1].duplicate()));
        }
        let rhs = match expect_expression(tokens, lo + 2, hi, scope) {
            Ok(e) => e,
            Err(e) => {
                proof {
                    assert(ts.subrange(2, ts.len() as int) =~= tokens@.subrange(lo + 2, hi as int));
                }
                return Err(e);
            },
        };
        proof {
            assert(ts.subrange(2, ts.len() as int) =~= tokens@.subrange(lo + 2, hi as int));
            reveal_strlit("+");
            reveal_strlit("-");
        }
        let op = Operator::from_token(&tokens[lo + 1]).unwrap();
        Ok(Expression::ArithmeticExpr(Box::new(lhs), op, Box::new(rhs)))
    } else {
        Err(ParseError::InvalidExpression(tokens[lo].duplicate()))
    }
}

fn parse_declaration_statement(tokens: &Vec<Token>, lo: usize, hi: usize, scope: &Vec<String>) -> (r: Result<Statement, ParseError>)
    requires
        lo < hi <= tokens@.len(),
    ensures
        r == declaration_result(tokens@.subrange(lo as int, hi as int), names_view(scope@)),
{
    let ghost ts = tokens@.subrange(lo as int, hi as int);
    match expect_token_type(&tokens[lo], TokenType::Int) {
        Ok(()) => {},
        Err(e) => return Err(e),
    }
    if hi - lo >= 2 {
        match expect_token_type(&tokens[lo + 1], TokenType::Variable) {
            Ok(()) => {},
            Err(e) => return Err(e),
        }
    }
    if hi - lo >= 3 {
        match expect_token_type(&tokens[lo + 2], TokenType::Eq) {
            Ok(()) => {},
            Err(e) => return Err(e),
        }
    }
    if hi - lo < 4 {
        return Err(ParseError::InvalidStatement(tokens[lo].duplicate()));
    }
    proof {
        assert(ts.subrange(3, ts.len() as int) =~= tokens@.subrange(lo + 3, hi as int));
    }
    let expr = match expect_expression(tokens, lo + 3, hi, scope) {
        Ok(e) => e,
        Err(e) => return Err(e),
    };
    if in_scope(scope, &tokens[lo + 1].value) {
        return Err(ParseError::RedeclaringVariable(tokens[lo + 1].duplicate()));
    }
    Ok(Statement::DeclarationStatement { v_name: tokens[lo + 1].value.clone(), expr })
}

fn parse_assignment_statement(tokens: &Vec<Token>, lo: usize, hi: usize, scope: &Vec<String>) -> (r: Result<Statement, ParseError>)
    requires
        lo < hi <= tokens@.len(),
    ensures
        r == assignment_result(tokens@.subrange(lo as int, hi as int), names_view(scope@)),
{
    let ghost ts = tokens@.subrange(lo as int, hi as int);
    match expect_token_type(&tokens[lo], TokenType::Variable) {
        Ok(()) => {},
        Err(e) => return Err(e),
    }
    if hi - lo >= 2 {
        match expect_token_type(&tokens[lo + 1], TokenType::Eq) {
            Ok(()) => {},
            Err(e) => return Err(e),
        }
    }
    if hi - lo < 3 {
        return Err(ParseError::InvalidStatement(tokens[lo].duplicate()));
    }
    proof {
        assert(ts.subrange(2, ts.len() as int) =~= tokens@.subrange(lo + 2, hi as int));
    }
    let expr = match expect_expression(tokens, lo + 2, hi, scope) {
        Ok(e) => e,
        Err(e) => return Err(e),
    };
    if !in_scope(scope, &tokens[lo].value) {
        return Err(ParseError::UndefinedVariable(tokens[lo].duplicate()));
    }
    Ok(Statement::AssignmentStatement { v_name: tokens[lo].value.clone(), expr })
}

fn parse_statement(tokens: &Vec<Token>, lo: usize, hi: usize, scope: &Vec<String>) -> (r: Result<Statement, ParseError>)
    requires
        lo < hi <= tokens@.len(),
    ensures
        r == statement_result(tokens@.subrange(lo as int, hi as int), names_view(scope@)),
{
    match tokens[lo].t_type {
        TokenType::Int => parse_declaration_statement(tokens, lo, hi, scope),
        TokenType::Variable => parse_assignment_statement(tokens, lo, hi, scope),
        _ => Err(ParseError::InvalidStatement(tokens[lo].duplicate())),
    }
}

/// `r` is the outcome of parsing `ts`.
pub open spec fn parsed(ts: Seq<Token>, r: Result<Program, ParseError>) -> bool {
    match r {
        Ok(p) => program_result(ts) == Ok::<Seq<Statement>, ParseError>(p.statements@),
        Err(e) => program_result(ts) == Err::<Seq<Statement>, ParseError>(e),
    }
}

/// Splits the tokens at each `;` and parses each statement in turn, stopping
/// at the first error.
fn parse_statements(tokens: Vec<Token>) -> (r: Result<Vec<Statement>, ParseError>)
    ensures
        match r {
            Ok(ss) => program_result(tokens@) == Ok::<Seq<Statement>, ParseError>(ss@),
            Err(e) => program_result(tokens@) == Err::<Seq<Statement>, ParseError>(e),
        },
{
    let mut start: usize = 0;
    let mut end: usize = 0;
    let mut statements: Vec<Statement> = Vec::new();
    let mut scope: Vec<String> = Vec::new();
    while end < tokens.len()
        invariant
            start <= end <= tokens@.len(),
            names_view(scope@) == declared_names(statements@),
            statements_scan(tokens@, start as int, end as int, statements@) == program_result(tokens@),
        decreases tokens.len() - end,
    {
        if tokens[end].t_type == TokenType::Semi {
            if start == end {
                return Err(ParseError::EmptyStatement(tokens[end].duplicate()));
            }
            let statement = match parse_statement(&tokens, start, end, &scope) {
                Ok(st) => st,
                Err(e) => return Err(e),
            };
            let ghost before = statements@;
            match &statement {
                Statement::DeclarationStatement { v_name, .. } => {
                    scope.push(v_name.clone());
                },
                Statement::AssignmentStatement { .. } => {},
            }
            statements.push(statement);
            proof {
                assert(statements@.drop_last() =~= before);
                assert(names_view(scope@) =~= declared_names(statements@));
            }
            end = end + 1;
            start = end;
        } else {
            end = end + 1;
        }
    }
    if start != end {
        Err(ParseError::MissingSemicolon(tokens[start].duplicate()))
    } else {
        Ok(statements)
    }
}

/// Parses the whole token sequence into a program, stopping at the first error.
pub fn parse_program(tokens: Vec<Token>) -> (r: Result<Program, ParseError>)
    ensures
        parsed(tokens@, r),
{
    match parse_statements(tokens) {
        Ok(statements) => Ok(Program { statements }),
        Err(e) => Err(e),
    }
}

/// Every variable that `e` reads is in `names`.
pub open spec fn reads_within(e: Expression, names: Seq<Seq<char>>) -> bool
    decreases e,
{
    match e {
        Expression::ValExpr(_) => true,
        Expression::VarExpr(x) => names.contains(x@),
        Expression::ArithmeticExpr(l, _, r) => reads_within(*l, names) && reads_within(*r, names),
    }
}

/// Every name that `st` reads or assigns is in `names`.
pub open spec fn statement_within(st: Statement, names: Seq<Seq<char>>) -> bool {
    match st {
        Statement::DeclarationStatement { expr, .. } => reads_within(expr, names),
        Statement::AssignmentStatement { v_name, expr } => names.contains(v_name@) && reads_within(expr, names),
    }
}

/// Each statement reads and assigns only names declared by statements before it.
pub open spec fn well_scoped(ss: Seq<Statement>) -> bool {
    forall|i: int| 0 <= i < ss.len() ==> statement_within(#[trigger] ss[i], declared_names(ss.take(i)))
}

proof fn lemma_expression_scoped(ts: Seq<Token>, declared: Seq<Seq<char>>)
    requires
        expression_result(ts, declared) is Ok,
    ensures
        reads_within(expression_result(ts, declared)->Ok_0, declared),
    decreases ts.len(),
{
    if ts.len() >= 3 && is_operator_text(ts[1].value@) && ts[1].t_type == TokenType::ArithmeticOp {
        let rest = ts.subrange(2, ts.len() as int);
        lemma_expression_scoped(rest, declared);
        assert(reads_within(terminal_result(ts[0], declared)->Ok_0, declared));
    } else if ts.len() == 1 {
        assert(reads_within(terminal_result(ts[0], declared)->Ok_0, declared));
    }
}

proof fn lemma_statement_scoped(ts: Seq<Token>, declared: Seq<Seq<char>>)
    requires
        ts.len() > 0,
        statement_result(ts, declared) is Ok,
    ensures
        statement_within(statement_result(ts, declared)->Ok_0, declared),
        statement_result(ts, declared)->Ok_0 matches Statement::DeclarationStatement { v_name, .. } ==> !declared.contains(v_name@),
{
    match ts[0].t_type {
        TokenType::Int => lemma_expression_scoped(ts.subrange(3, ts.len() as int), declared),
        TokenType::Variable => lemma_expression_scoped(ts.subrange(2, ts.len() as int), declared),
        _ => {},
    }
}

proof fn lemma_scan_scoped(ts: Seq<Token>, start: int, i: int, done: Seq<Statement>)
    requires
        0 <= start <= i,
        well_scoped(done),
        declared_names(done).no_duplicates(),
        statements_scan(ts, start, i, done) is Ok,
    ensures
        well_scoped(statements_scan(ts, start, i, done)->Ok_0),
        declared_names(statements_scan(ts, start, i, done)->Ok_0).no_duplicates(),
    decreases ts.len() - i,
{
    if i < ts.len() {
        if ts[i].t_type == TokenType::Semi {
            if start != i {
                let chunk = ts.subrange(start, i);
                let st = statement_result(chunk, declared_names(done))->Ok_0;
                lemma_statement_scoped(chunk, declared_names(done));
                let next = done.push(st);
                assert(next.drop_last() =~= done);
                assert forall|k: int| 0 <= k < next.len() implies statement_within(
                    #[trigger] next[k],
                    declared_names(next.take(k)),
                ) by {
                    if k < done.len() {
                        assert(next.take(k) =~= done.take(k));
                    } else {
                        assert(next.take(k) =~= done);
                    }
                }
                lemma_scan_scoped(ts, i + 1, i + 1, next);
            }
        } else {
            lemma_scan_scoped(ts, start, i + 1, done);
        }
    }
}

/// In a parsed program every assignment target and every variable read names
/// a variable declared by an earlier statement.
pub proof fn lemma_parsed_well_scoped(ts: Seq<Token>)
    requires
        program_result(ts) is Ok,
    ensures
        well_scoped(program_result(ts)->Ok_0),
{
    lemma_scan_scoped(ts, 0, 0, seq![]);
}

/// A parsed program declares no name twice.
pub proof fn lemma_parsed_no_redeclaration(ts: Seq<Token>)
    requires
        program_result(ts) is Ok,
    ensures
        declared_names(program_result(ts)->Ok_0).no_duplicates(),
{
    lemma_scan_scoped(ts, 0, 0, seq![]);
}

/// The names declared by a prefix of the statements begin the names
/// declared by all of them.
pub proof fn lemma_declared_prefix(ss: Seq<Statement>, i: int)
    requires
        0 <= i <= ss.len(),
    ensures
        declared_names(ss.take(i)).len() <= declared_names(ss).len(),
        declared_names(ss.take(i)) == declared_names(ss).take(declared_names(ss.take(i)).len() as int),
    decreases ss.len() - i,
{
    if i == ss.len() {
        assert(ss.take(i) =~= ss);
        assert(declared_names(ss).take(declared_names(ss).len() as int) =~= declared_names(ss));
    } else {
        lemma_declared_prefix(ss, i + 1);
        assert(ss.take(i + 1).drop_last() =~= ss.take(i));
        let shorter = declared_names(ss.take(i));
        let longer = declared_names(ss.take(i + 1));
        assert(shorter =~= longer.take(shorter.len() as int));
        assert(shorter =~= declared_names(ss).take(shorter.len() as int));
    }
}

/// A well-formed assignment to a name that no earlier statement declared
/// fails with `UndefinedVariable` at the assigned name.
pub proof fn lemma_assignment_to_undeclared(ts: Seq<Token>, declared: Seq<Seq<char>>)
    requires
        ts.len() >= 3,
        ts[0].t_type == TokenType::Variable,
        ts[1].t_type == TokenType::Eq,
        expression_result(ts.subrange(2, ts.len() as int), declared) is Ok,
        !declared.contains(ts[0].value@),
    ensures
        statement_result(ts, declared) == Err::<Statement, ParseError>(ParseError::UndefinedVariable(ts[0])),
{
}

/// A variable read that no earlier statement declared fails with
/// `UndefinedVariable` at that variable.
pub proof fn lemma_read_of_undeclared(t: Token, declared: Seq<Seq<char>>)
    requires
        is_variable_text(t.value@),
        !is_value_text(t.value@),
        !declared.contains(t.value@),
    ensures
        terminal_result(t, declared) == Err::<Expression, ParseError>(ParseError::UndefinedVariable(t)),
{
}

/// A well-formed declaration of a name that an earlier statement declared
/// fails with `RedeclaringVariable` at this second occurrence.
pub proof fn lemma_second_declaration(ts: Seq<Token>, declared: Seq<Seq<char>>)
    requires
        ts.len() >= 4,
        ts[0].t_type == TokenType::Int,
        ts[1].t_type == TokenType::Variable,
        ts[2].t_type == TokenType::Eq,
        expression_result(ts.subrange(3, ts.len() as int), declared) is Ok,
        declared.contains(ts[1].value@),
    ensures
        statement_result(ts, declared) == Err::<Statement, ParseError>(ParseError::RedeclaringVariable(ts[1])),
{
}

proof fn lemma_scan_through_prefix(ts: Seq<Token>, p: int, start: int, i: int, done: Seq<Statement>)
    requires
        0 <= start <= i <= p <= ts.len(),
        statements_scan(ts.take(p), start, i, done) is Ok,
    ensures
        statements_scan(ts, start, i, done) == statements_scan(
            ts,
            p,
            p,
            statements_scan(ts.take(p), start, i, done)->Ok_0,
        ),
    decreases p - i,
{
    let pre = ts.take(p);
    if i < p {
        assert(pre[i] == ts[i]);
        if ts[i].t_type == TokenType::Semi {
            if start != i {
                assert(pre.subrange(start, i) =~= ts.subrange(start, i));
                let st = statement_result(ts.subrange(start, i), declared_names(done));
                lemma_scan_through_prefix(ts, p, i + 1, i + 1, done.push(st->Ok_0));
            }
        } else {
            lemma_scan_through_prefix(ts, p, start, i + 1, done);
        }
    }
}

proof fn lemma_scan_skips_to_semicolon(ts: Seq<Token>, p: int, i: int, q: int, done: Seq<Statement>)
    requires
        0 <= p <= i <= q < ts.len(),
        forall|j: int| i <= j < q ==> (#[trigger] ts[j]).t_type != TokenType::Semi,
    ensures
        statements_scan(ts, p, i, done) == statements_scan(ts, p, q, done),
    decreases q - i,
{
    if i < q {
        lemma_scan_skips_to_semicolon(ts, p, i + 1, q, done);
    }
}

/// When the tokens before position `p` form whole statements that parse, and
/// the statement from `p` up to the next `;` at `q` fails, the program fails
/// with that statement's error: earlier statements are never blamed, and
/// later ones are never reached.
pub proof fn lemma_first_failing_statement(ts: Seq<Token>, p: int, q: int)
    requires
        0 <= p < q < ts.len(),
        program_result(ts.take(p)) is Ok,
        ts[q].t_type == TokenType::Semi,
        forall|j: int| p <= j < q ==> (#[trigger] ts[j]).t_type != TokenType::Semi,
        statement_result(ts.subrange(p, q), declared_names(program_result(ts.take(p))->Ok_0)) is Err,
    ensures
        program_result(ts) == Err::<Seq<Statement>, ParseError>(
            statement_result(ts.subrange(p, q), declared_names(program_result(ts.take(p))->Ok_0))->Err_0,
        ),
{
    let ss = program_result(ts.take(p))->Ok_0;
    lemma_scan_through_prefix(ts, p, 0, 0, seq![]);
    lemma_scan_skips_to_semicolon(ts, p, p, q, ss);
}

/// In a program whose statements before position `p` parse, a well-formed
/// declaration `int n = e;` of a name that one of them already declared fails
/// with `RedeclaringVariable` at this second `n`.
pub proof fn lemma_program_redeclaration(ts: Seq<Token>, p: int, q: int)
    requires
        0 <= p < q < ts.len(),
        q - p >= 4,
        program_result(ts.take(p)) is Ok,
        ts[q].t_type == TokenType::Semi,
        forall|j: int| p <= j < q ==> (#[trigger] ts[j]).t_type != TokenType::Semi,
        ts[p].t_type == TokenType::Int,
        ts[p + 1].t_type == TokenType::Variable,
        ts[p + 2].t_type == TokenType::Eq,
        expression_result(ts.subrange(p + 3, q), declared_names(program_result(ts.take(p))->Ok_0)) is Ok,
        declared_names(program_result(ts.take(p))->Ok_0).contains(ts[p + 1].value@),
    ensures
        program_result(ts) == Err::<Seq<Statement>, ParseError>(ParseError::RedeclaringVariable(ts[p + 1])),
{
    let d = declared_names(program_result(ts.take(p))->Ok_0);
    let chunk = ts.subrange(p, q);
    assert(chunk.subrange(3, chunk.len() as int) =~= ts.subrange(p + 3, q));
    lemma_second_declaration(chunk, d);
    lemma_first_failing_statement(ts, p, q);
}

/// In a program whose statements before position `p` parse, a well-formed
/// assignment `v = e;` to a name that none of them declared fails with
/// `UndefinedVariable` at `v`.
pub proof fn lemma_program_assignment_to_undeclared(ts: Seq<Token>, p: int, q: int)
    requires
        0 <= p < q < ts.len(),
        q - p >= 3,
        program_result(ts.take(p)) is Ok,
        ts[q].t_type == TokenType::Semi,
        forall|j: int| p <= j < q ==> (#[trigger] ts[j]).t_type != TokenType::Semi,
        ts[p].t_type == TokenType::Variable,
        ts[p + 1].t_type == TokenType::Eq,
        expression_result(ts.subrange(p + 2, q), declared_names(program_result(ts.take(p))->Ok_0)) is Ok,
        !declared_names(program_result(ts.take(p))->Ok_0).contains(ts[p].value@),
    ensures
        program_result(ts) == Err::<Seq<Statement>, ParseError>(ParseError::UndefinedVariable(ts[p])),
{
    let d = declared_names(program_result(ts.take(p))->Ok_0);
    let chunk = ts.subrange(p, q);
    assert(chunk.subrange(2, chunk.len() as int) =~= ts.subrange(p + 2, q));
    lemma_assignment_to_undeclared(chunk, d);
    lemma_first_failing_statement(ts, p, q);
}

/// `ts` alternates operands and arithmetic operators, beginning and ending
/// with an operand; every operand is shaped like a literal or a variable.
pub open spec fn operand_chain(ts: Seq<Token>) -> bool {
    &&& ts.len() % 2 == 1
    &&& forall|j: int| 0 <= j < ts.len() && j % 2 == 0 ==> is_value_text((#[trigger] ts[j]).value@)
        || is_variable_text(ts[j].value@)
    &&& forall|j: int| 0 <= j < ts.len() && j % 2 == 1 ==> (#[trigger] ts[j]).t_type == TokenType::ArithmeticOp
        && is_operator_text(ts[j].value@)
}

/// The operand `t` reads a variable that is not in `declared`.
pub open spec fn reads_undeclared(t: Token, declared: Seq<Seq<char>>) -> bool {
    !is_value_text(t.value@) && !declared.contains(t.value@)
}

/// In an operand chain, the first operand that reads an undeclared variable
/// makes the expression fail with `UndefinedVariable` at that operand.
pub proof fn lemma_first_undeclared_operand(ts: Seq<Token>, declared: Seq<Seq<char>>, m: int)
    requires
        operand_chain(ts),
        0 <= 2 * m < ts.len(),
        reads_undeclared(ts[2 * m], declared),
        forall|j: int| 0 <= j < m ==> !reads_undeclared(#[trigger] ts[2 * j], declared),
    ensures
        expression_result(ts, declared) == Err::<Expression, ParseError>(ParseError::UndefinedVariable(ts[2 * m])),
    decreases m,
{
    assert(is_value_text(ts[2 * m].value@) || is_variable_text(ts[2 * m].value@));
    if m > 0 {
        assert(!reads_undeclared(ts[2 * (0 as int)], declared));
        assert(is_value_text(ts[0].value@) || is_variable_text(ts[0].value@));
        assert(ts[1].t_type == TokenType::ArithmeticOp && is_operator_text(ts[1].value@));
        let rest = ts.subrange(2, ts.len() as int);
        assert forall|j: int| 0 <= j < rest.len() && j % 2 == 0 implies is_value_text((#[trigger] rest[j]).value@)
            || is_variable_text(rest[j].value@) by {
            assert(rest[j] == ts[j + 2]);
        }
        assert forall|j: int| 0 <= j < rest.len() && j % 2 == 1 implies (#[trigger] rest[j]).t_type
            == TokenType::ArithmeticOp && is_operator_text(rest[j].value@) by {
            assert(rest[j] == ts[j + 2]);
        }
        assert forall|j: int| 0 <= j < m - 1 implies !reads_undeclared(#[trigger] rest[2 * j], declared) by {
            assert(rest[2 * j] == ts[2 * (j + 1)]);
        }
        assert(rest[2 * (m - 1)] == ts[2 * m]);
        lemma_first_undeclared_operand(rest, declared, m - 1);
    } else {
        assert(is_variable_text(ts[0].value@));
    }
}

/// In a program whose statements before position `p` parse, a statement
/// `int n = e;` or `v = e;` whose expression `e` is an operand chain fails
/// with `UndefinedVariable` at the first operand of `e` that reads a variable
/// none of those statements declared.
pub proof fn lemma_program_read_of_undeclared(ts: Seq<Token>, p: int, k: int, q: int, m: int)
    requires
        0 <= p,
        p + k < q < ts.len(),
        k == 3 ==> ts[p].t_type == TokenType::Int && ts[p + 1].t_type == TokenType::Variable && ts[p + 2].t_type
            == TokenType::Eq,
        k == 2 ==> ts[p].t_type == TokenType::Variable && ts[p + 1].t_type == TokenType::Eq,
        k == 2 || k == 3,
        program_result(ts.take(p)) is Ok,
        ts[q].t_type == TokenType::Semi,
        forall|j: int| p <= j < q ==> (#[trigger] ts[j]).t_type != TokenType::Semi,
        operand_chain(ts.subrange(p + k, q)),
        0 <= 2 * m < q - p - k,
        reads_undeclared(ts[p + k + 2 * m], declared_names(program_result(ts.take(p))->Ok_0)),
        forall|j: int| 0 <= j < m ==> !reads_undeclared(
            #[trigger] ts[p + k + 2 * j],
            declared_names(program_result(ts.take(p))->Ok_0),
        ),
    ensures
        program_result(ts) == Err::<Seq<Statement>, ParseError>(ParseError::UndefinedVariable(ts[p + k + 2 * m])),
{
    let d = declared_names(program_result(ts.take(p))->Ok_0);
    let chunk = ts.subrange(p, q);
    let e = ts.subrange(p + k, q);
    assert(chunk.subrange(k, chunk.len() as int) =~= e);
    assert forall|j: int| 0 <= j < m implies !reads_undeclared(#[trigger] e[2 * j], d) by {
        assert(e[2 * j] == ts[p + k + 2 * j]);
    }
    assert(e[2 * m] == ts[p + k + 2 * m]);
    lemma_first_undeclared_operand(e, d, m);
    assert(chunk[0] == ts[p]);
    assert(chunk[1] == ts[p + 1]);
    if k == 3 {
        assert(chunk[2] == ts[p + 2]);
    }
    lemma_first_failing_statement(ts, p, q);
}

} // verus!
