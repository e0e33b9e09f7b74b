//! The code generator: lowers a program to AArch64 assembly text. Every
//! declaration gets the next 16-byte stack slot below the frame base, for
//! good; expressions are evaluated into registers numbered by nesting depth.

use vstd::prelude::*;

use crate::parser::{declared_names, names_view, Expression, Program, Statement};
use crate::target::Target;
use crate::text::{decimal, push_decimal};

verus! {

/// Section, entry label and frame-pointer setup.
pub const PROG_PRELUDE: &'static str = ".section .text\n.global _start\n_start:\n  mov x29, sp\n";

/// A clean process exit.
pub const PROG_POSTLUDE: &'static str = "  mov x0, #0\n  mov x8, #93\n  svc #0\n";

/// The size in bytes of one variable's stack slot.
pub const STACK_VAR_OFFSET: usize = 16;

/// A fault inside the generator: the program does not hold what the parser
/// guarantees.
#[derive(Debug)]
pub enum GenInternalError {
    UndefinedVariable(String),
}

/// What the generator can fail with.
#[derive(Debug)]
pub enum GenError {
    UnexpectedInternalError(GenInternalError),
}

impl GenInternalError {
    pub open spec fn text(self) -> Seq<char> {
        match self {
            GenInternalError::UndefinedVariable(x) => "Undefined variable: "@ + x@,
        }
    }

    pub fn to_string(&self) -> (r: String)
        ensures
            r@ == self.text(),
    {
        match self {
            GenInternalError::UndefinedVariable(x) => {
                let mut out = String::from_str("Undefined variable: ");
                out.append(x.as_str());
                out
            },
        }
    }
}

impl GenError {
    pub open spec fn text(self) -> Seq<char> {
        match self {
            GenError::UnexpectedInternalError(x) => "Unexpected error occurred during program generation: "@
                + x.text(),
        }
    }

    pub fn to_string(&self) -> (r: String)
        ensures
            r@ == self.text(),
    {
        match self {
            GenError::UnexpectedInternalError(x) => {
                let mut out = String::from_str("Unexpected error occurred during program generation: ");
                out.append(x.to_string().as_str());
                out
            },
        }
    }

    /// The error for a reference to a variable that has no slot.
    pub open spec fn undefined(v_name: String) -> GenError {
        GenError::UnexpectedInternalError(GenInternalError::UndefinedVariable(v_name))
    }

    fn from_undefined_var(v_name: String) -> (r: Self)
        ensures
            r == GenError::undefined(v_name),
    {
        GenError::UnexpectedInternalError(GenInternalError::UndefinedVariable(v_name))
    }
}

/// The 1-based ordinal of the latest declaration of `name` in `names`.
pub open spec fn slot_of(names: Seq<Seq<char>>, name: Seq<char>) -> Option<nat>
    decreases names.len(),
{
    if names.len() == 0 {
        None
    } else if names.last() == name {
        Some(names.len())
    } else {
        slot_of(names.drop_last(), name)
    }
}

/// The stack offset of the slot with ordinal `k`.
pub open spec fn slot_offset(k: nat) -> nat {
    k * (STACK_VAR_OFFSET as nat)
}

/// Code that leaves the value of `e` in register `reg`, with `names` the
/// variables declared so far.
pub open spec fn expr_code(names: Seq<Seq<char>>, e: Expression, reg: nat) -> Result<Seq<char>, GenError>
    decreases e,
{
    match e {
        Expression::ValExpr(x) => Ok("  mov x"@ + decimal(reg) + ", #"@ + x@),
        Expression::VarExpr(x) => match slot_of(names, x@) {
            Some(k) => Ok("  ldr x"@ + decimal(reg) + ", [x29, #-"@ + decimal(slot_offset(k)) + "]"@),
            None => Err(GenError::undefined(x)),
        },
        Expression::ArithmeticExpr(l, op, r) => match expr_code(names, *l, reg + 1) {
            Err(err) => Err(err),
            Ok(lc) => match expr_code(names, *r, reg + 2) {
                Err(err) => Err(err),
                Ok(rc) => Ok(lc + "\n"@ + rc + "\n  "@ + op.mnemonic() + " x"@ + decimal(reg) + ", x"@
                    + decimal(reg + 1) + ", x"@ + decimal(reg + 2)),
            },
        },
    }
}

/// Code for one statement, with `names` the variables declared before it.
pub open spec fn statement_code(names: Seq<Seq<char>>, st: Statement) -> Result<Seq<char>, GenError> {
    match st {
        Statement::DeclarationStatement { v_name, expr } => match expr_code(names, expr, 0) {
            Err(err) => Err(err),
            Ok(c) => Ok(c + "\n  str x0, [sp, #-"@ + decimal(STACK_VAR_OFFSET as nat) + "]!\n"@),
        },
        Statement::AssignmentStatement { v_name, expr } => match slot_of(names, v_name@) {
            None => Err(GenError::undefined(v_name)),
            Some(k) => match expr_code(names, expr, 0) {
                Err(err) => Err(err),
                Ok(c) => Ok(c + "\n  str x0, [x29, #-"@ + decimal(slot_offset(k)) + "]\n"@),
            },
        },
    }
}

/// Code for the statements `ss`, in order.
pub open spec fn body_code(ss: Seq<Statement>) -> Result<Seq<char>, GenError>
    decreases ss.len(),
{
    if ss.len() == 0 {
        Ok(seq![])
    } else {
        match body_code(ss.drop_last()) {
            Err(err) => Err(err),
            Ok(prev) => match statement_code(declared_names(ss.drop_last()), ss.last()) {
                Err(err) => Err(err),
                Ok(c) => Ok(prev + c),
            },
        }
    }
}

/// The expression of a statement.
pub open spec fn statement_expr(st: Statement) -> Expression {
    match st {
        Statement::DeclarationStatement { expr, .. } => expr,
        Statement::AssignmentStatement { expr, .. } => expr,
    }
}

/// Every expression of `ss` nests shallowly enough that its registers can be
/// numbered in a `usize`.
pub open spec fn within_register_limit(ss: Seq<Statement>) -> bool {
    forall|i: int| 0 <= i < ss.len() ==> 2 * statement_expr(#[trigger] ss[i]).depth() <= usize::MAX
}

/// `r` is the outcome of generating code for `ss`: prelude, body, postlude.
pub open spec fn generated(ss: Seq<Statement>, r: Result<String, GenError>) -> bool {
    match body_code(ss) {
        Ok(body) => r matches Ok(t) && t@ == PROG_PRELUDE@ + body + PROG_POSTLUDE@,
        Err(err) => r == Err::<String, GenError>(err),
    }
}

/// The ordinal of the latest declaration of `name`, if any.
fn lookup_slot(names: &Vec<String>, name: &String) -> (r: Option<usize>)
    ensures
        r matches Some(k) ==> slot_of(names_view(names@), name@) == Some(k as nat),
        r is None ==> slot_of(names_view(names@), name@) is None,
{
    let ghost all = names_view(names@);
    let mut k: usize = names.len();
    proof {
        assert(all.take(k as int) =~= all);
    }
    while k > 0
        invariant
            k <= names@.len(),
            all == names_view(names@),
            slot_of(all, name@) == slot_of(all.take(k as int), name@),
        decreases k,
    {
        proof {
            assert(all.take(k as int).drop_last() =~= all.take(k - 1));
        }
        if names[k - 1] == *name {
            return Some(k);
        }
        k = k - 1;
    }
    proof {
        assert(all.take(0) =~= Seq::<Seq<char>>::empty());
    }
    None
}

/// Appends the offset of the slot with ordinal `k`.
fn push_offset(out: &mut String, k: usize)
    ensures
        final(out)@ == old(out)@ + decimal(slot_offset(k as nat)),
{
    let offset: u128 = (k as u128) * (STACK_VAR_OFFSET as u128);
    push_decimal(out, offset);
}

fn generate_expression(names: &Vec<String>, expr: &Expression, target_reg: usize) -> (r: Result<String, GenError>)
    requires
        target_reg + 2 * expr.depth() <= usize::MAX,
    ensures
        match expr_code(names_view(names@), *expr, target_reg as nat) {
            Ok(c) => r matches Ok(t) && t@ == c,
            Err(err) => r == Err::<String, GenError>(err),
        },
    decreases expr,
{
    match expr {
        Expression::ValExpr(x) => {
            let mut out = String::from_str("  mov x");
            push_decimal(&mut out, target_reg as u128);
            out.append(", #");
            out.append(x.as_str());
            Ok(out)
        },
        Expression::VarExpr(x) => {
            let k = match lookup_slot(names, x) {
                Some(k) => k,
                None => return Err(GenError::from_undefined_var(x.clone())),
            };
            let mut out = String::from_str("  ldr x");
            push_decimal(&mut out, target_reg as u128);
            out.append(", [x29, #-");
            push_offset(&mut out, k);
            out.append("]");
            Ok(out)
        },
        Expression::ArithmeticExpr(l, op, r) => {
            let lc = match generate_expression(names, l, target_reg + 1) {
                Ok(c) => c,
                Err(err) => return Err(err),
            };
            let rc = match generate_expression(names, r, target_reg + 2) {
                Ok(c) => c,
                Err(err) => return Err(err),
            };
            let mut out = lc;
            out.append("\n");
            out.append(rc.as_str());
            out.append("\n  ");
            out.append(op.to_arm_command().as_str());
            out.append(" x");
            push_decimal(&mut out, target_reg as u128);
            out.append(", x");
            push_decimal(&mut out, (target_reg + 1) as u128);
            out.append(", x");
            push_decimal(&mut out, (target_reg + 2) as u128);
            Ok(out)
        },
    }
}

fn process_declaration_statement(names: &mut Vec<String>, v_name: &String, expr: &Expression) -> (r: Result<String, GenError>)
    requires
        2 * expr.depth() <= usize::MAX,
    ensures
        match statement_code(names_view(old(names)@), Statement::DeclarationStatement { v_name: *v_name, expr: *expr }) {
            Ok(c) => r matches Ok(t) && t@ == c,
            Err(err) => r == Err::<String, GenError>(err),
        },
        r is Ok ==> final(names)@ == old(names)@.push(*v_name),
{
    let mut out = match generate_expression(names, expr, 0) {
        Ok(c) => c,
        Err(err) => return Err(err),
    };
    names.push(v_name.clone());
    out.append("\n  str x0, [sp, #-");
    push_decimal(&mut out, STACK_VAR_OFFSET as u128);
    out.append("]!\n");
    Ok(out)
}

fn process_assignment_statement(names: &Vec<String>, v_name: &String, expr: &Expression) -> (r: Result<String, GenError>)
    requires
        2 * expr.depth() <= usize::MAX,
    ensures
        match statement_code(names_view(names@), Statement::AssignmentStatement { v_name: *v_name, expr: *expr }) {
            Ok(c) => r matches Ok(t) && t@ == c,
            Err(err) => r == Err::<String, GenError>(err),
        },
{
    let k = match lookup_slot(names, v_name) {
        Some(k) => k,
        None => return Err(GenError::from_undefined_var(v_name.clone())),
    };
    let mut out = match generate_expression(names, expr, 0) {
        Ok(c) => c,
        Err(err) => return Err(err),
    };
    out.append("\n  str x0, [x29, #-");
    push_offset(&mut out, k);
    out.append("]\n");
    Ok(out)
}

/// Once a prefix of the statements fails, every longer prefix fails the same way.
proof fn lemma_body_error_extends(ss: Seq<Statement>, j: int, n: int)
    requires
        0 <= j <= n <= ss.len(),
        body_code(ss.take(j)) is Err,
    ensures
        body_code(ss.take(n)) == body_code(ss.take(j)),
    decreases n - j,
{
    if n > j {
        lemma_body_error_extends(ss, j, n - 1);
        assert(ss.take(n).drop_last() =~= ss.take(n - 1));
    }
}

fn process_statements(statements: &Vec<Statement>) -> (r: Result<String, GenError>)
    requires
        within_register_limit(statements@),
    ensures
        match body_code(statements@) {
            Ok(c) => r matches Ok(t) && t@ == c,
            Err(err) => r == Err::<String, GenError>(err),
        },
{
    let ghost ss = statements@;
    let mut output = String::new();
    let mut names: Vec<String> = Vec::new();
    let mut i: usize = 0;
    proof {
        assert(ss.take(0) =~= Seq::<Statement>::empty());
    }
    while i < statements.len()
        invariant
            ss == statements@,
            i <= ss.len(),
            within_register_limit(ss),
            names_view(names@) == declared_names(ss.take(i as int)),
            body_code(ss.take(i as int)) == Ok::<Seq<char>, GenError>(output@),
        decreases statements.len() - i,
    {
        let ghost before = names@;
        proof {
            assert(ss.take(i + 1).drop_last() =~= ss.take(i as int));
            assert(ss.take(i + 1).last() == ss[i as int]);
            assert(2 * statement_expr(ss[i as int]).depth() <= usize::MAX);
        }
        let processed = match &statements[i] {
            Statement::DeclarationStatement { v_name, expr } => process_declaration_statement(&mut names, v_name, expr),
            Statement::AssignmentStatement { v_name, expr } => process_assignment_statement(&names, v_name, expr),
        };
        let code = match processed {
            Ok(c) => c,
            Err(err) => {
                proof {
                    lemma_body_error_extends(ss, i + 1, ss.len() as int);
                    assert(ss.take(ss.len() as int) =~= ss);
                }
                return Err(err);
            },
        };
        output.append(code.as_str());
        proof {
            assert(names_view(names@) =~= declared_names(ss.take(i + 1)));
            assert(ss.take(i + 1).len() > 0);
        }
        i = i + 1;
    }
    proof {
        assert(ss.take(i as int) =~= ss);
    }
    Ok(output)
}

fn generate_arm(program: &Program) -> (r: Result<String, GenError>)
    requires
        within_register_limit(program.statements@),
    ensures
        generated(program.statements@, r),
{
    let mut output = String::from_str(PROG_PRELUDE);
    let body = match process_statements(&program.statements) {
        Ok(c) => c,
        Err(err) => return Err(err),
    };
    output.append(body.as_str());
    output.append(PROG_POSTLUDE);
    Ok(output)
}

/// Lowers `program` to assembly text for `target`.
pub fn generate(target: &Target, program: Program) -> (r: Result<String, GenError>)
    requires
        within_register_limit(program.statements@),
    ensures
        generated(program.statements@, r),
{
    match target {
        Target::ARM64 => generate_arm(&program),
    }
}

/// The variable of the `n`-th declaration (counting from 1), when no later
/// declaration reuses its name, lives at offset `n * 16` below the frame base.
pub proof fn lemma_nth_declaration_offset(names: Seq<Seq<char>>, n: nat)
    requires
        1 <= n <= names.len(),
        forall|j: int| n <= j < names.len() ==> #[trigger] names[j] != names[n - 1],
    ensures
        slot_of(names, names[n - 1]) == Some(n),
        slot_offset(n) == n * 16,
    decreases names.len(),
{
    if names.len() > n {
        assert(names.last() != names[n - 1]);
        let shorter = names.drop_last();
        assert forall|j: int| n <= j < shorter.len() implies #[trigger] shorter[j] != shorter[n - 1] by {
            assert(shorter[j] == names[j]);
        }
        lemma_nth_declaration_offset(shorter, n);
    }
}

/// In a program whose declarations are distinct, as every parsed program's
/// are, the `n`-th declared variable lives at offset `n * 16`.
pub proof fn lemma_distinct_declaration_offsets(names: Seq<Seq<char>>, n: nat)
    requires
        names.no_duplicates(),
        1 <= n <= names.len(),
    ensures
        slot_of(names, names[n - 1]) == Some(n),
        slot_offset(n) == n * 16,
{
    lemma_nth_declaration_offset(names, n);
}

/// With distinct declared names, every access to the `n`-th declared
/// variable addresses `[x29, #-(n * 16)]`: a read loads from there and an
/// assignment stores there. A declaration always pushes a fresh 16-byte slot.
pub proof fn lemma_access_text(names: Seq<Seq<char>>, n: nat, x: String, reg: nat, st: Statement)
    requires
        names.no_duplicates(),
        1 <= n <= names.len(),
        x@ == names[n - 1],
    ensures
        expr_code(names, Expression::VarExpr(x), reg) == Ok::<Seq<char>, GenError>(
            "  ldr x"@ + decimal(reg) + ", [x29, #-"@ + decimal(n * 16) + "]"@,
        ),
        st matches Statement::AssignmentStatement { v_name, expr } ==> v_name@ == names[n - 1] && expr_code(
            names,
            expr,
            0,
        ) is Ok ==> statement_code(names, st) == Ok::<Seq<char>, GenError>(
            expr_code(names, expr, 0)->Ok_0 + "\n  str x0, [x29, #-"@ + decimal(n * 16) + "]\n"@,
        ),
        st matches Statement::DeclarationStatement { expr, .. } ==> expr_code(names, expr, 0) is Ok
            ==> statement_code(names, st) == Ok::<Seq<char>, GenError>(
            expr_code(names, expr, 0)->Ok_0 + "\n  str x0, [sp, #-"@ + decimal(16) + "]!\n"@,
        ),
{
    lemma_distinct_declaration_offsets(names, n);
}

} // verus!
