//! The meaning of parsing: for each parsing function, a spec function that
//! gives its outcome (the generated IR or the error message, the position
//! reached, the symbol table and the code generation state afterwards) from
//! the token stream, the position, the symbol table, the current function
//! and the code generation state before.
//!
//! The IR of an expression is a piece of code and the name (a variable,
//! a number or a temporary) that holds its value afterwards.
use vstd::prelude::*;
use crate::lexer::token::SpecToken;
use crate::text::{nat_decimal, int_decimal, join};
use crate::parser::program::{
    SFunc, SVar, SLoop, SState, VarKind, lookup_function, lookup_variable, spec_add_local,
    spec_add_param, spec_add_function, initial_state,
};

verus! {

/// The value of an expression: its code and the name that holds its value.
pub struct SExpr {
    pub code: Seq<char>,
    pub name: Seq<char>,
}

/// The outcome of parsing an expression (expressions leave the symbol
/// table as it is).
pub struct ExprOutcome {
    pub res: Result<SExpr, Seq<char>>,
    pub idx: int,
    pub st: SState,
}

/// The outcome of parsing the arguments of a call: their code and the
/// names that hold their values.
pub struct ArgsOutcome {
    pub res: Result<(Seq<char>, Seq<Seq<char>>), Seq<char>>,
    pub idx: int,
    pub st: SState,
}

/// The outcome of parsing an optional index expression.
pub struct IndexOutcome {
    pub res: Result<Option<SExpr>, Seq<char>>,
    pub idx: int,
    pub st: SState,
}

/// The outcome of parsing a statement, a block, a function or a program.
pub struct Outcome {
    pub res: Result<Seq<char>, Seq<char>>,
    pub idx: int,
    pub table: Seq<SFunc>,
    pub st: SState,
}

/// The outcome of parsing the parameter list of a function: the IR of each
/// parameter.
pub struct ParamsOutcome {
    pub res: Result<Seq<Seq<char>>, Seq<char>>,
    pub idx: int,
    pub table: Seq<SFunc>,
}

/// The number of positions left from `i` in a stream of length `len`.
pub open spec fn remaining(len: nat, i: int) -> nat {
    if 0 <= i < len { (len - i) as nat } else { 0 }
}

/// The outcome given for a position outside the stream, or after a
/// sub-parse that moved backwards; the parser never reaches either on a
/// well-formed stream.
pub open spec fn stuck_expr(i: int, st: SState) -> ExprOutcome {
    ExprOutcome { res: Err(seq![]), idx: i, st }
}

pub open spec fn stuck(i: int, table: Seq<SFunc>, st: SState) -> Outcome {
    Outcome { res: Err(seq![]), idx: i, table, st }
}

/// The state with one more temporary used.
pub open spec fn next_temp(st: SState) -> SState {
    SState { temp_counter: st.temp_counter + 1, ..st }
}

/// The name of the temporary made when `n` temporaries have been made
/// before it: temporaries are numbered from 1.
pub open spec fn temp_name(n: nat) -> Seq<char> {
    "_temp"@ + nat_decimal(n + 1)
}

/// Two evaluated operands combined by the IR operation `op` into the
/// temporary made after `n` others.
pub open spec fn combine_spec(l: SExpr, r: SExpr, op: Seq<char>, n: nat) -> SExpr {
    let dest = temp_name(n);
    SExpr {
        code: l.code + r.code + "%int "@ + dest + "\n%"@ + op + " "@ + dest + ", "@ + l.name + ", "@
            + r.name + "\n"@,
        name: dest,
    }
}

/// The IR operation of an additive operator.
pub open spec fn additive_op(t: SpecToken) -> Option<Seq<char>> {
    match t {
        SpecToken::Plus => Some("add"@),
        SpecToken::Subtract => Some("sub"@),
        _ => None,
    }
}

/// The IR operation of a multiplicative operator.
pub open spec fn multiplicative_op(t: SpecToken) -> Option<Seq<char>> {
    match t {
        SpecToken::Multiply => Some("mult"@),
        SpecToken::Divide => Some("div"@),
        SpecToken::Modulus => Some("mod"@),
        _ => None,
    }
}

/// The IR operation of a comparison operator.
pub open spec fn comparison_op(t: SpecToken) -> Option<Seq<char>> {
    match t {
        SpecToken::Less => Some("lt"@),
        SpecToken::LessEqual => Some("le"@),
        SpecToken::Greater => Some("gt"@),
        SpecToken::GreaterEqual => Some("ge"@),
        SpecToken::Equality => Some("eq"@),
        SpecToken::NotEqual => Some("ne"@),
        _ => None,
    }
}

/* Expressions */

/// `term ((+ | -) term)*`, parsed from `i`.
#[verifier::opaque]
pub open spec fn spec_expression(ts: Seq<SpecToken>, i: int, table: Seq<SFunc>, cf: Seq<char>, st: SState) -> ExprOutcome
    decreases remaining(ts.len(), i), 3nat,
{
    if !(0 <= i < ts.len()) {
        stuck_expr(i, st)
    } else {
        let m = spec_multiply(ts, i, table, cf, st);
        match m.res {
            Err(e) => m,
            Ok(e) => if m.idx < i {
                stuck_expr(i, st)
            } else {
                spec_expression_rest(ts, m.idx, table, cf, m.st, e)
            },
        }
    }
}

/// The rest `((+ | -) term)*` of an additive expression whose operands so
/// far evaluate to `acc`.
#[verifier::opaque]
pub open spec fn spec_expression_rest(ts: Seq<SpecToken>, i: int, table: Seq<SFunc>, cf: Seq<char>, st: SState, acc: SExpr) -> ExprOutcome
    decreases remaining(ts.len(), i), 0nat,
{
    if !(0 <= i < ts.len()) {
        stuck_expr(i, st)
    } else {
        match additive_op(ts[i]) {
            None => ExprOutcome { res: Ok(acc), idx: i, st },
            Some(op) => {
                let m = spec_multiply(ts, i + 1, table, cf, st);
                match m.res {
                    Err(e) => m,
                    Ok(r) => if m.idx <= i {
                        stuck_expr(i, st)
                    } else {
                        spec_expression_rest(ts, m.idx, table, cf, next_temp(m.st),
                            combine_spec(acc, r, op, m.st.temp_counter))
                    },
                }
            },
        }
    }
}

/// `term ((* | / | %) term)*`, parsed from `i`.
#[verifier::opaque]
pub open spec fn spec_multiply(ts: Seq<SpecToken>, i: int, table: Seq<SFunc>, cf: Seq<char>, st: SState) -> ExprOutcome
    decreases remaining(ts.len(), i), 2nat,
{
    if !(0 <= i < ts.len()) {
        stuck_expr(i, st)
    } else {
        let m = spec_term(ts, i, table, cf, st);
        match m.res {
            Err(e) => m,
            Ok(e) => if m.idx < i {
                stuck_expr(i, st)
            } else {
                spec_multiply_rest(ts, m.idx, table, cf, m.st, e)
            },
        }
    }
}

/// The rest `((* | / | %) term)*` of a multiplicative expression whose
/// operands so far evaluate to `acc`.
#[verifier::opaque]
pub open spec fn spec_multiply_rest(ts: Seq<SpecToken>, i: int, table: Seq<SFunc>, cf: Seq<char>, st: SState, acc: SExpr) -> ExprOutcome
    decreases remaining(ts.len(), i), 0nat,
{
    if !(0 <= i < ts.len()) {
        stuck_expr(i, st)
    } else {
        match multiplicative_op(ts[i]) {
            None => ExprOutcome { res: Ok(acc), idx: i, st },
            Some(op) => {
                let m = spec_term(ts, i + 1, table, cf, st);
                match m.res {
                    Err(e) => m,
                    Ok(r) => if m.idx <= i {
                        stuck_expr(i, st)
                    } else {
                        spec_multiply_rest(ts, m.idx, table, cf, next_temp(m.st),
                            combine_spec(acc, r, op, m.st.temp_counter))
                    },
                }
            },
        }
    }
}

/// The arguments of a call, from `i` up to the closing parenthesis;
/// `code` and `args` hold what the arguments before `i` gave.
#[verifier::opaque]
pub open spec fn spec_call_args(ts: Seq<SpecToken>, i: int, table: Seq<SFunc>, cf: Seq<char>, st: SState, code: Seq<char>, args: Seq<Seq<char>>) -> ArgsOutcome
    decreases remaining(ts.len(), i), 4nat,
{
    if !(0 <= i < ts.len()) {
        ArgsOutcome { res: Err(seq![]), idx: i, st }
    } else if ts[i] is RightParen {
        ArgsOutcome { res: Ok((code, args)), idx: i, st }
    } else {
        let a = spec_expression(ts, i, table, cf, st);
        match a.res {
            Err(e) => ArgsOutcome { res: Err(e), idx: a.idx, st: a.st },
            Ok(x) => {
                let code2 = code + x.code;
                let args2 = args.push(x.name);
                if ts[a.idx] is Comma {
                    if a.idx < i {
                        ArgsOutcome { res: Err(seq![]), idx: i, st }
                    } else {
                        spec_call_args(ts, a.idx + 1, table, cf, a.st, code2, args2)
                    }
                } else {
                    ArgsOutcome { res: Ok((code2, args2)), idx: a.idx, st: a.st }
                }
            },
        }
    }
}

/// A term: a call, a variable, an array element, a number or a
/// parenthesised expression.
#[verifier::opaque]
pub open spec fn spec_term(ts: Seq<SpecToken>, i: int, table: Seq<SFunc>, cf: Seq<char>, st: SState) -> ExprOutcome
    decreases remaining(ts.len(), i), 1nat,
{
    if !(0 <= i < ts.len()) {
        stuck_expr(i, st)
    } else {
        match ts[i] {
            SpecToken::Ident(name) => if ts[i + 1] is LeftParen {
                spec_call(ts, i, table, cf, st, name)
            } else {
                spec_variable(ts, i, table, cf, st, name)
            },
            SpecToken::Num(n) => ExprOutcome {
                res: Ok(SExpr { code: seq![], name: int_decimal(n as int) }),
                idx: i + 1,
                st,
            },
            SpecToken::LeftParen => {
                let e = spec_expression(ts, i + 1, table, cf, st);
                match e.res {
                    Err(x) => e,
                    Ok(x) => if ts[e.idx] is RightParen {
                        ExprOutcome { res: Ok(x), idx: e.idx + 1, st: e.st }
                    } else {
                        ExprOutcome { res: Err("Missing the right parenthesis ')'"@), idx: e.idx, st: e.st }
                    },
                }
            },
            _ => ExprOutcome { res: Err("Invalid Expression."@), idx: i, st },
        }
    }
}

/// A call `name(args)` at `i`: the callee must be defined.
#[verifier::opaque]
pub open spec fn spec_call(ts: Seq<SpecToken>, i: int, table: Seq<SFunc>, cf: Seq<char>, st: SState, name: Seq<char>) -> ExprOutcome
    decreases remaining(ts.len(), i), 0nat,
{
    if !(0 <= i < ts.len()) {
        stuck_expr(i, st)
    } else if lookup_function(table, name) is None {
        ExprOutcome { res: Err("Function '"@ + name + "' is not defined"@), idx: i + 1, st }
    } else {
        let a = spec_call_args(ts, i + 2, table, cf, st, seq![], seq![]);
        match a.res {
            Err(e) => ExprOutcome { res: Err(e), idx: a.idx, st: a.st },
            Ok((code, args)) => if !(ts[a.idx] is RightParen) {
                ExprOutcome { res: Err("Expected ')' after function call"@), idx: a.idx, st: a.st }
            } else {
                let dest = temp_name(a.st.temp_counter);
                ExprOutcome {
                    res: Ok(SExpr {
                        code: code + "%int "@ + dest + "\n%call "@ + dest + ", "@ + name + "("@ + join(args, ","@)
                            + ")\n"@,
                        name: dest,
                    }),
                    idx: a.idx + 1,
                    st: next_temp(a.st),
                }
            },
        }
    }
}

/// A variable `name` or an array element `name[expr]` at `i`: the
/// variable must be declared in the current function `cf`, as an array
/// exactly when it is indexed.
#[verifier::opaque]
pub open spec fn spec_variable(ts: Seq<SpecToken>, i: int, table: Seq<SFunc>, cf: Seq<char>, st: SState, name: Seq<char>) -> ExprOutcome
    decreases remaining(ts.len(), i), 0nat,
{
    let i1 = i + 1;
    if !(0 <= i < ts.len()) {
        stuck_expr(i, st)
    } else {
        match lookup_function(table, cf) {
            None => ExprOutcome { res: Err("Current function '"@ + cf + "' not found"@), idx: i1, st },
            Some(f) => match lookup_variable(f, name) {
                None => ExprOutcome { res: Err("Variable '"@ + name + "' used without declaration"@), idx: i1, st },
                Some(v) => if ts[i1] is LeftBracket {
                    if !(v.kind is Array) {
                        ExprOutcome { res: Err("Variable '"@ + name + "' is not an array"@), idx: i1, st }
                    } else {
                        let e = spec_expression(ts, i1 + 1, table, cf, st);
                        match e.res {
                            Err(x) => e,
                            Ok(x) => if !(ts[e.idx] is RightBracket) {
                                ExprOutcome { res: Err("Expected ']' after array size"@), idx: e.idx, st: e.st }
                            } else {
                                let dest = temp_name(e.st.temp_counter);
                                ExprOutcome {
                                    res: Ok(SExpr {
                                        code: x.code + "%int "@ + dest + "\n%mov "@ + dest + ", ["@ + name + " + "@
                                            + x.name + "]\n"@,
                                        name: dest,
                                    }),
                                    idx: e.idx + 1,
                                    st: next_temp(e.st),
                                }
                            },
                        }
                    }
                } else if v.kind is Array {
                    ExprOutcome {
                        res: Err("Variable '"@ + name + "' is an array but used as a scalar"@),
                        idx: i1,
                        st,
                    }
                } else {
                    ExprOutcome { res: Ok(SExpr { code: seq![], name }), idx: i1, st }
                },
            },
        }
    }
}

/// `expr <comparison> expr`, parsed from `i`.
#[verifier::opaque]
pub open spec fn spec_boolean(ts: Seq<SpecToken>, i: int, table: Seq<SFunc>, cf: Seq<char>, st: SState) -> ExprOutcome {
    let l = spec_expression(ts, i, table, cf, st);
    match l.res {
        Err(e) => l,
        Ok(x) => match comparison_op(ts[l.idx]) {
            None => ExprOutcome { res: Err("Expected a comparison operator"@), idx: l.idx, st: l.st },
            Some(op) => {
                let r = spec_expression(ts, l.idx + 1, table, cf, l.st);
                match r.res {
                    Err(e) => r,
                    Ok(y) => ExprOutcome {
                        res: Ok(combine_spec(x, y, op, r.st.temp_counter)),
                        idx: r.idx,
                        st: next_temp(r.st),
                    },
                }
            },
        },
    }
}

/* Statements */

/// The loop stack with its innermost loop removed (unchanged when empty).
pub open spec fn pop_loop(ls: Seq<SLoop>) -> Seq<SLoop> {
    if ls.len() > 0 { ls.drop_last() } else { ls }
}

/// An expression outcome as a statement outcome with the table `table`.
pub open spec fn expr_failure(e: ExprOutcome, table: Seq<SFunc>) -> Outcome {
    Outcome { res: Err(e.res->Err_0), idx: e.idx, table, st: e.st }
}

/// The statements from `i` up to the closing `}` of a body; `acc` holds the
/// code generated so far.
#[verifier::opaque]
pub open spec fn spec_block(ts: Seq<SpecToken>, i: int, table: Seq<SFunc>, cf: Seq<char>, st: SState, acc: Seq<char>) -> Outcome
    decreases remaining(ts.len(), i), 2nat,
{
    if !(0 <= i < ts.len()) {
        stuck(i, table, st)
    } else if ts[i] is RightCurly {
        Outcome { res: Ok(acc), idx: i, table, st }
    } else {
        let s = spec_statement(ts, i, table, cf, st);
        match s.res {
            Err(e) => s,
            Ok(c) => if s.idx == i {
                Outcome { res: Err("Parser made no progress"@), ..s }
            } else if s.idx < i {
                stuck(i, table, st)
            } else {
                spec_block(ts, s.idx, s.table, cf, s.st, acc + c)
            },
        }
    }
}

/// A statement, chosen by its first token.
#[verifier::opaque]
pub open spec fn spec_statement(ts: Seq<SpecToken>, i: int, table: Seq<SFunc>, cf: Seq<char>, st: SState) -> Outcome
    decreases remaining(ts.len(), i), 1nat,
{
    if !(0 <= i < ts.len()) {
        stuck(i, table, st)
    } else {
        match ts[i] {
            SpecToken::Int => spec_declaration(ts, i, table, cf, st),
            SpecToken::Return => spec_return(ts, i, table, cf, st),
            SpecToken::Print => spec_print(ts, i, table, cf, st),
            SpecToken::Read => spec_read(ts, i, table, cf, st),
            SpecToken::If => spec_if(ts, i, table, cf, st),
            SpecToken::While => spec_while(ts, i, table, cf, st),
            SpecToken::Break => spec_break(ts, i, table, st),
            SpecToken::Continue => spec_continue(ts, i, table, st),
            SpecToken::Ident(_) => if i + 1 < ts.len() && ts[i + 1] is LeftParen {
                // a call statement
                let e = spec_expression(ts, i, table, cf, st);
                match e.res {
                    Err(x) => expr_failure(e, table),
                    Ok(x) => if ts[e.idx] is Semicolon {
                        Outcome { res: Ok(x.code), idx: e.idx + 1, table, st: e.st }
                    } else {
                        Outcome { res: Err("Function call statement must end with ';'"@), idx: e.idx, table, st: e.st }
                    },
                }
            } else {
                spec_assignment(ts, i, table, cf, st)
            },
            _ => Outcome { res: Err("Invalid statement"@), idx: i, table, st },
        }
    }
}

/// `break ;`: a jump to the end of the innermost loop.
#[verifier::opaque]
pub open spec fn spec_break(ts: Seq<SpecToken>, i: int, table: Seq<SFunc>, st: SState) -> Outcome {
    if !(ts[i] is Break) {
        Outcome { res: Err("Expected 'break'"@), idx: i, table, st }
    } else if !(ts[i + 1] is Semicolon) {
        Outcome { res: Err("Break statement must end with a semicolon"@), idx: i + 1, table, st }
    } else if st.loop_stack.len() == 0 {
        Outcome { res: Err("Used 'break' outside of a loop"@), idx: i + 2, table, st }
    } else {
        Outcome { res: Ok("%jmp "@ + st.loop_stack.last().end + "\n"@), idx: i + 2, table, st }
    }
}

/// `continue ;`: a jump to the beginning of the innermost loop.
#[verifier::opaque]
pub open spec fn spec_continue(ts: Seq<SpecToken>, i: int, table: Seq<SFunc>, st: SState) -> Outcome {
    if !(ts[i] is Continue) {
        Outcome { res: Err("Expected 'continue'"@), idx: i, table, st }
    } else if !(ts[i + 1] is Semicolon) {
        Outcome { res: Err("Continue statement must end with a semicolon"@), idx: i + 1, table, st }
    } else if st.loop_stack.len() == 0 {
        Outcome { res: Err("Used 'continue' outside of a loop"@), idx: i + 2, table, st }
    } else {
        Outcome { res: Ok("%jmp "@ + st.loop_stack.last().begin + "\n"@), idx: i + 2, table, st }
    }
}

/// `while cond { body }`, with labels numbered by the label counter.
#[verifier::opaque]
pub open spec fn spec_while(ts: Seq<SpecToken>, i: int, table: Seq<SFunc>, cf: Seq<char>, st: SState) -> Outcome
    decreases remaining(ts.len(), i), 0nat,
{
    if !(0 <= i < ts.len()) {
        stuck(i, table, st)
    } else if !(ts[i] is While) {
        Outcome { res: Err("Expected 'while'"@), idx: i, table, st }
    } else {
        let id = st.label_counter;
        let begin = ":loopbegin"@ + int_decimal(id);
        let end = ":endloop"@ + int_decimal(id);
        let st1 = SState {
            label_counter: id + 1,
            loop_stack: st.loop_stack.push(SLoop { begin, end }),
            ..st
        };
        let c = spec_boolean(ts, i + 1, table, cf, st1);
        match c.res {
            Err(e) => expr_failure(c, table),
            Ok(cond) => {
                let code = begin + "\n"@ + cond.code + "%branch_ifn "@ + cond.name + ", "@ + end + "\n"@;
                if c.idx < i {
                    stuck(i, table, st)
                } else if !(ts[c.idx] is LeftCurly) {
                    Outcome { res: Err("Expected '{' after while condition"@), idx: c.idx, table, st: c.st }
                } else {
                    let b = spec_block(ts, c.idx + 1, table, cf, c.st, code);
                    match b.res {
                        Err(e) => b,
                        Ok(body) => if !(ts[b.idx] is RightCurly) {
                            Outcome { res: Err("Expected '}' to close while block"@), ..b }
                        } else {
                            Outcome {
                                res: Ok(body + "%jmp "@ + begin + "\n"@ + end + "\n"@),
                                idx: b.idx + 1,
                                table: b.table,
                                st: SState { loop_stack: pop_loop(b.st.loop_stack), ..b.st },
                            }
                        },
                    }
                }
            },
        }
    }
}

/// `if cond { body }`, optionally followed by `else { body }`, with labels
/// numbered by the `if` counter.
#[verifier::opaque]
pub open spec fn spec_if(ts: Seq<SpecToken>, i: int, table: Seq<SFunc>, cf: Seq<char>, st: SState) -> Outcome
    decreases remaining(ts.len(), i), 0nat,
{
    if !(0 <= i < ts.len()) {
        stuck(i, table, st)
    } else if !(ts[i] is If) {
        Outcome { res: Err("Expected 'if' keyword"@), idx: i, table, st }
    } else {
        let c = spec_boolean(ts, i + 1, table, cf, st);
        match c.res {
            Err(e) => expr_failure(c, table),
            Ok(cond) => {
                let n = c.st.if_counter;
                let if_label = "iftrue"@ + nat_decimal(n);
                let else_label = "else"@ + nat_decimal(n);
                let end_label = "endif"@ + nat_decimal(n);
                let st1 = SState { if_counter: n + 1, ..c.st };
                let ir = cond.code + "%branch_if "@ + cond.name + ", :"@ + if_label + "\n"@;
                if c.idx < i {
                    stuck(i, table, st)
                } else if !(ts[c.idx] is LeftCurly) {
                    Outcome { res: Err("Expected '{'"@), idx: c.idx, table, st: st1 }
                } else {
                    let b = spec_block(ts, c.idx + 1, table, cf, st1, seq![]);
                    match b.res {
                        Err(e) => b,
                        Ok(body) => if !(ts[b.idx] is RightCurly) {
                            Outcome { res: Err("Expected '}'"@), ..b }
                        } else if b.idx < i {
                            stuck(i, table, st)
                        } else {
                            let j = b.idx + 1;
                            if ts[j] is Else {
                                let ir2 = ir + "%jmp :"@ + else_label + "\n"@;
                                let k = j + 1;
                                if !(ts[k] is LeftCurly) {
                                    Outcome { res: Err("Expected '{'"@), idx: k, table: b.table, st: b.st }
                                } else {
                                    let e = spec_block(ts, k + 1, b.table, cf, b.st, seq![]);
                                    match e.res {
                                        Err(x) => e,
                                        Ok(else_body) => if !(ts[e.idx] is RightCurly) {
                                            Outcome { res: Err("Expected '}'"@), ..e }
                                        } else {
                                            Outcome {
                                                res: Ok(ir2 + ":"@ + if_label + "\n"@ + body + "%jmp :"@ + end_label
                                                    + "\n"@ + ":"@ + else_label + "\n"@ + else_body + ":"@ + end_label
                                                    + "\n"@),
                                                idx: e.idx + 1,
                                                table: e.table,
                                                st: e.st,
                                            }
                                        },
                                    }
                                }
                            } else {
                                Outcome {
                                    res: Ok(ir + "%jmp :"@ + end_label + "\n"@ + ":"@ + if_label + "\n"@ + body + ":"@
                                        + end_label + "\n"@),
                                    idx: j,
                                    table: b.table,
                                    st: b.st,
                                }
                            }
                        },
                    }
                }
            },
        }
    }
}

/// `return expr ;`
#[verifier::opaque]
pub open spec fn spec_return(ts: Seq<SpecToken>, i: int, table: Seq<SFunc>, cf: Seq<char>, st: SState) -> Outcome {
    if !(ts[i] is Return) {
        Outcome { res: Err("Return statements must begin with a 'return' keyword"@), idx: i, table, st }
    } else {
        let e = spec_expression(ts, i + 1, table, cf, st);
        match e.res {
            Err(x) => expr_failure(e, table),
            Ok(x) => if !(ts[e.idx] is Semicolon) {
                Outcome { res: Err("Statement must end with a semicolon"@), idx: e.idx, table, st: e.st }
            } else {
                Outcome { res: Ok(x.code + "%ret "@ + x.name + "\n"@), idx: e.idx + 1, table, st: e.st }
            },
        }
    }
}

/// `print expr ;`
#[verifier::opaque]
pub open spec fn spec_print(ts: Seq<SpecToken>, i: int, table: Seq<SFunc>, cf: Seq<char>, st: SState) -> Outcome {
    if !(ts[i] is Print) {
        Outcome { res: Err("Print statements must begin with 'print' keyword"@), idx: i, table, st }
    } else {
        let e = spec_expression(ts, i + 1, table, cf, st);
        match e.res {
            Err(x) => expr_failure(e, table),
            Ok(x) => if !(ts[e.idx] is Semicolon) {
                Outcome { res: Err("Statements must end with a semicolon"@), idx: e.idx, table, st: e.st }
            } else {
                Outcome { res: Ok(x.code + "%out "@ + x.name + "\n"@), idx: e.idx + 1, table, st: e.st }
            },
        }
    }
}

/// `read(name);` or `read name;`: the variable must be a scalar that the
/// current function `cf` declares.
#[verifier::opaque]
pub open spec fn spec_read(ts: Seq<SpecToken>, i: int, table: Seq<SFunc>, cf: Seq<char>, st: SState) -> Outcome {
    if !(ts[i] is Read) {
        Outcome { res: Err("Read statements must begin with a 'read' keyword"@), idx: i, table, st }
    } else {
        let paren = ts[i + 1] is LeftParen;
        let j = if paren { i + 2 } else { i + 1 };
        match ts[j] {
            SpecToken::Ident(name) => {
                let k = j + 1;
                match lookup_function(table, cf) {
                    None => Outcome { res: Err("Function '"@ + cf + "' not found"@), idx: k, table, st },
                    Some(f) => match lookup_variable(f, name) {
                        None => Outcome {
                            res: Err("Variable '"@ + name + "' not declared in function '"@ + cf + "'"@),
                            idx: k,
                            table,
                            st,
                        },
                        Some(v) => if v.kind is Array {
                            Outcome {
                                res: Err("Type mismatch: array variable '"@ + name + "' used as a scalar"@),
                                idx: k,
                                table,
                                st,
                            }
                        } else if paren && !(ts[k] is RightParen) {
                            Outcome { res: Err("Missing the right parenthesis ')'"@), idx: k, table, st }
                        } else {
                            let s = if paren { k + 1 } else { k };
                            if !(ts[s] is Semicolon) {
                                Outcome { res: Err("Statement is missing the ';' semicolon"@), idx: s, table, st }
                            } else {
                                Outcome { res: Ok("%input "@ + name + "\n"@), idx: s + 1, table, st }
                            }
                        },
                    },
                }
            },
            _ => Outcome { res: Err("Read expects an identifier"@), idx: j, table, st },
        }
    }
}

/// The optional `[expr]` after the target `ident` (a variable of kind
/// `kind`) of an assignment, at `i`.
#[verifier::opaque]
pub open spec fn spec_target_index(ts: Seq<SpecToken>, i: int, table: Seq<SFunc>, cf: Seq<char>, st: SState, ident: Seq<char>, kind: VarKind) -> IndexOutcome {
    if ts[i] is LeftBracket {
        if !(kind is Array) {
            IndexOutcome { res: Err("Type mismatch: scalar variable '"@ + ident + "' used as an array"@), idx: i, st }
        } else {
            let e = spec_expression(ts, i + 1, table, cf, st);
            match e.res {
                Err(x) => IndexOutcome { res: Err(x), idx: e.idx, st: e.st },
                Ok(x) => if !(ts[e.idx] is RightBracket) {
                    IndexOutcome { res: Err("Expected ']' after array index"@), idx: e.idx, st: e.st }
                } else {
                    IndexOutcome { res: Ok(Some(x)), idx: e.idx + 1, st: e.st }
                },
            }
        }
    } else if kind is Array {
        IndexOutcome { res: Err("Type mismatch: array variable '"@ + ident + "' used as a scalar"@), idx: i, st }
    } else {
        IndexOutcome { res: Ok(None), idx: i, st }
    }
}

/// The optional `[expr]` after the right-hand side `rhs` of an assignment
/// in function `f`, at `i`.
#[verifier::opaque]
pub open spec fn spec_source_index(ts: Seq<SpecToken>, i: int, table: Seq<SFunc>, cf: Seq<char>, st: SState, f: SFunc, rhs: SExpr) -> IndexOutcome {
    if ts[i] is LeftBracket {
        match lookup_variable(f, rhs.name) {
            None => IndexOutcome {
                res: Err("Variable '"@ + rhs.name + "' used without being declared"@),
                idx: i,
                st,
            },
            Some(v) => if !(v.kind is Array) {
                IndexOutcome {
                    res: Err("Type mismatch: scalar variable '"@ + rhs.name + "' used as an array"@),
                    idx: i,
                    st,
                }
            } else {
                let e = spec_expression(ts, i + 1, table, cf, st);
                match e.res {
                    Err(x) => IndexOutcome { res: Err(x), idx: e.idx, st: e.st },
                    Ok(x) => if !(ts[e.idx] is RightBracket) {
                        IndexOutcome { res: Err("Expected ']' after array index"@), idx: e.idx, st: e.st }
                    } else {
                        IndexOutcome { res: Ok(Some(x)), idx: e.idx + 1, st: e.st }
                    },
                }
            },
        }
    } else {
        match lookup_variable(f, rhs.name) {
            Some(v) => if v.kind is Array {
                IndexOutcome {
                    res: Err("Type mismatch: array variable '"@ + rhs.name + "' used as a scalar"@),
                    idx: i,
                    st,
                }
            } else {
                IndexOutcome { res: Ok(None), idx: i, st }
            },
            None => IndexOutcome { res: Ok(None), idx: i, st },
        }
    }
}

/// The code of an assignment to `ident` of `rhs`, with the optional target
/// index `lhs` and source index `src`, using the temporary made after `n` others
/// where an index is moved.
pub open spec fn assignment_code(ident: Seq<char>, lhs: Option<SExpr>, rhs: SExpr, src: Option<SExpr>, n: nat) -> Seq<char> {
    let tmp = temp_name(n);
    match (lhs, src) {
        (Some(l), None) => l.code + rhs.code + "%int "@ + tmp + "\n"@ + "%mov "@ + tmp + ", "@ + l.name + "\n"@
            + "%mov ["@ + ident + " + "@ + tmp + "], "@ + rhs.name + "\n"@,
        (None, Some(r)) => rhs.code + r.code + "%int "@ + tmp + "\n"@ + "%mov "@ + tmp + ", "@ + r.name + "\n"@
            + "%mov "@ + ident + ", ["@ + rhs.name + " + "@ + tmp + "]\n"@,
        _ => rhs.code + "%mov "@ + ident + ", "@ + rhs.name + "\n"@,
    }
}

/// `name = expr ;`, `name[expr] = expr ;` or `name = base[expr] ;`
#[verifier::opaque]
pub open spec fn spec_assignment(ts: Seq<SpecToken>, i: int, table: Seq<SFunc>, cf: Seq<char>, st: SState) -> Outcome {
    match ts[i] {
        SpecToken::Ident(ident) => {
            let i1 = i + 1;
            match lookup_function(table, cf) {
                None => Outcome { res: Err("Function '"@ + cf + "' not found"@), idx: i1, table, st },
                Some(f) => match lookup_variable(f, ident) {
                    None => Outcome {
                        res: Err("Variable '"@ + ident + "' not declared in function '"@ + cf + "'"@),
                        idx: i1,
                        table,
                        st,
                    },
                    Some(lv) => {
                        let l = spec_target_index(ts, i1, table, cf, st, ident, lv.kind);
                        match l.res {
                            Err(e) => Outcome { res: Err(e), idx: l.idx, table, st: l.st },
                            Ok(lhs) => if !(ts[l.idx] is Assign) {
                                Outcome { res: Err("Missing the '=' operator"@), idx: l.idx, table, st: l.st }
                            } else {
                                let r = spec_expression(ts, l.idx + 1, table, cf, l.st);
                                match r.res {
                                    Err(e) => expr_failure(r, table),
                                    Ok(rhs) => {
                                        let s = spec_source_index(ts, r.idx, table, cf, r.st, f, rhs);
                                        match s.res {
                                            Err(e) => Outcome { res: Err(e), idx: s.idx, table, st: s.st },
                                            Ok(src) => if !(ts[s.idx] is Semicolon) {
                                                Outcome { res: Err("Missing semicolon."@), idx: s.idx, table, st: s.st }
                                            } else if lhs is Some && src is Some {
                                                Outcome {
                                                    res: Err("Assignments with array indexing on both sides are not supported"@),
                                                    idx: s.idx + 1,
                                                    table,
                                                    st: s.st,
                                                }
                                            } else if lhs is Some || src is Some {
                                                Outcome {
                                                    res: Ok(assignment_code(ident, lhs, rhs, src, s.st.temp_counter)),
                                                    idx: s.idx + 1,
                                                    table,
                                                    st: next_temp(s.st),
                                                }
                                            } else {
                                                Outcome {
                                                    res: Ok(assignment_code(ident, lhs, rhs, src, s.st.temp_counter)),
                                                    idx: s.idx + 1,
                                                    table,
                                                    st: s.st,
                                                }
                                            },
                                        }
                                    },
                                }
                            },
                        }
                    },
                },
            }
        },
        _ => Outcome { res: Err("Assignment statements must begin with an identifier"@), idx: i, table, st },
    }
}

/// `int name ;`, `int name = expr ;` or `int [size] name ;`
#[verifier::opaque]
pub open spec fn spec_declaration(ts: Seq<SpecToken>, i: int, table: Seq<SFunc>, cf: Seq<char>, st: SState) -> Outcome {
    if !(ts[i] is Int) {
        Outcome { res: Err("Declaration statements must begin with 'int' keyword"@), idx: i, table, st }
    } else {
        let i1 = i + 1;
        if ts[i1] is LeftBracket && !(ts[i1 + 1] is Num) {
            Outcome { res: Err("Expected number within '[]"@), idx: i1 + 1, table, st }
        } else if ts[i1] is LeftBracket && !(ts[i1 + 2] is RightBracket) {
            Outcome { res: Err("Expected ']' after array size"@), idx: i1 + 2, table, st }
        } else {
            let j = if ts[i1] is LeftBracket { i1 + 3 } else { i1 };
            match ts[j] {
                SpecToken::Ident(name) => if ts[i1] is LeftBracket {
                    // an array
                    let size = (ts[i1 + 1]->Num_0) as usize;
                    let (r, t2) = spec_add_local(table, cf, SVar { name, kind: VarKind::Array(size) });
                    if r is Err {
                        Outcome { res: Err(r->Err_0), idx: j + 1, table: t2, st }
                    } else if !(ts[j + 1] is Semicolon) {
                        Outcome { res: Err("Declaration must end with ';'"@), idx: j + 1, table: t2, st }
                    } else {
                        Outcome {
                            res: Ok("%int[] "@ + name + ", "@ + nat_decimal(size as nat) + "\n"@),
                            idx: j + 2,
                            table: t2,
                            st,
                        }
                    }
                } else {
                    // a scalar, with an optional initializer
                    let (r, t2) = spec_add_local(table, cf, SVar { name, kind: VarKind::Scalar });
                    let decl = "%int "@ + name + "\n"@;
                    if r is Err {
                        Outcome { res: Err(r->Err_0), idx: j + 1, table: t2, st }
                    } else if ts[j + 1] is Assign {
                        let e = spec_expression(ts, j + 2, t2, cf, st);
                        match e.res {
                            Err(x) => expr_failure(e, t2),
                            Ok(x) => if !(ts[e.idx] is Semicolon) {
                                Outcome { res: Err("Declaration must end with ';'"@), idx: e.idx, table: t2, st: e.st }
                            } else {
                                Outcome {
                                    res: Ok(decl + x.code + "%mov "@ + name + ", "@ + x.name + "\n"@),
                                    idx: e.idx + 1,
                                    table: t2,
                                    st: e.st,
                                }
                            },
                        }
                    } else if !(ts[j + 1] is Semicolon) {
                        Outcome { res: Err("Declaration must end with ';'"@), idx: j + 1, table: t2, st }
                    } else {
                        Outcome { res: Ok(decl), idx: j + 2, table: t2, st }
                    }
                },
                _ => Outcome { res: Err("Declarations must have an identifier"@), idx: j, table, st },
            }
        }
    }
}

/* Functions and programs */

/// A parameter `int name`: its name and its IR.
pub open spec fn spec_parameter(ts: Seq<SpecToken>, i: int) -> (Result<(Seq<char>, Seq<char>), Seq<char>>, int) {
    if !(ts[i] is Int) {
        (Err("Parameter must begin with 'int' keyword"@), i)
    } else {
        match ts[i + 1] {
            SpecToken::Ident(name) => (Ok((name, "%int "@ + name)), i + 2),
            _ => (Err("Parameter must have an identifier"@), i + 1),
        }
    }
}

/// One parameter of function `fname`, at `i`, entered into the table and
/// appended to `params`.
#[verifier::opaque]
pub open spec fn spec_one_param(ts: Seq<SpecToken>, i: int, table: Seq<SFunc>, fname: Seq<char>, params: Seq<Seq<char>>) -> ParamsOutcome {
    let (p, j) = spec_parameter(ts, i);
    match p {
        Err(e) => ParamsOutcome { res: Err(e), idx: j, table },
        Ok((pname, pcode)) => {
            let (r, t2) = spec_add_param(table, fname, SVar { name: pname, kind: VarKind::Scalar });
            match r {
                Err(e) => ParamsOutcome { res: Err(e), idx: j, table: t2 },
                Ok(_) => ParamsOutcome { res: Ok(params.push(pcode)), idx: j, table: t2 },
            }
        },
    }
}

/// The parameters `, int name` that follow the first one, from `i`.
#[verifier::opaque]
pub open spec fn spec_more_params(ts: Seq<SpecToken>, i: int, table: Seq<SFunc>, fname: Seq<char>, params: Seq<Seq<char>>) -> ParamsOutcome
    decreases remaining(ts.len(), i),
{
    if !(0 <= i < ts.len()) {
        ParamsOutcome { res: Err(seq![]), idx: i, table }
    } else if ts[i] is Comma {
        let p = spec_one_param(ts, i + 1, table, fname, params);
        match p.res {
            Err(e) => p,
            Ok(ps) => if p.idx <= i {
                ParamsOutcome { res: Err(seq![]), idx: i, table }
            } else {
                spec_more_params(ts, p.idx, p.table, fname, ps)
            },
        }
    } else {
        ParamsOutcome { res: Ok(params), idx: i, table }
    }
}

/// The parameter list of function `fname`, from `i` (after the `(`).
#[verifier::opaque]
pub open spec fn spec_params(ts: Seq<SpecToken>, i: int, table: Seq<SFunc>, fname: Seq<char>) -> ParamsOutcome {
    if ts[i] is RightParen {
        ParamsOutcome { res: Ok(seq![]), idx: i, table }
    } else {
        let p = spec_one_param(ts, i, table, fname, seq![]);
        match p.res {
            Err(e) => p,
            Ok(ps) => spec_more_params(ts, p.idx, p.table, fname, ps),
        }
    }
}

/// `func name(params) { body }`
#[verifier::opaque]
pub open spec fn spec_function(ts: Seq<SpecToken>, i: int, table: Seq<SFunc>, st: SState) -> Outcome {
    if !(ts[i] is Func) {
        Outcome { res: Err("Missing the 'func' keyword."@), idx: i, table, st }
    } else {
        match ts[i + 1] {
            SpecToken::Ident(name) => {
                let (r, t1) = spec_add_function(table, name);
                if r is Err {
                    Outcome { res: Err(r->Err_0), idx: i + 2, table: t1, st }
                } else if !(ts[i + 2] is LeftParen) {
                    Outcome { res: Err("Missing the left parenthesis '('"@), idx: i + 2, table: t1, st }
                } else {
                    let p = spec_params(ts, i + 3, t1, name);
                    match p.res {
                        Err(e) => Outcome { res: Err(e), idx: p.idx, table: p.table, st },
                        Ok(params) => if !(ts[p.idx] is RightParen) {
                            Outcome { res: Err("Missing the right parenthesis ')'"@), idx: p.idx, table: p.table, st }
                        } else {
                            let header = "%func "@ + name + "("@ + join(params, ", "@) + ")\n"@;
                            let k = p.idx + 1;
                            if !(ts[k] is LeftCurly) {
                                Outcome { res: Err("Missing the left curly bracket '{'"@), idx: k, table: p.table, st }
                            } else {
                                let b = spec_block(ts, k + 1, p.table, name, st, header);
                                match b.res {
                                    Err(e) => b,
                                    Ok(code) => if !(ts[b.idx] is RightCurly) {
                                        Outcome { res: Err("Expected '}'"@), ..b }
                                    } else {
                                        Outcome { res: Ok(code + "%endfunc\n"@), idx: b.idx + 1, ..b }
                                    },
                                }
                            }
                        },
                    }
                }
            },
            _ => Outcome { res: Err("Functions must have a function identifier"@), idx: i + 1, table, st },
        }
    }
}

/// The functions from `i` up to `End`; `acc` holds the code so far.
#[verifier::opaque]
pub open spec fn spec_functions(ts: Seq<SpecToken>, i: int, table: Seq<SFunc>, st: SState, acc: Seq<char>) -> Outcome
    decreases remaining(ts.len(), i),
{
    if !(0 <= i < ts.len()) {
        stuck(i, table, st)
    } else if ts[i] is End {
        Outcome { res: Ok(acc), idx: i, table, st }
    } else {
        let f = spec_function(ts, i, table, st);
        match f.res {
            Err(e) => f,
            Ok(c) => if f.idx <= i {
                stuck(i, table, st)
            } else {
                spec_functions(ts, f.idx, f.table, f.st, acc + c)
            },
        }
    }
}

/// A whole program from `i`: its IR, or the first error; a program
/// without a function named `main` is refused.
#[verifier::opaque]
pub open spec fn spec_program(ts: Seq<SpecToken>, i: int) -> Outcome {
    let o = spec_functions(ts, i, seq![], initial_state(), seq![]);
    match o.res {
        Err(e) => o,
        Ok(code) => if lookup_function(o.table, "main"@) is None {
            Outcome { res: Err("No 'main' function defined"@), ..o }
        } else {
            o
        },
    }
}

/* Resource bounds */

/// The counters of `st` can grow by the number of tokens left from `i`
/// (each fresh label or temporary follows at least one consumed token).
pub open spec fn has_room(st: SState, len: nat, i: int) -> bool {
    &&& st.temp_counter + (len - i) <= usize::MAX
    &&& st.if_counter + (len - i) <= usize::MAX
    &&& st.label_counter + (len - i) <= i64::MAX
}

/// From `s0` at position `i0` to `s1` at `i1`, no counter decreased and
/// none grew by more than the number of tokens consumed.
pub open spec fn counters_within(s0: SState, s1: SState, i0: int, i1: int) -> bool {
    &&& s0.temp_counter <= s1.temp_counter <= s0.temp_counter + (i1 - i0)
    &&& s0.if_counter <= s1.if_counter <= s0.if_counter + (i1 - i0)
    &&& s0.label_counter <= s1.label_counter <= s0.label_counter + (i1 - i0)
}

/// The value of a result that carries IR text or an error message.
pub open spec fn string_result_view(r: Result<String, String>) -> Result<Seq<char>, Seq<char>> {
    match r {
        Ok(s) => Ok(s@),
        Err(e) => Err(e@),
    }
}

/// The result `r`, position `idx`, table `table` and state `st` are those
/// that the outcome `o` gives.
pub open spec fn outcome_matches(o: Outcome, r: Result<String, String>, idx: usize, table: Seq<SFunc>, st: SState) -> bool {
    &&& o.res == string_result_view(r)
    &&& o.idx == idx as int
    &&& o.table == table
    &&& o.st == st
}

} // verus!
