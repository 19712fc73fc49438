//! What the parser gives for conditions and statements of given shapes:
//! the IR of each statement form, the labels of loops and `if`s, and the
//! symbol table entries that declarations make. Each law states the result
//! from the tokens alone.
use vstd::prelude::*;
use crate::lexer::token::SpecToken;
use crate::parser::program::{
    SFunc, SVar, SState, SLoop, VarKind, function_index, lookup_function, lookup_variable, has_var_named,
};
use crate::parser::model::{
    SExpr, ExprOutcome, Outcome, next_temp, temp_name, spec_expression, spec_boolean, spec_statement, spec_block, spec_while, spec_if, spec_return, spec_print, spec_read,
    spec_break, spec_assignment, spec_declaration, spec_target_index, spec_source_index, spec_variable,
    spec_term, spec_multiply, spec_multiply_rest, spec_expression_rest, spec_call, spec_call_args,
    additive_op, multiplicative_op,
};
use crate::parser::accepted::{
    law_number_literal, law_call_without_arguments, operation_code, lemma_combine_code, number_value,
};
use crate::text::{int_decimal, nat_decimal};

verus! {

/* Conditions */

/// The IR operation of a comparison operator token.
pub open spec fn comparison_ir(t: SpecToken) -> Option<Seq<char>> {
    match t {
        SpecToken::Less => Some("lt"@),
        SpecToken::LessEqual => Some("le"@),
        SpecToken::Greater => Some("gt"@),
        SpecToken::GreaterEqual => Some("ge"@),
        SpecToken::Equality => Some("eq"@),
        SpecToken::NotEqual => Some("ne"@),
        _ => None,
    }
}

/// The tokens from `i` are `a cmp b` for number literals `a`, `b` and a
/// comparison operator `cmp`, followed by a token that is no arithmetic
/// operator.
pub open spec fn simple_condition_at(ts: Seq<SpecToken>, i: int, a: i32, b: i32) -> bool {
    &&& 0 <= i
    &&& i + 3 < ts.len()
    &&& ts[i] == SpecToken::Num(a)
    &&& comparison_ir(ts[i + 1]) is Some
    &&& ts[i + 2] == SpecToken::Num(b)
    &&& additive_op(ts[i + 3]) is None
    &&& multiplicative_op(ts[i + 3]) is None
}

/// The code of the condition `a cmp b` at `i`, held in the temporary `t`.
pub open spec fn condition_code(ts: Seq<SpecToken>, i: int, a: i32, b: i32, t: Seq<char>) -> Seq<char> {
    operation_code(t, comparison_ir(ts[i + 1])->0, int_decimal(a as int), int_decimal(b as int))
}

/// A condition `a cmp b` of two number literals stores the comparison of
/// their decimal texts in one fresh temporary and evaluates to it.
pub proof fn law_simple_condition(ts: Seq<SpecToken>, i: int, table: Seq<SFunc>, cf: Seq<char>, st: SState, a: i32, b: i32)
    requires
        simple_condition_at(ts, i, a, b),
    ensures
        spec_boolean(ts, i, table, cf, st) == ({
            let t = temp_name(st.temp_counter);
            ExprOutcome {
                res: Ok(SExpr { code: condition_code(ts, i, a, b, t), name: t }),
                idx: i + 3,
                st: next_temp(st),
            }
        }),
{
    reveal(spec_boolean);
    law_number_literal(ts, i, table, cf, st, a);
    law_number_literal(ts, i + 2, table, cf, st, b);
    lemma_combine_code(number_value(a), number_value(b), comparison_ir(ts[i + 1])->0, st.temp_counter);
    assert(Seq::<char>::empty() + Seq::<char>::empty() + condition_code(ts, i, a, b, temp_name(st.temp_counter))
        =~= condition_code(ts, i, a, b, temp_name(st.temp_counter)));
}

/* Simple statements */

/// `return n;` for a number literal `n` returns its decimal text.
pub proof fn law_return_number(ts: Seq<SpecToken>, i: int, table: Seq<SFunc>, cf: Seq<char>, st: SState, n: i32)
    requires
        0 <= i,
        i + 2 < ts.len(),
        ts[i] is Return,
        ts[i + 1] == SpecToken::Num(n),
        ts[i + 2] is Semicolon,
    ensures
        spec_statement(ts, i, table, cf, st) == (Outcome {
            res: Ok("%ret "@ + int_decimal(n as int) + "\n"@),
            idx: i + 3,
            table,
            st,
        }),
{
    reveal_with_fuel(spec_statement, 1);
    reveal(spec_return);
    law_number_literal(ts, i + 1, table, cf, st, n);
    assert(Seq::<char>::empty() + "%ret "@ + int_decimal(n as int) + "\n"@ =~= "%ret "@ + int_decimal(n as int) + "\n"@);
}

/// `print n;` for a number literal `n` prints its decimal text.
pub proof fn law_print_number(ts: Seq<SpecToken>, i: int, table: Seq<SFunc>, cf: Seq<char>, st: SState, n: i32)
    requires
        0 <= i,
        i + 2 < ts.len(),
        ts[i] is Print,
        ts[i + 1] == SpecToken::Num(n),
        ts[i + 2] is Semicolon,
    ensures
        spec_statement(ts, i, table, cf, st) == (Outcome {
            res: Ok("%out "@ + int_decimal(n as int) + "\n"@),
            idx: i + 3,
            table,
            st,
        }),
{
    reveal_with_fuel(spec_statement, 1);
    reveal(spec_print);
    law_number_literal(ts, i + 1, table, cf, st, n);
    assert(Seq::<char>::empty() + "%out "@ + int_decimal(n as int) + "\n"@ =~= "%out "@ + int_decimal(n as int) + "\n"@);
}

/// `read x;` and `read(x);` for a scalar `x` of the current function read
/// into `x`.
pub proof fn law_read_scalar(ts: Seq<SpecToken>, i: int, table: Seq<SFunc>, cf: Seq<char>, st: SState, x: Seq<char>, paren: bool)
    requires
        0 <= i,
        lookup_function(table, cf) matches Some(f) && lookup_variable(f, x) == Some(SVar { name: x, kind: VarKind::Scalar }),
        ts[i] is Read,
        paren ==> i + 4 < ts.len() && ts[i + 1] is LeftParen && ts[i + 2] == SpecToken::Ident(x) && ts[i + 3] is RightParen
            && ts[i + 4] is Semicolon,
        !paren ==> i + 2 < ts.len() && ts[i + 1] == SpecToken::Ident(x) && ts[i + 2] is Semicolon,
    ensures
        spec_statement(ts, i, table, cf, st) == (Outcome {
            res: Ok("%input "@ + x + "\n"@),
            idx: if paren { i + 5 } else { i + 3 },
            table,
            st,
        }),
{
    reveal_with_fuel(spec_statement, 1);
    reveal(spec_read);
}

/// `x = y;` for scalars `x` and `y` of the current function moves `y` into
/// `x`, and uses no temporary.
pub proof fn law_assign_scalar(ts: Seq<SpecToken>, i: int, table: Seq<SFunc>, cf: Seq<char>, st: SState, x: Seq<char>, y: Seq<char>)
    requires
        0 <= i,
        i + 3 < ts.len(),
        ts[i] == SpecToken::Ident(x),
        ts[i + 1] is Assign,
        ts[i + 2] == SpecToken::Ident(y),
        ts[i + 3] is Semicolon,
        lookup_function(table, cf) matches Some(f)
            && lookup_variable(f, x) == Some(SVar { name: x, kind: VarKind::Scalar })
            && lookup_variable(f, y) == Some(SVar { name: y, kind: VarKind::Scalar }),
    ensures
        spec_statement(ts, i, table, cf, st) == (Outcome {
            res: Ok("%mov "@ + x + ", "@ + y + "\n"@),
            idx: i + 4,
            table,
            st,
        }),
{
    reveal_with_fuel(spec_statement, 1);
    reveal(spec_assignment);
    reveal(spec_target_index);
    reveal(spec_source_index);
    lemma_scalar_alone(ts, i + 2, table, cf, st, y);
    assert(Seq::<char>::empty() + "%mov "@ + x + ", "@ + y + "\n"@ =~= "%mov "@ + x + ", "@ + y + "\n"@);
}

/// A scalar `y` of the current function followed by `;` evaluates to `y`.
proof fn lemma_scalar_alone(ts: Seq<SpecToken>, j: int, table: Seq<SFunc>, cf: Seq<char>, st: SState, y: Seq<char>)
    requires
        0 <= j,
        j + 1 < ts.len(),
        ts[j] == SpecToken::Ident(y),
        ts[j + 1] is Semicolon,
        lookup_function(table, cf) matches Some(f) && lookup_variable(f, y) == Some(SVar { name: y, kind: VarKind::Scalar }),
    ensures
        spec_expression(ts, j, table, cf, st) == (ExprOutcome { res: Ok(SExpr { code: seq![], name: y }), idx: j + 1, st }),
{
    reveal_with_fuel(spec_expression, 2);
    reveal_with_fuel(spec_expression_rest, 2);
    reveal_with_fuel(spec_multiply, 2);
    reveal_with_fuel(spec_multiply_rest, 2);
    reveal_with_fuel(spec_term, 2);
    reveal_with_fuel(spec_call, 2);
    reveal_with_fuel(spec_call_args, 2);
    reveal_with_fuel(spec_variable, 2);
}

/// `f();` for a defined function `f` calls it into a fresh temporary.
pub proof fn law_call_statement(ts: Seq<SpecToken>, i: int, table: Seq<SFunc>, cf: Seq<char>, st: SState, name: Seq<char>)
    requires
        0 <= i,
        i + 3 < ts.len(),
        ts[i] == SpecToken::Ident(name),
        ts[i + 1] is LeftParen,
        ts[i + 2] is RightParen,
        ts[i + 3] is Semicolon,
        lookup_function(table, name) is Some,
    ensures
        spec_statement(ts, i, table, cf, st) == ({
            let t = temp_name(st.temp_counter);
            Outcome {
                res: Ok("%int "@ + t + "\n%call "@ + t + ", "@ + name + "()\n"@),
                idx: i + 4,
                table,
                st: next_temp(st),
            }
        }),
{
    reveal_with_fuel(spec_statement, 1);
    law_call_without_arguments(ts, i, table, cf, st, name);
}

/// An element `a[n]` of an array `a` of the current function, with a
/// number literal index `n`, standing alone as an expression, is moved
/// into a fresh temporary, which it evaluates to.
pub proof fn law_array_element(ts: Seq<SpecToken>, i: int, table: Seq<SFunc>, cf: Seq<char>, st: SState, a: Seq<char>, size: usize, n: i32)
    requires
        0 <= i,
        i + 4 < ts.len(),
        ts[i] == SpecToken::Ident(a),
        ts[i + 1] is LeftBracket,
        ts[i + 2] == SpecToken::Num(n),
        ts[i + 3] is RightBracket,
        additive_op(ts[i + 4]) is None,
        multiplicative_op(ts[i + 4]) is None,
        lookup_function(table, cf) matches Some(f) && lookup_variable(f, a) == Some(SVar { name: a, kind: VarKind::Array(size) }),
    ensures
        spec_expression(ts, i, table, cf, st) == ({
            let t = temp_name(st.temp_counter);
            ExprOutcome {
                res: Ok(SExpr { code: "%int "@ + t + "\n%mov "@ + t + ", ["@ + a + " + "@ + int_decimal(n as int) + "]\n"@, name: t }),
                idx: i + 4,
                st: next_temp(st),
            }
        }),
{
    let t = temp_name(st.temp_counter);
    law_number_literal(ts, i + 2, table, cf, st, n);
    let x = SExpr { code: Seq::<char>::empty() + "%int "@ + t + "\n%mov "@ + t + ", ["@ + a + " + "@ + int_decimal(n as int) + "]\n"@, name: t };
    assert(spec_term(ts, i, table, cf, st) == (ExprOutcome { res: Ok(x), idx: i + 4, st: next_temp(st) })) by {
        reveal_with_fuel(spec_expression, 1);
        reveal_with_fuel(spec_expression_rest, 1);
        reveal_with_fuel(spec_multiply, 1);
        reveal_with_fuel(spec_multiply_rest, 1);
        reveal_with_fuel(spec_term, 1);
        reveal_with_fuel(spec_call, 1);
        reveal_with_fuel(spec_call_args, 1);
        reveal_with_fuel(spec_variable, 1);
    }
    assert(spec_expression(ts, i, table, cf, st) == (ExprOutcome { res: Ok(x), idx: i + 4, st: next_temp(st) })) by {
        reveal_with_fuel(spec_expression, 1);
        reveal_with_fuel(spec_expression_rest, 1);
        reveal_with_fuel(spec_multiply, 1);
        reveal_with_fuel(spec_multiply_rest, 1);
        reveal_with_fuel(spec_term, 1);
        reveal_with_fuel(spec_call, 1);
        reveal_with_fuel(spec_call_args, 1);
        reveal_with_fuel(spec_variable, 1);
    }
    assert(x.code =~= "%int "@ + t + "\n%mov "@ + t + ", ["@ + a + " + "@ + int_decimal(n as int) + "]\n"@);
}

/// `a[n] = y;` for an array `a` and a scalar `y` of the current function
/// and a number literal index `n`: the index goes to a fresh temporary,
/// and `y` is moved into the element at that index.
pub proof fn law_assign_array_element(
    ts: Seq<SpecToken>,
    i: int,
    table: Seq<SFunc>,
    cf: Seq<char>,
    st: SState,
    a: Seq<char>,
    size: usize,
    n: i32,
    y: Seq<char>,
)
    requires
        0 <= i,
        i + 6 < ts.len(),
        ts[i] == SpecToken::Ident(a),
        ts[i + 1] is LeftBracket,
        ts[i + 2] == SpecToken::Num(n),
        ts[i + 3] is RightBracket,
        ts[i + 4] is Assign,
        ts[i + 5] == SpecToken::Ident(y),
        ts[i + 6] is Semicolon,
        lookup_function(table, cf) matches Some(f)
            && lookup_variable(f, a) == Some(SVar { name: a, kind: VarKind::Array(size) })
            && lookup_variable(f, y) == Some(SVar { name: y, kind: VarKind::Scalar }),
    ensures
        spec_statement(ts, i, table, cf, st) == ({
            let t = temp_name(st.temp_counter);
            Outcome {
                res: Ok("%int "@ + t + "\n"@ + "%mov "@ + t + ", "@ + int_decimal(n as int) + "\n"@ + "%mov ["@ + a
                    + " + "@ + t + "], "@ + y + "\n"@),
                idx: i + 7,
                table,
                st: next_temp(st),
            }
        }),
{
    reveal_with_fuel(spec_statement, 1);
    reveal(spec_assignment);
    reveal(spec_target_index);
    reveal(spec_source_index);
    law_number_literal(ts, i + 2, table, cf, st, n);
    lemma_scalar_alone(ts, i + 5, table, cf, st, y);
    let t = temp_name(st.temp_counter);
    assert(Seq::<char>::empty() + Seq::<char>::empty() + "%int "@ + t + "\n"@ + "%mov "@ + t + ", "@
        + int_decimal(n as int) + "\n"@ + "%mov ["@ + a + " + "@ + t + "], "@ + y + "\n"@ =~= "%int "@ + t + "\n"@
        + "%mov "@ + t + ", "@ + int_decimal(n as int) + "\n"@ + "%mov ["@ + a + " + "@ + t + "], "@ + y + "\n"@);
}

/* Blocks */

/// A block ends at its `}`: the code so far is the block's code, and the
/// table and state are left as they were.
pub proof fn law_block_end(ts: Seq<SpecToken>, i: int, table: Seq<SFunc>, cf: Seq<char>, st: SState, acc: Seq<char>)
    requires
        0 <= i < ts.len(),
        ts[i] is RightCurly,
    ensures
        spec_block(ts, i, table, cf, st, acc) == (Outcome { res: Ok(acc), idx: i, table, st }),
{
    reveal_with_fuel(spec_block, 1);
}

/// In a block, a statement that is accepted and consumes tokens is
/// followed by the statements after it: its code is appended to the code
/// so far, and the rest of the block is parsed with the table and state
/// it left, whatever the number of statements before it.
pub proof fn law_statements_in_sequence(ts: Seq<SpecToken>, i: int, table: Seq<SFunc>, cf: Seq<char>, st: SState, acc: Seq<char>)
    requires
        0 <= i < ts.len(),
        !(ts[i] is RightCurly),
        spec_statement(ts, i, table, cf, st).res is Ok,
        spec_statement(ts, i, table, cf, st).idx > i,
    ensures
        ({
            let s = spec_statement(ts, i, table, cf, st);
            spec_block(ts, i, table, cf, st, acc) == spec_block(ts, s.idx, s.table, cf, s.st, acc + s.res->Ok_0)
        }),
{
    reveal_with_fuel(spec_block, 1);
    reveal_with_fuel(spec_statement, 1);
    reveal_with_fuel(spec_while, 1);
    reveal_with_fuel(spec_if, 1);
}

/* Declarations */

/// The table with `var` appended to the locals of the function at `k`.
pub open spec fn with_local(table: Seq<SFunc>, k: int, var: SVar) -> Seq<SFunc> {
    table.update(k, SFunc { locals: table[k].locals.push(var), ..table[k] })
}

/// `int x;` for a name `x` that the current function does not declare
/// yet declares it and enters it as a scalar local.
pub proof fn law_declare_scalar(ts: Seq<SpecToken>, i: int, table: Seq<SFunc>, cf: Seq<char>, st: SState, x: Seq<char>, k: int)
    requires
        0 <= i,
        i + 2 < ts.len(),
        ts[i] is Int,
        ts[i + 1] == SpecToken::Ident(x),
        ts[i + 2] is Semicolon,
        function_index(table, cf) == Some(k),
        !has_var_named(table[k].locals, x),
        !has_var_named(table[k].params, x),
    ensures
        spec_statement(ts, i, table, cf, st) == (Outcome {
            res: Ok("%int "@ + x + "\n"@),
            idx: i + 3,
            table: with_local(table, k, SVar { name: x, kind: VarKind::Scalar }),
            st,
        }),
{
    reveal_with_fuel(spec_statement, 1);
    reveal(spec_declaration);
}

/// `int x = n;` for a number literal `n` and a name `x` that the current
/// function does not declare yet declares `x`, enters it as a scalar
/// local, and moves the decimal text of `n` into it.
pub proof fn law_declare_initialized(ts: Seq<SpecToken>, i: int, table: Seq<SFunc>, cf: Seq<char>, st: SState, x: Seq<char>, k: int, n: i32)
    requires
        0 <= i,
        i + 4 < ts.len(),
        ts[i] is Int,
        ts[i + 1] == SpecToken::Ident(x),
        ts[i + 2] is Assign,
        ts[i + 3] == SpecToken::Num(n),
        ts[i + 4] is Semicolon,
        function_index(table, cf) == Some(k),
        !has_var_named(table[k].locals, x),
        !has_var_named(table[k].params, x),
    ensures
        spec_statement(ts, i, table, cf, st) == (Outcome {
            res: Ok("%int "@ + x + "\n"@ + "%mov "@ + x + ", "@ + int_decimal(n as int) + "\n"@),
            idx: i + 5,
            table: with_local(table, k, SVar { name: x, kind: VarKind::Scalar }),
            st,
        }),
{
    reveal_with_fuel(spec_statement, 1);
    reveal(spec_declaration);
    let t2 = with_local(table, k, SVar { name: x, kind: VarKind::Scalar });
    law_number_literal(ts, i + 3, t2, cf, st, n);
    assert("%int "@ + x + "\n"@ + Seq::<char>::empty() + "%mov "@ + x + ", "@ + int_decimal(n as int) + "\n"@
        =~= "%int "@ + x + "\n"@ + "%mov "@ + x + ", "@ + int_decimal(n as int) + "\n"@);
}

/// `int [n] x;` for a positive size `n` and a name `x` that the current
/// function does not declare yet declares an array of `n` elements and
/// enters it as an array local of that size.
pub proof fn law_declare_array(ts: Seq<SpecToken>, i: int, table: Seq<SFunc>, cf: Seq<char>, st: SState, x: Seq<char>, k: int, n: i32)
    requires
        0 <= i,
        i + 5 < ts.len(),
        ts[i] is Int,
        ts[i + 1] is LeftBracket,
        ts[i + 2] == SpecToken::Num(n),
        ts[i + 3] is RightBracket,
        ts[i + 4] == SpecToken::Ident(x),
        ts[i + 5] is Semicolon,
        n > 0,
        function_index(table, cf) == Some(k),
        !has_var_named(table[k].locals, x),
        !has_var_named(table[k].params, x),
    ensures
        spec_statement(ts, i, table, cf, st) == (Outcome {
            res: Ok("%int[] "@ + x + ", "@ + int_decimal(n as int) + "\n"@),
            idx: i + 6,
            table: with_local(table, k, SVar { name: x, kind: VarKind::Array(n as usize) }),
            st,
        }),
{
    reveal_with_fuel(spec_statement, 1);
    reveal(spec_declaration);
    assert((n as usize) as nat == n as int);
}

/* Loops and conditionals */

/// The loop labels numbered `id`.
pub open spec fn loop_begin(id: int) -> Seq<char> {
    ":loopbegin"@ + int_decimal(id)
}

pub open spec fn loop_end(id: int) -> Seq<char> {
    ":endloop"@ + int_decimal(id)
}

/// `while a cmp b { }` with number literals: the loop takes the next loop
/// label number; its code is the begin label, the condition, a branch to
/// the end label when the condition fails, a jump back to the begin label,
/// and the end label. The loop stack is left as it was.
pub proof fn law_empty_while(ts: Seq<SpecToken>, i: int, table: Seq<SFunc>, cf: Seq<char>, st: SState, a: i32, b: i32)
    requires
        0 <= i,
        i + 5 < ts.len(),
        ts[i] is While,
        simple_condition_at(ts, i + 1, a, b),
        ts[i + 4] is LeftCurly,
        ts[i + 5] is RightCurly,
    ensures
        spec_statement(ts, i, table, cf, st) == ({
            let id = st.label_counter;
            let t = temp_name(st.temp_counter);
            Outcome {
                res: Ok(loop_begin(id) + "\n"@ + condition_code(ts, i + 1, a, b, t) + "%branch_ifn "@ + t + ", "@
                    + loop_end(id) + "\n"@ + "%jmp "@ + loop_begin(id) + "\n"@ + loop_end(id) + "\n"@),
                idx: i + 6,
                table,
                st: SState { label_counter: id + 1, temp_counter: st.temp_counter + 1, ..st },
            }
        }),
{
    reveal_with_fuel(spec_statement, 1);
    reveal_with_fuel(spec_while, 1);
    reveal_with_fuel(spec_block, 1);
    let id = st.label_counter;
    let st1 = SState {
        label_counter: id + 1,
        loop_stack: st.loop_stack.push(SLoop { begin: loop_begin(id), end: loop_end(id) }),
        ..st
    };
    law_simple_condition(ts, i + 1, table, cf, st1, a, b);
    assert(st1.loop_stack.drop_last() =~= st.loop_stack);
}

/// `while a cmp b { break; }` with number literals: the `break` jumps to
/// the end label of that loop.
pub proof fn law_while_with_break(ts: Seq<SpecToken>, i: int, table: Seq<SFunc>, cf: Seq<char>, st: SState, a: i32, b: i32)
    requires
        0 <= i,
        i + 7 < ts.len(),
        ts[i] is While,
        simple_condition_at(ts, i + 1, a, b),
        ts[i + 4] is LeftCurly,
        ts[i + 5] is Break,
        ts[i + 6] is Semicolon,
        ts[i + 7] is RightCurly,
    ensures
        spec_statement(ts, i, table, cf, st) == ({
            let id = st.label_counter;
            let t = temp_name(st.temp_counter);
            Outcome {
                res: Ok(loop_begin(id) + "\n"@ + condition_code(ts, i + 1, a, b, t) + "%branch_ifn "@ + t + ", "@
                    + loop_end(id) + "\n"@ + "%jmp "@ + loop_end(id) + "\n"@ + "%jmp "@ + loop_begin(id) + "\n"@
                    + loop_end(id) + "\n"@),
                idx: i + 8,
                table,
                st: SState { label_counter: id + 1, temp_counter: st.temp_counter + 1, ..st },
            }
        }),
{
    reveal_with_fuel(spec_statement, 2);
    reveal_with_fuel(spec_while, 1);
    reveal_with_fuel(spec_block, 2);
    reveal(spec_break);
    let id = st.label_counter;
    let t = temp_name(st.temp_counter);
    let st1 = SState {
        label_counter: id + 1,
        loop_stack: st.loop_stack.push(SLoop { begin: loop_begin(id), end: loop_end(id) }),
        ..st
    };
    law_simple_condition(ts, i + 1, table, cf, st1, a, b);
    let st2 = next_temp(st1);
    let head = loop_begin(id) + "\n"@ + condition_code(ts, i + 1, a, b, t) + "%branch_ifn "@ + t + ", "@
        + loop_end(id) + "\n"@;
    assert(st2.loop_stack.last() == SLoop { begin: loop_begin(id), end: loop_end(id) });
    assert(st1.loop_stack.drop_last() =~= st.loop_stack);
    assert(head + ("%jmp "@ + loop_end(id) + "\n"@) + "%jmp "@ + loop_begin(id) + "\n"@ + loop_end(id) + "\n"@
        =~= loop_begin(id) + "\n"@ + condition_code(ts, i + 1, a, b, t) + "%branch_ifn "@ + t + ", "@
        + loop_end(id) + "\n"@ + "%jmp "@ + loop_end(id) + "\n"@ + "%jmp "@ + loop_begin(id) + "\n"@
        + loop_end(id) + "\n"@);
}


/// The labels of the `if` numbered `n`.
pub open spec fn if_label(n: nat) -> Seq<char> {
    "iftrue"@ + nat_decimal(n)
}

pub open spec fn else_label(n: nat) -> Seq<char> {
    "else"@ + nat_decimal(n)
}

pub open spec fn endif_label(n: nat) -> Seq<char> {
    "endif"@ + nat_decimal(n)
}

/// `if a cmp b { }` (with no `else`) with number literals: the `if` takes
/// the next `if` label number; its code is the condition, a branch to the
/// true label when it holds, a jump to the end label, the true label and
/// the end label.
pub proof fn law_empty_if(ts: Seq<SpecToken>, i: int, table: Seq<SFunc>, cf: Seq<char>, st: SState, a: i32, b: i32)
    requires
        0 <= i,
        i + 6 < ts.len(),
        ts[i] is If,
        simple_condition_at(ts, i + 1, a, b),
        ts[i + 4] is LeftCurly,
        ts[i + 5] is RightCurly,
        !(ts[i + 6] is Else),
    ensures
        spec_statement(ts, i, table, cf, st) == ({
            let n = st.if_counter;
            let t = temp_name(st.temp_counter);
            Outcome {
                res: Ok(condition_code(ts, i + 1, a, b, t) + "%branch_if "@ + t + ", :"@ + if_label(n) + "\n"@
                    + "%jmp :"@ + endif_label(n) + "\n"@ + ":"@ + if_label(n) + "\n"@ + ":"@ + endif_label(n) + "\n"@),
                idx: i + 6,
                table,
                st: SState { if_counter: n + 1, temp_counter: st.temp_counter + 1, ..st },
            }
        }),
{
    reveal_with_fuel(spec_statement, 1);
    reveal_with_fuel(spec_if, 1);
    reveal_with_fuel(spec_block, 1);
    law_simple_condition(ts, i + 1, table, cf, st, a, b);
    let n = st.if_counter;
    let t = temp_name(st.temp_counter);
    let ir = condition_code(ts, i + 1, a, b, t) + "%branch_if "@ + t + ", :"@ + if_label(n) + "\n"@;
    assert(ir + "%jmp :"@ + endif_label(n) + "\n"@ + ":"@ + if_label(n) + "\n"@ + Seq::<char>::empty() + ":"@
        + endif_label(n) + "\n"@ =~= ir + "%jmp :"@ + endif_label(n) + "\n"@ + ":"@ + if_label(n) + "\n"@ + ":"@
        + endif_label(n) + "\n"@);
}

/// `if a cmp b { } else { }` with number literals: the code is the
/// condition, a branch to the true label when it holds, a jump to the else
/// label, the true label, a jump to the end label, the else label and the
/// end label.
pub proof fn law_empty_if_else(ts: Seq<SpecToken>, i: int, table: Seq<SFunc>, cf: Seq<char>, st: SState, a: i32, b: i32)
    requires
        0 <= i,
        i + 8 < ts.len(),
        ts[i] is If,
        simple_condition_at(ts, i + 1, a, b),
        ts[i + 4] is LeftCurly,
        ts[i + 5] is RightCurly,
        ts[i + 6] is Else,
        ts[i + 7] is LeftCurly,
        ts[i + 8] is RightCurly,
    ensures
        spec_statement(ts, i, table, cf, st) == ({
            let n = st.if_counter;
            let t = temp_name(st.temp_counter);
            Outcome {
                res: Ok(condition_code(ts, i + 1, a, b, t) + "%branch_if "@ + t + ", :"@ + if_label(n) + "\n"@
                    + "%jmp :"@ + else_label(n) + "\n"@ + ":"@ + if_label(n) + "\n"@ + "%jmp :"@ + endif_label(n)
                    + "\n"@ + ":"@ + else_label(n) + "\n"@ + ":"@ + endif_label(n) + "\n"@),
                idx: i + 9,
                table,
                st: SState { if_counter: n + 1, temp_counter: st.temp_counter + 1, ..st },
            }
        }),
{
    reveal_with_fuel(spec_statement, 1);
    reveal_with_fuel(spec_if, 1);
    reveal_with_fuel(spec_block, 1);
    law_simple_condition(ts, i + 1, table, cf, st, a, b);
    let n = st.if_counter;
    let t = temp_name(st.temp_counter);
    let ir2 = condition_code(ts, i + 1, a, b, t) + "%branch_if "@ + t + ", :"@ + if_label(n) + "\n"@ + "%jmp :"@
        + else_label(n) + "\n"@;
    assert(ir2 + ":"@ + if_label(n) + "\n"@ + Seq::<char>::empty() + "%jmp :"@ + endif_label(n) + "\n"@ + ":"@
        + else_label(n) + "\n"@ + Seq::<char>::empty() + ":"@ + endif_label(n) + "\n"@ =~= ir2 + ":"@ + if_label(n)
        + "\n"@ + "%jmp :"@ + endif_label(n) + "\n"@ + ":"@ + else_label(n) + "\n"@ + ":"@ + endif_label(n) + "\n"@);
}

} // verus!
