//! What the parser gives for inputs of given shapes: a number, one or two
//! arithmetic operations, a call with any number of arguments, a parameter
//! list of any length, a function and a whole program made of functions.
//! Each law states the result from the tokens alone.
use vstd::prelude::*;
use crate::lexer::token::SpecToken;
use crate::parser::program::{
    SFunc, SVar, SState, VarKind, function_index, lookup_function, var_index_from,
    has_var_named, initial_state,
};
use crate::parser::model::{
    SExpr, ExprOutcome, ArgsOutcome, Outcome, ParamsOutcome, additive_op, multiplicative_op, spec_expression,
    spec_expression_rest, spec_multiply, spec_multiply_rest, spec_term, spec_call, spec_call_args, next_temp,
    temp_name, combine_spec, spec_variable, spec_one_param, spec_more_params, spec_params, spec_function,
    spec_functions, spec_program, spec_block,
};
use crate::parser::laws::{
    lemma_function_index_from, lemma_function_index_push, lemma_function_index_update, lemma_has_var_named,
    lemma_var_index_from,
};
use crate::text::{int_decimal, join};

verus! {

/* Expressions */

/// An expression that is a number literal `n` alone (the next token is
/// no arithmetic operator) evaluates to the decimal text of `n`, with no
/// code, and uses no temporary.
pub proof fn law_number_literal(ts: Seq<SpecToken>, i: int, table: Seq<SFunc>, cf: Seq<char>, st: SState, n: i32)
    requires
        0 <= i,
        i + 1 < ts.len(),
        ts[i] == SpecToken::Num(n),
        additive_op(ts[i + 1]) is None,
        multiplicative_op(ts[i + 1]) is None,
    ensures
        spec_expression(ts, i, table, cf, st) == (ExprOutcome {
            res: Ok(SExpr { code: seq![], name: int_decimal(n as int) }),
            idx: i + 1,
            st,
        }),
{
    reveal_with_fuel(spec_expression, 1);
    reveal_with_fuel(spec_expression_rest, 1);
    reveal_with_fuel(spec_multiply, 1);
    reveal_with_fuel(spec_multiply_rest, 1);
    reveal_with_fuel(spec_term, 1);
}

/// A call `name()` of a defined function with no arguments, standing
/// alone as an expression, is accepted: it declares a fresh temporary
/// (the one after the `st.temp_counter` made before), calls `name()` into
/// it, and evaluates to that temporary.
pub proof fn law_call_without_arguments(
    ts: Seq<SpecToken>,
    i: int,
    table: Seq<SFunc>,
    cf: Seq<char>,
    st: SState,
    name: Seq<char>,
)
    requires
        0 <= i,
        i + 3 < ts.len(),
        ts[i] == SpecToken::Ident(name),
        ts[i + 1] is LeftParen,
        ts[i + 2] is RightParen,
        lookup_function(table, name) is Some,
        additive_op(ts[i + 3]) is None,
        multiplicative_op(ts[i + 3]) is None,
    ensures
        spec_expression(ts, i, table, cf, st) == ({
            let t = temp_name(st.temp_counter);
            ExprOutcome {
                res: Ok(SExpr { code: "%int "@ + t + "\n%call "@ + t + ", "@ + name + "()\n"@, name: t }),
                idx: i + 3,
                st: next_temp(st),
            }
        }),
{
    reveal_with_fuel(spec_expression, 1);
    reveal_with_fuel(spec_expression_rest, 1);
    reveal_with_fuel(spec_multiply, 1);
    reveal_with_fuel(spec_multiply_rest, 1);
    reveal_with_fuel(spec_term, 1);
    reveal_with_fuel(spec_call, 1);
    reveal_with_fuel(spec_call_args, 1);
    let t = temp_name(st.temp_counter);
    let e = spec_call(ts, i, table, cf, st, name);
    assert(join(seq![], ","@) == Seq::<char>::empty());
    assert(seq![] + "%int "@ + t + "\n%call "@ + t + ", "@ + name + "("@ + Seq::<char>::empty() + ")\n"@
        =~= "%int "@ + t + "\n%call "@ + t + ", "@ + name + "()\n"@) by {
        reveal_strlit("(");
        reveal_strlit(")\n");
        reveal_strlit("()\n");
    }
}

/// The tokens `n1 , n2 , ... , nk` of a list of number literals.
pub open spec fn number_list_tokens(ns: Seq<i32>) -> Seq<SpecToken> {
    Seq::new(
        if ns.len() == 0 { 0 } else { (2 * ns.len() - 1) as nat },
        |x: int| if x % 2 == 0 { SpecToken::Num(ns[x / 2]) } else { SpecToken::Comma },
    )
}

/// The decimal texts of the numbers `ns`.
pub open spec fn decimals(ns: Seq<i32>) -> Seq<Seq<char>> {
    ns.map_values(|n: i32| int_decimal(n as int))
}

proof fn lemma_number_list_token(ts: Seq<SpecToken>, j: int, ns: Seq<i32>, x: int)
    requires
        0 <= j,
        j + number_list_tokens(ns).len() <= ts.len(),
        ts.subrange(j, j + number_list_tokens(ns).len()) == number_list_tokens(ns),
        0 <= x < number_list_tokens(ns).len(),
    ensures
        ts[j + x] == number_list_tokens(ns)[x],
{
    assert(ts.subrange(j, j + number_list_tokens(ns).len())[x] == ts[j + x]);
}

/// The arguments from number `m` on are evaluated in turn.
proof fn lemma_number_arguments(ts: Seq<SpecToken>, j: int, table: Seq<SFunc>, cf: Seq<char>, st: SState, ns: Seq<i32>, m: int)
    requires
        0 <= j,
        j + number_list_tokens(ns).len() < ts.len(),
        ts.subrange(j, j + number_list_tokens(ns).len()) == number_list_tokens(ns),
        ts[j + number_list_tokens(ns).len()] is RightParen,
        0 <= m < ns.len(),
    ensures
        spec_call_args(ts, j + 2 * m, table, cf, st, seq![], decimals(ns.take(m))) == (ArgsOutcome {
            res: Ok((Seq::<char>::empty(), decimals(ns))),
            idx: j + number_list_tokens(ns).len(),
            st,
        }),
    decreases ns.len() - m,
{
    reveal_with_fuel(spec_expression, 1);
    reveal_with_fuel(spec_expression_rest, 1);
    reveal_with_fuel(spec_multiply, 1);
    reveal_with_fuel(spec_multiply_rest, 1);
    reveal_with_fuel(spec_term, 1);
    reveal_with_fuel(spec_call, 1);
    reveal_with_fuel(spec_call_args, 1);
    reveal_with_fuel(spec_variable, 1);
    let l = number_list_tokens(ns).len() as int;
    lemma_number_list_token(ts, j, ns, 2 * m);
    assert(number_list_tokens(ns)[2 * m] == SpecToken::Num(ns[m]));
    if m + 1 < ns.len() {
        lemma_number_list_token(ts, j, ns, 2 * m + 1);
        assert(ts[j + 2 * m + 1] is Comma);
    } else {
        assert(j + 2 * m + 1 == j + l);
    }
    law_number_literal(ts, j + 2 * m, table, cf, st, ns[m]);
    assert(decimals(ns.take(m)).push(int_decimal(ns[m] as int)) =~= decimals(ns.take(m + 1)));
    assert(Seq::<char>::empty() + Seq::<char>::empty() =~= Seq::<char>::empty());
    if m + 1 < ns.len() {
        lemma_number_arguments(ts, j, table, cf, st, ns, m + 1);
        assert(j + 2 * m + 1 + 1 == j + 2 * (m + 1));
    } else {
        assert(ns.take(m + 1) =~= ns);
    }
}

/// A call `name(n1, ..., nk)` of a defined function with number literal
/// arguments, standing alone as an expression, is accepted for every `k`:
/// it declares a fresh temporary and calls `name` into it with the decimal
/// texts of all `k` arguments, in order, separated by commas.
pub proof fn law_call_with_number_arguments(
    ts: Seq<SpecToken>,
    i: int,
    table: Seq<SFunc>,
    cf: Seq<char>,
    st: SState,
    name: Seq<char>,
    ns: Seq<i32>,
)
    requires
        0 <= i,
        i + 3 + number_list_tokens(ns).len() < ts.len(),
        ts[i] == SpecToken::Ident(name),
        ts[i + 1] is LeftParen,
        ts.subrange(i + 2, i + 2 + number_list_tokens(ns).len()) == number_list_tokens(ns),
        ts[i + 2 + number_list_tokens(ns).len()] is RightParen,
        lookup_function(table, name) is Some,
        additive_op(ts[i + 3 + number_list_tokens(ns).len()]) is None,
        multiplicative_op(ts[i + 3 + number_list_tokens(ns).len()]) is None,
    ensures
        spec_expression(ts, i, table, cf, st) == ({
            let t = temp_name(st.temp_counter);
            ExprOutcome {
                res: Ok(SExpr {
                    code: "%int "@ + t + "\n%call "@ + t + ", "@ + name + "("@ + join(decimals(ns), ","@) + ")\n"@,
                    name: t,
                }),
                idx: i + 3 + number_list_tokens(ns).len(),
                st: next_temp(st),
            }
        }),
{
    let l = number_list_tokens(ns).len() as int;
    let t = temp_name(st.temp_counter);
    if ns.len() == 0 {
        assert(decimals(ns) =~= Seq::<Seq<char>>::empty());
        law_call_without_arguments(ts, i, table, cf, st, name);
        assert("%int "@ + t + "\n%call "@ + t + ", "@ + name + "()\n"@ =~= "%int "@ + t + "\n%call "@ + t + ", "@
            + name + "("@ + join(decimals(ns), ","@) + ")\n"@) by {
            reveal_strlit("(");
            reveal_strlit(")\n");
            reveal_strlit("()\n");
        }
    } else {
        assert(decimals(ns.take(0)) =~= Seq::<Seq<char>>::empty());
        lemma_number_arguments(ts, i + 2, table, cf, st, ns, 0);
        let e = ExprOutcome {
            res: Ok(SExpr {
                code: Seq::<char>::empty() + "%int "@ + t + "\n%call "@ + t + ", "@ + name + "("@ + join(decimals(ns), ","@)
                    + ")\n"@,
                name: t,
            }),
            idx: i + 3 + l,
            st: next_temp(st),
        };
        let x = e.res->Ok_0;
        assert(spec_call(ts, i, table, cf, st, name) == e) by {
            reveal_with_fuel(spec_expression, 1);
            reveal_with_fuel(spec_expression_rest, 1);
            reveal_with_fuel(spec_multiply, 1);
            reveal_with_fuel(spec_multiply_rest, 1);
            reveal_with_fuel(spec_term, 1);
            reveal_with_fuel(spec_call, 1);
            reveal_with_fuel(spec_call_args, 1);
            reveal_with_fuel(spec_variable, 1);
        }
        assert(spec_term(ts, i, table, cf, st) == e) by {
            reveal_with_fuel(spec_expression, 1);
            reveal_with_fuel(spec_expression_rest, 1);
            reveal_with_fuel(spec_multiply, 1);
            reveal_with_fuel(spec_multiply_rest, 1);
            reveal_with_fuel(spec_term, 1);
            reveal_with_fuel(spec_call, 1);
            reveal_with_fuel(spec_call_args, 1);
            reveal_with_fuel(spec_variable, 1);
        }
        assert(spec_multiply(ts, i, table, cf, st) == spec_multiply_rest(ts, i + 3 + l, table, cf, next_temp(st), x)) by {
            reveal_with_fuel(spec_expression, 1);
            reveal_with_fuel(spec_expression_rest, 1);
            reveal_with_fuel(spec_multiply, 1);
            reveal_with_fuel(spec_multiply_rest, 1);
            reveal_with_fuel(spec_term, 1);
            reveal_with_fuel(spec_call, 1);
            reveal_with_fuel(spec_call_args, 1);
            reveal_with_fuel(spec_variable, 1);
        }
        lemma_multiply_rest_done(ts, i + 3 + l, table, cf, next_temp(st), x);
        lemma_expression_start(ts, i, table, cf, st, e);
        lemma_expression_rest_done(ts, i + 3 + l, table, cf, next_temp(st), x);
        assert(Seq::<char>::empty() + "%int "@ + t + "\n%call "@ + t + ", "@ + name + "("@ + join(decimals(ns), ","@)
            + ")\n"@ =~= "%int "@ + t + "\n%call "@ + t + ", "@ + name + "("@ + join(decimals(ns), ","@) + ")\n"@);
    }
}

/// The IR operation of an arithmetic operator token.
pub open spec fn arithmetic_ir(t: SpecToken) -> Option<Seq<char>> {
    match t {
        SpecToken::Plus => Some("add"@),
        SpecToken::Subtract => Some("sub"@),
        SpecToken::Multiply => Some("mult"@),
        SpecToken::Divide => Some("div"@),
        SpecToken::Modulus => Some("mod"@),
        _ => None,
    }
}

/// The operators that bind tighter than `+` and `-`.
pub open spec fn binds_tighter(t: SpecToken) -> bool {
    t is Multiply || t is Divide || t is Modulus
}

/// The code that declares the temporary `dest` and stores `l op r` in it.
pub open spec fn operation_code(dest: Seq<char>, op: Seq<char>, l: Seq<char>, r: Seq<char>) -> Seq<char> {
    "%int "@ + dest + "\n%"@ + op + " "@ + dest + ", "@ + l + ", "@ + r + "\n"@
}

/// The value of a number literal `n`: its decimal text, with no code.
pub open spec fn number_value(n: i32) -> SExpr {
    SExpr { code: seq![], name: int_decimal(n as int) }
}

proof fn lemma_multiply_number(ts: Seq<SpecToken>, j: int, table: Seq<SFunc>, cf: Seq<char>, st: SState, n: i32)
    requires
        0 <= j < ts.len(),
        ts[j] == SpecToken::Num(n),
    ensures
        spec_multiply(ts, j, table, cf, st) == spec_multiply_rest(ts, j + 1, table, cf, st, number_value(n)),
{
    reveal_with_fuel(spec_expression, 1);
    reveal_with_fuel(spec_expression_rest, 1);
    reveal_with_fuel(spec_multiply, 1);
    reveal_with_fuel(spec_multiply_rest, 1);
    reveal_with_fuel(spec_term, 1);
    reveal_with_fuel(spec_call, 1);
    reveal_with_fuel(spec_call_args, 1);
    reveal_with_fuel(spec_variable, 1);
}

proof fn lemma_multiply_rest_step(ts: Seq<SpecToken>, j: int, table: Seq<SFunc>, cf: Seq<char>, st: SState, acc: SExpr, n: i32)
    requires
        0 <= j,
        j + 1 < ts.len(),
        multiplicative_op(ts[j]) is Some,
        ts[j + 1] == SpecToken::Num(n),
    ensures
        spec_multiply_rest(ts, j, table, cf, st, acc) == spec_multiply_rest(ts, j + 2, table, cf, next_temp(st),
            combine_spec(acc, number_value(n), multiplicative_op(ts[j])->0, st.temp_counter)),
{
    reveal_with_fuel(spec_expression, 1);
    reveal_with_fuel(spec_expression_rest, 1);
    reveal_with_fuel(spec_multiply, 1);
    reveal_with_fuel(spec_multiply_rest, 2);
    reveal_with_fuel(spec_term, 2);
    reveal_with_fuel(spec_call, 1);
    reveal_with_fuel(spec_call_args, 1);
    reveal_with_fuel(spec_variable, 1);
}

/// Past the first term of a product, each `*`, `/` or `%` followed by a
/// term that evaluates to `r` combines the value so far with `r` into the
/// next fresh temporary, and the product goes on after that term, whatever
/// the number of terms before.
pub proof fn law_multiplicative_operand(
    ts: Seq<SpecToken>,
    j: int,
    table: Seq<SFunc>,
    cf: Seq<char>,
    st: SState,
    acc: SExpr,
    r: SExpr,
    k: int,
    st2: SState,
)
    requires
        0 <= j < k,
        multiplicative_op(ts[j]) is Some,
        spec_term(ts, j + 1, table, cf, st) == (ExprOutcome { res: Ok(r), idx: k, st: st2 }),
    ensures
        spec_multiply_rest(ts, j, table, cf, st, acc) == spec_multiply_rest(ts, k, table, cf, next_temp(st2),
            combine_spec(acc, r, multiplicative_op(ts[j])->0, st2.temp_counter)),
{
    reveal_with_fuel(spec_expression, 1);
    reveal_with_fuel(spec_expression_rest, 1);
    reveal_with_fuel(spec_multiply, 1);
    reveal_with_fuel(spec_multiply_rest, 1);
    reveal_with_fuel(spec_term, 1);
    reveal_with_fuel(spec_call, 1);
    reveal_with_fuel(spec_call_args, 1);
    reveal_with_fuel(spec_variable, 1);
}

proof fn lemma_multiply_rest_done(ts: Seq<SpecToken>, j: int, table: Seq<SFunc>, cf: Seq<char>, st: SState, acc: SExpr)
    requires
        0 <= j < ts.len(),
        multiplicative_op(ts[j]) is None,
    ensures
        spec_multiply_rest(ts, j, table, cf, st, acc) == (ExprOutcome { res: Ok(acc), idx: j, st }),
{
    reveal_with_fuel(spec_expression, 1);
    reveal_with_fuel(spec_expression_rest, 1);
    reveal_with_fuel(spec_multiply, 1);
    reveal_with_fuel(spec_multiply_rest, 1);
    reveal_with_fuel(spec_term, 1);
    reveal_with_fuel(spec_call, 1);
    reveal_with_fuel(spec_call_args, 1);
    reveal_with_fuel(spec_variable, 1);
}

/// Past the first operand of an expression, each `+` or `-` followed by an
/// operand (a product of terms) that evaluates to `r` combines the value so
/// far with `r` into the next fresh temporary, and the expression goes on
/// after that operand, whatever the number of operands before.
pub proof fn law_additive_operand(
    ts: Seq<SpecToken>,
    j: int,
    table: Seq<SFunc>,
    cf: Seq<char>,
    st: SState,
    acc: SExpr,
    r: SExpr,
    k: int,
    st2: SState,
)
    requires
        0 <= j < k,
        additive_op(ts[j]) is Some,
        spec_multiply(ts, j + 1, table, cf, st) == (ExprOutcome { res: Ok(r), idx: k, st: st2 }),
    ensures
        spec_expression_rest(ts, j, table, cf, st, acc) == spec_expression_rest(ts, k, table, cf, next_temp(st2),
            combine_spec(acc, r, additive_op(ts[j])->0, st2.temp_counter)),
{
    reveal_with_fuel(spec_expression, 1);
    reveal_with_fuel(spec_expression_rest, 1);
    reveal_with_fuel(spec_multiply, 1);
    reveal_with_fuel(spec_multiply_rest, 1);
    reveal_with_fuel(spec_term, 1);
    reveal_with_fuel(spec_call, 1);
    reveal_with_fuel(spec_call_args, 1);
    reveal_with_fuel(spec_variable, 1);
}

proof fn lemma_expression_rest_done(ts: Seq<SpecToken>, j: int, table: Seq<SFunc>, cf: Seq<char>, st: SState, acc: SExpr)
    requires
        0 <= j < ts.len(),
        additive_op(ts[j]) is None,
    ensures
        spec_expression_rest(ts, j, table, cf, st, acc) == (ExprOutcome { res: Ok(acc), idx: j, st }),
{
    reveal_with_fuel(spec_expression, 1);
    reveal_with_fuel(spec_expression_rest, 1);
    reveal_with_fuel(spec_multiply, 1);
    reveal_with_fuel(spec_multiply_rest, 1);
    reveal_with_fuel(spec_term, 1);
    reveal_with_fuel(spec_call, 1);
    reveal_with_fuel(spec_call_args, 1);
    reveal_with_fuel(spec_variable, 1);
}

proof fn lemma_expression_start(ts: Seq<SpecToken>, i: int, table: Seq<SFunc>, cf: Seq<char>, st: SState, m: ExprOutcome)
    requires
        0 <= i < ts.len(),
        spec_multiply(ts, i, table, cf, st) == m,
        m.res is Ok,
        m.idx >= i,
    ensures
        spec_expression(ts, i, table, cf, st) == spec_expression_rest(ts, m.idx, table, cf, m.st, m.res->Ok_0),
{
    reveal_with_fuel(spec_expression, 1);
    reveal_with_fuel(spec_expression_rest, 1);
    reveal_with_fuel(spec_multiply, 1);
    reveal_with_fuel(spec_multiply_rest, 1);
    reveal_with_fuel(spec_term, 1);
    reveal_with_fuel(spec_call, 1);
    reveal_with_fuel(spec_call_args, 1);
    reveal_with_fuel(spec_variable, 1);
}

/// `a op b` for number literals `a`, `b` and an arithmetic operator `op`,
/// standing alone, stores the result of `op` on the decimal texts of `a`
/// and `b` in one fresh temporary, and evaluates to it.
pub proof fn law_one_operation(ts: Seq<SpecToken>, i: int, table: Seq<SFunc>, cf: Seq<char>, st: SState, a: i32, b: i32)
    requires
        0 <= i,
        i + 3 < ts.len(),
        ts[i] == SpecToken::Num(a),
        arithmetic_ir(ts[i + 1]) is Some,
        ts[i + 2] == SpecToken::Num(b),
        arithmetic_ir(ts[i + 3]) is None,
    ensures
        spec_expression(ts, i, table, cf, st) == ({
            let t = temp_name(st.temp_counter);
            ExprOutcome {
                res: Ok(SExpr {
                    code: operation_code(t, arithmetic_ir(ts[i + 1])->0, int_decimal(a as int), int_decimal(b as int)),
                    name: t,
                }),
                idx: i + 3,
                st: next_temp(st),
            }
        }),
{
    let t = temp_name(st.temp_counter);
    let op = arithmetic_ir(ts[i + 1])->0;
    let (x, y) = (number_value(a), number_value(b));
    let e = combine_spec(x, y, op, st.temp_counter);
    assert(e.code =~= operation_code(t, op, x.name, y.name));
    lemma_multiply_number(ts, i, table, cf, st, a);
    if binds_tighter(ts[i + 1]) {
        lemma_multiply_rest_step(ts, i + 1, table, cf, st, x, b);
        lemma_multiply_rest_done(ts, i + 3, table, cf, next_temp(st), e);
        lemma_expression_start(ts, i, table, cf, st, ExprOutcome { res: Ok(e), idx: i + 3, st: next_temp(st) });
        lemma_expression_rest_done(ts, i + 3, table, cf, next_temp(st), e);
    } else {
        lemma_multiply_rest_done(ts, i + 1, table, cf, st, x);
        lemma_expression_start(ts, i, table, cf, st, ExprOutcome { res: Ok(x), idx: i + 1, st });
        lemma_multiply_number(ts, i + 2, table, cf, st, b);
        lemma_multiply_rest_done(ts, i + 3, table, cf, st, y);
        law_additive_operand(ts, i + 1, table, cf, st, x, y, i + 3, st);
        lemma_expression_rest_done(ts, i + 3, table, cf, next_temp(st), e);
    }
}

/// `a op1 b op2 c` for number literals and arithmetic operators, standing
/// alone: `*`, `/` and `%` bind tighter than `+` and `-`, and operators
/// that bind alike apply from left to right. The first operation applied
/// goes to one fresh temporary, the second, which uses it, to the next.
pub proof fn law_two_operations(
    ts: Seq<SpecToken>,
    i: int,
    table: Seq<SFunc>,
    cf: Seq<char>,
    st: SState,
    a: i32,
    b: i32,
    c: i32,
)
    requires
        0 <= i,
        i + 5 < ts.len(),
        ts[i] == SpecToken::Num(a),
        arithmetic_ir(ts[i + 1]) is Some,
        ts[i + 2] == SpecToken::Num(b),
        arithmetic_ir(ts[i + 3]) is Some,
        ts[i + 4] == SpecToken::Num(c),
        arithmetic_ir(ts[i + 5]) is None,
    ensures
        spec_expression(ts, i, table, cf, st) == ({
            let t1 = temp_name(st.temp_counter);
            let t2 = temp_name(st.temp_counter + 1);
            let (x, y, z) = (int_decimal(a as int), int_decimal(b as int), int_decimal(c as int));
            let (o1, o2) = (arithmetic_ir(ts[i + 1])->0, arithmetic_ir(ts[i + 3])->0);
            ExprOutcome {
                res: Ok(SExpr {
                    code: if !binds_tighter(ts[i + 1]) && binds_tighter(ts[i + 3]) {
                        operation_code(t1, o2, y, z) + operation_code(t2, o1, x, t1)
                    } else {
                        operation_code(t1, o1, x, y) + operation_code(t2, o2, t1, z)
                    },
                    name: t2,
                }),
                idx: i + 5,
                st: next_temp(next_temp(st)),
            }
        }),
{
    let n = st.temp_counter;
    let (o1, o2) = (arithmetic_ir(ts[i + 1])->0, arithmetic_ir(ts[i + 3])->0);
    let (x, y, z) = (number_value(a), number_value(b), number_value(c));
    let (t1, t2) = (temp_name(n), temp_name(n + 1));
    if !binds_tighter(ts[i + 1]) && binds_tighter(ts[i + 3]) {
        lemma_right_first(ts, i, table, cf, st, a, b, c);
        let e1 = combine_spec(y, z, o2, n);
        lemma_combine_code(y, z, o2, n);
        lemma_combine_code(x, e1, o1, n + 1);
        assert(combine_spec(x, e1, o1, n + 1).code =~= operation_code(t1, o2, y.name, z.name)
            + operation_code(t2, o1, x.name, t1));
    } else {
        lemma_left_first(ts, i, table, cf, st, a, b, c);
        let e1 = combine_spec(x, y, o1, n);
        lemma_combine_code(x, y, o1, n);
        lemma_combine_code(e1, z, o2, n + 1);
        assert(combine_spec(e1, z, o2, n + 1).code =~= operation_code(t1, o1, x.name, y.name)
            + operation_code(t2, o2, t1, z.name));
    }
}

pub(crate) proof fn lemma_combine_code(l: SExpr, r: SExpr, op: Seq<char>, n: nat)
    ensures
        combine_spec(l, r, op, n).code == l.code + r.code + operation_code(temp_name(n), op, l.name, r.name),
        combine_spec(l, r, op, n).name == temp_name(n),
{
    let d = temp_name(n);
    assert(combine_spec(l, r, op, n).code =~= l.code + r.code + operation_code(d, op, l.name, r.name));
}

/// `a op1 b op2 c` where `op2` binds tighter than `op1`: `b op2 c` first.
proof fn lemma_right_first(ts: Seq<SpecToken>, i: int, table: Seq<SFunc>, cf: Seq<char>, st: SState, a: i32, b: i32, c: i32)
    requires
        0 <= i,
        i + 5 < ts.len(),
        ts[i] == SpecToken::Num(a),
        arithmetic_ir(ts[i + 1]) is Some,
        ts[i + 2] == SpecToken::Num(b),
        arithmetic_ir(ts[i + 3]) is Some,
        ts[i + 4] == SpecToken::Num(c),
        arithmetic_ir(ts[i + 5]) is None,
        !binds_tighter(ts[i + 1]),
        binds_tighter(ts[i + 3]),
    ensures
        spec_expression(ts, i, table, cf, st) == (ExprOutcome {
            res: Ok(combine_spec(number_value(a), combine_spec(number_value(b), number_value(c),
                arithmetic_ir(ts[i + 3])->0, st.temp_counter), arithmetic_ir(ts[i + 1])->0, st.temp_counter + 1)),
            idx: i + 5,
            st: next_temp(next_temp(st)),
        }),
{
    let n = st.temp_counter;
    let s1 = next_temp(st);
    let (o1, o2) = (arithmetic_ir(ts[i + 1])->0, arithmetic_ir(ts[i + 3])->0);
    let (x, y, z) = (number_value(a), number_value(b), number_value(c));
    let e1 = combine_spec(y, z, o2, n);
    let e2 = combine_spec(x, e1, o1, n + 1);
    lemma_multiply_number(ts, i, table, cf, st, a);
    lemma_multiply_rest_done(ts, i + 1, table, cf, st, x);
    lemma_expression_start(ts, i, table, cf, st, ExprOutcome { res: Ok(x), idx: i + 1, st });
    lemma_multiply_number(ts, i + 2, table, cf, st, b);
    lemma_multiply_rest_step(ts, i + 3, table, cf, st, y, c);
    lemma_multiply_rest_done(ts, i + 5, table, cf, s1, e1);
    law_additive_operand(ts, i + 1, table, cf, st, x, e1, i + 5, s1);
    lemma_expression_rest_done(ts, i + 5, table, cf, next_temp(s1), e2);
}

/// `a op1 b op2 c` where `op2` does not bind tighter than `op1`:
/// `a op1 b` first.
proof fn lemma_left_first(ts: Seq<SpecToken>, i: int, table: Seq<SFunc>, cf: Seq<char>, st: SState, a: i32, b: i32, c: i32)
    requires
        0 <= i,
        i + 5 < ts.len(),
        ts[i] == SpecToken::Num(a),
        arithmetic_ir(ts[i + 1]) is Some,
        ts[i + 2] == SpecToken::Num(b),
        arithmetic_ir(ts[i + 3]) is Some,
        ts[i + 4] == SpecToken::Num(c),
        arithmetic_ir(ts[i + 5]) is None,
        !(!binds_tighter(ts[i + 1]) && binds_tighter(ts[i + 3])),
    ensures
        spec_expression(ts, i, table, cf, st) == (ExprOutcome {
            res: Ok(combine_spec(combine_spec(number_value(a), number_value(b), arithmetic_ir(ts[i + 1])->0,
                st.temp_counter), number_value(c), arithmetic_ir(ts[i + 3])->0, st.temp_counter + 1)),
            idx: i + 5,
            st: next_temp(next_temp(st)),
        }),
{
    let n = st.temp_counter;
    let s1 = next_temp(st);
    let s2 = next_temp(s1);
    let (o1, o2) = (arithmetic_ir(ts[i + 1])->0, arithmetic_ir(ts[i + 3])->0);
    let (x, y, z) = (number_value(a), number_value(b), number_value(c));
    let e1 = combine_spec(x, y, o1, n);
    let e2 = combine_spec(e1, z, o2, n + 1);
    lemma_multiply_number(ts, i, table, cf, st, a);
    if binds_tighter(ts[i + 1]) {
        lemma_multiply_rest_step(ts, i + 1, table, cf, st, x, b);
        if binds_tighter(ts[i + 3]) {
            lemma_multiply_rest_step(ts, i + 3, table, cf, s1, e1, c);
            lemma_multiply_rest_done(ts, i + 5, table, cf, s2, e2);
            lemma_expression_start(ts, i, table, cf, st, ExprOutcome { res: Ok(e2), idx: i + 5, st: s2 });
            lemma_expression_rest_done(ts, i + 5, table, cf, s2, e2);
        } else {
            lemma_multiply_rest_done(ts, i + 3, table, cf, s1, e1);
            lemma_expression_start(ts, i, table, cf, st, ExprOutcome { res: Ok(e1), idx: i + 3, st: s1 });
            lemma_multiply_number(ts, i + 4, table, cf, s1, c);
            lemma_multiply_rest_done(ts, i + 5, table, cf, s1, z);
            law_additive_operand(ts, i + 3, table, cf, s1, e1, z, i + 5, s1);
            lemma_expression_rest_done(ts, i + 5, table, cf, s2, e2);
        }
    } else {
        lemma_multiply_rest_done(ts, i + 1, table, cf, st, x);
        lemma_expression_start(ts, i, table, cf, st, ExprOutcome { res: Ok(x), idx: i + 1, st });
        lemma_multiply_number(ts, i + 2, table, cf, st, b);
        lemma_multiply_rest_done(ts, i + 3, table, cf, st, y);
        law_additive_operand(ts, i + 1, table, cf, st, x, y, i + 3, st);
        lemma_multiply_number(ts, i + 4, table, cf, s1, c);
        lemma_multiply_rest_done(ts, i + 5, table, cf, s1, z);
        law_additive_operand(ts, i + 3, table, cf, s1, e1, z, i + 5, s1);
        lemma_expression_rest_done(ts, i + 5, table, cf, s2, e2);
    }
}

/* Parameter lists */

/// The tokens `int p1 , int p2 , ... , int pk` of a parameter list with
/// the names `ps`.
pub open spec fn param_tokens(ps: Seq<Seq<char>>) -> Seq<SpecToken> {
    Seq::new(
        if ps.len() == 0 { 0 } else { (3 * ps.len() - 1) as nat },
        |x: int|
            if x % 3 == 0 {
                SpecToken::Int
            } else if x % 3 == 1 {
                SpecToken::Ident(ps[x / 3])
            } else {
                SpecToken::Comma
            },
    )
}

/// The IR of each parameter: `%int name`.
pub open spec fn param_irs(ps: Seq<Seq<char>>) -> Seq<Seq<char>> {
    ps.map_values(|p: Seq<char>| "%int "@ + p)
}

/// The table entries of the parameters: scalar variables.
pub open spec fn param_vars(ps: Seq<Seq<char>>) -> Seq<SVar> {
    ps.map_values(|p: Seq<char>| SVar { name: p, kind: VarKind::Scalar })
}

/// No name occurs twice in `ps`.
pub open spec fn distinct_names(ps: Seq<Seq<char>>) -> bool {
    forall|a: int, b: int| 0 <= a < b < ps.len() ==> ps[a] != ps[b]
}

/// The table with the entry at `k` holding the first `m` names of `ps` as
/// its parameters.
pub open spec fn with_params(table: Seq<SFunc>, k: int, ps: Seq<Seq<char>>, m: int) -> Seq<SFunc> {
    table.update(k, SFunc { params: param_vars(ps.take(m)), ..table[k] })
}

proof fn lemma_param_token(ts: Seq<SpecToken>, j: int, ps: Seq<Seq<char>>, x: int)
    requires
        0 <= j,
        j + param_tokens(ps).len() <= ts.len(),
        ts.subrange(j, j + param_tokens(ps).len()) == param_tokens(ps),
        0 <= x < param_tokens(ps).len(),
    ensures
        ts[j + x] == param_tokens(ps)[x],
{
    assert(ts.subrange(j, j + param_tokens(ps).len())[x] == ts[j + x]);
}

/// Parameter `m` (counted from 0) is entered and its IR appended.
proof fn lemma_one_param_step(ts: Seq<SpecToken>, j: int, table: Seq<SFunc>, fname: Seq<char>, k: int, ps: Seq<Seq<char>>, m: int)
    requires
        0 <= j,
        j + param_tokens(ps).len() <= ts.len(),
        ts.subrange(j, j + param_tokens(ps).len()) == param_tokens(ps),
        function_index(table, fname) == Some(k),
        table[k].params == Seq::<SVar>::empty(),
        table[k].locals == Seq::<SVar>::empty(),
        distinct_names(ps),
        0 <= m < ps.len(),
    ensures
        spec_one_param(ts, j + 3 * m, with_params(table, k, ps, m), fname, param_irs(ps.take(m))) == (ParamsOutcome {
            res: Ok(param_irs(ps.take(m + 1))),
            idx: j + 3 * m + 2,
            table: with_params(table, k, ps, m + 1),
        }),
{
    reveal(spec_one_param);
    lemma_function_index_from(table, fname, 0);
    lemma_param_token(ts, j, ps, 3 * m);
    lemma_param_token(ts, j, ps, 3 * m + 1);
    assert(param_tokens(ps)[3 * m] == SpecToken::Int);
    assert((3 * m + 1) / 3 == m);
    assert(param_tokens(ps)[3 * m + 1] == SpecToken::Ident(ps[m]));
    let tm = with_params(table, k, ps, m);
    let var = SVar { name: ps[m], kind: VarKind::Scalar };
    lemma_function_index_update(table, k, SFunc { params: param_vars(ps.take(m)), ..table[k] }, fname, 0);
    assert(tm[k].params == param_vars(ps.take(m)));
    lemma_has_var_named(param_vars(ps.take(m)), ps[m]);
    lemma_var_index_from(param_vars(ps.take(m)), ps[m], 0);
    if has_var_named(param_vars(ps.take(m)), ps[m]) {
        let q = var_index_from(param_vars(ps.take(m)), ps[m], 0)->0;
        assert(param_vars(ps.take(m))[q].name == ps[q]);
        assert(false);
    }
    assert(!has_var_named(tm[k].locals, ps[m]));
    assert(param_vars(ps.take(m)).push(var) =~= param_vars(ps.take(m + 1)));
    assert(param_irs(ps.take(m)).push("%int "@ + ps[m]) =~= param_irs(ps.take(m + 1)));
    assert(tm.update(k, SFunc { params: param_vars(ps.take(m + 1)), ..tm[k] }) =~= with_params(table, k, ps, m + 1));
}

/// The parameters after the first `m` (`1 <= m`) are entered in turn.
proof fn lemma_more_params_steps(ts: Seq<SpecToken>, j: int, table: Seq<SFunc>, fname: Seq<char>, k: int, ps: Seq<Seq<char>>, m: int)
    requires
        0 <= j,
        j + param_tokens(ps).len() < ts.len(),
        ts.subrange(j, j + param_tokens(ps).len()) == param_tokens(ps),
        ts[j + param_tokens(ps).len()] is RightParen,
        function_index(table, fname) == Some(k),
        table[k].params == Seq::<SVar>::empty(),
        table[k].locals == Seq::<SVar>::empty(),
        distinct_names(ps),
        1 <= m <= ps.len(),
    ensures
        spec_more_params(ts, j + 3 * m - 1, with_params(table, k, ps, m), fname, param_irs(ps.take(m))) == (ParamsOutcome {
            res: Ok(param_irs(ps)),
            idx: j + param_tokens(ps).len(),
            table: with_params(table, k, ps, ps.len() as int),
        }),
    decreases ps.len() - m,
{
    reveal_with_fuel(spec_more_params, 1);
    if m < ps.len() {
        lemma_param_token(ts, j, ps, 3 * m - 1);
        assert((3 * m - 1) % 3 == 2);
        lemma_one_param_step(ts, j, table, fname, k, ps, m);
        lemma_more_params_steps(ts, j, table, fname, k, ps, m + 1);
    } else {
        assert(ps.take(m) =~= ps);
    }
}

/// A parameter list `int p1, ..., int pk` of distinct names followed by
/// `)` is accepted for every `k`, for a function that has no variables
/// yet: the IR lists every parameter in order, and each is entered, in
/// order, as a scalar parameter of that function.
pub proof fn law_parameter_list(ts: Seq<SpecToken>, j: int, table: Seq<SFunc>, fname: Seq<char>, k: int, ps: Seq<Seq<char>>)
    requires
        0 <= j,
        j + param_tokens(ps).len() < ts.len(),
        ts.subrange(j, j + param_tokens(ps).len()) == param_tokens(ps),
        ts[j + param_tokens(ps).len()] is RightParen,
        function_index(table, fname) == Some(k),
        table[k].params == Seq::<SVar>::empty(),
        table[k].locals == Seq::<SVar>::empty(),
        distinct_names(ps),
    ensures
        spec_params(ts, j, table, fname) == (ParamsOutcome {
            res: Ok(param_irs(ps)),
            idx: j + param_tokens(ps).len(),
            table: table.update(k, SFunc { params: param_vars(ps), ..table[k] }),
        }),
{
    reveal(spec_params);
    lemma_function_index_from(table, fname, 0);
    assert(ps.take(ps.len() as int) =~= ps);
    if ps.len() == 0 {
        assert(param_irs(ps) =~= Seq::<Seq<char>>::empty());
        assert(param_vars(ps) =~= Seq::<SVar>::empty());
        assert(SFunc { params: param_vars(ps), ..table[k] } == table[k]);
        assert(table.update(k, SFunc { params: param_vars(ps), ..table[k] }) =~= table);
    } else {
        lemma_param_token(ts, j, ps, 0);
        assert(with_params(table, k, ps, 0) =~= table) by {
            assert(param_vars(ps.take(0)) =~= Seq::<SVar>::empty());
        }
        assert(param_irs(ps.take(0)) =~= Seq::<Seq<char>>::empty());
        lemma_one_param_step(ts, j, table, fname, k, ps, 0);
        lemma_more_params_steps(ts, j, table, fname, k, ps, 1);
    }
}

/* Functions and programs */

/// The tokens of `func name(int p1, ..., int pk) { }`.
pub open spec fn empty_function_tokens(name: Seq<char>, ps: Seq<Seq<char>>) -> Seq<SpecToken> {
    seq![SpecToken::Func, SpecToken::Ident(name), SpecToken::LeftParen] + param_tokens(ps)
        + seq![SpecToken::RightParen, SpecToken::LeftCurly, SpecToken::RightCurly]
}

/// The IR of `func name(int p1, ..., int pk) { }`: its header listing the
/// parameters, then its end.
pub open spec fn empty_function_ir(name: Seq<char>, ps: Seq<Seq<char>>) -> Seq<char> {
    "%func "@ + name + "("@ + join(param_irs(ps), ", "@) + ")\n"@ + "%endfunc\n"@
}

/// The table entry of a function with the parameters `ps` and no locals.
pub open spec fn function_entry(name: Seq<char>, ps: Seq<Seq<char>>) -> SFunc {
    SFunc { name, params: param_vars(ps), locals: seq![] }
}

/// A function `func name(int p1, ..., int pk) { }` with a new name and
/// distinct parameter names is accepted whatever `k`: its IR is its header
/// with every parameter, then `%endfunc`; it is appended to the table with
/// its parameters, and the code generation state is left as it was.
pub proof fn law_function_with_parameters(
    ts: Seq<SpecToken>,
    i: int,
    table: Seq<SFunc>,
    st: SState,
    name: Seq<char>,
    ps: Seq<Seq<char>>,
)
    requires
        0 <= i,
        i + empty_function_tokens(name, ps).len() <= ts.len(),
        ts.subrange(i, i + empty_function_tokens(name, ps).len()) == empty_function_tokens(name, ps),
        function_index(table, name) is None,
        distinct_names(ps),
    ensures
        spec_function(ts, i, table, st) == (Outcome {
            res: Ok(empty_function_ir(name, ps)),
            idx: i + empty_function_tokens(name, ps).len(),
            table: table.push(function_entry(name, ps)),
            st,
        }),
{
    reveal(spec_function);
    reveal_with_fuel(spec_block, 1);
    let toks = empty_function_tokens(name, ps);
    let lp = param_tokens(ps).len() as int;
    assert forall|x: int| 0 <= x < toks.len() implies #[trigger] ts[i + x] == toks[x] by {
        assert(ts.subrange(i, i + toks.len())[x] == ts[i + x]);
    }
    assert(ts[i] == toks[0]);
    assert(ts[i + 1] == toks[1]);
    assert(ts[i + 2] == toks[2]);
    assert(ts[i + 3 + lp] == toks[3 + lp]);
    assert(ts[i + 4 + lp] == toks[4 + lp]);
    assert(ts[i + 5 + lp] == toks[5 + lp]);
    let entry0 = SFunc { name, params: seq![], locals: seq![] };
    let t1 = table.push(entry0);
    lemma_function_index_push(table, entry0, name, 0);
    assert(ts.subrange(i + 3, i + 3 + lp) =~= param_tokens(ps)) by {
        assert forall|x: int| 0 <= x < lp implies #[trigger] ts.subrange(i + 3, i + 3 + lp)[x] == param_tokens(ps)[x] by {
            assert(ts[i + (3 + x)] == toks[3 + x]);
        }
    }
    law_parameter_list(ts, i + 3, t1, name, table.len() as int, ps);
    assert(t1.update(table.len() as int, SFunc { params: param_vars(ps), ..t1[table.len() as int] })
        =~= table.push(function_entry(name, ps)));
}

/// The header of a function `name` with the parameters `ps`.
pub open spec fn function_header(name: Seq<char>, ps: Seq<Seq<char>>) -> Seq<char> {
    "%func "@ + name + "("@ + join(param_irs(ps), ", "@) + ")\n"@
}

/// A function `func name(int p1, ..., int pk) { body }` with a new name
/// and distinct parameter names: the body is parsed from after `{` with
/// the function entered with its parameters, and with the header as the
/// code before it; when the body is accepted and `}` closes it, the
/// function's IR is that code followed by `%endfunc`, whatever `k`.
pub proof fn law_function_with_body(
    ts: Seq<SpecToken>,
    i: int,
    table: Seq<SFunc>,
    st: SState,
    name: Seq<char>,
    ps: Seq<Seq<char>>,
)
    requires
        0 <= i,
        i + 5 + param_tokens(ps).len() < ts.len(),
        ts[i] is Func,
        ts[i + 1] == SpecToken::Ident(name),
        ts[i + 2] is LeftParen,
        ts.subrange(i + 3, i + 3 + param_tokens(ps).len()) == param_tokens(ps),
        ts[i + 3 + param_tokens(ps).len()] is RightParen,
        ts[i + 4 + param_tokens(ps).len()] is LeftCurly,
        function_index(table, name) is None,
        distinct_names(ps),
    ensures
        ({
            let b = spec_block(ts, i + 5 + param_tokens(ps).len(), table.push(function_entry(name, ps)), name, st,
                function_header(name, ps));
            spec_function(ts, i, table, st) == match b.res {
                Ok(code) => if ts[b.idx] is RightCurly {
                    Outcome { res: Ok(code + "%endfunc\n"@), idx: b.idx + 1, ..b }
                } else {
                    Outcome { res: Err("Expected '}'"@), ..b }
                },
                Err(e) => b,
            }
        }),
{
    reveal(spec_function);
    let lp = param_tokens(ps).len() as int;
    let entry0 = SFunc { name, params: seq![], locals: seq![] };
    let t1 = table.push(entry0);
    lemma_function_index_push(table, entry0, name, 0);
    law_parameter_list(ts, i + 3, t1, name, table.len() as int, ps);
    assert(t1.update(table.len() as int, SFunc { params: param_vars(ps), ..t1[table.len() as int] })
        =~= table.push(function_entry(name, ps)));
}

/// The tokens of a sequence of functions `func name(params) { }`, one for
/// each name and parameter list of `defs`, in order.
pub open spec fn functions_tokens(defs: Seq<(Seq<char>, Seq<Seq<char>>)>) -> Seq<SpecToken>
    decreases defs.len(),
{
    if defs.len() == 0 {
        seq![]
    } else {
        empty_function_tokens(defs[0].0, defs[0].1) + functions_tokens(defs.drop_first())
    }
}

/// The IR of those functions: the IR of each in turn.
pub open spec fn functions_ir(defs: Seq<(Seq<char>, Seq<Seq<char>>)>) -> Seq<char>
    decreases defs.len(),
{
    if defs.len() == 0 {
        seq![]
    } else {
        empty_function_ir(defs[0].0, defs[0].1) + functions_ir(defs.drop_first())
    }
}

/// The table entries of those functions, in order.
pub open spec fn functions_table(defs: Seq<(Seq<char>, Seq<Seq<char>>)>) -> Seq<SFunc> {
    defs.map_values(|d: (Seq<char>, Seq<Seq<char>>)| function_entry(d.0, d.1))
}

/// No two of `defs` share a name, and no parameter list names a
/// parameter twice.
pub open spec fn functions_well_named(defs: Seq<(Seq<char>, Seq<Seq<char>>)>) -> bool {
    &&& forall|a: int, b: int| 0 <= a < b < defs.len() ==> defs[a].0 != defs[b].0
    &&& forall|a: int| 0 <= a < defs.len() ==> distinct_names(#[trigger] defs[a].1)
}

proof fn lemma_functions_run(
    ts: Seq<SpecToken>,
    i: int,
    table: Seq<SFunc>,
    st: SState,
    acc: Seq<char>,
    defs: Seq<(Seq<char>, Seq<Seq<char>>)>,
)
    requires
        0 <= i <= ts.len(),
        ts.subrange(i, ts.len() as int) == functions_tokens(defs).push(SpecToken::End),
        functions_well_named(defs),
        forall|a: int| 0 <= a < defs.len() ==> function_index(table, (#[trigger] defs[a]).0) is None,
    ensures
        spec_functions(ts, i, table, st, acc) == (Outcome {
            res: Ok(acc + functions_ir(defs)),
            idx: ts.len() - 1,
            table: table + functions_table(defs),
            st,
        }),
    decreases defs.len(),
{
    reveal_with_fuel(spec_functions, 1);
    let rest = ts.subrange(i, ts.len() as int);
    assert(rest.len() == ts.len() - i);
    assert(functions_tokens(defs).push(SpecToken::End).len() >= 1);
    if defs.len() == 0 {
        assert(rest[0] == ts[i]);
        assert(acc + functions_ir(defs) =~= acc);
        assert(table + functions_table(defs) =~= table);
    } else {
        let d = defs[0];
        let toks = empty_function_tokens(d.0, d.1);
        let l = toks.len() as int;
        let tail = defs.drop_first();
        assert(rest[0] == ts[i]);
        assert(ts.subrange(i, i + l) =~= toks) by {
            assert forall|x: int| 0 <= x < l implies #[trigger] ts.subrange(i, i + l)[x] == toks[x] by {
                assert(rest[x] == ts[i + x]);
                assert(rest[x] == functions_tokens(defs).push(SpecToken::End)[x]);
                assert(functions_tokens(defs)[x] == toks[x]);
            }
        }
        assert(toks[0] == SpecToken::Func);
        law_function_with_parameters(ts, i, table, st, d.0, d.1);
        assert(ts.subrange(i + l, ts.len() as int) =~= functions_tokens(tail).push(SpecToken::End)) by {
            assert forall|x: int| 0 <= x < ts.len() - (i + l) implies #[trigger] ts.subrange(i + l, ts.len() as int)[x]
                == functions_tokens(tail).push(SpecToken::End)[x] by {
                assert(rest[l + x] == ts[i + l + x]);
                assert(rest[l + x] == functions_tokens(defs).push(SpecToken::End)[l + x]);
            }
        }
        let t2 = table.push(function_entry(d.0, d.1));
        assert forall|a: int| 0 <= a < tail.len() implies function_index(t2, (#[trigger] tail[a]).0) is None by {
            assert(tail[a] == defs[a + 1]);
            lemma_function_index_push(table, function_entry(d.0, d.1), tail[a].0, 0);
        }
        assert(functions_well_named(tail)) by {
            assert forall|a: int| 0 <= a < tail.len() implies distinct_names(#[trigger] tail[a].1) by {
                assert(tail[a] == defs[a + 1]);
            }
        }
        lemma_functions_run(ts, i + l, t2, st, acc + empty_function_ir(d.0, d.1), tail);
        assert(acc + empty_function_ir(d.0, d.1) + functions_ir(tail) =~= acc + functions_ir(defs));
        assert(t2 + functions_table(tail) =~= table + functions_table(defs));
    }
}

/// A program made of any number of functions `func name(params) { }`,
/// with distinct function names, distinct parameter names in each, and
/// one function named `main`, is accepted: its IR is the IR of each
/// function in turn, and its table holds each function with its
/// parameters, in order.
pub proof fn law_program_of_functions(defs: Seq<(Seq<char>, Seq<Seq<char>>)>)
    requires
        functions_well_named(defs),
        exists|m: int| 0 <= m < defs.len() && (#[trigger] defs[m]).0 == "main"@,
    ensures
        spec_program(functions_tokens(defs).push(SpecToken::End), 0) == (Outcome {
            res: Ok(functions_ir(defs)),
            idx: functions_tokens(defs).len() as int,
            table: functions_table(defs),
            st: initial_state(),
        }),
{
    reveal(spec_program);
    let ts = functions_tokens(defs).push(SpecToken::End);
    assert(ts.subrange(0, ts.len() as int) =~= ts);
    lemma_functions_run(ts, 0, seq![], initial_state(), seq![], defs);
    assert(Seq::<char>::empty() + functions_ir(defs) =~= functions_ir(defs));
    assert(Seq::<SFunc>::empty() + functions_table(defs) =~= functions_table(defs));
    let m = choose|m: int| 0 <= m < defs.len() && (#[trigger] defs[m]).0 == "main"@;
    lemma_function_index_from(functions_table(defs), "main"@, 0);
    assert(functions_table(defs)[m].name == "main"@);
}

/// In a program, a function that is accepted is followed by the functions
/// after it: the IR of the functions from `i` on is that function's IR,
/// then the IR of the functions after it, which are parsed with the table
/// and state that function left, whatever the number of functions before.
pub proof fn law_functions_in_sequence(ts: Seq<SpecToken>, i: int, table: Seq<SFunc>, st: SState, acc: Seq<char>)
    requires
        0 <= i < ts.len(),
        !(ts[i] is End),
        spec_function(ts, i, table, st).res is Ok,
        spec_function(ts, i, table, st).idx > i,
    ensures
        ({
            let f = spec_function(ts, i, table, st);
            spec_functions(ts, i, table, st, acc) == spec_functions(ts, f.idx, f.table, f.st, acc + f.res->Ok_0)
        }),
{
    reveal_with_fuel(spec_functions, 1);
}

} // verus!
