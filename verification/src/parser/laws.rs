//! Properties of the parser that hold for every input: what the symbol
//! table gives back after an insertion, the names it keeps apart, the
//! loop stack that statements leave as they found it, the freshness of
//! temporaries, and the semantic checks that refuse a program.
use vstd::prelude::*;
use crate::lexer::token::SpecToken;
use crate::parser::program::{
    SFunc, SVar, SState, SLoop, VarKind, function_index_from, var_index_from, lookup_function, lookup_variable,
    has_var_named, spec_add_function, spec_add_local, spec_add_param,
};
use crate::parser::model::{
    SExpr, remaining, additive_op, multiplicative_op, spec_expression, spec_expression_rest, spec_multiply,
    spec_multiply_rest, spec_term, spec_call, spec_call_args, spec_variable, spec_boolean,
    spec_target_index, spec_source_index, spec_statement, spec_block, spec_while, spec_if, spec_declaration,
    spec_return, spec_print, spec_read, spec_break, spec_continue, spec_assignment, spec_function,
    spec_functions, spec_program, temp_name, spec_one_param, spec_more_params, spec_params,
};
use crate::text::{int_decimal, nat_decimal};

verus! {

/* Facts about the searches */

/// The first index at or after `i` of a function named `name`.
pub proof fn lemma_function_index_from(fs: Seq<SFunc>, name: Seq<char>, i: int)
    requires
        0 <= i,
    ensures
        match function_index_from(fs, name, i) {
            Some(k) => i <= k < fs.len() && fs[k].name == name
                && forall|j: int| i <= j < k ==> (#[trigger] fs[j]).name != name,
            None => forall|j: int| i <= j < fs.len() ==> (#[trigger] fs[j]).name != name,
        },
    decreases fs.len() - i,
{
    if i < fs.len() {
        lemma_function_index_from(fs, name, i + 1);
    }
}

/// The first index at or after `i` of a variable named `name`.
pub proof fn lemma_var_index_from(vs: Seq<SVar>, name: Seq<char>, i: int)
    requires
        0 <= i,
    ensures
        match var_index_from(vs, name, i) {
            Some(k) => i <= k < vs.len() && vs[k].name == name
                && forall|j: int| i <= j < k ==> (#[trigger] vs[j]).name != name,
            None => forall|j: int| i <= j < vs.len() ==> (#[trigger] vs[j]).name != name,
        },
    decreases vs.len() - i,
{
    if i < vs.len() {
        lemma_var_index_from(vs, name, i + 1);
    }
}

pub(crate) proof fn lemma_has_var_named(vs: Seq<SVar>, name: Seq<char>)
    ensures
        has_var_named(vs, name) <==> var_index_from(vs, name, 0) is Some,
{
    lemma_var_index_from(vs, name, 0);
    if var_index_from(vs, name, 0) is Some {
        let k = var_index_from(vs, name, 0)->0;
        assert(vs[k].name == name);
    }
}

pub(crate) proof fn lemma_function_index_push(fs: Seq<SFunc>, x: SFunc, name: Seq<char>, i: int)
    requires
        0 <= i <= fs.len(),
    ensures
        function_index_from(fs.push(x), name, i) == (match function_index_from(fs, name, i) {
            Some(k) => Some(k),
            None => if x.name == name { Some(fs.len() as int) } else { None },
        }),
    decreases fs.len() - i,
{
    reveal_with_fuel(function_index_from, 2);
    if i < fs.len() {
        lemma_function_index_push(fs, x, name, i + 1);
    }
}

proof fn lemma_var_index_push(vs: Seq<SVar>, x: SVar, name: Seq<char>, i: int)
    requires
        0 <= i <= vs.len(),
    ensures
        var_index_from(vs.push(x), name, i) == (match var_index_from(vs, name, i) {
            Some(k) => Some(k),
            None => if x.name == name { Some(vs.len() as int) } else { None },
        }),
    decreases vs.len() - i,
{
    reveal_with_fuel(var_index_from, 2);
    if i < vs.len() {
        lemma_var_index_push(vs, x, name, i + 1);
    }
}

pub(crate) proof fn lemma_function_index_update(fs: Seq<SFunc>, k: int, g: SFunc, name: Seq<char>, i: int)
    requires
        0 <= k < fs.len(),
        g.name == fs[k].name,
        0 <= i,
    ensures
        function_index_from(fs.update(k, g), name, i) == function_index_from(fs, name, i),
    decreases fs.len() - i,
{
    if i < fs.len() {
        lemma_function_index_update(fs, k, g, name, i + 1);
    }
}

/// The variables of `f` after `var` is appended to its locals (or to its
/// parameters): `var` is found under its name, and every other name finds
/// what it found before.
proof fn lemma_lookup_after_append(f: SFunc, var: SVar, to_params: bool, other: Seq<char>)
    requires
        lookup_variable(f, var.name) is None,
        other != var.name,
    ensures
        ({
            let g = if to_params { SFunc { params: f.params.push(var), ..f } } else { SFunc { locals: f.locals.push(var), ..f } };
            &&& lookup_variable(g, var.name) == Some(var)
            &&& lookup_variable(g, other) == lookup_variable(f, other)
        }),
{
    lemma_var_index_push(f.params, var, var.name, 0);
    lemma_var_index_push(f.locals, var, var.name, 0);
    lemma_var_index_push(f.params, var, other, 0);
    lemma_var_index_push(f.locals, var, other, 0);
    lemma_var_index_from(f.params, other, 0);
    lemma_var_index_from(f.locals, other, 0);
}

/* Reading back what was added */

/// Adding a function is refused exactly when a function of that name
/// exists, and then leaves the table as it was; otherwise the new function,
/// with no parameters and no locals, is found under its name, and every
/// other name finds what it found before.
pub proof fn law_add_function_then_lookup(fs: Seq<SFunc>, name: Seq<char>, other: Seq<char>)
    requires
        other != name,
    ensures
        ({
            let (r, fs2) = spec_add_function(fs, name);
            &&& (r is Ok <==> lookup_function(fs, name) is None)
            &&& r is Err ==> fs2 == fs
            &&& r is Ok ==> lookup_function(fs2, name) == Some(SFunc { name, params: seq![], locals: seq![] })
            &&& lookup_function(fs2, other) == lookup_function(fs, other)
        }),
{
    let x = SFunc { name, params: seq![], locals: seq![] };
    lemma_function_index_push(fs, x, name, 0);
    lemma_function_index_push(fs, x, other, 0);
    lemma_function_index_from(fs, other, 0);
}

/// Adding a local variable to function `fname` is refused exactly when no
/// function is named `fname`, the variable is an array of size 0, or the
/// function already has a parameter or a local of that name, and then
/// leaves the table as it was. Otherwise the variable is found in the
/// function under its name; other names in that function, and other
/// functions, find what they found before.
pub proof fn law_add_local_then_lookup(
    fs: Seq<SFunc>,
    fname: Seq<char>,
    var: SVar,
    other_var: Seq<char>,
    other_func: Seq<char>,
)
    requires
        other_var != var.name,
        other_func != fname,
    ensures
        ({
            let (r, fs2) = spec_add_local(fs, fname, var);
            &&& (r is Ok <==> (lookup_function(fs, fname) matches Some(f)
                && !(var.kind is Array && var.kind->Array_0 == 0)
                && lookup_variable(f, var.name) is None))
            &&& r is Err ==> fs2 == fs
            &&& r is Ok ==> (lookup_function(fs2, fname) matches Some(g)
                && g.name == fname
                && g.params == lookup_function(fs, fname)->0.params
                && lookup_variable(g, var.name) == Some(var)
                && lookup_variable(g, other_var) == lookup_variable(lookup_function(fs, fname)->0, other_var))
            &&& lookup_function(fs2, other_func) == lookup_function(fs, other_func)
        }),
{
    lemma_function_index_from(fs, fname, 0);
    lemma_function_index_from(fs, other_func, 0);
    match function_index_from(fs, fname, 0) {
        None => {},
        Some(k) => {
            let f = fs[k];
            let (r, locals) = crate::parser::program::spec_add_variable(f.locals, f.params, var);
            let g = SFunc { locals, ..f };
            lemma_function_index_update(fs, k, g, fname, 0);
            lemma_function_index_update(fs, k, g, other_func, 0);
            lemma_has_var_named(f.params, var.name);
            lemma_has_var_named(f.locals, var.name);
            if r is Err {
                assert(fs.update(k, g) =~= fs);
            } else {
                lemma_lookup_after_append(f, var, false, other_var);
            }
        },
    }
}

/// Adding a parameter to function `fname` is refused and accepted on the
/// same inputs as adding a local; once accepted, the parameter is found in
/// the function under its name, and other names and other functions find
/// what they found before.
pub proof fn law_add_param_then_lookup(
    fs: Seq<SFunc>,
    fname: Seq<char>,
    var: SVar,
    other_var: Seq<char>,
    other_func: Seq<char>,
)
    requires
        other_var != var.name,
        other_func != fname,
    ensures
        ({
            let (r, fs2) = spec_add_param(fs, fname, var);
            &&& (r is Ok <==> (lookup_function(fs, fname) matches Some(f)
                && !(var.kind is Array && var.kind->Array_0 == 0)
                && lookup_variable(f, var.name) is None))
            &&& r is Err ==> fs2 == fs
            &&& r is Ok ==> (lookup_function(fs2, fname) matches Some(g)
                && g.name == fname
                && g.locals == lookup_function(fs, fname)->0.locals
                && lookup_variable(g, var.name) == Some(var)
                && lookup_variable(g, other_var) == lookup_variable(lookup_function(fs, fname)->0, other_var))
            &&& lookup_function(fs2, other_func) == lookup_function(fs, other_func)
        }),
{
    lemma_function_index_from(fs, fname, 0);
    lemma_function_index_from(fs, other_func, 0);
    match function_index_from(fs, fname, 0) {
        None => {},
        Some(k) => {
            let f = fs[k];
            let (r, params) = crate::parser::program::spec_add_variable(f.params, f.locals, var);
            let g = SFunc { params, ..f };
            lemma_function_index_update(fs, k, g, fname, 0);
            lemma_function_index_update(fs, k, g, other_func, 0);
            lemma_has_var_named(f.params, var.name);
            lemma_has_var_named(f.locals, var.name);
            if r is Err {
                assert(fs.update(k, g) =~= fs);
            } else {
                lemma_lookup_after_append(f, var, true, other_var);
            }
        },
    }
}

/* Names kept apart */

/// No two variables of `vs` share a name.
pub open spec fn distinct_var_names(vs: Seq<SVar>) -> bool {
    forall|a: int, b: int| #![trigger vs[a], vs[b]] 0 <= a < b < vs.len() ==> vs[a].name != vs[b].name
}

/// No two functions share a name, and within each function no two
/// variables (parameters and locals together) share a name.
pub open spec fn well_named(fs: Seq<SFunc>) -> bool {
    &&& forall|a: int, b: int| #![trigger fs[a], fs[b]] 0 <= a < b < fs.len() ==> fs[a].name != fs[b].name
    &&& forall|k: int| 0 <= k < fs.len() ==> distinct_var_names(#[trigger] fs[k].params + fs[k].locals)
}

/// The checks on insertion keep names apart: from a table in which no
/// name is defined twice, adding a function, a parameter or a local gives
/// a table in which no name is defined twice.
pub proof fn law_insertions_keep_names_apart(fs: Seq<SFunc>, name: Seq<char>, fname: Seq<char>, var: SVar)
    requires
        well_named(fs),
    ensures
        well_named(spec_add_function(fs, name).1),
        well_named(spec_add_local(fs, fname, var).1),
        well_named(spec_add_param(fs, fname, var).1),
{
    // a new function
    lemma_function_index_from(fs, name, 0);
    if function_index_from(fs, name, 0) is None {
        let x = SFunc { name, params: seq![], locals: seq![] };
        let fs2 = fs.push(x);
        assert(x.params + x.locals =~= seq![]);
        assert forall|k: int| 0 <= k < fs2.len() implies distinct_var_names(#[trigger] fs2[k].params + fs2[k].locals) by {
            if k < fs.len() {
                assert(fs2[k] == fs[k]);
            }
        }
        assert(well_named(fs2));
    }
    // a new local or parameter
    lemma_function_index_from(fs, fname, 0);
    if function_index_from(fs, fname, 0) is Some {
        let k = function_index_from(fs, fname, 0)->0;
        let f = fs[k];
        let t = f.params + f.locals;
        lemma_has_var_named(f.params, var.name);
        lemma_has_var_named(f.locals, var.name);
        if !has_var_named(f.params, var.name) && !has_var_named(f.locals, var.name) {
            assert forall|a: int| 0 <= a < t.len() implies (#[trigger] t[a]).name != var.name by {
                if a < f.params.len() {
                    assert(t[a] == f.params[a]);
                } else {
                    assert(t[a] == f.locals[a - f.params.len()]);
                }
            }
            // as a local
            let gl = SFunc { locals: f.locals.push(var), ..f };
            let tl = gl.params + gl.locals;
            assert(tl =~= t.push(var));
            assert(distinct_var_names(tl));
            let fl = fs.update(k, gl);
            assert forall|j: int| 0 <= j < fl.len() implies distinct_var_names(#[trigger] fl[j].params + fl[j].locals) by {
                if j != k {
                    assert(fl[j] == fs[j]);
                }
            }
            assert(well_named(fl));
            // as a parameter
            let gp = SFunc { params: f.params.push(var), ..f };
            let tp = gp.params + gp.locals;
            let np = f.params.len() as int;
            assert forall|a: int| 0 <= a < tp.len() implies (#[trigger] tp[a]) == (if a < np { t[a] } else if a == np { var } else { t[a - 1] }) by {
                if a < np {
                    assert(tp[a] == f.params[a]);
                } else if a > np {
                    assert(tp[a] == f.locals[a - np - 1]);
                    assert(t[a - 1] == f.locals[a - 1 - np]);
                }
            }
            assert forall|a: int, b: int| 0 <= a < b < tp.len() implies (#[trigger] tp[a]).name != (#[trigger] tp[b]).name by {
                let ia = if a < np { a } else { a - 1 };
                let ib = if b < np { b } else { b - 1 };
                if a != np && b != np {
                    assert(t[ia].name != t[ib].name);
                } else if a == np {
                    assert(t[ib].name != var.name);
                } else {
                    assert(t[ia].name != var.name);
                }
            }
            let fp = fs.update(k, gp);
            assert forall|j: int| 0 <= j < fp.len() implies distinct_var_names(#[trigger] fp[j].params + fp[j].locals) by {
                if j != k {
                    assert(fp[j] == fs[j]);
                }
            }
            assert(well_named(fp));
        } else {
            let (rl, locals) = crate::parser::program::spec_add_variable(f.locals, f.params, var);
            assert(fs.update(k, SFunc { locals, ..f }) =~= fs);
            let (rp, params) = crate::parser::program::spec_add_variable(f.params, f.locals, var);
            assert(fs.update(k, SFunc { params, ..f }) =~= fs);
        }
        if var.kind is Array && var.kind->Array_0 == 0 {
            let (rl, locals) = crate::parser::program::spec_add_variable(f.locals, f.params, var);
            assert(fs.update(k, SFunc { locals, ..f }) =~= fs);
            let (rp, params) = crate::parser::program::spec_add_variable(f.params, f.locals, var);
            assert(fs.update(k, SFunc { params, ..f }) =~= fs);
        }
    }
}

/* What expressions leave alone */

/// The parts of the code generation state that an expression leaves as it
/// found them: the loop stack, the loop label counter and the `if` counter.
pub open spec fn same_frame(s0: SState, s1: SState) -> bool {
    &&& s1.loop_stack == s0.loop_stack
    &&& s1.label_counter == s0.label_counter
    &&& s1.if_counter == s0.if_counter
}

proof fn lemma_expression_frame(ts: Seq<SpecToken>, i: int, table: Seq<SFunc>, cf: Seq<char>, st: SState)
    ensures
        same_frame(st, spec_expression(ts, i, table, cf, st).st),
    decreases remaining(ts.len(), i), 3nat,
{
    reveal_with_fuel(spec_expression, 1); reveal_with_fuel(spec_expression_rest, 1); reveal_with_fuel(spec_multiply, 1); reveal_with_fuel(spec_multiply_rest, 1); reveal_with_fuel(spec_term, 1); reveal_with_fuel(spec_call, 1); reveal_with_fuel(spec_call_args, 1); reveal_with_fuel(spec_variable, 1);
    if 0 <= i < ts.len() {
        lemma_multiply_frame(ts, i, table, cf, st);
        let m = spec_multiply(ts, i, table, cf, st);
        if m.res is Ok && m.idx >= i {
            lemma_expression_rest_frame(ts, m.idx, table, cf, m.st, m.res->Ok_0);
        }
    }
}

proof fn lemma_expression_rest_frame(ts: Seq<SpecToken>, i: int, table: Seq<SFunc>, cf: Seq<char>, st: SState, acc: SExpr)
    ensures
        same_frame(st, spec_expression_rest(ts, i, table, cf, st, acc).st),
    decreases remaining(ts.len(), i), 0nat,
{
    reveal_with_fuel(spec_expression, 1); reveal_with_fuel(spec_expression_rest, 1); reveal_with_fuel(spec_multiply, 1); reveal_with_fuel(spec_multiply_rest, 1); reveal_with_fuel(spec_term, 1); reveal_with_fuel(spec_call, 1); reveal_with_fuel(spec_call_args, 1); reveal_with_fuel(spec_variable, 1);
    if 0 <= i < ts.len() && additive_op(ts[i]) is Some {
        lemma_multiply_frame(ts, i + 1, table, cf, st);
        let m = spec_multiply(ts, i + 1, table, cf, st);
        if m.res is Ok && m.idx > i {
            let acc2 = crate::parser::model::combine_spec(acc, m.res->Ok_0, additive_op(ts[i])->0, m.st.temp_counter);
            lemma_expression_rest_frame(ts, m.idx, table, cf, crate::parser::model::next_temp(m.st), acc2);
        }
    }
}

proof fn lemma_multiply_frame(ts: Seq<SpecToken>, i: int, table: Seq<SFunc>, cf: Seq<char>, st: SState)
    ensures
        same_frame(st, spec_multiply(ts, i, table, cf, st).st),
    decreases remaining(ts.len(), i), 2nat,
{
    reveal_with_fuel(spec_expression, 1); reveal_with_fuel(spec_expression_rest, 1); reveal_with_fuel(spec_multiply, 1); reveal_with_fuel(spec_multiply_rest, 1); reveal_with_fuel(spec_term, 1); reveal_with_fuel(spec_call, 1); reveal_with_fuel(spec_call_args, 1); reveal_with_fuel(spec_variable, 1);
    if 0 <= i < ts.len() {
        lemma_term_frame(ts, i, table, cf, st);
        let m = spec_term(ts, i, table, cf, st);
        if m.res is Ok && m.idx >= i {
            lemma_multiply_rest_frame(ts, m.idx, table, cf, m.st, m.res->Ok_0);
        }
    }
}

proof fn lemma_multiply_rest_frame(ts: Seq<SpecToken>, i: int, table: Seq<SFunc>, cf: Seq<char>, st: SState, acc: SExpr)
    ensures
        same_frame(st, spec_multiply_rest(ts, i, table, cf, st, acc).st),
    decreases remaining(ts.len(), i), 0nat,
{
    reveal_with_fuel(spec_expression, 1); reveal_with_fuel(spec_expression_rest, 1); reveal_with_fuel(spec_multiply, 1); reveal_with_fuel(spec_multiply_rest, 1); reveal_with_fuel(spec_term, 1); reveal_with_fuel(spec_call, 1); reveal_with_fuel(spec_call_args, 1); reveal_with_fuel(spec_variable, 1);
    if 0 <= i < ts.len() && multiplicative_op(ts[i]) is Some {
        lemma_term_frame(ts, i + 1, table, cf, st);
        let m = spec_term(ts, i + 1, table, cf, st);
        if m.res is Ok && m.idx > i {
            let acc2 = crate::parser::model::combine_spec(acc, m.res->Ok_0, multiplicative_op(ts[i])->0, m.st.temp_counter);
            lemma_multiply_rest_frame(ts, m.idx, table, cf, crate::parser::model::next_temp(m.st), acc2);
        }
    }
}

proof fn lemma_term_frame(ts: Seq<SpecToken>, i: int, table: Seq<SFunc>, cf: Seq<char>, st: SState)
    ensures
        same_frame(st, spec_term(ts, i, table, cf, st).st),
    decreases remaining(ts.len(), i), 1nat,
{
    reveal_with_fuel(spec_expression, 1); reveal_with_fuel(spec_expression_rest, 1); reveal_with_fuel(spec_multiply, 1); reveal_with_fuel(spec_multiply_rest, 1); reveal_with_fuel(spec_term, 1); reveal_with_fuel(spec_call, 1); reveal_with_fuel(spec_call_args, 1); reveal_with_fuel(spec_variable, 1);
    if 0 <= i < ts.len() {
        match ts[i] {
            SpecToken::Ident(name) => {
                if ts[i + 1] is LeftParen {
                    lemma_call_frame(ts, i, table, cf, st, name);
                } else {
                    lemma_variable_frame(ts, i, table, cf, st, name);
                }
            },
            SpecToken::LeftParen => {
                lemma_expression_frame(ts, i + 1, table, cf, st);
            },
            _ => {},
        }
    }
}

proof fn lemma_call_frame(ts: Seq<SpecToken>, i: int, table: Seq<SFunc>, cf: Seq<char>, st: SState, name: Seq<char>)
    ensures
        same_frame(st, spec_call(ts, i, table, cf, st, name).st),
    decreases remaining(ts.len(), i), 0nat,
{
    reveal_with_fuel(spec_expression, 1); reveal_with_fuel(spec_expression_rest, 1); reveal_with_fuel(spec_multiply, 1); reveal_with_fuel(spec_multiply_rest, 1); reveal_with_fuel(spec_term, 1); reveal_with_fuel(spec_call, 1); reveal_with_fuel(spec_call_args, 1); reveal_with_fuel(spec_variable, 1);
    if 0 <= i < ts.len() && lookup_function(table, name) is Some {
        lemma_call_args_frame(ts, i + 2, table, cf, st, seq![], seq![]);
    }
}

proof fn lemma_call_args_frame(
    ts: Seq<SpecToken>,
    i: int,
    table: Seq<SFunc>,
    cf: Seq<char>,
    st: SState,
    code: Seq<char>,
    args: Seq<Seq<char>>,
)
    ensures
        same_frame(st, spec_call_args(ts, i, table, cf, st, code, args).st),
    decreases remaining(ts.len(), i), 4nat,
{
    reveal_with_fuel(spec_expression, 1); reveal_with_fuel(spec_expression_rest, 1); reveal_with_fuel(spec_multiply, 1); reveal_with_fuel(spec_multiply_rest, 1); reveal_with_fuel(spec_term, 1); reveal_with_fuel(spec_call, 1); reveal_with_fuel(spec_call_args, 1); reveal_with_fuel(spec_variable, 1);
    if 0 <= i < ts.len() && !(ts[i] is RightParen) {
        lemma_expression_frame(ts, i, table, cf, st);
        let a = spec_expression(ts, i, table, cf, st);
        if a.res is Ok && ts[a.idx] is Comma && a.idx >= i {
            let x = a.res->Ok_0;
            lemma_call_args_frame(ts, a.idx + 1, table, cf, a.st, code + x.code, args.push(x.name));
        }
    }
}

proof fn lemma_variable_frame(ts: Seq<SpecToken>, i: int, table: Seq<SFunc>, cf: Seq<char>, st: SState, name: Seq<char>)
    ensures
        same_frame(st, spec_variable(ts, i, table, cf, st, name).st),
    decreases remaining(ts.len(), i), 0nat,
{
    reveal_with_fuel(spec_expression, 1); reveal_with_fuel(spec_expression_rest, 1); reveal_with_fuel(spec_multiply, 1); reveal_with_fuel(spec_multiply_rest, 1); reveal_with_fuel(spec_term, 1); reveal_with_fuel(spec_call, 1); reveal_with_fuel(spec_call_args, 1); reveal_with_fuel(spec_variable, 1);
    if 0 <= i < ts.len() {
        lemma_expression_frame(ts, i + 2, table, cf, st);
    }
}

/// Expressions, conditions and the index expressions of an assignment
/// change no part of the state but the temporary counter.
pub proof fn lemma_expressions_keep_frame()
    ensures
        forall|ts: Seq<SpecToken>, i: int, table: Seq<SFunc>, cf: Seq<char>, st: SState|
            same_frame(st, #[trigger] spec_expression(ts, i, table, cf, st).st),
        forall|ts: Seq<SpecToken>, i: int, table: Seq<SFunc>, cf: Seq<char>, st: SState|
            same_frame(st, #[trigger] spec_boolean(ts, i, table, cf, st).st),
        forall|ts: Seq<SpecToken>, i: int, table: Seq<SFunc>, cf: Seq<char>, st: SState, ident: Seq<char>, kind: VarKind|
            same_frame(st, #[trigger] spec_target_index(ts, i, table, cf, st, ident, kind).st),
        forall|ts: Seq<SpecToken>, i: int, table: Seq<SFunc>, cf: Seq<char>, st: SState, f: SFunc, rhs: SExpr|
            same_frame(st, #[trigger] spec_source_index(ts, i, table, cf, st, f, rhs).st),
{
    assert forall|ts: Seq<SpecToken>, i: int, table: Seq<SFunc>, cf: Seq<char>, st: SState|
        same_frame(st, #[trigger] spec_expression(ts, i, table, cf, st).st) by {
        lemma_expression_frame(ts, i, table, cf, st);
    }
    assert forall|ts: Seq<SpecToken>, i: int, table: Seq<SFunc>, cf: Seq<char>, st: SState|
        same_frame(st, #[trigger] spec_boolean(ts, i, table, cf, st).st) by {
        reveal(spec_boolean);
        lemma_expression_frame(ts, i, table, cf, st);
        let l = spec_expression(ts, i, table, cf, st);
        lemma_expression_frame(ts, l.idx + 1, table, cf, l.st);
    }
    assert forall|ts: Seq<SpecToken>, i: int, table: Seq<SFunc>, cf: Seq<char>, st: SState, ident: Seq<char>, kind: VarKind|
        same_frame(st, #[trigger] spec_target_index(ts, i, table, cf, st, ident, kind).st) by {
        reveal(spec_target_index);
        lemma_expression_frame(ts, i + 1, table, cf, st);
    }
    assert forall|ts: Seq<SpecToken>, i: int, table: Seq<SFunc>, cf: Seq<char>, st: SState, f: SFunc, rhs: SExpr|
        same_frame(st, #[trigger] spec_source_index(ts, i, table, cf, st, f, rhs).st) by {
        reveal(spec_source_index);
        lemma_expression_frame(ts, i + 1, table, cf, st);
    }
}

/* The loop stack */

/// A statement that is accepted leaves the loop stack as it found it: the
/// loops it opens are closed again.
pub proof fn law_statement_keeps_loop_stack(ts: Seq<SpecToken>, i: int, table: Seq<SFunc>, cf: Seq<char>, st: SState)
    ensures
        spec_statement(ts, i, table, cf, st).res is Ok
            ==> spec_statement(ts, i, table, cf, st).st.loop_stack == st.loop_stack,
    decreases remaining(ts.len(), i), 1nat,
{
    reveal_with_fuel(spec_statement, 1); reveal_with_fuel(spec_block, 1); reveal_with_fuel(spec_while, 1); reveal_with_fuel(spec_if, 1);
    lemma_expressions_keep_frame();
    if 0 <= i < ts.len() {
        match ts[i] {
            SpecToken::Int => { reveal(spec_declaration); },
            SpecToken::Return => { reveal(spec_return); },
            SpecToken::Print => { reveal(spec_print); },
            SpecToken::Read => { reveal(spec_read); },
            SpecToken::Break => { reveal(spec_break); },
            SpecToken::Continue => { reveal(spec_continue); },
            SpecToken::If => { law_if_keeps_loop_stack(ts, i, table, cf, st); },
            SpecToken::While => { law_while_keeps_loop_stack(ts, i, table, cf, st); },
            SpecToken::Ident(_) => { reveal(spec_assignment); },
            _ => {},
        }
    }
}

/// A block of statements that is accepted leaves the loop stack as it
/// found it.
pub proof fn law_block_keeps_loop_stack(ts: Seq<SpecToken>, i: int, table: Seq<SFunc>, cf: Seq<char>, st: SState, acc: Seq<char>)
    ensures
        spec_block(ts, i, table, cf, st, acc).res is Ok
            ==> spec_block(ts, i, table, cf, st, acc).st.loop_stack == st.loop_stack,
    decreases remaining(ts.len(), i), 2nat,
{
    reveal_with_fuel(spec_statement, 1); reveal_with_fuel(spec_block, 1); reveal_with_fuel(spec_while, 1); reveal_with_fuel(spec_if, 1);
    if 0 <= i < ts.len() && !(ts[i] is RightCurly) {
        law_statement_keeps_loop_stack(ts, i, table, cf, st);
        let s = spec_statement(ts, i, table, cf, st);
        if s.res is Ok && s.idx > i {
            law_block_keeps_loop_stack(ts, s.idx, s.table, cf, s.st, acc + s.res->Ok_0);
        }
    }
}

/// A loop statement that is accepted pops the loop it pushed.
pub proof fn law_while_keeps_loop_stack(ts: Seq<SpecToken>, i: int, table: Seq<SFunc>, cf: Seq<char>, st: SState)
    ensures
        spec_while(ts, i, table, cf, st).res is Ok ==> spec_while(ts, i, table, cf, st).st.loop_stack == st.loop_stack,
    decreases remaining(ts.len(), i), 0nat,
{
    reveal_with_fuel(spec_statement, 1); reveal_with_fuel(spec_block, 1); reveal_with_fuel(spec_while, 1); reveal_with_fuel(spec_if, 1);
    lemma_expressions_keep_frame();
    if 0 <= i < ts.len() && ts[i] is While {
        let id = st.label_counter;
        let begin = ":loopbegin"@ + int_decimal(id);
        let end = ":endloop"@ + int_decimal(id);
        let st1 = SState { label_counter: id + 1, loop_stack: st.loop_stack.push(SLoop { begin, end }), ..st };
        let c = spec_boolean(ts, i + 1, table, cf, st1);
        if c.res is Ok && c.idx >= i && ts[c.idx] is LeftCurly {
            let cond = c.res->Ok_0;
            let code = begin + "\n"@ + cond.code + "%branch_ifn "@ + cond.name + ", "@ + end + "\n"@;
            law_block_keeps_loop_stack(ts, c.idx + 1, table, cf, c.st, code);
            assert(st1.loop_stack.drop_last() =~= st.loop_stack);
        }
    }
}

/// A conditional statement that is accepted leaves the loop stack as it
/// found it.
pub proof fn law_if_keeps_loop_stack(ts: Seq<SpecToken>, i: int, table: Seq<SFunc>, cf: Seq<char>, st: SState)
    ensures
        spec_if(ts, i, table, cf, st).res is Ok ==> spec_if(ts, i, table, cf, st).st.loop_stack == st.loop_stack,
    decreases remaining(ts.len(), i), 0nat,
{
    reveal_with_fuel(spec_statement, 1); reveal_with_fuel(spec_block, 1); reveal_with_fuel(spec_while, 1); reveal_with_fuel(spec_if, 1);
    lemma_expressions_keep_frame();
    if 0 <= i < ts.len() && ts[i] is If {
        let c = spec_boolean(ts, i + 1, table, cf, st);
        if c.res is Ok && c.idx >= i && ts[c.idx] is LeftCurly {
            let st1 = SState { if_counter: c.st.if_counter + 1, ..c.st };
            law_block_keeps_loop_stack(ts, c.idx + 1, table, cf, st1, seq![]);
            let b = spec_block(ts, c.idx + 1, table, cf, st1, seq![]);
            if b.res is Ok && ts[b.idx] is RightCurly && b.idx >= i && ts[b.idx + 1] is Else
                && ts[b.idx + 2] is LeftCurly {
                law_block_keeps_loop_stack(ts, b.idx + 3, b.table, cf, b.st, seq![]);
            }
        }
    }
}

/// A function definition that is accepted leaves the loop stack as it
/// found it, and so does a sequence of accepted definitions: the body of
/// every function of a program is parsed outside any loop.
pub proof fn law_functions_keep_loop_stack(ts: Seq<SpecToken>, i: int, table: Seq<SFunc>, st: SState, acc: Seq<char>)
    ensures
        spec_function(ts, i, table, st).res is Ok ==> spec_function(ts, i, table, st).st.loop_stack == st.loop_stack,
        spec_functions(ts, i, table, st, acc).res is Ok ==> spec_functions(ts, i, table, st, acc).st.loop_stack == st.loop_stack,
    decreases remaining(ts.len(), i),
{
    reveal(spec_function);
    reveal(spec_params);
    reveal_with_fuel(spec_functions, 1);
    if ts[i] is Func && ts[i + 1] is Ident {
        let name = ts[i + 1]->Ident_0;
        let t1 = spec_add_function(table, name).1;
        let p = spec_params(ts, i + 3, t1, name);
        if p.res is Ok && ts[p.idx] is RightParen && ts[p.idx + 1] is LeftCurly {
            let header = "%func "@ + name + "("@ + crate::text::join(p.res->Ok_0, ", "@) + ")\n"@;
            law_block_keeps_loop_stack(ts, p.idx + 2, p.table, name, st, header);
        }
    }
    if 0 <= i < ts.len() && !(ts[i] is End) {
        let f = spec_function(ts, i, table, st);
        if f.res is Ok && f.idx > i {
            law_functions_keep_loop_stack(ts, f.idx, f.table, f.st, acc + f.res->Ok_0);
        }
    }
}

/// `break ;` jumps to the end of the innermost enclosing loop, and is
/// refused where no loop encloses it.
pub proof fn law_break_needs_loop(ts: Seq<SpecToken>, i: int, table: Seq<SFunc>, cf: Seq<char>, st: SState)
    requires
        0 <= i < ts.len(),
        ts[i] is Break,
        ts[i + 1] is Semicolon,
    ensures
        spec_statement(ts, i, table, cf, st).res == (if st.loop_stack.len() == 0 {
            Err::<Seq<char>, Seq<char>>("Used 'break' outside of a loop"@)
        } else {
            Ok("%jmp "@ + st.loop_stack.last().end + "\n"@)
        }),
{
    reveal_with_fuel(spec_statement, 1);
    reveal(spec_break);
}

/// `continue ;` jumps to the beginning of the innermost enclosing loop,
/// and is refused where no loop encloses it.
pub proof fn law_continue_needs_loop(ts: Seq<SpecToken>, i: int, table: Seq<SFunc>, cf: Seq<char>, st: SState)
    requires
        0 <= i < ts.len(),
        ts[i] is Continue,
        ts[i + 1] is Semicolon,
    ensures
        spec_statement(ts, i, table, cf, st).res == (if st.loop_stack.len() == 0 {
            Err::<Seq<char>, Seq<char>>("Used 'continue' outside of a loop"@)
        } else {
            Ok("%jmp "@ + st.loop_stack.last().begin + "\n"@)
        }),
{
    reveal_with_fuel(spec_statement, 1);
    reveal(spec_continue);
}

/* Names kept apart over a whole parse */

proof fn lemma_statement_names(ts: Seq<SpecToken>, i: int, table: Seq<SFunc>, cf: Seq<char>, st: SState)
    requires
        well_named(table),
    ensures
        well_named(spec_statement(ts, i, table, cf, st).table),
    decreases remaining(ts.len(), i), 1nat,
{
    reveal_with_fuel(spec_statement, 1); reveal_with_fuel(spec_block, 1); reveal_with_fuel(spec_while, 1); reveal_with_fuel(spec_if, 1);
    if 0 <= i < ts.len() {
        match ts[i] {
            SpecToken::Int => {
                reveal(spec_declaration);
                law_insertions_keep_names_apart(table, cf, cf, SVar { name: seq![], kind: VarKind::Scalar });
                assert forall|name: Seq<char>, kind: VarKind| well_named(#[trigger] spec_add_local(table, cf, SVar { name, kind }).1) by {
                    law_insertions_keep_names_apart(table, cf, cf, SVar { name, kind });
                }
            },
            SpecToken::Return => { reveal(spec_return); },
            SpecToken::Print => { reveal(spec_print); },
            SpecToken::Read => { reveal(spec_read); },
            SpecToken::Break => { reveal(spec_break); },
            SpecToken::Continue => { reveal(spec_continue); },
            SpecToken::If => { lemma_if_names(ts, i, table, cf, st); },
            SpecToken::While => { lemma_while_names(ts, i, table, cf, st); },
            SpecToken::Ident(_) => { reveal(spec_assignment); },
            _ => {},
        }
    }
}

proof fn lemma_block_names(ts: Seq<SpecToken>, i: int, table: Seq<SFunc>, cf: Seq<char>, st: SState, acc: Seq<char>)
    requires
        well_named(table),
    ensures
        well_named(spec_block(ts, i, table, cf, st, acc).table),
    decreases remaining(ts.len(), i), 2nat,
{
    reveal_with_fuel(spec_statement, 1); reveal_with_fuel(spec_block, 1); reveal_with_fuel(spec_while, 1); reveal_with_fuel(spec_if, 1);
    if 0 <= i < ts.len() && !(ts[i] is RightCurly) {
        lemma_statement_names(ts, i, table, cf, st);
        let s = spec_statement(ts, i, table, cf, st);
        if s.res is Ok && s.idx > i {
            lemma_block_names(ts, s.idx, s.table, cf, s.st, acc + s.res->Ok_0);
        }
    }
}

proof fn lemma_while_names(ts: Seq<SpecToken>, i: int, table: Seq<SFunc>, cf: Seq<char>, st: SState)
    requires
        well_named(table),
    ensures
        well_named(spec_while(ts, i, table, cf, st).table),
    decreases remaining(ts.len(), i), 0nat,
{
    reveal_with_fuel(spec_statement, 1); reveal_with_fuel(spec_block, 1); reveal_with_fuel(spec_while, 1); reveal_with_fuel(spec_if, 1);
    if 0 <= i < ts.len() && ts[i] is While {
        let id = st.label_counter;
        let begin = ":loopbegin"@ + int_decimal(id);
        let end = ":endloop"@ + int_decimal(id);
        let st1 = SState { label_counter: id + 1, loop_stack: st.loop_stack.push(SLoop { begin, end }), ..st };
        let c = spec_boolean(ts, i + 1, table, cf, st1);
        if c.res is Ok && c.idx >= i && ts[c.idx] is LeftCurly {
            let cond = c.res->Ok_0;
            let code = begin + "\n"@ + cond.code + "%branch_ifn "@ + cond.name + ", "@ + end + "\n"@;
            lemma_block_names(ts, c.idx + 1, table, cf, c.st, code);
        }
    }
}

proof fn lemma_if_names(ts: Seq<SpecToken>, i: int, table: Seq<SFunc>, cf: Seq<char>, st: SState)
    requires
        well_named(table),
    ensures
        well_named(spec_if(ts, i, table, cf, st).table),
    decreases remaining(ts.len(), i), 0nat,
{
    reveal_with_fuel(spec_statement, 1); reveal_with_fuel(spec_block, 1); reveal_with_fuel(spec_while, 1); reveal_with_fuel(spec_if, 1);
    if 0 <= i < ts.len() && ts[i] is If {
        let c = spec_boolean(ts, i + 1, table, cf, st);
        if c.res is Ok && c.idx >= i && ts[c.idx] is LeftCurly {
            let st1 = SState { if_counter: c.st.if_counter + 1, ..c.st };
            lemma_block_names(ts, c.idx + 1, table, cf, st1, seq![]);
            let b = spec_block(ts, c.idx + 1, table, cf, st1, seq![]);
            if b.res is Ok && ts[b.idx] is RightCurly && b.idx >= i && ts[b.idx + 1] is Else
                && ts[b.idx + 2] is LeftCurly {
                lemma_block_names(ts, b.idx + 3, b.table, cf, b.st, seq![]);
            }
        }
    }
}

proof fn lemma_one_param_names(ts: Seq<SpecToken>, i: int, table: Seq<SFunc>, fname: Seq<char>, params: Seq<Seq<char>>)
    requires
        well_named(table),
    ensures
        well_named(spec_one_param(ts, i, table, fname, params).table),
{
    reveal(spec_one_param);
    assert forall|name: Seq<char>| well_named(#[trigger] spec_add_param(table, fname, SVar { name, kind: VarKind::Scalar }).1) by {
        law_insertions_keep_names_apart(table, fname, fname, SVar { name, kind: VarKind::Scalar });
    }
}

proof fn lemma_more_params_names(ts: Seq<SpecToken>, i: int, table: Seq<SFunc>, fname: Seq<char>, params: Seq<Seq<char>>)
    requires
        well_named(table),
    ensures
        well_named(spec_more_params(ts, i, table, fname, params).table),
    decreases remaining(ts.len(), i),
{
    reveal_with_fuel(spec_more_params, 1);
    if 0 <= i < ts.len() && ts[i] is Comma {
        lemma_one_param_names(ts, i + 1, table, fname, params);
        let p = spec_one_param(ts, i + 1, table, fname, params);
        if p.res is Ok && p.idx > i {
            lemma_more_params_names(ts, p.idx, p.table, fname, p.res->Ok_0);
        }
    }
}

proof fn lemma_function_names(ts: Seq<SpecToken>, i: int, table: Seq<SFunc>, st: SState)
    requires
        well_named(table),
    ensures
        well_named(spec_function(ts, i, table, st).table),
{
    reveal(spec_function);
    reveal(spec_params);
    if ts[i] is Func && ts[i + 1] is Ident {
        let name = ts[i + 1]->Ident_0;
        law_insertions_keep_names_apart(table, name, name, SVar { name, kind: VarKind::Scalar });
        let t1 = spec_add_function(table, name).1;
        lemma_one_param_names(ts, i + 3, t1, name, seq![]);
        let p1 = spec_one_param(ts, i + 3, t1, name, seq![]);
        if p1.res is Ok {
            lemma_more_params_names(ts, p1.idx, p1.table, name, p1.res->Ok_0);
        }
        let p = spec_params(ts, i + 3, t1, name);
        if p.res is Ok && ts[p.idx] is RightParen && ts[p.idx + 1] is LeftCurly {
            let header = "%func "@ + name + "("@ + crate::text::join(p.res->Ok_0, ", "@) + ")\n"@;
            lemma_block_names(ts, p.idx + 2, p.table, name, st, header);
        }
    }
}

proof fn lemma_functions_names(ts: Seq<SpecToken>, i: int, table: Seq<SFunc>, st: SState, acc: Seq<char>)
    requires
        well_named(table),
    ensures
        well_named(spec_functions(ts, i, table, st, acc).table),
    decreases remaining(ts.len(), i),
{
    reveal_with_fuel(spec_functions, 1);
    if 0 <= i < ts.len() && !(ts[i] is End) {
        lemma_function_names(ts, i, table, st);
        let f = spec_function(ts, i, table, st);
        if f.res is Ok && f.idx > i {
            lemma_functions_names(ts, f.idx, f.table, f.st, acc + f.res->Ok_0);
        }
    }
}

/// Whatever the program, accepted or refused, the symbol table that its
/// parse builds never holds two functions of one name, nor two variables
/// of one name (parameters and locals together) in one function.
pub proof fn law_program_names_apart(ts: Seq<SpecToken>, i: int)
    ensures
        well_named(spec_program(ts, i).table),
{
    reveal(spec_program);
    lemma_functions_names(ts, i, seq![], crate::parser::program::initial_state(), seq![]);
}

/* What a statement and a function definition change in the table */

/// From `t0` to `t1` the table keeps its length and its names, and every
/// function not named `f` is unchanged.
pub open spec fn keeps_others(t0: Seq<SFunc>, t1: Seq<SFunc>, f: Seq<char>) -> bool {
    &&& t1.len() == t0.len()
    &&& forall|k: int| 0 <= k < t0.len() ==> (#[trigger] t1[k]).name == t0[k].name
    &&& forall|k: int| 0 <= k < t0.len() && t0[k].name != f ==> #[trigger] t1[k] == t0[k]
}

/// From `t0` to `t1` only the locals of the function named `f` grew: the
/// table keeps its length and names, no parameter changed, every local
/// list of `t0` is a prefix of the one in `t1`, and functions not named
/// `f` are unchanged.
pub open spec fn only_locals_grow(t0: Seq<SFunc>, t1: Seq<SFunc>, f: Seq<char>) -> bool {
    &&& keeps_others(t0, t1, f)
    &&& forall|k: int| 0 <= k < t0.len() ==> (#[trigger] t1[k]).params == t0[k].params
        && t0[k].locals.len() <= t1[k].locals.len()
        && t1[k].locals.subrange(0, t0[k].locals.len() as int) == t0[k].locals
}

proof fn lemma_only_locals_grow_refl(t: Seq<SFunc>, f: Seq<char>)
    ensures
        only_locals_grow(t, t, f),
{
    assert forall|k: int| 0 <= k < t.len() implies (#[trigger] t[k]).locals.subrange(0, t[k].locals.len() as int) == t[k].locals by {
        assert(t[k].locals.subrange(0, t[k].locals.len() as int) =~= t[k].locals);
    }
}

proof fn lemma_only_locals_grow_trans(t0: Seq<SFunc>, t1: Seq<SFunc>, t2: Seq<SFunc>, f: Seq<char>)
    requires
        only_locals_grow(t0, t1, f),
        only_locals_grow(t1, t2, f),
    ensures
        only_locals_grow(t0, t2, f),
{
    assert forall|k: int| 0 <= k < t0.len() implies (#[trigger] t2[k]).params == t0[k].params
        && t0[k].locals.len() <= t2[k].locals.len()
        && t2[k].locals.subrange(0, t0[k].locals.len() as int) == t0[k].locals by {
        assert(t1[k].params == t0[k].params);
        assert(t2[k].params == t1[k].params);
        assert(t2[k].locals.subrange(0, t0[k].locals.len() as int)
            =~= t2[k].locals.subrange(0, t1[k].locals.len() as int).subrange(0, t0[k].locals.len() as int));
    }
    assert forall|k: int| 0 <= k < t0.len() implies (#[trigger] t2[k]).name == t0[k].name by {
        assert(t1[k].name == t0[k].name);
    }
    assert forall|k: int| 0 <= k < t0.len() && t0[k].name != f implies #[trigger] t2[k] == t0[k] by {
        assert(t1[k] == t0[k]);
    }
}

proof fn lemma_keeps_others_trans(t0: Seq<SFunc>, t1: Seq<SFunc>, t2: Seq<SFunc>, f: Seq<char>)
    requires
        keeps_others(t0, t1, f),
        keeps_others(t1, t2, f),
    ensures
        keeps_others(t0, t2, f),
{
    assert forall|k: int| 0 <= k < t0.len() implies (#[trigger] t2[k]).name == t0[k].name by {
        assert(t1[k].name == t0[k].name);
    }
    assert forall|k: int| 0 <= k < t0.len() && t0[k].name != f implies #[trigger] t2[k] == t0[k] by {
        assert(t1[k] == t0[k]);
    }
}

proof fn lemma_add_local_grows(fs: Seq<SFunc>, f: Seq<char>, var: SVar)
    ensures
        only_locals_grow(fs, spec_add_local(fs, f, var).1, f),
{
    lemma_function_index_from(fs, f, 0);
    lemma_only_locals_grow_refl(fs, f);
    if function_index_from(fs, f, 0) is Some {
        let k = function_index_from(fs, f, 0)->0;
        let g = fs[k];
        let (r, locals) = crate::parser::program::spec_add_variable(g.locals, g.params, var);
        let fs2 = fs.update(k, SFunc { locals, ..g });
        assert(locals.subrange(0, g.locals.len() as int) =~= g.locals);
        assert forall|j: int| 0 <= j < fs.len() implies (#[trigger] fs2[j]).params == fs[j].params
            && fs[j].locals.len() <= fs2[j].locals.len()
            && fs2[j].locals.subrange(0, fs[j].locals.len() as int) == fs[j].locals by {
            if j != k {
                assert(fs2[j] == fs[j]);
                assert(fs[j].locals.subrange(0, fs[j].locals.len() as int) =~= fs[j].locals);
            }
        }
    }
}

proof fn lemma_add_param_keeps_others(fs: Seq<SFunc>, f: Seq<char>, var: SVar)
    ensures
        keeps_others(fs, spec_add_param(fs, f, var).1, f),
{
    lemma_function_index_from(fs, f, 0);
}

proof fn lemma_statement_grows(ts: Seq<SpecToken>, i: int, table: Seq<SFunc>, cf: Seq<char>, st: SState)
    ensures
        only_locals_grow(table, spec_statement(ts, i, table, cf, st).table, cf),
    decreases remaining(ts.len(), i), 1nat,
{
    reveal_with_fuel(spec_statement, 1); reveal_with_fuel(spec_block, 1); reveal_with_fuel(spec_while, 1); reveal_with_fuel(spec_if, 1);
    lemma_only_locals_grow_refl(table, cf);
    if 0 <= i < ts.len() {
        match ts[i] {
            SpecToken::Int => {
                reveal(spec_declaration);
                assert forall|name: Seq<char>, kind: VarKind| only_locals_grow(table, #[trigger] spec_add_local(table, cf, SVar { name, kind }).1, cf) by {
                    lemma_add_local_grows(table, cf, SVar { name, kind });
                }
            },
            SpecToken::Return => { reveal(spec_return); },
            SpecToken::Print => { reveal(spec_print); },
            SpecToken::Read => { reveal(spec_read); },
            SpecToken::Break => { reveal(spec_break); },
            SpecToken::Continue => { reveal(spec_continue); },
            SpecToken::If => { lemma_if_grows(ts, i, table, cf, st); },
            SpecToken::While => { lemma_while_grows(ts, i, table, cf, st); },
            SpecToken::Ident(_) => { reveal(spec_assignment); },
            _ => {},
        }
    }
}

proof fn lemma_block_grows(ts: Seq<SpecToken>, i: int, table: Seq<SFunc>, cf: Seq<char>, st: SState, acc: Seq<char>)
    ensures
        only_locals_grow(table, spec_block(ts, i, table, cf, st, acc).table, cf),
        spec_block(ts, i, table, cf, st, acc).res matches Ok(code)
            ==> acc.len() <= code.len() && code.subrange(0, acc.len() as int) == acc,
    decreases remaining(ts.len(), i), 2nat,
{
    reveal_with_fuel(spec_statement, 1); reveal_with_fuel(spec_block, 1); reveal_with_fuel(spec_while, 1); reveal_with_fuel(spec_if, 1);
    lemma_only_locals_grow_refl(table, cf);
    assert(acc.subrange(0, acc.len() as int) =~= acc);
    if 0 <= i < ts.len() && !(ts[i] is RightCurly) {
        lemma_statement_grows(ts, i, table, cf, st);
        let s = spec_statement(ts, i, table, cf, st);
        if s.res is Ok && s.idx > i {
            let acc2 = acc + s.res->Ok_0;
            lemma_block_grows(ts, s.idx, s.table, cf, s.st, acc2);
            lemma_only_locals_grow_trans(table, s.table, spec_block(ts, s.idx, s.table, cf, s.st, acc2).table, cf);
            let b = spec_block(ts, s.idx, s.table, cf, s.st, acc2);
            if b.res is Ok {
                let code = b.res->Ok_0;
                assert(code.subrange(0, acc.len() as int) =~= code.subrange(0, acc2.len() as int).subrange(0, acc.len() as int));
                assert(acc2.subrange(0, acc.len() as int) =~= acc);
            }
        }
    }
}

proof fn lemma_while_grows(ts: Seq<SpecToken>, i: int, table: Seq<SFunc>, cf: Seq<char>, st: SState)
    ensures
        only_locals_grow(table, spec_while(ts, i, table, cf, st).table, cf),
    decreases remaining(ts.len(), i), 0nat,
{
    reveal_with_fuel(spec_statement, 1); reveal_with_fuel(spec_block, 1); reveal_with_fuel(spec_while, 1); reveal_with_fuel(spec_if, 1);
    lemma_only_locals_grow_refl(table, cf);
    if 0 <= i < ts.len() && ts[i] is While {
        let id = st.label_counter;
        let begin = ":loopbegin"@ + int_decimal(id);
        let end = ":endloop"@ + int_decimal(id);
        let st1 = SState { label_counter: id + 1, loop_stack: st.loop_stack.push(SLoop { begin, end }), ..st };
        let c = spec_boolean(ts, i + 1, table, cf, st1);
        if c.res is Ok && c.idx >= i && ts[c.idx] is LeftCurly {
            let cond = c.res->Ok_0;
            let code = begin + "\n"@ + cond.code + "%branch_ifn "@ + cond.name + ", "@ + end + "\n"@;
            lemma_block_grows(ts, c.idx + 1, table, cf, c.st, code);
        }
    }
}

proof fn lemma_if_grows(ts: Seq<SpecToken>, i: int, table: Seq<SFunc>, cf: Seq<char>, st: SState)
    ensures
        only_locals_grow(table, spec_if(ts, i, table, cf, st).table, cf),
    decreases remaining(ts.len(), i), 0nat,
{
    reveal_with_fuel(spec_statement, 1); reveal_with_fuel(spec_block, 1); reveal_with_fuel(spec_while, 1); reveal_with_fuel(spec_if, 1);
    lemma_only_locals_grow_refl(table, cf);
    if 0 <= i < ts.len() && ts[i] is If {
        let c = spec_boolean(ts, i + 1, table, cf, st);
        if c.res is Ok && c.idx >= i && ts[c.idx] is LeftCurly {
            let st1 = SState { if_counter: c.st.if_counter + 1, ..c.st };
            lemma_block_grows(ts, c.idx + 1, table, cf, st1, seq![]);
            let b = spec_block(ts, c.idx + 1, table, cf, st1, seq![]);
            if b.res is Ok && ts[b.idx] is RightCurly && b.idx >= i && ts[b.idx + 1] is Else
                && ts[b.idx + 2] is LeftCurly {
                lemma_block_grows(ts, b.idx + 3, b.table, cf, b.st, seq![]);
                lemma_only_locals_grow_trans(table, b.table, spec_block(ts, b.idx + 3, b.table, cf, b.st, seq![]).table, cf);
            }
        }
    }
}

/// A statement, accepted or refused, changes the symbol table only by
/// adding locals to the current function `cf`: the table keeps its
/// functions and their names, no parameter changes, the locals of `cf`
/// only grow at the end, and every other function is unchanged.
pub proof fn law_statement_only_adds_locals(ts: Seq<SpecToken>, i: int, table: Seq<SFunc>, cf: Seq<char>, st: SState)
    ensures
        only_locals_grow(table, spec_statement(ts, i, table, cf, st).table, cf),
{
    lemma_statement_grows(ts, i, table, cf, st);
}

proof fn lemma_more_params_keep_others(ts: Seq<SpecToken>, i: int, table: Seq<SFunc>, fname: Seq<char>, params: Seq<Seq<char>>)
    ensures
        keeps_others(table, spec_more_params(ts, i, table, fname, params).table, fname),
    decreases remaining(ts.len(), i),
{
    reveal_with_fuel(spec_more_params, 1);
    reveal(spec_one_param);
    assert forall|name: Seq<char>| keeps_others(table, #[trigger] spec_add_param(table, fname, SVar { name, kind: VarKind::Scalar }).1, fname) by {
        lemma_add_param_keeps_others(table, fname, SVar { name, kind: VarKind::Scalar });
    }
    if 0 <= i < ts.len() && ts[i] is Comma {
        let p = spec_one_param(ts, i + 1, table, fname, params);
        if p.res is Ok && p.idx > i {
            lemma_more_params_keep_others(ts, p.idx, p.table, fname, p.res->Ok_0);
            lemma_keeps_others_trans(table, p.table, spec_more_params(ts, p.idx, p.table, fname, p.res->Ok_0).table, fname);
        }
    }
}

/// A function definition `func name(...) { ... }` that is accepted adds
/// exactly one function to the table, named `name`, after the functions
/// already there, which it leaves unchanged; its IR begins with
/// `%func name(` and ends with `%endfunc`.
pub proof fn law_function_adds_one_entry(ts: Seq<SpecToken>, i: int, table: Seq<SFunc>, st: SState, name: Seq<char>)
    requires
        0 <= i,
        ts[i] is Func,
        ts[i + 1] == SpecToken::Ident(name),
    ensures
        ({
            let o = spec_function(ts, i, table, st);
            o.res is Ok ==> {
                let code = o.res->Ok_0;
                let head = "%func "@ + name + "("@;
                let tail = "%endfunc\n"@;
                &&& o.table.len() == table.len() + 1
                &&& o.table.subrange(0, table.len() as int) == table
                &&& o.table.last().name == name
                &&& head.len() <= code.len() && code.subrange(0, head.len() as int) == head
                &&& tail.len() <= code.len() && code.subrange(code.len() - tail.len(), code.len() as int) == tail
            }
        }),
{
    reveal(spec_function);
    reveal(spec_params);
    reveal(spec_one_param);
    let o = spec_function(ts, i, table, st);
    if o.res is Ok {
        lemma_function_index_from(table, name, 0);
        let x = SFunc { name, params: seq![], locals: seq![] };
        let t1 = table.push(x);
        assert(spec_add_function(table, name).1 == t1);
        let n = table.len() as int;
        // the parameters
        assert forall|pname: Seq<char>| keeps_others(t1, #[trigger] spec_add_param(t1, name, SVar { name: pname, kind: VarKind::Scalar }).1, name) by {
            lemma_add_param_keeps_others(t1, name, SVar { name: pname, kind: VarKind::Scalar });
        }
        let p = spec_params(ts, i + 3, t1, name);
        if !(ts[i + 3] is RightParen) {
            let p1 = spec_one_param(ts, i + 3, t1, name, seq![]);
            lemma_more_params_keep_others(ts, p1.idx, p1.table, name, p1.res->Ok_0);
            lemma_keeps_others_trans(t1, p1.table, p.table, name);
        } else {
            lemma_only_locals_grow_refl(t1, name);
        }
        assert(keeps_others(t1, p.table, name));
        // the body
        let header = "%func "@ + name + "("@ + crate::text::join(p.res->Ok_0, ", "@) + ")\n"@;
        lemma_block_grows(ts, p.idx + 2, p.table, name, st, header);
        let b = spec_block(ts, p.idx + 2, p.table, name, st, header);
        lemma_keeps_others_trans(t1, p.table, b.table, name);
        assert forall|k: int| 0 <= k < n implies #[trigger] b.table[k] == table[k] by {
            assert(t1[k] == table[k]);
            assert(table[k].name != name);
        }
        assert(b.table.subrange(0, n) =~= table);
        assert(b.table[n].name == t1[n].name);
        let head = "%func "@ + name + "("@;
        let code = b.res->Ok_0;
        assert(code.subrange(0, head.len() as int) =~= code.subrange(0, header.len() as int).subrange(0, head.len() as int));
        assert(header.subrange(0, head.len() as int) =~= head);
        let tail = "%endfunc\n"@;
        assert((code + tail).subrange(code.len() as int, (code + tail).len() as int) =~= tail);
    }
}

/* Semantic checks */

/// An identifier that begins an expression is checked against the symbol
/// table: a call of an undefined function, a variable that the current
/// function does not declare, an array used without an index and a scalar
/// used with one are each refused with their own message.
pub proof fn law_expression_names_checked(
    ts: Seq<SpecToken>,
    i: int,
    table: Seq<SFunc>,
    cf: Seq<char>,
    st: SState,
    name: Seq<char>,
)
    requires
        0 <= i < ts.len(),
        ts[i] == SpecToken::Ident(name),
    ensures
        ({
            let r = spec_expression(ts, i, table, cf, st).res;
            &&& ts[i + 1] is LeftParen && lookup_function(table, name) is None
                ==> r == Err::<SExpr, Seq<char>>("Function '"@ + name + "' is not defined"@)
            &&& (!(ts[i + 1] is LeftParen) && lookup_function(table, cf) is Some)
                ==> match lookup_variable(lookup_function(table, cf)->0, name) {
                    None => r == Err::<SExpr, Seq<char>>("Variable '"@ + name + "' used without declaration"@),
                    Some(v) => {
                        &&& v.kind is Array && !(ts[i + 1] is LeftBracket)
                            ==> r == Err::<SExpr, Seq<char>>("Variable '"@ + name + "' is an array but used as a scalar"@)
                        &&& !(v.kind is Array) && ts[i + 1] is LeftBracket
                            ==> r == Err::<SExpr, Seq<char>>("Variable '"@ + name + "' is not an array"@)
                    },
                }
        }),
{
    reveal_with_fuel(spec_expression, 1); reveal_with_fuel(spec_expression_rest, 1); reveal_with_fuel(spec_multiply, 1); reveal_with_fuel(spec_multiply_rest, 1); reveal_with_fuel(spec_term, 1); reveal_with_fuel(spec_call, 1); reveal_with_fuel(spec_call_args, 1); reveal_with_fuel(spec_variable, 1);
    reveal(spec_boolean);
    let t = spec_term(ts, i, table, cf, st);
    if t.res is Err {
        assert(spec_multiply(ts, i, table, cf, st) == t);
        assert(spec_expression(ts, i, table, cf, st) == t);
    }
}

/// The target of an assignment is checked against the symbol table: a
/// variable that the current function does not declare, an array assigned
/// without an index and a scalar assigned with one are each refused.
pub proof fn law_assignment_target_checked(
    ts: Seq<SpecToken>,
    i: int,
    table: Seq<SFunc>,
    cf: Seq<char>,
    st: SState,
    name: Seq<char>,
    f: SFunc,
)
    requires
        0 <= i < ts.len(),
        ts[i] == SpecToken::Ident(name),
        !(ts[i + 1] is LeftParen),
        lookup_function(table, cf) == Some(f),
    ensures
        ({
            let r = spec_statement(ts, i, table, cf, st).res;
            match lookup_variable(f, name) {
                None => r == Err::<Seq<char>, Seq<char>>("Variable '"@ + name + "' not declared in function '"@ + cf + "'"@),
                Some(v) => {
                    &&& v.kind is Array && !(ts[i + 1] is LeftBracket)
                        ==> r == Err::<Seq<char>, Seq<char>>("Type mismatch: array variable '"@ + name + "' used as a scalar"@)
                    &&& !(v.kind is Array) && ts[i + 1] is LeftBracket
                        ==> r == Err::<Seq<char>, Seq<char>>("Type mismatch: scalar variable '"@ + name + "' used as an array"@)
                },
            }
        }),
{
    reveal_with_fuel(spec_statement, 1);
    reveal(spec_assignment);
    reveal(spec_target_index);
}

/// A read statement `read(name);` or `read name;` is checked against the
/// symbol table as an assignment target is: a variable that the current
/// function does not declare and an array are refused; a declared scalar
/// is read with `%input`.
pub proof fn law_read_target_checked(
    ts: Seq<SpecToken>,
    i: int,
    table: Seq<SFunc>,
    cf: Seq<char>,
    st: SState,
    name: Seq<char>,
)
    requires
        0 <= i < ts.len(),
        ts[i] is Read,
        ts[i + 1] == SpecToken::Ident(name) || (ts[i + 1] is LeftParen && ts[i + 2] == SpecToken::Ident(name)),
    ensures
        ({
            let r = spec_statement(ts, i, table, cf, st).res;
            &&& lookup_function(table, cf) is None
                ==> r == Err::<Seq<char>, Seq<char>>("Function '"@ + cf + "' not found"@)
            &&& lookup_function(table, cf) is Some ==> match lookup_variable(lookup_function(table, cf)->0, name) {
                None => r == Err::<Seq<char>, Seq<char>>("Variable '"@ + name + "' not declared in function '"@ + cf + "'"@),
                Some(v) => {
                    &&& v.kind is Array
                        ==> r == Err::<Seq<char>, Seq<char>>("Type mismatch: array variable '"@ + name + "' used as a scalar"@)
                    &&& !(v.kind is Array) && (ts[i + 1] is Ident && ts[i + 2] is Semicolon
                        || ts[i + 1] is LeftParen && ts[i + 3] is RightParen && ts[i + 4] is Semicolon)
                        ==> r == Ok::<Seq<char>, Seq<char>>("%input "@ + name + "\n"@)
                },
            }
        }),
{
    reveal_with_fuel(spec_statement, 1);
    reveal(spec_read);
}

/// A scalar declaration `int name ;` or `int name = expr ;` that is
/// accepted makes `name` a scalar of the current function; an array
/// declaration `int [n] name ;` that is accepted makes it an array of
/// size `n`. A name that the function already declares is refused (an
/// array of size 0 is refused for its size first).
pub proof fn law_declaration_then_lookup(
    ts: Seq<SpecToken>,
    i: int,
    table: Seq<SFunc>,
    cf: Seq<char>,
    st: SState,
    name: Seq<char>,
    kind: VarKind,
)
    requires
        0 <= i < ts.len(),
        ts[i] is Int,
        ts[i + 1] == SpecToken::Ident(name) && kind == VarKind::Scalar
            || ts[i + 1] is LeftBracket && ts[i + 2] is Num && ts[i + 3] is RightBracket
                && ts[i + 4] == SpecToken::Ident(name) && kind == VarKind::Array((ts[i + 2]->Num_0) as usize),
    ensures
        ({
            let o = spec_statement(ts, i, table, cf, st);
            &&& o.res is Ok ==> (lookup_function(o.table, cf) matches Some(g)
                && lookup_variable(g, name) == Some(SVar { name, kind }))
            &&& (lookup_function(table, cf) is Some && lookup_variable(lookup_function(table, cf)->0, name) is Some
                && !(kind is Array && kind->Array_0 == 0))
                ==> o.res == Err::<Seq<char>, Seq<char>>("Variable '"@ + name + "' defined more than once"@)
        }),
{
    reveal_with_fuel(spec_statement, 1);
    reveal(spec_declaration);
    let other = name.push('x');
    assert(other.len() != name.len());
    law_add_local_then_lookup(table, cf, SVar { name, kind }, other, cf.push('x'));
    assert(cf.push('x').len() != cf.len());
    lemma_function_index_from(table, cf, 0);
    if lookup_function(table, cf) is Some {
        let k = function_index_from(table, cf, 0)->0;
        let f = table[k];
        lemma_has_var_named(f.params, name);
        lemma_has_var_named(f.locals, name);
        lemma_var_index_from(f.params, name, 0);
        lemma_var_index_from(f.locals, name, 0);
    }
}

/// A program is accepted only if it defines a function named `main`; a
/// program whose functions are all accepted but that has no `main` is
/// refused.
pub proof fn law_program_needs_main(ts: Seq<SpecToken>, i: int)
    ensures
        spec_program(ts, i).res is Ok ==> lookup_function(spec_program(ts, i).table, "main"@) is Some,
        spec_functions(ts, i, seq![], crate::parser::program::initial_state(), seq![]).res is Ok
            && lookup_function(spec_functions(ts, i, seq![], crate::parser::program::initial_state(), seq![]).table, "main"@) is None
            ==> spec_program(ts, i).res == Err::<Seq<char>, Seq<char>>("No 'main' function defined"@),
{
    reveal(spec_program);
}

/* Fresh temporaries and labels */

proof fn lemma_nat_decimal_len(n: nat)
    ensures
        nat_decimal(n).len() >= 1,
        n >= 10 ==> nat_decimal(n).len() >= 2,
    decreases n,
{
    if n >= 10 {
        lemma_nat_decimal_len(n / 10);
    }
}

proof fn lemma_nat_decimal_injective(a: nat, b: nat)
    requires
        nat_decimal(a) == nat_decimal(b),
    ensures
        a == b,
    decreases a,
{
    lemma_nat_decimal_len(a);
    lemma_nat_decimal_len(b);
    let da = nat_decimal(a);
    let db = nat_decimal(b);
    if a < 10 && b < 10 {
        assert(da[0] == db[0]);
    } else if a >= 10 && b >= 10 {
        assert(da.drop_last() =~= nat_decimal(a / 10));
        assert(db.drop_last() =~= nat_decimal(b / 10));
        lemma_nat_decimal_injective(a / 10, b / 10);
        assert(da.last() == db.last());
    }
}

/// Temporaries made at different counts have different names: each
/// temporary a parse makes is fresh, since the temporary counter only
/// grows.
pub proof fn law_temporaries_distinct(n: nat, m: nat)
    requires
        n != m,
    ensures
        temp_name(n) != temp_name(m),
{
    if temp_name(n) == temp_name(m) {
        let p = "_temp"@;
        assert(temp_name(n).subrange(p.len() as int, temp_name(n).len() as int) =~= nat_decimal(n + 1));
        assert(temp_name(m).subrange(p.len() as int, temp_name(m).len() as int) =~= nat_decimal(m + 1));
        lemma_nat_decimal_injective(n + 1, m + 1);
    }
}

proof fn lemma_int_decimal_injective(a: int, b: int)
    requires
        int_decimal(a) == int_decimal(b),
    ensures
        a == b,
{
    lemma_nat_decimal_len(if a < 0 { (-a) as nat } else { a as nat });
    lemma_nat_decimal_len(if b < 0 { (-b) as nat } else { b as nat });
    if a < 0 && b < 0 {
        assert(int_decimal(a).drop_first() =~= nat_decimal((-a) as nat));
        assert(int_decimal(b).drop_first() =~= nat_decimal((-b) as nat));
        lemma_nat_decimal_injective((-a) as nat, (-b) as nat);
    } else if a >= 0 && b >= 0 {
        lemma_nat_decimal_injective(a as nat, b as nat);
    } else {
        // a '-' against a digit
        let n: nat = if a < 0 { b as nat } else { a as nat };
        lemma_nat_decimal_first_digit(n);
        assert(int_decimal(a)[0] == int_decimal(b)[0]);
    }
}

proof fn lemma_nat_decimal_first_digit(n: nat)
    ensures
        nat_decimal(n).len() >= 1,
        48 <= nat_decimal(n)[0] as u32 <= 57,
    decreases n,
{
    if n >= 10 {
        lemma_nat_decimal_first_digit(n / 10);
        assert(nat_decimal(n)[0] == nat_decimal(n / 10)[0]);
    }
}

/// Loops numbered apart get different labels, and so do `if` statements:
/// each loop and each `if` statement of a parse gets labels of its own,
/// since the counters that number them only grow.
pub proof fn law_labels_distinct(a: int, b: int, n: nat, m: nat)
    ensures
        a != b ==> ":loopbegin"@ + int_decimal(a) != ":loopbegin"@ + int_decimal(b),
        a != b ==> ":endloop"@ + int_decimal(a) != ":endloop"@ + int_decimal(b),
        n != m ==> "iftrue"@ + nat_decimal(n) != "iftrue"@ + nat_decimal(m),
        n != m ==> "else"@ + nat_decimal(n) != "else"@ + nat_decimal(m),
        n != m ==> "endif"@ + nat_decimal(n) != "endif"@ + nat_decimal(m),
{
    assert forall|p: Seq<char>, x: Seq<char>, y: Seq<char>| p + x == p + y implies x == y by {
        assert((p + x).subrange(p.len() as int, (p + x).len() as int) =~= x);
        assert((p + y).subrange(p.len() as int, (p + y).len() as int) =~= y);
    }
    if int_decimal(a) == int_decimal(b) {
        lemma_int_decimal_injective(a, b);
    }
    if nat_decimal(n) == nat_decimal(m) {
        lemma_nat_decimal_injective(n, m);
    }
}

} // verus!
